//! The tape: a fixed row of byte cells, a data pointer, and the bytes printed so far.

use vstd::prelude::*;
use crate::errors::BFParseError;

verus! {

/// Number of cells on every tape.
pub const CELLS_AMOUNT: usize = 30000;

/// The mathematical content of a tape.
pub struct Tape {
    /// The cells, left to right.
    pub cells: Seq<u8>,
    /// Index of the selected cell.
    pub ptr: int,
    /// Every byte printed so far, oldest first.
    pub output: Seq<u8>,
}

impl Tape {
    /// A tape as it is before the first instruction: all cells zero, the
    /// pointer on the first cell, nothing printed.
    pub open spec fn fresh() -> Tape {
        Tape { cells: Seq::new(CELLS_AMOUNT as nat, |i: int| 0u8), ptr: 0, output: Seq::empty() }
    }

    /// The pointer selects one of exactly `CELLS_AMOUNT` cells.
    pub open spec fn wf(self) -> bool {
        &&& self.cells.len() == CELLS_AMOUNT
        &&& 0 <= self.ptr < self.cells.len()
    }

    /// The byte in the selected cell.
    pub open spec fn current(self) -> u8 {
        self.cells[self.ptr]
    }

    /// The tape with `c` stored in the selected cell.
    pub open spec fn store(self, c: u8) -> Tape {
        Tape { cells: self.cells.update(self.ptr, c), ..self }
    }

    /// Adding one to the selected cell; a cell at 255 refuses.
    pub open spec fn inc(self) -> Result<Tape, BFParseError> {
        if self.current() == 255 {
            Err(BFParseError::CellMaxConstrOvrfl)
        } else {
            Ok(self.store((self.current() + 1) as u8))
        }
    }

    /// Taking one from the selected cell; a cell at 0 refuses.
    pub open spec fn dec(self) -> Result<Tape, BFParseError> {
        if self.current() == 0 {
            Err(BFParseError::CellMinConstrOvrfl)
        } else {
            Ok(self.store((self.current() - 1) as u8))
        }
    }

    /// Selecting the cell to the left; the first cell has none.
    pub open spec fn lmove(self) -> Result<Tape, BFParseError> {
        if self.ptr == 0 {
            Err(BFParseError::CellNegativeIdx)
        } else {
            Ok(Tape { ptr: self.ptr - 1, ..self })
        }
    }

    /// Selecting the cell to the right; the last cell has none.
    pub open spec fn rmove(self) -> Result<Tape, BFParseError> {
        if self.ptr + 1 >= self.cells.len() {
            Err(BFParseError::CellNoMore)
        } else {
            Ok(Tape { ptr: self.ptr + 1, ..self })
        }
    }

    /// The tape after printing the selected cell.
    pub open spec fn out(self) -> Tape {
        Tape { output: self.output.push(self.current()), ..self }
    }
}

/// The executable tape.
pub struct Automata {
    cells: Vec<u8>,
    cell_ptr: usize,
    chars_to_print: Vec<u8>,
}

impl View for Automata {
    type V = Tape;

    open spec fn view(&self) -> Tape {
        Tape { cells: self.cells(), ptr: self.pointer(), output: self.printed() }
    }
}

impl Automata {
    /// The cells, left to right.
    pub closed spec fn cells(&self) -> Seq<u8> {
        self.cells@
    }

    /// Index of the selected cell.
    pub closed spec fn pointer(&self) -> int {
        self.cell_ptr as int
    }

    /// Every byte printed so far, oldest first.
    pub closed spec fn printed(&self) -> Seq<u8> {
        self.chars_to_print@
    }

    /// The invariant of every tape that this module hands out.
    pub open spec fn wf(&self) -> bool {
        self@.wf()
    }

    /// A tape of `CELLS_AMOUNT` zeroed cells with the pointer on the first.
    pub fn new() -> (tape: Self)
        ensures
            tape.wf(),
            tape@ == Tape::fresh(),
    {
        let mut cells: Vec<u8> = Vec::new();
        let mut i: usize = 0;
        while i < CELLS_AMOUNT
            invariant
                i <= CELLS_AMOUNT,
                cells@.len() == i,
                forall|k: int| 0 <= k < i ==> cells@[k] == 0u8,
            decreases CELLS_AMOUNT - i,
        {
            cells.push(0u8);
            i = i + 1;
        }
        let tape = Automata { cells, cell_ptr: 0, chars_to_print: Vec::new() };
        assert(tape@.cells =~= Tape::fresh().cells);
        assert(tape@.output =~= Tape::fresh().output);
        tape
    }

    /// Adds one to the selected cell, or reports an overflow and changes nothing.
    pub fn inc(&mut self) -> (r: Result<(), BFParseError>)
        requires
            old(self).wf(),
        ensures
            final(self).wf(),
            match old(self)@.inc() {
                Ok(tape) => r is Ok && final(self)@ == tape,
                Err(kind) => r == Err::<(), BFParseError>(kind) && final(self)@ == old(self)@,
            },
    {
        let value = self.cells[self.cell_ptr];
        if value == 255 {
            Err(BFParseError::CellMaxConstrOvrfl)
        } else {
            self.cells.set(self.cell_ptr, value + 1);
            Ok(())
        }
    }

    /// Takes one from the selected cell, or reports an underflow and changes nothing.
    pub fn dec(&mut self) -> (r: Result<(), BFParseError>)
        requires
            old(self).wf(),
        ensures
            final(self).wf(),
            match old(self)@.dec() {
                Ok(tape) => r is Ok && final(self)@ == tape,
                Err(kind) => r == Err::<(), BFParseError>(kind) && final(self)@ == old(self)@,
            },
    {
        let value = self.cells[self.cell_ptr];
        if value == 0 {
            Err(BFParseError::CellMinConstrOvrfl)
        } else {
            self.cells.set(self.cell_ptr, value - 1);
            Ok(())
        }
    }

    /// Selects the cell to the left, or reports that there is none and changes nothing.
    pub fn lmove(&mut self) -> (r: Result<(), BFParseError>)
        requires
            old(self).wf(),
        ensures
            final(self).wf(),
            match old(self)@.lmove() {
                Ok(tape) => r is Ok && final(self)@ == tape,
                Err(kind) => r == Err::<(), BFParseError>(kind) && final(self)@ == old(self)@,
            },
    {
        if self.cell_ptr == 0 {
            Err(BFParseError::CellNegativeIdx)
        } else {
            self.cell_ptr = self.cell_ptr - 1;
            Ok(())
        }
    }

    /// Selects the cell to the right, or reports that there is none and changes nothing.
    pub fn rmove(&mut self) -> (r: Result<(), BFParseError>)
        requires
            old(self).wf(),
        ensures
            final(self).wf(),
            match old(self)@.rmove() {
                Ok(tape) => r is Ok && final(self)@ == tape,
                Err(kind) => r == Err::<(), BFParseError>(kind) && final(self)@ == old(self)@,
            },
    {
        if self.cell_ptr + 1 >= self.cells.len() {
            Err(BFParseError::CellNoMore)
        } else {
            self.cell_ptr = self.cell_ptr + 1;
            Ok(())
        }
    }

    /// Stores `c` in the selected cell. This never fails.
    pub fn set(&mut self, c: u8) -> (r: Result<(), BFParseError>)
        requires
            old(self).wf(),
        ensures
            final(self).wf(),
            r is Ok,
            final(self)@ == old(self)@.store(c),
    {
        self.cells.set(self.cell_ptr, c);
        Ok(())
    }

    /// Appends the selected cell to the printed bytes. This never fails.
    pub fn out(&mut self) -> (r: Result<(), BFParseError>)
        requires
            old(self).wf(),
        ensures
            final(self).wf(),
            r is Ok,
            final(self)@ == old(self)@.out(),
    {
        let value = self.cells[self.cell_ptr];
        self.chars_to_print.push(value);
        Ok(())
    }

    /// The bytes printed so far, oldest first.
    pub fn chars_to_print(&self) -> (bytes: &Vec<u8>)
        ensures
            bytes@ == self@.output,
    {
        &self.chars_to_print
    }

    /// The byte in the selected cell.
    pub fn get(&self) -> (c: u8)
        requires
            self.wf(),
        ensures
            c == self@.current(),
    {
        self.cells[self.cell_ptr]
    }
}

} // verus!
