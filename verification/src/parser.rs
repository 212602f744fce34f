//! The execution engine: a program, its jump table, an instruction pointer
//! and a tape, advanced one symbol at a time.

use std::collections::HashMap;
use vstd::prelude::*;
use crate::automata::Automata;
use crate::brackets::{
    bracket_errors, bracket_records, jump_table, lemma_jump_table_total, lemma_scan_inv, scan,
    well_formed,
};
use crate::errors::{lemma_records_push, records, BFError, BFParseError};
use crate::machine::{lemma_loaded_wf, Machine, Status};

verus! {

/// The executable engine.
pub struct Reader {
    head_ptr: usize,
    brackets: HashMap<usize, usize>,
    program: Vec<char>,
    errors: Vec<BFError>,
    raw_program: String,
    automata: Automata,
}

impl View for Reader {
    type V = Machine;

    closed spec fn view(&self) -> Machine {
        Machine {
            program: self.program@,
            table: self.brackets@,
            head: self.head_ptr as nat,
            tape: self.automata@,
            errors: records(self.errors@),
        }
    }
}

/// The symbols of a text, one per character.
fn symbols_of(text: &str) -> (symbols: Vec<char>)
    ensures
        symbols@ == text@,
{
    broadcast use vstd::string::group_string_axioms;

    let mut symbols: Vec<char> = Vec::new();
    for symbol in it: text.chars()
        invariant
            it.seq() == text@,
            symbols@ == it.seq().take(it.index() as int),
    {
        symbols.push(symbol);
        assert(symbols@ =~= it.seq().take(it.index() + 1));
    }
    assert(symbols@ =~= text@);
    symbols
}

impl Reader {
    /// Room that a loader sets aside for a program that arrives as one line.
    pub const MAX_PROG_LEN: usize = 1000000;

    /// The invariant of every engine that this module hands out.
    pub closed spec fn wf(&self) -> bool {
        &&& self@.wf()
        &&& self.automata.wf()
        &&& self.raw_program@ == self.program@
    }

    /// A well-formed engine holds a well-formed machine.
    pub proof fn lemma_wf_machine(&self)
        requires
            self.wf(),
        ensures
            self@.wf(),
    {
    }

    /// An engine with an empty program.
    pub fn new() -> (reader: Self)
        ensures
            reader.wf(),
            reader@ == Machine::loaded(Seq::empty()),
    {
        let reader = Reader {
            head_ptr: 0,
            brackets: HashMap::new(),
            program: Vec::new(),
            errors: Vec::new(),
            raw_program: String::new(),
            automata: Automata::new(),
        };
        proof {
            let empty = Seq::<char>::empty();
            assert(reader.program@ =~= empty);
            assert(bracket_errors(empty) =~= Seq::empty());
            assert(reader@.errors =~= Machine::loaded(empty).errors);
            assert(reader@.table =~= Machine::loaded(empty).table);
        }
        reader
    }

    /// Resolves the brackets of `program` in one pass from left to right.
    /// A program whose brackets all have partners gets its jump table. Any
    /// other gets the whole batch of its diagnostics: each stray `]` in the
    /// order found, then each `[` that was never closed, the innermost first.
    pub fn analyse_brackets(program: &Vec<char>) -> (r: Result<
        HashMap<usize, usize>,
        Vec<BFError>,
    >)
        ensures
            match r {
                Ok(table) => well_formed(program@) && table@ == jump_table(program@),
                Err(errors) => !well_formed(program@) && records(errors@) == bracket_errors(
                    program@,
                ),
            },
    {
        broadcast use vstd::std_specs::hash::group_hash_axioms;

        let mut brackets: HashMap<usize, usize> = HashMap::new();
        let mut errors: Vec<BFError> = Vec::new();
        let mut unclosed: Vec<usize> = Vec::new();
        let mut i: usize = 0;
        while i < program.len()
            invariant
                i <= program.len(),
                unclosed@ == scan(program@, i as nat).open,
                brackets@ == scan(program@, i as nat).table,
                records(errors@) == bracket_records(
                    BFParseError::BraNoOpen,
                    scan(program@, i as nat).stray,
                ),
            decreases program.len() - i,
        {
            let symbol = program[i];
            if symbol == '[' {
                unclosed.push(i);
            } else if symbol == ']' {
                match unclosed.pop() {
                    Some(pos) => {
                        brackets.insert(i, pos);
                        brackets.insert(pos, i);
                    },
                    None => {
                        let e = BFError::new(BFParseError::BraNoOpen, Some(i), None);
                        proof {
                            lemma_records_push(errors@, e);
                        }
                        errors.push(e);
                    },
                }
            }
            i = i + 1;
            assert(unclosed@ =~= scan(program@, i as nat).open);
            assert(brackets@ =~= scan(program@, i as nat).table);
            assert(records(errors@) =~= bracket_records(
                BFParseError::BraNoOpen,
                scan(program@, i as nat).stray,
            ));
        }
        let ghost end = scan(program@, program@.len());
        if unclosed.len() == 0 && errors.len() == 0 {
            return Ok(brackets);
        }
        let ghost strays = records(errors@);
        while unclosed.len() > 0
            invariant
                unclosed@.len() <= end.open.len(),
                unclosed@ == end.open.take(unclosed@.len() as int),
                records(errors@) == strays + bracket_records(
                    BFParseError::BraNoClose,
                    end.open.reverse().take(end.open.len() - unclosed@.len()),
                ),
            decreases unclosed.len(),
        {
            let ghost before = unclosed@;
            if let Some(pos) = unclosed.pop() {
                let e = BFError::new(BFParseError::BraNoClose, Some(pos), None);
                proof {
                    lemma_records_push(errors@, e);
                }
                errors.push(e);
                assert(unclosed@ =~= end.open.take(unclosed@.len() as int));
                assert(end.open.reverse()[end.open.len() - before.len()] == pos);
                assert(records(errors@) =~= strays + bracket_records(
                    BFParseError::BraNoClose,
                    end.open.reverse().take(end.open.len() - unclosed@.len()),
                ));
            }
        }
        assert(end.open.reverse().take(end.open.len() as int) =~= end.open.reverse());
        Err(errors)
    }

    /// Takes a program in: resolves its brackets, puts the instruction
    /// pointer on its first symbol and clears the tape. Nothing of what the
    /// engine held before is kept. Where a bracket has no partner, every
    /// diagnostic is recorded with its context and the program will not run.
    pub fn load(&mut self, program: String) -> (status: Status)
        ensures
            final(self).wf(),
            final(self)@ == Machine::loaded(program@),
            status == final(self)@.status(),
    {
        let symbols = symbols_of(program.as_str());
        assert(symbols@.len() == symbols.len());
        let mut brackets: HashMap<usize, usize> = HashMap::new();
        let mut errors: Vec<BFError> = Vec::new();
        match Reader::analyse_brackets(&symbols) {
            Ok(table) => {
                brackets = table;
                assert(records(errors@) =~= Machine::loaded(program@).errors);
            },
            Err(batch) => {
                errors = batch;
                let ghost raw = records(errors@);
                let mut i: usize = 0;
                while i < errors.len()
                    invariant
                        i <= errors.len(),
                        errors@.len() == raw.len(),
                        forall|k: int|
                            0 <= k < i ==> (#[trigger] errors@[k])@ == raw[k].with_context(
                                program@,
                            ),
                        forall|k: int|
                            i <= k < raw.len() ==> (#[trigger] errors@[k])@ == raw[k],
                    decreases errors.len() - i,
                {
                    errors[i].create_err_area(program.as_str());
                    i = i + 1;
                }
                assert(records(errors@) =~= Machine::loaded(program@).errors);
            },
        }
        self.head_ptr = 0;
        self.brackets = brackets;
        self.program = symbols;
        self.errors = errors;
        self.raw_program = program;
        self.automata = Automata::new();
        proof {
            lemma_loaded_wf(program@);
        }
        self.status()
    }

    /// Where the engine stands.
    pub fn status(&self) -> (status: Status)
        requires
            self.wf(),
        ensures
            status == self@.status(),
    {
        if self.errors.len() > 0 {
            Status::Failed
        } else if self.head_ptr >= self.program.len() {
            Status::Finished
        } else {
            Status::Running
        }
    }

    /// Whether the next step reads a byte of input.
    pub fn wants_input(&self) -> (wanted: bool)
        requires
            self.wf(),
        ensures
            wanted == self@.wants_input(),
    {
        self.errors.len() == 0 && self.head_ptr < self.program.len() && self.program[self.head_ptr]
            == ','
    }

    /// Fetches the symbol under the instruction pointer and moves the
    /// pointer one to the right. At the end of the program there is nothing
    /// to fetch and the pointer stays.
    fn next(&mut self) -> (symbol: Option<char>)
        requires
            old(self).wf(),
        ensures
            final(self).wf(),
            old(self)@.head < old(self)@.program.len() ==> symbol == Some(old(self)@.symbol())
                && final(self)@ == (Machine { head: old(self)@.head + 1, ..old(self)@ }),
            old(self)@.head >= old(self)@.program.len() ==> symbol is None && final(self)@ == old(
                self,
            )@,
    {
        if self.head_ptr < self.program.len() {
            let symbol = self.program[self.head_ptr];
            self.head_ptr = self.head_ptr + 1;
            Some(symbol)
        } else {
            None
        }
    }

    /// Puts the instruction pointer on the partner of the bracket at `idx`.
    fn goto_bra_pair(&mut self, idx: usize)
        requires
            old(self).wf(),
            old(self)@.table.contains_key(idx),
        ensures
            final(self).wf(),
            final(self)@ == (Machine { head: old(self)@.table[idx] as nat, ..old(self)@ }),
    {
        broadcast use vstd::std_specs::hash::group_hash_axioms;

        proof {
            lemma_scan_inv(self.program@, self.program@.len());
        }
        if let Some(partner) = self.brackets.get(&idx) {
            self.head_ptr = *partner;
        }
    }

    /// Executes the symbol under the instruction pointer. `input` is the
    /// byte that the input source gave for this step, or `None` where it
    /// gave none; only `,` looks at it. An engine that has finished or failed
    /// does nothing.
    pub fn step(&mut self, input: Option<u8>) -> (status: Status)
        requires
            old(self).wf(),
        ensures
            final(self).wf(),
            final(self)@ == old(self)@.step(input),
            status == final(self)@.status(),
    {
        if self.errors.len() > 0 {
            return Status::Failed;
        }
        let offset = self.head_ptr;
        let symbol = match self.next() {
            Some(symbol) => symbol,
            None => {
                return Status::Finished;
            },
        };
        let result: Result<(), BFParseError> = if symbol == '+' {
            self.automata.inc()
        } else if symbol == '-' {
            self.automata.dec()
        } else if symbol == '>' {
            self.automata.rmove()
        } else if symbol == '<' {
            self.automata.lmove()
        } else if symbol == '.' {
            self.automata.out()
        } else if symbol == ',' {
            match input {
                Some(byte) => self.automata.set(byte),
                None => Err(BFParseError::IoStdinErr),
            }
        } else if symbol == '[' {
            if self.automata.get() == 0 {
                proof {
                    lemma_jump_table_total(self.program@, offset);
                }
                self.goto_bra_pair(offset);
            }
            Ok(())
        } else if symbol == ']' {
            if self.automata.get() != 0 {
                proof {
                    lemma_jump_table_total(self.program@, offset);
                }
                self.goto_bra_pair(offset);
            }
            Ok(())
        } else if symbol == ' ' || symbol == '\n' || symbol == '\t' {
            Ok(())
        } else {
            Err(BFParseError::IoUndefChar)
        };
        if let Err(kind) = result {
            let raw = self.raw_program.as_str();
            let text = String::from_str(raw.substring_char(offset, offset + 1));
            let mut e = BFError::new(kind, Some(offset), Some(text));
            e.create_err_area(raw);
            proof {
                assert(text@ =~= seq![symbol]);
                lemma_records_push(self.errors@, e);
            }
            self.errors.push(e);
        }
        self.status()
    }

    /// Runs `program` from a cleared engine for at most `max_steps` steps,
    /// with `input` as everything that the input source holds. The run ends
    /// early when the program finishes or fails; a status of `Running` says
    /// that the steps ran out first.
    pub fn parse(&mut self, program: String, input: &Vec<u8>, max_steps: usize) -> (status: Status)
        ensures
            final(self).wf(),
            final(self)@ == Machine::loaded(program@).run(input@, max_steps as nat),
            status == final(self)@.status(),
    {
        let ghost start = Machine::loaded(program@);
        let mut status = self.load(program);
        let mut used: usize = 0;
        let mut steps: usize = 0;
        assert(input@.skip(0) =~= input@);
        while steps < max_steps && status == Status::Running
            invariant
                self.wf(),
                status == self@.status(),
                used <= input@.len(),
                steps <= max_steps,
                self@.run(input@.skip(used as int), (max_steps - steps) as nat) == start.run(
                    input@,
                    max_steps as nat,
                ),
            decreases max_steps - steps,
        {
            let ghost rest = input@.skip(used as int);
            let event = if used < input.len() && self.wants_input() {
                let byte = input[used];
                used = used + 1;
                assert(input@.skip(used as int) =~= rest.skip(1));
                Some(byte)
            } else {
                None
            };
            status = self.step(event);
            steps = steps + 1;
        }
        status
    }

    /// Whether the engine has anything to hand to the output sink.
    pub fn has_printable(&self) -> (printable: bool)
        requires
            self.wf(),
        ensures
            printable == (self@.emitted().len() > 0),
    {
        match self.status() {
            Status::Finished => self.automata.chars_to_print().len() > 0,
            _ => false,
        }
    }

    /// What the engine hands to the output sink: every printed byte once
    /// the run has finished, and nothing before that or after a failure.
    pub fn get_output(&self) -> (bytes: Vec<u8>)
        requires
            self.wf(),
        ensures
            bytes@ == self@.emitted(),
    {
        match self.status() {
            Status::Finished => self.automata.chars_to_print().clone(),
            _ => Vec::new(),
        }
    }

    /// The errors recorded so far, in the order of detection.
    pub fn errors(&self) -> (errors: &Vec<BFError>)
        ensures
            records(errors@) == self@.errors,
    {
        &self.errors
    }
}

} // verus!
