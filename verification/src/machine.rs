//! The machine as mathematics: its states, its one transition, its runs,
//! and what holds of all of them. The engine in `parser` is held to this.

use vstd::prelude::*;
use crate::automata::Tape;
use crate::brackets::{
    bracket_error, bracket_errors, bracket_records, is_bracket, jump_table,
    lemma_jump_table_total, lemma_scan_inv, scan, well_formed,
};
use crate::errors::{context_block, BFParseError, ErrorRecord};

verus! {

/// Where a machine stands.
#[derive(Clone, Copy, Debug, PartialEq, Eq, Structural)]
pub enum Status {
    /// The instruction pointer is on a symbol that has yet to be executed.
    Running,
    /// The instruction pointer has passed the end of the program and no
    /// error was recorded.
    Finished,
    /// At least one error was recorded; the machine does not move again.
    Failed,
}

/// Whether `symbol` is whitespace that the engine skips.
pub open spec fn is_blank(symbol: char) -> bool {
    symbol == ' ' || symbol == '\n' || symbol == '\t'
}

/// The mathematical content of an engine.
pub struct Machine {
    /// The program text, one symbol per offset.
    pub program: Seq<char>,
    /// The partner of every bracket of the program.
    pub table: Map<usize, usize>,
    /// The instruction pointer: offset of the next symbol to execute.
    pub head: nat,
    /// The tape, with the bytes printed so far.
    pub tape: Tape,
    /// Every error recorded so far, in the order of detection.
    pub errors: Seq<ErrorRecord>,
}

/// The table that a machine runs `program` with: its jump table where the
/// program is well formed, and none where it is not.
pub open spec fn table_for(program: Seq<char>) -> Map<usize, usize> {
    if well_formed(program) {
        jump_table(program)
    } else {
        Map::empty()
    }
}

impl Machine {
    /// The machine that a program starts from: its brackets resolved, the
    /// instruction pointer on the first symbol, the tape fresh. A program
    /// with an unmatched bracket gets no jump table; its diagnostics are all
    /// recorded, rendered, and keep it from running.
    pub open spec fn loaded(program: Seq<char>) -> Machine {
        Machine {
            program,
            table: table_for(program),
            head: 0,
            tape: Tape::fresh(),
            errors: bracket_errors(program).map_values(
                |e: ErrorRecord| e.with_context(program),
            ),
        }
    }

    /// What holds of every machine that the engine reaches.
    pub open spec fn wf(self) -> bool {
        &&& self.program.len() <= usize::MAX
        &&& self.head <= self.program.len()
        &&& self.tape.wf()
        &&& self.table == table_for(self.program)
        &&& (well_formed(self.program) || self.errors.len() > 0)
        &&& forall|i: int|
            0 <= i < self.errors.len() ==> (#[trigger] self.errors[i]).located_in(self.program)
    }

    /// Where the machine stands.
    pub open spec fn status(self) -> Status {
        if self.errors.len() > 0 {
            Status::Failed
        } else if self.head >= self.program.len() {
            Status::Finished
        } else {
            Status::Running
        }
    }

    /// The symbol under the instruction pointer.
    pub open spec fn symbol(self) -> char {
        self.program[self.head as int]
    }

    /// Whether the next step reads a byte of input.
    pub open spec fn wants_input(self) -> bool {
        self.status() == Status::Running && self.symbol() == ','
    }

    /// What the symbol under the instruction pointer does to the tape, or
    /// the kind of fault that it causes. Only `,` looks at `input`.
    pub open spec fn act(self, input: Option<u8>) -> Result<Tape, BFParseError> {
        let symbol = self.symbol();
        if symbol == '+' {
            self.tape.inc()
        } else if symbol == '-' {
            self.tape.dec()
        } else if symbol == '>' {
            self.tape.rmove()
        } else if symbol == '<' {
            self.tape.lmove()
        } else if symbol == '.' {
            Ok(self.tape.out())
        } else if symbol == ',' {
            match input {
                Some(byte) => Ok(self.tape.store(byte)),
                None => Err(BFParseError::IoStdinErr),
            }
        } else if is_bracket(symbol) || is_blank(symbol) {
            Ok(self.tape)
        } else {
            Err(BFParseError::IoUndefChar)
        }
    }

    /// Whether the symbol under the instruction pointer is a bracket that
    /// sends the pointer to its partner: a `[` over a zero cell, or a `]`
    /// over a nonzero cell.
    pub open spec fn jumps(self) -> bool {
        ||| self.symbol() == '[' && self.tape.current() == 0
        ||| self.symbol() == ']' && self.tape.current() != 0
    }

    /// The record of a fault of the given kind at the instruction pointer:
    /// it carries the offset, the symbol, and the rendered context.
    pub open spec fn fault(self, kind: BFParseError) -> ErrorRecord {
        ErrorRecord {
            file: None,
            kind,
            pos: Some(self.head),
            area: Some(context_block(self.program, self.head)),
            args: Some(seq![self.symbol()]),
        }
    }

    /// One transition. A machine that is not running stays as it is. A
    /// running one executes the symbol under the instruction pointer: the
    /// pointer moves to the partner where the symbol jumps and one to the
    /// right where it does not; a fault leaves the tape untouched, moves past
    /// the symbol and records the error, which ends the run.
    pub open spec fn step(self, input: Option<u8>) -> Machine {
        if self.status() != Status::Running {
            self
        } else {
            match self.act(input) {
                Ok(tape) => Machine {
                    head: if self.jumps() {
                        self.table[self.head as usize] as nat
                    } else {
                        self.head + 1
                    },
                    tape,
                    ..self
                },
                Err(kind) => Machine {
                    head: self.head + 1,
                    errors: self.errors.push(self.fault(kind)),
                    ..self
                },
            }
        }
    }

    /// The machine after at most `steps` transitions, with `input` as the
    /// bytes that the input source still holds. Each `,` takes the first of
    /// them; one that finds none gets no byte.
    pub open spec fn run(self, input: Seq<u8>, steps: nat) -> Machine
        decreases steps,
    {
        if steps == 0 || self.status() != Status::Running {
            self
        } else if self.wants_input() && input.len() > 0 {
            self.step(Some(input[0])).run(input.skip(1), (steps - 1) as nat)
        } else {
            self.step(None).run(input, (steps - 1) as nat)
        }
    }

    /// What the machine hands to the output sink: every printed byte once
    /// the run has finished, and nothing before that or after a failure.
    pub open spec fn emitted(self) -> Seq<u8> {
        if self.status() == Status::Finished {
            self.tape.output
        } else {
            Seq::empty()
        }
    }
}

/// A freshly loaded machine is well formed.
pub proof fn lemma_loaded_wf(program: Seq<char>)
    requires
        program.len() <= usize::MAX,
    ensures
        Machine::loaded(program).wf(),
{
    let end = scan(program, program.len());
    let strays = bracket_records(BFParseError::BraNoOpen, end.stray);
    let unclosed = bracket_records(BFParseError::BraNoClose, end.open.reverse());
    let errors = Machine::loaded(program).errors;
    assert(strays.len() == end.stray.len());
    assert(unclosed.len() == end.open.len());
    assert(errors.len() == strays.len() + unclosed.len());
    lemma_scan_inv(program, program.len());
    assert forall|i: int| 0 <= i < errors.len() implies (#[trigger] errors[i]).located_in(
        program,
    ) by {
        let raw = bracket_errors(program)[i];
        assert(errors[i] == raw.with_context(program));
        if i < strays.len() {
            assert(raw == bracket_error(BFParseError::BraNoOpen, end.stray[i]));
        } else {
            let k = i - strays.len();
            assert(raw == unclosed[k]);
            let pos = end.open[end.open.len() - 1 - k];
            assert(end.open.reverse()[k] == pos);
            assert(raw == bracket_error(BFParseError::BraNoClose, pos));
        }
    }
}

/// No transition leads out of the well-formed machines: the instruction
/// pointer stays within the program or one past its end, and the data
/// pointer stays on the tape.
pub proof fn lemma_step_wf(machine: Machine, input: Option<u8>)
    requires
        machine.wf(),
    ensures
        machine.step(input).wf(),
{
    if machine.status() == Status::Running && machine.act(input) is Ok && machine.jumps() {
        lemma_jump_table_total(machine.program, machine.head as usize);
        lemma_scan_inv(machine.program, machine.program.len());
    }
}

/// No run leads out of the well-formed machines.
pub proof fn lemma_run_wf(machine: Machine, input: Seq<u8>, steps: nat)
    requires
        machine.wf(),
    ensures
        machine.run(input, steps).wf(),
    decreases steps,
{
    if steps == 0 || machine.status() != Status::Running {
    } else if machine.wants_input() && input.len() > 0 {
        lemma_step_wf(machine, Some(input[0]));
        lemma_run_wf(machine.step(Some(input[0])), input.skip(1), (steps - 1) as nat);
    } else {
        lemma_step_wf(machine, None);
        lemma_run_wf(machine.step(None), input, (steps - 1) as nat);
    }
}

/// A program with an unmatched bracket never executes a symbol: however
/// many steps it is given, the machine stays as it was loaded.
pub proof fn lemma_unbalanced_never_runs(program: Seq<char>, input: Seq<u8>, steps: nat)
    requires
        program.len() <= usize::MAX,
        !well_formed(program),
    ensures
        Machine::loaded(program).status() == Status::Failed,
        Machine::loaded(program).run(input, steps) == Machine::loaded(program),
{
    lemma_loaded_wf(program);
}

/// A run stops at its first fault: from a machine without errors no run
/// records more than one, and one that records an error has failed.
pub proof fn lemma_run_fails_fast(machine: Machine, input: Seq<u8>, steps: nat)
    requires
        machine.errors.len() == 0,
    ensures
        machine.run(input, steps).errors.len() <= 1,
        machine.run(input, steps).errors.len() == 1 ==> machine.run(input, steps).status()
            == Status::Failed,
    decreases steps,
{
    if steps == 0 || machine.status() != Status::Running {
    } else {
        let event = if machine.wants_input() && input.len() > 0 {
            Some(input[0])
        } else {
            None
        };
        let rest = if machine.wants_input() && input.len() > 0 {
            input.skip(1)
        } else {
            input
        };
        let next = machine.step(event);
        assert(machine.run(input, steps) == next.run(rest, (steps - 1) as nat));
        if next.errors.len() == 0 {
            lemma_run_fails_fast(next, rest, (steps - 1) as nat);
        } else {
            assert(next.run(rest, (steps - 1) as nat) == next);
        }
    }
}

/// The number of steps decides only whether a run reaches its end, not what
/// that end is: a run that has finished or failed within `few` steps is the
/// same with any number of steps beyond.
pub proof fn lemma_more_steps_same_end(machine: Machine, input: Seq<u8>, few: nat, many: nat)
    requires
        few <= many,
        machine.run(input, few).status() != Status::Running,
    ensures
        machine.run(input, many) == machine.run(input, few),
    decreases few,
{
    if few == 0 || machine.status() != Status::Running {
    } else if machine.wants_input() && input.len() > 0 {
        lemma_more_steps_same_end(
            machine.step(Some(input[0])),
            input.skip(1),
            (few - 1) as nat,
            (many - 1) as nat,
        );
    } else {
        lemma_more_steps_same_end(machine.step(None), input, (few - 1) as nat, (many - 1) as nat);
    }
}

/// A run is a function of the program text, the input and the number of
/// steps alone. Two engines that were given the same three end in the same
/// state, with the same output and the same errors, whatever each of them
/// held before.
pub proof fn lemma_same_run_same_result(
    first: Machine,
    second: Machine,
    program: Seq<char>,
    input: Seq<u8>,
    steps: nat,
)
    requires
        first == Machine::loaded(program).run(input, steps),
        second == Machine::loaded(program).run(input, steps),
    ensures
        first == second,
        first.status() == second.status(),
        first.emitted() == second.emitted(),
        first.errors == second.errors,
{
}

} // verus!
