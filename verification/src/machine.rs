//! The abstract machine: what one instruction does to the tape, the data
//! pointer, the program counter and the loop stack, and what a whole run is.
//!
//! Everything here is mathematics. The executable engine is specified against
//! these functions, and the laws of the language are proved of them.

use crate::brackets::matching_close;
use crate::tape::{cell_at, stored};
use vstd::prelude::*;

verus! {

/// Why a program cannot go on.
#[derive(Clone, Copy, Debug, PartialEq, Eq, Structural)]
pub enum Fault {
    /// A `[` that no `]` closes, or a `]` that meets an empty loop stack.
    MalformedLoop,
    /// A `,` for which the input has no line left.
    InputExhausted,
    /// A `>` on the last cell that this machine can address.
    TapeLimit,
}

/// What one instruction asks of its surroundings.
#[derive(Clone, Copy, Debug, PartialEq, Eq, Structural)]
pub enum Action {
    /// Nothing: the instruction was carried out in full.
    Proceed,
    /// Write this byte to the output, as the character with that code point.
    Emit(u8),
    /// Read one line of input and store it with `Interpreter::store_input`.
    Read,
    /// Nothing was executed: the program counter stands at the end.
    Halt,
    /// Nothing was executed: the instruction cannot be carried out.
    Fail(Fault),
}

/// How a run ended.
#[derive(Clone, Copy, Debug, PartialEq, Eq, Structural)]
pub enum Status {
    /// The program counter reached the end of the program.
    Finished,
    /// The allowed number of steps was used up before the program ended.
    OutOfSteps,
    /// An instruction failed; the tape and the pointer are as it found them.
    Failed(Fault),
}

/// The state of the machine between two instructions.
pub struct Machine {
    /// The cells created so far; all further cells are zero.
    pub cells: Seq<u8>,
    /// The data pointer.
    pub pointer: nat,
    /// The program counter: the index of the next instruction.
    pub pc: nat,
    /// The positions of the loops entered and not yet left, innermost last.
    pub loops: Seq<nat>,
}

/// A machine together with the input it has yet to read and the output it
/// has written.
pub struct Session {
    pub machine: Machine,
    /// The lines of input not yet consumed.
    pub input: Seq<Seq<char>>,
    /// The bytes emitted so far.
    pub output: Seq<u8>,
}

/// The highest position that the data pointer can take. The tape of the
/// language has no end; the one of this machine is indexed by a `usize`.
pub open spec fn last_cell() -> nat {
    (usize::MAX - 1) as nat
}

/// One more, modulo 256.
pub open spec fn incremented(value: u8) -> u8 {
    ((value + 1) % 256) as u8
}

/// One less, modulo 256.
pub open spec fn decremented(value: u8) -> u8 {
    ((value - 1) % 256) as u8
}

/// The byte that a character of input is stored as: its code point modulo 256.
pub open spec fn byte_of(c: char) -> u8 {
    (c as u32 % 256) as u8
}

/// The cells after a line of input has arrived while the data pointer stood
/// at `pointer`: the byte of the line's first character is stored there, and
/// an empty line changes nothing.
pub open spec fn received(cells: Seq<u8>, pointer: nat, line: Seq<char>) -> Seq<u8> {
    if line.len() == 0 {
        cells
    } else {
        stored(cells, pointer, byte_of(line[0]))
    }
}

impl Machine {
    /// The cell under the data pointer, which the brackets test.
    pub open spec fn guard(self) -> u8 {
        cell_at(self.cells, self.pointer)
    }

    /// This machine with another value in the cell under the data pointer.
    pub open spec fn with_cell(self, value: u8) -> Machine {
        Machine { cells: stored(self.cells, self.pointer, value), ..self }
    }

    /// This machine with the program counter at `pc`.
    pub open spec fn at(self, pc: nat) -> Machine {
        Machine { pc, ..self }
    }
}

/// A session about to execute the first instruction of a program: no loop is
/// open and nothing has been written yet.
pub open spec fn entry(cells: Seq<u8>, pointer: nat, input: Seq<Seq<char>>) -> Session {
    Session {
        machine: Machine { cells, pointer, pc: 0, loops: Seq::empty() },
        input,
        output: Seq::empty(),
    }
}

/// Executes the instruction at the program counter. A machine that halts or
/// fails is returned as it was.
pub open spec fn step(program: Seq<char>, m: Machine) -> (Machine, Action) {
    if m.pc >= program.len() {
        (m, Action::Halt)
    } else {
        let c = program[m.pc as int];
        let on = m.at(m.pc + 1);
        if c == '>' {
            if m.pointer < last_cell() {
                (Machine { pointer: m.pointer + 1, ..on }, Action::Proceed)
            } else {
                (m, Action::Fail(Fault::TapeLimit))
            }
        } else if c == '<' {
            if m.pointer == 0 {
                (on, Action::Proceed)
            } else {
                (Machine { pointer: (m.pointer - 1) as nat, ..on }, Action::Proceed)
            }
        } else if c == '+' {
            (on.with_cell(incremented(m.guard())), Action::Proceed)
        } else if c == '-' {
            (on.with_cell(decremented(m.guard())), Action::Proceed)
        } else if c == '.' {
            (on, Action::Emit(m.guard()))
        } else if c == ',' {
            (on, Action::Read)
        } else if c == '[' {
            if m.guard() != 0 {
                (Machine { loops: m.loops.push(m.pc), ..on }, Action::Proceed)
            } else {
                match matching_close(program, m.pc) {
                    Some(close) => (m.at(close + 1), Action::Proceed),
                    None => (m, Action::Fail(Fault::MalformedLoop)),
                }
            }
        } else if c == ']' {
            if m.loops.len() == 0 {
                (m, Action::Fail(Fault::MalformedLoop))
            } else if m.guard() != 0 {
                (m.at(m.loops.last() + 1), Action::Proceed)
            } else {
                (Machine { loops: m.loops.drop_last(), ..on }, Action::Proceed)
            }
        } else {
            (on, Action::Proceed)
        }
    }
}

/// One instruction of a session: the machine steps, an emitted byte is
/// appended to the output, and a read consumes the next line of input.
pub open spec fn advance(program: Seq<char>, s: Session) -> Result<Session, Fault> {
    let (m, action) = step(program, s.machine);
    match action {
        Action::Fail(fault) => Err(fault),
        Action::Emit(byte) => Ok(Session { machine: m, output: s.output.push(byte), ..s }),
        Action::Read => if s.input.len() == 0 {
            Err(Fault::InputExhausted)
        } else {
            Ok(
                Session {
                    machine: Machine { cells: received(m.cells, m.pointer, s.input[0]), ..m },
                    input: s.input.drop_first(),
                    ..s
                },
            )
        },
        _ => Ok(Session { machine: m, ..s }),
    }
}

/// Runs a session for at most `steps` instructions. The run stops at the end
/// of the program, at the first instruction that fails, which leaves the
/// session as it found it, or when the steps are used up.
pub open spec fn run(program: Seq<char>, s: Session, steps: nat) -> (Session, Status)
    decreases steps,
{
    if s.machine.pc >= program.len() {
        (s, Status::Finished)
    } else if steps == 0 {
        (s, Status::OutOfSteps)
    } else {
        match advance(program, s) {
            Ok(next) => run(program, next, (steps - 1) as nat),
            Err(fault) => (s, Status::Failed(fault)),
        }
    }
}

/// A run of `first + rest` steps is a run of `first` steps, continued for
/// `rest` more where the first part used up its steps and did not end.
pub proof fn lemma_run_split(program: Seq<char>, s: Session, first: nat, rest: nat)
    ensures
        run(program, s, first + rest) == if run(program, s, first).1 == Status::OutOfSteps {
            run(program, run(program, s, first).0, rest)
        } else {
            run(program, s, first)
        },
    decreases first,
{
    if s.machine.pc < program.len() && first > 0 {
        match advance(program, s) {
            Ok(next) => {
                lemma_run_split(program, next, (first - 1) as nat, rest);
            },
            Err(_) => {},
        }
    }
}

} // verus!
