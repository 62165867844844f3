//! The executable engine: an interpreter that owns the tape and the data
//! pointer, and the state of one program that runs on it.

use crate::brackets::{find_close, lemma_matching_close};
use crate::machine::{
    entry, last_cell, received, Action, Fault, Machine, Session, Status,
};
use crate::tape::Tape;
use vstd::prelude::*;

verus! {

/// What an interpreter keeps from one program to the next.
pub struct Memory {
    /// The cells created so far.
    pub cells: Seq<u8>,
    /// The data pointer.
    pub pointer: nat,
}

/// What belongs to one program while it runs.
pub struct Control {
    /// The source text, one instruction per character.
    pub program: Seq<char>,
    /// The program counter.
    pub pc: nat,
    /// The positions of the loops entered and not yet left, innermost last.
    pub loops: Seq<nat>,
}

impl Memory {
    /// The data pointer stands on a cell that the machine can address.
    pub open spec fn wf(self) -> bool {
        self.pointer <= last_cell()
    }
}

impl Control {
    /// The program counter and every open loop lie within the program.
    pub open spec fn wf(self) -> bool {
        &&& self.pc <= self.program.len()
        &&& forall|i: int| 0 <= i < self.loops.len() ==> self.loops[i] < self.program.len()
    }
}

/// The abstract machine made of an interpreter's memory and a program's control state.
pub open spec fn machine_of(memory: Memory, control: Control) -> Machine {
    Machine { cells: memory.cells, pointer: memory.pointer, pc: control.pc, loops: control.loops }
}

/// The tape and the data pointer. They outlive the programs that run on them.
pub struct Interpreter {
    tape: Tape,
    pointer: usize,
}

/// What [`Interpreter::run`] hands back.
#[derive(Debug)]
pub struct Report {
    /// How the run ended.
    pub status: Status,
    /// The bytes that the program emitted, in order.
    pub output: Vec<u8>,
    /// How many lines of the input the program consumed.
    pub lines_read: usize,
}

/// A program together with its program counter and loop stack.
pub struct Execution {
    program: Vec<char>,
    pc: usize,
    loop_stack: Vec<usize>,
}

impl View for Interpreter {
    type V = Memory;

    closed spec fn view(&self) -> Memory {
        Memory { cells: self.tape@, pointer: self.pointer as nat }
    }
}

impl View for Execution {
    type V = Control;

    closed spec fn view(&self) -> Control {
        Control {
            program: self.program@,
            pc: self.pc as nat,
            loops: self.loop_stack@.map_values(|p: usize| p as nat),
        }
    }
}

impl Execution {
    /// A program about to execute its first instruction, with no loop open.
    pub fn new(program: &str) -> (run: Execution)
        ensures
            run@ == (Control { program: program@, pc: 0, loops: Seq::empty() }),
            run@.wf(),
    {
        let mut text: Vec<char> = Vec::new();
        for c in it: program.chars()
            invariant
                it.seq() == program@,
                text@ == it.seq().take(it.index() as int),
        {
            text.push(c);
        }
        let run = Execution { program: text, pc: 0, loop_stack: Vec::new() };
        assert(run@.loops =~= Seq::<nat>::empty());
        assert(run@.program =~= program@);
        run
    }

    /// The program counter: the index of the instruction that comes next.
    pub fn pc(&self) -> (pc: usize)
        ensures
            pc == self@.pc,
    {
        self.pc
    }

    /// Whether the program counter has reached the end of the program.
    pub fn is_finished(&self) -> (finished: bool)
        ensures
            finished == (self@.pc >= self@.program.len()),
    {
        self.pc >= self.program.len()
    }
}

impl Default for Interpreter {
    fn default() -> (interpreter: Interpreter)
        ensures
            interpreter@ == (Memory { cells: Seq::empty(), pointer: 0 }),
            interpreter@.wf(),
    {
        Interpreter::new()
    }
}

/// The character that an emitted byte is written as: the one whose code
/// point is the byte's value. No byte is decoded together with another.
pub fn emitted_char(byte: u8) -> (c: char)
    ensures
        c as int == byte as int,
{
    byte as char
}

impl Interpreter {
    /// An interpreter with an empty tape and the data pointer at cell 0.
    pub fn new() -> (interpreter: Interpreter)
        ensures
            interpreter@ == (Memory { cells: Seq::empty(), pointer: 0 }),
            interpreter@.wf(),
    {
        Interpreter { tape: Tape::new(), pointer: 0 }
    }

    /// The position of the data pointer.
    pub fn pointer(&self) -> (pointer: usize)
        ensures
            pointer == self@.pointer,
    {
        self.pointer
    }

    /// The tape, to look at.
    pub fn tape(&self) -> (tape: &Tape)
        ensures
            tape@ == self@.cells,
    {
        &self.tape
    }

    /// Stores a line of input that an [`Action::Read`] asked for: the byte of
    /// its first character goes into the cell under the data pointer, with the
    /// tape extended up to it first, as `+` and `-` do. An empty line stores nothing.
    pub fn store_input(&mut self, line: &str)
        requires
            old(self)@.wf(),
        ensures
            final(self)@.pointer == old(self)@.pointer,
            final(self)@.cells == received(old(self)@.cells, old(self)@.pointer, line@),
    {
        let mut chars = line.chars();
        match chars.next() {
            Some(c) => {
                let byte = (c as u32 % 256) as u8;
                self.tape.write(self.pointer, byte);
            },
            None => {},
        }
    }

    /// Executes the instruction at the program counter of `run`.
    ///
    /// The returned action says what remains for the caller to do. The engine
    /// itself neither reads nor writes: after [`Action::Emit`] the caller
    /// writes the byte, after [`Action::Read`] it reads a line and hands it to
    /// [`Interpreter::store_input`]. After [`Action::Halt`] and
    /// [`Action::Fail`] nothing has changed.
    pub fn step(&mut self, run: &mut Execution) -> (action: Action)
        requires
            old(self)@.wf(),
            old(run)@.wf(),
        ensures
            final(self)@.wf(),
            final(run)@.wf(),
            final(run)@.program == old(run)@.program,
            (machine_of(final(self)@, final(run)@), action) == crate::machine::step(
                old(run)@.program,
                machine_of(old(self)@, old(run)@),
            ),
    {
        let ghost program = run@.program;
        let ghost before = machine_of(self@, run@);
        let ghost after = crate::machine::step(program, before).0;
        if run.pc >= run.program.len() {
            return Action::Halt;
        }
        let c = run.program[run.pc];
        if c == '>' {
            if self.pointer >= usize::MAX - 1 {
                return Action::Fail(Fault::TapeLimit);
            }
            self.pointer += 1;
        } else if c == '<' {
            self.pointer = self.pointer.saturating_sub(1);
        } else if c == '+' {
            let value = self.tape.read(self.pointer);
            self.tape.write(self.pointer, value.wrapping_add(1));
            assert(self@.cells =~= after.cells);
        } else if c == '-' {
            let value = self.tape.read(self.pointer);
            self.tape.write(self.pointer, value.wrapping_sub(1));
            assert(self@.cells =~= after.cells);
        } else if c == '.' {
            run.pc += 1;
            return Action::Emit(self.tape.peek(self.pointer));
        } else if c == ',' {
            run.pc += 1;
            return Action::Read;
        } else if c == '[' {
            if self.tape.peek(self.pointer) == 0 {
                match find_close(run.program.as_slice(), run.pc) {
                    Some(close) => {
                        proof {
                            lemma_matching_close(program, before.pc, close as nat);
                        }
                        run.pc = close;
                    },
                    None => {
                        return Action::Fail(Fault::MalformedLoop);
                    },
                }
            } else {
                run.loop_stack.push(run.pc);
                assert(run@.loops =~= after.loops);
            }
        } else if c == ']' {
            if run.loop_stack.len() == 0 {
                return Action::Fail(Fault::MalformedLoop);
            }
            if self.tape.peek(self.pointer) != 0 {
                run.pc = run.loop_stack[run.loop_stack.len() - 1];
                assert(run.pc == before.loops.last());
            } else {
                run.loop_stack.pop();
                assert(run@.loops =~= after.loops);
            }
        }
        assert(self@.cells == after.cells);
        assert(self@.pointer == after.pointer);
        assert(run@.loops == after.loops);
        assert(run@.pc + 1 == after.pc);
        assert(run@.pc < program.len());
        run.pc += 1;
        Action::Proceed
    }

    /// Runs `program` from its first instruction for at most `max_steps`
    /// instructions, on the tape and the pointer as the last program left
    /// them. Each `,` consumes the next line of `input`, each `.` appends a
    /// byte to the report's output.
    pub fn run(&mut self, program: &str, input: &[String], max_steps: u64) -> (report: Report)
        requires
            old(self)@.wf(),
        ensures
            final(self)@.wf(),
            ({
                let start = entry(old(self)@.cells, old(self)@.pointer, input.deep_view());
                let (end, status) = crate::machine::run(program@, start, max_steps as nat);
                &&& final(self)@ == (Memory { cells: end.machine.cells, pointer: end.machine.pointer })
                &&& report.status == status
                &&& report.output@ == end.output
                &&& report.lines_read == input.len() - end.input.len()
            }),
    {
        let ghost start = entry(self@.cells, self@.pointer, input.deep_view());
        let mut run = Execution::new(program);
        let mut output: Vec<u8> = Vec::new();
        let mut lines_read: usize = 0;
        let mut steps: u64 = 0;
        assert(input.deep_view().skip(0) =~= input.deep_view());
        loop
            invariant
                start == entry(old(self)@.cells, old(self)@.pointer, input.deep_view()),
                self@.wf(),
                run@.wf(),
                run@.program == program@,
                steps <= max_steps,
                lines_read <= input.len(),
                crate::machine::run(program@, start, max_steps as nat) == crate::machine::run(
                    program@,
                    Session {
                        machine: machine_of(self@, run@),
                        input: input.deep_view().skip(lines_read as int),
                        output: output@,
                    },
                    (max_steps - steps) as nat,
                ),
            decreases max_steps - steps,
        {
            let ghost now = Session {
                machine: machine_of(self@, run@),
                input: input.deep_view().skip(lines_read as int),
                output: output@,
            };
            if run.is_finished() {
                return Report { status: Status::Finished, output, lines_read };
            }
            if steps == max_steps {
                return Report { status: Status::OutOfSteps, output, lines_read };
            }
            match self.step(&mut run) {
                Action::Proceed => {},
                Action::Emit(byte) => {
                    output.push(byte);
                },
                Action::Read => {
                    if lines_read >= input.len() {
                        return Report {
                            status: Status::Failed(Fault::InputExhausted),
                            output,
                            lines_read,
                        };
                    }
                    self.store_input(input[lines_read].as_str());
                    lines_read += 1;
                    assert(now.input.drop_first() =~= input.deep_view().skip(lines_read as int));
                },
                Action::Halt => {
                    return Report { status: Status::Finished, output, lines_read };
                },
                Action::Fail(fault) => {
                    return Report { status: Status::Failed(fault), output, lines_read };
                },
            }
            steps += 1;
        }
    }
}

} // verus!
