//! Laws of the language, proved of the abstract machine.
//!
//! Each law says that running some stretch of a program comes to the same as
//! continuing from a state that is written out in full: whatever the run
//! would go on to do from there, it does after the stretch.

use crate::brackets::{
    closes, lemma_inner_loop, lemma_loop_interior, lemma_matching_close, lemma_pending_last,
    lemma_pending_len, matching_close, nesting, pending,
};
use crate::machine::{
    advance, byte_of, entry, lemma_run_split, run, step, Action, Fault, Machine, Session, Status,
};
use crate::tape::{cell_at, stored};
use vstd::prelude::*;

verus! {

/// No instruction shrinks the tape, and none changes what a cell reads as
/// other than the one under the data pointer.
pub proof fn law_tape_is_kept(program: Seq<char>, m: Machine)
    ensures
        step(program, m).0.cells.len() >= m.cells.len(),
        forall|at: nat|
            at != m.pointer ==> cell_at(step(program, m).0.cells, at) == cell_at(m.cells, at),
{
}

/// The number of `+` minus the number of `-` in `text`.
pub open spec fn net_increments(text: Seq<char>) -> int
    decreases text.len(),
{
    if text.len() == 0 {
        0
    } else {
        let first: int = if text[0] == '+' {
            1
        } else if text[0] == '-' {
            -1
        } else {
            0
        };
        first + net_increments(text.drop_first())
    }
}

/// The session that a stretch of `n` instructions `+` and `-` leads to: the
/// cell under the data pointer has gained `net` modulo 256, and the program
/// counter stands behind the stretch. An empty stretch changes nothing.
pub open spec fn after_increments(s: Session, n: nat, net: int) -> Session {
    if n == 0 {
        s
    } else {
        Session {
            machine: s.machine.at(s.machine.pc + n).with_cell(
                ((s.machine.guard() + net) % 256) as u8,
            ),
            ..s
        }
    }
}

/// Running a stretch of `+` and `-` comes to the same as going on from the
/// session that `after_increments` describes.
proof fn lemma_increments_run(program: Seq<char>, s: Session, n: nat, steps: nat)
    requires
        s.machine.pc + n <= program.len(),
        forall|i: int|
            s.machine.pc <= i < s.machine.pc + n ==> program[i] == '+' || program[i] == '-',
        n <= steps,
    ensures
        run(program, s, steps) == run(
            program,
            after_increments(
                s,
                n,
                net_increments(program.subrange(s.machine.pc as int, (s.machine.pc + n) as int)),
            ),
            (steps - n) as nat,
        ),
    decreases n,
{
    if n > 0 {
        let pc = s.machine.pc;
        let stretch = program.subrange(pc as int, (pc + n) as int);
        let rest = program.subrange(pc as int + 1, (pc + n) as int);
        assert(stretch.drop_first() =~= rest);
        assert(stretch[0] == program[pc as int]);
        let next = advance(program, s)->Ok_0;
        lemma_increments_run(program, next, (n - 1) as nat, (steps - 1) as nat);
        let here = after_increments(s, n, net_increments(stretch));
        let there = after_increments(next, (n - 1) as nat, net_increments(rest));
        assert(here.machine.cells =~= there.machine.cells);
    }
}

/// A stretch of `+` and `-` leaves in the cell under the data pointer its old
/// value plus the net number of increments, modulo 256, and touches nothing
/// else: not the pointer, not another cell, not the input or the output.
pub proof fn law_increments_add_up(program: Seq<char>, s: Session, n: nat, steps: nat)
    requires
        s.machine.pc + n <= program.len(),
        forall|i: int|
            s.machine.pc <= i < s.machine.pc + n ==> program[i] == '+' || program[i] == '-',
        n <= steps,
    ensures
        ({
            let stretch = program.subrange(s.machine.pc as int, (s.machine.pc + n) as int);
            let end = after_increments(s, n, net_increments(stretch));
            &&& run(program, s, steps) == run(program, end, (steps - n) as nat)
            &&& end.machine.guard() == (s.machine.guard() + net_increments(stretch)) % 256
            &&& end.machine.pointer == s.machine.pointer
            &&& end.input == s.input
            &&& end.output == s.output
            &&& forall|at: nat|
                at != s.machine.pointer ==> cell_at(end.machine.cells, at) == cell_at(
                    s.machine.cells,
                    at,
                )
        }),
{
    lemma_increments_run(program, s, n, steps);
}

/// Any number of `<` in a row with the data pointer at cell 0 leave it there,
/// and leave the tape as it was.
pub proof fn law_left_is_clamped(program: Seq<char>, s: Session, n: nat, steps: nat)
    requires
        s.machine.pc + n <= program.len(),
        forall|i: int| s.machine.pc <= i < s.machine.pc + n ==> program[i] == '<',
        s.machine.pointer == 0,
        n <= steps,
    ensures
        ({
            let end = Session { machine: s.machine.at(s.machine.pc + n), ..s };
            &&& run(program, s, steps) == run(program, end, (steps - n) as nat)
            &&& end.machine.pointer == 0
            &&& end.machine.cells == s.machine.cells
        }),
    decreases n,
{
    if n > 0 {
        let next = advance(program, s)->Ok_0;
        law_left_is_clamped(program, next, (n - 1) as nat, (steps - 1) as nat);
    } else {
        assert(s.machine.at(s.machine.pc) == s.machine);
    }
}

/// A loop entered with a zero guard is skipped in one step: the program
/// counter lands just behind the matching `]`, the body is not executed, and
/// nothing else changes.
pub proof fn law_zero_guard_skips_loop(program: Seq<char>, s: Session, close: nat, steps: nat)
    requires
        s.machine.pc < program.len(),
        program[s.machine.pc as int] == '[',
        closes(program, s.machine.pc, close),
        s.machine.guard() == 0,
        steps >= 1,
    ensures
        step(program, s.machine) == (s.machine.at(close + 1), Action::Proceed),
        run(program, s, steps) == run(
            program,
            Session { machine: s.machine.at(close + 1), ..s },
            (steps - 1) as nat,
        ),
{
    lemma_matching_close(program, s.machine.pc, close);
}

/// The program `,.` echoes the byte of the first character of its line of
/// input: that byte is all it writes, and it ends having read one line.
pub proof fn law_read_then_write_echoes(
    cells: Seq<u8>,
    pointer: nat,
    input: Seq<Seq<char>>,
    steps: nat,
)
    requires
        input.len() > 0,
        input[0].len() > 0,
        steps >= 2,
    ensures
        ({
            let (end, status) = run(seq![',', '.'], entry(cells, pointer, input), steps);
            &&& status == Status::Finished
            &&& end.output == seq![byte_of(input[0][0])]
            &&& end.input == input.drop_first()
            &&& end.machine.pointer == pointer
            &&& end.machine.cells == stored(cells, pointer, byte_of(input[0][0]))
        }),
{
    let program = seq![',', '.'];
    let start = entry(cells, pointer, input);
    let read = advance(program, start)->Ok_0;
    let written = advance(program, read)->Ok_0;
    assert(run(program, start, steps) == run(program, read, (steps - 1) as nat));
    assert(run(program, read, (steps - 1) as nat) == run(program, written, (steps - 2) as nat));
    assert(written.output =~= seq![byte_of(input[0][0])]);
}

/// The session just inside a loop that `s` is about to enter: the program
/// counter stands on the first instruction of the body, and the loop has been
/// pushed on the loop stack.
pub open spec fn entered(s: Session) -> Session {
    Session {
        machine: Machine {
            pc: s.machine.pc + 1,
            loops: s.machine.loops.push(s.machine.pc),
            ..s.machine
        },
        ..s
    }
}

/// The session just behind a loop that ends at `close`, reached from the
/// session `at_close` that stood on its closing bracket: the loop stack is
/// `loops` again, as it was before the loop.
pub open spec fn exited(at_close: Session, close: nat, loops: Seq<nat>) -> Session {
    Session { machine: Machine { pc: close + 1, loops, ..at_close.machine }, ..at_close }
}

/// While the body of a loop runs and has not come to the loop's closing
/// bracket, the program counter stays inside the loop, and the loop stack is
/// the one at entry followed by the loops that are open inside the body.
proof fn lemma_body_stays_inside(
    program: Seq<char>,
    inside: Session,
    open: nat,
    close: nat,
    n: nat,
    k: nat,
)
    requires
        closes(program, open, close),
        inside.machine.pc == open + 1,
        run(program, inside, n).1 == Status::OutOfSteps,
        forall|j: nat| j < n ==> (#[trigger] run(program, inside, j)).0.machine.pc != close,
        k <= n,
    ensures
        run(program, inside, k).1 == Status::OutOfSteps,
        open < run(program, inside, k).0.machine.pc <= close,
        k > 0 ==> run(program, inside, k).0.machine.pc > open + 1,
        run(program, inside, k).0.machine.loops == inside.machine.loops + pending(
            program,
            open as int + 1,
            run(program, inside, k).0.machine.pc as int,
        ),
    decreases k,
{
    let from = open as int + 1;
    lemma_loop_interior(program, open, close);
    if k == 0 {
        assert(inside.machine.loops + pending(program, from, from) =~= inside.machine.loops);
    } else {
        let j = (k - 1) as nat;
        lemma_body_stays_inside(program, inside, open, close, n, j);
        lemma_run_split(program, inside, j, 1);
        lemma_run_split(program, inside, k, (n - k) as nat);
        let here = run(program, inside, j).0;
        let m = here.machine;
        let q = m.pc as int;
        assert(q < close);
        let next = advance(program, here)->Ok_0;
        assert(advance(program, here) is Ok);
        assert(run(program, here, 1) == run(program, next, 0));
        let c = program[q];
        let before = pending(program, from, q);
        assert(nesting(program, from, q) >= 0);
        assert(nesting(program, from, q + 1) >= 0);
        lemma_pending_len(program, from, q);
        if c == '[' {
            if m.guard() != 0 {
                assert(next.machine.loops =~= inside.machine.loops + before.push(m.pc));
            } else {
                let inner_close = matching_close(program, m.pc)->Some_0;
                lemma_matching_close(program, m.pc, inner_close);
                lemma_inner_loop(program, open, close, m.pc, inner_close);
            }
        } else if c == ']' {
            assert(before.len() > 0);
            assert(m.loops.last() == before.last());
            if m.guard() != 0 {
                lemma_pending_last(program, from, q);
                assert(next.machine.pc == before.last() + 1);
            } else {
                assert(next.machine.loops =~= inside.machine.loops + before.drop_last());
            }
        }
    }
}

/// A loop entered with a guard that is not zero (1, say), whose body brings
/// the guard to zero the first time it runs through, runs its body exactly
/// once.
///
/// One pass of the body is given as the `body` steps that lead from just
/// inside the loop to the first arrival at its closing bracket, without the
/// run ending or failing on the way. If the guard is zero there, the closing
/// bracket ends the loop: the run goes on behind it, with the loop stack as
/// it was before the loop and everything else as the one pass left it. On the
/// way there the body was begun once, at the first step, and never again.
pub proof fn law_loop_body_runs_once(
    program: Seq<char>,
    s: Session,
    close: nat,
    body: nat,
    steps: nat,
)
    requires
        s.machine.pc < program.len(),
        program[s.machine.pc as int] == '[',
        closes(program, s.machine.pc, close),
        s.machine.guard() != 0,
        run(program, entered(s), body).1 == Status::OutOfSteps,
        run(program, entered(s), body).0.machine.pc == close,
        run(program, entered(s), body).0.machine.guard() == 0,
        forall|j: nat| j < body ==> (#[trigger] run(program, entered(s), j)).0.machine.pc != close,
        steps >= body + 2,
    ensures
        run(program, s, steps) == run(
            program,
            exited(run(program, entered(s), body).0, close, s.machine.loops),
            (steps - body - 2) as nat,
        ),
        forall|j: nat|
            j <= body + 2 ==> ((#[trigger] run(program, s, j)).0.machine.pc == s.machine.pc + 1
                <==> j == 1),
{
    let inside = entered(s);
    let at_close = run(program, inside, body).0;
    lemma_body_stays_inside(program, inside, s.machine.pc, close, body, body);
    lemma_loop_interior(program, s.machine.pc, close);
    lemma_pending_len(program, s.machine.pc as int + 1, close as int);
    assert(at_close.machine.loops =~= s.machine.loops.push(s.machine.pc));
    assert(run(program, s, steps) == run(program, inside, (steps - 1) as nat));
    lemma_run_split(program, inside, body, (steps - 1 - body) as nat);
    let after = exited(at_close, close, s.machine.loops);
    assert(advance(program, at_close) == Ok::<Session, Fault>(after)) by {
        assert(at_close.machine.loops.drop_last() =~= s.machine.loops);
    }
    assert forall|j: nat| j <= body + 2 implies ((#[trigger] run(program, s, j)).0.machine.pc
        == s.machine.pc + 1 <==> j == 1) by {
        if j > 0 {
            let k = (j - 1) as nat;
            assert(run(program, s, j) == run(program, inside, k));
            if k <= body {
                lemma_body_stays_inside(program, inside, s.machine.pc, close, body, k);
            } else {
                lemma_run_split(program, inside, body, 1);
                assert(run(program, at_close, 1) == run(program, after, 0));
            }
        }
    }
}

} // verus!
