//! The loop resolver: which closing bracket belongs to an opening one.
//!
//! Matching is defined by nesting depth. A scan starts at depth 1 just after
//! the opening bracket, gains one for every `[` and loses one for every `]`;
//! the matching bracket is the first position at which the depth is zero.

use vstd::prelude::*;

verus! {

/// What one character adds to the nesting depth.
pub open spec fn weight(c: char) -> int {
    if c == '[' {
        1
    } else if c == ']' {
        -1
    } else {
        0
    }
}

/// Opening minus closing brackets among `program[from..to]`, `to` excluded.
pub open spec fn nesting(program: Seq<char>, from: int, to: int) -> int
    decreases to - from,
{
    if to <= from {
        0
    } else {
        nesting(program, from, to - 1) + weight(program[to - 1])
    }
}

/// The depth of a scan that began at depth 1 behind `open` and has read
/// every character up to `at`, `at` included.
pub open spec fn depth_after(program: Seq<char>, open: nat, at: nat) -> int {
    1 + nesting(program, open as int + 1, at as int + 1)
}

/// `close` is where the scan from `open` first comes down to depth zero.
pub open spec fn closes(program: Seq<char>, open: nat, close: nat) -> bool {
    &&& open < close < program.len()
    &&& depth_after(program, open, close) == 0
    &&& forall|k: nat| open <= k < close ==> depth_after(program, open, k) > 0
}

/// The position of the bracket that matches the one at `open`, if there is one.
pub open spec fn matching_close(program: Seq<char>, open: nat) -> Option<nat> {
    if exists|close: nat| closes(program, open, close) {
        Some(choose|close: nat| closes(program, open, close))
    } else {
        None
    }
}

/// At most one position closes a given opening bracket.
pub proof fn lemma_closes_unique(program: Seq<char>, open: nat, a: nat, b: nat)
    requires
        closes(program, open, a),
        closes(program, open, b),
    ensures
        a == b,
{
}

/// `matching_close` names exactly the position that `closes` accepts.
pub proof fn lemma_matching_close(program: Seq<char>, open: nat, close: nat)
    ensures
        matching_close(program, open) == Some(close) <==> closes(program, open, close),
{
    if closes(program, open, close) {
        let found = choose|c: nat| closes(program, open, c);
        lemma_closes_unique(program, open, found, close);
    }
}

/// Scans forward from `open` for the bracket that brings the depth back to
/// zero. `None` means that the scan ran off the end of the program.
pub fn find_close(program: &[char], open: usize) -> (close: Option<usize>)
    ensures
        match close {
            Some(c) => matching_close(program@, open as nat) == Some(c as nat),
            None => matching_close(program@, open as nat).is_none(),
        },
{
    if open >= program.len() {
        return None;
    }
    let mut depth: usize = 1;
    let mut at: usize = open;
    while depth > 0
        invariant
            open <= at < program.len(),
            depth == depth_after(program@, open as nat, at as nat),
            depth <= at - open + 1,
            forall|k: nat| open <= k < at ==> depth_after(program@, open as nat, k) > 0,
        decreases program.len() - at,
    {
        if at >= program.len() - 1 {
            assert forall|c: nat| !closes(program@, open as nat, c) by {
                if closes(program@, open as nat, c) {
                    assert(depth_after(program@, open as nat, c) > 0);
                }
            }
            return None;
        }
        at += 1;
        if program[at] == '[' {
            depth += 1;
        } else if program[at] == ']' {
            depth -= 1;
        }
    }
    proof {
        lemma_matching_close(program@, open as nat, at as nat);
    }
    Some(at)
}

/// The opening brackets among `program[from..to]`, `to` excluded, that
/// nothing in that stretch closes, outermost first.
pub open spec fn pending(program: Seq<char>, from: int, to: int) -> Seq<nat>
    decreases to - from,
{
    if to <= from {
        Seq::empty()
    } else {
        let before = pending(program, from, to - 1);
        let c = program[to - 1];
        if c == '[' {
            before.push((to - 1) as nat)
        } else if c == ']' && before.len() > 0 {
            before.drop_last()
        } else {
            before
        }
    }
}

/// No stretch that starts at `from` and ends at or before `to` closes more
/// brackets than it opens.
pub open spec fn never_negative(program: Seq<char>, from: int, to: int) -> bool {
    forall|t: int| from <= t <= to ==> nesting(program, from, t) >= 0
}

/// Nesting adds up over adjacent stretches.
pub proof fn lemma_nesting_split(program: Seq<char>, from: int, mid: int, to: int)
    requires
        from <= mid <= to,
    ensures
        nesting(program, from, to) == nesting(program, from, mid) + nesting(program, mid, to),
    decreases to - mid,
{
    if mid < to {
        lemma_nesting_split(program, from, mid, to - 1);
    }
}

/// Where no prefix goes negative, there are as many pending brackets as the
/// nesting counts.
pub proof fn lemma_pending_len(program: Seq<char>, from: int, to: int)
    requires
        never_negative(program, from, to),
    ensures
        pending(program, from, to).len() == if from <= to {
            nesting(program, from, to)
        } else {
            0
        },
    decreases to - from,
{
    if from < to {
        lemma_pending_len(program, from, to - 1);
        assert(nesting(program, from, to) >= 0);
    }
}

/// A stretch whose own prefixes never go negative only adds to the brackets
/// that were pending before it.
pub proof fn lemma_pending_split(program: Seq<char>, from: int, mid: int, to: int)
    requires
        from <= mid <= to,
        never_negative(program, mid, to),
    ensures
        pending(program, from, to) == pending(program, from, mid) + pending(program, mid, to),
    decreases to - mid,
{
    if mid < to {
        lemma_pending_split(program, from, mid, to - 1);
        lemma_pending_len(program, mid, to - 1);
        assert(nesting(program, mid, to) >= 0);
        assert(pending(program, from, to) =~= pending(program, from, mid) + pending(
            program,
            mid,
            to,
        ));
    } else {
        assert(pending(program, from, to) =~= pending(program, from, mid) + pending(
            program,
            mid,
            to,
        ));
    }
}

/// Every pending bracket lies inside the stretch.
pub proof fn lemma_pending_bounds(program: Seq<char>, from: int, to: int)
    requires
        0 <= from,
    ensures
        forall|i: int|
            0 <= i < pending(program, from, to).len() ==> from <= #[trigger] pending(
                program,
                from,
                to,
            )[i] < to,
    decreases to - from,
{
    if from < to {
        lemma_pending_bounds(program, from, to - 1);
        let before = pending(program, from, to - 1);
        let all = pending(program, from, to);
        assert forall|i: int| 0 <= i < all.len() implies from <= #[trigger] all[i] < to by {
            if i < before.len() {
                assert(all[i] == before[i]);
            }
        }
    }
}

/// Everything behind the innermost pending bracket is closed again by the
/// end of the stretch.
pub proof fn lemma_pending_last(program: Seq<char>, from: int, to: int)
    requires
        0 <= from,
        pending(program, from, to).len() > 0,
    ensures
        from <= pending(program, from, to).last() < to,
        pending(program, from, pending(program, from, to).last() as int + 1) == pending(
            program,
            from,
            to,
        ),
    decreases to - from,
{
    lemma_pending_bounds(program, from, to);
    let c = program[to - 1];
    let before = pending(program, from, to - 1);
    if c == '[' {
    } else if c == ']' && before.len() > 0 {
        lemma_pending_last(program, from, to - 1);
        let inner = before.last() as int;
        let under = pending(program, from, inner);
        lemma_pending_bounds(program, from, inner);
        if program[inner] == '[' {
            assert(under =~= before.drop_last());
            lemma_pending_last(program, from, inner);
        } else if program[inner] == ']' && under.len() > 0 {
            assert(under[under.len() - 2] == inner);
        } else {
            assert(under[under.len() - 1] == inner);
        }
    } else {
        lemma_pending_last(program, from, to - 1);
    }
}

/// Inside a loop no prefix of the body goes negative, the body as a whole is
/// balanced, and the loop ends in a `]`.
pub proof fn lemma_loop_interior(program: Seq<char>, open: nat, close: nat)
    requires
        closes(program, open, close),
    ensures
        never_negative(program, open as int + 1, close as int),
        nesting(program, open as int + 1, close as int) == 0,
        program[close as int] == ']',
{
    let from = open as int + 1;
    assert forall|t: int| from <= t <= close implies nesting(program, from, t) >= 0 by {
        assert(depth_after(program, open, (t - 1) as nat) > 0);
    }
    assert(depth_after(program, open, (close - 1) as nat) > 0);
}

/// A loop that opens inside another closes inside it, and leaves pending
/// behind it what was pending before it.
pub proof fn lemma_inner_loop(
    program: Seq<char>,
    open: nat,
    close: nat,
    inner_open: nat,
    inner_close: nat,
)
    requires
        closes(program, open, close),
        open < inner_open < close,
        program[inner_open as int] == '[',
        closes(program, inner_open, inner_close),
    ensures
        inner_close < close,
        pending(program, open as int + 1, inner_close as int + 1) == pending(
            program,
            open as int + 1,
            inner_open as int,
        ),
{
    let from = open as int + 1;
    let q = inner_open as int;
    let j = inner_close as int;
    lemma_loop_interior(program, open, close);
    assert(nesting(program, from, q) >= 0);
    assert(nesting(program, q, q + 1) == 1) by {
        assert(nesting(program, q, q) == 0);
    }
    assert(j < close) by {
        if j >= close {
            lemma_nesting_split(program, from, q, close as int + 1);
            lemma_nesting_split(program, q, q + 1, close as int + 1);
            assert(depth_after(program, inner_open, close) >= 0);
        }
    }
    assert forall|t: int| q <= t <= j + 1 implies nesting(program, q, t) >= 0 by {
        if t > q {
            lemma_nesting_split(program, q, q + 1, t);
            assert(depth_after(program, inner_open, (t - 1) as nat) >= 0);
        }
    }
    lemma_pending_split(program, from, q, j + 1);
    lemma_pending_len(program, q, j + 1);
    lemma_nesting_split(program, q, q + 1, j + 1);
    assert(pending(program, from, j + 1) =~= pending(program, from, q));
}

} // verus!
