//! The tape store: a growable sequence of byte cells that reads as zero
//! wherever it has not been extended yet.

use vstd::prelude::*;

verus! {

/// The value of the cell at `pos`. Cells beyond the end of `cells` are zero.
pub open spec fn cell_at(cells: Seq<u8>, pos: nat) -> u8 {
    if pos < cells.len() {
        cells[pos as int]
    } else {
        0
    }
}

/// `cells`, grown with zero cells as far as needed to make `pos` addressable.
pub open spec fn extended(cells: Seq<u8>, pos: nat) -> Seq<u8> {
    if pos < cells.len() {
        cells
    } else {
        cells + Seq::new((pos + 1 - cells.len()) as nat, |i: int| 0u8)
    }
}

/// `cells` after `value` has been stored at `pos`, extending first if needed.
pub open spec fn stored(cells: Seq<u8>, pos: nat, value: u8) -> Seq<u8> {
    extended(cells, pos).update(pos as int, value)
}

/// A tape of byte cells, indexed from zero and never shrinking.
pub struct Tape {
    cells: Vec<u8>,
}

impl View for Tape {
    type V = Seq<u8>;

    closed spec fn view(&self) -> Seq<u8> {
        self.cells@
    }
}

impl Tape {
    /// An empty tape.
    pub fn new() -> (tape: Tape)
        ensures
            tape@ == Seq::<u8>::empty(),
    {
        Tape { cells: Vec::new() }
    }

    /// The number of cells created so far.
    pub fn len(&self) -> (n: usize)
        ensures
            n == self@.len(),
    {
        self.cells.len()
    }

    /// Reads the cell at `pos` without touching the tape.
    pub fn peek(&self, pos: usize) -> (value: u8)
        ensures
            value == cell_at(self@, pos as nat),
    {
        if pos < self.cells.len() {
            self.cells[pos]
        } else {
            0
        }
    }

    /// Grows the tape with zero cells until `pos` is addressable.
    pub fn extend_to(&mut self, pos: usize)
        requires
            pos < usize::MAX,
        ensures
            final(self)@ == extended(old(self)@, pos as nat),
    {
        let ghost before = self.cells@;
        while self.cells.len() <= pos
            invariant
                pos < usize::MAX,
                before.len() <= self.cells@.len(),
                self.cells@.len() <= pos + 1 || self.cells@.len() == before.len(),
                self.cells@ == before + Seq::new(
                    (self.cells@.len() - before.len()) as nat,
                    |i: int| 0u8,
                ),
            decreases pos + 1 - self.cells@.len(),
        {
            self.cells.push(0);
        }
        assert(self.cells@ =~= extended(before, pos as nat));
    }

    /// Reads the cell at `pos`, extending the tape up to it first.
    pub fn read(&mut self, pos: usize) -> (value: u8)
        requires
            pos < usize::MAX,
        ensures
            value == cell_at(old(self)@, pos as nat),
            final(self)@ == extended(old(self)@, pos as nat),
    {
        self.extend_to(pos);
        self.cells[pos]
    }

    /// Stores `value` in the cell at `pos`, extending the tape up to it first.
    pub fn write(&mut self, pos: usize, value: u8)
        requires
            pos < usize::MAX,
        ensures
            final(self)@ == stored(old(self)@, pos as nat, value),
    {
        self.extend_to(pos);
        self.cells[pos] = value;
    }
}

} // verus!
