use vstd::prelude::*;

verus! {

/// Where a character lives in the source: its index counted in characters,
/// and its 0-based row and column.
#[derive(Clone, Copy, Debug, PartialEq, Eq, Structural)]
pub struct CodePosition {
    pub char: usize,
    pub row: usize,
    pub col: usize,
}

/// The mathematical value of a [`CodePosition`].
pub struct PosModel {
    pub index: nat,
    pub row: nat,
    pub col: nat,
}

impl View for CodePosition {
    type V = PosModel;

    open spec fn view(&self) -> PosModel {
        PosModel { index: self.char as nat, row: self.row as nat, col: self.col as nat }
    }
}

/// The position one character further on, over the character `c`.
pub open spec fn advance(p: PosModel, c: char) -> PosModel {
    if c == '\n' {
        PosModel { index: p.index + 1, row: p.row + 1, col: 0 }
    } else {
        PosModel { index: p.index + 1, row: p.row, col: p.col + 1 }
    }
}

/// The position reached from the start of `s` after consuming its first `i` characters.
pub open spec fn pos_after(s: Seq<char>, i: nat) -> PosModel
    decreases i,
{
    if i == 0 {
        PosModel { index: 0, row: 0, col: 0 }
    } else {
        advance(pos_after(s, (i - 1) as nat), s[i - 1])
    }
}

/// The index of a position is the number of characters consumed, and neither
/// its row nor its column can exceed it.
pub proof fn lemma_pos_after_bounds(s: Seq<char>, i: nat)
    ensures
        pos_after(s, i).index == i,
        pos_after(s, i).row <= i,
        pos_after(s, i).col <= i,
    decreases i,
{
    if i > 0 {
        lemma_pos_after_bounds(s, (i - 1) as nat);
    }
}

impl CodePosition {
    /// Creates a new [`CodePosition`]
    pub fn new(char: usize, row: usize, col: usize) -> (r: Self)
        ensures
            r.char == char,
            r.row == row,
            r.col == col,
    {
        CodePosition { char, row, col }
    }

    /// The start of the source.
    pub fn origin() -> (r: Self)
        ensures
            r@ == pos_after(Seq::empty(), 0),
    {
        Self::new(0, 0, 0)
    }

    /// The position of the next character on the same row.
    pub fn next(&self) -> (r: Self)
        requires
            self.char < usize::MAX,
            self.col < usize::MAX,
        ensures
            r@ == (PosModel { index: self@.index + 1, row: self@.row, col: self@.col + 1 }),
    {
        CodePosition { char: self.char + 1, row: self.row, col: self.col + 1 }
    }

    /// The position of the start of the next row.
    pub fn next_row(&self) -> (r: Self)
        requires
            self.char < usize::MAX,
            self.row < usize::MAX,
        ensures
            r@ == (PosModel { index: self@.index + 1, row: self@.row + 1, col: 0 }),
    {
        CodePosition { char: self.char + 1, row: self.row + 1, col: 0 }
    }

    /// Steps over `chr`: to the next row on a newline, else to the next column.
    pub fn next_auto(&self, chr: char) -> (r: Self)
        requires
            self.char < usize::MAX,
            self.row < usize::MAX,
            self.col < usize::MAX,
        ensures
            r@ == advance(self@, chr),
    {
        if chr == '\n' {
            self.next_row()
        } else {
            self.next()
        }
    }
}

impl Default for CodePosition {
    fn default() -> (r: Self)
        ensures
            r.char == 0 && r.row == 0 && r.col == 0,
    {
        Self::new(0, 0, 0)
    }
}

} // verus!
