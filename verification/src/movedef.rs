use vstd::prelude::*;

verus! {

/// One ply of play: the piece on `start` lands on `end`; a jump also names
/// the cell of the single opposing piece it captures in `taken_piece`.
#[derive(Debug, Copy, Clone, PartialEq, Eq)]
pub struct Movedef {
    pub start: usize,
    pub end: usize,
    pub taken_piece: Option<usize>,
}

} // verus!
