use vstd::prelude::*;

verus! {

/// One of the two sides of a game of checkers.
#[derive(Debug, Copy, Clone, PartialEq, Eq, Structural)]
pub enum Colour {
    Black,
    White,
}

impl Colour {
    /// The opponent of this colour: Black and White map to each other.
    pub open spec fn other_spec(self) -> Colour {
        match self {
            Colour::Black => Colour::White,
            Colour::White => Colour::Black,
        }
    }

    pub fn other(&self) -> (r: Colour)
        ensures
            r == self.other_spec(),
    {
        match self {
            Colour::Black => Colour::White,
            Colour::White => Colour::Black,
        }
    }
}

/// A participant: a side of the board, and whether it is played by the machine.
#[derive(Debug, Copy, Clone, PartialEq, Eq, Structural)]
pub struct Player {
    pub colour: Colour,
    pub ai: bool,
}

} // verus!
