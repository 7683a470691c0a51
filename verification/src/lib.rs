use vstd::prelude::*;

pub mod board;
pub mod gamemanager;
pub mod movedef;
pub mod player;

verus! {

} // verus!
