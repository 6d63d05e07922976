use vstd::prelude::*;

verus! {

/// One of the two sides of a game, known by a numeric identity.
#[derive(Clone, Copy, Debug, PartialEq, Eq, Structural)]
pub struct Player {
    pub id: u32,
}

} // verus!
