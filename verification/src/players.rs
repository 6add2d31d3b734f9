use vstd::prelude::*;

verus! {

/// Combat damage that a card has taken and that has not been applied yet.
#[derive(Clone, Copy, Debug, PartialEq, Eq, Structural)]
pub struct Damage(pub i32);

/// A side was hit in the face for the given amount.
#[derive(Clone, Copy, Debug, PartialEq, Eq, Structural)]
pub enum AttackedEvent {
    Player(u32),
    Opponent(u32),
}

} // verus!
