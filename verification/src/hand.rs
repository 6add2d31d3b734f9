use vstd::prelude::*;
use crate::cards::CardId;

verus! {

/// A card was put on a board. `index` is where the card stood in the hand
/// when the player played it, and the slot it went to when the opponent did.
#[derive(Clone, Copy, Debug, PartialEq, Eq, Structural)]
pub struct CardPlayedEvent {
    pub entity: CardId,
    pub index: u32,
}

/// Where a card stands in the hand.
#[derive(Clone, Copy, Debug, PartialEq, Eq, Structural)]
pub struct Hand(pub u32);

/// One unit of power on the table, spent or not.
#[derive(Clone, Copy, Debug, PartialEq, Eq, Structural)]
pub struct Power {
    pub index: u32,
    pub available: bool,
}

impl Power {
    pub fn new(index: u32) -> (r: Self)
        ensures
            r == (Power { index, available: true }),
    {
        Self { index, available: true }
    }
}

} // verus!
