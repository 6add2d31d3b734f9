use vstd::prelude::*;

verus! {

/// What a match is set up with.
#[derive(Clone, Copy, Debug, PartialEq, Eq, Structural)]
pub struct GameConfig {
    pub deck_size: u32,
    pub opponent_hp: u32,
}

/// The length of match chosen in the menu.
#[derive(Clone, Copy, Debug, PartialEq, Eq, Structural)]
pub enum MenuSelection {
    Small,
    Medium,
    Large,
}

impl MenuSelection {
    /// The deck size and the opponent's health that go with the choice.
    pub open spec fn spec_game_config(self) -> GameConfig {
        match self {
            MenuSelection::Small => GameConfig { deck_size: 12, opponent_hp: 20 },
            MenuSelection::Medium => GameConfig { deck_size: 24, opponent_hp: 48 },
            MenuSelection::Large => GameConfig { deck_size: 36, opponent_hp: 60 },
        }
    }

    pub fn game_config(&self) -> (r: GameConfig)
        ensures
            r == self.spec_game_config(),
    {
        match self {
            MenuSelection::Small => GameConfig { deck_size: 12, opponent_hp: 20 },
            MenuSelection::Medium => GameConfig { deck_size: 24, opponent_hp: 48 },
            MenuSelection::Large => GameConfig { deck_size: 36, opponent_hp: 60 },
        }
    }
}

} // verus!
