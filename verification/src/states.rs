use vstd::prelude::*;

verus! {

/// A phase of the match.
#[derive(Clone, Copy, Debug, PartialEq, Eq, Structural, Hash)]
pub enum GameState {
    Setup,
    StartGame,
    PlayerTurn,
    PlayerAttacking,
    OpponentPlayCards,
    OpponentTurn,
    OpponentAttacking,
    Win,
    Lose,
}

impl GameState {
    /// The phase that follows `self` in the turn order; `None` for the two
    /// phases that end the match.
    pub open spec fn successor(self) -> Option<GameState> {
        match self {
            GameState::Setup => Some(GameState::StartGame),
            GameState::StartGame => Some(GameState::PlayerTurn),
            GameState::PlayerTurn => Some(GameState::PlayerAttacking),
            GameState::PlayerAttacking => Some(GameState::OpponentPlayCards),
            GameState::OpponentPlayCards => Some(GameState::OpponentTurn),
            GameState::OpponentTurn => Some(GameState::OpponentAttacking),
            GameState::OpponentAttacking => Some(GameState::PlayerTurn),
            GameState::Win => None,
            GameState::Lose => None,
        }
    }

    /// The phase reached from `self` by `steps` advances, none of which ends
    /// the match; a phase that ends the match stays as it is.
    pub open spec fn advanced(self, steps: nat) -> GameState
        decreases steps,
    {
        if steps == 0 {
            self
        } else {
            match self.successor() {
                Some(next) => next.advanced((steps - 1) as nat),
                None => self,
            }
        }
    }

    /// The match is over.
    pub open spec fn is_terminal(self) -> bool {
        self is Win || self is Lose
    }

    /// One of the five phases that a round goes through.
    pub open spec fn in_round(self) -> bool {
        !(self is Setup) && !(self is StartGame) && !self.is_terminal()
    }

    /// One of the two phases in which a side's cards strike.
    pub open spec fn is_attacking(self) -> bool {
        self is PlayerAttacking || self is OpponentAttacking
    }

    /// A match goes from `self` to `after` by staying in the phase, by
    /// advancing to the phase that follows, or by ending in an attack phase.
    pub open spec fn leads_to(self, after: GameState) -> bool {
        ||| after == self
        ||| self.successor() == Some(after)
        ||| self.is_attacking() && after.is_terminal()
    }

    /// The turn cycle: from the player's turn the phases run through the
    /// player's attack, the opponent's play, the opponent's turn and the
    /// opponent's attack, and the fifth advance is the first to come back
    /// to the player's turn.
    pub proof fn lemma_turn_cycle()
        ensures
            GameState::PlayerTurn.advanced(1) == GameState::PlayerAttacking,
            GameState::PlayerTurn.advanced(2) == GameState::OpponentPlayCards,
            GameState::PlayerTurn.advanced(3) == GameState::OpponentTurn,
            GameState::PlayerTurn.advanced(4) == GameState::OpponentAttacking,
            GameState::PlayerTurn.advanced(5) == GameState::PlayerTurn,
            forall|steps: nat|
                0 < steps < 5 ==> #[trigger] GameState::PlayerTurn.advanced(steps)
                    != GameState::PlayerTurn,
    {
        reveal_with_fuel(GameState::advanced, 6);
        assert forall|steps: nat| 0 < steps < 5 implies #[trigger] GameState::PlayerTurn.advanced(
            steps,
        ) != GameState::PlayerTurn by {
            if steps == 1 {
            } else if steps == 2 {
            } else if steps == 3 {
            } else {
                assert(steps == 4);
            }
        }
    }

    /// Every phase of a round comes back to itself after five advances, and
    /// no phase of a round leads out of the round by advancing.
    pub proof fn lemma_round_returns(phase: GameState)
        requires
            phase.in_round(),
        ensures
            phase.advanced(5) == phase,
            forall|steps: nat| (#[trigger] phase.advanced(steps)).in_round(),
    {
        reveal_with_fuel(GameState::advanced, 6);
        assert forall|steps: nat| (#[trigger] phase.advanced(steps)).in_round() by {
            Self::lemma_stays_in_round(phase, steps);
        }
    }

    /// Advancing from a phase of a round stays in the round.
    proof fn lemma_stays_in_round(phase: GameState, steps: nat)
        requires
            phase.in_round(),
        ensures
            phase.advanced(steps).in_round(),
        decreases steps,
    {
        if steps > 0 {
            Self::lemma_stays_in_round(phase.successor()->0, (steps - 1) as nat);
        }
    }

    pub fn next(&self) -> (r: Option<Self>)
        ensures
            r == self.successor(),
    {
        match self {
            Self::Setup => Some(Self::StartGame),
            Self::StartGame => Some(Self::PlayerTurn),
            Self::PlayerTurn => Some(Self::PlayerAttacking),
            Self::PlayerAttacking => Some(Self::OpponentPlayCards),
            Self::OpponentPlayCards => Some(Self::OpponentTurn),
            Self::OpponentTurn => Some(Self::OpponentAttacking),
            Self::OpponentAttacking => Some(Self::PlayerTurn),
            Self::Win => None,
            Self::Lose => None,
        }
    }
}

impl Default for GameState {
    fn default() -> (r: Self)
        ensures
            r == GameState::Setup,
    {
        GameState::Setup
    }
}

} // verus!
