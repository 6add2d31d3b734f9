use vstd::prelude::*;
use crate::abilities::{ability_applied, ability_received, apply_ability, receive_ability};
use crate::arena::{CardArena, CardInstance};
use crate::board::{
    all_free, has_free_slot, holds, holds_at, lemma_occupants_bounded, occupants, Board,
    BoardPlacement, OpponentBoard, PlayerBoard, Slots,
};
use crate::cards::{placement_ids, CardId, CardType};
use crate::cascade::{cascade, lethal_at, none_lethal, resolve_kills};
use crate::combat::{
    apply_damage, face_hits, hit_events, lemma_face_hits_bounded, lemma_settle_all_keeps,
    lemma_struck_by_all_keeps, mark_attackers, settle_all, struck_by_all, total,
};
use crate::deck::{first_affordable, OpponentState, PlayableState, PlayerState};
use crate::hand::CardPlayedEvent;
use crate::menu::GameConfig;
use crate::players::AttackedEvent;
use crate::states::GameState;
use crate::table::{
    lemma_cascade_keeps, lemma_entry_keeps, lemma_place_keeps, lemma_same_cards_keep,
    lemma_settle_keeps, side_wf,
};
use crate::turn::{
    check_lose_condition, check_win_condition, granted_draws, mark_cards_to_draw,
    pick_from_hand, replenished, reset_power, spend_power,
};

verus! {

broadcast use crate::board::BoardState::lemma_four_slots;

/// A side's power is in order: what is left to spend is no more than the
/// power of the turn, which is no more than the side's most.
pub open spec fn solvent<S: PlayableState>(state: &S) -> bool {
    &&& 0 <= state.spec_available_power() <= state.spec_power()
    &&& state.spec_power() <= state.spec_max_power() <= i32::MAX
}

/// The lowest health that a pool can show: a pool that is not empty can
/// lose one pass of hits, four cards at the ability ceiling.
pub const HEALTH_FLOOR: i32 = -16;

/// A health pool is in order: it shows no less than the floor, and it is
/// not below zero while the match is on.
pub open spec fn pool_wf(health: i32, phase: GameState) -> bool {
    &&& HEALTH_FLOOR <= health
    &&& !phase.is_terminal() ==> 0 <= health
}

/// The cards on the table are in order: each side's board and arena are,
/// no occupant is without health, no card belongs to both sides, every
/// card was dealt before the next one to deal, and the hand holds cards of
/// the player that stand on no board, each once and none without health.
pub open spec fn table_wf(
    player: Slots,
    opponent: Slots,
    player_cards: Map<CardId, CardInstance>,
    opponent_cards: Map<CardId, CardInstance>,
    hand: Seq<CardId>,
    next_id: CardId,
) -> bool {
    &&& side_wf(player, player_cards)
    &&& side_wf(opponent, opponent_cards)
    &&& none_lethal(player, player_cards)
    &&& none_lethal(opponent, opponent_cards)
    &&& forall|id: CardId| #[trigger]
        player_cards.contains_key(id) ==> id < next_id && !opponent_cards.contains_key(id)
    &&& forall|id: CardId| #[trigger] opponent_cards.contains_key(id) ==> id < next_id
    &&& hand.no_duplicates()
    &&& forall|k: int|
        0 <= k < hand.len() ==> {
            &&& player_cards.contains_key(#[trigger] hand[k])
            &&& !player_cards[hand[k]].lethal()
            &&& !holds(player, hand[k])
        }
}

/// A match: the phase, both boards, the live cards of both sides, both
/// sides' decks, health and power, and what the player holds.
pub struct MatchState {
    /// The current phase.
    pub state: GameState,
    pub player_board: PlayerBoard,
    pub opponent_board: OpponentBoard,
    /// The player's live cards: those in the hand and those on the board.
    pub player_cards: CardArena,
    /// The opponent's live cards: those on the board.
    pub opponent_cards: CardArena,
    pub player_state: PlayerState,
    pub opponent_state: OpponentState,
    /// The player's hand, in the order in which it is laid out.
    pub hand: Vec<CardId>,
    /// The card of the hand that the player has picked to play.
    pub picked: Option<CardId>,
    /// The cards that the player is still to draw this turn.
    pub to_draw: u32,
    /// The cards that are still to strike in the current attack phase.
    pub attackers: Vec<CardId>,
    /// The identity that the next new card gets.
    pub next_id: CardId,
}

impl MatchState {
    /// The slots of the player's board.
    pub open spec fn player_slots(&self) -> Slots {
        self.player_board.spec_state()@
    }

    /// The slots of the opponent's board.
    pub open spec fn opponent_slots(&self) -> Slots {
        self.opponent_board.spec_state()@
    }

    /// The match is in order.
    pub open spec fn wf(&self) -> bool {
        &&& table_wf(
            self.player_slots(),
            self.opponent_slots(),
            self.player_cards@,
            self.opponent_cards@,
            self.hand@,
            self.next_id,
        )
        &&& solvent(&self.player_state)
        &&& solvent(&self.opponent_state)
        &&& pool_wf(self.player_state.health, self.state)
        &&& pool_wf(self.opponent_state.health, self.state)
        &&& self.hand@.len() <= u32::MAX
        &&& self.attackers@.len() <= 4
        &&& !self.state.is_attacking() ==> self.attackers@.len() == 0
        &&& self.picked matches Some(id) ==> {
            &&& self.hand@.contains(id)
            &&& self.player_cards@[id].cost.0 <= self.player_state.available_power
        }
    }

    /// The power is as in `other`.
    pub open spec fn same_sides(&self, other: &MatchState) -> bool {
        &&& self.player_state == other.player_state
        &&& self.opponent_state == other.opponent_state
    }

    /// The boards, the live cards and the hand are as in `other`.
    pub open spec fn same_table(&self, other: &MatchState) -> bool {
        &&& self.player_slots() == other.player_slots()
        &&& self.opponent_slots() == other.opponent_slots()
        &&& self.player_cards@ == other.player_cards@
        &&& self.opponent_cards@ == other.opponent_cards@
        &&& self.hand@ == other.hand@
        &&& self.picked == other.picked
        &&& self.next_id == other.next_id
    }

    /// Everything that the match keeps count of is as in `other`.
    pub open spec fn same_as(&self, other: &MatchState) -> bool {
        &&& self.state == other.state
        &&& self.same_sides(other)
        &&& self.same_table(other)
        &&& self.to_draw == other.to_draw
        &&& self.attackers@ == other.attackers@
    }

    /// In a match that is in order, a card stands in at most one slot of
    /// the two boards together.
    pub proof fn lemma_one_slot_per_card(&self, id: CardId, i: int, j: int)
        requires
            self.wf(),
        ensures
            holds_at(self.player_slots(), i, id) && holds_at(self.player_slots(), j, id) ==> i
                == j,
            holds_at(self.opponent_slots(), i, id) && holds_at(self.opponent_slots(), j, id)
                ==> i == j,
            !(holds_at(self.player_slots(), i, id) && holds_at(self.opponent_slots(), j, id)),
            self.player_slots().len() == 4,
            self.opponent_slots().len() == 4,
    {
        if holds_at(self.player_slots(), i, id) && holds_at(self.opponent_slots(), j, id) {
            assert(self.player_cards@.contains_key(id));
            assert(self.opponent_cards@.contains_key(id));
        }
    }

    /// In a match that is in order, every live card has attack and health
    /// between zero and the ability ceiling, no occupant of a board is
    /// without health, and no more power is left to spend than the side has.
    pub proof fn lemma_in_bounds(&self)
        requires
            self.wf(),
        ensures
            self.player_cards.wf(),
            self.opponent_cards.wf(),
            none_lethal(self.player_slots(), self.player_cards@),
            none_lethal(self.opponent_slots(), self.opponent_cards@),
            0 <= self.player_state.available_power <= self.player_state.power,
            0 <= self.opponent_state.available_power <= self.opponent_state.power,
    {
    }

    /// Whether the sides given can start a match: their power is in order
    /// and neither pool is below zero.
    pub open spec fn sides_fit(player_state: &PlayerState, opponent_state: &OpponentState) -> bool {
        &&& solvent(player_state)
        &&& solvent(opponent_state)
        &&& 0 <= player_state.health
        &&& 0 <= opponent_state.health
    }

    /// A match set up as `config` says, about to start: both sides with a
    /// deck of `config.deck_size` cards, each one rolled on the twelve-sided
    /// die, the opponent with `config.opponent_hp` health, and everything
    /// else as a side starts out.
    pub fn new(config: &GameConfig) -> (r: Self)
        requires
            config.opponent_hp <= i32::MAX,
        ensures
            r.wf(),
            r.state == GameState::StartGame,
            r.player_state.deck_state@.len() == config.deck_size,
            r.opponent_state.deck_state@.len() == config.deck_size,
            r.opponent_state.health == config.opponent_hp,
            r.player_state.health == 10,
            r.player_state.max_hand_size == 5,
            r.player_state.max_power == 5,
            r.player_state.power == 0,
            r.player_state.available_power == 0,
            r.player_state.turn == 0,
            r.opponent_state.max_power == 5,
            r.opponent_state.power == 0,
            r.opponent_state.available_power == 0,
            r.opponent_state.hand@.len() == 0,
            all_free(r.player_slots()),
            all_free(r.opponent_slots()),
            r.player_cards@ == Map::<CardId, CardInstance>::empty(),
            r.opponent_cards@ == Map::<CardId, CardInstance>::empty(),
            r.hand@.len() == 0,
            r.picked is None,
            r.to_draw == 0,
            r.attackers@.len() == 0,
            r.next_id == 0,
    {
        let player_state = PlayerState::default().with_deck_size(config.deck_size);
        let opponent_state = OpponentState::default().with_deck_size(
            config.deck_size,
        ).with_health(config.opponent_hp as i32);
        Self::from_sides(player_state, opponent_state)
    }

    /// A match between the sides given, about to start: empty boards, no
    /// live card, an empty hand.
    pub fn from_sides(player_state: PlayerState, opponent_state: OpponentState) -> (r: Self)
        requires
            Self::sides_fit(&player_state, &opponent_state),
        ensures
            r.wf(),
            r.state == GameState::StartGame,
            r.player_state == player_state,
            r.opponent_state == opponent_state,
            all_free(r.player_slots()),
            all_free(r.opponent_slots()),
            r.player_cards@ == Map::<CardId, CardInstance>::empty(),
            r.opponent_cards@ == Map::<CardId, CardInstance>::empty(),
            r.hand@.len() == 0,
            r.picked is None,
            r.to_draw == 0,
            r.attackers@.len() == 0,
            r.next_id == 0,
    {
        MatchState {
            state: GameState::StartGame,
            player_board: PlayerBoard::new(),
            opponent_board: OpponentBoard::new(),
            player_cards: CardArena::new(),
            opponent_cards: CardArena::new(),
            player_state,
            opponent_state,
            hand: Vec::new(),
            picked: None,
            to_draw: 0,
            attackers: Vec::new(),
            next_id: 0,
        }
    }

    /// Where the card `id` lies in the hand.
    pub fn hand_position(&self, id: CardId) -> (r: Option<usize>)
        ensures
            match r {
                Some(k) => k < self.hand@.len() && self.hand@[k as int] == id && forall|j: int|
                    0 <= j < k ==> self.hand@[j] != id,
                None => !self.hand@.contains(id),
            },
    {
        let mut k: usize = 0;
        while k < self.hand.len()
            invariant
                k <= self.hand@.len(),
                forall|j: int| 0 <= j < k ==> self.hand@[j] != id,
            decreases self.hand@.len() - k,
        {
            if self.hand[k] == id {
                return Some(k);
            }
            k += 1;
        }
        None
    }

    /// Whether some card of the hand can be paid for with the power that the
    /// player has left.
    pub open spec fn spec_can_play_card(&self) -> bool {
        exists|k: int|
            0 <= k < self.hand@.len() && self.player_cards@[#[trigger] self.hand@[k]].cost.0
                <= self.player_state.available_power
    }

    pub fn can_play_card(&self) -> (r: bool)
        requires
            self.wf(),
        ensures
            r == self.spec_can_play_card(),
    {
        let mut k: usize = 0;
        while k < self.hand.len()
            invariant
                self.wf(),
                k <= self.hand@.len(),
                forall|j: int|
                    0 <= j < k ==> self.player_cards@[#[trigger] self.hand@[j]].cost.0
                        > self.player_state.available_power,
            decreases self.hand@.len() - k,
        {
            match self.player_cards.get(self.hand[k]) {
                Some(card) => {
                    if pick_from_hand(&card.cost, &self.player_state) {
                        return true;
                    }
                },
                None => {},
            }
            k += 1;
        }
        false
    }

    /// Whether the player may pick the card at `index` of the hand: it is
    /// the player's turn, the hand has such a card, and the power left pays
    /// for it.
    pub open spec fn can_pick(&self, index: usize) -> bool {
        &&& self.state == GameState::PlayerTurn
        &&& index < self.hand@.len()
        &&& self.player_cards@[self.hand@[index as int]].cost.0
            <= self.player_state.available_power
    }

    /// The player picks the card at `index` of the hand, in place of any
    /// card picked before. Declined, with nothing changed, where the player
    /// may not pick it.
    pub fn pick_from_hand(&mut self, index: usize) -> (r: bool)
        requires
            old(self).wf(),
        ensures
            final(self).wf(),
            old(self).state.leads_to(final(self).state),
            r == old(self).can_pick(index),
            final(self).picked == if r {
                Some(old(self).hand@[index as int])
            } else {
                old(self).picked
            },
            final(self).state == old(self).state,
            final(self).same_sides(old(self)),
            final(self).player_slots() == old(self).player_slots(),
            final(self).opponent_slots() == old(self).opponent_slots(),
            final(self).player_cards@ == old(self).player_cards@,
            final(self).opponent_cards@ == old(self).opponent_cards@,
            final(self).hand@ == old(self).hand@,
            final(self).next_id == old(self).next_id,
            final(self).to_draw == old(self).to_draw,
            final(self).attackers@ == old(self).attackers@,
    {
        if !matches!(self.state, GameState::PlayerTurn) || index >= self.hand.len() {
            return false;
        }
        let id = self.hand[index];
        match self.player_cards.get(id) {
            Some(card) => {
                if pick_from_hand(&card.cost, &self.player_state) {
                    self.picked = Some(id);
                    true
                } else {
                    false
                }
            },
            None => false,
        }
    }

    /// The player ends the turn: the player's cards are to attack, each
    /// occupant of the player's board once. Declined, with nothing changed,
    /// in any other phase.
    pub fn end_turn(&mut self) -> (r: bool)
        requires
            old(self).wf(),
        ensures
            final(self).wf(),
            old(self).state.leads_to(final(self).state),
            r == (old(self).state == GameState::PlayerTurn),
            final(self).state == if r {
                GameState::PlayerAttacking
            } else {
                old(self).state
            },
            final(self).attackers@ == if r {
                placement_ids(occupants(old(self).player_slots()))
            } else {
                old(self).attackers@
            },
            final(self).same_sides(old(self)),
            final(self).same_table(old(self)),
            final(self).to_draw == old(self).to_draw,
    {
        if !matches!(self.state, GameState::PlayerTurn) {
            return false;
        }
        self.state = GameState::PlayerAttacking;
        self.attackers = mark_attackers(&self.player_board);
        proof {
            lemma_occupants_bounded(self.player_slots());
        }
        true
    }

    /// The opponent's turn ends: the opponent's cards are to attack, each
    /// occupant of the opponent's board once. Declined, with nothing
    /// changed, in any other phase.
    pub fn end_turn_opponent(&mut self) -> (r: bool)
        requires
            old(self).wf(),
        ensures
            final(self).wf(),
            old(self).state.leads_to(final(self).state),
            r == (old(self).state == GameState::OpponentTurn),
            final(self).state == if r {
                GameState::OpponentAttacking
            } else {
                old(self).state
            },
            final(self).attackers@ == if r {
                placement_ids(occupants(old(self).opponent_slots()))
            } else {
                old(self).attackers@
            },
            final(self).same_sides(old(self)),
            final(self).same_table(old(self)),
            final(self).to_draw == old(self).to_draw,
    {
        if !matches!(self.state, GameState::OpponentTurn) {
            return false;
        }
        self.state = GameState::OpponentAttacking;
        self.attackers = mark_attackers(&self.opponent_board);
        proof {
            lemma_occupants_bounded(self.opponent_slots());
        }
        true
    }

    /// Whether the player may play the picked card into slot `index`: it is
    /// the player's turn, a card is picked, and the slot exists and is free.
    pub open spec fn can_play(&self, index: u32) -> bool {
        &&& self.state == GameState::PlayerTurn
        &&& self.picked is Some
        &&& index < 4
        &&& self.player_slots()[index as int] is None
    }

    /// The player plays the picked card into slot `index`. The card leaves
    /// the hand for the slot, its cost is paid from the power left, the
    /// cards that its ability affects get its effect, and it gets the effect
    /// of every other occupant whose ability affects it. Declined, with
    /// nothing changed, where the player may not play it.
    pub fn play_card(&mut self, index: u32) -> (r: Option<CardPlayedEvent>)
        requires
            old(self).wf(),
        ensures
            final(self).wf(),
            old(self).state.leads_to(final(self).state),
            r is Some <==> old(self).can_play(index),
            r is None ==> final(self).same_as(old(self)),
            r matches Some(event) ==> {
                let id = old(self).picked->0;
                let card = old(self).player_cards@[id];
                let slots = old(self).player_slots().update(
                    index as int,
                    Some(BoardPlacement { entity: id, card_type: card.card_type }),
                );
                &&& event.entity == id
                &&& event.index < old(self).hand@.len()
                &&& old(self).hand@[event.index as int] == id
                &&& final(self).hand@ == old(self).hand@.remove(event.index as int)
                &&& final(self).picked is None
                &&& final(self).player_slots() == slots
                &&& final(self).player_cards@ == ability_received(
                    slots,
                    ability_applied(slots, old(self).player_cards@, id),
                    id,
                )
                &&& 0 < card.cost.0 <= old(self).player_state.available_power
                &&& final(self).player_state.available_power == old(self).player_state.available_power - card.cost.0
                &&& final(self).player_state.power == old(self).player_state.power
                &&& final(self).player_state.max_power == old(self).player_state.max_power
                &&& final(self).player_state.health == old(self).player_state.health
                &&& final(self).player_state.deck_state == old(self).player_state.deck_state
                &&& final(self).player_state.turn == old(self).player_state.turn
                &&& final(self).player_state.max_hand_size == old(self).player_state.max_hand_size
                &&& final(self).opponent_state == old(self).opponent_state
                &&& final(self).opponent_slots() == old(self).opponent_slots()
                &&& final(self).opponent_cards@ == old(self).opponent_cards@
                &&& final(self).state == old(self).state
                &&& final(self).next_id == old(self).next_id
                &&& final(self).to_draw == old(self).to_draw
                &&& final(self).attackers@ == old(self).attackers@
            },
    {
        if !matches!(self.state, GameState::PlayerTurn) || index >= 4 {
            return None;
        }
        let id = match self.picked {
            Some(id) => id,
            None => {
                return None;
            },
        };
        if !self.player_board.unoccupied(index) {
            return None;
        }
        let position = match self.hand_position(id) {
            Some(position) => position,
            None => {
                return None;
            },
        };
        let card = match self.player_cards.get(id) {
            Some(card) => card,
            None => {
                return None;
            },
        };
        let ghost before = self.player_slots();
        let ghost cards = self.player_cards@;
        let ghost placement = BoardPlacement { entity: id, card_type: card.card_type };
        proof {
            lemma_place_keeps(before, cards, index as int, placement);
            lemma_entry_keeps(before.update(index as int, Some(placement)), cards, id);
        }
        self.player_board.place(index, id, card.card_type);
        self.hand.remove(position);
        self.picked = None;
        spend_power(&card.cost, &mut self.player_state);
        apply_ability(self.player_board.state(), &mut self.player_cards, id);
        receive_ability(self.player_board.state(), &mut self.player_cards, id);
        proof {
            let slots = before.update(index as int, Some(placement));
            let after = self.player_cards@;
            lemma_same_cards_keep(slots, cards, after);
            assert forall|i: int| !lethal_at(slots, after, i) by {
                if lethal_at(slots, after, i) {
                    let p = slots[i]->0;
                    if i == index {
                        assert(old(self).hand@[position as int] == id);
                    } else {
                        assert(lethal_at(before, cards, i) || !cards[p.entity].lethal());
                    }
                }
            }
            assert forall|k: int| 0 <= k < self.hand@.len() implies {
                &&& after.contains_key(#[trigger] self.hand@[k])
                &&& !after[self.hand@[k]].lethal()
                &&& !holds(slots, self.hand@[k])
            } by {
                let j = if k < position {
                    k
                } else {
                    k + 1
                };
                assert(self.hand@[k] == old(self).hand@[j]);
                assert(old(self).hand@[j] != id);
            }
            assert(self.hand@.no_duplicates());
        }
        Some(CardPlayedEvent { entity: id, index: position as u32 })
    }

    /// The player's side but for its health, which is `health`, is as in
    /// `other`.
    pub open spec fn player_hurt(&self, other: &MatchState, health: int) -> bool {
        &&& self.player_state.health == health
        &&& self.player_state.available_power == other.player_state.available_power
        &&& self.player_state.deck_state@ == other.player_state.deck_state@
        &&& self.player_state.max_power == other.player_state.max_power
        &&& self.player_state.power == other.player_state.power
        &&& self.player_state.same_rest(&other.player_state)
    }

    /// The opponent's side but for its health, which is `health`, is as in
    /// `other`.
    pub open spec fn opponent_hurt(&self, other: &MatchState, health: int) -> bool {
        &&& self.opponent_state.health == health
        &&& self.opponent_state.available_power == other.opponent_state.available_power
        &&& self.opponent_state.deck_state@ == other.opponent_state.deck_state@
        &&& self.opponent_state.max_power == other.opponent_state.max_power
        &&& self.opponent_state.power == other.opponent_state.power
        &&& self.opponent_state.same_rest(&other.opponent_state)
    }

    /// The attack pass of the phase. In the player's attack phase each card
    /// that is still to strike does so once: the card opposite it on the
    /// opponent's board gets the attacker's attack as waiting damage, or,
    /// where nothing stands opposite, the opponent loses that much health and
    /// an event reports it. The player has won if a hit was reported and the
    /// opponent has no health left. The opponent's attack phase is the same
    /// with the sides exchanged, and the player has lost where the player has
    /// no health left. In any other phase nothing happens.
    pub fn attack(&mut self) -> (events: Vec<AttackedEvent>)
        requires
            old(self).wf(),
        ensures
            final(self).wf(),
            old(self).state.leads_to(final(self).state),
            !old(self).state.is_attacking() ==> events@.len() == 0 && final(self).same_as(
                old(self),
            ),
            old(self).state == GameState::PlayerAttacking ==> {
                let hits = face_hits(
                    old(self).player_slots(),
                    old(self).opponent_slots(),
                    old(self).player_cards@,
                    old(self).attackers@,
                );
                &&& events@ == hit_events::<OpponentState>(hits)
                &&& final(self).opponent_cards@ == struck_by_all(
                    old(self).player_slots(),
                    old(self).opponent_slots(),
                    old(self).player_cards@,
                    old(self).opponent_cards@,
                    old(self).attackers@,
                )
                &&& final(self).opponent_hurt(old(self), old(self).opponent_state.health - total(hits))
                &&& final(self).state == if hits.len() > 0 && final(self).opponent_state.health
                    <= 0 {
                    GameState::Win
                } else {
                    GameState::PlayerAttacking
                }
                &&& final(self).player_state == old(self).player_state
                &&& final(self).player_cards@ == old(self).player_cards@
            },
            old(self).state == GameState::OpponentAttacking ==> {
                let hits = face_hits(
                    old(self).opponent_slots(),
                    old(self).player_slots(),
                    old(self).opponent_cards@,
                    old(self).attackers@,
                );
                &&& events@ == hit_events::<PlayerState>(hits)
                &&& final(self).player_cards@ == struck_by_all(
                    old(self).opponent_slots(),
                    old(self).player_slots(),
                    old(self).opponent_cards@,
                    old(self).player_cards@,
                    old(self).attackers@,
                )
                &&& final(self).player_hurt(old(self), old(self).player_state.health - total(hits))
                &&& final(self).state == if hits.len() > 0 && final(self).player_state.health
                    <= 0 {
                    GameState::Lose
                } else {
                    GameState::OpponentAttacking
                }
                &&& final(self).opponent_state == old(self).opponent_state
                &&& final(self).opponent_cards@ == old(self).opponent_cards@
            },
            old(self).state.is_attacking() ==> final(self).attackers@.len() == 0,
            final(self).player_slots() == old(self).player_slots(),
            final(self).opponent_slots() == old(self).opponent_slots(),
            final(self).hand@ == old(self).hand@,
            final(self).picked == old(self).picked,
            final(self).next_id == old(self).next_id,
            final(self).to_draw == old(self).to_draw,
    {
        match self.state {
            GameState::PlayerAttacking => {
                let ghost hits = face_hits(
                    self.player_slots(),
                    self.opponent_slots(),
                    self.player_cards@,
                    self.attackers@,
                );
                proof {
                    lemma_face_hits_bounded(
                        self.player_slots(),
                        self.opponent_slots(),
                        self.player_cards@,
                        self.attackers@,
                        0,
                    );
                    lemma_struck_by_all_keeps(
                        self.player_slots(),
                        self.opponent_slots(),
                        self.player_cards@,
                        self.opponent_cards@,
                        self.attackers@,
                    );
                }
                let events = crate::combat::attack(
                    &self.attackers,
                    &self.player_board,
                    &self.opponent_board,
                    &self.player_cards,
                    &mut self.opponent_cards,
                    &mut self.opponent_state,
                );
                self.attackers = Vec::new();
                if check_win_condition(&events, &self.opponent_state) {
                    self.state = GameState::Win;
                }
                proof {
                    lemma_same_cards_keep(
                        self.opponent_slots(),
                        old(self).opponent_cards@,
                        self.opponent_cards@,
                    );
                    lemma_struck_keeps_health(
                        self.opponent_slots(),
                        old(self).opponent_cards@,
                        self.opponent_cards@,
                    );
                }
                events
            },
            GameState::OpponentAttacking => {
                let ghost hits = face_hits(
                    self.opponent_slots(),
                    self.player_slots(),
                    self.opponent_cards@,
                    self.attackers@,
                );
                proof {
                    lemma_face_hits_bounded(
                        self.opponent_slots(),
                        self.player_slots(),
                        self.opponent_cards@,
                        self.attackers@,
                        0,
                    );
                    lemma_struck_by_all_keeps(
                        self.opponent_slots(),
                        self.player_slots(),
                        self.opponent_cards@,
                        self.player_cards@,
                        self.attackers@,
                    );
                }
                let events = crate::combat::attack(
                    &self.attackers,
                    &self.opponent_board,
                    &self.player_board,
                    &self.opponent_cards,
                    &mut self.player_cards,
                    &mut self.player_state,
                );
                self.attackers = Vec::new();
                if check_lose_condition(&events, &self.player_state) {
                    self.state = GameState::Lose;
                }
                proof {
                    lemma_same_cards_keep(
                        self.player_slots(),
                        old(self).player_cards@,
                        self.player_cards@,
                    );
                    lemma_struck_keeps_health(
                        self.player_slots(),
                        old(self).player_cards@,
                        self.player_cards@,
                    );
                }
                events
            },
            _ => Vec::new(),
        }
    }

    /// The player's side at the start of a turn of the player, come from
    /// `before`: the cards to draw are marked and the turn is counted, unless
    /// the hand is full, and the power has grown by one, up to the most, and
    /// is all there to spend.
    pub open spec fn player_turn_begun(&self, before: &MatchState) -> bool {
        let full = before.hand@.len() >= before.player_state.max_hand_size;
        &&& self.state == GameState::PlayerTurn
        &&& self.to_draw == granted_draws(before.hand@.len() as u32, &before.player_state)
        &&& self.player_state.turn == if full {
            before.player_state.turn as int
        } else {
            before.player_state.turn + 1
        }
        &&& self.player_state.power == replenished(
            before.player_state.power,
            before.player_state.max_power,
        )
        &&& self.player_state.available_power == self.player_state.power
        &&& self.player_state.health == before.player_state.health
        &&& self.player_state.max_power == before.player_state.max_power
        &&& self.player_state.max_hand_size == before.player_state.max_hand_size
        &&& self.player_state.sent_to_menu == before.player_state.sent_to_menu
        &&& self.player_state.deck_state@ == before.player_state.deck_state@
        &&& self.opponent_state == before.opponent_state
    }

    /// Goes over to the player's turn.
    fn enter_player_turn(&mut self)
        requires
            old(self).wf(),
            !old(self).state.is_terminal(),
            old(self).attackers@.len() == 0,
            old(self).player_state.turn < u32::MAX,
        ensures
            final(self).wf(),
            final(self).player_turn_begun(old(self)),
            final(self).same_table(old(self)),
            final(self).attackers@ == old(self).attackers@,
    {
        self.state = GameState::PlayerTurn;
        let hand_size = self.hand.len() as u32;
        self.to_draw = mark_cards_to_draw(hand_size, &mut self.player_state);
        reset_power(&mut self.player_state);
    }

    /// The match starts: the player's first turn begins. Declined, with
    /// nothing changed, unless the match is about to start.
    pub fn setup_game(&mut self) -> (r: bool)
        requires
            old(self).wf(),
            old(self).player_state.turn < u32::MAX,
        ensures
            final(self).wf(),
            old(self).state.leads_to(final(self).state),
            r == (old(self).state == GameState::StartGame),
            r ==> final(self).player_turn_begun(old(self)),
            !r ==> final(self).state == old(self).state && final(self).same_sides(old(self))
                && final(self).to_draw == old(self).to_draw,
            final(self).same_table(old(self)),
            final(self).attackers@ == old(self).attackers@,
    {
        if !matches!(self.state, GameState::StartGame) {
            return false;
        }
        self.enter_player_turn();
        true
    }

    /// The end of an attack phase. Once every attacker has struck and no
    /// action is in flight any more, the damage that waits on the attacked
    /// side is applied, the kill cascade runs there, and the next phase
    /// begins: the opponent's play after the player's attack, the player's
    /// turn after the opponent's. The cards killed are returned in the order
    /// of their removal. Until then, and in any other phase, nothing happens.
    pub fn attack_finished(&mut self, actions_in_flight: bool) -> (killed: Vec<CardId>)
        requires
            old(self).wf(),
            old(self).player_state.turn < u32::MAX,
        ensures
            final(self).wf(),
            old(self).state.leads_to(final(self).state),
            !(old(self).state.is_attacking() && old(self).attackers@.len() == 0
                && !actions_in_flight) ==> killed@.len() == 0 && final(self).same_as(old(self)),
            old(self).state == GameState::PlayerAttacking && old(self).attackers@.len() == 0
                && !actions_in_flight ==> {
                &&& (final(self).opponent_slots(), final(self).opponent_cards@, killed@)
                    == cascade(
                    old(self).opponent_slots(),
                    settle_all(
                        old(self).opponent_cards@,
                        placement_ids(occupants(old(self).opponent_slots())),
                    ),
                )
                &&& final(self).state == GameState::OpponentPlayCards
                &&& final(self).same_sides(old(self))
                &&& final(self).to_draw == old(self).to_draw
                &&& final(self).player_slots() == old(self).player_slots()
                &&& final(self).player_cards@ == old(self).player_cards@
            },
            old(self).state == GameState::OpponentAttacking && old(self).attackers@.len() == 0
                && !actions_in_flight ==> {
                &&& (final(self).player_slots(), final(self).player_cards@, killed@) == cascade(
                    old(self).player_slots(),
                    settle_all(
                        old(self).player_cards@,
                        placement_ids(occupants(old(self).player_slots())),
                    ),
                )
                &&& final(self).player_turn_begun(old(self))
                &&& final(self).opponent_slots() == old(self).opponent_slots()
                &&& final(self).opponent_cards@ == old(self).opponent_cards@
            },
            final(self).hand@ == old(self).hand@,
            final(self).picked == old(self).picked,
            final(self).next_id == old(self).next_id,
            final(self).attackers@ == old(self).attackers@,
    {
        let next = match self.state {
            GameState::PlayerAttacking | GameState::OpponentAttacking => {
                crate::turn::attack_finished(self.state, self.attackers.len() > 0, actions_in_flight)
            },
            _ => None,
        };
        if next.is_none() {
            return Vec::new();
        }
        match self.state {
            GameState::PlayerAttacking => {
                proof {
                    let slots = self.opponent_slots();
                    lemma_settle_keeps(slots, self.opponent_cards@);
                    lemma_cascade_keeps(
                        slots,
                        settle_all(self.opponent_cards@, placement_ids(occupants(slots))),
                    );
                    lemma_settle_all_keeps(self.opponent_cards@, placement_ids(occupants(slots)));
                }
                apply_damage(&self.opponent_board, &mut self.opponent_cards);
                let killed = resolve_kills(&mut self.opponent_board, &mut self.opponent_cards);
                self.state = GameState::OpponentPlayCards;
                killed
            },
            _ => {
                proof {
                    let slots = self.player_slots();
                    lemma_settle_keeps(slots, self.player_cards@);
                    lemma_cascade_keeps(
                        slots,
                        settle_all(self.player_cards@, placement_ids(occupants(slots))),
                    );
                    lemma_settle_all_keeps(self.player_cards@, placement_ids(occupants(slots)));
                }
                apply_damage(&self.player_board, &mut self.player_cards);
                let killed = resolve_kills(&mut self.player_board, &mut self.player_cards);
                proof {
                    assert forall|k: int| 0 <= k < self.hand@.len() implies {
                        &&& self.player_cards@.contains_key(#[trigger] self.hand@[k])
                        &&& !self.player_cards@[self.hand@[k]].lethal()
                        &&& !holds(self.player_slots(), self.hand@[k])
                    } by {
                        let id = self.hand@[k];
                        assert(old(self).player_cards@.contains_key(id));
                        assert(!holds(old(self).player_slots(), id));
                    }
                    if let Some(id) = self.picked {
                        let k = choose|k: int| 0 <= k < self.hand@.len() && self.hand@[k] == id;
                        assert(old(self).player_cards@.contains_key(self.hand@[k]));
                        assert(!holds(old(self).player_slots(), id));
                    }
                }
                self.enter_player_turn();
                killed
            },
        }
    }

    /// Deals a new card of type `card_type` into the player's hand, at its
    /// end, and returns the identity that the card got.
    pub fn take_into_hand(&mut self, card_type: CardType) -> (id: CardId)
        requires
            old(self).wf(),
            old(self).next_id < u64::MAX,
            old(self).hand@.len() < u32::MAX,
        ensures
            final(self).wf(),
            old(self).state.leads_to(final(self).state),
            id == old(self).next_id,
            final(self).next_id == id + 1,
            final(self).hand@ == old(self).hand@.push(id),
            final(self).player_cards@ == old(self).player_cards@.insert(
                id,
                CardInstance::fresh(card_type),
            ),
            !old(self).player_cards@.contains_key(id),
            final(self).state == old(self).state,
            final(self).same_sides(old(self)),
            final(self).player_slots() == old(self).player_slots(),
            final(self).opponent_slots() == old(self).opponent_slots(),
            final(self).opponent_cards@ == old(self).opponent_cards@,
            final(self).picked == old(self).picked,
            final(self).to_draw == old(self).to_draw,
            final(self).attackers@ == old(self).attackers@,
    {
        let id = self.next_id;
        let card = CardInstance::new(card_type);
        proof {
            let slots = self.player_slots();
            let before = self.player_cards@;
            let after = before.insert(id, card);
            assert(!holds(slots, id)) by {
                if holds(slots, id) {
                    let i = choose|i: int| holds_at(slots, i, id);
                    assert(before.contains_key(slots[i]->0.entity));
                }
            }
            assert(!holds(self.opponent_slots(), id)) by {
                if holds(self.opponent_slots(), id) {
                    let i = choose|i: int| holds_at(self.opponent_slots(), i, id);
                    assert(self.opponent_cards@.contains_key(self.opponent_slots()[i]->0.entity));
                }
            }
            assert forall|i: int| !lethal_at(slots, after, i) by {
                if lethal_at(slots, after, i) {
                    assert(holds_at(slots, i, slots[i]->0.entity));
                    assert(lethal_at(slots, before, i));
                }
            }
            assert forall|k: int| 0 <= k < self.hand@.len() implies self.hand@[k] != id by {
                assert(before.contains_key(self.hand@[k]));
            }
        }
        self.next_id = id + 1;
        self.player_cards.insert(id, card);
        self.hand.push(id);
        proof {
            if let Some(picked) = self.picked {
                let k = choose|k: int|
                    0 <= k < old(self).hand@.len() && old(self).hand@[k] == picked;
                assert(self.hand@[k] == picked);
            }
        }
        id
    }

    /// The cards that the player draws now: as many as are marked, and no
    /// more than the hand has room for or the deck holds.
    pub open spec fn draws_due(&self) -> int {
        let room = if self.hand@.len() < self.player_state.max_hand_size {
            self.player_state.max_hand_size - self.hand@.len()
        } else {
            0
        };
        let least = if self.to_draw <= room {
            self.to_draw as int
        } else {
            room
        };
        if least <= self.player_state.deck_state@.len() {
            least
        } else {
            self.player_state.deck_state@.len() as int
        }
    }

    /// The types of the cards `ids` of the player, in their order.
    pub open spec fn types_of(&self, ids: Seq<CardId>) -> Seq<CardType> {
        Seq::new(ids.len(), |k: int| self.player_cards@[ids[k]].card_type)
    }

    /// The player draws the cards that are marked: each is taken out of the
    /// deck, any card of it at a time, and comes into the hand as a new card
    /// with the attributes of its type. Draws that the hand has no room for
    /// or the deck no card for are not made, and no card stays marked. The
    /// new cards are returned in the order in which they were drawn. In any
    /// phase but the player's turn nothing happens.
    pub fn draw_cards(&mut self) -> (drawn: Vec<CardId>)
        requires
            old(self).wf(),
            old(self).next_id + old(self).to_draw <= u64::MAX,
        ensures
            final(self).wf(),
            old(self).state.leads_to(final(self).state),
            old(self).state != GameState::PlayerTurn ==> drawn@.len() == 0 && final(self).same_as(
                old(self),
            ),
            old(self).state == GameState::PlayerTurn ==> {
                &&& final(self).to_draw == 0
                &&& drawn@.len() == old(self).draws_due()
                &&& forall|k: int| 0 <= k < drawn@.len() ==> #[trigger] drawn@[k] == old(self).next_id + k
                &&& final(self).next_id == old(self).next_id + drawn@.len()
                &&& final(self).hand@ == old(self).hand@ + drawn@
                &&& forall|id: CardId| #[trigger]
                    old(self).player_cards@.contains_key(id) ==> final(self).player_cards@.contains_key(id) && final(self).player_cards@[id] == old(self).player_cards@[id]
                &&& forall|id: CardId| #[trigger]
                    final(self).player_cards@.contains_key(id) ==> old(self).player_cards@.contains_key(id) || drawn@.contains(id)
                &&& forall|k: int|
                    0 <= k < drawn@.len() ==> final(self).player_cards@.contains_key(
                        #[trigger] drawn@[k],
                    ) && final(self).player_cards@[drawn@[k]] == CardInstance::fresh(
                        final(self).player_cards@[drawn@[k]].card_type,
                    )
                &&& old(self).player_state.deck_state@.to_multiset() == final(self).player_state.deck_state@.to_multiset().add(
                    final(self).types_of(drawn@).to_multiset(),
                )
                &&& final(self).player_state.same_but_deck(&old(self).player_state)
                &&& final(self).opponent_state == old(self).opponent_state
                &&& final(self).state == old(self).state
            },
            final(self).player_slots() == old(self).player_slots(),
            final(self).opponent_slots() == old(self).opponent_slots(),
            final(self).opponent_cards@ == old(self).opponent_cards@,
            final(self).picked == old(self).picked,
            final(self).attackers@ == old(self).attackers@,
    {
        let mut drawn: Vec<CardId> = Vec::new();
        if !matches!(self.state, GameState::PlayerTurn) {
            return drawn;
        }
        let ghost mut types: Seq<CardType> = Seq::empty();
        proof {
            types.to_multiset_ensures();
            assert(self.player_state.deck_state@.to_multiset().add(types.to_multiset())
                =~= self.player_state.deck_state@.to_multiset());
        }
        while self.to_draw > 0 && self.hand.len() < self.player_state.max_hand_size as usize
            invariant
                self.wf(),
                self.state == GameState::PlayerTurn,
                self.next_id + self.to_draw <= u64::MAX,
                drawn@.len() + self.draws_due() == old(self).draws_due(),
                types.len() == drawn@.len(),
                forall|k: int| 0 <= k < drawn@.len() ==> #[trigger] drawn@[k] == old(self).next_id
                    + k,
                self.next_id == old(self).next_id + drawn@.len(),
                self.hand@ == old(self).hand@ + drawn@,
                forall|id: CardId| #[trigger]
                    old(self).player_cards@.contains_key(id) ==> self.player_cards@.contains_key(
                        id,
                    ) && self.player_cards@[id] == old(self).player_cards@[id],
                forall|id: CardId| #[trigger]
                    self.player_cards@.contains_key(id) ==> old(self).player_cards@.contains_key(
                        id,
                    ) || drawn@.contains(id),
                forall|k: int|
                    0 <= k < drawn@.len() ==> self.player_cards@.contains_key(
                        #[trigger] drawn@[k],
                    ) && self.player_cards@[drawn@[k]] == CardInstance::fresh(types[k]),
                old(self).player_state.deck_state@.to_multiset()
                    == self.player_state.deck_state@.to_multiset().add(types.to_multiset()),
                self.player_state.same_but_deck(&old(self).player_state),
                self.opponent_state == old(self).opponent_state,
                self.player_slots() == old(self).player_slots(),
                self.opponent_slots() == old(self).opponent_slots(),
                self.opponent_cards@ == old(self).opponent_cards@,
                self.picked == old(self).picked,
                self.attackers@ == old(self).attackers@,
            decreases self.to_draw,
        {
            let ghost deck = self.player_state.deck_state@;
            let ghost cards = self.player_cards@;
            let ghost seen = drawn@;
            match self.player_state.draw_card() {
                Some(card_type) => {
                    let id = self.take_into_hand(card_type);
                    self.to_draw -= 1;
                    drawn.push(id);
                    proof {
                        let i = choose|i: int|
                            0 <= i < deck.len() && card_type == #[trigger] deck[i]
                                && self.player_state.deck_state@ == deck.remove(i);
                        vstd::seq_lib::to_multiset_remove(deck, i);
                        vstd::seq_lib::to_multiset_build(types, card_type);
                        deck.to_multiset_ensures();
                        assert(deck.contains(deck[i]));
                        assert(deck.to_multiset() =~= deck.remove(i).to_multiset().insert(
                            card_type,
                        ));
                        assert(deck.remove(i).to_multiset().add(
                            types.push(card_type).to_multiset(),
                        ) =~= deck.to_multiset().add(types.to_multiset()));
                        types = types.push(card_type);
                        assert(self.hand@ =~= old(self).hand@ + drawn@);
                        assert forall|other: CardId| #[trigger]
                            self.player_cards@.contains_key(other) implies old(self).player_cards@.contains_key(other) || drawn@.contains(other) by {
                            if other == id {
                                assert(drawn@[drawn@.len() - 1] == id);
                            } else {
                                assert(cards.contains_key(other));
                                if seen.contains(other) {
                                    let k = choose|k: int| 0 <= k < seen.len() && seen[k] == other;
                                    assert(drawn@[k] == other);
                                }
                            }
                        }
                        assert forall|k: int| 0 <= k < drawn@.len() implies
                            self.player_cards@.contains_key(#[trigger] drawn@[k])
                            && self.player_cards@[drawn@[k]] == CardInstance::fresh(types[k]) by {
                            if k < seen.len() {
                                assert(drawn@[k] == seen[k]);
                                assert(cards.contains_key(seen[k]));
                            }
                        }
                    }
                },
                None => {
                    self.to_draw = 0;
                },
            }
        }
        proof {
            assert(self.types_of(drawn@) =~= types);
        }
        self.to_draw = 0;
        drawn
    }

    /// Whether the opponent may play a card into slot `index`: it is the
    /// phase of the opponent's play, the slot exists and is free, and some
    /// card left in the opponent's deck can be paid for.
    pub open spec fn opponent_can_play(&self, index: u32) -> bool {
        &&& self.state == GameState::OpponentPlayCards
        &&& index < 4
        &&& self.opponent_slots()[index as int] is None
        &&& self.opponent_state.spec_can_play_card()
    }

    /// The match is what `before` becomes when the opponent plays into
    /// slot `index`: the first card of the deck that the power left pays for
    /// leaves the deck and comes into the slot as a new card with the
    /// attributes of its type, its cost is paid, the cards that its ability
    /// affects get its effect, and it gets the effect of every other
    /// occupant whose ability affects it.
    pub open spec fn opponent_played(&self, before: &MatchState, index: u32) -> bool {
        let id = before.next_id;
        let deck = before.opponent_state.deck_state@;
        exists|i: int|
            #![trigger deck[i]]
            {
                let card_type = deck[i];
                let slots = before.opponent_slots().update(
                    index as int,
                    Some(BoardPlacement { entity: id, card_type }),
                );
                &&& first_affordable(deck, before.opponent_state.available_power as int, i)
                &&& self.opponent_state.deck_state@ == deck.remove(i)
                &&& self.opponent_slots() == slots
                &&& self.opponent_cards@ == ability_received(
                    slots,
                    ability_applied(
                        slots,
                        before.opponent_cards@.insert(id, CardInstance::fresh(card_type)),
                        id,
                    ),
                    id,
                )
                &&& self.opponent_state.available_power == before.opponent_state.available_power
                    - card_type.spec_attributes().cost
            }
    }

    /// The opponent plays a card into slot `index`, as `opponent_played`
    /// says. Declined, with nothing changed, where the opponent may not.
    pub fn play_opponent_card_at(&mut self, index: u32) -> (r: Option<CardPlayedEvent>)
        requires
            old(self).wf(),
            old(self).next_id < u64::MAX,
        ensures
            final(self).wf(),
            old(self).state.leads_to(final(self).state),
            r is Some <==> old(self).opponent_can_play(index),
            r is None ==> final(self).same_as(old(self)),
            r matches Some(event) ==> {
                &&& event == (CardPlayedEvent { entity: old(self).next_id, index })
                &&& final(self).opponent_played(old(self), index)
                &&& final(self).next_id == old(self).next_id + 1
                &&& final(self).opponent_state.power == old(self).opponent_state.power
                &&& final(self).opponent_state.max_power == old(self).opponent_state.max_power
                &&& final(self).opponent_state.health == old(self).opponent_state.health
                &&& final(self).opponent_state.hand@ == old(self).opponent_state.hand@
                &&& final(self).opponent_state.turn == old(self).opponent_state.turn
                &&& final(self).player_state == old(self).player_state
                &&& final(self).player_slots() == old(self).player_slots()
                &&& final(self).player_cards@ == old(self).player_cards@
                &&& final(self).hand@ == old(self).hand@
                &&& final(self).picked == old(self).picked
                &&& final(self).state == old(self).state
                &&& final(self).to_draw == old(self).to_draw
                &&& final(self).attackers@ == old(self).attackers@
            },
    {
        if !matches!(self.state, GameState::OpponentPlayCards) || index >= 4 {
            return None;
        }
        if !self.opponent_board.unoccupied(index) || !self.opponent_state.can_play_card() {
            return None;
        }
        let ghost deck = self.opponent_state.deck_state@;
        let card_type = match self.opponent_state.play_card() {
            Some(card_type) => card_type,
            None => {
                return None;
            },
        };
        let ghost i = choose|i: int|
            #![trigger deck[i]]
            first_affordable(deck, self.opponent_state.available_power as int, i) && card_type
                == deck[i] && self.opponent_state.deck_state@ == deck.remove(i);
        let id = self.next_id;
        let card = CardInstance::new(card_type);
        let ghost before = self.opponent_slots();
        let ghost cards = self.opponent_cards@.insert(id, card);
        let ghost placement = BoardPlacement { entity: id, card_type };
        proof {
            assert(!holds(before, id)) by {
                if holds(before, id) {
                    let k = choose|k: int| holds_at(before, k, id);
                    assert(self.opponent_cards@.contains_key(before[k]->0.entity));
                }
            }
            assert(!holds(self.player_slots(), id)) by {
                if holds(self.player_slots(), id) {
                    let k = choose|k: int| holds_at(self.player_slots(), k, id);
                    assert(self.player_cards@.contains_key(self.player_slots()[k]->0.entity));
                }
            }
            lemma_same_cards_keep(before, self.opponent_cards@, cards);
            lemma_place_keeps(before, cards, index as int, placement);
            lemma_entry_keeps(before.update(index as int, Some(placement)), cards, id);
        }
        self.next_id = id + 1;
        self.opponent_cards.insert(id, card);
        self.opponent_board.place(index, id, card_type);
        self.opponent_state.available_power -= card.cost.0;
        apply_ability(self.opponent_board.state(), &mut self.opponent_cards, id);
        receive_ability(self.opponent_board.state(), &mut self.opponent_cards, id);
        proof {
            let slots = before.update(index as int, Some(placement));
            let after = self.opponent_cards@;
            lemma_same_cards_keep(slots, cards, after);
            assert forall|k: int| !lethal_at(slots, after, k) by {
                if lethal_at(slots, after, k) {
                    let p = slots[k]->0;
                    if k != index {
                        assert(lethal_at(before, old(self).opponent_cards@, k));
                    }
                }
            }
            assert(deck[i] == card_type);
        }
        Some(CardPlayedEvent { entity: id, index })
    }

    /// The opponent's side at the start of a turn of the opponent, come
    /// from `before`: the hand is filled from the deck, up to six cards, and
    /// the power has grown by one, up to the most, and is all there to
    /// spend.
    pub open spec fn opponent_turn_begun(&self, before: &MatchState) -> bool {
        let hand = before.opponent_state.hand@;
        let deck = before.opponent_state.deck_state@;
        &&& self.state == GameState::OpponentTurn
        &&& self.opponent_state.hand@.len() + self.opponent_state.deck_state@.len() == hand.len()
            + deck.len()
        &&& hand.len() >= 6 ==> self.opponent_state.hand@ == hand
        &&& hand.len() < 6 ==> self.opponent_state.hand@.len() == if hand.len() + deck.len() < 6 {
            hand.len() + deck.len()
        } else {
            6
        }
        &&& self.opponent_state.hand@.take(hand.len() as int) == hand
        &&& self.opponent_state.hand@.to_multiset().add(
            self.opponent_state.deck_state@.to_multiset(),
        ) == hand.to_multiset().add(deck.to_multiset())
        &&& self.opponent_state.power == replenished(
            before.opponent_state.power,
            before.opponent_state.max_power,
        )
        &&& self.opponent_state.available_power == self.opponent_state.power
        &&& self.opponent_state.health == before.opponent_state.health
        &&& self.opponent_state.max_power == before.opponent_state.max_power
        &&& self.opponent_state.turn == before.opponent_state.turn
        &&& self.player_state == before.player_state
    }

    /// Goes over to the opponent's turn.
    fn enter_opponent_turn(&mut self)
        requires
            old(self).wf(),
            old(self).state == GameState::OpponentPlayCards,
        ensures
            final(self).wf(),
            final(self).opponent_turn_begun(old(self)),
            final(self).same_table(old(self)),
            final(self).to_draw == old(self).to_draw,
            final(self).attackers@ == old(self).attackers@,
    {
        self.state = GameState::OpponentTurn;
        self.opponent_state.draw_cards();
        reset_power(&mut self.opponent_state);
    }

    /// One step of the opponent's play. While the opponent's board has a
    /// free slot and the opponent can pay for some card of its deck, the
    /// opponent plays one into a free slot, any of them. Once it cannot, and
    /// no action is in flight any more, the opponent's turn begins. In any
    /// other phase nothing happens.
    pub fn play_opponent_cards(&mut self, actions_in_flight: bool) -> (r: Option<CardPlayedEvent>)
        requires
            old(self).wf(),
            old(self).next_id < u64::MAX,
        ensures
            final(self).wf(),
            old(self).state.leads_to(final(self).state),
            r is Some <==> old(self).state == GameState::OpponentPlayCards && has_free_slot(
                old(self).opponent_slots(),
            ) && old(self).opponent_state.spec_can_play_card(),
            r matches Some(event) ==> {
                &&& old(self).opponent_can_play(event.index)
                &&& event.entity == old(self).next_id
                &&& final(self).opponent_played(old(self), event.index)
                &&& final(self).next_id == old(self).next_id + 1
                &&& final(self).opponent_state.power == old(self).opponent_state.power
                &&& final(self).opponent_state.max_power == old(self).opponent_state.max_power
                &&& final(self).opponent_state.health == old(self).opponent_state.health
                &&& final(self).opponent_state.hand@ == old(self).opponent_state.hand@
                &&& final(self).opponent_state.turn == old(self).opponent_state.turn
                &&& final(self).player_state == old(self).player_state
                &&& final(self).state == old(self).state
            },
            r is None && old(self).state == GameState::OpponentPlayCards && !actions_in_flight
                ==> final(self).opponent_turn_begun(old(self)) && final(self).same_table(
                old(self),
            ),
            r is None && !(old(self).state == GameState::OpponentPlayCards && !actions_in_flight)
                ==> final(self).same_as(old(self)),
            final(self).player_slots() == old(self).player_slots(),
            final(self).player_cards@ == old(self).player_cards@,
            final(self).hand@ == old(self).hand@,
            final(self).picked == old(self).picked,
            final(self).to_draw == old(self).to_draw,
            final(self).attackers@ == old(self).attackers@,
    {
        if !matches!(self.state, GameState::OpponentPlayCards) {
            return None;
        }
        if self.opponent_board.has_empty_place() && self.opponent_state.can_play_card() {
            match self.opponent_board.random_empty_place() {
                Some(index) => self.play_opponent_card_at(index),
                None => None,
            }
        } else if !actions_in_flight {
            self.enter_opponent_turn();
            None
        } else {
            None
        }
    }
}

/// Cards that keep their health stay with health if they had any, on the
/// board and off it.
proof fn lemma_struck_keeps_health(
    slots: Slots,
    before: Map<CardId, CardInstance>,
    after: Map<CardId, CardInstance>,
)
    requires
        none_lethal(slots, before),
        before.dom() == after.dom(),
        forall|id: CardId|
            before.contains_key(id) ==> (#[trigger] after[id]).health == before[id].health,
    ensures
        none_lethal(slots, after),
{
    assert forall|i: int| !lethal_at(slots, after, i) by {
        if lethal_at(slots, after, i) {
            assert(lethal_at(slots, before, i));
        }
    }
}

} // verus!
