use vstd::prelude::*;
use crate::cards::Cost;
use crate::deck::{PlayableState, PlayerState};
use crate::players::AttackedEvent;
use crate::states::GameState;

verus! {

/// The power a side has at the start of its turn: one more than the turn
/// before, and no more than its most.
pub open spec fn replenished(power: u32, max_power: u32) -> int {
    if power + 1 <= max_power {
        power + 1
    } else {
        max_power as int
    }
}

/// The cards that the player is granted at the start of a turn: as many as
/// the turn's draw count, and no more than the hand has room for.
pub open spec fn granted_draws(hand_size: u32, player_state: &PlayerState) -> int {
    if hand_size >= player_state.max_hand_size {
        0
    } else if player_state.spec_draw_count() <= player_state.max_hand_size - hand_size {
        player_state.spec_draw_count()
    } else {
        player_state.max_hand_size - hand_size
    }
}

/// The start of a side's turn: its power grows by one, up to its most, and
/// all of it is there to spend.
pub fn reset_power<P: PlayableState>(player_state: &mut P)
    requires
        old(player_state).spec_power() < u32::MAX,
        replenished(old(player_state).spec_power(), old(player_state).spec_max_power())
            <= i32::MAX,
    ensures
        final(player_state).spec_power() == replenished(
            old(player_state).spec_power(),
            old(player_state).spec_max_power(),
        ),
        final(player_state).spec_available_power() == final(player_state).spec_power(),
        final(player_state).spec_max_power() == old(player_state).spec_max_power(),
        final(player_state).spec_health() == old(player_state).spec_health(),
        final(player_state).spec_deck() == old(player_state).spec_deck(),
        final(player_state).same_rest(old(player_state)),
{
    let most = player_state.get_max_power();
    let next = player_state.get_power() + 1;
    let power = if most < next {
        most
    } else {
        next
    } as i32;
    player_state.set_power(power);
    let ghost halfway = *player_state;
    player_state.set_available_power(power);
    proof {
        P::lemma_same_rest(player_state, &halfway, old(player_state));
    }
}

/// The start of the player's turn: says how many cards the player is to
/// draw and counts the turn. With a full hand nothing is drawn and the turn
/// is not counted.
pub fn mark_cards_to_draw(hand_size: u32, player_state: &mut PlayerState) -> (marked: u32)
    requires
        hand_size < old(player_state).max_hand_size ==> old(player_state).turn < u32::MAX,
    ensures
        marked == granted_draws(hand_size, old(player_state)),
        final(player_state).turn == if hand_size >= old(player_state).max_hand_size {
            old(player_state).turn as int
        } else {
            old(player_state).turn + 1
        },
        final(player_state).deck_state == old(player_state).deck_state,
        final(player_state).available_power == old(player_state).available_power,
        final(player_state).health == old(player_state).health,
        final(player_state).max_hand_size == old(player_state).max_hand_size,
        final(player_state).max_power == old(player_state).max_power,
        final(player_state).power == old(player_state).power,
        final(player_state).sent_to_menu == old(player_state).sent_to_menu,
{
    if hand_size >= player_state.max_hand_size {
        return 0;
    }
    let draw_count = player_state.draw_count();
    player_state.turn += 1;
    let room = player_state.max_hand_size - hand_size;
    if draw_count <= room {
        draw_count
    } else {
        room
    }
}

/// Whether a card of cost `cost` can be picked from the hand: the power left
/// must pay for it.
pub fn pick_from_hand(cost: &Cost, player_state: &PlayerState) -> (r: bool)
    ensures
        r == (cost.0 <= player_state.available_power),
{
    cost.0 <= player_state.available_power
}

/// Pays for a card that was played.
pub fn spend_power(cost: &Cost, player_state: &mut PlayerState)
    requires
        i32::MIN <= old(player_state).available_power - cost.0 <= i32::MAX,
    ensures
        final(player_state).available_power == old(player_state).available_power - cost.0,
        final(player_state).deck_state == old(player_state).deck_state,
        final(player_state).health == old(player_state).health,
        final(player_state).max_hand_size == old(player_state).max_hand_size,
        final(player_state).max_power == old(player_state).max_power,
        final(player_state).power == old(player_state).power,
        final(player_state).sent_to_menu == old(player_state).sent_to_menu,
        final(player_state).turn == old(player_state).turn,
{
    player_state.available_power -= cost.0;
}

/// Whether the side `state` has lost its last health to the hits that
/// `events` report: some hit was dealt and no health is left.
pub open spec fn defeated<S: PlayableState>(events: Seq<AttackedEvent>, state: &S) -> bool {
    events.len() > 0 && state.spec_health() <= 0
}

/// Whether the player has lost: a face was hit and the player has no health
/// left.
pub fn check_lose_condition<S: PlayableState>(events: &Vec<AttackedEvent>, player_state: &S) -> (r:
    bool)
    ensures
        r == defeated(events@, player_state),
{
    events.len() > 0 && player_state.get_health() <= 0
}

/// Whether the player has won: a face was hit and the opponent has no health
/// left.
pub fn check_win_condition<S: PlayableState>(events: &Vec<AttackedEvent>, opponent_state: &S) -> (r:
    bool)
    ensures
        r == defeated(events@, opponent_state),
{
    events.len() > 0 && opponent_state.get_health() <= 0
}

/// The phase that an attack phase gives way to once every attacker has
/// struck and nothing is in flight any more; `None` while the phase lasts.
pub fn attack_finished(current: GameState, attackers_left: bool, actions_in_flight: bool) -> (r:
    Option<GameState>)
    requires
        current.is_attacking(),
    ensures
        r == if !attackers_left && !actions_in_flight {
            current.successor()
        } else {
            None
        },
        !attackers_left && !actions_in_flight ==> r is Some,
{
    if !attackers_left && !actions_in_flight {
        current.next()
    } else {
        None
    }
}

} // verus!
