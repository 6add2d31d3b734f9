use vstd::prelude::*;
use crate::arena::{all_wf, lemma_revoke_all_keeps, revoke_all, CardArena, CardInstance};
use crate::board::{slot_of, taken, Board, BoardState, Slots};
use crate::cards::CardId;

verus! {

broadcast use BoardState::lemma_four_slots;

/// Slot `i` holds a card of the arena that has no health left.
pub open spec fn lethal_at(slots: Slots, cards: Map<CardId, CardInstance>, i: int) -> bool {
    &&& 0 <= i < 4
    &&& slots[i] matches Some(p)
    &&& cards.contains_key(p.entity)
    &&& cards[p.entity].lethal()
}

/// The lowest slot that holds a card with no health left.
pub open spec fn first_lethal(slots: Slots, cards: Map<CardId, CardInstance>) -> Option<int> {
    if lethal_at(slots, cards, 0) {
        Some(0int)
    } else if lethal_at(slots, cards, 1) {
        Some(1int)
    } else if lethal_at(slots, cards, 2) {
        Some(2int)
    } else if lethal_at(slots, cards, 3) {
        Some(3int)
    } else {
        None
    }
}

/// No occupant is without health.
pub open spec fn none_lethal(slots: Slots, cards: Map<CardId, CardInstance>) -> bool {
    forall|i: int| !lethal_at(slots, cards, i)
}

/// The board and the arena after the occupant of slot `i` was killed: the
/// cards that its ability affects lose its effect, its slot is freed and the
/// card leaves the arena.
pub open spec fn kill_step(slots: Slots, cards: Map<CardId, CardInstance>, i: int) -> (
    Slots,
    Map<CardId, CardInstance>,
) {
    let killed = slots[i]->0.entity;
    let card_type = cards[killed].card_type;
    (
        match slot_of(slots, killed) {
            Some(j) => slots.update(j, None),
            None => slots,
        },
        revoke_all(cards, card_type.spec_affects(killed, slots), card_type.spec_effect()).remove(
            killed,
        ),
    )
}

/// The board and the arena once no occupant is without health any more,
/// and the cards killed on the way, in the order of their removal: the
/// lowest slot first, each time.
pub open spec fn cascade(slots: Slots, cards: Map<CardId, CardInstance>) -> (
    Slots,
    Map<CardId, CardInstance>,
    Seq<CardId>,
)
    decreases taken(slots),
    when slots.len() == 4
{
    match first_lethal(slots, cards) {
        Some(i) => {
            let step = kill_step(slots, cards, i);
            let rest = cascade(step.0, step.1);
            (rest.0, rest.1, seq![slots[i]->0.entity] + rest.2)
        },
        None => (slots, cards, Seq::empty()),
    }
}

/// Killing the occupant of a slot frees one slot, takes that card and no
/// other out of the arena, and keeps the others well formed.
pub proof fn lemma_kill_step(slots: Slots, cards: Map<CardId, CardInstance>, i: int)
    requires
        slots.len() == 4,
        lethal_at(slots, cards, i),
    ensures
        kill_step(slots, cards, i).0.len() == 4,
        taken(kill_step(slots, cards, i).0) == taken(slots) - 1,
        kill_step(slots, cards, i).1.dom() == cards.dom().remove(slots[i]->0.entity),
        all_wf(cards) ==> all_wf(kill_step(slots, cards, i).1),
{
    let killed = slots[i]->0.entity;
    let card_type = cards[killed].card_type;
    lemma_revoke_all_keeps(cards, card_type.spec_affects(killed, slots), card_type.spec_effect());
    let revoked = revoke_all(
        cards,
        card_type.spec_affects(killed, slots),
        card_type.spec_effect(),
    );
    assert(revoked.remove(killed).dom() =~= cards.dom().remove(killed));
}

/// Where the first occupant without health stands.
pub fn first_lethal_slot(board: &BoardState, cards: &CardArena) -> (r: Option<usize>)
    ensures
        match r {
            Some(i) => first_lethal(board@, cards@) == Some(i as int),
            None => first_lethal(board@, cards@) is None,
        },
{
    let mut i: usize = 0;
    while i < 4
        invariant
            i <= 4,
            forall|j: int| 0 <= j < i ==> !lethal_at(board@, cards@, j),
        decreases 4 - i,
    {
        match board.get(i) {
            Some(p) => {
                match cards.get(p.entity) {
                    Some(card) => {
                        if card.health.0 <= 0 {
                            return Some(i);
                        }
                    },
                    None => {},
                }
            },
            None => {},
        }
        i += 1;
    }
    None
}

/// Removes the first occupant without health, if there is one: the cards
/// that its ability affects lose its effect, it leaves the board and the
/// arena, and its identity is returned.
pub fn remove_killed<B: Board>(board: &mut B, cards: &mut CardArena) -> (r: Option<CardId>)
    requires
        old(cards).wf(),
    ensures
        match first_lethal(old(board).spec_state()@, old(cards)@) {
            Some(i) => {
                &&& r == Some(old(board).spec_state()@[i]->0.entity)
                &&& final(board).spec_state()@ == kill_step(
                    old(board).spec_state()@,
                    old(cards)@,
                    i,
                ).0
                &&& final(cards)@ == kill_step(old(board).spec_state()@, old(cards)@, i).1
            },
            None => {
                &&& r is None
                &&& final(board).spec_state()@ == old(board).spec_state()@
                &&& final(cards)@ == old(cards)@
            },
        },
        final(cards).wf(),
{
    let found = first_lethal_slot(board.state(), cards);
    match found {
        Some(i) => {
            proof {
                lemma_kill_step(board.spec_state()@, cards@, i as int);
            }
            match board.state().get(i) {
                Some(p) => {
                    match cards.get(p.entity) {
                        Some(card) => {
                            let affects = card.card_type.affects(p.entity, board.state());
                            let effect = card.card_type.effect();
                            cards.revoke_all(&affects, &effect);
                            board.remove(p.entity);
                            cards.remove(p.entity);
                            Some(p.entity)
                        },
                        None => None,
                    }
                },
                None => None,
            }
        },
        None => None,
    }
}

/// The kill cascade: removes the occupants without health one at a time,
/// the lowest slot first, until none is left, and returns the cards killed
/// in the order of their removal.
pub fn resolve_kills<B: Board>(board: &mut B, cards: &mut CardArena) -> (killed: Vec<CardId>)
    requires
        old(cards).wf(),
    ensures
        (final(board).spec_state()@, final(cards)@, killed@) == cascade(
            old(board).spec_state()@,
            old(cards)@,
        ),
        none_lethal(final(board).spec_state()@, final(cards)@),
        final(cards).wf(),
{
    let mut killed: Vec<CardId> = Vec::new();
    loop
        invariant_except_break
            cards.wf(),
            cascade(old(board).spec_state()@, old(cards)@) == ({
                let rest = cascade(board.spec_state()@, cards@);
                (rest.0, rest.1, killed@ + rest.2)
            }),
        ensures
            cards.wf(),
            first_lethal(board.spec_state()@, cards@) is None,
            cascade(old(board).spec_state()@, old(cards)@) == (
                board.spec_state()@,
                cards@,
                killed@,
            ),
        decreases taken(board.spec_state()@),
    {
        let ghost slots = board.spec_state()@;
        let ghost before = cards@;
        let ghost killed_before = killed@;
        match remove_killed(board, cards) {
            Some(id) => {
                killed.push(id);
                proof {
                    let i = first_lethal(slots, before)->0;
                    lemma_kill_step(slots, before, i);
                    let rest = cascade(board.spec_state()@, cards@);
                    assert(killed_before + (seq![id] + rest.2) =~= killed@ + rest.2);
                }
            },
            None => {
                proof {
                    assert(killed@ + Seq::<CardId>::empty() =~= killed@);
                }
                break ;
            },
        }
    }
    killed
}

} // verus!
