use vstd::prelude::*;
use crate::abilities::{
    ability_applied, ability_received, lemma_received_from_keeps, received_from,
};
use crate::arena::{
    all_wf, lemma_grant_all_keeps, lemma_revoke_all_keeps, revoke_all, CardInstance,
};
use crate::board::{
    distinct, holds, holds_at, neighbours, occupant, occupants, other_of_type, other_than,
    others_of_type_on, others_on, slot_of, taken, BoardPlacement, Slots,
};
use crate::cards::{placement_ids, CardId, CardType};
use crate::cascade::{cascade, first_lethal, kill_step, lemma_kill_step, lethal_at, none_lethal};
use crate::combat::{lemma_settle_all_keeps, settle_all};

verus! {

/// Every occupant of the board is a card of the arena, of the type that the
/// board says.
pub open spec fn seated(slots: Slots, cards: Map<CardId, CardInstance>) -> bool {
    forall|i: int|
        0 <= i < 4 ==> (#[trigger] slots[i] matches Some(p) ==> cards.contains_key(p.entity)
            && cards[p.entity].card_type == p.card_type)
}

/// One side of the table is in order: four slots, no card in two of them,
/// every occupant a well-formed card of the arena.
pub open spec fn side_wf(slots: Slots, cards: Map<CardId, CardInstance>) -> bool {
    &&& slots.len() == 4
    &&& distinct(slots)
    &&& seated(slots, cards)
    &&& all_wf(cards)
}

/// Every card named by `ids` stands on the board.
pub open spec fn all_on_board(slots: Slots, ids: Seq<CardId>) -> bool {
    forall|k: int| 0 <= k < ids.len() ==> holds(slots, #[trigger] ids[k])
}

/// An ability reaches only cards that stand on the board.
pub proof fn lemma_affects_on_board(card_type: CardType, entity: CardId, slots: Slots)
    requires
        slots.len() == 4,
    ensures
        all_on_board(slots, card_type.spec_affects(entity, slots)),
        !card_type.spec_affects(entity, slots).contains(entity) || !distinct(slots),
{
    let ids = card_type.spec_affects(entity, slots);
    assert forall|k: int| 0 <= k < ids.len() implies holds(slots, #[trigger] ids[k]) && (distinct(
        slots,
    ) ==> ids[k] != entity) by {
        match card_type {
            CardType::Sword | CardType::Tower => {
                let pair = neighbours(slots, entity);
                let i = slot_of(slots, entity)->0;
                assert(holds_at(slots, i, entity));
                if pair.0 is Some && k == 0 {
                    assert(holds_at(slots, i - 1, ids[k]));
                } else {
                    assert(holds_at(slots, i + 1, ids[k]));
                }
            },
            CardType::Heart => {
                let others = others_on(slots, entity);
                assert(others.contains(others[k]));
                slots.lemma_filter_map_contains(other_than(entity), others[k]);
                let t = choose|t: Option<BoardPlacement>| #[trigger]
                    slots.contains(t) && other_than(entity)(t) == Some(others[k]);
                let j = choose|j: int| 0 <= j < slots.len() && slots[j] == t;
                assert(holds_at(slots, j, ids[k]));
            },
            CardType::Pitchfork => {
                let others = others_of_type_on(slots, entity, card_type);
                assert(others.contains(others[k]));
                slots.lemma_filter_map_contains(other_of_type(entity, card_type), others[k]);
                let t = choose|t: Option<BoardPlacement>| #[trigger]
                    slots.contains(t) && other_of_type(entity, card_type)(t) == Some(others[k]);
                let j = choose|j: int| 0 <= j < slots.len() && slots[j] == t;
                assert(holds_at(slots, j, ids[k]));
            },
        }
    }
    if distinct(slots) && ids.contains(entity) {
        let k = choose|k: int| 0 <= k < ids.len() && ids[k] == entity;
        assert(ids[k] != entity);
    }
}

/// Putting a card that stands nowhere on the board into a free slot keeps
/// the side in order.
pub proof fn lemma_place_keeps(
    slots: Slots,
    cards: Map<CardId, CardInstance>,
    index: int,
    placement: BoardPlacement,
)
    requires
        side_wf(slots, cards),
        0 <= index < 4,
        slots[index] is None,
        !holds(slots, placement.entity),
        cards.contains_key(placement.entity),
        cards[placement.entity].card_type == placement.card_type,
    ensures
        side_wf(slots.update(index, Some(placement)), cards),
        forall|id: CardId|
            holds(slots.update(index, Some(placement)), id) <==> id == placement.entity || holds(
                slots,
                id,
            ),
{
    let after = slots.update(index, Some(placement));
    assert forall|i: int, j: int, entity: CardId|
        #![trigger holds_at(after, i, entity), holds_at(after, j, entity)]
        holds_at(after, i, entity) && holds_at(after, j, entity) implies i == j by {
        if i != index {
            assert(holds_at(slots, i, entity));
        }
        if j != index {
            assert(holds_at(slots, j, entity));
        }
    }
    assert forall|id: CardId| holds(after, id) <==> id == placement.entity || holds(
        slots,
        id,
    ) by {
        if holds(after, id) {
            let i = choose|i: int| holds_at(after, i, id);
            if i != index {
                assert(holds_at(slots, i, id));
            }
        }
        if holds(slots, id) {
            let i = choose|i: int| holds_at(slots, i, id);
            assert(holds_at(after, i, id));
        }
        assert(holds_at(after, index, placement.entity));
    }
}

/// A change of the arena that keeps its cards and their types keeps the
/// side in order, as long as the cards stay well formed.
pub proof fn lemma_same_cards_keep(
    slots: Slots,
    before: Map<CardId, CardInstance>,
    after: Map<CardId, CardInstance>,
)
    requires
        side_wf(slots, before),
        all_wf(after),
        forall|id: CardId|
            before.contains_key(id) ==> after.contains_key(id) && (#[trigger] after[id]).card_type
                == before[id].card_type,
    ensures
        side_wf(slots, after),
{
    assert forall|i: int| 0 <= i < 4 implies (#[trigger] slots[i] matches Some(p)
        ==> after.contains_key(p.entity) && after[p.entity].card_type == p.card_type) by {
        if let Some(p) = slots[i] {
            assert(after[p.entity].card_type == before[p.entity].card_type);
        }
    }
}

/// A card that comes onto the board, grants its aura and receives those of
/// the others leaves the arena with the same cards, of the same types and
/// costs, with the damage that waited, well formed, and none of them with
/// less health than before unless it stands at the ceiling.
pub proof fn lemma_entry_keeps(slots: Slots, cards: Map<CardId, CardInstance>, played: CardId)
    requires
        slots.len() == 4,
        all_wf(cards),
    ensures
        ({
            let after = ability_received(slots, ability_applied(slots, cards, played), played);
            &&& after.dom() == cards.dom()
            &&& all_wf(after)
            &&& forall|id: CardId|
                cards.contains_key(id) ==> {
                    &&& (#[trigger] after[id]).card_type == cards[id].card_type
                    &&& after[id].cost == cards[id].cost
                    &&& after[id].damage == cards[id].damage
                    &&& (cards[id].lethal() || !after[id].lethal())
                    &&& (!holds(slots, id) && id != played ==> after[id] == cards[id])
                }
        }),
{
    let applied = ability_applied(slots, cards, played);
    let after = ability_received(slots, applied, played);
    if cards.contains_key(played) {
        let card_type = cards[played].card_type;
        lemma_grant_all_keeps(cards, card_type.spec_affects(played, slots), card_type.spec_effect());
        lemma_affects_on_board(card_type, played, slots);
    }
    lemma_received_from_keeps(slots, applied, played, others_on(slots, played));
    if cards.contains_key(played) {
        lemma_receiver_keeps_health(slots, applied, played, others_on(slots, played));
    }
    assert forall|id: CardId| cards.contains_key(id) implies {
        &&& (#[trigger] after[id]).card_type == cards[id].card_type
        &&& after[id].cost == cards[id].cost
        &&& after[id].damage == cards[id].damage
        &&& (cards[id].lethal() || !after[id].lethal())
        &&& (!holds(slots, id) && id != played ==> after[id] == cards[id])
    } by {
        assert(applied.contains_key(id));
        if cards.contains_key(played) {
            let ids = cards[played].card_type.spec_affects(played, slots);
            if !holds(slots, id) && ids.contains(id) {
                let k = choose|k: int| 0 <= k < ids.len() && ids[k] == id;
                assert(holds(slots, ids[k]));
            }
        }
        if id != played {
            assert(after[id] == applied[id]);
        }
    }
}

/// A card that receives auras does not lose health.
proof fn lemma_receiver_keeps_health(
    slots: Slots,
    cards: Map<CardId, CardInstance>,
    receiver: CardId,
    emitters: Seq<BoardPlacement>,
)
    requires
        all_wf(cards),
        cards.contains_key(receiver),
    ensures
        cards[receiver].lethal() || !received_from(
            slots,
            cards,
            receiver,
            emitters,
        )[receiver].lethal(),
    decreases emitters.len(),
{
    if emitters.len() > 0 {
        lemma_receiver_keeps_health(slots, cards, receiver, emitters.drop_last());
        lemma_received_from_keeps(slots, cards, receiver, emitters.drop_last());
    }
}

/// Killing the first occupant without health keeps the side in order; the
/// cards that stay on the board are those that stood there but the killed
/// one, and the cards that stand nowhere on the board are untouched.
pub proof fn lemma_kill_step_keeps(slots: Slots, cards: Map<CardId, CardInstance>, i: int)
    requires
        side_wf(slots, cards),
        lethal_at(slots, cards, i),
    ensures
        side_wf(kill_step(slots, cards, i).0, kill_step(slots, cards, i).1),
        forall|id: CardId|
            holds(kill_step(slots, cards, i).0, id) <==> holds(slots, id) && id != slots[i]->0.entity,
        forall|id: CardId|
            #![trigger cards.contains_key(id)]
            cards.contains_key(id) && !holds(slots, id) ==> kill_step(
                slots,
                cards,
                i,
            ).1.contains_key(id) && kill_step(slots, cards, i).1[id] == cards[id],
        forall|id: CardId| #[trigger]
            kill_step(slots, cards, i).1.contains_key(id) ==> cards.contains_key(id),
{
    let killed = slots[i]->0.entity;
    let card_type = cards[killed].card_type;
    let ids = card_type.spec_affects(killed, slots);
    let after_slots = kill_step(slots, cards, i).0;
    let after_cards = kill_step(slots, cards, i).1;
    lemma_kill_step(slots, cards, i);
    lemma_revoke_all_keeps(cards, ids, card_type.spec_effect());
    lemma_affects_on_board(card_type, killed, slots);
    assert(holds_at(slots, i, killed));
    let j = slot_of(slots, killed)->0;
    assert(holds_at(slots, j, killed));
    assert(j == i);
    assert(after_slots == slots.update(i, None));
    assert forall|a: int, b: int, entity: CardId|
        #![trigger holds_at(after_slots, a, entity), holds_at(after_slots, b, entity)]
        holds_at(after_slots, a, entity) && holds_at(after_slots, b, entity) implies a == b by {
        assert(holds_at(slots, a, entity));
        assert(holds_at(slots, b, entity));
    }
    assert forall|id: CardId| holds(after_slots, id) <==> holds(slots, id) && id != killed by {
        if holds(after_slots, id) {
            let a = choose|a: int| holds_at(after_slots, a, id);
            assert(holds_at(slots, a, id));
            if id == killed {
                assert(a == i);
            }
        }
        if holds(slots, id) && id != killed {
            let a = choose|a: int| holds_at(slots, a, id);
            assert(holds_at(after_slots, a, id));
        }
    }
    assert forall|a: int| 0 <= a < 4 implies (#[trigger] after_slots[a] matches Some(p)
        ==> after_cards.contains_key(p.entity) && after_cards[p.entity].card_type
        == p.card_type) by {
        if let Some(p) = after_slots[a] {
            assert(slots[a] == Some(p));
            assert(holds_at(slots, a, p.entity));
            if p.entity == killed {
                assert(a == i);
            }
            assert(revoke_all(cards, ids, card_type.spec_effect())[p.entity].card_type
                == cards[p.entity].card_type);
        }
    }
    assert forall|id: CardId| #![trigger cards.contains_key(id)]
        cards.contains_key(id) && !holds(slots, id) implies kill_step(
        slots,
        cards,
        i,
    ).1.contains_key(id) && kill_step(slots, cards, i).1[id] == cards[id] by {
        if ids.contains(id) {
            let k = choose|k: int| 0 <= k < ids.len() && ids[k] == id;
            assert(holds(slots, ids[k]));
        }
        assert(revoke_all(cards, ids, card_type.spec_effect())[id] == cards[id]);
    }
}

/// The kill cascade keeps the side in order and leaves no occupant without
/// health; the cards that stand on the board afterwards stood there before,
/// and the cards that stood nowhere on the board are untouched.
pub proof fn lemma_cascade_keeps(slots: Slots, cards: Map<CardId, CardInstance>)
    requires
        side_wf(slots, cards),
    ensures
        side_wf(cascade(slots, cards).0, cascade(slots, cards).1),
        none_lethal(cascade(slots, cards).0, cascade(slots, cards).1),
        forall|id: CardId| holds(cascade(slots, cards).0, id) ==> holds(slots, id),
        forall|id: CardId|
            #![trigger cards.contains_key(id)]
            cards.contains_key(id) && !holds(slots, id) ==> cascade(slots, cards).1.contains_key(
                id,
            ) && cascade(slots, cards).1[id] == cards[id],
        forall|id: CardId| #[trigger]
            cascade(slots, cards).1.contains_key(id) ==> cards.contains_key(id),
    decreases taken(slots),
{
    match first_lethal(slots, cards) {
        Some(i) => {
            let step = kill_step(slots, cards, i);
            lemma_kill_step(slots, cards, i);
            lemma_kill_step_keeps(slots, cards, i);
            lemma_cascade_keeps(step.0, step.1);
            let rest = cascade(step.0, step.1);
            assert(cascade(slots, cards).0 == rest.0);
            assert(cascade(slots, cards).1 == rest.1);
            assert forall|id: CardId| #![trigger cards.contains_key(id)]
                cards.contains_key(id) && !holds(slots, id) implies cascade(
                slots,
                cards,
            ).1.contains_key(id) && cascade(slots, cards).1[id] == cards[id] by {
                assert(step.1.contains_key(id) && step.1[id] == cards[id]);
                assert(!holds(step.0, id));
                assert(rest.1.contains_key(id));
                assert(rest.1[id] == step.1[id]);
            }
        },
        None => {
            assert(cascade(slots, cards).0 == slots);
            assert(cascade(slots, cards).1 == cards);
        },
    }
}

/// Applying the damage that waits on the occupants keeps the side in order
/// and touches no card that stands nowhere on the board.
pub proof fn lemma_settle_keeps(slots: Slots, cards: Map<CardId, CardInstance>)
    requires
        side_wf(slots, cards),
    ensures
        side_wf(slots, settle_all(cards, placement_ids(occupants(slots)))),
        forall|id: CardId|
            #![trigger cards.contains_key(id)]
            cards.contains_key(id) && !holds(slots, id) ==> settle_all(
                cards,
                placement_ids(occupants(slots)),
            )[id] == cards[id],
{
    let ids = placement_ids(occupants(slots));
    lemma_settle_all_keeps(cards, ids);
    lemma_same_cards_keep(slots, cards, settle_all(cards, ids));
    assert forall|id: CardId| #![trigger cards.contains_key(id)]
        cards.contains_key(id) && !holds(slots, id) implies settle_all(cards, ids)[id]
        == cards[id] by {
        if ids.contains(id) {
            let k = choose|k: int| 0 <= k < ids.len() && ids[k] == id;
            let p = occupants(slots)[k];
            assert(occupants(slots).contains(p));
            slots.lemma_filter_map_contains(occupant(), p);
            let t = choose|t: Option<BoardPlacement>| #[trigger]
                slots.contains(t) && occupant()(t) == Some(p);
            let j = choose|j: int| 0 <= j < slots.len() && slots[j] == t;
            assert(holds_at(slots, j, id));
        }
    }
}

} // verus!
