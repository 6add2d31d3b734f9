use vstd::prelude::*;
use crate::arena::{grant, grant_all, CardArena, CardInstance};
use crate::board::{lemma_others_exclude, others_on, BoardPlacement, BoardState, Slots};
use crate::cards::CardId;

verus! {

/// Whether `ids` names the card `id`.
pub fn names(ids: &Vec<CardId>, id: CardId) -> (r: bool)
    ensures
        r == ids@.contains(id),
{
    let mut i: usize = 0;
    while i < ids.len()
        invariant
            i <= ids.len(),
            forall|j: int| 0 <= j < i ==> ids@[j] != id,
        decreases ids.len() - i,
    {
        if ids[i] == id {
            return true;
        }
        i += 1;
    }
    false
}

/// The arena after the card `played` came onto the board and its ability
/// reached the others: each card that it affects gets its effect once. A
/// card that the arena does not hold changes nothing.
pub open spec fn ability_applied(
    board: Slots,
    cards: Map<CardId, CardInstance>,
    played: CardId,
) -> Map<CardId, CardInstance> {
    if cards.contains_key(played) {
        let card_type = cards[played].card_type;
        grant_all(cards, card_type.spec_affects(played, board), card_type.spec_effect())
    } else {
        cards
    }
}

/// Whether the ability of the occupant `emitter` reaches the card
/// `receiver`.
pub open spec fn reaches(
    board: Slots,
    cards: Map<CardId, CardInstance>,
    emitter: BoardPlacement,
    receiver: CardId,
) -> bool {
    &&& cards.contains_key(emitter.entity)
    &&& cards[emitter.entity].card_type.spec_affects(emitter.entity, board).contains(receiver)
}

/// The arena after the card `receiver` got the effect of each of `emitters`
/// whose ability reaches it, in their order.
pub open spec fn received_from(
    board: Slots,
    cards: Map<CardId, CardInstance>,
    receiver: CardId,
    emitters: Seq<BoardPlacement>,
) -> Map<CardId, CardInstance> {
    emitters.fold_left(
        cards,
        |m: Map<CardId, CardInstance>, emitter: BoardPlacement|
            if reaches(board, cards, emitter, receiver) {
                grant(m, receiver, cards[emitter.entity].card_type.spec_effect())
            } else {
                m
            },
    )
}

/// The arena after the card `pending`, new on the board, got the effect of
/// every other occupant whose ability reaches it.
pub open spec fn ability_received(
    board: Slots,
    cards: Map<CardId, CardInstance>,
    pending: CardId,
) -> Map<CardId, CardInstance> {
    received_from(board, cards, pending, others_on(board, pending))
}

/// Receiving auras changes no card but the receiver, and leaves the
/// receiver its type, cost and waiting damage.
pub proof fn lemma_received_from_keeps(
    board: Slots,
    cards: Map<CardId, CardInstance>,
    receiver: CardId,
    emitters: Seq<BoardPlacement>,
)
    ensures
        received_from(board, cards, receiver, emitters).dom() == cards.dom(),
        forall|id: CardId|
            cards.contains_key(id) && id != receiver ==> #[trigger] received_from(
                board,
                cards,
                receiver,
                emitters,
            )[id] == cards[id],
        cards.contains_key(receiver) ==> {
            let after = received_from(board, cards, receiver, emitters)[receiver];
            &&& after.card_type == cards[receiver].card_type
            &&& after.cost == cards[receiver].cost
            &&& after.damage == cards[receiver].damage
            &&& cards[receiver].wf() ==> after.wf()
        },
    decreases emitters.len(),
{
    if emitters.len() > 0 {
        let before = received_from(board, cards, receiver, emitters.drop_last());
        lemma_received_from_keeps(board, cards, receiver, emitters.drop_last());
        let emitter = emitters.last();
        if reaches(board, cards, emitter, receiver) {
            let effect = cards[emitter.entity].card_type.spec_effect();
            assert(received_from(board, cards, receiver, emitters) == grant(
                before,
                receiver,
                effect,
            ));
            assert(grant(before, receiver, effect).dom() =~= before.dom());
        } else {
            assert(received_from(board, cards, receiver, emitters) == before);
        }
    }
}

/// The card `played` has come onto `board`: every card that its ability
/// affects gets its effect.
pub fn apply_ability(board: &BoardState, cards: &mut CardArena, played: CardId)
    requires
        old(cards).wf(),
    ensures
        final(cards)@ == ability_applied(board@, old(cards)@, played),
        final(cards).wf(),
{
    match cards.get(played) {
        Some(card) => {
            let affects = card.card_type.affects(played, board);
            let effect = card.card_type.effect();
            cards.grant_all(&affects, &effect);
        },
        None => {},
    }
}

/// The card `pending` has come onto `board`: it gets the effect of every
/// other occupant whose ability affects it.
pub fn receive_ability(board: &BoardState, cards: &mut CardArena, pending: CardId)
    requires
        old(cards).wf(),
    ensures
        final(cards)@ == ability_received(board@, old(cards)@, pending),
        final(cards).wf(),
{
    let others = board.others(pending);
    proof {
        lemma_others_exclude(board@, pending);
    }
    let mut i: usize = 0;
    while i < others.len()
        invariant
            i <= others.len(),
            others@ == others_on(board@, pending),
            forall|k: int| 0 <= k < others@.len() ==> (#[trigger] others@[k]).entity != pending,
            cards.wf(),
            cards@ == received_from(board@, old(cards)@, pending, others@.take(i as int)),
        decreases others.len() - i,
    {
        let emitter = others[i];
        proof {
            assert(others@.take(i + 1).drop_last() =~= others@.take(i as int));
            lemma_received_from_keeps(board@, old(cards)@, pending, others@.take(i as int));
        }
        match cards.get(emitter.entity) {
            Some(card) => {
                let affects = card.card_type.affects(emitter.entity, board);
                if names(&affects, pending) {
                    let effect = card.card_type.effect();
                    cards.grant(pending, &effect);
                }
            },
            None => {},
        }
        i += 1;
    }
    assert(others@.take(others.len() as int) =~= others@);
}

} // verus!
