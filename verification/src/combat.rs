use vstd::prelude::*;
use crate::arena::{all_wf, CardArena, CardInstance};
use crate::board::{occupants, opposite, Board, Slots};
use crate::cards::{placement_ids, CardId, Health, ABILITY_MAX};
use crate::deck::PlayableState;
use crate::players::{AttackedEvent, Damage};

verus! {

/// The sum of `amounts`.
pub open spec fn total(amounts: Seq<int>) -> int {
    amounts.fold_left(0int, |sum: int, amount: int| sum + amount)
}

/// What the attacker `id` deals to the other side's face: its attack, if it
/// is a card of `attacker_cards` and nothing stands opposite it.
pub open spec fn face_hit(
    attacking: Slots,
    attacked: Slots,
    attacker_cards: Map<CardId, CardInstance>,
) -> spec_fn(CardId) -> Option<int> {
    |id: CardId|
        if attacker_cards.contains_key(id) && opposite(attacking, attacked, id) is None {
            Some(attacker_cards[id].attack.0 as int)
        } else {
            None
        }
}

/// The hits that `attackers` deal to the other side's face, in their order.
pub open spec fn face_hits(
    attacking: Slots,
    attacked: Slots,
    attacker_cards: Map<CardId, CardInstance>,
    attackers: Seq<CardId>,
) -> Seq<int> {
    attackers.filter_map(face_hit(attacking, attacked, attacker_cards))
}

/// The arena of the attacked side after the attacker `id` struck: the card
/// opposite it, if there is one, has the attacker's attack waiting as damage.
pub open spec fn struck_by(
    attacking: Slots,
    attacked: Slots,
    attacker_cards: Map<CardId, CardInstance>,
    attacked_cards: Map<CardId, CardInstance>,
    id: CardId,
) -> Map<CardId, CardInstance> {
    if attacker_cards.contains_key(id) {
        match opposite(attacking, attacked, id) {
            Some(target) => if attacked_cards.contains_key(target.entity) {
                attacked_cards.insert(
                    target.entity,
                    attacked_cards[target.entity].struck(attacker_cards[id].attack.0),
                )
            } else {
                attacked_cards
            },
            None => attacked_cards,
        }
    } else {
        attacked_cards
    }
}

/// The arena of the attacked side after each of `attackers` struck in turn.
pub open spec fn struck_by_all(
    attacking: Slots,
    attacked: Slots,
    attacker_cards: Map<CardId, CardInstance>,
    attacked_cards: Map<CardId, CardInstance>,
    attackers: Seq<CardId>,
) -> Map<CardId, CardInstance> {
    attackers.fold_left(
        attacked_cards,
        |m: Map<CardId, CardInstance>, id: CardId|
            struck_by(attacking, attacked, attacker_cards, m, id),
    )
}

/// The arena after the damage waiting on the card `id` was applied.
pub open spec fn settle(cards: Map<CardId, CardInstance>, id: CardId) -> Map<
    CardId,
    CardInstance,
> {
    if cards.contains_key(id) {
        cards.insert(id, cards[id].settled())
    } else {
        cards
    }
}

/// The arena after the damage waiting on each of `ids` was applied.
pub open spec fn settle_all(cards: Map<CardId, CardInstance>, ids: Seq<CardId>) -> Map<
    CardId,
    CardInstance,
> {
    ids.fold_left(cards, |m: Map<CardId, CardInstance>, id: CardId| settle(m, id))
}

/// The events that report `hits` to the face of a side `S`.
pub open spec fn hit_events<S: PlayableState>(hits: Seq<int>) -> Seq<AttackedEvent> {
    hits.map_values(|hit: int| S::spec_attacked_event(hit as u32))
}

/// Hits dealt by well-formed cards lie between zero and the ability ceiling,
/// so the hits of a part of the attackers sum to no more than those of all.
pub proof fn lemma_face_hits_bounded(
    attacking: Slots,
    attacked: Slots,
    attacker_cards: Map<CardId, CardInstance>,
    attackers: Seq<CardId>,
    n: int,
)
    requires
        all_wf(attacker_cards),
        0 <= n <= attackers.len(),
    ensures
        0 <= total(face_hits(attacking, attacked, attacker_cards, attackers.take(n))) <= total(
            face_hits(attacking, attacked, attacker_cards, attackers),
        ),
        total(face_hits(attacking, attacked, attacker_cards, attackers)) <= ABILITY_MAX
            * attackers.len(),
    decreases attackers.len() - n,
{
    let hit = face_hit(attacking, attacked, attacker_cards);
    if n == attackers.len() {
        assert(attackers.take(n) =~= attackers);
        lemma_face_hits_sum(attacking, attacked, attacker_cards, attackers);
    } else {
        lemma_face_hits_bounded(attacking, attacked, attacker_cards, attackers, n + 1);
        attackers.lemma_filter_map_take_succ(hit, n);
        let before = attackers.take(n).filter_map(hit);
        lemma_face_hits_sum(attacking, attacked, attacker_cards, attackers.take(n));
        match hit(attackers[n]) {
            Some(amount) => {
                assert((before + seq![amount]).drop_last() =~= before);
                assert(total(before + seq![amount]) == total(before) + amount);
            },
            None => {
                assert(before + Seq::<int>::empty() =~= before);
            },
        }
    }
}

/// The hits of well-formed cards sum to something between zero and the
/// ceiling times their number.
proof fn lemma_face_hits_sum(
    attacking: Slots,
    attacked: Slots,
    attacker_cards: Map<CardId, CardInstance>,
    attackers: Seq<CardId>,
)
    requires
        all_wf(attacker_cards),
    ensures
        0 <= total(face_hits(attacking, attacked, attacker_cards, attackers)) <= ABILITY_MAX
            * attackers.len(),
    decreases attackers.len(),
{
    let hit = face_hit(attacking, attacked, attacker_cards);
    if attackers.len() > 0 {
        lemma_face_hits_sum(attacking, attacked, attacker_cards, attackers.drop_last());
        let before = attackers.drop_last().filter_map(hit);
        match hit(attackers.last()) {
            Some(amount) => {
                assert((before + seq![amount]).drop_last() =~= before);
                assert(total(before + seq![amount]) == total(before) + amount);
            },
            None => {},
        }
    }
}

/// Striking keeps the cards of the attacked arena and changes nothing of
/// them but the damage that waits.
pub proof fn lemma_struck_by_all_keeps(
    attacking: Slots,
    attacked: Slots,
    attacker_cards: Map<CardId, CardInstance>,
    attacked_cards: Map<CardId, CardInstance>,
    attackers: Seq<CardId>,
)
    requires
        all_wf(attacker_cards),
    ensures
        struck_by_all(attacking, attacked, attacker_cards, attacked_cards, attackers).dom()
            == attacked_cards.dom(),
        all_wf(attacked_cards) ==> all_wf(
            struck_by_all(attacking, attacked, attacker_cards, attacked_cards, attackers),
        ),
        forall|id: CardId|
            attacked_cards.contains_key(id) ==> {
                let after = #[trigger] struck_by_all(
                    attacking,
                    attacked,
                    attacker_cards,
                    attacked_cards,
                    attackers,
                )[id];
                &&& after.card_type == attacked_cards[id].card_type
                &&& after.attack == attacked_cards[id].attack
                &&& after.health == attacked_cards[id].health
                &&& after.cost == attacked_cards[id].cost
            },
    decreases attackers.len(),
{
    if attackers.len() > 0 {
        lemma_struck_by_all_keeps(
            attacking,
            attacked,
            attacker_cards,
            attacked_cards,
            attackers.drop_last(),
        );
        let before = struck_by_all(
            attacking,
            attacked,
            attacker_cards,
            attacked_cards,
            attackers.drop_last(),
        );
        let after = struck_by(attacking, attacked, attacker_cards, before, attackers.last());
        assert(struck_by_all(attacking, attacked, attacker_cards, attacked_cards, attackers)
            == after);
        assert(after.dom() =~= before.dom());
    }
}

/// Applying damage keeps the cards of the arena, their types, attacks and
/// costs, keeps them well formed and leaves no damage waiting on `ids`.
pub proof fn lemma_settle_all_keeps(cards: Map<CardId, CardInstance>, ids: Seq<CardId>)
    ensures
        settle_all(cards, ids).dom() == cards.dom(),
        all_wf(cards) ==> all_wf(settle_all(cards, ids)),
        forall|id: CardId|
            cards.contains_key(id) ==> {
                let after = #[trigger] settle_all(cards, ids)[id];
                &&& after.card_type == cards[id].card_type
                &&& after.attack == cards[id].attack
                &&& after.cost == cards[id].cost
                &&& after == if ids.contains(id) {
                    cards[id].settled()
                } else {
                    cards[id]
                }
            },
    decreases ids.len(),
{
    if ids.len() > 0 {
        lemma_settle_all_keeps(cards, ids.drop_last());
        let before = settle_all(cards, ids.drop_last());
        assert(settle_all(cards, ids) == settle(before, ids.last()));
        assert(settle(before, ids.last()).dom() =~= before.dom());
        assert forall|id: CardId| cards.contains_key(id) implies {
            let after = #[trigger] settle_all(cards, ids)[id];
            after == if ids.contains(id) {
                cards[id].settled()
            } else {
                cards[id]
            }
        } by {
            assert(ids.last() == ids[ids.len() - 1]);
            if ids.drop_last().contains(id) {
                let k = choose|k: int| 0 <= k < ids.drop_last().len() && ids.drop_last()[k] == id;
                assert(ids[k] == id);
            }
            if ids.contains(id) && id != ids.last() {
                let k = choose|k: int| 0 <= k < ids.len() && ids[k] == id;
                assert(ids.drop_last()[k] == id);
            }
        }
    }
}

/// The cards that attack in a pass: every occupant of the board, in slot
/// order.
pub fn mark_attackers<B: Board>(board: &B) -> (r: Vec<CardId>)
    ensures
        r@ == placement_ids(occupants(board.spec_state()@)),
{
    let all = board.all();
    let mut ids: Vec<CardId> = Vec::new();
    let mut i: usize = 0;
    while i < all.len()
        invariant
            i <= all.len(),
            ids@ == placement_ids(all@.take(i as int)),
        decreases all.len() - i,
    {
        ids.push(all[i].entity);
        i += 1;
        assert(ids@ =~= placement_ids(all@.take(i as int)));
    }
    assert(all@.take(all.len() as int) =~= all@);
    ids
}

/// One attack pass. Each of `attackers` that is a card of `attacker_cards`
/// strikes once: the card opposite it gets the attacker's attack as waiting
/// damage, or, where nothing stands opposite, the attacked side loses that
/// much health and an event reports it.
pub fn attack<A: Board, B: Board, S: PlayableState>(
    attackers: &Vec<CardId>,
    attacking: &A,
    attacked: &B,
    attacker_cards: &CardArena,
    attacked_cards: &mut CardArena,
    player_state: &mut S,
) -> (events: Vec<AttackedEvent>)
    requires
        attacker_cards.wf(),
        old(attacked_cards).wf(),
        i32::MIN <= old(player_state).spec_health() - total(
            face_hits(
                attacking.spec_state()@,
                attacked.spec_state()@,
                attacker_cards@,
                attackers@,
            ),
        ),
    ensures
        final(attacked_cards)@ == struck_by_all(
            attacking.spec_state()@,
            attacked.spec_state()@,
            attacker_cards@,
            old(attacked_cards)@,
            attackers@,
        ),
        final(attacked_cards).wf(),
        events@ == hit_events::<S>(
            face_hits(
                attacking.spec_state()@,
                attacked.spec_state()@,
                attacker_cards@,
                attackers@,
            ),
        ),
        final(player_state).spec_health() == old(player_state).spec_health() - total(
            face_hits(
                attacking.spec_state()@,
                attacked.spec_state()@,
                attacker_cards@,
                attackers@,
            ),
        ),
        final(player_state).spec_available_power() == old(player_state).spec_available_power(),
        final(player_state).spec_deck() == old(player_state).spec_deck(),
        final(player_state).spec_max_power() == old(player_state).spec_max_power(),
        final(player_state).spec_power() == old(player_state).spec_power(),
        final(player_state).same_rest(old(player_state)),
{
    proof {
        S::lemma_same_rest(player_state, player_state, player_state);
    }
    let ghost from = attacking.spec_state()@;
    let ghost onto = attacked.spec_state()@;
    let ghost hit = face_hit(from, onto, attacker_cards@);
    let mut events: Vec<AttackedEvent> = Vec::new();
    let mut i: usize = 0;
    while i < attackers.len()
        invariant
            i <= attackers.len(),
            from == attacking.spec_state()@,
            onto == attacked.spec_state()@,
            hit == face_hit(from, onto, attacker_cards@),
            attacker_cards.wf(),
            attacked_cards.wf(),
            i32::MIN <= old(player_state).spec_health() - total(
                face_hits(from, onto, attacker_cards@, attackers@),
            ),
            attacked_cards@ == struck_by_all(
                from,
                onto,
                attacker_cards@,
                old(attacked_cards)@,
                attackers@.take(i as int),
            ),
            events@ == hit_events::<S>(
                face_hits(from, onto, attacker_cards@, attackers@.take(i as int)),
            ),
            player_state.spec_health() == old(player_state).spec_health() - total(
                face_hits(from, onto, attacker_cards@, attackers@.take(i as int)),
            ),
            player_state.spec_available_power() == old(player_state).spec_available_power(),
            player_state.spec_deck() == old(player_state).spec_deck(),
            player_state.spec_max_power() == old(player_state).spec_max_power(),
            player_state.spec_power() == old(player_state).spec_power(),
            player_state.same_rest(old(player_state)),
        decreases attackers.len() - i,
    {
        let id = attackers[i];
        proof {
            assert(attackers@.take(i + 1).drop_last() =~= attackers@.take(i as int));
            attackers@.lemma_filter_map_take_succ(hit, i as int);
            lemma_face_hits_bounded(from, onto, attacker_cards@, attackers@, i as int);
            lemma_face_hits_bounded(from, onto, attacker_cards@, attackers@, i + 1);
        }
        let ghost hits_before = face_hits(from, onto, attacker_cards@, attackers@.take(i as int));
        match attacker_cards.get(id) {
            Some(card) => {
                let amount = card.attack.0;
                match attacking.across(attacked.state(), id) {
                    Some(target) => {
                        match attacked_cards.get(target.entity) {
                            Some(hurt) => {
                                attacked_cards.insert(
                                    target.entity,
                                    CardInstance {
                                        damage: Some(Damage(amount)),
                                        ..hurt
                                    },
                                );
                            },
                            None => {},
                        }
                        proof {
                            assert(hits_before + Seq::<int>::empty() =~= hits_before);
                        }
                    },
                    None => {
                        proof {
                            assert(hit(id) == Some(amount as int));
                            assert(face_hits(
                                from,
                                onto,
                                attacker_cards@,
                                attackers@.take(i + 1),
                            ) == hits_before + seq![amount as int]);
                            assert((hits_before + seq![amount as int]).drop_last()
                                =~= hits_before);
                            assert(total(hits_before + seq![amount as int]) == total(hits_before)
                                + amount);
                        }
                        let ghost hurt = *player_state;
                        player_state.take_damage(amount);
                        proof {
                            S::lemma_same_rest(player_state, &hurt, old(player_state));
                        }
                        events.push(S::attacked_event(amount as u32));
                        proof {
                            assert(events@ =~= hit_events::<S>(
                                hits_before + seq![amount as int],
                            ));
                        }
                    },
                }
            },
            None => {
                proof {
                    assert(hits_before + Seq::<int>::empty() =~= hits_before);
                }
            },
        }
        i += 1;
    }
    assert(attackers@.take(attackers.len() as int) =~= attackers@);
    events
}

/// Applies the damage that waits on the occupants of `board`: the health of
/// each falls by it, down to zero, and nothing is left waiting.
pub fn apply_damage<B: Board>(board: &B, cards: &mut CardArena)
    requires
        old(cards).wf(),
    ensures
        final(cards)@ == settle_all(old(cards)@, placement_ids(occupants(board.spec_state()@))),
        final(cards).wf(),
{
    let ids = mark_attackers(board);
    let mut i: usize = 0;
    while i < ids.len()
        invariant
            i <= ids.len(),
            cards.wf(),
            cards@ == settle_all(old(cards)@, ids@.take(i as int)),
        decreases ids.len() - i,
    {
        assert(ids@.take(i + 1).drop_last() =~= ids@.take(i as int));
        match cards.get(ids[i]) {
            Some(card) => {
                match card.damage {
                    Some(damage) => {
                        let left = card.health.0 - damage.0;
                        let health = if left > 0 {
                            left
                        } else {
                            0
                        };
                        cards.insert(
                            ids[i],
                            CardInstance {
                                health: Health(health),
                                damage: None,
                                ..card
                            },
                        );
                    },
                    None => {
                        assert(cards@.insert(ids@[i as int], card) =~= cards@);
                    },
                }
            },
            None => {},
        }
        i += 1;
    }
    assert(ids@.take(ids.len() as int) =~= ids@);
}

} // verus!
