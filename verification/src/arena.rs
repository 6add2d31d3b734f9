use vstd::prelude::*;
use std::collections::HashMap;
use crate::cards::{
    lowered, raised, Attack, CardAbilityEffect, CardId, CardType, Cost, Health, ABILITY_MAX,
};
use crate::players::Damage;

verus! {

broadcast use vstd::std_specs::hash::group_hash_axioms;

/// A live card, held in a hand or standing on a board.
#[derive(Clone, Copy, Debug, PartialEq, Eq, Structural)]
pub struct CardInstance {
    pub card_type: CardType,
    pub attack: Attack,
    pub health: Health,
    pub cost: Cost,
    /// Combat damage taken in the current attack and not applied yet.
    pub damage: Option<Damage>,
}

impl CardInstance {
    /// Attack and health lie between zero and the ability ceiling, and so
    /// does the damage waiting to be applied; the cost is that of the type.
    pub open spec fn wf(self) -> bool {
        &&& 0 <= self.attack.0 <= ABILITY_MAX
        &&& 0 <= self.health.0 <= ABILITY_MAX
        &&& self.cost.0 == self.card_type.spec_attributes().cost
        &&& self.damage matches Some(d) ==> 0 <= d.0 <= ABILITY_MAX
    }

    /// A card of type `card_type` as it is drawn: with the attributes of its
    /// type and no damage.
    pub open spec fn fresh(card_type: CardType) -> CardInstance {
        CardInstance {
            card_type,
            attack: Attack(card_type.spec_attributes().attack as i32),
            health: Health(card_type.spec_attributes().health as i32),
            cost: Cost(card_type.spec_attributes().cost as i32),
            damage: None,
        }
    }

    /// The card after `effect` was granted to it.
    pub open spec fn granted(self, effect: CardAbilityEffect) -> CardInstance {
        CardInstance {
            attack: Attack(raised(self.attack.0 as int, effect.attack as int) as i32),
            health: Health(raised(self.health.0 as int, effect.health as int) as i32),
            ..self
        }
    }

    /// The card after `effect` was taken back from it.
    pub open spec fn revoked(self, effect: CardAbilityEffect) -> CardInstance {
        CardInstance {
            attack: Attack(lowered(self.attack.0 as int, effect.attack as int) as i32),
            health: Health(lowered(self.health.0 as int, effect.health as int) as i32),
            ..self
        }
    }

    /// The card with `amount` of damage waiting to be applied, in place of
    /// any that waited before.
    pub open spec fn struck(self, amount: i32) -> CardInstance {
        CardInstance { damage: Some(Damage(amount)), ..self }
    }

    /// The card after the damage that waited was applied: health falls by
    /// it, down to zero.
    pub open spec fn settled(self) -> CardInstance {
        match self.damage {
            Some(d) => CardInstance {
                health: Health(lowered(self.health.0 as int, d.0 as int) as i32),
                damage: None,
                ..self
            },
            None => self,
        }
    }

    /// The card has no health left.
    pub open spec fn lethal(self) -> bool {
        self.health.0 <= 0
    }

    pub fn new(card_type: CardType) -> (r: Self)
        ensures
            r == Self::fresh(card_type),
            r.wf(),
    {
        let attributes = card_type.attributes();
        CardInstance {
            card_type,
            attack: Attack(attributes.attack as i32),
            health: Health(attributes.health as i32),
            cost: Cost(attributes.cost as i32),
            damage: None,
        }
    }
}

/// After an aura was granted to a card and taken back, the card's attack and
/// health lie between zero and the ability ceiling.
pub proof fn lemma_grant_revoke_bounded(card: CardInstance, effect: CardAbilityEffect)
    requires
        effect.is_aura(),
    ensures
        0 <= card.granted(effect).revoked(effect).attack.0 <= ABILITY_MAX,
        0 <= card.granted(effect).revoked(effect).health.0 <= ABILITY_MAX,
{
}

/// Round trip: a card that is granted an aura which the ceiling does not cut
/// short, and then has it taken back, is the card it was.
pub proof fn lemma_grant_revoke_round_trip(card: CardInstance, effect: CardAbilityEffect)
    requires
        card.wf(),
        effect.is_aura(),
        card.attack.0 + effect.attack <= ABILITY_MAX,
        card.health.0 + effect.health <= ABILITY_MAX,
    ensures
        card.granted(effect).revoked(effect) == card,
{
}

/// The arena after `effect` was granted to the card `id`; a card that the
/// arena does not hold gets nothing.
pub open spec fn grant(
    cards: Map<CardId, CardInstance>,
    id: CardId,
    effect: CardAbilityEffect,
) -> Map<CardId, CardInstance> {
    if cards.contains_key(id) {
        cards.insert(id, cards[id].granted(effect))
    } else {
        cards
    }
}

/// The arena after `effect` was taken back from the card `id`.
pub open spec fn revoke(
    cards: Map<CardId, CardInstance>,
    id: CardId,
    effect: CardAbilityEffect,
) -> Map<CardId, CardInstance> {
    if cards.contains_key(id) {
        cards.insert(id, cards[id].revoked(effect))
    } else {
        cards
    }
}

/// The arena after `effect` was granted to each of `ids` in turn.
pub open spec fn grant_all(
    cards: Map<CardId, CardInstance>,
    ids: Seq<CardId>,
    effect: CardAbilityEffect,
) -> Map<CardId, CardInstance> {
    ids.fold_left(cards, |m: Map<CardId, CardInstance>, id: CardId| grant(m, id, effect))
}

/// The arena after `effect` was taken back from each of `ids` in turn.
pub open spec fn revoke_all(
    cards: Map<CardId, CardInstance>,
    ids: Seq<CardId>,
    effect: CardAbilityEffect,
) -> Map<CardId, CardInstance> {
    ids.fold_left(cards, |m: Map<CardId, CardInstance>, id: CardId| revoke(m, id, effect))
}

/// Every card of the arena is well formed.
pub open spec fn all_wf(cards: Map<CardId, CardInstance>) -> bool {
    forall|id: CardId| cards.contains_key(id) ==> (#[trigger] cards[id]).wf()
}

/// Granting an aura keeps the cards of the arena, their types, costs and
/// waiting damage, and keeps them well formed.
pub proof fn lemma_grant_all_keeps(
    cards: Map<CardId, CardInstance>,
    ids: Seq<CardId>,
    effect: CardAbilityEffect,
)
    requires
        effect.is_aura(),
    ensures
        grant_all(cards, ids, effect).dom() == cards.dom(),
        all_wf(cards) ==> all_wf(grant_all(cards, ids, effect)),
        forall|id: CardId|
            cards.contains_key(id) ==> {
                let after = #[trigger] grant_all(cards, ids, effect)[id];
                &&& after.card_type == cards[id].card_type
                &&& after.cost == cards[id].cost
                &&& after.damage == cards[id].damage
                &&& cards[id].attack.0 <= after.attack.0 || after.attack.0 == ABILITY_MAX
                &&& cards[id].health.0 <= after.health.0 || after.health.0 == ABILITY_MAX
                &&& !ids.contains(id) ==> after == cards[id]
            },
    decreases ids.len(),
{
    if ids.len() > 0 {
        let before = grant_all(cards, ids.drop_last(), effect);
        lemma_grant_all_keeps(cards, ids.drop_last(), effect);
        assert(grant_all(cards, ids, effect) == grant(before, ids.last(), effect));
        assert(grant(before, ids.last(), effect).dom() =~= before.dom());
        assert forall|id: CardId| cards.contains_key(id) implies {
            let after = #[trigger] grant_all(cards, ids, effect)[id];
            !ids.contains(id) ==> after == cards[id]
        } by {
            if !ids.contains(id) {
                assert(ids.last() == ids[ids.len() - 1]);
                assert forall|k: int| 0 <= k < ids.drop_last().len() implies ids.drop_last()[k]
                    != id by {
                    assert(ids.drop_last()[k] == ids[k]);
                }
            }
        }
    }
}

/// Taking an aura back keeps the cards of the arena, their types, costs and
/// waiting damage, and keeps them well formed.
pub proof fn lemma_revoke_all_keeps(
    cards: Map<CardId, CardInstance>,
    ids: Seq<CardId>,
    effect: CardAbilityEffect,
)
    requires
        effect.is_aura(),
    ensures
        revoke_all(cards, ids, effect).dom() == cards.dom(),
        all_wf(cards) ==> all_wf(revoke_all(cards, ids, effect)),
        forall|id: CardId|
            cards.contains_key(id) ==> {
                let after = #[trigger] revoke_all(cards, ids, effect)[id];
                &&& after.card_type == cards[id].card_type
                &&& after.cost == cards[id].cost
                &&& after.damage == cards[id].damage
                &&& !ids.contains(id) ==> after == cards[id]
            },
    decreases ids.len(),
{
    if ids.len() > 0 {
        let before = revoke_all(cards, ids.drop_last(), effect);
        lemma_revoke_all_keeps(cards, ids.drop_last(), effect);
        assert(revoke_all(cards, ids, effect) == revoke(before, ids.last(), effect));
        assert(revoke(before, ids.last(), effect).dom() =~= before.dom());
        assert forall|id: CardId| cards.contains_key(id) implies {
            let after = #[trigger] revoke_all(cards, ids, effect)[id];
            !ids.contains(id) ==> after == cards[id]
        } by {
            if !ids.contains(id) {
                assert(ids.last() == ids[ids.len() - 1]);
                assert forall|k: int| 0 <= k < ids.drop_last().len() implies ids.drop_last()[k]
                    != id by {
                    assert(ids.drop_last()[k] == ids[k]);
                }
            }
        }
    }
}

/// The live cards of one side, each under its identity.
pub struct CardArena {
    cards: HashMap<CardId, CardInstance>,
}

impl View for CardArena {
    type V = Map<CardId, CardInstance>;

    closed spec fn view(&self) -> Map<CardId, CardInstance> {
        self.cards@
    }
}

impl CardArena {
    /// Every card of the arena is well formed.
    pub open spec fn wf(&self) -> bool {
        all_wf(self@)
    }

    pub fn new() -> (r: Self)
        ensures
            r@ == Map::<CardId, CardInstance>::empty(),
    {
        CardArena { cards: HashMap::new() }
    }

    pub fn contains(&self, id: CardId) -> (r: bool)
        ensures
            r == self@.contains_key(id),
    {
        self.cards.contains_key(&id)
    }

    pub fn get(&self, id: CardId) -> (r: Option<CardInstance>)
        ensures
            r == if self@.contains_key(id) {
                Some(self@[id])
            } else {
                None
            },
    {
        match self.cards.get(&id) {
            Some(card) => Some(*card),
            None => None,
        }
    }

    /// Puts `card` under `id`, in place of what stood there.
    pub fn insert(&mut self, id: CardId, card: CardInstance)
        ensures
            final(self)@ == old(self)@.insert(id, card),
    {
        self.cards.insert(id, card);
    }

    /// Takes the card `id` out of the arena.
    pub fn remove(&mut self, id: CardId) -> (r: Option<CardInstance>)
        ensures
            final(self)@ == old(self)@.remove(id),
            r == if old(self)@.contains_key(id) {
                Some(old(self)@[id])
            } else {
                None
            },
    {
        self.cards.remove(&id)
    }

    /// Grants `effect` to the card `id`, if the arena holds it.
    pub fn grant(&mut self, id: CardId, effect: &CardAbilityEffect)
        requires
            old(self).wf(),
            effect.is_aura(),
        ensures
            final(self)@ == grant(old(self)@, id, *effect),
            final(self).wf(),
    {
        match self.get(id) {
            Some(card) => {
                let mut attack = card.attack;
                let mut health = card.health;
                effect.apply(&mut attack, &mut health);
                self.insert(id, CardInstance { attack, health, ..card });
            },
            None => {},
        }
    }

    /// Takes `effect` back from the card `id`, if the arena holds it.
    pub fn revoke(&mut self, id: CardId, effect: &CardAbilityEffect)
        requires
            old(self).wf(),
            effect.is_aura(),
        ensures
            final(self)@ == revoke(old(self)@, id, *effect),
            final(self).wf(),
    {
        match self.get(id) {
            Some(card) => {
                let mut attack = card.attack;
                let mut health = card.health;
                effect.remove(&mut attack, &mut health);
                self.insert(id, CardInstance { attack, health, ..card });
            },
            None => {},
        }
    }

    /// Grants `effect` to each of `ids` in turn.
    pub fn grant_all(&mut self, ids: &Vec<CardId>, effect: &CardAbilityEffect)
        requires
            old(self).wf(),
            effect.is_aura(),
        ensures
            final(self)@ == grant_all(old(self)@, ids@, *effect),
            final(self).wf(),
    {
        let mut i: usize = 0;
        while i < ids.len()
            invariant
                i <= ids.len(),
                effect.is_aura(),
                self.wf(),
                self@ == grant_all(old(self)@, ids@.take(i as int), *effect),
            decreases ids.len() - i,
        {
            assert(ids@.take(i + 1).drop_last() =~= ids@.take(i as int));
            self.grant(ids[i], effect);
            i += 1;
        }
        assert(ids@.take(ids.len() as int) =~= ids@);
    }

    /// Takes `effect` back from each of `ids` in turn.
    pub fn revoke_all(&mut self, ids: &Vec<CardId>, effect: &CardAbilityEffect)
        requires
            old(self).wf(),
            effect.is_aura(),
        ensures
            final(self)@ == revoke_all(old(self)@, ids@, *effect),
            final(self).wf(),
    {
        let mut i: usize = 0;
        while i < ids.len()
            invariant
                i <= ids.len(),
                effect.is_aura(),
                self.wf(),
                self@ == revoke_all(old(self)@, ids@.take(i as int), *effect),
            decreases ids.len() - i,
        {
            assert(ids@.take(i + 1).drop_last() =~= ids@.take(i as int));
            self.revoke(ids[i], effect);
            i += 1;
        }
        assert(ids@.take(ids.len() as int) =~= ids@);
    }
}

} // verus!
