use vstd::prelude::*;
use crate::board::{neighbours, others_of_type_on, others_on, BoardPlacement, BoardState, Slots};

verus! {

/// Stable identity of a live card.
pub type CardId = u64;

/// Ceiling that an ability can raise an attribute to.
pub const ABILITY_MAX: i32 = 4;

/// A number printed on a card that play can read and change.
pub trait Attribute {
    /// The number held.
    spec fn value(&self) -> int;

    fn get(&self) -> (r: i32)
        ensures
            r == self.value(),
    ;

    fn set(&mut self, value: i32)
        ensures
            final(self).value() == value,
    ;
}

/// Current attack of a card.
#[derive(Clone, Copy, Debug, PartialEq, Eq, Structural)]
pub struct Attack(pub i32);

/// What it costs to play a card.
#[derive(Clone, Copy, Debug, PartialEq, Eq, Structural)]
pub struct Cost(pub i32);

/// Current health of a card.
#[derive(Clone, Copy, Debug, PartialEq, Eq, Structural)]
pub struct Health(pub i32);

impl Attribute for Attack {
    open spec fn value(&self) -> int {
        self.0 as int
    }

    fn get(&self) -> (r: i32) {
        self.0
    }

    fn set(&mut self, value: i32) {
        self.0 = value;
    }
}

impl Attribute for Cost {
    open spec fn value(&self) -> int {
        self.0 as int
    }

    fn get(&self) -> (r: i32) {
        self.0
    }

    fn set(&mut self, value: i32) {
        self.0 = value;
    }
}

impl Attribute for Health {
    open spec fn value(&self) -> int {
        self.0 as int
    }

    fn get(&self) -> (r: i32) {
        self.0
    }

    fn set(&mut self, value: i32) {
        self.0 = value;
    }
}

/// Base attributes of a card type.
#[derive(Clone, Copy, Debug, PartialEq, Eq, Structural)]
pub struct Attributes {
    pub attack: u32,
    pub cost: u32,
    pub health: u32,
}

/// `value` raised by `delta`, stopping at the ability ceiling.
pub open spec fn raised(value: int, delta: int) -> int {
    if value + delta <= ABILITY_MAX {
        value + delta
    } else {
        ABILITY_MAX as int
    }
}

/// `value` lowered by `delta`, stopping at zero.
pub open spec fn lowered(value: int, delta: int) -> int {
    if value - delta >= 0 {
        value - delta
    } else {
        0
    }
}

/// Raising an attribute and lowering it again by the same amount lands
/// between zero and the ability ceiling, whatever it was before.
pub proof fn lemma_raise_lower_bounded(value: int, delta: int)
    requires
        0 <= delta,
    ensures
        0 <= lowered(raised(value, delta), delta) <= ABILITY_MAX,
{
}

/// Round trip: an attribute that is raised and then lowered by the same
/// amount is what it was before, as long as the raise stays under the
/// ceiling. At the ceiling the raise is cut short and the lowering is not, so
/// the attribute ends below where it began.
pub proof fn lemma_raise_lower_round_trip(value: int, delta: int)
    requires
        0 <= value,
        0 <= delta,
    ensures
        value + delta <= ABILITY_MAX ==> lowered(raised(value, delta), delta) == value,
        0 < value <= ABILITY_MAX < value + delta ==> lowered(raised(value, delta), delta) < value,
{
}

/// The cards named by a pair of neighbours, left before right.
pub open spec fn neighbour_ids(pair: (Option<BoardPlacement>, Option<BoardPlacement>)) -> Seq<
    CardId,
> {
    (match pair.0 {
        Some(p) => seq![p.entity],
        None => Seq::empty(),
    }) + (match pair.1 {
        Some(p) => seq![p.entity],
        None => Seq::empty(),
    })
}

/// The cards named by a row of placements.
pub open spec fn placement_ids(placements: Seq<BoardPlacement>) -> Seq<CardId> {
    placements.map_values(|p: BoardPlacement| p.entity)
}

/// What a card does for the others on its side.
#[derive(Clone, Copy, Debug, PartialEq, Eq, Structural)]
pub enum CardAbility {
    AttackUpAdjacent,
    HealthUpAdjacent,
    HealthUpAll,
    StrengthInNumbers,
}

impl CardAbility {
    /// The cards that this ability of the card `entity` reaches on `board`:
    /// its neighbours, every other occupant, or every other occupant of its
    /// own type.
    pub open spec fn spec_affects(
        self,
        entity: CardId,
        card_type: CardType,
        board: Slots,
    ) -> Seq<CardId> {
        match self {
            CardAbility::AttackUpAdjacent => neighbour_ids(neighbours(board, entity)),
            CardAbility::HealthUpAdjacent => neighbour_ids(neighbours(board, entity)),
            CardAbility::HealthUpAll => placement_ids(others_on(board, entity)),
            CardAbility::StrengthInNumbers => placement_ids(
                others_of_type_on(board, entity, card_type),
            ),
        }
    }

    /// What this ability grants to each card it reaches.
    pub open spec fn spec_effect(self) -> CardAbilityEffect {
        match self {
            CardAbility::AttackUpAdjacent => CardAbilityEffect { attack: 1, health: 0 },
            CardAbility::StrengthInNumbers => CardAbilityEffect { attack: 1, health: 0 },
            CardAbility::HealthUpAdjacent => CardAbilityEffect { attack: 0, health: 1 },
            CardAbility::HealthUpAll => CardAbilityEffect { attack: 0, health: 1 },
        }
    }

    pub fn affects(&self, entity: CardId, card_type: CardType, board: &BoardState) -> (r: Vec<
        CardId,
    >)
        ensures
            r@ == self.spec_affects(entity, card_type, board@),
    {
        let mut affects: Vec<CardId> = Vec::new();
        match self {
            Self::AttackUpAdjacent | Self::HealthUpAdjacent => {
                let (left, right) = board.adjacent(entity);
                if let Some(left) = left {
                    affects.push(left.entity);
                }
                if let Some(right) = right {
                    affects.push(right.entity);
                }
                assert(affects@ =~= neighbour_ids(neighbours(board@, entity)));
            },
            Self::HealthUpAll => {
                let others = board.others(entity);
                let mut i: usize = 0;
                while i < others.len()
                    invariant
                        i <= others.len(),
                        affects@ == placement_ids(others@.take(i as int)),
                    decreases others.len() - i,
                {
                    affects.push(others[i].entity);
                    i += 1;
                    assert(affects@ =~= placement_ids(others@.take(i as int)));
                }
                assert(others@.take(others.len() as int) =~= others@);
            },
            Self::StrengthInNumbers => {
                let others = board.others_of_type(entity, card_type);
                let mut i: usize = 0;
                while i < others.len()
                    invariant
                        i <= others.len(),
                        affects@ == placement_ids(others@.take(i as int)),
                    decreases others.len() - i,
                {
                    affects.push(others[i].entity);
                    i += 1;
                    assert(affects@ =~= placement_ids(others@.take(i as int)));
                }
                assert(others@.take(others.len() as int) =~= others@);
            },
        }
        affects
    }

    pub fn effect(&self) -> (r: CardAbilityEffect)
        ensures
            r == self.spec_effect(),
    {
        match self {
            Self::AttackUpAdjacent | Self::StrengthInNumbers => CardAbilityEffect {
                attack: 1,
                health: 0,
            },
            Self::HealthUpAdjacent | Self::HealthUpAll => CardAbilityEffect {
                attack: 0,
                health: 1,
            },
        }
    }
}

/// A change to a card's attack and health.
#[derive(Clone, Copy, Debug, PartialEq, Eq, Structural)]
pub struct CardAbilityEffect {
    pub attack: i32,
    pub health: i32,
}

impl CardAbilityEffect {
    /// The effect is one that an ability grants: each part is zero or one.
    pub open spec fn is_aura(self) -> bool {
        &&& 0 <= self.attack <= 1
        &&& 0 <= self.health <= 1
    }

    /// Grants the effect: each attribute rises by its part, up to the
    /// ceiling.
    pub fn apply(&self, attack: &mut Attack, health: &mut Health)
        requires
            i32::MIN <= old(attack).0 + self.attack <= i32::MAX,
            i32::MIN <= old(health).0 + self.health <= i32::MAX,
        ensures
            final(attack).0 == raised(old(attack).0 as int, self.attack as int),
            final(health).0 == raised(old(health).0 as int, self.health as int),
    {
        let a = attack.0 + self.attack;
        attack.0 = if a < ABILITY_MAX {
            a
        } else {
            ABILITY_MAX
        };
        let h = health.0 + self.health;
        health.0 = if h < ABILITY_MAX {
            h
        } else {
            ABILITY_MAX
        };
    }

    /// Takes the effect back: each attribute falls by its part, down to
    /// zero.
    pub fn remove(&self, attack: &mut Attack, health: &mut Health)
        requires
            i32::MIN <= old(attack).0 - self.attack <= i32::MAX,
            i32::MIN <= old(health).0 - self.health <= i32::MAX,
        ensures
            final(attack).0 == lowered(old(attack).0 as int, self.attack as int),
            final(health).0 == lowered(old(health).0 as int, self.health as int),
    {
        let a = attack.0 - self.attack;
        attack.0 = if a > 0 {
            a
        } else {
            0
        };
        let h = health.0 - self.health;
        health.0 = if h > 0 {
            h
        } else {
            0
        };
    }
}

/// The four kinds of card.
#[derive(Clone, Copy, Debug, PartialEq, Eq, Structural)]
pub enum CardType {
    Heart,
    Pitchfork,
    Sword,
    Tower,
}

impl CardType {
    /// The ability that cards of this type carry.
    pub open spec fn spec_ability(self) -> CardAbility {
        match self {
            CardType::Heart => CardAbility::HealthUpAll,
            CardType::Pitchfork => CardAbility::StrengthInNumbers,
            CardType::Sword => CardAbility::AttackUpAdjacent,
            CardType::Tower => CardAbility::HealthUpAdjacent,
        }
    }

    /// The attributes that a card of this type starts with.
    pub open spec fn spec_attributes(self) -> Attributes {
        match self {
            CardType::Heart => Attributes { attack: 1, cost: 2, health: 1 },
            CardType::Pitchfork => Attributes { attack: 1, cost: 1, health: 1 },
            CardType::Sword => Attributes { attack: 2, cost: 2, health: 2 },
            CardType::Tower => Attributes { attack: 1, cost: 2, health: 3 },
        }
    }

    /// The cards that the card `entity` of this type reaches on `board`.
    pub open spec fn spec_affects(self, entity: CardId, board: Slots) -> Seq<CardId> {
        self.spec_ability().spec_affects(entity, self, board)
    }

    /// What a card of this type grants to each card it reaches.
    pub open spec fn spec_effect(self) -> CardAbilityEffect {
        self.spec_ability().spec_effect()
    }

    pub fn ability(&self) -> (r: CardAbility)
        ensures
            r == self.spec_ability(),
    {
        match self {
            Self::Heart => CardAbility::HealthUpAll,
            Self::Pitchfork => CardAbility::StrengthInNumbers,
            Self::Sword => CardAbility::AttackUpAdjacent,
            Self::Tower => CardAbility::HealthUpAdjacent,
        }
    }

    pub fn affects(&self, entity: CardId, board: &BoardState) -> (r: Vec<CardId>)
        ensures
            r@ == self.spec_affects(entity, board@),
    {
        self.ability().affects(entity, *self, board)
    }

    pub fn attributes(&self) -> (r: Attributes)
        ensures
            r == self.spec_attributes(),
    {
        match self {
            Self::Heart => Attributes { attack: 1, cost: 2, health: 1 },
            Self::Pitchfork => Attributes { attack: 1, cost: 1, health: 1 },
            Self::Sword => Attributes { attack: 2, cost: 2, health: 2 },
            Self::Tower => Attributes { attack: 1, cost: 2, health: 3 },
        }
    }

    pub fn effect(&self) -> (r: CardAbilityEffect)
        ensures
            r == self.spec_effect(),
    {
        self.ability().effect()
    }
}

} // verus!
