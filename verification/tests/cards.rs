use sigil_siege::board::BoardState;
use sigil_siege::cards::{
    Attack, Attribute, Attributes, CardAbility, CardAbilityEffect, CardType, Cost, Health,
    ABILITY_MAX,
};

#[test]
fn attributes_of_each_card_type() {
    assert_eq!(CardType::Heart.attributes(), Attributes { attack: 1, cost: 2, health: 1 });
    assert_eq!(CardType::Pitchfork.attributes(), Attributes { attack: 1, cost: 1, health: 1 });
    assert_eq!(CardType::Sword.attributes(), Attributes { attack: 2, cost: 2, health: 2 });
    assert_eq!(CardType::Tower.attributes(), Attributes { attack: 1, cost: 2, health: 3 });
}

#[test]
fn ability_of_each_card_type() {
    assert_eq!(CardType::Heart.ability(), CardAbility::HealthUpAll);
    assert_eq!(CardType::Pitchfork.ability(), CardAbility::StrengthInNumbers);
    assert_eq!(CardType::Sword.ability(), CardAbility::AttackUpAdjacent);
    assert_eq!(CardType::Tower.ability(), CardAbility::HealthUpAdjacent);
}

#[test]
fn effect_of_each_ability() {
    let attack_up = CardAbilityEffect { attack: 1, health: 0 };
    let health_up = CardAbilityEffect { attack: 0, health: 1 };
    assert_eq!(CardAbility::AttackUpAdjacent.effect(), attack_up);
    assert_eq!(CardAbility::StrengthInNumbers.effect(), attack_up);
    assert_eq!(CardAbility::HealthUpAdjacent.effect(), health_up);
    assert_eq!(CardAbility::HealthUpAll.effect(), health_up);
    assert_eq!(CardType::Sword.effect(), attack_up);
    assert_eq!(CardType::Heart.effect(), health_up);
}

#[test]
fn ability_ceiling_is_four() {
    assert_eq!(ABILITY_MAX, 4);
}

#[test]
fn apply_raises_up_to_the_ceiling() {
    let effect = CardAbilityEffect { attack: 1, health: 1 };
    let mut attack = Attack(2);
    let mut health = Health(4);
    effect.apply(&mut attack, &mut health);
    assert_eq!(attack, Attack(3));
    assert_eq!(health, Health(4));
}

#[test]
fn remove_lowers_down_to_zero() {
    let effect = CardAbilityEffect { attack: 1, health: 1 };
    let mut attack = Attack(0);
    let mut health = Health(3);
    effect.remove(&mut attack, &mut health);
    assert_eq!(attack, Attack(0));
    assert_eq!(health, Health(2));
}

#[test]
fn apply_then_remove_is_a_round_trip_below_the_ceiling() {
    for start in 0..=3 {
        let effect = CardAbilityEffect { attack: 1, health: 1 };
        let mut attack = Attack(start);
        let mut health = Health(start);
        effect.apply(&mut attack, &mut health);
        effect.remove(&mut attack, &mut health);
        assert_eq!(attack, Attack(start));
        assert_eq!(health, Health(start));
    }
}

#[test]
fn apply_then_remove_at_the_ceiling_loses_one() {
    let effect = CardAbilityEffect { attack: 1, health: 0 };
    let mut attack = Attack(4);
    let mut health = Health(4);
    effect.apply(&mut attack, &mut health);
    assert_eq!((attack, health), (Attack(4), Health(4)));
    effect.remove(&mut attack, &mut health);
    assert_eq!((attack, health), (Attack(3), Health(4)));
}

#[test]
fn apply_then_remove_stays_within_bounds() {
    for start in -3..=8 {
        for delta in 0..=1 {
            let effect = CardAbilityEffect { attack: delta, health: 1 - delta };
            let mut attack = Attack(start);
            let mut health = Health(start);
            effect.apply(&mut attack, &mut health);
            effect.remove(&mut attack, &mut health);
            assert!((0..=4).contains(&attack.0));
            assert!((0..=4).contains(&health.0));
        }
    }
}

#[test]
fn attributes_can_be_read_and_set() {
    let mut attack = Attack(1);
    let mut cost = Cost(2);
    let mut health = Health(3);
    assert_eq!((attack.get(), cost.get(), health.get()), (1, 2, 3));
    attack.set(4);
    cost.set(0);
    health.set(-1);
    assert_eq!((attack.get(), cost.get(), health.get()), (4, 0, -1));
}

fn row(cards: &[(u32, u64, CardType)]) -> BoardState {
    let mut board = BoardState::new();
    for (index, id, card_type) in cards {
        board.place(*index, *id, *card_type);
    }
    board
}

#[test]
fn adjacent_abilities_affect_the_neighbours() {
    let board = row(&[
        (0, 10, CardType::Pitchfork),
        (1, 11, CardType::Sword),
        (2, 12, CardType::Tower),
        (3, 13, CardType::Heart),
    ]);
    assert_eq!(CardType::Sword.affects(11, &board), vec![10, 12]);
    assert_eq!(CardType::Tower.affects(12, &board), vec![11, 13]);
    assert_eq!(CardAbility::AttackUpAdjacent.affects(10, CardType::Sword, &board), vec![11]);
    assert_eq!(CardAbility::HealthUpAdjacent.affects(13, CardType::Tower, &board), vec![12]);
}

#[test]
fn adjacent_abilities_skip_free_slots_and_absent_cards() {
    let board = row(&[(0, 10, CardType::Sword), (2, 12, CardType::Sword)]);
    assert_eq!(CardType::Sword.affects(10, &board), Vec::<u64>::new());
    assert_eq!(CardType::Sword.affects(99, &board), Vec::<u64>::new());
}

#[test]
fn heart_affects_every_other_occupant() {
    let board = row(&[
        (0, 10, CardType::Pitchfork),
        (2, 12, CardType::Heart),
        (3, 13, CardType::Sword),
    ]);
    assert_eq!(CardType::Heart.affects(12, &board), vec![10, 13]);
}

#[test]
fn pitchfork_affects_the_other_pitchforks() {
    let board = row(&[
        (0, 10, CardType::Pitchfork),
        (1, 11, CardType::Sword),
        (2, 12, CardType::Pitchfork),
        (3, 13, CardType::Pitchfork),
    ]);
    assert_eq!(CardType::Pitchfork.affects(12, &board), vec![10, 13]);
    assert_eq!(CardAbility::StrengthInNumbers.affects(11, CardType::Sword, &board), Vec::<u64>::new());
}
