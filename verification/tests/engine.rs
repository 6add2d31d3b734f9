use sigil_siege::abilities::{apply_ability, names, receive_ability};
use sigil_siege::arena::{CardArena, CardInstance};
use sigil_siege::board::{Board, OpponentBoard, PlayerBoard};
use sigil_siege::cards::{Attack, CardAbilityEffect, CardType, Cost, Health};
use sigil_siege::cascade::{first_lethal_slot, remove_killed, resolve_kills};
use sigil_siege::combat::{apply_damage, attack, mark_attackers};
use sigil_siege::deck::{OpponentState, PlayableState, PlayerState};
use sigil_siege::players::{AttackedEvent, Damage};

/// Puts a new card on the board the way a play does: place, grant, receive.
fn enter<B: Board>(board: &mut B, cards: &mut CardArena, index: u32, id: u64, card_type: CardType) {
    cards.insert(id, CardInstance::new(card_type));
    board.place(index, id, card_type);
    apply_ability(board.state(), cards, id);
    receive_ability(board.state(), cards, id);
}

fn stats(cards: &CardArena, id: u64) -> (i32, i32) {
    let card = cards.get(id).unwrap();
    (card.attack.0, card.health.0)
}

fn hurt(cards: &mut CardArena, id: u64, health: i32) {
    let card = cards.get(id).unwrap();
    cards.insert(id, CardInstance { health: Health(health), ..card });
}

#[test]
fn a_new_card_has_the_attributes_of_its_type() {
    let sword = CardInstance::new(CardType::Sword);
    assert_eq!(sword.card_type, CardType::Sword);
    assert_eq!((sword.attack, sword.health, sword.cost), (Attack(2), Health(2), Cost(2)));
    assert_eq!(sword.damage, None);
    let tower = CardInstance::new(CardType::Tower);
    assert_eq!((tower.attack, tower.health, tower.cost), (Attack(1), Health(3), Cost(2)));
}

#[test]
fn arena_keeps_cards_by_identity() {
    let mut cards = CardArena::new();
    assert!(!cards.contains(1));
    assert_eq!(cards.get(1), None);
    cards.insert(1, CardInstance::new(CardType::Heart));
    cards.insert(2, CardInstance::new(CardType::Sword));
    assert!(cards.contains(1));
    assert_eq!(cards.get(2), Some(CardInstance::new(CardType::Sword)));
    assert_eq!(cards.remove(1), Some(CardInstance::new(CardType::Heart)));
    assert_eq!(cards.remove(1), None);
    assert!(!cards.contains(1));
}

#[test]
fn grant_and_revoke_change_one_card() {
    let mut cards = CardArena::new();
    cards.insert(1, CardInstance::new(CardType::Sword));
    cards.insert(2, CardInstance::new(CardType::Sword));
    let attack_up = CardAbilityEffect { attack: 1, health: 0 };
    cards.grant(1, &attack_up);
    cards.grant(9, &attack_up);
    assert_eq!(stats(&cards, 1), (3, 2));
    assert_eq!(stats(&cards, 2), (2, 2));
    cards.grant_all(&vec![1, 2, 1], &attack_up);
    assert_eq!(stats(&cards, 1), (4, 2));
    assert_eq!(stats(&cards, 2), (3, 2));
    cards.revoke(2, &attack_up);
    assert_eq!(stats(&cards, 2), (2, 2));
    cards.revoke_all(&vec![1, 2], &CardAbilityEffect { attack: 0, health: 1 });
    assert_eq!(stats(&cards, 1), (4, 1));
    assert_eq!(stats(&cards, 2), (2, 1));
}

#[test]
fn names_finds_an_identity() {
    assert!(names(&vec![3, 5, 8], 5));
    assert!(!names(&vec![3, 5, 8], 4));
    assert!(!names(&vec![], 0));
}

#[test]
fn two_pitchforks_strengthen_each_other() {
    let mut board = PlayerBoard::new();
    let mut cards = CardArena::new();
    enter(&mut board, &mut cards, 0, 1, CardType::Pitchfork);
    assert_eq!(stats(&cards, 1), (1, 1));
    enter(&mut board, &mut cards, 1, 2, CardType::Pitchfork);
    assert_eq!(stats(&cards, 1), (2, 1));
    assert_eq!(stats(&cards, 2), (2, 1));
    hurt(&mut cards, 2, 0);
    assert_eq!(remove_killed(&mut board, &mut cards), Some(2));
    assert_eq!(stats(&cards, 1), (1, 1));
    assert!(!cards.contains(2));
    assert!(board.unoccupied(1));
    assert_eq!(remove_killed(&mut board, &mut cards), None);
}

#[test]
fn a_tower_shelters_its_neighbours() {
    let mut board = PlayerBoard::new();
    let mut cards = CardArena::new();
    enter(&mut board, &mut cards, 0, 1, CardType::Pitchfork);
    enter(&mut board, &mut cards, 2, 3, CardType::Pitchfork);
    enter(&mut board, &mut cards, 1, 2, CardType::Tower);
    assert_eq!(stats(&cards, 1), (2, 2));
    assert_eq!(stats(&cards, 3), (2, 2));
    assert_eq!(stats(&cards, 2), (1, 3));
    hurt(&mut cards, 2, 0);
    assert_eq!(resolve_kills(&mut board, &mut cards), vec![2]);
    assert_eq!(stats(&cards, 1), (2, 1));
    assert_eq!(stats(&cards, 3), (2, 1));
    assert!(board.unoccupied(1));
}

#[test]
fn a_tower_placed_first_shelters_those_who_come() {
    let mut board = PlayerBoard::new();
    let mut cards = CardArena::new();
    enter(&mut board, &mut cards, 1, 2, CardType::Tower);
    enter(&mut board, &mut cards, 0, 1, CardType::Pitchfork);
    enter(&mut board, &mut cards, 3, 4, CardType::Pitchfork);
    assert_eq!(stats(&cards, 1), (2, 2));
    assert_eq!(stats(&cards, 4), (2, 1));
    assert_eq!(stats(&cards, 2), (1, 3));
}

#[test]
fn auras_stop_at_the_ceiling() {
    let mut board = PlayerBoard::new();
    let mut cards = CardArena::new();
    enter(&mut board, &mut cards, 0, 1, CardType::Tower);
    enter(&mut board, &mut cards, 1, 2, CardType::Heart);
    assert_eq!(stats(&cards, 1), (1, 4));
    enter(&mut board, &mut cards, 2, 3, CardType::Heart);
    assert_eq!(stats(&cards, 1), (1, 4));
    assert_eq!(stats(&cards, 2), (1, 3));
    assert_eq!(stats(&cards, 3), (1, 2));
}

#[test]
fn killing_an_emitter_can_kill_whom_it_sheltered() {
    let mut board = PlayerBoard::new();
    let mut cards = CardArena::new();
    enter(&mut board, &mut cards, 0, 1, CardType::Pitchfork);
    enter(&mut board, &mut cards, 1, 2, CardType::Tower);
    enter(&mut board, &mut cards, 2, 3, CardType::Pitchfork);
    hurt(&mut cards, 3, 1);
    hurt(&mut cards, 2, 0);
    assert_eq!(first_lethal_slot(board.state(), &cards), Some(1));
    assert_eq!(resolve_kills(&mut board, &mut cards), vec![2, 3]);
    assert_eq!(stats(&cards, 1), (1, 1));
    assert_eq!(board.all().len(), 1);
    assert_eq!(first_lethal_slot(board.state(), &cards), None);
    assert_eq!(resolve_kills(&mut board, &mut cards), Vec::<u64>::new());
}

#[test]
fn the_cascade_takes_the_lowest_slot_first() {
    let mut board = OpponentBoard::new();
    let mut cards = CardArena::new();
    for (index, id) in [(3, 13), (0, 10), (2, 12)] {
        cards.insert(id, CardInstance::new(CardType::Sword));
        board.place(index, id, CardType::Sword);
        hurt(&mut cards, id, 0);
    }
    assert_eq!(resolve_kills(&mut board, &mut cards), vec![10, 12, 13]);
    assert!(board.all().is_empty());
}

#[test]
fn an_attacker_with_nothing_opposite_hits_the_face() {
    let mut player = PlayerBoard::new();
    let opponent = OpponentBoard::new();
    let mut player_cards = CardArena::new();
    let mut opponent_cards = CardArena::new();
    let mut opponent_state = OpponentState::default().with_health(20);
    enter(&mut player, &mut player_cards, 0, 1, CardType::Sword);
    let attackers = mark_attackers(&player);
    assert_eq!(attackers, vec![1]);
    let events = attack(
        &attackers,
        &player,
        &opponent,
        &player_cards,
        &mut opponent_cards,
        &mut opponent_state,
    );
    assert_eq!(events, vec![AttackedEvent::Opponent(2)]);
    assert_eq!(opponent_state.get_health(), 18);
}

#[test]
fn swords_facing_each_other_trade_blows() {
    let mut player = PlayerBoard::new();
    let mut opponent = OpponentBoard::new();
    let mut player_cards = CardArena::new();
    let mut opponent_cards = CardArena::new();
    let mut opponent_state = OpponentState::default().with_health(20);
    enter(&mut player, &mut player_cards, 0, 1, CardType::Sword);
    enter(&mut opponent, &mut opponent_cards, 0, 2, CardType::Sword);
    let events = attack(
        &mark_attackers(&player),
        &player,
        &opponent,
        &player_cards,
        &mut opponent_cards,
        &mut opponent_state,
    );
    assert!(events.is_empty());
    assert_eq!(opponent_state.get_health(), 20);
    assert_eq!(opponent_cards.get(2).unwrap().damage, Some(Damage(2)));
    assert_eq!(stats(&opponent_cards, 2), (2, 2));
    apply_damage(&opponent, &mut opponent_cards);
    assert_eq!(stats(&opponent_cards, 2), (2, 0));
    assert_eq!(opponent_cards.get(2).unwrap().damage, None);
    assert_eq!(resolve_kills(&mut opponent, &mut opponent_cards), vec![2]);
    assert!(opponent.unoccupied(0));
    assert!(!opponent_cards.contains(2));
    assert_eq!(stats(&player_cards, 1), (2, 2));
}

#[test]
fn each_attacker_strikes_once_in_slot_order() {
    let mut opponent = OpponentBoard::new();
    let mut player = PlayerBoard::new();
    let mut opponent_cards = CardArena::new();
    let mut player_cards = CardArena::new();
    let mut player_state = PlayerState::default();
    enter(&mut opponent, &mut opponent_cards, 0, 1, CardType::Sword);
    enter(&mut opponent, &mut opponent_cards, 1, 2, CardType::Pitchfork);
    enter(&mut opponent, &mut opponent_cards, 3, 3, CardType::Tower);
    enter(&mut player, &mut player_cards, 1, 9, CardType::Tower);
    let attackers = mark_attackers(&opponent);
    assert_eq!(attackers, vec![1, 2, 3]);
    let events = attack(
        &attackers,
        &opponent,
        &player,
        &opponent_cards,
        &mut player_cards,
        &mut player_state,
    );
    assert_eq!(events, vec![AttackedEvent::Player(2), AttackedEvent::Player(1)]);
    assert_eq!(player_state.get_health(), 7);
    assert_eq!(player_cards.get(9).unwrap().damage, Some(Damage(2)));
    apply_damage(&player, &mut player_cards);
    assert_eq!(stats(&player_cards, 9), (1, 1));
    assert_eq!(resolve_kills(&mut player, &mut player_cards), Vec::<u64>::new());
}

#[test]
fn damage_does_not_take_health_below_zero() {
    let mut board = PlayerBoard::new();
    let mut cards = CardArena::new();
    enter(&mut board, &mut cards, 0, 1, CardType::Pitchfork);
    let card = cards.get(1).unwrap();
    cards.insert(1, CardInstance { damage: Some(Damage(4)), ..card });
    apply_damage(&board, &mut cards);
    assert_eq!(stats(&cards, 1), (1, 0));
}
