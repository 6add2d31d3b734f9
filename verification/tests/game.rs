use sigil_siege::board::Board;
use sigil_siege::cards::CardType;
use sigil_siege::deck::{DeckState, OpponentState, PlayableState, PlayerState};
use sigil_siege::game::MatchState;
use sigil_siege::hand::CardPlayedEvent;
use sigil_siege::menu::GameConfig;
use sigil_siege::players::AttackedEvent;
use sigil_siege::states::GameState;

fn sides(
    player_deck: Vec<CardType>,
    player_power: u32,
    opponent_deck: Vec<CardType>,
    opponent_power: u32,
    opponent_health: i32,
) -> MatchState {
    let mut player = PlayerState::default();
    player.deck_state = DeckState::from_cards(player_deck);
    player.power = player_power;
    let mut opponent = OpponentState::default().with_health(opponent_health);
    opponent.deck_state = DeckState::from_cards(opponent_deck);
    opponent.power = opponent_power;
    opponent.available_power = opponent_power as i32;
    MatchState::from_sides(player, opponent)
}

fn started(player_deck: Vec<CardType>, player_power: u32) -> MatchState {
    let mut game = sides(player_deck, player_power, vec![], 0, 20);
    assert!(game.setup_game());
    game.draw_cards();
    game
}

fn attack_of(game: &MatchState, id: u64) -> i32 {
    game.player_cards.get(id).unwrap().attack.0
}

fn health_of(game: &MatchState, id: u64) -> i32 {
    game.player_cards.get(id).unwrap().health.0
}

fn play(game: &mut MatchState, card_type: CardType, slot: u32) -> u64 {
    let position = game
        .hand
        .iter()
        .position(|id| game.player_cards.get(*id).unwrap().card_type == card_type)
        .unwrap();
    assert!(game.pick_from_hand(position));
    let event = game.play_card(slot).unwrap();
    assert_eq!(event.index as usize, position);
    event.entity
}

#[test]
fn a_match_from_a_menu_choice() {
    let game = MatchState::new(&GameConfig { deck_size: 24, opponent_hp: 48 });
    assert_eq!(game.state, GameState::StartGame);
    assert_eq!(game.player_state.deck_size(), 24);
    assert_eq!(game.opponent_state.deck_size(), 24);
    assert_eq!(game.opponent_state.get_health(), 48);
    assert_eq!(game.player_state.get_health(), 10);
    assert!(game.hand.is_empty());
    assert!(game.player_board.all().is_empty());
    assert!(game.opponent_board.all().is_empty());
}

#[test]
fn the_first_turn_draws_three_and_gives_one_power() {
    let mut game = sides(vec![CardType::Pitchfork; 12], 0, vec![], 0, 20);
    assert!(!game.end_turn());
    assert!(game.draw_cards().is_empty());
    assert!(game.setup_game());
    assert!(!game.setup_game());
    assert_eq!(game.state, GameState::PlayerTurn);
    assert_eq!(game.to_draw, 3);
    assert_eq!(game.player_state.turn, 1);
    assert_eq!((game.player_state.power, game.player_state.available_power), (1, 1));
    assert_eq!(game.draw_cards(), vec![0, 1, 2]);
    assert_eq!(game.hand, vec![0, 1, 2]);
    assert_eq!(game.to_draw, 0);
    assert_eq!(game.player_state.deck_size(), 9);
    assert!(game.draw_cards().is_empty());
    assert_eq!(game.hand.len(), 3);
}

#[test]
fn drawing_from_an_empty_deck_changes_nothing() {
    let mut game = started(vec![], 0);
    assert!(game.hand.is_empty());
    assert_eq!(game.player_state.draw_card(), None);
    assert_eq!(game.player_state.draw_count(), 0);
    game.to_draw = 2;
    assert!(game.draw_cards().is_empty());
    assert!(game.hand.is_empty());
    assert_eq!(game.to_draw, 0);
}

#[test]
fn the_hand_is_never_filled_past_its_size() {
    let mut game = started(vec![CardType::Heart; 12], 0);
    for _ in 0..3 {
        game.take_into_hand(CardType::Heart);
    }
    assert_eq!(game.hand.len(), 6);
    game.to_draw = 2;
    assert!(game.draw_cards().is_empty());
    assert_eq!(game.hand.len(), 6);
    assert_eq!(game.player_state.deck_size(), 9);
}

#[test]
fn a_card_that_costs_too_much_cannot_be_picked() {
    let mut game = started(vec![CardType::Sword], 0);
    assert_eq!(game.player_state.available_power, 1);
    assert!(!game.pick_from_hand(0));
    assert_eq!(game.picked, None);
    assert_eq!(game.play_card(0), None);
    assert!(!game.pick_from_hand(5));
    assert_eq!(game.hand, vec![0]);
}

#[test]
fn playing_a_card_pays_its_cost() {
    let mut game = started(vec![CardType::Sword, CardType::Pitchfork], 2);
    assert_eq!(game.player_state.available_power, 3);
    let sword = play(&mut game, CardType::Sword, 2);
    assert_eq!(game.player_state.available_power, 1);
    assert_eq!(game.player_state.power, 3);
    assert_eq!(game.hand.len(), 1);
    assert_eq!(game.picked, None);
    assert!(!game.player_board.unoccupied(2));
    assert_eq!(game.play_card(1), None);
    let fork = play(&mut game, CardType::Pitchfork, 1);
    assert_eq!(game.player_state.available_power, 0);
    assert!(game.hand.is_empty());
    assert_eq!(attack_of(&game, fork), 2);
    assert_eq!(attack_of(&game, sword), 2);
}

#[test]
fn a_taken_slot_or_a_slot_off_the_board_is_declined() {
    let mut game = started(vec![CardType::Pitchfork, CardType::Pitchfork], 1);
    play(&mut game, CardType::Pitchfork, 0);
    assert!(game.pick_from_hand(0));
    assert_eq!(game.play_card(0), None);
    assert_eq!(game.play_card(4), None);
    assert_eq!(game.player_state.available_power, 1);
    assert_eq!(game.hand.len(), 1);
    assert_eq!(game.play_card(3), Some(CardPlayedEvent { entity: game.picked.unwrap_or(1), index: 0 }));
}

#[test]
fn a_sword_with_nothing_opposite_hits_the_opponent() {
    let mut game = started(vec![CardType::Sword], 1);
    let sword = play(&mut game, CardType::Sword, 0);
    assert!(game.attack().is_empty());
    assert!(game.end_turn());
    assert_eq!(game.state, GameState::PlayerAttacking);
    assert_eq!(game.attackers, vec![sword]);
    assert!(game.attack_finished(false).is_empty());
    assert_eq!(game.state, GameState::PlayerAttacking);
    assert_eq!(game.attack(), vec![AttackedEvent::Opponent(2)]);
    assert_eq!(game.opponent_state.get_health(), 18);
    assert!(game.attackers.is_empty());
    assert!(game.attack().is_empty());
    assert_eq!(game.opponent_state.get_health(), 18);
    assert!(game.attack_finished(true).is_empty());
    assert_eq!(game.state, GameState::PlayerAttacking);
    assert!(game.attack_finished(false).is_empty());
    assert_eq!(game.state, GameState::OpponentPlayCards);
}

#[test]
fn two_pitchforks_side_by_side() {
    let mut game = started(vec![CardType::Pitchfork, CardType::Pitchfork], 1);
    let first = play(&mut game, CardType::Pitchfork, 0);
    assert_eq!(attack_of(&game, first), 1);
    let second = play(&mut game, CardType::Pitchfork, 1);
    assert_eq!((attack_of(&game, first), attack_of(&game, second)), (2, 2));
    assert_eq!((health_of(&game, first), health_of(&game, second)), (1, 1));
}

#[test]
fn a_round_goes_through_all_five_phases() {
    let mut game = sides(vec![CardType::Pitchfork; 4], 0, vec![CardType::Pitchfork; 3], 1, 20);
    assert!(game.setup_game());
    assert_eq!(game.draw_cards().len(), 3);
    let fork = play(&mut game, CardType::Pitchfork, 0);
    assert_eq!(game.play_opponent_cards(false), None);
    assert!(!game.end_turn_opponent());
    assert!(game.end_turn());
    assert_eq!(game.attack(), vec![AttackedEvent::Opponent(1)]);
    game.attack_finished(false);
    assert_eq!(game.state, GameState::OpponentPlayCards);

    let played = game.play_opponent_cards(false).unwrap();
    assert!(played.index < 4);
    assert_eq!(game.opponent_state.available_power, 0);
    assert_eq!(game.opponent_state.deck_size(), 2);
    assert!(!game.opponent_board.unoccupied(played.index));
    assert!(game.opponent_cards.contains(played.entity));
    assert_ne!(played.entity, fork);
    assert_eq!(game.play_opponent_cards(true), None);
    assert_eq!(game.state, GameState::OpponentPlayCards);
    assert_eq!(game.play_opponent_cards(false), None);
    assert_eq!(game.state, GameState::OpponentTurn);
    assert_eq!((game.opponent_state.power, game.opponent_state.available_power), (2, 2));
    assert_eq!(game.opponent_state.hand.len(), 2);
    assert_eq!(game.opponent_state.deck_size(), 0);

    assert!(game.end_turn_opponent());
    assert_eq!(game.state, GameState::OpponentAttacking);
    let events = game.attack();
    if played.index == 0 {
        assert!(events.is_empty());
        assert_eq!(game.attack_finished(false), vec![fork]);
        assert!(game.player_board.unoccupied(0));
    } else {
        assert_eq!(events, vec![AttackedEvent::Player(1)]);
        assert_eq!(game.player_state.get_health(), 9);
        assert!(game.attack_finished(false).is_empty());
    }
    assert_eq!(game.state, GameState::PlayerTurn);
    assert_eq!(game.player_state.turn, 2);
    assert_eq!((game.player_state.power, game.player_state.available_power), (2, 2));
    assert_eq!(game.to_draw, 1);
    assert_eq!(game.draw_cards().len(), 1);
    assert_eq!(game.hand.len(), 3);
}

#[test]
fn the_opponent_plays_into_the_slot_given() {
    let mut game = sides(
        vec![],
        0,
        vec![CardType::Sword, CardType::Pitchfork, CardType::Tower],
        3,
        20,
    );
    assert_eq!(game.play_opponent_card_at(0), None);
    game.setup_game();
    game.end_turn();
    game.attack();
    game.attack_finished(false);
    assert_eq!(game.state, GameState::OpponentPlayCards);
    assert_eq!(game.play_opponent_card_at(4), None);
    assert_eq!(game.play_opponent_card_at(1), Some(CardPlayedEvent { entity: 0, index: 1 }));
    assert_eq!(game.opponent_cards.get(0).unwrap().card_type, CardType::Sword);
    assert_eq!(game.opponent_state.available_power, 1);
    assert_eq!(game.play_opponent_card_at(1), None);
    assert_eq!(game.play_opponent_card_at(2), Some(CardPlayedEvent { entity: 1, index: 2 }));
    assert_eq!(game.opponent_cards.get(1).unwrap().card_type, CardType::Pitchfork);
    assert_eq!(game.opponent_cards.get(1).unwrap().attack.0, 2);
    assert_eq!(game.opponent_state.available_power, 0);
    assert_eq!(game.play_opponent_card_at(3), None);
    assert_eq!(game.opponent_state.deck_size(), 1);
    assert_eq!(game.next_id, 2);
}

#[test]
fn the_player_wins_when_the_opponent_runs_out_of_health() {
    let mut game = sides(vec![CardType::Sword], 1, vec![], 0, 2);
    game.setup_game();
    game.draw_cards();
    play(&mut game, CardType::Sword, 3);
    game.end_turn();
    assert_eq!(game.attack(), vec![AttackedEvent::Opponent(2)]);
    assert_eq!(game.opponent_state.get_health(), 0);
    assert_eq!(game.state, GameState::Win);
    assert!(game.attack_finished(false).is_empty());
    assert_eq!(game.state, GameState::Win);
    assert!(!game.end_turn());
    assert_eq!(game.play_opponent_cards(false), None);
    assert_eq!(game.state, GameState::Win);
}

#[test]
fn the_player_loses_when_out_of_health() {
    let mut game = sides(vec![], 0, vec![CardType::Sword], 2, 20);
    game.player_state.health = 2;
    game.setup_game();
    game.end_turn();
    game.attack();
    game.attack_finished(false);
    assert!(game.play_opponent_cards(false).is_some());
    assert_eq!(game.play_opponent_cards(false), None);
    assert!(game.end_turn_opponent());
    assert_eq!(game.attack(), vec![AttackedEvent::Player(2)]);
    assert_eq!(game.player_state.get_health(), 0);
    assert_eq!(game.state, GameState::Lose);
    assert!(game.attack_finished(false).is_empty());
    assert_eq!(game.state, GameState::Lose);
}

#[test]
fn no_card_stands_in_two_slots() {
    let mut game = sides(vec![CardType::Pitchfork; 3], 2, vec![CardType::Pitchfork; 4], 4, 20);
    game.setup_game();
    game.draw_cards();
    for slot in 0..3 {
        play(&mut game, CardType::Pitchfork, slot);
    }
    game.end_turn();
    game.attack();
    game.attack_finished(false);
    while game.play_opponent_cards(false).is_some() {}
    let mut ids: Vec<u64> = game.player_board.all().iter().map(|p| p.entity).collect();
    ids.extend(game.opponent_board.all().iter().map(|p| p.entity));
    assert_eq!(ids.len(), 7);
    let mut unique = ids.clone();
    unique.sort();
    unique.dedup();
    assert_eq!(unique.len(), ids.len());
    assert_eq!(game.hand_position(99), None);
}
