use sigil_siege::cards::CardType;
use sigil_siege::deck::{card_for_roll, DeckState, OpponentState, PlayableState, PlayerState};
use sigil_siege::players::AttackedEvent;

fn player_with(cards: Vec<CardType>) -> PlayerState {
    let mut state = PlayerState::default();
    state.deck_state = DeckState::from_cards(cards);
    state
}

fn opponent_with(cards: Vec<CardType>, available_power: i32) -> OpponentState {
    let mut state = OpponentState::default();
    state.deck_state = DeckState::from_cards(cards);
    state.available_power = available_power;
    state
}

#[test]
fn rolls_map_to_card_types() {
    let expected = [
        CardType::Heart,
        CardType::Heart,
        CardType::Heart,
        CardType::Sword,
        CardType::Sword,
        CardType::Tower,
        CardType::Tower,
        CardType::Pitchfork,
        CardType::Pitchfork,
        CardType::Pitchfork,
        CardType::Pitchfork,
        CardType::Pitchfork,
    ];
    for (roll, card) in expected.iter().enumerate() {
        assert_eq!(card_for_roll(roll), *card);
    }
}

#[test]
fn a_new_deck_has_the_size_asked_for() {
    for size in [0, 1, 12, 36] {
        assert_eq!(DeckState::new(size).size(), size);
    }
}

#[test]
fn draw_at_takes_the_card_at_the_index() {
    let mut deck = DeckState::from_cards(vec![CardType::Heart, CardType::Sword, CardType::Tower]);
    assert_eq!(deck.draw_at(1), CardType::Sword);
    assert_eq!(deck.size(), 2);
    assert_eq!(deck.draw_at(1), CardType::Tower);
    assert_eq!(deck.draw_at(0), CardType::Heart);
    assert!(deck.is_empty());
}

#[test]
fn draw_takes_every_card_once() {
    let cards =
        vec![CardType::Heart, CardType::Sword, CardType::Sword, CardType::Tower, CardType::Pitchfork];
    let mut deck = DeckState::from_cards(cards.clone());
    let mut drawn = Vec::new();
    while let Some(card) = deck.draw() {
        drawn.push(card);
        assert_eq!(deck.size() as usize + drawn.len(), cards.len());
    }
    assert_eq!(drawn.len(), 5);
    for card_type in [CardType::Heart, CardType::Sword, CardType::Tower, CardType::Pitchfork] {
        let count = |cards: &Vec<CardType>| cards.iter().filter(|card| **card == card_type).count();
        assert_eq!(count(&drawn), count(&cards));
    }
    assert_eq!(deck.draw(), None);
}

#[test]
fn an_empty_deck_gives_no_card() {
    let mut player = PlayerState::default().with_deck_size(0);
    assert_eq!(player.deck_size(), 0);
    assert_eq!(player.draw_count(), 0);
    for _ in 0..3 {
        assert_eq!(player.draw_card(), None);
        assert_eq!(player.deck_size(), 0);
    }
    player.turn = 1;
    assert_eq!(player.draw_count(), 0);
}

#[test]
fn player_starts_as_set_out() {
    let player = PlayerState::default();
    assert_eq!(player.get_available_power(), 0);
    assert_eq!(player.deck_size(), 12);
    assert_eq!(player.get_health(), 10);
    assert_eq!(player.max_hand_size, 5);
    assert_eq!(player.get_max_power(), 5);
    assert_eq!(player.get_power(), 0);
    assert!(!player.sent_to_menu);
    assert_eq!(player.turn, 0);
    assert!(PlayerState::show_power());
}

#[test]
fn opponent_starts_as_set_out() {
    let opponent = OpponentState::default();
    assert_eq!(opponent.get_available_power(), 0);
    assert_eq!(opponent.deck_size(), 12);
    assert_eq!(opponent.get_health(), 12);
    assert_eq!(opponent.get_max_power(), 5);
    assert_eq!(opponent.get_power(), 0);
    assert_eq!(opponent.turn, 0);
    assert!(opponent.hand.is_empty());
    assert!(!OpponentState::show_power());
}

#[test]
fn draw_count_is_three_then_two_and_capped_by_the_deck() {
    let mut player = player_with(vec![CardType::Heart; 12]);
    assert_eq!(player.draw_count(), 3);
    player.turn = 1;
    assert_eq!(player.draw_count(), 2);
    player.turn = 7;
    assert_eq!(player.draw_count(), 2);
    let mut short = player_with(vec![CardType::Heart; 2]);
    assert_eq!(short.draw_count(), 2);
    short.deck_state = DeckState::from_cards(vec![CardType::Heart]);
    assert_eq!(short.draw_count(), 1);
    short.turn = 1;
    assert_eq!(short.draw_count(), 1);
}

#[test]
fn opponent_does_not_draw_single_cards() {
    let mut opponent = opponent_with(vec![CardType::Heart; 4], 0);
    assert_eq!(opponent.draw_card(), None);
    assert_eq!(opponent.draw_count(), 0);
    assert_eq!(opponent.deck_size(), 4);
}

#[test]
fn setters_and_damage_change_one_thing() {
    let mut player = player_with(vec![CardType::Tower; 3]);
    player.set_power(3);
    player.set_available_power(2);
    player.take_damage(4);
    assert_eq!(player.get_power(), 3);
    assert_eq!(player.get_available_power(), 2);
    assert_eq!(player.get_health(), 6);
    assert_eq!(player.deck_size(), 3);
    let mut opponent = OpponentState::default().with_health(20).with_deck_size(5);
    opponent.take_damage(2);
    assert_eq!(opponent.get_health(), 18);
    assert_eq!(opponent.deck_size(), 5);
    opponent.take_damage(30);
    assert_eq!(opponent.get_health(), -12);
}

#[test]
fn attacked_events_name_the_side() {
    assert_eq!(PlayerState::attacked_event(3), AttackedEvent::Player(3));
    assert_eq!(OpponentState::attacked_event(2), AttackedEvent::Opponent(2));
}

#[test]
fn opponent_can_play_what_it_can_pay() {
    assert!(!opponent_with(vec![CardType::Sword, CardType::Pitchfork], 0).can_play_card());
    assert!(opponent_with(vec![CardType::Sword, CardType::Pitchfork], 1).can_play_card());
    assert!(!opponent_with(vec![CardType::Sword, CardType::Tower], 1).can_play_card());
    assert!(opponent_with(vec![CardType::Sword, CardType::Tower], 2).can_play_card());
    assert!(!opponent_with(vec![], 5).can_play_card());
}

#[test]
fn opponent_plays_the_first_card_it_can_pay() {
    let mut opponent =
        opponent_with(vec![CardType::Sword, CardType::Pitchfork, CardType::Heart, CardType::Pitchfork], 1);
    assert_eq!(opponent.play_card(), Some(CardType::Pitchfork));
    assert_eq!(opponent.deck_size(), 3);
    assert_eq!(opponent.available_power, 1);
    opponent.available_power = 2;
    assert_eq!(opponent.play_card(), Some(CardType::Sword));
    assert_eq!(opponent.play_card(), Some(CardType::Heart));
    opponent.available_power = 0;
    assert_eq!(opponent.play_card(), None);
    assert_eq!(opponent.deck_size(), 1);
    assert_eq!(opponent.deck_state.first_affordable_index(1), Some(0));
    assert_eq!(opponent.deck_state.first_affordable_index(0), None);
}

#[test]
fn opponent_fills_its_hand_up_to_six() {
    let mut opponent = opponent_with(vec![CardType::Tower; 8], 0);
    opponent.draw_cards();
    assert_eq!(opponent.hand.len(), 6);
    assert_eq!(opponent.deck_size(), 2);
    opponent.draw_cards();
    assert_eq!(opponent.hand.len(), 6);
    assert_eq!(opponent.deck_size(), 2);
    let mut short = opponent_with(vec![CardType::Heart, CardType::Sword], 0);
    short.hand.push(CardType::Tower);
    short.draw_cards();
    assert_eq!(short.hand.len(), 3);
    assert_eq!(short.hand[0], CardType::Tower);
    assert_eq!(short.deck_size(), 0);
    assert!(short.hand.contains(&CardType::Heart) && short.hand.contains(&CardType::Sword));
}
