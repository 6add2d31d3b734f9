use sigil_siege::board::{Board, BoardPlacement, BoardState, OpponentBoard, PlayerBoard};
use sigil_siege::cards::CardType;

fn placement(entity: u64, card_type: CardType) -> BoardPlacement {
    BoardPlacement { entity, card_type }
}

#[test]
fn a_new_board_has_four_free_slots() {
    let board = BoardState::new();
    for index in 0..4 {
        assert!(board.unoccupied(index));
        assert_eq!(board.get(index as usize), None);
    }
    assert!(board.all().is_empty());
    assert!(board.has_empty_place());
}

#[test]
fn place_fills_the_slot_and_overwrites() {
    let mut board = BoardState::new();
    board.place(2, 7, CardType::Sword);
    assert!(!board.unoccupied(2));
    assert!(board.unoccupied(1));
    assert_eq!(board.get(2), Some(placement(7, CardType::Sword)));
    board.place(2, 8, CardType::Tower);
    assert_eq!(board.get(2), Some(placement(8, CardType::Tower)));
    assert_eq!(board.position(7), None);
    assert_eq!(board.position(8), Some(2));
}

#[test]
fn adjacent_gives_the_neighbours_without_wrapping() {
    let mut board = BoardState::new();
    board.place(0, 1, CardType::Heart);
    board.place(1, 2, CardType::Sword);
    board.place(3, 4, CardType::Tower);
    assert_eq!(board.adjacent(1), (None, Some(placement(2, CardType::Sword))));
    assert_eq!(board.adjacent(2), (Some(placement(1, CardType::Heart)), None));
    assert_eq!(board.adjacent(4), (None, None));
    assert_eq!(board.adjacent(99), (None, None));
}

#[test]
fn others_lists_the_rest_in_slot_order() {
    let mut board = BoardState::new();
    board.place(3, 4, CardType::Tower);
    board.place(0, 1, CardType::Pitchfork);
    board.place(2, 3, CardType::Pitchfork);
    assert_eq!(
        board.all(),
        vec![
            placement(1, CardType::Pitchfork),
            placement(3, CardType::Pitchfork),
            placement(4, CardType::Tower)
        ]
    );
    assert_eq!(
        board.others(3),
        vec![placement(1, CardType::Pitchfork), placement(4, CardType::Tower)]
    );
    assert_eq!(board.others(99).len(), 3);
    assert_eq!(board.others_of_type(3, CardType::Pitchfork), vec![placement(1, CardType::Pitchfork)]);
    assert_eq!(board.others_of_type(3, CardType::Heart), vec![]);
}

#[test]
fn remove_frees_the_slot_of_the_card() {
    let mut board = BoardState::new();
    board.place(1, 5, CardType::Sword);
    board.place(2, 6, CardType::Sword);
    board.remove(5);
    assert!(board.unoccupied(1));
    assert!(!board.unoccupied(2));
    board.remove(5);
    assert_eq!(board.all(), vec![placement(6, CardType::Sword)]);
}

#[test]
fn across_gives_the_card_opposite() {
    let mut player = PlayerBoard::new();
    let mut opponent = OpponentBoard::new();
    player.place(0, 1, CardType::Sword);
    player.place(2, 2, CardType::Tower);
    opponent.place(2, 9, CardType::Heart);
    assert_eq!(player.across(opponent.state(), 1), None);
    assert_eq!(player.across(opponent.state(), 2), Some(placement(9, CardType::Heart)));
    assert_eq!(player.across(opponent.state(), 77), None);
    assert_eq!(opponent.across(player.state(), 9), Some(placement(2, CardType::Tower)));
}

#[test]
fn board_trait_forwards_to_the_state() {
    let mut board = PlayerBoard::new();
    assert!(board.unoccupied(0));
    board.place(0, 3, CardType::Pitchfork);
    board.place(1, 4, CardType::Pitchfork);
    assert!(!board.unoccupied(0));
    assert_eq!(board.all().len(), 2);
    assert_eq!(board.adjacent(3), (None, Some(placement(4, CardType::Pitchfork))));
    assert_eq!(board.others(3), vec![placement(4, CardType::Pitchfork)]);
    assert_eq!(board.others_of_type(3, CardType::Pitchfork), vec![placement(4, CardType::Pitchfork)]);
    board.remove(3);
    assert!(board.unoccupied(0));
    board.state_mut().place(3, 8, CardType::Heart);
    assert_eq!(board.state().get(3), Some(placement(8, CardType::Heart)));
}

#[test]
fn empty_place_from_goes_round_the_row() {
    let mut board = BoardState::new();
    board.place(1, 1, CardType::Sword);
    board.place(2, 2, CardType::Sword);
    assert_eq!(board.empty_place_from(0), Some(0));
    assert_eq!(board.empty_place_from(1), Some(3));
    assert_eq!(board.empty_place_from(2), Some(3));
    assert_eq!(board.empty_place_from(3), Some(3));
    board.place(3, 3, CardType::Sword);
    assert_eq!(board.empty_place_from(1), Some(0));
    board.place(0, 4, CardType::Sword);
    assert_eq!(board.empty_place_from(2), None);
    assert!(!board.has_empty_place());
}

#[test]
fn random_empty_place_finds_a_free_slot() {
    let mut board = OpponentBoard::new();
    board.place(0, 1, CardType::Sword);
    board.place(1, 2, CardType::Sword);
    board.place(3, 3, CardType::Sword);
    assert!(board.has_empty_place());
    for _ in 0..50 {
        assert_eq!(board.random_empty_place(), Some(2));
    }
    board.place(2, 4, CardType::Sword);
    assert!(!board.has_empty_place());
    assert_eq!(board.random_empty_place(), None);
}

#[test]
fn random_empty_place_reaches_every_free_slot() {
    let board = OpponentBoard::new();
    let mut seen = [false; 4];
    for _ in 0..400 {
        let index = board.random_empty_place().unwrap();
        assert!(index < 4);
        seen[index as usize] = true;
    }
    assert_eq!(seen, [true; 4]);
}
