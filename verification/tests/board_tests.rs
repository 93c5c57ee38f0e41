use dice_game::board::{advance, Board, Tile, BOARD_SIZE};

#[test]
fn board_has_the_fixed_layout() {
    let board = Board::new();
    let expected = [
        Tile::Go,
        Tile::Wreck,
        Tile::Improve,
        Tile::Sabotage,
        Tile::SumDuel,
        Tile::Swap,
        Tile::Improve,
        Tile::Wreck,
        Tile::ProductDuel,
        Tile::Sabotage,
        Tile::Improve,
        Tile::Wreck,
        Tile::SumDuel,
        Tile::Swap,
        Tile::Improve,
        Tile::Sabotage,
    ];
    assert_eq!(BOARD_SIZE, 16);
    for location in 0..BOARD_SIZE {
        assert_eq!(board.tile(location), expected[location]);
    }
}

#[test]
fn tiles_that_need_an_opponent() {
    assert!(!Tile::Go.involves_opponent());
    assert!(!Tile::Wreck.involves_opponent());
    assert!(!Tile::Improve.involves_opponent());
    assert!(Tile::Sabotage.involves_opponent());
    assert!(Tile::Swap.involves_opponent());
    assert!(Tile::SumDuel.involves_opponent());
    assert!(Tile::ProductDuel.involves_opponent());
}

#[test]
fn advance_from_fourteen_by_five() {
    assert_eq!(advance(14, 5), (1, 3));
}

#[test]
fn advance_from_zero_by_thirty_three() {
    assert_eq!(advance(0, 33), (2, 1));
}

#[test]
fn no_lap_within_the_board() {
    assert_eq!(advance(0, 0), (0, 0));
    assert_eq!(advance(3, 4), (0, 7));
    assert_eq!(advance(0, 15), (0, 15));
}

#[test]
fn exactly_reaching_the_start_is_a_lap() {
    assert_eq!(advance(15, 1), (1, 0));
    assert_eq!(advance(0, 16), (1, 0));
    assert_eq!(advance(0, 32), (2, 0));
}

#[test]
fn advance_with_the_largest_roll() {
    let (laps, landing) = advance(15, usize::MAX);
    let whole = (usize::MAX as u128 + 15) / 16;
    let part = (usize::MAX as u128 + 15) % 16;
    assert_eq!(laps as u128, whole);
    assert_eq!(landing as u128, part);
}
