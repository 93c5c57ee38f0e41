use dice_game::die::Die;
use dice_game::player::Player;
use dice_game::roster::Roster;

fn fresh(faces: [usize; 6]) -> Player {
    Player::new(Die::new(faces))
}

#[test]
fn new_player_starts_at_the_start_without_points() {
    let player = fresh([3, 3, 3, 3, 3, 3]);
    assert_eq!(player.location(), 0);
    assert_eq!(player.score(), 0);
    assert_eq!(player.die().faces(), [3, 3, 3, 3, 3, 3]);
}

#[test]
fn resumed_player_keeps_place_and_score() {
    let player = Player::resume(Die::new([1, 2, 3, 3, 4, 5]), 14, 4).unwrap();
    assert_eq!(player.location(), 14);
    assert_eq!(player.score(), 4);
    assert!(Player::resume(Die::new([1, 2, 3, 3, 4, 5]), 16, 0).is_none());
    assert!(Player::resume(Die::new([1, 2, 3, 3, 4, 5]), 15, 0).is_some());
}

#[test]
fn roster_keeps_the_order_of_joining() {
    let mut roster = Roster::new();
    assert_eq!(roster.len(), 0);
    assert!(roster.insert("zoe".to_string(), fresh([1, 2, 3, 3, 4, 5])).is_none());
    assert!(roster.insert("abe".to_string(), fresh([3, 3, 3, 3, 3, 3])).is_none());
    assert_eq!(roster.len(), 2);
    assert_eq!(roster.name(0), "zoe");
    assert_eq!(roster.name(1), "abe");
    assert_eq!(roster.player(1).die().faces(), [3, 3, 3, 3, 3, 3]);
}

#[test]
fn a_taken_name_keeps_its_seat_and_gets_the_new_player() {
    let mut roster = Roster::new();
    roster.insert("zoe".to_string(), fresh([1, 2, 3, 3, 4, 5]));
    roster.insert("abe".to_string(), fresh([3, 3, 3, 3, 3, 3]));
    let former = roster.insert("zoe".to_string(), fresh([1, 1, 1, 5, 5, 5]));
    assert_eq!(former.unwrap().die().faces(), [1, 2, 3, 3, 4, 5]);
    assert_eq!(roster.len(), 2);
    assert_eq!(roster.name(0), "zoe");
    assert_eq!(roster.player(0).die().faces(), [1, 1, 1, 5, 5, 5]);
    assert_eq!(roster.player(1).die().faces(), [3, 3, 3, 3, 3, 3]);
}

#[test]
fn names_differ_by_case_and_space() {
    let mut roster = Roster::new();
    roster.insert("zoe".to_string(), fresh([3, 3, 3, 3, 3, 3]));
    roster.insert("Zoe".to_string(), fresh([3, 3, 3, 3, 3, 3]));
    roster.insert("".to_string(), fresh([3, 3, 3, 3, 3, 3]));
    assert_eq!(roster.len(), 3);
}
