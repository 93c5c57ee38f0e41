use dice_game::board::Tile;
use dice_game::die::Die;
use dice_game::game::Game;
use dice_game::player::Player;
use dice_game::roster::Roster;
use dice_game::state::{Event, Refusal, Stage};

fn seat(faces: [usize; 6], location: usize, score: usize) -> Player {
    Player::resume(Die::new(faces), location, score).unwrap()
}

fn game_of(players: Vec<Player>) -> Game {
    let mut roster = Roster::new();
    for (at, player) in players.into_iter().enumerate() {
        roster.insert(format!("player {}", at), player);
    }
    Game::new(&roster).unwrap()
}

fn faces_of(game: &Game, id: usize) -> [usize; 6] {
    game.player(id).unwrap().die().faces()
}

#[test]
fn no_game_without_players() {
    assert!(Game::new(&Roster::new()).is_none());
}

#[test]
fn a_game_begins_with_the_first_player_to_move() {
    let mut roster = Roster::new();
    roster.insert("ann".to_string(), Player::new(Die::new([1, 2, 3, 3, 4, 5])));
    roster.insert("bob".to_string(), Player::new(Die::new([3, 3, 3, 3, 3, 3])));
    let game = Game::new(&roster).unwrap();
    assert_eq!(game.stage(), Stage::Move);
    assert_eq!(game.actor(), 0);
    assert_eq!(game.roller(), 0);
    assert_eq!(game.options(), 6);
    assert_eq!(game.in_play(), vec![0, 1]);
    assert_eq!(game.player_count(), 2);
    assert_eq!(game.name(0).unwrap(), "ann");
    assert_eq!(game.name(1).unwrap(), "bob");
    assert!(game.name(2).is_none());
    assert!(game.player(2).is_none());
    assert_eq!(game.winner(), None);
    assert_eq!(game.top_score(), 0);
    assert_eq!(game.leaders(), vec![0, 1]);
}

#[test]
fn one_lap_from_fourteen_with_five() {
    let mut game = game_of(vec![seat([1, 2, 3, 3, 4, 5], 14, 0), seat([3, 3, 3, 3, 3, 3], 0, 0)]);
    let events = game.answer(5).unwrap();
    assert_eq!(
        events,
        vec![Event::Rolled { player: 0, value: 5 }, Event::PassedGo { player: 0 }]
    );
    assert_eq!(game.stage(), Stage::LapBonus { laps: 1, landing: 3 });
    assert_eq!(game.player(0).unwrap().location(), 14);
    let events = game.answer(0).unwrap();
    assert_eq!(events, vec![Event::Landed { player: 0, location: 3, tile: Tile::Sabotage }]);
    assert_eq!(faces_of(&game, 0), [2, 3, 3, 3, 4, 5]);
    assert_eq!(game.player(0).unwrap().location(), 3);
    assert_eq!(game.stage(), Stage::PickOpponent { tile: Tile::Sabotage });
}

#[test]
fn two_laps_from_zero_with_thirty_three() {
    let mut game = game_of(vec![seat([1, 1, 1, 1, 1, 33], 0, 0), seat([3, 3, 3, 3, 3, 3], 0, 0)]);
    let events = game.answer(5).unwrap();
    assert_eq!(
        events,
        vec![Event::Rolled { player: 0, value: 33 }, Event::PassedGo { player: 0 }]
    );
    assert_eq!(game.stage(), Stage::LapBonus { laps: 2, landing: 1 });
    let events = game.answer(0).unwrap();
    assert_eq!(events, vec![Event::PassedGo { player: 0 }]);
    assert_eq!(game.stage(), Stage::LapBonus { laps: 1, landing: 1 });
    assert_eq!(faces_of(&game, 0), [1, 1, 1, 1, 3, 33]);
    let events = game.answer(0).unwrap();
    assert_eq!(events, vec![Event::Landed { player: 0, location: 1, tile: Tile::Wreck }]);
    assert_eq!(faces_of(&game, 0), [1, 1, 1, 3, 3, 33]);
    assert_eq!(game.player(0).unwrap().location(), 1);
    assert_eq!(game.stage(), Stage::Wreck);
}

#[test]
fn a_move_within_the_board_grants_no_bonus() {
    let mut game = game_of(vec![seat([2, 2, 2, 2, 2, 2], 0, 0), seat([3, 3, 3, 3, 3, 3], 0, 0)]);
    let events = game.answer(3).unwrap();
    assert_eq!(
        events,
        vec![
            Event::Rolled { player: 0, value: 2 },
            Event::Landed { player: 0, location: 2, tile: Tile::Improve },
        ]
    );
    assert_eq!(game.stage(), Stage::Improve);
}

#[test]
fn landing_on_go_ends_the_turn() {
    let mut game = game_of(vec![seat([0, 1, 1, 1, 1, 1], 0, 0), seat([3, 3, 3, 3, 3, 3], 0, 0)]);
    let events = game.answer(0).unwrap();
    assert_eq!(
        events,
        vec![
            Event::Rolled { player: 0, value: 0 },
            Event::Landed { player: 0, location: 0, tile: Tile::Go },
        ]
    );
    assert_eq!(game.stage(), Stage::Move);
    assert_eq!(game.actor(), 1);
}

#[test]
fn wreck_lowers_a_face_by_two() {
    let mut game = game_of(vec![seat([1, 2, 3, 3, 4, 5], 0, 0), seat([3, 3, 3, 3, 3, 3], 0, 0)]);
    game.answer(0).unwrap();
    assert_eq!(game.stage(), Stage::Wreck);
    let events = game.answer(5).unwrap();
    assert_eq!(events, Vec::<Event>::new());
    assert_eq!(faces_of(&game, 0), [1, 2, 3, 3, 3, 4]);
    assert_eq!(game.actor(), 1);
    assert_eq!(game.stage(), Stage::Move);
}

#[test]
fn wreck_stops_at_zero() {
    let mut game = game_of(vec![seat([1, 2, 3, 3, 4, 5], 0, 0), seat([3, 3, 3, 3, 3, 3], 0, 0)]);
    game.answer(0).unwrap();
    game.answer(0).unwrap();
    assert_eq!(faces_of(&game, 0), [0, 2, 3, 3, 4, 5]);
}

#[test]
fn improve_raises_a_face_by_one() {
    let mut game = game_of(vec![seat([1, 2, 3, 3, 4, 5], 0, 0), seat([3, 3, 3, 3, 3, 3], 0, 0)]);
    game.answer(1).unwrap();
    assert_eq!(game.stage(), Stage::Improve);
    game.answer(0).unwrap();
    assert_eq!(faces_of(&game, 0), [2, 2, 3, 3, 4, 5]);
    assert_eq!(game.actor(), 1);
}

#[test]
fn sabotage_lowers_a_face_of_the_opponent_by_one() {
    let mut game = game_of(vec![
        seat([1, 2, 3, 3, 4, 5], 0, 0),
        seat([3, 3, 3, 3, 3, 3], 0, 0),
        seat([1, 1, 1, 5, 5, 5], 0, 0),
    ]);
    game.answer(2).unwrap();
    assert_eq!(game.stage(), Stage::PickOpponent { tile: Tile::Sabotage });
    assert_eq!(game.options(), 2);
    game.answer(1).unwrap();
    assert_eq!(game.stage(), Stage::SabotageFace { opponent: 2 });
    game.answer(5).unwrap();
    assert_eq!(faces_of(&game, 2), [1, 1, 1, 4, 5, 5]);
    assert_eq!(faces_of(&game, 0), [1, 2, 3, 3, 4, 5]);
    assert_eq!(faces_of(&game, 1), [3, 3, 3, 3, 3, 3]);
    assert_eq!(game.actor(), 1);
}

#[test]
fn swap_exchanges_one_face_each() {
    let mut game = game_of(vec![seat([1, 2, 3, 3, 4, 5], 0, 0), seat([6, 6, 6, 6, 6, 6], 0, 0)]);
    game.answer(5).unwrap();
    assert_eq!(game.stage(), Stage::PickOpponent { tile: Tile::Swap });
    game.answer(0).unwrap();
    assert_eq!(game.stage(), Stage::SwapOwnFace { opponent: 1 });
    game.answer(0).unwrap();
    assert_eq!(game.stage(), Stage::SwapTheirFace { opponent: 1, own_face: 0 });
    assert_eq!(faces_of(&game, 0), [1, 2, 3, 3, 4, 5]);
    let events = game.answer(3).unwrap();
    assert_eq!(events, Vec::<Event>::new());
    assert_eq!(faces_of(&game, 0), [2, 3, 3, 4, 5, 6]);
    assert_eq!(faces_of(&game, 1), [1, 6, 6, 6, 6, 6]);
    assert_eq!(game.actor(), 1);
}

#[test]
fn a_tied_sum_duel_goes_to_the_opponent() {
    let mut game = game_of(vec![seat([2, 4, 4, 4, 4, 4], 0, 0), seat([3, 3, 4, 4, 4, 4], 0, 0)]);
    game.answer(1).unwrap();
    assert_eq!(game.stage(), Stage::PickOpponent { tile: Tile::SumDuel });
    game.answer(0).unwrap();
    assert_eq!(game.stage(), Stage::Duel { product: false, opponent: 1 });
    let mut events = Vec::new();
    for face in [0, 0, 1, 1, 2, 2] {
        events.extend(game.answer(face).unwrap());
    }
    assert_eq!(
        events,
        vec![
            Event::Rolled { player: 0, value: 2 },
            Event::Rolled { player: 1, value: 3 },
            Event::Rolled { player: 0, value: 4 },
            Event::Rolled { player: 1, value: 3 },
            Event::Rolled { player: 0, value: 4 },
            Event::Rolled { player: 1, value: 4 },
            Event::DuelWon { winner: 1, loser: 0 },
        ]
    );
    assert_eq!(game.player(0).unwrap().score(), 0);
    assert_eq!(game.player(1).unwrap().score(), 1);
    assert_eq!(game.actor(), 1);
    assert_eq!(game.stage(), Stage::Move);
}

#[test]
fn a_greater_sum_wins_the_duel_for_the_actor() {
    let mut game = game_of(vec![seat([2, 4, 4, 4, 4, 4], 0, 0), seat([3, 3, 4, 4, 4, 4], 0, 0)]);
    game.answer(1).unwrap();
    game.answer(0).unwrap();
    let mut last = Vec::new();
    for face in [1, 0, 1, 1, 2, 2] {
        last = game.answer(face).unwrap();
    }
    assert_eq!(
        last,
        vec![Event::Rolled { player: 1, value: 4 }, Event::DuelWon { winner: 0, loser: 1 }]
    );
    assert_eq!(game.player(0).unwrap().score(), 1);
    assert_eq!(game.player(1).unwrap().score(), 0);
}

#[test]
fn duel_rolls_alternate_between_the_sides() {
    let mut game = game_of(vec![seat([2, 4, 4, 4, 4, 4], 0, 0), seat([3, 3, 4, 4, 4, 4], 0, 0)]);
    game.answer(1).unwrap();
    game.answer(0).unwrap();
    assert_eq!(game.roller(), 0);
    game.answer(0).unwrap();
    assert_eq!(game.roller(), 1);
    game.answer(0).unwrap();
    assert_eq!(game.roller(), 0);
    assert_eq!(game.actor(), 0);
}

#[test]
fn a_product_duel_compares_products() {
    let mut game = game_of(vec![seat([0, 5, 5, 8, 8, 8], 0, 0), seat([1, 1, 1, 2, 2, 2], 0, 0)]);
    game.answer(5).unwrap();
    assert_eq!(game.stage(), Stage::PickOpponent { tile: Tile::ProductDuel });
    game.answer(0).unwrap();
    assert_eq!(game.stage(), Stage::Duel { product: true, opponent: 1 });
    let mut last = Vec::new();
    for face in [0, 0, 5, 0, 5, 0] {
        last = game.answer(face).unwrap();
    }
    assert_eq!(
        last,
        vec![Event::Rolled { player: 1, value: 1 }, Event::DuelWon { winner: 1, loser: 0 }]
    );
    assert_eq!(game.player(1).unwrap().score(), 1);
}

#[test]
fn players_act_in_the_order_of_joining() {
    let zero = [0, 1, 1, 1, 1, 1];
    let mut game = game_of(vec![seat(zero, 0, 0), seat(zero, 0, 0), seat(zero, 0, 0)]);
    assert_eq!(game.actor(), 0);
    game.answer(0).unwrap();
    assert_eq!(game.actor(), 1);
    game.answer(0).unwrap();
    assert_eq!(game.actor(), 2);
    game.answer(0).unwrap();
    assert_eq!(game.actor(), 0);
    assert_eq!(game.stage(), Stage::Move);
}

#[test]
fn a_lone_leader_at_five_wins_at_the_end_of_the_round() {
    let zero = [0, 1, 1, 1, 1, 1];
    let mut game = game_of(vec![seat(zero, 0, 4), seat(zero, 0, 5), seat(zero, 0, 3)]);
    assert_eq!(game.answer(0).unwrap().len(), 2);
    assert_eq!(game.winner(), None);
    game.answer(0).unwrap();
    assert_eq!(game.winner(), None);
    let events = game.answer(0).unwrap();
    assert_eq!(
        events,
        vec![
            Event::Rolled { player: 2, value: 0 },
            Event::Landed { player: 2, location: 0, tile: Tile::Go },
            Event::Won { player: 1 },
        ]
    );
    assert_eq!(game.stage(), Stage::Over { winner: 1 });
    assert_eq!(game.winner(), Some(1));
    assert_eq!(game.options(), 0);
    assert_eq!(game.in_play(), vec![0, 1, 2]);
}

#[test]
fn reaching_five_in_a_duel_wins_the_game() {
    let mut game = game_of(vec![seat([4, 4, 4, 4, 4, 4], 0, 4), seat([0, 1, 1, 1, 1, 1], 0, 4)]);
    game.answer(0).unwrap();
    game.answer(0).unwrap();
    for face in [0, 0, 0, 0, 0, 0] {
        game.answer(face).unwrap();
    }
    assert_eq!(game.player(0).unwrap().score(), 5);
    assert_eq!(game.winner(), None);
    assert_eq!(game.actor(), 1);
    let events = game.answer(0).unwrap();
    assert_eq!(events.last(), Some(&Event::Won { player: 0 }));
    assert_eq!(game.winner(), Some(0));
}

#[test]
fn nobody_wins_below_five() {
    let zero = [0, 1, 1, 1, 1, 1];
    let mut game = game_of(vec![seat(zero, 0, 4), seat(zero, 0, 2)]);
    game.answer(0).unwrap();
    let events = game.answer(0).unwrap();
    assert_eq!(events.len(), 2);
    assert_eq!(game.winner(), None);
    assert_eq!(game.stage(), Stage::Move);
    assert_eq!(game.actor(), 0);
    assert_eq!(game.in_play(), vec![0, 1]);
}

#[test]
fn tied_leaders_play_on_without_the_others() {
    let zero = [0, 1, 1, 1, 1, 1];
    let mut game = game_of(vec![
        seat(zero, 0, 2),
        seat(zero, 0, 5),
        seat(zero, 0, 4),
        seat(zero, 0, 5),
    ]);
    game.answer(0).unwrap();
    game.answer(0).unwrap();
    game.answer(0).unwrap();
    let events = game.answer(0).unwrap();
    assert_eq!(
        events,
        vec![
            Event::Rolled { player: 3, value: 0 },
            Event::Landed { player: 3, location: 0, tile: Tile::Go },
            Event::Eliminated { player: 0 },
            Event::Eliminated { player: 2 },
            Event::SuddenDeath,
        ]
    );
    assert_eq!(game.winner(), None);
    assert_eq!(game.in_play(), vec![1, 3]);
    assert_eq!(game.stage(), Stage::Move);
    assert_eq!(game.actor(), 1);
    assert_eq!(game.player(1).unwrap().score(), 5);
    assert_eq!(game.player(3).unwrap().score(), 5);
    assert_eq!(game.player(0).unwrap().score(), 2);
    assert_eq!(game.opponents(), vec![3]);
    assert_eq!(game.name(0).unwrap(), "player 0");
}

#[test]
fn sudden_death_ends_when_one_leads_alone() {
    let mut game = game_of(vec![
        seat([0, 4, 4, 4, 4, 4], 0, 5),
        seat([0, 1, 1, 1, 1, 1], 0, 1),
        seat([0, 1, 1, 1, 1, 1], 0, 5),
    ]);
    game.answer(0).unwrap();
    game.answer(0).unwrap();
    game.answer(0).unwrap();
    assert_eq!(game.in_play(), vec![0, 2]);
    game.answer(1).unwrap();
    assert_eq!(game.stage(), Stage::PickOpponent { tile: Tile::SumDuel });
    assert_eq!(game.options(), 1);
    game.answer(0).unwrap();
    assert_eq!(game.stage(), Stage::Duel { product: false, opponent: 2 });
    for face in [5, 0, 5, 0, 5, 0] {
        game.answer(face).unwrap();
    }
    assert_eq!(game.player(0).unwrap().score(), 6);
    assert_eq!(game.actor(), 2);
    let events = game.answer(0).unwrap();
    assert_eq!(events.last(), Some(&Event::Won { player: 0 }));
    assert_eq!(game.winner(), Some(0));
}

#[test]
fn a_tie_that_lasts_is_announced_again() {
    let zero = [0, 1, 1, 1, 1, 1];
    let mut game = game_of(vec![seat(zero, 0, 7), seat(zero, 0, 7)]);
    game.answer(0).unwrap();
    let events = game.answer(0).unwrap();
    assert_eq!(events.last(), Some(&Event::SuddenDeath));
    assert_eq!(events.len(), 3);
    assert_eq!(game.in_play(), vec![0, 1]);
}

#[test]
fn opponents_never_hold_the_acting_player() {
    let zero = [0, 1, 1, 1, 1, 1];
    let mut game = game_of(vec![seat(zero, 0, 0), seat(zero, 0, 0), seat(zero, 0, 0)]);
    assert_eq!(game.opponents(), vec![1, 2]);
    game.answer(0).unwrap();
    assert_eq!(game.actor(), 1);
    assert_eq!(game.opponents(), vec![0, 2]);
    game.answer(0).unwrap();
    assert_eq!(game.actor(), 2);
    assert_eq!(game.opponents(), vec![0, 1]);
    for _ in 0..30 {
        let actor = game.actor();
        assert!(!game.opponents().contains(&actor));
        game.answer(0).unwrap();
    }
}

#[test]
fn picking_an_opponent_skips_the_acting_player() {
    let mut game = game_of(vec![
        seat([0, 1, 1, 1, 1, 1], 0, 0),
        seat([3, 3, 3, 3, 3, 3], 0, 0),
        seat([0, 1, 1, 1, 1, 1], 0, 0),
    ]);
    game.answer(0).unwrap();
    assert_eq!(game.actor(), 1);
    game.answer(0).unwrap();
    assert_eq!(game.stage(), Stage::PickOpponent { tile: Tile::Sabotage });
    game.answer(1).unwrap();
    assert_eq!(game.stage(), Stage::SabotageFace { opponent: 2 });
}

#[test]
fn an_answer_out_of_range_is_refused_and_changes_nothing() {
    let mut game = game_of(vec![seat([1, 2, 3, 3, 4, 5], 0, 0), seat([3, 3, 3, 3, 3, 3], 0, 0)]);
    assert_eq!(game.answer(6), Err(Refusal::OutOfRange));
    assert_eq!(game.answer(usize::MAX), Err(Refusal::OutOfRange));
    assert_eq!(game.stage(), Stage::Move);
    assert_eq!(game.actor(), 0);
    game.answer(2).unwrap();
    assert_eq!(game.stage(), Stage::PickOpponent { tile: Tile::Sabotage });
    assert_eq!(game.answer(1), Err(Refusal::OutOfRange));
    assert_eq!(game.stage(), Stage::PickOpponent { tile: Tile::Sabotage });
    game.answer(0).unwrap();
    assert_eq!(game.answer(6), Err(Refusal::OutOfRange));
    assert_eq!(faces_of(&game, 1), [3, 3, 3, 3, 3, 3]);
}

#[test]
fn a_lone_player_cannot_go_where_an_opponent_is_needed() {
    let mut game = game_of(vec![seat([1, 2, 3, 3, 4, 5], 0, 0)]);
    assert_eq!(game.answer(2), Err(Refusal::NoOpponent));
    assert_eq!(game.answer(4), Err(Refusal::NoOpponent));
    assert_eq!(game.player(0).unwrap().location(), 0);
    assert_eq!(game.stage(), Stage::Move);
    game.answer(0).unwrap();
    assert_eq!(game.stage(), Stage::Wreck);
    game.answer(0).unwrap();
    assert_eq!(game.actor(), 0);
    assert_eq!(game.stage(), Stage::Move);
}

#[test]
fn a_finished_game_takes_no_answers() {
    let zero = [0, 1, 1, 1, 1, 1];
    let mut game = game_of(vec![seat(zero, 0, 9)]);
    game.answer(0).unwrap();
    assert_eq!(game.winner(), Some(0));
    assert_eq!(game.answer(0), Err(Refusal::GameOver));
    assert_eq!(game.roll(), Err(Refusal::GameOver));
    assert_eq!(game.stage(), Stage::Over { winner: 0 });
}

#[test]
fn a_score_at_the_limit_is_not_raised() {
    let mut game = game_of(vec![
        seat([4, 4, 4, 4, 4, 4], 0, usize::MAX),
        seat([0, 1, 1, 1, 1, 1], 0, 0),
    ]);
    game.answer(0).unwrap();
    game.answer(0).unwrap();
    for face in [0, 0, 0, 0, 0] {
        game.answer(face).unwrap();
    }
    assert_eq!(game.answer(0), Err(Refusal::ScoreLimit));
    assert_eq!(game.stage(), Stage::Duel { product: false, opponent: 1 });
    assert_eq!(game.roller(), 1);
    assert_eq!(game.player(0).unwrap().score(), usize::MAX);
}

#[test]
fn roll_is_refused_while_a_choice_is_due() {
    let mut game = game_of(vec![seat([1, 1, 1, 1, 1, 1], 0, 0), seat([3, 3, 3, 3, 3, 3], 0, 0)]);
    game.answer(0).unwrap();
    assert_eq!(game.stage(), Stage::Wreck);
    assert_eq!(game.roll(), Err(Refusal::NotARoll));
    assert_eq!(game.stage(), Stage::Wreck);
}

#[test]
fn roll_moves_the_acting_player_by_one_of_their_faces() {
    for _ in 0..50 {
        let mut game =
            game_of(vec![seat([1, 1, 2, 2, 6, 6], 0, 0), seat([3, 3, 3, 3, 3, 3], 0, 0)]);
        let events = game.roll().unwrap();
        let value = match events[0] {
            Event::Rolled { player: 0, value } => value,
            _ => panic!("the first event is the roll"),
        };
        assert!(value == 1 || value == 2 || value == 6);
        assert_eq!(game.player(0).unwrap().location(), value);
    }
}

#[test]
fn roll_plays_a_duel_to_its_end() {
    let mut game = game_of(vec![seat([4, 4, 4, 4, 4, 4], 0, 0), seat([1, 1, 1, 1, 1, 1], 0, 0)]);
    game.roll().unwrap();
    game.answer(0).unwrap();
    for _ in 0..6 {
        game.roll().unwrap();
    }
    assert_eq!(game.player(0).unwrap().score(), 1);
    assert_eq!(game.actor(), 1);
}

#[test]
fn replay_applies_a_script() {
    let mut game = game_of(vec![seat([1, 2, 3, 3, 4, 5], 0, 0), seat([3, 3, 3, 3, 3, 3], 0, 0)]);
    let replay = game.replay(&vec![2, 0, 3, 0, 1]);
    assert_eq!(replay.applied, 5);
    assert_eq!(replay.refused, None);
    assert_eq!(
        replay.events,
        vec![
            Event::Rolled { player: 0, value: 3 },
            Event::Landed { player: 0, location: 3, tile: Tile::Sabotage },
            Event::Rolled { player: 1, value: 2 },
            Event::Landed { player: 1, location: 2, tile: Tile::Improve },
        ]
    );
    assert_eq!(faces_of(&game, 1), [2, 3, 3, 3, 3, 4]);
    assert_eq!(game.actor(), 0);
}

#[test]
fn replay_stops_at_the_first_refusal() {
    let mut game = game_of(vec![seat([1, 2, 3, 3, 4, 5], 0, 0), seat([3, 3, 3, 3, 3, 3], 0, 0)]);
    let replay = game.replay(&vec![2, 7, 0]);
    assert_eq!(replay.applied, 1);
    assert_eq!(replay.refused, Some(Refusal::OutOfRange));
    assert_eq!(replay.events.len(), 2);
    assert_eq!(game.stage(), Stage::PickOpponent { tile: Tile::Sabotage });
}

#[test]
fn replay_of_nothing_changes_nothing() {
    let mut game = game_of(vec![seat([1, 2, 3, 3, 4, 5], 0, 0)]);
    let replay = game.replay(&Vec::new());
    assert_eq!(replay.applied, 0);
    assert_eq!(replay.refused, None);
    assert!(replay.events.is_empty());
    assert_eq!(game.stage(), Stage::Move);
}

#[test]
fn two_replays_of_one_script_agree() {
    let script: Vec<usize> = vec![
        1, 0, 0, 1, 2, 3, 4, 5, 3, 0, 2, 0, 5, 0, 1, 4, 2, 0, 0, 3, 3, 1, 0, 5, 5, 0, 1, 2, 2, 0,
        4, 1, 0, 0, 3, 2, 5, 1, 0, 4,
    ];
    let players = vec![
        seat([1, 2, 3, 3, 4, 5], 0, 0),
        seat([3, 3, 3, 3, 3, 3], 0, 0),
        seat([1, 1, 1, 5, 5, 5], 0, 0),
    ];
    let mut first = game_of(players.clone());
    let mut second = game_of(players);
    let one = first.replay(&script);
    let two = second.replay(&script);
    assert!(one.applied > 0);
    assert_eq!(one.events, two.events);
    assert_eq!(one.applied, two.applied);
    assert_eq!(one.refused, two.refused);
    assert_eq!(first.stage(), second.stage());
    assert_eq!(first.in_play(), second.in_play());
    for id in 0..3 {
        assert_eq!(first.player(id), second.player(id));
    }
}

#[test]
fn replay_agrees_with_answers_one_by_one() {
    let script: Vec<usize> = vec![4, 0, 1, 2, 3, 4, 5, 0, 5, 0, 0, 0];
    let players = vec![seat([1, 2, 3, 3, 4, 5], 0, 0), seat([3, 3, 3, 3, 3, 3], 0, 0)];
    let mut whole = game_of(players.clone());
    let mut stepwise = game_of(players);
    let replay = whole.replay(&script);
    let mut events = Vec::new();
    let mut applied = 0;
    for choice in &script {
        match stepwise.answer(*choice) {
            Ok(more) => {
                events.extend(more);
                applied += 1;
            }
            Err(_) => break,
        }
    }
    assert_eq!(replay.events, events);
    assert_eq!(replay.applied, applied);
    assert_eq!(whole.stage(), stepwise.stage());
    assert_eq!(whole.player(0), stepwise.player(0));
    assert_eq!(whole.player(1), stepwise.player(1));
}
