//! The game engine: it holds the state and applies one answer at a time.

use crate::board::{advance, Board, Tile, BOARD_SIZE};
use crate::chance::random_index;
use crate::die::{Die, FACES};
use crate::duel::actor_wins;
use crate::player::Player;
use crate::roster::{distinct_names, EntryView, Roster};
use crate::state::{
    answered, best_score, farewells, Event, GameView, Refusal, Run, Stage, DUEL_LENGTH,
    WINNING_SCORE,
};
use vstd::prelude::*;

verus! {

/// The state of a game in play.
#[derive(Debug)]
struct Table {
    board: Board,
    players: Vec<Player>,
    active: Vec<usize>,
    turn: usize,
    stage: Stage,
    rolls: Vec<usize>,
}

impl View for Table {
    type V = GameView;

    closed spec fn view(&self) -> GameView {
        GameView {
            players: self.players@.map_values(|p: Player| p@),
            active: self.active@,
            turn: self.turn as nat,
            stage: self.stage,
            rolls: self.rolls@,
        }
    }
}

impl Table {
    /// The identity of the acting player.
    fn actor(&self) -> (id: usize)
        requires
            self@.seats_wf(),
        ensures
            id == self@.actor(),
            id < self@.players.len(),
    {
        self.active[self.turn]
    }

    /// The die of player `id`.
    fn die_of(&self, id: usize) -> (die: Die)
        requires
            id < self@.players.len(),
        ensures
            die@ == self@.players[id as int].die,
            die.wf(),
    {
        self.players[id].die()
    }

    /// Gives player `id` another die.
    fn set_die(&mut self, id: usize, die: Die)
        requires
            id < old(self)@.players.len(),
        ensures
            final(self)@ == old(self)@.with_die(id, die@),
    {
        self.players[id].set_die(die);
        assert(self@.players =~= old(self)@.with_die(id, die@).players);
    }

    /// The highest score among the players in play.
    fn top_score(&self) -> (top: usize)
        requires
            self@.seats_wf(),
        ensures
            top == self@.top_score(),
    {
        let mut top: usize = 0;
        let mut i: usize = 0;
        while i < self.active.len()
            invariant
                self@.seats_wf(),
                i <= self.active.len(),
                top == best_score(self@.players, self.active@.take(i as int)),
            decreases self.active.len() - i,
        {
            let score: usize = self.players[self.active[i]].score();
            proof {
                let upto = self.active@.take(i + 1);
                assert(upto.drop_last() =~= self.active@.take(i as int));
                assert(upto.last() == self.active@[i as int]);
            }
            if score > top {
                top = score;
            }
            i = i + 1;
        }
        assert(self.active@.take(i as int) =~= self.active@);
        top
    }

    /// The players in play who have the highest score, or those who are
    /// behind it, in turn order.
    fn ranked(&self, leading: bool) -> (ids: Vec<usize>)
        requires
            self@.seats_wf(),
        ensures
            leading ==> ids@ == self@.leaders(),
            !leading ==> ids@ == self@.trailers(),
    {
        let top: usize = self.top_score();
        let mut ids: Vec<usize> = Vec::new();
        let mut i: usize = 0;
        while i < self.active.len()
            invariant
                self@.seats_wf(),
                top == self@.top_score(),
                i <= self.active.len(),
                leading ==> ids@ == self@.active.take(i as int).filter(self@.leads()),
                !leading ==> ids@ == self@.active.take(i as int).filter(self@.trails()),
            decreases self.active.len() - i,
        {
            let id: usize = self.active[i];
            proof {
                let upto = self@.active.take(i as int);
                assert(self@.active.take(i + 1) =~= upto.push(id));
                upto.lemma_filter_push(id, self@.leads());
                upto.lemma_filter_push(id, self@.trails());
            }
            if (self.players[id].score() == top) == leading {
                ids.push(id);
            }
            i = i + 1;
        }
        assert(self@.active.take(i as int) =~= self@.active);
        ids
    }

    /// Ends the round: the next round begins, or a lone leader wins, or tied
    /// leaders play on without the others.
    fn settle(&mut self, events: &mut Vec<Event>)
        requires
            old(self)@.seats_wf(),
        ensures
            final(self)@ == old(self)@.settle().state,
            final(events)@ == old(events)@ + old(self)@.settle().events,
    {
        if self.top_score() < WINNING_SCORE {
            self.turn = 0;
            self.stage = Stage::Move;
            assert(events@ =~= old(events)@ + old(self)@.settle().events);
            return ;
        }
        let leaders: Vec<usize> = self.ranked(true);
        if leaders.len() == 1 {
            let winner: usize = leaders[0];
            self.stage = Stage::Over { winner };
            events.push(Event::Won { player: winner });
            assert(events@ =~= old(events)@ + old(self)@.settle().events);
        } else {
            let trailers: Vec<usize> = self.ranked(false);
            let mut i: usize = 0;
            while i < trailers.len()
                invariant
                    i <= trailers.len(),
                    events@ == old(events)@ + farewells(trailers@.take(i as int)),
                decreases trailers.len() - i,
            {
                events.push(Event::Eliminated { player: trailers[i] });
                assert(events@ =~= old(events)@ + farewells(trailers@.take(i + 1)));
                i = i + 1;
            }
            assert(trailers@.take(i as int) =~= trailers@);
            self.active = leaders;
            self.turn = 0;
            self.stage = Stage::Move;
            events.push(Event::SuddenDeath);
            assert(events@ =~= old(events)@ + old(self)@.settle().events);
        }
    }

    /// Ends the acting player's turn.
    fn finish_turn(&mut self, events: &mut Vec<Event>)
        requires
            old(self)@.seats_wf(),
        ensures
            final(self)@ == old(self)@.finish_turn().state,
            final(events)@ == old(events)@ + old(self)@.finish_turn().events,
    {
        assert(self.turn < self.active.len());
        if self.turn + 1 < self.active.len() {
            self.turn = self.turn + 1;
            self.stage = Stage::Move;
            assert(events@ =~= old(events)@ + old(self)@.finish_turn().events);
        } else {
            self.settle(events);
        }
    }

    /// Brings the acting player to rest on `landing`.
    fn arrive(&mut self, landing: usize, events: &mut Vec<Event>)
        requires
            old(self)@.seats_wf(),
            landing < BOARD_SIZE,
        ensures
            final(self)@ == old(self)@.arrive(landing).state,
            final(events)@ == old(events)@ + old(self)@.arrive(landing).events,
    {
        let who: usize = self.actor();
        let tile: Tile = self.board.tile(landing);
        self.players[who].move_to(landing);
        assert(self@ =~= old(self)@.with_location(who, landing as nat));
        events.push(Event::Landed { player: who, location: landing, tile });
        match tile {
            Tile::Go => {
                self.finish_turn(events);
            },
            Tile::Wreck => {
                self.stage = Stage::Wreck;
            },
            Tile::Improve => {
                self.stage = Stage::Improve;
            },
            _ => {
                self.stage = Stage::PickOpponent { tile };
            },
        }
        assert(events@ =~= old(events)@ + old(self)@.arrive(landing).events);
    }

    /// Gives player `id` one more point.
    fn add_point(&mut self, id: usize)
        requires
            id < old(self)@.players.len(),
            old(self)@.players[id as int].score < usize::MAX,
        ensures
            final(self)@ == old(self)@.with_point(id),
    {
        self.players[id].add_point();
        assert(self@.players =~= old(self)@.with_point(id).players);
    }

    /// Moves the face at `choice` of player `id`'s die by `delta` and ends
    /// the turn.
    fn adjust(&mut self, id: usize, choice: usize, delta: isize, events: &mut Vec<Event>)
        requires
            old(self)@.seats_wf(),
            id < old(self)@.players.len(),
            choice < FACES,
        ensures
            final(self)@ == old(self)@.step_adjust(id, choice, delta as int).state,
            final(events)@ == old(events)@ + old(self)@.step_adjust(id, choice, delta as int).events,
    {
        let mut die: Die = self.die_of(id);
        die.adjust(choice, delta);
        self.set_die(id, die);
        self.finish_turn(events);
    }

    /// The opponent at `choice` among those the acting player can pick.
    fn opponent_at(&self, choice: usize) -> (opponent: usize)
        requires
            self@.seats_wf(),
            choice + 1 < self@.active.len(),
        ensures
            opponent == self@.opponents()[choice as int],
            self@.is_opponent(opponent),
    {
        assert(choice + 1 < self.active.len());
        let opponent: usize = if choice < self.turn {
            self.active[choice]
        } else {
            self.active[choice + 1]
        };
        proof {
            let at: int = if choice < self.turn {
                choice as int
            } else {
                choice + 1
            };
            assert(self@.active[at] == opponent);
            assert(self@.active.contains(opponent));
        }
        opponent
    }

    /// Applies an answer to the movement roll.
    fn step_move(&mut self, choice: usize, events: &mut Vec<Event>) -> (refused: Option<Refusal>)
        requires
            old(self)@.wf(),
            old(self)@.stage == Stage::Move,
            choice < FACES,
        ensures
            refused == old(self)@.refusal(choice),
            refused is Some ==> final(self)@ == old(self)@ && final(events)@ == old(events)@,
            refused is None ==> final(self)@ == old(self)@.step(choice).state,
            refused is None ==> final(events)@ == old(events)@ + old(self)@.step(choice).events,
    {
        let who: usize = self.actor();
        let mover: Player = self.players[who];
        let value: usize = mover.die().face(choice);
        let (laps, landing) = advance(mover.location(), value);
        if self.board.tile(landing).involves_opponent() && self.active.len() < 2 {
            return Some(Refusal::NoOpponent);
        }
        events.push(Event::Rolled { player: who, value });
        if laps > 0 {
            self.stage = Stage::LapBonus { laps, landing };
            events.push(Event::PassedGo { player: who });
            assert(events@ =~= old(events)@ + old(self)@.step(choice).events);
        } else {
            self.arrive(landing, events);
            assert(events@ =~= old(events)@ + old(self)@.step(choice).events);
        }
        None
    }

    /// Applies the choice of a face to raise for a completed lap.
    fn step_lap_bonus(&mut self, laps: usize, landing: usize, choice: usize, events: &mut Vec<Event>)
        requires
            old(self)@.wf(),
            old(self)@.stage == (Stage::LapBonus { laps, landing }),
            choice < FACES,
        ensures
            final(self)@ == old(self)@.step(choice).state,
            final(events)@ == old(events)@ + old(self)@.step(choice).events,
    {
        let who: usize = self.actor();
        let mut die: Die = self.die_of(who);
        die.adjust(choice, 2);
        self.set_die(who, die);
        if laps > 1 {
            self.stage = Stage::LapBonus { laps: laps - 1, landing };
            events.push(Event::PassedGo { player: who });
            assert(events@ =~= old(events)@ + old(self)@.step(choice).events);
        } else {
            self.arrive(landing, events);
        }
    }

    /// Applies the choice of an opponent.
    fn step_pick(&mut self, tile: Tile, choice: usize)
        requires
            old(self)@.wf(),
            old(self)@.stage == (Stage::PickOpponent { tile }),
            choice + 1 < old(self)@.active.len(),
        ensures
            final(self)@ == old(self)@.step(choice).state,
    {
        let opponent: usize = self.opponent_at(choice);
        match tile {
            Tile::Sabotage => {
                self.stage = Stage::SabotageFace { opponent };
            },
            Tile::Swap => {
                self.stage = Stage::SwapOwnFace { opponent };
            },
            Tile::SumDuel => {
                self.stage = Stage::Duel { product: false, opponent };
            },
            Tile::ProductDuel => {
                self.stage = Stage::Duel { product: true, opponent };
            },
            _ => {},
        }
    }

    /// Exchanges a face of the acting player's die with one of the
    /// opponent's and ends the turn.
    fn step_swap(&mut self, opponent: usize, own_face: usize, choice: usize, events: &mut Vec<Event>)
        requires
            old(self)@.wf(),
            old(self)@.stage == (Stage::SwapTheirFace { opponent, own_face }),
            choice < FACES,
        ensures
            final(self)@ == old(self)@.step(choice).state,
            final(events)@ == old(events)@ + old(self)@.step(choice).events,
    {
        let who: usize = self.actor();
        assert(opponent < self@.players.len()) by {
            let at = choose|at: int| 0 <= at < self@.active.len() && self@.active[at] == opponent;
            assert(self@.active[at] < self@.players.len());
        }
        let mut mine: Die = self.die_of(who);
        let mut theirs: Die = self.die_of(opponent);
        mine.swap_face_with(&mut theirs, own_face, choice);
        self.set_die(who, mine);
        self.set_die(opponent, theirs);
        self.finish_turn(events);
    }

    /// Applies a roll of the duel under way.
    fn step_duel(&mut self, product: bool, opponent: usize, choice: usize, events: &mut Vec<Event>) -> (refused: Option<Refusal>)
        requires
            old(self)@.wf(),
            old(self)@.stage == (Stage::Duel { product, opponent }),
            choice < FACES,
        ensures
            refused == old(self)@.refusal(choice),
            refused is Some ==> final(self)@ == old(self)@ && final(events)@ == old(events)@,
            refused is None ==> final(self)@ == old(self)@.step(choice).state,
            refused is None ==> final(events)@ == old(events)@ + old(self)@.step(choice).events,
    {
        let who: usize = self.actor();
        assert(opponent < self@.players.len()) by {
            let at = choose|at: int| 0 <= at < self@.active.len() && self@.active[at] == opponent;
            assert(self@.active[at] < self@.players.len());
        }
        let roller: usize = if self.rolls.len() % 2 == 1 {
            opponent
        } else {
            who
        };
        let value: usize = self.die_of(roller).face(choice);
        if self.rolls.len() + 1 < DUEL_LENGTH {
            self.rolls.push(value);
            events.push(Event::Rolled { player: roller, value });
            assert(events@ =~= old(events)@ + old(self)@.step(choice).events);
            return None;
        }
        let ghost rolls = self.rolls@.push(value);
        let mine: [usize; 3] = [self.rolls[0], self.rolls[2], self.rolls[4]];
        let theirs: [usize; 3] = [self.rolls[1], self.rolls[3], value];
        assert(mine@ =~= seq![rolls[0], rolls[2], rolls[4]]);
        assert(theirs@ =~= seq![rolls[1], rolls[3], rolls[5]]);
        let (winner, loser) = if actor_wins(product, mine, theirs) {
            (who, opponent)
        } else {
            (opponent, who)
        };
        if self.players[winner].score() == usize::MAX {
            return Some(Refusal::ScoreLimit);
        }
        self.rolls.clear();
        assert(self@ =~= (GameView { rolls: seq![], ..old(self)@ }));
        self.add_point(winner);
        events.push(Event::Rolled { player: roller, value });
        events.push(Event::DuelWon { winner, loser });
        self.finish_turn(events);
        assert(events@ =~= old(events)@ + old(self)@.step(choice).events);
        None
    }

    /// Applies the answer `choice`, or refuses it and changes nothing.
    fn answer(&mut self, choice: usize) -> (result: Result<Vec<Event>, Refusal>)
        requires
            old(self)@.wf(),
        ensures
            answered(old(self)@, choice, final(self)@, result),
            final(self)@.wf(),
            final(self)@.players.len() == old(self)@.players.len(),
    {
        let mut events: Vec<Event> = Vec::new();
        let stage: Stage = self.stage;
        let ghost before = self@;
        let refused: Option<Refusal> = match stage {
            Stage::Over { .. } => Some(Refusal::GameOver),
            Stage::PickOpponent { tile } => {
                if choice >= self.active.len() - 1 {
                    Some(Refusal::OutOfRange)
                } else {
                    self.step_pick(tile, choice);
                    None
                }
            },
            _ => {
                if choice >= FACES {
                    Some(Refusal::OutOfRange)
                } else {
                    match stage {
                        Stage::Move => self.step_move(choice, &mut events),
                        Stage::LapBonus { laps, landing } => {
                            self.step_lap_bonus(laps, landing, choice, &mut events);
                            None
                        },
                        Stage::Wreck => {
                            let who: usize = self.actor();
                            self.adjust(who, choice, -2, &mut events);
                            None
                        },
                        Stage::Improve => {
                            let who: usize = self.actor();
                            self.adjust(who, choice, 1, &mut events);
                            None
                        },
                        Stage::SabotageFace { opponent } => {
                            proof {
                                before.lemma_opponent_plays(opponent);
                            }
                            self.adjust(opponent, choice, -1, &mut events);
                            None
                        },
                        Stage::SwapOwnFace { opponent } => {
                            self.stage = Stage::SwapTheirFace { opponent, own_face: choice };
                            None
                        },
                        Stage::SwapTheirFace { opponent, own_face } => {
                            self.step_swap(opponent, own_face, choice, &mut events);
                            None
                        },
                        Stage::Duel { product, opponent } => self.step_duel(
                            product,
                            opponent,
                            choice,
                            &mut events,
                        ),
                        _ => None,
                    }
                }
            },
        };
        match refused {
            Some(refusal) => Err(refusal),
            None => {
                proof {
                    before.lemma_step_wf(choice);
                    assert(events@ =~= before.step(choice).events);
                }
                Ok(events)
            },
        }
    }
}

/// The state in which a game between the players of a roster begins: all
/// are in play, in the order in which they joined, and the first is to move.
pub open spec fn opening(entries: Seq<EntryView>) -> GameView {
    GameView {
        players: entries.map_values(|e: EntryView| e.player),
        active: Seq::new(entries.len(), |i: int| i as usize),
        turn: 0,
        stage: Stage::Move,
        rolls: seq![],
    }
}

/// What a replay did.
#[derive(Debug)]
pub struct Replay {
    /// The events of the answers that were applied, in order.
    pub events: Vec<Event>,
    /// How many answers were applied.
    pub applied: usize,
    /// Why the answer after those was turned down, if one was.
    pub refused: Option<Refusal>,
}

/// A game in play. A player's identity is the position at which they
/// joined; it stays theirs when others leave the game.
#[derive(Debug)]
pub struct Game {
    names: Vec<String>,
    table: Table,
}

impl View for Game {
    type V = GameView;

    closed spec fn view(&self) -> GameView {
        self.table@
    }
}

impl Game {
    /// The players' names, by identity.
    pub closed spec fn names(&self) -> Seq<Seq<char>> {
        self.names@.map_values(|name: String| name@)
    }

    /// The state is one of the game, and every player has a name of their own.
    pub open spec fn wf(&self) -> bool {
        &&& self@.wf()
        &&& self.names().len() == self@.players.len()
        &&& forall|i: int, j: int| 0 <= i < j < self.names().len() ==> self.names()[i] != self.names()[j]
    }

    /// Begins a game between the players of `roster`. There is no game
    /// without players.
    pub fn new(roster: &Roster) -> (game: Option<Game>)
        requires
            roster.wf(),
        ensures
            game is None <==> roster@.len() == 0,
            game matches Some(begun) ==> {
                &&& begun.wf()
                &&& begun@ == opening(roster@)
                &&& begun.names() == roster@.map_values(|e: EntryView| e.name)
            },
    {
        let count: usize = roster.len();
        if count == 0 {
            return None;
        }
        let mut names: Vec<String> = Vec::new();
        let mut players: Vec<Player> = Vec::new();
        let mut active: Vec<usize> = Vec::new();
        let mut seat: usize = 0;
        while seat < count
            invariant
                count == roster@.len(),
                seat <= count,
                names@.len() == seat,
                players@.len() == seat,
                active@.len() == seat,
                forall|i: int| 0 <= i < seat ==> (#[trigger] names@[i])@ == roster@[i].name,
                forall|i: int| 0 <= i < seat ==> (#[trigger] players@[i])@ == roster@[i].player,
                forall|i: int| 0 <= i < seat ==> #[trigger] active@[i] == i,
            decreases count - seat,
        {
            names.push(roster.name(seat).clone());
            players.push(roster.player(seat));
            active.push(seat);
            seat = seat + 1;
        }
        let table = Table {
            board: Board::new(),
            players,
            active,
            turn: 0,
            stage: Stage::Move,
            rolls: Vec::new(),
        };
        let game = Game { names, table };
        proof {
            assert(game@ =~= opening(roster@));
            assert(game.names() =~= roster@.map_values(|e: EntryView| e.name));
            assert(distinct_names(roster@));
            assert forall|i: int, j: int| 0 <= i < j < game.names().len() implies game.names()[i] != game.names()[j] by {
                assert(roster@[i].name != roster@[j].name);
            }
            assert forall|i: int| 0 <= i < game@.players.len() implies (#[trigger] game@.players[i]).wf() by {
                assert(roster@[i].player.wf());
            }
        }
        Some(game)
    }

    /// What the game waits for.
    pub fn stage(&self) -> (stage: Stage)
        ensures
            stage == self@.stage,
    {
        self.table.stage
    }

    /// The identity of the acting player.
    pub fn actor(&self) -> (id: usize)
        requires
            self.wf(),
        ensures
            id == self@.actor(),
            id < self@.players.len(),
    {
        self.table.actor()
    }

    /// The identity of the player who makes the next roll.
    pub fn roller(&self) -> (id: usize)
        requires
            self.wf(),
        ensures
            id == self@.roller(),
    {
        match self.table.stage {
            Stage::Duel { opponent, .. } => if self.table.rolls.len() % 2 == 1 {
                opponent
            } else {
                self.table.actor()
            },
            _ => self.table.actor(),
        }
    }

    /// How many answers the game offers: they are the indices below it.
    pub fn options(&self) -> (count: usize)
        requires
            self.wf(),
        ensures
            count == self@.options(),
    {
        match self.table.stage {
            Stage::Over { .. } => 0,
            Stage::PickOpponent { .. } => self.table.active.len() - 1,
            _ => FACES,
        }
    }

    /// The players the acting player can pick as opponent, in the order in
    /// which they are offered. The acting player is never among them.
    pub fn opponents(&self) -> (ids: Vec<usize>)
        requires
            self.wf(),
        ensures
            ids@ == self@.opponents(),
            forall|i: int| 0 <= i < ids@.len() ==> self@.is_opponent(#[trigger] ids@[i]),
            forall|i: int| 0 <= i < ids@.len() ==> #[trigger] ids@[i] != self@.actor(),
    {
        let mut ids: Vec<usize> = Vec::new();
        let mut i: usize = 0;
        while i + 1 < self.table.active.len()
            invariant
                self.wf(),
                i + 1 <= self.table.active.len(),
                ids@.len() == i,
                forall|k: int| 0 <= k < i ==> #[trigger] ids@[k] == self@.opponents()[k],
                forall|k: int| 0 <= k < i ==> self@.is_opponent(#[trigger] ids@[k]),
            decreases self.table.active.len() - i,
        {
            ids.push(self.table.opponent_at(i));
            i = i + 1;
        }
        assert(ids@ =~= self@.opponents());
        ids
    }

    /// The identities of the players in play, in turn order.
    pub fn in_play(&self) -> (ids: Vec<usize>)
        ensures
            ids@ == self@.active,
    {
        self.table.active.clone()
    }

    /// How many players joined the game.
    pub fn player_count(&self) -> (count: usize)
        ensures
            count == self@.players.len(),
    {
        self.table.players.len()
    }

    /// The player with identity `id`, if there is one.
    pub fn player(&self, id: usize) -> (player: Option<Player>)
        ensures
            player is Some <==> id < self@.players.len(),
            player matches Some(found) ==> found@ == self@.players[id as int],
    {
        if id < self.table.players.len() {
            Some(self.table.players[id])
        } else {
            None
        }
    }

    /// The name of the player with identity `id`, if there is one.
    pub fn name(&self, id: usize) -> (name: Option<&String>)
        ensures
            name is Some <==> id < self.names().len(),
            name matches Some(found) ==> found@ == self.names()[id as int],
    {
        if id < self.names.len() {
            Some(&self.names[id])
        } else {
            None
        }
    }

    /// The winner, once the game is over.
    pub fn winner(&self) -> (winner: Option<usize>)
        ensures
            winner == match self@.stage {
                Stage::Over { winner } => Some(winner),
                _ => None::<usize>,
            },
    {
        match self.table.stage {
            Stage::Over { winner } => Some(winner),
            _ => None,
        }
    }

    /// The highest score among the players in play.
    pub fn top_score(&self) -> (top: usize)
        requires
            self.wf(),
        ensures
            top == self@.top_score(),
    {
        self.table.top_score()
    }

    /// The players in play who have the highest score, in turn order.
    pub fn leaders(&self) -> (ids: Vec<usize>)
        requires
            self.wf(),
        ensures
            ids@ == self@.leaders(),
    {
        self.table.ranked(true)
    }

    /// Applies the answer `choice` to what the game waits for. An answer
    /// that is refused changes nothing.
    pub fn answer(&mut self, choice: usize) -> (result: Result<Vec<Event>, Refusal>)
        requires
            old(self).wf(),
        ensures
            final(self).wf(),
            final(self).names() == old(self).names(),
            answered(old(self)@, choice, final(self)@, result),
    {
        self.table.answer(choice)
    }

    /// Makes the roll the game waits for: draws one of the six faces of the
    /// roller's die, each as likely as any other, and answers with it.
    /// Whatever the draw, the game goes on as `answer` would with that face.
    pub fn roll(&mut self) -> (result: Result<Vec<Event>, Refusal>)
        requires
            old(self).wf(),
        ensures
            final(self).wf(),
            final(self).names() == old(self).names(),
            old(self)@.awaits_roll() ==> exists|face: usize|
                face < FACES && answered(old(self)@, face, final(self)@, result),
            old(self)@.stage is Over ==> result == Err::<Vec<Event>, Refusal>(Refusal::GameOver)
                && final(self)@ == old(self)@,
            !old(self)@.awaits_roll() && !(old(self)@.stage is Over) ==> result == Err::<
                Vec<Event>,
                Refusal,
            >(Refusal::NotARoll) && final(self)@ == old(self)@,
    {
        match self.table.stage {
            Stage::Move | Stage::Duel { .. } => {
                let face: usize = random_index(FACES);
                let result = self.table.answer(face);
                assert(answered(old(self)@, face, self@, result));
                result
            },
            Stage::Over { .. } => Err(Refusal::GameOver),
            _ => Err(Refusal::NotARoll),
        }
    }

    /// Replays a script of answers, one after the other, and stops at the
    /// first that is refused.
    pub fn replay(&mut self, script: &Vec<usize>) -> (replay: Replay)
        requires
            old(self).wf(),
        ensures
            final(self).wf(),
            final(self).names() == old(self).names(),
            final(self)@ == old(self)@.run(script@).state,
            replay.events@ == old(self)@.run(script@).events,
            replay.applied == old(self)@.run(script@).applied,
            replay.refused == old(self)@.run(script@).refused,
    {
        let mut events: Vec<Event> = Vec::new();
        let mut refused: Option<Refusal> = None;
        let mut applied: usize = 0;
        proof {
            assert(script@.skip(0) =~= script@);
            assert(events@ + self@.run(script@).events =~= self@.run(script@).events);
        }
        while applied < script.len() && refused.is_none()
            invariant
                self.wf(),
                self.names() == old(self).names(),
                applied <= script.len(),
                refused is None ==> old(self)@.run(script@) == (Run {
                    state: self@.run(script@.skip(applied as int)).state,
                    events: events@ + self@.run(script@.skip(applied as int)).events,
                    applied: (applied + self@.run(script@.skip(applied as int)).applied) as nat,
                    refused: self@.run(script@.skip(applied as int)).refused,
                }),
                refused is Some ==> old(self)@.run(script@) == (Run {
                    state: self@,
                    events: events@,
                    applied: applied as nat,
                    refused,
                }),
            decreases script.len() - applied + (if refused is None { 1int } else { 0int }),
        {
            let ghost rest = script@.skip(applied as int);
            let ghost before = self@;
            assert(rest[0] == script@[applied as int]);
            assert(rest.drop_first() =~= script@.skip(applied + 1));
            match self.table.answer(script[applied]) {
                Ok(mut more) => {
                    assert(before.run(rest).events =~= more@ + self@.run(script@.skip(applied + 1)).events);
                    events.append(&mut more);
                    applied = applied + 1;
                },
                Err(refusal) => {
                    refused = Some(refusal);
                    assert(events@ =~= events@ + before.run(rest).events);
                },
            }
        }
        proof {
            if refused is None {
                assert(script@.skip(applied as int).len() == 0);
                assert(events@ =~= events@ + self@.run(script@.skip(applied as int)).events);
            }
        }
        Replay { events, applied, refused }
    }
}

} // verus!
