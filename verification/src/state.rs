//! The game as a state machine over plain values.
//!
//! A state waits for one answer: an index into the options it offers. `step`
//! gives the state that follows an answer and the events to narrate;
//! `refusal` says which answers are turned down, and why.

use crate::board::{landing, laps, layout, Tile, BOARD_SIZE};
use crate::die::{adjusted, replaced, FACES};
use crate::duel::actor_beats;
use crate::player::PlayerView;
use vstd::prelude::*;

verus! {

/// The score at which a round can end the game.
pub const WINNING_SCORE: usize = 5;

/// Rolls in a duel, both sides together.
pub const DUEL_LENGTH: usize = 6;

/// What the game waits for.
#[derive(Clone, Copy, Debug, PartialEq, Eq, Structural)]
pub enum Stage {
    /// The acting player's roll, which moves them.
    Move,
    /// A face of the acting player's die, to raise by two for a completed
    /// lap. `laps` bonuses are still due, this one counted; the player lands
    /// on `landing` after the last.
    LapBonus { laps: usize, landing: usize },
    /// A face of the acting player's die, to lower by two.
    Wreck,
    /// A face of the acting player's die, to raise by one.
    Improve,
    /// An opponent, for the tile the acting player stands on.
    PickOpponent { tile: Tile },
    /// A face of the opponent's die, to lower by one.
    SabotageFace { opponent: usize },
    /// A face of the acting player's die, to give away.
    SwapOwnFace { opponent: usize },
    /// A face of the opponent's die, to take for `own_face`.
    SwapTheirFace { opponent: usize, own_face: usize },
    /// The next roll of a duel. The two sides roll in turn, the acting player
    /// first.
    Duel { product: bool, opponent: usize },
    /// Nothing: the game has a winner.
    Over { winner: usize },
}

impl Stage {
    /// The opponent the stage is about, if it is about one.
    pub open spec fn opponent(self) -> Option<usize> {
        match self {
            Stage::SabotageFace { opponent } => Some(opponent),
            Stage::SwapOwnFace { opponent } => Some(opponent),
            Stage::SwapTheirFace { opponent, .. } => Some(opponent),
            Stage::Duel { opponent, .. } => Some(opponent),
            _ => None,
        }
    }
}

/// Something that happened, for the host to narrate. Players are named by
/// their identity: their position in the order in which they joined.
#[derive(Clone, Copy, Debug, PartialEq, Eq, Structural)]
pub enum Event {
    /// A player rolled `value`, to move or in a duel.
    Rolled { player: usize, value: usize },
    /// A player completed a lap and is owed a bonus.
    PassedGo { player: usize },
    /// A player came to rest on a tile.
    Landed { player: usize, location: usize, tile: Tile },
    /// A duel ended.
    DuelWon { winner: usize, loser: usize },
    /// A player left the game: others are tied in the lead.
    Eliminated { player: usize },
    /// The leaders are tied; they play on among themselves.
    SuddenDeath,
    /// A player won the game.
    Won { player: usize },
}

/// Why an answer is turned down. A refused answer changes nothing.
#[derive(Clone, Copy, Debug, PartialEq, Eq, Structural)]
pub enum Refusal {
    /// The game has a winner and takes no more answers.
    GameOver,
    /// The answer is not among the options offered.
    OutOfRange,
    /// The roll would take a lone player to a tile that needs an opponent.
    NoOpponent,
    /// The winner of the duel already has the highest score that can be stored.
    ScoreLimit,
    /// A roll was asked for while the game waits for a choice.
    NotARoll,
}

/// The whole game, as plain values.
#[verifier::ext_equal]
pub struct GameView {
    /// Every player who joined, by identity.
    pub players: Seq<PlayerView>,
    /// The identities still in play, in turn order.
    pub active: Seq<usize>,
    /// The position in `active` of the acting player.
    pub turn: nat,
    /// What the game waits for.
    pub stage: Stage,
    /// The rolls of the duel under way, in the order they were made.
    pub rolls: Seq<usize>,
}

/// A state and the events that led to it.
#[verifier::ext_equal]
pub struct Outcome {
    pub state: GameView,
    pub events: Seq<Event>,
}

impl Outcome {
    /// The same outcome, with `earlier` narrated first.
    pub open spec fn after(self, earlier: Seq<Event>) -> Outcome {
        Outcome { state: self.state, events: earlier + self.events }
    }
}

/// What replaying a script of answers leads to.
#[verifier::ext_equal]
pub struct Run {
    /// The state after the last answer that was applied.
    pub state: GameView,
    /// The events of the answers that were applied, in order.
    pub events: Seq<Event>,
    /// How many answers were applied.
    pub applied: nat,
    /// Why the answer after those was turned down, if one was.
    pub refused: Option<Refusal>,
}

/// The highest score among the players `ids`; zero if there are none.
pub open spec fn best_score(players: Seq<PlayerView>, ids: Seq<usize>) -> nat
    decreases ids.len(),
{
    if ids.len() == 0 {
        0
    } else {
        let rest = best_score(players, ids.drop_last());
        let last = players[ids.last() as int].score;
        if last > rest {
            last
        } else {
            rest
        }
    }
}

/// The events that tell the players `ids` that they leave the game.
pub open spec fn farewells(ids: Seq<usize>) -> Seq<Event> {
    ids.map_values(|id: usize| Event::Eliminated { player: id })
}

impl GameView {
    /// The identity of the acting player.
    pub open spec fn actor(self) -> usize {
        self.active[self.turn as int]
    }

    /// Whether `id` is in play and is not the acting player.
    pub open spec fn is_opponent(self, id: usize) -> bool {
        self.active.contains(id) && id != self.actor()
    }

    /// The players the acting player can pick as opponent, in turn order:
    /// everyone in play but the acting player.
    pub open spec fn opponents(self) -> Seq<usize> {
        self.active.remove(self.turn as int)
    }

    /// Who makes the next roll: in a duel the two sides alternate.
    pub open spec fn roller(self) -> usize {
        match self.stage {
            Stage::Duel { opponent, .. } => if self.rolls.len() % 2 == 1 {
                opponent
            } else {
                self.actor()
            },
            _ => self.actor(),
        }
    }

    /// How many answers the state offers: they are the indices below it.
    pub open spec fn options(self) -> nat {
        match self.stage {
            Stage::Over { .. } => 0,
            Stage::PickOpponent { .. } => (self.active.len() - 1) as nat,
            _ => FACES as nat,
        }
    }

    /// Whether the state waits for a roll, not for a choice.
    pub open spec fn awaits_roll(self) -> bool {
        self.stage == Stage::Move || self.stage is Duel
    }

    /// What holds of the players of every state: each is well formed, those
    /// in play are listed in the order in which they joined, and one of them
    /// is the acting player.
    pub open spec fn seats_wf(self) -> bool {
        &&& forall|i: int| 0 <= i < self.players.len() ==> (#[trigger] self.players[i]).wf()
        &&& self.active.len() >= 1
        &&& forall|i: int| 0 <= i < self.active.len() ==> #[trigger] self.active[i] < self.players.len()
        &&& forall|i: int, j: int| 0 <= i < j < self.active.len() ==> self.active[i] < self.active[j]
        &&& self.turn < self.active.len()
    }

    /// What holds of every state of a game.
    pub open spec fn wf(self) -> bool {
        self.seats_wf() && self.stage_wf()
    }

    /// What holds of the stage: an opponent is never the acting player, rolls
    /// are kept only during a duel, and a winner has the winning score and
    /// leads alone.
    pub open spec fn stage_wf(self) -> bool {
        match self.stage {
            Stage::Move | Stage::Wreck | Stage::Improve => self.rolls.len() == 0,
            Stage::LapBonus { laps, landing } => {
                &&& laps >= 1
                &&& landing < BOARD_SIZE
                &&& layout()[landing as int].needs_opponent() ==> self.active.len() >= 2
                &&& self.rolls.len() == 0
            },
            Stage::PickOpponent { tile } => {
                &&& tile.needs_opponent()
                &&& self.active.len() >= 2
                &&& self.rolls.len() == 0
            },
            Stage::SabotageFace { opponent } | Stage::SwapOwnFace { opponent } => {
                &&& self.is_opponent(opponent)
                &&& self.rolls.len() == 0
            },
            Stage::SwapTheirFace { opponent, own_face } => {
                &&& self.is_opponent(opponent)
                &&& own_face < FACES
                &&& self.rolls.len() == 0
            },
            Stage::Duel { opponent, .. } => {
                &&& self.is_opponent(opponent)
                &&& self.rolls.len() < DUEL_LENGTH
            },
            Stage::Over { winner } => {
                &&& self.active.contains(winner)
                &&& self.players[winner as int].score >= WINNING_SCORE
                &&& forall|i: int| 0 <= i < self.active.len() && self.active[i] != winner ==> self.players[#[trigger] self.active[i] as int].score < self.players[winner as int].score
                &&& self.rolls.len() == 0
            },
        }
    }

    /// The same game at another stage.
    pub open spec fn at_stage(self, stage: Stage) -> GameView {
        GameView { stage, ..self }
    }

    /// The same game with another die for player `id`.
    pub open spec fn with_die(self, id: usize, die: Seq<usize>) -> GameView {
        GameView {
            players: self.players.update(id as int, PlayerView { die, ..self.players[id as int] }),
            ..self
        }
    }

    /// The same game with player `id` on tile `location`.
    pub open spec fn with_location(self, id: usize, location: nat) -> GameView {
        GameView {
            players: self.players.update(
                id as int,
                PlayerView { location, ..self.players[id as int] },
            ),
            ..self
        }
    }

    /// The same game with one more point for player `id`.
    pub open spec fn with_point(self, id: usize) -> GameView {
        GameView {
            players: self.players.update(
                id as int,
                PlayerView { score: self.players[id as int].score + 1, ..self.players[id as int] },
            ),
            ..self
        }
    }

    /// The highest score among the players in play.
    pub open spec fn top_score(self) -> nat {
        best_score(self.players, self.active)
    }

    /// Whether player `id` has the highest score.
    pub open spec fn leads(self) -> spec_fn(usize) -> bool {
        |id: usize| self.players[id as int].score == self.top_score()
    }

    /// Whether player `id` is behind the highest score.
    pub open spec fn trails(self) -> spec_fn(usize) -> bool {
        |id: usize| self.players[id as int].score != self.top_score()
    }

    /// The players in play who have the highest score, in turn order.
    pub open spec fn leaders(self) -> Seq<usize> {
        self.active.filter(self.leads())
    }

    /// The players in play who are behind the highest score, in turn order.
    pub open spec fn trailers(self) -> Seq<usize> {
        self.active.filter(self.trails())
    }

    /// The end of a round. Below the winning score the next round begins. At
    /// or above it, a lone leader wins; tied leaders play on without the
    /// others, who leave the game, and keep their scores.
    pub open spec fn settle(self) -> Outcome {
        if self.top_score() < WINNING_SCORE {
            Outcome { state: GameView { turn: 0, stage: Stage::Move, ..self }, events: seq![] }
        } else if self.leaders().len() == 1 {
            let winner = self.leaders()[0];
            Outcome {
                state: GameView { stage: Stage::Over { winner }, ..self },
                events: seq![Event::Won { player: winner }],
            }
        } else {
            Outcome {
                state: GameView { active: self.leaders(), turn: 0, stage: Stage::Move, ..self },
                events: farewells(self.trailers()).push(Event::SuddenDeath),
            }
        }
    }

    /// The end of the acting player's turn: the next player in turn order
    /// acts, or the round ends.
    pub open spec fn finish_turn(self) -> Outcome {
        if self.turn + 1 < self.active.len() {
            Outcome {
                state: GameView { turn: self.turn + 1, stage: Stage::Move, ..self },
                events: seq![],
            }
        } else {
            self.settle()
        }
    }

    /// The acting player comes to rest on `landing`.
    pub open spec fn arrive(self, landing: usize) -> Outcome {
        let who = self.actor();
        let tile = layout()[landing as int];
        let moved = self.with_location(who, landing as nat);
        let announced = seq![Event::Landed { player: who, location: landing, tile }];
        match tile {
            Tile::Go => moved.finish_turn().after(announced),
            Tile::Wreck => Outcome { state: moved.at_stage(Stage::Wreck), events: announced },
            Tile::Improve => Outcome { state: moved.at_stage(Stage::Improve), events: announced },
            _ => Outcome { state: moved.at_stage(Stage::PickOpponent { tile }), events: announced },
        }
    }

    /// The acting player rolls the face at `choice` and moves.
    pub open spec fn step_move(self, choice: usize) -> Outcome {
        let who = self.actor();
        let value = self.players[who as int].die[choice as int];
        let from = self.players[who as int].location;
        let rolled = seq![Event::Rolled { player: who, value }];
        if laps(from, value as nat) > 0 {
            Outcome {
                state: self.at_stage(
                    Stage::LapBonus {
                        laps: laps(from, value as nat) as usize,
                        landing: landing(from, value as nat) as usize,
                    },
                ),
                events: rolled.push(Event::PassedGo { player: who }),
            }
        } else {
            self.arrive(landing(from, value as nat) as usize).after(rolled)
        }
    }

    /// The acting player raises the face at `choice` by two for a lap.
    pub open spec fn step_lap_bonus(self, laps: usize, landing: usize, choice: usize) -> Outcome {
        let who = self.actor();
        let raised = self.with_die(who, adjusted(self.players[who as int].die, choice as int, 2));
        if laps > 1 {
            Outcome {
                state: raised.at_stage(Stage::LapBonus { laps: (laps - 1) as usize, landing }),
                events: seq![Event::PassedGo { player: who }],
            }
        } else {
            raised.arrive(landing)
        }
    }

    /// Player `id` has the face at `choice` moved by `delta`, which ends the turn.
    pub open spec fn step_adjust(self, id: usize, choice: usize, delta: int) -> Outcome {
        self.with_die(id, adjusted(self.players[id as int].die, choice as int, delta)).finish_turn()
    }

    /// The acting player picks the opponent at `choice`.
    pub open spec fn step_pick(self, tile: Tile, choice: usize) -> Outcome {
        let opponent = self.opponents()[choice as int];
        let stage = match tile {
            Tile::Sabotage => Stage::SabotageFace { opponent },
            Tile::Swap => Stage::SwapOwnFace { opponent },
            Tile::SumDuel => Stage::Duel { product: false, opponent },
            Tile::ProductDuel => Stage::Duel { product: true, opponent },
            _ => self.stage,
        };
        Outcome { state: self.at_stage(stage), events: seq![] }
    }

    /// The acting player's face at `own_face` and the opponent's face at
    /// `choice` change places, which ends the turn.
    pub open spec fn step_swap(self, opponent: usize, own_face: usize, choice: usize) -> Outcome {
        let who = self.actor();
        let mine = self.players[who as int].die;
        let theirs = self.players[opponent as int].die;
        self.with_die(who, replaced(mine, own_face as int, theirs[choice as int])).with_die(
            opponent,
            replaced(theirs, choice as int, mine[own_face as int]),
        ).finish_turn()
    }

    /// Who wins a duel whose six rolls are `rolls`: the acting player rolled
    /// the first, third and fifth, the opponent the others.
    pub open spec fn duel_winner(self, product: bool, opponent: usize, rolls: Seq<usize>) -> usize {
        if actor_beats(product, seq![rolls[0], rolls[2], rolls[4]], seq![rolls[1], rolls[3], rolls[5]]) {
            self.actor()
        } else {
            opponent
        }
    }

    /// The side whose turn it is rolls the face at `choice`. The sixth roll
    /// decides the duel, gives the winner a point and ends the turn.
    pub open spec fn step_duel(self, product: bool, opponent: usize, choice: usize) -> Outcome {
        let roller = self.roller();
        let value = self.players[roller as int].die[choice as int];
        let rolls = self.rolls.push(value);
        let rolled = seq![Event::Rolled { player: roller, value }];
        if rolls.len() < DUEL_LENGTH {
            Outcome { state: GameView { rolls, ..self }, events: rolled }
        } else {
            let winner = self.duel_winner(product, opponent, rolls);
            let loser = if winner == opponent {
                self.actor()
            } else {
                opponent
            };
            GameView { rolls: seq![], ..self }.with_point(winner).finish_turn().after(
                rolled.push(Event::DuelWon { winner, loser }),
            )
        }
    }

    /// Why the answer `choice` is turned down, if it is.
    pub open spec fn refusal(self, choice: usize) -> Option<Refusal> {
        if self.stage is Over {
            Some(Refusal::GameOver)
        } else if choice >= self.options() {
            Some(Refusal::OutOfRange)
        } else {
            match self.stage {
                Stage::Move => {
                    let mover = self.players[self.actor() as int];
                    let target = landing(mover.location, mover.die[choice as int] as nat);
                    if layout()[target as int].needs_opponent() && self.active.len() < 2 {
                        Some(Refusal::NoOpponent)
                    } else {
                        None
                    }
                },
                Stage::Duel { product, opponent } => {
                    let value = self.players[self.roller() as int].die[choice as int];
                    let rolls = self.rolls.push(value);
                    if rolls.len() == DUEL_LENGTH && self.players[self.duel_winner(
                        product,
                        opponent,
                        rolls,
                    ) as int].score >= usize::MAX {
                        Some(Refusal::ScoreLimit)
                    } else {
                        None
                    }
                },
                _ => None,
            }
        }
    }

    /// Replays `script`, one answer after the other, up to the first answer
    /// that is refused.
    pub open spec fn run(self, script: Seq<usize>) -> Run
        decreases script.len(),
    {
        if script.len() == 0 {
            Run { state: self, events: seq![], applied: 0, refused: None }
        } else {
            match self.refusal(script[0]) {
                Some(refusal) => Run { state: self, events: seq![], applied: 0, refused: Some(refusal) },
                None => {
                    let first = self.step(script[0]);
                    let rest = first.state.run(script.drop_first());
                    Run {
                        state: rest.state,
                        events: first.events + rest.events,
                        applied: rest.applied + 1,
                        refused: rest.refused,
                    }
                },
            }
        }
    }

    /// The state that follows the answer `choice`, and what there is to
    /// narrate. It is meant for answers that are not refused.
    pub open spec fn step(self, choice: usize) -> Outcome {
        match self.stage {
            Stage::Move => self.step_move(choice),
            Stage::LapBonus { laps, landing } => self.step_lap_bonus(laps, landing, choice),
            Stage::Wreck => self.step_adjust(self.actor(), choice, -2),
            Stage::Improve => self.step_adjust(self.actor(), choice, 1),
            Stage::PickOpponent { tile } => self.step_pick(tile, choice),
            Stage::SabotageFace { opponent } => self.step_adjust(opponent, choice, -1),
            Stage::SwapOwnFace { opponent } => Outcome {
                state: self.at_stage(Stage::SwapTheirFace { opponent, own_face: choice }),
                events: seq![],
            },
            Stage::SwapTheirFace { opponent, own_face } => self.step_swap(opponent, own_face, choice),
            Stage::Duel { product, opponent } => self.step_duel(product, opponent, choice),
            Stage::Over { .. } => Outcome { state: self, events: seq![] },
        }
    }
}

/// Whether `result` and `after` are what the answer `choice` gives in the
/// state `before`: a refusal that changes nothing, or the next state with
/// its events.
pub open spec fn answered(
    before: GameView,
    choice: usize,
    after: GameView,
    result: Result<Vec<Event>, Refusal>,
) -> bool {
    match result {
        Ok(events) => {
            &&& before.refusal(choice) is None
            &&& after == before.step(choice).state
            &&& events@ == before.step(choice).events
        },
        Err(refusal) => {
            &&& before.refusal(choice) == Some(refusal)
            &&& after == before
        },
    }
}

/// `best_score` is the score of one of the players and no player has more.
pub proof fn lemma_best_score(players: Seq<PlayerView>, ids: Seq<usize>)
    ensures
        forall|i: int| 0 <= i < ids.len() ==> players[#[trigger] ids[i] as int].score <= best_score(players, ids),
        ids.len() > 0 ==> exists|i: int| 0 <= i < ids.len() && players[#[trigger] ids[i] as int].score == best_score(players, ids),
    decreases ids.len(),
{
    if ids.len() > 0 {
        let front = ids.drop_last();
        lemma_best_score(players, front);
        assert forall|i: int| 0 <= i < ids.len() implies players[#[trigger] ids[i] as int].score
            <= best_score(players, ids) by {
            if i < front.len() {
                assert(front[i] == ids[i]);
            }
        }
        if front.len() > 0 && best_score(players, ids) == best_score(players, front) {
            let at = choose|i: int| 0 <= i < front.len() && players[#[trigger] front[i] as int].score == best_score(players, front);
            assert(ids[at] == front[at]);
        } else {
            assert(players[ids[ids.len() - 1] as int].score == best_score(players, ids));
        }
    }
}

/// Picking entries out of an increasing list leaves an increasing list of
/// entries of that list.
pub proof fn lemma_filter_increasing(ids: Seq<usize>, keep: spec_fn(usize) -> bool)
    requires
        forall|i: int, j: int| 0 <= i < j < ids.len() ==> ids[i] < ids[j],
    ensures
        forall|i: int, j: int| 0 <= i < j < ids.filter(keep).len() ==> ids.filter(keep)[i] < ids.filter(keep)[j],
        forall|i: int| 0 <= i < ids.filter(keep).len() ==> ids.contains(#[trigger] ids.filter(keep)[i]),
        forall|i: int| 0 <= i < ids.filter(keep).len() ==> keep(#[trigger] ids.filter(keep)[i]),
        forall|i: int| 0 <= i < ids.len() && keep(ids[i]) ==> ids.filter(keep).contains(#[trigger] ids[i]),
    decreases ids.len(),
{
    reveal(Seq::filter);
    let kept = ids.filter(keep);
    if ids.len() > 0 {
        let front = ids.drop_last();
        let last = ids.last();
        lemma_filter_increasing(front, keep);
        let before = front.filter(keep);
        assert forall|i: int| 0 <= i < before.len() implies #[trigger] before[i] < last && ids.contains(before[i]) by {
            assert(front.contains(before[i]));
            let at = choose|at: int| 0 <= at < front.len() && front[at] == before[i];
            assert(ids[at] == before[i]);
        }
        assert forall|i: int| 0 <= i < kept.len() implies ids.contains(#[trigger] kept[i]) by {
            if i < before.len() {
                assert(kept[i] == before[i]);
            } else {
                assert(kept[i] == ids[ids.len() - 1]);
            }
        }
        assert forall|i: int| 0 <= i < ids.len() && keep(ids[i]) implies kept.contains(#[trigger] ids[i]) by {
            if i < front.len() {
                assert(front[i] == ids[i]);
                assert(before.contains(front[i]));
                let at = choose|at: int| 0 <= at < before.len() && before[at] == front[i];
                assert(kept[at] == ids[i]);
            } else {
                assert(kept[kept.len() - 1] == ids[i]);
            }
        }
    }
}

impl GameView {
    /// Someone leads, and the leaders are players in play, in turn order.
    pub proof fn lemma_leaders(self)
        requires
            self.seats_wf(),
        ensures
            self.leaders().len() >= 1,
            forall|i: int, j: int| 0 <= i < j < self.leaders().len() ==> self.leaders()[i] < self.leaders()[j],
            forall|i: int| 0 <= i < self.leaders().len() ==> self.active.contains(#[trigger] self.leaders()[i]),
            forall|i: int| 0 <= i < self.leaders().len() ==> self.players[#[trigger] self.leaders()[i] as int].score == self.top_score(),
            forall|i: int| 0 <= i < self.active.len() && self.players[self.active[i] as int].score == self.top_score() ==> self.leaders().contains(#[trigger] self.active[i]),
    {
        lemma_best_score(self.players, self.active);
        lemma_filter_increasing(self.active, self.leads());
        let at = choose|i: int| 0 <= i < self.active.len() && self.players[#[trigger] self.active[i] as int].score == self.top_score();
        assert(self.leads()(self.active[at]));
        assert(self.leaders().contains(self.active[at]));
        assert forall|i: int| 0 <= i < self.leaders().len() implies self.players[#[trigger] self.leaders()[i] as int].score == self.top_score() by {
            assert(self.leads()(self.leaders()[i]));
        }
    }

    /// The end of a round leaves a state of the game.
    pub proof fn lemma_settle_wf(self)
        requires
            self.seats_wf(),
            self.rolls.len() == 0,
        ensures
            self.settle().state.wf(),
            self.settle().state.players == self.players,
    {
        self.lemma_leaders();
        lemma_best_score(self.players, self.active);
        let next = self.settle().state;
        if self.top_score() >= WINNING_SCORE && self.leaders().len() != 1 {
            assert forall|i: int| 0 <= i < next.active.len() implies #[trigger] next.active[i] < next.players.len() by {
                assert(self.active.contains(self.leaders()[i]));
            }
        }
        if self.top_score() >= WINNING_SCORE && self.leaders().len() == 1 {
            let winner = self.leaders()[0];
            assert forall|i: int| 0 <= i < self.active.len() && self.active[i] != winner implies self.players[#[trigger] self.active[i] as int].score < self.players[winner as int].score by {
                if self.players[self.active[i] as int].score == self.top_score() {
                    assert(self.leaders().contains(self.active[i]));
                }
            }
        }
    }

    /// The end of a turn leaves a state of the game.
    pub proof fn lemma_finish_turn_wf(self)
        requires
            self.seats_wf(),
            self.rolls.len() == 0,
        ensures
            self.finish_turn().state.wf(),
            self.finish_turn().state.players == self.players,
    {
        self.lemma_settle_wf();
    }

    /// Arriving on a tile leaves a state of the game.
    pub proof fn lemma_arrive_wf(self, landing: usize)
        requires
            self.seats_wf(),
            self.rolls.len() == 0,
            landing < BOARD_SIZE,
            layout()[landing as int].needs_opponent() ==> self.active.len() >= 2,
        ensures
            self.arrive(landing).state.wf(),
            self.arrive(landing).state.players.len() == self.players.len(),
    {
        let moved = self.with_location(self.actor(), landing as nat);
        assert(moved.seats_wf());
        moved.lemma_finish_turn_wf();
    }

    /// A new die for a player in the game leaves the players well formed.
    pub proof fn lemma_with_die_wf(self, id: usize, faces: Seq<usize>, index: int, value: usize)
        requires
            self.seats_wf(),
            id < self.players.len(),
            0 <= index < FACES,
            faces.len() == FACES,
        ensures
            self.with_die(id, replaced(faces, index, value)).seats_wf(),
    {
        crate::die::lemma_replaced_is_canonical(faces, index, value);
    }

    /// An opponent is a player of the game.
    pub proof fn lemma_opponent_plays(self, opponent: usize)
        requires
            self.seats_wf(),
            self.is_opponent(opponent),
        ensures
            opponent < self.players.len(),
            opponent != self.actor(),
    {
        let at = choose|at: int| 0 <= at < self.active.len() && self.active[at] == opponent;
        assert(self.active[at] < self.players.len());
    }

    /// Every opponent on offer is in play and is not the acting player.
    pub proof fn lemma_opponents(self, choice: int)
        requires
            self.seats_wf(),
            0 <= choice < self.active.len() - 1,
        ensures
            self.is_opponent(self.opponents()[choice]),
    {
        let at: int = if choice < self.turn { choice } else { choice + 1 };
        assert(self.opponents()[choice] == self.active[at]);
        assert(self.active.contains(self.active[at]));
    }

    /// An answer that is not refused leads from a state of the game to a
    /// state of the game, with the same players.
    pub proof fn lemma_step_wf(self, choice: usize)
        requires
            self.wf(),
            self.refusal(choice) is None,
        ensures
            self.step(choice).state.wf(),
            self.step(choice).state.players.len() == self.players.len(),
    {
        let who = self.actor();
        let die = self.players[who as int].die;
        assert(self.players[who as int].wf());
        match self.stage {
            Stage::Move => {
                let from = self.players[who as int].location;
                let value = die[choice as int];
                if laps(from, value as nat) == 0 {
                    self.lemma_arrive_wf(landing(from, value as nat) as usize);
                }
            },
            Stage::LapBonus { laps, landing } => {
                let raised = self.with_die(who, adjusted(die, choice as int, 2));
                self.lemma_with_die_wf(who, die, choice as int, crate::die::shifted(die[choice as int], 2));
                if laps <= 1 {
                    raised.lemma_arrive_wf(landing);
                }
            },
            Stage::Wreck => {
                self.lemma_with_die_wf(who, die, choice as int, crate::die::shifted(die[choice as int], -2));
                self.with_die(who, adjusted(die, choice as int, -2)).lemma_finish_turn_wf();
            },
            Stage::Improve => {
                self.lemma_with_die_wf(who, die, choice as int, crate::die::shifted(die[choice as int], 1));
                self.with_die(who, adjusted(die, choice as int, 1)).lemma_finish_turn_wf();
            },
            Stage::PickOpponent { tile } => {
                self.lemma_opponents(choice as int);
            },
            Stage::SabotageFace { opponent } => {
                self.lemma_opponent_plays(opponent);
                let theirs = self.players[opponent as int].die;
                assert(self.players[opponent as int].wf());
                self.lemma_with_die_wf(opponent, theirs, choice as int, crate::die::shifted(theirs[choice as int], -1));
                self.with_die(opponent, adjusted(theirs, choice as int, -1)).lemma_finish_turn_wf();
            },
            Stage::SwapOwnFace { opponent } => {},
            Stage::SwapTheirFace { opponent, own_face } => {
                self.lemma_opponent_plays(opponent);
                let theirs = self.players[opponent as int].die;
                assert(self.players[opponent as int].wf());
                let half = self.with_die(who, replaced(die, own_face as int, theirs[choice as int]));
                self.lemma_with_die_wf(who, die, own_face as int, theirs[choice as int]);
                half.lemma_with_die_wf(opponent, theirs, choice as int, die[own_face as int]);
                half.with_die(opponent, replaced(theirs, choice as int, die[own_face as int])).lemma_finish_turn_wf();
            },
            Stage::Duel { product, opponent } => {
                self.lemma_opponent_plays(opponent);
                let value = self.players[self.roller() as int].die[choice as int];
                let rolls = self.rolls.push(value);
                if rolls.len() >= DUEL_LENGTH {
                    let winner = self.duel_winner(product, opponent, rolls);
                    let cleared = GameView { rolls: seq![], ..self };
                    assert(self.players[winner as int].wf());
                    assert(cleared.with_point(winner).seats_wf());
                    cleared.with_point(winner).lemma_finish_turn_wf();
                }
            },
            Stage::Over { .. } => {},
        }
    }
}

/// In every state of the game, the opponent in hand is a player in play
/// other than the acting player.
pub proof fn lemma_opponent_is_never_actor(state: GameView)
    requires
        state.wf(),
    ensures
        state.stage.opponent() matches Some(opponent) ==> opponent != state.actor()
            && state.active.contains(opponent),
{
}

/// Picking an opponent never yields the acting player: whichever option is
/// taken, the stage that follows is about another player in play.
pub proof fn lemma_pick_excludes_actor(state: GameView, tile: Tile, choice: usize)
    requires
        state.wf(),
        state.stage == (Stage::PickOpponent { tile }),
        state.refusal(choice) is None,
    ensures
        state.step(choice).state.actor() == state.actor(),
        state.step(choice).state.stage.opponent() == Some(state.opponents()[choice as int]),
        state.opponents()[choice as int] != state.actor(),
        state.active.contains(state.opponents()[choice as int]),
{
    state.lemma_opponents(choice as int);
}

/// A replay leads from a state of the game to a state of the game, with the
/// same players.
pub proof fn lemma_run_wf(state: GameView, script: Seq<usize>)
    requires
        state.wf(),
    ensures
        state.run(script).state.wf(),
        state.run(script).state.players.len() == state.players.len(),
        state.run(script).applied <= script.len(),
        state.run(script).refused is None ==> state.run(script).applied == script.len(),
    decreases script.len(),
{
    if script.len() > 0 && state.refusal(script[0]) is None {
        state.lemma_step_wf(script[0]);
        lemma_run_wf(state.step(script[0]).state, script.drop_first());
    }
}

/// Play is determined by where it starts and by the answers: two replays
/// from the same state with the same script of rolls and choices narrate the
/// same events and end in the same state.
pub proof fn lemma_replay_is_deterministic(
    first: GameView,
    second: GameView,
    first_script: Seq<usize>,
    second_script: Seq<usize>,
)
    requires
        first == second,
        first_script == second_script,
    ensures
        first.run(first_script).events == second.run(second_script).events,
        first.run(first_script).state == second.run(second_script).state,
        first.run(first_script) == second.run(second_script),
{
}

/// Within a round the players act in the order in which they joined: a turn
/// that ends before the last player's hands over to the next player in play.
pub proof fn lemma_turn_order(state: GameView)
    requires
        state.seats_wf(),
        state.turn + 1 < state.active.len(),
    ensures
        state.finish_turn().state.actor() == state.active[state.turn as int + 1],
        state.finish_turn().state.actor() > state.actor(),
        state.finish_turn().state.stage == Stage::Move,
        state.finish_turn().events == Seq::<Event>::empty(),
{
}

/// A round that ends with one player at or above the winning score and
/// everyone else behind ends the game: that player is the winner, nobody
/// leaves, and no score changes.
pub proof fn lemma_lone_leader_wins(state: GameView, winner: usize)
    requires
        state.seats_wf(),
        state.active.contains(winner),
        state.players[winner as int].score >= WINNING_SCORE,
        forall|k: int| 0 <= k < state.active.len() && state.active[k] != winner ==> state.players[#[trigger] state.active[k] as int].score < state.players[winner as int].score,
    ensures
        state.settle().state == (GameView { stage: Stage::Over { winner }, ..state }),
        state.settle().events == seq![Event::Won { player: winner }],
{
    state.lemma_leaders();
    lemma_best_score(state.players, state.active);
    let leaders = state.leaders();
    let at = choose|at: int| 0 <= at < state.active.len() && state.active[at] == winner;
    assert(state.players[state.active[at] as int].score <= state.top_score());
    assert(state.top_score() == state.players[winner as int].score) by {
        let best = choose|i: int| 0 <= i < state.active.len() && state.players[#[trigger] state.active[i] as int].score == state.top_score();
        if state.active[best] != winner {
            assert(state.players[state.active[best] as int].score < state.players[winner as int].score);
        }
    }
    assert forall|i: int| 0 <= i < leaders.len() implies #[trigger] leaders[i] == winner by {
        assert(state.active.contains(leaders[i]));
        let k = choose|k: int| 0 <= k < state.active.len() && state.active[k] == leaders[i];
        if state.active[k] != winner {
            assert(state.players[state.active[k] as int].score < state.players[winner as int].score);
        }
    }
    if leaders.len() > 1 {
        assert(leaders[0] < leaders[1]);
    }
}

/// A round that ends with two players tied at or above the winning score
/// and everyone else behind has no winner: the two play on, first the one
/// who joined earlier, with their scores as they are, and all others leave
/// the game.
pub proof fn lemma_tied_leaders_play_on(state: GameView, earlier: usize, later: usize)
    requires
        state.seats_wf(),
        state.active.contains(earlier),
        state.active.contains(later),
        earlier < later,
        state.players[earlier as int].score >= WINNING_SCORE,
        state.players[earlier as int].score == state.players[later as int].score,
        forall|k: int| 0 <= k < state.active.len() && state.active[k] != earlier && state.active[k] != later ==> state.players[#[trigger] state.active[k] as int].score < state.players[earlier as int].score,
    ensures
        state.settle().state == (GameView {
            active: seq![earlier, later],
            turn: 0,
            stage: Stage::Move,
            ..state
        }),
        state.settle().events == farewells(state.trailers()).push(Event::SuddenDeath),
        forall|k: int| 0 <= k < state.active.len() && state.active[k] != earlier && state.active[k] != later ==> state.trailers().contains(#[trigger] state.active[k]),
        !state.trailers().contains(earlier),
        !state.trailers().contains(later),
{
    state.lemma_leaders();
    lemma_best_score(state.players, state.active);
    lemma_filter_increasing(state.active, state.trails());
    let leaders = state.leaders();
    let top = state.top_score();
    let tied = state.players[earlier as int].score;
    assert(top == tied) by {
        let at = choose|at: int| 0 <= at < state.active.len() && state.active[at] == earlier;
        assert(state.players[state.active[at] as int].score <= top);
        let best = choose|i: int| 0 <= i < state.active.len() && state.players[#[trigger] state.active[i] as int].score == top;
        if state.active[best] != earlier && state.active[best] != later {
            assert(state.players[state.active[best] as int].score < tied);
        }
    }
    assert forall|i: int| 0 <= i < leaders.len() implies #[trigger] leaders[i] == earlier || leaders[i] == later by {
        assert(state.active.contains(leaders[i]));
        let k = choose|k: int| 0 <= k < state.active.len() && state.active[k] == leaders[i];
        if state.active[k] != earlier && state.active[k] != later {
            assert(state.players[state.active[k] as int].score < tied);
        }
    }
    let first = choose|at: int| 0 <= at < state.active.len() && state.active[at] == earlier;
    let second = choose|at: int| 0 <= at < state.active.len() && state.active[at] == later;
    assert(leaders.contains(state.active[first]));
    assert(leaders.contains(state.active[second]));
    let one = choose|i: int| 0 <= i < leaders.len() && leaders[i] == earlier;
    let two = choose|i: int| 0 <= i < leaders.len() && leaders[i] == later;
    assert(one != two);
    if leaders.len() > 2 {
        assert(leaders[0] < leaders[1]);
        assert(leaders[1] < leaders[2]);
    }
    assert(leaders[0] < leaders[1]);
    assert(leaders =~= seq![earlier, later]);
    assert forall|k: int| 0 <= k < state.active.len() && state.active[k] != earlier && state.active[k] != later implies state.trailers().contains(#[trigger] state.active[k]) by {
        assert(state.players[state.active[k] as int].score < tied);
        assert(state.trails()(state.active[k]));
    }
    if state.trailers().contains(earlier) {
        let i = choose|i: int| 0 <= i < state.trailers().len() && state.trailers()[i] == earlier;
        assert(state.trails()(state.trailers()[i]));
    }
    if state.trailers().contains(later) {
        let i = choose|i: int| 0 <= i < state.trailers().len() && state.trailers()[i] == later;
        assert(state.trails()(state.trailers()[i]));
    }
}

/// The end of a turn changes no player, and whoever is in play after it
/// was in play before it.
pub proof fn lemma_finish_turn_keeps_players(state: GameView)
    requires
        state.seats_wf(),
    ensures
        state.finish_turn().state.players == state.players,
        forall|i: int| 0 <= i < state.finish_turn().state.active.len() ==> state.active.contains(
            #[trigger] state.finish_turn().state.active[i],
        ),
{
    state.lemma_leaders();
    let next = state.finish_turn().state;
    assert forall|i: int| 0 <= i < next.active.len() implies state.active.contains(
        #[trigger] next.active[i],
    ) by {
        if next.active != state.active {
            assert(next.active == state.leaders());
        }
    }
}

/// The points that the answer `choice` gives player `id`: one if the
/// answer is the sixth roll of a duel and `id` wins the duel, none otherwise.
pub open spec fn points_won(state: GameView, choice: usize, id: int) -> int {
    match state.stage {
        Stage::Duel { product, opponent } => {
            let value = state.players[state.roller() as int].die[choice as int];
            let rolls = state.rolls.push(value);
            if rolls.len() == DUEL_LENGTH && id == state.duel_winner(product, opponent, rolls) {
                1
            } else {
                0
            }
        },
        _ => 0,
    }
}

/// Scores change in one way only: the answer that is the sixth roll of a
/// duel gives the winner of the duel one point. No other answer changes a
/// score, and no answer brings a player back into play.
pub proof fn lemma_scores_and_seats(state: GameView, choice: usize)
    requires
        state.wf(),
        state.refusal(choice) is None,
    ensures
        forall|i: int| 0 <= i < state.step(choice).state.active.len() ==> state.active.contains(
            #[trigger] state.step(choice).state.active[i],
        ),
        forall|id: int| 0 <= id < state.players.len() ==> (#[trigger] state.step(
            choice,
        ).state.players[id]).score == state.players[id].score + points_won(state, choice, id),
{
    let who = state.actor();
    let die = state.players[who as int].die;
    match state.stage {
        Stage::Move => {
            let from = state.players[who as int].location;
            let value = die[choice as int];
            if laps(from, value as nat) == 0 {
                let target = landing(from, value as nat) as usize;
                lemma_finish_turn_keeps_players(state.with_location(who, target as nat));
            }
        },
        Stage::LapBonus { laps, landing } => {
            let raised = state.with_die(who, adjusted(die, choice as int, 2));
            state.lemma_with_die_wf(who, die, choice as int, crate::die::shifted(die[choice as int], 2));
            if laps <= 1 {
                lemma_finish_turn_keeps_players(raised.with_location(who, landing as nat));
            }
        },
        Stage::Wreck => {
            state.lemma_with_die_wf(who, die, choice as int, crate::die::shifted(die[choice as int], -2));
            lemma_finish_turn_keeps_players(state.with_die(who, adjusted(die, choice as int, -2)));
        },
        Stage::Improve => {
            state.lemma_with_die_wf(who, die, choice as int, crate::die::shifted(die[choice as int], 1));
            lemma_finish_turn_keeps_players(state.with_die(who, adjusted(die, choice as int, 1)));
        },
        Stage::PickOpponent { .. } => {},
        Stage::SabotageFace { opponent } => {
            state.lemma_opponent_plays(opponent);
            let theirs = state.players[opponent as int].die;
            assert(state.players[opponent as int].wf());
            state.lemma_with_die_wf(opponent, theirs, choice as int, crate::die::shifted(theirs[choice as int], -1));
            lemma_finish_turn_keeps_players(state.with_die(opponent, adjusted(theirs, choice as int, -1)));
        },
        Stage::SwapOwnFace { .. } => {},
        Stage::SwapTheirFace { opponent, own_face } => {
            state.lemma_opponent_plays(opponent);
            let theirs = state.players[opponent as int].die;
            assert(state.players[opponent as int].wf());
            let half = state.with_die(who, replaced(die, own_face as int, theirs[choice as int]));
            state.lemma_with_die_wf(who, die, own_face as int, theirs[choice as int]);
            half.lemma_with_die_wf(opponent, theirs, choice as int, die[own_face as int]);
            lemma_finish_turn_keeps_players(half.with_die(opponent, replaced(theirs, choice as int, die[own_face as int])));
        },
        Stage::Duel { product, opponent } => {
            state.lemma_opponent_plays(opponent);
            let value = state.players[state.roller() as int].die[choice as int];
            let rolls = state.rolls.push(value);
            if rolls.len() >= DUEL_LENGTH {
                let winner = state.duel_winner(product, opponent, rolls);
                let cleared = GameView { rolls: seq![], ..state };
                assert(state.players[winner as int].wf());
                assert(cleared.with_point(winner).seats_wf());
                lemma_finish_turn_keeps_players(cleared.with_point(winner));
            }
        },
        Stage::Over { .. } => {},
    }
}

} // verus!
