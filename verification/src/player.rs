//! A player: a place on the board, a score and a die.

use crate::board::BOARD_SIZE;
use crate::die::{ascending, Die, FACES};
use vstd::prelude::*;

verus! {

/// What a player is, as plain values.
#[verifier::ext_equal]
pub struct PlayerView {
    pub location: nat,
    pub score: nat,
    pub die: Seq<usize>,
}

impl PlayerView {
    /// On the board, with a score that can be stored, and a six-faced die in
    /// ascending order.
    pub open spec fn wf(self) -> bool {
        &&& self.location < BOARD_SIZE
        &&& self.score <= usize::MAX
        &&& self.die.len() == FACES
        &&& ascending(self.die)
    }
}

/// A player of the game.
#[derive(Clone, Copy, Debug, PartialEq, Eq, PartialOrd, Ord, Hash)]
pub struct Player {
    location: usize,
    score: usize,
    die: Die,
}

impl View for Player {
    type V = PlayerView;

    closed spec fn view(&self) -> PlayerView {
        PlayerView { location: self.location as nat, score: self.score as nat, die: self.die@ }
    }
}

impl Player {
    /// This holds of every player.
    #[verifier::type_invariant]
    pub open spec fn wf(&self) -> bool {
        self@.wf()
    }

    /// A player at the start of a game: on tile 0, with no points.
    pub fn new(die: Die) -> (player: Player)
        ensures
            player.wf(),
            player@ == (PlayerView { location: 0, score: 0, die: die@ }),
    {
        proof {
            use_type_invariant(&die);
        }
        Player { location: 0, score: 0, die }
    }

    /// A player in the middle of a game: on tile `location`, with `score`
    /// points. There is no player off the board.
    pub fn resume(die: Die, location: usize, score: usize) -> (player: Option<Player>)
        ensures
            player is Some <==> location < BOARD_SIZE,
            player matches Some(made) ==> made.wf() && made@ == (PlayerView {
                location: location as nat,
                score: score as nat,
                die: die@,
            }),
    {
        proof {
            use_type_invariant(&die);
        }
        if location < BOARD_SIZE {
            Some(Player { location, score, die })
        } else {
            None
        }
    }

    /// The tile the player stands on.
    pub fn location(&self) -> (location: usize)
        ensures
            location == self@.location,
            location < BOARD_SIZE,
    {
        proof {
            use_type_invariant(self);
        }
        self.location
    }

    /// The duels won so far.
    pub fn score(&self) -> (score: usize)
        ensures
            score == self@.score,
    {
        self.score
    }

    /// The player's die.
    pub fn die(&self) -> (die: Die)
        ensures
            die@ == self@.die,
            die.wf(),
    {
        proof {
            use_type_invariant(self);
        }
        self.die
    }

    /// Puts the player on tile `location`.
    pub(crate) fn move_to(&mut self, location: usize)
        requires
            location < BOARD_SIZE,
        ensures
            final(self)@ == (PlayerView { location: location as nat, ..old(self)@ }),
    {
        proof {
            use_type_invariant(&*self);
        }
        self.location = location;
    }

    /// Gives the player another die.
    pub(crate) fn set_die(&mut self, die: Die)
        ensures
            final(self)@ == (PlayerView { die: die@, ..old(self)@ }),
    {
        proof {
            use_type_invariant(&*self);
            use_type_invariant(&die);
        }
        self.die = die;
    }

    /// Gives the player one more point.
    pub(crate) fn add_point(&mut self)
        requires
            old(self)@.score < usize::MAX,
        ensures
            final(self)@ == (PlayerView { score: old(self)@.score + 1, ..old(self)@ }),
    {
        proof {
            use_type_invariant(&*self);
        }
        self.score = self.score + 1;
    }
}

} // verus!
