//! The board: a loop of sixteen tiles, the same in every game.

use vstd::prelude::*;

verus! {

/// Number of tiles on the board.
pub const BOARD_SIZE: usize = 16;

/// What a tile does to the player who lands on it.
#[derive(Clone, Copy, Debug, PartialEq, Eq, Structural)]
pub enum Tile {
    /// Nothing happens.
    Go,
    /// The player lowers one face of their own die by two.
    Wreck,
    /// The player raises one face of their own die by one.
    Improve,
    /// The player lowers one face of an opponent's die by one.
    Sabotage,
    /// The player exchanges one face of their own die with one of an opponent's.
    Swap,
    /// The player and an opponent each roll three times; the sums are compared.
    SumDuel,
    /// The player and an opponent each roll three times; the products are compared.
    ProductDuel,
}

impl Tile {
    /// Whether the tile makes the player pick an opponent.
    pub open spec fn needs_opponent(self) -> bool {
        self == Tile::Sabotage || self == Tile::Swap || self == Tile::SumDuel || self
            == Tile::ProductDuel
    }

    /// Whether the tile makes the player pick an opponent.
    pub fn involves_opponent(self) -> (needed: bool)
        ensures
            needed == self.needs_opponent(),
    {
        match self {
            Tile::Go | Tile::Wreck | Tile::Improve => false,
            Tile::Sabotage | Tile::Swap | Tile::SumDuel | Tile::ProductDuel => true,
        }
    }
}

/// The tiles in board order, starting at tile 0.
pub open spec fn layout() -> Seq<Tile> {
    seq![
        Tile::Go,
        Tile::Wreck,
        Tile::Improve,
        Tile::Sabotage,
        Tile::SumDuel,
        Tile::Swap,
        Tile::Improve,
        Tile::Wreck,
        Tile::ProductDuel,
        Tile::Sabotage,
        Tile::Improve,
        Tile::Wreck,
        Tile::SumDuel,
        Tile::Swap,
        Tile::Improve,
        Tile::Sabotage,
    ]
}

/// How often a player passes the start when moving `steps` tiles from `location`.
pub open spec fn laps(location: nat, steps: nat) -> nat {
    (location + steps) / (BOARD_SIZE as nat)
}

/// The tile a player reaches when moving `steps` tiles from `location`.
pub open spec fn landing(location: nat, steps: nat) -> nat {
    (location + steps) % (BOARD_SIZE as nat)
}

/// Where a move ends and how many laps it completes. The laps are counted on
/// the whole distance, before it is reduced to a tile number.
pub fn advance(location: usize, steps: usize) -> (reached: (usize, usize))
    requires
        location < BOARD_SIZE,
    ensures
        reached.0 == laps(location as nat, steps as nat),
        reached.1 == landing(location as nat, steps as nat),
        reached.1 < BOARD_SIZE,
{
    let whole: usize = steps / BOARD_SIZE;
    let part: usize = location + steps % BOARD_SIZE;
    (whole + part / BOARD_SIZE, part % BOARD_SIZE)
}

/// The board of the game.
#[derive(Clone, Copy, Debug)]
pub struct Board {
    tiles: [Tile; 16],
}

impl View for Board {
    type V = Seq<Tile>;

    closed spec fn view(&self) -> Seq<Tile> {
        self.tiles@
    }
}

impl Board {
    /// Every board has the one layout of the game.
    #[verifier::type_invariant]
    pub open spec fn wf(&self) -> bool {
        self@ == layout()
    }

    /// The board.
    pub fn new() -> (board: Board)
        ensures
            board@ == layout(),
    {
        let tiles: [Tile; 16] = [
            Tile::Go,
            Tile::Wreck,
            Tile::Improve,
            Tile::Sabotage,
            Tile::SumDuel,
            Tile::Swap,
            Tile::Improve,
            Tile::Wreck,
            Tile::ProductDuel,
            Tile::Sabotage,
            Tile::Improve,
            Tile::Wreck,
            Tile::SumDuel,
            Tile::Swap,
            Tile::Improve,
            Tile::Sabotage,
        ];
        assert(tiles@ =~= layout());
        Board { tiles }
    }

    /// The tile at `location`.
    pub fn tile(&self, location: usize) -> (tile: Tile)
        requires
            location < BOARD_SIZE,
        ensures
            tile == layout()[location as int],
    {
        proof {
            use_type_invariant(self);
        }
        self.tiles[location]
    }
}

} // verus!
