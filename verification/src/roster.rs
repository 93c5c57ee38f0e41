//! The players who joined a game that has not begun, by name.

use crate::player::{Player, PlayerView};
use vstd::prelude::*;

verus! {

/// A name and the player who goes by it, as plain values.
#[verifier::ext_equal]
pub struct EntryView {
    pub name: Seq<char>,
    pub player: PlayerView,
}

/// Whether no name occurs twice.
pub open spec fn distinct_names(entries: Seq<EntryView>) -> bool {
    forall|i: int, j: int| 0 <= i < j < entries.len() ==> entries[i].name != entries[j].name
}

/// The position of the entry that goes by `name`, if there is one.
pub open spec fn seat_of(entries: Seq<EntryView>, name: Seq<char>) -> Option<int> {
    if exists|k: int| 0 <= k < entries.len() && entries[k].name == name {
        Some(choose|k: int| 0 <= k < entries.len() && entries[k].name == name)
    } else {
        None
    }
}

#[derive(Debug)]
struct Entry {
    name: String,
    player: Player,
}

/// The players of a game to come, in the order in which they joined. No
/// two go by the same name.
#[derive(Debug)]
pub struct Roster {
    entries: Vec<Entry>,
}

impl View for Roster {
    type V = Seq<EntryView>;

    closed spec fn view(&self) -> Seq<EntryView> {
        self.entries@.map_values(|e: Entry| EntryView { name: e.name@, player: e.player@ })
    }
}

impl Roster {
    /// No name occurs twice, and every player is well formed.
    pub open spec fn wf(&self) -> bool {
        &&& distinct_names(self@)
        &&& forall|i: int| 0 <= i < self@.len() ==> (#[trigger] self@[i]).player.wf()
    }

    /// A roster without players.
    pub fn new() -> (roster: Roster)
        ensures
            roster.wf(),
            roster@.len() == 0,
    {
        Roster { entries: Vec::new() }
    }

    /// How many players have joined.
    pub fn len(&self) -> (count: usize)
        ensures
            count == self@.len(),
    {
        self.entries.len()
    }

    /// The name of the player at `seat`.
    pub fn name(&self, seat: usize) -> (name: &String)
        requires
            seat < self@.len(),
        ensures
            name@ == self@[seat as int].name,
    {
        &self.entries[seat].name
    }

    /// The player at `seat`.
    pub fn player(&self, seat: usize) -> (player: Player)
        requires
            seat < self@.len(),
        ensures
            player@ == self@[seat as int].player,
    {
        self.entries[seat].player
    }

    /// Enters `player` under `name`. A name that is taken keeps its seat and
    /// gets the new player; the player it had is handed back. A new name
    /// takes the next seat.
    pub fn insert(&mut self, name: String, player: Player) -> (replaced: Option<Player>)
        requires
            old(self).wf(),
        ensures
            final(self).wf(),
            match seat_of(old(self)@, name@) {
                Some(seat) => {
                    &&& final(self)@ == old(self)@.update(
                        seat,
                        EntryView { name: name@, player: player@ },
                    )
                    &&& replaced matches Some(former)
                    &&& former@ == old(self)@[seat].player
                },
                None => {
                    &&& final(self)@ == old(self)@.push(EntryView { name: name@, player: player@ })
                    &&& replaced is None
                },
            },
    {
        proof {
            use_type_invariant(&player);
        }
        let mut seat: usize = 0;
        while seat < self.entries.len()
            invariant
                self@ == old(self)@,
                self.wf(),
                player.wf(),
                seat <= self.entries.len(),
                forall|k: int| 0 <= k < seat ==> self@[k].name != name@,
            decreases self.entries.len() - seat,
        {
            if self.entries[seat].name == name {
                let former: Player = self.entries[seat].player;
                proof {
                    assert(old(self)@[seat as int].name == name@);
                    let found = seat_of(old(self)@, name@)->0;
                    assert(found == seat) by {
                        if found < seat {
                            assert(old(self)@[found].name != old(self)@[seat as int].name);
                        } else if found > seat {
                            assert(old(self)@[seat as int].name != old(self)@[found].name);
                        }
                    }
                }
                self.entries[seat].player = player;
                assert(self@ =~= old(self)@.update(
                    seat as int,
                    EntryView { name: name@, player: player@ },
                ));
                return Some(former);
            }
            seat = seat + 1;
        }
        self.entries.push(Entry { name, player });
        assert(self@ =~= old(self)@.push(EntryView { name: name@, player: player@ }));
        None
    }
}

} // verus!
