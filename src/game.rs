//! The session aggregate: grid, message log, inventory and dungeon depth.

use crate::map::Grid;
use crate::object::{Messages, Object, STAT_MAX};
use vstd::prelude::*;

verus! {

/// Most items the inventory holds.
pub const INVENTORY_CAPACITY: usize = 26;

/// Everything of a session that is not the roster.
pub struct Game {
    pub map: Grid,
    pub messages: Messages,
    pub inventory: Vec<Object>,
    pub dungeon_level: u32,
}

impl Game {
    /// The inventory is within capacity, its equipment figures and the
    /// dungeon level within `STAT_MAX`.
    pub open spec fn bounded(&self) -> bool {
        &&& self.inventory@.len() <= INVENTORY_CAPACITY
        &&& self.dungeon_level <= STAT_MAX
        &&& forall|i: int|
            0 <= i < self.inventory@.len() && (#[trigger] self.inventory@[i]).equipment.is_some()
                ==> self.inventory@[i].equipment.unwrap().bounded()
    }

    /// `other` differs from `self` at most in the message log.
    pub open spec fn same_but_log(&self, other: &Game) -> bool {
        &&& other.map == self.map
        &&& other.inventory == self.inventory
        &&& other.dungeon_level == self.dungeon_level
    }

    /// `other` is `self` with the messages `added` appended to the log.
    pub open spec fn logged(&self, other: &Game, added: Seq<crate::object::Message>) -> bool {
        &&& self.same_but_log(other)
        &&& other.messages.messages@ == self.messages.messages@ + added
    }
}

} // verus!
