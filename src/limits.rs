//! Checks, at run time, the bounds within which the turn engine's
//! arithmetic is proved.

use crate::ai::{ai_ok, roster_ok};
use crate::combat::xp_fits;
use crate::dungeon::ais_ok;
use crate::game::{Game, INVENTORY_CAPACITY};
use crate::items::xp_sum;
use crate::map::{map_wf, Grid, MAP_HEIGHT, MAP_WIDTH};
use crate::object::{Equipment, Fighter, Object, AI, PLAYER, POINTS_MAX, STAT_MAX};
use crate::turn::{kills_fit, level_ok, phase_ok};
use vstd::prelude::*;

verus! {

/// Whether an AI's figures are in range.
pub fn ai_in_range(ai: &AI) -> (b: bool)
    ensures
        b == ai_ok(*ai),
    decreases ai,
{
    match ai {
        AI::Basic => true,
        AI::Ranged { range } => -STAT_MAX <= *range && *range <= STAT_MAX,
        AI::Confused { previous_ai, num_turns: _ } => ai_in_range(previous_ai),
    }
}

/// Whether a fighter's stats are bounded.
fn fighter_in_bounds(f: &Fighter) -> (b: bool)
    ensures
        b == f.bounded(),
{
    -STAT_MAX <= f.base_max_hp && f.base_max_hp <= STAT_MAX && -STAT_MAX <= f.base_defense
        && f.base_defense <= STAT_MAX && -STAT_MAX <= f.base_power && f.base_power <= STAT_MAX
        && -POINTS_MAX <= f.hp && f.hp <= POINTS_MAX && 0 <= f.xp
}

/// Whether an equipment's figures are bounded.
fn equipment_in_bounds(e: &Equipment) -> (b: bool)
    ensures
        b == e.bounded(),
{
    -STAT_MAX <= e.power_bonus && e.power_bonus <= STAT_MAX && -STAT_MAX <= e.defense_bonus
        && e.defense_bonus <= STAT_MAX && -STAT_MAX <= e.max_hp_bonus && e.max_hp_bonus
        <= STAT_MAX && -STAT_MAX <= e.range && e.range <= STAT_MAX && -STAT_MAX <= e.damage
        && e.damage <= STAT_MAX && -STAT_MAX <= e.charges && e.charges <= STAT_MAX
}

/// Whether the grid has its fixed shape.
pub fn map_in_shape(map: &Grid) -> (b: bool)
    ensures
        b == map_wf(map),
{
    if map.len() != MAP_WIDTH as usize {
        return false;
    }
    let mut x: usize = 0;
    while x < map.len()
        invariant
            map@.len() == MAP_WIDTH,
            x <= map@.len(),
            forall|i: int| 0 <= i < x ==> (#[trigger] map@[i])@.len() == MAP_HEIGHT,
        decreases map@.len() - x,
    {
        if map[x].len() != MAP_HEIGHT as usize {
            return false;
        }
        x = x + 1;
    }
    true
}

/// Whether the inventory and dungeon level are within bounds.
pub fn game_in_bounds(game: &Game) -> (b: bool)
    ensures
        b == game.bounded(),
{
    if game.inventory.len() > INVENTORY_CAPACITY || game.dungeon_level > STAT_MAX as u32 {
        return false;
    }
    let mut i: usize = 0;
    while i < game.inventory.len()
        invariant
            i <= game.inventory@.len(),
            forall|j: int|
                0 <= j < i && (#[trigger] game.inventory@[j]).equipment.is_some()
                    ==> game.inventory@[j].equipment.unwrap().bounded(),
        decreases game.inventory@.len() - i,
    {
        if let Some(e) = &game.inventory[i].equipment {
            if !equipment_in_bounds(e) {
                return false;
            }
        }
        i = i + 1;
    }
    true
}

/// Whether every entity stands on the grid with bounded stats and AI.
pub fn roster_in_bounds(objects: &Vec<Object>) -> (b: bool)
    ensures
        b == (roster_ok(objects@) && ais_ok(objects@)),
{
    if objects.len() == 0 {
        return false;
    }
    let mut i: usize = 0;
    while i < objects.len()
        invariant
            i <= objects@.len(),
            objects@.len() > 0,
            forall|j: int|
                0 <= j < i ==> crate::map::in_map((#[trigger] objects@[j]).x as int, objects@[j].y as int)
                    && objects@[j].bounded() && (objects@[j].ai.is_some() ==> ai_ok(
                    objects@[j].ai.unwrap(),
                )),
        decreases objects@.len() - i,
    {
        let o = &objects[i];
        if !(0 <= o.x && o.x < MAP_WIDTH && 0 <= o.y && o.y < MAP_HEIGHT) {
            return false;
        }
        if let Some(f) = &o.fighter {
            if !fighter_in_bounds(f) {
                return false;
            }
            if o.alive && f.hp < -POINTS_MAX / 2 {
                return false;
            }
        }
        if let Some(ai) = &o.ai {
            if !ai_in_range(ai) {
                return false;
            }
        }
        i = i + 1;
    }
    true
}

/// The experience of `o`'s fighter, 0 without one.
pub open spec fn xp_of(o: Object) -> int {
    match o.fighter {
        Some(f) => f.xp as int,
        None => 0,
    }
}

/// Kills can be credited without overflow: any entity's experience plus
/// the player's fits, and so does the player's plus everyone else's.
pub open spec fn xp_room(objects: Seq<Object>) -> bool {
    &&& kills_fit(objects, 0)
    &&& forall|i: int|
        0 <= i < objects.len() && i != PLAYER ==> xp_fits(objects[PLAYER as int], #[trigger] objects[i])
    &&& xp_of(objects[PLAYER as int]) + xp_sum(objects, objects.len() as int) <= i32::MAX
}

/// Whether kills can be credited without overflow.
pub fn xp_in_room(objects: &Vec<Object>) -> (b: bool)
    requires
        roster_ok(objects@),
    ensures
        b == xp_room(objects@),
{
    let p: i64 = match objects[PLAYER].fighter {
        Some(f) => f.xp as i64,
        None => 0,
    };
    let mut total: i64 = p;
    let mut i: usize = 1;
    while i < objects.len()
        invariant
            roster_ok(objects@),
            1 <= i <= objects@.len(),
            p == xp_of(objects@[PLAYER as int]),
            total == p + xp_sum(objects@, i as int),
            total <= i32::MAX,
            0 <= p,
            0 <= xp_sum(objects@, i as int),
            forall|j: int| 1 <= j < i ==> 0 <= xp_of(#[trigger] objects@[j]) <= xp_sum(objects@, i as int),
        decreases objects@.len() - i,
    {
        let x: i64 = match objects[i].fighter {
            Some(f) => f.xp as i64,
            None => 0,
        };
        assert(objects@[i as int].bounded());
        total = total + x;
        if total > i32::MAX as i64 {
            proof { lemma_xp_sum_grows(objects@, i as int + 1, objects@.len() as int); }
            return false;
        }
        i = i + 1;
    }
    assert(xp_of(objects@[PLAYER as int]) >= 0);
    assert forall|j: int| 0 <= j < objects@.len() && j != PLAYER implies xp_fits(#[trigger] objects@[j], objects@[PLAYER as int])
        && xp_fits(objects@[PLAYER as int], objects@[j]) by {
        if j >= 1 {
            assert(xp_of(objects@[j]) <= xp_sum(objects@, objects@.len() as int));
        }
    }
    true
}

/// The experience of fighters `1..a` is at most that of `1..b`.
proof fn lemma_xp_sum_grows(objects: Seq<Object>, a: int, b: int)
    requires
        roster_ok(objects),
        0 <= a <= b <= objects.len(),
    ensures
        xp_sum(objects, a) <= xp_sum(objects, b),
    decreases b,
{
    if b > a {
        lemma_xp_sum_grows(objects, a, b - 1);
        assert(objects[b - 1].bounded());
    }
}

/// Everything a tick may assume: the monster phase's invariant, room for
/// experience, and the player's level within bounds.
pub open spec fn tick_ok(game: &Game, objects: Seq<Object>) -> bool {
    &&& phase_ok(game, objects)
    &&& xp_room(objects)
    &&& level_ok(objects[PLAYER as int])
}

/// Whether everything a tick may assume holds.
pub fn tick_ready(game: &Game, objects: &Vec<Object>) -> (b: bool)
    ensures
        b == tick_ok(game, objects@),
{
    if !roster_in_bounds(objects) || !map_in_shape(&game.map) || !game_in_bounds(game) {
        return false;
    }
    if objects[PLAYER].ai.is_some() {
        return false;
    }
    let level = objects[PLAYER].level;
    if !(0 <= level && level < STAT_MAX) {
        return false;
    }
    xp_in_room(objects)
}

} // verus!
