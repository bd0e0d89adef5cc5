//! Using items: potions, scrolls, equipment and the bow.

use crate::ai::{mut_two, roster_ok};
use crate::combat::{awarded, damage_outcome, healed, xp_fits};
use crate::game::Game;
use crate::inventory::{toggle_equipment, UseResult};
use crate::map::{in_map, Fov};
use crate::object::{
    coord_ok, dist2, Equipment, Fighter, Item, Message, Object, AI, PLAYER, STAT_MAX,
};
use vstd::prelude::*;

verus! {

/// Hit points a healing potion restores.
pub const HEAL_AMOUNT: i32 = 40;

/// Damage of a lightning bolt.
pub const LIGHTNING_DAMAGE: i32 = 40;

/// Reach of a lightning bolt.
pub const LIGHTNING_RANGE: i32 = 5;

/// Turns a confusion lasts.
pub const CONFUSE_NUM_TURNS: i32 = 10;

/// Reach of a confusion scroll.
pub const CONFUSE_RANGE: i32 = 8;

/// Damage of a fireball.
pub const FIREBALL_DAMAGE: i32 = 25;

/// Radius of a fireball's blast.
pub const FIREBALL_RADIUS: i32 = 3;

/// Entity `i` can be struck by a spell aimed at monsters: not the player,
/// with a fighter and an AI, and visible.
pub open spec fn spell_candidate(fov: Fov, objects: Seq<Object>, i: int) -> bool {
    &&& i != PLAYER
    &&& objects[i].fighter.is_some()
    &&& objects[i].ai.is_some()
    &&& fov.spec_is_in_fov(objects[i].x as int, objects[i].y as int)
}

/// Squared distance from the player to entity `i`.
pub open spec fn player_dist2(objects: Seq<Object>, i: int) -> int {
    dist2(
        objects[PLAYER as int].x as int,
        objects[PLAYER as int].y as int,
        objects[i].x as int,
        objects[i].y as int,
    )
}

/// The closest visible monster within `max_range` of the player, the first
/// in roster order among equals; none if there is none.
pub fn closest_monster(fov: &Fov, objects: &Vec<Object>, max_range: i32) -> (r: Option<usize>)
    requires
        roster_ok(objects@),
        0 <= max_range <= STAT_MAX,
    ensures
        match r {
            Some(i) => {
                &&& i < objects@.len()
                &&& spell_candidate(*fov, objects@, i as int)
                &&& player_dist2(objects@, i as int) < (max_range + 1) * (max_range + 1)
                &&& forall|j: int|
                    0 <= j < objects@.len() && #[trigger] spell_candidate(*fov, objects@, j) ==> {
                        &&& player_dist2(objects@, j) >= player_dist2(objects@, i as int)
                        &&& j < i ==> player_dist2(objects@, j) > player_dist2(objects@, i as int)
                    }
            },
            None => forall|j: int|
                0 <= j < objects@.len() && #[trigger] spell_candidate(*fov, objects@, j)
                    ==> player_dist2(objects@, j) >= (max_range + 1) * (max_range + 1),
        },
{
    let m = max_range as i64 + 1;
    assert(0 <= m * m <= (STAT_MAX + 1) * (STAT_MAX + 1)) by (nonlinear_arith)
        requires
            1 <= m <= STAT_MAX + 1,
    ;
    let bound = m * m;
    let mut closest: Option<usize> = None;
    let mut closest_dist: i64 = bound;
    let mut id: usize = 0;
    while id < objects.len()
        invariant
            roster_ok(objects@),
            bound == (max_range + 1) * (max_range + 1),
            id <= objects@.len(),
            closest_dist <= bound,
            match closest {
                Some(i) => i < id && spell_candidate(*fov, objects@, i as int) && closest_dist
                    == player_dist2(objects@, i as int) && closest_dist < bound,
                None => closest_dist == bound,
            },
            forall|j: int|
                0 <= j < id && #[trigger] spell_candidate(*fov, objects@, j) ==> {
                    &&& player_dist2(objects@, j) >= closest_dist
                    &&& (closest matches Some(i) && j < i) ==> player_dist2(objects@, j)
                        > closest_dist
                },
        decreases objects@.len() - id,
    {
        let object = &objects[id];
        if id != PLAYER && object.fighter.is_some() && object.ai.is_some() && fov.is_in_fov(
            object.x,
            object.y,
        ) {
            let dist = objects[PLAYER].distance_to(object);
            if dist < closest_dist {
                closest = Some(id);
                closest_dist = dist;
            }
        }
        id = id + 1;
    }
    closest
}

/// `m` is the monster a click on `target` picks: the first entity other
/// than the player with a fighter on that tile; none without a click.
pub open spec fn is_monster_choice(objects: Seq<Object>, target: Option<(i32, i32)>, m: Option<usize>) -> bool {
    match target {
        None => m.is_none(),
        Some((x, y)) => match m {
            Some(i) => i < objects.len() && i != PLAYER && objects[i as int].fighter.is_some()
                && objects[i as int].x == x && objects[i as int].y == y && forall|j: int|
                0 <= j < i && j != PLAYER ==> !((#[trigger] objects[j]).fighter.is_some()
                    && objects[j].x == x && objects[j].y == y),
            None => forall|j: int|
                0 <= j < objects.len() && j != PLAYER ==> !((#[trigger] objects[j]).fighter.is_some()
                    && objects[j].x == x && objects[j].y == y),
        },
    }
}

/// The first entity other than the player with a fighter at `(x, y)`: the
/// monster a click on that tile picks.
pub fn monster_at(x: i32, y: i32, objects: &Vec<Object>) -> (r: Option<usize>)
    ensures
        is_monster_choice(objects@, Some((x, y)), r),
{
    let mut id: usize = 0;
    while id < objects.len()
        invariant
            id <= objects@.len(),
            forall|j: int|
                0 <= j < id && j != PLAYER ==> !((#[trigger] objects@[j]).fighter.is_some()
                    && objects@[j].x == x && objects@[j].y == y),
        decreases objects@.len() - id,
    {
        if id != PLAYER && objects[id].fighter.is_some() && objects[id].x == x && objects[id].y
            == y {
            return Some(id);
        }
        id = id + 1;
    }
    None
}

/// `(x, y)` is acceptable as a target: on the grid, visible, and, where a
/// range is given, within it of the player.
pub open spec fn acceptable(x: int, y: int, fov: Fov, player: Object, max_range: Option<i32>) -> bool {
    &&& crate::map::in_map(x, y)
    &&& fov.spec_is_in_fov(x, y)
    &&& match max_range {
        Some(r) => r >= 0 && dist2(player.x as int, player.y as int, x, y) <= r * r,
        None => true,
    }
}

/// The click `target` where it is acceptable, none otherwise.
pub open spec fn aimed(target: Option<(i32, i32)>, fov: Fov, player: Object, max_range: Option<i32>) -> Option<(i32, i32)> {
    match target {
        Some((x, y)) => if acceptable(x as int, y as int, fov, player, max_range) {
            Some((x, y))
        } else {
            None
        },
        None => None,
    }
}

/// The click `target` where it is acceptable, none otherwise.
fn aim(target: Option<(i32, i32)>, fov: &Fov, player: &Object, max_range: Option<i32>) -> (r: Option<(i32, i32)>)
    requires
        coord_ok(player.x as int),
        coord_ok(player.y as int),
        max_range matches Some(m) ==> -STAT_MAX <= m <= STAT_MAX,
    ensures
        r == aimed(target, *fov, *player, max_range),
{
    match target {
        Some((x, y)) => if target_acceptable(x, y, fov, player, max_range) {
            Some((x, y))
        } else {
            None
        },
        None => None,
    }
}

/// The monster at an aimed tile, if any.
fn monster_aimed(aim: Option<(i32, i32)>, objects: &Vec<Object>) -> (r: Option<usize>)
    ensures
        is_monster_choice(objects@, aim, r),
{
    match aim {
        Some((x, y)) => monster_at(x, y, objects),
        None => None,
    }
}

/// A clicked tile is accepted as a target: on the grid, visible, and, where
/// a range is given, within it of the player.
pub fn target_acceptable(x: i32, y: i32, fov: &Fov, player: &Object, max_range: Option<i32>) -> (b:
    bool)
    requires
        coord_ok(player.x as int),
        coord_ok(player.y as int),
        max_range matches Some(r) ==> -STAT_MAX <= r <= STAT_MAX,
    ensures
        b == acceptable(x as int, y as int, *fov, *player, max_range),
{
    if !(0 <= x && x < crate::map::MAP_WIDTH && 0 <= y && y < crate::map::MAP_HEIGHT) {
        return false;
    }
    if !fov.is_in_fov(x, y) {
        return false;
    }
    match max_range {
        Some(r) => {
            let rr = r as i64;
            assert(0 <= rr * rr <= STAT_MAX * STAT_MAX) by (nonlinear_arith)
                requires
                    -STAT_MAX <= rr <= STAT_MAX,
            ;
            r >= 0 && player.distance(x, y) <= rr * rr
        },
        None => true,
    }
}

/// What a healing potion does: the player, if wounded, is healed by
/// `HEAL_AMOUNT` and the potion is used up; at full health, or without a
/// fighter, it is cancelled.
pub open spec fn heal_effect(
    objects0: Seq<Object>,
    objects1: Seq<Object>,
    g0: Game,
    g1: Game,
    r: UseResult,
) -> bool {
    let p = objects0[PLAYER as int];
    match p.fighter {
        None => r == UseResult::Cancelled && objects1 == objects0 && g1 == g0,
        Some(f) => if f.hp == p.spec_max_hp(g0) {
            &&& r == UseResult::Cancelled
            &&& objects1 == objects0
            &&& g0.logged(&g1, seq![Message::FullHealth])
        } else {
            &&& r == UseResult::UsedUp
            &&& objects1 == objects0.update(PLAYER as int, healed(p, HEAL_AMOUNT as int, g0))
            &&& g0.logged(&g1, seq![Message::WoundsBetter])
        },
    }
}

/// Heals the player.
pub fn cast_heal(game: &mut Game, objects: &mut Vec<Object>) -> (r: UseResult)
    requires
        roster_ok(old(objects)@),
        old(game).bounded(),
    ensures
        heal_effect(old(objects)@, final(objects)@, *old(game), *final(game), r),
{
    if let Some(fighter) = objects[PLAYER].fighter {
        if fighter.hp == objects[PLAYER].max_hp(game) {
            game.messages.add(Message::FullHealth);
            assert(game.messages.messages@ =~= old(game).messages.messages@ + seq![Message::FullHealth]);
            return UseResult::Cancelled;
        }
        game.messages.add(Message::WoundsBetter);
        assert(game.messages.messages@ =~= old(game).messages.messages@ + seq![Message::WoundsBetter]);
        assert(objects@[PLAYER as int].bounded());
        objects[PLAYER].heal(HEAL_AMOUNT, game);
        return UseResult::UsedUp;
    }
    UseResult::Cancelled
}

/// Entity `i` is the closest visible monster within `max_range` of the
/// player, the first in roster order among equals.
pub open spec fn is_closest(fov: Fov, objects: Seq<Object>, max_range: int, i: int) -> bool {
    &&& 0 <= i < objects.len()
    &&& spell_candidate(fov, objects, i)
    &&& player_dist2(objects, i) < (max_range + 1) * (max_range + 1)
    &&& forall|j: int|
        0 <= j < objects.len() && #[trigger] spell_candidate(fov, objects, j) ==> {
            &&& player_dist2(objects, j) >= player_dist2(objects, i)
            &&& j < i ==> player_dist2(objects, j) > player_dist2(objects, i)
        }
}

/// No visible monster is within `max_range` of the player.
pub open spec fn none_in_range(fov: Fov, objects: Seq<Object>, max_range: int) -> bool {
    forall|j: int|
        0 <= j < objects.len() && #[trigger] spell_candidate(fov, objects, j) ==> player_dist2(
            objects,
            j,
        ) >= (max_range + 1) * (max_range + 1)
}

/// What a lightning scroll does: the closest visible monster within
/// `LIGHTNING_RANGE` takes `LIGHTNING_DAMAGE` (its experience goes to
/// nobody) and the scroll is used up; with none in range, it is cancelled.
pub open spec fn lightning_effect(
    fov: Fov,
    objects0: Seq<Object>,
    objects1: Seq<Object>,
    g0: Game,
    g1: Game,
    r: UseResult,
) -> bool {
    if none_in_range(fov, objects0, LIGHTNING_RANGE as int) {
        &&& r == UseResult::Cancelled
        &&& objects1 == objects0
        &&& g0.logged(&g1, seq![Message::NoEnemyInRange])
    } else {
        exists|i: int, xp: Option<i32>, logged: Seq<Message>|
            {
                &&& is_closest(fov, objects0, LIGHTNING_RANGE as int, i)
                &&& r == UseResult::UsedUp
                &&& objects1 == objects0.update(i, objects1[i])
                &&& #[trigger] damage_outcome(objects0[i], objects1[i], LIGHTNING_DAMAGE as int, xp, logged)
                &&& g0.logged(
                    &g1,
                    seq![(Message::LightningStrike { name: objects0[i].name, damage: LIGHTNING_DAMAGE })]
                        + logged,
                )
            }
    }
}

/// Strikes the closest visible monster with lightning.
pub fn cast_lightning(fov: &Fov, game: &mut Game, objects: &mut Vec<Object>) -> (r: UseResult)
    requires
        roster_ok(old(objects)@),
    ensures
        lightning_effect(*fov, old(objects)@, final(objects)@, *old(game), *final(game), r),
{
    let monster_id = closest_monster(fov, objects, LIGHTNING_RANGE);
    if let Some(monster_id) = monster_id {
        let m = Message::LightningStrike {
            name: objects[monster_id].name.clone(),
            damage: LIGHTNING_DAMAGE,
        };
        game.messages.add(m);
        let ghost mid = *game;
        let xp = objects[monster_id].take_damage(LIGHTNING_DAMAGE, game);
        proof {
            let logged = choose|logged: Seq<Message>|
                {
                    &&& damage_outcome(old(objects)@[monster_id as int], objects@[monster_id as int], LIGHTNING_DAMAGE as int, xp, logged)
                    &&& #[trigger] mid.logged(&*game, logged)
                };
            assert(game.messages.messages@ =~= old(game).messages.messages@ + (seq![m] + logged));
            assert(objects@ == old(objects)@.update(monster_id as int, objects@[monster_id as int]));
            assert(damage_outcome(old(objects)@[monster_id as int], objects@[monster_id as int], LIGHTNING_DAMAGE as int, xp, logged));
        }
        UseResult::UsedUp
    } else {
        game.messages.add(Message::NoEnemyInRange);
        assert(game.messages.messages@ =~= old(game).messages.messages@ + seq![Message::NoEnemyInRange]);
        UseResult::Cancelled
    }
}

/// The AI a monster gets when confused: the one it had, or `Basic` if it
/// had none, wrapped for `CONFUSE_NUM_TURNS` turns.
pub open spec fn confused_ai(o: Object) -> AI {
    AI::Confused {
        previous_ai: Box::new(
            match o.ai {
                Some(ai) => ai,
                None => AI::Basic,
            },
        ),
        num_turns: CONFUSE_NUM_TURNS,
    }
}

/// What a confusion scroll does to the chosen `target`: its AI is wrapped
/// in a confusion and the scroll is used up; with no target it is
/// cancelled.
pub open spec fn confuse_effect(
    target: Option<usize>,
    objects0: Seq<Object>,
    objects1: Seq<Object>,
    g0: Game,
    g1: Game,
    r: UseResult,
) -> bool {
    match target {
        Some(t) => {
            &&& r == UseResult::UsedUp
            &&& objects1 == objects0.update(
                t as int,
                Object { ai: Some(confused_ai(objects0[t as int])), ..objects0[t as int] },
            )
            &&& g0.logged(&g1, seq![(Message::Confused { name: objects0[t as int].name })])
        },
        None => {
            &&& r == UseResult::Cancelled
            &&& objects1 == objects0
            &&& g0.logged(&g1, seq![Message::NoEnemyInRange])
        },
    }
}

/// Confuses the monster `target`, chosen by the player.
pub fn cast_confuse(target: Option<usize>, game: &mut Game, objects: &mut Vec<Object>) -> (r:
    UseResult)
    requires
        target matches Some(t) ==> t < old(objects)@.len(),
    ensures
        confuse_effect(target, old(objects)@, final(objects)@, *old(game), *final(game), r),
{
    if let Some(monster_id) = target {
        let old_ai = match objects[monster_id].ai.take() {
            Some(ai) => ai,
            None => AI::Basic,
        };
        objects[monster_id].ai = Some(AI::Confused { previous_ai: Box::new(old_ai), num_turns: CONFUSE_NUM_TURNS });
        let m = Message::Confused { name: objects[monster_id].name.clone() };
        game.messages.add(m);
        assert(game.messages.messages@ =~= old(game).messages.messages@ + seq![m]);
        assert(objects@ =~= old(objects)@.update(
            monster_id as int,
            Object { ai: Some(confused_ai(old(objects)@[monster_id as int])), ..old(objects)@[monster_id as int] },
        ));
        UseResult::UsedUp
    } else {
        game.messages.add(Message::NoEnemyInRange);
        assert(game.messages.messages@ =~= old(game).messages.messages@ + seq![Message::NoEnemyInRange]);
        UseResult::Cancelled
    }
}

/// What the bow does to the chosen `target`, shooting with `e`: a positive
/// damage (its damage less the target's defense) is logged and dealt and a
/// kill credited to the player, otherwise a no-effect message is logged; a
/// last charge uses the bow up, any other is spent. With no target the shot
/// is cancelled.
pub open spec fn bow_effect(
    e: crate::object::Equipment,
    target: Option<usize>,
    objects0: Seq<Object>,
    objects1: Seq<Object>,
    g0: Game,
    g1: Game,
    r: UseResult,
) -> bool {
    match target {
        None => {
            &&& r == UseResult::Cancelled
            &&& objects1 == objects0
            &&& g0.logged(&g1, seq![Message::NoEnemyInRange])
        },
        Some(t) => {
            let t = t as int;
            let damage = e.damage - objects0[t].spec_defense(g0);
            let ammo: Seq<Message> = if e.charges == 1 {
                seq![Message::OutOfAmmo]
            } else {
                Seq::empty()
            };
            &&& r == if e.charges == 1 {
                UseResult::UsedUp
            } else {
                UseResult::UseCharge
            }
            &&& objects1 == objects0.update(PLAYER as int, objects1[PLAYER as int]).update(
                t,
                objects1[t],
            )
            &&& if damage > 0 {
                exists|xp: Option<i32>, logged: Seq<Message>|
                    {
                        &&& #[trigger] damage_outcome(objects0[t], objects1[t], damage, xp, logged)
                        &&& objects1[PLAYER as int] == awarded(objects0[PLAYER as int], xp)
                        &&& g0.logged(
                            &g1,
                            seq![(Message::ProjectileStrikes { target: objects0[t].name, damage: e.damage })]
                                + logged + ammo,
                        )
                    }
            } else {
                &&& objects1 == objects0
                &&& g0.logged(
                    &g1,
                    seq![
                        (Message::ProjectileNoEffect {
                            attacker: objects0[PLAYER as int].name,
                            target: objects0[t].name,
                        }),
                    ] + ammo,
                )
            }
        },
    }
}

/// Shoots the monster `target`, chosen by the player, with the bow held at
/// `inventory_id`. The charge it spends is taken off by `use_item`.
pub fn player_ranged_attack(
    inventory_id: usize,
    target: Option<usize>,
    game: &mut Game,
    objects: &mut Vec<Object>,
) -> (r: UseResult)
    requires
        inventory_id < old(game).inventory@.len(),
        old(game).inventory@[inventory_id as int].equipment.is_some(),
        roster_ok(old(objects)@),
        old(game).bounded(),
        target matches Some(t) ==> t < old(objects)@.len() && t != PLAYER && xp_fits(
            old(objects)@[PLAYER as int],
            old(objects)@[t as int],
        ),
    ensures
        bow_effect(
            old(game).inventory@[inventory_id as int].equipment.unwrap(),
            target,
            old(objects)@,
            final(objects)@,
            *old(game),
            *final(game),
            r,
        ),
{
    let equipment = match game.inventory[inventory_id].equipment {
        Some(e) => e,
        None => {
            return UseResult::Cancelled;
        },
    };
    assert(equipment.bounded());
    if let Some(monster_id) = target {
        let ghost mut w_xp: Option<i32> = None;
        let ghost mut w_log: Seq<Message> = Seq::empty();
        let (player, target) = mut_two(PLAYER, monster_id, objects.as_mut_slice());
        let damage = equipment.damage - target.defense(game);
        if damage > 0 {
            let m = Message::ProjectileStrikes { target: target.name.clone(), damage: equipment.damage };
            game.messages.add(m);
            let ghost mid = *game;
            let xp = target.take_damage(damage, game);
            if let Some(xp) = xp {
                if let Some(f) = player.fighter {
                    player.fighter = Some(crate::object::Fighter { xp: f.xp + xp, ..f });
                }
            }
            proof {
                let logged = choose|logged: Seq<Message>|
                    {
                        &&& damage_outcome(old(objects)@[monster_id as int], *target, damage as int, xp, logged)
                        &&& #[trigger] mid.logged(&*game, logged)
                    };
                w_xp = xp;
                w_log = logged;
                assert(game.messages.messages@ =~= old(game).messages.messages@ + seq![m] + logged);
            }
        } else {
            let m = Message::ProjectileNoEffect { attacker: player.name.clone(), target: target.name.clone() };
            game.messages.add(m);
            assert(game.messages.messages@ =~= old(game).messages.messages@ + seq![m]);
        }
        let ghost log_before_ammo = game.messages.messages@;
        let r = if equipment.charges == 1 {
            game.messages.add(Message::OutOfAmmo);
            UseResult::UsedUp
        } else {
            UseResult::UseCharge
        };
        proof {
            let ammo: Seq<Message> = if equipment.charges == 1 {
                seq![Message::OutOfAmmo]
            } else {
                Seq::empty()
            };
            assert(game.messages.messages@ =~= log_before_ammo + ammo);
            let t = monster_id as int;
            assert(objects@ == old(objects)@.update(PLAYER as int, objects@[PLAYER as int]).update(t, objects@[t]));
            assert(damage == equipment.damage - old(objects)@[t].spec_defense(*old(game)));
            if damage > 0 {
                assert(damage_outcome(old(objects)@[t], objects@[t], damage as int, w_xp, w_log));
                assert(objects@[PLAYER as int] == awarded(old(objects)@[PLAYER as int], w_xp));
                assert(game.messages.messages@ =~= old(game).messages.messages@ + (seq![
                    (Message::ProjectileStrikes { target: old(objects)@[t].name, damage: equipment.damage }),
                ] + w_log + ammo));
            } else {
                assert(objects@ =~= old(objects)@);
                assert(game.messages.messages@ =~= old(game).messages.messages@ + (seq![
                    (Message::ProjectileNoEffect {
                        attacker: old(objects)@[PLAYER as int].name,
                        target: old(objects)@[t].name,
                    }),
                ] + ammo));
            }
        }
        r
    } else {
        game.messages.add(Message::NoEnemyInRange);
        assert(game.messages.messages@ =~= old(game).messages.messages@ + seq![Message::NoEnemyInRange]);
        UseResult::Cancelled
    }
}

/// `o` is a fighter within the fireball's radius of `(x, y)`.
pub open spec fn in_blast(o: Object, x: int, y: int) -> bool {
    o.fighter.is_some() && dist2(o.x as int, o.y as int, x, y) <= FIREBALL_RADIUS * FIREBALL_RADIUS
}

/// Experience of the fighters among entities `1..n`, the player excluded.
pub open spec fn xp_sum(objects: Seq<Object>, n: int) -> int
    decreases n,
{
    if n <= 1 {
        0
    } else {
        xp_sum(objects, n - 1) + match objects[n - 1].fighter {
            Some(f) => f.xp as int,
            None => 0,
        }
    }
}

/// Experience yielded by the kills `rs` among entities `1..n`.
pub open spec fn kill_xp(rs: Seq<Option<i32>>, n: int) -> int
    decreases n,
{
    if n <= 1 {
        0
    } else {
        kill_xp(rs, n - 1) + match rs[n - 1] {
            Some(xp) => xp as int,
            None => 0,
        }
    }
}

/// The experience of fighters `1..a` is at most that of `1..b`.
proof fn lemma_xp_sum_mono(objects: Seq<Object>, a: int, b: int)
    requires
        roster_ok(objects),
        0 <= a <= b <= objects.len(),
    ensures
        0 <= xp_sum(objects, a) <= xp_sum(objects, b),
    decreases b,
{
    if b > a {
        lemma_xp_sum_mono(objects, a, b - 1);
        assert(objects[b - 1].bounded());
    } else if a > 1 {
        lemma_xp_sum_mono(objects, a - 1, a - 1);
        assert(objects[a - 1].bounded());
    }
}

/// Kills recorded past the first `n` do not count toward them.
proof fn lemma_kill_xp_push(rs: Seq<Option<i32>>, r: Option<i32>, n: int)
    requires
        0 <= n <= rs.len(),
    ensures
        kill_xp(rs.push(r), n) == kill_xp(rs, n),
    decreases n,
{
    if n > 1 {
        lemma_kill_xp_push(rs, r, n - 1);
    }
}

/// What a fireball aimed at `target` does: every fighter within the blast,
/// the player included, takes `FIREBALL_DAMAGE`; the player collects the
/// experience of the monsters it kills; the scroll is used up. Without a
/// target it is cancelled.
pub open spec fn fireball_effect(
    target: Option<(i32, i32)>,
    objects0: Seq<Object>,
    objects1: Seq<Object>,
    g0: Game,
    g1: Game,
    r: UseResult,
) -> bool {
    match target {
        None => r == UseResult::Cancelled && objects1 == objects0 && g1 == g0,
        Some((x, y)) => {
            &&& r == UseResult::UsedUp
            &&& g0.same_but_log(&g1)
            &&& g0.messages.messages@.len() < g1.messages.messages@.len()
            &&& g1.messages.messages@[g0.messages.messages@.len() as int] == (Message::FireballExplodes {
                radius: FIREBALL_RADIUS,
            })
            &&& exists|rs: Seq<Option<i32>>, hit: Seq<Object>|
                {
                    &&& rs.len() == objects0.len()
                    &&& hit.len() == objects0.len()
                    &&& objects1.len() == objects0.len()
                    &&& forall|i: int|
                        0 <= i < objects0.len() ==> if in_blast(objects0[i], x as int, y as int) {
                            exists|logged: Seq<Message>|
                                #[trigger] damage_outcome(
                                    objects0[i],
                                    hit[i],
                                    FIREBALL_DAMAGE as int,
                                    rs[i],
                                    logged,
                                )
                        } else {
                            hit[i] == objects0[i] && rs[i].is_none()
                        }
                    &&& forall|i: int| 1 <= i < objects0.len() ==> objects1[i] == #[trigger] hit[i]
                    &&& objects1[PLAYER as int] == #[trigger] awarded(
                        hit[PLAYER as int],
                        Some(kill_xp(rs, objects0.len() as int) as i32),
                    )
                }
        },
    }
}

/// Throws a fireball at `target`, the tile chosen by the player.
pub fn cast_fireball(target: Option<(i32, i32)>, game: &mut Game, objects: &mut Vec<Object>) -> (r:
    UseResult)
    requires
        roster_ok(old(objects)@),
        target matches Some((x, y)) ==> coord_ok(x as int) && coord_ok(y as int),
        (match old(objects)@[PLAYER as int].fighter {
            Some(f) => f.xp as int,
            None => 0,
        }) + xp_sum(old(objects)@, old(objects)@.len() as int) <= i32::MAX,
    ensures
        fireball_effect(target, old(objects)@, final(objects)@, *old(game), *final(game), r),
{
    let (x, y) = match target {
        Some(tile_pos) => tile_pos,
        None => {
            return UseResult::Cancelled;
        },
    };
    let ghost objects0 = objects@;
    let ghost g0 = *game;
    game.messages.add(Message::FireballExplodes { radius: FIREBALL_RADIUS });
    let ghost mut rs: Seq<Option<i32>> = Seq::empty();
    let mut xp_to_gain: i32 = 0;
    let mut id: usize = 0;
    while id < objects.len()
        invariant
            objects@.len() == objects0.len(),
            roster_ok(objects0),
            coord_ok(x as int) && coord_ok(y as int),
            0 <= id <= objects0.len(),
            rs.len() == id,
            forall|i: int|
                0 <= i < id ==> if in_blast(objects0[i], x as int, y as int) {
                    exists|logged: Seq<Message>|
                        #[trigger] damage_outcome(
                            objects0[i],
                            objects@[i],
                            FIREBALL_DAMAGE as int,
                            rs[i],
                            logged,
                        )
                } else {
                    objects@[i] == objects0[i] && rs[i].is_none()
                },
            forall|i: int| id <= i < objects0.len() ==> objects@[i] == objects0[i],
            xp_to_gain == kill_xp(rs, id as int),
            0 <= xp_to_gain <= xp_sum(objects0, id as int),
            0 <= xp_sum(objects0, id as int),
            xp_sum(objects0, objects0.len() as int) <= i32::MAX,
            g0.same_but_log(&*game),
            g0.messages.messages@.len() < game.messages.messages@.len(),
            game.messages.messages@[g0.messages.messages@.len() as int] == (Message::FireballExplodes {
                radius: FIREBALL_RADIUS,
            }),
        decreases objects0.len() - id,
    {
        assert(objects@[id as int] == objects0[id as int]);
        assert(in_map(objects0[id as int].x as int, objects0[id as int].y as int));
        let ghost before = objects@;
        proof {
            lemma_xp_sum_mono(objects0, id + 1, objects0.len() as int);
            lemma_kill_xp_push(rs, None, id as int);
        }
        if objects[id].distance(x, y) <= 9 && objects[id].fighter.is_some() {
            let m = Message::Burned { name: objects[id].name.clone(), damage: FIREBALL_DAMAGE };
            game.messages.add(m);
            let xp = objects[id].take_damage(FIREBALL_DAMAGE, game);
            proof {
                lemma_kill_xp_push(rs, xp, id as int);
                rs = rs.push(xp);
            }
            if let Some(xp) = xp {
                if id != PLAYER {
                    xp_to_gain = xp_to_gain + xp;
                }
            }
        } else {
            proof {
                rs = rs.push(None);
            }
        }
        proof {
            assert(objects@ == before.update(id as int, objects@[id as int]));
            assert forall|i: int|
                0 <= i < id + 1 implies if in_blast(objects0[i], x as int, y as int) {
                exists|logged: Seq<Message>|
                    #[trigger] damage_outcome(
                        objects0[i],
                        objects@[i],
                        FIREBALL_DAMAGE as int,
                        rs[i],
                        logged,
                    )
            } else {
                objects@[i] == objects0[i] && rs[i].is_none()
            } by {
                if i < id {
                    assert(objects@[i] == before[i]);
                }
            }
        }
        id = id + 1;
    }
    let ghost hit = objects@;
    proof {
        if in_blast(objects0[0], x as int, y as int) {
            let logged = choose|logged: Seq<Message>|
                #[trigger] damage_outcome(objects0[0], hit[0], FIREBALL_DAMAGE as int, rs[0], logged);
            assert(damage_outcome(objects0[0], hit[0], FIREBALL_DAMAGE as int, rs[0], logged));
        }
        assert(hit[0].fighter matches Some(g) ==> g.xp == objects0[0].fighter.unwrap().xp);
    }
    if let Some(f) = objects[PLAYER].fighter {
        objects[PLAYER].fighter = Some(Fighter { xp: f.xp + xp_to_gain, ..f });
    }
    proof {
        assert(objects@[0] == awarded(hit[0], Some(kill_xp(rs, objects0.len() as int) as i32)));
        assert(forall|i: int| 1 <= i < objects0.len() ==> objects@[i] == #[trigger] hit[i]);
    }
    UseResult::UsedUp
}

/// What the item of `kind` at `inventory_id` does, before the inventory is
/// settled, with the player's click on `target`, if any.
pub open spec fn item_effect(
    kind: Item,
    inventory_id: int,
    fov: Fov,
    target: Option<(i32, i32)>,
    objects0: Seq<Object>,
    objects1: Seq<Object>,
    g0: Game,
    g1: Game,
    r: UseResult,
) -> bool {
    match kind {
        Item::Heal => heal_effect(objects0, objects1, g0, g1, r),
        Item::Lightning => lightning_effect(fov, objects0, objects1, g0, g1, r),
        Item::Confuse => exists|m: Option<usize>|
            is_monster_choice(
                objects0,
                aimed(target, fov, objects0[PLAYER as int], Some(CONFUSE_RANGE)),
                m,
            ) && #[trigger] confuse_effect(
                m,
                objects0,
                objects1,
                g0,
                g1,
                r,
            ),
        Item::Fireball => fireball_effect(
            aimed(target, fov, objects0[PLAYER as int], None),
            objects0,
            objects1,
            g0,
            g1,
            r,
        ),
        Item::Bow => match g0.inventory@[inventory_id].equipment {
            Some(e) => exists|m: Option<usize>|
                is_monster_choice(
                    objects0,
                    aimed(target, fov, objects0[PLAYER as int], Some(e.range)),
                    m,
                ) && #[trigger] bow_effect(
                    e,
                    m,
                    objects0,
                    objects1,
                    g0,
                    g1,
                    r,
                ),
            None => r == UseResult::Cancelled && objects1 == objects0 && g1 == g0,
        },
        _ => {
            &&& r == if g0.inventory@[inventory_id].equipment.is_none() {
                UseResult::Cancelled
            } else {
                UseResult::UsedAndKept
            }
            &&& objects1 == objects0
            &&& g1.inventory@ == crate::inventory::toggle_effect(g0.inventory@, inventory_id).0
            &&& g1.messages.messages@ == g0.messages.messages@ + crate::inventory::toggle_effect(
                g0.inventory@,
                inventory_id,
            ).1
            &&& g1.map == g0.map
            &&& g1.dungeon_level == g0.dungeon_level
        },
    }
}

/// How the inventory is settled after an item at `inventory_id` was used
/// with result `r`: used up, it leaves; a charge spent, one comes off;
/// cancelled, that is logged; kept, nothing more happens.
pub open spec fn settled(g0: Game, g1: Game, inventory_id: int, r: UseResult) -> bool {
    match r {
        UseResult::UsedUp => {
            &&& g1.inventory@ == g0.inventory@.remove(inventory_id)
            &&& g1.messages == g0.messages
            &&& g1.map == g0.map
            &&& g1.dungeon_level == g0.dungeon_level
        },
        UseResult::UsedAndKept => g1 == g0,
        UseResult::UseCharge => {
            let o = g0.inventory@[inventory_id];
            let e = o.equipment.unwrap();
            &&& g1.inventory@ == g0.inventory@.update(
                inventory_id,
                Object { equipment: Some(Equipment { charges: (e.charges - 1) as i32, ..e }), ..o },
            )
            &&& g1.messages == g0.messages
            &&& g1.map == g0.map
            &&& g1.dungeon_level == g0.dungeon_level
        },
        UseResult::Cancelled => g0.logged(&g1, seq![Message::Cancelled]),
    }
}

/// What using an item may assume of the roster and game.
pub open spec fn use_ready(game: &Game, objects: Seq<Object>, target: Option<(i32, i32)>) -> bool {
    &&& roster_ok(objects)
    &&& game.bounded()
    &&& target matches Some((x, y)) ==> coord_ok(x as int) && coord_ok(y as int)
    &&& (match objects[PLAYER as int].fighter {
        Some(f) => f.xp as int,
        None => 0,
    }) + xp_sum(objects, objects.len() as int) <= i32::MAX
    &&& forall|i: int|
        0 <= i < objects.len() && i != PLAYER ==> xp_fits(objects[PLAYER as int], #[trigger] objects[i])
}

/// What using inventory item `inventory_id` with result `r` does: an object
/// that is no item cannot be used, which is logged; an item has its
/// effect and the inventory is then settled. The roster keeps its length.
pub open spec fn use_effect(
    inventory_id: int,
    fov: Fov,
    target: Option<(i32, i32)>,
    o0: Seq<Object>,
    g0: Game,
    o1: Seq<Object>,
    g1: Game,
    r: UseResult,
) -> bool {
    &&& o1.len() == o0.len()
    &&& match g0.inventory@[inventory_id].item {
        None => {
            &&& r == UseResult::Cancelled
            &&& o1 == o0
            &&& g0.logged(&g1, seq![(Message::CannotUse { name: g0.inventory@[inventory_id].name })])
        },
        Some(kind) => exists|mid: Game|
            {
                &&& #[trigger] item_effect(kind, inventory_id, fov, target, o0, o1, g0, mid, r)
                &&& settled(mid, g1, inventory_id, r)
            },
    }
}

/// Uses inventory item `inventory_id`; `target` is the tile the player
/// clicked for an item that asks for one. A click that is off the grid,
/// not visible, or beyond the scroll's or bow's range counts as none. An
/// object that is no item cannot be used, which is logged.
pub fn use_item(
    inventory_id: usize,
    fov: &Fov,
    target: Option<(i32, i32)>,
    game: &mut Game,
    objects: &mut Vec<Object>,
) -> (r: UseResult)
    requires
        inventory_id < old(game).inventory@.len(),
        use_ready(old(game), old(objects)@, target),
    ensures
        use_effect(
            inventory_id as int,
            *fov,
            target,
            old(objects)@,
            *old(game),
            final(objects)@,
            *final(game),
            r,
        ),
{
    let kind = match game.inventory[inventory_id].item {
        Some(kind) => kind,
        None => {
            let m = Message::CannotUse { name: game.inventory[inventory_id].name.clone() };
            game.messages.add(m);
            assert(game.messages.messages@ =~= old(game).messages.messages@ + seq![m]);
            return UseResult::Cancelled;
        },
    };
    let result = match kind {
        Item::Heal => cast_heal(game, objects),
        Item::Lightning => cast_lightning(fov, game, objects),
        Item::Confuse => {
            let tile = aim(target, fov, &objects[PLAYER], Some(CONFUSE_RANGE));
            let monster = monster_aimed(tile, objects);
            cast_confuse(monster, game, objects)
        },
        Item::Fireball => {
            let tile = aim(target, fov, &objects[PLAYER], None);
            cast_fireball(tile, game, objects)
        },
        Item::Bow => {
            if let Some(e) = game.inventory[inventory_id].equipment {
                assert(e.bounded());
                let tile = aim(target, fov, &objects[PLAYER], Some(e.range));
                let monster = monster_aimed(tile, objects);
                player_ranged_attack(inventory_id, monster, game, objects)
            } else {
                UseResult::Cancelled
            }
        },
        _ => toggle_equipment(inventory_id, game),
    };
    let ghost mid = *game;
    assert(item_effect(kind, inventory_id as int, *fov, target, old(objects)@, objects@, *old(game), mid, result));
    match result {
        UseResult::UsedUp => {
            let _ = game.inventory.remove(inventory_id);
        },
        UseResult::UsedAndKept => {},
        UseResult::UseCharge => {
            assert(mid.inventory@[inventory_id as int].equipment.is_some());
            assert(mid.inventory@[inventory_id as int].equipment.unwrap().bounded());
            if let Some(e) = game.inventory[inventory_id].equipment {
                game.inventory[inventory_id].equipment = Some(Equipment { charges: e.charges - 1, ..e });
            }
        },
        UseResult::Cancelled => {
            game.messages.add(Message::Cancelled);
            assert(game.messages.messages@ =~= mid.messages.messages@ + seq![Message::Cancelled]);
        },
    }
    result
}

} // verus!
