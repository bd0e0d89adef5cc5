//! The turn engine: a new game, levelling up, descending, the monster
//! phase and one full tick.

use crate::ai::{
    ai_ok, ai_taken, ai_take_turn, ai_turn, moved_by, next_ai, roster_ok, struck, turn_ready,
};
use crate::combat::{
    attack_damage, attack_effect, awarded, damage_outcome, healed, lemma_bonus_total_bounded,
    lemma_equipped_of_bounded, ranged_effect, xp_fits, Bonus,
};
use crate::dungeon::{ais_ok, level_layout, make_map};
use crate::game::Game;
use crate::inventory::{drop_effect, pick_effect, UseResult};
use crate::items::use_effect;
use crate::map::{in_map, map_wf, Fov, Rect};
use crate::object::{
    Color, DeathCallback, Equipment, Fighter, Item, Message, Messages, Object, Slot, AI, PLAYER,
    STAT_MAX,
};
use vstd::prelude::*;
use vstd::string::StringExecFns;

verus! {

/// Experience for the first level-up.
pub const LEVEL_UP_BASE: i32 = 200;

/// Experience added to the threshold for each level.
pub const LEVEL_UP_FACTOR: i32 = 150;

/// The stat a level-up raises.
#[derive(Clone, Copy, Debug, PartialEq, Eq, Structural)]
pub enum StatChoice {
    /// +20 maximum and current hit points.
    Constitution,
    /// +1 power.
    Strength,
    /// +1 defense.
    Agility,
}

/// Experience the player needs to leave character level `level`.
pub open spec fn level_up_threshold(level: int) -> int {
    LEVEL_UP_BASE + level * LEVEL_UP_FACTOR
}

/// The player has the experience for a level-up.
pub open spec fn spec_level_up_ready(p: Object) -> bool {
    match p.fighter {
        Some(f) => f.xp >= level_up_threshold(p.level as int),
        None => 0 >= level_up_threshold(p.level as int),
    }
}

/// The player's level is within `STAT_MAX`.
pub open spec fn level_ok(p: Object) -> bool {
    0 <= p.level < STAT_MAX
}

/// Whether the player has the experience for a level-up; the caller then
/// collects a stat choice and calls `level_up`.
pub fn level_up_ready(objects: &Vec<Object>) -> (b: bool)
    requires
        objects@.len() > PLAYER,
        level_ok(objects@[PLAYER as int]),
    ensures
        b == spec_level_up_ready(objects@[PLAYER as int]),
{
    let player = &objects[PLAYER];
    let level_up_xp = LEVEL_UP_BASE + player.level * LEVEL_UP_FACTOR;
    let xp = match player.fighter {
        Some(f) => f.xp,
        None => 0,
    };
    xp >= level_up_xp
}

/// The player's fighter after a level-up from character level `level`
/// raising `choice`: the threshold's experience is spent.
pub open spec fn raised(f: Fighter, level: int, choice: StatChoice) -> Fighter {
    let spent = Fighter { xp: (f.xp - level_up_threshold(level)) as i32, ..f };
    match choice {
        StatChoice::Constitution => Fighter {
            base_max_hp: (f.base_max_hp + 20) as i32,
            hp: (f.hp + 20) as i32,
            ..spent
        },
        StatChoice::Strength => Fighter { base_power: (f.base_power + 1) as i32, ..spent },
        StatChoice::Agility => Fighter { base_defense: (f.base_defense + 1) as i32, ..spent },
    }
}

/// Levels the player up if the experience suffices: the level rises by
/// one, it is logged, the threshold's experience is spent and `choice` is
/// raised. Returns whether it happened; otherwise nothing changes.
pub fn level_up(choice: StatChoice, game: &mut Game, objects: &mut Vec<Object>) -> (done: bool)
    requires
        old(objects)@.len() > PLAYER,
        level_ok(old(objects)@[PLAYER as int]),
        old(objects)@[PLAYER as int].bounded(),
    ensures
        done == (spec_level_up_ready(old(objects)@[PLAYER as int]) && old(
            objects,
        )@[PLAYER as int].fighter.is_some()),
        !done ==> final(objects)@ == old(objects)@ && *final(game) == *old(game),
        done ==> {
            let p = old(objects)@[PLAYER as int];
            &&& final(objects)@ == old(objects)@.update(
                PLAYER as int,
                Object {
                    level: (p.level + 1) as i32,
                    fighter: Some(raised(p.fighter.unwrap(), p.level as int, choice)),
                    ..p
                },
            )
            &&& old(game).logged(
                &*final(game),
                seq![(Message::LevelUp { level: (p.level + 1) as i32 })],
            )
        },
{
    if !level_up_ready(objects) {
        return false;
    }
    let level_up_xp = LEVEL_UP_BASE + objects[PLAYER].level * LEVEL_UP_FACTOR;
    let f = match objects[PLAYER].fighter {
        Some(f) => f,
        None => {
            return false;
        },
    };
    let level = objects[PLAYER].level + 1;
    objects[PLAYER].level = level;
    let m = Message::LevelUp { level: level };
    game.messages.add(m);
    assert(game.messages.messages@ =~= old(game).messages.messages@ + seq![m]);
    let spent = Fighter { xp: f.xp - level_up_xp, ..f };
    let raised = match choice {
        StatChoice::Constitution => Fighter {
            base_max_hp: f.base_max_hp + 20,
            hp: f.hp + 20,
            ..spent
        },
        StatChoice::Strength => Fighter { base_power: f.base_power + 1, ..spent },
        StatChoice::Agility => Fighter { base_defense: f.base_defense + 1, ..spent },
    };
    objects[PLAYER].fighter = Some(raised);
    true
}

/// The player as a new game starts: alive, blocking, level 1, with 100 hit
/// points, power 2 and defense 1.
pub open spec fn is_new_player(p: Object) -> bool {
    &&& p.name@ == "player"@
    &&& p.alive && p.blocks
    &&& p.fighter == Some(
        Fighter {
            base_max_hp: 100,
            hp: 100,
            base_defense: 1,
            base_power: 2,
            xp: 0,
            on_death: DeathCallback::Player,
        },
    )
    &&& p.ai.is_none() && p.item.is_none() && p.equipment.is_none()
    &&& p.level == 1
}

/// The dagger a new game starts with, equipped in the right hand for +2
/// power.
pub open spec fn is_starting_dagger(o: Object) -> bool {
    &&& o.name@ == "dagger"@
    &&& o.item == Some(Item::Sword)
    &&& o.equipment == Some(
        Equipment {
            slot: Slot::RightHand,
            equipped: true,
            power_bonus: 2,
            defense_bonus: 0,
            max_hp_bonus: 0,
            range: 0,
            damage: 0,
            charges: 0,
        },
    )
}

/// A new player, not yet placed.
pub fn new_player() -> (p: Object)
    ensures
        is_new_player(p),
        p.bounded(),
{
    let mut player = Object::new(0, 0, '@', Color::White, String::from_str("player"), true);
    player.alive = true;
    player.fighter = Some(
        Fighter {
            base_max_hp: 100,
            hp: 100,
            base_defense: 1,
            base_power: 2,
            xp: 0,
            on_death: DeathCallback::Player,
        },
    );
    player
}

/// Starts a session: a fresh player, the first level, a dagger in hand and
/// the welcome message.
pub fn new_game() -> (r: (Game, Vec<Object>))
    ensures
        map_wf(&r.0.map),
        r.0.dungeon_level == 1,
        r.0.inventory@.len() == 1,
        is_starting_dagger(r.0.inventory@[0]),
        r.0.messages.messages@ == seq![Message::Welcome],
        r.0.bounded(),
        roster_ok(r.1@),
        ais_ok(r.1@),
        is_new_player(r.1@[PLAYER as int]),
        exists|rooms: Seq<Rect>, p: Object|
            is_new_player(p) && #[trigger] level_layout(&r.0.map, r.1@, p, 1, rooms),
{
    let player = new_player();
    let mut objects = vec![player];
    let map = make_map(&mut objects, 1);
    let mut game = Game { map: map, messages: Messages::new(), inventory: Vec::new(), dungeon_level: 1 };
    let mut dagger = Object::new(0, 0, '-', Color::Sky, String::from_str("dagger"), false);
    dagger.item = Some(Item::Sword);
    dagger.equipment = Some(
        Equipment {
            equipped: true,
            slot: Slot::RightHand,
            max_hp_bonus: 0,
            defense_bonus: 0,
            power_bonus: 2,
            range: 0,
            damage: 0,
            charges: 0,
        },
    );
    game.inventory.push(dagger);
    game.messages.add(Message::Welcome);
    assert(game.messages.messages@ =~= seq![Message::Welcome]);
    (game, objects)
}

/// What descending does: the player rests, healing half the effective
/// maximum hit points; a new level one deeper is built (`make_map`), on
/// which the rested player stands at the first room's center and no other
/// entity of the old roster remains; the inventory stays; the roster and
/// game keep their bounds.
pub open spec fn descend_effect(o0: Seq<Object>, g0: Game, o1: Seq<Object>, g1: Game) -> bool {
    let p = o0[PLAYER as int];
    let rested = healed(p, p.spec_max_hp(g0) / 2, g0);
    &&& o1[PLAYER as int] == (Object { x: o1[PLAYER as int].x, y: o1[PLAYER as int].y, ..rested })
    &&& g1.dungeon_level == g0.dungeon_level + 1
    &&& g1.inventory == g0.inventory
    &&& g1.messages.messages@ == g0.messages.messages@ + seq![Message::Rest, Message::Descend]
    &&& map_wf(&g1.map)
    &&& roster_ok(o1)
    &&& ais_ok(o1)
    &&& g1.bounded()
    &&& exists|rooms: Seq<Rect>|
        #[trigger] level_layout(&g1.map, o1, rested, (g0.dungeon_level + 1) as u32, rooms)
}

/// Descends the stairs: the player rests, healing half the effective
/// maximum hit points; the dungeon level rises by one; a new level is
/// built, keeping only the player.
pub fn next_level(game: &mut Game, objects: &mut Vec<Object>)
    requires
        roster_ok(old(objects)@),
        old(game).bounded(),
        old(game).dungeon_level < STAT_MAX,
        old(objects)@[PLAYER as int].ai.is_none(),
        old(objects)@[PLAYER as int].spec_max_hp(*old(game)) >= 0,
    ensures
        descend_effect(old(objects)@, *old(game), final(objects)@, *final(game)),
{
    game.messages.add(Message::Rest);
    let heal_hp = objects[PLAYER].max_hp(game) / 2;
    objects[PLAYER].heal(heal_hp, game);
    game.messages.add(Message::Descend);
    assert(game.messages.messages@ =~= old(game).messages.messages@ + seq![Message::Rest, Message::Descend]);
    game.dungeon_level = game.dungeon_level + 1;
    assert(objects@[PLAYER as int].bounded());
    let ghost rested = objects@[PLAYER as int];
    let map = make_map(objects, game.dungeon_level);
    let ghost rooms = choose|rooms: Seq<Rect>|
        #[trigger] level_layout(&map, objects@, rested, game.dungeon_level, rooms);
    game.map = map;
    proof {
        let p = old(objects)@[PLAYER as int];
        assert(rested == healed(p, p.spec_max_hp(*old(game)) / 2, *old(game)));
        assert(level_layout(&game.map, objects@, rested, game.dungeon_level, rooms));
        assert(game.dungeon_level == (old(game).dungeon_level + 1) as u32);
    }
}

/// Effective power and defense of a bounded entity are bounded.
proof fn lemma_stats_bounded(o: Object, g: Game)
    requires
        o.bounded(),
        g.bounded(),
    ensures
        -28 * STAT_MAX <= o.spec_power(g) <= 28 * STAT_MAX,
        -27 * STAT_MAX <= o.spec_defense(g) <= 27 * STAT_MAX,
{
    lemma_equipped_of_bounded(g.inventory@);
    lemma_bonus_total_bounded(o.spec_equipped(g), Bonus::Power);
    lemma_bonus_total_bounded(o.spec_equipped(g), Bonus::Defense);
}

/// Damage of at most `60 * STAT_MAX` leaves a bounded fighter bounded and
/// in place, and its experience as it was.
proof fn lemma_damage_keeps(t: Object, t2: Object, d: int, r: Option<i32>, logged: Seq<Message>)
    requires
        damage_outcome(t, t2, d, r, logged),
        t.bounded(),
        d <= 60 * STAT_MAX,
    ensures
        t2.bounded(),
        t2.x == t.x && t2.y == t.y,
        t2.ai.is_some() ==> t2.ai == t.ai,
        t2.fighter.is_some() ==> t.fighter.is_some() && t2.fighter.unwrap().xp == t.fighter.unwrap().xp,
{
}

/// An attack of bounded entities leaves them bounded, in place, with their
/// AI, and the target's experience as it was.
proof fn lemma_attack_keeps(a: Object, a2: Object, t: Object, t2: Object, g: Game, g2: Game)
    requires
        attack_effect(a, a2, t, t2, g, g2),
        a.bounded(),
        t.bounded(),
        g.bounded(),
        xp_fits(a, t),
    ensures
        a2.bounded() && t2.bounded(),
        a2.x == a.x && a2.y == a.y && t2.x == t.x && t2.y == t.y,
        a2.ai == a.ai,
        t2.ai.is_some() ==> t2.ai == t.ai,
        t2.fighter.is_some() ==> t.fighter.is_some() && t2.fighter.unwrap().xp == t.fighter.unwrap().xp,
        g.same_but_log(&g2),
{
    lemma_stats_bounded(a, g);
    lemma_stats_bounded(t, g);
    let d = attack_damage(a, t, g);
    if d > 0 {
        let m = Message::Attack { attacker: a.name, target: t.name, damage: d as i32 };
        let (r, logged) = choose|r: Option<i32>, logged: Seq<Message>|
            {
                &&& #[trigger] damage_outcome(t, t2, d, r, logged)
                &&& g.logged(&g2, seq![m] + logged)
                &&& a2 == awarded(a, r)
            };
        lemma_damage_keeps(t, t2, d, r, logged);
    }
}

/// A ranged attack of bounded entities keeps the same facts.
proof fn lemma_ranged_keeps(a: Object, a2: Object, t: Object, t2: Object, g: Game, g2: Game, range: int)
    requires
        ranged_effect(a, a2, t, t2, g, g2, range),
        a.bounded(),
        t.bounded(),
        g.bounded(),
        xp_fits(a, t),
    ensures
        a2.bounded() && t2.bounded(),
        a2.x == a.x && a2.y == a.y && t2.x == t.x && t2.y == t.y,
        a2.ai == a.ai,
        t2.ai.is_some() ==> t2.ai == t.ai,
        t2.fighter.is_some() ==> t.fighter.is_some() && t2.fighter.unwrap().xp == t.fighter.unwrap().xp,
        g.same_but_log(&g2),
{
    lemma_stats_bounded(a, g);
    lemma_stats_bounded(t, g);
    let d = attack_damage(a, t, g);
    if crate::combat::in_range(a, t, range) && d > 0 {
        let m = Message::Shoot { attacker: a.name, target: t.name, damage: d as i32 };
        let (r, logged) = choose|r: Option<i32>, logged: Seq<Message>|
            {
                &&& #[trigger] damage_outcome(t, t2, d, r, logged)
                &&& g.logged(&g2, seq![m] + logged)
                &&& a2 == awarded(a, r)
            };
        lemma_damage_keeps(t, t2, d, r, logged);
    }
}

/// A step keeps the roster on the grid.
proof fn lemma_moved_keeps(map: &crate::map::Grid, objects: Seq<Object>, id: int, dx: int, dy: int)
    requires
        roster_ok(objects),
        0 <= id < objects.len(),
    ensures
        roster_ok(moved_by(map, objects, id, dx, dy)),
        moved_by(map, objects, id, dx, dy).len() == objects.len(),
        forall|j: int|
            0 <= j < objects.len() && j != id ==> #[trigger] moved_by(map, objects, id, dx, dy)[j]
                == objects[j],
        moved_by(map, objects, id, dx, dy)[id].ai == objects[id].ai,
        moved_by(map, objects, id, dx, dy)[id].fighter == objects[id].fighter,
{
}

/// Counting down keeps an AI in range.
proof fn lemma_next_ai_ok(ai: AI)
    requires
        ai_ok(ai),
    ensures
        ai_ok(next_ai(ai)),
{
}

/// What the monster phase keeps true between turns.
pub open spec fn phase_ok(game: &Game, objects: Seq<Object>) -> bool {
    &&& roster_ok(objects)
    &&& ais_ok(objects)
    &&& map_wf(&game.map)
    &&& game.bounded()
    &&& objects[PLAYER as int].ai.is_none()
}

/// A monster's turn keeps the phase's invariant, leaves every entity but
/// the monster and the player as it was, and the player's experience too.
proof fn lemma_turn_keeps(
    ai: AI,
    fov: Fov,
    objects: Seq<Object>,
    mid: Seq<Object>,
    g0: Game,
    g1: Game,
    id: int,
)
    requires
        phase_ok(&g0, objects),
        objects[id].ai == Some(ai),
        turn_ready(&fov, &g0, objects, id),
        xp_fits(objects[id], objects[PLAYER as int]),
        ai_turn(ai, fov, ai_taken(objects, id), mid, g0, g1, id),
    ensures
        ({
            let after = mid.update(id, Object { ai: Some(next_ai(ai)), ..mid[id] });
            &&& phase_ok(&g1, after)
            &&& after.len() == objects.len()
            &&& forall|j: int| 0 <= j < objects.len() && j != id && j != PLAYER ==> #[trigger] after[j] == objects[j]
            &&& after[PLAYER as int].fighter.is_some() ==> objects[PLAYER as int].fighter.is_some()
                && after[PLAYER as int].fighter.unwrap().xp == objects[PLAYER as int].fighter.unwrap().xp
        }),
{
    let taken = ai_taken(objects, id);
    assert(roster_ok(taken)) by {
        assert forall|i: int| 0 <= i < taken.len() implies in_map((#[trigger] taken[i]).x as int, taken[i].y as int)
            && taken[i].bounded() by {
            assert(objects[i].x == taken[i].x);
        }
    }
    assert(xp_fits(taken[id], taken[PLAYER as int]));
    let m = taken[id];
    let p = taken[PLAYER as int];
    match ai {
        AI::Basic => {
            if !fov.spec_is_in_fov(m.x as int, m.y as int) {
            } else if crate::object::dist2(m.x as int, m.y as int, p.x as int, p.y as int) >= 4 {
                lemma_moved_keeps(&g0.map, taken, id, step_toward_x(taken, id, p), step_toward_y(taken, id, p));
            } else {
                lemma_attack_keeps(taken[id], mid[id], taken[PLAYER as int], mid[PLAYER as int], g0, g1);
            }
        },
        AI::Ranged { range } => {
            if !fov.spec_is_in_fov(m.x as int, m.y as int) {
            } else if range < 0 || crate::object::dist2(m.x as int, m.y as int, p.x as int, p.y as int)
                >= range * range {
                lemma_moved_keeps(&g0.map, taken, id, step_toward_x(taken, id, p), step_toward_y(taken, id, p));
            } else {
                lemma_ranged_keeps(taken[id], mid[id], taken[PLAYER as int], mid[PLAYER as int], g0, g1, range as int);
            }
        },
        AI::Confused { previous_ai, num_turns } => {
            if num_turns > 0 {
                let (dx, dy) = choose|dx: int, dy: int|
                    -1 <= dx <= 1 && -1 <= dy <= 1 && mid == #[trigger] moved_by(&g0.map, taken, id, dx, dy);
                lemma_moved_keeps(&g0.map, taken, id, dx, dy);
            }
        },
    }
    lemma_next_ai_ok(ai);
    let after = mid.update(id, Object { ai: Some(next_ai(ai)), ..mid[id] });
    assert(roster_ok(after)) by {
        assert forall|i: int| 0 <= i < after.len() implies in_map((#[trigger] after[i]).x as int, after[i].y as int)
            && after[i].bounded() by {
            if i != id {
                assert(after[i] == mid[i]);
            }
        }
    }
    assert(ais_ok(after)) by {
        assert forall|i: int| 0 <= i < after.len() && (#[trigger] after[i]).ai.is_some() implies ai_ok(after[i].ai.unwrap()) by {
            if i != id {
                assert(after[i] == mid[i]);
                if i != PLAYER {
                    assert(mid[i] == taken[i]);
                }
            }
        }
    }
}

/// The x step toward the player of entity `id`.
pub open spec fn step_toward_x(objects: Seq<Object>, id: int, p: Object) -> int {
    crate::ai::step_toward(p.x - objects[id].x, p.y - objects[id].y)
}

/// The y step toward the player of entity `id`.
pub open spec fn step_toward_y(objects: Seq<Object>, id: int, p: Object) -> int {
    crate::ai::step_toward(p.y - objects[id].y, p.x - objects[id].x)
}

/// One step of the monster phase at roster index `id`: a dead entity, or
/// one without AI, does nothing; one with AI takes its turn and holds the AI that
/// follows.
pub open spec fn phase_step(
    fov: Fov,
    o0: Seq<Object>,
    g0: Game,
    o1: Seq<Object>,
    g1: Game,
    id: int,
) -> bool {
    if !o0[id].alive {
        o1 == o0 && g1 == g0
    } else {
        match o0[id].ai {
            None => o1 == o0 && g1 == g0,
            Some(ai) => exists|mid: Seq<Object>|
                {
                    &&& #[trigger] ai_turn(ai, fov, ai_taken(o0, id), mid, g0, g1, id)
                    &&& o1 == mid.update(id, Object { ai: Some(next_ai(ai)), ..mid[id] })
                },
        }
    }
}

/// The monster phase took the roster and game from `(o0, g0)` to
/// `(o1, g1)`: a chain of one step per roster index, in order.
pub open spec fn phase_effect(fov: Fov, o0: Seq<Object>, g0: Game, o1: Seq<Object>, g1: Game) -> bool {
    exists|os: Seq<Seq<Object>>, gs: Seq<Game>|
        {
            &&& os.len() == o0.len() + 1
            &&& gs.len() == o0.len() + 1
            &&& os[0] == o0
            &&& gs[0] == g0
            &&& #[trigger] os.last() == o1
            &&& #[trigger] gs.last() == g1
            &&& forall|i: int|
                0 <= i < o0.len() ==> #[trigger] phase_step(fov, os[i], gs[i], os[i + 1], gs[i + 1], i)
        }
}

/// Every monster can be credited with the player's experience.
pub open spec fn kills_fit(objects: Seq<Object>, from: int) -> bool {
    forall|j: int|
        from <= j < objects.len() && j != PLAYER ==> xp_fits(#[trigger] objects[j], objects[PLAYER as int])
}

/// The monster phase: every entity, in roster order by its index when the
/// phase begins, takes its AI turn if it is alive and holds an AI at that
/// moment. The
/// roster neither grows nor shrinks.
pub fn monster_phase(fov: &Fov, game: &mut Game, objects: &mut Vec<Object>)
    requires
        phase_ok(old(game), old(objects)@),
        kills_fit(old(objects)@, 0),
    ensures
        final(objects)@.len() == old(objects)@.len(),
        phase_ok(final(game), final(objects)@),
        phase_effect(*fov, old(objects)@, *old(game), final(objects)@, *final(game)),
{
    let n = objects.len();
    let ghost mut os: Seq<Seq<Object>> = seq![objects@];
    let ghost mut gs: Seq<Game> = seq![*game];
    let mut id: usize = 0;
    while id < n
        invariant
            n == old(objects)@.len(),
            objects@.len() == n,
            0 <= id <= n,
            phase_ok(game, objects@),
            kills_fit(objects@, id as int),
            os.len() == id + 1,
            gs.len() == id + 1,
            os[0] == old(objects)@,
            gs[0] == *old(game),
            os.last() == objects@,
            gs.last() == *game,
            forall|i: int| 0 <= i < id ==> #[trigger] phase_step(*fov, os[i], gs[i], os[i + 1], gs[i + 1], i),
        decreases n - id,
    {
        let ghost o0 = objects@;
        let ghost g0 = *game;
        if objects[id].alive && objects[id].ai.is_some() {
            assert(id != PLAYER);
            assert(xp_fits(o0[id as int], o0[PLAYER as int]));
            ai_take_turn(id, fov, game, objects);
            proof {
                let ai = o0[id as int].ai.unwrap();
                let mid = choose|mid: Seq<Object>|
                    {
                        &&& #[trigger] ai_turn(ai, *fov, ai_taken(o0, id as int), mid, g0, *game, id as int)
                        &&& objects@ == mid.update(id as int, Object { ai: Some(next_ai(ai)), ..mid[id as int] })
                    };
                lemma_turn_keeps(ai, *fov, o0, mid, g0, *game, id as int);
                assert forall|j: int| id + 1 <= j < objects@.len() && j != PLAYER implies xp_fits(#[trigger] objects@[j], objects@[PLAYER as int]) by {
                    assert(objects@[j] == o0[j]);
                    assert(xp_fits(o0[j], o0[PLAYER as int]));
                }
            }
        }
        proof {
            let os2 = os.push(objects@);
            let gs2 = gs.push(*game);
            assert(phase_step(*fov, os2[id as int], gs2[id as int], os2[id + 1], gs2[id + 1], id as int));
            assert forall|i: int| 0 <= i < id + 1 implies #[trigger] phase_step(*fov, os2[i], gs2[i], os2[i + 1], gs2[i + 1], i) by {
                if i < id {
                    assert(os2[i] == os[i] && os2[i + 1] == os[i + 1] && gs2[i] == gs[i] && gs2[i + 1] == gs[i + 1]);
                }
            }
            os = os2;
            gs = gs2;
        }
        id = id + 1;
    }
}

/// How a player's intent came out.
#[derive(Clone, Copy, Debug, PartialEq, Eq, Structural)]
pub enum PlayerAction {
    TookTurn,
    DidntTakeTurn,
    Exit,
}

/// What the player asks for, decoded from input. An inventory index is
/// absent where the player cancelled the menu; a target tile is absent
/// where the item needs none or the player cancelled the choice.
#[derive(Clone, Copy, Debug)]
pub enum PlayerIntent {
    Move { dx: i32, dy: i32 },
    Wait,
    UseItem { inventory_id: Option<usize>, target: Option<(i32, i32)> },
    DropItem { inventory_id: Option<usize> },
    PickUp,
    Descend,
    Exit,
    Other,
}

/// A step of at most one tile each way, and not the null step.
pub open spec fn valid_step(dx: int, dy: int) -> bool {
    -1 <= dx <= 1 && -1 <= dy <= 1 && (dx != 0 || dy != 0)
}

/// The action an intent comes to, given whether the player is alive and,
/// for a move, whether the step is valid.
pub open spec fn intent_action(intent: PlayerIntent, alive: bool) -> PlayerAction {
    match intent {
        PlayerIntent::Exit => PlayerAction::Exit,
        _ => if !alive {
            PlayerAction::DidntTakeTurn
        } else {
            match intent {
                PlayerIntent::Move { dx, dy } => if valid_step(dx as int, dy as int) {
                    PlayerAction::TookTurn
                } else {
                    PlayerAction::DidntTakeTurn
                },
                PlayerIntent::Wait => PlayerAction::TookTurn,
                PlayerIntent::UseItem { .. } => PlayerAction::TookTurn,
                PlayerIntent::PickUp => PlayerAction::TookTurn,
                _ => PlayerAction::DidntTakeTurn,
            }
        },
    }
}

/// What the player's intent did, beyond its action: a wait is logged; a
/// move steps or attacks; an item is used or dropped; the first item on the
/// player's tile is picked up; stairs there are descended while the depth
/// and the player's maximum hit points allow. An intent of a dead player,
/// an invalid move or index, leaving, and anything unrecognised change
/// nothing.
pub open spec fn intent_effect(
    intent: PlayerIntent,
    fov: Fov,
    o0: Seq<Object>,
    g0: Game,
    o1: Seq<Object>,
    g1: Game,
) -> bool {
    let p = o0[PLAYER as int];
    if !p.alive || intent == PlayerIntent::Exit || intent == PlayerIntent::Other {
        o1 == o0 && g1 == g0
    } else {
        match intent {
            PlayerIntent::Wait => o1 == o0 && g0.logged(&g1, seq![(Message::Waits { name: p.name })]),
            PlayerIntent::Move { dx, dy } => if !valid_step(dx as int, dy as int) {
                o1 == o0 && g1 == g0
            } else {
                match crate::ai::first_fighter_at(o0, p.x + dx, p.y + dy) {
                    Some(t) => struck(o0, o1, g0, g1, PLAYER as int, t),
                    None => o1 == moved_by(&g0.map, o0, PLAYER as int, dx as int, dy as int) && g1
                        == g0,
                }
            },
            PlayerIntent::UseItem { inventory_id, target } => match inventory_id {
                Some(i) => if i < g0.inventory@.len() {
                    exists|r: UseResult|
                        #[trigger] use_effect(i as int, fov, clipped(target), o0, g0, o1, g1, r)
                } else {
                    o1 == o0 && g1 == g0
                },
                None => o1 == o0 && g1 == g0,
            },
            PlayerIntent::DropItem { inventory_id } => match inventory_id {
                Some(i) => if i < g0.inventory@.len() {
                    drop_effect(i as int, o0, g0, o1, g1)
                } else {
                    o1 == o0 && g1 == g0
                },
                None => o1 == o0 && g1 == g0,
            },
            PlayerIntent::PickUp => match first_item_at(o0, p.x as int, p.y as int, o0.len() as int) {
                Some(id) => pick_effect(id, o0, g0, o1, g1),
                None => o1 == o0 && g1 == g0,
            },
            PlayerIntent::Descend => if stairs_at(o0, p.x as int, p.y as int) && g0.dungeon_level
                < STAT_MAX && p.spec_max_hp(g0) >= 0 {
                descend_effect(o0, g0, o1, g1)
            } else {
                o1 == o0 && g1 == g0
            },
            _ => true,
        }
    }
}

/// Index of the first entity among the first `n`, the player aside, that
/// is an item lying at `(x, y)`.
pub open spec fn first_item_at(objects: Seq<Object>, x: int, y: int, n: int) -> Option<int>
    decreases n,
{
    if n <= 0 {
        None
    } else {
        match first_item_at(objects, x, y, n - 1) {
            Some(i) => Some(i),
            None => {
                let o = objects[n - 1];
                if n - 1 != PLAYER && o.x == x && o.y == y && o.item.is_some() {
                    Some(n - 1)
                } else {
                    None
                }
            },
        }
    }
}

/// Once found among the first `a`, the first item stays the first.
proof fn lemma_first_item_stays(objects: Seq<Object>, x: int, y: int, a: int, b: int)
    requires
        a <= b,
        first_item_at(objects, x, y, a).is_some(),
    ensures
        first_item_at(objects, x, y, b) == first_item_at(objects, x, y, a),
    decreases b - a,
{
    if a < b {
        lemma_first_item_stays(objects, x, y, a, b - 1);
    }
}

/// The first item lies in range, is not the player, and lies at `(x, y)`.
proof fn lemma_first_item_range(objects: Seq<Object>, x: int, y: int, n: int)
    ensures
        first_item_at(objects, x, y, n) matches Some(i) ==> 0 <= i < n && i != PLAYER,
    decreases n,
{
    if n > 0 {
        lemma_first_item_range(objects, x, y, n - 1);
    }
}

/// The first item lying on the player's tile.
fn item_under_player(objects: &Vec<Object>) -> (r: Option<usize>)
    requires
        objects@.len() > PLAYER,
    ensures
        ({
            let p = objects@[PLAYER as int];
            match r {
                Some(i) => first_item_at(objects@, p.x as int, p.y as int, objects@.len() as int)
                    == Some(i as int) && i < objects@.len() && i != PLAYER,
                None => first_item_at(objects@, p.x as int, p.y as int, objects@.len() as int).is_none(),
            }
        }),
{
    let (px, py) = objects[PLAYER].pos();
    let mut i: usize = 0;
    while i < objects.len()
        invariant
            i <= objects@.len(),
            px == objects@[PLAYER as int].x,
            py == objects@[PLAYER as int].y,
            first_item_at(objects@, px as int, py as int, i as int).is_none(),
        decreases objects@.len() - i,
    {
        if i != PLAYER && objects[i].x == px && objects[i].y == py && objects[i].item.is_some() {
            proof {
                lemma_first_item_stays(objects@, px as int, py as int, i + 1, objects@.len() as int);
            }
            return Some(i);
        }
        i = i + 1;
    }
    None
}

/// Stairs lie at `(x, y)`.
pub open spec fn stairs_at(objects: Seq<Object>, x: int, y: int) -> bool {
    exists|i: int|
        0 <= i < objects.len() && i != PLAYER && (#[trigger] objects[i]).x == x && objects[i].y == y
            && objects[i].name@ == "stairs"@
}

/// Whether stairs lie on the player's tile.
fn stairs_under_player(objects: &Vec<Object>) -> (b: bool)
    requires
        objects@.len() > PLAYER,
    ensures
        b == stairs_at(objects@, objects@[PLAYER as int].x as int, objects@[PLAYER as int].y as int),
{
    let (px, py) = objects[PLAYER].pos();
    let stairs = String::from_str("stairs");
    let mut i: usize = 0;
    while i < objects.len()
        invariant
            i <= objects@.len(),
            px == objects@[PLAYER as int].x,
            py == objects@[PLAYER as int].y,
            stairs@ == "stairs"@,
            forall|j: int|
                0 <= j < i && j != PLAYER ==> !((#[trigger] objects@[j]).x == px && objects@[j].y == py
                    && objects@[j].name@ == "stairs"@),
        decreases objects@.len() - i,
    {
        if i != PLAYER && objects[i].x == px && objects[i].y == py && objects[i].name == stairs {
            return true;
        }
        i = i + 1;
    }
    false
}

/// The click handed on for an item: a tile off the grid counts as none.
pub open spec fn clipped(target: Option<(i32, i32)>) -> Option<(i32, i32)> {
    match target {
        Some((x, y)) => if crate::map::in_map(x as int, y as int) {
            Some((x, y))
        } else {
            None
        },
        None => None,
    }
}

/// Carries out the player's intent.
pub fn take_player_action(
    intent: PlayerIntent,
    fov: &Fov,
    game: &mut Game,
    objects: &mut Vec<Object>,
) -> (r: PlayerAction)
    requires
        crate::limits::tick_ok(old(game), old(objects)@),
    ensures
        r == intent_action(intent, old(objects)@[PLAYER as int].alive),
        intent_effect(intent, *fov, old(objects)@, *old(game), final(objects)@, *final(game)),
        final(objects)@.len() > PLAYER,
{
    if let PlayerIntent::Exit = intent {
        return PlayerAction::Exit;
    }
    if !objects[PLAYER].alive {
        return PlayerAction::DidntTakeTurn;
    }
    match intent {
        PlayerIntent::Wait => {
            let m = Message::Waits { name: objects[PLAYER].name.clone() };
            game.messages.add(m);
            assert(game.messages.messages@ =~= old(game).messages.messages@ + seq![m]);
            PlayerAction::TookTurn
        },
        PlayerIntent::Move { dx, dy } => {
            if !(-1 <= dx && dx <= 1 && -1 <= dy && dy <= 1 && (dx != 0 || dy != 0)) {
                return PlayerAction::DidntTakeTurn;
            }
            let _ = crate::ai::player_move_or_attack(dx, dy, game, objects);
            proof {
                let p = old(objects)@[PLAYER as int];
                crate::ai::lemma_first_fighter_at(old(objects)@, p.x + dx, p.y + dy);
            }
            assert(objects@.len() > PLAYER);
            PlayerAction::TookTurn
        },
        PlayerIntent::UseItem { inventory_id, target } => {
            if let Some(i) = inventory_id {
                if i < game.inventory.len() {
                    let aimed = match target {
                        Some((x, y)) => if 0 <= x && x < crate::map::MAP_WIDTH && 0 <= y && y
                            < crate::map::MAP_HEIGHT {
                            Some((x, y))
                        } else {
                            None
                        },
                        None => None,
                    };
                    let _ = crate::items::use_item(i, fov, aimed, game, objects);
                }
            }
            PlayerAction::TookTurn
        },
        PlayerIntent::DropItem { inventory_id } => {
            if let Some(i) = inventory_id {
                if i < game.inventory.len() {
                    crate::inventory::drop_item(i, game, objects);
                }
            }
            PlayerAction::DidntTakeTurn
        },
        PlayerIntent::PickUp => {
            if let Some(item_id) = item_under_player(objects) {
                crate::inventory::pick_item_up(item_id, game, objects);
                assert(objects@.len() > PLAYER);
            }
            PlayerAction::TookTurn
        },
        PlayerIntent::Descend => {
            if stairs_under_player(objects) && game.dungeon_level < STAT_MAX as u32 {
                if objects[PLAYER].max_hp(game) >= 0 {
                    next_level(game, objects);
                }
            }
            PlayerAction::DidntTakeTurn
        },
        _ => PlayerAction::DidntTakeTurn,
    }
}

/// One tick: the player's intent is carried out; if it took a turn and the
/// player is still alive, every monster takes its turn, as long as the
/// stats are still within the bounds the turn engine is proved for
/// (`tick_ready`); otherwise the monsters wait.
pub fn play_turn(intent: PlayerIntent, fov: &Fov, game: &mut Game, objects: &mut Vec<Object>) -> (r:
    PlayerAction)
    requires
        crate::limits::tick_ok(old(game), old(objects)@),
    ensures
        r == intent_action(intent, old(objects)@[PLAYER as int].alive),
        exists|o_mid: Seq<Object>, g_mid: Game|
            {
                &&& #[trigger] intent_effect(intent, *fov, old(objects)@, *old(game), o_mid, g_mid)
                &&& if r == PlayerAction::TookTurn && o_mid[PLAYER as int].alive
                    && crate::limits::tick_ok(&g_mid, o_mid) {
                    phase_effect(*fov, o_mid, g_mid, final(objects)@, *final(game))
                } else {
                    final(objects)@ == o_mid && *final(game) == g_mid
                }
            },
{
    let action = take_player_action(intent, fov, game, objects);
    let ghost o_mid = objects@;
    let ghost g_mid = *game;
    if action == PlayerAction::TookTurn && objects[PLAYER].alive {
        if crate::limits::tick_ready(game, objects) {
            monster_phase(fov, game, objects);
        }
    }
    assert(intent_effect(intent, *fov, old(objects)@, *old(game), o_mid, g_mid));
    action
}

/// A monster killed by damage never acts again: at its index a monster
/// phase step changes nothing.
pub proof fn law_corpse_never_acts(
    fov: Fov,
    victim: Object,
    o0: Seq<Object>,
    g0: Game,
    o1: Seq<Object>,
    g1: Game,
    id: int,
    damage: int,
    xp: Option<i32>,
    logged: Seq<Message>,
)
    requires
        damage_outcome(victim, o0[id], damage, xp, logged),
        xp.is_some(),
        victim.fighter.is_some() ==> victim.fighter.unwrap().on_death == DeathCallback::Monster,
        phase_step(fov, o0, g0, o1, g1, id),
    ensures
        o1 == o0,
        g1 == g0,
{
}

} // verus!
