//! Movement, the two-entity borrow, and the monster AI state machine.

use crate::combat::{attack_effect, ranged_effect, xp_fits};
use crate::game::Game;
use crate::map::{in_map, map_wf, tile_at, Fov, Grid};
use crate::object::{coord_ok, dist2, Message, Object, AI, PLAYER, STAT_MAX};
use crate::rng::random_range;
use vstd::prelude::*;

verus! {

/// Mutably borrows two distinct elements of `items`, in argument order.
pub fn mut_two<T>(first_index: usize, second_index: usize, items: &mut [T]) -> (r: (&mut T, &mut T))
    requires
        first_index != second_index,
        first_index < old(items)@.len(),
        second_index < old(items)@.len(),
    ensures
        *r.0 == old(items)@[first_index as int],
        *r.1 == old(items)@[second_index as int],
        final(items)@ == old(items)@.update(first_index as int, *final(r.0)).update(
            second_index as int,
            *final(r.1),
        ),
{
    let split_at_index = if first_index < second_index {
        second_index
    } else {
        first_index
    };
    let low = if first_index < second_index {
        first_index
    } else {
        second_index
    };
    let (first_slice, second_slice) = items.split_at_mut(split_at_index);
    let (_, from_low) = first_slice.split_at_mut(low);
    let a = from_low.first_mut().unwrap();
    let b = second_slice.first_mut().unwrap();
    if first_index < second_index {
        (a, b)
    } else {
        (b, a)
    }
}

/// Terrain or a blocking entity stops anyone from entering `(x, y)`;
/// so does lying off the grid.
pub open spec fn blocked_at(map: &Grid, objects: Seq<Object>, x: int, y: int) -> bool {
    ||| !in_map(x, y)
    ||| tile_at(map, x, y).blocked
    ||| exists|i: int|
        0 <= i < objects.len() && (#[trigger] objects[i]).blocks && objects[i].x == x
            && objects[i].y == y
}

/// Whether `(x, y)` is blocked.
pub fn is_blocked(x: i32, y: i32, map: &Grid, objects: &Vec<Object>) -> (b: bool)
    requires
        map_wf(map),
    ensures
        b == blocked_at(map, objects@, x as int, y as int),
{
    if !(0 <= x && x < crate::map::MAP_WIDTH && 0 <= y && y < crate::map::MAP_HEIGHT) {
        return true;
    }
    if map[x as usize][y as usize].blocked {
        return true;
    }
    let mut i: usize = 0;
    while i < objects.len()
        invariant
            i <= objects@.len(),
            forall|j: int|
                0 <= j < i ==> !((#[trigger] objects@[j]).blocks && objects@[j].x == x
                    && objects@[j].y == y),
        decreases objects@.len() - i,
    {
        if objects[i].blocks && objects[i].x == x && objects[i].y == y {
            return true;
        }
        i = i + 1;
    }
    false
}

/// Every entity stands on the grid with bounded stats.
pub open spec fn roster_ok(objects: Seq<Object>) -> bool {
    &&& objects.len() > PLAYER
    &&& forall|i: int|
        0 <= i < objects.len() ==> in_map((#[trigger] objects[i]).x as int, objects[i].y as int)
            && objects[i].bounded()
}

/// The roster after entity `id` tries to step by `(dx, dy)`: the step is
/// taken only onto a tile that is not blocked.
pub open spec fn moved_by(map: &Grid, objects: Seq<Object>, id: int, dx: int, dy: int) -> Seq<
    Object,
> {
    let o = objects[id];
    if blocked_at(map, objects, o.x + dx, o.y + dy) {
        objects
    } else {
        objects.update(id, Object { x: (o.x + dx) as i32, y: (o.y + dy) as i32, ..o })
    }
}

/// One coordinate of the grid step toward a displacement `(a, b)`: the unit
/// vector's component rounded, so 1 or -1 where `|a|` is at least half the
/// length, 0 otherwise.
pub open spec fn step_toward(a: int, b: int) -> int {
    if a != 0 && 3 * a * a >= b * b {
        if a > 0 {
            1
        } else {
            -1
        }
    } else {
        0
    }
}

/// Entity `id` tries one step by `(dx, dy)`.
pub fn move_by(id: usize, dx: i32, dy: i32, map: &Grid, objects: &mut Vec<Object>)
    requires
        map_wf(map),
        id < old(objects)@.len(),
        in_map(old(objects)@[id as int].x as int, old(objects)@[id as int].y as int),
        -1 <= dx <= 1,
        -1 <= dy <= 1,
    ensures
        final(objects)@ == moved_by(map, old(objects)@, id as int, dx as int, dy as int),
{
    let (x, y) = objects[id].pos();
    if !is_blocked(x + dx, y + dy, map, objects) {
        objects[id].set_pos(x + dx, y + dy);
    }
}

/// The grid step toward the displacement `(a, b)`.
fn step(a: i32, b: i32) -> (r: i32)
    requires
        -2 * STAT_MAX <= a <= 2 * STAT_MAX,
        -2 * STAT_MAX <= b <= 2 * STAT_MAX,
    ensures
        r == step_toward(a as int, b as int),
{
    let a2 = a as i64;
    let b2 = b as i64;
    assert(0 <= a2 * a2 <= 4 * STAT_MAX * STAT_MAX) by (nonlinear_arith)
        requires
            -2 * STAT_MAX <= a2 <= 2 * STAT_MAX,
    ;
    assert(0 <= b2 * b2 <= 4 * STAT_MAX * STAT_MAX) by (nonlinear_arith)
        requires
            -2 * STAT_MAX <= b2 <= 2 * STAT_MAX,
    ;
    assert(3 * (a as int) * (a as int) == 3 * (a2 * a2)) by (nonlinear_arith)
        requires
            a2 == a,
    ;
    if a != 0 && 3 * (a2 * a2) >= b2 * b2 {
        if a > 0 {
            1
        } else {
            -1
        }
    } else {
        0
    }
}

/// Entity `id` tries one grid step toward `(target_x, target_y)`.
pub fn move_towards(id: usize, target_x: i32, target_y: i32, map: &Grid, objects: &mut Vec<Object>)
    requires
        map_wf(map),
        id < old(objects)@.len(),
        in_map(old(objects)@[id as int].x as int, old(objects)@[id as int].y as int),
        coord_ok(target_x as int),
        coord_ok(target_y as int),
    ensures
        ({
            let o = old(objects)@[id as int];
            let dx = target_x - o.x;
            let dy = target_y - o.y;
            final(objects)@ == moved_by(
                map,
                old(objects)@,
                id as int,
                step_toward(dx, dy),
                step_toward(dy, dx),
            )
        }),
{
    let dx = target_x - objects[id].x;
    let dy = target_y - objects[id].y;
    let sx = step(dx, dy);
    let sy = step(dy, dx);
    move_by(id, sx, sy, map, objects);
}

/// The AI's figures are in range: a ranged AI's range within `STAT_MAX`.
pub open spec fn ai_ok(ai: AI) -> bool
    decreases ai,
{
    match ai {
        AI::Basic => true,
        AI::Ranged { range } => -STAT_MAX <= range <= STAT_MAX,
        AI::Confused { previous_ai, num_turns } => ai_ok(*previous_ai),
    }
}

/// Index of the first entity of `objects` with a fighter at `(x, y)`.
pub open spec fn first_fighter_at(objects: Seq<Object>, x: int, y: int) -> Option<int>
    decreases objects.len(),
{
    if objects.len() == 0 {
        None
    } else {
        match first_fighter_at(objects.drop_last(), x, y) {
            Some(i) => Some(i),
            None => {
                let o = objects.last();
                if o.fighter.is_some() && o.x == x && o.y == y {
                    Some(objects.len() - 1)
                } else {
                    None
                }
            },
        }
    }
}

/// The first fighter found lies in range and stands at `(x, y)`.
pub proof fn lemma_first_fighter_at(objects: Seq<Object>, x: int, y: int)
    ensures
        first_fighter_at(objects, x, y) matches Some(i) ==> 0 <= i < objects.len()
            && objects[i].fighter.is_some() && objects[i].x == x && objects[i].y == y,
    decreases objects.len(),
{
    if objects.len() > 0 {
        lemma_first_fighter_at(objects.drop_last(), x, y);
    }
}

/// Index of the first entity with a fighter at `(x, y)`.
fn find_fighter_at(x: i32, y: i32, objects: &Vec<Object>) -> (r: Option<usize>)
    ensures
        match r {
            Some(i) => first_fighter_at(objects@, x as int, y as int) == Some(i as int),
            None => first_fighter_at(objects@, x as int, y as int).is_none(),
        },
{
    let mut i: usize = 0;
    while i < objects.len()
        invariant
            i <= objects@.len(),
            first_fighter_at(objects@.take(i as int), x as int, y as int).is_none(),
        decreases objects@.len() - i,
    {
        assert(objects@.take(i + 1).drop_last() =~= objects@.take(i as int));
        if objects[i].fighter.is_some() && objects[i].x == x && objects[i].y == y {
            proof { lemma_first_fighter_prefix(objects@, x as int, y as int, i + 1); }
            return Some(i);
        }
        i = i + 1;
    }
    assert(objects@.take(i as int) =~= objects@);
    None
}

/// A fighter found in a prefix is the first of the whole sequence.
proof fn lemma_first_fighter_prefix(objects: Seq<Object>, x: int, y: int, n: int)
    requires
        0 <= n <= objects.len(),
        first_fighter_at(objects.take(n), x, y).is_some(),
    ensures
        first_fighter_at(objects, x, y) == first_fighter_at(objects.take(n), x, y),
    decreases objects.len() - n,
{
    if n < objects.len() {
        assert(objects.take(n + 1).drop_last() =~= objects.take(n));
        lemma_first_fighter_prefix(objects, x, y, n + 1);
    } else {
        assert(objects.take(n) =~= objects);
    }
}

/// `objects1` is `objects0` after entity `id` attacked entity `t` in melee.
pub open spec fn struck(
    objects0: Seq<Object>,
    objects1: Seq<Object>,
    g0: Game,
    g1: Game,
    id: int,
    t: int,
) -> bool {
    &&& objects1 == objects0.update(id, objects1[id]).update(t, objects1[t])
    &&& attack_effect(objects0[id], objects1[id], objects0[t], objects1[t], g0, g1)
}

/// The player steps by `(dx, dy)`, or attacks the first fighter standing
/// there. Returns whether it attacked.
pub fn player_move_or_attack(dx: i32, dy: i32, game: &mut Game, objects: &mut Vec<Object>) -> (attacked: bool)
    requires
        roster_ok(old(objects)@),
        map_wf(&old(game).map),
        old(game).bounded(),
        -1 <= dx <= 1,
        -1 <= dy <= 1,
        dx != 0 || dy != 0,
        forall|i: int|
            0 <= i < old(objects)@.len() && i != PLAYER ==> xp_fits(
                old(objects)@[PLAYER as int],
                #[trigger] old(objects)@[i],
            ),
    ensures
        ({
            let p = old(objects)@[PLAYER as int];
            match first_fighter_at(old(objects)@, p.x + dx, p.y + dy) {
                Some(t) => attacked && struck(
                    old(objects)@,
                    final(objects)@,
                    *old(game),
                    *final(game),
                    PLAYER as int,
                    t,
                ),
                None => !attacked && final(objects)@ == moved_by(
                    &old(game).map,
                    old(objects)@,
                    PLAYER as int,
                    dx as int,
                    dy as int,
                ) && *final(game) == *old(game),
            }
        }),
{
    let x = objects[PLAYER].x + dx;
    let y = objects[PLAYER].y + dy;
    let target_id = find_fighter_at(x, y, objects);
    proof { lemma_first_fighter_at(objects@, x as int, y as int); }
    match target_id {
        Some(target_id) => {
            let (player, target) = mut_two(PLAYER, target_id, objects.as_mut_slice());
            player.attack(target, game);
            true
        },
        None => {
            move_by(PLAYER, dx, dy, &game.map, objects);
            false
        },
    }
}

/// The roster after entity `id` steps toward `(tx, ty)`.
pub open spec fn moved_toward(map: &Grid, objects: Seq<Object>, id: int, tx: int, ty: int) -> Seq<
    Object,
> {
    let o = objects[id];
    moved_by(map, objects, id, step_toward(tx - o.x, ty - o.y), step_toward(ty - o.y, tx - o.x))
}

/// A `Basic` monster's turn: unseen, it does nothing; two or more tiles
/// away, it steps toward the player; closer, it attacks the player.
pub open spec fn basic_turn(
    fov: Fov,
    objects0: Seq<Object>,
    objects1: Seq<Object>,
    g0: Game,
    g1: Game,
    id: int,
) -> bool {
    let m = objects0[id];
    let p = objects0[PLAYER as int];
    if !fov.spec_is_in_fov(m.x as int, m.y as int) {
        objects1 == objects0 && g1 == g0
    } else if dist2(m.x as int, m.y as int, p.x as int, p.y as int) >= 4 {
        objects1 == moved_toward(&g0.map, objects0, id, p.x as int, p.y as int) && g1 == g0
    } else {
        struck(objects0, objects1, g0, g1, id, PLAYER as int)
    }
}

/// A `Ranged` monster's turn: unseen, it does nothing; at `range` or
/// beyond, it steps toward the player; closer, it shoots the player.
pub open spec fn ranged_turn(
    fov: Fov,
    objects0: Seq<Object>,
    objects1: Seq<Object>,
    g0: Game,
    g1: Game,
    id: int,
    range: int,
) -> bool {
    let m = objects0[id];
    let p = objects0[PLAYER as int];
    if !fov.spec_is_in_fov(m.x as int, m.y as int) {
        objects1 == objects0 && g1 == g0
    } else if range < 0 || dist2(m.x as int, m.y as int, p.x as int, p.y as int) >= range * range {
        objects1 == moved_toward(&g0.map, objects0, id, p.x as int, p.y as int) && g1 == g0
    } else {
        &&& objects1 == objects0.update(id, objects1[id]).update(
            PLAYER as int,
            objects1[PLAYER as int],
        )
        &&& ranged_effect(
            objects0[id],
            objects1[id],
            objects0[PLAYER as int],
            objects1[PLAYER as int],
            g0,
            g1,
            range,
        )
    }
}

/// A confused monster's turn with `num_turns` left: while any are left it
/// takes one random step of at most one tile each way; then it only logs
/// that the confusion is over.
pub open spec fn confused_turn(
    objects0: Seq<Object>,
    objects1: Seq<Object>,
    g0: Game,
    g1: Game,
    id: int,
    num_turns: int,
) -> bool {
    if num_turns > 0 {
        &&& exists|dx: int, dy: int|
            -1 <= dx <= 1 && -1 <= dy <= 1 && objects1 == #[trigger] moved_by(
                &g0.map,
                objects0,
                id,
                dx,
                dy,
            )
        &&& g1 == g0
    } else {
        objects1 == objects0 && g0.logged(
            &g1,
            seq![(Message::NoLongerConfused { name: objects0[id].name })],
        )
    }
}

/// The AI an entity holds after its turn: a confused one counts down, and
/// once the count is out gives back exactly the AI it wrapped.
pub open spec fn next_ai(ai: AI) -> AI {
    match ai {
        AI::Confused { previous_ai, num_turns } => if num_turns > 0 {
            AI::Confused { previous_ai: previous_ai, num_turns: (num_turns - 1) as i32 }
        } else {
            *previous_ai
        },
        _ => ai,
    }
}

/// What one turn of a monster driven by `ai` does to the roster and game.
pub open spec fn ai_turn(
    ai: AI,
    fov: Fov,
    objects0: Seq<Object>,
    objects1: Seq<Object>,
    g0: Game,
    g1: Game,
    id: int,
) -> bool {
    match ai {
        AI::Basic => basic_turn(fov, objects0, objects1, g0, g1, id),
        AI::Ranged { range } => ranged_turn(fov, objects0, objects1, g0, g1, id, range as int),
        AI::Confused { previous_ai, num_turns } => confused_turn(
            objects0,
            objects1,
            g0,
            g1,
            id,
            num_turns as int,
        ),
    }
}

/// The roster while entity `id`'s AI is out of it for its turn.
pub open spec fn ai_taken(objects: Seq<Object>, id: int) -> Seq<Object> {
    objects.update(id, Object { ai: None, ..objects[id] })
}

/// What the monster phase may assume of monster `id`'s turn.
pub open spec fn turn_ready(fov: &Fov, game: &Game, objects: Seq<Object>, id: int) -> bool {
    &&& roster_ok(objects)
    &&& map_wf(&game.map)
    &&& game.bounded()
    &&& id != PLAYER
    &&& 0 <= id < objects.len()
}

/// A `Basic` monster takes its turn.
pub fn ai_basic(monster_id: usize, fov: &Fov, game: &mut Game, objects: &mut Vec<Object>) -> (r: AI)
    requires
        turn_ready(fov, old(game), old(objects)@, monster_id as int),
        xp_fits(old(objects)@[monster_id as int], old(objects)@[PLAYER as int]),
    ensures
        r == AI::Basic,
        basic_turn(*fov, old(objects)@, final(objects)@, *old(game), *final(game), monster_id as int),
{
    let (monster_x, monster_y) = objects[monster_id].pos();
    if fov.is_in_fov(monster_x, monster_y) {
        if objects[monster_id].distance_to(&objects[PLAYER]) >= 4 {
            let (player_x, player_y) = objects[PLAYER].pos();
            move_towards(monster_id, player_x, player_y, &game.map, objects);
        } else {
            let (monster, player) = mut_two(monster_id, PLAYER, objects.as_mut_slice());
            monster.attack(player, game);
        }
    }
    AI::Basic
}

/// A `Ranged` monster takes its turn.
pub fn ai_ranged(
    monster_id: usize,
    fov: &Fov,
    game: &mut Game,
    objects: &mut Vec<Object>,
    range: i32,
) -> (r: AI)
    requires
        turn_ready(fov, old(game), old(objects)@, monster_id as int),
        xp_fits(old(objects)@[monster_id as int], old(objects)@[PLAYER as int]),
        -STAT_MAX <= range <= STAT_MAX,
    ensures
        r == (AI::Ranged { range: range }),
        ranged_turn(
            *fov,
            old(objects)@,
            final(objects)@,
            *old(game),
            *final(game),
            monster_id as int,
            range as int,
        ),
{
    let (monster_x, monster_y) = objects[monster_id].pos();
    if fov.is_in_fov(monster_x, monster_y) {
        let r = range as i64;
        assert(0 <= r * r <= STAT_MAX * STAT_MAX) by (nonlinear_arith)
            requires
                -STAT_MAX <= r <= STAT_MAX,
        ;
        if range < 0 || objects[monster_id].distance_to(&objects[PLAYER]) >= r * r {
            let (player_x, player_y) = objects[PLAYER].pos();
            move_towards(monster_id, player_x, player_y, &game.map, objects);
        } else {
            let (monster, player) = mut_two(monster_id, PLAYER, objects.as_mut_slice());
            monster.ranged_attack(player, game, range);
        }
    }
    AI::Ranged { range }
}

/// A confused monster takes its turn.
pub fn ai_confused(
    monster_id: usize,
    game: &mut Game,
    objects: &mut Vec<Object>,
    previous_ai: Box<AI>,
    num_turns: i32,
) -> (r: AI)
    requires
        roster_ok(old(objects)@),
        map_wf(&old(game).map),
        monster_id < old(objects)@.len(),
    ensures
        r == next_ai(AI::Confused { previous_ai: previous_ai, num_turns: num_turns }),
        confused_turn(
            old(objects)@,
            final(objects)@,
            *old(game),
            *final(game),
            monster_id as int,
            num_turns as int,
        ),
{
    if num_turns > 0 {
        let dx = random_range(-1, 2);
        let dy = random_range(-1, 2);
        move_by(monster_id, dx, dy, &game.map, objects);
        AI::Confused { previous_ai: previous_ai, num_turns: num_turns - 1 }
    } else {
        let m = Message::NoLongerConfused { name: objects[monster_id].name.clone() };
        game.messages.add(m);
        assert(game.messages.messages@ =~= old(game).messages.messages@ + seq![m]);
        *previous_ai
    }
}

/// Monster `monster_id` takes its turn as its AI directs, and then holds
/// the AI that follows it. A dead entity, or one without AI, does nothing.
pub fn ai_take_turn(monster_id: usize, fov: &Fov, game: &mut Game, objects: &mut Vec<Object>)
    requires
        turn_ready(fov, old(game), old(objects)@, monster_id as int),
        old(objects)@[monster_id as int].ai matches Some(ai) ==> ai_ok(ai),
        old(objects)@[monster_id as int].ai matches Some(ai) && !(ai matches AI::Confused { .. })
            ==> xp_fits(old(objects)@[monster_id as int], old(objects)@[PLAYER as int]),
    ensures
        !old(objects)@[monster_id as int].alive ==> final(objects)@ == old(objects)@ && *final(game)
            == *old(game),
        old(objects)@[monster_id as int].alive ==> match old(objects)@[monster_id as int].ai {
            None => final(objects)@ == old(objects)@ && *final(game) == *old(game),
            Some(ai) => exists|mid: Seq<Object>|
                {
                    &&& #[trigger] ai_turn(
                        ai,
                        *fov,
                        ai_taken(old(objects)@, monster_id as int),
                        mid,
                        *old(game),
                        *final(game),
                        monster_id as int,
                    )
                    &&& final(objects)@ == mid.update(
                        monster_id as int,
                        Object { ai: Some(next_ai(ai)), ..mid[monster_id as int] },
                    )
                },
        },
{
    let ghost taken = ai_taken(old(objects)@, monster_id as int);
    if !objects[monster_id].alive {
        return;
    }
    if let Some(ai) = objects[monster_id].ai.take() {
        assert(objects@ == taken);
        assert(roster_ok(objects@)) by {
            assert forall|i: int| 0 <= i < objects@.len() implies in_map(
                (#[trigger] objects@[i]).x as int,
                objects@[i].y as int,
            ) && objects@[i].bounded() by {
                assert(old(objects)@[i].x == objects@[i].x);
            }
        }
        let new_ai = match ai {
            AI::Basic => ai_basic(monster_id, fov, game, objects),
            AI::Ranged { range } => ai_ranged(monster_id, fov, game, objects, range),
            AI::Confused { previous_ai, num_turns } => ai_confused(
                monster_id,
                game,
                objects,
                previous_ai,
                num_turns,
            ),
        };
        let ghost mid = objects@;
        objects[monster_id].ai = Some(new_ai);
        assert(ai_turn(ai, *fov, taken, mid, *old(game), *game, monster_id as int));
        assert(objects@ == mid.update(
            monster_id as int,
            Object { ai: Some(next_ai(ai)), ..mid[monster_id as int] },
        ));
    }
}

/// The AI held after `k` turns starting from `ai`.
pub open spec fn ai_after(ai: AI, k: nat) -> AI
    decreases k,
{
    if k == 0 {
        ai
    } else {
        next_ai(ai_after(ai, (k - 1) as nat))
    }
}

/// A monster confused for `n` turns takes a random step on each of its
/// next `n` turns (it is still confused with turns left), spends one more
/// turn coming to, and then holds exactly the AI it had before.
pub proof fn law_confusion_restores(previous: AI, n: i32)
    requires
        n >= 0,
    ensures
        forall|k: nat|
            k <= n ==> #[trigger] ai_after(
                AI::Confused { previous_ai: Box::new(previous), num_turns: n },
                k,
            ) == (AI::Confused { previous_ai: Box::new(previous), num_turns: (n - k) as i32 }),
        ai_after(AI::Confused { previous_ai: Box::new(previous), num_turns: n }, (n + 1) as nat)
            == previous,
{
    let start = AI::Confused { previous_ai: Box::new(previous), num_turns: n };
    assert forall|k: nat| k <= n implies #[trigger] ai_after(start, k) == (AI::Confused {
        previous_ai: Box::new(previous),
        num_turns: (n - k) as i32,
    }) by {
        lemma_confused_countdown(previous, n, k);
    }
    lemma_confused_countdown(previous, n, n as nat);
}

/// Each of the first `k` turns counts the confusion down by one.
proof fn lemma_confused_countdown(previous: AI, n: i32, k: nat)
    requires
        n >= 0,
        k <= n,
    ensures
        ai_after(AI::Confused { previous_ai: Box::new(previous), num_turns: n }, k) == (AI::Confused {
            previous_ai: Box::new(previous),
            num_turns: (n - k) as i32,
        }),
    decreases k,
{
    if k > 0 {
        lemma_confused_countdown(previous, n, (k - 1) as nat);
    }
}

} // verus!
