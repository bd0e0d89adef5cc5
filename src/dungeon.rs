//! Level generation: rooms, the tunnels that join them, and the stairs.

use crate::ai::{ai_ok, roster_ok};
use crate::map::{
    create_h_tunnel, create_room, create_v_tunnel, in_map, map_wf, Grid, Rect, Tile, MAP_HEIGHT,
    MAP_WIDTH,
};
use crate::object::{Color, Object, PLAYER};
use crate::reach::{
    all_reachable, grows, lemma_carving_grows, lemma_first_room, lemma_join_room, lemma_reach_mono,
    open_tile, reachable, tunnel_tile,
};
use crate::rng::{random_bool, random_range};
use crate::ai::blocked_at;
use crate::map::carved_where;
use crate::spawn::{
    is_fresh_item, is_fresh_monster, is_spawn, item_kind_at, item_name, item_weights, monster_kind_at,
    monster_weights, place_objects, spawned_only,
};
use vstd::prelude::*;
use vstd::string::StringExecFns;

verus! {

/// Largest room side.
pub const ROOM_MAX_SIZE: i32 = 10;

/// Smallest room side.
pub const ROOM_MIN_SIZE: i32 = 6;

/// Room placements attempted per level.
pub const MAX_ROOMS: i32 = 30;

/// The tiles of the fixed rooms and the corridor between them, carved
/// after the random rooms whatever they came to.
pub open spec fn in_fixed_rooms(x: int, y: int) -> bool {
    ||| (Rect { x1: 20, y1: 15, x2: 30, y2: 30 }).interior(x, y)
    ||| (Rect { x1: 50, y1: 15, x2: 60, y2: 30 }).interior(x, y)
    ||| y == 23 && 25 <= x <= 55
}

/// Every entity's AI, if any, is in range.
pub open spec fn ais_ok(objects: Seq<Object>) -> bool {
    forall|i: int|
        0 <= i < objects.len() && (#[trigger] objects[i]).ai.is_some() ==> ai_ok(
            objects[i].ai.unwrap(),
        )
}

/// A room drawn by the generator: sides between the bounds, inside the grid.
pub open spec fn room_ok(r: Rect) -> bool {
    &&& r.fits()
    &&& ROOM_MIN_SIZE <= r.x2 - r.x1 <= ROOM_MAX_SIZE
    &&& ROOM_MIN_SIZE <= r.y2 - r.y1 <= ROOM_MAX_SIZE
}

/// Whether `room` overlaps any of `rooms`.
fn intersects_any(room: &Rect, rooms: &Vec<Rect>) -> (b: bool)
    ensures
        b == exists|i: int| 0 <= i < rooms@.len() && room.spec_intersects(&#[trigger] rooms@[i]),
{
    let mut i: usize = 0;
    while i < rooms.len()
        invariant
            i <= rooms@.len(),
            forall|j: int| 0 <= j < i ==> !room.spec_intersects(&#[trigger] rooms@[j]),
        decreases rooms@.len() - i,
    {
        if room.intersects_with(&rooms[i]) {
            return true;
        }
        i = i + 1;
    }
    false
}

/// `o` stands on the grid with bounded stats and AI.
pub open spec fn spawn_ok(o: Object) -> bool {
    &&& in_map(o.x as int, o.y as int)
    &&& o.bounded()
    &&& o.ai.is_some() ==> ai_ok(o.ai.unwrap())
}

/// What population adds stands on the grid with bounded stats and AI.
proof fn lemma_spawn_ok(o: Object, room: Rect, level: u32)
    requires
        is_spawn(o, room, level),
        room.fits(),
    ensures
        spawn_ok(o),
{
    if exists|i: int|
        0 <= i < 4 && monster_weights(level)[i] > 0 && #[trigger] is_fresh_monster(
            o,
            monster_kind_at(i),
            o.x as int,
            o.y as int,
        ) {
        let i = choose|i: int|
            0 <= i < 4 && monster_weights(level)[i] > 0 && #[trigger] is_fresh_monster(
                o,
                monster_kind_at(i),
                o.x as int,
                o.y as int,
            );
        assert(is_fresh_monster(o, monster_kind_at(i), o.x as int, o.y as int));
    }
}

/// A grid of walls only.
fn all_walls() -> (map: Grid)
    ensures
        map_wf(&map),
        forall|x: int, y: int| in_map(x, y) ==> #[trigger] map@[x]@[y] == Tile::spec_wall(),
{
    let mut map: Grid = Vec::new();
    let mut x: i32 = 0;
    while x < MAP_WIDTH
        invariant
            0 <= x <= MAP_WIDTH,
            map@.len() == x,
            forall|i: int| 0 <= i < x ==> (#[trigger] map@[i])@.len() == MAP_HEIGHT,
            forall|i: int, j: int| 0 <= i < x && 0 <= j < MAP_HEIGHT ==> #[trigger] map@[i]@[j] == Tile::spec_wall(),
        decreases MAP_WIDTH - x,
    {
        let mut column: Vec<Tile> = Vec::new();
        let mut y: i32 = 0;
        while y < MAP_HEIGHT
            invariant
                0 <= y <= MAP_HEIGHT,
                column@.len() == y,
                forall|j: int| 0 <= j < y ==> #[trigger] column@[j] == Tile::spec_wall(),
            decreases MAP_HEIGHT - y,
        {
            column.push(Tile::wall());
            y = y + 1;
        }
        map.push(column);
        x = x + 1;
    }
    map
}

/// Every tile is unexplored and blocks sight exactly when it blocks
/// movement.
pub open spec fn plain_tiles(map: &Grid) -> bool {
    forall|x: int, y: int|
        #![trigger map@[x]@[y]]
        in_map(x, y) ==> !map@[x]@[y].explored && map@[x]@[y].blocked == map@[x]@[y].block_sight
}

/// `(x, y)` lies on the grid's edge.
pub open spec fn on_border(x: int, y: int) -> bool {
    x == 0 || y == 0 || x == MAP_WIDTH - 1 || y == MAP_HEIGHT - 1
}

/// The grid's edge is wall.
pub open spec fn walled(map: &Grid) -> bool {
    forall|x: int, y: int| #![trigger map@[x]@[y]] in_map(x, y) && on_border(x, y) ==> map@[x]@[y].blocked
}

/// Every room was drawn within bounds, and none overlaps an earlier one.
pub open spec fn rooms_ok(rooms: Seq<Rect>) -> bool {
    &&& forall|i: int| 0 <= i < rooms.len() ==> room_ok(#[trigger] rooms[i])
    &&& forall|i: int, j: int|
        #![trigger rooms[j], rooms[i]]
        0 <= i < j < rooms.len() ==> !rooms[j].spec_intersects(&rooms[i])
}

/// Carving off the edge keeps the grid's tiles plain and its edge wall.
proof fn lemma_carving_keeps_plain(m0: &Grid, m1: &Grid, carved: spec_fn(int, int) -> bool)
    requires
        carved_where(m0, m1, carved),
        plain_tiles(m0),
        walled(m0),
        forall|x: int, y: int| in_map(x, y) && #[trigger] carved(x, y) ==> !on_border(x, y),
    ensures
        plain_tiles(m1),
        walled(m1),
{
    assert forall|x: int, y: int| in_map(x, y) implies !m1@[x]@[y].explored && m1@[x]@[y].blocked
        == m1@[x]@[y].block_sight by {
        assert(m0@[x]@[y] == m0@[x]@[y]);
    }
    assert forall|x: int, y: int| in_map(x, y) && on_border(x, y) implies m1@[x]@[y].blocked by {
        assert(m0@[x]@[y] == m0@[x]@[y]);
    }
}

/// Tries a drawn room: it is accepted exactly when it overlaps no earlier
/// room. An accepted room's inside is carved, joined to the previous
/// room's center, if any, by an L-shaped tunnel that runs along a row then
/// a column (`h_first`) or a column then a row; it is then recorded.
pub fn add_room(room: Rect, h_first: bool, map: &mut Grid, rooms: &mut Vec<Rect>) -> (accepted: bool)
    requires
        map_wf(old(map)),
        room_ok(room),
        rooms_ok(old(rooms)@),
    ensures
        accepted == !exists|i: int|
            0 <= i < old(rooms)@.len() && room.spec_intersects(&#[trigger] old(rooms)@[i]),
        !accepted ==> *final(map) == *old(map) && final(rooms)@ == old(rooms)@,
        accepted ==> final(rooms)@ == old(rooms)@.push(room),
        accepted && old(rooms)@.len() == 0 ==> carved_where(
            old(map),
            final(map),
            |x: int, y: int| room.interior(x, y),
        ),
        accepted && old(rooms)@.len() > 0 ==> carved_where(
            old(map),
            final(map),
            |x: int, y: int|
                room.interior(x, y) || tunnel_tile(
                    old(rooms)@.last().spec_center(),
                    room.spec_center(),
                    h_first,
                    x,
                    y,
                ),
        ),
        map_wf(final(map)),
        rooms_ok(final(rooms)@),
        plain_tiles(old(map)) && walled(old(map)) ==> plain_tiles(final(map)) && walled(final(map)),
{
    if intersects_any(&room, rooms) {
        return false;
    }
    let ghost m0 = *map;
    create_room(room, map);
    if rooms.len() > 0 {
        let ghost m1 = *map;
        let prev = rooms[rooms.len() - 1];
        assert(room_ok(prev));
        let (px, py) = prev.center();
        let (nx, ny) = room.center();
        if h_first {
            create_h_tunnel(px, nx, py, map);
            create_v_tunnel(py, ny, nx, map);
        } else {
            create_v_tunnel(py, ny, px, map);
            create_h_tunnel(px, nx, ny, map);
        }
        let ghost carved = |x: int, y: int|
            room.interior(x, y) || tunnel_tile(prev.spec_center(), room.spec_center(), h_first, x, y);
        assert(carved_where(&m0, map, carved));
        proof {
            lemma_carving_keeps_plain_if(&m0, map, carved);
        }
    } else {
        proof {
            lemma_carving_keeps_plain_if(&m0, map, |x: int, y: int| room.interior(x, y));
        }
    }
    rooms.push(room);
    assert(rooms@.drop_last() == old(rooms)@);
    true
}

/// Where the grid was plain and walled, carving off the edge keeps it so.
proof fn lemma_carving_keeps_plain_if(m0: &Grid, m1: &Grid, carved: spec_fn(int, int) -> bool)
    requires
        carved_where(m0, m1, carved),
        forall|x: int, y: int| in_map(x, y) && #[trigger] carved(x, y) ==> !on_border(x, y),
    ensures
        plain_tiles(m0) && walled(m0) ==> plain_tiles(m1) && walled(m1),
{
    if plain_tiles(m0) && walled(m0) {
        lemma_carving_keeps_plain(m0, m1, carved);
    }
}

/// `o` is a spawn for one of `rooms`.
pub open spec fn spawn_in(o: Object, rooms: Seq<Rect>, level: u32) -> bool {
    exists|r: int| 0 <= r < rooms.len() && #[trigger] is_spawn(o, rooms[r], level)
}

/// No two blocking entities stand on the same tile.
pub open spec fn blockers_apart(objects: Seq<Object>) -> bool {
    forall|i: int, j: int|
        0 <= i < j < objects.len() && (#[trigger] objects[i]).blocks && (#[trigger] objects[j]).blocks
            ==> objects[i].x != objects[j].x || objects[i].y != objects[j].y
}

/// `o` is the stairs, standing at `c`.
pub open spec fn is_stairs(o: Object, c: (int, int)) -> bool {
    &&& o.x == c.0 && o.y == c.1
    &&& o.name@ == "stairs"@
    &&& o.glyph == '<'
    &&& o.color == Color::White
    &&& !o.blocks && !o.alive
    &&& o.fighter.is_none() && o.ai.is_none() && o.item.is_none() && o.equipment.is_none()
    &&& o.always_visible
    &&& o.level == 1
}

/// A level as `make_map` builds it from `player` for dungeon level
/// `level`, with the accepted `rooms` in the order they were drawn.
pub open spec fn level_layout(map: &Grid, objects: Seq<Object>, player: Object, level: u32, rooms: Seq<Rect>) -> bool {
    let spawn = rooms[0].spec_center();
    &&& rooms.len() >= 1
    &&& rooms_ok(rooms)
    &&& map_wf(map)
    &&& plain_tiles(map)
    &&& walled(map)
    &&& forall|x: int, y: int| in_fixed_rooms(x, y) ==> #[trigger] open_tile(map, (x, y))
    &&& forall|i: int, x: int, y: int|
        #![trigger rooms[i].interior(x, y)]
        0 <= i < rooms.len() && rooms[i].interior(x, y) ==> open_tile(map, (x, y))
    &&& objects.len() >= 2
    &&& objects[0].x == spawn.0 && objects[0].y == spawn.1
    &&& objects[0] == (Object { x: objects[0].x, y: objects[0].y, ..player })
    &&& forall|i: int|
        1 <= i < objects.len() - 1 ==> spawn_in(#[trigger] objects[i], rooms, level) && objects[i].name@
            != "stairs"@
    &&& is_stairs(objects.last(), rooms.last().spec_center())
    &&& blockers_apart(objects)
    &&& open_tile(map, spawn)
    &&& reachable(map, spawn, rooms.last().spec_center())
    &&& forall|x: int, y: int|
        #[trigger] open_tile(map, (x, y)) && !in_fixed_rooms(x, y) ==> reachable(map, spawn, (x, y))
    &&& roster_ok(objects)
    &&& ais_ok(objects)
}

/// No spawn is named like the stairs.
proof fn lemma_spawn_not_stairs(o: Object, room: Rect, level: u32)
    requires
        is_spawn(o, room, level),
    ensures
        o.name@ != "stairs"@,
{
    reveal_strlit("stairs");
    reveal_strlit("Broo");
    reveal_strlit("Troll");
    reveal_strlit("Broo Shaman");
    reveal_strlit("Scorpion Man");
    reveal_strlit("healing potion");
    reveal_strlit("scroll of lightning bolt");
    reveal_strlit("scroll of confusion");
    reveal_strlit("scroll of fireball");
    reveal_strlit("short sword");
    reveal_strlit("broadsword");
    reveal_strlit("fine sword");
    reveal_strlit("enchanted sword");
    reveal_strlit("wooden shield");
    reveal_strlit("round shield");
    reveal_strlit("kite shield");
    reveal_strlit("enchanted shield");
    reveal_strlit("leather helmet");
    reveal_strlit("pot helm");
    reveal_strlit("full helm");
    reveal_strlit("enchanted helm");
    reveal_strlit("short bow");
    reveal_strlit("longbow");
    reveal_strlit("crossbow");
    reveal_strlit("magic bow");
    if exists|i: int|
        0 <= i < 4 && monster_weights(level)[i] > 0 && #[trigger] is_fresh_monster(
            o,
            monster_kind_at(i),
            o.x as int,
            o.y as int,
        ) {
        let i = choose|i: int|
            0 <= i < 4 && monster_weights(level)[i] > 0 && #[trigger] is_fresh_monster(
                o,
                monster_kind_at(i),
                o.x as int,
                o.y as int,
            );
        assert(o.name@.len() != 6);
    } else {
        let i = choose|i: int|
            0 <= i < 8 && item_weights(level)[i] > 0 && #[trigger] is_fresh_item(
                o,
                item_kind_at(i),
                level,
                o.x as int,
                o.y as int,
            );
        assert(o.name@ == item_name(item_kind_at(i), level));
        assert(o.name@.len() != 6);
    }
}

/// Builds a level: up to `MAX_ROOMS` drawn rooms (see `add_room`), then two
/// fixed rooms joined by a corridor. The roster keeps only the player, who
/// stands at the first room's center; each accepted room is populated for
/// dungeon level `level` (see `place_objects`), and the stairs stand at the
/// last room's center.
pub fn make_map(objects: &mut Vec<Object>, level: u32) -> (map: Grid)
    requires
        old(objects)@.len() > PLAYER,
        old(objects)@[PLAYER as int].bounded(),
        old(objects)@[PLAYER as int].ai.is_none(),
    ensures
        exists|rooms: Seq<Rect>|
            #[trigger] level_layout(&map, final(objects)@, old(objects)@[PLAYER as int], level, rooms),
{
    let mut map = all_walls();
    objects.truncate(1);
    let ghost player0 = old(objects)@[PLAYER as int];
    let mut rooms: Vec<Rect> = Vec::new();
    let mut attempt: i32 = 0;
    while attempt < MAX_ROOMS
        invariant
            map_wf(&map),
            plain_tiles(&map),
            walled(&map),
            0 <= attempt <= MAX_ROOMS,
            attempt > 0 ==> rooms@.len() > 0,
            rooms_ok(rooms@),
            forall|i: int, x: int, y: int|
                #![trigger rooms@[i].interior(x, y)]
                0 <= i < rooms@.len() && rooms@[i].interior(x, y) ==> open_tile(&map, (x, y)),
            objects@.len() >= 1,
            player0.bounded(),
            player0.ai.is_none(),
            objects@[PLAYER as int] == (Object {
                x: objects@[PLAYER as int].x,
                y: objects@[PLAYER as int].y,
                ..player0
            }),
            rooms@.len() == 0 ==> objects@.len() == 1 && forall|x: int, y: int|
                !#[trigger] open_tile(&map, (x, y)),
            rooms@.len() > 0 ==> objects@[PLAYER as int].x == rooms@[0].spec_center().0
                && objects@[PLAYER as int].y == rooms@[0].spec_center().1,
            forall|i: int|
                1 <= i < objects@.len() ==> spawn_in(#[trigger] objects@[i], rooms@, level)
                    && spawn_ok(objects@[i]),
            blockers_apart(objects@),
            rooms@.len() > 0 ==> all_reachable(&map, rooms@[0].spec_center()),
            rooms@.len() > 0 ==> open_tile(&map, rooms@.last().spec_center()),
        decreases MAX_ROOMS - attempt,
    {
        let w = random_range(ROOM_MIN_SIZE, ROOM_MAX_SIZE + 1);
        let h = random_range(ROOM_MIN_SIZE, ROOM_MAX_SIZE + 1);
        let x = random_range(0, MAP_WIDTH - w);
        let y = random_range(0, MAP_HEIGHT - h);
        let new_room = Rect::new(x, y, w, h);
        let h_first = random_bool();
        let ghost m0 = map;
        let ghost r0 = rooms@;
        if add_room(new_room, h_first, &mut map, &mut rooms) {
            proof {
                if r0.len() == 0 {
                    lemma_first_room(&m0, &map, new_room);
                    lemma_carving_grows(&m0, &map, |x: int, y: int| new_room.interior(x, y));
                } else {
                    let prev = r0.last().spec_center();
                    lemma_join_room(&m0, &map, r0[0].spec_center(), prev, new_room, h_first);
                    lemma_carving_grows(
                        &m0,
                        &map,
                        |x: int, y: int| new_room.interior(x, y) || tunnel_tile(prev, new_room.spec_center(), h_first, x, y),
                    );
                    assert(rooms@[0] == r0[0]);
                }
                assert forall|i: int, x: int, y: int|
                    0 <= i < rooms@.len() && #[trigger] rooms@[i].interior(x, y) implies open_tile(&map, (x, y)) by {
                    if i < r0.len() {
                        assert(rooms@[i] == r0[i]);
                        assert(open_tile(&m0, (x, y)));
                    }
                }
            }
            if rooms.len() == 1 {
                let (cx, cy) = new_room.center();
                objects[PLAYER].set_pos(cx, cy);
            }
            let ghost o1 = objects@;
            proof {
                assert forall|i: int| 1 <= i < o1.len() implies spawn_in(#[trigger] o1[i], rooms@, level) by {
                    let r = choose|r: int| 0 <= r < r0.len() && #[trigger] is_spawn(o1[i], r0[r], level);
                    assert(rooms@[r] == r0[r]);
                }
            }
            place_objects(new_room, &map, objects, level);
            proof {
                assert(spawned_only(&map, o1, objects@, new_room, level));
                let last = rooms@.len() - 1;
                assert(rooms@[last] == new_room);
                assert forall|i: int| 1 <= i < objects@.len() implies spawn_in(#[trigger] objects@[i], rooms@, level)
                    && spawn_ok(objects@[i]) by {
                    if i < o1.len() {
                        assert(objects@[i] == objects@.take(o1.len() as int)[i]);
                    } else {
                        assert(is_spawn(objects@[i], rooms@[last], level));
                        lemma_spawn_ok(objects@[i], new_room, level);
                    }
                }
                assert(objects@[0] == objects@.take(o1.len() as int)[0]);
                assert forall|i: int, j: int|
                    0 <= i < j < objects@.len() && (#[trigger] objects@[i]).blocks && (#[trigger] objects@[j]).blocks
                    implies objects@[i].x != objects@[j].x || objects@[i].y != objects@[j].y by {
                    if j < o1.len() {
                        assert(objects@[i] == objects@.take(o1.len() as int)[i]);
                        assert(objects@[j] == objects@.take(o1.len() as int)[j]);
                    } else {
                        assert(!blocked_at(&map, objects@.take(j), objects@[j].x as int, objects@[j].y as int));
                        assert(objects@.take(j)[i] == objects@[i]);
                    }
                }
            }
        }
        attempt = attempt + 1;
    }
    let ghost mr = map;
    let room1 = Rect::new(20, 15, 10, 15);
    let room2 = Rect::new(50, 15, 10, 15);
    create_room(room1, &mut map);
    let ghost ma = map;
    create_room(room2, &mut map);
    let ghost mb = map;
    create_h_tunnel(25, 55, 23, &mut map);
    let (last_x, last_y) = rooms[rooms.len() - 1].center();
    let mut stairs = Object::new(last_x, last_y, '<', Color::White, String::from_str("stairs"), false);
    stairs.always_visible = true;
    let ghost before = objects@;
    objects.push(stairs);
    proof {
        let spawn = rooms@[0].spec_center();
        let c1 = |x: int, y: int| room1.interior(x, y);
        let c2 = |x: int, y: int| room2.interior(x, y);
        let c3 = |i: int, j: int| j == 23 && (25 <= i <= 55 || 55 <= i <= 25);
        lemma_carving_grows(&mr, &ma, c1);
        lemma_carving_grows(&ma, &mb, c2);
        lemma_carving_grows(&mb, &map, c3);
        lemma_carving_keeps_plain(&mr, &ma, c1);
        lemma_carving_keeps_plain(&ma, &mb, c2);
        lemma_carving_keeps_plain(&mb, &map, c3);
        assert(grows(&mr, &map));
        assert forall|x: int, y: int| in_fixed_rooms(x, y) implies #[trigger] open_tile(&map, (x, y)) by {
            if c1(x, y) {
                assert(open_tile(&ma, (x, y)));
            } else if c2(x, y) {
                assert(open_tile(&mb, (x, y)));
            }
        }
        assert forall|i: int, x: int, y: int|
            0 <= i < rooms@.len() && #[trigger] rooms@[i].interior(x, y) implies open_tile(&map, (x, y)) by {
            assert(open_tile(&mr, (x, y)));
        }
        assert forall|x: int, y: int|
            #[trigger] open_tile(&map, (x, y)) && !in_fixed_rooms(x, y) implies reachable(&map, spawn, (x, y)) by {
            assert(open_tile(&mb, (x, y)));
            assert(open_tile(&ma, (x, y)));
            assert(open_tile(&mr, (x, y)));
            lemma_reach_mono(&mr, &map, spawn, (x, y));
        }
        let c = rooms@.last().spec_center();
        assert(open_tile(&mr, (c.0, c.1)));
        lemma_reach_mono(&mr, &map, spawn, c);
        assert(room_ok(rooms@[rooms@.len() - 1]));
        assert(open_tile(&mr, (spawn.0, spawn.1)));
        assert forall|i: int| 1 <= i < objects@.len() - 1 implies spawn_in(#[trigger] objects@[i], rooms@, level)
            && objects@[i].name@ != "stairs"@ by {
            assert(objects@[i] == before[i]);
            let r = choose|r: int| 0 <= r < rooms@.len() && #[trigger] is_spawn(before[i], rooms@[r], level);
            lemma_spawn_not_stairs(before[i], rooms@[r], level);
        }
        assert forall|i: int, j: int|
            0 <= i < j < objects@.len() && (#[trigger] objects@[i]).blocks && (#[trigger] objects@[j]).blocks
            implies objects@[i].x != objects@[j].x || objects@[i].y != objects@[j].y by {
            assert(objects@[i] == before[i]);
            assert(objects@[j] == before[j]);
        }
        assert forall|i: int| 0 <= i < objects@.len() implies in_map(
            (#[trigger] objects@[i]).x as int,
            objects@[i].y as int,
        ) && objects@[i].bounded() by {
            if 1 <= i < before.len() {
                assert(spawn_ok(before[i]));
            }
        }
        assert forall|i: int|
            0 <= i < objects@.len() && (#[trigger] objects@[i]).ai.is_some() implies ai_ok(
            objects@[i].ai.unwrap(),
        ) by {
            if 1 <= i < before.len() {
                assert(spawn_ok(before[i]));
            }
        }
        assert(level_layout(&map, objects@, player0, level, rooms@));
    }
    map
}

} // verus!
