//! The tile grid, room rectangles, and the carving operations that turn
//! walls into floor.

use vstd::prelude::*;

verus! {

/// Width of the grid, in tiles.
pub const MAP_WIDTH: i32 = 80;

/// Height of the grid, in tiles.
pub const MAP_HEIGHT: i32 = 43;

/// One cell of the grid.
#[derive(Clone, Copy, Debug, PartialEq, Eq, Structural)]
pub struct Tile {
    pub blocked: bool,
    pub block_sight: bool,
    pub explored: bool,
}

impl Tile {
    /// A passable, transparent, unexplored tile.
    pub fn empty() -> (t: Tile)
        ensures
            t == floor_tile(),
    {
        Tile { blocked: false, block_sight: false, explored: false }
    }

    /// An impassable, opaque, unexplored tile.
    pub open spec fn spec_wall() -> Tile {
        Tile { blocked: true, block_sight: true, explored: false }
    }

    /// An impassable, opaque, unexplored tile.
    pub fn wall() -> (t: Tile)
        ensures
            t == Tile::spec_wall(),
    {
        Tile { blocked: true, block_sight: true, explored: false }
    }
}

/// What carving leaves behind.
pub open spec fn floor_tile() -> Tile {
    Tile { blocked: false, block_sight: false, explored: false }
}

/// The grid, indexed `[x][y]`.
pub type Grid = Vec<Vec<Tile>>;

/// The grid has `MAP_WIDTH` columns of `MAP_HEIGHT` tiles each.
pub open spec fn map_wf(map: &Grid) -> bool {
    &&& map@.len() == MAP_WIDTH
    &&& forall|x: int| 0 <= x < MAP_WIDTH ==> (#[trigger] map@[x])@.len() == MAP_HEIGHT
}

/// The tile at `(x, y)`.
pub open spec fn tile_at(map: &Grid, x: int, y: int) -> Tile {
    map@[x]@[y]
}

/// `(x, y)` lies on the grid.
pub open spec fn in_map(x: int, y: int) -> bool {
    0 <= x < MAP_WIDTH && 0 <= y < MAP_HEIGHT
}

/// The tile at `(x, y)` is floor: terrain lets an entity stand there.
pub open spec fn is_floor(map: &Grid, x: int, y: int) -> bool {
    !tile_at(map, x, y).blocked
}

/// Axis-aligned room footprint; the border is wall, the inside is carved.
#[derive(Clone, Copy, Debug, PartialEq, Eq, Structural)]
pub struct Rect {
    pub x1: i32,
    pub y1: i32,
    pub x2: i32,
    pub y2: i32,
}

impl Rect {
    /// The rectangle with corner `(x, y)`, width `w` and height `h`.
    pub fn new(x: i32, y: i32, w: i32, h: i32) -> (r: Rect)
        requires
            i32::MIN <= x + w <= i32::MAX,
            i32::MIN <= y + h <= i32::MAX,
        ensures
            r == (Rect { x1: x, y1: y, x2: (x + w) as i32, y2: (y + h) as i32 }),
    {
        Rect { x1: x, y1: y, x2: x + w, y2: y + h }
    }

    /// The center: each coordinate's midpoint, rounded down.
    pub open spec fn spec_center(&self) -> (int, int) {
        ((self.x1 + self.x2) / 2, (self.y1 + self.y2) / 2)
    }

    /// The center of a rectangle with non-negative corners.
    pub fn center(&self) -> (c: (i32, i32))
        requires
            0 <= self.x1,
            0 <= self.y1,
            0 <= self.x2,
            0 <= self.y2,
        ensures
            c.0 as int == self.spec_center().0,
            c.1 as int == self.spec_center().1,
    {
        let center_x = ((self.x1 as i64 + self.x2 as i64) / 2) as i32;
        let center_y = ((self.y1 as i64 + self.y2 as i64) / 2) as i32;
        (center_x, center_y)
    }

    /// The two rectangles overlap, borders included.
    pub open spec fn spec_intersects(&self, other: &Rect) -> bool {
        self.x1 <= other.x2 && self.x2 >= other.x1 && self.y1 <= other.y2 && self.y2 >= other.y1
    }

    /// Whether the two rectangles overlap, borders included.
    pub fn intersects_with(&self, other: &Rect) -> (b: bool)
        ensures
            b == self.spec_intersects(other),
    {
        (self.x1 <= other.x2) && (self.x2 >= other.x1) && (self.y1 <= other.y2) && (self.y2
            >= other.y1)
    }

    /// `(x, y)` lies strictly inside the rectangle.
    pub open spec fn interior(&self, x: int, y: int) -> bool {
        self.x1 < x < self.x2 && self.y1 < y < self.y2
    }

    /// The rectangle's inside lies on the grid.
    pub open spec fn fits(&self) -> bool {
        0 <= self.x1 < self.x2 < MAP_WIDTH && 0 <= self.y1 < self.y2 < MAP_HEIGHT
    }
}

/// `after` is `before` with the tile at `(x, y)` made floor wherever `carved` holds.
pub open spec fn carved_where(before: &Grid, after: &Grid, carved: spec_fn(int, int) -> bool) -> bool {
    &&& map_wf(after)
    &&& forall|x: int, y: int|
        #![trigger after@[x]@[y]]
        in_map(x, y) ==> after@[x]@[y] == if carved(x, y) {
            floor_tile()
        } else {
            before@[x]@[y]
        }
}

/// Sets one tile to `t`.
fn set_tile(map: &mut Grid, x: i32, y: i32, t: Tile)
    requires
        map_wf(old(map)),
        in_map(x as int, y as int),
    ensures
        map_wf(final(map)),
        forall|i: int, j: int|
            #![trigger final(map)@[i]@[j]]
            in_map(i, j) ==> final(map)@[i]@[j] == if i == x && j == y {
                t
            } else {
                old(map)@[i]@[j]
            },
{
    let xu = x as usize;
    let yu = y as usize;
    map[xu][yu] = t;
}

/// Carves the inside of `room`: every tile strictly inside becomes floor.
pub fn create_room(room: Rect, map: &mut Grid)
    requires
        map_wf(old(map)),
        room.fits(),
    ensures
        carved_where(old(map), final(map), |x: int, y: int| room.interior(x, y)),
{
    let mut x: i32 = room.x1 + 1;
    while x < room.x2
        invariant
            room.fits(),
            room.x1 + 1 <= x <= room.x2,
            carved_where(
                old(map),
                map,
                |i: int, j: int| room.x1 < i < x && room.y1 < j < room.y2,
            ),
        decreases room.x2 - x,
    {
        let mut y: i32 = room.y1 + 1;
        while y < room.y2
            invariant
                room.fits(),
                room.x1 + 1 <= x < room.x2,
                room.y1 + 1 <= y <= room.y2,
                carved_where(
                    old(map),
                    map,
                    |i: int, j: int|
                        (room.x1 < i < x && room.y1 < j < room.y2) || (i == x && room.y1 < j < y),
                ),
            decreases room.y2 - y,
        {
            set_tile(map, x, y, Tile::empty());
            y = y + 1;
        }
        x = x + 1;
    }
}

/// Carves the horizontal run of tiles on row `y` between `x1` and `x2`,
/// both ends included, in either order.
pub fn create_h_tunnel(x1: i32, x2: i32, y: i32, map: &mut Grid)
    requires
        map_wf(old(map)),
        in_map(x1 as int, y as int),
        in_map(x2 as int, y as int),
    ensures
        carved_where(
            old(map),
            final(map),
            |i: int, j: int| j == y && (x1 <= i <= x2 || x2 <= i <= x1),
        ),
{
    let lo = if x1 < x2 { x1 } else { x2 };
    let hi = if x1 < x2 { x2 } else { x1 };
    let mut x: i32 = lo;
    while x <= hi
        invariant
            lo == if x1 < x2 { x1 } else { x2 },
            hi == if x1 < x2 { x2 } else { x1 },
            lo <= x <= hi + 1,
            in_map(lo as int, y as int),
            in_map(hi as int, y as int),
            carved_where(old(map), map, |i: int, j: int| j == y && lo <= i < x),
        decreases hi + 1 - x,
    {
        set_tile(map, x, y, Tile::empty());
        x = x + 1;
    }
}

/// Carves the vertical run of tiles on column `x` between `y1` and `y2`,
/// both ends included, in either order.
pub fn create_v_tunnel(y1: i32, y2: i32, x: i32, map: &mut Grid)
    requires
        map_wf(old(map)),
        in_map(x as int, y1 as int),
        in_map(x as int, y2 as int),
    ensures
        carved_where(
            old(map),
            final(map),
            |i: int, j: int| i == x && (y1 <= j <= y2 || y2 <= j <= y1),
        ),
{
    let lo = if y1 < y2 { y1 } else { y2 };
    let hi = if y1 < y2 { y2 } else { y1 };
    let mut y: i32 = lo;
    while y <= hi
        invariant
            lo == if y1 < y2 { y1 } else { y2 },
            hi == if y1 < y2 { y2 } else { y1 },
            lo <= y <= hi + 1,
            in_map(x as int, lo as int),
            in_map(x as int, hi as int),
            carved_where(old(map), map, |i: int, j: int| i == x && lo <= j < y),
        decreases hi + 1 - y,
    {
        set_tile(map, x, y, Tile::empty());
        y = y + 1;
    }
}

/// The field of view: which tiles are currently visible, indexed `[x][y]`.
/// It is computed elsewhere whenever the player moves and only read here.
pub struct Fov {
    pub visible: Vec<Vec<bool>>,
}

impl Fov {
    /// `(x, y)` is visible; anything off the recorded grid is not.
    pub open spec fn spec_is_in_fov(&self, x: int, y: int) -> bool {
        0 <= x < self.visible@.len() && 0 <= y < self.visible@[x]@.len() && self.visible@[x]@[y]
    }

    /// Whether `(x, y)` is visible.
    pub fn is_in_fov(&self, x: i32, y: i32) -> (b: bool)
        ensures
            b == self.spec_is_in_fov(x as int, y as int),
    {
        if x < 0 || y < 0 {
            return false;
        }
        let xu = x as usize;
        let yu = y as usize;
        if xu >= self.visible.len() {
            return false;
        }
        if yu >= self.visible[xu].len() {
            return false;
        }
        self.visible[xu][yu]
    }
}

/// Marks every visible tile explored; an explored tile stays explored and
/// nothing else of a tile changes.
pub fn mark_explored(map: &mut Grid, fov: &Fov)
    requires
        map_wf(old(map)),
    ensures
        map_wf(final(map)),
        forall|x: int, y: int|
            #![trigger final(map)@[x]@[y]]
            in_map(x, y) ==> final(map)@[x]@[y] == (Tile {
                explored: old(map)@[x]@[y].explored || fov.spec_is_in_fov(x, y),
                ..old(map)@[x]@[y]
            }),
{
    let mut x: i32 = 0;
    while x < MAP_WIDTH
        invariant
            0 <= x <= MAP_WIDTH,
            map_wf(map),
            forall|i: int, j: int|
                #![trigger map@[i]@[j]]
                in_map(i, j) ==> map@[i]@[j] == if i < x {
                    Tile { explored: old(map)@[i]@[j].explored || fov.spec_is_in_fov(i, j), ..old(map)@[i]@[j] }
                } else {
                    old(map)@[i]@[j]
                },
        decreases MAP_WIDTH - x,
    {
        let mut y: i32 = 0;
        while y < MAP_HEIGHT
            invariant
                0 <= x < MAP_WIDTH,
                0 <= y <= MAP_HEIGHT,
                map_wf(map),
                forall|i: int, j: int|
                    #![trigger map@[i]@[j]]
                    in_map(i, j) ==> map@[i]@[j] == if i < x || (i == x && j < y) {
                        Tile { explored: old(map)@[i]@[j].explored || fov.spec_is_in_fov(i, j), ..old(map)@[i]@[j] }
                    } else {
                        old(map)@[i]@[j]
                    },
            decreases MAP_HEIGHT - y,
        {
            if fov.is_in_fov(x, y) {
                let t = map[x as usize][y as usize];
                set_tile(map, x, y, Tile { explored: true, ..t });
            }
            y = y + 1;
        }
        x = x + 1;
    }
}

} // verus!
