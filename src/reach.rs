//! Reachability on the grid: walks of orthogonal steps over floor tiles.

use crate::map::{carved_where, in_map, is_floor, Grid, Rect};
use vstd::prelude::*;

verus! {

/// One orthogonal step apart.
pub open spec fn adjacent(a: (int, int), b: (int, int)) -> bool {
    ||| a.0 == b.0 && (a.1 - b.1 == 1 || b.1 - a.1 == 1)
    ||| a.1 == b.1 && (a.0 - b.0 == 1 || b.0 - a.0 == 1)
}

/// A floor tile on the grid.
pub open spec fn open_tile(map: &Grid, p: (int, int)) -> bool {
    in_map(p.0, p.1) && is_floor(map, p.0, p.1)
}

/// A walk over floor tiles, one orthogonal step at a time.
pub open spec fn is_path(map: &Grid, path: Seq<(int, int)>) -> bool {
    &&& path.len() > 0
    &&& forall|i: int| 0 <= i < path.len() ==> open_tile(map, #[trigger] path[i])
    &&& forall|i: int| 0 <= i < path.len() - 1 ==> adjacent(#[trigger] path[i], path[i + 1])
}

/// Some walk over floor tiles leads from `a` to `b`.
pub open spec fn reachable(map: &Grid, a: (int, int), b: (int, int)) -> bool {
    exists|path: Seq<(int, int)>| #[trigger] is_path(map, path) && path[0] == a && path.last() == b
}

/// Every floor tile can be reached from `s`.
pub open spec fn all_reachable(map: &Grid, s: (int, int)) -> bool {
    forall|x: int, y: int| #[trigger] open_tile(map, (x, y)) ==> reachable(map, s, (x, y))
}

/// A floor tile reaches itself.
pub proof fn lemma_reach_here(map: &Grid, a: (int, int))
    requires
        open_tile(map, a),
    ensures
        reachable(map, a, a),
{
    let path = seq![a];
    assert(is_path(map, path));
}

/// A walk extends by one step onto a floor tile.
pub proof fn lemma_reach_step(map: &Grid, a: (int, int), b: (int, int), c: (int, int))
    requires
        reachable(map, a, b),
        open_tile(map, c),
        adjacent(b, c),
    ensures
        reachable(map, a, c),
{
    let path = choose|path: Seq<(int, int)>| #[trigger] is_path(map, path) && path[0] == a && path.last() == b;
    let longer = path.push(c);
    assert forall|i: int| 0 <= i < longer.len() implies open_tile(map, #[trigger] longer[i]) by {
        if i < path.len() {
            assert(longer[i] == path[i]);
        }
    }
    assert forall|i: int| 0 <= i < longer.len() - 1 implies adjacent(#[trigger] longer[i], longer[i + 1]) by {
        if i < path.len() - 1 {
            assert(longer[i] == path[i] && longer[i + 1] == path[i + 1]);
        } else {
            assert(longer[i] == b);
        }
    }
    assert(is_path(map, longer));
}

/// Walks survive on a grid where every floor tile stays floor.
pub proof fn lemma_reach_mono(m1: &Grid, m2: &Grid, a: (int, int), b: (int, int))
    requires
        reachable(m1, a, b),
        forall|x: int, y: int| #[trigger] open_tile(m1, (x, y)) ==> open_tile(m2, (x, y)),
    ensures
        reachable(m2, a, b),
{
    let path = choose|path: Seq<(int, int)>| #[trigger] is_path(m1, path) && path[0] == a && path.last() == b;
    assert forall|i: int| 0 <= i < path.len() implies open_tile(m2, #[trigger] path[i]) by {
        assert(open_tile(m1, (path[i].0, path[i].1)));
    }
    assert(is_path(m2, path));
}

/// From a reached tile on row `y`, the walk runs along the row to `xb`
/// where the run between is floor.
pub proof fn lemma_reach_row(map: &Grid, a: (int, int), y: int, xa: int, xb: int)
    requires
        reachable(map, a, (xa, y)),
        forall|x: int| (xa <= x <= xb || xb <= x <= xa) ==> #[trigger] open_tile(map, (x, y)),
    ensures
        reachable(map, a, (xb, y)),
    decreases if xa <= xb { xb - xa } else { xa - xb },
{
    if xa != xb {
        let next = if xa < xb { xa + 1 } else { xa - 1 };
        assert(open_tile(map, (next, y)));
        lemma_reach_step(map, a, (xa, y), (next, y));
        lemma_reach_row(map, a, y, next, xb);
    }
}

/// From a reached tile on column `x`, the walk runs along the column to
/// `yb` where the run between is floor.
pub proof fn lemma_reach_col(map: &Grid, a: (int, int), x: int, ya: int, yb: int)
    requires
        reachable(map, a, (x, ya)),
        forall|y: int| (ya <= y <= yb || yb <= y <= ya) ==> #[trigger] open_tile(map, (x, y)),
    ensures
        reachable(map, a, (x, yb)),
    decreases if ya <= yb { yb - ya } else { ya - yb },
{
    if ya != yb {
        let next = if ya < yb { ya + 1 } else { ya - 1 };
        assert(open_tile(map, (x, next)));
        lemma_reach_step(map, a, (x, ya), (x, next));
        lemma_reach_col(map, a, x, next, yb);
    }
}

/// Where a room's inside is floor and its center is reached, all of its
/// inside is.
pub proof fn lemma_reach_room(map: &Grid, a: (int, int), r: Rect)
    requires
        r.fits(),
        r.x2 - r.x1 >= 2,
        r.y2 - r.y1 >= 2,
        forall|x: int, y: int| r.interior(x, y) ==> #[trigger] open_tile(map, (x, y)),
        reachable(map, a, r.spec_center()),
    ensures
        forall|x: int, y: int| r.interior(x, y) ==> #[trigger] reachable(map, a, (x, y)),
{
    let (cx, cy) = r.spec_center();
    assert forall|x: int, y: int| r.interior(x, y) implies #[trigger] reachable(map, a, (x, y)) by {
        assert forall|t: int| (cx <= t <= x || x <= t <= cx) implies #[trigger] open_tile(map, (t, cy)) by {
            assert(r.interior(t, cy));
        }
        lemma_reach_row(map, a, cy, cx, x);
        assert forall|t: int| (cy <= t <= y || y <= t <= cy) implies #[trigger] open_tile(map, (x, t)) by {
            assert(r.interior(x, t));
        }
        lemma_reach_col(map, a, x, cy, y);
    }
}

/// `m2` keeps every floor tile of `m1` floor.
pub open spec fn grows(m1: &Grid, m2: &Grid) -> bool {
    forall|x: int, y: int| #[trigger] open_tile(m1, (x, y)) ==> open_tile(m2, (x, y))
}

/// Carving only adds floor.
pub proof fn lemma_carving_grows(m1: &Grid, m2: &Grid, carved: spec_fn(int, int) -> bool)
    requires
        carved_where(m1, m2, carved),
    ensures
        grows(m1, m2),
        forall|x: int, y: int| in_map(x, y) && carved(x, y) ==> #[trigger] open_tile(m2, (x, y)),
        forall|x: int, y: int| #[trigger] open_tile(m2, (x, y)) ==> carved(x, y) || open_tile(m1, (x, y)),
{
    assert forall|x: int, y: int| #[trigger] open_tile(m1, (x, y)) implies open_tile(m2, (x, y)) by {
        assert(m2@[x]@[y] == if carved(x, y) { crate::map::floor_tile() } else { m1@[x]@[y] });
    }
    assert forall|x: int, y: int| in_map(x, y) && carved(x, y) implies #[trigger] open_tile(m2, (x, y)) by {
        assert(m2@[x]@[y] == crate::map::floor_tile());
    }
    assert forall|x: int, y: int| #[trigger] open_tile(m2, (x, y)) implies carved(x, y) || open_tile(m1, (x, y)) by {
        assert(m2@[x]@[y] == if carved(x, y) { crate::map::floor_tile() } else { m1@[x]@[y] });
    }
}

/// The first room: where the grid had no floor before it was carved, all
/// of the floor is reached from its center.
pub proof fn lemma_first_room(m0: &Grid, m1: &Grid, r: Rect)
    requires
        forall|x: int, y: int| !#[trigger] open_tile(m0, (x, y)),
        carved_where(m0, m1, |x: int, y: int| r.interior(x, y)),
        r.fits(),
        r.x2 - r.x1 >= 2,
        r.y2 - r.y1 >= 2,
    ensures
        all_reachable(m1, r.spec_center()),
        open_tile(m1, r.spec_center()),
{
    lemma_carving_grows(m0, m1, |x: int, y: int| r.interior(x, y));
    let c = r.spec_center();
    assert(r.interior(c.0, c.1));
    assert(open_tile(m1, (c.0, c.1)));
    lemma_reach_here(m1, c);
    assert forall|x: int, y: int| r.interior(x, y) implies #[trigger] open_tile(m1, (x, y)) by {}
    lemma_reach_room(m1, c, r);
    assert forall|x: int, y: int| #[trigger] open_tile(m1, (x, y)) implies reachable(m1, c, (x, y)) by {
        assert(r.interior(x, y) || open_tile(m0, (x, y)));
    }
}

/// `v` lies between `a` and `b`, both included.
pub open spec fn between(v: int, a: int, b: int) -> bool {
    a <= v <= b || b <= v <= a
}

/// `(x, y)` lies on the L-shaped tunnel from `p` to `c`: along the row of
/// `p` then the column of `c` (`h_first`), or along the column of `p` then
/// the row of `c`.
pub open spec fn tunnel_tile(p: (int, int), c: (int, int), h_first: bool, x: int, y: int) -> bool {
    if h_first {
        (y == p.1 && between(x, p.0, c.0)) || (x == c.0 && between(y, p.1, c.1))
    } else {
        (x == p.0 && between(y, p.1, c.1)) || (y == c.1 && between(x, p.0, c.0))
    }
}

/// A room carved together with an L-shaped tunnel from the previous room's
/// center `prev`: all the floor stays reached from `s`, the new room's
/// center included.
pub proof fn lemma_join_room(m0: &Grid, m1: &Grid, s: (int, int), prev: (int, int), r: Rect, h_first: bool)
    requires
        all_reachable(m0, s),
        open_tile(m0, prev),
        r.fits(),
        r.x2 - r.x1 >= 2,
        r.y2 - r.y1 >= 2,
        carved_where(
            m0,
            m1,
            |x: int, y: int| r.interior(x, y) || tunnel_tile(prev, r.spec_center(), h_first, x, y),
        ),
    ensures
        all_reachable(m1, s),
        open_tile(m1, r.spec_center()),
{
    let (nx, ny) = r.spec_center();
    let (px, py) = prev;
    let carved = |x: int, y: int| r.interior(x, y) || tunnel_tile(prev, r.spec_center(), h_first, x, y);
    assert(r.interior(nx, ny));
    lemma_carving_grows(m0, m1, carved);
    lemma_reach_mono(m0, m1, s, prev);
    if h_first {
        assert forall|t: int| (px <= t <= nx || nx <= t <= px) implies #[trigger] open_tile(m1, (t, py)) by {
            assert(in_map(t, py) && carved(t, py));
        }
        lemma_reach_row(m1, s, py, px, nx);
        assert forall|t: int| (py <= t <= ny || ny <= t <= py) implies #[trigger] open_tile(m1, (nx, t)) by {
            assert(in_map(nx, t) && carved(nx, t));
        }
        lemma_reach_col(m1, s, nx, py, ny);
    } else {
        assert forall|t: int| (py <= t <= ny || ny <= t <= py) implies #[trigger] open_tile(m1, (px, t)) by {
            assert(in_map(px, t) && carved(px, t));
        }
        lemma_reach_col(m1, s, px, py, ny);
        assert forall|t: int| (px <= t <= nx || nx <= t <= px) implies #[trigger] open_tile(m1, (t, ny)) by {
            assert(in_map(t, ny) && carved(t, ny));
        }
        lemma_reach_row(m1, s, ny, px, nx);
    }
    assert forall|x: int, y: int| r.interior(x, y) implies #[trigger] open_tile(m1, (x, y)) by {
        assert(in_map(x, y) && carved(x, y));
    }
    lemma_reach_room(m1, s, r);
    assert forall|x: int, y: int| #[trigger] open_tile(m1, (x, y)) implies reachable(m1, s, (x, y)) by {
        if r.interior(x, y) {
        } else if tunnel_tile(prev, r.spec_center(), h_first, x, y) {
            if h_first {
                if y == py && between(x, px, nx) {
                    lemma_reach_row(m1, s, py, px, x);
                } else {
                    lemma_reach_col(m1, s, nx, py, y);
                }
            } else {
                if x == px && between(y, py, ny) {
                    lemma_reach_col(m1, s, px, py, y);
                } else {
                    lemma_reach_row(m1, s, ny, px, x);
                }
            }
        } else {
            assert(open_tile(m0, (x, y)));
            lemma_reach_mono(m0, m1, s, (x, y));
        }
    }
}

} // verus!
