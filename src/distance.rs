//! Single-source shortest step counts over the passable cells of a grid.
//!
//! A step moves to one of the four orthogonal neighbours. A computed field
//! is exact up to its search depth: see `lemma_field_exact`.
use vstd::prelude::*;
use crate::geometry::Point;
use crate::map::{
    TileMap, TileType, NUM_TILES, SCREEN_WIDTH, SCREEN_HEIGHT, in_bounds_spec, idx_spec,
    passable_at, tile_is_passable, map_idx, lemma_idx_injective,
};

verus! {

/// Distance of a cell that the search did not reach.
pub const UNREACHABLE: u32 = 4294967295;

/// `(x, y)` can be reached from `(sx, sy)` in at most `k` steps through
/// passable cells.
pub open spec fn reach_within(
    tiles: Seq<TileType>,
    sx: int,
    sy: int,
    x: int,
    y: int,
    k: nat,
) -> bool
    decreases k,
{
    passable_at(tiles, x, y) && ((x == sx && y == sy) || (k > 0 && (reach_within(
        tiles,
        sx,
        sy,
        x - 1,
        y,
        (k - 1) as nat,
    ) || reach_within(tiles, sx, sy, x + 1, y, (k - 1) as nat) || reach_within(
        tiles,
        sx,
        sy,
        x,
        y - 1,
        (k - 1) as nat,
    ) || reach_within(tiles, sx, sy, x, y + 1, (k - 1) as nat))))
}

/// `(x, y)` can be reached from `(sx, sy)` at all.
pub open spec fn reachable(tiles: Seq<TileType>, sx: int, sy: int, x: int, y: int) -> bool {
    exists|k: nat| reach_within(tiles, sx, sy, x, y, k)
}

pub open spec fn labeled(d: Seq<u32>, x: int, y: int) -> bool {
    d[idx_spec(x, y)] != UNREACHABLE
}

/// Some orthogonal neighbour of `(x, y)` has a smaller distance.
pub open spec fn has_closer_neighbor(d: Seq<u32>, x: int, y: int) -> bool {
    let v = d[idx_spec(x, y)];
    (in_bounds_spec(x - 1, y) && d[idx_spec(x - 1, y)] < v) || (in_bounds_spec(x + 1, y)
        && d[idx_spec(x + 1, y)] < v) || (in_bounds_spec(x, y - 1) && d[idx_spec(x, y - 1)] < v)
        || (in_bounds_spec(x, y + 1) && d[idx_spec(x, y + 1)] < v)
}

/// A finite distance at `(x, y)` is justified: the cell is passable, only the
/// source has distance zero, and any other has a closer neighbour.
pub open spec fn cell_sound(tiles: Seq<TileType>, sx: int, sy: int, d: Seq<u32>, x: int, y: int) -> bool {
    labeled(d, x, y) ==> (passable_at(tiles, x, y) && (d[idx_spec(x, y)] == 0 ==> (x == sx && y
        == sy)) && (d[idx_spec(x, y)] > 0 ==> has_closer_neighbor(d, x, y)))
}

/// No neighbour inside the search depth offers `(x, y)` a shorter route.
pub open spec fn cell_closed(d: Seq<u32>, depth: int, x: int, y: int) -> bool {
    let v = d[idx_spec(x, y)] as int;
    &&& (in_bounds_spec(x - 1, y) && d[idx_spec(x - 1, y)] < depth) ==> v <= d[idx_spec(x - 1, y)] + 1
    &&& (in_bounds_spec(x + 1, y) && d[idx_spec(x + 1, y)] < depth) ==> v <= d[idx_spec(x + 1, y)] + 1
    &&& (in_bounds_spec(x, y - 1) && d[idx_spec(x, y - 1)] < depth) ==> v <= d[idx_spec(x, y - 1)] + 1
    &&& (in_bounds_spec(x, y + 1) && d[idx_spec(x, y + 1)] < depth) ==> v <= d[idx_spec(x, y + 1)] + 1
}

pub open spec fn field_sound(tiles: Seq<TileType>, sx: int, sy: int, d: Seq<u32>) -> bool {
    forall|x: int, y: int| in_bounds_spec(x, y) ==> #[trigger] cell_sound(tiles, sx, sy, d, x, y)
}

pub open spec fn field_closed(tiles: Seq<TileType>, d: Seq<u32>, depth: int) -> bool {
    forall|x: int, y: int| passable_at(tiles, x, y) ==> #[trigger] cell_closed(d, depth, x, y)
}

/// `d` holds the step counts from `(sx, sy)` over `tiles`, searched up to
/// `depth` steps.
pub open spec fn valid_field(tiles: Seq<TileType>, sx: int, sy: int, d: Seq<u32>, depth: int) -> bool {
    &&& tiles.len() == NUM_TILES
    &&& d.len() == NUM_TILES
    &&& 0 <= depth < UNREACHABLE
    &&& field_sound(tiles, sx, sy, d)
    &&& field_closed(tiles, d, depth)
    &&& forall|i: int| 0 <= i < NUM_TILES ==> #[trigger] d[i] == UNREACHABLE || d[i] <= depth
    &&& passable_at(tiles, sx, sy) ==> d[idx_spec(sx, sy)] == 0
}

pub open spec fn sum_u32(s: Seq<u32>) -> int
    decreases s.len(),
{
    if s.len() == 0 {
        0
    } else {
        sum_u32(s.drop_last()) + s.last()
    }
}

proof fn lemma_sum_nonneg(s: Seq<u32>)
    ensures
        sum_u32(s) >= 0,
    decreases s.len(),
{
    if s.len() > 0 {
        lemma_sum_nonneg(s.drop_last());
    }
}

proof fn lemma_sum_update(s: Seq<u32>, i: int, v: u32)
    requires
        0 <= i < s.len(),
    ensures
        sum_u32(s.update(i, v)) == sum_u32(s) - s[i] + v,
    decreases s.len(),
{
    let t = s.update(i, v);
    if i == s.len() - 1 {
        assert(t.drop_last() =~= s.drop_last());
    } else {
        assert(t.drop_last() =~= s.drop_last().update(i, v));
        lemma_sum_update(s.drop_last(), i, v);
    }
}

pub proof fn lemma_reach_mono(tiles: Seq<TileType>, sx: int, sy: int, x: int, y: int, k1: nat, k2: nat)
    requires
        k1 <= k2,
        reach_within(tiles, sx, sy, x, y, k1),
    ensures
        reach_within(tiles, sx, sy, x, y, k2),
    decreases k1,
{
    if x == sx && y == sy {
    } else {
        let j1 = (k1 - 1) as nat;
        let j2 = (k2 - 1) as nat;
        if reach_within(tiles, sx, sy, x - 1, y, j1) {
            lemma_reach_mono(tiles, sx, sy, x - 1, y, j1, j2);
        } else if reach_within(tiles, sx, sy, x + 1, y, j1) {
            lemma_reach_mono(tiles, sx, sy, x + 1, y, j1, j2);
        } else if reach_within(tiles, sx, sy, x, y - 1, j1) {
            lemma_reach_mono(tiles, sx, sy, x, y - 1, j1, j2);
        } else {
            lemma_reach_mono(tiles, sx, sy, x, y + 1, j1, j2);
        }
    }
}

/// Every finite distance is the length of some route.
pub proof fn lemma_labeled_reach(tiles: Seq<TileType>, sx: int, sy: int, d: Seq<u32>, x: int, y: int)
    requires
        d.len() == NUM_TILES,
        field_sound(tiles, sx, sy, d),
        in_bounds_spec(x, y),
        labeled(d, x, y),
    ensures
        reach_within(tiles, sx, sy, x, y, d[idx_spec(x, y)] as nat),
    decreases d[idx_spec(x, y)],
{
    assert(cell_sound(tiles, sx, sy, d, x, y));
    let v = d[idx_spec(x, y)];
    if v > 0 {
        let k = (v - 1) as nat;
        if in_bounds_spec(x - 1, y) && d[idx_spec(x - 1, y)] < v {
            lemma_labeled_reach(tiles, sx, sy, d, x - 1, y);
            lemma_reach_mono(tiles, sx, sy, x - 1, y, d[idx_spec(x - 1, y)] as nat, k);
        } else if in_bounds_spec(x + 1, y) && d[idx_spec(x + 1, y)] < v {
            lemma_labeled_reach(tiles, sx, sy, d, x + 1, y);
            lemma_reach_mono(tiles, sx, sy, x + 1, y, d[idx_spec(x + 1, y)] as nat, k);
        } else if in_bounds_spec(x, y - 1) && d[idx_spec(x, y - 1)] < v {
            lemma_labeled_reach(tiles, sx, sy, d, x, y - 1);
            lemma_reach_mono(tiles, sx, sy, x, y - 1, d[idx_spec(x, y - 1)] as nat, k);
        } else {
            lemma_labeled_reach(tiles, sx, sy, d, x, y + 1);
            lemma_reach_mono(tiles, sx, sy, x, y + 1, d[idx_spec(x, y + 1)] as nat, k);
        }
    }
}

/// Every route of at most `depth` steps is found, and no longer than it is.
pub proof fn lemma_reach_labeled(
    tiles: Seq<TileType>,
    sx: int,
    sy: int,
    d: Seq<u32>,
    depth: int,
    x: int,
    y: int,
    k: nat,
)
    requires
        valid_field(tiles, sx, sy, d, depth),
        k <= depth,
        reach_within(tiles, sx, sy, x, y, k),
    ensures
        labeled(d, x, y),
        d[idx_spec(x, y)] <= k,
    decreases k,
{
    assert(passable_at(tiles, x, y));
    if x == sx && y == sy {
        assert(d[idx_spec(sx, sy)] == 0);
    } else {
        let j = (k - 1) as nat;
        assert(cell_closed(d, depth, x, y));
        let (nx, ny) = if reach_within(tiles, sx, sy, x - 1, y, j) {
            (x - 1, y)
        } else if reach_within(tiles, sx, sy, x + 1, y, j) {
            (x + 1, y)
        } else if reach_within(tiles, sx, sy, x, y - 1, j) {
            (x, y - 1)
        } else {
            (x, y + 1)
        };
        lemma_reach_labeled(tiles, sx, sy, d, depth, nx, ny, j);
        assert(in_bounds_spec(nx, ny));
    }
}

/// Within the search depth a field is exact: a cell can be reached in `k`
/// steps exactly when its distance is finite and at most `k`.
pub proof fn lemma_field_exact(
    tiles: Seq<TileType>,
    sx: int,
    sy: int,
    d: Seq<u32>,
    depth: int,
    x: int,
    y: int,
    k: nat,
)
    requires
        valid_field(tiles, sx, sy, d, depth),
        in_bounds_spec(x, y),
        k <= depth,
    ensures
        reach_within(tiles, sx, sy, x, y, k) <==> (labeled(d, x, y) && d[idx_spec(x, y)] <= k),
{
    if reach_within(tiles, sx, sy, x, y, k) {
        lemma_reach_labeled(tiles, sx, sy, d, depth, x, y, k);
    }
    if labeled(d, x, y) && d[idx_spec(x, y)] <= k {
        lemma_labeled_reach(tiles, sx, sy, d, x, y);
        lemma_reach_mono(tiles, sx, sy, x, y, d[idx_spec(x, y)] as nat, k);
    }
}

/// Step counts from one source cell, `UNREACHABLE` where the search did not
/// arrive.
pub struct DistanceField {
    pub map: Vec<u32>,
}

impl DistanceField {
    /// Searches from `start` through passable cells, up to `max_depth` steps.
    pub fn new(map: &TileMap, start: Point, max_depth: u32) -> (r: DistanceField)
        requires
            map.wf(),
            max_depth < UNREACHABLE,
        ensures
            valid_field(map.tiles@, start.x as int, start.y as int, r.map@, max_depth as int),
    {
        let tiles = &map.tiles;
        let ghost sx = start.x as int;
        let ghost sy = start.y as int;
        let mut d: Vec<u32> = Vec::new();
        let mut i: usize = 0;
        while i < NUM_TILES
            invariant
                i <= NUM_TILES,
                d@.len() == i,
                forall|j: int| 0 <= j < i ==> d@[j] == UNREACHABLE,
            decreases NUM_TILES - i,
        {
            d.push(UNREACHABLE);
            i = i + 1;
        }
        if map.can_enter_tile(start) {
            let s = map_idx(start.x, start.y);
            d.set(s, 0);
            assert forall|x: int, y: int| in_bounds_spec(x, y) implies #[trigger] cell_sound(
                tiles@,
                sx,
                sy,
                d@,
                x,
                y,
            ) by {
                if idx_spec(x, y) == s as int {
                    lemma_idx_injective(x, y, sx, sy);
                }
            }
        }
        let ghost depth = max_depth as int;
        let mut changed = true;
        while changed
            invariant
                map.wf(),
                tiles == &map.tiles,
                max_depth < UNREACHABLE,
                depth == max_depth as int,
                d@.len() == NUM_TILES,
                forall|j: int| 0 <= j < NUM_TILES ==> #[trigger] d@[j] == UNREACHABLE || d@[j] <= max_depth,
                field_sound(tiles@, sx, sy, d@),
                passable_at(tiles@, sx, sy) ==> d@[idx_spec(sx, sy)] == 0,
                !changed ==> field_closed(tiles@, d@, depth),
            decreases sum_u32(d@) + (if changed { 1int } else { 0int }),
        {
            proof {
                lemma_sum_nonneg(d@);
            }
            let ghost d0 = d@;
            changed = false;
            let mut y: i32 = 0;
            while y < SCREEN_HEIGHT
                invariant
                    0 <= y <= SCREEN_HEIGHT,
                    map.wf(),
                    tiles == &map.tiles,
                    max_depth < UNREACHABLE,
                    depth == max_depth as int,
                    d@.len() == NUM_TILES,
                    forall|j: int| 0 <= j < NUM_TILES ==> #[trigger] d@[j] == UNREACHABLE || d@[j] <= max_depth,
                    field_sound(tiles@, sx, sy, d@),
                    passable_at(tiles@, sx, sy) ==> d@[idx_spec(sx, sy)] == 0,
                    changed ==> sum_u32(d@) < sum_u32(d0),
                    !changed ==> d@ == d0,
                    !changed ==> forall|cx: int, cy: int|
                        passable_at(tiles@, cx, cy) && cy < y ==> #[trigger] cell_closed(
                            d@,
                            depth,
                            cx,
                            cy,
                        ),
                decreases SCREEN_HEIGHT - y,
            {
                let mut x: i32 = 0;
                while x < SCREEN_WIDTH
                    invariant
                        0 <= y < SCREEN_HEIGHT,
                        0 <= x <= SCREEN_WIDTH,
                        map.wf(),
                        tiles == &map.tiles,
                        max_depth < UNREACHABLE,
                        depth == max_depth as int,
                        d@.len() == NUM_TILES,
                        forall|j: int| 0 <= j < NUM_TILES ==> #[trigger] d@[j] == UNREACHABLE || d@[j] <= max_depth,
                        field_sound(tiles@, sx, sy, d@),
                        passable_at(tiles@, sx, sy) ==> d@[idx_spec(sx, sy)] == 0,
                        changed ==> sum_u32(d@) < sum_u32(d0),
                        !changed ==> d@ == d0,
                        !changed ==> forall|cx: int, cy: int|
                            passable_at(tiles@, cx, cy) && (cy < y || (cy == y && cx < x))
                                ==> #[trigger] cell_closed(d@, depth, cx, cy),
                    decreases SCREEN_WIDTH - x,
                {
                    let i = map_idx(x, y);
                    if tile_is_passable(tiles[i]) {
                        let cur = d[i];
                        let mut best = cur;
                        if x > 0 {
                            let v = d[i - 1];
                            if v < max_depth && v + 1 < best {
                                best = v + 1;
                            }
                        }
                        if x < SCREEN_WIDTH - 1 {
                            let v = d[i + 1];
                            if v < max_depth && v + 1 < best {
                                best = v + 1;
                            }
                        }
                        if y > 0 {
                            let v = d[i - 100];
                            if v < max_depth && v + 1 < best {
                                best = v + 1;
                            }
                        }
                        if y < SCREEN_HEIGHT - 1 {
                            let v = d[i + 100];
                            if v < max_depth && v + 1 < best {
                                best = v + 1;
                            }
                        }
                        assert(cell_closed(d@.update(i as int, best), depth, x as int, y as int));
                        if best < cur {
                            let ghost dp = d@;
                            d.set(i, best);
                            proof {
                                lemma_sum_update(dp, i as int, best);
                                assert(has_closer_neighbor(d@, x as int, y as int));
                                assert forall|cx: int, cy: int| in_bounds_spec(cx, cy) implies #[trigger] cell_sound(
                                    tiles@,
                                    sx,
                                    sy,
                                    d@,
                                    cx,
                                    cy,
                                ) by {
                                    assert(cell_sound(tiles@, sx, sy, dp, cx, cy));
                                    if idx_spec(cx, cy) == i as int {
                                        lemma_idx_injective(cx, cy, x as int, y as int);
                                    }
                                }
                                if passable_at(tiles@, sx, sy) && idx_spec(sx, sy) == i as int {
                                    lemma_idx_injective(sx, sy, x as int, y as int);
                                }
                            }
                            changed = true;
                        }
                    }
                    x = x + 1;
                }
                y = y + 1;
            }
            proof {
                lemma_sum_nonneg(d@);
            }
        }
        DistanceField { map: d }
    }
}

} // verus!
