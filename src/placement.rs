//! Placement by distance from the player's start: walling off what cannot be
//! reached, the objective at the far end, and monster spawns kept away.
use vstd::prelude::*;
use bracket_lib::random::RandomNumberGenerator;
use crate::geometry::{Point, contains_point};
use crate::map::{
    map_idx, TileType, NUM_TILES, in_bounds_spec, idx_spec, passable_at, tile_of, lemma_idx_bounds,
    lemma_idx_injective,
};
use crate::distance::{
    DistanceField, UNREACHABLE, reach_within, labeled, valid_field, cell_sound, cell_closed,
    lemma_field_exact, lemma_labeled_reach, lemma_reach_mono,
};
use crate::map_builder::MapBuilder;
use crate::rng::rng_slice_index;

verus! {

/// How many steps the placement searches go.
pub const SEARCH_DEPTH: u32 = 1024;

/// A spawn must lie more than this many steps from the start.
pub const MIN_SPAWN_DISTANCE: u32 = 10;

/// How many monsters a level asks for.
pub const NUM_MONSTERS: usize = 50;

/// `p` is a cell on which a monster may appear: passable, within the search
/// depth of the start, and more than `MIN_SPAWN_DISTANCE` steps away from it.
pub open spec fn spawn_ok(tiles: Seq<TileType>, start: Point, p: Point) -> bool {
    &&& reach_within(tiles, start.x as int, start.y as int, p.x as int, p.y as int, SEARCH_DEPTH as nat)
    &&& !reach_within(tiles, start.x as int, start.y as int, p.x as int, p.y as int, MIN_SPAWN_DISTANCE as nat)
}

/// Every passable cell can be reached from `start` within the search depth.
pub open spec fn all_connected(tiles: Seq<TileType>, start: Point) -> bool {
    forall|x: int, y: int|
        #![trigger passable_at(tiles, x, y)]
        passable_at(tiles, x, y) ==> reach_within(tiles, start.x as int, start.y as int, x, y, SEARCH_DEPTH as nat)
}

/// `far` is passable and no cell is farther from `start`: any step budget
/// that reaches `far` reaches every passable cell.
pub open spec fn most_distant(tiles: Seq<TileType>, start: Point, far: Point) -> bool {
    &&& passable_at(tiles, far.x as int, far.y as int)
    &&& reach_within(tiles, start.x as int, start.y as int, far.x as int, far.y as int, SEARCH_DEPTH as nat)
    &&& forall|x: int, y: int, k: nat|
        #![trigger reach_within(tiles, start.x as int, start.y as int, x, y, k)]
        reach_within(tiles, start.x as int, start.y as int, x, y, SEARCH_DEPTH as nat)
            && reach_within(tiles, start.x as int, start.y as int, far.x as int, far.y as int, k)
            ==> reach_within(tiles, start.x as int, start.y as int, x, y, k)
}

/// Walling off the cells a field did not reach keeps the field valid, and the
/// passable cells are then exactly the reached ones.
pub proof fn lemma_prune_keeps_field(
    tiles: Seq<TileType>,
    pruned: Seq<TileType>,
    sx: int,
    sy: int,
    d: Seq<u32>,
    depth: int,
)
    requires
        valid_field(tiles, sx, sy, d, depth),
        pruned.len() == NUM_TILES,
        forall|i: int|
            0 <= i < NUM_TILES ==> #[trigger] pruned[i] == (if d[i] == UNREACHABLE {
                TileType::Wall
            } else {
                tiles[i]
            }),
    ensures
        valid_field(pruned, sx, sy, d, depth),
        forall|x: int, y: int|
            #![trigger passable_at(pruned, x, y)]
            in_bounds_spec(x, y) ==> (passable_at(pruned, x, y) <==> labeled(d, x, y)),
{
    assert forall|x: int, y: int| in_bounds_spec(x, y) implies (passable_at(pruned, x, y) <==> labeled(d, x, y)) by {
        lemma_idx_bounds(x, y);
        assert(cell_sound(tiles, sx, sy, d, x, y));
    }
    assert forall|x: int, y: int| in_bounds_spec(x, y) implies #[trigger] cell_sound(pruned, sx, sy, d, x, y) by {
        lemma_idx_bounds(x, y);
        assert(cell_sound(tiles, sx, sy, d, x, y));
    }
    assert forall|x: int, y: int| passable_at(pruned, x, y) implies #[trigger] cell_closed(d, depth, x, y) by {
        lemma_idx_bounds(x, y);
        assert(cell_sound(tiles, sx, sy, d, x, y));
        assert(passable_at(tiles, x, y));
    }
    if passable_at(pruned, sx, sy) {
        lemma_idx_bounds(sx, sy);
    }
}

impl MapBuilder {
    /// Turns into walls every cell that cannot be reached from `start` within
    /// `SEARCH_DEPTH` steps; afterwards every passable cell can be.
    pub fn prune_unreachable(&mut self, start: Point) -> (field: DistanceField)
        requires
            old(self).wf(),
            passable_at(old(self).map.tiles@, start.x as int, start.y as int),
        ensures
            final(self).wf(),
            final(self).same_but_tiles(old(self)),
            passable_at(final(self).map.tiles@, start.x as int, start.y as int),
            all_connected(final(self).map.tiles@, start),
            forall|x: int, y: int|
                #![trigger tile_of(final(self).map.tiles@, x, y)]
                in_bounds_spec(x, y) ==> tile_of(final(self).map.tiles@, x, y) == (if reach_within(
                    old(self).map.tiles@,
                    start.x as int,
                    start.y as int,
                    x,
                    y,
                    SEARCH_DEPTH as nat,
                ) {
                    tile_of(old(self).map.tiles@, x, y)
                } else {
                    TileType::Wall
                }),
            valid_field(final(self).map.tiles@, start.x as int, start.y as int, field.map@, SEARCH_DEPTH as int),
    {
        let field = DistanceField::new(&self.map, start, SEARCH_DEPTH);
        let ghost t0 = self.map.tiles@;
        let mut i: usize = 0;
        while i < NUM_TILES
            invariant
                self.wf(),
                self.same_but_tiles(old(self)),
                t0 == old(self).map.tiles@,
                t0.len() == NUM_TILES,
                field.map@.len() == NUM_TILES,
                i <= NUM_TILES,
                forall|j: int|
                    0 <= j < NUM_TILES ==> #[trigger] self.map.tiles@[j] == (if j < i && field.map@[j]
                        == UNREACHABLE {
                        TileType::Wall
                    } else {
                        t0[j]
                    }),
            decreases NUM_TILES - i,
        {
            if field.map[i] == UNREACHABLE {
                self.map.tiles.set(i, TileType::Wall);
            }
            i = i + 1;
        }
        proof {
            let sx = start.x as int;
            let sy = start.y as int;
            let d = field.map@;
            let t = self.map.tiles@;
            lemma_prune_keeps_field(t0, t, sx, sy, d, SEARCH_DEPTH as int);
            assert forall|x: int, y: int| in_bounds_spec(x, y) implies #[trigger] tile_of(t, x, y) == (
            if reach_within(t0, sx, sy, x, y, SEARCH_DEPTH as nat) {
                tile_of(t0, x, y)
            } else {
                TileType::Wall
            }) by {
                lemma_idx_bounds(x, y);
                lemma_field_exact(t0, sx, sy, d, SEARCH_DEPTH as int, x, y, SEARCH_DEPTH as nat);
                assert(cell_sound(t0, sx, sy, d, x, y));
            }
            assert forall|x: int, y: int| #[trigger] passable_at(t, x, y) implies reach_within(
                t,
                sx,
                sy,
                x,
                y,
                SEARCH_DEPTH as nat,
            ) by {
                lemma_field_exact(t, sx, sy, d, SEARCH_DEPTH as int, x, y, SEARCH_DEPTH as nat);
                assert(cell_sound(t, sx, sy, d, x, y));
            }
            assert(passable_at(t, sx, sy)) by {
                lemma_idx_bounds(sx, sy);
            }
        }
        field
    }

    /// The cell farthest from `start`, the first in row-major order among
    /// equally far ones.
    pub fn find_most_distant(&self, start: Point) -> (r: Point)
        requires
            self.wf(),
            passable_at(self.map.tiles@, start.x as int, start.y as int),
        ensures
            most_distant(self.map.tiles@, start, r),
            forall|x: int, y: int|
                #![trigger reach_within(self.map.tiles@, start.x as int, start.y as int, x, y, SEARCH_DEPTH as nat)]
                in_bounds_spec(x, y) && idx_spec(x, y) < idx_spec(r.x as int, r.y as int)
                    && reach_within(self.map.tiles@, start.x as int, start.y as int, x, y, SEARCH_DEPTH as nat)
                    ==> exists|k: nat|
                    reach_within(self.map.tiles@, start.x as int, start.y as int, x, y, k)
                        && !reach_within(self.map.tiles@, start.x as int, start.y as int, r.x as int, r.y as int, k),
    {
        let field = DistanceField::new(&self.map, start, SEARCH_DEPTH);
        let ghost tiles = self.map.tiles@;
        let ghost sx = start.x as int;
        let ghost sy = start.y as int;
        let ghost d = field.map@;
        let s = crate::map::map_idx(start.x, start.y);
        let mut best: usize = 0;
        let mut found = false;
        let mut i: usize = 0;
        while i < NUM_TILES
            invariant
                d == field.map@,
                d.len() == NUM_TILES,
                i <= NUM_TILES,
                found ==> best < i,
                found ==> d[best as int] != UNREACHABLE,
                !found ==> forall|j: int| 0 <= j < i ==> d[j] == UNREACHABLE,
                found ==> forall|j: int| 0 <= j < i && d[j] != UNREACHABLE ==> d[j] <= d[best as int],
                found ==> forall|j: int| 0 <= j < best && d[j] != UNREACHABLE ==> d[j] < d[best as int],
            decreases NUM_TILES - i,
        {
            if field.map[i] != UNREACHABLE && (!found || field.map[i] > field.map[best]) {
                best = i;
                found = true;
            }
            i = i + 1;
        }
        assert(d[s as int] == 0);
        let r = self.map.index_to_point2d(best);
        proof {
            let rx = r.x as int;
            let ry = r.y as int;
            let depth = SEARCH_DEPTH as int;
            assert(cell_sound(tiles, sx, sy, d, rx, ry));
            lemma_labeled_reach(tiles, sx, sy, d, rx, ry);
            lemma_field_exact(tiles, sx, sy, d, depth, rx, ry, SEARCH_DEPTH as nat);
            assert forall|x: int, y: int, k: nat|
                reach_within(tiles, sx, sy, x, y, SEARCH_DEPTH as nat) && reach_within(tiles, sx, sy, rx, ry, k)
                    implies #[trigger] reach_within(tiles, sx, sy, x, y, k) by {
                assert(in_bounds_spec(x, y));
                lemma_idx_bounds(x, y);
                lemma_field_exact(tiles, sx, sy, d, depth, x, y, SEARCH_DEPTH as nat);
                lemma_labeled_reach(tiles, sx, sy, d, x, y);
                if k <= SEARCH_DEPTH {
                    lemma_field_exact(tiles, sx, sy, d, depth, rx, ry, k);
                    lemma_reach_mono(tiles, sx, sy, x, y, d[idx_spec(x, y)] as nat, k);
                } else {
                    lemma_reach_mono(tiles, sx, sy, x, y, d[idx_spec(x, y)] as nat, k);
                }
            }
            assert forall|x: int, y: int|
                in_bounds_spec(x, y) && idx_spec(x, y) < idx_spec(rx, ry)
                    && #[trigger] reach_within(tiles, sx, sy, x, y, SEARCH_DEPTH as nat)
                    implies exists|k: nat|
                    reach_within(tiles, sx, sy, x, y, k) && !reach_within(tiles, sx, sy, rx, ry, k) by {
                lemma_idx_bounds(x, y);
                lemma_field_exact(tiles, sx, sy, d, depth, x, y, SEARCH_DEPTH as nat);
                let k = d[idx_spec(x, y)] as nat;
                lemma_labeled_reach(tiles, sx, sy, d, x, y);
                lemma_field_exact(tiles, sx, sy, d, depth, rx, ry, k);
            }
        }
        r
    }
}


/// `p` is a cell on the grid whose distance in `d` is finite and above
/// `MIN_SPAWN_DISTANCE`.
pub open spec fn far_in(d: Seq<u32>, p: Point) -> bool {
    &&& in_bounds_spec(p.x as int, p.y as int)
    &&& labeled(d, p.x as int, p.y as int)
    &&& d[idx_spec(p.x as int, p.y as int)] > MIN_SPAWN_DISTANCE
}

proof fn lemma_far_is_spawn_ok(tiles: Seq<TileType>, start: Point, d: Seq<u32>, p: Point)
    requires
        valid_field(tiles, start.x as int, start.y as int, d, SEARCH_DEPTH as int),
        in_bounds_spec(p.x as int, p.y as int),
    ensures
        far_in(d, p) <==> spawn_ok(tiles, start, p),
{
    let (sx, sy, x, y) = (start.x as int, start.y as int, p.x as int, p.y as int);
    lemma_idx_bounds(x, y);
    lemma_field_exact(tiles, sx, sy, d, SEARCH_DEPTH as int, x, y, SEARCH_DEPTH as nat);
    lemma_field_exact(tiles, sx, sy, d, SEARCH_DEPTH as int, x, y, MIN_SPAWN_DISTANCE as nat);
}

impl MapBuilder {
    /// Up to `NUM_MONSTERS` distinct spawn cells, each drawn at random among
    /// the cells that `spawn_ok` admits and not yet drawn. Where fewer exist,
    /// all of them are taken.
    pub fn spawn_monsters(&self, start: &Point, rng: &mut RandomNumberGenerator) -> (r: Vec<Point>)
        requires
            self.wf(),
        ensures
            r@.len() <= NUM_MONSTERS,
            forall|i: int| 0 <= i < r@.len() ==> spawn_ok(self.map.tiles@, *start, #[trigger] r@[i]),
            forall|i: int, j: int| 0 <= i < j < r@.len() ==> r@[i] != r@[j],
            r@.len() < NUM_MONSTERS ==> forall|p: Point|
                #[trigger] spawn_ok(self.map.tiles@, *start, p) ==> r@.contains(p),
    {
        let field = DistanceField::new(&self.map, *start, SEARCH_DEPTH);
        let ghost d = field.map@;
        let ghost tiles = self.map.tiles@;
        let mut spawnable_tiles: Vec<Point> = Vec::new();
        let mut i: usize = 0;
        while i < NUM_TILES
            invariant
                d == field.map@,
                d.len() == NUM_TILES,
                i <= NUM_TILES,
                spawnable_tiles@.len() <= i,
                forall|a: int| 0 <= a < spawnable_tiles@.len() ==> far_in(d, #[trigger] spawnable_tiles@[a]),
                forall|a: int| 0 <= a < spawnable_tiles@.len() ==> idx_spec(
                    (#[trigger] spawnable_tiles@[a]).x as int,
                    spawnable_tiles@[a].y as int,
                ) < i,
                forall|a: int, b: int|
                    0 <= a < b < spawnable_tiles@.len() ==> idx_spec(
                        (#[trigger] spawnable_tiles@[a]).x as int,
                        spawnable_tiles@[a].y as int,
                    ) < idx_spec((#[trigger] spawnable_tiles@[b]).x as int, spawnable_tiles@[b].y as int),
                forall|p: Point|
                    #[trigger] far_in(d, p) && idx_spec(p.x as int, p.y as int) < i ==> spawnable_tiles@.contains(p),
            decreases NUM_TILES - i,
        {
            let v = field.map[i];
            let ghost before = spawnable_tiles@;
            if v != UNREACHABLE && v > MIN_SPAWN_DISTANCE {
                let q = self.map.index_to_point2d(i);
                spawnable_tiles.push(q);
                proof {
                    assert(spawnable_tiles@[before.len() as int] == q);
                    assert forall|p: Point| #[trigger] far_in(d, p) && idx_spec(p.x as int, p.y as int) < i + 1
                        implies spawnable_tiles@.contains(p) by {
                        if idx_spec(p.x as int, p.y as int) == i {
                            lemma_idx_injective(p.x as int, p.y as int, q.x as int, q.y as int);
                            assert(spawnable_tiles@[before.len() as int] == p);
                        } else {
                            let a = choose|a: int| 0 <= a < before.len() && before[a] == p;
                            assert(spawnable_tiles@[a] == p);
                        }
                    }
                }
            }
            i = i + 1;
        }
        let mut spawns: Vec<Point> = Vec::new();
        while spawns.len() < NUM_MONSTERS && spawnable_tiles.len() > 0
            invariant
                d == field.map@,
                d.len() == NUM_TILES,
                spawns@.len() <= NUM_MONSTERS,
                spawnable_tiles@.len() <= NUM_TILES,
                forall|a: int| 0 <= a < spawnable_tiles@.len() ==> far_in(d, #[trigger] spawnable_tiles@[a]),
                forall|a: int| 0 <= a < spawns@.len() ==> far_in(d, #[trigger] spawns@[a]),
                forall|a: int, b: int| 0 <= a < b < spawnable_tiles@.len() ==> spawnable_tiles@[a] != spawnable_tiles@[b],
                forall|a: int, b: int| 0 <= a < b < spawns@.len() ==> spawns@[a] != spawns@[b],
                forall|a: int, b: int| 0 <= a < spawns@.len() && 0 <= b < spawnable_tiles@.len() ==> spawns@[a] != spawnable_tiles@[b],
                forall|p: Point| #[trigger] far_in(d, p) ==> spawns@.contains(p) || spawnable_tiles@.contains(p),
            decreases spawnable_tiles@.len(),
        {
            let target_index = rng_slice_index(rng, &spawnable_tiles).unwrap();
            let ghost before = spawnable_tiles@;
            let ghost sp = spawns@;
            let p = spawnable_tiles[target_index];
            spawns.push(p);
            spawnable_tiles.remove(target_index);
            proof {
                let t = target_index as int;
                assert forall|a: int| 0 <= a < spawnable_tiles@.len() implies far_in(d, #[trigger] spawnable_tiles@[a]) by {
                    if a < t { assert(spawnable_tiles@[a] == before[a]); } else { assert(spawnable_tiles@[a] == before[a + 1]); }
                }
                assert forall|a: int, b: int| 0 <= a < b < spawnable_tiles@.len() implies spawnable_tiles@[a] != spawnable_tiles@[b] by {
                    let a2 = if a < t { a } else { a + 1 };
                    let b2 = if b < t { b } else { b + 1 };
                    assert(spawnable_tiles@[a] == before[a2]);
                    assert(spawnable_tiles@[b] == before[b2]);
                }
                assert forall|a: int| 0 <= a < spawns@.len() implies far_in(d, #[trigger] spawns@[a]) by {
                    if a < sp.len() { assert(spawns@[a] == sp[a]); }
                }
                assert forall|a: int, b: int| 0 <= a < b < spawns@.len() implies spawns@[a] != spawns@[b] by {
                    assert(spawns@[a] == sp[a]);
                    if b < sp.len() { assert(spawns@[b] == sp[b]); }
                }
                assert forall|a: int, b: int| 0 <= a < spawns@.len() && 0 <= b < spawnable_tiles@.len() implies spawns@[a] != spawnable_tiles@[b] by {
                    let b2 = if b < t { b } else { b + 1 };
                    assert(spawnable_tiles@[b] == before[b2]);
                    if a < sp.len() { assert(spawns@[a] == sp[a]); }
                }
                assert forall|q: Point| #[trigger] far_in(d, q) implies spawns@.contains(q) || spawnable_tiles@.contains(q) by {
                    if sp.contains(q) {
                        let a = choose|a: int| 0 <= a < sp.len() && sp[a] == q;
                        assert(spawns@[a] == q);
                    } else {
                        let b = choose|b: int| 0 <= b < before.len() && before[b] == q;
                        if b == t {
                            assert(spawns@[sp.len() as int] == q);
                        } else if b < t {
                            assert(spawnable_tiles@[b] == q);
                        } else {
                            assert(spawnable_tiles@[b - 1] == q);
                        }
                    }
                }
            }
        }
        proof {
            assert forall|a: int| 0 <= a < spawns@.len() implies spawn_ok(tiles, *start, #[trigger] spawns@[a]) by {
                lemma_far_is_spawn_ok(tiles, *start, d, spawns@[a]);
            }
            if spawns@.len() < NUM_MONSTERS {
                assert forall|p: Point| #[trigger] spawn_ok(tiles, *start, p) implies spawns@.contains(p) by {
                    lemma_far_is_spawn_ok(tiles, *start, d, p);
                }
            }
        }
        spawns
    }

    /// The candidates that `spawn_ok` admits, in their order, each once and
    /// at most `NUM_MONSTERS` of them.
    pub fn filter_spawns(&self, start: &Point, candidates: &Vec<Point>) -> (r: Vec<Point>)
        requires
            self.wf(),
        ensures
            r@.len() <= candidates@.len(),
            r@.len() <= NUM_MONSTERS,
            forall|i: int| 0 <= i < r@.len() ==> spawn_ok(self.map.tiles@, *start, #[trigger] r@[i]),
            forall|i: int| 0 <= i < r@.len() ==> candidates@.contains(#[trigger] r@[i]),
            forall|a: int, b: int| 0 <= a < b < r@.len() ==> r@[a] != r@[b],
            r@.len() < NUM_MONSTERS ==> forall|j: int|
                0 <= j < candidates@.len() && spawn_ok(self.map.tiles@, *start, #[trigger] candidates@[j])
                    ==> r@.contains(candidates@[j]),
    {
        let field = DistanceField::new(&self.map, *start, SEARCH_DEPTH);
        let ghost d = field.map@;
        let mut out: Vec<Point> = Vec::new();
        let mut j: usize = 0;
        while j < candidates.len() && out.len() < NUM_MONSTERS
            invariant
                self.wf(),
                d == field.map@,
                j <= candidates@.len(),
                out@.len() <= j,
                out@.len() <= NUM_MONSTERS,
                forall|a: int, b: int| 0 <= a < b < out@.len() ==> out@[a] != out@[b],
                valid_field(self.map.tiles@, start.x as int, start.y as int, d, SEARCH_DEPTH as int),
                forall|i: int| 0 <= i < out@.len() ==> spawn_ok(self.map.tiles@, *start, #[trigger] out@[i]),
                forall|i: int| 0 <= i < out@.len() ==> candidates@.contains(#[trigger] out@[i]),
                forall|k: int|
                    0 <= k < j && spawn_ok(self.map.tiles@, *start, #[trigger] candidates@[k])
                        ==> out@.contains(candidates@[k]),
            decreases candidates@.len() - j,
        {
            let c = candidates[j];
            let ghost before = out@;
            if self.map.in_bounds(c) {
                let v = field.map[map_idx(c.x, c.y)];
                proof {
                    lemma_far_is_spawn_ok(self.map.tiles@, *start, d, c);
                }
                if v != UNREACHABLE && v > MIN_SPAWN_DISTANCE && !contains_point(&out, c) {
                    out.push(c);
                    assert(out@[before.len() as int] == c);
                    assert(candidates@[j as int] == c);
                }
            }
            proof {
                assert forall|i: int| 0 <= i < out@.len() implies candidates@.contains(#[trigger] out@[i]) by {
                    if i < before.len() {
                        assert(out@[i] == before[i]);
                    } else {
                        assert(candidates@[j as int] == out@[i]);
                    }
                }
                assert forall|a: int, b: int| 0 <= a < b < out@.len() implies out@[a] != out@[b] by {
                    assert(out@[a] == before[a]);
                    if b < before.len() {
                        assert(out@[b] == before[b]);
                    } else if before[a] == c {
                        assert(before.contains(c));
                    }
                }
                assert forall|i: int| 0 <= i < out@.len() implies spawn_ok(self.map.tiles@, *start, #[trigger] out@[i]) by {
                    if i < before.len() {
                        assert(out@[i] == before[i]);
                    }
                }
                assert forall|k: int|
                    0 <= k < j + 1 && spawn_ok(self.map.tiles@, *start, #[trigger] candidates@[k])
                        implies out@.contains(candidates@[k]) by {
                    if k == j {
                        if before.contains(c) {
                            let a = choose|a: int| 0 <= a < before.len() && before[a] == c;
                            assert(out@[a] == before[a]);
                        } else {
                            assert(out@[before.len() as int] == c);
                        }
                    } else {
                        let a = choose|a: int| 0 <= a < before.len() && before[a] == candidates@[k];
                        assert(out@[a] == before[a]);
                    }
                }
            }
            j = j + 1;
        }
        out
    }
}

} // verus!
