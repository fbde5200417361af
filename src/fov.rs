//! Fields of view: the cells each watcher can reach within its sight radius,
//! and the player's memory of what they have seen.
use vstd::prelude::*;
use crate::geometry::Point;
use crate::map::{TileMap, NUM_TILES, in_bounds_spec, idx_spec, lemma_idx_bounds, lemma_idx_injective};
use crate::distance::{DistanceField, UNREACHABLE, reach_within, valid_field, lemma_field_exact, labeled};
use crate::components::FieldOfView;
use crate::world::{World, EntityRecord};

verus! {

/// The longest sight radius searched.
pub const MAX_SIGHT: i32 = 1024;

/// `(x, y)` is one of `cells`.
pub open spec fn listed(cells: Seq<Point>, x: int, y: int) -> bool {
    exists|i: int| 0 <= i < cells.len() && #[trigger] cells[i].x == x && cells[i].y == y
}

/// `cells` are exactly the cells reachable from `pos` within `radius` steps.
pub open spec fn sees_exactly(tiles: Seq<crate::map::TileType>, pos: Point, radius: int, cells: Seq<Point>) -> bool {
    &&& forall|i: int| 0 <= i < cells.len() ==> reach_within(tiles, pos.x as int, pos.y as int, (#[trigger] cells[i]).x as int, cells[i].y as int, radius as nat)
    &&& forall|x: int, y: int| reach_within(tiles, pos.x as int, pos.y as int, x, y, radius as nat) ==> #[trigger] listed(cells, x, y)
}

/// The cells reachable from `pos` within `radius` steps, in row-major order.
pub fn visible_cells(map: &TileMap, pos: Point, radius: i32) -> (r: Vec<Point>)
    requires
        map.wf(),
        0 <= radius <= MAX_SIGHT,
    ensures
        sees_exactly(map.tiles@, pos, radius as int, r@),
{
    let field = DistanceField::new(map, pos, radius as u32);
    let ghost d = field.map@;
    let ghost t = map.tiles@;
    let mut out: Vec<Point> = Vec::new();
    let mut i: usize = 0;
    while i < NUM_TILES
        invariant
            map.wf(),
            t == map.tiles@,
            d == field.map@,
            0 <= radius <= MAX_SIGHT,
            valid_field(t, pos.x as int, pos.y as int, d, radius as int),
            i <= NUM_TILES,
            forall|a: int| 0 <= a < out@.len() ==> in_bounds_spec((#[trigger] out@[a]).x as int, out@[a].y as int)
                && labeled(d, out@[a].x as int, out@[a].y as int),
            forall|x: int, y: int|
                in_bounds_spec(x, y) && labeled(d, x, y) && idx_spec(x, y) < i ==> #[trigger] listed(out@, x, y),
        decreases NUM_TILES - i,
    {
        let ghost before = out@;
        if field.map[i] != UNREACHABLE {
            let p = map.index_to_point2d(i);
            out.push(p);
            proof {
                assert(out@[before.len() as int] == p);
                assert forall|x: int, y: int|
                    in_bounds_spec(x, y) && labeled(d, x, y) && idx_spec(x, y) < i + 1 implies #[trigger] listed(out@, x, y) by {
                    if idx_spec(x, y) == i {
                        lemma_idx_injective(x, y, p.x as int, p.y as int);
                        assert(out@[before.len() as int].x == x);
                    } else {
                        assert(listed(before, x, y));
                        let a = choose|a: int| 0 <= a < before.len() && #[trigger] before[a].x == x && before[a].y == y;
                        assert(out@[a] == before[a]);
                    }
                }
            }
        } else {
            proof {
                assert forall|x: int, y: int|
                    in_bounds_spec(x, y) && labeled(d, x, y) && idx_spec(x, y) < i + 1 implies #[trigger] listed(out@, x, y) by {
                    if idx_spec(x, y) == i {
                        lemma_idx_bounds(x, y);
                    }
                }
            }
        }
        i = i + 1;
    }
    proof {
        assert forall|a: int| 0 <= a < out@.len() implies reach_within(t, pos.x as int, pos.y as int, (#[trigger] out@[a]).x as int, out@[a].y as int, radius as nat) by {
            let q = out@[a];
            lemma_idx_bounds(q.x as int, q.y as int);
            lemma_field_exact(t, pos.x as int, pos.y as int, d, radius as int, q.x as int, q.y as int, radius as nat);
        }
        assert forall|x: int, y: int| reach_within(t, pos.x as int, pos.y as int, x, y, radius as nat) implies #[trigger] listed(out@, x, y) by {
            assert(in_bounds_spec(x, y));
            lemma_idx_bounds(x, y);
            lemma_field_exact(t, pos.x as int, pos.y as int, d, radius as int, x, y, radius as nat);
        }
    }
    out
}

/// Marks each of `cells` that lies on the grid as seen.
pub fn mark_seen(map: &mut TileMap, cells: &Vec<Point>)
    requires
        old(map).wf(),
    ensures
        final(map).wf(),
        final(map).tiles@ == old(map).tiles@,
        forall|i: int| 0 <= i < NUM_TILES && #[trigger] old(map).revealed_tiles@[i] ==> final(map).revealed_tiles@[i],
        forall|a: int|
            0 <= a < cells@.len() && in_bounds_spec((#[trigger] cells@[a]).x as int, cells@[a].y as int)
                ==> final(map).revealed_tiles@[idx_spec(cells@[a].x as int, cells@[a].y as int)],
{
    let mut k: usize = 0;
    while k < cells.len()
        invariant
            map.wf(),
            map.tiles@ == old(map).tiles@,
            k <= cells@.len(),
            forall|i: int| 0 <= i < NUM_TILES && #[trigger] old(map).revealed_tiles@[i] ==> map.revealed_tiles@[i],
            forall|a: int|
                0 <= a < k && in_bounds_spec((#[trigger] cells@[a]).x as int, cells@[a].y as int)
                    ==> map.revealed_tiles@[idx_spec(cells@[a].x as int, cells@[a].y as int)],
        decreases cells@.len() - k,
    {
        let c = cells[k];
        if map.in_bounds(c) {
            let i = crate::map::map_idx(c.x, c.y);
            map.revealed_tiles.set(i, true);
        }
        k = k + 1;
    }
}

/// `b` is `a` with only its field of view changed.
pub open spec fn fov_only(a: EntityRecord, b: EntityRecord) -> bool {
    b == EntityRecord { fov: b.fov, ..a }
}

/// The sight radius searched for a field of view of radius `r`.
pub open spec fn sight(r: i32) -> int {
    if r < 0 { 0 } else if r > MAX_SIGHT { MAX_SIGHT as int } else { r as int }
}

/// Recomputes the field of view of every watcher, and marks what a player
/// sees as seen on the map.
pub fn fov(ecs: &mut World, map: &mut TileMap)
    requires
        old(ecs).wf(),
        old(map).wf(),
    ensures
        final(ecs).wf(),
        final(map).wf(),
        final(ecs).next_id == old(ecs).next_id,
        final(map).tiles@ == old(map).tiles@,
        forall|i: int| 0 <= i < NUM_TILES && #[trigger] old(map).revealed_tiles@[i] ==> final(map).revealed_tiles@[i],
        final(ecs).records@.len() == old(ecs).records@.len(),
        forall|k: int| 0 <= k < old(ecs).records@.len() ==> fov_only(old(ecs).records@[k], #[trigger] final(ecs).records@[k]),
        forall|k: int|
            0 <= k < old(ecs).records@.len() && (#[trigger] old(ecs).records@[k]).fov.is_some() ==> {
                let f = final(ecs).records@[k].fov;
                &&& f.is_some()
                &&& f.unwrap().radius == old(ecs).records@[k].fov.unwrap().radius
                &&& sees_exactly(final(map).tiles@, old(ecs).records@[k].pos, sight(f.unwrap().radius), f.unwrap().visible_tiles@)
            },
{
    let mut k: usize = 0;
    while k < ecs.records.len()
        invariant
            ecs.wf(),
            map.wf(),
            ecs.next_id == old(ecs).next_id,
            map.tiles@ == old(map).tiles@,
            forall|i: int| 0 <= i < NUM_TILES && #[trigger] old(map).revealed_tiles@[i] ==> map.revealed_tiles@[i],
            ecs.records@.len() == old(ecs).records@.len(),
            k <= ecs.records@.len(),
            forall|j: int| 0 <= j < old(ecs).records@.len() ==> fov_only(old(ecs).records@[j], #[trigger] ecs.records@[j]),
            forall|j: int| k <= j < old(ecs).records@.len() ==> #[trigger] ecs.records@[j] == old(ecs).records@[j],
            forall|j: int|
                0 <= j < k && (#[trigger] old(ecs).records@[j]).fov.is_some() ==> {
                    let f = ecs.records@[j].fov;
                    &&& f.is_some()
                    &&& f.unwrap().radius == old(ecs).records@[j].fov.unwrap().radius
                    &&& sees_exactly(old(map).tiles@, old(ecs).records@[j].pos, sight(f.unwrap().radius), f.unwrap().visible_tiles@)
                },
        decreases ecs.records@.len() - k,
    {
        let radius = match &ecs.records[k].fov {
            Some(f) => Some(f.radius),
            None => None,
        };
        match radius {
            Some(r) => {
                let searched = if r < 0 { 0 } else if r > MAX_SIGHT { MAX_SIGHT } else { r };
                let pos = ecs.records[k].pos;
                let visible = visible_cells(map, pos, searched);
                if ecs.records[k].player.is_some() {
                    mark_seen(map, &visible);
                }
                let ghost before = ecs.records@;
                ecs.set_fov(k, Some(FieldOfView { visible_tiles: visible, radius: r }));
                proof {
                    assert forall|j: int| 0 <= j < old(ecs).records@.len() implies fov_only(old(ecs).records@[j], #[trigger] ecs.records@[j]) by {
                        assert(fov_only(old(ecs).records@[j], before[j]));
                    }
                }
            },
            None => {},
        }
        k = k + 1;
    }
}

} // verus!
