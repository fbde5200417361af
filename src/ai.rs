//! The monsters' decisions: wandering at random, and closing in on a player
//! they can see.
use vstd::prelude::*;
use bracket_lib::random::RandomNumberGenerator;
use crate::geometry::{Point, contains_point};
use crate::map::{TileMap, NUM_TILES, SCREEN_WIDTH, SCREEN_HEIGHT, in_bounds_spec, idx_spec, map_idx, lemma_idx_bounds};
use crate::distance::{DistanceField, reach_within, valid_field, lemma_field_exact, has_closer_neighbor};
use crate::components::WantsToMove;
use crate::world::{World, EntityRecord};
use crate::systems::{find_player, is_first_player};
use crate::movement::{Direction, step, step_spec, step_fits};
use crate::placement::SEARCH_DEPTH;
use crate::rng::rng_range;

verus! {

/// `b` is one orthogonal step from `a`.
pub open spec fn adjacent(a: Point, b: Point) -> bool {
    (a.x == b.x && (b.y == a.y + 1 || b.y == a.y - 1)) || (a.y == b.y && (b.x == a.x + 1 || b.x == a.x - 1))
}

/// The direction a roll in `0..4` picks.
pub open spec fn direction_spec(roll: i32) -> Direction {
    if roll == 0 {
        Direction::Left
    } else if roll == 1 {
        Direction::Right
    } else if roll == 2 {
        Direction::Up
    } else {
        Direction::Down
    }
}

pub fn direction_for_roll(roll: i32) -> (r: Direction)
    ensures
        r == direction_spec(roll),
{
    if roll == 0 {
        Direction::Left
    } else if roll == 1 {
        Direction::Right
    } else if roll == 2 {
        Direction::Up
    } else {
        Direction::Down
    }
}

/// The moves of the first `n` records when record `i` would step in
/// direction `dirs[i]`: one for each wandering record whose step has
/// coordinates, in record order.
pub open spec fn wander_spec(recs: Seq<EntityRecord>, dirs: Seq<Direction>, n: int) -> Seq<WantsToMove>
    decreases n,
{
    if n <= 0 {
        Seq::empty()
    } else {
        let prev = wander_spec(recs, dirs, n - 1);
        let r = recs[n - 1];
        if r.moving_randomly.is_some() && step_fits(r.pos, dirs[n - 1]) {
            prev.push(WantsToMove {
                entity: r.entity,
                destination: Point { x: step_spec(r.pos, dirs[n - 1]).0 as i32, y: step_spec(r.pos, dirs[n - 1]).1 as i32 },
            })
        } else {
            prev
        }
    }
}

/// The wandering moves for the directions `dirs`, one per record.
pub fn wander_moves(ecs: &World, dirs: &Vec<Direction>) -> (r: Vec<WantsToMove>)
    requires
        dirs@.len() == ecs.records@.len(),
    ensures
        r@ == wander_spec(ecs.records@, dirs@, ecs.records@.len() as int),
{
    let mut out: Vec<WantsToMove> = Vec::new();
    let mut k: usize = 0;
    while k < ecs.records.len()
        invariant
            k <= ecs.records@.len(),
            dirs@.len() == ecs.records@.len(),
            out@ == wander_spec(ecs.records@, dirs@, k as int),
        decreases ecs.records@.len() - k,
    {
        if ecs.records[k].moving_randomly.is_some() {
            match step(ecs.records[k].pos, dirs[k]) {
                Some(dest) => {
                    out.push(WantsToMove { entity: ecs.records[k].entity, destination: dest });
                },
                None => {},
            }
        }
        k = k + 1;
    }
    out
}

/// One move for each wandering entity whose step has coordinates, each in a
/// direction drawn at random; the others keep still.
pub fn random_move(ecs: &World, rng: &mut RandomNumberGenerator) -> (r: Vec<WantsToMove>)
    ensures
        exists|dirs: Seq<Direction>|
            dirs.len() == ecs.records@.len() && r@ == wander_spec(ecs.records@, dirs, ecs.records@.len() as int),
{
    let mut dirs: Vec<Direction> = Vec::new();
    let mut k: usize = 0;
    while k < ecs.records.len()
        invariant
            k <= ecs.records@.len(),
            dirs@.len() == k,
        decreases ecs.records@.len() - k,
    {
        if ecs.records[k].moving_randomly.is_some() {
            dirs.push(direction_for_roll(rng_range(rng, 0, 4)));
        } else {
            dirs.push(Direction::Left);
        }
        k = k + 1;
    }
    wander_moves(ecs, &dirs)
}

/// `p` is among the cells `r` sees.
pub open spec fn sees(r: EntityRecord, p: Point) -> bool {
    r.fov.is_some() && r.fov.unwrap().visible_tiles@.contains(p)
}

/// `n` is fewer steps from `target` than `p` is: some budget within the
/// search depth reaches `n` but not `p`.
pub open spec fn steps_closer(tiles: Seq<crate::map::TileType>, target: Point, n: Point, p: Point) -> bool {
    exists|j: nat|
        j <= SEARCH_DEPTH && #[trigger] reach_within(tiles, target.x as int, target.y as int, n.x as int, n.y as int, j)
            && !reach_within(tiles, target.x as int, target.y as int, p.x as int, p.y as int, j)
}

pub open spec fn nb(p: Point, dx: int, dy: int) -> Point {
    Point { x: (p.x + dx) as i32, y: (p.y + dy) as i32 }
}

/// Some orthogonal neighbour of `p` on the grid is fewer steps from
/// `target`.
pub open spec fn has_nearer_neighbor(tiles: Seq<crate::map::TileType>, target: Point, p: Point) -> bool {
    ||| (in_bounds_spec(p.x - 1, p.y as int) && steps_closer(tiles, target, nb(p, -1, 0), p))
    ||| (in_bounds_spec(p.x + 1, p.y as int) && steps_closer(tiles, target, nb(p, 1, 0), p))
    ||| (in_bounds_spec(p.x as int, p.y - 1) && steps_closer(tiles, target, nb(p, 0, -1), p))
    ||| (in_bounds_spec(p.x as int, p.y + 1) && steps_closer(tiles, target, nb(p, 0, 1), p))
}

/// A chasing record that sees the player at `target` moves `m.entity` one
/// step to a cell fewer steps from `target` over `tiles`.
pub open spec fn chase_ok(tiles: Seq<crate::map::TileType>, recs: Seq<EntityRecord>, target: Point, m: WantsToMove) -> bool {
    exists|k: int|
        0 <= k < recs.len() && #[trigger] recs[k].entity == m.entity && recs[k].chasing.is_some()
            && sees(recs[k], target) && adjacent(recs[k].pos, m.destination)
            && in_bounds_spec(m.destination.x as int, m.destination.y as int)
            && steps_closer(tiles, target, m.destination, recs[k].pos)
}

/// The record at `k` hunts, sees the player at `target`, stands on the grid
/// and has a neighbour nearer to the player.
pub open spec fn should_chase(tiles: Seq<crate::map::TileType>, recs: Seq<EntityRecord>, target: Point, k: int) -> bool {
    &&& recs[k].chasing.is_some()
    &&& sees(recs[k], target)
    &&& in_bounds_spec(recs[k].pos.x as int, recs[k].pos.y as int)
    &&& has_nearer_neighbor(tiles, target, recs[k].pos)
}

proof fn lemma_steps_closer(tiles: Seq<crate::map::TileType>, target: Point, d: Seq<u32>, n: Point, p: Point)
    requires
        valid_field(tiles, target.x as int, target.y as int, d, SEARCH_DEPTH as int),
        in_bounds_spec(n.x as int, n.y as int),
        in_bounds_spec(p.x as int, p.y as int),
    ensures
        steps_closer(tiles, target, n, p) <==> (d[idx_spec(n.x as int, n.y as int)] < d[idx_spec(p.x as int, p.y as int)]),
{
    let (tx, ty) = (target.x as int, target.y as int);
    lemma_idx_bounds(n.x as int, n.y as int);
    lemma_idx_bounds(p.x as int, p.y as int);
    let dn = d[idx_spec(n.x as int, n.y as int)];
    let dp = d[idx_spec(p.x as int, p.y as int)];
    if steps_closer(tiles, target, n, p) {
        let j = choose|j: nat|
            j <= SEARCH_DEPTH && #[trigger] reach_within(tiles, tx, ty, n.x as int, n.y as int, j)
                && !reach_within(tiles, tx, ty, p.x as int, p.y as int, j);
        lemma_field_exact(tiles, tx, ty, d, SEARCH_DEPTH as int, n.x as int, n.y as int, j);
        lemma_field_exact(tiles, tx, ty, d, SEARCH_DEPTH as int, p.x as int, p.y as int, j);
    }
    if dn < dp {
        let j = dn as nat;
        lemma_field_exact(tiles, tx, ty, d, SEARCH_DEPTH as int, n.x as int, n.y as int, j);
        lemma_field_exact(tiles, tx, ty, d, SEARCH_DEPTH as int, p.x as int, p.y as int, j);
        assert(reach_within(tiles, tx, ty, n.x as int, n.y as int, j));
    }
}

/// The neighbour of `pos` with the smallest distance in `field`, if it is
/// smaller than that of `pos`; ties go to left, right, up, down in turn.
fn nearest_step(map: &TileMap, field: &DistanceField, pos: Point) -> (r: Option<Point>)
    requires
        map.wf(),
        field.map@.len() == NUM_TILES,
        in_bounds_spec(pos.x as int, pos.y as int),
    ensures
        r.is_some() ==> adjacent(pos, r.unwrap()) && in_bounds_spec(r.unwrap().x as int, r.unwrap().y as int)
            && field.map@[idx_spec(r.unwrap().x as int, r.unwrap().y as int)] < field.map@[idx_spec(pos.x as int, pos.y as int)],
        r.is_none() ==> !has_closer_neighbor(field.map@, pos.x as int, pos.y as int),
{
    let d = &field.map;
    let here = d[map_idx(pos.x, pos.y)];
    let mut best: Option<Point> = None;
    let mut best_d: u32 = here;
    if pos.x > 0 {
        let n = Point::new(pos.x - 1, pos.y);
        let v = d[map_idx(n.x, n.y)];
        if v < best_d {
            best = Some(n);
            best_d = v;
        }
    }
    if pos.x < SCREEN_WIDTH - 1 {
        let n = Point::new(pos.x + 1, pos.y);
        let v = d[map_idx(n.x, n.y)];
        if v < best_d {
            best = Some(n);
            best_d = v;
        }
    }
    if pos.y > 0 {
        let n = Point::new(pos.x, pos.y - 1);
        let v = d[map_idx(n.x, n.y)];
        if v < best_d {
            best = Some(n);
            best_d = v;
        }
    }
    if pos.y < SCREEN_HEIGHT - 1 {
        let n = Point::new(pos.x, pos.y + 1);
        let v = d[map_idx(n.x, n.y)];
        if v < best_d {
            best = Some(n);
            best_d = v;
        }
    }
    best
}


/// For each chasing entity that sees the player, stands on the grid and has
/// a neighbour nearer to the player, a step to the nearest such neighbour.
pub fn chasing(ecs: &World, map: &TileMap) -> (r: Vec<WantsToMove>)
    requires
        map.wf(),
    ensures
        r@.len() <= ecs.records@.len(),
        forall|i: int| 0 <= i < r@.len() ==> exists|p: int|
            is_first_player(ecs.records@, p) && chase_ok(map.tiles@, ecs.records@, ecs.records@[p].pos, #[trigger] r@[i]),
        forall|p: int, k: int|
            is_first_player(ecs.records@, p) && 0 <= k < ecs.records@.len()
                && #[trigger] should_chase(map.tiles@, ecs.records@, ecs.records@[p].pos, k)
                ==> exists|i: int| 0 <= i < r@.len() && #[trigger] r@[i].entity == ecs.records@[k].entity,
{
    let mut out: Vec<WantsToMove> = Vec::new();
    let p = match find_player(ecs) {
        Some(p) => p,
        None => {
            return out;
        },
    };
    let target = ecs.records[p].pos;
    let field = DistanceField::new(map, target, SEARCH_DEPTH);
    let ghost d = field.map@;
    let ghost t = map.tiles@;
    let mut k: usize = 0;
    while k < ecs.records.len()
        invariant
            map.wf(),
            t == map.tiles@,
            d == field.map@,
            is_first_player(ecs.records@, p as int),
            target == ecs.records@[p as int].pos,
            valid_field(t, target.x as int, target.y as int, d, SEARCH_DEPTH as int),
            k <= ecs.records@.len(),
            out@.len() <= k,
            forall|i: int| 0 <= i < out@.len() ==> chase_ok(t, ecs.records@, target, #[trigger] out@[i]),
            forall|k2: int|
                0 <= k2 < k && #[trigger] should_chase(t, ecs.records@, target, k2)
                    ==> exists|i: int| 0 <= i < out@.len() && #[trigger] out@[i].entity == ecs.records@[k2].entity,
        decreases ecs.records@.len() - k,
    {
        let rec = &ecs.records[k];
        let sees_target = match &rec.fov {
            Some(f) => contains_point(&f.visible_tiles, target),
            None => false,
        };
        let ghost before = out@;
        if rec.chasing.is_some() && sees_target && map.in_bounds(rec.pos) {
            let step_to = nearest_step(map, &field, rec.pos);
            let ghost pos = rec.pos;
            proof {
                let (px, py) = (pos.x as int, pos.y as int);
                if in_bounds_spec(px - 1, py) { lemma_steps_closer(t, target, d, nb(pos, -1, 0), pos); }
                if in_bounds_spec(px + 1, py) { lemma_steps_closer(t, target, d, nb(pos, 1, 0), pos); }
                if in_bounds_spec(px, py - 1) { lemma_steps_closer(t, target, d, nb(pos, 0, -1), pos); }
                if in_bounds_spec(px, py + 1) { lemma_steps_closer(t, target, d, nb(pos, 0, 1), pos); }
            }
            match step_to {
                Some(dest) => {
                    let m = WantsToMove { entity: rec.entity, destination: dest };
                    out.push(m);
                    proof {
                        lemma_steps_closer(t, target, d, dest, pos);
                        assert(ecs.records@[k as int].entity == m.entity);
                        assert(chase_ok(t, ecs.records@, target, m));
                        assert(out@[before.len() as int] == m);
                    }
                },
                None => {
                    assert(!should_chase(t, ecs.records@, target, k as int));
                },
            }
        }
        proof {
            assert forall|i: int| 0 <= i < out@.len() implies chase_ok(t, ecs.records@, target, #[trigger] out@[i]) by {
                if i < before.len() {
                    assert(out@[i] == before[i]);
                }
            }
            assert forall|k2: int|
                0 <= k2 < k + 1 && #[trigger] should_chase(t, ecs.records@, target, k2)
                    implies exists|i: int| 0 <= i < out@.len() && #[trigger] out@[i].entity == ecs.records@[k2].entity by {
                if k2 < k {
                    let i = choose|i: int| 0 <= i < before.len() && #[trigger] before[i].entity == ecs.records@[k2].entity;
                    assert(out@[i] == before[i]);
                } else {
                    assert(out@[before.len() as int].entity == ecs.records@[k2].entity);
                }
            }
        }
        k = k + 1;
    }
    proof {
        assert forall|other_p: int, k2: int|
            is_first_player(ecs.records@, other_p) && 0 <= k2 < ecs.records@.len()
                && #[trigger] should_chase(map.tiles@, ecs.records@, ecs.records@[other_p].pos, k2)
                implies exists|i: int| 0 <= i < out@.len() && #[trigger] out@[i].entity == ecs.records@[k2].entity by {
            if other_p < p { assert(ecs.records@[other_p].player.is_none()); }
            if p < other_p { assert(ecs.records@[p as int].player.is_none()); }
        }
        assert forall|i: int| 0 <= i < out@.len() implies exists|other_p: int|
            is_first_player(ecs.records@, other_p) && chase_ok(map.tiles@, ecs.records@, ecs.records@[other_p].pos, #[trigger] out@[i]) by {
            assert(chase_ok(t, ecs.records@, target, out@[i]));
        }
    }
    out
}

} // verus!
