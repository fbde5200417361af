//! The level-generation strategies. Each turns a blank grid into a level
//! with a player start; the rooms-based ones also list candidate spawns.
use vstd::prelude::*;
use bracket_lib::random::RandomNumberGenerator;
use crate::geometry::{Point, Rect, rect_contains, rects_intersect};
use crate::map::{
    TileMap, TileType, NUM_TILES, in_bounds_spec,
    passable_at, tile_of, tile_passable, tile_is_passable, idx_spec, lemma_idx_bounds, lemma_idx_injective};
use crate::map_builder::{MapBuilder, rooms_disjoint, rect_on_grid, covered, ring_covered, in_ring, one_door_per_side, sides_ok, is_door, door_at, on_corridor, centers_of, by_column, corridors_carved, NUM_ROOMS};
use crate::rng::rng_range;
use crate::distance::{reach_within, reachable};
use crate::ai::adjacent;

verus! {

/// The middle cell of the grid.
pub open spec fn grid_center() -> Point {
    Point {x: 50, y: 30 }
}

/// What every architect hands over: a well-formed level whose start lies on
/// the grid.
pub open spec fn architect_ok(mb: &MapBuilder) -> bool {
    &&& mb.wf()
    &&& in_bounds_spec(mb.player_start.x as int, mb.player_start.y as int)
}

/// An open field with no rooms.
pub struct EmptyArchitect {}

impl EmptyArchitect {
    pub fn build(&mut self, rng: &mut RandomNumberGenerator) -> (r: MapBuilder)
        ensures
            architect_ok(&r),
            r.player_start == grid_center(),
            r.rooms@.len() == 0,
            forall|i: int| 0 <= i < NUM_TILES ==> r.map.tiles@[i] == TileType::Ground,
    {
        let mut mb = MapBuilder::blank();
        mb.fill(TileType::Ground);
        mb.player_start = Point::new(50, 30);
        mb
    }
}

/// How many of `tiles` are open.
pub open spec fn count_open(tiles: Seq<TileType>) -> int
    decreases tiles.len(),
{
    if tiles.len() == 0 {
        0
    } else {
        count_open(tiles.drop_last()) + (if tile_passable(tiles.last()) {1int } else { 0int })
    }
}

proof fn lemma_count_update(t: Seq<TileType>, i: int, v: TileType)
    requires
        0 <= i < t.len(),
    ensures
        count_open(t.update(i, v)) <= count_open(t) + 1,
    decreases t.len(),
{
    let u = t.update(i, v);
    if i == t.len() - 1 {
        assert(u.drop_last() =~= t.drop_last());
    } else {
        assert(u.drop_last() =~= t.drop_last().update(i, v));
        lemma_count_update(t.drop_last(), i, v);
    }
}

proof fn lemma_count_walls(t: Seq<TileType>)
    requires
        forall|i: int| 0 <= i < t.len() ==> #[trigger] t[i] == TileType::Wall,
    ensures
        count_open(t) == 0,
    decreases t.len(),
{
    if t.len() > 0 {
        lemma_count_walls(t.drop_last());
    }
}

/// Opening cells never cuts a route.
pub proof fn lemma_reach_grows(t0: Seq<TileType>, t1: Seq<TileType>, sx: int, sy: int, x: int, y: int, k: nat)
    requires
        reach_within(t0, sx, sy, x, y, k),
        forall|cx: int, cy: int| #[trigger] passable_at(t0, cx, cy) ==> passable_at(t1, cx, cy),
    ensures
        reach_within(t1, sx, sy, x, y, k),
    decreases k,
{
    if !(x == sx && y == sy) {
        let j = (k - 1) as nat;
        if reach_within(t0, sx, sy, x - 1, y, j) {
            lemma_reach_grows(t0, t1, sx, sy, x - 1, y, j);
        } else if reach_within(t0, sx, sy, x + 1, y, j) {
            lemma_reach_grows(t0, t1, sx, sy, x + 1, y, j);
        } else if reach_within(t0, sx, sy, x, y - 1, j) {
            lemma_reach_grows(t0, t1, sx, sy, x, y - 1, j);
        } else {
            lemma_reach_grows(t0, t1, sx, sy, x, y + 1, j);
        }
    }
}

/// Every open cell of `tiles` can be reached from `start`.
pub open spec fn joined_to(tiles: Seq<TileType>, start: Point) -> bool {
    forall|x: int, y: int| #[trigger] passable_at(tiles, x, y) ==> reachable(tiles, start.x as int, start.y as int, x, y)
}

/// Opening `p`, next to a cell reachable from `start` or `start` itself,
/// keeps every open cell reachable.
proof fn lemma_open_joined(t0: Seq<TileType>, t1: Seq<TileType>, start: Point, p: Point, prev: Point)
    requires
        t0.len() == NUM_TILES,
        in_bounds_spec(p.x as int, p.y as int),
        t1 == t0.update(idx_spec(p.x as int, p.y as int), TileType::Ground),
        joined_to(t0, start),
        p == start || (adjacent(prev, p) && reachable(t0, start.x as int, start.y as int, prev.x as int, prev.y as int)),
    ensures
        joined_to(t1, start),
{
    let (sx, sy) = (start.x as int, start.y as int);
    assert forall|cx: int, cy: int| #[trigger] passable_at(t0, cx, cy) implies passable_at(t1, cx, cy) by {
        lemma_idx_bounds(cx, cy);
        if idx_spec(cx, cy) == idx_spec(p.x as int, p.y as int) {
            lemma_idx_injective(cx, cy, p.x as int, p.y as int);
        }
    }
    lemma_idx_bounds(p.x as int, p.y as int);
    assert(passable_at(t1, p.x as int, p.y as int));
    assert forall|x: int, y: int| #[trigger] passable_at(t1, x, y) implies reachable(t1, sx, sy, x, y) by {
        lemma_idx_bounds(x, y);
        if x == p.x && y == p.y {
            if p == start {
                assert(reach_within(t1, sx, sy, x, y, 0));
            } else {
                let k = choose|k: nat| reach_within(t0, sx, sy, prev.x as int, prev.y as int, k);
                lemma_reach_grows(t0, t1, sx, sy, prev.x as int, prev.y as int, k);
                assert(reach_within(t1, sx, sy, x, y, k + 1));
            }
        } else {
            if idx_spec(x, y) == idx_spec(p.x as int, p.y as int) {
                lemma_idx_injective(x, y, p.x as int, p.y as int);
            }
            assert(passable_at(t0, x, y));
            let k = choose|k: nat| reach_within(t0, sx, sy, x, y, k);
            lemma_reach_grows(t0, t1, sx, sy, x, y, k);
        }
    }
}

/// Steps one walker may take before it stops.
pub const STAGGER_DISTANCE: u32 = 400;

/// How many walkers may set out.
pub const MAX_WALKS: u32 = 200;

/// Caves dug by random walkers that set out from the middle of the grid.
pub struct DrunkardsWalkArchitect {}

impl DrunkardsWalkArchitect {
    /// Walks from `start` for at most `STAGGER_DISTANCE` steps, opening each
    /// cell it stands on, and stops where a step would leave the grid. Every
    /// open cell stays reachable from `start`, and at most
    /// `STAGGER_DISTANCE + 1` cells are opened.
    pub fn drunkard(&mut self, start: Point, rng: &mut RandomNumberGenerator, map: &mut TileMap)
        requires
            old(map).wf(),
            in_bounds_spec(start.x as int, start.y as int),
            joined_to(old(map).tiles@, start),
        ensures
            final(map).wf(),
            final(map).revealed_tiles@ == old(map).revealed_tiles@,
            tile_of(final(map).tiles@, start.x as int, start.y as int) == TileType::Ground,
            joined_to(final(map).tiles@, start),
            count_open(final(map).tiles@) <= count_open(old(map).tiles@) + STAGGER_DISTANCE + 1,
            forall|x: int, y: int|
                #![trigger tile_of(final(map).tiles@, x, y)]
                in_bounds_spec(x, y) ==> tile_of(final(map).tiles@, x, y) == tile_of(old(map).tiles@, x, y)
                    || tile_of(final(map).tiles@, x, y) == TileType::Ground,
    {
        let mut pos = start;
        let ghost mut prev = start;
        let mut steps: u32 = 0;
        let ghost t0 = map.tiles@;
        map.set_tile(pos, TileType::Ground);
        proof {
            lemma_count_update(t0, idx_spec(pos.x as int, pos.y as int), TileType::Ground);
            lemma_open_joined(t0, map.tiles@, start, pos, prev);
        }
        while steps < STAGGER_DISTANCE
            invariant_except_break
                pos == start || (adjacent(prev, pos) && reachable(map.tiles@, start.x as int, start.y as int, prev.x as int, prev.y as int)),
            invariant
                map.wf(),
                map.revealed_tiles@ == old(map).revealed_tiles@,
                in_bounds_spec(pos.x as int, pos.y as int),
                in_bounds_spec(start.x as int, start.y as int),
                tile_of(map.tiles@, start.x as int, start.y as int) == TileType::Ground,
                joined_to(map.tiles@, start),
                count_open(map.tiles@) <= count_open(old(map).tiles@) + steps + 1,
                steps <= STAGGER_DISTANCE,
                forall|x: int, y: int|
                    #![trigger tile_of(map.tiles@, x, y)]
                    in_bounds_spec(x, y) ==> tile_of(map.tiles@, x, y) == tile_of(old(map).tiles@, x, y)
                        || tile_of(map.tiles@, x, y) == TileType::Ground,
            decreases STAGGER_DISTANCE - steps,
        {
            steps = steps + 1;
            let ghost t1 = map.tiles@;
            map.set_tile(pos, TileType::Ground);
            proof {
                lemma_count_update(t1, idx_spec(pos.x as int, pos.y as int), TileType::Ground);
                lemma_open_joined(t1, map.tiles@, start, pos, prev);
                lemma_idx_bounds(pos.x as int, pos.y as int);
            }
            let dir = rng_range(rng, 0, 4);
            let next = if dir == 0 {
                Point::new(pos.x - 1, pos.y)
            } else if dir == 1 {
                Point::new(pos.x + 1, pos.y)
            } else if dir == 2 {
                Point::new(pos.x, pos.y - 1)
            } else {
                Point::new(pos.x, pos.y + 1)
            };
            if !map.in_bounds(next) {
                break;
            }
            proof {
                assert(passable_at(map.tiles@, pos.x as int, pos.y as int));
                prev = pos;
            }
            pos = next;
        }
    }

    /// How many cells of `map` are open.
    pub fn count_floor(map: &TileMap) -> (r: usize)
        requires
            map.wf(),
        ensures
            r == count_open(map.tiles@),
    {
        let mut n: usize = 0;
        let mut i: usize = 0;
        while i < NUM_TILES
            invariant
                map.wf(),
                i <= NUM_TILES,
                n <= i,
                n == count_open(map.tiles@.subrange(0, i as int)),
            decreases NUM_TILES - i,
        {
            assert(map.tiles@.subrange(0, i + 1).drop_last() =~= map.tiles@.subrange(0, i as int));
            if tile_is_passable(map.tiles[i]) {
                n = n + 1;
            }
            i = i + 1;
        }
        assert(map.tiles@.subrange(0, NUM_TILES as int) =~= map.tiles@);
        n
    }

    /// Fills the grid with walls and sends walkers out from its middle until a
    /// third of it is open or `MAX_WALKS` have walked. Every open cell can be
    /// reached from the middle, where the player starts.
    pub fn build(&mut self, rng: &mut RandomNumberGenerator) -> (r: MapBuilder)
        ensures
            architect_ok(&r),
            r.player_start == grid_center(),
            r.rooms@.len() == 0,
            r.monster_spawns@.len() == 0,
            passable_at(r.map.tiles@, 50, 30),
            joined_to(r.map.tiles@, grid_center()),
            count_open(r.map.tiles@) < NUM_TILES / 3 + STAGGER_DISTANCE + 1,
    {
        let mut mb = MapBuilder::blank();
        mb.fill(TileType::Wall);
        let center = Point::new(50, 30);
        proof {
            lemma_count_walls(mb.map.tiles@);
        }
        self.drunkard(center, rng, &mut mb.map);
        let mut walks: u32 = 1;
        while walks < MAX_WALKS && DrunkardsWalkArchitect::count_floor(&mb.map) < NUM_TILES / 3
            invariant
                mb.wf(),
                mb.rooms@.len() == 0,
                mb.monster_spawns@.len() == 0,
                center == grid_center(),
                tile_of(mb.map.tiles@, 50, 30) == TileType::Ground,
                joined_to(mb.map.tiles@, center),
                count_open(mb.map.tiles@) < NUM_TILES / 3 + STAGGER_DISTANCE + 1,
            decreases MAX_WALKS - walks,
        {
            walks = walks + 1;
            self.drunkard(center, rng, &mut mb.map);
        }
        mb.player_start = center;
        mb
    }
}

/// Rectangular rooms joined by L-shaped corridors.
pub struct DungeonRoomsArchitect {}

/// Why a generation attempt was given up.
#[derive(Clone, Copy, Debug, PartialEq, Eq, Structural)]
pub enum GenerationError {
    /// The room carver ran out of draws before it placed `NUM_ROOMS` rooms.
    RoomTargetMissed,
    /// Every generation attempt failed.
    RetriesExhausted,
}

/// The dungeon-rooms layout: exactly the cells of the rooms and of the
/// corridors `s`, `bends` are open, and the rest is wall.
pub open spec fn dungeon_layout(rooms: Seq<Rect>, tiles: Seq<TileType>, s: Seq<Point>, bends: Seq<bool>) -> bool {
    forall|x: int, y: int|
        #![trigger tile_of(tiles, x, y)]
        in_bounds_spec(x, y) ==> tile_of(tiles, x, y) == (if covered(rooms, 0, x, y) || on_corridor(s, bends, s.len() as int, x, y) {
            TileType::Ground
        } else {
            TileType::Wall
        })
}

impl DungeonRoomsArchitect {
    /// Carves `NUM_ROOMS` rooms that do not overlap on a field of walls, joins
    /// their centres with corridors, and starts the player in the first one.
    /// The centres of the others are the candidate spawns. Fails with
    /// `RoomTargetMissed` when the draws run out first.
    pub fn build(&mut self, rng: &mut RandomNumberGenerator) -> (r: Result<MapBuilder, GenerationError>)
        ensures
            r.is_err() ==> r == Err::<MapBuilder, GenerationError>(GenerationError::RoomTargetMissed),
            r.is_ok() ==> {
                let mb = r.unwrap();
                &&& architect_ok(&mb)
                &&& rooms_disjoint(mb.rooms@)
                &&& mb.rooms@.len() == NUM_ROOMS
                &&& mb.player_start == mb.rooms@[0].center_spec()
                &&& mb.monster_spawns@.len() == mb.rooms@.len() - 1
                &&& (forall|i: int|
                    0 <= i < mb.monster_spawns@.len() ==> #[trigger] mb.monster_spawns@[i] == mb.rooms@[i + 1].center_spec())
                &&& exists|s: Seq<Point>, bends: Seq<bool>|
                    s.to_multiset() == centers_of(mb.rooms@).to_multiset() && by_column(s)
                        && dungeon_layout(mb.rooms@, mb.map.tiles@, s, bends)
            },
    {
        let mut mb = MapBuilder::blank();
        mb.fill(TileType::Wall);
        mb.carve_random_rooms(rng, TileType::Ground, (8, 14), (6, 13), false);
        if mb.rooms.len() < NUM_ROOMS {
            return Err(GenerationError::RoomTargetMissed);
        }
        let ghost carved = mb.map.tiles@;
        mb.build_corridors(rng);
        proof {
            let (cs, cb) = choose|cs: Seq<Point>, cb: Seq<bool>|
                corridors_carved(mb.rooms@, carved, mb.map.tiles@, cs, cb);
            assert(dungeon_layout(mb.rooms@, mb.map.tiles@, cs, cb));
        }
        assert(rect_on_grid(mb.rooms@[0]));
        mb.player_start = mb.rooms[0].center();
        let ghost rooms = mb.rooms@;
        let ghost tiles = mb.map.tiles@;
        let mut i: usize = 1;
        while i < mb.rooms.len()
            invariant
                mb.wf(),
                mb.rooms@ == rooms,
                mb.map.tiles@ == tiles,
                rooms_disjoint(rooms),
                rooms.len() == NUM_ROOMS,
                mb.player_start == rooms[0].center_spec(),
                in_bounds_spec(mb.player_start.x as int, mb.player_start.y as int),
                1 <= i <= mb.rooms@.len(),
                mb.monster_spawns@.len() == i - 1,
                forall|k: int|
                    0 <= k < mb.monster_spawns@.len() ==> #[trigger] mb.monster_spawns@[k] == mb.rooms@[k + 1].center_spec(),
            decreases mb.rooms@.len() - i,
        {
            assert(rect_on_grid(mb.rooms@[i as int]));
            let c = mb.rooms[i].center();
            mb.monster_spawns.push(c);
            i = i + 1;
        }
        Ok(mb)
    }
}

/// How many walled buildings the labyrinth tries to place.
pub const NUM_BUILDINGS: usize = 90;

/// How many open clearings the labyrinth draws over its buildings.
pub const NUM_CLEARINGS: usize = 20;

/// Walled buildings with a door on every side on open grass, overlaid with
/// clearings.
pub struct LabyruaryArchitect {}

/// The ground of a labyrinth before its clearings: the ring of each of
/// `buildings` is wall or door, their insides floorboard, and the rest grass.
pub open spec fn labyrinth_ground(buildings: Seq<Rect>, t: Seq<TileType>) -> bool {
    forall|x: int, y: int|
        #![trigger tile_of(t, x, y)]
        in_bounds_spec(x, y) ==> if ring_covered(buildings, 0, x, y) {
            tile_of(t, x, y) == TileType::Wall || tile_of(t, x, y) == TileType::Door
        } else if covered(buildings, 0, x, y) {
            tile_of(t, x, y) == TileType::Floorboard
        } else {
            tile_of(t, x, y) == TileType::Grass
        }
}

/// The labyrinth made of `b` buildings: they do not overlap, `mid` is the
/// ground with their doors, and the clearings after them leave every cell
/// they do not cover as in `mid`, putting floorboard or grass on the others.
pub open spec fn labyrinth_layout(r: &MapBuilder, b: int, mid: Seq<TileType>) -> bool {
    &&& 1 <= b <= NUM_BUILDINGS
    &&& r.rooms@.len() == b + NUM_CLEARINGS
    &&& rooms_disjoint(r.rooms@.subrange(0, b))
    &&& labyrinth_ground(r.rooms@.subrange(0, b), mid)
    &&& forall|k: int| 0 <= k < b ==> one_door_per_side(mid, #[trigger] r.rooms@[k])
    &&& forall|x: int, y: int|
        #![trigger tile_of(r.map.tiles@, x, y)]
        in_bounds_spec(x, y) ==> if covered(r.rooms@, b, x, y) {
            tile_of(r.map.tiles@, x, y) == TileType::Floorboard || tile_of(r.map.tiles@, x, y) == TileType::Grass
        } else {
            tile_of(r.map.tiles@, x, y) == tile_of(mid, x, y)
        }
    &&& r.monster_spawns@.len() == NUM_CLEARINGS
    &&& forall|i: int| 0 <= i < NUM_CLEARINGS ==> #[trigger] r.monster_spawns@[i] == r.rooms@[b + i].center_spec()
}

proof fn lemma_start_open(bl: Seq<Rect>, mid: Seq<TileType>, fin: Seq<TileType>, rooms: Seq<Rect>, b: int, c: Point)
    requires
        b == bl.len(),
        b >= 1,
        b <= rooms.len(),
        rooms.subrange(0, b) == bl,
        rooms_disjoint(bl),
        labyrinth_ground(bl, mid),
        rect_on_grid(bl[0]),
        bl[0].x1 + 6 <= bl[0].x2,
        bl[0].y1 + 6 <= bl[0].y2,
        c == bl[0].center_spec(),
        forall|x: int, y: int|
            #![trigger tile_of(fin, x, y)]
            in_bounds_spec(x, y) ==> if covered(rooms, b, x, y) {
                tile_of(fin, x, y) == TileType::Floorboard || tile_of(fin, x, y) == TileType::Grass
            } else {
                tile_of(fin, x, y) == tile_of(mid, x, y)
            },
    ensures
        passable_at(fin, c.x as int, c.y as int),
{
    let (cx, cy) = (c.x as int, c.y as int);
    let r0 = bl[0];
    assert(rect_contains(r0, cx, cy) && !in_ring(r0, cx, cy));
    assert(covered(bl, 0, cx, cy));
    if ring_covered(bl, 0, cx, cy) {
        let j = choose|j: int| 0 <= j < bl.len() && #[trigger] in_ring(bl[j], cx, cy);
        assert(j != 0);
        assert(rects_intersect(bl[0], bl[j]));
    }
    assert(in_bounds_spec(cx, cy));
    assert(tile_of(mid, cx, cy) == TileType::Floorboard);
    assert(tile_of(fin, cx, cy) != TileType::Wall);
}

impl LabyruaryArchitect {
    /// Places up to `NUM_BUILDINGS` buildings that do not overlap on grass,
    /// gives each one door on each side, then draws `NUM_CLEARINGS` clearings
    /// that may overlap. The player starts in the first building, on open
    /// ground; the centres of the clearings are the candidate spawns.
    #[verifier::rlimit(60)]
    pub fn build(&mut self, rng: &mut RandomNumberGenerator) -> (r: MapBuilder)
        ensures
            architect_ok(&r),
            1 <= r.rooms@.len(),
            r.player_start == r.rooms@[0].center_spec(),
            passable_at(r.map.tiles@, r.player_start.x as int, r.player_start.y as int),
            exists|b: int|
                1 <= b <= NUM_BUILDINGS && b <= r.rooms@.len() <= b + NUM_CLEARINGS && #[trigger] rooms_disjoint(r.rooms@.subrange(0, b)),
            exists|b: int, mid: Seq<TileType>| #[trigger] labyrinth_layout(&r, b, mid),
    {
        let mut mb = MapBuilder::blank();
        mb.fill(TileType::Grass);
        let ghost grass = mb.map.tiles@;
        mb.place_random_buildings(
            NUM_BUILDINGS,
            rng,
            TileType::Wall,
            TileType::Floorboard,
            (6, 14),
            (6, 12),
            false,
        );
        let ghost walled = mb.map.tiles@;
        let ghost bl = mb.rooms@;
        assert forall|x: int, y: int| in_bounds_spec(x, y) implies #[trigger] tile_of(walled, x, y) != TileType::Door by {
            lemma_idx_bounds(x, y);
        }
        mb.apply_doors(rng);
        let ghost mid = mb.map.tiles@;
        let buildings = mb.rooms.len();
        proof {
            assert(bl.subrange(0, buildings as int) =~= bl);
            let (ls, ts, rs, bs) = choose|ls: Seq<Point>, ts: Seq<Point>, rs: Seq<Point>, bs: Seq<Point>|
                #[trigger] sides_ok(bl, ls, ts, rs, bs, bl.len() as int)
                    && forall|x: int, y: int|
                    #![trigger tile_of(mid, x, y)]
                    in_bounds_spec(x, y) ==> tile_of(mid, x, y) == (if is_door(ls, ts, rs, bs, bl.len() as int, x, y) {
                        TileType::Door
                    } else {
                        tile_of(walled, x, y)
                    });
            assert forall|x: int, y: int| in_bounds_spec(x, y) implies #[trigger] tile_of(mid, x, y) == (if ring_covered(bl, 0, x, y) {
                tile_of(mid, x, y)
            } else if covered(bl, 0, x, y) {
                TileType::Floorboard
            } else {
                TileType::Grass
            }) by {
                lemma_idx_bounds(x, y);
                if is_door(ls, ts, rs, bs, bl.len() as int, x, y) {
                    let k = choose|k: int| 0 <= k < bl.len() && #[trigger] door_at(ls, ts, rs, bs, k, x, y);
                    assert(in_ring(bl[k], x, y));
                    assert(ring_covered(bl, 0, x, y));
                }
            }
            assert(labyrinth_ground(bl, mid));
        }
        mb.place_random_buildings(
            NUM_CLEARINGS,
            rng,
            TileType::Floorboard,
            TileType::Grass,
            (2, 12),
            (2, 12),
            true,
        );
        assert(mb.rooms@.subrange(0, buildings as int) == bl);
        assert(rect_on_grid(mb.rooms@[0]));
        mb.player_start = mb.rooms[0].center();
        proof {
            assert(bl[0] == mb.rooms@[0]);
            lemma_start_open(bl, mid, mb.map.tiles@, mb.rooms@, buildings as int, mb.player_start);
        }
        let ghost rooms = mb.rooms@;
        let ghost tiles = mb.map.tiles@;
        let mut i: usize = buildings;
        while i < mb.rooms.len()
            invariant
                mb.wf(),
                mb.rooms@ == rooms,
                mb.map.tiles@ == tiles,
                1 <= buildings <= NUM_BUILDINGS,
                rooms.len() == buildings + NUM_CLEARINGS,
                rooms_disjoint(rooms.subrange(0, buildings as int)),
                buildings <= i <= mb.rooms@.len(),
                mb.monster_spawns@.len() == i - buildings,
                forall|k: int| 0 <= k < i - buildings ==> #[trigger] mb.monster_spawns@[k] == rooms[buildings + k].center_spec(),
                mb.player_start == mb.rooms@[0].center_spec(),
                in_bounds_spec(mb.player_start.x as int, mb.player_start.y as int),
                passable_at(tiles, mb.player_start.x as int, mb.player_start.y as int),
            decreases mb.rooms@.len() - i,
        {
            assert(rect_on_grid(mb.rooms@[i as int]));
            let c = mb.rooms[i].center();
            mb.monster_spawns.push(c);
            i = i + 1;
        }
        proof {
            assert forall|k: int| 0 <= k < buildings implies one_door_per_side(mid, #[trigger] mb.rooms@[k]) by {
                assert(mb.rooms@[k] == bl[k]);
            }
            assert(labyrinth_layout(&mb, buildings as int, mid));
        }
        mb
    }
}

} // verus!
