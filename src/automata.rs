//! Caves grown from random noise by repeated smoothing.
use vstd::prelude::*;
use bracket_lib::random::RandomNumberGenerator;
use crate::geometry::Point;
use crate::map::{
    TileMap, TileType, NUM_TILES, SCREEN_WIDTH, SCREEN_HEIGHT, in_bounds_spec, idx_spec,
    passable_at, tile_of, tile_passable, tile_is_passable, map_idx, lemma_idx_injective,
};
use crate::map_builder::MapBuilder;
use crate::architects::architect_ok;
use crate::rng::rng_range;

verus! {

/// 1 where `(x, y)` is open, else 0.
pub open spec fn open_at(tiles: Seq<TileType>, x: int, y: int) -> int {
    if tile_passable(tile_of(tiles, x, y)) {
        1
    } else {
        0
    }
}

/// How many of the eight cells around `(x, y)` are open.
pub open spec fn open_neighbours(tiles: Seq<TileType>, x: int, y: int) -> int {
    open_at(tiles, x - 1, y - 1) + open_at(tiles, x, y - 1) + open_at(tiles, x + 1, y - 1)
        + open_at(tiles, x - 1, y) + open_at(tiles, x + 1, y) + open_at(tiles, x - 1, y + 1)
        + open_at(tiles, x, y + 1) + open_at(tiles, x + 1, y + 1)
}

/// The cell is inside the grid's outer ring.
pub open spec fn interior(x: int, y: int) -> bool {
    1 <= x < SCREEN_WIDTH - 1 && 1 <= y < SCREEN_HEIGHT - 1
}

/// What one smoothing pass makes of `(x, y)`: an inner cell is open when at
/// least as many of its neighbours are open as closed; the ring keeps its
/// tile.
pub open spec fn smoothed(tiles: Seq<TileType>, x: int, y: int) -> TileType {
    if interior(x, y) {
        if open_neighbours(tiles, x, y) >= 4 {
            TileType::Ground
        } else {
            TileType::Wall
        }
    } else {
        tile_of(tiles, x, y)
    }
}

/// Squared distance of `(x, y)` from the middle of the grid.
pub open spec fn dist2_from_center(x: int, y: int) -> int {
    (x - 50) * (x - 50) + (y - 30) * (y - 30)
}

/// `r` is where `find_start` settles on `tiles`: the open cell nearest the
/// middle, the first in row-major order among equally near ones, or the
/// middle itself where no cell is open.
pub open spec fn nearest_open(tiles: Seq<TileType>, r: Point) -> bool {
    &&& in_bounds_spec(r.x as int, r.y as int)
    &&& (exists|x: int, y: int| passable_at(tiles, x, y)) ==> passable_at(tiles, r.x as int, r.y as int)
    &&& !(exists|x: int, y: int| passable_at(tiles, x, y)) ==> r == crate::architects::grid_center()
    &&& forall|x: int, y: int|
        #[trigger] passable_at(tiles, x, y) ==> dist2_from_center(x, y) >= dist2_from_center(r.x as int, r.y as int)
    &&& forall|x: int, y: int|
        #[trigger] passable_at(tiles, x, y) && idx_spec(x, y) < idx_spec(r.x as int, r.y as int)
            ==> dist2_from_center(x, y) > dist2_from_center(r.x as int, r.y as int)
}

/// `after` is one smoothing pass over `before`.
pub open spec fn smoothing(before: Seq<TileType>, after: Seq<TileType>) -> bool {
    &&& after.len() == NUM_TILES
    &&& forall|x: int, y: int|
        #![trigger tile_of(after, x, y)]
        in_bounds_spec(x, y) ==> tile_of(after, x, y) == smoothed(before, x, y)
}

/// `after` is `before` with three rows opened from row `sy` (all but the
/// first column) and three columns opened from column `vx` (rows 10 to 50).
pub open spec fn cave_tunnels(before: Seq<TileType>, after: Seq<TileType>, sy: int, vx: int) -> bool {
    &&& after.len() == NUM_TILES
    &&& forall|x: int, y: int|
        #![trigger tile_of(after, x, y)]
        in_bounds_spec(x, y) ==> tile_of(after, x, y) == (if (sy <= y <= sy + 2 && 1 <= x) || (vx <= x <= vx + 2
            && 10 <= y <= 50) {
            TileType::Ground
        } else {
            tile_of(before, x, y)
        })
}

pub struct CellularAutomataArchitect {}

fn open_count(tiles: &Vec<TileType>, x: i32, y: i32) -> (r: u32)
    requires
        tiles@.len() == NUM_TILES,
        in_bounds_spec(x as int, y as int),
    ensures
        r as int == open_at(tiles@, x as int, y as int),
{
    if tile_is_passable(tiles[map_idx(x, y)]) {
        1
    } else {
        0
    }
}

/// The tile a noise roll in `0..100` gives: open above 50, a wall otherwise.
pub open spec fn noise_tile_spec(roll: i32) -> TileType {
    if roll > 50 {
        TileType::Ground
    } else {
        TileType::Wall
    }
}

pub fn noise_tile(roll: i32) -> (r: TileType)
    ensures
        r == noise_tile_spec(roll),
{
    if roll > 50 {
        TileType::Ground
    } else {
        TileType::Wall
    }
}

impl CellularAutomataArchitect {
    /// Makes each cell open or a wall by its own roll in `0..100`, taken in
    /// row-major order, as `noise_tile` says.
    pub fn random_noise_map(&mut self, rng: &mut RandomNumberGenerator, map: &mut TileMap)
        requires
            old(map).wf(),
        ensures
            final(map).wf(),
            final(map).revealed_tiles@ == old(map).revealed_tiles@,
            exists|rolls: Seq<i32>|
                rolls.len() == NUM_TILES && (forall|i: int| 0 <= i < NUM_TILES ==> 0 <= #[trigger] rolls[i] < 100)
                    && (forall|i: int| 0 <= i < NUM_TILES ==> #[trigger] final(map).tiles@[i] == noise_tile_spec(rolls[i])),
    {
        let ghost mut rolls: Seq<i32> = Seq::empty();
        let mut i: usize = 0;
        while i < NUM_TILES
            invariant
                map.wf(),
                i <= NUM_TILES,
                rolls.len() == i,
                map.revealed_tiles@ == old(map).revealed_tiles@,
                forall|j: int| 0 <= j < i ==> 0 <= #[trigger] rolls[j] < 100,
                forall|j: int| 0 <= j < i ==> #[trigger] map.tiles@[j] == noise_tile_spec(rolls[j]),
            decreases NUM_TILES - i,
        {
            let roll = rng_range(rng, 0, 100);
            map.tiles.set(i, noise_tile(roll));
            proof {
                rolls = rolls.push(roll);
            }
            i = i + 1;
        }
        assert(forall|j: int| 0 <= j < NUM_TILES ==> #[trigger] map.tiles@[j] == noise_tile_spec(rolls[j]));
    }

    /// One smoothing pass over the whole grid, every cell judged on the
    /// tiles from before the pass.
    pub fn smooth(&mut self, map: &mut TileMap)
        requires
            old(map).wf(),
        ensures
            final(map).wf(),
            final(map).revealed_tiles@ == old(map).revealed_tiles@,
            forall|x: int, y: int|
                #![trigger tile_of(final(map).tiles@, x, y)]
                in_bounds_spec(x, y) ==> tile_of(final(map).tiles@, x, y) == smoothed(old(map).tiles@, x, y),
    {
        let mut new_tiles: Vec<TileType> = Vec::new();
        let mut i: usize = 0;
        while i < NUM_TILES
            invariant
                map.wf(),
                i <= NUM_TILES,
                new_tiles@ == map.tiles@.subrange(0, i as int),
            decreases NUM_TILES - i,
        {
            new_tiles.push(map.tiles[i]);
            i = i + 1;
        }
        assert(new_tiles@ =~= map.tiles@);
        let ghost t = map.tiles@;
        let mut y: i32 = 1;
        while y < SCREEN_HEIGHT - 1
            invariant
                map.wf(),
                map.tiles@ == t,
                1 <= y <= SCREEN_HEIGHT - 1,
                new_tiles@.len() == NUM_TILES,
                forall|cx: int, cy: int|
                    #![trigger tile_of(new_tiles@, cx, cy)]
                    in_bounds_spec(cx, cy) ==> tile_of(new_tiles@, cx, cy) == (if cy < y {
                        smoothed(t, cx, cy)
                    } else {
                        tile_of(t, cx, cy)
                    }),
            decreases SCREEN_HEIGHT - y,
        {
            let mut x: i32 = 1;
            while x < SCREEN_WIDTH - 1
                invariant
                    map.wf(),
                    map.tiles@ == t,
                    1 <= y < SCREEN_HEIGHT - 1,
                    1 <= x <= SCREEN_WIDTH - 1,
                    new_tiles@.len() == NUM_TILES,
                    forall|cx: int, cy: int|
                        #![trigger tile_of(new_tiles@, cx, cy)]
                        in_bounds_spec(cx, cy) ==> tile_of(new_tiles@, cx, cy) == (if cy < y || (cy
                            == y && 1 <= cx < x) {
                            smoothed(t, cx, cy)
                        } else {
                            tile_of(t, cx, cy)
                        }),
                decreases SCREEN_WIDTH - x,
            {
                let tiles = &map.tiles;
                let open = open_count(tiles, x - 1, y - 1) + open_count(tiles, x, y - 1)
                    + open_count(tiles, x + 1, y - 1) + open_count(tiles, x - 1, y)
                    + open_count(tiles, x + 1, y) + open_count(tiles, x - 1, y + 1)
                    + open_count(tiles, x, y + 1) + open_count(tiles, x + 1, y + 1);
                assert(open as int == open_neighbours(t, x as int, y as int));
                let i = map_idx(x, y);
                let ghost before = new_tiles@;
                if open >= 4 {
                    new_tiles.set(i, TileType::Ground);
                } else {
                    new_tiles.set(i, TileType::Wall);
                }
                assert(tile_of(new_tiles@, x as int, y as int) == smoothed(t, x as int, y as int));
                assert forall|cx: int, cy: int| in_bounds_spec(cx, cy) && !(cx == x && cy == y) implies #[trigger] tile_of(new_tiles@, cx, cy) == tile_of(before, cx, cy) by {
                    if idx_spec(cx, cy) == i {
                        lemma_idx_injective(cx, cy, x as int, y as int);
                    }
                }
                x = x + 1;
            }
            y = y + 1;
        }
        map.tiles = new_tiles;
    }

    /// The open cell nearest the middle of the grid, the first in row-major
    /// order among equally near ones; the middle itself where none is open.
    pub fn find_start(&self, map: &TileMap) -> (r: Point)
        requires
            map.wf(),
        ensures
            nearest_open(map.tiles@, r),
            in_bounds_spec(r.x as int, r.y as int),
            (exists|x: int, y: int| passable_at(map.tiles@, x, y)) ==> passable_at(map.tiles@, r.x as int, r.y as int),
            forall|x: int, y: int|
                #[trigger] passable_at(map.tiles@, x, y) ==> dist2_from_center(x, y) >= dist2_from_center(
                    r.x as int,
                    r.y as int,
                ),
            forall|x: int, y: int|
                #[trigger] passable_at(map.tiles@, x, y) && idx_spec(x, y) < idx_spec(r.x as int, r.y as int)
                    ==> dist2_from_center(x, y) > dist2_from_center(r.x as int, r.y as int),
    {
        let mut best = Point::new(50, 30);
        let mut best_d: i32 = 0;
        let mut found = false;
        let mut y: i32 = 0;
        while y < SCREEN_HEIGHT
            invariant
                map.wf(),
                0 <= y <= SCREEN_HEIGHT,
                in_bounds_spec(best.x as int, best.y as int),
                found ==> passable_at(map.tiles@, best.x as int, best.y as int),
                found ==> best_d == dist2_from_center(best.x as int, best.y as int),
                !found ==> best == crate::architects::grid_center(),
                forall|cx: int, cy: int|
                    #[trigger] passable_at(map.tiles@, cx, cy) && cy < y ==> found && dist2_from_center(cx, cy)
                        >= best_d,
                found ==> forall|cx: int, cy: int|
                    #[trigger] passable_at(map.tiles@, cx, cy) && idx_spec(cx, cy) < idx_spec(best.x as int, best.y as int)
                        ==> dist2_from_center(cx, cy) > best_d,
                found ==> idx_spec(best.x as int, best.y as int) < y * 100,
            decreases SCREEN_HEIGHT - y,
        {
            let mut x: i32 = 0;
            while x < SCREEN_WIDTH
                invariant
                    map.wf(),
                    0 <= y < SCREEN_HEIGHT,
                    0 <= x <= SCREEN_WIDTH,
                    in_bounds_spec(best.x as int, best.y as int),
                    found ==> passable_at(map.tiles@, best.x as int, best.y as int),
                    found ==> best_d == dist2_from_center(best.x as int, best.y as int),
                    !found ==> best == crate::architects::grid_center(),
                    forall|cx: int, cy: int|
                        #[trigger] passable_at(map.tiles@, cx, cy) && (cy < y || (cy == y && cx < x))
                            ==> found && dist2_from_center(cx, cy) >= best_d,
                    found ==> forall|cx: int, cy: int|
                        #[trigger] passable_at(map.tiles@, cx, cy) && idx_spec(cx, cy) < idx_spec(best.x as int, best.y as int)
                            ==> dist2_from_center(cx, cy) > best_d,
                    found ==> idx_spec(best.x as int, best.y as int) < y * 100 + x,
                decreases SCREEN_WIDTH - x,
            {
                let p = Point::new(x, y);
                if map.can_enter_tile(p) {
                    let dx = x - 50;
                    let dy = y - 30;
                    assert(0 <= dx * dx <= 2500) by (nonlinear_arith)
                        requires
                            -50 <= dx <= 50,
                    ;
                    assert(0 <= dy * dy <= 900) by (nonlinear_arith)
                        requires
                            -30 <= dy <= 30,
                    ;
                    let d = dx * dx + dy * dy;
                    if !found || d < best_d {
                        best = p;
                        best_d = d;
                        found = true;
                    }
                }
                x = x + 1;
            }
            y = y + 1;
        }
        best
    }

    /// Noise, one smoothing pass, three wide tunnels across the start's rows
    /// and three down a random column, then three more passes. The start is
    /// the open noise cell nearest the middle.
    pub fn build(&mut self, rng: &mut RandomNumberGenerator) -> (r: MapBuilder)
        ensures
            architect_ok(&r),
            r.rooms@.len() == 0,
            r.monster_spawns@.len() == 0,
            exists|noise: Seq<TileType>, s1: Seq<TileType>, t1: Seq<TileType>, s2: Seq<TileType>, s3: Seq<TileType>, vx: int|
                #![trigger smoothing(noise, s1), cave_tunnels(s1, t1, r.player_start.y as int, vx), smoothing(t1, s2), smoothing(s2, s3)]
                noise.len() == NUM_TILES && (forall|i: int| 0 <= i < NUM_TILES ==> #[trigger] noise[i] == TileType::Ground || noise[i] == TileType::Wall)
                    && nearest_open(noise, r.player_start) && 1 <= vx < SCREEN_WIDTH - 10
                    && smoothing(noise, s1) && cave_tunnels(s1, t1, r.player_start.y as int, vx)
                    && smoothing(t1, s2) && smoothing(s2, s3) && smoothing(s3, r.map.tiles@),
    {
        let mut mb = MapBuilder::blank();
        self.random_noise_map(rng, &mut mb.map);
        let ghost noise = mb.map.tiles@;
        proof {
            let rolls = choose|rolls: Seq<i32>|
                rolls.len() == NUM_TILES && (forall|i: int| 0 <= i < NUM_TILES ==> 0 <= #[trigger] rolls[i] < 100)
                    && (forall|i: int| 0 <= i < NUM_TILES ==> #[trigger] noise[i] == noise_tile_spec(rolls[i]));
            assert forall|i: int| 0 <= i < NUM_TILES implies #[trigger] noise[i] == TileType::Ground || noise[i] == TileType::Wall by {
                assert(noise[i] == noise_tile_spec(rolls[i]));
            }
        }
        let player_start = self.find_start(&mb.map);
        self.smooth(&mut mb.map);
        let ghost s1 = mb.map.tiles@;
        mb.apply_horizontal_tunnel(1, SCREEN_WIDTH, player_start.y);
        mb.apply_horizontal_tunnel(1, SCREEN_WIDTH, player_start.y + 1);
        mb.apply_horizontal_tunnel(1, SCREEN_WIDTH, player_start.y + 2);
        let vert_tunnel_x = rng_range(rng, 1, SCREEN_WIDTH - 10);
        mb.apply_vertical_tunnel(10, SCREEN_HEIGHT - 10, vert_tunnel_x);
        mb.apply_vertical_tunnel(10, SCREEN_HEIGHT - 10, vert_tunnel_x + 1);
        mb.apply_vertical_tunnel(10, SCREEN_HEIGHT - 10, vert_tunnel_x + 2);
        let ghost t1 = mb.map.tiles@;
        assert(cave_tunnels(s1, t1, player_start.y as int, vert_tunnel_x as int));
        self.smooth(&mut mb.map);
        let ghost s2 = mb.map.tiles@;
        self.smooth(&mut mb.map);
        let ghost s3 = mb.map.tiles@;
        self.smooth(&mut mb.map);
        mb.player_start = player_start;
        assert(smoothing(noise, s1));
        assert(smoothing(t1, s2));
        assert(smoothing(s2, s3));
        assert(smoothing(s3, mb.map.tiles@));
        mb
    }
}

} // verus!
