//! The generated level and the carving steps that architects combine.
use vstd::prelude::*;
use bracket_lib::random::RandomNumberGenerator;
use crate::geometry::{Point, Rect, rects_intersect, rect_contains};
use crate::map::{
    TileMap, TileType, NUM_TILES, SCREEN_WIDTH, SCREEN_HEIGHT, in_bounds_spec, idx_spec, tile_of};
use crate::rng::rng_range;
use crate::themes::Theme;

verus! {

/// How many rooms the room carver aims for.
pub const NUM_ROOMS: usize = 30;

/// How many candidate rectangles a placement step may draw before it gives up.
pub const MAX_ATTEMPTS: u32 = 10000;

pub open spec fn rect_on_grid(r: Rect) -> bool {
    0 <= r.x1 <= r.x2 < SCREEN_WIDTH && 0 <= r.y1 <= r.y2 < SCREEN_HEIGHT
}

/// No two of the rectangles share a cell.
pub open spec fn rooms_disjoint(rooms: Seq<Rect>) -> bool {
    forall|i: int, j: int|
        0 <= i < j < rooms.len() ==> !#[trigger] rects_intersect(rooms[i], rooms[j])
}

/// Some rectangle at position `from` or later covers `(x, y)`.
pub open spec fn covered(rooms: Seq<Rect>, from: int, x: int, y: int) -> bool {
    exists|j: int| from <= j < rooms.len() && #[trigger] rect_contains(rooms[j], x, y)
}

/// A level: its grid, the rectangles placed on it in order, where monsters
/// appear, where the player starts and where the objective lies.
pub struct MapBuilder {
    pub map: TileMap,
    pub rooms: Vec<Rect>,
    pub monster_spawns: Vec<Point>,
    pub player_start: Point,
    pub egg_start: Point,
    pub theme: Theme,
}

impl MapBuilder {
    pub open spec fn wf(&self) -> bool {
        &&& self.map.wf()
        &&& forall|i: int| 0 <= i < self.rooms@.len() ==> #[trigger] rect_on_grid(self.rooms@[i])
    }

    /// Everything but the tiles is as in `other`.
    pub open spec fn same_but_tiles(&self, other: &MapBuilder) -> bool {
        &&& self.rooms@ == other.rooms@
        &&& self.monster_spawns@ == other.monster_spawns@
        &&& self.player_start == other.player_start
        &&& self.egg_start == other.egg_start
        &&& self.theme == other.theme
        &&& self.map.revealed_tiles@ == other.map.revealed_tiles@
    }

    /// An all-`Ground` level with no rooms, starting at the origin.
    pub fn blank() -> (r: MapBuilder)
        ensures
            r.wf(),
            r.rooms@.len() == 0,
            r.monster_spawns@.len() == 0,
            forall|i: int| 0 <= i < NUM_TILES ==> r.map.tiles@[i] == TileType::Ground,
    {
        MapBuilder {
            map: TileMap::new(),
            rooms: Vec::new(),
            monster_spawns: Vec::new(),
            player_start: Point::zero(),
            egg_start: Point::zero(),
            theme: Theme::Dungeon,
        }
    }

    pub fn fill(&mut self, tile: TileType)
        requires
            old(self).wf(),
        ensures
            final(self).wf(),
            final(self).same_but_tiles(old(self)),
            forall|i: int| 0 <= i < NUM_TILES ==> final(self).map.tiles@[i] == tile,
    {
        self.map.fill(tile);
    }

    /// Sets every cell of `rect` to `tile`.
    pub fn apply_tiles_to_map(&mut self, rect: &Rect, tile: TileType)
        requires
            old(self).wf(),
            rect_on_grid(*rect),
        ensures
            final(self).wf(),
            final(self).same_but_tiles(old(self)),
            forall|x: int, y: int|
                #![trigger tile_of(final(self).map.tiles@, x, y)]
                in_bounds_spec(x, y) ==> tile_of(final(self).map.tiles@, x, y) == (if rect_contains(
                    *rect,
                    x,
                    y,
                ) {
                    tile
                } else {
                    tile_of(old(self).map.tiles@, x, y)
                }),
    {
        self.map.apply_tiles(rect, tile);
        assert forall|x: int, y: int| in_bounds_spec(x, y) implies #[trigger] tile_of(
            self.map.tiles@,
            x,
            y,
        ) == (if rect_contains(*rect, x, y) {
            tile
        } else {
            tile_of(old(self).map.tiles@, x, y)
        }) by {
            assert(self.map.tiles@[idx_spec(x, y)] == self.map.tiles@[idx_spec(x, y)]);
        }
    }

    /// Opens row `y` between columns `x1` and `x2` (in either order) as
    /// `Ground`, leaving out what lies off the grid.
    pub fn apply_horizontal_tunnel(&mut self, x1: i32, x2: i32, y: i32)
        requires
            old(self).wf(),
        ensures
            final(self).wf(),
            final(self).same_but_tiles(old(self)),
            forall|cx: int, cy: int|
                #![trigger tile_of(final(self).map.tiles@, cx, cy)]
                in_bounds_spec(cx, cy) ==> tile_of(final(self).map.tiles@, cx, cy) == (if cy == y
                    && (x1 <= cx <= x2 || x2 <= cx <= x1) {
                    TileType::Ground
                } else {
                    tile_of(old(self).map.tiles@, cx, cy)
                }),
    {
        let lo = if x1 < x2 {x1 } else { x2 };
        let hi = if x1 < x2 {x2 } else { x1 };
        if y < 0 || y >= SCREEN_HEIGHT || hi < 0 || lo >= SCREEN_WIDTH {
            return ;
        }
        let lo = if lo < 0 {0 } else { lo };
        let hi = if hi >= SCREEN_WIDTH {SCREEN_WIDTH - 1 } else { hi };
        let rect = Rect {x1: lo, y1: y, x2: hi, y2: y };
        self.apply_tiles_to_map(&rect, TileType::Ground);
    }

    /// Opens column `x` between rows `y1` and `y2` (in either order) as
    /// `Ground`, leaving out what lies off the grid.
    pub fn apply_vertical_tunnel(&mut self, y1: i32, y2: i32, x: i32)
        requires
            old(self).wf(),
        ensures
            final(self).wf(),
            final(self).same_but_tiles(old(self)),
            forall|cx: int, cy: int|
                #![trigger tile_of(final(self).map.tiles@, cx, cy)]
                in_bounds_spec(cx, cy) ==> tile_of(final(self).map.tiles@, cx, cy) == (if cx == x
                    && (y1 <= cy <= y2 || y2 <= cy <= y1) {
                    TileType::Ground
                } else {
                    tile_of(old(self).map.tiles@, cx, cy)
                }),
    {
        let lo = if y1 < y2 {y1 } else { y2 };
        let hi = if y1 < y2 {y2 } else { y1 };
        if x < 0 || x >= SCREEN_WIDTH || hi < 0 || lo >= SCREEN_HEIGHT {
            return ;
        }
        let lo = if lo < 0 {0 } else { lo };
        let hi = if hi >= SCREEN_HEIGHT {SCREEN_HEIGHT - 1 } else { hi };
        let rect = Rect {x1: x, y1: lo, x2: x, y2: hi };
        self.apply_tiles_to_map(&rect, TileType::Ground);
    }

    /// Whether `room` shares a cell with one of the rooms placed so far.
    pub fn overlaps_any(&self, room: &Rect) -> (r: bool)
        ensures
            r == exists|j: int| 0 <= j < self.rooms@.len() && #[trigger] rects_intersect(self.rooms@[j], *room),
    {
        let mut j: usize = 0;
        while j < self.rooms.len()
            invariant
                j <= self.rooms@.len(),
                forall|k: int| 0 <= k < j ==> !#[trigger] rects_intersect(self.rooms@[k], *room),
            decreases self.rooms@.len() - j,
        {
            if self.rooms[j].intersect(room) {
                return true;
            }
            j = j + 1;
        }
        false
    }

    /// Draws a rectangle that spans between `widths.0` and `widths.1 - 1`
    /// steps across, likewise down, and lies on the grid with a margin on its
    /// right and bottom.
    fn random_rect(rng: &mut RandomNumberGenerator, widths: (i32, i32), heights: (i32, i32)) -> (r: Rect)
        requires
            1 <= widths.0 < widths.1 <= 90,
            1 <= heights.0 < heights.1 <= 50,
        ensures
            rect_on_grid(r),
            widths.0 <= r.x2 - r.x1 < widths.1,
            heights.0 <= r.y2 - r.y1 < heights.1,
    {
        let w = rng_range(rng, widths.0, widths.1);
        let h = rng_range(rng, heights.0, heights.1);
        let x = rng_range(rng, 1, SCREEN_WIDTH - w - 1) - 1;
        let y = rng_range(rng, 1, SCREEN_HEIGHT - h - 1) - 1;
        Rect::with_size(x, y, w, h)
    }

    /// Draws rooms until `NUM_ROOMS` are placed or `MAX_ATTEMPTS` draws are
    /// spent, and carves each accepted room with `fill_tile`. Without
    /// `allow_overlap` a draw that meets an earlier room is rejected.
    pub fn carve_random_rooms(
        &mut self,
        rng: &mut RandomNumberGenerator,
        fill_tile: TileType,
        widths: (i32, i32),
        heights: (i32, i32),
        allow_overlap: bool,
    )
        requires
            old(self).wf(),
            1 <= widths.0 < widths.1 <= 90,
            1 <= heights.0 < heights.1 <= 50,
            !allow_overlap ==> rooms_disjoint(old(self).rooms@),
        ensures
            final(self).wf(),
            final(self).monster_spawns@ == old(self).monster_spawns@,
            final(self).player_start == old(self).player_start,
            final(self).egg_start == old(self).egg_start,
            final(self).theme == old(self).theme,
            final(self).map.revealed_tiles@ == old(self).map.revealed_tiles@,
            final(self).rooms@.len() >= old(self).rooms@.len(),
            final(self).rooms@.subrange(0, old(self).rooms@.len() as int) == old(self).rooms@,
            old(self).rooms@.len() < NUM_ROOMS ==> final(self).rooms@.len() <= NUM_ROOMS,
            (old(self).rooms@.len() == 0 || allow_overlap) && old(self).rooms@.len() < NUM_ROOMS
                ==> final(self).rooms@.len() > old(self).rooms@.len(),
            !allow_overlap ==> rooms_disjoint(final(self).rooms@),
            forall|j: int|
                old(self).rooms@.len() <= j < final(self).rooms@.len() ==> widths.0 <= (
                #[trigger] final(self).rooms@[j]).x2 - final(self).rooms@[j].x1 < widths.1
                    && heights.0 <= final(self).rooms@[j].y2 - final(self).rooms@[j].y1
                    < heights.1,
            forall|x: int, y: int|
                #![trigger tile_of(final(self).map.tiles@, x, y)]
                in_bounds_spec(x, y) ==> tile_of(final(self).map.tiles@, x, y) == (if covered(
                    final(self).rooms@,
                    old(self).rooms@.len() as int,
                    x,
                    y,
                ) {
                    fill_tile
                } else {
                    tile_of(old(self).map.tiles@, x, y)
                }),
    {
        let ghost start = old(self).rooms@.len() as int;
        let mut attempts: u32 = 0;
        while self.rooms.len() < NUM_ROOMS && attempts < MAX_ATTEMPTS
            invariant
                self.wf(),
                1 <= widths.0 < widths.1 <= 90,
                1 <= heights.0 < heights.1 <= 50,
                start == old(self).rooms@.len(),
                self.monster_spawns@ == old(self).monster_spawns@,
                self.player_start == old(self).player_start,
                self.egg_start == old(self).egg_start,
                self.theme == old(self).theme,
                self.map.revealed_tiles@ == old(self).map.revealed_tiles@,
                self.rooms@.len() >= start,
                self.rooms@.subrange(0, start) == old(self).rooms@,
                start < NUM_ROOMS ==> self.rooms@.len() <= NUM_ROOMS,
                (start == 0 || allow_overlap) && start < NUM_ROOMS && attempts > 0 ==> self.rooms@.len() > start,
                (start == 0 || allow_overlap) && start < NUM_ROOMS && attempts == 0 ==> self.rooms@.len() == start,
                !allow_overlap ==> rooms_disjoint(self.rooms@),
                forall|j: int|
                    start <= j < self.rooms@.len() ==> widths.0 <= (#[trigger] self.rooms@[j]).x2
                        - self.rooms@[j].x1 < widths.1 && heights.0 <= self.rooms@[j].y2
                        - self.rooms@[j].y1 < heights.1,
                forall|x: int, y: int|
                    #![trigger tile_of(self.map.tiles@, x, y)]
                    in_bounds_spec(x, y) ==> tile_of(self.map.tiles@, x, y) == (if covered(
                        self.rooms@,
                        start,
                        x,
                        y,
                    ) {
                        fill_tile
                    } else {
                        tile_of(old(self).map.tiles@, x, y)
                    }),
            decreases MAX_ATTEMPTS - attempts,
        {
            attempts = attempts + 1;
            let room = MapBuilder::random_rect(rng, widths, heights);
            let overlap = self.overlaps_any(&room);
            if !overlap || allow_overlap {
                let ghost before = self.rooms@;
                let ghost tiles_before = self.map.tiles@;
                self.apply_tiles_to_map(&room, fill_tile);
                self.rooms.push(room);
                proof {
                    assert(self.rooms@.subrange(0, start) =~= before.subrange(0, start));
                    assert forall|x: int, y: int| in_bounds_spec(x, y) implies #[trigger] tile_of(
                        self.map.tiles@,
                        x,
                        y,
                    ) == (if covered(self.rooms@, start, x, y) {
                        fill_tile
                    } else {
                        tile_of(old(self).map.tiles@, x, y)
                    }) by {
                        let n = before.len() as int;
                        if covered(before, start, x, y) {
                            let j = choose|j: int| start <= j < before.len() && #[trigger] rect_contains(before[j], x, y);
                            assert(self.rooms@[j] == before[j]);
                        }
                        if rect_contains(room, x, y) {
                            assert(self.rooms@[n] == room);
                        }
                        if covered(self.rooms@, start, x, y) {
                            let j = choose|j: int| start <= j < self.rooms@.len() && #[trigger] rect_contains(self.rooms@[j], x, y);
                            if j < n {
                                assert(before[j] == self.rooms@[j]);
                            }
                        }
                    }
                    if !allow_overlap {
                        assert forall|i: int, j: int|
                            0 <= i < j < self.rooms@.len() implies !#[trigger] rects_intersect(
                            self.rooms@[i],
                            self.rooms@[j],
                        ) by {
                            if j == before.len() {
                                assert(self.rooms@[i] == before[i]);
                            } else {
                                assert(self.rooms@[i] == before[i]);
                                assert(self.rooms@[j] == before[j]);
                            }
                        }
                    }
                }
            }
        }
    }
}

} // verus!

verus! {

/// Each side of `r` holds a door strictly between its corners.
pub open spec fn room_has_doors(tiles: Seq<TileType>, r: Rect) -> bool {
    &&& exists|cx: int| r.x1 < cx < r.x2 && #[trigger] tile_of(tiles, cx, r.y1 as int) == TileType::Door
    &&& exists|cx: int| r.x1 < cx < r.x2 && #[trigger] tile_of(tiles, cx, r.y2 as int) == TileType::Door
    &&& exists|cy: int| r.y1 < cy < r.y2 && #[trigger] tile_of(tiles, r.x1 as int, cy) == TileType::Door
    &&& exists|cy: int| r.y1 < cy < r.y2 && #[trigger] tile_of(tiles, r.x2 as int, cy) == TileType::Door
}

/// `after` differs from `before` only by cells set to `tile`.
pub open spec fn only_adds(before: Seq<TileType>, after: Seq<TileType>, tile: TileType) -> bool {
    forall|x: int, y: int|
        #![trigger tile_of(after, x, y)]
        in_bounds_spec(x, y) ==> (tile_of(after, x, y) == tile_of(before, x, y) || tile_of(after, x, y) == tile)
}

proof fn lemma_doors_kept(before: Seq<TileType>, after: Seq<TileType>, r: Rect)
    requires
        rect_on_grid(r),
        room_has_doors(before, r),
        only_adds(before, after, TileType::Door),
    ensures
        room_has_doors(after, r),
{
    let a = choose|cx: int| r.x1 < cx < r.x2 && #[trigger] tile_of(before, cx, r.y1 as int) == TileType::Door;
    assert(tile_of(after, a, r.y1 as int) == TileType::Door);
    let b = choose|cx: int| r.x1 < cx < r.x2 && #[trigger] tile_of(before, cx, r.y2 as int) == TileType::Door;
    assert(tile_of(after, b, r.y2 as int) == TileType::Door);
    let c = choose|cy: int| r.y1 < cy < r.y2 && #[trigger] tile_of(before, r.x1 as int, cy) == TileType::Door;
    assert(tile_of(after, r.x1 as int, c) == TileType::Door);
    let d = choose|cy: int| r.y1 < cy < r.y2 && #[trigger] tile_of(before, r.x2 as int, cy) == TileType::Door;
    assert(tile_of(after, r.x2 as int, d) == TileType::Door);
}

/// Relies on `slice::sort_by_key`: the same points, ordered by column.
#[verifier::external_body]
fn sort_by_x(v: &mut Vec<Point>)
    ensures
        final(v)@.to_multiset() == old(v)@.to_multiset(),
        forall|i: int, j: int| 0 <= i < j < final(v)@.len() ==> final(v)@[i].x <= final(v)@[j].x,
{
    v.sort_by_key(|p| p.x)
}

/// The doors of the first `n` rooms: `ls[k]`, `ts[k]`, `rs[k]` and `bs[k]`
/// lie strictly inside the left, top, right and bottom sides of `rooms[k]`.
pub open spec fn sides_ok(rooms: Seq<Rect>, ls: Seq<Point>, ts: Seq<Point>, rs: Seq<Point>, bs: Seq<Point>, n: int) -> bool {
    &&& ls.len() == n && ts.len() == n && rs.len() == n && bs.len() == n
    &&& forall|k: int|
        0 <= k < n ==> {
            let r = #[trigger] rooms[k];
            &&& ls[k].x == r.x1 && r.y1 < ls[k].y < r.y2
            &&& ts[k].y == r.y1 && r.x1 < ts[k].x < r.x2
            &&& rs[k].x == r.x2 && r.y1 < rs[k].y < r.y2
            &&& bs[k].y == r.y2 && r.x1 < bs[k].x < r.x2
        }
}

/// `(x, y)` is one of the four doors of room `k`.
pub open spec fn door_at(ls: Seq<Point>, ts: Seq<Point>, rs: Seq<Point>, bs: Seq<Point>, k: int, x: int, y: int) -> bool {
    (ls[k].x == x && ls[k].y == y) || (ts[k].x == x && ts[k].y == y) || (rs[k].x == x && rs[k].y == y) || (bs[k].x
        == x && bs[k].y == y)
}

/// `(x, y)` is a door of one of the first `n` rooms.
pub open spec fn is_door(ls: Seq<Point>, ts: Seq<Point>, rs: Seq<Point>, bs: Seq<Point>, n: int, x: int, y: int) -> bool {
    exists|k: int| 0 <= k < n && #[trigger] door_at(ls, ts, rs, bs, k, x, y)
}

/// Each side of `r` holds exactly one door strictly between its corners.
pub open spec fn one_door_per_side(t: Seq<TileType>, r: Rect) -> bool {
    &&& room_has_doors(t, r)
    &&& forall|a: int, b: int|
        r.x1 < a < r.x2 && r.x1 < b < r.x2 && #[trigger] tile_of(t, a, r.y1 as int) == TileType::Door
            && #[trigger] tile_of(t, b, r.y1 as int) == TileType::Door ==> a == b
    &&& forall|a: int, b: int|
        r.x1 < a < r.x2 && r.x1 < b < r.x2 && #[trigger] tile_of(t, a, r.y2 as int) == TileType::Door
            && #[trigger] tile_of(t, b, r.y2 as int) == TileType::Door ==> a == b
    &&& forall|a: int, b: int|
        r.y1 < a < r.y2 && r.y1 < b < r.y2 && #[trigger] tile_of(t, r.x1 as int, a) == TileType::Door
            && #[trigger] tile_of(t, r.x1 as int, b) == TileType::Door ==> a == b
    &&& forall|a: int, b: int|
        r.y1 < a < r.y2 && r.y1 < b < r.y2 && #[trigger] tile_of(t, r.x2 as int, a) == TileType::Door
            && #[trigger] tile_of(t, r.x2 as int, b) == TileType::Door ==> a == b
}

/// A door on a cell of room `k` is one of room `k`'s own doors when the
/// rooms do not overlap.
proof fn lemma_door_owner(rooms: Seq<Rect>, ls: Seq<Point>, ts: Seq<Point>, rs: Seq<Point>, bs: Seq<Point>, n: int, k: int, x: int, y: int)
    requires
        n == rooms.len(),
        sides_ok(rooms, ls, ts, rs, bs, n),
        rooms_disjoint(rooms),
        0 <= k < n,
        rect_contains(rooms[k], x, y),
        is_door(ls, ts, rs, bs, n, x, y),
    ensures
        door_at(ls, ts, rs, bs, k, x, y),
{
    let m = choose|m: int| 0 <= m < n && #[trigger] door_at(ls, ts, rs, bs, m, x, y);
    let rm = rooms[m];
    let rk = rooms[k];
    assert(rect_contains(rm, x, y));
    if m < k {
        assert(!rects_intersect(rooms[m], rooms[k]));
    } else if k < m {
        assert(!rects_intersect(rooms[k], rooms[m]));
    }
}

/// Where the rooms do not overlap and no door stood before, `apply_doors`
/// leaves exactly one door on each side of every room.
proof fn lemma_one_door(rooms: Seq<Rect>, before: Seq<TileType>, after: Seq<TileType>, ls: Seq<Point>, ts: Seq<Point>, rs: Seq<Point>, bs: Seq<Point>, k: int)
    requires
        sides_ok(rooms, ls, ts, rs, bs, rooms.len() as int),
        rooms_disjoint(rooms),
        0 <= k < rooms.len(),
        rect_on_grid(rooms[k]),
        rooms[k].x1 + 2 <= rooms[k].x2 && rooms[k].y1 + 2 <= rooms[k].y2,
        forall|x: int, y: int| #![trigger tile_of(before, x, y)] in_bounds_spec(x, y) ==> tile_of(before, x, y) != TileType::Door,
        forall|x: int, y: int|
            #![trigger tile_of(after, x, y)]
            in_bounds_spec(x, y) ==> tile_of(after, x, y) == (if is_door(ls, ts, rs, bs, rooms.len() as int, x, y) {
                TileType::Door
            } else {
                tile_of(before, x, y)
            }),
        room_has_doors(after, rooms[k]),
    ensures
        one_door_per_side(after, rooms[k]),
{
    let r = rooms[k];
    let n = rooms.len() as int;
    assert forall|a: int| r.x1 < a < r.x2 && #[trigger] tile_of(after, a, r.y1 as int) == TileType::Door implies a == ts[k].x by {
        lemma_door_owner(rooms, ls, ts, rs, bs, n, k, a, r.y1 as int);
    }
    assert forall|a: int| r.x1 < a < r.x2 && #[trigger] tile_of(after, a, r.y2 as int) == TileType::Door implies a == bs[k].x by {
        lemma_door_owner(rooms, ls, ts, rs, bs, n, k, a, r.y2 as int);
    }
    assert forall|a: int| r.y1 < a < r.y2 && #[trigger] tile_of(after, r.x1 as int, a) == TileType::Door implies a == ls[k].y by {
        lemma_door_owner(rooms, ls, ts, rs, bs, n, k, r.x1 as int, a);
    }
    assert forall|a: int| r.y1 < a < r.y2 && #[trigger] tile_of(after, r.x2 as int, a) == TileType::Door implies a == rs[k].y by {
        lemma_door_owner(rooms, ls, ts, rs, bs, n, k, r.x2 as int, a);
    }
}

/// `(x, y)` lies on the outer ring of `r`.
pub open spec fn in_ring(r: Rect, x: int, y: int) -> bool {
    rect_contains(r, x, y) && (x == r.x1 || x == r.x2 || y == r.y1 || y == r.y2)
}

/// Some rectangle at position `from` or later has `(x, y)` on its ring.
pub open spec fn ring_covered(rooms: Seq<Rect>, from: int, x: int, y: int) -> bool {
    exists|j: int| from <= j < rooms.len() && #[trigger] in_ring(rooms[j], x, y)
}

/// `j` is the last rectangle at position `from` or later that covers
/// `(x, y)`.
pub open spec fn last_cover(rooms: Seq<Rect>, from: int, j: int, x: int, y: int) -> bool {
    &&& from <= j < rooms.len()
    &&& rect_contains(rooms[j], x, y)
    &&& forall|k: int| j < k < rooms.len() ==> !#[trigger] rect_contains(rooms[k], x, y)
}

/// `v` lies between `a` and `b`, in either order.
pub open spec fn between(v: int, a: int, b: int) -> bool {
    (a <= v <= b) || (b <= v <= a)
}

/// `(x, y)` lies on the L-shaped path from `a` to `b` that goes along `a`'s
/// row first when `row_first`, along `a`'s column first otherwise.
pub open spec fn on_l(a: Point, b: Point, row_first: bool, x: int, y: int) -> bool {
    if row_first {
        (y == a.y && between(x, a.x as int, b.x as int)) || (x == b.x && between(y, a.y as int, b.y as int))
    } else {
        (x == a.x && between(y, a.y as int, b.y as int)) || (y == b.y && between(x, a.x as int, b.x as int))
    }
}

/// `(x, y)` lies on one of the paths joining `s[i - 1]` to `s[i]` for
/// `1 <= i < n`, bent as `bends[i]` says.
pub open spec fn on_corridor(s: Seq<Point>, bends: Seq<bool>, n: int, x: int, y: int) -> bool {
    exists|i: int| 1 <= i < n && #[trigger] on_l(s[i - 1], s[i], bends[i], x, y)
}

/// The centres of `rooms`, in order.
pub open spec fn centers_of(rooms: Seq<Rect>) -> Seq<Point> {
    Seq::new(rooms.len(), |i: int| rooms[i].center_spec())
}

/// `s` is ordered by column.
pub open spec fn by_column(s: Seq<Point>) -> bool {
    forall|i: int, j: int| 0 <= i < j < s.len() ==> s[i].x <= s[j].x
}

/// The corridors of `rooms`: `s` holds their centres ordered by column, and
/// exactly the cells on the L-shaped paths between consecutive centres are
/// open in `after`; every other cell is as in `before`.
pub open spec fn corridors_carved(rooms: Seq<Rect>, before: Seq<TileType>, after: Seq<TileType>, s: Seq<Point>, bends: Seq<bool>) -> bool {
    &&& s.to_multiset() == centers_of(rooms).to_multiset()
    &&& by_column(s)
    &&& bends.len() == s.len()
    &&& forall|x: int, y: int|
        #![trigger tile_of(after, x, y)]
        in_bounds_spec(x, y) ==> tile_of(after, x, y) == (if on_corridor(s, bends, s.len() as int, x, y) {
            TileType::Ground
        } else {
            tile_of(before, x, y)
        })
}

impl MapBuilder {
    /// Draws `num_of_buildings` rectangles; each accepted one gets a ring of
    /// `wall_tile` around an interior of `inner_tile`. Without
    /// `allow_overlap` a draw that meets an earlier room is rejected.
    pub fn place_random_buildings(
        &mut self,
        num_of_buildings: usize,
        rng: &mut RandomNumberGenerator,
        wall_tile: TileType,
        inner_tile: TileType,
        widths: (i32, i32),
        heights: (i32, i32),
        allow_overlap: bool,
    )
        requires
            old(self).wf(),
            2 <= widths.0 < widths.1 <= 90,
            2 <= heights.0 < heights.1 <= 50,
            !allow_overlap ==> rooms_disjoint(old(self).rooms@),
            old(self).rooms@.len() + num_of_buildings <= usize::MAX,
        ensures
            final(self).wf(),
            final(self).monster_spawns@ == old(self).monster_spawns@,
            final(self).player_start == old(self).player_start,
            final(self).egg_start == old(self).egg_start,
            final(self).theme == old(self).theme,
            final(self).map.revealed_tiles@ == old(self).map.revealed_tiles@,
            old(self).rooms@.len() <= final(self).rooms@.len() <= old(self).rooms@.len()
                + num_of_buildings,
            (old(self).rooms@.len() == 0 || allow_overlap) && num_of_buildings > 0
                ==> final(self).rooms@.len() > old(self).rooms@.len(),
            final(self).rooms@.subrange(0, old(self).rooms@.len() as int) == old(self).rooms@,
            !allow_overlap ==> rooms_disjoint(final(self).rooms@),
            allow_overlap ==> final(self).rooms@.len() == old(self).rooms@.len() + num_of_buildings,
            forall|j: int, x: int, y: int|
                in_bounds_spec(x, y) && #[trigger] last_cover(final(self).rooms@, old(self).rooms@.len() as int, j, x, y)
                    ==> tile_of(final(self).map.tiles@, x, y) == (if in_ring(final(self).rooms@[j], x, y) {
                        wall_tile
                    } else {
                        inner_tile
                    }),
            !allow_overlap ==> forall|x: int, y: int|
                #![trigger tile_of(final(self).map.tiles@, x, y)]
                in_bounds_spec(x, y) ==> tile_of(final(self).map.tiles@, x, y) == (if ring_covered(
                    final(self).rooms@,
                    old(self).rooms@.len() as int,
                    x,
                    y,
                ) {
                    wall_tile
                } else if covered(final(self).rooms@, old(self).rooms@.len() as int, x, y) {
                    inner_tile
                } else {
                    tile_of(old(self).map.tiles@, x, y)
                }),
            forall|j: int|
                old(self).rooms@.len() <= j < final(self).rooms@.len() ==> widths.0 <= (
                #[trigger] final(self).rooms@[j]).x2 - final(self).rooms@[j].x1 < widths.1
                    && heights.0 <= final(self).rooms@[j].y2 - final(self).rooms@[j].y1
                    < heights.1,
            forall|x: int, y: int|
                #![trigger tile_of(final(self).map.tiles@, x, y)]
                in_bounds_spec(x, y) ==> if covered(
                    final(self).rooms@,
                    old(self).rooms@.len() as int,
                    x,
                    y,
                ) {
                    tile_of(final(self).map.tiles@, x, y) == wall_tile || tile_of(
                        final(self).map.tiles@,
                        x,
                        y,
                    ) == inner_tile
                } else {
                    tile_of(final(self).map.tiles@, x, y) == tile_of(old(self).map.tiles@, x, y)
                },
    {
        let ghost start = old(self).rooms@.len() as int;
        let mut n: usize = 0;
        while n < num_of_buildings
            invariant
                self.wf(),
                n <= num_of_buildings,
                2 <= widths.0 < widths.1 <= 90,
                2 <= heights.0 < heights.1 <= 50,
                start == old(self).rooms@.len(),
                start + num_of_buildings <= usize::MAX,
                self.monster_spawns@ == old(self).monster_spawns@,
                self.player_start == old(self).player_start,
                self.egg_start == old(self).egg_start,
                self.theme == old(self).theme,
                self.map.revealed_tiles@ == old(self).map.revealed_tiles@,
                start <= self.rooms@.len() <= start + n,
                (start == 0 || allow_overlap) && n > 0 ==> self.rooms@.len() > start,
                (start == 0 || allow_overlap) && n == 0 ==> self.rooms@.len() == start,
                self.rooms@.subrange(0, start) == old(self).rooms@,
                !allow_overlap ==> rooms_disjoint(self.rooms@),
                allow_overlap ==> self.rooms@.len() == start + n,
                forall|j: int, x: int, y: int|
                    in_bounds_spec(x, y) && #[trigger] last_cover(self.rooms@, start, j, x, y)
                        ==> tile_of(self.map.tiles@, x, y) == (if in_ring(self.rooms@[j], x, y) {
                            wall_tile
                        } else {
                            inner_tile
                        }),
                !allow_overlap ==> forall|x: int, y: int|
                    #![trigger tile_of(self.map.tiles@, x, y)]
                    in_bounds_spec(x, y) ==> tile_of(self.map.tiles@, x, y) == (if ring_covered(self.rooms@, start, x, y) {
                        wall_tile
                    } else if covered(self.rooms@, start, x, y) {
                        inner_tile
                    } else {
                        tile_of(old(self).map.tiles@, x, y)
                    }),
                forall|j: int|
                    start <= j < self.rooms@.len() ==> widths.0 <= (#[trigger] self.rooms@[j]).x2
                        - self.rooms@[j].x1 < widths.1 && heights.0 <= self.rooms@[j].y2
                        - self.rooms@[j].y1 < heights.1,
                forall|x: int, y: int|
                    #![trigger tile_of(self.map.tiles@, x, y)]
                    in_bounds_spec(x, y) ==> if covered(self.rooms@, start, x, y) {
                        tile_of(self.map.tiles@, x, y) == wall_tile || tile_of(self.map.tiles@, x, y)
                            == inner_tile
                    } else {
                        tile_of(self.map.tiles@, x, y) == tile_of(old(self).map.tiles@, x, y)
                    },
            decreases num_of_buildings - n,
        {
            n = n + 1;
            let building = MapBuilder::random_rect(rng, widths, heights);
            let cavity = Rect {
                x1: building.x1 + 1,
                y1: building.y1 + 1,
                x2: building.x2 - 1,
                y2: building.y2 - 1,
            };
            let overlap = self.overlaps_any(&building);
            if !overlap || allow_overlap {
                let ghost before = self.rooms@;
                let ghost tb = self.map.tiles@;
                self.apply_tiles_to_map(&building, wall_tile);
                self.apply_tiles_to_map(&cavity, inner_tile);
                self.rooms.push(building);
                proof {
                    assert(self.rooms@.subrange(0, start) =~= before.subrange(0, start));
                    assert forall|x: int, y: int| in_bounds_spec(x, y) implies (if covered(
                        self.rooms@,
                        start,
                        x,
                        y,
                    ) {
                        #[trigger] tile_of(self.map.tiles@, x, y) == wall_tile || tile_of(
                            self.map.tiles@,
                            x,
                            y,
                        ) == inner_tile
                    } else {
                        tile_of(self.map.tiles@, x, y) == tile_of(old(self).map.tiles@, x, y)
                    }) by {
                        let k = before.len() as int;
                        if covered(before, start, x, y) {
                            let j = choose|j: int| start <= j < before.len() && #[trigger] rect_contains(before[j], x, y);
                            assert(self.rooms@[j] == before[j]);
                        }
                        if rect_contains(building, x, y) {
                            assert(self.rooms@[k] == building);
                        }
                        if covered(self.rooms@, start, x, y) {
                            let j = choose|j: int| start <= j < self.rooms@.len() && #[trigger] rect_contains(self.rooms@[j], x, y);
                            if j < k {
                                assert(before[j] == self.rooms@[j]);
                            }
                        }
                    }
                    assert forall|j: int, x: int, y: int|
                        in_bounds_spec(x, y) && #[trigger] last_cover(self.rooms@, start, j, x, y)
                            implies tile_of(self.map.tiles@, x, y) == (if in_ring(self.rooms@[j], x, y) {
                                wall_tile
                            } else {
                                inner_tile
                            }) by {
                        let k = before.len() as int;
                        assert(self.rooms@[k] == building);
                        if j < k {
                            assert(self.rooms@[j] == before[j]);
                            assert(!rect_contains(self.rooms@[k], x, y));
                            assert forall|m: int| j < m < before.len() implies !#[trigger] rect_contains(before[m], x, y) by {
                                assert(self.rooms@[m] == before[m]);
                            }
                            assert(last_cover(before, start, j, x, y));
                        }
                    }
                    if !allow_overlap {
                        assert forall|x: int, y: int| in_bounds_spec(x, y) implies #[trigger] tile_of(self.map.tiles@, x, y) == (
                        if ring_covered(self.rooms@, start, x, y) {
                            wall_tile
                        } else if covered(self.rooms@, start, x, y) {
                            inner_tile
                        } else {
                            tile_of(old(self).map.tiles@, x, y)
                        }) by {
                            let k = before.len() as int;
                            assert(self.rooms@[k] == building);
                            assert(tile_of(tb, x, y) == (if ring_covered(before, start, x, y) {
                                wall_tile
                            } else if covered(before, start, x, y) {
                                inner_tile
                            } else {
                                tile_of(old(self).map.tiles@, x, y)
                            }));
                            if rect_contains(building, x, y) {
                                assert forall|j: int| start <= j < before.len() implies !#[trigger] rect_contains(before[j], x, y) by {
                                    assert(!rects_intersect(before[j], building));
                                }
                                if in_ring(building, x, y) {
                                    assert(ring_covered(self.rooms@, start, x, y));
                                } else {
                                    assert(covered(self.rooms@, start, x, y));
                                    if ring_covered(self.rooms@, start, x, y) {
                                        let j = choose|j: int| start <= j < self.rooms@.len() && #[trigger] in_ring(self.rooms@[j], x, y);
                                        assert(self.rooms@[j] == before[j]);
                                    }
                                }
                                if covered(before, start, x, y) {
                                    let j = choose|j: int| start <= j < before.len() && #[trigger] rect_contains(before[j], x, y);
                                }
                                if ring_covered(before, start, x, y) {
                                    let j = choose|j: int| start <= j < before.len() && #[trigger] in_ring(before[j], x, y);
                                }
                            } else {
                                if ring_covered(before, start, x, y) {
                                    let j = choose|j: int| start <= j < before.len() && #[trigger] in_ring(before[j], x, y);
                                    assert(self.rooms@[j] == before[j]);
                                    assert(ring_covered(self.rooms@, start, x, y));
                                }
                                if ring_covered(self.rooms@, start, x, y) {
                                    let j = choose|j: int| start <= j < self.rooms@.len() && #[trigger] in_ring(self.rooms@[j], x, y);
                                    assert(before[j] == self.rooms@[j]);
                                    assert(ring_covered(before, start, x, y));
                                }
                            }
                        }
                        assert forall|i: int, j: int|
                            0 <= i < j < self.rooms@.len() implies !#[trigger] rects_intersect(
                            self.rooms@[i],
                            self.rooms@[j],
                        ) by {
                            assert(self.rooms@[i] == before[i]);
                            if j < before.len() {
                                assert(self.rooms@[j] == before[j]);
                            }
                        }
                    }
                }
            }
        }
    }

    /// Opens one door strictly inside each of the four sides of every room.
    pub fn apply_doors(&mut self, rng: &mut RandomNumberGenerator)
        requires
            old(self).wf(),
            forall|k: int|
                0 <= k < old(self).rooms@.len() ==> (#[trigger] old(self).rooms@[k]).x1 + 2
                    <= old(self).rooms@[k].x2 && old(self).rooms@[k].y1 + 2
                    <= old(self).rooms@[k].y2,
        ensures
            final(self).wf(),
            final(self).same_but_tiles(old(self)),
            only_adds(old(self).map.tiles@, final(self).map.tiles@, TileType::Door),
            forall|k: int|
                0 <= k < final(self).rooms@.len() ==> room_has_doors(
                    final(self).map.tiles@,
                    #[trigger] final(self).rooms@[k],
                ),
            exists|ls: Seq<Point>, ts: Seq<Point>, rs: Seq<Point>, bs: Seq<Point>|
                #[trigger] sides_ok(old(self).rooms@, ls, ts, rs, bs, old(self).rooms@.len() as int)
                    && forall|x: int, y: int|
                    #![trigger tile_of(final(self).map.tiles@, x, y)]
                    in_bounds_spec(x, y) ==> tile_of(final(self).map.tiles@, x, y) == (if is_door(ls, ts, rs, bs, old(self).rooms@.len() as int, x, y) {
                        TileType::Door
                    } else {
                        tile_of(old(self).map.tiles@, x, y)
                    }),
            rooms_disjoint(old(self).rooms@) && (forall|x: int, y: int|
                #![trigger tile_of(old(self).map.tiles@, x, y)]
                in_bounds_spec(x, y) ==> tile_of(old(self).map.tiles@, x, y) != TileType::Door) ==> forall|k: int|
                0 <= k < old(self).rooms@.len() ==> one_door_per_side(final(self).map.tiles@, #[trigger] old(self).rooms@[k]),
    {
        let ghost mut ls: Seq<Point> = Seq::empty();
        let ghost mut ts: Seq<Point> = Seq::empty();
        let ghost mut rs: Seq<Point> = Seq::empty();
        let ghost mut bs: Seq<Point> = Seq::empty();
        let mut i: usize = 0;
        while i < self.rooms.len()
            invariant
                self.wf(),
                self.same_but_tiles(old(self)),
                i <= self.rooms@.len(),
                forall|k: int|
                    0 <= k < self.rooms@.len() ==> (#[trigger] self.rooms@[k]).x1 + 2
                        <= self.rooms@[k].x2 && self.rooms@[k].y1 + 2 <= self.rooms@[k].y2,
                only_adds(old(self).map.tiles@, self.map.tiles@, TileType::Door),
                forall|k: int|
                    0 <= k < i ==> room_has_doors(self.map.tiles@, #[trigger] self.rooms@[k]),
                sides_ok(self.rooms@, ls, ts, rs, bs, i as int),
                forall|x: int, y: int|
                    #![trigger tile_of(self.map.tiles@, x, y)]
                    in_bounds_spec(x, y) ==> tile_of(self.map.tiles@, x, y) == (if is_door(ls, ts, rs, bs, i as int, x, y) {
                        TileType::Door
                    } else {
                        tile_of(old(self).map.tiles@, x, y)
                    }),
            decreases self.rooms@.len() - i,
        {
            let room = self.rooms[i];
            assert(rect_on_grid(self.rooms@[i as int]));
            let ghost t0 = self.map.tiles@;
            let left_y = rng_range(rng, room.y1 + 1, room.y2);
            self.map.set_tile(Point::new(room.x1, left_y), TileType::Door);
            let top_x = rng_range(rng, room.x1 + 1, room.x2);
            self.map.set_tile(Point::new(top_x, room.y1), TileType::Door);
            let right_y = rng_range(rng, room.y1 + 1, room.y2);
            self.map.set_tile(Point::new(room.x2, right_y), TileType::Door);
            let bottom_x = rng_range(rng, room.x1 + 1, room.x2);
            self.map.set_tile(Point::new(bottom_x, room.y2), TileType::Door);
            proof {
                let t = self.map.tiles@;
                assert(only_adds(t0, t, TileType::Door));
                assert(tile_of(t, room.x1 as int, left_y as int) == TileType::Door);
                assert(tile_of(t, top_x as int, room.y1 as int) == TileType::Door);
                assert(tile_of(t, room.x2 as int, right_y as int) == TileType::Door);
                assert(tile_of(t, bottom_x as int, room.y2 as int) == TileType::Door);
                assert(room_has_doors(t, room));
                assert forall|k: int| 0 <= k < i + 1 implies room_has_doors(t, #[trigger] self.rooms@[k]) by {
                    if k < i {
                        lemma_doors_kept(t0, t, self.rooms@[k]);
                    }
                }
                let (l0, t0s, r0, b0) = (ls, ts, rs, bs);
                ls = ls.push(Point { x: room.x1, y: left_y });
                ts = ts.push(Point { x: top_x, y: room.y1 });
                rs = rs.push(Point { x: room.x2, y: right_y });
                bs = bs.push(Point { x: bottom_x, y: room.y2 });
                assert forall|k: int| 0 <= k < i + 1 implies {
                    let r = #[trigger] self.rooms@[k];
                    &&& ls[k].x == r.x1 && r.y1 < ls[k].y < r.y2
                    &&& ts[k].y == r.y1 && r.x1 < ts[k].x < r.x2
                    &&& rs[k].x == r.x2 && r.y1 < rs[k].y < r.y2
                    &&& bs[k].y == r.y2 && r.x1 < bs[k].x < r.x2
                } by {
                    if k < i {
                        assert(ls[k] == l0[k] && ts[k] == t0s[k] && rs[k] == r0[k] && bs[k] == b0[k]);
                    }
                }
                assert forall|x: int, y: int| in_bounds_spec(x, y) implies #[trigger] tile_of(t, x, y) == (if is_door(ls, ts, rs, bs, i + 1, x, y) {
                    TileType::Door
                } else {
                    tile_of(old(self).map.tiles@, x, y)
                }) by {
                    if is_door(l0, t0s, r0, b0, i as int, x, y) {
                        let k = choose|k: int| 0 <= k < i && #[trigger] door_at(l0, t0s, r0, b0, k, x, y);
                        assert(ls[k] == l0[k] && ts[k] == t0s[k] && rs[k] == r0[k] && bs[k] == b0[k]);
                        assert(door_at(ls, ts, rs, bs, k, x, y));
                    }
                    if door_at(ls, ts, rs, bs, i as int, x, y) {
                        assert(is_door(ls, ts, rs, bs, i + 1, x, y));
                    }
                    if is_door(ls, ts, rs, bs, i + 1, x, y) {
                        let k = choose|k: int| 0 <= k < i + 1 && #[trigger] door_at(ls, ts, rs, bs, k, x, y);
                        if k < i {
                            assert(ls[k] == l0[k] && ts[k] == t0s[k] && rs[k] == r0[k] && bs[k] == b0[k]);
                            assert(door_at(l0, t0s, r0, b0, k, x, y));
                        }
                    }
                }
            }
            i = i + 1;
        }
        proof {
            if rooms_disjoint(old(self).rooms@) && (forall|x: int, y: int|
                #![trigger tile_of(old(self).map.tiles@, x, y)]
                in_bounds_spec(x, y) ==> tile_of(old(self).map.tiles@, x, y) != TileType::Door) {
                assert forall|k: int| 0 <= k < old(self).rooms@.len() implies one_door_per_side(self.map.tiles@, #[trigger] old(self).rooms@[k]) by {
                    assert(rect_on_grid(self.rooms@[k]));
                    assert(self.rooms@[k].x1 + 2 <= self.rooms@[k].x2);
                    lemma_one_door(self.rooms@, old(self).map.tiles@, self.map.tiles@, ls, ts, rs, bs, k);
                }
            }
        }
    }

    /// Joins the centres of the rooms, taken in order of column, each to the
    /// next with an L-shaped tunnel whose bend is chosen at random. With two
    /// rooms or more, every centre ends up open.
    pub fn build_corridors(&mut self, rng: &mut RandomNumberGenerator)
        requires
            old(self).wf(),
        ensures
            final(self).wf(),
            final(self).same_but_tiles(old(self)),
            only_adds(old(self).map.tiles@, final(self).map.tiles@, TileType::Ground),
            old(self).rooms@.len() >= 2 ==> forall|k: int|
                0 <= k < old(self).rooms@.len() ==> tile_of(
                    final(self).map.tiles@,
                    (#[trigger] old(self).rooms@[k]).center_spec().x as int,
                    old(self).rooms@[k].center_spec().y as int,
                ) == TileType::Ground,
            exists|s: Seq<Point>, bends: Seq<bool>|
                corridors_carved(old(self).rooms@, old(self).map.tiles@, final(self).map.tiles@, s, bends),
    {
        let mut centers: Vec<Point> = Vec::new();
        let mut i: usize = 0;
        while i < self.rooms.len()
            invariant
                self.wf(),
                i <= self.rooms@.len(),
                centers@.len() == i,
                forall|k: int| 0 <= k < i ==> #[trigger] centers@[k] == self.rooms@[k].center_spec(),
                forall|k: int| 0 <= k < i ==> in_bounds_spec(#[trigger] centers@[k].x as int, centers@[k].y as int),
            decreases self.rooms@.len() - i,
        {
            assert(rect_on_grid(self.rooms@[i as int]));
            centers.push(self.rooms[i].center());
            i = i + 1;
        }
        let ghost unsorted = centers@;
        assert(unsorted =~= centers_of(self.rooms@));
        sort_by_x(&mut centers);
        let ghost mut bends: Seq<bool> = seq![false];
        proof {
            broadcast use vstd::seq_lib::group_to_multiset_ensures;
            assert forall|k: int| 0 <= k < centers@.len() implies in_bounds_spec(#[trigger] centers@[k].x as int, centers@[k].y as int) by {
                assert(centers@.contains(centers@[k]));
                assert(unsorted.to_multiset().count(centers@[k]) > 0);
                assert(unsorted.contains(centers@[k]));
            }
        }
        let mut i: usize = 1;
        while i < centers.len()
            invariant
                self.wf(),
                self.same_but_tiles(old(self)),
                1 <= i,
                i <= centers@.len() || i == 1,
                forall|k: int| 0 <= k < centers@.len() ==> in_bounds_spec(#[trigger] centers@[k].x as int, centers@[k].y as int),
                only_adds(old(self).map.tiles@, self.map.tiles@, TileType::Ground),
                i >= 2 ==> forall|k: int| 0 <= k < i ==> tile_of(
                    self.map.tiles@,
                    (#[trigger] centers@[k]).x as int,
                    centers@[k].y as int,
                ) == TileType::Ground,
                bends.len() == i,
                forall|x: int, y: int|
                    #![trigger tile_of(self.map.tiles@, x, y)]
                    in_bounds_spec(x, y) ==> tile_of(self.map.tiles@, x, y) == (if on_corridor(centers@, bends, i as int, x, y) {
                        TileType::Ground
                    } else {
                        tile_of(old(self).map.tiles@, x, y)
                    }),
            decreases centers@.len() - i,
        {
            let prev = centers[i - 1];
            let new = centers[i];
            let ghost t0 = self.map.tiles@;
            let ghost b0 = bends;
            let row_first = rng_range(rng, 0, 2) == 1;
            if row_first {
                self.apply_horizontal_tunnel(prev.x, new.x, prev.y);
                self.apply_vertical_tunnel(prev.y, new.y, new.x);
            } else {
                self.apply_vertical_tunnel(prev.y, new.y, prev.x);
                self.apply_horizontal_tunnel(prev.x, new.x, new.y);
            }
            proof {
                bends = bends.push(row_first);
                assert forall|x: int, y: int| in_bounds_spec(x, y) implies #[trigger] tile_of(self.map.tiles@, x, y) == (
                if on_corridor(centers@, bends, i + 1, x, y) {
                    TileType::Ground
                } else {
                    tile_of(old(self).map.tiles@, x, y)
                }) by {
                    if on_corridor(centers@, b0, i as int, x, y) {
                        let j = choose|j: int| 1 <= j < i && #[trigger] on_l(centers@[j - 1], centers@[j], b0[j], x, y);
                        assert(bends[j] == b0[j]);
                        assert(on_l(centers@[j - 1], centers@[j], bends[j], x, y));
                    }
                    if on_l(centers@[i - 1], centers@[i as int], bends[i as int], x, y) {
                        assert(on_corridor(centers@, bends, i + 1, x, y));
                    }
                    if on_corridor(centers@, bends, i + 1, x, y) {
                        let j = choose|j: int| 1 <= j < i + 1 && #[trigger] on_l(centers@[j - 1], centers@[j], bends[j], x, y);
                        if j < i {
                            assert(bends[j] == b0[j]);
                            assert(on_l(centers@[j - 1], centers@[j], b0[j], x, y));
                        }
                    }
                }
                assert forall|x: int, y: int| in_bounds_spec(x, y) implies (#[trigger] tile_of(
                    self.map.tiles@,
                    x,
                    y,
                ) == tile_of(old(self).map.tiles@, x, y) || tile_of(self.map.tiles@, x, y)
                    == TileType::Ground) by {
                    assert(tile_of(t0, x, y) == tile_of(old(self).map.tiles@, x, y) || tile_of(t0, x, y)
                        == TileType::Ground);
                }
                assert(in_bounds_spec(prev.x as int, prev.y as int));
                assert(in_bounds_spec(new.x as int, new.y as int));
                assert(tile_of(self.map.tiles@, prev.x as int, prev.y as int) == TileType::Ground);
                assert(tile_of(self.map.tiles@, new.x as int, new.y as int) == TileType::Ground);
                assert forall|k: int| 0 <= k < i + 1 implies tile_of(
                    self.map.tiles@,
                    (#[trigger] centers@[k]).x as int,
                    centers@[k].y as int,
                ) == TileType::Ground by {
                    if k < i - 1 {
                        assert(tile_of(t0, centers@[k].x as int, centers@[k].y as int) == TileType::Ground);
                    }
                }
            }
            i = i + 1;
        }
        proof {
            broadcast use vstd::seq_lib::group_to_multiset_ensures;
            if centers@.len() < 2 {
                assert forall|x: int, y: int| !on_corridor(centers@, bends, centers@.len() as int, x, y) by {}
                assert forall|x: int, y: int| !on_corridor(centers@, bends, i as int, x, y) by {}
            }
            if centers@.len() == 0 {
                bends = Seq::empty();
                assert forall|x: int, y: int| in_bounds_spec(x, y) implies #[trigger] tile_of(self.map.tiles@, x, y)
                    == tile_of(old(self).map.tiles@, x, y) by {
                    assert(!on_corridor(centers@, seq![false], 1, x, y));
                }
            }
            assert(corridors_carved(old(self).rooms@, old(self).map.tiles@, self.map.tiles@, centers@, bends));
            if old(self).rooms@.len() >= 2 {
                assert(unsorted.to_multiset().len() == unsorted.len());
                assert(centers@.to_multiset().len() == centers@.len());
                assert(centers@.len() == old(self).rooms@.len());
                assert(i >= 2);
                assert forall|k: int| 0 <= k < old(self).rooms@.len() implies tile_of(
                    self.map.tiles@,
                    (#[trigger] old(self).rooms@[k]).center_spec().x as int,
                    old(self).rooms@[k].center_spec().y as int,
                ) == TileType::Ground by {
                    let c = old(self).rooms@[k].center_spec();
                    assert(unsorted[k] == c);
                    assert(unsorted.contains(c));
                    assert(centers@.to_multiset().count(c) > 0);
                    assert(centers@.contains(c));
                    let j = choose|j: int| 0 <= j < centers@.len() && centers@[j] == c;
                    assert(tile_of(self.map.tiles@, centers@[j].x as int, centers@[j].y as int) == TileType::Ground);
                }
            }
        }
    }
}

} // verus!
