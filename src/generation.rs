//! The prefab stamp and the pipeline that turns a random stream into a
//! finished level.
use vstd::prelude::*;
use bracket_lib::random::RandomNumberGenerator;
use crate::geometry::{Point, Rect, rects_intersect, rect_contains};
use crate::map::{TileType, SCREEN_WIDTH, SCREEN_HEIGHT, in_bounds_spec, idx_spec, passable_at, tile_of};
use crate::map_builder::{MapBuilder, rect_on_grid, rooms_disjoint, NUM_ROOMS};
use crate::architects::{
    DrunkardsWalkArchitect, DungeonRoomsArchitect, LabyruaryArchitect, GenerationError, NUM_BUILDINGS,
    NUM_CLEARINGS,
};
use crate::automata::CellularAutomataArchitect;
use crate::placement::{spawn_ok, all_connected, most_distant, SEARCH_DEPTH, NUM_MONSTERS};
use crate::distance::reach_within;
use crate::rng::rng_range;
use crate::themes::Theme;

verus! {

pub const PREFAB_WIDTH: i32 = 9;

pub const PREFAB_HEIGHT: i32 = 7;

/// How many places the prefab stamp tries before it is left out.
pub const PREFAB_ATTEMPTS: u32 = 10;

/// The stamp: a walled vault with one opening in the middle of its bottom
/// side, open inside.
pub open spec fn prefab_tile(dx: int, dy: int) -> TileType {
    if (dx == 0 || dx == PREFAB_WIDTH - 1 || dy == 0 || dy == PREFAB_HEIGHT - 1) && !(dy
        == PREFAB_HEIGHT - 1 && dx == PREFAB_WIDTH / 2) {
        TileType::Wall
    } else {
        TileType::Ground
    }
}

pub fn prefab_tile_at(dx: i32, dy: i32) -> (r: TileType)
    ensures
        r == prefab_tile(dx as int, dy as int),
{
    if (dx == 0 || dx == PREFAB_WIDTH - 1 || dy == 0 || dy == PREFAB_HEIGHT - 1) && !(dy
        == PREFAB_HEIGHT - 1 && dx == PREFAB_WIDTH / 2) {
        TileType::Wall
    } else {
        TileType::Ground
    }
}

/// Stamps the prefab with its top-left corner on `(x, y)`.
fn stamp_prefab(mb: &mut MapBuilder, x: i32, y: i32)
    requires
        old(mb).wf(),
        0 <= x <= SCREEN_WIDTH - PREFAB_WIDTH,
        0 <= y <= SCREEN_HEIGHT - PREFAB_HEIGHT,
    ensures
        final(mb).wf(),
        final(mb).same_but_tiles(old(mb)),
        forall|cx: int, cy: int|
            #![trigger tile_of(final(mb).map.tiles@, cx, cy)]
            in_bounds_spec(cx, cy) ==> tile_of(final(mb).map.tiles@, cx, cy) == (if x <= cx < x
                + PREFAB_WIDTH && y <= cy < y + PREFAB_HEIGHT {
                prefab_tile(cx - x, cy - y)
            } else {
                tile_of(old(mb).map.tiles@, cx, cy)
            }),
{
    let mut dy: i32 = 0;
    while dy < PREFAB_HEIGHT
        invariant
            mb.wf(),
            mb.same_but_tiles(old(mb)),
            0 <= x <= SCREEN_WIDTH - PREFAB_WIDTH,
            0 <= y <= SCREEN_HEIGHT - PREFAB_HEIGHT,
            0 <= dy <= PREFAB_HEIGHT,
            forall|cx: int, cy: int|
                #![trigger tile_of(mb.map.tiles@, cx, cy)]
                in_bounds_spec(cx, cy) ==> tile_of(mb.map.tiles@, cx, cy) == (if x <= cx < x
                    + PREFAB_WIDTH && y <= cy < y + dy {
                    prefab_tile(cx - x, cy - y)
                } else {
                    tile_of(old(mb).map.tiles@, cx, cy)
                }),
        decreases PREFAB_HEIGHT - dy,
    {
        let mut dx: i32 = 0;
        while dx < PREFAB_WIDTH
            invariant
                mb.wf(),
                mb.same_but_tiles(old(mb)),
                0 <= x <= SCREEN_WIDTH - PREFAB_WIDTH,
                0 <= y <= SCREEN_HEIGHT - PREFAB_HEIGHT,
                0 <= dy < PREFAB_HEIGHT,
                0 <= dx <= PREFAB_WIDTH,
                forall|cx: int, cy: int|
                    #![trigger tile_of(mb.map.tiles@, cx, cy)]
                    in_bounds_spec(cx, cy) ==> tile_of(mb.map.tiles@, cx, cy) == (if x <= cx < x
                        + PREFAB_WIDTH && (y <= cy < y + dy || (cy == y + dy && cx < x + dx)) {
                        prefab_tile(cx - x, cy - y)
                    } else {
                        tile_of(old(mb).map.tiles@, cx, cy)
                    }),
            decreases PREFAB_WIDTH - dx,
        {
            let t = prefab_tile_at(dx, dy);
            mb.map.set_tile(Point::new(x + dx, y + dy), t);
            dx = dx + 1;
        }
        dy = dy + 1;
    }
}

/// Where the prefab would stand with its top-left corner on `(x, y)`.
pub open spec fn prefab_area(x: int, y: int) -> Rect {
    Rect { x1: x as i32, y1: y as i32, x2: (x + PREFAB_WIDTH - 1) as i32, y2: (y + PREFAB_HEIGHT - 1) as i32 }
}

/// `area` keeps clear of the player's start and of every room of `mb`.
pub open spec fn prefab_fits(mb: &MapBuilder, area: Rect) -> bool {
    &&& !rect_contains(area, mb.player_start.x as int, mb.player_start.y as int)
    &&& forall|j: int| 0 <= j < mb.rooms@.len() ==> !#[trigger] rects_intersect(mb.rooms@[j], area)
}

/// Stamps the prefab with its top-left corner on `(x, y)` and returns its
/// area when that area keeps clear of the start and of every room; returns
/// `None` with the level unchanged otherwise.
pub fn try_place_prefab(mb: &mut MapBuilder, x: i32, y: i32) -> (placed: Option<Rect>)
    requires
        old(mb).wf(),
        0 <= x <= SCREEN_WIDTH - PREFAB_WIDTH,
        0 <= y <= SCREEN_HEIGHT - PREFAB_HEIGHT,
    ensures
        final(mb).wf(),
        final(mb).same_but_tiles(old(mb)),
        placed.is_some() == prefab_fits(old(mb), prefab_area(x as int, y as int)),
        placed.is_some() ==> placed.unwrap() == prefab_area(x as int, y as int),
        placed.is_none() ==> final(mb).map.tiles@ == old(mb).map.tiles@,
        placed.is_some() ==> forall|cx: int, cy: int|
            #![trigger tile_of(final(mb).map.tiles@, cx, cy)]
            in_bounds_spec(cx, cy) ==> tile_of(final(mb).map.tiles@, cx, cy) == (if rect_contains(prefab_area(x as int, y as int), cx, cy) {
                prefab_tile(cx - x, cy - y)
            } else {
                tile_of(old(mb).map.tiles@, cx, cy)
            }),
{
    let area = Rect { x1: x, y1: y, x2: x + PREFAB_WIDTH - 1, y2: y + PREFAB_HEIGHT - 1 };
    let s = mb.player_start;
    let covers_start = x <= s.x && s.x <= area.x2 && y <= s.y && s.y <= area.y2;
    if !covers_start && !mb.overlaps_any(&area) {
        stamp_prefab(mb, x, y);
        Some(area)
    } else {
        None
    }
}

/// Stamps the prefab at the first of up to `PREFAB_ATTEMPTS` random places
/// that keep clear of the player's start and of every room, and returns the
/// place it took, or `None` with the level unchanged.
pub fn apply_prefab(mb: &mut MapBuilder, rng: &mut RandomNumberGenerator) -> (placed: Option<Rect>)
    requires
        old(mb).wf(),
    ensures
        final(mb).wf(),
        final(mb).same_but_tiles(old(mb)),
        placed.is_none() ==> final(mb).map.tiles@ == old(mb).map.tiles@,
        placed.is_some() ==> {
            let p = placed.unwrap();
            &&& rect_on_grid(p)
            &&& p.x2 == p.x1 + PREFAB_WIDTH - 1
            &&& p.y2 == p.y1 + PREFAB_HEIGHT - 1
            &&& !rect_contains(p, old(mb).player_start.x as int, old(mb).player_start.y as int)
            &&& forall|j: int| 0 <= j < old(mb).rooms@.len() ==> !#[trigger] rects_intersect(old(mb).rooms@[j], p)
            &&& forall|cx: int, cy: int|
                #![trigger tile_of(final(mb).map.tiles@, cx, cy)]
                in_bounds_spec(cx, cy) ==> tile_of(final(mb).map.tiles@, cx, cy) == (if rect_contains(p, cx, cy) {
                    prefab_tile(cx - p.x1, cy - p.y1)
                } else {
                    tile_of(old(mb).map.tiles@, cx, cy)
                })
        },
{
    let mut attempts: u32 = 0;
    while attempts < PREFAB_ATTEMPTS
        invariant
            mb.wf(),
            mb.map.tiles@ == old(mb).map.tiles@,
            mb.same_but_tiles(old(mb)),
        decreases PREFAB_ATTEMPTS - attempts,
    {
        attempts = attempts + 1;
        let x = rng_range(rng, 0, SCREEN_WIDTH - PREFAB_WIDTH);
        let y = rng_range(rng, 0, SCREEN_HEIGHT - PREFAB_HEIGHT);
        let placed = try_place_prefab(mb, x, y);
        if placed.is_some() {
            return placed;
        }
    }
    None
}

/// The level-generation strategies the pipeline draws from.
#[derive(Clone, Copy, Debug, PartialEq, Eq, Structural)]
pub enum ArchitectKind {
    DrunkardsWalk,
    DungeonRooms,
    Labyrinth,
    CellularAutomata,
}

/// The strategy for a roll in `0..100`: drunkard's walk on 0 to 20, dungeon
/// rooms on 21 to 45, labyrinth on 46 to 70, cellular automata above.
pub open spec fn architect_spec(roll: i32) -> ArchitectKind {
    if roll <= 20 {
        ArchitectKind::DrunkardsWalk
    } else if roll <= 45 {
        ArchitectKind::DungeonRooms
    } else if roll <= 70 {
        ArchitectKind::Labyrinth
    } else {
        ArchitectKind::CellularAutomata
    }
}

pub fn architect_for_roll(roll: i32) -> (r: ArchitectKind)
    ensures
        r == architect_spec(roll),
{
    if roll <= 20 {
        ArchitectKind::DrunkardsWalk
    } else if roll <= 45 {
        ArchitectKind::DungeonRooms
    } else if roll <= 70 {
        ArchitectKind::Labyrinth
    } else {
        ArchitectKind::CellularAutomata
    }
}

/// The theme for a roll in `0..2`: the dungeon on 0, the forest otherwise.
pub fn theme_for_roll(roll: i32) -> (r: Theme)
    ensures
        r == (if roll == 0 { Theme::Dungeon } else { Theme::Forest }),
{
    if roll == 0 {
        Theme::Dungeon
    } else {
        Theme::Forest
    }
}

/// How many times generation starts over before it gives up.
pub const MAX_GENERATION_ATTEMPTS: u32 = 20;

/// The rooms of a level are one of: none (drunkard's walk, cellular
/// automata); `NUM_ROOMS` rooms that do not overlap (dungeon rooms); or up to
/// `NUM_BUILDINGS` buildings that do not overlap, followed by up to
/// `NUM_CLEARINGS` clearings (labyrinth).
pub open spec fn rooms_shape(rooms: Seq<Rect>) -> bool {
    ||| rooms.len() == 0
    ||| (rooms.len() == NUM_ROOMS && rooms_disjoint(rooms))
    ||| exists|b: int|
        1 <= b <= NUM_BUILDINGS && b <= rooms.len() <= b + NUM_CLEARINGS && #[trigger] rooms_disjoint(rooms.subrange(0, b))
}

/// What a finished level guarantees.
pub open spec fn level_ok(r: &MapBuilder) -> bool {
    &&& r.wf()
    &&& passable_at(r.map.tiles@, r.player_start.x as int, r.player_start.y as int)
    &&& all_connected(r.map.tiles@, r.player_start)
    &&& most_distant(r.map.tiles@, r.player_start, r.egg_start)
    &&& forall|x: int, y: int|
        #![trigger reach_within(r.map.tiles@, r.player_start.x as int, r.player_start.y as int, x, y, SEARCH_DEPTH as nat)]
        in_bounds_spec(x, y) && idx_spec(x, y) < idx_spec(r.egg_start.x as int, r.egg_start.y as int)
            && reach_within(r.map.tiles@, r.player_start.x as int, r.player_start.y as int, x, y, SEARCH_DEPTH as nat)
            ==> exists|k: nat|
            reach_within(r.map.tiles@, r.player_start.x as int, r.player_start.y as int, x, y, k)
                && !reach_within(r.map.tiles@, r.player_start.x as int, r.player_start.y as int, r.egg_start.x as int, r.egg_start.y as int, k)
    &&& r.monster_spawns@.len() <= NUM_MONSTERS
    &&& forall|i: int| 0 <= i < r.monster_spawns@.len() ==> spawn_ok(r.map.tiles@, r.player_start, #[trigger] r.monster_spawns@[i])
    &&& forall|i: int, j: int| 0 <= i < j < r.monster_spawns@.len() ==> r.monster_spawns@[i] != r.monster_spawns@[j]
    &&& (r.rooms@.len() == 0 && r.monster_spawns@.len() < NUM_MONSTERS) ==> forall|p: Point|
        #[trigger] spawn_ok(r.map.tiles@, r.player_start, p) ==> r.monster_spawns@.contains(p)
    &&& rooms_shape(r.rooms@)
}

impl MapBuilder {
    /// Generates a level, starting over with fresh draws when an attempt
    /// fails, at most `MAX_GENERATION_ATTEMPTS` times; past that it returns
    /// `RetriesExhausted`.
    pub fn new(rng: &mut RandomNumberGenerator) -> (r: Result<MapBuilder, GenerationError>)
        ensures
            r.is_ok() ==> level_ok(&r.unwrap()),
            r.is_err() ==> r == Err::<MapBuilder, GenerationError>(GenerationError::RetriesExhausted),
    {
        let mut attempt: u32 = 0;
        while attempt < MAX_GENERATION_ATTEMPTS
            decreases MAX_GENERATION_ATTEMPTS - attempt,
        {
            attempt = attempt + 1;
            match MapBuilder::generate(rng) {
                Ok(mb) => {
                    return Ok(mb);
                },
                Err(_) => {},
            }
        }
        Err(GenerationError::RetriesExhausted)
    }

    /// One generation attempt: draws an architect (drunkard's walk 21 in
    /// 100, dungeon rooms 25, labyrinth 25, cellular automata 29), runs it,
    /// stamps the prefab, draws a theme, opens the start, walls off what
    /// cannot be reached from it, puts the objective at the farthest cell,
    /// and places the monsters away from the start: drawn among all cells
    /// for levels without rooms, taken from the architect's candidates
    /// otherwise. Fails where the architect does.
    pub fn generate(rng: &mut RandomNumberGenerator) -> (r: Result<MapBuilder, GenerationError>)
        ensures
            r.is_ok() ==> level_ok(&r.unwrap()),
    {
        let kind = architect_for_roll(rng_range(rng, 0, 100));
        let mut mb = match kind {
            ArchitectKind::DrunkardsWalk => {
                let mut a = DrunkardsWalkArchitect {};
                a.build(rng)
            },
            ArchitectKind::DungeonRooms => {
                let mut a = DungeonRoomsArchitect {};
                match a.build(rng) {
                    Ok(mb) => mb,
                    Err(e) => {
                        return Err(e);
                    },
                }
            },
            ArchitectKind::Labyrinth => {
                let mut a = LabyruaryArchitect {};
                a.build(rng)
            },
            ArchitectKind::CellularAutomata => {
                let mut a = CellularAutomataArchitect {};
                a.build(rng)
            },
        };
        let listed = mb.rooms.len() > 0;
        assert(rooms_shape(mb.rooms@));
        apply_prefab(&mut mb, rng);
        mb.theme = theme_for_roll(rng_range(rng, 0, 2));
        let start = mb.player_start;
        mb.map.set_tile(start, TileType::Ground);
        assert(tile_of(mb.map.tiles@, start.x as int, start.y as int) == TileType::Ground);
        mb.prune_unreachable(start);
        mb.egg_start = mb.find_most_distant(start);
        let spawns = if listed {
            mb.filter_spawns(&start, &mb.monster_spawns)
        } else {
            mb.spawn_monsters(&start, rng)
        };
        mb.monster_spawns = spawns;
        Ok(mb)
    }
}

} // verus!
