//! The tile grid and its query primitives.
use vstd::prelude::*;
use crate::geometry::{Point, Rect, rect_contains};

verus! {

pub const SCREEN_WIDTH: i32 = 100;

pub const SCREEN_HEIGHT: i32 = 60;

/// Number of cells of the grid.
pub const NUM_TILES: usize = 6000;

#[derive(Clone, Copy, Debug, PartialEq, Eq, Structural)]
pub enum TileType {
    Wall,
    Ground,
    Floorboard,
    Grass,
    Door,
}

/// Every kind of tile but a wall can be entered.
pub open spec fn tile_passable(t: TileType) -> bool {
    t != TileType::Wall
}

pub open spec fn in_bounds_spec(x: int, y: int) -> bool {
    0 <= x < SCREEN_WIDTH && 0 <= y < SCREEN_HEIGHT
}

/// Row-major position of the cell `(x, y)`.
pub open spec fn idx_spec(x: int, y: int) -> int {
    y * 100 + x
}

/// The tile of `(x, y)` in `tiles`.
pub open spec fn tile_of(tiles: Seq<TileType>, x: int, y: int) -> TileType {
    tiles[idx_spec(x, y)]
}

/// The cell `(x, y)` lies on the grid and can be entered.
pub open spec fn passable_at(tiles: Seq<TileType>, x: int, y: int) -> bool {
    in_bounds_spec(x, y) && tile_passable(tiles[idx_spec(x, y)])
}

pub proof fn lemma_idx_bounds(x: int, y: int)
    requires
        in_bounds_spec(x, y),
    ensures
        0 <= idx_spec(x, y) < NUM_TILES,
{
}

pub proof fn lemma_idx_injective(x1: int, y1: int, x2: int, y2: int)
    requires
        in_bounds_spec(x1, y1),
        in_bounds_spec(x2, y2),
        idx_spec(x1, y1) == idx_spec(x2, y2),
    ensures
        x1 == x2 && y1 == y2,
{
}

/// Row-major index of an in-bounds cell.
pub fn map_idx(x: i32, y: i32) -> (r: usize)
    requires
        in_bounds_spec(x as int, y as int),
    ensures
        r as int == idx_spec(x as int, y as int),
        r < NUM_TILES,
{
    (y * SCREEN_WIDTH + x) as usize
}

pub fn tile_is_passable(t: TileType) -> (r: bool)
    ensures
        r == tile_passable(t),
{
    !matches!(t, TileType::Wall)
}

/// A cell asked for lies off the grid.
#[derive(Clone, Copy, Debug, PartialEq, Eq, Structural)]
pub enum GridError {
    OutOfBounds,
}

/// The grid: one tile per cell, and for each cell whether it was ever seen.
pub struct TileMap {
    pub tiles: Vec<TileType>,
    pub revealed_tiles: Vec<bool>,
}

impl TileMap {
    pub open spec fn wf(&self) -> bool {
        self.tiles@.len() == NUM_TILES && self.revealed_tiles@.len() == NUM_TILES
    }

    /// A grid of open ground that nobody has seen yet.
    pub fn new() -> (r: TileMap)
        ensures
            r.wf(),
            forall|i: int| 0 <= i < NUM_TILES ==> r.tiles@[i] == TileType::Ground,
            forall|i: int| 0 <= i < NUM_TILES ==> !r.revealed_tiles@[i],
    {
        let mut tiles: Vec<TileType> = Vec::new();
        let mut revealed_tiles: Vec<bool> = Vec::new();
        let mut i: usize = 0;
        while i < NUM_TILES
            invariant
                i <= NUM_TILES,
                tiles@.len() == i,
                revealed_tiles@.len() == i,
                forall|j: int| 0 <= j < i ==> tiles@[j] == TileType::Ground,
                forall|j: int| 0 <= j < i ==> !revealed_tiles@[j],
            decreases NUM_TILES - i,
        {
            tiles.push(TileType::Ground);
            revealed_tiles.push(false);
            i = i + 1;
        }
        TileMap { tiles, revealed_tiles }
    }

    pub fn in_bounds(&self, point: Point) -> (r: bool)
        ensures
            r == in_bounds_spec(point.x as int, point.y as int),
    {
        point.x >= 0 && point.x < SCREEN_WIDTH && point.y >= 0 && point.y < SCREEN_HEIGHT
    }

    /// The index of `point`, or `None` off the grid.
    pub fn try_idx(&self, point: Point) -> (r: Option<usize>)
        ensures
            r.is_some() == in_bounds_spec(point.x as int, point.y as int),
            r.is_some() ==> r.unwrap() as int == idx_spec(point.x as int, point.y as int),
    {
        if !self.in_bounds(point) {
            None
        } else {
            Some(map_idx(point.x, point.y))
        }
    }

    /// Whether a walker may stand on `point`; false off the grid.
    pub fn can_enter_tile(&self, point: Point) -> (r: bool)
        requires
            self.wf(),
        ensures
            r == passable_at(self.tiles@, point.x as int, point.y as int),
    {
        self.in_bounds(point) && tile_is_passable(self.tiles[map_idx(point.x, point.y)])
    }

    /// The tile at `point`; `OutOfBounds` off the grid.
    pub fn tile_at(&self, point: Point) -> (r: Result<TileType, GridError>)
        requires
            self.wf(),
        ensures
            r.is_ok() == in_bounds_spec(point.x as int, point.y as int),
            r.is_ok() ==> r.unwrap() == tile_of(self.tiles@, point.x as int, point.y as int),
            r.is_err() ==> r == Err::<TileType, GridError>(GridError::OutOfBounds),
    {
        if self.in_bounds(point) {
            Ok(self.tiles[map_idx(point.x, point.y)])
        } else {
            Err(GridError::OutOfBounds)
        }
    }

    /// The row-major index of `(x, y)`; `OutOfBounds` off the grid.
    pub fn index(&self, x: i32, y: i32) -> (r: Result<usize, GridError>)
        ensures
            r.is_ok() == in_bounds_spec(x as int, y as int),
            r.is_ok() ==> r.unwrap() as int == idx_spec(x as int, y as int),
            r.is_err() ==> r == Err::<usize, GridError>(GridError::OutOfBounds),
    {
        if self.in_bounds(Point { x, y }) {
            Ok(map_idx(x, y))
        } else {
            Err(GridError::OutOfBounds)
        }
    }

    /// The cell at row-major position `idx`.
    pub fn index_to_point2d(&self, idx: usize) -> (r: Point)
        requires
            idx < NUM_TILES,
        ensures
            in_bounds_spec(r.x as int, r.y as int),
            idx_spec(r.x as int, r.y as int) == idx as int,
    {
        let w: usize = SCREEN_WIDTH as usize;
        let x = (idx % w) as i32;
        let y = (idx / w) as i32;
        Point { x, y }
    }

    /// Sets the tile of an in-bounds `point`.
    pub fn set_tile(&mut self, point: Point, tile: TileType)
        requires
            old(self).wf(),
            in_bounds_spec(point.x as int, point.y as int),
        ensures
            final(self).wf(),
            final(self).revealed_tiles@ == old(self).revealed_tiles@,
            final(self).tiles@ == old(self).tiles@.update(idx_spec(point.x as int, point.y as int), tile),
            forall|x: int, y: int|
                #![trigger tile_of(final(self).tiles@, x, y)]
                in_bounds_spec(x, y) ==> tile_of(final(self).tiles@, x, y) == (if x == point.x && y
                    == point.y {
                    tile
                } else {
                    tile_of(old(self).tiles@, x, y)
                }),
    {
        let i = map_idx(point.x, point.y);
        self.tiles.set(i, tile);
        assert forall|x: int, y: int| in_bounds_spec(x, y) && idx_spec(x, y) == i implies x
            == point.x && y == point.y by {
            lemma_idx_injective(x, y, point.x as int, point.y as int);
        }
    }

    /// Overwrites every cell with `tile`.
    pub fn fill(&mut self, tile: TileType)
        requires
            old(self).wf(),
        ensures
            final(self).wf(),
            final(self).revealed_tiles@ == old(self).revealed_tiles@,
            forall|i: int| 0 <= i < NUM_TILES ==> final(self).tiles@[i] == tile,
    {
        let mut i: usize = 0;
        while i < NUM_TILES
            invariant
                i <= NUM_TILES,
                self.wf(),
                self.revealed_tiles@ == old(self).revealed_tiles@,
                forall|j: int| 0 <= j < i ==> self.tiles@[j] == tile,
            decreases NUM_TILES - i,
        {
            self.tiles.set(i, tile);
            i = i + 1;
        }
    }

    /// Marks every cell as seen.
    pub fn reveal_all(&mut self)
        requires
            old(self).wf(),
        ensures
            final(self).wf(),
            final(self).tiles@ == old(self).tiles@,
            forall|i: int| 0 <= i < NUM_TILES ==> final(self).revealed_tiles@[i],
    {
        let mut i: usize = 0;
        while i < NUM_TILES
            invariant
                i <= NUM_TILES,
                self.wf(),
                self.tiles@ == old(self).tiles@,
                forall|j: int| 0 <= j < i ==> self.revealed_tiles@[j],
            decreases NUM_TILES - i,
        {
            self.revealed_tiles.set(i, true);
            i = i + 1;
        }
    }

    /// Sets every cell of `rect` to `tile`; the rectangle must lie on the grid.
    pub fn apply_tiles(&mut self, rect: &Rect, tile: TileType)
        requires
            old(self).wf(),
            0 <= rect.x1,
            rect.x2 < SCREEN_WIDTH,
            0 <= rect.y1,
            rect.y2 < SCREEN_HEIGHT,
        ensures
            final(self).wf(),
            final(self).revealed_tiles@ == old(self).revealed_tiles@,
            forall|x: int, y: int|
                #![trigger final(self).tiles@[idx_spec(x, y)]]
                in_bounds_spec(x, y) ==> final(self).tiles@[idx_spec(x, y)] == (if rect_contains(
                    *rect,
                    x,
                    y,
                ) {
                    tile
                } else {
                    old(self).tiles@[idx_spec(x, y)]
                }),
    {
        if rect.x1 > rect.x2 || rect.y1 > rect.y2 {
            return ;
        }
        let mut y: i32 = rect.y1;
        while y <= rect.y2
            invariant
                rect.y1 <= y <= rect.y2 + 1,
                0 <= rect.y1,
                rect.y2 < SCREEN_HEIGHT,
                0 <= rect.x1 <= rect.x2 < SCREEN_WIDTH,
                self.wf(),
                self.revealed_tiles@ == old(self).revealed_tiles@,
                forall|cx: int, cy: int|
                    #![trigger self.tiles@[idx_spec(cx, cy)]]
                    in_bounds_spec(cx, cy) ==> self.tiles@[idx_spec(cx, cy)] == (if rect_contains(
                        *rect,
                        cx,
                        cy,
                    ) && cy < y {
                        tile
                    } else {
                        old(self).tiles@[idx_spec(cx, cy)]
                    }),
            decreases rect.y2 + 1 - y,
        {
            let mut x: i32 = rect.x1;
            while x <= rect.x2
                invariant
                    rect.y1 <= y <= rect.y2,
                    rect.x1 <= x <= rect.x2 + 1,
                    0 <= rect.y1,
                    rect.y2 < SCREEN_HEIGHT,
                    0 <= rect.x1 <= rect.x2 < SCREEN_WIDTH,
                    self.wf(),
                    self.revealed_tiles@ == old(self).revealed_tiles@,
                    forall|cx: int, cy: int|
                        #![trigger self.tiles@[idx_spec(cx, cy)]]
                        in_bounds_spec(cx, cy) ==> self.tiles@[idx_spec(cx, cy)] == (if rect_contains(
                            *rect,
                            cx,
                            cy,
                        ) && (cy < y || (cy == y && cx < x)) {
                            tile
                        } else {
                            old(self).tiles@[idx_spec(cx, cy)]
                        }),
                decreases rect.x2 + 1 - x,
            {
                let i = map_idx(x, y);
                self.tiles.set(i, tile);
                assert forall|cx: int, cy: int| in_bounds_spec(cx, cy) && idx_spec(cx, cy) == i
                    implies cx == x && cy == y by {
                    lemma_idx_injective(cx, cy, x as int, y as int);
                }
                x = x + 1;
            }
            y = y + 1;
        }
    }
}

} // verus!
