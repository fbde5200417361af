use septune::geometry::{Point, Rect};
use septune::map::{map_idx, GridError, TileMap, TileType};
use septune::player::Player;
use septune::movement::Direction;
use septune::themes::{DungeonTheme, ForestTheme, MapTheme, Theme};

#[test]
fn indices_are_row_major() {
    assert_eq!(map_idx(0, 0), 0);
    assert_eq!(map_idx(3, 2), 203);
    let map = TileMap::new();
    assert_eq!(map.try_idx(Point::new(99, 59)), Some(5999));
    assert_eq!(map.try_idx(Point::new(100, 0)), None);
    assert_eq!(map.try_idx(Point::new(0, -1)), None);
    assert_eq!(map.index_to_point2d(203), Point::new(3, 2));
}

#[test]
fn entering_tiles() {
    let mut map = TileMap::new();
    assert!(map.can_enter_tile(Point::new(4, 4)));
    map.tiles[map_idx(4, 4)] = TileType::Wall;
    assert!(!map.can_enter_tile(Point::new(4, 4)));
    assert!(!map.can_enter_tile(Point::new(-1, 4)));
    map.tiles[map_idx(4, 4)] = TileType::Door;
    assert!(map.can_enter_tile(Point::new(4, 4)));
}

#[test]
fn rects_intersect_on_both_axes() {
    let a = Rect::with_size(0, 0, 4, 4);
    assert!(a.intersect(&Rect::with_size(4, 4, 2, 2)));
    assert!(!a.intersect(&Rect::with_size(5, 0, 2, 2)));
    assert!(!a.intersect(&Rect::with_size(0, 5, 2, 2)));
    assert_eq!(a.center(), Point::new(2, 2));
    assert_eq!(Rect::with_size(1, 1, 3, 3).center(), Point::new(2, 2));
}

#[test]
fn player_moves_onto_open_cells_only() {
    let mut map = TileMap::new();
    map.tiles[map_idx(5, 4)] = TileType::Wall;
    let mut p = Player::new(Point::new(5, 5));
    p.update(&map, Some(Direction::Up));
    assert_eq!(p.position, Point::new(5, 5));
    p.update(&map, Some(Direction::Left));
    assert_eq!(p.position, Point::new(4, 5));
    p.update(&map, None);
    assert_eq!(p.position, Point::new(4, 5));
}

#[test]
fn themes_map_tiles_to_glyphs() {
    let (g, c) = DungeonTheme::new().tile_to_render(TileType::Floorboard);
    assert_eq!(g, '-' as u16);
    assert_eq!((c.fg.r, c.fg.g, c.fg.b), (102, 73, 53));
    let (g, _) = ForestTheme::new().tile_to_render(TileType::Wall);
    assert_eq!(g, 6);
    let (g, _) = Theme::Dungeon.tile_to_render(TileType::Ground);
    assert_eq!(g, 176);
    let (g, _) = Theme::Forest.tile_to_render(TileType::Grass);
    assert_eq!(g, '`' as u16);
}

#[test]
fn lookups_off_the_grid_fail() {
    let mut map = TileMap::new();
    map.tiles[map_idx(2, 3)] = TileType::Grass;
    assert_eq!(map.tile_at(Point::new(2, 3)), Ok(TileType::Grass));
    assert_eq!(map.tile_at(Point::new(2, 60)), Err(GridError::OutOfBounds));
    assert_eq!(map.index(99, 0), Ok(99));
    assert_eq!(map.index(-1, 0), Err(GridError::OutOfBounds));
}
