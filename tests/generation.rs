use septune::automata::noise_tile;
use septune::generation::try_place_prefab;
use septune::architects::STAGGER_DISTANCE;
use septune::generation::{apply_prefab, PREFAB_HEIGHT, PREFAB_WIDTH};
use septune::generation::{architect_for_roll, theme_for_roll, ArchitectKind};
use septune::themes::Theme;
use bracket_lib::random::RandomNumberGenerator;
use septune::architects::{
    DrunkardsWalkArchitect, DungeonRoomsArchitect, EmptyArchitect, LabyruaryArchitect,
};
use septune::automata::CellularAutomataArchitect;
use septune::geometry::{Point, Rect};
use septune::map::{map_idx, TileMap, TileType, NUM_TILES, SCREEN_HEIGHT, SCREEN_WIDTH};
use septune::map_builder::{MapBuilder, NUM_ROOMS};
use septune::architects::GenerationError;
use septune::placement::{MIN_SPAWN_DISTANCE, NUM_MONSTERS};
use std::collections::VecDeque;

fn passable(t: TileType) -> bool {
    t != TileType::Wall
}

/// Breadth-first step counts from `start`, written independently of the library.
fn bfs(tiles: &[TileType], start: Point) -> Vec<Option<u32>> {
    let mut dist = vec![None; NUM_TILES];
    let s = (start.y * SCREEN_WIDTH + start.x) as usize;
    if !passable(tiles[s]) {
        return dist;
    }
    dist[s] = Some(0);
    let mut q = VecDeque::new();
    q.push_back((start.x, start.y));
    while let Some((x, y)) = q.pop_front() {
        let d = dist[(y * SCREEN_WIDTH + x) as usize].unwrap();
        for (dx, dy) in [(-1, 0), (1, 0), (0, -1), (0, 1)] {
            let (nx, ny) = (x + dx, y + dy);
            if nx < 0 || ny < 0 || nx >= SCREEN_WIDTH || ny >= SCREEN_HEIGHT {
                continue;
            }
            let i = (ny * SCREEN_WIDTH + nx) as usize;
            if passable(tiles[i]) && dist[i].is_none() {
                dist[i] = Some(d + 1);
                q.push_back((nx, ny));
            }
        }
    }
    dist
}

fn check_level(mb: &MapBuilder) {
    let tiles = &mb.map.tiles;
    assert_eq!(tiles.len(), NUM_TILES);
    let d = bfs(tiles, mb.player_start);
    // every passable cell is reachable from the start
    for i in 0..NUM_TILES {
        if passable(tiles[i]) {
            assert!(d[i].is_some(), "cell {} is cut off", i);
        }
    }
    // the objective is passable and as far as any cell
    let e = map_idx(mb.egg_start.x, mb.egg_start.y);
    assert!(passable(tiles[e]));
    let far = d.iter().filter_map(|x| *x).max().unwrap();
    assert_eq!(d[e], Some(far));
    // first of the farthest in row-major order
    let first = d.iter().position(|x| *x == Some(far)).unwrap();
    assert_eq!(first, e);
    // spawns lie beyond the minimum distance
    for s in mb.monster_spawns.iter() {
        let i = map_idx(s.x, s.y);
        assert!(d[i].unwrap() > MIN_SPAWN_DISTANCE);
    }
}

#[test]
fn generated_levels_are_connected_and_well_placed() {
    for seed in 0..12u64 {
        let mut rng = RandomNumberGenerator::seeded(seed);
        let mb = MapBuilder::new(&mut rng).unwrap();
        check_level(&mb);
    }
}

#[test]
fn generation_is_deterministic_for_a_seed() {
    let mut a = RandomNumberGenerator::seeded(2024);
    let mut b = RandomNumberGenerator::seeded(2024);
    let ma = MapBuilder::new(&mut a).unwrap();
    let mb = MapBuilder::new(&mut b).unwrap();
    assert!(ma.map.tiles == mb.map.tiles);
    assert_eq!(ma.monster_spawns, mb.monster_spawns);
    assert_eq!(ma.player_start, mb.player_start);
    assert_eq!(ma.egg_start, mb.egg_start);
}

#[test]
fn dungeon_rooms_do_not_overlap() {
    let mut built = 0;
    for seed in 0..8u64 {
        let mut rng = RandomNumberGenerator::seeded(seed);
        let mut arch = DungeonRoomsArchitect {};
        match arch.build(&mut rng) {
            Ok(mb) => {
                built += 1;
                assert_eq!(mb.rooms.len(), NUM_ROOMS);
                for i in 0..mb.rooms.len() {
                    for j in (i + 1)..mb.rooms.len() {
                        assert!(!mb.rooms[i].intersect(&mb.rooms[j]));
                    }
                }
                assert_eq!(mb.player_start, mb.rooms[0].center());
                assert_eq!(mb.monster_spawns.len(), NUM_ROOMS - 1);
                let d = bfs(&mb.map.tiles, mb.player_start);
                for r in mb.rooms.iter() {
                    let c = r.center();
                    assert!(d[map_idx(c.x, c.y)].is_some());
                }
            }
            Err(e) => assert_eq!(e, GenerationError::RoomTargetMissed),
        }
    }
    assert!(built > 0, "dungeon levels built: {}", built);
    // the carver itself never accepts an overlapping room
    let mut mb = MapBuilder::blank();
    mb.fill(TileType::Wall);
    mb.carve_random_rooms(&mut RandomNumberGenerator::seeded(3), TileType::Ground, (8, 14), (6, 13), false);
    assert!(mb.rooms.len() > 1);
    for i in 0..mb.rooms.len() {
        for j in (i + 1)..mb.rooms.len() {
            assert!(!mb.rooms[i].intersect(&mb.rooms[j]));
        }
        let w = mb.rooms[i].x2 - mb.rooms[i].x1;
        let h = mb.rooms[i].y2 - mb.rooms[i].y1;
        assert!((8..14).contains(&w));
        assert!((6..13).contains(&h));
    }
}

#[test]
fn labyrinth_buildings_do_not_overlap_and_have_doors() {
    let mut rng = RandomNumberGenerator::seeded(7);
    let mut mb = MapBuilder::blank();
    mb.fill(TileType::Grass);
    mb.place_random_buildings(90, &mut rng, TileType::Wall, TileType::Floorboard, (6, 14), (6, 12), false);
    assert!(mb.rooms.len() > 1);
    for i in 0..mb.rooms.len() {
        for j in (i + 1)..mb.rooms.len() {
            assert!(!mb.rooms[i].intersect(&mb.rooms[j]));
        }
    }
    mb.apply_doors(&mut rng);
    for r in mb.rooms.iter() {
        let door = |x: i32, y: i32| mb.map.tiles[map_idx(x, y)] == TileType::Door;
        assert_eq!((r.x1 + 1..r.x2).filter(|&x| door(x, r.y1)).count(), 1);
        assert_eq!((r.x1 + 1..r.x2).filter(|&x| door(x, r.y2)).count(), 1);
        assert_eq!((r.y1 + 1..r.y2).filter(|&y| door(r.x1, y)).count(), 1);
        assert_eq!((r.y1 + 1..r.y2).filter(|&y| door(r.x2, y)).count(), 1);
    }
    let mut arch = LabyruaryArchitect {};
    let built = arch.build(&mut RandomNumberGenerator::seeded(8));
    assert!(!built.rooms.is_empty());
    assert_eq!(built.player_start, built.rooms[0].center());
}

#[test]
fn other_architects_start_on_open_ground() {
    let mut rng = RandomNumberGenerator::seeded(3);
    let empty = EmptyArchitect {}.build(&mut rng);
    assert!(empty.map.tiles.iter().all(|t| *t == TileType::Ground));
    assert_eq!(empty.player_start, Point::new(50, 30));
    let drunk = DrunkardsWalkArchitect {}.build(&mut rng);
    assert_eq!(drunk.map.tiles[map_idx(50, 30)], TileType::Ground);
    assert!(drunk.map.tiles.iter().any(|t| *t == TileType::Wall));
    let cave = CellularAutomataArchitect {}.build(&mut rng);
    assert!(cave.map.in_bounds(cave.player_start));
}

#[test]
fn smoothing_follows_the_neighbour_rule() {
    let mut map = TileMap::new();
    map.fill(TileType::Wall);
    // three open cells around (5, 5), four around (10, 10)
    for (x, y) in [(4, 4), (5, 4), (6, 4), (9, 9), (10, 9), (11, 9), (9, 10)] {
        map.tiles[map_idx(x, y)] = TileType::Ground;
    }
    let mut arch = CellularAutomataArchitect {};
    arch.smooth(&mut map);
    assert_eq!(map.tiles[map_idx(5, 5)], TileType::Wall);
    assert_eq!(map.tiles[map_idx(10, 10)], TileType::Ground);
    // the outer ring keeps its tiles
    assert_eq!(map.tiles[map_idx(0, 0)], TileType::Wall);
}

#[test]
fn find_start_picks_the_open_cell_nearest_the_middle() {
    let mut map = TileMap::new();
    map.fill(TileType::Wall);
    map.tiles[map_idx(10, 10)] = TileType::Ground;
    map.tiles[map_idx(53, 30)] = TileType::Ground;
    map.tiles[map_idx(47, 30)] = TileType::Ground;
    let arch = CellularAutomataArchitect {};
    assert_eq!(arch.find_start(&map), Point::new(47, 30));
    let mut none = TileMap::new();
    none.fill(TileType::Wall);
    assert_eq!(arch.find_start(&none), Point::new(50, 30));
}

#[test]
fn spawns_are_distinct_far_and_capped() {
    let mut mb = MapBuilder::blank();
    mb.fill(TileType::Ground);
    let start = Point::new(0, 0);
    let mut rng = RandomNumberGenerator::seeded(11);
    let spawns = mb.spawn_monsters(&start, &mut rng);
    assert_eq!(spawns.len(), NUM_MONSTERS);
    for (i, s) in spawns.iter().enumerate() {
        assert!(s.x + s.y > MIN_SPAWN_DISTANCE as i32);
        assert!(!spawns[..i].contains(s));
    }
    // a small open pocket: fewer candidates than monsters, all are taken
    mb.fill(TileType::Wall);
    mb.apply_tiles_to_map(&Rect { x1: 0, y1: 0, x2: 14, y2: 0 }, TileType::Ground);
    let few = mb.spawn_monsters(&start, &mut rng);
    let mut xs: Vec<i32> = few.iter().map(|p| p.x).collect();
    xs.sort();
    assert_eq!(xs, vec![11, 12, 13, 14]);
}

#[test]
fn prune_walls_off_unreachable_cells() {
    let mut mb = MapBuilder::blank();
    mb.fill(TileType::Ground);
    // a wall column splits the grid
    mb.apply_tiles_to_map(&Rect { x1: 20, y1: 0, x2: 20, y2: 59 }, TileType::Wall);
    mb.prune_unreachable(Point::new(0, 0));
    assert_eq!(mb.map.tiles[map_idx(19, 5)], TileType::Ground);
    assert_eq!(mb.map.tiles[map_idx(21, 5)], TileType::Wall);
    assert_eq!(mb.map.tiles[map_idx(99, 59)], TileType::Wall);
    assert_eq!(mb.find_most_distant(Point::new(0, 0)), Point::new(19, 59));
}

#[test]
fn filter_spawns_keeps_far_candidates_in_order() {
    let mut mb = MapBuilder::blank();
    mb.fill(TileType::Ground);
    let cands = vec![Point::new(3, 3), Point::new(20, 20), Point::new(-1, 4), Point::new(11, 0)];
    let kept = mb.filter_spawns(&Point::new(0, 0), &cands);
    assert_eq!(kept, vec![Point::new(20, 20), Point::new(11, 0)]);
}

#[test]
fn tunnels_clip_to_the_grid() {
    let mut mb = MapBuilder::blank();
    mb.fill(TileType::Wall);
    mb.apply_horizontal_tunnel(95, 200, 3);
    assert_eq!(mb.map.tiles[map_idx(99, 3)], TileType::Ground);
    assert_eq!(mb.map.tiles[map_idx(94, 3)], TileType::Wall);
    mb.apply_vertical_tunnel(2, -5, 7);
    assert_eq!(mb.map.tiles[map_idx(7, 0)], TileType::Ground);
    assert_eq!(mb.map.tiles[map_idx(7, 2)], TileType::Ground);
    assert_eq!(mb.map.tiles[map_idx(7, 3)], TileType::Wall);
}

#[test]
fn corridors_join_room_centres() {
    let mut mb = MapBuilder::blank();
    mb.fill(TileType::Wall);
    mb.rooms.push(Rect::with_size(60, 40, 4, 4));
    mb.rooms.push(Rect::with_size(2, 2, 4, 4));
    mb.build_corridors(&mut RandomNumberGenerator::seeded(5));
    let d = bfs(&mb.map.tiles, Point::new(4, 4));
    assert!(d[map_idx(62, 42)].is_some());
}

#[test]
fn corridors_do_not_depend_on_room_order() {
    let rooms = [
        Rect::with_size(80, 3, 4, 4),
        Rect::with_size(2, 40, 4, 4),
        Rect::with_size(40, 20, 4, 4),
        Rect::with_size(20, 2, 4, 4),
    ];
    let carve = |order: &[usize]| {
        let mut mb = MapBuilder::blank();
        mb.fill(TileType::Wall);
        for &i in order {
            mb.rooms.push(rooms[i]);
        }
        mb.build_corridors(&mut RandomNumberGenerator::seeded(17));
        mb.map.tiles
    };
    let sorted = carve(&[1, 3, 2, 0]);
    let shuffled = carve(&[0, 1, 2, 3]);
    assert!(sorted == shuffled);
    for r in rooms.iter() {
        let c = r.center();
        assert_eq!(sorted[map_idx(c.x, c.y)], TileType::Ground);
    }
}

#[test]
fn architect_table_follows_the_weights() {
    assert_eq!(architect_for_roll(0), ArchitectKind::DrunkardsWalk);
    assert_eq!(architect_for_roll(20), ArchitectKind::DrunkardsWalk);
    assert_eq!(architect_for_roll(21), ArchitectKind::DungeonRooms);
    assert_eq!(architect_for_roll(45), ArchitectKind::DungeonRooms);
    assert_eq!(architect_for_roll(46), ArchitectKind::Labyrinth);
    assert_eq!(architect_for_roll(70), ArchitectKind::Labyrinth);
    assert_eq!(architect_for_roll(71), ArchitectKind::CellularAutomata);
    assert_eq!(architect_for_roll(99), ArchitectKind::CellularAutomata);
    assert_eq!(theme_for_roll(0), Theme::Dungeon);
    assert_eq!(theme_for_roll(1), Theme::Forest);
}

#[test]
fn prefab_avoids_start_and_rooms() {
    let mut mb = MapBuilder::blank();
    mb.fill(TileType::Ground);
    mb.player_start = Point::new(50, 30);
    let mut rng = RandomNumberGenerator::seeded(21);
    let placed = apply_prefab(&mut mb, &mut rng).unwrap();
    assert_eq!(placed.x2 - placed.x1, PREFAB_WIDTH - 1);
    assert_eq!(placed.y2 - placed.y1, PREFAB_HEIGHT - 1);
    assert!(!(placed.x1 <= 50 && 50 <= placed.x2 && placed.y1 <= 30 && 30 <= placed.y2));
    assert_eq!(mb.map.tiles[map_idx(placed.x1, placed.y1)], TileType::Wall);
    assert_eq!(mb.map.tiles[map_idx(placed.x1 + 1, placed.y1 + 1)], TileType::Ground);
    assert_eq!(mb.map.tiles[map_idx(placed.x1 + PREFAB_WIDTH / 2, placed.y2)], TileType::Ground);
    // with the whole grid taken by a room there is nowhere to go
    let mut full = MapBuilder::blank();
    full.rooms.push(Rect { x1: 0, y1: 0, x2: 99, y2: 59 });
    assert!(apply_prefab(&mut full, &mut rng).is_none());
    assert!(full.map.tiles.iter().all(|t| *t == TileType::Ground));
}

#[test]
fn noise_rolls_above_fifty_open_the_cell() {
    assert_eq!(noise_tile(51), TileType::Ground);
    assert_eq!(noise_tile(99), TileType::Ground);
    assert_eq!(noise_tile(50), TileType::Wall);
    assert_eq!(noise_tile(0), TileType::Wall);
    let mut map = TileMap::new();
    let mut arch = CellularAutomataArchitect {};
    arch.random_noise_map(&mut RandomNumberGenerator::seeded(6), &mut map);
    assert!(map.tiles.iter().any(|t| *t == TileType::Ground));
    assert!(map.tiles.iter().any(|t| *t == TileType::Wall));
}

#[test]
fn prefab_placement_checks_start_and_rooms() {
    let mut mb = MapBuilder::blank();
    mb.player_start = Point::new(12, 12);
    assert_eq!(try_place_prefab(&mut mb, 10, 10), None);
    assert!(mb.map.tiles.iter().all(|t| *t == TileType::Ground));
    mb.rooms.push(Rect { x1: 30, y1: 30, x2: 35, y2: 35 });
    assert_eq!(try_place_prefab(&mut mb, 28, 28), None);
    let placed = try_place_prefab(&mut mb, 40, 5).unwrap();
    assert_eq!(placed, Rect { x1: 40, y1: 5, x2: 48, y2: 11 });
    assert_eq!(mb.map.tiles[map_idx(40, 5)], TileType::Wall);
}

#[test]
fn drunkard_levels_stay_small_and_connected() {
    let mut arch = DrunkardsWalkArchitect {};
    let mb = arch.build(&mut RandomNumberGenerator::seeded(13));
    let open = mb.map.tiles.iter().filter(|t| passable(**t)).count();
    assert!(open < NUM_TILES / 3 + STAGGER_DISTANCE as usize + 1);
    assert_eq!(count_open_len(&mb), open);
    let d = bfs(&mb.map.tiles, Point::new(50, 30));
    for i in 0..NUM_TILES {
        if passable(mb.map.tiles[i]) {
            assert!(d[i].is_some());
        }
    }
}

fn count_open_len(mb: &MapBuilder) -> usize {
    DrunkardsWalkArchitect::count_floor(&mb.map)
}
