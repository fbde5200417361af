use septune::ai::{direction_for_roll, wander_moves};
use septune::components::MovingRandomly;
use septune::ai::{chasing, random_move};
use septune::fov::fov;
use septune::systems::remove_dead;
use bracket_lib::random::RandomNumberGenerator;
use septune::components::{ActivateItem, Health, WantsToAttack, WantsToMove};
use septune::distance::{DistanceField, UNREACHABLE};
use septune::fov::visible_cells;
use septune::items::{use_item, use_items};
use septune::map::{map_idx, TileMap, TileType};
use septune::movement::{movement, player_intent, resolve_move, Direction};
use septune::geometry::Point;
use septune::session::new_session;
use septune::spawner::{
    monster_for_roll, spawn_cosmic_egg, spawn_entity, spawn_healing_potion, spawn_magic_mapper,
    spawn_monster_kind, spawn_player, spawn_kind_for_roll, SpawnKind,
};
use septune::systems::{combat, end_turn};
use septune::turn_state::{plan_tick, TickPlan, TurnState};
use septune::world::World;

fn world_with_player_and_egg(player: Point, egg: Point) -> World {
    let mut w = World::new();
    spawn_player(&mut w, player);
    spawn_cosmic_egg(&mut w, egg);
    w
}

#[test]
fn lethal_attack_ends_the_game() {
    let mut w = world_with_player_and_egg(Point::new(5, 5), Point::new(20, 20));
    w.set_health(0, Some(Health { current: 1, max: 10 }));
    let monster = spawn_monster_kind(&mut w, 3, Point::new(6, 5));
    let player = w.records[0].entity;
    combat(&mut w, &vec![WantsToAttack { attacker: monster, victim: player }]);
    assert_eq!(w.records[0].health, Some(Health { current: 0, max: 10 }));
    let mut state = TurnState::MonsterTurn;
    end_turn(&w, &mut state);
    assert_eq!(state, TurnState::GameOver);
}

#[test]
fn stepping_onto_the_objective_wins() {
    let map = TileMap::new();
    let mut w = world_with_player_and_egg(Point::new(5, 5), Point::new(6, 5));
    let intent = player_intent(&w, Direction::Right).unwrap();
    assert_eq!(intent.destination, Point::new(6, 5));
    let attacks = movement(&mut w, &map, &vec![intent]);
    assert!(attacks.is_empty());
    assert_eq!(w.records[0].pos, Point::new(6, 5));
    let mut state = TurnState::PlayerTurn;
    end_turn(&w, &mut state);
    assert_eq!(state, TurnState::Victory);
}

#[test]
fn healing_potion_stops_at_max() {
    assert_eq!(Health { current: 5, max: 10 }.heal(6), Health { current: 10, max: 10 });
    let mut map = TileMap::new();
    let mut w = world_with_player_and_egg(Point::new(5, 5), Point::new(20, 20));
    w.set_health(0, Some(Health { current: 5, max: 10 }));
    let potion = spawn_healing_potion(&mut w, Point::new(5, 5));
    let player = w.records[0].entity;
    use_item(&mut w, &mut map, &ActivateItem { used_by: player, item: potion });
    assert_eq!(w.records[0].health, Some(Health { current: 10, max: 10 }));
    assert_eq!(w.records.len(), 2);
    assert!(w.find(potion).is_none());
}

#[test]
fn health_is_clamped() {
    let h = Health { current: 3, max: 10 };
    assert_eq!(h.apply_damage(5), Health { current: 0, max: 10 });
    assert_eq!(h.apply_damage(2), Health { current: 1, max: 10 });
    assert_eq!(h.heal(4), Health { current: 7, max: 10 });
    assert_eq!(Health { current: 9, max: i32::MAX }.heal(i32::MAX), Health { current: i32::MAX, max: i32::MAX });
}

#[test]
fn turn_machine_rules() {
    assert_eq!(TurnState::AwaitingInput.on_player_intent(), TurnState::PlayerTurn);
    assert_eq!(TurnState::AwaitingInput.advance(), TurnState::AwaitingInput);
    assert_eq!(TurnState::AwaitingInput.end_of_turn(10, false), TurnState::AwaitingInput);
    assert_eq!(TurnState::PlayerTurn.advance(), TurnState::MonsterTurn);
    assert_eq!(TurnState::MonsterTurn.end_of_turn(10, false), TurnState::AwaitingInput);
    assert_eq!(TurnState::MonsterTurn.end_of_turn(0, false), TurnState::GameOver);
    assert_eq!(TurnState::MonsterTurn.end_of_turn(0, true), TurnState::Victory);
    assert_eq!(TurnState::GameOver.end_of_turn(10, true), TurnState::GameOver);
    assert_eq!(TurnState::Victory.on_player_intent(), TurnState::Victory);
    assert_eq!(TurnState::GamePlay.end_of_turn(5, false), TurnState::GamePlay);
    assert_eq!(TurnState::reset(true), TurnState::GamePlay);
    assert_eq!(TurnState::reset(false), TurnState::AwaitingInput);
    assert_eq!(plan_tick(TurnState::GamePlay, 201), TickPlan::Realtime { monsters: true });
    assert_eq!(plan_tick(TurnState::GamePlay, 200), TickPlan::Realtime { monsters: false });
    assert_eq!(plan_tick(TurnState::AwaitingInput, 0), TickPlan::Input);
}

#[test]
fn combat_counts_each_hit_and_drops_stale_victims() {
    let mut w = world_with_player_and_egg(Point::new(1, 1), Point::new(9, 9));
    let ombolonian = spawn_monster_kind(&mut w, 9, Point::new(2, 1));
    let rat = spawn_monster_kind(&mut w, 1, Point::new(3, 1));
    let player = w.records[0].entity;
    w.remove(rat);
    combat(
        &mut w,
        &vec![
            WantsToAttack { attacker: player, victim: ombolonian },
            WantsToAttack { attacker: player, victim: rat },
            WantsToAttack { attacker: ombolonian, victim: player },
            WantsToAttack { attacker: player, victim: ombolonian },
            WantsToAttack { attacker: player, victim: ombolonian },
        ],
    );
    assert_eq!(w.records[0].health, Some(Health { current: 9, max: 10 }));
    assert_eq!(w.records[2].health, Some(Health { current: 0, max: 2 }));
    assert_eq!(w.records.len(), 3);
}

#[test]
fn moving_into_a_monster_attacks_it() {
    let map = TileMap::new();
    let mut w = world_with_player_and_egg(Point::new(5, 5), Point::new(30, 30));
    let monster = spawn_monster_kind(&mut w, 1, Point::new(5, 6));
    let player = w.records[0].entity;
    let attack = resolve_move(&mut w, &map, &WantsToMove { entity: player, destination: Point::new(5, 6) });
    assert_eq!(attack, Some(WantsToAttack { attacker: player, victim: monster }));
    assert_eq!(w.records[0].pos, Point::new(5, 5));
    // a move off the grid, or of a gone entity, is dropped
    assert_eq!(resolve_move(&mut w, &map, &WantsToMove { entity: player, destination: Point::new(-1, 5) }), None);
    w.remove(monster);
    assert_eq!(resolve_move(&mut w, &map, &WantsToMove { entity: monster, destination: Point::new(7, 7) }), None);
    assert_eq!(w.records[0].pos, Point::new(5, 5));
}

#[test]
fn walls_block_movement() {
    let mut map = TileMap::new();
    map.tiles[map_idx(6, 5)] = TileType::Wall;
    let mut w = world_with_player_and_egg(Point::new(5, 5), Point::new(30, 30));
    let intent = player_intent(&w, Direction::Right).unwrap();
    movement(&mut w, &map, &vec![intent]);
    assert_eq!(w.records[0].pos, Point::new(5, 5));
}

#[test]
fn magic_mapper_reveals_everything() {
    let mut map = TileMap::new();
    let mut w = world_with_player_and_egg(Point::new(5, 5), Point::new(30, 30));
    let scroll = spawn_magic_mapper(&mut w, Point::new(5, 5));
    let player = w.records[0].entity;
    assert!(!map.revealed_tiles[0]);
    use_items(&mut w, &mut map, &vec![ActivateItem { used_by: player, item: scroll }]);
    assert!(map.revealed_tiles.iter().all(|r| *r));
    assert!(w.find(scroll).is_none());
}

#[test]
fn distance_field_counts_orthogonal_steps() {
    let mut map = TileMap::new();
    let f = DistanceField::new(&map, Point::new(0, 0), 1024);
    assert_eq!(f.map[map_idx(3, 4)], 7);
    assert_eq!(f.map[map_idx(99, 59)], 158);
    let short = DistanceField::new(&map, Point::new(0, 0), 5);
    assert_eq!(short.map[map_idx(3, 4)], UNREACHABLE);
    assert_eq!(short.map[map_idx(2, 3)], 5);
    // a wall forces a detour
    for y in 0..59 {
        map.tiles[map_idx(1, y)] = TileType::Wall;
    }
    let g = DistanceField::new(&map, Point::new(0, 0), 1024);
    assert_eq!(g.map[map_idx(2, 0)], 2 + 59 + 59);
    assert_eq!(g.map[map_idx(1, 0)], UNREACHABLE);
}

#[test]
fn field_of_view_covers_the_radius() {
    let map = TileMap::new();
    let cells = visible_cells(&map, Point::new(10, 10), 2);
    assert_eq!(cells.len(), 13);
    assert!(cells.contains(&Point::new(12, 10)));
    assert!(!cells.contains(&Point::new(12, 11)));
}

#[test]
fn spawn_rolls_choose_kinds() {
    assert_eq!(spawn_kind_for_roll(1), SpawnKind::HealingPotion);
    assert_eq!(spawn_kind_for_roll(2), SpawnKind::MagicMapper);
    assert_eq!(spawn_kind_for_roll(6), SpawnKind::Monster);
    assert_eq!(monster_for_roll(8).1, "Rat");
    assert_eq!(monster_for_roll(9).1, "Ombolonian");
    assert_eq!(monster_for_roll(9).2, 'o' as u16);
    let mut w = World::new();
    let mut rng = RandomNumberGenerator::seeded(1);
    for _ in 0..120 {
        spawn_entity(&mut w, &mut rng, Point::new(1, 1));
    }
    assert!(w.records.iter().any(|r| r.healing.is_some()));
    assert!(w.records.iter().any(|r| r.dungeon_map.is_some()));
    assert!(w.records.iter().any(|r| r.enemy.is_some()));
}

#[test]
fn session_places_player_and_objective() {
    let mut rng = RandomNumberGenerator::seeded(99);
    let s = new_session(&mut rng, false).unwrap();
    assert_eq!(s.ecs.records.len(), 2 + s.spawns.len());
    assert_eq!(s.ecs.records[0].health, Some(Health { current: 10, max: 10 }));
    assert!(s.ecs.records[0].player.is_some());
    assert_eq!(s.ecs.records[0].pos, s.player_start);
    assert!(s.ecs.records[1].egg.is_some());
    assert_eq!(s.ecs.records[1].pos, s.egg_start);
    assert_eq!(s.turn_state, TurnState::AwaitingInput);
    assert_ne!(s.player_start, s.egg_start);
}

#[test]
fn watchers_see_their_radius_and_the_player_remembers() {
    let mut map = TileMap::new();
    let mut w = world_with_player_and_egg(Point::new(10, 10), Point::new(40, 40));
    spawn_monster_kind(&mut w, 1, Point::new(50, 50));
    fov(&mut w, &mut map);
    let seen = &w.records[0].fov.as_ref().unwrap().visible_tiles;
    assert_eq!(seen.len(), 145);
    assert!(map.revealed_tiles[map_idx(18, 10)]);
    assert!(!map.revealed_tiles[map_idx(19, 10)]);
    // a monster's view is its own and is not remembered on the map
    let monster_view = &w.records[2].fov.as_ref().unwrap().visible_tiles;
    assert!(monster_view.contains(&Point::new(56, 50)));
    assert!(!map.revealed_tiles[map_idx(56, 50)]);
}

#[test]
fn chasers_step_towards_a_visible_player() {
    let mut map = TileMap::new();
    let mut w = world_with_player_and_egg(Point::new(10, 10), Point::new(40, 40));
    spawn_monster_kind(&mut w, 1, Point::new(13, 10));
    spawn_monster_kind(&mut w, 1, Point::new(60, 50));
    fov(&mut w, &mut map);
    let moves = chasing(&w, &map);
    assert_eq!(moves.len(), 1);
    assert_eq!(moves[0].entity, w.records[2].entity);
    assert_eq!(moves[0].destination, Point::new(12, 10));
    // nobody here wanders
    let mut rng = RandomNumberGenerator::seeded(4);
    assert!(random_move(&w, &mut rng).is_empty());
}

#[test]
fn dead_monsters_are_cleared_but_not_the_player() {
    let mut w = world_with_player_and_egg(Point::new(1, 1), Point::new(9, 9));
    let rat = spawn_monster_kind(&mut w, 1, Point::new(2, 1));
    let ombolonian = spawn_monster_kind(&mut w, 9, Point::new(3, 1));
    let player = w.records[0].entity;
    combat(&mut w, &vec![WantsToAttack { attacker: player, victim: rat }]);
    w.set_health(0, Some(Health { current: 0, max: 10 }));
    remove_dead(&mut w);
    assert!(w.find(rat).is_none());
    assert!(w.find(ombolonian).is_some());
    assert!(w.find(player).is_some());
    assert_eq!(w.records.len(), 3);
}

#[test]
fn wanderers_step_in_their_drawn_direction() {
    assert_eq!(direction_for_roll(0), Direction::Left);
    assert_eq!(direction_for_roll(1), Direction::Right);
    assert_eq!(direction_for_roll(2), Direction::Up);
    assert_eq!(direction_for_roll(3), Direction::Down);
    let mut w = world_with_player_and_egg(Point::new(5, 5), Point::new(9, 9));
    let m = spawn_monster_kind(&mut w, 1, Point::new(20, 20));
    w.records[2].moving_randomly = Some(MovingRandomly);
    let moves = wander_moves(&w, &vec![Direction::Left, Direction::Left, Direction::Up]);
    assert_eq!(moves, vec![WantsToMove { entity: m, destination: Point::new(20, 19) }]);
    let mut rng = RandomNumberGenerator::seeded(2);
    let drawn = septune::ai::random_move(&w, &mut rng);
    assert_eq!(drawn.len(), 1);
    assert_eq!(drawn[0].entity, m);
}
