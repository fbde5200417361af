//! Procedural level generation and turn-driven simulation for a grid-world
//! exploration game.

pub mod geometry;
pub mod map;
pub mod distance;
pub mod rng;
pub mod themes;
pub mod map_builder;
pub mod placement;
pub mod architects;
pub mod automata;
pub mod generation;
pub mod components;
pub mod world;
pub mod spawner;
pub mod turn_state;
pub mod systems;
pub mod movement;
pub mod items;
pub mod fov;
pub mod player;
pub mod ai;
pub mod session;
