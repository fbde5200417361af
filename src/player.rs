//! A lone walker on the grid, moved by direction keys.
use vstd::prelude::*;
use crate::geometry::Point;
use crate::map::{TileMap, passable_at};
use crate::movement::{Direction, step, step_fits, step_spec};

verus! {

pub struct Player {
    pub position: Point,
}

impl Player {
    pub fn new(position: Point) -> (r: Player)
        ensures
            r.position == position,
    {
        Player { position }
    }

    /// Steps in direction `key` when the cell there can be entered; stays put
    /// otherwise or without a key.
    pub fn update(&mut self, map: &TileMap, key: Option<Direction>)
        requires
            map.wf(),
        ensures
            key.is_some() && step_fits(old(self).position, key.unwrap()) && passable_at(
                map.tiles@,
                step_spec(old(self).position, key.unwrap()).0,
                step_spec(old(self).position, key.unwrap()).1,
            ) ==> final(self).position.x == step_spec(old(self).position, key.unwrap()).0
                && final(self).position.y == step_spec(old(self).position, key.unwrap()).1,
            !(key.is_some() && step_fits(old(self).position, key.unwrap()) && passable_at(
                map.tiles@,
                step_spec(old(self).position, key.unwrap()).0,
                step_spec(old(self).position, key.unwrap()).1,
            )) ==> final(self).position == old(self).position,
    {
        if let Some(d) = key {
            if let Some(next) = step(self.position, d) {
                if map.can_enter_tile(next) {
                    self.position = next;
                }
            }
        }
    }
}

} // verus!
