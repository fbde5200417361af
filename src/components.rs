//! Component data attached to entities.
use vstd::prelude::*;
use crate::geometry::Point;
use crate::themes::ColorPair;

verus! {

/// An entity's identifier. Identifiers are never reused, so one that names a
/// removed entity stays stale.
#[derive(Clone, Copy, Debug, PartialEq, Eq, Structural)]
pub struct Entity {
    pub id: u64,
}

/// How an entity is drawn.
#[derive(Clone, Copy, Debug, PartialEq, Eq, Structural)]
pub struct Render {
    pub color: ColorPair,
    pub glyph: u16,
}

/// Marks the player.
#[derive(Clone, Copy, Debug, PartialEq, Eq, Structural)]
pub struct Player;

/// Marks a monster.
#[derive(Clone, Copy, Debug, PartialEq, Eq, Structural)]
pub struct Enemy;

/// Marks an entity that wanders at random.
#[derive(Clone, Copy, Debug, PartialEq, Eq, Structural)]
pub struct MovingRandomly;

/// Marks a monster that hunts the player once it sees them.
#[derive(Clone, Copy, Debug, PartialEq, Eq, Structural)]
pub struct ChasingPlayer;

/// Marks something that can be picked up and used.
#[derive(Clone, Copy, Debug, PartialEq, Eq, Structural)]
pub struct Item;

/// Marks the objective.
#[derive(Clone, Copy, Debug, PartialEq, Eq, Structural)]
pub struct CosmicEgg;

/// An item that restores this much health.
#[derive(Clone, Copy, Debug, PartialEq, Eq, Structural)]
pub struct ProvidesHealing {
    pub amount: i32,
}

/// An item that reveals the whole map.
#[derive(Clone, Copy, Debug, PartialEq, Eq, Structural)]
pub struct ProvidesDungeonMap;

/// A request, for one tick, that `entity` step onto `destination`.
#[derive(Clone, Copy, Debug, PartialEq, Eq, Structural)]
pub struct WantsToMove {
    pub entity: Entity,
    pub destination: Point,
}

/// A request, for one tick, that `attacker` strike `victim`.
#[derive(Clone, Copy, Debug, PartialEq, Eq, Structural)]
pub struct WantsToAttack {
    pub attacker: Entity,
    pub victim: Entity,
}

/// A request, for one tick, that `used_by` use `item`.
#[derive(Clone, Copy, Debug, PartialEq, Eq, Structural)]
pub struct ActivateItem {
    pub used_by: Entity,
    pub item: Entity,
}

#[derive(Clone, Copy, Debug, PartialEq, Eq, Structural)]
pub struct Health {
    pub current: i32,
    pub max: i32,
}

#[derive(Clone, Debug)]
pub struct Name(pub String);

/// The cells an entity sees, recomputed each tick, out to `radius` steps.
#[derive(Clone, Debug)]
pub struct FieldOfView {
    pub visible_tiles: Vec<Point>,
    pub radius: i32,
}

impl Health {
    /// Current health lies between zero and the maximum.
    pub open spec fn wf(&self) -> bool {
        0 <= self.current <= self.max
    }

    /// Health after losing `amount`, never below zero.
    pub fn apply_damage(&self, amount: i32) -> (r: Health)
        requires
            self.wf(),
            amount >= 0,
        ensures
            r.wf(),
            r.max == self.max,
            r.current == (if self.current - amount < 0 { 0 } else { self.current - amount }),
    {
        let current = if amount >= self.current { 0 } else { self.current - amount };
        Health { current, max: self.max }
    }

    /// Health after restoring `amount`, never above the maximum.
    pub fn heal(&self, amount: i32) -> (r: Health)
        requires
            self.wf(),
            amount >= 0,
        ensures
            r.wf(),
            r.max == self.max,
            r.current == (if self.current + amount > self.max { self.max as int } else { self.current + amount }),
    {
        let current = if amount >= self.max - self.current { self.max } else { self.current + amount };
        Health { current, max: self.max }
    }
}

} // verus!
