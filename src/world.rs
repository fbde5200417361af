//! The entity store: one record of components per live entity.
use vstd::prelude::*;
use crate::geometry::Point;
use crate::components::{
    Entity, Render, Player, Enemy, MovingRandomly, ChasingPlayer, Item, CosmicEgg,
    ProvidesHealing, ProvidesDungeonMap, Health, Name, FieldOfView,
};

verus! {

/// The components of one entity; a component it lacks is `None`.
#[derive(Clone, Debug)]
pub struct EntityRecord {
    pub entity: Entity,
    pub pos: Point,
    pub render: Render,
    pub name: Option<Name>,
    pub health: Option<Health>,
    pub player: Option<Player>,
    pub enemy: Option<Enemy>,
    pub moving_randomly: Option<MovingRandomly>,
    pub chasing: Option<ChasingPlayer>,
    pub item: Option<Item>,
    pub egg: Option<CosmicEgg>,
    pub healing: Option<ProvidesHealing>,
    pub dungeon_map: Option<ProvidesDungeonMap>,
    pub fov: Option<FieldOfView>,
}

impl EntityRecord {
    /// A record at `pos` drawn as `render`, with no other component.
    pub fn bare(entity: Entity, pos: Point, render: Render) -> (r: EntityRecord)
        ensures
            r.entity == entity,
            r.pos == pos,
            r.render == render,
            r.name.is_none(),
            r.health.is_none(),
            r.player.is_none(),
            r.enemy.is_none(),
            r.moving_randomly.is_none(),
            r.chasing.is_none(),
            r.item.is_none(),
            r.egg.is_none(),
            r.healing.is_none(),
            r.dungeon_map.is_none(),
            r.fov.is_none(),
    {
        EntityRecord {
            entity,
            pos,
            render,
            name: None,
            health: None,
            player: None,
            enemy: None,
            moving_randomly: None,
            chasing: None,
            item: None,
            egg: None,
            healing: None,
            dungeon_map: None,
            fov: None,
        }
    }
}

/// The live entities, in order of creation, and the next unused identifier.
pub struct World {
    pub records: Vec<EntityRecord>,
    pub next_id: u64,
}

/// `e` names a record of `recs`.
pub open spec fn live(recs: Seq<EntityRecord>, e: Entity) -> bool {
    exists|i: int| 0 <= i < recs.len() && #[trigger] recs[i].entity == e
}

/// The record of `e` in `recs`; meaningful where `live(recs, e)`.
pub open spec fn index_of(recs: Seq<EntityRecord>, e: Entity) -> int {
    choose|i: int| 0 <= i < recs.len() && #[trigger] recs[i].entity == e
}

impl World {
    /// Identifiers are distinct and all below `next_id`.
    pub open spec fn wf(&self) -> bool {
        &&& forall|i: int, j: int|
            0 <= i < j < self.records@.len() ==> #[trigger] self.records@[i].entity != #[trigger] self.records@[j].entity
        &&& forall|i: int| 0 <= i < self.records@.len() ==> (#[trigger] self.records@[i]).entity.id < self.next_id
    }

    pub fn new() -> (r: World)
        ensures
            r.wf(),
            r.records@.len() == 0,
            r.next_id == 0,
    {
        World { records: Vec::new(), next_id: 0 }
    }

    /// A fresh identifier, distinct from every live one.
    pub fn reserve(&mut self) -> (e: Entity)
        requires
            old(self).wf(),
            old(self).next_id < u64::MAX,
        ensures
            final(self).wf(),
            final(self).records@ == old(self).records@,
            final(self).next_id == old(self).next_id + 1,
            e.id == old(self).next_id,
            !live(final(self).records@, e),
    {
        let e = Entity { id: self.next_id };
        self.next_id = self.next_id + 1;
        e
    }

    /// Adds `rec`, whose identifier must come from `reserve`.
    pub fn insert(&mut self, rec: EntityRecord)
        requires
            old(self).wf(),
            rec.entity.id < old(self).next_id,
            !live(old(self).records@, rec.entity),
        ensures
            final(self).wf(),
            final(self).records@ == old(self).records@.push(rec),
            final(self).next_id == old(self).next_id,
    {
        self.records.push(rec);
        proof {
            let n = self.records@.len() - 1;
            assert forall|i: int, j: int| 0 <= i < j < self.records@.len() implies #[trigger] self.records@[i].entity != #[trigger] self.records@[j].entity by {
                if j == n {
                    assert(old(self).records@[i] == self.records@[i]);
                    if self.records@[i].entity == rec.entity {
                        assert(live(old(self).records@, rec.entity));
                    }
                } else {
                    assert(old(self).records@[i] == self.records@[i]);
                    assert(old(self).records@[j] == self.records@[j]);
                }
            }
            assert forall|i: int| 0 <= i < self.records@.len() implies (#[trigger] self.records@[i]).entity.id < self.next_id by {
                if i < n {
                    assert(old(self).records@[i] == self.records@[i]);
                }
            }
        }
    }

    /// Where the record of `e` stands, or `None` if `e` is not live.
    pub fn find(&self, e: Entity) -> (r: Option<usize>)
        requires
            self.wf(),
        ensures
            r.is_some() == live(self.records@, e),
            r.is_some() ==> r.unwrap() < self.records@.len() && self.records@[r.unwrap() as int].entity == e,
            r.is_some() ==> r.unwrap() == index_of(self.records@, e),
    {
        let mut i: usize = 0;
        while i < self.records.len()
            invariant
                self.wf(),
                i <= self.records@.len(),
                forall|k: int| 0 <= k < i ==> (#[trigger] self.records@[k]).entity != e,
            decreases self.records@.len() - i,
        {
            if self.records[i].entity == e {
                proof {
                    let j = index_of(self.records@, e);
                    assert(live(self.records@, e));
                    if j != i {
                        if j < i {
                            assert(self.records@[j].entity != self.records@[i as int].entity);
                        } else {
                            assert(self.records@[i as int].entity != self.records@[j].entity);
                        }
                    }
                }
                return Some(i);
            }
            i = i + 1;
        }
        None
    }

    /// Removes `e`'s record if it is live; the others keep their order.
    pub fn remove(&mut self, e: Entity)
        requires
            old(self).wf(),
        ensures
            final(self).wf(),
            final(self).next_id == old(self).next_id,
            !live(final(self).records@, e),
            live(old(self).records@, e) ==> final(self).records@ == old(self).records@.remove(index_of(old(self).records@, e)),
            !live(old(self).records@, e) ==> final(self).records@ == old(self).records@,
            forall|e2: Entity| live(final(self).records@, e2) ==> live(old(self).records@, e2),
    {
        match self.find(e) {
            Some(i) => {
                self.records.remove(i);
                proof {
                    let o = old(self).records@;
                    let s = self.records@;
                    assert forall|a: int, b: int| 0 <= a < b < s.len() implies #[trigger] s[a].entity != #[trigger] s[b].entity by {
                        let a2 = if a < i { a } else { a + 1 };
                        let b2 = if b < i { b } else { b + 1 };
                        assert(s[a] == o[a2]);
                        assert(s[b] == o[b2]);
                    }
                    assert forall|a: int| 0 <= a < s.len() implies (#[trigger] s[a]).entity.id < self.next_id by {
                        let a2 = if a < i { a } else { a + 1 };
                        assert(s[a] == o[a2]);
                    }
                    assert forall|e2: Entity| live(s, e2) implies live(o, e2) by {
                        let a = choose|a: int| 0 <= a < s.len() && #[trigger] s[a].entity == e2;
                        let a2 = if a < i { a } else { a + 1 };
                        assert(s[a] == o[a2]);
                    }
                    if live(s, e) {
                        let a = choose|a: int| 0 <= a < s.len() && #[trigger] s[a].entity == e;
                        let a2 = if a < i { a } else { a + 1 };
                        assert(s[a] == o[a2]);
                        assert(o[i as int].entity == e);
                        if a2 < i {
                            assert(o[a2].entity != o[i as int].entity);
                        } else {
                            assert(o[i as int].entity != o[a2].entity);
                        }
                    }
                }
            },
            None => {},
        }
    }

    /// Replaces the health component of the record at `i`.
    pub fn set_health(&mut self, i: usize, health: Option<Health>)
        requires
            old(self).wf(),
            i < old(self).records@.len(),
        ensures
            final(self).wf(),
            final(self).next_id == old(self).next_id,
            final(self).records@ == old(self).records@.update(i as int, EntityRecord { health, ..old(self).records@[i as int] }),
    {
        let mut rec = self.records.remove(i);
        rec.health = health;
        self.records.insert(i, rec);
        proof {
            let s = self.records@;
            let o = old(self).records@;
            assert(s =~= o.update(i as int, rec));
            assert forall|a: int| 0 <= a < s.len() implies (#[trigger] s[a]).entity == o[a].entity by {}
        }
    }

    /// Moves the record at `i` to `pos`.
    pub fn set_pos(&mut self, i: usize, pos: Point)
        requires
            old(self).wf(),
            i < old(self).records@.len(),
        ensures
            final(self).wf(),
            final(self).next_id == old(self).next_id,
            final(self).records@ == old(self).records@.update(i as int, EntityRecord { pos, ..old(self).records@[i as int] }),
    {
        let mut rec = self.records.remove(i);
        rec.pos = pos;
        self.records.insert(i, rec);
        proof {
            let s = self.records@;
            let o = old(self).records@;
            assert(s =~= o.update(i as int, rec));
            assert forall|a: int| 0 <= a < s.len() implies (#[trigger] s[a]).entity == o[a].entity by {}
        }
    }

    /// Replaces the field of view of the record at `i`.
    pub fn set_fov(&mut self, i: usize, fov: Option<FieldOfView>)
        requires
            old(self).wf(),
            i < old(self).records@.len(),
        ensures
            final(self).wf(),
            final(self).next_id == old(self).next_id,
            final(self).records@ == old(self).records@.update(i as int, EntityRecord { fov, ..old(self).records@[i as int] }),
    {
        let mut rec = self.records.remove(i);
        rec.fov = fov;
        self.records.insert(i, rec);
        proof {
            let s = self.records@;
            let o = old(self).records@;
            assert(s =~= o.update(i as int, rec));
            assert forall|a: int| 0 <= a < s.len() implies (#[trigger] s[a]).entity == o[a].entity by {}
        }
    }
}

} // verus!
