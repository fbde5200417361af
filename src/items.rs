//! Using items: healing potions and map-revealing scrolls.
use vstd::prelude::*;
use crate::map::{TileMap, NUM_TILES};
use crate::components::{Entity, ActivateItem, Health};
use crate::world::{World, EntityRecord, live, index_of};
use crate::systems::healths_wf;

verus! {

/// `h` after healing `a`, never above the maximum.
pub open spec fn heal_spec(h: Health, a: int) -> Health {
    Health { current: if h.current + a > h.max { h.max } else { (h.current + a) as i32 }, max: h.max }
}

/// `recs` after `user`, if it is live and has health, heals `amount`.
pub open spec fn healed(recs: Seq<EntityRecord>, user: Entity, amount: int) -> Seq<EntityRecord> {
    if live(recs, user) && recs[index_of(recs, user)].health.is_some() {
        recs.update(
            index_of(recs, user),
            EntityRecord {
                health: Some(heal_spec(recs[index_of(recs, user)].health.unwrap(), amount)),
                ..recs[index_of(recs, user)]
            },
        )
    } else {
        recs
    }
}

/// `recs` after `act`: a live item applies its healing (if not negative) to
/// its user and is then removed; an activation of a gone item changes
/// nothing.
pub open spec fn after_use(recs: Seq<EntityRecord>, act: ActivateItem) -> Seq<EntityRecord> {
    if !live(recs, act.item) {
        recs
    } else {
        let it = recs[index_of(recs, act.item)];
        let r1 = match it.healing {
            Some(p) => if p.amount >= 0 {
                healed(recs, act.used_by, p.amount as int)
            } else {
                recs
            },
            None => recs,
        };
        r1.remove(index_of(r1, act.item))
    }
}

/// Carries out one activation on the store and the map. A map-revealing
/// item marks every cell as seen.
pub fn use_item(ecs: &mut World, map: &mut TileMap, act: &ActivateItem)
    requires
        old(ecs).wf(),
        old(map).wf(),
        healths_wf(old(ecs).records@),
    ensures
        final(ecs).wf(),
        final(map).wf(),
        healths_wf(final(ecs).records@),
        final(ecs).next_id == old(ecs).next_id,
        final(ecs).records@ == after_use(old(ecs).records@, *act),
        !live(final(ecs).records@, act.item),
        forall|e: Entity| live(final(ecs).records@, e) ==> live(old(ecs).records@, e),
        final(map).tiles@ == old(map).tiles@,
        live(old(ecs).records@, act.item) && old(ecs).records@[index_of(old(ecs).records@, act.item)].dungeon_map.is_some()
            ==> forall|i: int| 0 <= i < NUM_TILES ==> #[trigger] final(map).revealed_tiles@[i],
        !(live(old(ecs).records@, act.item) && old(ecs).records@[index_of(old(ecs).records@, act.item)].dungeon_map.is_some())
            ==> final(map).revealed_tiles@ == old(map).revealed_tiles@,
{
    let i = match ecs.find(act.item) {
        Some(i) => i,
        None => {
            return ;
        },
    };
    let healing = ecs.records[i].healing;
    let reveals = ecs.records[i].dungeon_map.is_some();
    let ghost o = ecs.records@;
    match healing {
        Some(p) => {
            if p.amount >= 0 {
                match ecs.find(act.used_by) {
                    Some(u) => {
                        match ecs.records[u].health {
                            Some(h) => {
                                assert(o[u as int].health.unwrap().wf());
                                ecs.set_health(u, Some(h.heal(p.amount)));
                                assert(ecs.records@ == healed(o, act.used_by, p.amount as int));
                            },
                            None => {},
                        }
                    },
                    None => {},
                }
            }
        },
        None => {},
    }
    proof {
        assert forall|k: int| 0 <= k < ecs.records@.len() && (#[trigger] ecs.records@[k]).health.is_some() implies ecs.records@[k].health.unwrap().wf() by {
            assert(ecs.records@[k].entity == o[k].entity);
            if ecs.records@[k] != o[k] {
                assert(o[k].health.unwrap().wf());
            }
        }
        assert(forall|k: int| 0 <= k < ecs.records@.len() ==> #[trigger] ecs.records@[k].entity == o[k].entity);
        assert(live(ecs.records@, act.item)) by {
            assert(ecs.records@[i as int].entity == act.item);
        }
    }
    if reveals {
        map.reveal_all();
    }
    let ghost r1 = ecs.records@;
    ecs.remove(act.item);
    proof {
        let fin = ecs.records@;
        assert forall|k: int| 0 <= k < fin.len() && (#[trigger] fin[k]).health.is_some() implies fin[k].health.unwrap().wf() by {
            let idx = index_of(r1, act.item);
            let k2 = if k < idx { k } else { k + 1 };
            assert(fin[k] == r1[k2]);
        }
    }
}

/// The store after the activations, one after the other.
pub open spec fn run_uses(recs: Seq<EntityRecord>, acts: Seq<ActivateItem>) -> Seq<EntityRecord>
    decreases acts.len(),
{
    if acts.len() == 0 {
        recs
    } else {
        after_use(run_uses(recs, acts.drop_last()), acts.last())
    }
}

/// `act` names a live map-revealing item of `recs`.
pub open spec fn item_reveals(recs: Seq<EntityRecord>, act: ActivateItem) -> bool {
    live(recs, act.item) && recs[index_of(recs, act.item)].dungeon_map.is_some()
}

/// Some activation, carried out in turn, uses a map-revealing item.
pub open spec fn reveals_by(recs: Seq<EntityRecord>, acts: Seq<ActivateItem>) -> bool
    decreases acts.len(),
{
    if acts.len() == 0 {
        false
    } else {
        reveals_by(recs, acts.drop_last()) || item_reveals(run_uses(recs, acts.drop_last()), acts.last())
    }
}

/// Carries out the activations in order. Where one of them uses a
/// map-revealing item, every cell ends up seen; otherwise the seen cells
/// stay as they were.
pub fn use_items(ecs: &mut World, map: &mut TileMap, acts: &Vec<ActivateItem>)
    requires
        old(ecs).wf(),
        old(map).wf(),
        healths_wf(old(ecs).records@),
    ensures
        final(ecs).wf(),
        final(map).wf(),
        healths_wf(final(ecs).records@),
        final(ecs).next_id == old(ecs).next_id,
        final(map).tiles@ == old(map).tiles@,
        forall|a: int| 0 <= a < acts@.len() ==> !live(final(ecs).records@, #[trigger] acts@[a].item),
        final(ecs).records@ == run_uses(old(ecs).records@, acts@),
        reveals_by(old(ecs).records@, acts@) ==> forall|i: int| 0 <= i < NUM_TILES ==> #[trigger] final(map).revealed_tiles@[i],
        !reveals_by(old(ecs).records@, acts@) ==> final(map).revealed_tiles@ == old(map).revealed_tiles@,
{
    let mut k: usize = 0;
    while k < acts.len()
        invariant
            ecs.wf(),
            map.wf(),
            healths_wf(ecs.records@),
            ecs.next_id == old(ecs).next_id,
            map.tiles@ == old(map).tiles@,
            k <= acts@.len(),
            forall|a: int| 0 <= a < k ==> !live(ecs.records@, #[trigger] acts@[a].item),
            ecs.records@ == run_uses(old(ecs).records@, acts@.subrange(0, k as int)),
            reveals_by(old(ecs).records@, acts@.subrange(0, k as int)) ==> forall|i: int| 0 <= i < NUM_TILES ==> #[trigger] map.revealed_tiles@[i],
            !reveals_by(old(ecs).records@, acts@.subrange(0, k as int)) ==> map.revealed_tiles@ == old(map).revealed_tiles@,
        decreases acts@.len() - k,
    {
        let ghost before = ecs.records@;
        use_item(ecs, map, &acts[k]);
        assert(acts@.subrange(0, k + 1).drop_last() =~= acts@.subrange(0, k as int));
        assert(acts@.subrange(0, k + 1).last() == acts@[k as int]);
        assert forall|a: int| 0 <= a < k + 1 implies !live(ecs.records@, #[trigger] acts@[a].item) by {
            if a < k {
                assert(!live(before, acts@[a].item));
            }
        }
        k = k + 1;
    }
    assert(acts@.subrange(0, acts@.len() as int) =~= acts@);
}

} // verus!
