//! The per-tick simulation systems: the end-of-turn check, combat, movement,
//! item use and fields of view.
use vstd::prelude::*;
use crate::components::{Entity, WantsToAttack, Health};
use crate::world::{World, EntityRecord, live};
use crate::turn_state::{TurnState, end_of_turn_spec};

verus! {

/// Health an attack takes.
pub const ATTACK_DAMAGE: i32 = 1;

/// `i` is the first record that carries the player tag.
pub open spec fn is_first_player(recs: Seq<EntityRecord>, i: int) -> bool {
    &&& 0 <= i < recs.len()
    &&& recs[i].player.is_some()
    &&& forall|j: int| 0 <= j < i ==> (#[trigger] recs[j]).player.is_none()
}

/// `i` is the first record that carries the objective tag.
pub open spec fn is_first_egg(recs: Seq<EntityRecord>, i: int) -> bool {
    &&& 0 <= i < recs.len()
    &&& recs[i].egg.is_some()
    &&& forall|j: int| 0 <= j < i ==> (#[trigger] recs[j]).egg.is_none()
}

/// A running session has a player with health and an objective.
pub open spec fn session_ok(recs: Seq<EntityRecord>) -> bool {
    &&& exists|i: int| 0 <= i < recs.len() && (#[trigger] recs[i]).player.is_some()
    &&& exists|i: int| 0 <= i < recs.len() && (#[trigger] recs[i]).egg.is_some()
    &&& forall|i: int| is_first_player(recs, i) ==> (#[trigger] recs[i]).health.is_some()
}

/// Every health component lies between zero and its maximum.
pub open spec fn healths_wf(recs: Seq<EntityRecord>) -> bool {
    forall|i: int| 0 <= i < recs.len() && (#[trigger] recs[i]).health.is_some() ==> recs[i].health.unwrap().wf()
}

/// The first player record, if any.
pub fn find_player(ecs: &World) -> (r: Option<usize>)
    ensures
        r.is_some() ==> is_first_player(ecs.records@, r.unwrap() as int),
        r.is_none() ==> forall|j: int| 0 <= j < ecs.records@.len() ==> (#[trigger] ecs.records@[j]).player.is_none(),
{
    let mut i: usize = 0;
    while i < ecs.records.len()
        invariant
            i <= ecs.records@.len(),
            forall|j: int| 0 <= j < i ==> (#[trigger] ecs.records@[j]).player.is_none(),
        decreases ecs.records@.len() - i,
    {
        if ecs.records[i].player.is_some() {
            return Some(i);
        }
        i = i + 1;
    }
    None
}

/// The first objective record, if any.
pub fn find_egg(ecs: &World) -> (r: Option<usize>)
    ensures
        r.is_some() ==> is_first_egg(ecs.records@, r.unwrap() as int),
        r.is_none() ==> forall|j: int| 0 <= j < ecs.records@.len() ==> (#[trigger] ecs.records@[j]).egg.is_none(),
{
    let mut i: usize = 0;
    while i < ecs.records.len()
        invariant
            i <= ecs.records@.len(),
            forall|j: int| 0 <= j < i ==> (#[trigger] ecs.records@[j]).egg.is_none(),
        decreases ecs.records@.len() - i,
    {
        if ecs.records[i].egg.is_some() {
            return Some(i);
        }
        i = i + 1;
    }
    None
}

/// The end-of-turn check on the player's health and position and the
/// objective's position.
pub fn end_turn(ecs: &World, turn_state: &mut TurnState)
    requires
        session_ok(ecs.records@),
    ensures
        forall|p: int, e: int|
            is_first_player(ecs.records@, p) && is_first_egg(ecs.records@, e) ==> *final(turn_state)
                == end_of_turn_spec(
                *old(turn_state),
                ecs.records@[p].health.unwrap().current,
                ecs.records@[p].pos == ecs.records@[e].pos,
            ),
{
    let p = find_player(ecs).unwrap();
    let e = find_egg(ecs).unwrap();
    let hp = match ecs.records[p].health {
        Some(h) => h.current,
        None => 0,
    };
    let at_objective = ecs.records[p].pos == ecs.records[e].pos;
    *turn_state = turn_state.end_of_turn(hp, at_objective);
    proof {
        assert forall|other_p: int, other_e: int|
            is_first_player(ecs.records@, other_p) && is_first_egg(ecs.records@, other_e) implies other_p == p && other_e == e by {
            if other_p < p {
                assert(ecs.records@[other_p].player.is_none());
            }
            if p < other_p {
                assert(ecs.records@[p as int].player.is_none());
            }
            if other_e < e {
                assert(ecs.records@[other_e].egg.is_none());
            }
            if e < other_e {
                assert(ecs.records@[e as int].egg.is_none());
            }
        }
    }
}

/// How many of `attacks` strike `e`.
pub open spec fn hits(attacks: Seq<WantsToAttack>, e: Entity) -> int
    decreases attacks.len(),
{
    if attacks.len() == 0 {
        0
    } else {
        hits(attacks.drop_last(), e) + (if attacks.last().victim == e {1int } else { 0int })
    }
}

proof fn lemma_hits_nonneg(attacks: Seq<WantsToAttack>, e: Entity)
    ensures
        hits(attacks, e) >= 0,
    decreases attacks.len(),
{
    if attacks.len() > 0 {
        lemma_hits_nonneg(attacks.drop_last(), e);
    }
}

/// `h` after `n` attacks of `ATTACK_DAMAGE` (one) each.
pub open spec fn damaged(h: Health, n: int) -> Health {
    Health {current: if h.current - n < 0 { 0 } else { (h.current - n) as i32 }, max: h.max }
}

/// A record after combat in which it took `n` attacks.
pub open spec fn after_hits(r: EntityRecord, n: int) -> EntityRecord {
    EntityRecord {
        health: match r.health {
            Some(h) => Some(damaged(h, n)),
            None => None,
        },
        ..r
    }
}

/// Resolves the attacks in order. Each takes `ATTACK_DAMAGE` from a victim
/// with health, never below zero; one whose victim is gone or has no health
/// is dropped. Nothing is removed here.
pub fn combat(ecs: &mut World, attacks: &Vec<WantsToAttack>)
    requires
        old(ecs).wf(),
        healths_wf(old(ecs).records@),
    ensures
        final(ecs).wf(),
        healths_wf(final(ecs).records@),
        final(ecs).next_id == old(ecs).next_id,
        final(ecs).records@.len() == old(ecs).records@.len(),
        forall|k: int|
            0 <= k < old(ecs).records@.len() ==> #[trigger] final(ecs).records@[k] == after_hits(
                old(ecs).records@[k],
                hits(attacks@, old(ecs).records@[k].entity),
            ),
{
    let mut a: usize = 0;
    while a < attacks.len()
        invariant
            ecs.wf(),
            healths_wf(ecs.records@),
            a <= attacks@.len(),
            ecs.next_id == old(ecs).next_id,
            ecs.records@.len() == old(ecs).records@.len(),
            forall|k: int|
                0 <= k < old(ecs).records@.len() ==> #[trigger] ecs.records@[k] == after_hits(
                    old(ecs).records@[k],
                    hits(attacks@.subrange(0, a as int), old(ecs).records@[k].entity),
                ),
        decreases attacks@.len() - a,
    {
        let ghost before = ecs.records@;
        let victim = attacks[a].victim;
        proof {
            assert(attacks@.subrange(0, a + 1).drop_last() =~= attacks@.subrange(0, a as int));
        }
        match ecs.find(victim) {
            Some(i) => {
                match ecs.records[i].health {
                    Some(h) => {
                        assert(before[i as int].health.unwrap().wf());
                        ecs.set_health(i, Some(h.apply_damage(ATTACK_DAMAGE)));
                        proof {
                            assert forall|k: int| 0 <= k < old(ecs).records@.len() implies #[trigger] ecs.records@[k] == after_hits(
                                old(ecs).records@[k],
                                hits(attacks@.subrange(0, a + 1), old(ecs).records@[k].entity),
                            ) by {
                                assert(before[k] == after_hits(old(ecs).records@[k], hits(attacks@.subrange(0, a as int), old(ecs).records@[k].entity)));
                                if k != i {
                                    if k < i {
                                        assert(before[k].entity != before[i as int].entity);
                                    } else {
                                        assert(before[i as int].entity != before[k].entity);
                                    }
                                    assert(ecs.records@[k] == before[k]);
                                } else {
                                    let o = old(ecs).records@[k];
                                    let n = hits(attacks@.subrange(0, a as int), o.entity);
                                    lemma_hits_nonneg(attacks@.subrange(0, a as int), o.entity);
                                    assert(hits(attacks@.subrange(0, a + 1), o.entity) == n + 1);
                                    assert(o.health.is_some());
                                    assert(h == damaged(o.health.unwrap(), n));
                                    assert(ecs.records@[k].health == Some(damaged(o.health.unwrap(), n + 1)));
                                }
                            }
                            assert forall|k: int| 0 <= k < ecs.records@.len() && (#[trigger] ecs.records@[k]).health.is_some() implies ecs.records@[k].health.unwrap().wf() by {
                                if k != i {
                                    assert(ecs.records@[k] == before[k]);
                                }
                            }
                        }
                    },
                    None => {
                        proof {
                            assert forall|k: int| 0 <= k < old(ecs).records@.len() implies #[trigger] ecs.records@[k] == after_hits(
                                old(ecs).records@[k],
                                hits(attacks@.subrange(0, a + 1), old(ecs).records@[k].entity),
                            ) by {
                                assert(before[k] == after_hits(old(ecs).records@[k], hits(attacks@.subrange(0, a as int), old(ecs).records@[k].entity)));
                                if k != i {
                                    if k < i {
                                        assert(before[k].entity != before[i as int].entity);
                                    } else {
                                        assert(before[i as int].entity != before[k].entity);
                                    }
                                }
                            }
                        }
                    },
                }
            },
            None => {
                proof {
                    assert forall|k: int| 0 <= k < old(ecs).records@.len() implies #[trigger] ecs.records@[k] == after_hits(
                        old(ecs).records@[k],
                        hits(attacks@.subrange(0, a + 1), old(ecs).records@[k].entity),
                    ) by {
                        assert(before[k] == after_hits(old(ecs).records@[k], hits(attacks@.subrange(0, a as int), old(ecs).records@[k].entity)));
                        if before[k].entity == victim {
                            assert(live(before, victim));
                        }
                    }
                }
            },
        }
        a = a + 1;
    }
    assert(attacks@.subrange(0, attacks@.len() as int) =~= attacks@);
}

/// A creature other than the player whose health has run out.
pub open spec fn is_dead(r: EntityRecord) -> bool {
    r.player.is_none() && r.health.is_some() && r.health.unwrap().current < 1
}

/// `r` is among the first `upto` of `o`.
pub open spec fn among(o: Seq<EntityRecord>, upto: int, r: EntityRecord) -> bool {
    exists|j: int| 0 <= j < upto && #[trigger] o[j] == r
}

/// `x` comes before `y` among the first `upto` of `o`.
pub open spec fn in_order(o: Seq<EntityRecord>, upto: int, x: EntityRecord, y: EntityRecord) -> bool {
    exists|ja: int, jb: int| 0 <= ja < jb < upto && #[trigger] o[ja] == x && #[trigger] o[jb] == y
}

/// Removes every dead creature; the player is never removed here.
pub fn remove_dead(ecs: &mut World)
    requires
        old(ecs).wf(),
    ensures
        final(ecs).wf(),
        final(ecs).next_id == old(ecs).next_id,
        forall|i: int| 0 <= i < final(ecs).records@.len() ==> !is_dead(#[trigger] final(ecs).records@[i]),
        forall|i: int|
            0 <= i < old(ecs).records@.len() && !is_dead(#[trigger] old(ecs).records@[i])
                ==> final(ecs).records@.contains(old(ecs).records@[i]),
        forall|i: int| 0 <= i < final(ecs).records@.len() ==> old(ecs).records@.contains(#[trigger] final(ecs).records@[i]),
{
    let mut kept: Vec<EntityRecord> = Vec::new();
    let ghost o = ecs.records@;
    let n = ecs.records.len();
    let mut i: usize = 0;
    while i < n
        invariant
            ecs.records@.len() == n - i,
            i <= n,
            n == o.len(),
            o == old(ecs).records@,
            ecs.next_id == old(ecs).next_id,
            old(ecs).wf(),
            forall|k: int| 0 <= k < n - i ==> #[trigger] ecs.records@[k] == o[(k + i) as int],
            forall|k: int| 0 <= k < kept@.len() ==> !is_dead(#[trigger] kept@[k]),
            forall|k: int| 0 <= k < kept@.len() ==> among(o, i as int, #[trigger] kept@[k]),
            forall|j: int| 0 <= j < i && !is_dead(#[trigger] o[j]) ==> kept@.contains(o[j]),
            forall|a: int, b: int| 0 <= a < b < kept@.len() ==> in_order(o, i as int, #[trigger] kept@[a], #[trigger] kept@[b]),
        decreases n - i,
    {
        let ghost before = kept@;
        let ghost cur = ecs.records@;
        let rec = ecs.records.remove(0);
        let dead = rec.player.is_none() && match rec.health {
            Some(h) => h.current < 1,
            None => false,
        };
        assert(rec == o[i as int]);
        if !dead {
            kept.push(rec);
        }
        proof {
            assert forall|k: int| 0 <= k < n - (i + 1) implies #[trigger] ecs.records@[k] == o[(k + i + 1) as int] by {
                assert(ecs.records@[k] == cur[k + 1]);
            }
            assert forall|k: int| 0 <= k < kept@.len() implies among(o, i + 1, #[trigger] kept@[k]) by {
                if k < before.len() {
                    assert(kept@[k] == before[k]);
                    assert(among(o, i as int, before[k]));
                    let j = choose|j: int| 0 <= j < i && #[trigger] o[j] == before[k];
                    assert(o[j] == kept@[k]);
                } else {
                    assert(o[i as int] == kept@[k]);
                }
            }
            assert forall|k: int| 0 <= k < kept@.len() implies !is_dead(#[trigger] kept@[k]) by {
                if k < before.len() {
                    assert(kept@[k] == before[k]);
                }
            }
            assert forall|j: int| 0 <= j < i + 1 && !is_dead(#[trigger] o[j]) implies kept@.contains(o[j]) by {
                if j < i {
                    let k = choose|k: int| 0 <= k < before.len() && before[k] == o[j];
                    assert(kept@[k] == before[k]);
                } else {
                    assert(kept@[before.len() as int] == o[j]);
                }
            }
            assert forall|a: int, b: int| 0 <= a < b < kept@.len() implies in_order(o, i + 1, #[trigger] kept@[a], #[trigger] kept@[b]) by {
                if b < before.len() {
                    assert(kept@[a] == before[a]);
                    assert(kept@[b] == before[b]);
                    assert(in_order(o, i as int, before[a], before[b]));
                    let (ja, jb) = choose|ja: int, jb: int| 0 <= ja < jb < i && #[trigger] o[ja] == before[a] && #[trigger] o[jb] == before[b];
                    assert(o[ja] == kept@[a] && o[jb] == kept@[b]);
                } else {
                    assert(kept@[a] == before[a]);
                    assert(among(o, i as int, before[a]));
                    let ja = choose|j: int| 0 <= j < i && #[trigger] o[j] == before[a];
                    assert(o[ja] == kept@[a] && o[i as int] == kept@[b]);
                }
            }
        }
        i = i + 1;
    }
    ecs.records = kept;
    proof {
        let s = ecs.records@;
        assert forall|a: int, b: int| 0 <= a < b < s.len() implies #[trigger] s[a].entity != #[trigger] s[b].entity by {
            assert(in_order(o, n as int, s[a], s[b]));
            let (ja, jb) = choose|ja: int, jb: int| 0 <= ja < jb < n && #[trigger] o[ja] == s[a] && #[trigger] o[jb] == s[b];
            assert(o[ja].entity != o[jb].entity);
        }
        assert forall|a: int| 0 <= a < s.len() implies (#[trigger] s[a]).entity.id < ecs.next_id by {
            assert(among(o, n as int, s[a]));
            let j = choose|j: int| 0 <= j < n && #[trigger] o[j] == s[a];
            assert(o[j].entity.id < ecs.next_id);
        }
        assert forall|a: int| 0 <= a < s.len() implies o.contains(#[trigger] s[a]) by {
            assert(among(o, n as int, s[a]));
            let j = choose|j: int| 0 <= j < n && #[trigger] o[j] == s[a];
            assert(o[j] == s[a]);
        }
    }
}

} // verus!
