//! Turning the player's input into a move, and resolving moves into steps
//! or attacks.
use vstd::prelude::*;
use crate::geometry::Point;
use crate::map::{TileMap, TileType, passable_at};
use crate::components::{Entity, WantsToAttack, WantsToMove};
use crate::world::{World, EntityRecord, live, index_of};
use crate::systems::{find_player, is_first_player};

verus! {

/// The four directions of a step.
#[derive(Clone, Copy, Debug, PartialEq, Eq, Structural)]
pub enum Direction {
    Left,
    Right,
    Up,
    Down,
}

/// The cell one step from `p` in direction `d`.
pub open spec fn step_spec(p: Point, d: Direction) -> (int, int) {
    match d {
        Direction::Left => (p.x - 1, p.y as int),
        Direction::Right => (p.x + 1, p.y as int),
        Direction::Up => (p.x as int, p.y - 1),
        Direction::Down => (p.x as int, p.y + 1),
    }
}

/// The step from `p` in direction `d` stays within `i32` coordinates.
pub open spec fn step_fits(p: Point, d: Direction) -> bool {
    i32::MIN <= step_spec(p, d).0 <= i32::MAX && i32::MIN <= step_spec(p, d).1 <= i32::MAX
}

/// The cell one step from `p`, or `None` where it has no coordinates.
pub fn step(p: Point, d: Direction) -> (r: Option<Point>)
    ensures
        r.is_some() <==> step_fits(p, d),
        r.is_some() ==> r.unwrap().x == step_spec(p, d).0 && r.unwrap().y == step_spec(p, d).1,
{
    match d {
        Direction::Left => if p.x > i32::MIN { Some(Point::new(p.x - 1, p.y)) } else { None },
        Direction::Right => if p.x < i32::MAX { Some(Point::new(p.x + 1, p.y)) } else { None },
        Direction::Up => if p.y > i32::MIN { Some(Point::new(p.x, p.y - 1)) } else { None },
        Direction::Down => if p.y < i32::MAX { Some(Point::new(p.x, p.y + 1)) } else { None },
    }
}

/// The move the player asks for by pressing `d`: one step from where they
/// stand. `None` without a player.
pub fn player_intent(ecs: &World, d: Direction) -> (r: Option<WantsToMove>)
    ensures
        r.is_some() ==> exists|p: int|
            is_first_player(ecs.records@, p) && r.unwrap().entity == #[trigger] ecs.records@[p].entity
                && r.unwrap().destination.x == step_spec(ecs.records@[p].pos, d).0
                && r.unwrap().destination.y == step_spec(ecs.records@[p].pos, d).1,
        r.is_none() ==> forall|p: int|
            #[trigger] is_first_player(ecs.records@, p) ==> !step_fits(ecs.records@[p].pos, d),
{
    match find_player(ecs) {
        Some(p) => {
            match step(ecs.records[p].pos, d) {
                Some(dest) => Some(WantsToMove { entity: ecs.records[p].entity, destination: dest }),
                None => None,
            }
        },
        None => None,
    }
}

/// `r` stands on `p`, blocks it (it has health), and is not `mover`.
pub open spec fn blocks(r: EntityRecord, p: Point, mover: Entity) -> bool {
    r.health.is_some() && r.pos == p && r.entity != mover
}

/// `k` is the first record that blocks `p` against `mover`.
pub open spec fn is_first_blocker(recs: Seq<EntityRecord>, p: Point, mover: Entity, k: int) -> bool {
    &&& 0 <= k < recs.len()
    &&& blocks(recs[k], p, mover)
    &&& forall|j: int| 0 <= j < k ==> !blocks(#[trigger] recs[j], p, mover)
}

/// The player and the monsters fight each other.
pub open spec fn hostile(a: EntityRecord, b: EntityRecord) -> bool {
    (a.player.is_some() && b.enemy.is_some()) || (a.enemy.is_some() && b.player.is_some())
}

/// One of `moves` is a move of `e`.
pub open spec fn moves_entity(moves: Seq<WantsToMove>, e: Entity) -> bool {
    exists|j: int| 0 <= j < moves.len() && #[trigger] moves[j].entity == e
}

/// `b` is `a` with only its position changed.
pub open spec fn moved_only(a: EntityRecord, b: EntityRecord) -> bool {
    b == EntityRecord { pos: b.pos, ..a }
}

/// The store after one move: the mover steps onto a free cell it can
/// enter; otherwise nothing changes.
pub open spec fn step_records(recs: Seq<EntityRecord>, tiles: Seq<TileType>, m: WantsToMove) -> Seq<EntityRecord> {
    if live(recs, m.entity) && passable_at(tiles, m.destination.x as int, m.destination.y as int)
        && (forall|k: int| 0 <= k < recs.len() ==> !blocks(#[trigger] recs[k], m.destination, m.entity)) {
        recs.update(index_of(recs, m.entity), EntityRecord { pos: m.destination, ..recs[index_of(recs, m.entity)] })
    } else {
        recs
    }
}

/// The attack one move turns into: on a blocked cell it can enter, the
/// mover attacks the first blocker if the two are hostile.
pub open spec fn step_attack(recs: Seq<EntityRecord>, tiles: Seq<TileType>, m: WantsToMove) -> Option<WantsToAttack> {
    if live(recs, m.entity) && passable_at(tiles, m.destination.x as int, m.destination.y as int)
        && (exists|k: int| #[trigger] is_first_blocker(recs, m.destination, m.entity, k)) {
        let k = choose|k: int| #[trigger] is_first_blocker(recs, m.destination, m.entity, k);
        if hostile(recs[index_of(recs, m.entity)], recs[k]) {
            Some(WantsToAttack { attacker: m.entity, victim: recs[k].entity })
        } else {
            None
        }
    } else {
        None
    }
}

/// The store after the moves, one after the other.
pub open spec fn run_moves(recs: Seq<EntityRecord>, tiles: Seq<TileType>, moves: Seq<WantsToMove>) -> Seq<EntityRecord>
    decreases moves.len(),
{
    if moves.len() == 0 {
        recs
    } else {
        step_records(run_moves(recs, tiles, moves.drop_last()), tiles, moves.last())
    }
}

/// The attacks the moves turn into, in order.
pub open spec fn run_attacks(recs: Seq<EntityRecord>, tiles: Seq<TileType>, moves: Seq<WantsToMove>) -> Seq<WantsToAttack>
    decreases moves.len(),
{
    if moves.len() == 0 {
        Seq::empty()
    } else {
        let prev = run_attacks(recs, tiles, moves.drop_last());
        match step_attack(run_moves(recs, tiles, moves.drop_last()), tiles, moves.last()) {
            Some(a) => prev.push(a),
            None => prev,
        }
    }
}

pub fn find_blocker(ecs: &World, p: Point, mover: Entity) -> (r: Option<usize>)
    ensures
        r.is_some() ==> is_first_blocker(ecs.records@, p, mover, r.unwrap() as int),
        r.is_none() ==> forall|k: int| 0 <= k < ecs.records@.len() ==> !blocks(#[trigger] ecs.records@[k], p, mover),
{
    let mut i: usize = 0;
    while i < ecs.records.len()
        invariant
            i <= ecs.records@.len(),
            forall|k: int| 0 <= k < i ==> !blocks(#[trigger] ecs.records@[k], p, mover),
        decreases ecs.records@.len() - i,
    {
        let r = &ecs.records[i];
        if r.health.is_some() && r.pos == p && r.entity != mover {
            return Some(i);
        }
        i = i + 1;
    }
    None
}

/// Resolves one move. A move of a gone entity, or onto a cell that cannot
/// be entered, is dropped. Onto a free cell the entity steps. Onto a blocked
/// one it becomes an attack on the first blocker if the two are hostile, and
/// is dropped otherwise.
pub fn resolve_move(ecs: &mut World, map: &TileMap, intent: &WantsToMove) -> (r: Option<WantsToAttack>)
    requires
        old(ecs).wf(),
        map.wf(),
    ensures
        final(ecs).wf(),
        final(ecs).next_id == old(ecs).next_id,
        !live(old(ecs).records@, intent.entity) || !passable_at(map.tiles@, intent.destination.x as int, intent.destination.y as int)
            ==> r.is_none() && final(ecs).records@ == old(ecs).records@,
        live(old(ecs).records@, intent.entity) && passable_at(map.tiles@, intent.destination.x as int, intent.destination.y as int)
            && (forall|k: int| 0 <= k < old(ecs).records@.len() ==> !blocks(#[trigger] old(ecs).records@[k], intent.destination, intent.entity))
            ==> r.is_none() && final(ecs).records@ == old(ecs).records@.update(
                index_of(old(ecs).records@, intent.entity),
                EntityRecord { pos: intent.destination, ..old(ecs).records@[index_of(old(ecs).records@, intent.entity)] },
            ),
        final(ecs).records@ == step_records(old(ecs).records@, map.tiles@, *intent),
        r == step_attack(old(ecs).records@, map.tiles@, *intent),
        forall|k: int|
            live(old(ecs).records@, intent.entity) && passable_at(map.tiles@, intent.destination.x as int, intent.destination.y as int)
                && #[trigger] is_first_blocker(old(ecs).records@, intent.destination, intent.entity, k)
                ==> final(ecs).records@ == old(ecs).records@ && r == (if hostile(
                    old(ecs).records@[index_of(old(ecs).records@, intent.entity)],
                    old(ecs).records@[k],
                ) {
                    Some(WantsToAttack { attacker: intent.entity, victim: old(ecs).records@[k].entity })
                } else {
                    None
                }),
{
    let i = match ecs.find(intent.entity) {
        Some(i) => i,
        None => { return None; },
    };
    if !map.can_enter_tile(intent.destination) {
        return None;
    }
    match find_blocker(ecs, intent.destination, intent.entity) {
        Some(k) => {
            proof {
                assert(exists|k2: int| #[trigger] is_first_blocker(ecs.records@, intent.destination, intent.entity, k2)) by {
                    assert(is_first_blocker(ecs.records@, intent.destination, intent.entity, k as int));
                }
                assert(!(forall|k2: int| 0 <= k2 < ecs.records@.len() ==> !blocks(#[trigger] ecs.records@[k2], intent.destination, intent.entity))) by {
                    assert(blocks(ecs.records@[k as int], intent.destination, intent.entity));
                }
                assert forall|k2: int| #[trigger] is_first_blocker(ecs.records@, intent.destination, intent.entity, k2) implies k2 == k by {
                    if k2 < k {
                        assert(!blocks(ecs.records@[k2], intent.destination, intent.entity));
                    }
                    if k < k2 {
                        assert(!blocks(ecs.records@[k as int], intent.destination, intent.entity));
                    }
                }
            }
            let a = &ecs.records[i];
            let b = &ecs.records[k];
            if (a.player.is_some() && b.enemy.is_some()) || (a.enemy.is_some() && b.player.is_some()) {
                Some(WantsToAttack { attacker: intent.entity, victim: b.entity })
            } else {
                None
            }
        },
        None => {
            proof {
                if exists|k2: int| #[trigger] is_first_blocker(ecs.records@, intent.destination, intent.entity, k2) {
                    let k2 = choose|k2: int| #[trigger] is_first_blocker(ecs.records@, intent.destination, intent.entity, k2);
                    assert(!blocks(ecs.records@[k2], intent.destination, intent.entity));
                }
            }
            ecs.set_pos(i, intent.destination);
            None
        },
    }
}

/// Resolves the moves in order; positions are the only thing that changes,
/// and every attack returned comes from one of the moves.
pub fn movement(ecs: &mut World, map: &TileMap, moves: &Vec<WantsToMove>) -> (r: Vec<WantsToAttack>)
    requires
        old(ecs).wf(),
        map.wf(),
    ensures
        final(ecs).wf(),
        final(ecs).next_id == old(ecs).next_id,
        final(ecs).records@.len() == old(ecs).records@.len(),
        forall|k: int| 0 <= k < old(ecs).records@.len() ==> moved_only(old(ecs).records@[k], #[trigger] final(ecs).records@[k]),
        forall|a: int| 0 <= a < r@.len() ==> moves_entity(moves@, #[trigger] r@[a].attacker),
        final(ecs).records@ == run_moves(old(ecs).records@, map.tiles@, moves@),
        r@ == run_attacks(old(ecs).records@, map.tiles@, moves@),
{
    let mut attacks: Vec<WantsToAttack> = Vec::new();
    let mut m: usize = 0;
    while m < moves.len()
        invariant
            ecs.wf(),
            map.wf(),
            m <= moves@.len(),
            ecs.next_id == old(ecs).next_id,
            ecs.records@.len() == old(ecs).records@.len(),
            forall|k: int| 0 <= k < old(ecs).records@.len() ==> moved_only(old(ecs).records@[k], #[trigger] ecs.records@[k]),
            forall|a: int| 0 <= a < attacks@.len() ==> moves_entity(moves@, #[trigger] attacks@[a].attacker),
            ecs.records@ == run_moves(old(ecs).records@, map.tiles@, moves@.subrange(0, m as int)),
            attacks@ == run_attacks(old(ecs).records@, map.tiles@, moves@.subrange(0, m as int)),
        decreases moves@.len() - m,
    {
        let ghost before = ecs.records@;
        let ghost att = attacks@;
        let outcome = resolve_move(ecs, map, &moves[m]);
        proof {
            assert(moves@.subrange(0, m + 1).drop_last() =~= moves@.subrange(0, m as int));
            assert(moves@.subrange(0, m + 1).last() == moves@[m as int]);
            let mv = moves@[m as int];
            if live(before, mv.entity) && passable_at(map.tiles@, mv.destination.x as int, mv.destination.y as int)
                && (forall|k: int| 0 <= k < before.len() ==> !blocks(#[trigger] before[k], mv.destination, mv.entity)) {
                assert forall|k: int| 0 <= k < old(ecs).records@.len() implies moved_only(old(ecs).records@[k], #[trigger] ecs.records@[k]) by {
                    assert(moved_only(old(ecs).records@[k], before[k]));
                }
            } else if live(before, mv.entity) && passable_at(map.tiles@, mv.destination.x as int, mv.destination.y as int) {
                let k0 = choose|k: int| 0 <= k < before.len() && blocks(#[trigger] before[k], mv.destination, mv.entity);
                lemma_first_blocker_exists(before, mv.destination, mv.entity, k0);
            }
        }
        match outcome {
            Some(a) => {
                attacks.push(a);
                proof {
                    assert forall|x: int| 0 <= x < attacks@.len() implies moves_entity(moves@, #[trigger] attacks@[x].attacker) by {
                        if x < att.len() {
                            assert(attacks@[x] == att[x]);
                        } else {
                            assert(moves@[m as int].entity == attacks@[x].attacker);
                        }
                    }
                }
            },
            None => {},
        }
        m = m + 1;
    }
    assert(moves@.subrange(0, moves@.len() as int) =~= moves@);
    attacks
}

/// Where some record blocks `p`, a first one does.
proof fn lemma_first_blocker_exists(recs: Seq<EntityRecord>, p: Point, mover: Entity, k: int)
    requires
        0 <= k < recs.len(),
        blocks(recs[k], p, mover),
    ensures
        exists|f: int| #[trigger] is_first_blocker(recs, p, mover, f),
    decreases k,
{
    if exists|j: int| 0 <= j < k && blocks(#[trigger] recs[j], p, mover) {
        let j = choose|j: int| 0 <= j < k && blocks(#[trigger] recs[j], p, mover);
        lemma_first_blocker_exists(recs, p, mover, j);
    } else {
        assert(is_first_blocker(recs, p, mover, k));
    }
}

} // verus!
