//! Starting a session: a generated level with its entities placed.
use vstd::prelude::*;
use bracket_lib::random::RandomNumberGenerator;
use crate::geometry::Point;
use crate::map::{TileMap, passable_at};
use crate::map_builder::MapBuilder;
use crate::themes::Theme;
use crate::world::World;
use crate::turn_state::TurnState;
use crate::spawner::{spawn_player, spawn_cosmic_egg, spawn_entity, PLAYER_HEALTH};
use crate::systems::{session_ok, healths_wf, is_first_player};
use crate::placement::{all_connected, most_distant, spawn_ok, NUM_MONSTERS};
use crate::architects::GenerationError;
use crate::components::Health;

verus! {

/// Everything a running game owns.
pub struct Session {
    pub map: TileMap,
    pub ecs: World,
    pub theme: Theme,
    pub turn_state: TurnState,
    pub player_start: Point,
    pub egg_start: Point,
    /// The spawn points of the level, in the order their entities were made.
    pub spawns: Vec<Point>,
}

/// Generates a level and places the player at its start, at full health,
/// the objective at its farthest cell and one potion, scroll or monster on
/// each spawn point, in order. The real-time variant starts in `GamePlay`,
/// the other in `AwaitingInput`. Fails where generation gives up.
pub fn new_session(rng: &mut RandomNumberGenerator, realtime: bool) -> (r: Result<Session, GenerationError>)
    ensures
        r.is_err() ==> r == Err::<Session, GenerationError>(GenerationError::RetriesExhausted),
        r.is_ok() ==> {
            let s = r.unwrap();
            &&& s.map.wf()
            &&& s.ecs.wf()
            &&& session_ok(s.ecs.records@)
            &&& healths_wf(s.ecs.records@)
            &&& passable_at(s.map.tiles@, s.player_start.x as int, s.player_start.y as int)
            &&& all_connected(s.map.tiles@, s.player_start)
            &&& most_distant(s.map.tiles@, s.player_start, s.egg_start)
            &&& s.ecs.records@[0].player.is_some()
            &&& s.ecs.records@[0].pos == s.player_start
            &&& s.ecs.records@[0].health == Some(Health { current: PLAYER_HEALTH, max: PLAYER_HEALTH })
            &&& forall|k: int| 0 < k < s.ecs.records@.len() ==> (#[trigger] s.ecs.records@[k]).player.is_none()
            &&& s.ecs.records@[1].egg.is_some()
            &&& s.ecs.records@[1].pos == s.egg_start
            &&& s.ecs.records@.len() == 2 + s.spawns@.len()
            &&& (forall|i: int| 0 <= i < s.spawns@.len() ==> (#[trigger] s.ecs.records@[2 + i]).pos == s.spawns@[i])
            &&& (forall|i: int| 0 <= i < s.spawns@.len() ==> spawn_ok(s.map.tiles@, s.player_start, #[trigger] s.spawns@[i]))
            &&& s.turn_state == (if realtime { TurnState::GamePlay } else { TurnState::AwaitingInput })
        },
{
    let mb = match MapBuilder::new(rng) {
        Ok(mb) => mb,
        Err(e) => {
            return Err(e);
        },
    };
    let mut ecs = World::new();
    spawn_player(&mut ecs, mb.player_start);
    spawn_cosmic_egg(&mut ecs, mb.egg_start);
    assert(ecs.records@[0].player.is_some());
    assert(ecs.records@[1].egg.is_some());
    let mut i: usize = 0;
    while i < mb.monster_spawns.len()
        invariant
            ecs.wf(),
            ecs.next_id == 2 + i,
            i <= mb.monster_spawns@.len(),
            mb.monster_spawns@.len() <= NUM_MONSTERS,
            ecs.records@.len() == 2 + i,
            ecs.records@[0].player.is_some(),
            ecs.records@[0].pos == mb.player_start,
            ecs.records@[0].health == Some(Health { current: PLAYER_HEALTH, max: PLAYER_HEALTH }),
            ecs.records@[1].egg.is_some(),
            ecs.records@[1].player.is_none(),
            ecs.records@[1].pos == mb.egg_start,
            forall|k: int| 1 < k < ecs.records@.len() ==> (#[trigger] ecs.records@[k]).player.is_none(),
            forall|j: int| 0 <= j < i ==> (#[trigger] ecs.records@[2 + j]).pos == mb.monster_spawns@[j],
            healths_wf(ecs.records@),
        decreases mb.monster_spawns@.len() - i,
    {
        let ghost before = ecs.records@;
        spawn_entity(&mut ecs, rng, mb.monster_spawns[i]);
        proof {
            assert forall|k: int| 0 <= k < before.len() implies ecs.records@[k] == before[k] by {
                assert(ecs.records@.subrange(0, before.len() as int)[k] == before[k]);
            }
            assert forall|k: int| 0 <= k < ecs.records@.len() && (#[trigger] ecs.records@[k]).health.is_some() implies ecs.records@[k].health.unwrap().wf() by {
                if k < before.len() {
                    assert(ecs.records@[k] == before[k]);
                }
            }
            assert forall|k: int| 1 < k < ecs.records@.len() implies (#[trigger] ecs.records@[k]).player.is_none() by {
                if k < before.len() {
                    assert(ecs.records@[k] == before[k]);
                }
            }
            assert forall|j: int| 0 <= j < i + 1 implies (#[trigger] ecs.records@[2 + j]).pos == mb.monster_spawns@[j] by {
                if j < i {
                    assert(ecs.records@[2 + j] == before[2 + j]);
                }
            }
        }
        i = i + 1;
    }
    proof {
        let recs = ecs.records@;
        assert(recs[0].player.is_some());
        assert forall|p: int| is_first_player(recs, p) implies (#[trigger] recs[p]).health.is_some() by {
            if p > 0 {
                assert(recs[0].player.is_none());
            }
        }
        assert(recs[1].player.is_none());
    }
    Ok(Session {
        map: mb.map,
        ecs,
        theme: mb.theme,
        turn_state: TurnState::reset(realtime),
        player_start: mb.player_start,
        egg_start: mb.egg_start,
        spawns: mb.monster_spawns,
    })
}

} // verus!
