//! Creating the player, the objective, items and monsters.
use vstd::prelude::*;
use bracket_lib::random::RandomNumberGenerator;
use crate::geometry::Point;
use crate::components::{
    Entity, Render, Player, Enemy, ChasingPlayer, Item, CosmicEgg, ProvidesHealing,
    ProvidesDungeonMap, Health, Name, FieldOfView,
};
use crate::themes::{ColorPair, color_pair, glyph_of, cp437_of, pair, rgb};
use crate::world::{World, EntityRecord, live};
use crate::rng::rng_roll_dice;

verus! {

pub const PLAYER_HEALTH: i32 = 10;

pub const PLAYER_SIGHT: i32 = 8;

pub const MONSTER_SIGHT: i32 = 6;

pub const POTION_HEALING: i32 = 6;

/// `w` holds one record more than `old`, appended at the end with a fresh
/// identifier.
pub open spec fn appended(old: &World, w: &World, e: Entity, pos: Point) -> bool {
    &&& w.wf()
    &&& w.next_id == old.next_id + 1
    &&& w.records@.len() == old.records@.len() + 1
    &&& w.records@.subrange(0, old.records@.len() as int) == old.records@
    &&& w.records@.last().entity == e
    &&& w.records@.last().pos == pos
    &&& !live(old.records@, e)
}

/// The kinds of thing a spawn point may hold.
#[derive(Clone, Copy, Debug, PartialEq, Eq, Structural)]
pub enum SpawnKind {
    HealingPotion,
    MagicMapper,
    Monster,
}

/// What a roll of one six-sided die spawns: a potion on 1, a scroll on 2, a
/// monster otherwise.
pub open spec fn spawn_kind_spec(roll: i32) -> SpawnKind {
    if roll == 1 {
        SpawnKind::HealingPotion
    } else if roll == 2 {
        SpawnKind::MagicMapper
    } else {
        SpawnKind::Monster
    }
}

pub fn spawn_kind_for_roll(roll: i32) -> (r: SpawnKind)
    ensures
        r == spawn_kind_spec(roll),
{
    if roll == 1 {
        SpawnKind::HealingPotion
    } else if roll == 2 {
        SpawnKind::MagicMapper
    } else {
        SpawnKind::Monster
    }
}

/// A rat: one hit point.
pub fn rat() -> (r: (i32, String, u16, ColorPair))
    ensures
        r.0 == 1,
        r.1@ == "Rat"@,
        r.2 == cp437_of('r'),
        r.3 == pair(rgb(190, 190, 190), rgb(0, 0, 0)),
{
    let name = String::from_str("Rat");
    (1, name, glyph_of('r'), color_pair(190, 190, 190, 0, 0, 0))
}

/// An ombolonian: two hit points.
pub fn ombolonian() -> (r: (i32, String, u16, ColorPair))
    ensures
        r.0 == 2,
        r.1@ == "Ombolonian"@,
        r.2 == cp437_of('o'),
        r.3 == pair(rgb(255, 0, 255), rgb(0, 0, 0)),
{
    let name = String::from_str("Ombolonian");
    (2, name, glyph_of('o'), color_pair(255, 0, 255, 0, 0, 0))
}

/// The monster a roll of one ten-sided die calls for: a rat on 1 to 8, an
/// ombolonian otherwise.
pub fn monster_for_roll(roll: i32) -> (r: (i32, String, u16, ColorPair))
    ensures
        1 <= roll <= 8 ==> r.0 == 1 && r.1@ == "Rat"@ && r.2 == cp437_of('r') && r.3 == pair(rgb(190, 190, 190), rgb(0, 0, 0)),
        !(1 <= roll <= 8) ==> r.0 == 2 && r.1@ == "Ombolonian"@ && r.2 == cp437_of('o') && r.3 == pair(rgb(255, 0, 255), rgb(0, 0, 0)),
{
    if 1 <= roll && roll <= 8 {
        rat()
    } else {
        ombolonian()
    }
}

/// Adds the player at `pos`, at full health, seeing `PLAYER_SIGHT` steps.
pub fn spawn_player(ecs: &mut World, pos: Point) -> (e: Entity)
    requires
        old(ecs).wf(),
        old(ecs).next_id < u64::MAX,
    ensures
        appended(old(ecs), final(ecs), e, pos),
        final(ecs).records@.last().player.is_some(),
        final(ecs).records@.last().enemy.is_none(),
        final(ecs).records@.last().item.is_none(),
        final(ecs).records@.last().egg.is_none(),
        final(ecs).records@.last().health == Some(Health { current: PLAYER_HEALTH, max: PLAYER_HEALTH }),
        final(ecs).records@.last().fov.is_some(),
        final(ecs).records@.last().fov.unwrap().radius == PLAYER_SIGHT,
        final(ecs).records@.last().render == (Render { color: pair(rgb(255, 204, 51), rgb(0, 0, 0)), glyph: cp437_of('@') }),
        final(ecs).records@.last().name.is_none(),
{
    let e = ecs.reserve();
    let render = Render { color: color_pair(255, 204, 51, 0, 0, 0), glyph: glyph_of('@') };
    let mut rec = EntityRecord::bare(e, pos, render);
    rec.player = Some(Player);
    rec.health = Some(Health { current: PLAYER_HEALTH, max: PLAYER_HEALTH });
    rec.fov = Some(FieldOfView { visible_tiles: Vec::new(), radius: PLAYER_SIGHT });
    ecs.insert(rec);
    proof {
        assert(ecs.records@.subrange(0, old(ecs).records@.len() as int) =~= old(ecs).records@);
    }
    e
}

/// Adds the objective at `pos`.
pub fn spawn_cosmic_egg(ecs: &mut World, pos: Point) -> (e: Entity)
    requires
        old(ecs).wf(),
        old(ecs).next_id < u64::MAX,
    ensures
        appended(old(ecs), final(ecs), e, pos),
        final(ecs).records@.last().egg.is_some(),
        final(ecs).records@.last().item.is_some(),
        final(ecs).records@.last().player.is_none(),
        final(ecs).records@.last().health.is_none(),
        final(ecs).records@.last().render == (Render { color: pair(rgb(255, 0, 255), rgb(0, 0, 0)), glyph: cp437_of('\u{3a6}') }),
        (final(ecs).records@.last().name.is_some() && final(ecs).records@.last().name.unwrap().0@ == "The Cosmic Egg of Eternity"@),
{
    let e = ecs.reserve();
    let render = Render { color: color_pair(255, 0, 255, 0, 0, 0), glyph: glyph_of('\u{3a6}') };
    let mut rec = EntityRecord::bare(e, pos, render);
    rec.item = Some(Item);
    rec.egg = Some(CosmicEgg);
    rec.name = Some(Name(String::from_str("The Cosmic Egg of Eternity")));
    ecs.insert(rec);
    proof {
        assert(ecs.records@.subrange(0, old(ecs).records@.len() as int) =~= old(ecs).records@);
    }
    e
}

/// Adds a potion that restores `POTION_HEALING` health.
pub fn spawn_healing_potion(ecs: &mut World, pos: Point) -> (e: Entity)
    requires
        old(ecs).wf(),
        old(ecs).next_id < u64::MAX,
    ensures
        appended(old(ecs), final(ecs), e, pos),
        final(ecs).records@.last().item.is_some(),
        final(ecs).records@.last().healing == Some(ProvidesHealing { amount: POTION_HEALING }),
        final(ecs).records@.last().dungeon_map.is_none(),
        final(ecs).records@.last().player.is_none(),
        final(ecs).records@.last().egg.is_none(),
        final(ecs).records@.last().health.is_none(),
        final(ecs).records@.last().render == (Render { color: pair(rgb(255, 0, 0), rgb(0, 0, 0)), glyph: cp437_of('!') }),
        (final(ecs).records@.last().name.is_some() && final(ecs).records@.last().name.unwrap().0@ == "Healing potion"@),
{
    let e = ecs.reserve();
    let render = Render { color: color_pair(255, 0, 0, 0, 0, 0), glyph: glyph_of('!') };
    let mut rec = EntityRecord::bare(e, pos, render);
    rec.item = Some(Item);
    rec.name = Some(Name(String::from_str("Healing potion")));
    rec.healing = Some(ProvidesHealing { amount: POTION_HEALING });
    ecs.insert(rec);
    proof {
        assert(ecs.records@.subrange(0, old(ecs).records@.len() as int) =~= old(ecs).records@);
    }
    e
}

/// Adds a scroll that reveals the whole map.
pub fn spawn_magic_mapper(ecs: &mut World, pos: Point) -> (e: Entity)
    requires
        old(ecs).wf(),
        old(ecs).next_id < u64::MAX,
    ensures
        appended(old(ecs), final(ecs), e, pos),
        final(ecs).records@.last().item.is_some(),
        final(ecs).records@.last().dungeon_map.is_some(),
        final(ecs).records@.last().healing.is_none(),
        final(ecs).records@.last().player.is_none(),
        final(ecs).records@.last().egg.is_none(),
        final(ecs).records@.last().health.is_none(),
        final(ecs).records@.last().render == (Render { color: pair(rgb(245, 245, 220), rgb(0, 0, 0)), glyph: cp437_of('{') }),
        (final(ecs).records@.last().name.is_some() && final(ecs).records@.last().name.unwrap().0@ == "Magic Scroll"@),
{
    let e = ecs.reserve();
    let render = Render { color: color_pair(245, 245, 220, 0, 0, 0), glyph: glyph_of('{') };
    let mut rec = EntityRecord::bare(e, pos, render);
    rec.item = Some(Item);
    rec.name = Some(Name(String::from_str("Magic Scroll")));
    rec.dungeon_map = Some(ProvidesDungeonMap);
    ecs.insert(rec);
    proof {
        assert(ecs.records@.subrange(0, old(ecs).records@.len() as int) =~= old(ecs).records@);
    }
    e
}

/// Adds the monster that `monster_for_roll` gives for `roll`, at full health,
/// hunting the player and seeing `MONSTER_SIGHT` steps.
pub fn spawn_monster_kind(ecs: &mut World, roll: i32, pos: Point) -> (e: Entity)
    requires
        old(ecs).wf(),
        old(ecs).next_id < u64::MAX,
    ensures
        appended(old(ecs), final(ecs), e, pos),
        final(ecs).records@.last().enemy.is_some(),
        final(ecs).records@.last().chasing.is_some(),
        final(ecs).records@.last().player.is_none(),
        final(ecs).records@.last().item.is_none(),
        final(ecs).records@.last().egg.is_none(),
        final(ecs).records@.last().fov.is_some(),
        final(ecs).records@.last().fov.unwrap().radius == MONSTER_SIGHT,
        final(ecs).records@.last().health == Some(
            if 1 <= roll <= 8 { Health { current: 1, max: 1 } } else { Health { current: 2, max: 2 } },
        ),
        final(ecs).records@.last().render == (if 1 <= roll <= 8 { Render { color: pair(rgb(190, 190, 190), rgb(0, 0, 0)), glyph: cp437_of('r') } } else { Render { color: pair(rgb(255, 0, 255), rgb(0, 0, 0)), glyph: cp437_of('o') } }),
        (final(ecs).records@.last().name.is_some() && final(ecs).records@.last().name.unwrap().0@ == (if 1 <= roll <= 8 { "Rat"@ } else { "Ombolonian"@ })),
{
    let (hp, name, glyph, color) = monster_for_roll(roll);
    let e = ecs.reserve();
    let mut rec = EntityRecord::bare(e, pos, Render { color, glyph });
    rec.enemy = Some(Enemy);
    rec.chasing = Some(ChasingPlayer);
    rec.health = Some(Health { current: hp, max: hp });
    rec.name = Some(Name(name));
    rec.fov = Some(FieldOfView { visible_tiles: Vec::new(), radius: MONSTER_SIGHT });
    ecs.insert(rec);
    proof {
        assert(ecs.records@.subrange(0, old(ecs).records@.len() as int) =~= old(ecs).records@);
    }
    e
}

/// Adds a random monster at `pos`.
pub fn spawn_monster(ecs: &mut World, rng: &mut RandomNumberGenerator, pos: Point) -> (e: Entity)
    requires
        old(ecs).wf(),
        old(ecs).next_id < u64::MAX,
    ensures
        appended(old(ecs), final(ecs), e, pos),
        final(ecs).records@.last().enemy.is_some(),
        final(ecs).records@.last().player.is_none(),
        final(ecs).records@.last().egg.is_none(),
        final(ecs).records@.last().health.is_some() ==> final(ecs).records@.last().health.unwrap().wf(),
        final(ecs).records@.last().health == Some(Health { current: 1, max: 1 }) || final(ecs).records@.last().health == Some(Health { current: 2, max: 2 }),
        final(ecs).records@.last().chasing.is_some(),
        final(ecs).records@.last().item.is_none(),
{
    let roll = rng_roll_dice(rng, 1, 10);
    spawn_monster_kind(ecs, roll, pos)
}

/// Adds what `spawn_kind_for_roll` gives for `roll` at `pos`; a monster is
/// drawn at random.
pub fn spawn_kind(ecs: &mut World, rng: &mut RandomNumberGenerator, kind: SpawnKind, pos: Point) -> (e: Entity)
    requires
        old(ecs).wf(),
        old(ecs).next_id < u64::MAX,
    ensures
        appended(old(ecs), final(ecs), e, pos),
        final(ecs).records@.last().player.is_none(),
        final(ecs).records@.last().egg.is_none(),
        kind == SpawnKind::HealingPotion ==> final(ecs).records@.last().healing == Some(ProvidesHealing { amount: POTION_HEALING }),
        kind == SpawnKind::MagicMapper ==> final(ecs).records@.last().dungeon_map.is_some(),
        kind == SpawnKind::Monster ==> final(ecs).records@.last().enemy.is_some(),
        final(ecs).records@.last().health.is_some() ==> final(ecs).records@.last().health.unwrap().wf(),
        kind != SpawnKind::Monster ==> final(ecs).records@.last().item.is_some(),
        kind == SpawnKind::Monster ==> final(ecs).records@.last().item.is_none(),
        kind == SpawnKind::HealingPotion ==> final(ecs).records@.last().dungeon_map.is_none(),
        kind == SpawnKind::MagicMapper ==> final(ecs).records@.last().healing.is_none(),
{
    match kind {
        SpawnKind::HealingPotion => spawn_healing_potion(ecs, pos),
        SpawnKind::MagicMapper => spawn_magic_mapper(ecs, pos),
        SpawnKind::Monster => spawn_monster(ecs, rng, pos),
    }
}

/// Adds a potion, a scroll or a monster at `pos`, on a roll of one die.
pub fn spawn_entity(ecs: &mut World, rng: &mut RandomNumberGenerator, pos: Point) -> (e: Entity)
    requires
        old(ecs).wf(),
        old(ecs).next_id < u64::MAX,
    ensures
        appended(old(ecs), final(ecs), e, pos),
        final(ecs).records@.last().player.is_none(),
        final(ecs).records@.last().egg.is_none(),
        final(ecs).records@.last().health.is_some() ==> final(ecs).records@.last().health.unwrap().wf(),
{
    let roll = rng_roll_dice(rng, 1, 6);
    spawn_kind(ecs, rng, spawn_kind_for_roll(roll), pos)
}

} // verus!
