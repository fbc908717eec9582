//! Populating the dungeon: the player, and per-room monsters and items
//! chosen from a weighted spawn table at distinct random tiles.

use vstd::prelude::*;

use rustc_hash::FxHashMap;

use crate::components::{
    AreaOfEffect, BlocksTile, CombatStats, Color, Confusion, Consumable, InflictsDamage, Item,
    Monster, Name, Player, Position, ProvidesHealing, Ranged, Renderable, Viewshed,
};
use crate::entity::Entity;
use crate::map::MAPWIDTH;
use crate::rect::Rect;
use crate::rng::Rng;
use crate::rng_table::RngTable;
use crate::world::World;
use vstd::string::StringExecFns;

verus! {

/// The hasher `rustc_hash` builds its maps with.
#[verifier::external_type_specification]
#[verifier::external_body]
pub struct ExFxBuildHasher(rustc_hash::FxBuildHasher);

/// Chosen spawn tiles, each with the name rolled for it (no name when the
/// table yielded no spawn).
pub type SpawnPoints = FxHashMap<usize, Option<String>>;

/// A spawn-point map being handed out.
pub type SpawnSlot = Option<SpawnPoints>;

/// What a spawn-point map holds.
pub uninterp spec fn fx_contents(m: SpawnPoints) -> Map<int, Option<Seq<char>>>;

/// The view of an optional owned name.
pub open spec fn opt_name_view(v: Option<String>) -> Option<Seq<char>> {
    match v {
        Some(s) => Some(s@),
        None => None,
    }
}

/// Relies on `HashMap::default`: a freshly built map is empty.
#[verifier::external_body]
fn fx_new_into(slot: &mut SpawnSlot)
    ensures
        (*final(slot)) is Some && (forall|m: SpawnPoints|
            (*final(slot)) == Some(m) ==> fx_contents(m) == Map::<int, Option<Seq<char>>>::empty()),
{
    *slot = Some(FxHashMap::default());
}

/// Relies on `HashMap::entry`: a vacant key takes the value and reports
/// true; an occupied key is left untouched and reports false.
#[verifier::external_body]
fn fx_try_insert(m: &mut SpawnPoints, key: usize, value: Option<String>) -> (r: bool)
    ensures
        r == !fx_contents(*old(m)).contains_key(key as int),
        r ==> fx_contents(*final(m)) == fx_contents(*old(m)).insert(
            key as int,
            opt_name_view(value),
        ),
        !r ==> fx_contents(*final(m)) == fx_contents(*old(m)),
{
    if let std::collections::hash_map::Entry::Vacant(e) = m.entry(key) {
        e.insert(value);
        true
    } else {
        false
    }
}

/// Relies on `HashMap::iter`: every stored pair is listed exactly once, in
/// no promised order.
#[verifier::external_body]
fn fx_to_vec(m: &SpawnPoints) -> (r: Vec<(usize, Option<String>)>)
    ensures
        forall|j: int|
            0 <= j < r@.len() ==> fx_contents(*m).contains_key((#[trigger] r@[j]).0 as int)
                && opt_name_view(r@[j].1) == fx_contents(*m)[r@[j].0 as int],
        forall|j1: int, j2: int| 0 <= j1 < j2 < r@.len() ==> r@[j1].0 != r@[j2].0,
        forall|key: int|
            fx_contents(*m).contains_key(key) ==> exists|j: int|
                0 <= j < r@.len() && (#[trigger] r@[j]).0 as int == key,
{
    m.iter().map(|(k, v)| (*k, v.clone())).collect()
}

/// Spawn the player at (`player_x`, `player_y`) and return its identifier.
pub fn player(world: &mut World, player_x: i32, player_y: i32) -> (r: Entity)
    requires
        old(world).wf(),
        old(world).entities.spec_capacity() < u32::MAX as nat,
    ensures
        final(world).wf(),
        forall|e: Entity|
            old(world).entities.spec_retired(e) ==> final(world).entities.spec_retired(e),
        final(world).entities.spec_is_live(r),
        !old(world).entities.spec_is_live(r),
        old(world).entities.spec_entity_at(r.index as int) is None,
        forall|e: Entity|
            e != r ==> final(world).entities.spec_is_live(e) == old(
                world,
            ).entities.spec_is_live(e),
        forall|i: int|
            i != r.index as int ==> crate::damage::attrs_unchanged_at(
                *old(world),
                *final(world),
                i,
            ),
        final(world).players@.contains_key(r.index as int),
        final(world).positions@.contains_key(r.index as int),
        final(world).positions@[r.index as int] == (Position { x: player_x, y: player_y }),
        final(world).combat_stats@.contains_key(r.index as int),
        final(world).combat_stats@[r.index as int] == (CombatStats {
            max_hp: 30,
            hp: 30,
            defense: 2,
            power: 5,
        }),
        final(world).viewsheds@.contains_key(r.index as int),
        final(world).viewsheds@[r.index as int].range == 8,
        final(world).viewsheds@[r.index as int].dirty,
        final(world).names@.contains_key(r.index as int),
        final(world).names@[r.index as int].name@ == ("Player")@,
        final(world).monsters@ == old(world).monsters@,
        final(world).items@ == old(world).items@,
        final(world).blockers@ == old(world).blockers@,
{
    let ent = world.create_entity();
    let i = ent.index as usize;
    world.players.insert(i, Player);
    world.names.insert(i, Name { name: String::from_str("Player") });
    world.combat_stats.insert(i, CombatStats { max_hp: 30, hp: 30, defense: 2, power: 5 });
    world.positions.insert(i, Position { x: player_x, y: player_y });
    world.renderables.insert(
        i,
        Renderable {
            glyph: 64,
            fg: Color { r: 255, g: 255, b: 0 },
            bg: Color { r: 0, g: 0, b: 0 },
            render_order: 0,
        },
    );
    world.viewsheds.insert(i, Viewshed { visible_tiles: Vec::new(), range: 8, dirty: true });
    ent
}

/// The per-room spawn table: goblins are common, the nastier entries get
/// more likely with depth.
pub fn room_entity_spawn_table(map_depth: i32) -> (r: RngTable)
    requires
        0 <= map_depth <= 1000000,
    ensures
        r.wf(),
        r.entries@.len() == 6,
        r.total_weight == 26 + 3 * map_depth,
        r.entries@[0].name@ == ("Goblin")@ && r.entries@[0].weight == 10,
        r.entries@[1].name@ == ("Orc")@ && r.entries@[1].weight == 1 + map_depth,
        r.entries@[2].name@ == ("Health Potion")@ && r.entries@[2].weight == 7,
        r.entries@[3].name@ == ("Fireball Scroll")@ && r.entries@[3].weight == 2 + map_depth,
        r.entries@[4].name@ == ("Confusion Scroll")@ && r.entries@[4].weight == 2 + map_depth,
        r.entries@[5].name@ == ("Magic Missile Scroll")@ && r.entries@[5].weight == 4,
    {
    RngTable::new().add("Goblin", 10).add("Orc", 1 + map_depth).add("Health Potion", 7).add(
        "Fireball Scroll",
        2 + map_depth,
    ).add("Confusion Scroll", 2 + map_depth).add("Magic Missile Scroll", 4)
}

/// Spawn a monster: blocks its tile, 16 hit points, defense 1, power 4,
/// sight range 8.
fn spawn_monster(world: &mut World, x: i32, y: i32, glyph: u16, name: &str) -> (r: Entity)
    requires
        old(world).wf(),
        old(world).entities.spec_capacity() < u32::MAX as nat,
    ensures
        final(world).wf(),
        forall|e: Entity|
            old(world).entities.spec_retired(e) ==> final(world).entities.spec_retired(e),
        final(world).entities.spec_is_live(r),
        !old(world).entities.spec_is_live(r),
        old(world).entities.spec_entity_at(r.index as int) is None,
        forall|e: Entity|
            e != r ==> final(world).entities.spec_is_live(e) == old(
                world,
            ).entities.spec_is_live(e),
        forall|i: int|
            i != r.index as int ==> crate::damage::attrs_unchanged_at(
                *old(world),
                *final(world),
                i,
            ),
        final(world).monsters@.contains_key(r.index as int),
        final(world).blockers@.contains_key(r.index as int),
        final(world).positions@.contains_key(r.index as int),
        final(world).positions@[r.index as int] == (Position { x, y }),
        final(world).entities.spec_capacity() <= old(world).entities.spec_capacity()
            + 1,
        final(world).combat_stats@.contains_key(r.index as int),
        final(world).combat_stats@[r.index as int] == (CombatStats {
            max_hp: 16,
            hp: 16,
            defense: 1,
            power: 4,
        }),
        final(world).viewsheds@.contains_key(r.index as int),
        final(world).names@[r.index as int].name@ == name@,
        final(world).names@.contains_key(r.index as int),
{
    let ent = world.create_entity();
    let i = ent.index as usize;
    world.monsters.insert(i, Monster);
    world.names.insert(i, Name { name: String::from_str(name) });
    world.blockers.insert(i, BlocksTile);
    world.combat_stats.insert(i, CombatStats { max_hp: 16, hp: 16, defense: 1, power: 4 });
    world.positions.insert(i, Position { x, y });
    world.renderables.insert(
        i,
        Renderable {
            glyph,
            fg: Color { r: 255, g: 0, b: 0 },
            bg: Color { r: 0, g: 0, b: 0 },
            render_order: 1,
        },
    );
    world.viewsheds.insert(i, Viewshed { visible_tiles: Vec::new(), range: 8, dirty: true });
    ent
}

/// Spawn an orc.
fn spawn_orc(world: &mut World, x: i32, y: i32) -> (r: Entity)
    requires
        old(world).wf(),
        old(world).entities.spec_capacity() < u32::MAX as nat,
    ensures
        final(world).wf(),
        forall|e: Entity|
            old(world).entities.spec_retired(e) ==> final(world).entities.spec_retired(e),
        final(world).entities.spec_is_live(r),
        final(world).monsters@.contains_key(r.index as int),
        final(world).blockers@.contains_key(r.index as int),
        final(world).combat_stats@.contains_key(r.index as int),
        final(world).combat_stats@[r.index as int] == (CombatStats {
            max_hp: 16,
            hp: 16,
            defense: 1,
            power: 4,
        }),
        final(world).names@.contains_key(r.index as int),
        final(world).names@[r.index as int].name@ == ("Orc")@,
        final(world).positions@.contains_key(r.index as int),
        final(world).positions@[r.index as int] == (Position { x, y }),
        final(world).entities.spec_capacity() <= old(world).entities.spec_capacity()
            + 1,
        old(world).entities.spec_entity_at(r.index as int) is None,
        forall|e: Entity|
            e != r ==> final(world).entities.spec_is_live(e) == old(
                world,
            ).entities.spec_is_live(e),
        forall|i: int|
            i != r.index as int ==> crate::damage::attrs_unchanged_at(
                *old(world),
                *final(world),
                i,
            ),
{
    spawn_monster(world, x, y, 111, "Orc")
}

/// Spawn a goblin.
fn spawn_goblin(world: &mut World, x: i32, y: i32) -> (r: Entity)
    requires
        old(world).wf(),
        old(world).entities.spec_capacity() < u32::MAX as nat,
    ensures
        final(world).wf(),
        forall|e: Entity|
            old(world).entities.spec_retired(e) ==> final(world).entities.spec_retired(e),
        final(world).entities.spec_is_live(r),
        final(world).monsters@.contains_key(r.index as int),
        final(world).blockers@.contains_key(r.index as int),
        final(world).combat_stats@.contains_key(r.index as int),
        final(world).combat_stats@[r.index as int] == (CombatStats {
            max_hp: 16,
            hp: 16,
            defense: 1,
            power: 4,
        }),
        final(world).names@.contains_key(r.index as int),
        final(world).names@[r.index as int].name@ == ("Goblin")@,
        final(world).positions@.contains_key(r.index as int),
        final(world).positions@[r.index as int] == (Position { x, y }),
        final(world).entities.spec_capacity() <= old(world).entities.spec_capacity()
            + 1,
        old(world).entities.spec_entity_at(r.index as int) is None,
        forall|e: Entity|
            e != r ==> final(world).entities.spec_is_live(e) == old(
                world,
            ).entities.spec_is_live(e),
        forall|i: int|
            i != r.index as int ==> crate::damage::attrs_unchanged_at(
                *old(world),
                *final(world),
                i,
            ),
{
    spawn_monster(world, x, y, 103, "Goblin")
}

/// Spawn a health potion: a consumable that heals 8.
pub fn spawn_health_potion(world: &mut World, x: i32, y: i32) -> (r: Entity)
    requires
        old(world).wf(),
        old(world).entities.spec_capacity() < u32::MAX as nat,
    ensures
        final(world).wf(),
        forall|e: Entity|
            old(world).entities.spec_retired(e) ==> final(world).entities.spec_retired(e),
        final(world).entities.spec_is_live(r),
        !old(world).entities.spec_is_live(r),
        old(world).entities.spec_entity_at(r.index as int) is None,
        forall|e: Entity|
            e != r ==> final(world).entities.spec_is_live(e) == old(
                world,
            ).entities.spec_is_live(e),
        forall|i: int|
            i != r.index as int ==> crate::damage::attrs_unchanged_at(
                *old(world),
                *final(world),
                i,
            ),
        final(world).items@.contains_key(r.index as int),
        final(world).consumables@.contains_key(r.index as int),
        final(world).healers@.contains_key(r.index as int),
        final(world).healers@[r.index as int] == (ProvidesHealing { heal_amount: 8 }),
        final(world).positions@.contains_key(r.index as int),
        final(world).positions@[r.index as int] == (Position { x, y }),
        final(world).names@.contains_key(r.index as int),
        final(world).names@[r.index as int].name@ == ("Health Potion")@,
        final(world).entities.spec_capacity() <= old(world).entities.spec_capacity()
            + 1,
{
    let ent = world.create_entity();
    let i = ent.index as usize;
    world.items.insert(i, Item);
    world.consumables.insert(i, Consumable);
    world.healers.insert(i, ProvidesHealing { heal_amount: 8 });
    world.names.insert(i, Name { name: String::from_str("Health Potion") });
    world.positions.insert(i, Position { x, y });
    world.renderables.insert(
        i,
        Renderable {
            glyph: 173,
            fg: Color { r: 255, g: 0, b: 255 },
            bg: Color { r: 0, g: 0, b: 0 },
            render_order: 2,
        },
    );
    ent
}

/// Spawn a fireball scroll: ranged, 20 damage over a radius-3 blast.
pub fn spawn_fireball_scroll(world: &mut World, x: i32, y: i32) -> (r: Entity)
    requires
        old(world).wf(),
        old(world).entities.spec_capacity() < u32::MAX as nat,
    ensures
        final(world).wf(),
        forall|e: Entity|
            old(world).entities.spec_retired(e) ==> final(world).entities.spec_retired(e),
        final(world).entities.spec_is_live(r),
        !old(world).entities.spec_is_live(r),
        old(world).entities.spec_entity_at(r.index as int) is None,
        forall|e: Entity|
            e != r ==> final(world).entities.spec_is_live(e) == old(
                world,
            ).entities.spec_is_live(e),
        forall|i: int|
            i != r.index as int ==> crate::damage::attrs_unchanged_at(
                *old(world),
                *final(world),
                i,
            ),
        final(world).items@.contains_key(r.index as int),
        final(world).consumables@.contains_key(r.index as int),
        final(world).ranged_items@[r.index as int] == (Ranged { range: 6 }),
        final(world).ranged_items@.contains_key(r.index as int),
        final(world).damagers@.contains_key(r.index as int),
        final(world).damagers@[r.index as int] == (InflictsDamage { damage: 20 }),
        final(world).aoes@.contains_key(r.index as int),
        final(world).aoes@[r.index as int] == (AreaOfEffect { radius: 3 }),
        final(world).positions@.contains_key(r.index as int),
        final(world).positions@[r.index as int] == (Position { x, y }),
        final(world).names@.contains_key(r.index as int),
        final(world).names@[r.index as int].name@ == ("Fireball Scroll")@,
        final(world).entities.spec_capacity() <= old(world).entities.spec_capacity()
            + 1,
{
    let ent = world.create_entity();
    let i = ent.index as usize;
    world.items.insert(i, Item);
    world.consumables.insert(i, Consumable);
    world.ranged_items.insert(i, Ranged { range: 6 });
    world.damagers.insert(i, InflictsDamage { damage: 20 });
    world.aoes.insert(i, AreaOfEffect { radius: 3 });
    world.names.insert(i, Name { name: String::from_str("Fireball Scroll") });
    world.positions.insert(i, Position { x, y });
    world.renderables.insert(
        i,
        Renderable {
            glyph: 41,
            fg: Color { r: 255, g: 165, b: 0 },
            bg: Color { r: 0, g: 0, b: 0 },
            render_order: 2,
        },
    );
    ent
}

/// Spawn a magic missile scroll: ranged, 8 damage to a single tile.
pub fn spawn_magic_missile_scroll(world: &mut World, x: i32, y: i32) -> (r: Entity)
    requires
        old(world).wf(),
        old(world).entities.spec_capacity() < u32::MAX as nat,
    ensures
        final(world).wf(),
        forall|e: Entity|
            old(world).entities.spec_retired(e) ==> final(world).entities.spec_retired(e),
        final(world).entities.spec_is_live(r),
        old(world).entities.spec_entity_at(r.index as int) is None,
        forall|e: Entity|
            e != r ==> final(world).entities.spec_is_live(e) == old(
                world,
            ).entities.spec_is_live(e),
        forall|i: int|
            i != r.index as int ==> crate::damage::attrs_unchanged_at(
                *old(world),
                *final(world),
                i,
            ),
        final(world).items@.contains_key(r.index as int),
        final(world).consumables@.contains_key(r.index as int),
        final(world).damagers@.contains_key(r.index as int),
        final(world).damagers@[r.index as int] == (InflictsDamage { damage: 8 }),
        final(world).ranged_items@.contains_key(r.index as int),
        final(world).ranged_items@[r.index as int] == (Ranged { range: 6 }),
        final(world).positions@.contains_key(r.index as int),
        final(world).positions@[r.index as int] == (Position { x, y }),
        final(world).names@.contains_key(r.index as int),
        final(world).names@[r.index as int].name@ == ("Magic Missile Scroll")@,
        final(world).entities.spec_capacity() <= old(world).entities.spec_capacity()
            + 1,
{
    let ent = world.create_entity();
    let i = ent.index as usize;
    world.items.insert(i, Item);
    world.consumables.insert(i, Consumable);
    world.ranged_items.insert(i, Ranged { range: 6 });
    world.damagers.insert(i, InflictsDamage { damage: 8 });
    world.names.insert(i, Name { name: String::from_str("Magic Missile Scroll") });
    world.positions.insert(i, Position { x, y });
    world.renderables.insert(
        i,
        Renderable {
            glyph: 41,
            fg: Color { r: 0, g: 255, b: 255 },
            bg: Color { r: 0, g: 0, b: 0 },
            render_order: 2,
        },
    );
    ent
}

/// Spawn a confusion scroll: ranged, confuses for 4 turns.
pub fn spawn_confusion_scroll(world: &mut World, x: i32, y: i32) -> (r: Entity)
    requires
        old(world).wf(),
        old(world).entities.spec_capacity() < u32::MAX as nat,
    ensures
        final(world).wf(),
        forall|e: Entity|
            old(world).entities.spec_retired(e) ==> final(world).entities.spec_retired(e),
        final(world).entities.spec_is_live(r),
        old(world).entities.spec_entity_at(r.index as int) is None,
        forall|e: Entity|
            e != r ==> final(world).entities.spec_is_live(e) == old(
                world,
            ).entities.spec_is_live(e),
        forall|i: int|
            i != r.index as int ==> crate::damage::attrs_unchanged_at(
                *old(world),
                *final(world),
                i,
            ),
        final(world).items@.contains_key(r.index as int),
        final(world).consumables@.contains_key(r.index as int),
        final(world).confusions@.contains_key(r.index as int),
        final(world).confusions@[r.index as int] == (Confusion { turns: 4 }),
        final(world).ranged_items@.contains_key(r.index as int),
        final(world).ranged_items@[r.index as int] == (Ranged { range: 6 }),
        final(world).positions@.contains_key(r.index as int),
        final(world).positions@[r.index as int] == (Position { x, y }),
        final(world).names@.contains_key(r.index as int),
        final(world).names@[r.index as int].name@ == ("Confusion Scroll")@,
        final(world).entities.spec_capacity() <= old(world).entities.spec_capacity()
            + 1,
{
    let ent = world.create_entity();
    let i = ent.index as usize;
    world.items.insert(i, Item);
    world.consumables.insert(i, Consumable);
    world.ranged_items.insert(i, Ranged { range: 6 });
    world.confusions.insert(i, Confusion { turns: 4 });
    world.names.insert(i, Name { name: String::from_str("Confusion Scroll") });
    world.positions.insert(i, Position { x, y });
    world.renderables.insert(
        i,
        Renderable {
            glyph: 41,
            fg: Color { r: 255, g: 192, b: 203 },
            bg: Color { r: 0, g: 0, b: 0 },
            render_order: 2,
        },
    );
    ent
}


/// The attribute bundle of each spawnable kind, as the spawn table names
/// them: a goblin or orc (a blocking fighter), or one of the four items.
/// The attribute bundle a spawned goblin carries.
pub open spec fn goblin_bundle(w: World, i: int) -> bool {
    &&& w.monsters@.contains_key(i)
    &&& w.blockers@.contains_key(i)
    &&& w.combat_stats@.contains_key(i)
    &&& w.combat_stats@[i] == (CombatStats { max_hp: 16, hp: 16, defense: 1, power: 4 })
    &&& w.names@.contains_key(i)
    &&& w.names@[i].name@ == ("Goblin")@
}

/// The attribute bundle a spawned orc carries.
pub open spec fn orc_bundle(w: World, i: int) -> bool {
    &&& w.monsters@.contains_key(i)
    &&& w.blockers@.contains_key(i)
    &&& w.combat_stats@.contains_key(i)
    &&& w.combat_stats@[i] == (CombatStats { max_hp: 16, hp: 16, defense: 1, power: 4 })
    &&& w.names@.contains_key(i)
    &&& w.names@[i].name@ == ("Orc")@
}

/// The attribute bundle a spawned health potion carries.
pub open spec fn potion_bundle(w: World, i: int) -> bool {
    &&& w.items@.contains_key(i)
    &&& w.consumables@.contains_key(i)
    &&& w.healers@.contains_key(i)
    &&& w.healers@[i] == (ProvidesHealing { heal_amount: 8 })
    &&& w.names@.contains_key(i)
    &&& w.names@[i].name@ == ("Health Potion")@
}

/// The attribute bundle a spawned fireball scroll carries.
pub open spec fn fireball_bundle(w: World, i: int) -> bool {
    &&& w.items@.contains_key(i)
    &&& w.consumables@.contains_key(i)
    &&& w.damagers@.contains_key(i)
    &&& w.damagers@[i] == (InflictsDamage { damage: 20 })
    &&& w.aoes@.contains_key(i)
    &&& w.aoes@[i] == (AreaOfEffect { radius: 3 })
    &&& w.ranged_items@.contains_key(i)
    &&& w.ranged_items@[i] == (Ranged { range: 6 })
    &&& w.names@.contains_key(i)
    &&& w.names@[i].name@ == ("Fireball Scroll")@
}

/// The attribute bundle a spawned confusion scroll carries.
pub open spec fn confusion_bundle(w: World, i: int) -> bool {
    &&& w.items@.contains_key(i)
    &&& w.consumables@.contains_key(i)
    &&& w.confusions@.contains_key(i)
    &&& w.confusions@[i] == (Confusion { turns: 4 })
    &&& w.ranged_items@.contains_key(i)
    &&& w.ranged_items@[i] == (Ranged { range: 6 })
    &&& w.names@.contains_key(i)
    &&& w.names@[i].name@ == ("Confusion Scroll")@
}

/// The attribute bundle a spawned magic missile scroll carries.
pub open spec fn missile_bundle(w: World, i: int) -> bool {
    &&& w.items@.contains_key(i)
    &&& w.consumables@.contains_key(i)
    &&& w.damagers@.contains_key(i)
    &&& w.damagers@[i] == (InflictsDamage { damage: 8 })
    &&& w.ranged_items@.contains_key(i)
    &&& w.ranged_items@[i] == (Ranged { range: 6 })
    &&& w.names@.contains_key(i)
    &&& w.names@[i].name@ == ("Magic Missile Scroll")@
}

/// One of the six spawn-table bundles.
pub open spec fn spawned_bundle(w: World, i: int) -> bool {
    ||| goblin_bundle(w, i)
    ||| orc_bundle(w, i)
    ||| potion_bundle(w, i)
    ||| fireball_bundle(w, i)
    ||| confusion_bundle(w, i)
    ||| missile_bundle(w, i)
}

/// The name is one of the six the spawn table can roll.
pub open spec fn known_spawn_name(name: Seq<char>) -> bool {
    ||| name == ("Goblin")@
    ||| name == ("Orc")@
    ||| name == ("Health Potion")@
    ||| name == ("Fireball Scroll")@
    ||| name == ("Confusion Scroll")@
    ||| name == ("Magic Missile Scroll")@
}

/// The bundle that the spawn-table entry called `name` lays down.
pub open spec fn named_bundle(name: Seq<char>, w: World, i: int) -> bool {
    if name == ("Goblin")@ {
        goblin_bundle(w, i)
    } else if name == ("Orc")@ {
        orc_bundle(w, i)
    } else if name == ("Health Potion")@ {
        potion_bundle(w, i)
    } else if name == ("Fireball Scroll")@ {
        fireball_bundle(w, i)
    } else if name == ("Confusion Scroll")@ {
        confusion_bundle(w, i)
    } else if name == ("Magic Missile Scroll")@ {
        missile_bundle(w, i)
    } else {
        false
    }
}


/// A chosen spawn tile: a flattened index decomposing to a cell strictly
/// inside the room, past its top-left walls.
pub open spec fn spawn_key_ok(key: int, room: Rect) -> bool {
    &&& 0 <= key < 80 * 43
    &&& room.x1 + 2 <= key % 80 <= room.x2
    &&& room.y1 + 2 <= key / 80 <= room.y2
}

/// Distinct flattened spawn keys name distinct cells.
proof fn lemma_key_cell_injective(k1: int, k2: int)
    requires
        0 <= k1 < 80 * 43,
        0 <= k2 < 80 * 43,
        k1 % 80 == k2 % 80,
        k1 / 80 == k2 / 80,
    ensures
        k1 == k2,
{
    assert(k1 == (k1 / 80) * 80 + k1 % 80 && k2 == (k2 / 80) * 80 + k2 % 80) by (nonlinear_arith)
        requires
            0 <= k1,
            0 <= k2,
    ;
}

/// Fill a room with monsters and items: roll a spawn count, pick that many
/// distinct tiles inside the room, roll the spawn table for each, and
/// spawn what it names. Already-live entities are unaffected.
/// Between `w0` and `w1` exactly the spawn list `pts` was applied: each
/// listed tile lies in the room's spawn window and is distinct, every new
/// entity stands on a listed tile carrying the bundle its entry named, and
/// while entity slots remained every named entry got its entity.
pub open spec fn spawn_points_applied(
    w0: World,
    w1: World,
    pts: Seq<(usize, Option<String>)>,
    room: Rect,
) -> bool {
    &&& forall|j: int| 0 <= j < pts.len() ==> spawn_key_ok((#[trigger] pts[j]).0 as int, room)
    &&& forall|j1: int, j2: int| 0 <= j1 < j2 < pts.len() ==> pts[j1].0 != pts[j2].0
    &&& forall|e: Entity|
        #![trigger w1.entities.spec_is_live(e)]
        w1.entities.spec_is_live(e) && !w0.entities.spec_is_live(e) ==> {
            &&& w1.positions@.contains_key(e.index as int)
            &&& exists|j: int|
                0 <= j < pts.len() && w1.positions@[e.index as int] == (Position {
                    x: ((#[trigger] pts[j]).0 % 80) as i32,
                    y: (pts[j].0 / 80) as i32,
                }) && pts[j].1 is Some && named_bundle((pts[j].1)->0@, w1, e.index as int)
        }
    &&& (w0.entities.spec_capacity() + pts.len() < u32::MAX as nat ==> forall|j: int|
        0 <= j < pts.len() && ((#[trigger] pts[j]).1 is Some) && known_spawn_name(
            (pts[j].1)->0@,
        ) ==> exists|e: Entity|
        #![trigger w1.entities.spec_is_live(e)]
        {
            &&& w1.entities.spec_is_live(e)
            &&& !w0.entities.spec_is_live(e)
            &&& w1.positions@.contains_key(e.index as int)
            &&& w1.positions@[e.index as int] == (Position {
                x: ((pts[j]).0 % 80) as i32,
                y: ((pts[j]).0 / 80) as i32,
            })
            &&& named_bundle((pts[j].1)->0@, w1, e.index as int)
        })
}

/// Apply a decided spawn list. For each listed tile whose entry names one
/// of the spawn table's kinds, one new entity carrying exactly that kind's
/// bundle is created on that tile, as long as entity slots remain; the
/// listed tiles are distinct, so no two new entities share one, and every
/// new entity stands on a listed tile with the kind its entry named.
/// Entities that already existed are untouched.
pub fn apply_spawn_points(world: &mut World, points: &Vec<(usize, Option<String>)>, room: &Rect)
    requires
        old(world).wf(),
        0 <= room.x1,
        room.x1 + 2 <= room.x2,
        room.x2 <= 78,
        0 <= room.y1,
        room.y1 + 2 <= room.y2,
        room.y2 <= 41,
        forall|j: int|
            0 <= j < points@.len() ==> spawn_key_ok((#[trigger] points@[j]).0 as int, *room),
        forall|j1: int, j2: int| 0 <= j1 < j2 < points@.len() ==> points@[j1].0 != points@[j2].0,
    ensures
        final(world).wf(),
        forall|e: Entity|
            old(world).entities.spec_retired(e) ==> final(world).entities.spec_retired(e),
        forall|e: Entity|
            old(world).entities.spec_is_live(e) ==> final(world).entities.spec_is_live(e),
        forall|i: int|
            old(world).entities.spec_entity_at(i) is Some ==> crate::damage::attrs_unchanged_at(
                *old(world),
                *final(world),
                i,
            ),
        final(world).entities.spec_capacity() <= old(world).entities.spec_capacity()
            + points@.len(),
        // every new entity realizes one listed point, with its named kind
        forall|e: Entity|
            #![trigger final(world).entities.spec_is_live(e)]
            final(world).entities.spec_is_live(e) && !old(world).entities.spec_is_live(e) ==> {
                &&& final(world).positions@.contains_key(e.index as int)
                &&& exists|j: int|
                    0 <= j < points@.len() && final(world).positions@[e.index as int] == (Position {
                        x: ((#[trigger] points@[j]).0 % 80) as i32,
                        y: (points@[j].0 / 80) as i32,
                    }) && points@[j].1 is Some && named_bundle(
                        (points@[j].1)->0@,
                        *final(world),
                        e.index as int,
                    )
            },
        // no two new entities share a tile
        forall|e1: Entity, e2: Entity|
            final(world).entities.spec_is_live(e1) && !old(world).entities.spec_is_live(e1)
                && final(world).entities.spec_is_live(e2) && !old(world).entities.spec_is_live(e2)
                && e1.index != e2.index ==> #[trigger] final(world).positions@[e1.index as int]
                != #[trigger] final(world).positions@[e2.index as int],
        // while slots remain, each named point gets its entity
        old(world).entities.spec_capacity() + points@.len() < u32::MAX as nat ==> forall|j: int|
            0 <= j < points@.len() && ((#[trigger] points@[j]).1 is Some) && known_spawn_name(
                (points@[j].1)->0@,
            ) ==> exists|e: Entity|
            #![trigger final(world).entities.spec_is_live(e)]
            {
                &&& final(world).entities.spec_is_live(e)
                &&& !old(world).entities.spec_is_live(e)
                &&& final(world).positions@.contains_key(e.index as int)
                &&& final(world).positions@[e.index as int] == (Position {
                    x: ((points@[j]).0 % 80) as i32,
                    y: ((points@[j]).0 / 80) as i32,
                })
                &&& named_bundle((points@[j].1)->0@, *final(world), e.index as int)
            },
{
    let mut p: usize = 0;
    while p < points.len()
        invariant
            world.wf(),
            forall|e: Entity|
                old(world).entities.spec_retired(e) ==> world.entities.spec_retired(e),
            old(world).wf(),
            p <= points@.len(),
            0 <= room.x1,
            room.x1 + 2 <= room.x2,
            room.x2 <= 78,
            0 <= room.y1,
            room.y1 + 2 <= room.y2,
            room.y2 <= 41,
            forall|j: int|
                0 <= j < points@.len() ==> spawn_key_ok((#[trigger] points@[j]).0 as int, *room),
            forall|j1: int, j2: int| 0 <= j1 < j2 < points@.len() ==> points@[j1].0 != points@[j2].0,
            forall|e: Entity|
                old(world).entities.spec_is_live(e) ==> world.entities.spec_is_live(e),
            forall|i: int|
                old(world).entities.spec_entity_at(i) is Some
                    ==> crate::damage::attrs_unchanged_at(*old(world), *world, i),
            world.entities.spec_capacity() <= old(world).entities.spec_capacity() + p,
            forall|e: Entity|
                #![trigger world.entities.spec_is_live(e)]
                world.entities.spec_is_live(e) && !old(world).entities.spec_is_live(e) ==> {
                    &&& world.positions@.contains_key(e.index as int)
                    &&& exists|j: int|
                        0 <= j < p && world.positions@[e.index as int] == (Position {
                            x: ((#[trigger] points@[j]).0 % 80) as i32,
                            y: (points@[j].0 / 80) as i32,
                        }) && points@[j].1 is Some && named_bundle(
                            (points@[j].1)->0@,
                            *world,
                            e.index as int,
                        )
                },
            old(world).entities.spec_capacity() + points@.len() < u32::MAX as nat
                ==> forall|j: int|
                0 <= j < p && ((#[trigger] points@[j]).1 is Some) && known_spawn_name(
                    (points@[j].1)->0@,
                ) ==> exists|e: Entity|
                #![trigger world.entities.spec_is_live(e)]
                {
                    &&& world.entities.spec_is_live(e)
                    &&& !old(world).entities.spec_is_live(e)
                    &&& world.positions@.contains_key(e.index as int)
                    &&& world.positions@[e.index as int] == (Position {
                        x: ((points@[j]).0 % 80) as i32,
                        y: ((points@[j]).0 / 80) as i32,
                    })
                    &&& named_bundle((points@[j].1)->0@, *world, e.index as int)
                },
            forall|e1: Entity, e2: Entity|
                #![trigger world.entities.spec_is_live(e1), world.entities.spec_is_live(e2)]
                world.entities.spec_is_live(e1) && !old(world).entities.spec_is_live(e1)
                    && world.entities.spec_is_live(e2) && !old(world).entities.spec_is_live(e2)
                    && e1.index != e2.index ==> world.positions@[e1.index as int]
                    != world.positions@[e2.index as int],
        decreases points@.len() - p,
    {
        let ghost w_pre = *world;
        let map_idx = points[p].0;
        let x = #[verifier::truncate] ((map_idx % MAPWIDTH) as i32);
        let y = #[verifier::truncate] ((map_idx / MAPWIDTH) as i32);
        proof {
            assert(x as int == map_idx as int % 80 && y as int == map_idx as int / 80);
        }
        let mut did_spawn = false;
        let ghost mut spawned = Entity { index: 0, generation: 0 };
        let ghost mut gname: Seq<char> = Seq::empty();
        if world.entities.capacity() < u32::MAX as usize {
            let mut chosen: u32 = 0;
            match &points[p].1 {
                Some(what) => {
                    proof {
                        gname = what@;
                        assert(points@[p as int].1 is Some && (points@[p as int].1)->0@ == gname);
                    }
                    if string_is(what, "Goblin") {
                        chosen = 1;
                    } else if string_is(what, "Orc") {
                        chosen = 2;
                    } else if string_is(what, "Health Potion") {
                        chosen = 3;
                    } else if string_is(what, "Fireball Scroll") {
                        chosen = 4;
                    } else if string_is(what, "Confusion Scroll") {
                        chosen = 5;
                    } else if string_is(what, "Magic Missile Scroll") {
                        chosen = 6;
                    }
                    proof {
                        assert(chosen != 0 ==> known_spawn_name(gname));
                        assert(known_spawn_name(gname) ==> chosen != 0);
                        assert(chosen == 1 ==> gname == ("Goblin")@);
                        assert(chosen == 2 ==> gname == ("Orc")@);
                        assert(chosen == 3 ==> gname == ("Health Potion")@);
                        assert(chosen == 4 ==> gname == ("Fireball Scroll")@);
                        assert(chosen == 5 ==> gname == ("Confusion Scroll")@);
                        assert(chosen == 6 ==> gname == ("Magic Missile Scroll")@);
                    }
                },
                None => {},
            }
            if chosen == 1 {
                let e2 = spawn_goblin(world, x, y);
                did_spawn = true;
                proof {
                    spawned = e2;
                    lemma_spawn_frame(w_pre, *world, e2);
                    assert(goblin_bundle(*world, e2.index as int));
                    assert(named_bundle(gname, *world, e2.index as int));
                    assert(world.positions@[e2.index as int] == (Position { x, y }));
                }
            } else if chosen == 2 {
                let e2 = spawn_orc(world, x, y);
                did_spawn = true;
                proof {
                    spawned = e2;
                    lemma_spawn_frame(w_pre, *world, e2);
                    assert(orc_bundle(*world, e2.index as int));
                    assert(named_bundle(gname, *world, e2.index as int));
                    assert(world.positions@[e2.index as int] == (Position { x, y }));
                }
            } else if chosen == 3 {
                let e2 = spawn_health_potion(world, x, y);
                did_spawn = true;
                proof {
                    spawned = e2;
                    lemma_spawn_frame(w_pre, *world, e2);
                    assert(potion_bundle(*world, e2.index as int));
                    assert(named_bundle(gname, *world, e2.index as int));
                    assert(world.positions@[e2.index as int] == (Position { x, y }));
                }
            } else if chosen == 4 {
                let e2 = spawn_fireball_scroll(world, x, y);
                did_spawn = true;
                proof {
                    spawned = e2;
                    lemma_spawn_frame(w_pre, *world, e2);
                    assert(fireball_bundle(*world, e2.index as int));
                    assert(named_bundle(gname, *world, e2.index as int));
                    assert(world.positions@[e2.index as int] == (Position { x, y }));
                }
            } else if chosen == 5 {
                let e2 = spawn_confusion_scroll(world, x, y);
                did_spawn = true;
                proof {
                    spawned = e2;
                    lemma_spawn_frame(w_pre, *world, e2);
                    assert(confusion_bundle(*world, e2.index as int));
                    assert(named_bundle(gname, *world, e2.index as int));
                    assert(world.positions@[e2.index as int] == (Position { x, y }));
                }
            } else if chosen == 6 {
                let e2 = spawn_magic_missile_scroll(world, x, y);
                did_spawn = true;
                proof {
                    spawned = e2;
                    lemma_spawn_frame(w_pre, *world, e2);
                    assert(missile_bundle(*world, e2.index as int));
                    assert(named_bundle(gname, *world, e2.index as int));
                    assert(world.positions@[e2.index as int] == (Position { x, y }));
                }
            }
        }
        proof {
            assert forall|i: int|
                old(world).entities.spec_entity_at(i) is Some implies crate::damage::attrs_unchanged_at(
                *old(world),
                *world,
                i,
            ) by {
                assert(crate::damage::attrs_unchanged_at(*old(world), w_pre, i));
                old(world).entities.lemma_entity_at_live(i);
                let e_i = old(world).entities.spec_entity_at(i)->0;
                assert(w_pre.entities.spec_is_live(e_i));
                w_pre.entities.lemma_live_entity_at(e_i);
                assert(w_pre.entities.spec_entity_at(i) is Some);
                assert(crate::damage::attrs_unchanged_at(w_pre, *world, i));
            }
            assert forall|e: Entity|
                #![trigger world.entities.spec_is_live(e)]
                world.entities.spec_is_live(e) && !old(world).entities.spec_is_live(e) implies {
                &&& world.positions@.contains_key(e.index as int)
                &&& exists|j: int|
                    0 <= j < p + 1 && world.positions@[e.index as int] == (Position {
                        x: ((#[trigger] points@[j]).0 % 80) as i32,
                        y: (points@[j].0 / 80) as i32,
                    }) && points@[j].1 is Some && named_bundle(
                        (points@[j].1)->0@,
                        *world,
                        e.index as int,
                    )
            } by {
                assert(world.entities.spec_is_live(e));
                if w_pre.entities.spec_is_live(e) {
                    assert(w_pre.positions@.contains_key(e.index as int));
                    w_pre.entities.lemma_live_entity_at(e);
                    assert(w_pre.entities.spec_entity_at(e.index as int) is Some);
                    assert(crate::damage::attrs_unchanged_at(w_pre, *world, e.index as int));
                    assert(world.positions@.contains_key(e.index as int));
                    let j = choose|j: int|
                        0 <= j < p && w_pre.positions@[e.index as int] == (Position {
                            x: ((#[trigger] points@[j]).0 % 80) as i32,
                            y: (points@[j].0 / 80) as i32,
                        }) && points@[j].1 is Some && named_bundle(
                            (points@[j].1)->0@,
                            w_pre,
                            e.index as int,
                        );
                    assert(world.positions@[e.index as int] == w_pre.positions@[e.index as int]);
                    assert(named_bundle((points@[j].1)->0@, *world, e.index as int));
                    assert(0 <= j < p + 1 && world.positions@[e.index as int] == (Position {
                        x: ((#[trigger] points@[j]).0 % 80) as i32,
                        y: (points@[j].0 / 80) as i32,
                    }) && points@[j].1 is Some && named_bundle(
                        (points@[j].1)->0@,
                        *world,
                        e.index as int,
                    ));
                } else {
                    assert(did_spawn && e == spawned);
                    assert(world.positions@[e.index as int] == (Position { x, y }));
                    assert(points@[p as int].1 is Some && (points@[p as int].1)->0@ == gname);
                    assert(named_bundle(gname, *world, e.index as int));
                    assert(0 <= p < p + 1 && world.positions@[e.index as int] == (Position {
                        x: ((points@[p as int]).0 % 80) as i32,
                        y: (points@[p as int].0 / 80) as i32,
                    }) && points@[p as int].1 is Some && named_bundle(
                        (points@[p as int].1)->0@,
                        *world,
                        e.index as int,
                    ));
                }
            }
            assert forall|e1: Entity, e2: Entity|
                #![trigger world.entities.spec_is_live(e1), world.entities.spec_is_live(e2)]
                world.entities.spec_is_live(e1) && !old(world).entities.spec_is_live(e1)
                    && world.entities.spec_is_live(e2) && !old(world).entities.spec_is_live(e2)
                    && e1.index != e2.index implies world.positions@[e1.index as int]
                != world.positions@[e2.index as int] by {
                if w_pre.entities.spec_is_live(e1) && w_pre.entities.spec_is_live(e2) {
                    w_pre.entities.lemma_live_entity_at(e1);
                    w_pre.entities.lemma_live_entity_at(e2);
                    assert(w_pre.positions@.contains_key(e1.index as int));
                    assert(w_pre.positions@.contains_key(e2.index as int));
                    assert(w_pre.positions@[e1.index as int] != w_pre.positions@[e2.index as int]);
                    assert(crate::damage::attrs_unchanged_at(w_pre, *world, e1.index as int));
                    assert(crate::damage::attrs_unchanged_at(w_pre, *world, e2.index as int));
                    assert(world.positions@[e1.index as int] == w_pre.positions@[e1.index as int]);
                    assert(world.positions@[e2.index as int] == w_pre.positions@[e2.index as int]);
                } else if !w_pre.entities.spec_is_live(e1) && !w_pre.entities.spec_is_live(e2) {
                    // both would have to be this iteration's single spawn
                    assert(did_spawn && e1 == spawned && e2 == spawned);
                    assert(false);
                } else {
                    // exactly one of the pair is this iteration's spawn
                    let (older, newer) = if w_pre.entities.spec_is_live(e1) {
                        (e1, e2)
                    } else {
                        (e2, e1)
                    };
                    assert(did_spawn && newer == spawned);
                    assert(w_pre.entities.spec_is_live(older));
                    w_pre.entities.lemma_live_entity_at(older);
                    assert(w_pre.entities.spec_entity_at(older.index as int) is Some);
                    assert(crate::damage::attrs_unchanged_at(w_pre, *world, older.index as int));
                    let j = choose|j: int|
                        0 <= j < p && w_pre.positions@[older.index as int] == (Position {
                            x: ((#[trigger] points@[j]).0 % 80) as i32,
                            y: (points@[j].0 / 80) as i32,
                        }) && points@[j].1 is Some && named_bundle(
                            (points@[j].1)->0@,
                            w_pre,
                            older.index as int,
                        );
                    assert(w_pre.positions@.contains_key(older.index as int));
                    assert(world.positions@[older.index as int] == w_pre.positions@[older.index as int]);
                    assert(world.positions@[newer.index as int] == (Position { x, y }));
                    let kj = points@[j].0 as int;
                    let kp = map_idx as int;
                    assert(points@[j].0 != points@[p as int].0);
                    assert(kj != kp);
                    assert(spawn_key_ok(kj, *room) && spawn_key_ok(kp, *room));
                    if kj % 80 == kp % 80 && kj / 80 == kp / 80 {
                        lemma_key_cell_injective(kj, kp);
                    }
                    assert((Position { x: (kj % 80) as i32, y: (kj / 80) as i32 }) != (Position {
                        x,
                        y,
                    }));
                }
            }
            if old(world).entities.spec_capacity() + points@.len() < u32::MAX as nat {
                assert forall|j: int|
                    0 <= j < p + 1 && ((#[trigger] points@[j]).1 is Some) && known_spawn_name(
                        (points@[j].1)->0@,
                    ) implies exists|e: Entity|
                    #![trigger world.entities.spec_is_live(e)]
                    {
                        &&& world.entities.spec_is_live(e)
                        &&& !old(world).entities.spec_is_live(e)
                        &&& world.positions@.contains_key(e.index as int)
                        &&& world.positions@[e.index as int] == (Position {
                            x: ((points@[j]).0 % 80) as i32,
                            y: ((points@[j]).0 / 80) as i32,
                        })
                        &&& named_bundle((points@[j].1)->0@, *world, e.index as int)
                    } by {
                    if j < p {
                        let e = choose|e: Entity|
                            #![trigger w_pre.entities.spec_is_live(e)]
                            {
                                &&& w_pre.entities.spec_is_live(e)
                                &&& !old(world).entities.spec_is_live(e)
                                &&& w_pre.positions@.contains_key(e.index as int)
                                &&& w_pre.positions@[e.index as int] == (Position {
                                    x: ((points@[j]).0 % 80) as i32,
                                    y: ((points@[j]).0 / 80) as i32,
                                })
                                &&& named_bundle((points@[j].1)->0@, w_pre, e.index as int)
                            };
                        w_pre.entities.lemma_live_entity_at(e);
                        assert(crate::damage::attrs_unchanged_at(w_pre, *world, e.index as int));
                        assert(world.entities.spec_is_live(e));
                        assert(world.positions@[e.index as int] == w_pre.positions@[e.index
                            as int]);
                        assert(named_bundle((points@[j].1)->0@, *world, e.index as int));
                    } else {
                        assert(w_pre.entities.spec_capacity() < u32::MAX as nat);
                        assert(did_spawn);
                        assert(world.entities.spec_is_live(spawned));
                        if old(world).entities.spec_is_live(spawned) {
                            assert(w_pre.entities.spec_is_live(spawned));
                            w_pre.entities.lemma_live_entity_at(spawned);
                            assert(false);
                        }
                        assert(!old(world).entities.spec_is_live(spawned));
                        assert(world.positions@[spawned.index as int] == (Position { x, y }));
                        assert(named_bundle(gname, *world, spawned.index as int));
                    }
                }
            }
        }
        p = p + 1;
    }
}

pub fn spawn_room(world: &mut World, rng: &mut Rng, room: &Rect, map_depth: i32)
    requires
        old(world).wf(),
        0 <= room.x1,
        room.x1 + 2 <= room.x2,
        room.x2 <= 78,
        0 <= room.y1,
        room.y1 + 2 <= room.y2,
        room.y2 <= 41,
        1 <= map_depth <= 1000000,
    ensures
        final(world).wf(),
        forall|e: Entity|
            old(world).entities.spec_retired(e) ==> final(world).entities.spec_retired(e),
        forall|e: Entity|
            old(world).entities.spec_is_live(e) ==> final(world).entities.spec_is_live(e),
        forall|i: int|
            old(world).entities.spec_entity_at(i) is Some ==> crate::damage::attrs_unchanged_at(
                *old(world),
                *final(world),
                i,
            ),
        // everything newly spawned is one of the six table kinds, standing
        // strictly inside the room past its top-left walls
        forall|e: Entity|
            final(world).entities.spec_is_live(e) && !old(world).entities.spec_is_live(e) ==> {
                &&& #[trigger] spawned_bundle(*final(world), e.index as int)
                &&& final(world).positions@.contains_key(e.index as int)
                &&& room.x1 + 2 <= final(world).positions@[e.index as int].x <= room.x2
                &&& room.y1 + 2 <= final(world).positions@[e.index as int].y <= room.y2
            },
        // no two newly spawned entities share a tile
        forall|e1: Entity, e2: Entity|
            final(world).entities.spec_is_live(e1) && !old(world).entities.spec_is_live(e1)
                && final(world).entities.spec_is_live(e2) && !old(world).entities.spec_is_live(e2)
                && e1.index != e2.index ==> #[trigger] final(world).positions@[e1.index as int]
                != #[trigger] final(world).positions@[e2.index as int],
        // the new entities realize exactly a decided spawn list
        exists|pts: Seq<(usize, Option<String>)>|
            #[trigger] spawn_points_applied(*old(world), *final(world), pts, *room),
{
    let spawn_table = room_entity_spawn_table(map_depth);
    let mut fresh: SpawnSlot = None;
    fx_new_into(&mut fresh);
    let mut spawn_points: SpawnPoints = match fresh {
        Some(m) => m,
        None => vstd::pervasive::unreached(),
    };

    // Decide how many things this room gets and where to put them.
    let spawn_die: i32 = 7;
    let num_spawns = rng.roll_dice(1, spawn_die + 3) + (map_depth - 1) - 3;
    let mut s: i32 = 0;
    while s < num_spawns
        invariant
            world.wf(),
            forall|e: Entity|
                old(world).entities.spec_retired(e) ==> world.entities.spec_retired(e),
            0 <= room.x1,
            room.x1 + 2 <= room.x2,
            room.x2 <= 78,
            0 <= room.y1,
            room.y1 + 2 <= room.y2,
            room.y2 <= 41,
            spawn_table.wf(),
            spawn_table.total_weight < i32::MAX,
            *world == *old(world),
            forall|key: int|
                fx_contents(spawn_points).contains_key(key) ==> #[trigger] spawn_key_ok(
                    key,
                    *room,
                ),
        decreases num_spawns - s,
    {
        let mut added = false;
        let mut tries: u32 = 0;
        while !added && tries < 20
            invariant
                world.wf(),
                forall|e: Entity|
                    old(world).entities.spec_retired(e) ==> world.entities.spec_retired(e),
                0 <= room.x1,
                room.x1 + 2 <= room.x2,
                room.x2 <= 78,
                0 <= room.y1,
                room.y1 + 2 <= room.y2,
                room.y2 <= 41,
                spawn_table.wf(),
                spawn_table.total_weight < i32::MAX,
                *world == *old(world),
                forall|key: int|
                    fx_contents(spawn_points).contains_key(key) ==> #[trigger] spawn_key_ok(
                        key,
                        *room,
                    ),
            decreases 20 - tries + (if added { 0int } else { 1 }),
        {
            let w = room.x2 - room.x1;
            let h = room.y2 - room.y1;
            let x = (room.x1 + 1 + rng.roll_dice(1, w - 1)) as usize;
            let y = (room.y1 + 1 + rng.roll_dice(1, h - 1)) as usize;
            let idx = (y * MAPWIDTH) + x;
            proof {
                assert(spawn_key_ok(idx as int, *room)) by (nonlinear_arith)
                    requires
                        idx == y * 80 + x,
                        room.x1 + 2 <= x as int <= room.x2 <= 78,
                        room.y1 + 2 <= y as int <= room.y2 <= 41,
                        0 <= room.x1,
                        0 <= room.y1,
                        spawn_key_ok(idx as int, *room) == (0 <= idx < 80 * 43 && room.x1 + 2
                            <= idx as int % 80 <= room.x2 && room.y1 + 2 <= idx as int / 80
                            <= room.y2),
                ;
            }
            let rolled = match spawn_table.roll(rng) {
                Some(nm) => Some(String::from_str(nm)),
                None => None,
            };
            if fx_try_insert(&mut spawn_points, idx, rolled) {
                added = true;
            } else {
                tries = tries + 1;
            }
        }
        s = s + 1;
    }

    // Spawn whatever was decided for each chosen tile.
    let points = fx_to_vec(&spawn_points);
    proof {
        assert forall|j: int| 0 <= j < points@.len() implies spawn_key_ok(
            (#[trigger] points@[j]).0 as int,
            *room,
        ) by {
            assert(fx_contents(spawn_points).contains_key(points@[j].0 as int));
        }
    }
    apply_spawn_points(world, &points, room);
    proof {
        assert(spawn_points_applied(*old(world), *world, points@, *room));
    }
    proof {
        assert forall|e: Entity|
            world.entities.spec_is_live(e) && !old(world).entities.spec_is_live(e) implies {
            &&& world.positions@.contains_key(e.index as int)
            &&& room.x1 + 2 <= world.positions@[e.index as int].x <= room.x2
            &&& room.y1 + 2 <= world.positions@[e.index as int].y <= room.y2
        } by {
            assert(spawned_bundle(*world, e.index as int));
            let j = choose|j: int|
                0 <= j < points@.len() && world.positions@[e.index as int] == (Position {
                    x: ((#[trigger] points@[j]).0 % 80) as i32,
                    y: (points@[j].0 / 80) as i32,
                });
            assert(spawn_key_ok(points@[j].0 as int, *room));
        }
    }
}

/// A fresh spawn leaves every previously-populated slot untouched.
proof fn lemma_spawn_frame(w0: World, w1: World, r: Entity)
    requires
        w0.entities.spec_entity_at(r.index as int) is None,
        forall|i: int|
            i != r.index as int ==> #[trigger] crate::damage::attrs_unchanged_at(w0, w1, i),
    ensures
        forall|i: int|
            w0.entities.spec_entity_at(i) is Some ==> #[trigger] crate::damage::attrs_unchanged_at(
                w0,
                w1,
                i,
            ),
{
    assert forall|i: int|
        w0.entities.spec_entity_at(i) is Some implies #[trigger] crate::damage::attrs_unchanged_at(
        w0,
        w1,
        i,
    ) by {
        assert(i != r.index as int);
    }
}

/// Whether an owned name equals a fixed name.
fn string_is(s: &String, lit: &str) -> (r: bool)
    ensures
        r == (s@ == lit@),
{
    let other = String::from_str(lit);
    s.eq(&other)
}

} // verus!
