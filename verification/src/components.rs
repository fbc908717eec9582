//! The attribute ("component") types that can be attached to entities.

use vstd::prelude::*;

use crate::entity::Entity;
use crate::store::Store;

verus! {

/// A grid coordinate; also used as a plain point value.
#[derive(Clone, Copy, PartialEq, Eq, Structural, Debug)]
pub struct Position {
    pub x: i32,
    pub y: i32,
}

/// An RGB color with 8-bit channels.
#[derive(Clone, Copy, PartialEq, Eq, Structural, Debug)]
pub struct Color {
    pub r: u8,
    pub g: u8,
    pub b: u8,
}

/// Glyph and colors an external renderer draws an entity with.
#[derive(Clone, Copy, PartialEq, Eq, Structural, Debug)]
pub struct Renderable {
    /// Code-page-437 glyph index.
    pub glyph: u16,
    pub fg: Color,
    pub bg: Color,
    /// Like a z-order: entities with lower values are drawn on top.
    pub render_order: i32,
}

impl Default for Renderable {
    /// A white-on-black solid block at the topmost render order.
    fn default() -> (r: Renderable)
        ensures
            r == (Renderable {
                glyph: 219u16,
                fg: Color { r: 255u8, g: 255u8, b: 255u8 },
                bg: Color { r: 0u8, g: 0u8, b: 0u8 },
                render_order: 0i32,
            }),
    {
        Renderable {
            glyph: 219,
            fg: Color { r: 255, g: 255, b: 255 },
            bg: Color { r: 0, g: 0, b: 0 },
            render_order: 0,
        }
    }
}

/// Marks the one player-controlled entity.
#[derive(Clone, Copy, PartialEq, Eq, Structural, Debug)]
pub struct Player;

/// Marks a hostile actor driven by the monster AI.
#[derive(Clone, Copy, PartialEq, Eq, Structural, Debug)]
pub struct Monster;

/// Marks an entity that can be picked up and used.
#[derive(Clone, Copy, PartialEq, Eq, Structural, Debug)]
pub struct Item;

/// Marks an item that is used up when it takes effect.
#[derive(Clone, Copy, PartialEq, Eq, Structural, Debug)]
pub struct Consumable;

/// The item heals its target.
#[derive(Clone, Copy, PartialEq, Eq, Structural, Debug)]
pub struct ProvidesHealing {
    pub heal_amount: i32,
}

/// The item can be used at a distance.
#[derive(Clone, Copy, PartialEq, Eq, Structural, Debug)]
pub struct Ranged {
    pub range: i32,
}

/// The item damages its targets.
#[derive(Clone, Copy, PartialEq, Eq, Structural, Debug)]
pub struct InflictsDamage {
    pub damage: i32,
}

/// The item affects every tile within a blast radius.
#[derive(Clone, Copy, PartialEq, Eq, Structural, Debug)]
pub struct AreaOfEffect {
    pub radius: i32,
}

/// The bearer is confused and skips its turns until this wears off.
#[derive(Clone, Copy, PartialEq, Eq, Structural, Debug)]
pub struct Confusion {
    pub turns: i32,
}

/// The entity (an item) sits in `owner`'s backpack, off the grid.
#[derive(Clone, Copy, PartialEq, Eq, Structural, Debug)]
pub struct InBackpack {
    pub owner: Entity,
}

/// Intent: pick an item off the ground this tick.
#[derive(Clone, Copy, PartialEq, Eq, Structural, Debug)]
pub struct WantsToPickupItem {
    pub collected_by: Entity,
    pub item: Entity,
}

/// Intent: drop a carried item this tick.
#[derive(Clone, Copy, PartialEq, Eq, Structural, Debug)]
pub struct WantsToDropItem {
    pub item: Entity,
}

/// Intent: use a carried item this tick, optionally at a target tile.
#[derive(Clone, Copy, PartialEq, Eq, Structural, Debug)]
pub struct WantsToUseItem {
    pub item: Entity,
    pub target: Option<Position>,
}

/// A display name, used for log messages and tooltips only.
#[derive(Clone, Debug)]
pub struct Name {
    pub name: String,
}

/// The set of tiles an actor can currently see, and its sight range.
#[derive(Clone, Debug)]
pub struct Viewshed {
    pub visible_tiles: Vec<Position>,
    pub range: i32,
    /// True if the visible set is stale and must be recomputed.
    pub dirty: bool,
}

impl Default for Viewshed {
    /// An empty, dirty viewshed with sight range 4.
    fn default() -> (r: Viewshed)
        ensures
            r.visible_tiles@ == Seq::<Position>::empty(),
            r.range == 4,
            r.dirty,
    {
        Viewshed { visible_tiles: Vec::new(), range: 4, dirty: true }
    }
}

/// The entity blocks other entities from entering its tile.
#[derive(Clone, Copy, PartialEq, Eq, Structural, Debug)]
pub struct BlocksTile;

/// Health, attack, and defense statistics.
#[derive(Clone, Copy, PartialEq, Eq, Structural, Debug)]
pub struct CombatStats {
    pub max_hp: i32,
    pub hp: i32,
    pub defense: i32,
    pub power: i32,
}

/// Intent: attack `target` in melee this tick.
#[derive(Clone, Copy, PartialEq, Eq, Structural, Debug)]
pub struct WantsToMelee {
    pub target: Entity,
}

/// Damage amounts queued against an entity, applied in one batch per tick.
#[derive(Clone, Debug)]
pub struct SufferDamage {
    pub amount: Vec<i32>,
}

/// The damage amounts queued at index `i` of a damage store; empty if none.
pub open spec fn queued_damage(m: Map<int, SufferDamage>, i: int) -> Seq<i32> {
    if m.contains_key(i) {
        m[i].amount@
    } else {
        Seq::empty()
    }
}

impl SufferDamage {
    /// Queue one more damage amount against `victim`, starting a fresh
    /// accumulator if it has none yet.
    pub fn new_damage(store: &mut Store<SufferDamage>, victim: Entity, amount: i32)
        requires
            victim.index < u32::MAX,
        ensures
            final(store)@.dom() == old(store)@.dom().insert(victim.index as int),
            queued_damage(final(store)@, victim.index as int) == queued_damage(
                old(store)@,
                victim.index as int,
            ).push(amount),
            forall|k: int|
                k != victim.index as int && old(store)@.contains_key(k)
                    ==> #[trigger] final(store)@[k] == old(store)@[k],
    {
        let idx = victim.index as usize;
        match store.take(idx) {
            Some(mut suffering) => {
                suffering.amount.push(amount);
                store.insert(idx, suffering);
            },
            None => {
                let mut amt: Vec<i32> = Vec::new();
                amt.push(amount);
                store.insert(idx, SufferDamage { amount: amt });
            },
        }
        proof {
            assert(final(store)@.dom() =~= old(store)@.dom().insert(victim.index as int));
        }
    }
}

} // verus!
