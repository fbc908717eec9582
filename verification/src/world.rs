//! The simulation context: the entity allocator and one attribute store per
//! attribute kind. Passed by reference to every pipeline stage.

use vstd::prelude::*;

use crate::components::{
    AreaOfEffect, BlocksTile, CombatStats, Confusion, Consumable, InBackpack, InflictsDamage, Item,
    Monster, Name, Player, Position, ProvidesHealing, Ranged, Renderable, SufferDamage, Viewshed,
    WantsToDropItem, WantsToMelee, WantsToPickupItem, WantsToUseItem,
};
use crate::entity::{Entities, Entity};
use crate::store::Store;

verus! {

/// Owns every entity and all of their attributes.
pub struct World {
    pub entities: Entities,
    pub positions: Store<Position>,
    pub renderables: Store<Renderable>,
    pub players: Store<Player>,
    pub monsters: Store<Monster>,
    pub items: Store<Item>,
    pub consumables: Store<Consumable>,
    pub healers: Store<ProvidesHealing>,
    pub ranged_items: Store<Ranged>,
    pub damagers: Store<InflictsDamage>,
    pub aoes: Store<AreaOfEffect>,
    pub confusions: Store<Confusion>,
    pub backpacks: Store<InBackpack>,
    pub pickup_intents: Store<WantsToPickupItem>,
    pub drop_intents: Store<WantsToDropItem>,
    pub use_intents: Store<WantsToUseItem>,
    pub names: Store<Name>,
    pub viewsheds: Store<Viewshed>,
    pub blockers: Store<BlocksTile>,
    pub combat_stats: Store<CombatStats>,
    pub melee_intents: Store<WantsToMelee>,
    pub damage_queue: Store<SufferDamage>,
}

impl World {
    /// The allocator's bookkeeping is consistent.
    pub open spec fn wf(self) -> bool {
        self.entities.wf()
    }

    /// A world with no entities and no attributes.
    pub fn new() -> (r: World)
        ensures
            r.wf(),
            r.entities.spec_capacity() == 0,
            forall|e: Entity| !r.entities.spec_is_live(e),
            r.positions@ == Map::<int, Position>::empty(),
            r.renderables@ == Map::<int, Renderable>::empty(),
            r.players@ == Map::<int, Player>::empty(),
            r.monsters@ == Map::<int, Monster>::empty(),
            r.items@ == Map::<int, Item>::empty(),
            r.consumables@ == Map::<int, Consumable>::empty(),
            r.healers@ == Map::<int, ProvidesHealing>::empty(),
            r.ranged_items@ == Map::<int, Ranged>::empty(),
            r.damagers@ == Map::<int, InflictsDamage>::empty(),
            r.aoes@ == Map::<int, AreaOfEffect>::empty(),
            r.confusions@ == Map::<int, Confusion>::empty(),
            r.backpacks@ == Map::<int, InBackpack>::empty(),
            r.pickup_intents@ == Map::<int, WantsToPickupItem>::empty(),
            r.drop_intents@ == Map::<int, WantsToDropItem>::empty(),
            r.use_intents@ == Map::<int, WantsToUseItem>::empty(),
            r.names@ == Map::<int, Name>::empty(),
            r.viewsheds@ == Map::<int, Viewshed>::empty(),
            r.blockers@ == Map::<int, BlocksTile>::empty(),
            r.combat_stats@ == Map::<int, CombatStats>::empty(),
            r.melee_intents@ == Map::<int, WantsToMelee>::empty(),
            r.damage_queue@ == Map::<int, SufferDamage>::empty(),
    {
        World {
            entities: Entities::new(),
            positions: Store::new(),
            renderables: Store::new(),
            players: Store::new(),
            monsters: Store::new(),
            items: Store::new(),
            consumables: Store::new(),
            healers: Store::new(),
            ranged_items: Store::new(),
            damagers: Store::new(),
            aoes: Store::new(),
            confusions: Store::new(),
            backpacks: Store::new(),
            pickup_intents: Store::new(),
            drop_intents: Store::new(),
            use_intents: Store::new(),
            names: Store::new(),
            viewsheds: Store::new(),
            blockers: Store::new(),
            combat_stats: Store::new(),
            melee_intents: Store::new(),
            damage_queue: Store::new(),
        }
    }

    /// Create a fresh, attribute-less entity.
    pub fn create_entity(&mut self) -> (r: Entity)
        requires
            old(self).wf(),
            old(self).entities.spec_capacity() < u32::MAX as nat,
        ensures
            final(self).wf(),
            *final(self) == (World { entities: final(self).entities, ..*old(self) }),
            final(self).entities.spec_is_live(r),
            !old(self).entities.spec_is_live(r),
            old(self).entities.spec_entity_at(r.index as int) is None,
            r.index < final(self).entities.spec_capacity(),
            old(self).entities.spec_capacity() <= final(self).entities.spec_capacity() <= old(
                self,
            ).entities.spec_capacity() + 1,
            forall|e: Entity|
                e != r ==> final(self).entities.spec_is_live(e) == old(
                    self,
                ).entities.spec_is_live(e),
            forall|e: Entity|
                old(self).entities.spec_retired(e) ==> final(self).entities.spec_retired(e),
    {
        self.entities.create()
    }

    /// Destroy an entity and strip all of its attributes.
    pub fn delete_entity(&mut self, e: Entity)
        requires
            old(self).wf(),
            old(self).entities.spec_is_live(e),
        ensures
            final(self).wf(),
            !final(self).entities.spec_is_live(e),
            final(self).entities.spec_retired(e),
            final(self).entities.spec_capacity() == old(self).entities.spec_capacity(),
            forall|o: Entity|
                o != e ==> final(self).entities.spec_is_live(o) == old(
                    self,
                ).entities.spec_is_live(o),
            forall|o: Entity|
                old(self).entities.spec_retired(o) ==> final(self).entities.spec_retired(o),
            final(self).positions@ == old(self).positions@.remove(e.index as int),
            final(self).renderables@ == old(self).renderables@.remove(e.index as int),
            final(self).players@ == old(self).players@.remove(e.index as int),
            final(self).monsters@ == old(self).monsters@.remove(e.index as int),
            final(self).items@ == old(self).items@.remove(e.index as int),
            final(self).consumables@ == old(self).consumables@.remove(e.index as int),
            final(self).healers@ == old(self).healers@.remove(e.index as int),
            final(self).ranged_items@ == old(self).ranged_items@.remove(e.index as int),
            final(self).damagers@ == old(self).damagers@.remove(e.index as int),
            final(self).aoes@ == old(self).aoes@.remove(e.index as int),
            final(self).confusions@ == old(self).confusions@.remove(e.index as int),
            final(self).backpacks@ == old(self).backpacks@.remove(e.index as int),
            final(self).pickup_intents@ == old(self).pickup_intents@.remove(e.index as int),
            final(self).drop_intents@ == old(self).drop_intents@.remove(e.index as int),
            final(self).use_intents@ == old(self).use_intents@.remove(e.index as int),
            final(self).names@ == old(self).names@.remove(e.index as int),
            final(self).viewsheds@ == old(self).viewsheds@.remove(e.index as int),
            final(self).blockers@ == old(self).blockers@.remove(e.index as int),
            final(self).combat_stats@ == old(self).combat_stats@.remove(e.index as int),
            final(self).melee_intents@ == old(self).melee_intents@.remove(e.index as int),
            final(self).damage_queue@ == old(self).damage_queue@.remove(e.index as int),
    {
        let i = e.index as usize;
        self.positions.remove(i);
        self.renderables.remove(i);
        self.players.remove(i);
        self.monsters.remove(i);
        self.items.remove(i);
        self.consumables.remove(i);
        self.healers.remove(i);
        self.ranged_items.remove(i);
        self.damagers.remove(i);
        self.aoes.remove(i);
        self.confusions.remove(i);
        self.backpacks.remove(i);
        self.pickup_intents.remove(i);
        self.drop_intents.remove(i);
        self.use_intents.remove(i);
        self.names.remove(i);
        self.viewsheds.remove(i);
        self.blockers.remove(i);
        self.combat_stats.remove(i);
        self.melee_intents.remove(i);
        self.damage_queue.remove(i);
        self.entities.destroy(e);
    }

    /// True if `e` is a live entity.
    pub fn is_live(&self, e: Entity) -> (r: bool)
        requires
            self.wf(),
        ensures
            r == self.entities.spec_is_live(e),
    {
        self.entities.is_live(e)
    }
}

} // verus!
