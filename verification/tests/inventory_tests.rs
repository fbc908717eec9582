//! Item handling scenarios: healing potions, area-of-effect blasts, pickup
//! and drop, and the confusion status effect.

use dungeon_core::{
    AreaOfEffect, CombatStats, Confusion, Consumable, Entity, GameLog, GameMap, InflictsDamage,
    Item, ItemCollectionSystem, ItemDropSystem, ItemUseSystem, MapIndexingSystem, MonsterAI, Name,
    Player, Position, ProvidesHealing, Rng, RunState, World, WantsToMelee, WantsToPickupItem,
    WantsToUseItem,
};

fn fighter(world: &mut World, name: &str, hp: i32, max_hp: i32) -> Entity {
    let e = world.create_entity();
    let i = e.index as usize;
    world.names.insert(i, Name { name: name.to_string() });
    world
        .combat_stats
        .insert(i, CombatStats { max_hp, hp, defense: 1, power: 4 });
    e
}

#[test]
fn drinking_a_healing_potion_heals_and_consumes_it() {
    // A consumable with ProvidesHealing(8), used with no target: the user's
    // hit points rise by 8 capped at max_hp, and the item is deleted.
    let mut rng = Rng::seeded(9);
    let map = GameMap::new_map_rooms_and_corridors(&mut rng, 1);
    let mut world = World::new();
    let player = fighter(&mut world, "Player", 20, 30);
    world.players.insert(player.index as usize, Player);

    let potion = world.create_entity();
    world.items.insert(potion.index as usize, Item);
    world.consumables.insert(potion.index as usize, Consumable);
    world
        .names
        .insert(potion.index as usize, Name { name: "Health Potion".to_string() });
    world
        .healers
        .insert(potion.index as usize, ProvidesHealing { heal_amount: 8 });
    world
        .use_intents
        .insert(player.index as usize, WantsToUseItem { item: potion, target: None });

    let mut log = GameLog::new();
    ItemUseSystem::run(&mut world, &map, &mut log, player);

    assert_eq!(world.combat_stats.get(player.index as usize).unwrap().hp, 28);
    assert!(!world.is_live(potion), "consumable not deleted after use");
    assert!(world.use_intents.get(player.index as usize).is_none());
    assert_eq!(
        log.entries,
        vec!["You drink the Health Potion, healing 8 hp.".to_string()]
    );
}

#[test]
fn healing_is_capped_at_max_hp() {
    let mut rng = Rng::seeded(9);
    let map = GameMap::new_map_rooms_and_corridors(&mut rng, 1);
    let mut world = World::new();
    let player = fighter(&mut world, "Player", 27, 30);
    world.players.insert(player.index as usize, Player);
    let potion = world.create_entity();
    world.items.insert(potion.index as usize, Item);
    world.consumables.insert(potion.index as usize, Consumable);
    world
        .healers
        .insert(potion.index as usize, ProvidesHealing { heal_amount: 8 });
    world
        .use_intents
        .insert(player.index as usize, WantsToUseItem { item: potion, target: None });
    let mut log = GameLog::new();
    ItemUseSystem::run(&mut world, &map, &mut log, player);
    assert_eq!(world.combat_stats.get(player.index as usize).unwrap().hp, 30);
}

#[test]
fn fireball_hits_everything_in_the_blast_and_spares_the_rest() {
    // AreaOfEffect(3) at a target tile: two monsters within the blast get
    // the damage queued; a third outside the radius is unaffected.
    let mut rng = Rng::seeded(14);
    let mut map = GameMap::new_map_rooms_and_corridors(&mut rng, 1);
    // Use an open row so sight lines are clear: carve row 21 fully.
    for x in 1..(map.width - 1) {
        let idx = map.xy_idx(x, 21);
        map.tiles[idx] = dungeon_core::TileType::Floor;
    }
    let mut world = World::new();
    let player = fighter(&mut world, "Player", 30, 30);
    world.players.insert(player.index as usize, Player);
    world
        .positions
        .insert(player.index as usize, Position { x: 10, y: 21 });

    let near1 = fighter(&mut world, "NearOne", 16, 16);
    world.positions.insert(near1.index as usize, Position { x: 20, y: 21 });
    let near2 = fighter(&mut world, "NearTwo", 16, 16);
    world.positions.insert(near2.index as usize, Position { x: 22, y: 21 });
    let far = fighter(&mut world, "FarAway", 16, 16);
    world.positions.insert(far.index as usize, Position { x: 30, y: 21 });

    let scroll = world.create_entity();
    world.items.insert(scroll.index as usize, Item);
    world.consumables.insert(scroll.index as usize, Consumable);
    world
        .damagers
        .insert(scroll.index as usize, InflictsDamage { damage: 20 });
    world
        .aoes
        .insert(scroll.index as usize, AreaOfEffect { radius: 3 });

    // Occupancy must be indexed before items resolve.
    MapIndexingSystem::run(&world, &mut map);
    world.use_intents.insert(
        player.index as usize,
        WantsToUseItem { item: scroll, target: Some(Position { x: 21, y: 21 }) },
    );
    let mut log = GameLog::new();
    ItemUseSystem::run(&mut world, &map, &mut log, player);

    assert_eq!(
        world.damage_queue.get(near1.index as usize).unwrap().amount,
        vec![20]
    );
    assert_eq!(
        world.damage_queue.get(near2.index as usize).unwrap().amount,
        vec![20]
    );
    assert!(world.damage_queue.get(far.index as usize).is_none());
    assert!(!world.is_live(scroll), "used fireball scroll is deleted");
}

#[test]
fn pickup_moves_item_off_grid_into_backpack() {
    let mut world = World::new();
    let mut log = GameLog::new();
    let player = fighter(&mut world, "Player", 30, 30);
    world.players.insert(player.index as usize, Player);
    let item = world.create_entity();
    world.items.insert(item.index as usize, Item);
    world.names.insert(item.index as usize, Name { name: "Rock".to_string() });
    world
        .positions
        .insert(item.index as usize, Position { x: 4, y: 4 });
    world.pickup_intents.insert(
        player.index as usize,
        WantsToPickupItem { collected_by: player, item },
    );

    ItemCollectionSystem::run(&mut world, &mut log, player);

    assert!(world.positions.get(item.index as usize).is_none());
    let bp = world.backpacks.get(item.index as usize).unwrap();
    assert_eq!(bp.owner, player);
    assert!(world.pickup_intents.get(player.index as usize).is_none());
    assert_eq!(log.entries, vec!["You pick up the Rock.".to_string()]);
}

#[test]
fn drop_puts_item_back_on_the_droppers_tile() {
    let mut world = World::new();
    let mut log = GameLog::new();
    let player = fighter(&mut world, "Player", 30, 30);
    world.players.insert(player.index as usize, Player);
    world
        .positions
        .insert(player.index as usize, Position { x: 6, y: 9 });
    let item = world.create_entity();
    world.items.insert(item.index as usize, Item);
    world.names.insert(item.index as usize, Name { name: "Rock".to_string() });
    world
        .backpacks
        .insert(item.index as usize, dungeon_core::InBackpack { owner: player });
    world
        .drop_intents
        .insert(player.index as usize, dungeon_core::WantsToDropItem { item });

    ItemDropSystem::run(&mut world, &mut log, player);

    assert_eq!(
        *world.positions.get(item.index as usize).unwrap(),
        Position { x: 6, y: 9 }
    );
    assert!(world.backpacks.get(item.index as usize).is_none());
    assert_eq!(log.entries, vec!["You drop the Rock.".to_string()]);
}

#[test]
fn confusion_consumes_turns_then_wears_off() {
    // A confused monster: first monster turn spends a confusion turn and
    // the actor does nothing; the second removes the attribute with still
    // no action; on the third it acts normally (here: attacks the adjacent
    // player).
    let mut rng = Rng::seeded(16);
    let mut map = GameMap::new_map_rooms_and_corridors(&mut rng, 1);
    let mut world = World::new();
    let player = fighter(&mut world, "Player", 30, 30);
    world.players.insert(player.index as usize, Player);
    let player_pos = Position { x: 12, y: 12 };

    let monster = fighter(&mut world, "Gnash", 16, 16);
    let mi = monster.index as usize;
    world.monsters.insert(mi, dungeon_core::Monster);
    world.positions.insert(mi, Position { x: 13, y: 12 });
    world.viewsheds.insert(
        mi,
        dungeon_core::Viewshed { visible_tiles: Vec::new(), range: 8, dirty: false },
    );
    world.confusions.insert(mi, Confusion { turns: 2 });

    // First monster turn: decrement to 1, no action.
    MonsterAI::run(&mut world, &mut map, RunState::MonsterTurn, player_pos, player);
    assert_eq!(world.confusions.get(mi).unwrap().turns, 1);
    assert!(world.melee_intents.get(mi).is_none());
    assert_eq!(*world.positions.get(mi).unwrap(), Position { x: 13, y: 12 });

    // Second monster turn: attribute removed, still no action.
    MonsterAI::run(&mut world, &mut map, RunState::MonsterTurn, player_pos, player);
    assert!(world.confusions.get(mi).is_none());
    assert!(world.melee_intents.get(mi).is_none());
    assert_eq!(*world.positions.get(mi).unwrap(), Position { x: 13, y: 12 });

    // Third monster turn: adjacent to the player, so it attacks.
    MonsterAI::run(&mut world, &mut map, RunState::MonsterTurn, player_pos, player);
    assert_eq!(
        *world.melee_intents.get(mi).unwrap(),
        WantsToMelee { target: player }
    );
}

#[test]
fn confusion_scroll_confuses_the_blast() {
    let mut rng = Rng::seeded(9);
    let mut map = GameMap::new_map_rooms_and_corridors(&mut rng, 1);
    let mut world = World::new();
    let player = fighter(&mut world, "Player", 30, 30);
    world.players.insert(player.index as usize, Player);
    let (cx, cy) = map.rooms[0].center();
    let victim = fighter(&mut world, "Mole", 16, 16);
    world
        .positions
        .insert(victim.index as usize, Position { x: cx, y: cy });
    let scroll = world.create_entity();
    world.items.insert(scroll.index as usize, Item);
    world.consumables.insert(scroll.index as usize, Consumable);
    world
        .confusions
        .insert(scroll.index as usize, Confusion { turns: 4 });
    MapIndexingSystem::run(&world, &mut map);
    world.use_intents.insert(
        player.index as usize,
        WantsToUseItem { item: scroll, target: Some(Position { x: cx, y: cy }) },
    );
    let mut log = GameLog::new();
    ItemUseSystem::run(&mut world, &map, &mut log, player);
    assert_eq!(world.confusions.get(victim.index as usize).unwrap().turns, 4);
    assert!(!world.is_live(scroll));
}

#[test]
fn monster_outside_monster_turn_does_nothing() {
    let mut rng = Rng::seeded(16);
    let mut map = GameMap::new_map_rooms_and_corridors(&mut rng, 1);
    let mut world = World::new();
    let player = fighter(&mut world, "Player", 30, 30);
    world.players.insert(player.index as usize, Player);
    let monster = fighter(&mut world, "Gnash", 16, 16);
    let mi = monster.index as usize;
    world.monsters.insert(mi, dungeon_core::Monster);
    world.positions.insert(mi, Position { x: 13, y: 12 });
    world.viewsheds.insert(
        mi,
        dungeon_core::Viewshed { visible_tiles: Vec::new(), range: 8, dirty: false },
    );
    MonsterAI::run(
        &mut world,
        &mut map,
        RunState::PlayerTurn,
        Position { x: 12, y: 12 },
        player,
    );
    assert!(world.melee_intents.get(mi).is_none());
}

#[test]
fn item_with_several_effects_is_consumed_when_any_applies() {
    // An item that both damages and heals, used on a target without combat
    // statistics: the damage still applies, so the consumable is used up.
    let mut rng = Rng::seeded(9);
    let mut map = GameMap::new_map_rooms_and_corridors(&mut rng, 1);
    let mut world = World::new();
    let player = fighter(&mut world, "Player", 30, 30);
    world.players.insert(player.index as usize, Player);

    // A statless bystander on a known tile.
    let dummy = world.create_entity();
    let (cx, cy) = map.rooms[0].center();
    world
        .positions
        .insert(dummy.index as usize, Position { x: cx, y: cy });

    let wand = world.create_entity();
    world.items.insert(wand.index as usize, Item);
    world.consumables.insert(wand.index as usize, Consumable);
    world
        .damagers
        .insert(wand.index as usize, InflictsDamage { damage: 5 });
    world.healers.insert(
        wand.index as usize,
        dungeon_core::ProvidesHealing { heal_amount: 3 },
    );

    MapIndexingSystem::run(&world, &mut map);
    world.use_intents.insert(
        player.index as usize,
        WantsToUseItem { item: wand, target: Some(Position { x: cx, y: cy }) },
    );
    let mut log = GameLog::new();
    ItemUseSystem::run(&mut world, &map, &mut log, player);

    assert_eq!(
        world.damage_queue.get(dummy.index as usize).unwrap().amount,
        vec![5]
    );
    assert!(!world.is_live(wand), "an applied effect consumes the item");
}
