//! Simulation core of a turn-based dungeon crawler: an entity/attribute
//! store, dungeon map generation, field of view, pathfinding, melee combat,
//! item handling, and the per-tick turn pipeline that drives them.

pub mod arith;
pub mod components;
pub mod connectivity;
pub mod damage;
pub mod entity;
pub mod fov;
pub mod gamelog;
pub mod inventory;
pub mod map;
pub mod map_indexer;
pub mod mapgen;
pub mod melee;
pub mod monster_ai;
pub mod pathfinding;
pub mod player;
pub mod rect;
pub mod render_support;
pub mod rng;
pub mod rng_table;
pub mod runstate;
pub mod scheduler;
pub mod spawner;
pub mod store;
pub mod text;
pub mod visibility;
pub mod world;

pub use components::{AreaOfEffect, BlocksTile, Color, CombatStats, Confusion, Consumable, InBackpack, InflictsDamage, Item, Monster, Name, Player, Position, ProvidesHealing, Ranged, Renderable, SufferDamage, Viewshed, WantsToDropItem, WantsToMelee, WantsToPickupItem, WantsToUseItem};
pub use entity::{Entities, Entity};
pub use map::{GameMap, TileType, MAPHEIGHT, MAPSIZE, MAPWIDTH};
pub use gamelog::GameLog;
pub use inventory::{apply_item_effects, find_targets, ItemCollectionSystem, ItemDropSystem, ItemUseSystem};
pub use damage::{delete_the_dead, DamageSystem};
pub use map_indexer::MapIndexingSystem;
pub use melee::MeleeCombatSystem;
pub use monster_ai::MonsterAI;
pub use player::{get_item, player_input, try_move_player, PlayerCommand};
pub use rect::Rect;
pub use render_support::{is_revealed_and_wall, wall_glyph};
pub use runstate::{main_menu_navigate, ItemMenuResult, MainMenuKey, MainMenuResult, MainMenuSelection, RunState};
pub use visibility::VisibilitySystem;
pub use world::World;
pub use rng::Rng;
pub use rng_table::{RngTable, RngTableEntry};
pub use scheduler::{EngineRequest, ExternalResponse, State};
pub use spawner::{player, room_entity_spawn_table, spawn_confusion_scroll, spawn_fireball_scroll, spawn_health_potion, spawn_magic_missile_scroll, spawn_room};
pub use store::Store;
