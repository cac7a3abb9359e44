//! A turn-based dungeon crawler's simulation core: dungeon generation,
//! entities with fighter/AI/item/equipment components, combat and spell
//! effects, monster behaviour and character progression.

pub mod geometry;
pub mod map;
pub mod object;
pub mod rng;
pub mod log;
pub mod game;
pub mod text;
pub mod combat;
pub mod ai;
pub mod dungeon;
pub mod spells;
pub mod inventory;
pub mod progression;
pub mod turn;
pub mod connectivity;
