//! A turn-based dungeon crawler's core: map generation, the entity and
//! combat model, monster AI and the turn engine, with their contracts.

pub mod rng;
pub mod map;
pub mod object;
pub mod game;
pub mod combat;
pub mod inventory;
pub mod ai;
pub mod spawn;
pub mod dungeon;
pub mod reach;
pub mod items;
pub mod turn;
pub mod limits;
