//! Core of an authoritative multiplayer game server: connection admission
//! with token recycling, the per-region map and spatial-grid model with
//! atomic map transitions, and the budget-bounded visibility sync queue.

pub mod assoc;
pub mod duration;
pub mod gametypes;
pub mod maps;
pub mod players;
pub mod queries;
pub mod server;
pub mod storage;
pub mod tasks;
pub mod world;
