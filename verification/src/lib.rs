//! Game rules and state machines of the Neon Command tower-defense game:
//! tower economy, synergy detection, map and path generation, wave
//! composition, player economy, statistics and persisted records.

pub mod abilities;
pub mod analytics;
pub mod challenge;
pub mod controls;
pub mod draws;
pub mod economy;
pub mod enemy;
pub mod events;
pub mod map;
pub mod persistence;
pub mod pool;
pub mod preview;
pub mod random;
pub mod rules;
pub mod saved;
pub mod spatial;
pub mod stats;
pub mod targeting;
pub mod text;
pub mod tips;
pub mod tower;
