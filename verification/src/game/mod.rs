pub mod entity;
pub mod equipment;
pub mod inventory;
pub mod items;
pub mod npc;
pub mod progression;
pub mod quest;
pub mod spells;
pub mod stats;
pub mod world;
