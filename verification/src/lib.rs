pub mod audio;
pub mod bits;
pub mod building;
pub mod engine;
pub mod game;
pub mod glam_types;
pub mod handles;
pub mod interaction;
pub mod mesh_ids;
pub mod mining;
pub mod terrain;
