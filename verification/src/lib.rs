//! Minecraft redstone world state, block behavior and event-driven physics.

pub mod behavior;
pub mod delta;
pub mod messages;
pub mod optimize;
pub mod physical;
pub mod piston;
pub mod props;
pub mod redstone;
pub mod text;
pub mod time;
pub mod validation;
pub mod world;
