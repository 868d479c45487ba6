//! Client-side coordination core of a voxel world: coordinates, player
//! controls, the per-chunk state machine, the chunk registry and the
//! streaming policy that drives it.

pub mod chunk;
pub mod client;
pub mod controls;
pub mod frame;
pub mod mesh;
pub mod pos;
pub mod registry;
pub mod stream;
pub mod ticker;
pub mod world;
