//! Dungeon room geometry, block positions and client-bound packet encoding
//! for a Minecraft dungeon server.

pub mod direction;
pub mod block_pos;
pub mod wire;
pub mod blocks;
pub mod world;
pub mod room;
pub mod packets;
