//! Verified core of a voxel building game: block faces and quad geometry,
//! greedy-meshed chunk quads, player input masks, and the bookkeeping
//! that the server and client keep about chunks, colliders and players.

pub mod face;
pub mod keyed;
pub mod pos;
pub mod messages;
pub mod movement;
pub mod players;
pub mod streaming;
pub mod collider_sync;
pub mod chunk;
pub mod lod;
pub mod greedy;
pub mod payload;
pub mod chunk_messages;
pub mod world_view;
pub mod collision;
pub mod face_mesh;
