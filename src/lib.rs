//! A chunked voxel world: block and chunk coordinates, a block registry, dense
//! chunk storage, a sparse world store, terrain rules, face-culled meshing,
//! generation and streaming schedulers, and an exact voxel ray traversal.

pub mod block;
pub mod chunk;
pub mod collections;
pub mod coords;
pub mod generation;
pub mod interaction;
pub mod mesh;
pub mod queue;
pub mod raycast;
pub mod registry;
pub mod render;
pub mod render_distance;
pub mod seq_lemmas;
pub mod static_block_data;
pub mod terrain;
pub mod world;
