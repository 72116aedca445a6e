//! Streaming and meshing of an unbounded voxel world around a moving focal point.
//!
//! The world is cut into chunks of voxels. A [`chunk_manager::ChunkManager`]
//! decides, tick by tick, which chunks need their voxel data generated and which
//! need their mesh built; a [`mesher::ChunkMesher`] turns the voxels of one chunk
//! into the quads of its exposed faces, shaded by ambient occlusion.

pub mod asset_loader;
pub mod candidates;
pub mod chunk;
pub mod chunk_store;
pub mod model;
pub mod mesher;
pub mod schedule;
pub mod chunk_manager;
