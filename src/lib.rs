//! Voxel world core: block orientation groups, block shapes, chunk meshing
//! and the chunk manager that keeps meshes in step with edits.
pub mod block;
pub mod chunk;
pub mod wctx;
