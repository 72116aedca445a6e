//! The geometry that meshing hands to a renderer.

use vstd::prelude::*;

verus! {

/// A vector of three integers.
#[derive(Debug, Clone, Copy, PartialEq, Eq, Hash, Structural)]
pub struct IVec3 {
    pub x: i64,
    pub y: i64,
    pub z: i64,
}

/// A vertex in a mesh sent to the GPU.
#[derive(Debug, Clone, Copy, PartialEq, Eq, Hash, Structural)]
pub struct MeshVertex {
    /// The 3d position of the vertex, counted in half voxels: twice its world
    /// coordinate along each axis. The centre of the voxel (x, y, z) lies at
    /// (2x, 2y, 2z) and its corners one half voxel away along every axis.
    pub pos: IVec3,
    /// The normal vector of the vertex, a unit vector along one axis.
    pub normal: IVec3,
    /// The texture layer in the upper 16 bits, the ambient occlusion level in
    /// the lower ones.
    pub texture_ambient: u32,
}

/// The vertices and indices of a built mesh that has not been uploaded yet.
pub type UnUploadedMesh = (Vec<MeshVertex>, Vec<u32>);

/// Packs a texture layer and an ambient occlusion level into one field.
pub open spec fn spec_pack_texture_ambient(texture_index: u16, ambient_occlusion: u32) -> u32 {
    ((texture_index as u32) << 16) | ambient_occlusion
}

/// Packs a texture layer and an ambient occlusion level into one field.
pub fn pack_texture_ambient(texture_index: u16, ambient_occlusion: u32) -> (packed: u32)
    ensures
        packed == spec_pack_texture_ambient(texture_index, ambient_occlusion),
{
    ((texture_index as u32) << 16) | ambient_occlusion
}

/// Both parts can be read back from the packed field as long as the occlusion
/// level fits in the lower 16 bits.
pub proof fn lemma_pack_texture_ambient(texture_index: u16, ambient_occlusion: u32)
    requires
        ambient_occlusion <= 0xffff,
    ensures
        spec_pack_texture_ambient(texture_index, ambient_occlusion) >> 16 == texture_index,
        spec_pack_texture_ambient(texture_index, ambient_occlusion) & 0xffff == ambient_occlusion,
{
    let t: u32 = texture_index as u32;
    assert((((t << 16) | ambient_occlusion) >> 16) == t && (((t << 16) | ambient_occlusion)
        & 0xffff) == ambient_occlusion) by (bit_vector)
        requires
            t <= 0xffff,
            ambient_occlusion <= 0xffff,
    ;
}

} // verus!
