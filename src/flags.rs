use vstd::prelude::*;

verus! {

// Type masks of node outputs and inputs: a wire may join an output to an input
// when their masks share a bit.
pub const MATERIAL_METAL: u64 = 1;
pub const MATERIAL_DIELECTRIC: u64 = 2;
pub const MATERIAL_LAMBERT: u64 = 4;
pub const MATERIAL_EMISSIVE: u64 = 8;
pub const MATERIAL_CHECKERBOARD: u64 = 16;
pub const MATERIALS: u64 = 31;
pub const TEXTURE: u64 = 32;
pub const PRIMITIVE_SPHERE: u64 = 64;
pub const PRIMITIVES: u64 = 64;
pub const COLLECTION: u64 = 128;
pub const CAMERA: u64 = 256;
pub const SCENE: u64 = 512;
pub const RENDER_TRIANGLE: u64 = 1024;
pub const RENDER_RAYTRACER: u64 = 2048;
pub const RENDERS: u64 = 3072;
pub const OUTPUT: u64 = 4096;
pub const NUMBER: u64 = 8192;
pub const STRING: u64 = 16384;
pub const COLOR: u64 = 32768;
pub const VECTOR: u64 = 65536;
pub const EXPRESSION: u64 = 131072;
pub const ALL: u64 = 0xffff_ffff_ffff_ffff;
pub const TYPICAL_VECTOR_INPUT: u64 = 237568;
pub const TYPICAL_NUMBER_INPUT: u64 = 139264;

/// The editor lets an output feed an input only when their masks meet.
pub fn can_connect(output_mask: u64, input_mask: u64) -> (r: bool)
    ensures
        r == (output_mask & input_mask != 0),
{
    output_mask & input_mask != 0
}

/// The composite masks are the unions of their parts.
pub proof fn lemma_composite_masks()
    ensures
        MATERIALS == MATERIAL_METAL | MATERIAL_DIELECTRIC | MATERIAL_LAMBERT | MATERIAL_EMISSIVE
            | MATERIAL_CHECKERBOARD,
        RENDERS == RENDER_TRIANGLE | RENDER_RAYTRACER,
        TYPICAL_VECTOR_INPUT == VECTOR | COLOR | NUMBER | EXPRESSION,
        TYPICAL_NUMBER_INPUT == NUMBER | EXPRESSION,
{
    assert(MATERIALS == MATERIAL_METAL | MATERIAL_DIELECTRIC | MATERIAL_LAMBERT | MATERIAL_EMISSIVE
        | MATERIAL_CHECKERBOARD) by (bit_vector);
    assert(RENDERS == RENDER_TRIANGLE | RENDER_RAYTRACER) by (bit_vector);
    assert(TYPICAL_VECTOR_INPUT == VECTOR | COLOR | NUMBER | EXPRESSION) by (bit_vector);
    assert(TYPICAL_NUMBER_INPUT == NUMBER | EXPRESSION) by (bit_vector);
}

} // verus!
