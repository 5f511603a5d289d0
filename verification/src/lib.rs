//! A minimal real-time 2-D simulation engine: a fixed-size pixel screen is
//! rendered every frame from a set of entities that carry placement, an
//! optional axis-aligned multi-part collider, and an optional color bitmap.
//!
//! All geometry is carried in fixed-point units (see [`fixed`]): each logical
//! pixel is `FX_ONE` units, so sub-pixel positions, half-pixel pivots and
//! quantized trigonometry stay in exact integer arithmetic.
use vstd::prelude::*;

pub mod fixed;
pub mod v2;
pub mod matrix;
pub mod color;
pub mod color_matrix;
pub mod transform;
pub mod collider;
pub mod world;
pub mod asyncable;
pub mod frame;
pub mod input;
pub mod scene;
pub mod framebuffer;
pub mod text;

verus! {

/// Demonstration entry of the flat grid interface: renders an 8 x 8 grid
/// holding a single 17 at column 1 of row 2.
pub fn lib() -> (r: String)
    ensures
        r@ == text::spec_to_text(
            Seq::new(64, |i: int| if i == 17 { 17u32 } else { 0u32 }),
            8,
            8,
        ),
{
    let mut grid = matrix::Matrix::new(8u8, 8u8, 0u32);
    grid.set(1, 2, 17);
    proof {
        assert(grid.spec_data() =~= Seq::new(
            64,
            |i: int|
                if i == 17 {
                    17u32
                } else {
                    0u32
                },
        ));
    }
    grid.to_text()
}

} // verus!
