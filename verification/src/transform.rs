//! The placement component of an entity: center, size, rendering pivot
//! offset, pre-scale reference size, and rotation in whole degrees.
//!
//! Plain data with no invariant of its own; game logic mutates it freely,
//! the collision engine and the compositor read it. Sizes are assumed, not
//! enforced, to be non-negative.
use vstd::prelude::*;

verus! {

use crate::v2::V2;

/// Placement of an entity, in fixed-point units; `rotation` is in whole
/// degrees.
#[derive(Clone, Copy, PartialEq, Eq, Structural, Debug)]
pub struct Transform {
    pub center: V2,
    pub size: V2,
    pub anchor_offset: V2,
    pub original_size: V2,
    pub rotation: i64,
}

impl Transform {
    /// A transform at `center` of the given `size`, unrotated, with no
    /// pivot offset and a zero reference size.
    pub fn new(center: V2, size: V2) -> (r: Transform)
        ensures
            r.center == center,
            r.size == size,
            r.anchor_offset == (V2 { x: 0i64, y: 0i64 }),
            r.original_size == (V2 { x: 0i64, y: 0i64 }),
            r.rotation == 0,
    {
        Transform {
            center,
            size,
            anchor_offset: V2 { x: 0, y: 0 },
            original_size: V2 { x: 0, y: 0 },
            rotation: 0,
        }
    }
}

} // verus!
