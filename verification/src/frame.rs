//! Per-frame screen composition and frame pacing.
//!
//! Once per frame the engine folds every live entity's render bitmap into
//! one screen-sized color grid: entities are walked in ascending id order
//! and each bitmap is alpha-blended at its transform's center, rotation and
//! pivot offset onto a freshly cleared screen. The finished image goes to
//! the platform renderer; the sleep needed to hold a fixed frame interval is
//! computed here as well.
use vstd::prelude::*;

verus! {

use crate::color::Color;
use crate::color_matrix::{ColorMatrix, spec_write};
use crate::matrix::Matrix;
use crate::world::World;

/// Side length of the square screen, in pixels.
pub const SCREEN_SIZE: u8 = 64;

/// Every live entity's placement and bitmap are within the bounds the
/// compositor accepts: centers and pivot offsets within the coordinate
/// bound, rotations clear of the extreme degree values, bitmaps well-formed.
pub open spec fn world_render_ok(w: &World) -> bool {
    forall|id: u16|
        #[trigger] w.is_live(id) ==> (w.spec_transform(id) is Some ==> crate::v2::bounded(
            w.spec_transform(id)->0.center,
            crate::v2::COORD_LIMIT as int,
        ) && crate::v2::bounded(w.spec_transform(id)->0.anchor_offset, crate::v2::COORD_LIMIT as int)
            && i64::MIN + 90 < w.spec_transform(id)->0.rotation < i64::MAX - 90) && (w.spec_render(
            id,
        ) is Some ==> w.spec_render(id)->0.wf())
}

/// An all-sentinel screen of `size x size` pixels.
pub open spec fn blank_screen(size: int) -> Seq<Color> {
    Seq::new((size * size) as nat, |i: int| Color { r: 0, g: 0, b: 0, a: 0 })
}

/// The screen contents after compositing the first `k` live entities (in
/// ascending id order): each entity carrying both a transform and a render
/// bitmap has its bitmap alpha-blended at the transform's center, rotation
/// and pivot offset; entities missing either component paint nothing.
pub open spec fn spec_compose_prefix(w: &World, size: int, k: int) -> Seq<Color>
    decreases k,
{
    if k <= 0 {
        blank_screen(size)
    } else {
        let prev = spec_compose_prefix(w, size, k - 1);
        let id = w.live()[k - 1];
        if w.spec_transform(id) is Some && w.spec_render(id) is Some {
            let t = w.spec_transform(id)->0;
            let bitmap = w.spec_render(id)->0;
            spec_write(
                prev,
                size,
                size,
                bitmap.spec_data(),
                bitmap.spec_width(),
                bitmap.spec_height(),
                t.center,
                t.rotation as int,
                t.anchor_offset,
                true,
            )
        } else {
            prev
        }
    }
}

/// The whole frame: every live entity composited onto a cleared screen.
pub open spec fn spec_compose(w: &World, size: int) -> Seq<Color> {
    spec_compose_prefix(w, size, w.live().len() as int)
}

/// Composites every live entity's render bitmap onto a cleared square
/// screen of `size x size` pixels, in ascending id order.
pub fn compose_frame(world: &World, size: u8) -> (screen: ColorMatrix)
    requires
        world.wf(),
        world_render_ok(world),
    ensures
        screen.wf(),
        screen.spec_width() == size,
        screen.spec_height() == size,
        screen.spec_data() == spec_compose(world, size as int),
{
    let mut screen: ColorMatrix = Matrix::new(size, size, Color::new(0, 0, 0, 0));
    proof {
        assert(screen.spec_data() =~= blank_screen(size as int));
    }
    let ids = world.get_all_actors();
    let n: usize = ids.len();
    let mut idx: usize = 0;
    while idx < n
        invariant
            world.wf(),
            world_render_ok(world),
            ids@ == world.live(),
            0 <= idx <= n == world.live().len(),
            screen.wf(),
            screen.spec_width() == size,
            screen.spec_height() == size,
            screen.spec_data() == spec_compose_prefix(world, size as int, idx as int),
        decreases n - idx,
    {
        let id: u16 = ids[idx];
        proof {
            assert(world.live()[idx as int] == id);
            assert(world.is_live(id));
        }
        match (world.get_transform(&id), world.get_render(&id)) {
            (Some(t), Some(bitmap)) => {
                screen.write(
                    bitmap,
                    &t.center,
                    Some(t.rotation),
                    Some(t.anchor_offset),
                    Some(true),
                );
            },
            _ => {},
        }
        idx = idx + 1;
    }
    screen
}

/// How long to sleep after a frame took `elapsed_ms` of a `target_ms`
/// interval: the remainder, or nothing when the frame overran (overruns are
/// not compensated later).
pub fn frame_sleep_ms(target_ms: u64, elapsed_ms: u64) -> (r: u64)
    ensures
        r == if elapsed_ms < target_ms {
            target_ms - elapsed_ms
        } else {
            0int
        },
{
    if elapsed_ms < target_ms {
        target_ms - elapsed_ms
    } else {
        0
    }
}

} // verus!
