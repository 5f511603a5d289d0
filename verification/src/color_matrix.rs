//! Compositing on color grids: pasting one bitmap (the sprite) onto another
//! (the screen) with rotation, pivot offset and alpha blending.
//!
//! The alpha blend is a standard source-over operator on straight-alpha
//! channels, pinned to exact integer arithmetic: with `w = 255 * src.a +
//! dst.a * (255 - src.a)`, the result alpha is `w / 255` rounded half-up and
//! each color channel is `(255 * src.c * src.a + dst.c * dst.a * (255 -
//! src.a)) / w` rounded down; a zero weight gives the sentinel "no color".
use vstd::prelude::*;

verus! {

use crate::color::Color;
use crate::matrix::Matrix;
use crate::v2::V2;

/// A pixel grid of colors.
pub type ColorMatrix = Matrix<Color>;

/// Source-over alpha blend of `src` onto `dst`.
pub open spec fn spec_blend(src: Color, dst: Color) -> Color {
    let w = 255 * src.a + dst.a * (255 - src.a);
    if w == 0 {
        Color { r: 0, g: 0, b: 0, a: 0 }
    } else {
        Color {
            r: ((255 * src.r * src.a + dst.r * dst.a * (255 - src.a)) / w) as u8,
            g: ((255 * src.g * src.a + dst.g * dst.a * (255 - src.a)) / w) as u8,
            b: ((255 * src.b * src.a + dst.b * dst.a * (255 - src.a)) / w) as u8,
            a: ((w + 127) / 255) as u8,
        }
    }
}

/// Channel values of the blend stay within a byte.
proof fn lemma_blend_channel_bound(sc: int, sa: int, dc: int, da: int)
    requires
        0 <= sc <= 255,
        0 <= sa <= 255,
        0 <= dc <= 255,
        0 <= da <= 255,
        255 * sa + da * (255 - sa) > 0,
    ensures
        0 <= (255 * sc * sa + dc * da * (255 - sa)) / (255 * sa + da * (255 - sa)) <= 255,
        0 <= 255 * sc * sa + dc * da * (255 - sa) <= 0x4000_0000,
        0 <= (255 * sa + da * (255 - sa) + 127) / 255 <= 255,
{
    let w = 255 * sa + da * (255 - sa);
    let num = 255 * sc * sa + dc * da * (255 - sa);
    assert(0 <= num <= 0x4000_0000 && num <= w * 255 && 0 <= w <= 130050 && (w + 127) / 255
        <= 255) by (nonlinear_arith)
        requires
            0 <= sc <= 255,
            0 <= sa <= 255,
            0 <= dc <= 255,
            0 <= da <= 255,
            w == 255 * sa + da * (255 - sa),
            num == 255 * sc * sa + dc * da * (255 - sa),
    ;
    vstd::arithmetic::div_mod::lemma_div_pos_is_pos(num, w);
    vstd::arithmetic::div_mod::lemma_multiply_divide_le(num, w, 255);
}

/// Source-over alpha blend of `src` onto `dst`.
pub fn blend_pixel(src: Color, dst: Color) -> (r: Color)
    ensures
        r == spec_blend(src, dst),
{
    let sa: u32 = src.a as u32;
    let da: u32 = dst.a as u32;
    proof {
        assert(0 <= da as int * (255 - sa as int) <= 65025) by (nonlinear_arith)
            requires
                0 <= da as int <= 255 && 0 <= sa as int <= 255,
        ;
    }
    let w: u32 = 255 * sa + da * (255 - sa);
    if w == 0 {
        Color::new(0, 0, 0, 0)
    } else {
        proof {
            lemma_blend_channel_bound(src.r as int, sa as int, dst.r as int, da as int);
            lemma_blend_channel_bound(src.g as int, sa as int, dst.g as int, da as int);
            lemma_blend_channel_bound(src.b as int, sa as int, dst.b as int, da as int);
            assert(255 * (src.r as int) * (sa as int) <= 0x1000_0000 && (dst.r as int) * (da as int)
                * (255 - sa as int) <= 0x1000_0000) by (nonlinear_arith)
                requires
                    0 <= src.r as int <= 255,
                    0 <= sa as int <= 255,
                    0 <= dst.r as int <= 255,
                    0 <= da as int <= 255,
            ;
            assert(255 * (src.g as int) * (sa as int) <= 0x1000_0000 && (dst.g as int) * (da as int)
                * (255 - sa as int) <= 0x1000_0000) by (nonlinear_arith)
                requires
                    0 <= src.g as int <= 255,
                    0 <= sa as int <= 255,
                    0 <= dst.g as int <= 255,
                    0 <= da as int <= 255,
            ;
            assert(255 * (src.b as int) * (sa as int) <= 0x1000_0000 && (dst.b as int) * (da as int)
                * (255 - sa as int) <= 0x1000_0000) by (nonlinear_arith)
                requires
                    0 <= src.b as int <= 255,
                    0 <= sa as int <= 255,
                    0 <= dst.b as int <= 255,
                    0 <= da as int <= 255,
            ;
        }
        proof {
            assert(0 <= dst.r as int * da as int <= 65025 && 0 <= dst.g as int * da as int <= 65025
                && 0 <= dst.b as int * da as int <= 65025) by (nonlinear_arith)
                requires
                    0 <= dst.r as int <= 255,
                    0 <= dst.g as int <= 255,
                    0 <= dst.b as int <= 255,
                    0 <= da as int <= 255,
            ;
        }
        let nr: u32 = 255 * (src.r as u32) * sa + (dst.r as u32) * da * (255 - sa);
        let ng: u32 = 255 * (src.g as u32) * sa + (dst.g as u32) * da * (255 - sa);
        let nb: u32 = 255 * (src.b as u32) * sa + (dst.b as u32) * da * (255 - sa);
        Color::new((nr / w) as u8, (ng / w) as u8, (nb / w) as u8, ((w + 127) / 255) as u8)
    }
}

/// Destination pixel of sprite cell `(x, y)` for a sprite of `sw x sh`
/// cells pasted at `center` with the given whole-degree rotation and pivot
/// offset `anchor`: the cell's offset from the sprite's pivot (its own
/// center shifted by `anchor`) is rotated — quarter-turn multiples exactly,
/// anything else through the quantized rotation — translated by `center`,
/// and rounded up to a whole pixel.
pub open spec fn spec_dest_coord(
    sw: int,
    sh: int,
    x: int,
    y: int,
    center: V2,
    rotation: int,
    anchor: V2,
) -> (int, int) {
    let dx = x * 1024 - sw * 512 + anchor.x;
    let dy = y * 1024 - sh * 512 + anchor.y;
    let ang = rotation % 360;
    let rx = if ang % 90 == 0 {
        if ang == 90 {
            -dy
        } else if ang == 180 {
            -dx
        } else if ang == 270 {
            dy
        } else {
            dx
        }
    } else {
        crate::v2::spec_rot_x(dx, dy, rotation)
    };
    let ry = if ang % 90 == 0 {
        if ang == 90 {
            dx
        } else if ang == 180 {
            -dy
        } else if ang == 270 {
            -dx
        } else {
            dy
        }
    } else {
        crate::v2::spec_rot_y(dx, dy, rotation)
    };
    (
        crate::fixed::spec_fx_ceil(rx + center.x),
        crate::fixed::spec_fx_ceil(ry + center.y),
    )
}

/// One compositing step: pastes `src` at pixel `(px, py)` of a `dw x dh`
/// grid, skipping the sentinel color and out-of-range pixels; in blend mode
/// the source is alpha-blended over the cell, otherwise it replaces it.
pub open spec fn spec_write_one(
    data: Seq<Color>,
    dw: int,
    dh: int,
    src: Color,
    px: int,
    py: int,
    blend: bool,
) -> Seq<Color> {
    if src.spec_is_none() {
        data
    } else if 0 <= px < dw && 0 <= py < dh {
        data.update(
            py * dw + px,
            if blend {
                spec_blend(src, data[py * dw + px])
            } else {
                src
            },
        )
    } else {
        data
    }
}

/// The first `k` sprite cells composited in the order the compositor walks
/// them: column by column, each column top to bottom (cell `k` is column
/// `k / sh`, row `k % sh`).
pub open spec fn spec_write_prefix(
    data: Seq<Color>,
    dw: int,
    dh: int,
    sprite: Seq<Color>,
    sw: int,
    sh: int,
    center: V2,
    rotation: int,
    anchor: V2,
    blend: bool,
    k: int,
) -> Seq<Color>
    decreases k,
{
    if k <= 0 {
        data
    } else {
        let prev = spec_write_prefix(
            data,
            dw,
            dh,
            sprite,
            sw,
            sh,
            center,
            rotation,
            anchor,
            blend,
            k - 1,
        );
        let x = (k - 1) / sh;
        let y = (k - 1) % sh;
        let pc = spec_dest_coord(sw, sh, x, y, center, rotation, anchor);
        spec_write_one(prev, dw, dh, sprite[y * sw + x], pc.0, pc.1, blend)
    }
}

/// A whole sprite composited onto a `dw x dh` grid.
pub open spec fn spec_write(
    data: Seq<Color>,
    dw: int,
    dh: int,
    sprite: Seq<Color>,
    sw: int,
    sh: int,
    center: V2,
    rotation: int,
    anchor: V2,
    blend: bool,
) -> Seq<Color> {
    spec_write_prefix(data, dw, dh, sprite, sw, sh, center, rotation, anchor, blend, sw * sh)
}

/// Blend-mode compositing of a sprite whose every cell is the sentinel
/// fully-transparent color leaves the destination unchanged, whatever the
/// placement: the first `k` steps all skip their cell.
proof fn lemma_write_transparent_prefix(
    data: Seq<Color>,
    dw: int,
    dh: int,
    sprite: Seq<Color>,
    sw: int,
    sh: int,
    center: V2,
    rotation: int,
    anchor: V2,
    k: int,
)
    requires
        sprite.len() == sw * sh,
        0 <= sw,
        0 <= sh,
        0 <= k <= sw * sh,
        forall|i: int| 0 <= i < sprite.len() ==> sprite[i].spec_is_none(),
    ensures
        spec_write_prefix(data, dw, dh, sprite, sw, sh, center, rotation, anchor, true, k) == data,
    decreases k,
{
    if k > 0 {
        lemma_write_transparent_prefix(
            data,
            dw,
            dh,
            sprite,
            sw,
            sh,
            center,
            rotation,
            anchor,
            k - 1,
        );
        assert(sh >= 1) by (nonlinear_arith)
            requires
                0 <= sw && 0 <= sh && 1 <= sw * sh,
        ;
        let x = (k - 1) / sh;
        let y = (k - 1) % sh;
        vstd::arithmetic::div_mod::lemma_div_pos_is_pos(k - 1, sh);
        assert(k - 1 < sh * sw) by (nonlinear_arith)
            requires
                k <= sw * sh,
        ;
        vstd::arithmetic::div_mod::lemma_multiply_divide_lt(k - 1, sh, sw);
        vstd::arithmetic::div_mod::lemma_mod_division_less_than_divisor(k - 1, sh);
        assert(0 <= y * sw + x < sw * sh) by (nonlinear_arith)
            requires
                0 <= x < sw,
                0 <= y < sh,
        ;
        assert(sprite[y * sw + x].spec_is_none());
    }
}

/// Blend-mode compositing of a sentinel fully-transparent sprite onto any
/// destination leaves the destination unchanged.
pub proof fn lemma_write_transparent_noop(
    data: Seq<Color>,
    dw: int,
    dh: int,
    sprite: Seq<Color>,
    sw: int,
    sh: int,
    center: V2,
    rotation: int,
    anchor: V2,
)
    requires
        sprite.len() == sw * sh,
        0 <= sw,
        0 <= sh,
        forall|i: int| 0 <= i < sprite.len() ==> sprite[i].spec_is_none(),
    ensures
        spec_write(data, dw, dh, sprite, sw, sh, center, rotation, anchor, true) == data,
{
    assert(0 <= sw * sh) by (nonlinear_arith)
        requires
            0 <= sw && 0 <= sh,
    ;
    lemma_write_transparent_prefix(
        data,
        dw,
        dh,
        sprite,
        sw,
        sh,
        center,
        rotation,
        anchor,
        sw * sh,
    );
}

/// With rotation 0, no anchor offset and the sprite's own center as the
/// destination center, sprite cell `(x, y)` lands exactly on pixel `(x, y)`.
proof fn lemma_dest_coord_identity(w: int, h: int, x: int, y: int)
    requires
        0 <= x < w <= 255,
        0 <= y < h <= 255,
    ensures
        spec_dest_coord(
            w,
            h,
            x,
            y,
            V2 { x: (512 * w) as i64, y: (512 * h) as i64 },
            0,
            V2 { x: 0, y: 0 },
        ) == (x, y),
{
    let c = V2 { x: (512 * w) as i64, y: (512 * h) as i64 };
    let dx = x * 1024 - w * 512 + 0;
    assert(dx + c.x == x * 1024);
    assert(crate::fixed::spec_fx_ceil(x * 1024) == x) by {
        assert((-(x * 1024)) / 1024 == -x) by (nonlinear_arith)
            requires
                0 <= x,
        ;
    }
    let dy = y * 1024 - h * 512 + 0;
    assert(dy + c.y == y * 1024);
    assert(crate::fixed::spec_fx_ceil(y * 1024) == y) by {
        assert((-(y * 1024)) / 1024 == -y) by (nonlinear_arith)
            requires
                0 <= y,
        ;
    }
}

/// After `k` steps of the identity-placed overwrite, exactly the first `k`
/// sprite cells (in compositing order) have replaced their destination
/// pixels.
proof fn lemma_write_identity_prefix(data: Seq<Color>, sprite: Seq<Color>, w: int, h: int, k: int)
    requires
        data.len() == w * h,
        sprite.len() == w * h,
        0 <= w <= 255,
        0 <= h <= 255,
        0 <= k <= w * h,
        forall|i: int| 0 <= i < sprite.len() ==> #[trigger] sprite[i].a == 255,
    ensures
        spec_write_prefix(
            data,
            w,
            h,
            sprite,
            w,
            h,
            V2 { x: (512 * w) as i64, y: (512 * h) as i64 },
            0,
            V2 { x: 0, y: 0 },
            false,
            k,
        ).len() == w * h,
        forall|u: int, v: int|
            0 <= u < w && 0 <= v < h ==> #[trigger] spec_write_prefix(
                data,
                w,
                h,
                sprite,
                w,
                h,
                V2 { x: (512 * w) as i64, y: (512 * h) as i64 },
                0,
                V2 { x: 0, y: 0 },
                false,
                k,
            )[v * w + u] == if u * h + v < k {
                sprite[v * w + u]
            } else {
                data[v * w + u]
            },
    decreases k,
{
    let c = V2 { x: (512 * w) as i64, y: (512 * h) as i64 };
    let a0 = V2 { x: 0i64, y: 0i64 };
    if k > 0 {
        lemma_write_identity_prefix(data, sprite, w, h, k - 1);
        let prev = spec_write_prefix(data, w, h, sprite, w, h, c, 0, a0, false, k - 1);
        let cur = spec_write_prefix(data, w, h, sprite, w, h, c, 0, a0, false, k);
        assert(h >= 1) by (nonlinear_arith)
            requires
                0 <= w && 0 <= h && 1 <= w * h,
        ;
        let x = (k - 1) / h;
        let y = (k - 1) % h;
        vstd::arithmetic::div_mod::lemma_div_pos_is_pos(k - 1, h);
        assert(k - 1 < h * w) by (nonlinear_arith)
            requires
                k <= w * h,
        ;
        vstd::arithmetic::div_mod::lemma_multiply_divide_lt(k - 1, h, w);
        vstd::arithmetic::div_mod::lemma_mod_division_less_than_divisor(k - 1, h);
        vstd::arithmetic::div_mod::lemma_fundamental_div_mod(k - 1, h);
        lemma_dest_coord_identity(w, h, x, y);
        assert(0 <= y * w + x < w * h) by (nonlinear_arith)
            requires
                0 <= x < w,
                0 <= y < h,
        ;
        assert(sprite[y * w + x].a == 255);
        assert(!sprite[y * w + x].spec_is_none());
        assert(cur == prev.update(y * w + x, sprite[y * w + x]));
        assert forall|u: int, v: int| 0 <= u < w && 0 <= v < h implies #[trigger] cur[v * w + u]
            == if u * h + v < k {
            sprite[v * w + u]
        } else {
            data[v * w + u]
        } by {
            if u == x && v == y {
                assert(u * h + v == k - 1) by (nonlinear_arith)
                    requires
                        u == x,
                        v == y,
                        k - 1 == h * x + y,
                ;
            } else {
                assert(0 <= v * w + u < w * h && v * w + u != y * w + x) by (nonlinear_arith)
                    requires
                        0 <= u < w,
                        0 <= x < w,
                        0 <= v < h,
                        0 <= y,
                        !(u == x && v == y),
                ;
                assert(cur[v * w + u] == prev[v * w + u]);
                assert(u * h + v != k - 1) by (nonlinear_arith)
                    requires
                        0 <= u < w,
                        0 <= v < h,
                        0 <= x < w,
                        0 <= y < h,
                        !(u == x && v == y),
                        k - 1 == h * x + y,
                ;
            }
        }
    }
}

/// Compositing idempotence: overwriting a fully-opaque sprite, unrotated,
/// with its top-left corner on the destination's top-left corner (so its
/// center sits at the center of an equal-sized destination), makes the
/// destination identical to the sprite.
pub proof fn lemma_write_overwrite_identity(data: Seq<Color>, sprite: Seq<Color>, w: int, h: int)
    requires
        data.len() == w * h,
        sprite.len() == w * h,
        0 <= w <= 255,
        0 <= h <= 255,
        forall|i: int| 0 <= i < sprite.len() ==> #[trigger] sprite[i].a == 255,
    ensures
        spec_write(
            data,
            w,
            h,
            sprite,
            w,
            h,
            V2 { x: (512 * w) as i64, y: (512 * h) as i64 },
            0,
            V2 { x: 0, y: 0 },
            false,
        ) == sprite,
{
    let c = V2 { x: (512 * w) as i64, y: (512 * h) as i64 };
    let a0 = V2 { x: 0i64, y: 0i64 };
    assert(0 <= w * h) by (nonlinear_arith)
        requires
            0 <= w && 0 <= h,
    ;
    lemma_write_identity_prefix(data, sprite, w, h, w * h);
    let out = spec_write(data, w, h, sprite, w, h, c, 0, a0, false);
    assert forall|j: int| 0 <= j < w * h implies out[j] == sprite[j] by {
        assert(w >= 1 && h >= 1) by (nonlinear_arith)
            requires
                0 <= w && 0 <= h && 1 <= w * h,
        ;
        let v = j / w;
        let u = j % w;
        vstd::arithmetic::div_mod::lemma_div_pos_is_pos(j, w);
        vstd::arithmetic::div_mod::lemma_multiply_divide_lt(j, w, h);
        vstd::arithmetic::div_mod::lemma_mod_division_less_than_divisor(j, w);
        vstd::arithmetic::div_mod::lemma_fundamental_div_mod(j, w);
        assert(j == v * w + u) by (nonlinear_arith)
            requires
                j == w * (j / w) + j % w,
                v == j / w,
                u == j % w,
        ;
        assert(u * h + v < w * h) by (nonlinear_arith)
            requires
                0 <= u < w,
                0 <= v < h,
        ;
        assert(out[v * w + u] == sprite[v * w + u]);
    }
    assert(out =~= sprite);
}

impl Matrix<Color> {
    /// Resets every cell to the sentinel "no color".
    pub fn clear(&mut self)
        requires
            old(self).wf(),
        ensures
            final(self).wf(),
            final(self).spec_width() == old(self).spec_width(),
            final(self).spec_height() == old(self).spec_height(),
            forall|i: int|
                0 <= i < final(self).spec_data().len() ==> final(self).spec_data()[i] == (Color {
                    r: 0u8,
                    g: 0u8,
                    b: 0u8,
                    a: 0u8,
                }),
    {
        self.fill(Color::new(0, 0, 0, 0));
    }

    /// Scales every cell's alpha channel by `to_opacity / 255`, rounded
    /// half-up, leaving the color channels alone.
    pub fn dim(&mut self, to_opacity: u8)
        requires
            old(self).wf(),
        ensures
            final(self).wf(),
            final(self).spec_width() == old(self).spec_width(),
            final(self).spec_height() == old(self).spec_height(),
            final(self).spec_data().len() == old(self).spec_data().len(),
            forall|i: int|
                0 <= i < final(self).spec_data().len() ==> final(self).spec_data()[i] == (Color {
                    a: crate::color::spec_premul(
                        old(self).spec_data()[i].a as int,
                        to_opacity as int,
                    ) as u8,
                    ..old(self).spec_data()[i]
                }),
    {
        let h: u8 = self.height();
        let w: u8 = self.width();
        let mut y: u8 = 0;
        while y < h
            invariant
                0 <= y <= h,
                self.wf(),
                w == self.spec_width() == old(self).spec_width(),
                h == self.spec_height() == old(self).spec_height(),
                self.spec_data().len() == old(self).spec_data().len(),
                forall|i: int|
                    0 <= i < y as int * w as int ==> self.spec_data()[i] == (Color {
                        a: crate::color::spec_premul(
                            old(self).spec_data()[i].a as int,
                            to_opacity as int,
                        ) as u8,
                        ..old(self).spec_data()[i]
                    }),
                forall|i: int|
                    y as int * w as int <= i < self.spec_data().len() ==> self.spec_data()[i]
                        == old(self).spec_data()[i],
            decreases h - y,
        {
            let mut x: u8 = 0;
            while x < w
                invariant
                    0 <= y < h,
                    0 <= x <= w,
                    self.wf(),
                    w == self.spec_width() == old(self).spec_width(),
                    h == self.spec_height() == old(self).spec_height(),
                    self.spec_data().len() == old(self).spec_data().len(),
                    forall|i: int|
                        0 <= i < y as int * w as int + x as int ==> self.spec_data()[i] == (Color {
                            a: crate::color::spec_premul(
                                old(self).spec_data()[i].a as int,
                                to_opacity as int,
                            ) as u8,
                            ..old(self).spec_data()[i]
                        }),
                    forall|i: int|
                        y as int * w as int + x as int <= i < self.spec_data().len()
                            ==> self.spec_data()[i] == old(self).spec_data()[i],
                decreases w - x,
            {
                proof {
                    self.lemma_index_bounds(x as int, y as int);
                }
                let color = *self.get(x, y);
                proof {
                    assert(0 <= color.a as int * to_opacity as int <= 65025) by (nonlinear_arith)
                        requires
                            0 <= color.a as int <= 255 && 0 <= to_opacity as int <= 255,
                    ;
                }
                let na: u16 = (color.a as u16 * to_opacity as u16 + 127) / 255;
                self.set(x, y, Color::new(color.r, color.g, color.b, na as u8));
                x = x + 1;
            }
            proof {
                assert((y as int + 1) * w as int == y as int * w as int + w as int)
                    by (nonlinear_arith);
            }
            y = y + 1;
        }
        proof {
            assert(h as int * w as int == self.spec_data().len());
        }
    }

    /// Copies `other` verbatim into this grid with its top-left corner at
    /// the whole pixel found by truncating `origin` toward zero; cells that
    /// fall outside this grid are dropped.
    pub fn write_at_origin(&mut self, other: &ColorMatrix, origin: &V2)
        requires
            old(self).wf(),
            other.wf(),
            crate::v2::bounded(*origin, crate::v2::COORD_LIMIT as int),
        ensures
            final(self).wf(),
            final(self).spec_width() == old(self).spec_width(),
            final(self).spec_height() == old(self).spec_height(),
            forall|u: int, v: int|
                old(self).in_range(u, v) ==> #[trigger] final(self).spec_index(u, v) == {
                    let ox = crate::fixed::trunc_div(origin.x as int, 1024);
                    let oy = crate::fixed::trunc_div(origin.y as int, 1024);
                    if other.in_range(u - ox, v - oy) {
                        other.spec_index(u - ox, v - oy)
                    } else {
                        old(self).spec_index(u, v)
                    }
                },
    {
        let ox: i64 = if origin.x >= 0 {
            origin.x / 1024
        } else {
            -((-origin.x) / 1024)
        };
        let oy: i64 = if origin.y >= 0 {
            origin.y / 1024
        } else {
            -((-origin.y) / 1024)
        };
        let sw: u8 = other.width();
        let sh: u8 = other.height();
        let mut x: u8 = 0;
        while x < sw
            invariant
                0 <= x <= sw,
                self.wf(),
                other.wf(),
                ox == crate::fixed::trunc_div(origin.x as int, 1024),
                oy == crate::fixed::trunc_div(origin.y as int, 1024),
                -0x2000_0000 <= ox <= 0x2000_0000,
                -0x2000_0000 <= oy <= 0x2000_0000,
                sw == other.spec_width(),
                sh == other.spec_height(),
                self.spec_width() == old(self).spec_width(),
                self.spec_height() == old(self).spec_height(),
                forall|u: int, v: int|
                    old(self).in_range(u, v) ==> #[trigger] self.spec_index(u, v) == if 0 <= u - ox
                        < x as int && 0 <= v - oy < sh as int {
                        other.spec_index(u - ox, v - oy)
                    } else {
                        old(self).spec_index(u, v)
                    },
            decreases sw - x,
        {
            let mut y: u8 = 0;
            while y < sh
                invariant
                    0 <= x < sw,
                    0 <= y <= sh,
                    self.wf(),
                    other.wf(),
                    ox == crate::fixed::trunc_div(origin.x as int, 1024),
                    oy == crate::fixed::trunc_div(origin.y as int, 1024),
                    -0x2000_0000 <= ox <= 0x2000_0000,
                    -0x2000_0000 <= oy <= 0x2000_0000,
                    sw == other.spec_width(),
                    sh == other.spec_height(),
                    self.spec_width() == old(self).spec_width(),
                    self.spec_height() == old(self).spec_height(),
                    forall|u: int, v: int|
                        old(self).in_range(u, v) ==> #[trigger] self.spec_index(u, v) == if (0 <= u
                            - ox < x as int && 0 <= v - oy < sh as int) || (u - ox == x as int && 0
                            <= v - oy < y as int) {
                            other.spec_index(u - ox, v - oy)
                        } else {
                            old(self).spec_index(u, v)
                        },
                decreases sh - y,
            {
                let tx: i64 = x as i64 + ox;
                let ty: i64 = y as i64 + oy;
                let dw: u8 = self.width();
                let dh: u8 = self.height();
                if 0 <= tx && tx < dw as i64 && 0 <= ty && ty < dh as i64 {
                    let c = *other.get(x, y);
                    let ghost prev = *self;
                    self.set(tx as u8, ty as u8, c);
                    proof {
                        assert forall|u: int, v: int| old(self).in_range(u, v) implies #[trigger] self
                            .spec_index(u, v) == if (0 <= u - ox < x as int && 0 <= v - oy
                            < sh as int) || (u - ox == x as int && 0 <= v - oy < y as int + 1) {
                            other.spec_index(u - ox, v - oy)
                        } else {
                            old(self).spec_index(u, v)
                        } by {
                            prev.lemma_index_bounds(tx as int, ty as int);
                            self.lemma_index_bounds(u, v);
                            prev.lemma_index_bounds(u, v);
                            assert(prev.spec_index(u, v) == if (0 <= u - ox < x as int && 0 <= v
                                - oy < sh as int) || (u - ox == x as int && 0 <= v - oy < y as int) {
                                other.spec_index(u - ox, v - oy)
                            } else {
                                old(self).spec_index(u, v)
                            });
                            if u == tx as int && v == ty as int {
                                assert(self.spec_index(u, v) == c);
                            } else {
                                assert(v * prev.spec_width() + u != ty as int * prev.spec_width()
                                    + tx as int) by (nonlinear_arith)
                                    requires
                                        0 <= u < prev.spec_width(),
                                        0 <= tx < prev.spec_width(),
                                        0 <= v,
                                        0 <= ty,
                                        !(u == tx as int && v == ty as int),
                                ;
                                assert(self.spec_index(u, v) == prev.spec_index(u, v));
                            }
                        }
                    }
                } else {
                    proof {
                        assert forall|u: int, v: int| old(self).in_range(u, v) implies #[trigger] self
                            .spec_index(u, v) == if (0 <= u - ox < x as int && 0 <= v - oy
                            < sh as int) || (u - ox == x as int && 0 <= v - oy < y as int + 1) {
                            other.spec_index(u - ox, v - oy)
                        } else {
                            old(self).spec_index(u, v)
                        } by {}
                    }
                }
                y = y + 1;
            }
            x = x + 1;
        }
    }

    /// Pastes the sprite `other` onto this grid at `other_center`, rotated
    /// by a whole number of degrees about its own center shifted by
    /// `other_anchor`, alpha-blending by default or overwriting when
    /// `blend_colors` is `Some(false)`; sentinel-colored sprite cells and
    /// pixels that land outside this grid are dropped.
    pub fn write(
        &mut self,
        other: &ColorMatrix,
        other_center: &V2,
        other_rotation: Option<i64>,
        other_anchor: Option<V2>,
        blend_colors: Option<bool>,
    )
        requires
            old(self).wf(),
            other.wf(),
            crate::v2::bounded(*other_center, crate::v2::COORD_LIMIT as int),
            other_anchor is Some ==> crate::v2::bounded(
                other_anchor->0,
                crate::v2::COORD_LIMIT as int,
            ),
            other_rotation is Some ==> i64::MIN + 90 < other_rotation->0 < i64::MAX - 90,
        ensures
            final(self).wf(),
            final(self).spec_width() == old(self).spec_width(),
            final(self).spec_height() == old(self).spec_height(),
            final(self).spec_data() == spec_write(
                old(self).spec_data(),
                old(self).spec_width(),
                old(self).spec_height(),
                other.spec_data(),
                other.spec_width(),
                other.spec_height(),
                *other_center,
                if other_rotation is Some {
                    other_rotation->0 as int
                } else {
                    0
                },
                if other_anchor is Some {
                    other_anchor->0
                } else {
                    V2 { x: 0, y: 0 }
                },
                if blend_colors is Some {
                    blend_colors->0
                } else {
                    true
                },
            ),
    {
        let rot: i64 = match other_rotation {
            Some(r) => r,
            None => 0,
        };
        let anchor: V2 = match other_anchor {
            Some(a) => a,
            None => V2 { x: 0, y: 0 },
        };
        let blend: bool = match blend_colors {
            Some(b) => b,
            None => true,
        };
        let ang: i64 = crate::fixed::norm_deg(rot);
        let cosr: i64 = crate::fixed::cos_fx(rot);
        let sinr: i64 = crate::fixed::sin_fx(rot);
        let sw: u8 = other.width();
        let sh: u8 = other.height();
        let dw: u8 = self.width();
        let dh: u8 = self.height();
        let ghost data0 = self.spec_data();
        let ghost sprite = other.spec_data();
        let ghost center = *other_center;
        let mut x: u8 = 0;
        proof {
            assert(0 * sh as int == 0) by (nonlinear_arith);
        }
        while x < sw
            invariant
                0 <= x <= sw,
                self.wf(),
                other.wf(),
                sw == other.spec_width(),
                sh == other.spec_height(),
                dw == self.spec_width() == old(self).spec_width(),
                dh == self.spec_height() == old(self).spec_height(),
                data0 == old(self).spec_data(),
                sprite == other.spec_data(),
                center == *other_center,
                crate::v2::bounded(center, crate::v2::COORD_LIMIT as int),
                crate::v2::bounded(anchor, crate::v2::COORD_LIMIT as int),
                i64::MIN + 90 < rot < i64::MAX - 90,
                ang == rot as int % 360,
                cosr == crate::fixed::spec_cos_fx(rot as int),
                sinr == crate::fixed::spec_sin_fx(rot as int),
                -1024 <= cosr <= 1024,
                -1024 <= sinr <= 1024,
                self.spec_data() == spec_write_prefix(
                    data0,
                    dw as int,
                    dh as int,
                    sprite,
                    sw as int,
                    sh as int,
                    center,
                    rot as int,
                    anchor,
                    blend,
                    x as int * sh as int,
                ),
            decreases sw - x,
        {
            let mut y: u8 = 0;
            while y < sh
                invariant
                    0 <= x < sw,
                    0 <= y <= sh,
                    self.wf(),
                    other.wf(),
                    sw == other.spec_width(),
                    sh == other.spec_height(),
                    dw == self.spec_width() == old(self).spec_width(),
                    dh == self.spec_height() == old(self).spec_height(),
                    data0 == old(self).spec_data(),
                    sprite == other.spec_data(),
                    center == *other_center,
                    crate::v2::bounded(center, crate::v2::COORD_LIMIT as int),
                    crate::v2::bounded(anchor, crate::v2::COORD_LIMIT as int),
                    i64::MIN + 90 < rot < i64::MAX - 90,
                    ang == rot as int % 360,
                    cosr == crate::fixed::spec_cos_fx(rot as int),
                    sinr == crate::fixed::spec_sin_fx(rot as int),
                    -1024 <= cosr <= 1024,
                    -1024 <= sinr <= 1024,
                    self.spec_data() == spec_write_prefix(
                        data0,
                        dw as int,
                        dh as int,
                        sprite,
                        sw as int,
                        sh as int,
                        center,
                        rot as int,
                        anchor,
                        blend,
                        x as int * sh as int + y as int,
                    ),
                decreases sh - y,
            {
                let ghost k: int = x as int * sh as int + y as int;
                proof {
                    assert(0 <= x as int * sh as int <= 255 * 255) by (nonlinear_arith)
                        requires
                            0 <= x as int <= 255,
                            0 <= sh as int <= 255,
                    ;
                    vstd::arithmetic::div_mod::lemma_fundamental_div_mod_converse_div(
                        k,
                        sh as int,
                        x as int,
                        y as int,
                    );
                    vstd::arithmetic::div_mod::lemma_fundamental_div_mod_converse_mod(
                        k,
                        sh as int,
                        x as int,
                        y as int,
                    );
                    other.lemma_index_bounds(x as int, y as int);
                }
                let src: Color = *other.get(x, y);
                let ghost pc = spec_dest_coord(
                    sw as int,
                    sh as int,
                    x as int,
                    y as int,
                    center,
                    rot as int,
                    anchor,
                );
                if !src.is_none() {
                    let dxl: i64 = x as i64 * 1024 - sw as i64 * 512 + anchor.x;
                    let dyl: i64 = y as i64 * 1024 - sh as i64 * 512 + anchor.y;
                    let rx: i64;
                    let ry: i64;
                    if ang % 90 == 0 {
                        if ang == 90 {
                            rx = -dyl;
                            ry = dxl;
                        } else if ang == 180 {
                            rx = -dxl;
                            ry = -dyl;
                        } else if ang == 270 {
                            rx = dyl;
                            ry = -dxl;
                        } else {
                            rx = dxl;
                            ry = dyl;
                        }
                    } else {
                        proof {
                            crate::fixed::lemma_mul_bound(dxl as int, cosr as int, 0x4000_0000, 1024);
                            crate::fixed::lemma_mul_bound(dyl as int, sinr as int, 0x4000_0000, 1024);
                            crate::fixed::lemma_mul_bound(dxl as int, sinr as int, 0x4000_0000, 1024);
                            crate::fixed::lemma_mul_bound(dyl as int, cosr as int, 0x4000_0000, 1024);
                        }
                        let px_: i64 = dxl * cosr - dyl * sinr;
                        let py_: i64 = dxl * sinr + dyl * cosr;
                        rx = px_ / 1024;
                        ry = py_ / 1024;
                        proof {
                            assert(rx == crate::v2::spec_rot_x(dxl as int, dyl as int, rot as int));
                            assert(ry == crate::v2::spec_rot_y(dxl as int, dyl as int, rot as int));
                            assert(-0x4000_0000_0000 <= rx <= 0x4000_0000_0000
                                && -0x4000_0000_0000 <= ry <= 0x4000_0000_0000) by (nonlinear_arith)
                                requires
                                    rx == crate::fixed::trunc_div(px_ as int, 1024),
                                    ry == crate::fixed::trunc_div(py_ as int, 1024),
                                    -0x1_0000_0000_0000 <= px_ <= 0x1_0000_0000_0000,
                                    -0x1_0000_0000_0000 <= py_ <= 0x1_0000_0000_0000,
                            ;
                        }
                    }
                    let px: i64 = crate::fixed::fx_ceil(rx + other_center.x);
                    let py: i64 = crate::fixed::fx_ceil(ry + other_center.y);
                    proof {
                        assert(pc.0 == px && pc.1 == py);
                    }
                    if 0 <= px && px < dw as i64 && 0 <= py && py < dh as i64 {
                        let dst: Color = *self.get(px as u8, py as u8);
                        let ghost prev = self.spec_data();
                        let out: Color = if blend {
                            blend_pixel(src, dst)
                        } else {
                            src
                        };
                        self.set(px as u8, py as u8, out);
                        proof {
                            self.lemma_index_bounds(px as int, py as int);
                            assert(self.spec_data() == spec_write_one(
                                prev,
                                dw as int,
                                dh as int,
                                src,
                                pc.0,
                                pc.1,
                                blend,
                            ));
                        }
                    }
                }
                proof {
                    assert(self.spec_data() == spec_write_prefix(
                        data0,
                        dw as int,
                        dh as int,
                        sprite,
                        sw as int,
                        sh as int,
                        center,
                        rot as int,
                        anchor,
                        blend,
                        k + 1,
                    ));
                }
                y = y + 1;
            }
            proof {
                assert((x as int + 1) * sh as int == x as int * sh as int + sh as int)
                    by (nonlinear_arith);
            }
            x = x + 1;
        }
    }
}

} // verus!
