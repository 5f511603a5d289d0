//! Rasterization into a platform framebuffer: packing a color into an
//! `0x00RRGGBB` word and stamping filled circles into a row-major pixel
//! buffer, as the desktop front end draws one fat dot per logical pixel.
use vstd::prelude::*;

verus! {

use crate::color::Color;

/// A channel scaled by its alpha, rounded down.
pub open spec fn premul_floor(c: int, a: int) -> int {
    c * a / 255
}

/// The `0x00RRGGBB` word of a color with each channel scaled by its alpha.
pub open spec fn spec_make_color(c: Color) -> int {
    65536 * premul_floor(c.r as int, c.a as int) + 256 * premul_floor(c.g as int, c.a as int)
        + premul_floor(c.b as int, c.a as int)
}

/// Whether `(dx, dy)` lies within a circle of radius `r` about the origin.
pub open spec fn in_circle(dx: int, dy: int, r: int) -> bool {
    dx * dx + dy * dy <= r * r
}

/// A point of a circle lies within its bounding square.
proof fn lemma_circle_bounds(dx: int, dy: int, r: int)
    requires
        0 <= r,
        in_circle(dx, dy, r),
    ensures
        -r <= dx <= r,
        -r <= dy <= r,
{
    assert(-r <= dx <= r && -r <= dy <= r) by (nonlinear_arith)
        requires
            0 <= r,
            dx * dx + dy * dy <= r * r,
    ;
}

/// Packs a color into a `0x00RRGGBB` word, each channel scaled by alpha.
pub fn make_color(color: &Color) -> (r: u32)
    ensures
        r == spec_make_color(*color),
{
    proof {
        assert(0 <= color.r as int * color.a as int <= 65025 && 0 <= color.g as int
            * color.a as int <= 65025 && 0 <= color.b as int * color.a as int <= 65025)
            by (nonlinear_arith)
            requires
                0 <= color.r as int <= 255,
                0 <= color.g as int <= 255,
                0 <= color.b as int <= 255,
                0 <= color.a as int <= 255,
        ;
    }
    let pr: u32 = color.r as u32 * color.a as u32 / 255;
    let pg: u32 = color.g as u32 * color.a as u32 / 255;
    let pb: u32 = color.b as u32 * color.a as u32 / 255;
    proof {
        vstd::arithmetic::div_mod::lemma_multiply_divide_le(
            color.r as int * color.a as int,
            255,
            255,
        );
        vstd::arithmetic::div_mod::lemma_multiply_divide_le(
            color.g as int * color.a as int,
            255,
            255,
        );
        vstd::arithmetic::div_mod::lemma_multiply_divide_le(
            color.b as int * color.a as int,
            255,
            255,
        );
        vstd::arithmetic::div_mod::lemma_div_pos_is_pos(color.r as int * color.a as int, 255);
        vstd::arithmetic::div_mod::lemma_div_pos_is_pos(color.g as int * color.a as int, 255);
        vstd::arithmetic::div_mod::lemma_div_pos_is_pos(color.b as int * color.a as int, 255);
    }
    65536 * pr + 256 * pg + pb
}

/// Stamps a filled circle of radius `r` about `(cx, cy)` into a row-major
/// `w x h` pixel buffer; pixels outside the buffer are dropped.
pub fn draw_circle(buf: &mut Vec<u32>, w: usize, h: usize, cx: i32, cy: i32, r: i32, color: Color)
    requires
        old(buf)@.len() == w * h,
        w <= 0x8000,
        h <= 0x8000,
        0 <= r <= 0x4000,
        -0x10000 <= cx <= 0x10000,
        -0x10000 <= cy <= 0x10000,
    ensures
        final(buf)@.len() == w * h,
        forall|u: int, v: int|
            0 <= u < w && 0 <= v < h ==> #[trigger] final(buf)@[v * w + u] == if in_circle(
                u - cx,
                v - cy,
                r as int,
            ) {
                spec_make_color(color) as u32
            } else {
                old(buf)@[v * w + u]
            },
{
    let col: u32 = make_color(&color);
    let mut y: i32 = -r;
    proof {
        assert forall|u: int, v: int| 0 <= u < w && 0 <= v < h implies #[trigger] buf@[v * w + u]
            == if in_circle(u - cx, v - cy, r as int) && v - cy < y {
            col
        } else {
            old(buf)@[v * w + u]
        } by {
            if in_circle(u - cx, v - cy, r as int) {
                lemma_circle_bounds(u - cx, v - cy, r as int);
            }
        }
    }
    while y <= r
        invariant
            -r <= y <= r + 1,
            buf@.len() == w * h,
            w <= 0x8000,
            h <= 0x8000,
            0 <= r <= 0x4000,
            -0x10000 <= cx <= 0x10000,
            -0x10000 <= cy <= 0x10000,
            col == spec_make_color(color),
            forall|u: int, v: int|
                0 <= u < w && 0 <= v < h ==> #[trigger] buf@[v * w + u] == if in_circle(
                    u - cx,
                    v - cy,
                    r as int,
                ) && v - cy < y {
                    col
                } else {
                    old(buf)@[v * w + u]
                },
        decreases r + 1 - y,
    {
        let mut x: i32 = -r;
        proof {
            assert forall|u: int, v: int| 0 <= u < w && 0 <= v < h implies #[trigger] buf@[v * w
                + u] == if in_circle(u - cx, v - cy, r as int) && (v - cy < y || (v - cy == y && u
                - cx < x)) {
                col
            } else {
                old(buf)@[v * w + u]
            } by {
                if in_circle(u - cx, v - cy, r as int) {
                    lemma_circle_bounds(u - cx, v - cy, r as int);
                }
            }
        }
        while x <= r
            invariant
                -r <= y <= r,
                -r <= x <= r + 1,
                buf@.len() == w * h,
                w <= 0x8000,
                h <= 0x8000,
                0 <= r <= 0x4000,
                -0x10000 <= cx <= 0x10000,
                -0x10000 <= cy <= 0x10000,
                col == spec_make_color(color),
                forall|u: int, v: int|
                    0 <= u < w && 0 <= v < h ==> #[trigger] buf@[v * w + u] == if in_circle(
                        u - cx,
                        v - cy,
                        r as int,
                    ) && (v - cy < y || (v - cy == y && u - cx < x)) {
                        col
                    } else {
                        old(buf)@[v * w + u]
                    },
            decreases r + 1 - x,
        {
            let ghost pre = buf@;
            proof {
                assert(0 <= x as int * x as int <= 0x1000_0000 && 0 <= y as int * y as int
                    <= 0x1000_0000 && 0 <= r as int * r as int <= 0x1000_0000) by (nonlinear_arith)
                    requires
                        -0x4000 <= x as int <= 0x4000,
                        -0x4000 <= y as int <= 0x4000,
                        0 <= r as int <= 0x4000,
                ;
            }
            if x * x + y * y <= r * r {
                let px: i32 = cx + x;
                let py: i32 = cy + y;
                if px >= 0 && py >= 0 && (px as usize) < w && (py as usize) < h {
                    proof {
                        assert((py as int * w as int + px as int) < (w as int * h as int) && (
                        py as int * w as int + px as int) <= 0x4000_0000) by (nonlinear_arith)
                            requires
                                0 <= px as int,
                                (px as int) < (w as int),
                                0 <= py as int,
                                (py as int) < (h as int),
                                w <= 0x8000,
                                h <= 0x8000,
                        ;
                    }
                    let idx: usize = py as usize * w + px as usize;
                    buf[idx] = col;
                    proof {
                        assert forall|u: int, v: int| 0 <= u < w && 0 <= v < h implies
                            #[trigger] buf@[v * w + u] == if in_circle(u - cx, v - cy, r as int)
                            && (v - cy < y || (v - cy == y && u - cx < x + 1)) {
                            col
                        } else {
                            old(buf)@[v * w + u]
                        } by {
                            if u == px as int && v == py as int {
                                assert(buf@[v * w + u] == col);
                            } else {
                                assert(v * w + u != py as int * w as int + px as int && 0 <= v * w
                                    + u && (v * w as int + u) < (w as int * h as int))
                                    by (nonlinear_arith)
                                    requires
                                        0 <= u,
                                        u < w as int,
                                        0 <= px as int,
                                        (px as int) < (w as int),
                                        0 <= v,
                                        v < h as int,
                                        0 <= py as int,
                                        !(u == px as int && v == py as int),
                                ;
                                assert(buf@[v * w + u] == pre[v * w + u]);
                            }
                        }
                    }
                } else {
                    proof {
                        assert forall|u: int, v: int| 0 <= u < w && 0 <= v < h implies
                            #[trigger] buf@[v * w + u] == if in_circle(u - cx, v - cy, r as int)
                            && (v - cy < y || (v - cy == y && u - cx < x + 1)) {
                            col
                        } else {
                            old(buf)@[v * w + u]
                        } by {}
                    }
                }
            } else {
                proof {
                    assert forall|u: int, v: int| 0 <= u < w && 0 <= v < h implies
                        #[trigger] buf@[v * w + u] == if in_circle(u - cx, v - cy, r as int) && (v
                        - cy < y || (v - cy == y && u - cx < x + 1)) {
                        col
                    } else {
                        old(buf)@[v * w + u]
                    } by {}
                }
            }
            x = x + 1;
        }
        proof {
            assert forall|u: int, v: int| 0 <= u < w && 0 <= v < h implies #[trigger] buf@[v * w
                + u] == if in_circle(u - cx, v - cy, r as int) && v - cy < y + 1 {
                col
            } else {
                old(buf)@[v * w + u]
            } by {
                if in_circle(u - cx, v - cy, r as int) {
                    lemma_circle_bounds(u - cx, v - cy, r as int);
                }
            }
        }
        y = y + 1;
    }
    proof {
        assert forall|u: int, v: int| 0 <= u < w && 0 <= v < h implies #[trigger] buf@[v * w + u]
            == if in_circle(u - cx, v - cy, r as int) {
            spec_make_color(color) as u32
        } else {
            old(buf)@[v * w + u]
        } by {
            if in_circle(u - cx, v - cy, r as int) {
                lemma_circle_bounds(u - cx, v - cy, r as int);
            }
        }
    }
}

} // verus!
