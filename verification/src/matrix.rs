//! A fixed-size rectangular grid of values with bounds-checked access.
//!
//! The grid is stored row-major; a coordinate `(x, y)` addresses column `x`
//! of row `y`. Reading out of range is a contract violation and is excluded
//! by `requires` (the strict boundary: a coordinate equal to the dimension is
//! already out of range), while writing out of range is a silent no-op, since
//! compositing routinely pushes rotated geometry partially off-screen.
use vstd::prelude::*;

verus! {

use crate::fixed::{trunc_div, spec_fx_round};

/// Destination pixel of source cell `(x, y)` when a `w x h` grid is rotated
/// by `deg` whole degrees about its center into a `nw x nh` grid: the cell's
/// offset from the source center is rotated, translated to the destination
/// center, and nearest-stamped (rounded to the closest pixel).
pub open spec fn spec_rotate_dest(
    w: int,
    h: int,
    nw: int,
    nh: int,
    x: int,
    y: int,
    deg: int,
) -> (int, int) {
    let dx = x * 1024 - w * 512;
    let dy = y * 1024 - h * 512;
    (
        spec_fx_round(crate::v2::spec_rot_x(dx, dy, deg) + nw * 512),
        spec_fx_round(crate::v2::spec_rot_y(dx, dy, deg) + nh * 512),
    )
}

/// One rotation step: stamps `src` at pixel `(px, py)` of a `nw x nh` grid,
/// dropping pixels that fall outside.
pub open spec fn spec_rotate_one<T>(data: Seq<T>, nw: int, nh: int, src: T, px: int, py: int) -> Seq<
    T,
> {
    if 0 <= px < nw && 0 <= py < nh {
        data.update(py * nw + px, src)
    } else {
        data
    }
}

/// The first `k` source cells rotated onto a background-filled destination,
/// in the order the rotation walks them: column by column, each column top
/// to bottom (cell `k` is column `k / h`, row `k % h`).
pub open spec fn spec_rotate_prefix<T>(
    src: Seq<T>,
    w: int,
    h: int,
    deg: int,
    bg: T,
    nw: int,
    nh: int,
    k: int,
) -> Seq<T>
    decreases k,
{
    if k <= 0 {
        Seq::new((nw * nh) as nat, |i: int| bg)
    } else {
        let prev = spec_rotate_prefix(src, w, h, deg, bg, nw, nh, k - 1);
        let x = (k - 1) / h;
        let y = (k - 1) % h;
        let pc = spec_rotate_dest(w, h, nw, nh, x, y, deg);
        spec_rotate_one(prev, nw, nh, src[y * w + x], pc.0, pc.1)
    }
}

/// A `width x height` grid of `T` values in row-major order.
#[derive(Clone, Debug)]
pub struct Matrix<T> {
    width: u8,
    height: u8,
    data: Vec<T>,
}

impl<T> Matrix<T> {
    /// Grid width in cells.
    pub closed spec fn spec_width(&self) -> int {
        self.width as int
    }

    /// Grid height in cells.
    pub closed spec fn spec_height(&self) -> int {
        self.height as int
    }

    /// The cells in row-major order.
    pub closed spec fn spec_data(&self) -> Seq<T> {
        self.data@
    }

    /// The store always holds exactly `width * height` cells.
    pub open spec fn wf(&self) -> bool {
        self.spec_data().len() == self.spec_width() * self.spec_height()
    }

    /// The cell at column `x` of row `y`.
    pub open spec fn spec_index(&self, x: int, y: int) -> T {
        self.spec_data()[y * self.spec_width() + x]
    }

    /// Whether `(x, y)` addresses a cell of this grid.
    pub open spec fn in_range(&self, x: int, y: int) -> bool {
        0 <= x < self.spec_width() && 0 <= y < self.spec_height()
    }

    /// Row-major cell indices stay inside the data store.
    pub proof fn lemma_index_bounds(&self, x: int, y: int)
        requires
            self.wf(),
            self.in_range(x, y),
        ensures
            0 <= y * self.spec_width() + x < self.spec_data().len(),
    {
        let w = self.spec_width();
        let h = self.spec_height();
        assert(0 <= y * w + x < w * h) by (nonlinear_arith)
            requires
                0 <= x < w,
                0 <= y < h,
        ;
    }

    /// Grid width in cells.
    pub fn width(&self) -> (r: u8)
        ensures
            r == self.spec_width(),
    {
        self.width
    }

    /// Grid height in cells.
    pub fn height(&self) -> (r: u8)
        ensures
            r == self.spec_height(),
    {
        self.height
    }

    /// The cell at `(x, y)`; the coordinate must be strictly inside the grid.
    pub fn get(&self, x: u8, y: u8) -> (r: &T)
        requires
            self.wf(),
            self.in_range(x as int, y as int),
        ensures
            *r == self.spec_index(x as int, y as int),
    {
        proof {
            self.lemma_index_bounds(x as int, y as int);
            assert(0 <= y as int * self.spec_width() <= 65025) by (nonlinear_arith)
                requires
                    0 <= y as int <= 255 && 0 <= self.spec_width() <= 255,
            ;
        }
        &self.data[y as usize * self.width as usize + x as usize]
    }

    /// The cell at `(x, y)`, under the name the flat grid interface uses.
    pub fn at(&self, x: u8, y: u8) -> (r: &T)
        requires
            self.wf(),
            self.in_range(x as int, y as int),
        ensures
            *r == self.spec_index(x as int, y as int),
    {
        self.get(x, y)
    }

    /// Replaces the cell at `(x, y)`; out-of-range writes are ignored.
    pub fn set(&mut self, x: u8, y: u8, to: T)
        requires
            old(self).wf(),
        ensures
            final(self).wf(),
            final(self).spec_width() == old(self).spec_width(),
            final(self).spec_height() == old(self).spec_height(),
            old(self).in_range(x as int, y as int) ==> final(self).spec_data() == old(
                self,
            ).spec_data().update(y as int * old(self).spec_width() + x as int, to),
            !old(self).in_range(x as int, y as int) ==> final(self).spec_data() == old(
                self,
            ).spec_data(),
    {
        if x < self.width && y < self.height {
            proof {
                self.lemma_index_bounds(x as int, y as int);
                assert(0 <= y as int * self.spec_width() <= 65025) by (nonlinear_arith)
                    requires
                        0 <= y as int <= 255 && 0 <= self.spec_width() <= 255,
                ;
            }
            let i: usize = y as usize * self.width as usize + x as usize;
            self.data[i] = to;
        }
    }

    /// The backing store, row-major.
    pub fn data(&self) -> (r: &Vec<T>)
        ensures
            r@ == self.spec_data(),
    {
        &self.data
    }
}

impl<T: Copy> Matrix<T> {
    /// A `width x height` grid with every cell set to `init`.
    pub fn new(width: u8, height: u8, init: T) -> (r: Matrix<T>)
        ensures
            r.wf(),
            r.spec_width() == width,
            r.spec_height() == height,
            forall|i: int| 0 <= i < r.spec_data().len() ==> r.spec_data()[i] == init,
    {
        proof {
            assert(0 <= width as int * height as int <= 65025) by (nonlinear_arith)
                requires
                    0 <= width as int <= 255 && 0 <= height as int <= 255,
            ;
        }
        let n: usize = width as usize * height as usize;
        let mut data: Vec<T> = Vec::new();
        let mut i: usize = 0;
        while i < n
            invariant
                i == data@.len() <= n,
                forall|j: int| 0 <= j < i ==> data@[j] == init,
            decreases n - i,
        {
            data.push(init);
            i = i + 1;
        }
        Matrix { width, height, data }
    }

    /// Rotates the grid by a whole number of degrees about its center into a
    /// new bounding grid sized from the absolute sine/cosine projections of
    /// the old dimensions; each source cell is rotated and nearest-stamped
    /// into the destination, and destination cells no source cell lands on
    /// stay `background`.
    pub fn rotate(&mut self, degrees: i64, background: T)
        requires
            old(self).wf(),
            old(self).spec_width() + old(self).spec_height() <= 255,
            i64::MIN + 90 < degrees < i64::MAX - 90,
        ensures
            final(self).wf(),
            final(self).spec_width() == crate::fixed::spec_fx_ceil(
                old(self).spec_width() * vstd::math::abs(crate::fixed::spec_cos_fx(degrees as int))
                    + old(self).spec_height() * vstd::math::abs(
                    crate::fixed::spec_sin_fx(degrees as int),
                ),
            ),
            final(self).spec_height() == crate::fixed::spec_fx_ceil(
                old(self).spec_width() * vstd::math::abs(crate::fixed::spec_sin_fx(degrees as int))
                    + old(self).spec_height() * vstd::math::abs(
                    crate::fixed::spec_cos_fx(degrees as int),
                ),
            ),
            final(self).spec_data() == spec_rotate_prefix(
                old(self).spec_data(),
                old(self).spec_width(),
                old(self).spec_height(),
                degrees as int,
                background,
                final(self).spec_width(),
                final(self).spec_height(),
                old(self).spec_width() * old(self).spec_height(),
            ),
    {
        let w: u8 = self.width;
        let h: u8 = self.height;
        let c: i64 = crate::fixed::cos_fx(degrees);
        let s: i64 = crate::fixed::sin_fx(degrees);
        let ca: i64 = if c < 0 {
            -c
        } else {
            c
        };
        let sa: i64 = if s < 0 {
            -s
        } else {
            s
        };
        proof {
            crate::fixed::lemma_mul_bound(w as int, ca as int, 255, 1024);
            crate::fixed::lemma_mul_bound(h as int, sa as int, 255, 1024);
            crate::fixed::lemma_mul_bound(w as int, sa as int, 255, 1024);
            crate::fixed::lemma_mul_bound(h as int, ca as int, 255, 1024);
            assert(0 <= w as int * ca as int + h as int * sa as int <= (w as int + h as int) * 1024
                && 0 <= w as int * sa as int + h as int * ca as int <= (w as int + h as int) * 1024)
                by (nonlinear_arith)
                requires
                    0 <= ca <= 1024,
                    0 <= sa <= 1024,
                    0 <= w as int,
                    0 <= h as int,
            ;
            assert(crate::fixed::spec_fx_ceil((w as int + h as int) * 1024) == w as int
                + h as int) by (nonlinear_arith)
                requires
                    0 <= w as int + h as int,
            ;
            crate::fixed::lemma_fx_ceil_monotone(
                w as int * ca as int + h as int * sa as int,
                (w as int + h as int) * 1024,
            );
            crate::fixed::lemma_fx_ceil_monotone(0, w as int * ca as int + h as int * sa as int);
            crate::fixed::lemma_fx_ceil_monotone(
                w as int * sa as int + h as int * ca as int,
                (w as int + h as int) * 1024,
            );
            crate::fixed::lemma_fx_ceil_monotone(0, w as int * sa as int + h as int * ca as int);
        }
        let nwf: i64 = crate::fixed::fx_ceil(w as i64 * ca + h as i64 * sa);
        let nhf: i64 = crate::fixed::fx_ceil(w as i64 * sa + h as i64 * ca);
        let nw: u8 = nwf as u8;
        let nh: u8 = nhf as u8;
        let ghost src = self.spec_data();
        let mut out: Matrix<T> = Matrix::new(nw, nh, background);
        proof {
            assert(out.spec_data() =~= Seq::new(
                (nw as int * nh as int) as nat,
                |i: int| background,
            ));
            assert(0 * h as int == 0) by (nonlinear_arith);
        }
        let mut x: u8 = 0;
        while x < w
            invariant
                0 <= x <= w,
                self.wf(),
                w == self.spec_width(),
                h == self.spec_height(),
                src == self.spec_data(),
                i64::MIN + 90 < degrees < i64::MAX - 90,
                c == crate::fixed::spec_cos_fx(degrees as int),
                s == crate::fixed::spec_sin_fx(degrees as int),
                -1024 <= c <= 1024,
                -1024 <= s <= 1024,
                out.wf(),
                nw == out.spec_width(),
                nh == out.spec_height(),
                out.spec_data() == spec_rotate_prefix(
                    src,
                    w as int,
                    h as int,
                    degrees as int,
                    background,
                    nw as int,
                    nh as int,
                    x as int * h as int,
                ),
            decreases w - x,
        {
            let mut y: u8 = 0;
            while y < h
                invariant
                    0 <= x < w,
                    0 <= y <= h,
                    self.wf(),
                    w == self.spec_width(),
                    h == self.spec_height(),
                    src == self.spec_data(),
                    i64::MIN + 90 < degrees < i64::MAX - 90,
                    c == crate::fixed::spec_cos_fx(degrees as int),
                    s == crate::fixed::spec_sin_fx(degrees as int),
                    -1024 <= c <= 1024,
                    -1024 <= s <= 1024,
                    out.wf(),
                    nw == out.spec_width(),
                    nh == out.spec_height(),
                    out.spec_data() == spec_rotate_prefix(
                        src,
                        w as int,
                        h as int,
                        degrees as int,
                        background,
                        nw as int,
                        nh as int,
                        x as int * h as int + y as int,
                    ),
                decreases h - y,
            {
                let ghost k: int = x as int * h as int + y as int;
                proof {
                    assert(0 <= x as int * h as int <= 255 * 255) by (nonlinear_arith)
                        requires
                            0 <= x as int <= 255,
                            0 <= h as int <= 255,
                    ;
                    vstd::arithmetic::div_mod::lemma_fundamental_div_mod_converse_div(
                        k,
                        h as int,
                        x as int,
                        y as int,
                    );
                    vstd::arithmetic::div_mod::lemma_fundamental_div_mod_converse_mod(
                        k,
                        h as int,
                        x as int,
                        y as int,
                    );
                    self.lemma_index_bounds(x as int, y as int);
                }
                let cell: T = *self.get(x, y);
                let ghost pc = spec_rotate_dest(
                    w as int,
                    h as int,
                    nw as int,
                    nh as int,
                    x as int,
                    y as int,
                    degrees as int,
                );
                let dx: i64 = x as i64 * 1024 - w as i64 * 512;
                let dy: i64 = y as i64 * 1024 - h as i64 * 512;
                proof {
                    crate::fixed::lemma_mul_bound(dx as int, c as int, 0x4_0000, 1024);
                    crate::fixed::lemma_mul_bound(dy as int, s as int, 0x4_0000, 1024);
                    crate::fixed::lemma_mul_bound(dx as int, s as int, 0x4_0000, 1024);
                    crate::fixed::lemma_mul_bound(dy as int, c as int, 0x4_0000, 1024);
                }
                let rx: i64 = (dx * c - dy * s) / 1024;
                let ry: i64 = (dx * s + dy * c) / 1024;
                proof {
                    assert(rx == crate::v2::spec_rot_x(dx as int, dy as int, degrees as int));
                    assert(ry == crate::v2::spec_rot_y(dx as int, dy as int, degrees as int));
                    assert(-0x1000_0000 <= rx <= 0x1000_0000 && -0x1000_0000 <= ry <= 0x1000_0000)
                        by (nonlinear_arith)
                        requires
                            rx == trunc_div(dx as int * c as int - dy as int * s as int, 1024),
                            ry == trunc_div(dx as int * s as int + dy as int * c as int, 1024),
                            -0x2000_0000 <= dx as int * c as int - dy as int * s as int
                                <= 0x2000_0000,
                            -0x2000_0000 <= dx as int * s as int + dy as int * c as int
                                <= 0x2000_0000,
                    ;
                }
                let px: i64 = crate::fixed::fx_round(rx + nw as i64 * 512);
                let py: i64 = crate::fixed::fx_round(ry + nh as i64 * 512);
                proof {
                    assert(pc.0 == px && pc.1 == py);
                }
                if 0 <= px && px < nw as i64 && 0 <= py && py < nh as i64 {
                    let ghost prev = out.spec_data();
                    out.set(px as u8, py as u8, cell);
                    proof {
                        out.lemma_index_bounds(px as int, py as int);
                        assert(out.spec_data() == spec_rotate_one(
                            prev,
                            nw as int,
                            nh as int,
                            cell,
                            pc.0,
                            pc.1,
                        ));
                    }
                }
                proof {
                    assert(out.spec_data() == spec_rotate_prefix(
                        src,
                        w as int,
                        h as int,
                        degrees as int,
                        background,
                        nw as int,
                        nh as int,
                        k + 1,
                    ));
                }
                y = y + 1;
            }
            proof {
                assert((x as int + 1) * h as int == x as int * h as int + h as int)
                    by (nonlinear_arith);
            }
            x = x + 1;
        }
        self.width = nw;
        self.height = nh;
        self.data = out.data;
        proof {
            assert(w as int * h as int == w as int * h as int);
        }
    }

    /// Rescales the grid by a positive fixed-point factor: the new
    /// dimensions are the old ones times the factor, rounded to the nearest
    /// pixel, and each destination cell is nearest-neighbor sampled from the
    /// source cell found by dividing its coordinate by the factor; cells
    /// sampling outside the source stay `background`.
    pub fn scale(&mut self, factor: i64, background: T)
        requires
            old(self).wf(),
            0 < factor <= crate::fixed::FX_FACTOR_LIMIT,
            0 <= spec_fx_round(old(self).spec_width() * 1024 * factor / 1024) <= 255,
            0 <= spec_fx_round(old(self).spec_height() * 1024 * factor / 1024) <= 255,
        ensures
            final(self).wf(),
            final(self).spec_width() == spec_fx_round(
                old(self).spec_width() * 1024 * factor / 1024,
            ),
            final(self).spec_height() == spec_fx_round(
                old(self).spec_height() * 1024 * factor / 1024,
            ),
            forall|u: int, v: int|
                final(self).in_range(u, v) ==> #[trigger] final(self).spec_index(u, v) == {
                    let sx = trunc_div(u * 1024, factor as int);
                    let sy = trunc_div(v * 1024, factor as int);
                    if old(self).in_range(sx, sy) {
                        old(self).spec_index(sx, sy)
                    } else {
                        background
                    }
                },
    {
        let w: u8 = self.width;
        let h: u8 = self.height;
        proof {
            crate::fixed::lemma_mul_bound(w as int, factor as int, 255, 0x4000_0000);
            crate::fixed::lemma_mul_bound(h as int, factor as int, 255, 0x4000_0000);
            assert(w as int * 1024 * factor as int / 1024 == w as int * factor as int)
                by (nonlinear_arith);
            assert(h as int * 1024 * factor as int / 1024 == h as int * factor as int)
                by (nonlinear_arith);
        }
        let new_width: i64 = crate::fixed::fx_round(w as i64 * factor);
        let new_height: i64 = crate::fixed::fx_round(h as i64 * factor);
        let nw: u8 = new_width as u8;
        let nh: u8 = new_height as u8;
        let mut data: Vec<T> = Vec::new();
        let mut y: u8 = 0;
        while y < nh
            invariant
                old(self).wf(),
                w == old(self).spec_width(),
                h == old(self).spec_height(),
                0 < factor <= crate::fixed::FX_FACTOR_LIMIT,
                0 <= y <= nh,
                data@.len() == y as int * nw as int,
                forall|u: int, v: int|
                    0 <= u < nw as int && 0 <= v < y as int ==> #[trigger] data@[v * nw as int + u]
                        == {
                        let sx = trunc_div(u * 1024, factor as int);
                        let sy = trunc_div(v * 1024, factor as int);
                        if old(self).in_range(sx, sy) {
                            old(self).spec_index(sx, sy)
                        } else {
                            background
                        }
                    },
            decreases nh - y,
        {
            let mut x: u8 = 0;
            while x < nw
                invariant
                    old(self).wf(),
                    w == old(self).spec_width(),
                    h == old(self).spec_height(),
                    0 < factor <= crate::fixed::FX_FACTOR_LIMIT,
                    0 <= y < nh,
                    0 <= x <= nw,
                    data@.len() == y as int * nw as int + x as int,
                    forall|u: int, v: int|
                        0 <= u < nw as int && (0 <= v < y as int || (v == y as int && 0 <= u
                            < x as int)) ==> #[trigger] data@[v * nw as int + u] == {
                            let sx = trunc_div(u * 1024, factor as int);
                            let sy = trunc_div(v * 1024, factor as int);
                            if old(self).in_range(sx, sy) {
                                old(self).spec_index(sx, sy)
                            } else {
                                background
                            }
                        },
                decreases nw - x,
            {
                let sxq: i64 = (x as i64 * 1024) / factor;
                let syq: i64 = (y as i64 * 1024) / factor;
                proof {
                    vstd::arithmetic::div_mod::lemma_div_pos_is_pos(x as int * 1024, factor as int);
                    vstd::arithmetic::div_mod::lemma_div_pos_is_pos(y as int * 1024, factor as int);
                }
                let cell: T = if sxq < w as i64 && syq < h as i64 {
                    *self.get(sxq as u8, syq as u8)
                } else {
                    background
                };
                data.push(cell);
                proof {
                    assert forall|u: int, v: int|
                        0 <= u < nw as int && (0 <= v < y as int || (v == y as int && 0 <= u < x
                            as int + 1)) implies #[trigger] data@[v * nw as int + u] == {
                        let sx = trunc_div(u * 1024, factor as int);
                        let sy = trunc_div(v * 1024, factor as int);
                        if old(self).in_range(sx, sy) {
                            old(self).spec_index(sx, sy)
                        } else {
                            background
                        }
                    } by {
                        assert(0 <= v * nw as int + u && (v < y as int ==> v * nw as int + u
                            < y as int * nw as int) && (v == y as int ==> v * nw as int + u
                            == y as int * nw as int + u)) by (nonlinear_arith)
                            requires
                                0 <= u < nw as int,
                                0 <= v <= y as int,
                        ;
                    }
                }
                x = x + 1;
            }
            proof {
                assert((y as int + 1) * nw as int == y as int * nw as int + nw as int)
                    by (nonlinear_arith);
            }
            y = y + 1;
        }
        self.width = nw;
        self.height = nh;
        self.data = data;
        proof {
            assert(self.spec_data().len() == self.spec_width() * self.spec_height())
                by (nonlinear_arith)
                requires
                    self.spec_data().len() == nh as int * nw as int,
                    self.spec_width() == nw as int,
                    self.spec_height() == nh as int,
            ;
            assert forall|u: int, v: int| self.in_range(u, v) implies #[trigger] self.spec_index(
                u,
                v,
            ) == {
                let sx = trunc_div(u * 1024, factor as int);
                let sy = trunc_div(v * 1024, factor as int);
                if old(self).in_range(sx, sy) {
                    old(self).spec_index(sx, sy)
                } else {
                    background
                }
            } by {
                assert(self.spec_index(u, v) == self.spec_data()[v * nw as int + u]);
            }
        }
    }

    /// Resets every cell to `to`.
    pub fn fill(&mut self, to: T)
        requires
            old(self).wf(),
        ensures
            final(self).wf(),
            final(self).spec_width() == old(self).spec_width(),
            final(self).spec_height() == old(self).spec_height(),
            forall|i: int|
                0 <= i < final(self).spec_data().len() ==> final(self).spec_data()[i] == to,
    {
        let n: usize = self.data.len();
        let mut i: usize = 0;
        while i < n
            invariant
                i <= n == self.data@.len(),
                self.width == old(self).width,
                self.height == old(self).height,
                self.wf(),
                forall|j: int| 0 <= j < i ==> self.data@[j] == to,
            decreases n - i,
        {
            self.data[i] = to;
            i = i + 1;
        }
    }
}

} // verus!
