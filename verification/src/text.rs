//! Textual rendering of numeric grids.
//!
//! Each row is rendered between `|` delimiters followed by a newline;
//! non-default cells print their decimal form, and default (zero) cells
//! print a filler of dots padded to the width of the longest non-default
//! value's text.
use vstd::prelude::*;

verus! {

use crate::matrix::Matrix;

/// The decimal digit character for `d` in 0 to 9.
pub open spec fn digit_char(d: int) -> char {
    if d == 0 {
        '0'
    } else if d == 1 {
        '1'
    } else if d == 2 {
        '2'
    } else if d == 3 {
        '3'
    } else if d == 4 {
        '4'
    } else if d == 5 {
        '5'
    } else if d == 6 {
        '6'
    } else if d == 7 {
        '7'
    } else if d == 8 {
        '8'
    } else {
        '9'
    }
}

/// The decimal representation of a non-negative number.
pub open spec fn spec_decimal(n: int) -> Seq<char>
    decreases n,
{
    if n < 10 {
        seq![digit_char(n)]
    } else {
        spec_decimal(n / 10).push(digit_char(n % 10))
    }
}

/// The width of the longest non-zero value among the first `k` cells, in
/// decimal digits; at least one.
pub open spec fn spec_longest(data: Seq<u32>, k: int) -> int
    decreases k,
{
    if k <= 0 {
        1
    } else {
        let p = spec_longest(data, k - 1);
        if data[k - 1] != 0 && spec_decimal(data[k - 1] as int).len() > p {
            spec_decimal(data[k - 1] as int).len() as int
        } else {
            p
        }
    }
}

/// The glyph of one cell: its decimal form, or `longest` filler dots for a
/// zero cell.
pub open spec fn spec_cell_text(v: u32, longest: int) -> Seq<char> {
    if v != 0 {
        spec_decimal(v as int)
    } else {
        Seq::new(longest as nat, |i: int| '.')
    }
}

/// The first `x` glyphs of row `y`, after the opening delimiter.
pub open spec fn spec_row_text(data: Seq<u32>, w: int, y: int, longest: int, x: int) -> Seq<char>
    decreases x,
{
    if x <= 0 {
        seq!['|']
    } else {
        spec_row_text(data, w, y, longest, x - 1) + spec_cell_text(data[y * w + (x - 1)], longest)
    }
}

/// The first `y` rendered rows, each closed by a delimiter and a newline.
pub open spec fn spec_grid_text(data: Seq<u32>, w: int, longest: int, y: int) -> Seq<char>
    decreases y,
{
    if y <= 0 {
        Seq::empty()
    } else {
        spec_grid_text(data, w, longest, y - 1) + (spec_row_text(data, w, y - 1, longest, w)
            + seq!['|', '\n'])
    }
}

/// The whole textual rendering of a `w x h` grid.
pub open spec fn spec_to_text(data: Seq<u32>, w: int, h: int) -> Seq<char> {
    spec_grid_text(data, w, spec_longest(data, w * h), h)
}

/// The decimal digit string for `d` in 0 to 9.
fn digit_str(d: u32) -> (r: &'static str)
    requires
        d < 10,
    ensures
        r@ == seq![digit_char(d as int)],
{
    let r: &'static str = match d {
        0 => "0",
        1 => "1",
        2 => "2",
        3 => "3",
        4 => "4",
        5 => "5",
        6 => "6",
        7 => "7",
        8 => "8",
        _ => "9",
    };
    proof {
        reveal_strlit("0");
        reveal_strlit("1");
        reveal_strlit("2");
        reveal_strlit("3");
        reveal_strlit("4");
        reveal_strlit("5");
        reveal_strlit("6");
        reveal_strlit("7");
        reveal_strlit("8");
        reveal_strlit("9");
        assert(r@ =~= seq![digit_char(d as int)]);
    }
    r
}

/// The decimal text of a number.
pub fn u32_text(n: u32) -> (r: String)
    ensures
        r@ == spec_decimal(n as int),
    decreases n,
{
    if n < 10 {
        let r = digit_str(n).to_owned();
        proof {
            assert(r@ =~= spec_decimal(n as int));
        }
        r
    } else {
        let mut s = u32_text(n / 10);
        s.append(digit_str(n % 10));
        proof {
            assert(s@ =~= spec_decimal(n as int / 10).push(digit_char(n as int % 10)));
        }
        s
    }
}

/// The number of decimal digits of a number.
fn decimal_len(n: u32) -> (r: u64)
    ensures
        r == spec_decimal(n as int).len(),
{
    let mut len: u64 = 1;
    let mut m: u32 = n;
    while m >= 10
        invariant
            1 <= len,
            len <= 1 + n - m,
            spec_decimal(n as int).len() == len - 1 + spec_decimal(m as int).len(),
            m <= n,
        decreases m,
    {
        proof {
            assert(spec_decimal(m as int).len() == 1 + spec_decimal(m as int / 10).len());
            assert(m as int / 10 < m as int && 0 <= m as int / 10 && m as int / 10 <= m - 1)
                by (nonlinear_arith)
                requires
                    m >= 10,
            ;
        }
        m = m / 10;
        len = len + 1;
    }
    proof {
        assert(spec_decimal(m as int).len() == 1);
    }
    len
}

impl Matrix<u32> {
    /// Renders the grid: each row between `|` delimiters and closed by a
    /// newline, non-zero cells in decimal, zero cells as dots padded to the
    /// width of the longest non-zero value.
    #[verifier::loop_isolation(false)]
    pub fn to_text(&self) -> (r: String)
        requires
            self.wf(),
        ensures
            r@ == spec_to_text(self.spec_data(), self.spec_width(), self.spec_height()),
    {
        let w: u8 = self.width();
        let h: u8 = self.height();
        let ghost data = self.spec_data();
        let cells = self.data();
        let n: usize = cells.len();
        let mut longest: u64 = 1;
        let mut i: usize = 0;
        while i < n
            invariant
                0 <= i <= n,
                longest == spec_longest(data, i as int),
                1 <= longest,
            decreases n - i,
        {
            let v: u32 = cells[i];
            if v != 0 {
                let l: u64 = decimal_len(v);
                if l > longest {
                    longest = l;
                }
            }
            i = i + 1;
        }
        proof {
            assert(w as int * h as int == n as int);
        }
        let mut out: String = String::new();
        let ghost lg = longest as int;
        proof {
            assert(out@ =~= spec_grid_text(data, w as int, lg, 0));
        }
        let mut y: u8 = 0;
        while y < h
            invariant
                0 <= y <= h,
                out@ == spec_grid_text(data, w as int, lg, y as int),
            decreases h - y,
        {
            out.append("|");
            proof {
                reveal_strlit("|");
                assert(out@ =~= spec_grid_text(data, w as int, lg, y as int) + spec_row_text(
                    data,
                    w as int,
                    y as int,
                    lg,
                    0,
                ));
            }
            let mut x: u8 = 0;
            while x < w
                invariant
                    0 <= x <= w,
                    0 <= y < h,
                    out@ == spec_grid_text(data, w as int, lg, y as int) + spec_row_text(
                        data,
                        w as int,
                        y as int,
                        lg,
                        x as int,
                    ),
                decreases w - x,
            {
                let v: u32 = *self.get(x, y);
                let ghost row_pre = spec_row_text(data, w as int, y as int, lg, x as int);
                if v != 0 {
                    let t = u32_text(v);
                    out.append(t.as_str());
                } else {
                    let mut f: u64 = 0;
                    while f < longest
                        invariant
                            0 <= f <= longest,
                            out@ == spec_grid_text(data, w as int, lg, y as int) + row_pre
                                + Seq::new(f as nat, |i: int| '.'),
                        decreases longest - f,
                    {
                        out.append(".");
                        proof {
                            reveal_strlit(".");
                            assert(Seq::new(f as nat, |i: int| '.').push('.') =~= Seq::new(
                                (f + 1) as nat,
                                |i: int| '.',
                            ));
                            assert(out@ =~= spec_grid_text(data, w as int, lg, y as int) + row_pre
                                + Seq::new((f + 1) as nat, |i: int| '.'));
                        }
                        f = f + 1;
                    }
                }
                proof {
                    assert(out@ =~= spec_grid_text(data, w as int, lg, y as int) + spec_row_text(
                        data,
                        w as int,
                        y as int,
                        lg,
                        x as int + 1,
                    ));
                }
                x = x + 1;
            }
            out.append("|\n");
            proof {
                reveal_strlit("|\n");
                assert("|\n"@ =~= seq!['|', '\n']);
                assert(out@ =~= spec_grid_text(data, w as int, lg, y as int + 1));
            }
            y = y + 1;
        }
        out
    }
}

} // verus!
