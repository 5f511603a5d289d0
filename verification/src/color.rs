//! An RGBA color value with blending helpers.
//!
//! The color with all four channels zero is the sentinel "no color": it is
//! skipped by compositing and treated as absence by blend accumulation.
//! Channel arithmetic follows exact integer rules: `c * a / 255` rounded
//! half-up for premultiplication, and saturation at 255 for accumulated
//! sums.
use vstd::prelude::*;

verus! {

/// An RGBA color; `a` is opacity (255 fully opaque, 0 fully transparent).
#[derive(Clone, Copy, PartialEq, Eq, Structural, Debug)]
pub struct Color {
    pub r: u8,
    pub g: u8,
    pub b: u8,
    pub a: u8,
}

/// A channel premultiplied by an alpha, `c * a / 255` rounded half-up.
pub open spec fn spec_premul(c: int, a: int) -> int {
    (c * a + 127) / 255
}

/// A channel sum saturated at the largest channel value.
pub open spec fn sat255(x: int) -> int {
    if x > 255 {
        255
    } else {
        x
    }
}

/// The red channel of the additive blend of `s`: the saturated sum of the
/// alpha-premultiplied channel values.
pub open spec fn spec_add_r(s: Seq<Color>) -> int
    decreases s.len(),
{
    if s.len() == 0 {
        0
    } else {
        sat255(spec_add_r(s.drop_last()) + spec_premul(s.last().r as int, s.last().a as int))
    }
}

/// The green channel of the additive blend of `s`.
pub open spec fn spec_add_g(s: Seq<Color>) -> int
    decreases s.len(),
{
    if s.len() == 0 {
        0
    } else {
        sat255(spec_add_g(s.drop_last()) + spec_premul(s.last().g as int, s.last().a as int))
    }
}

/// The blue channel of the additive blend of `s`.
pub open spec fn spec_add_b(s: Seq<Color>) -> int
    decreases s.len(),
{
    if s.len() == 0 {
        0
    } else {
        sat255(spec_add_b(s.drop_last()) + spec_premul(s.last().b as int, s.last().a as int))
    }
}

/// The alpha channel of the additive blend of `s`: the saturated plain sum.
pub open spec fn spec_add_a(s: Seq<Color>) -> int
    decreases s.len(),
{
    if s.len() == 0 {
        0
    } else {
        sat255(spec_add_a(s.drop_last()) + s.last().a as int)
    }
}

/// The additive blend of a sequence of colors.
pub open spec fn spec_additive(s: Seq<Color>) -> Color {
    Color {
        r: spec_add_r(s) as u8,
        g: spec_add_g(s) as u8,
        b: spec_add_b(s) as u8,
        a: spec_add_a(s) as u8,
    }
}

/// The result of [`Color::blend_colors`]: sentinel colors are dropped, then
/// none, one or many survivors give the sentinel, the survivor itself, or the
/// additive blend.
pub open spec fn spec_blend_colors(s: Seq<Color>) -> Color {
    let kept = s.filter(|c: Color| !c.spec_is_none());
    if kept.len() == 0 {
        Color { r: 0, g: 0, b: 0, a: 0 }
    } else if kept.len() == 1 {
        kept[0]
    } else {
        spec_additive(kept)
    }
}

impl Color {
    /// The sentinel "no color" has all four channels zero.
    pub open spec fn spec_is_none(&self) -> bool {
        self.r == 0 && self.g == 0 && self.b == 0 && self.a == 0
    }

    /// The color with the given channels.
    pub fn new(r: u8, g: u8, b: u8, a: u8) -> (c: Color)
        ensures
            c == (Color { r, g, b, a }),
    {
        Color { r, g, b, a }
    }

    /// Red, at the given opacity (fully opaque when absent).
    pub fn red(a: Option<u8>) -> (c: Color)
        ensures
            c.r == 1 && c.g == 0 && c.b == 0,
            c.a == if a is Some {
                a->0
            } else {
                255u8
            },
    {
        Color::new(1, 0, 0, a.unwrap_or(255))
    }

    /// Green, at the given opacity (fully opaque when absent).
    pub fn green(a: Option<u8>) -> (c: Color)
        ensures
            c.r == 0 && c.g == 1 && c.b == 0,
            c.a == if a is Some {
                a->0
            } else {
                255u8
            },
    {
        Color::new(0, 1, 0, a.unwrap_or(255))
    }

    /// Blue, at the given opacity (fully opaque when absent).
    pub fn blue(a: Option<u8>) -> (c: Color)
        ensures
            c.r == 0 && c.g == 0 && c.b == 1,
            c.a == if a is Some {
                a->0
            } else {
                255u8
            },
    {
        Color::new(0, 0, 1, a.unwrap_or(255))
    }

    /// Yellow, at the given opacity (fully opaque when absent).
    pub fn yellow(a: Option<u8>) -> (c: Color)
        ensures
            c.r == 1 && c.g == 1 && c.b == 0,
            c.a == if a is Some {
                a->0
            } else {
                255u8
            },
    {
        Color::new(1, 1, 0, a.unwrap_or(255))
    }

    /// Cyan, at the given opacity (fully opaque when absent).
    pub fn cyan(a: Option<u8>) -> (c: Color)
        ensures
            c.r == 0 && c.g == 1 && c.b == 1,
            c.a == if a is Some {
                a->0
            } else {
                255u8
            },
    {
        Color::new(0, 1, 1, a.unwrap_or(255))
    }

    /// Magenta, at the given opacity (fully opaque when absent).
    pub fn magenta(a: Option<u8>) -> (c: Color)
        ensures
            c.r == 1 && c.g == 0 && c.b == 1,
            c.a == if a is Some {
                a->0
            } else {
                255u8
            },
    {
        Color::new(1, 0, 1, a.unwrap_or(255))
    }

    /// White, at the given opacity (fully opaque when absent).
    pub fn white(a: Option<u8>) -> (c: Color)
        ensures
            c.r == 1 && c.g == 1 && c.b == 1,
            c.a == if a is Some {
                a->0
            } else {
                255u8
            },
    {
        Color::new(1, 1, 1, a.unwrap_or(255))
    }

    /// Black, at the given opacity (fully opaque when absent).
    pub fn black(a: Option<u8>) -> (c: Color)
        ensures
            c.r == 0 && c.g == 0 && c.b == 0,
            c.a == if a is Some {
                a->0
            } else {
                255u8
            },
    {
        Color::new(0, 0, 0, a.unwrap_or(255))
    }

    /// The sentinel fully-transparent "no color".
    pub fn none() -> (c: Color)
        ensures
            c.spec_is_none(),
            c == (Color { r: 0u8, g: 0u8, b: 0u8, a: 0u8 }),
    {
        Color::black(Some(0))
    }

    /// Whether this is the sentinel "no color".
    pub fn is_none(&self) -> (r: bool)
        ensures
            r == self.spec_is_none(),
    {
        self.r == 0 && self.g == 0 && self.b == 0 && self.a == 0
    }

    /// Blends a set of colors: sentinel entries are dropped; no survivor
    /// gives the sentinel, a single survivor is returned as is, and several
    /// survivors are blended additively.
    pub fn blend_colors(self, input_colors: &[Color]) -> (r: Color)
        ensures
            r == spec_blend_colors(input_colors@),
    {
        let mut colors: Vec<Color> = Vec::new();
        let n: usize = input_colors.len();
        let mut i: usize = 0;
        proof {
            assert(input_colors@.take(0int).filter(|c: Color| !c.spec_is_none()) =~= Seq::<
                Color,
            >::empty());
        }
        while i < n
            invariant
                i <= n == input_colors@.len(),
                colors@ == input_colors@.take(i as int).filter(|c: Color| !c.spec_is_none()),
            decreases n - i,
        {
            let c = input_colors[i];
            proof {
                reveal_with_fuel(Seq::filter, 2);
                assert(input_colors@.take(i + 1int).drop_last() =~= input_colors@.take(i as int));
                assert(input_colors@.take(i + 1int).last() == c);
            }
            if !c.is_none() {
                colors.push(c);
            }
            i = i + 1;
        }
        proof {
            assert(input_colors@.take(n as int) =~= input_colors@);
        }
        if colors.len() == 0 {
            return Color::none();
        }
        if colors.len() == 1 {
            return colors[0];
        }
        Color::additive_blending(&colors)
    }

    /// Adds up alpha-premultiplied channels, saturating at full intensity.
    fn additive_blending(colors: &Vec<Color>) -> (res: Color)
        ensures
            res == spec_additive(colors@),
    {
        let mut r: u16 = 0;
        let mut g: u16 = 0;
        let mut b: u16 = 0;
        let mut a: u16 = 0;
        let n: usize = colors.len();
        let mut i: usize = 0;
        proof {
            assert(colors@.take(0int) =~= Seq::<Color>::empty());
        }
        while i < n
            invariant
                i <= n == colors@.len(),
                r == spec_add_r(colors@.take(i as int)),
                g == spec_add_g(colors@.take(i as int)),
                b == spec_add_b(colors@.take(i as int)),
                a == spec_add_a(colors@.take(i as int)),
                r <= 255 && g <= 255 && b <= 255 && a <= 255,
            decreases n - i,
        {
            let c = colors[i];
            proof {
                assert(colors@.take(i + 1int).drop_last() =~= colors@.take(i as int));
                assert(colors@.take(i + 1int).last() == c);
                assert(0 <= c.r as int * c.a as int <= 255 * 255) by (nonlinear_arith);
                assert(0 <= c.g as int * c.a as int <= 255 * 255) by (nonlinear_arith);
                assert(0 <= c.b as int * c.a as int <= 255 * 255) by (nonlinear_arith);
            }
            let pr: u16 = (c.r as u16 * c.a as u16 + 127) / 255;
            let pg: u16 = (c.g as u16 * c.a as u16 + 127) / 255;
            let pb: u16 = (c.b as u16 * c.a as u16 + 127) / 255;
            r = if r + pr > 255 {
                255
            } else {
                r + pr
            };
            g = if g + pg > 255 {
                255
            } else {
                g + pg
            };
            b = if b + pb > 255 {
                255
            } else {
                b + pb
            };
            a = if a + c.a as u16 > 255 {
                255
            } else {
                a + c.a as u16
            };
            i = i + 1;
        }
        proof {
            assert(colors@.take(n as int) =~= colors@);
        }
        Color::new(r as u8, g as u8, b as u8, a as u8)
    }
}

impl Default for Color {
    /// The default color is the sentinel "no color".
    fn default() -> (c: Color)
        ensures
            c.spec_is_none(),
    {
        Color::none()
    }
}

} // verus!
