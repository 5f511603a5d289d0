use dotsim::color::Color;
use dotsim::fixed::{cos_fx, fx_ceil, fx_div, fx_floor, fx_mul, fx_round, isqrt, norm_deg, sin_fx, FX_ONE};
use dotsim::matrix::Matrix;
use dotsim::v2::V2;

#[test]
fn fixed_point_scale_is_1024() {
    assert_eq!(FX_ONE, 1024);
}

#[test]
fn isqrt_exact_values() {
    assert_eq!(isqrt(0), 0);
    assert_eq!(isqrt(1), 1);
    assert_eq!(isqrt(2), 1);
    assert_eq!(isqrt(3), 1);
    assert_eq!(isqrt(4), 2);
    assert_eq!(isqrt(15), 3);
    assert_eq!(isqrt(16), 4);
    assert_eq!(isqrt(1_000_000), 1000);
    assert_eq!(isqrt(u64::MAX), 0xFFFF_FFFF);
}

#[test]
fn quantized_sine_hits_the_cardinal_angles() {
    assert_eq!(sin_fx(0), 0);
    assert_eq!(sin_fx(90), 1024);
    assert_eq!(sin_fx(180), 0);
    assert_eq!(sin_fx(270), -1024);
    assert_eq!(sin_fx(360), 0);
    assert_eq!(sin_fx(-90), -1024);
    assert_eq!(cos_fx(0), 1024);
    assert_eq!(cos_fx(90), 0);
    assert_eq!(cos_fx(180), -1024);
    // the rational approximation is exact at 30 degrees as well
    assert_eq!(sin_fx(30), 512);
}

#[test]
fn degree_normalization_wraps_into_one_turn() {
    assert_eq!(norm_deg(0), 0);
    assert_eq!(norm_deg(360), 0);
    assert_eq!(norm_deg(-90), 270);
    assert_eq!(norm_deg(725), 5);
}

#[test]
fn rounding_helpers_on_halves_and_negatives() {
    assert_eq!(fx_floor(1536), 1);
    assert_eq!(fx_floor(-1), -1);
    assert_eq!(fx_ceil(1), 1);
    assert_eq!(fx_ceil(-1), 0);
    assert_eq!(fx_ceil(2048), 2);
    assert_eq!(fx_round(512), 1);
    assert_eq!(fx_round(511), 0);
    assert_eq!(fx_round(-512), 0);
    assert_eq!(fx_mul(2048, 512), 1024);
    assert_eq!(fx_div(1024, 2048), 512);
    assert_eq!(fx_div(1024, -2048), -512);
}

#[test]
fn vector_arithmetic_and_metric() {
    let a = V2::new(3 * FX_ONE, 4 * FX_ONE);
    let b = V2::zero();
    assert_eq!(a.distance(&b), 5 * FX_ONE);
    assert_eq!(a.mag(), 5 * FX_ONE);
    let s = a.plus(&V2::one());
    assert_eq!(s.x, 4 * FX_ONE);
    assert_eq!(s.y, 5 * FX_ONE);
    let d = a.minus(&V2::one());
    assert_eq!(d.x, 2 * FX_ONE);
    assert_eq!(d.y, 3 * FX_ONE);
    let t = a.times(2 * FX_ONE);
    assert_eq!(t.x, 6 * FX_ONE);
    assert_eq!(t.y, 8 * FX_ONE);
    let q = a.div(2 * FX_ONE);
    assert_eq!(q.x, 3 * FX_ONE / 2);
    assert_eq!(q.y, 2 * FX_ONE);
    let n = a.norm();
    // 3/5 and 4/5 of a pixel, rounded toward zero
    assert_eq!(n.x, 3 * FX_ONE * FX_ONE / (5 * FX_ONE));
    assert_eq!(n.y, 4 * FX_ONE * FX_ONE / (5 * FX_ONE));
    assert_eq!(V2::up().y, -FX_ONE);
    assert_eq!(V2::down().y, FX_ONE);
    assert_eq!(V2::left().x, -FX_ONE);
    assert_eq!(V2::right().x, FX_ONE);
    assert_eq!(V2::minus_one().x, -FX_ONE);
}

#[test]
fn rotating_a_point_a_quarter_turn() {
    let p = V2::new(FX_ONE, 0);
    let r = p.rotate_around(&V2::zero(), 90);
    assert_eq!(r.x, 0);
    assert_eq!(r.y, FX_ONE);
    let back = p.rotate_around(&V2::zero(), 180);
    assert_eq!(back.x, -FX_ONE);
    assert_eq!(back.y, 0);
}

#[test]
fn color_constructors_and_sentinel() {
    assert_eq!(Color::new(1, 2, 3, 4), Color { r: 1, g: 2, b: 3, a: 4 });
    assert_eq!(Color::red(None), Color::new(1, 0, 0, 255));
    assert_eq!(Color::green(Some(7)), Color::new(0, 1, 0, 7));
    assert_eq!(Color::blue(None), Color::new(0, 0, 1, 255));
    assert_eq!(Color::yellow(None), Color::new(1, 1, 0, 255));
    assert_eq!(Color::cyan(None), Color::new(0, 1, 1, 255));
    assert_eq!(Color::magenta(None), Color::new(1, 0, 1, 255));
    assert_eq!(Color::white(None), Color::new(1, 1, 1, 255));
    assert_eq!(Color::black(None), Color::new(0, 0, 0, 255));
    assert!(Color::none().is_none());
    assert!(!Color::black(None).is_none());
    assert!(Color::new(0, 0, 0, 0).is_none());
}

#[test]
fn blending_drops_sentinels_and_saturates() {
    let keep = Color::new(100, 0, 0, 255);
    // sentinels are dropped entirely
    assert_eq!(Color::none().blend_colors(&[]), Color::none());
    assert_eq!(Color::none().blend_colors(&[Color::none(), Color::none()]), Color::none());
    // a single survivor is returned as is
    assert_eq!(Color::none().blend_colors(&[Color::none(), keep]), keep);
    // several survivors blend additively with premultiplied channels
    let other = Color::new(0, 50, 0, 255);
    let out = Color::none().blend_colors(&[keep, other]);
    assert_eq!(out, Color::new(100, 50, 0, 255));
    // channel sums saturate at full intensity
    let big = Color::new(200, 0, 0, 255);
    let sum = Color::none().blend_colors(&[big, big]);
    assert_eq!(sum, Color::new(255, 0, 0, 255));
    // premultiplication rounds half-up: 100 * 128 / 255 = 50.19...
    let faint = Color::new(100, 0, 0, 128);
    let one = Color::none().blend_colors(&[faint, Color::new(0, 0, 0, 1)]);
    assert_eq!(one, Color::new(50, 0, 0, 129));
}

#[test]
fn grid_construction_and_cell_access() {
    let mut m: Matrix<u32> = Matrix::new(4, 3, 7);
    assert_eq!(m.width(), 4);
    assert_eq!(m.height(), 3);
    assert_eq!(m.data().len(), 12);
    assert_eq!(*m.get(0, 0), 7);
    assert_eq!(*m.at(3, 2), 7);
    m.set(2, 1, 99);
    assert_eq!(*m.get(2, 1), 99);
    assert_eq!(*m.at(2, 1), 99);
    // out-of-range writes are silently ignored
    m.set(4, 0, 1);
    m.set(0, 3, 1);
    assert!(m.data().iter().all(|&v| v == 7 || v == 99));
    m.fill(5);
    assert!(m.data().iter().all(|&v| v == 5));
}

#[test]
fn color_grid_clear_resets_to_sentinel() {
    let mut m: Matrix<Color> = Matrix::new(2, 2, Color::white(None));
    m.clear();
    assert!(m.data().iter().all(|c| c.is_none()));
}

#[test]
fn dim_scales_only_the_alpha_channel() {
    let mut m: Matrix<Color> = Matrix::new(1, 1, Color::new(9, 8, 7, 100));
    m.dim(128);
    // 100 * 128 / 255 rounded half-up is 50
    assert_eq!(*m.get(0, 0), Color::new(9, 8, 7, 50));
}

#[test]
fn scaling_doubles_the_grid_with_nearest_neighbor() {
    let mut m: Matrix<u32> = Matrix::new(2, 2, 0);
    m.set(0, 0, 1);
    m.set(1, 0, 2);
    m.set(0, 1, 3);
    m.set(1, 1, 4);
    m.scale(2048, 0);
    assert_eq!(m.width(), 4);
    assert_eq!(m.height(), 4);
    assert_eq!(*m.get(0, 0), 1);
    assert_eq!(*m.get(1, 1), 1);
    assert_eq!(*m.get(2, 0), 2);
    assert_eq!(*m.get(3, 3), 4);
    assert_eq!(*m.get(0, 2), 3);
}

#[test]
fn rotating_a_grid_a_half_turn() {
    let mut m: Matrix<u32> = Matrix::new(3, 3, 0);
    m.set(1, 1, 5);
    m.set(2, 2, 6);
    m.set(2, 1, 7);
    m.rotate(180, 0);
    assert_eq!(m.width(), 3);
    assert_eq!(m.height(), 3);
    // a cell at (x, y) lands on (3 - x, 3 - y); the border cells fall out
    assert_eq!(*m.get(2, 2), 5);
    assert_eq!(*m.get(1, 1), 6);
    assert_eq!(*m.get(1, 2), 7);
    assert_eq!(*m.get(0, 0), 0);
    assert_eq!(*m.get(2, 0), 0);
}

#[test]
fn textual_rendering_pads_fillers_to_the_longest_value() {
    let mut m: Matrix<u32> = Matrix::new(3, 2, 0);
    m.set(1, 0, 17);
    m.set(2, 1, 5);
    let text = m.to_text();
    assert_eq!(text, "|..17..|\n|....5|\n");
}

#[test]
fn lib_renders_the_demonstration_grid() {
    let text = dotsim::lib();
    let mut expected = String::new();
    for y in 0..8 {
        expected.push('|');
        for x in 0..8 {
            if x == 1 && y == 2 {
                expected.push_str("17");
            } else {
                expected.push_str("..");
            }
        }
        expected.push_str("|\n");
    }
    assert_eq!(text, expected);
}
