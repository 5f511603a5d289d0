use dotsim::asyncable::{AsyncableStorage, AsyncableType};
use dotsim::color::Color;
use dotsim::color_matrix::blend_pixel;
use dotsim::fixed::FX_ONE;
use dotsim::frame::{compose_frame, frame_sleep_ms, SCREEN_SIZE};
use dotsim::framebuffer::{draw_circle, make_color};
use dotsim::input::{EmptyInput, Input, Key, KeyState, KEYS_LENGTH};
use dotsim::matrix::Matrix;
use dotsim::scene::{EmptyScene, Scene};
use dotsim::transform::Transform;
use dotsim::v2::V2;
use dotsim::world::World;

#[test]
fn scheduler_ids_are_minimal_and_recycled() {
    let mut s = AsyncableStorage::new();
    let a = s.add_asyncable(100, AsyncableType::Timeout).unwrap();
    let b = s.add_asyncable(100, AsyncableType::Interval).unwrap();
    assert_eq!((a, b), (0, 1));
    assert_eq!(s.get_taken_ids().as_slice(), &[0, 1]);
    s.remove_asyncable(a);
    assert_eq!(s.get_taken_ids().as_slice(), &[1]);
    let c = s.add_asyncable(100, AsyncableType::Timeout).unwrap();
    assert_eq!(c, 0);
}

#[test]
fn timeout_fires_exactly_once_when_deltas_sum_to_its_period() {
    let mut s = AsyncableStorage::new();
    let id = s.add_asyncable(100, AsyncableType::Timeout).unwrap();
    // the add is merged at the next tick; 60 of 100 elapsed: nothing fires
    let fired = s.update(60);
    assert!(fired.is_empty());
    assert_eq!(s.get_jobs().len(), 1);
    assert_eq!(s.get_jobs()[0].timer, 60);
    // the remaining 40 reach the period exactly: fires once and leaves
    let fired = s.update(40);
    assert_eq!(fired.as_slice(), &[id]);
    assert!(s.get_jobs().is_empty());
    // its id is free again
    assert!(s.get_taken_ids().is_empty());
    // and it never fires again
    let fired = s.update(1000);
    assert!(fired.is_empty());
}

#[test]
fn interval_fires_and_stays_with_its_timer_reset() {
    let mut s = AsyncableStorage::new();
    let id = s.add_asyncable(100, AsyncableType::Interval).unwrap();
    let fired = s.update(60);
    assert!(fired.is_empty());
    let fired = s.update(40);
    assert_eq!(fired.as_slice(), &[id]);
    assert_eq!(s.get_jobs().len(), 1);
    assert_eq!(s.get_jobs()[0].timer, 0);
    // it keeps firing every period
    let fired = s.update(100);
    assert_eq!(fired.as_slice(), &[id]);
}

#[test]
fn removing_a_fired_job_takes_effect_on_the_following_tick() {
    let mut s = AsyncableStorage::new();
    let id = s.add_asyncable(50, AsyncableType::Interval).unwrap();
    let fired = s.update(50);
    assert_eq!(fired.as_slice(), &[id]);
    // the job cancels itself while its tick is being handled: the live
    // list is untouched until the next tick merges the buffered remove
    s.remove_asyncable(id);
    assert_eq!(s.get_jobs().len(), 1);
    let fired = s.update(50);
    assert!(fired.is_empty());
    assert!(s.get_jobs().is_empty());
}

#[test]
fn overwriting_a_sprite_at_its_own_center_reproduces_it() {
    let mut screen: Matrix<Color> = Matrix::new(3, 3, Color::none());
    let mut sprite: Matrix<Color> = Matrix::new(3, 3, Color::new(0, 0, 0, 255));
    sprite.set(0, 0, Color::new(10, 0, 0, 255));
    sprite.set(1, 2, Color::new(0, 20, 0, 255));
    screen.write(
        &sprite,
        &V2::new(3 * FX_ONE / 2, 3 * FX_ONE / 2),
        Some(0),
        None,
        Some(false),
    );
    assert_eq!(screen.data(), sprite.data());
}

#[test]
fn blending_a_fully_transparent_sprite_changes_nothing() {
    let mut screen: Matrix<Color> = Matrix::new(4, 4, Color::new(3, 5, 7, 9));
    let before = screen.data().clone();
    let sprite: Matrix<Color> = Matrix::new(2, 2, Color::none());
    screen.write(&sprite, &V2::new(2 * FX_ONE, 2 * FX_ONE), Some(33), Some(V2::one()), Some(true));
    assert_eq!(*screen.data(), before);
}

#[test]
fn blend_operator_exact_values() {
    let opaque = Color::new(10, 20, 30, 255);
    assert_eq!(blend_pixel(opaque, Color::new(1, 2, 3, 4)), opaque);
    // an invisible (but non-sentinel) source leaves the destination
    let dst = Color::new(50, 60, 70, 200);
    assert_eq!(blend_pixel(Color::new(9, 9, 9, 0), dst), dst);
    // blending two sentinels gives the sentinel
    assert_eq!(blend_pixel(Color::new(1, 1, 1, 0), Color::none()), Color::none());
}

#[test]
fn seven_pixel_bar_lands_centered_on_row_three() {
    let mut w = World::new();
    let mut t = Transform::new(
        V2::new(32 * FX_ONE, 3 * FX_ONE),
        V2::new(7 * FX_ONE, FX_ONE),
    );
    t.rotation = 0;
    let bar: Matrix<Color> = Matrix::new(7, 1, Color::new(255, 255, 255, 255));
    w.add_new_actor(None, Some(t), None, None, Some(bar)).unwrap();
    let screen = compose_frame(&w, SCREEN_SIZE);
    for y in 0..SCREEN_SIZE {
        for x in 0..SCREEN_SIZE {
            let c = *screen.get(x, y);
            if y == 3 && (29..=35).contains(&x) {
                assert_eq!(c, Color::new(255, 255, 255, 255), "pixel {} {}", x, y);
            } else {
                assert!(c.is_none(), "pixel {} {}", x, y);
            }
        }
    }
}

#[test]
fn entities_without_bitmaps_paint_nothing() {
    let mut w = World::new();
    w.add_new_actor(None, Some(Transform::new(V2::zero(), V2::one())), None, None, None)
        .unwrap();
    w.add_new_actor(None, None, None, None, Some(Matrix::new(2, 2, Color::white(None))))
        .unwrap();
    let screen = compose_frame(&w, 8);
    assert!(screen.data().iter().all(|c| c.is_none()));
}

#[test]
fn frame_pacing_never_compensates_overruns() {
    assert_eq!(frame_sleep_ms(33, 10), 23);
    assert_eq!(frame_sleep_ms(33, 33), 0);
    assert_eq!(frame_sleep_ms(33, 100), 0);
}

#[test]
fn packing_a_color_for_the_framebuffer() {
    assert_eq!(make_color(&Color::new(255, 128, 0, 255)), 0xFF8000);
    assert_eq!(make_color(&Color::new(255, 255, 255, 0)), 0);
    assert_eq!(make_color(&Color::new(100, 0, 0, 128)), (100 * 128 / 255) << 16);
}

#[test]
fn stamping_a_dot_into_a_buffer() {
    let mut buf = vec![0u32; 25];
    draw_circle(&mut buf, 5, 5, 2, 2, 0, Color::new(255, 255, 255, 255));
    for v in 0..5usize {
        for u in 0..5usize {
            if (u, v) == (2, 2) {
                assert_eq!(buf[v * 5 + u], 0xFFFFFF);
            } else {
                assert_eq!(buf[v * 5 + u], 0);
            }
        }
    }
    // a radius-one circle paints the plus-shaped neighborhood
    let mut buf = vec![0u32; 25];
    draw_circle(&mut buf, 5, 5, 2, 2, 1, Color::new(0, 0, 255, 255));
    let lit: Vec<usize> = (0..25).filter(|i| buf[*i] != 0).collect();
    assert_eq!(lit, vec![7, 11, 12, 13, 17]);
    // pixels beyond the buffer are dropped
    let mut buf = vec![0u32; 25];
    draw_circle(&mut buf, 5, 5, 0, 0, 1, Color::new(0, 255, 0, 255));
    assert_eq!(buf.iter().filter(|v| **v != 0).count(), 3);
}

#[test]
fn inert_input_reports_nothing() {
    let mut i = EmptyInput::new();
    i.update(16);
    assert!(!i.is_key_down(Key::P1Left));
    assert!(!i.is_any_key_down());
    assert!(!i.is_key_up(Key::Start));
    assert!(!i.is_any_key_up());
    assert!(!i.is_key_press(Key::P2Any));
    assert!(!i.is_any_key_press());
    i.late_update(16);
    i.clear();
    assert_eq!(KEYS_LENGTH, 16);
    let _state = KeyState::Press;
}

#[test]
fn inert_scene_leaves_the_world_alone() {
    let mut scene = EmptyScene::new();
    let mut w = World::new();
    let input = EmptyInput::new();
    Scene::<EmptyInput>::init(&mut scene, &mut w);
    scene.tick(&input, &mut w, 16);
    let overlaps = std::collections::HashMap::new();
    Scene::<EmptyInput>::on_overlaps(&mut scene, &overlaps, &mut w, 16);
    assert!(w.get_all_actors().is_empty());
}

#[test]
fn quarter_turn_write_makes_a_vertical_bar() {
    let mut screen: Matrix<Color> = Matrix::new(20, 20, Color::none());
    let bar: Matrix<Color> = Matrix::new(2, 1, Color::new(255, 0, 0, 255));
    screen.write(&bar, &V2::new(10 * FX_ONE, 10 * FX_ONE), Some(90), None, Some(false));
    let mut lit = Vec::new();
    for y in 0..20u8 {
        for x in 0..20u8 {
            if !screen.get(x, y).is_none() {
                lit.push((x, y));
            }
        }
    }
    assert_eq!(lit, vec![(11, 9), (11, 10)]);
}

#[test]
fn diagonal_write_uses_the_quantized_rotation() {
    let mut screen: Matrix<Color> = Matrix::new(10, 10, Color::none());
    let dot: Matrix<Color> = Matrix::new(1, 1, Color::new(0, 255, 0, 255));
    screen.write(&dot, &V2::new(5 * FX_ONE, 5 * FX_ONE), Some(45), None, Some(false));
    let mut lit = Vec::new();
    for y in 0..10u8 {
        for x in 0..10u8 {
            if !screen.get(x, y).is_none() {
                lit.push((x, y));
            }
        }
    }
    assert_eq!(lit, vec![(5, 5)]);
}

#[test]
fn default_color_is_the_sentinel() {
    let c: Color = Default::default();
    assert!(c.is_none());
}
