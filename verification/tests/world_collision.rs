use dotsim::collider::{Collider, ColliderPart};
use dotsim::color::Color;
use dotsim::fixed::FX_ONE;
use dotsim::matrix::Matrix;
use dotsim::transform::Transform;
use dotsim::v2::V2;
use dotsim::world::World;

fn square_part(side_px: i64) -> ColliderPart {
    ColliderPart {
        offset: V2::new(0, 0),
        extend: V2::new(side_px * FX_ONE, side_px * FX_ONE),
        is_overlap: false,
    }
}

fn square_collider(side_px: i64) -> Collider {
    Collider::new(vec![square_part(side_px)], None)
}

fn at(x_px: i64, y_px: i64) -> Transform {
    Transform::new(V2::new(x_px * FX_ONE, y_px * FX_ONE), V2::new(FX_ONE, FX_ONE))
}

#[test]
fn ids_are_allocated_minimally_and_never_reused_while_live() {
    let mut w = World::new();
    let a = w.add_new_actor(None, None, None, None, None).unwrap();
    let b = w.add_new_actor(None, None, None, None, None).unwrap();
    let c = w.add_new_actor(None, None, None, None, None).unwrap();
    let d = w.add_new_actor(None, None, None, None, None).unwrap();
    assert_eq!((a, b, c, d), (0, 1, 2, 3));
    // no id is handed out twice while live
    assert_eq!(w.get_all_actors().as_slice(), &[0, 1, 2, 3]);
    // with {0, 1, 3} live, the next allocation returns the gap: 2
    w.remove_actor(&2);
    assert_eq!(w.get_all_actors().as_slice(), &[0, 1, 3]);
    let e = w.add_new_actor(None, None, None, None, None).unwrap();
    assert_eq!(e, 2);
    assert_eq!(w.get_all_actors().as_slice(), &[0, 1, 2, 3]);
    // and after the gaps are filled, one past the maximum
    let f = w.add_new_actor(None, None, None, None, None).unwrap();
    assert_eq!(f, 4);
}

#[test]
fn components_are_stored_and_removed_per_entity() {
    let mut w = World::new();
    let id = w
        .add_new_actor(
            Some(String::from("ball")),
            Some(at(5, 6)),
            Some(square_collider(2)),
            Some(dotsim::world::Physics {}),
            Some(Matrix::new(2, 2, Color::white(None))),
        )
        .unwrap();
    assert_eq!(w.get_name(&id).unwrap().as_str(), "ball");
    assert_eq!(w.get_transform(&id).unwrap().center.x, 5 * FX_ONE);
    assert_eq!(w.get_collider(&id).unwrap().collider_parts.len(), 1);
    assert!(w.get_physics(&id).is_some());
    assert_eq!(w.get_render(&id).unwrap().width(), 2);
    let empty = w.add_new_actor(None, None, None, None, None).unwrap();
    assert!(w.get_name(&empty).is_none());
    assert!(w.get_transform(&empty).is_none());
    assert!(w.get_collider(&empty).is_none());
    assert!(w.get_physics(&empty).is_none());
    assert!(w.get_render(&empty).is_none());
    w.set_transform(&empty, Some(at(1, 1)));
    assert_eq!(w.get_transform(&empty).unwrap().center.y, FX_ONE);
    w.set_name(&empty, Some(String::from("wall")));
    assert_eq!(w.get_name(&empty).unwrap().as_str(), "wall");
    w.set_collider(&empty, Some(square_collider(1)));
    w.set_physics(&empty, None);
    w.set_render(&empty, Some(Matrix::new(1, 1, Color::none())));
    w.remove_actor(&id);
    assert_eq!(w.get_all_actors().as_slice(), &[empty]);
    w.clear_all();
    assert!(w.get_all_actors().is_empty());
}

#[test]
fn transform_defaults() {
    let t = Transform::new(V2::new(7, 8), V2::new(9, 10));
    assert_eq!(t.center, V2::new(7, 8));
    assert_eq!(t.size, V2::new(9, 10));
    assert_eq!(t.anchor_offset, V2::zero());
    assert_eq!(t.original_size, V2::zero());
    assert_eq!(t.rotation, 0);
}

#[test]
fn collider_construction_and_emptiness() {
    let c = Collider::new(vec![], Some(3));
    assert!(c.is_empty());
    assert_eq!(c.mask_id, 3);
    let d = square_collider(4);
    assert!(!d.is_empty());
    assert_eq!(d.mask_id, 0);
}

#[test]
fn broad_phase_distance_check() {
    let a = square_collider(2);
    let b = square_collider(2);
    // reach of a 2x2 square about its center is sqrt(2) pixels ~ 1448 units
    assert!(Collider::are_in_colliding_distance(
        &a,
        &V2::new(0, 0),
        &b,
        &V2::new(2 * FX_ONE, 0),
    ));
    assert!(!Collider::are_in_colliding_distance(
        &a,
        &V2::new(0, 0),
        &b,
        &V2::new(10 * FX_ONE, 0),
    ));
    // a collider without parts is never in colliding distance
    let empty = Collider::new(vec![], None);
    assert!(!Collider::are_in_colliding_distance(
        &empty,
        &V2::new(0, 0),
        &b,
        &V2::new(0, 0),
    ));
}

#[test]
fn broad_phase_negative_pairs_never_reach_narrow_phase() {
    let a = square_collider(2);
    let b = square_collider(2);
    let ta = at(0, 0);
    let tb = at(40, 0);
    let (hit, tested) = Collider::is_overlapping_counted((&a, &ta), (&b, &tb));
    assert!(!hit);
    assert_eq!(tested, 0);
    // a close pair does run part-pair geometry
    let tc = at(1, 1);
    let (hit2, tested2) = Collider::is_overlapping_counted((&a, &ta), (&b, &tc));
    assert!(hit2);
    assert_eq!(tested2, 1);
}

#[test]
fn two_phase_overlap_test() {
    let a = square_collider(4);
    let b = square_collider(4);
    assert!(Collider::is_overlapping((&a, &at(0, 0)), (&b, &at(1, 1))));
    assert!(!Collider::is_overlapping((&a, &at(0, 0)), (&b, &at(30, 30))));
}

#[test]
fn overlap_map_is_symmetric() {
    let mut w = World::new();
    let a = w
        .add_new_actor(None, Some(at(10, 10)), Some(square_collider(4)), None, None)
        .unwrap();
    let b = w
        .add_new_actor(None, Some(at(11, 11)), Some(square_collider(4)), None, None)
        .unwrap();
    let c = w
        .add_new_actor(None, Some(at(50, 50)), Some(square_collider(4)), None, None)
        .unwrap();
    let overlaps = Collider::detect_overlaps(&w);
    assert!(overlaps[&a].contains(&b));
    assert!(overlaps[&b].contains(&a));
    assert!(!overlaps.contains_key(&c));
}

#[test]
fn disabled_masks_suppress_geometric_overlaps() {
    let mut w = World::new();
    let mut ca = square_collider(4);
    ca.mask_id = 1;
    let mut cb = square_collider(4);
    cb.mask_id = 2;
    let a = w.add_new_actor(None, Some(at(10, 10)), Some(ca), None, None).unwrap();
    let b = w.add_new_actor(None, Some(at(11, 11)), Some(cb), None, None).unwrap();
    // the default matrix enables everything
    assert_eq!(w.get_collision_matrix(1), 0xFF);
    let before = Collider::detect_overlaps(&w);
    assert!(before[&a].contains(&b));
    // switch off bucket 2 in bucket 1's row and bucket 1 in bucket 2's row
    w.set_collision_matrix(1, 0xFF & !(1 << 2));
    w.set_collision_matrix(2, 0xFF & !(1 << 1));
    let after = Collider::detect_overlaps(&w);
    assert!(!after.contains_key(&a));
    assert!(!after.contains_key(&b));
}
