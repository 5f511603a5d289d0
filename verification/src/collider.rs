//! The physical-shape component and the two-phase overlap detection.
//!
//! A collider is an ordered list of axis-aligned rectangular parts around an
//! entity's center, grouped under a collision-mask id (a bit position in the
//! 8-row collision matrix). A collider with no parts collides with nothing.
use vstd::prelude::*;

verus! {

use crate::v2::V2;
use crate::transform::Transform;
use crate::world::{World, ActorId};
use std::collections::HashMap;

/// A row of the global collision matrix: one permission bit per mask id.
pub type CollisionMask = u8;

/// A bit position in the collision matrix, below [`MASK_BUCKETS`].
pub type CollisionMaskId = u8;

/// Number of collision-mask buckets the matrix distinguishes.
pub const MASK_BUCKETS: u8 = 8;

/// Magnitude bound on collider geometry (extents, offsets, entity centers)
/// accepted by the overlap tests; cross products of such coordinates stay
/// inside the machine integers.
pub const GEOM_LIMIT: i64 = 0x1000_0000;

/// One axis-aligned rectangle of a collider: `extend` is its full width and
/// height, `offset` its center relative to the entity's center, and
/// `is_overlap` a pass-through flag kept for downstream logic (the overlap
/// test itself does not consult it).
#[derive(Clone, Copy, PartialEq, Eq, Structural, Debug)]
pub struct ColliderPart {
    pub offset: V2,
    pub extend: V2,
    pub is_overlap: bool,
}

/// The collision shape of an entity.
#[derive(Clone, Debug)]
pub struct Collider {
    pub collider_parts: Vec<ColliderPart>,
    pub mask_id: CollisionMaskId,
}

/// Geometry of one part within the bounds the overlap tests accept:
/// non-negative extents, both extents and offsets within [`GEOM_LIMIT`].
pub open spec fn part_geom_ok(p: ColliderPart) -> bool {
    &&& 0 <= p.extend.x <= GEOM_LIMIT
    &&& 0 <= p.extend.y <= GEOM_LIMIT
    &&& -GEOM_LIMIT <= p.offset.x <= GEOM_LIMIT
    &&& -GEOM_LIMIT <= p.offset.y <= GEOM_LIMIT
}

/// A collider whose every part is within geometry bounds and whose mask id
/// names one of the matrix buckets.
pub open spec fn collider_geom_ok(c: Collider) -> bool {
    &&& forall|i: int|
        0 <= i < c.collider_parts@.len() ==> part_geom_ok(#[trigger] c.collider_parts@[i])
    &&& c.collider_parts@.len() <= 0xFFFF_FFFF
    &&& c.mask_id < MASK_BUCKETS
}

/// Half of a part extent (the distance from the part's center to its edge).
pub open spec fn half(e: int) -> int {
    e / 2
}

/// The `x` coordinate of corner `i` (0 to 3, counter-clockwise from the
/// bottom-right) of a part whose center sits at `bx`.
pub open spec fn corner_x(p: ColliderPart, bx: int, i: int) -> int {
    if i == 0 || i == 1 {
        bx + half(p.extend.x as int)
    } else {
        bx - half(p.extend.x as int)
    }
}

/// The `y` coordinate of corner `i` of a part whose center sits at `by`.
pub open spec fn corner_y(p: ColliderPart, by: int, i: int) -> int {
    if i == 0 || i == 3 {
        by + half(p.extend.y as int)
    } else {
        by - half(p.extend.y as int)
    }
}

/// Counter-clockwise orientation test on three points.
pub open spec fn spec_ccw(ax: int, ay: int, bx: int, by: int, cx: int, cy: int) -> bool {
    (cy - ay) * (bx - ax) > (by - ay) * (cx - ax)
}

/// Whether segments `a-b` and `c-d` properly intersect, by orientation.
pub open spec fn spec_intersect(
    ax: int,
    ay: int,
    bx: int,
    by: int,
    cx: int,
    cy: int,
    dx: int,
    dy: int,
) -> bool {
    spec_ccw(ax, ay, cx, cy, dx, dy) != spec_ccw(bx, by, cx, cy, dx, dy) && spec_ccw(
        ax,
        ay,
        bx,
        by,
        cx,
        cy,
    ) != spec_ccw(ax, ay, bx, by, dx, dy)
}

/// Whether the leftward ray from `(px, py)` crosses edge `i` of the part
/// centered at `(bx, by)`; the ray starts one pixel left of the part's
/// smallest `x` corner.
pub open spec fn edge_hit(px: int, py: int, p: ColliderPart, bx: int, by: int, i: int) -> bool {
    let rx = bx - half(p.extend.x as int) - 1024;
    spec_intersect(
        rx,
        py,
        px,
        py,
        corner_x(p, bx, i),
        corner_y(p, by, i),
        corner_x(p, bx, (i + 1) % 4),
        corner_y(p, by, (i + 1) % 4),
    )
}

/// How many of the part's four edges the ray from `(px, py)` crosses.
pub open spec fn hit_count(px: int, py: int, p: ColliderPart, bx: int, by: int) -> int {
    (if edge_hit(px, py, p, bx, by, 0) {
        1int
    } else {
        0int
    }) + (if edge_hit(px, py, p, bx, by, 1) {
        1int
    } else {
        0int
    }) + (if edge_hit(px, py, p, bx, by, 2) {
        1int
    } else {
        0int
    }) + (if edge_hit(px, py, p, bx, by, 3) {
        1int
    } else {
        0int
    })
}

/// Ray-casting point-in-polygon test: a point is strictly inside a part
/// when the leftward ray crosses its boundary an odd number of times.
pub open spec fn spec_point_in_part(px: int, py: int, p: ColliderPart, bx: int, by: int) -> bool {
    hit_count(px, py, p, bx, by) % 2 == 1
}

/// Whether corner `i` of `p2` (centered at entity center `c2` plus its own
/// offset) lies strictly inside `p1` (centered at `c1` plus its offset).
pub open spec fn corner_hit(p1: ColliderPart, c1: V2, p2: ColliderPart, c2: V2, i: int) -> bool {
    spec_point_in_part(
        corner_x(p2, c2.x + p2.offset.x, i),
        corner_y(p2, c2.y + p2.offset.y, i),
        p1,
        c1.x + p1.offset.x,
        c1.y + p1.offset.y,
    )
}

/// Whether some corner of `p2` lies strictly inside `p1`.
pub open spec fn spec_part_pair_overlap(p1: ColliderPart, c1: V2, p2: ColliderPart, c2: V2) -> bool {
    exists|i: int| 0 <= i < 4 && #[trigger] corner_hit(p1, c1, p2, c2, i)
}

/// Whether any part of `first` and any part of `second` overlap, testing
/// the second part's corners against the first part.
pub open spec fn spec_any_part_overlap(
    first: Collider,
    c1: V2,
    second: Collider,
    c2: V2,
) -> bool {
    exists|i: int, j: int|
        0 <= i < first.collider_parts@.len() && 0 <= j < second.collider_parts@.len()
            && spec_part_pair_overlap(
            first.collider_parts@[i],
            c1,
            second.collider_parts@[j],
            c2,
        )
}

/// Distance of a point from the origin, rounded down.
pub open spec fn spec_mag2(x: int, y: int) -> int {
    crate::fixed::spec_isqrt((x * x + y * y) as nat) as int
}

/// Distance of corner `i` of a part from the entity's own center.
pub open spec fn corner_reach(p: ColliderPart, i: int) -> int {
    spec_mag2(corner_x(p, p.offset.x as int, i), corner_y(p, p.offset.y as int, i))
}

/// The reach of one part: the distance of its corner closest to the
/// entity's center.
pub open spec fn part_reach(p: ColliderPart) -> int {
    vstd::math::min(
        vstd::math::min(corner_reach(p, 0), corner_reach(p, 1)),
        vstd::math::min(corner_reach(p, 2), corner_reach(p, 3)),
    )
}

/// The reach of a collider: the smallest corner distance over all of its
/// parts.
pub open spec fn spec_reach(parts: Seq<ColliderPart>) -> int
    decreases parts.len(),
{
    if parts.len() <= 1 {
        if parts.len() == 1 {
            part_reach(parts[0])
        } else {
            0
        }
    } else {
        vstd::math::min(spec_reach(parts.drop_last()), part_reach(parts.last()))
    }
}

/// Broad-phase test: both colliders have parts and the distance between the
/// entity centers is below the sum of the two reaches.
pub open spec fn spec_in_colliding_distance(c1: Collider, p1: V2, c2: Collider, p2: V2) -> bool {
    &&& c1.collider_parts@.len() > 0
    &&& c2.collider_parts@.len() > 0
    &&& spec_mag2(p1.x - p2.x, p1.y - p2.y) < spec_reach(c1.collider_parts@) + spec_reach(
        c2.collider_parts@,
    )
}

/// The full two-phase overlap test: broad-phase distance pruning, then some
/// part pair overlapping.
pub open spec fn spec_is_overlapping(c1: Collider, t1: Transform, c2: Collider, t2: Transform) -> bool {
    &&& spec_in_colliding_distance(c1, t1.center, c2, t2.center)
    &&& spec_any_part_overlap(c1, t1.center, c2, t2.center)
}

/// Counter-clockwise orientation test on three points.
fn ccw(ax: i64, ay: i64, bx: i64, by: i64, cx: i64, cy: i64) -> (r: bool)
    requires
        -0x4000_0000 <= ax <= 0x4000_0000,
        -0x4000_0000 <= ay <= 0x4000_0000,
        -0x4000_0000 <= bx <= 0x4000_0000,
        -0x4000_0000 <= by <= 0x4000_0000,
        -0x4000_0000 <= cx <= 0x4000_0000,
        -0x4000_0000 <= cy <= 0x4000_0000,
    ensures
        r == spec_ccw(ax as int, ay as int, bx as int, by as int, cx as int, cy as int),
{
    proof {
        crate::fixed::lemma_mul_bound(
            cy as int - ay as int,
            bx as int - ax as int,
            0x8000_0000,
            0x8000_0000,
        );
        crate::fixed::lemma_mul_bound(
            by as int - ay as int,
            cx as int - ax as int,
            0x8000_0000,
            0x8000_0000,
        );
    }
    (cy - ay) * (bx - ax) > (by - ay) * (cx - ax)
}

/// Whether segments `a-b` and `c-d` properly intersect.
fn do_intersect(
    ax: i64,
    ay: i64,
    bx: i64,
    by: i64,
    cx: i64,
    cy: i64,
    dx: i64,
    dy: i64,
) -> (r: bool)
    requires
        -0x4000_0000 <= ax <= 0x4000_0000,
        -0x4000_0000 <= ay <= 0x4000_0000,
        -0x4000_0000 <= bx <= 0x4000_0000,
        -0x4000_0000 <= by <= 0x4000_0000,
        -0x4000_0000 <= cx <= 0x4000_0000,
        -0x4000_0000 <= cy <= 0x4000_0000,
        -0x4000_0000 <= dx <= 0x4000_0000,
        -0x4000_0000 <= dy <= 0x4000_0000,
    ensures
        r == spec_intersect(
            ax as int,
            ay as int,
            bx as int,
            by as int,
            cx as int,
            cy as int,
            dx as int,
            dy as int,
        ),
{
    ccw(ax, ay, cx, cy, dx, dy) != ccw(bx, by, cx, cy, dx, dy) && ccw(ax, ay, bx, by, cx, cy)
        != ccw(ax, ay, bx, by, dx, dy)
}

/// Ray-casting point-in-polygon test against one part centered at
/// `(bx, by)`.
fn point_in_part(px: i64, py: i64, part: &ColliderPart, bx: i64, by: i64) -> (r: bool)
    requires
        part_geom_ok(*part),
        -0x3000_0000 <= bx <= 0x3000_0000,
        -0x3000_0000 <= by <= 0x3000_0000,
        -0x4000_0000 <= px <= 0x4000_0000,
        -0x4000_0000 <= py <= 0x4000_0000,
    ensures
        r == spec_point_in_part(px as int, py as int, *part, bx as int, by as int),
{
    let hx: i64 = part.extend.x / 2;
    let hy: i64 = part.extend.y / 2;
    let rx: i64 = bx - hx - 1024;
    let v0x: i64 = bx + hx;
    let v0y: i64 = by + hy;
    let v1x: i64 = bx + hx;
    let v1y: i64 = by - hy;
    let v2x: i64 = bx - hx;
    let v2y: i64 = by - hy;
    let v3x: i64 = bx - hx;
    let v3y: i64 = by + hy;
    let h0: bool = do_intersect(rx, py, px, py, v0x, v0y, v1x, v1y);
    let h1: bool = do_intersect(rx, py, px, py, v1x, v1y, v2x, v2y);
    let h2: bool = do_intersect(rx, py, px, py, v2x, v2y, v3x, v3y);
    let h3: bool = do_intersect(rx, py, px, py, v3x, v3y, v0x, v0y);
    proof {
        assert(h0 == edge_hit(px as int, py as int, *part, bx as int, by as int, 0));
        assert(h1 == edge_hit(px as int, py as int, *part, bx as int, by as int, 1));
        assert(h2 == edge_hit(px as int, py as int, *part, bx as int, by as int, 2));
        assert(h3 == edge_hit(px as int, py as int, *part, bx as int, by as int, 3));
    }
    let count: u8 = (if h0 {
        1u8
    } else {
        0u8
    }) + (if h1 {
        1u8
    } else {
        0u8
    }) + (if h2 {
        1u8
    } else {
        0u8
    }) + (if h3 {
        1u8
    } else {
        0u8
    });
    count % 2 == 1
}

/// Whether some corner of `p2` lies strictly inside `p1`, with each part
/// placed at its entity's center plus its own offset.
fn part_pair_overlap(p1: &ColliderPart, c1: &V2, p2: &ColliderPart, c2: &V2) -> (r: bool)
    requires
        part_geom_ok(*p1),
        part_geom_ok(*p2),
        crate::v2::bounded(*c1, GEOM_LIMIT as int),
        crate::v2::bounded(*c2, GEOM_LIMIT as int),
    ensures
        r == spec_part_pair_overlap(*p1, *c1, *p2, *c2),
{
    let b1x: i64 = c1.x + p1.offset.x;
    let b1y: i64 = c1.y + p1.offset.y;
    let b2x: i64 = c2.x + p2.offset.x;
    let b2y: i64 = c2.y + p2.offset.y;
    let hx: i64 = p2.extend.x / 2;
    let hy: i64 = p2.extend.y / 2;
    let t0: bool = point_in_part(b2x + hx, b2y + hy, p1, b1x, b1y);
    let t1: bool = point_in_part(b2x + hx, b2y - hy, p1, b1x, b1y);
    let t2: bool = point_in_part(b2x - hx, b2y - hy, p1, b1x, b1y);
    let t3: bool = point_in_part(b2x - hx, b2y + hy, p1, b1x, b1y);
    let r = t0 || t1 || t2 || t3;
    proof {
        if r {
            if t0 {
                assert(corner_hit(*p1, *c1, *p2, *c2, 0));
            } else if t1 {
                assert(corner_hit(*p1, *c1, *p2, *c2, 1));
            } else if t2 {
                assert(corner_hit(*p1, *c1, *p2, *c2, 2));
            } else {
                assert(corner_hit(*p1, *c1, *p2, *c2, 3));
            }
        } else {
            assert forall|i: int| 0 <= i < 4 implies !corner_hit(*p1, *c1, *p2, *c2, i) by {
                if i == 0 {
                } else if i == 1 {
                } else if i == 2 {
                } else {
                    assert(i == 3);
                }
            }
        }
    }
    r
}

/// Distance of `(x, y)` from the origin, rounded down.
fn mag2(x: i64, y: i64) -> (r: i64)
    requires
        -0x4000_0000 <= x <= 0x4000_0000,
        -0x4000_0000 <= y <= 0x4000_0000,
    ensures
        r == spec_mag2(x as int, y as int),
        0 <= r <= 0xFFFF_FFFF,
{
    proof {
        crate::fixed::lemma_mul_bound(x as int, x as int, 0x4000_0000, 0x4000_0000);
        crate::fixed::lemma_mul_bound(y as int, y as int, 0x4000_0000, 0x4000_0000);
        assert(x as int * x as int >= 0 && y as int * y as int >= 0) by (nonlinear_arith);
    }
    let sq: u64 = (x * x) as u64 + (y * y) as u64;
    let r: u64 = crate::fixed::isqrt(sq);
    proof {
        crate::fixed::lemma_isqrt_bounds(sq as nat);
        assert(crate::fixed::spec_isqrt(sq as nat) <= 0xFFFF_FFFF) by (nonlinear_arith)
            requires
                crate::fixed::spec_isqrt(sq as nat) * crate::fixed::spec_isqrt(sq as nat)
                    <= sq as nat,
                sq <= 0xFFFF_FFFF_FFFF_FFFF,
        ;
    }
    r as i64
}

/// The distance of the part corner closest to the entity center.
fn exec_part_reach(p: &ColliderPart) -> (r: i64)
    requires
        part_geom_ok(*p),
    ensures
        r == part_reach(*p),
        0 <= r <= 0xFFFF_FFFF,
{
    let hx: i64 = p.extend.x / 2;
    let hy: i64 = p.extend.y / 2;
    let r0: i64 = mag2(p.offset.x + hx, p.offset.y + hy);
    let r1: i64 = mag2(p.offset.x + hx, p.offset.y - hy);
    let r2: i64 = mag2(p.offset.x - hx, p.offset.y - hy);
    let r3: i64 = mag2(p.offset.x - hx, p.offset.y + hy);
    let m01: i64 = if r0 < r1 {
        r0
    } else {
        r1
    };
    let m23: i64 = if r2 < r3 {
        r2
    } else {
        r3
    };
    if m01 < m23 {
        m01
    } else {
        m23
    }
}

/// The collider's reach: the smallest corner distance over all parts.
fn get_reach(collider: &Collider) -> (r: i64)
    requires
        collider_geom_ok(*collider),
        collider.collider_parts@.len() > 0,
    ensures
        r == spec_reach(collider.collider_parts@),
        0 <= r <= 0xFFFF_FFFF,
{
    let n: usize = collider.collider_parts.len();
    let mut r: i64 = exec_part_reach(&collider.collider_parts[0]);
    let mut i: usize = 1;
    proof {
        assert(collider.collider_parts@.take(1) =~= seq![collider.collider_parts@[0]]);
    }
    while i < n
        invariant
            1 <= i <= n == collider.collider_parts@.len(),
            collider_geom_ok(*collider),
            r == spec_reach(collider.collider_parts@.take(i as int)),
            0 <= r <= 0xFFFF_FFFF,
        decreases n - i,
    {
        let pr: i64 = exec_part_reach(&collider.collider_parts[i]);
        proof {
            assert(collider.collider_parts@.take(i + 1int).drop_last() =~= collider
                .collider_parts@.take(i as int));
            assert(collider.collider_parts@.take(i + 1int).last() == collider.collider_parts@[i as int]);
        }
        if pr < r {
            r = pr;
        }
        i = i + 1;
    }
    proof {
        assert(collider.collider_parts@.take(n as int) =~= collider.collider_parts@);
    }
    r
}

impl Collider {
    /// A collider made of `collider_parts` under the given mask id (bucket 0
    /// when absent).
    pub fn new(collider_parts: Vec<ColliderPart>, mask_id: Option<CollisionMaskId>) -> (r:
        Collider)
        ensures
            r.collider_parts == collider_parts,
            r.mask_id == if mask_id is Some {
                mask_id->0
            } else {
                0u8
            },
    {
        Collider { collider_parts, mask_id: mask_id.unwrap_or(0) }
    }

    /// Whether this collider has no parts (and so collides with nothing).
    pub fn is_empty(&self) -> (r: bool)
        ensures
            r == (self.collider_parts@.len() == 0),
    {
        self.collider_parts.len() == 0
    }

    /// Broad-phase test: whether the straight-line distance between the two
    /// positions is below the sum of the colliders' reaches. A collider
    /// without parts is never in colliding distance of anything.
    pub fn are_in_colliding_distance(
        first_collider: &Collider,
        first_position: &V2,
        second_collider: &Collider,
        second_position: &V2,
    ) -> (r: bool)
        requires
            collider_geom_ok(*first_collider),
            collider_geom_ok(*second_collider),
            crate::v2::bounded(*first_position, GEOM_LIMIT as int),
            crate::v2::bounded(*second_position, GEOM_LIMIT as int),
        ensures
            r == spec_in_colliding_distance(
                *first_collider,
                *first_position,
                *second_collider,
                *second_position,
            ),
    {
        if first_collider.is_empty() || second_collider.is_empty() {
            return false;
        }
        let d: i64 = mag2(
            first_position.x - second_position.x,
            first_position.y - second_position.y,
        );
        let r1: i64 = get_reach(first_collider);
        let r2: i64 = get_reach(second_collider);
        proof {
            lemma_reach_bounds(first_collider.collider_parts@);
            lemma_reach_bounds(second_collider.collider_parts@);
        }
        d < r1 + r2
    }

    /// The full two-phase overlap test, also reporting how many part pairs
    /// the narrow phase examined: none at all when the broad phase already
    /// rules the pair out.
    pub fn is_overlapping_counted(
        first: (&Collider, &Transform),
        second: (&Collider, &Transform),
    ) -> (r: (bool, u64))
        requires
            collider_geom_ok(*first.0),
            collider_geom_ok(*second.0),
            crate::v2::bounded(first.1.center, GEOM_LIMIT as int),
            crate::v2::bounded(second.1.center, GEOM_LIMIT as int),
        ensures
            r.0 == spec_is_overlapping(*first.0, *first.1, *second.0, *second.1),
            !spec_in_colliding_distance(*first.0, first.1.center, *second.0, second.1.center)
                ==> r.1 == 0,
            r.1 <= first.0.collider_parts@.len() * second.0.collider_parts@.len(),
    {
        let (first_collider, first_transform) = first;
        let (second_collider, second_transform) = second;
        if !Collider::are_in_colliding_distance(
            first_collider,
            &first_transform.center,
            second_collider,
            &second_transform.center,
        ) {
            proof {
                crate::fixed::lemma_mul_bound(
                    first_collider.collider_parts@.len() as int,
                    second_collider.collider_parts@.len() as int,
                    0x1_0000_0000_0000,
                    0x1_0000_0000_0000,
                );
            }
            return (false, 0);
        }
        let n1: usize = first_collider.collider_parts.len();
        let n2: usize = second_collider.collider_parts.len();
        let mut tested: u64 = 0;
        let mut i: usize = 0;
        while i < n1
            invariant
                first_collider == first.0,
                first_transform == first.1,
                second_collider == second.0,
                second_transform == second.1,
                0 <= i <= n1 == first_collider.collider_parts@.len(),
                n2 == second_collider.collider_parts@.len(),
                collider_geom_ok(*first_collider),
                collider_geom_ok(*second_collider),
                crate::v2::bounded(first_transform.center, GEOM_LIMIT as int),
                crate::v2::bounded(second_transform.center, GEOM_LIMIT as int),
                spec_in_colliding_distance(
                    *first_collider,
                    first_transform.center,
                    *second_collider,
                    second_transform.center,
                ),
                tested == i as int * n2 as int,
                tested <= 0xFFFF_FFFF_0000_0000,
                forall|a: int, b: int|
                    0 <= a < i && 0 <= b < n2 ==> !spec_part_pair_overlap(
                        #[trigger] first_collider.collider_parts@[a],
                        first_transform.center,
                        #[trigger] second_collider.collider_parts@[b],
                        second_transform.center,
                    ),
            decreases n1 - i,
        {
            let mut j: usize = 0;
            while j < n2
                invariant
                    first_collider == first.0,
                    first_transform == first.1,
                    second_collider == second.0,
                    second_transform == second.1,
                    0 <= i < n1 == first_collider.collider_parts@.len(),
                    0 <= j <= n2 == second_collider.collider_parts@.len(),
                    collider_geom_ok(*first_collider),
                    collider_geom_ok(*second_collider),
                    crate::v2::bounded(first_transform.center, GEOM_LIMIT as int),
                    crate::v2::bounded(second_transform.center, GEOM_LIMIT as int),
                    spec_in_colliding_distance(
                        *first_collider,
                        first_transform.center,
                        *second_collider,
                        second_transform.center,
                    ),
                    tested == i as int * n2 as int + j as int,
                    tested <= 0xFFFF_FFFF_0000_0000,
                    forall|a: int, b: int|
                        0 <= a < i && 0 <= b < n2 ==> !spec_part_pair_overlap(
                            #[trigger] first_collider.collider_parts@[a],
                            first_transform.center,
                            #[trigger] second_collider.collider_parts@[b],
                            second_transform.center,
                        ),
                    forall|b: int|
                        0 <= b < j ==> !spec_part_pair_overlap(
                            first_collider.collider_parts@[i as int],
                            first_transform.center,
                            #[trigger] second_collider.collider_parts@[b],
                            second_transform.center,
                        ),
                decreases n2 - j,
            {
                proof {
                    assert(i as int * n2 as int + n2 as int <= 0xFFFF_FFFF * 0xFFFF_FFFF)
                        by (nonlinear_arith)
                        requires
                            0 <= i as int,
                            (i as int) < (n1 as int),
                            0 <= n2 as int <= 0xFFFF_FFFF,
                            n1 as int <= 0xFFFF_FFFF,
                    ;
                }
                tested = tested + 1;
                if part_pair_overlap(
                    &first_collider.collider_parts[i],
                    &first_transform.center,
                    &second_collider.collider_parts[j],
                    &second_transform.center,
                ) {
                    proof {
                        assert(spec_any_part_overlap(
                            *first_collider,
                            first_transform.center,
                            *second_collider,
                            second_transform.center,
                        ));
                        assert(tested <= n1 as int * n2 as int) by (nonlinear_arith)
                            requires
                                tested == i as int * n2 as int + j as int + 1,
                                0 <= i < n1,
                                0 <= j < n2,
                        ;
                    }
                    return (true, tested);
                }
                j = j + 1;
            }
            proof {
                assert((i as int + 1) * n2 as int == i as int * n2 as int + n2 as int)
                    by (nonlinear_arith);
                assert((i as int + 1) * n2 as int <= 0xFFFF_FFFF * 0xFFFF_FFFF)
                    by (nonlinear_arith)
                    requires
                        0 <= i as int,
                        (i as int) < (n1 as int),
                        n1 as int <= 0xFFFF_FFFF,
                        0 <= n2 as int <= 0xFFFF_FFFF,
                ;
            }
            i = i + 1;
        }
        proof {
            if spec_any_part_overlap(
                *first_collider,
                first_transform.center,
                *second_collider,
                second_transform.center,
            ) {
                let (a, b) = choose|a: int, b: int|
                    0 <= a < first_collider.collider_parts@.len() && 0 <= b
                        < second_collider.collider_parts@.len() && spec_part_pair_overlap(
                        first_collider.collider_parts@[a],
                        first_transform.center,
                        second_collider.collider_parts@[b],
                        second_transform.center,
                    );
                assert(!spec_part_pair_overlap(
                    first_collider.collider_parts@[a],
                    first_transform.center,
                    second_collider.collider_parts@[b],
                    second_transform.center,
                ));
            }
        }
        (false, tested)
    }

    /// The full two-phase overlap test: a pair with either collider empty
    /// never overlaps, a pair beyond colliding distance is pruned before any
    /// geometry, and otherwise some part pair must overlap.
    pub fn is_overlapping(first: (&Collider, &Transform), second: (&Collider, &Transform)) -> (r:
        bool)
        requires
            collider_geom_ok(*first.0),
            collider_geom_ok(*second.0),
            crate::v2::bounded(first.1.center, GEOM_LIMIT as int),
            crate::v2::bounded(second.1.center, GEOM_LIMIT as int),
        ensures
            r == spec_is_overlapping(*first.0, *first.1, *second.0, *second.1),
    {
        let (r, _tested) = Collider::is_overlapping_counted(first, second);
        r
    }
}

/// Whether the collision-matrix row `row` has the permission bit for mask
/// bucket `bit` set.
pub open spec fn mask_enabled(row: u8, bit: u8) -> bool {
    (row >> bit) & 1 == 1
}

/// Whether the ordered live pair `a < b` collides this frame: both entities
/// carry a collider and a transform, the matrix row of `a`'s mask enables
/// `b`'s mask, and the two-phase overlap test reports an overlap.
pub open spec fn spec_pair_collides(w: &World, a: ActorId, b: ActorId) -> bool {
    &&& w.is_live(a) && w.is_live(b) && a < b
    &&& w.spec_collider(a) is Some && w.spec_transform(a) is Some
    &&& w.spec_collider(b) is Some && w.spec_transform(b) is Some
    &&& mask_enabled(
        w.spec_collision_row(w.spec_collider(a)->0.mask_id as int),
        w.spec_collider(b)->0.mask_id,
    )
    &&& spec_is_overlapping(
        w.spec_collider(a)->0,
        w.spec_transform(a)->0,
        w.spec_collider(b)->0,
        w.spec_transform(b)->0,
    )
}

/// The symmetric closure of [`spec_pair_collides`]: whether `a` and `b`
/// overlap this frame, in either order.
pub open spec fn spec_overlaps_rel(w: &World, a: ActorId, b: ActorId) -> bool {
    if a < b {
        spec_pair_collides(w, a, b)
    } else {
        spec_pair_collides(w, b, a)
    }
}

/// Whether the overlap map lists `b` among the overlaps of `a`.
pub open spec fn overlap_map_has(m: Map<ActorId, Vec<ActorId>>, a: ActorId, b: ActorId) -> bool {
    m.dom().contains(a) && m[a]@.contains(b)
}

/// Every live entity's collider and transform are within the bounds the
/// overlap tests accept.
pub open spec fn world_collision_ok(w: &World) -> bool {
    forall|id: ActorId|
        #[trigger] w.is_live(id) ==> (w.spec_collider(id) is Some ==> collider_geom_ok(
            w.spec_collider(id)->0,
        )) && (w.spec_transform(id) is Some ==> crate::v2::bounded(
            w.spec_transform(id)->0.center,
            GEOM_LIMIT as int,
        ))
}

/// The colliding pairs found by scanning index pairs lexicographically
/// before `(hi_i, hi_j)` in the live id list.
pub open spec fn rel_upto(w: &World, hi_i: int, hi_j: int, a: ActorId, b: ActorId) -> bool {
    exists|i: int, j: int|
        {
            &&& 0 <= i < j < w.live().len()
            &&& (i < hi_i || (i == hi_i && j < hi_j))
            &&& ((#[trigger] w.live()[i] == a && #[trigger] w.live()[j] == b) || (w.live()[i] == b
                && w.live()[j] == a))
            &&& spec_pair_collides(w, w.live()[i], w.live()[j])
        }
}

/// Pushing an element onto the overlap list of one id extends membership by
/// exactly that element.
proof fn lemma_push_contains(s: Seq<ActorId>, e: ActorId, y: ActorId)
    ensures
        s.push(e).contains(y) <==> (s.contains(y) || y == e),
{
    if s.push(e).contains(y) {
        let m = choose|m: int| 0 <= m < s.push(e).len() && s.push(e)[m] == y;
        if m < s.len() {
            assert(s[m] == y);
        }
    }
    if s.contains(y) {
        let m = choose|m: int| 0 <= m < s.len() && s[m] == y;
        assert(s.push(e)[m] == y);
    }
    if y == e {
        assert(s.push(e)[s.len() as int] == y);
    }
}

/// Moving the scan past a pair that does not collide adds nothing.
proof fn lemma_rel_upto_skip(w: &World, hi_i: int, hi_j: int)
    requires
        0 <= hi_i < w.live().len(),
        hi_i < hi_j,
        hi_j < w.live().len() ==> !spec_pair_collides(w, w.live()[hi_i], w.live()[hi_j]),
    ensures
        forall|a: ActorId, b: ActorId|
            rel_upto(w, hi_i, hi_j + 1, a, b) == rel_upto(w, hi_i, hi_j, a, b),
{
    assert forall|a: ActorId, b: ActorId|
        rel_upto(w, hi_i, hi_j + 1, a, b) == rel_upto(w, hi_i, hi_j, a, b) by {
        if rel_upto(w, hi_i, hi_j + 1, a, b) {
            let (i, j) = choose|i: int, j: int|
                {
                    &&& 0 <= i < j < w.live().len()
                    &&& (i < hi_i || (i == hi_i && j < hi_j + 1))
                    &&& ((w.live()[i] == a && w.live()[j] == b) || (w.live()[i] == b && w.live()[j]
                        == a))
                    &&& spec_pair_collides(w, w.live()[i], w.live()[j])
                };
            assert(!(i == hi_i && j == hi_j));
            assert(rel_upto(w, hi_i, hi_j, a, b));
        }
        if rel_upto(w, hi_i, hi_j, a, b) {
            let (i, j) = choose|i: int, j: int|
                {
                    &&& 0 <= i < j < w.live().len()
                    &&& (i < hi_i || (i == hi_i && j < hi_j))
                    &&& ((w.live()[i] == a && w.live()[j] == b) || (w.live()[i] == b && w.live()[j]
                        == a))
                    &&& spec_pair_collides(w, w.live()[i], w.live()[j])
                };
            assert(rel_upto(w, hi_i, hi_j + 1, a, b));
        }
    }
}

/// Entering the inner scan of row `hi_i` examines no new pair.
proof fn lemma_rel_upto_enter(w: &World, hi_i: int)
    requires
        0 <= hi_i <= w.live().len(),
    ensures
        forall|a: ActorId, b: ActorId|
            rel_upto(w, hi_i, hi_i + 1, a, b) == rel_upto(w, hi_i, 0, a, b),
{
    assert forall|a: ActorId, b: ActorId|
        rel_upto(w, hi_i, hi_i + 1, a, b) == rel_upto(w, hi_i, 0, a, b) by {
        if rel_upto(w, hi_i, hi_i + 1, a, b) {
            let (i, j) = choose|i: int, j: int|
                {
                    &&& 0 <= i < j < w.live().len()
                    &&& (i < hi_i || (i == hi_i && j < hi_i + 1))
                    &&& ((w.live()[i] == a && w.live()[j] == b) || (w.live()[i] == b && w.live()[j]
                        == a))
                    &&& spec_pair_collides(w, w.live()[i], w.live()[j])
                };
            assert(i < hi_i);
            assert(rel_upto(w, hi_i, 0, a, b));
        }
        if rel_upto(w, hi_i, 0, a, b) {
            let (i, j) = choose|i: int, j: int|
                {
                    &&& 0 <= i < j < w.live().len()
                    &&& (i < hi_i || (i == hi_i && j < 0))
                    &&& ((w.live()[i] == a && w.live()[j] == b) || (w.live()[i] == b && w.live()[j]
                        == a))
                    &&& spec_pair_collides(w, w.live()[i], w.live()[j])
                };
            assert(rel_upto(w, hi_i, hi_i + 1, a, b));
        }
    }
}

/// Finishing the inner scan of row `hi_i` is the same as starting row
/// `hi_i + 1`.
proof fn lemma_rel_upto_next_row(w: &World, hi_i: int)
    requires
        0 <= hi_i < w.live().len(),
    ensures
        forall|a: ActorId, b: ActorId|
            rel_upto(w, hi_i, w.live().len() as int, a, b) == rel_upto(w, hi_i + 1, 0, a, b),
{
    let n = w.live().len() as int;
    assert forall|a: ActorId, b: ActorId|
        rel_upto(w, hi_i, n, a, b) == rel_upto(w, hi_i + 1, 0, a, b) by {
        if rel_upto(w, hi_i, n, a, b) {
            let (i, j) = choose|i: int, j: int|
                {
                    &&& 0 <= i < j < w.live().len()
                    &&& (i < hi_i || (i == hi_i && j < n))
                    &&& ((w.live()[i] == a && w.live()[j] == b) || (w.live()[i] == b && w.live()[j]
                        == a))
                    &&& spec_pair_collides(w, w.live()[i], w.live()[j])
                };
            assert(i < hi_i + 1);
            assert(rel_upto(w, hi_i + 1, 0, a, b));
        }
        if rel_upto(w, hi_i + 1, 0, a, b) {
            let (i, j) = choose|i: int, j: int|
                {
                    &&& 0 <= i < j < w.live().len()
                    &&& (i < hi_i + 1 || (i == hi_i + 1 && j < 0))
                    &&& ((w.live()[i] == a && w.live()[j] == b) || (w.live()[i] == b && w.live()[j]
                        == a))
                    &&& spec_pair_collides(w, w.live()[i], w.live()[j])
                };
            if i == hi_i {
                assert(j < n);
            }
            assert(rel_upto(w, hi_i, n, a, b));
        }
    }
}

/// After the whole scan, the found pairs are exactly the colliding pairs.
proof fn lemma_rel_upto_full(w: &World)
    requires
        w.wf(),
    ensures
        forall|a: ActorId, b: ActorId|
            rel_upto(w, w.live().len() as int, 0, a, b) == spec_overlaps_rel(w, a, b),
{
    let n = w.live().len() as int;
    w.lemma_live_sorted();
    assert forall|a: ActorId, b: ActorId|
        rel_upto(w, n, 0, a, b) == spec_overlaps_rel(w, a, b) by {
        if rel_upto(w, n, 0, a, b) {
            let (i, j) = choose|i: int, j: int|
                {
                    &&& 0 <= i < j < w.live().len()
                    &&& (i < n || (i == n && j < 0))
                    &&& ((w.live()[i] == a && w.live()[j] == b) || (w.live()[i] == b && w.live()[j]
                        == a))
                    &&& spec_pair_collides(w, w.live()[i], w.live()[j])
                };
            assert(w.live()[i] < w.live()[j]);
        }
        if spec_overlaps_rel(w, a, b) {
            let lo: ActorId = if a < b {
                a
            } else {
                b
            };
            let hi: ActorId = if a < b {
                b
            } else {
                a
            };
            assert(spec_pair_collides(w, lo, hi));
            assert(w.live().contains(lo) && w.live().contains(hi));
            let i = choose|i: int| 0 <= i < w.live().len() && w.live()[i] == lo;
            let j = choose|j: int| 0 <= j < w.live().len() && w.live()[j] == hi;
            if j < i {
                assert(w.live()[j] < w.live()[i]);
            }
            assert(i != j);
            assert(i < j);
            assert(rel_upto(w, n, 0, a, b));
        }
    }
}

impl Collider {
    /// Computes the set of overlapping entity pairs over the full live
    /// entity set: every unordered pair of live entities that both carry a
    /// collider and a transform, whose masks the collision matrix enables in
    /// id order, and whose shapes the two-phase test finds overlapping, is
    /// listed symmetrically (each partner appears in the other's list), and
    /// nothing else is listed; every key in the map has at least one
    /// partner.
    pub fn detect_overlaps(world: &World) -> (m: HashMap<ActorId, Vec<ActorId>>)
        requires
            world.wf(),
            world_collision_ok(world),
        ensures
            forall|a: ActorId, b: ActorId|
                #![trigger overlap_map_has(m@, a, b)]
                #![trigger spec_overlaps_rel(world, a, b)]
                overlap_map_has(m@, a, b) <==> spec_overlaps_rel(world, a, b),
            forall|a: ActorId|
                #[trigger] m@.dom().contains(a) ==> exists|b: ActorId|
                    overlap_map_has(m@, a, b),
    {
        broadcast use vstd::std_specs::hash::group_hash_axioms;

        let ids = world.get_all_actors();
        let n: usize = ids.len();
        let mut dict: HashMap<ActorId, Vec<ActorId>> = HashMap::new();
        let mut i1: usize = 0;
        while i1 < n
            invariant
                world.wf(),
                world_collision_ok(world),
                ids@ == world.live(),
                0 <= i1 <= n == world.live().len(),
                forall|a: ActorId, b: ActorId|
                    #[trigger] overlap_map_has(dict@, a, b) == rel_upto(
                        world,
                        i1 as int,
                        0,
                        a,
                        b,
                    ),
                forall|a: ActorId|
                    #[trigger] dict@.dom().contains(a) ==> dict@[a]@.len() > 0,
            decreases n - i1,
        {
            let mut i2: usize = i1 + 1;
            proof {
                lemma_rel_upto_enter(world, i1 as int);
            }
            while i2 < n
                invariant
                    world.wf(),
                    world_collision_ok(world),
                    ids@ == world.live(),
                    0 <= i1 < n == world.live().len(),
                    i1 < i2 <= n,
                    forall|a: ActorId, b: ActorId|
                        #[trigger] overlap_map_has(dict@, a, b) == rel_upto(
                            world,
                            i1 as int,
                            i2 as int,
                            a,
                            b,
                        ),
                    forall|a: ActorId|
                        #[trigger] dict@.dom().contains(a) ==> dict@[a]@.len() > 0,
                decreases n - i2,
            {
                let first_actor: ActorId = ids[i1];
                let second_actor: ActorId = ids[i2];
                proof {
                    world.lemma_live_sorted();
                    assert(world.live()[i1 as int] == first_actor);
                    assert(world.live()[i2 as int] == second_actor);
                    assert(world.live().contains(first_actor));
                    assert(world.live().contains(second_actor));
                    assert(first_actor < second_actor);
                }
                let mut hit: bool = false;
                match (
                    world.get_collider(&first_actor),
                    world.get_transform(&first_actor),
                    world.get_collider(&second_actor),
                    world.get_transform(&second_actor),
                ) {
                    (
                        Some(first_collider),
                        Some(first_transform),
                        Some(second_collider),
                        Some(second_transform),
                    ) => {
                        proof {
                            assert(world.is_live(first_actor));
                            assert(world.is_live(second_actor));
                            assert(collider_geom_ok(world.spec_collider(first_actor)->0));
                            assert(collider_geom_ok(world.spec_collider(second_actor)->0));
                            assert(collider_geom_ok(*first_collider));
                            assert(collider_geom_ok(*second_collider));
                        }
                        let row: u8 = world.get_collision_matrix(first_collider.mask_id);
                        if (row >> second_collider.mask_id) & 1 == 1 {
                            if Collider::is_overlapping(
                                (first_collider, first_transform),
                                (second_collider, second_transform),
                            ) {
                                hit = true;
                            }
                        }
                    },
                    _ => {},
                }
                if hit {
                    proof {
                        assert(spec_pair_collides(world, first_actor, second_actor));
                    }
                    let ghost dict0 = dict@;
                    let mut va: Vec<ActorId> = match dict.remove(&first_actor) {
                        Some(v) => v,
                        None => Vec::new(),
                    };
                    let ghost va0 = va@;
                    va.push(second_actor);
                    dict.insert(first_actor, va);
                    let mut vb: Vec<ActorId> = match dict.remove(&second_actor) {
                        Some(v) => v,
                        None => Vec::new(),
                    };
                    let ghost vb0 = vb@;
                    vb.push(first_actor);
                    dict.insert(second_actor, vb);
                    proof {
                        let w = world;
                        let a = first_actor;
                        let b = second_actor;
                        assert forall|x: ActorId, y: ActorId|
                            #[trigger] overlap_map_has(dict@, x, y) == rel_upto(
                            w,
                            i1 as int,
                            i2 as int + 1,
                            x,
                            y,
                        ) by {
                            if x == a {
                                lemma_push_contains(va0, b, y);
                                assert(dict@[a]@ == va0.push(b));
                                if overlap_map_has(dict@, x, y) {
                                    if y == b {
                                        assert(rel_upto(w, i1 as int, i2 as int + 1, x, y));
                                    } else {
                                        assert(overlap_map_has(dict0, x, y));
                                        assert(rel_upto(w, i1 as int, i2 as int, x, y));
                                        let (i, j) = choose|i: int, j: int|
                                            {
                                                &&& 0 <= i < j < w.live().len()
                                                &&& (i < i1 as int || (i == i1 as int && j
                                                    < i2 as int))
                                                &&& ((w.live()[i] == x && w.live()[j] == y) || (
                                                w.live()[i] == y && w.live()[j] == x))
                                                &&& spec_pair_collides(
                                                    w,
                                                    w.live()[i],
                                                    w.live()[j],
                                                )
                                            };
                                        assert(rel_upto(w, i1 as int, i2 as int + 1, x, y));
                                    }
                                } else {
                                    if rel_upto(w, i1 as int, i2 as int + 1, x, y) {
                                        let (i, j) = choose|i: int, j: int|
                                            {
                                                &&& 0 <= i < j < w.live().len()
                                                &&& (i < i1 as int || (i == i1 as int && j < i2
                                                    as int + 1))
                                                &&& ((w.live()[i] == x && w.live()[j] == y) || (
                                                w.live()[i] == y && w.live()[j] == x))
                                                &&& spec_pair_collides(
                                                    w,
                                                    w.live()[i],
                                                    w.live()[j],
                                                )
                                            };
                                        if i == i1 as int && j == i2 as int {
                                            assert(y == b || x == b);
                                        } else {
                                            assert(rel_upto(w, i1 as int, i2 as int, x, y));
                                            assert(overlap_map_has(dict0, x, y));
                                        }
                                    }
                                }
                            } else if x == b {
                                lemma_push_contains(vb0, a, y);
                                assert(dict@[b]@ == vb0.push(a));
                                if overlap_map_has(dict@, x, y) {
                                    if y == a {
                                        assert(rel_upto(w, i1 as int, i2 as int + 1, x, y));
                                    } else {
                                        assert(overlap_map_has(dict0, x, y));
                                        assert(rel_upto(w, i1 as int, i2 as int, x, y));
                                        let (i, j) = choose|i: int, j: int|
                                            {
                                                &&& 0 <= i < j < w.live().len()
                                                &&& (i < i1 as int || (i == i1 as int && j
                                                    < i2 as int))
                                                &&& ((w.live()[i] == x && w.live()[j] == y) || (
                                                w.live()[i] == y && w.live()[j] == x))
                                                &&& spec_pair_collides(
                                                    w,
                                                    w.live()[i],
                                                    w.live()[j],
                                                )
                                            };
                                        assert(rel_upto(w, i1 as int, i2 as int + 1, x, y));
                                    }
                                } else {
                                    if rel_upto(w, i1 as int, i2 as int + 1, x, y) {
                                        let (i, j) = choose|i: int, j: int|
                                            {
                                                &&& 0 <= i < j < w.live().len()
                                                &&& (i < i1 as int || (i == i1 as int && j < i2
                                                    as int + 1))
                                                &&& ((w.live()[i] == x && w.live()[j] == y) || (
                                                w.live()[i] == y && w.live()[j] == x))
                                                &&& spec_pair_collides(
                                                    w,
                                                    w.live()[i],
                                                    w.live()[j],
                                                )
                                            };
                                        if i == i1 as int && j == i2 as int {
                                            assert(y == a || x == a);
                                        } else {
                                            assert(rel_upto(w, i1 as int, i2 as int, x, y));
                                            assert(overlap_map_has(dict0, x, y));
                                        }
                                    }
                                }
                            } else {
                                assert(overlap_map_has(dict@, x, y) == overlap_map_has(
                                    dict0,
                                    x,
                                    y,
                                ));
                                if overlap_map_has(dict0, x, y) {
                                    let (i, j) = choose|i: int, j: int|
                                        {
                                            &&& 0 <= i < j < w.live().len()
                                            &&& (i < i1 as int || (i == i1 as int && j
                                                < i2 as int))
                                            &&& ((w.live()[i] == x && w.live()[j] == y) || (
                                            w.live()[i] == y && w.live()[j] == x))
                                            &&& spec_pair_collides(w, w.live()[i], w.live()[j])
                                        };
                                    assert(rel_upto(w, i1 as int, i2 as int + 1, x, y));
                                }
                                if rel_upto(w, i1 as int, i2 as int + 1, x, y) {
                                    let (i, j) = choose|i: int, j: int|
                                        {
                                            &&& 0 <= i < j < w.live().len()
                                            &&& (i < i1 as int || (i == i1 as int && j < i2 as int
                                                + 1))
                                            &&& ((w.live()[i] == x && w.live()[j] == y) || (
                                            w.live()[i] == y && w.live()[j] == x))
                                            &&& spec_pair_collides(w, w.live()[i], w.live()[j])
                                        };
                                    if i == i1 as int && j == i2 as int {
                                        assert(x == a || x == b);
                                    } else {
                                        assert(rel_upto(w, i1 as int, i2 as int, x, y));
                                        assert(overlap_map_has(dict0, x, y));
                                    }
                                }
                            }
                        }
                    }
                } else {
                    proof {
                        assert(!spec_pair_collides(world, first_actor, second_actor));
                        lemma_rel_upto_skip(world, i1 as int, i2 as int);
                    }
                }
                i2 = i2 + 1;
            }
            proof {
                lemma_rel_upto_next_row(world, i1 as int);
            }
            i1 = i1 + 1;
        }
        proof {
            lemma_rel_upto_full(world);
            assert forall|a: ActorId| #[trigger] dict@.dom().contains(a) implies exists|b: ActorId|
                overlap_map_has(dict@, a, b) by {
                let b = dict@[a]@[0];
                assert(dict@[a]@.contains(b));
                assert(overlap_map_has(dict@, a, b));
            }
        }
        dict
    }
}

/// Collision symmetry: in an overlap map that lists exactly the colliding
/// pairs — as the one [`Collider::detect_overlaps`] returns — `b` appears in
/// `a`'s overlap list if and only if `a` appears in `b`'s.
pub proof fn lemma_overlap_symmetry(w: &World, m: Map<ActorId, Vec<ActorId>>)
    requires
        forall|a: ActorId, b: ActorId|
            #[trigger] overlap_map_has(m, a, b) <==> spec_overlaps_rel(w, a, b),
    ensures
        forall|a: ActorId, b: ActorId|
            #[trigger] overlap_map_has(m, a, b) <==> #[trigger] overlap_map_has(m, b, a),
{
    assert forall|a: ActorId, b: ActorId|
        overlap_map_has(m, a, b) <==> overlap_map_has(m, b, a) by {
        assert(spec_overlaps_rel(w, a, b) == spec_overlaps_rel(w, b, a));
    }
}

/// Collision-mask enforcement: two entities whose masks are not enabled in
/// the collision matrix in either direction never appear in each other's
/// overlap list, regardless of their geometry.
pub proof fn lemma_mask_enforced(
    w: &World,
    m: Map<ActorId, Vec<ActorId>>,
    a: ActorId,
    b: ActorId,
)
    requires
        forall|x: ActorId, y: ActorId|
            #[trigger] overlap_map_has(m, x, y) <==> spec_overlaps_rel(w, x, y),
        w.spec_collider(a) is Some,
        w.spec_collider(b) is Some,
        !mask_enabled(
            w.spec_collision_row(w.spec_collider(a)->0.mask_id as int),
            w.spec_collider(b)->0.mask_id,
        ),
        !mask_enabled(
            w.spec_collision_row(w.spec_collider(b)->0.mask_id as int),
            w.spec_collider(a)->0.mask_id,
        ),
    ensures
        !overlap_map_has(m, a, b),
        !overlap_map_has(m, b, a),
{
    assert(!spec_overlaps_rel(w, a, b));
    assert(!spec_overlaps_rel(w, b, a));
}

/// Broad-phase pruning: a pair beyond colliding distance (disjoint
/// reach-padded bounding circles) is never reported as overlapping.
pub proof fn lemma_broad_phase_prunes(c1: Collider, t1: Transform, c2: Collider, t2: Transform)
    requires
        !spec_in_colliding_distance(c1, t1.center, c2, t2.center),
    ensures
        !spec_is_overlapping(c1, t1, c2, t2),
{
}

/// The reach of a collider is never negative.
proof fn lemma_reach_bounds(parts: Seq<ColliderPart>)
    requires
        parts.len() > 0,
    ensures
        spec_reach(parts) >= 0,
    decreases parts.len(),
{
    if parts.len() > 1 {
        lemma_reach_bounds(parts.drop_last());
    }
}

} // verus!
