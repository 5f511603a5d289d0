//! The entity/component store.
//!
//! The World owns the set of live entity ids and, per id, five optional
//! components held in parallel sparse maps: a name, a placement
//! ([`Transform`]), a collision shape ([`Collider`]), a reserved physics
//! placeholder and a render bitmap. At most one live entity exists per id at
//! any time; the allocator always hands out the smallest id not currently in
//! use, so freed ids are recycled. When every representable id is live, an
//! allocation fails explicitly by returning `None` and leaving the store
//! unchanged.
use vstd::prelude::*;

verus! {

broadcast use vstd::std_specs::hash::group_hash_axioms;

use std::collections::HashMap;
use crate::transform::Transform;
use crate::collider::Collider;
use crate::color_matrix::ColorMatrix;

/// Identifier of a live entity.
pub type ActorId = u16;

/// Reserved placeholder for a future physics component.
#[derive(Clone, Copy, PartialEq, Eq, Structural, Debug)]
pub struct Physics {}

/// The exclusive owner of all entities and their components.
pub struct World {
    all_actors: Vec<ActorId>,
    names: HashMap<ActorId, Option<String>>,
    transforms: HashMap<ActorId, Option<Transform>>,
    colliders: HashMap<ActorId, Option<Collider>>,
    physics: HashMap<ActorId, Option<Physics>>,
    renders: HashMap<ActorId, Option<ColorMatrix>>,
    collision_matrix: Vec<CollisionMaskRow>,
}

/// A row of the collision matrix as the store keeps it.
pub type CollisionMaskRow = u8;

impl World {
    /// The live entity ids, in ascending order.
    pub closed spec fn live(&self) -> Seq<ActorId> {
        self.all_actors@
    }

    /// Whether `id` names a live entity.
    pub open spec fn is_live(&self, id: ActorId) -> bool {
        self.live().contains(id)
    }

    /// The name entry of a live entity.
    pub closed spec fn spec_name(&self, id: ActorId) -> Option<String> {
        self.names@[id]
    }

    /// The placement entry of a live entity.
    pub closed spec fn spec_transform(&self, id: ActorId) -> Option<Transform> {
        self.transforms@[id]
    }

    /// The collision-shape entry of a live entity.
    pub closed spec fn spec_collider(&self, id: ActorId) -> Option<Collider> {
        self.colliders@[id]
    }

    /// The physics-placeholder entry of a live entity.
    pub closed spec fn spec_physics(&self, id: ActorId) -> Option<Physics> {
        self.physics@[id]
    }

    /// The render-bitmap entry of a live entity.
    pub closed spec fn spec_render(&self, id: ActorId) -> Option<ColorMatrix> {
        self.renders@[id]
    }

    /// The collision-matrix row for a mask id.
    pub closed spec fn spec_collision_row(&self, mask_id: int) -> CollisionMaskRow {
        self.collision_matrix@[mask_id]
    }

    /// Internal invariant: the id list is strictly ascending (so ids are
    /// unique), every component map is keyed by exactly the live ids, and
    /// the collision matrix has one row per mask bucket.
    pub closed spec fn wf(&self) -> bool {
        &&& forall|i: int, j: int|
            0 <= i < j < self.all_actors@.len() ==> self.all_actors@[i] < self.all_actors@[j]
        &&& forall|id: ActorId|
            #[trigger] self.names@.dom().contains(id) <==> self.all_actors@.contains(id)
        &&& forall|id: ActorId|
            #[trigger] self.transforms@.dom().contains(id) <==> self.all_actors@.contains(id)
        &&& forall|id: ActorId|
            #[trigger] self.colliders@.dom().contains(id) <==> self.all_actors@.contains(id)
        &&& forall|id: ActorId|
            #[trigger] self.physics@.dom().contains(id) <==> self.all_actors@.contains(id)
        &&& forall|id: ActorId|
            #[trigger] self.renders@.dom().contains(id) <==> self.all_actors@.contains(id)
        &&& self.collision_matrix@.len() == crate::collider::MASK_BUCKETS as int
    }

    /// A strictly ascending id list sits at or above its index.
    proof fn lemma_sorted_at_least_index(&self, i: int)
        requires
            self.wf(),
            0 <= i < self.live().len(),
        ensures
            self.live()[i] >= i,
        decreases i,
    {
        if i > 0 {
            self.lemma_sorted_at_least_index(i - 1);
        }
    }

    /// The live id list is strictly ascending, so ids are unique.
    pub proof fn lemma_live_sorted(&self)
        requires
            self.wf(),
        ensures
            forall|i: int, j: int|
                0 <= i < j < self.live().len() ==> self.live()[i] < self.live()[j],
    {
    }

    /// In a strictly ascending dense prefix, an id above its slot is free.
    proof fn lemma_gap_is_free(&self, i: int)
        requires
            self.wf(),
            0 <= i <= self.live().len(),
            forall|j: int| 0 <= j < i ==> self.live()[j] == j,
            i < self.live().len() ==> self.live()[i] > i,
            i <= u16::MAX as int,
        ensures
            !self.is_live(i as ActorId),
            forall|k: ActorId| k < i ==> self.is_live(k),
    {
        let s = self.live();
        assert forall|k: ActorId| k < i implies self.is_live(k) by {
            assert(s[k as int] == k as int);
        }
        if self.is_live(i as ActorId) {
            let m = choose|m: int| 0 <= m < s.len() && s[m] == i;
            if m < i {
                assert(s[m] == m);
            } else if m == i {
            } else {
                assert(s[i] < s[m]);
            }
        }
    }

    /// An empty store: no entities, and a collision matrix whose every row
    /// permits every bucket.
    pub fn new() -> (r: World)
        ensures
            r.wf(),
            r.live().len() == 0,
            forall|m: int|
                0 <= m < crate::collider::MASK_BUCKETS as int ==> r.spec_collision_row(m) == 0xFFu8,
    {
        let mut matrix: Vec<u8> = Vec::new();
        let mut i: usize = 0;
        while i < 8
            invariant
                i == matrix@.len() <= 8,
                forall|j: int| 0 <= j < i ==> matrix@[j] == 0xFFu8,
            decreases 8 - i,
        {
            matrix.push(0xFF);
            i = i + 1;
        }
        let r = World {
            all_actors: Vec::new(),
            names: HashMap::new(),
            transforms: HashMap::new(),
            colliders: HashMap::new(),
            physics: HashMap::new(),
            renders: HashMap::new(),
            collision_matrix: matrix,
        };
        proof {
            assert(forall|id: ActorId| !r.all_actors@.contains(id));
        }
        r
    }

    /// The live entity ids, in ascending order.
    pub fn get_all_actors(&self) -> (r: &Vec<ActorId>)
        ensures
            r@ == self.live(),
    {
        &self.all_actors
    }

    /// The collision-matrix row of a mask bucket.
    pub fn get_collision_matrix(&self, mask_id: u8) -> (r: CollisionMaskRow)
        requires
            self.wf(),
            mask_id < crate::collider::MASK_BUCKETS,
        ensures
            r == self.spec_collision_row(mask_id as int),
    {
        self.collision_matrix[mask_id as usize]
    }

    /// Replaces the collision-matrix row of a mask bucket.
    pub fn set_collision_matrix(&mut self, mask_id: u8, row: CollisionMaskRow)
        requires
            old(self).wf(),
            mask_id < crate::collider::MASK_BUCKETS,
        ensures
            final(self).wf(),
            final(self).spec_collision_row(mask_id as int) == row,
            forall|m: int|
                0 <= m < crate::collider::MASK_BUCKETS as int && m != mask_id as int
                    ==> #[trigger] final(self).spec_collision_row(m)
                    == old(self).spec_collision_row(m),
            final(self).live() == old(self).live(),
            forall|k: ActorId|
                old(self).is_live(k)
                    ==> #[trigger] final(self).spec_name(k) == old(self).spec_name(k)
                    && final(self).spec_transform(k) == old(self).spec_transform(k)
                    && final(self).spec_collider(k) == old(self).spec_collider(k)
                    && final(self).spec_physics(k) == old(self).spec_physics(k)
                    && final(self).spec_render(k) == old(self).spec_render(k),
    {
        self.collision_matrix[mask_id as usize] = row;
    }

    /// The name of a live entity, if it has one.
    pub fn get_name(&self, actor_id: &ActorId) -> (r: Option<&String>)
        requires
            self.wf(),
            self.is_live(*actor_id),
        ensures
            r is Some <==> self.spec_name(*actor_id) is Some,
            r is Some ==> *r->0 == self.spec_name(*actor_id)->0,
    {
        match self.names.get(actor_id) {
            Some(entry) => entry.as_ref(),
            None => None,
        }
    }

    /// The placement of a live entity, if it has one.
    pub fn get_transform(&self, actor_id: &ActorId) -> (r: Option<&Transform>)
        requires
            self.wf(),
            self.is_live(*actor_id),
        ensures
            r is Some <==> self.spec_transform(*actor_id) is Some,
            r is Some ==> *r->0 == self.spec_transform(*actor_id)->0,
    {
        match self.transforms.get(actor_id) {
            Some(entry) => entry.as_ref(),
            None => None,
        }
    }

    /// The collision shape of a live entity, if it has one.
    pub fn get_collider(&self, actor_id: &ActorId) -> (r: Option<&Collider>)
        requires
            self.wf(),
            self.is_live(*actor_id),
        ensures
            r is Some <==> self.spec_collider(*actor_id) is Some,
            r is Some ==> *r->0 == self.spec_collider(*actor_id)->0,
    {
        match self.colliders.get(actor_id) {
            Some(entry) => entry.as_ref(),
            None => None,
        }
    }

    /// The physics placeholder of a live entity, if it has one.
    pub fn get_physics(&self, actor_id: &ActorId) -> (r: Option<&Physics>)
        requires
            self.wf(),
            self.is_live(*actor_id),
        ensures
            r is Some <==> self.spec_physics(*actor_id) is Some,
            r is Some ==> *r->0 == self.spec_physics(*actor_id)->0,
    {
        match self.physics.get(actor_id) {
            Some(entry) => entry.as_ref(),
            None => None,
        }
    }

    /// The smallest id not currently in use, or `None` when every
    /// representable id is live.
    fn get_free_id(&self) -> (r: Option<ActorId>)
        requires
            self.wf(),
        ensures
            r is Some ==> !self.is_live(r->0),
            r is Some ==> forall|k: ActorId| k < r->0 ==> self.is_live(k),
            r is Some ==> r->0 as int <= self.live().len(),
            r is Some ==> forall|j: int| 0 <= j < r->0 as int ==> self.live()[j] == j,
            r is None ==> forall|k: ActorId| self.is_live(k),
    {
        let n: usize = self.all_actors.len();
        let mut i: usize = 0;
        while i < n
            invariant
                self.wf(),
                0 <= i <= n == self.live().len(),
                forall|j: int| 0 <= j < i ==> self.live()[j] == j,
            decreases n - i,
        {
            proof {
                self.lemma_sorted_at_least_index(i as int);
            }
            if self.all_actors[i] != i as u16 {
                proof {
                    self.lemma_gap_is_free(i as int);
                }
                return Some(i as u16);
            }
            i = i + 1;
        }
        if n <= u16::MAX as usize {
            proof {
                self.lemma_gap_is_free(n as int);
            }
            Some(n as u16)
        } else {
            proof {
                assert forall|k: ActorId| self.is_live(k) by {
                    assert(self.live()[k as int] == k);
                }
            }
            None
        }
    }

    /// Spawns a new entity with the given optional components, under the
    /// smallest id not in use by any live entity; returns `None`, changing
    /// nothing, only when every representable id is live.
    pub fn add_new_actor(
        &mut self,
        name: Option<String>,
        transform: Option<Transform>,
        collider: Option<Collider>,
        physics: Option<Physics>,
        render: Option<ColorMatrix>,
    ) -> (r: Option<ActorId>)
        requires
            old(self).wf(),
        ensures
            final(self).wf(),
            r is None ==> *final(self) == *old(self) && forall|k: ActorId| old(self).is_live(k),
            r is Some ==> !old(self).is_live(r->0),
            r is Some ==> forall|k: ActorId| k < r->0 ==> old(self).is_live(k),
            r is Some ==> forall|k: ActorId|
                #[trigger] final(self).is_live(k) <==> (old(self).is_live(k) || k == r->0),
            r is Some ==> final(self).spec_name(r->0) == name && final(self).spec_transform(r->0)
                == transform && final(self).spec_collider(r->0) == collider && final(self).spec_physics(r->0) == physics && final(self).spec_render(r->0) == render,
            r is Some ==> forall|k: ActorId|
                k != r->0 && old(self).is_live(k) ==> #[trigger] final(self).spec_name(k) == old(self).spec_name(k) && final(self).spec_transform(k) == old(self).spec_transform(k)
                    && final(self).spec_collider(k) == old(self).spec_collider(k)
                    && final(self).spec_physics(k) == old(self).spec_physics(k)
                    && final(self).spec_render(k) == old(self).spec_render(k),
            forall|m: int|
                0 <= m < crate::collider::MASK_BUCKETS as int
                    ==> #[trigger] final(self).spec_collision_row(m)
                    == old(self).spec_collision_row(m),
    {
        let id_opt = self.get_free_id();
        let new_actor_id: ActorId = match id_opt {
            Some(id) => id,
            None => {
                return None;
            },
        };
        let ghost pre = *self;
        self.all_actors.insert(new_actor_id as usize, new_actor_id);
        self.names.insert(new_actor_id, name);
        self.transforms.insert(new_actor_id, transform);
        self.colliders.insert(new_actor_id, collider);
        self.physics.insert(new_actor_id, physics);
        self.renders.insert(new_actor_id, render);
        proof {
            let s0 = pre.live();
            let s1 = self.live();
            let idp = new_actor_id as int;
            assert(s1 == s0.insert(idp, new_actor_id));
            assert forall|i: int, j: int| 0 <= i < j < s1.len() implies s1[i] < s1[j] by {
                if j < idp {
                } else if i < idp && j == idp {
                    assert(s1[i] == s0[i] == i);
                } else if i < idp && j > idp {
                    assert(s1[i] == s0[i] == i);
                    assert(s1[j] == s0[j - 1]);
                    pre.lemma_sorted_at_least_index(j - 1);
                } else if i == idp {
                    assert(s1[j] == s0[j - 1]);
                    pre.lemma_sorted_at_least_index(j - 1);
                    if j - 1 == idp {
                        if s0[idp] == new_actor_id {
                            assert(s0.contains(new_actor_id));
                        }
                    }
                } else {
                    assert(s1[i] == s0[i - 1] && s1[j] == s0[j - 1]);
                }
            }
            assert forall|k: ActorId| #[trigger] s1.contains(k) <==> (s0.contains(k) || k
                == new_actor_id) by {
                if s1.contains(k) {
                    let m = choose|m: int| 0 <= m < s1.len() && s1[m] == k;
                    if m < idp {
                        assert(s0[m] == k);
                        assert(s0.contains(k));
                    } else if m == idp {
                    } else {
                        assert(s1[m] == s0[m - 1]);
                        assert(s0.contains(k));
                    }
                }
                if s0.contains(k) {
                    let m = choose|m: int| 0 <= m < s0.len() && s0[m] == k;
                    if m < idp {
                        assert(s1[m] == k);
                    } else {
                        assert(s1[m + 1] == k);
                    }
                    assert(s1.contains(k));
                }
                if k == new_actor_id {
                    assert(s1[idp] == k);
                    assert(s1.contains(k));
                }
            }
        }
        Some(new_actor_id)
    }

    /// Despawns an entity, deleting all its component entries; the id is
    /// immediately eligible for reuse. Removing an id that is not live
    /// changes nothing.
    pub fn remove_actor(&mut self, actor_id: &ActorId)
        requires
            old(self).wf(),
        ensures
            final(self).wf(),
            !final(self).is_live(*actor_id),
            forall|k: ActorId|
                k != *actor_id ==> #[trigger] final(self).is_live(k) == old(self).is_live(k),
            forall|k: ActorId|
                k != *actor_id && old(self).is_live(k) ==> #[trigger] final(self).spec_name(k)
                    == old(self).spec_name(k) && final(self).spec_transform(k) == old(self).spec_transform(k) && final(self).spec_collider(k) == old(self).spec_collider(k)
                    && final(self).spec_physics(k) == old(self).spec_physics(k)
                    && final(self).spec_render(k) == old(self).spec_render(k),
            forall|m: int|
                0 <= m < crate::collider::MASK_BUCKETS as int
                    ==> #[trigger] final(self).spec_collision_row(m)
                    == old(self).spec_collision_row(m),
    {
        let n: usize = self.all_actors.len();
        let mut i: usize = 0;
        let mut found: bool = false;
        let mut pos: usize = 0;
        while i < n
            invariant
                0 <= i <= n == self.live().len(),
                found ==> pos < n && self.live()[pos as int] == *actor_id,
                !found ==> forall|j: int| 0 <= j < i ==> self.live()[j] != *actor_id,
            decreases n - i,
        {
            if self.all_actors[i] == *actor_id {
                found = true;
                pos = i;
                i = n;
            } else {
                i = i + 1;
            }
        }
        if found {
            let ghost pre = *self;
            self.all_actors.remove(pos);
            self.names.remove(actor_id);
            self.transforms.remove(actor_id);
            self.colliders.remove(actor_id);
            self.physics.remove(actor_id);
            self.renders.remove(actor_id);
            proof {
                let s0 = pre.live();
                let s1 = self.live();
                let p = pos as int;
                assert(s1 == s0.remove(p));
                assert forall|i2: int, j2: int| 0 <= i2 < j2 < s1.len() implies s1[i2] < s1[j2] by {
                    if j2 < p {
                    } else if i2 < p {
                        assert(s1[i2] == s0[i2] && s1[j2] == s0[j2 + 1]);
                    } else {
                        assert(s1[i2] == s0[i2 + 1] && s1[j2] == s0[j2 + 1]);
                    }
                }
                assert forall|k: ActorId| k != *actor_id implies #[trigger] s1.contains(k) == s0
                    .contains(k) by {
                    if s1.contains(k) {
                        let m = choose|m: int| 0 <= m < s1.len() && s1[m] == k;
                        if m < p {
                            assert(s0[m] == k);
                        } else {
                            assert(s0[m + 1] == k);
                        }
                        assert(s0.contains(k));
                    }
                    if s0.contains(k) {
                        let m = choose|m: int| 0 <= m < s0.len() && s0[m] == k;
                        if m < p {
                            assert(s1[m] == k);
                        } else if m == p {
                            assert(s0[p] == *actor_id);
                        } else {
                            assert(s1[m - 1] == k);
                        }
                        assert(s1.contains(k));
                    }
                }
                if s1.contains(*actor_id) {
                    let m = choose|m: int| 0 <= m < s1.len() && s1[m] == *actor_id;
                    if m < p {
                        assert(s0[m] == *actor_id && s0[p] == *actor_id);
                    } else {
                        assert(s0[m + 1] == *actor_id && s0[p] == *actor_id);
                    }
                }
            }
        } else {
            proof {
                if self.is_live(*actor_id) {
                    let m = choose|m: int|
                        0 <= m < self.live().len() && self.live()[m] == *actor_id;
                    assert(self.live()[m] != *actor_id);
                }
            }
        }
    }

    /// Despawns every entity and deletes every component entry; the
    /// collision matrix is kept.
    pub fn clear_all(&mut self)
        requires
            old(self).wf(),
        ensures
            final(self).wf(),
            final(self).live().len() == 0,
            forall|m: int|
                0 <= m < crate::collider::MASK_BUCKETS as int
                    ==> #[trigger] final(self).spec_collision_row(m)
                    == old(self).spec_collision_row(m),
    {
        self.all_actors.clear();
        self.names.clear();
        self.transforms.clear();
        self.colliders.clear();
        self.physics.clear();
        self.renders.clear();
        proof {
            assert(forall|id: ActorId| !self.all_actors@.contains(id));
        }
    }

    /// Replaces the name entry of a live entity.
    pub fn set_name(&mut self, actor_id: &ActorId, name: Option<String>)
        requires
            old(self).wf(),
            old(self).is_live(*actor_id),
        ensures
            final(self).wf(),
            final(self).live() == old(self).live(),
            final(self).spec_name(*actor_id) == name,
            forall|k: ActorId|
                k != *actor_id && old(self).is_live(k) ==> #[trigger] final(self).spec_name(k)
                    == old(self).spec_name(k),
            forall|k: ActorId|
                old(self).is_live(k) ==> #[trigger] final(self).spec_transform(k) == old(self).spec_transform(k) && final(self).spec_collider(k) == old(self).spec_collider(k)
                    && final(self).spec_physics(k) == old(self).spec_physics(k)
                    && final(self).spec_render(k) == old(self).spec_render(k),
            forall|m: int|
                0 <= m < crate::collider::MASK_BUCKETS as int
                    ==> #[trigger] final(self).spec_collision_row(m)
                    == old(self).spec_collision_row(m),
    {
        self.names.insert(*actor_id, name);
    }

    /// Replaces the placement entry of a live entity.
    pub fn set_transform(&mut self, actor_id: &ActorId, transform: Option<Transform>)
        requires
            old(self).wf(),
            old(self).is_live(*actor_id),
        ensures
            final(self).wf(),
            final(self).live() == old(self).live(),
            final(self).spec_transform(*actor_id) == transform,
            forall|k: ActorId|
                k != *actor_id && old(self).is_live(k) ==> #[trigger] final(self).spec_transform(k)
                    == old(self).spec_transform(k),
            forall|k: ActorId|
                old(self).is_live(k) ==> #[trigger] final(self).spec_name(k) == old(self).spec_name(k) && final(self).spec_collider(k) == old(self).spec_collider(k)
                    && final(self).spec_physics(k) == old(self).spec_physics(k)
                    && final(self).spec_render(k) == old(self).spec_render(k),
            forall|m: int|
                0 <= m < crate::collider::MASK_BUCKETS as int
                    ==> #[trigger] final(self).spec_collision_row(m)
                    == old(self).spec_collision_row(m),
    {
        self.transforms.insert(*actor_id, transform);
    }

    /// Replaces the collision-shape entry of a live entity.
    pub fn set_collider(&mut self, actor_id: &ActorId, collider: Option<Collider>)
        requires
            old(self).wf(),
            old(self).is_live(*actor_id),
        ensures
            final(self).wf(),
            final(self).live() == old(self).live(),
            final(self).spec_collider(*actor_id) == collider,
            forall|k: ActorId|
                k != *actor_id && old(self).is_live(k) ==> #[trigger] final(self).spec_collider(k)
                    == old(self).spec_collider(k),
            forall|k: ActorId|
                old(self).is_live(k) ==> #[trigger] final(self).spec_name(k) == old(self).spec_name(k) && final(self).spec_transform(k) == old(self).spec_transform(k)
                    && final(self).spec_physics(k) == old(self).spec_physics(k)
                    && final(self).spec_render(k) == old(self).spec_render(k),
            forall|m: int|
                0 <= m < crate::collider::MASK_BUCKETS as int
                    ==> #[trigger] final(self).spec_collision_row(m)
                    == old(self).spec_collision_row(m),
    {
        self.colliders.insert(*actor_id, collider);
    }

    /// Replaces the physics-placeholder entry of a live entity.
    pub fn set_physics(&mut self, actor_id: &ActorId, physics: Option<Physics>)
        requires
            old(self).wf(),
            old(self).is_live(*actor_id),
        ensures
            final(self).wf(),
            final(self).live() == old(self).live(),
            final(self).spec_physics(*actor_id) == physics,
            forall|k: ActorId|
                k != *actor_id && old(self).is_live(k) ==> #[trigger] final(self).spec_physics(k)
                    == old(self).spec_physics(k),
            forall|k: ActorId|
                old(self).is_live(k) ==> #[trigger] final(self).spec_name(k) == old(self).spec_name(k) && final(self).spec_transform(k) == old(self).spec_transform(k)
                    && final(self).spec_collider(k) == old(self).spec_collider(k)
                    && final(self).spec_render(k) == old(self).spec_render(k),
            forall|m: int|
                0 <= m < crate::collider::MASK_BUCKETS as int
                    ==> #[trigger] final(self).spec_collision_row(m)
                    == old(self).spec_collision_row(m),
    {
        self.physics.insert(*actor_id, physics);
    }

    /// Replaces the render-bitmap entry of a live entity.
    pub fn set_render(&mut self, actor_id: &ActorId, render: Option<ColorMatrix>)
        requires
            old(self).wf(),
            old(self).is_live(*actor_id),
        ensures
            final(self).wf(),
            final(self).live() == old(self).live(),
            final(self).spec_render(*actor_id) == render,
            forall|k: ActorId|
                k != *actor_id && old(self).is_live(k) ==> #[trigger] final(self).spec_render(k)
                    == old(self).spec_render(k),
            forall|k: ActorId|
                old(self).is_live(k) ==> #[trigger] final(self).spec_name(k) == old(self).spec_name(k) && final(self).spec_transform(k) == old(self).spec_transform(k)
                    && final(self).spec_collider(k) == old(self).spec_collider(k)
                    && final(self).spec_physics(k) == old(self).spec_physics(k),
            forall|m: int|
                0 <= m < crate::collider::MASK_BUCKETS as int
                    ==> #[trigger] final(self).spec_collision_row(m)
                    == old(self).spec_collision_row(m),
    {
        self.renders.insert(*actor_id, render);
    }

    /// The render bitmap of a live entity, if it has one.
    pub fn get_render(&self, actor_id: &ActorId) -> (r: Option<&ColorMatrix>)
        requires
            self.wf(),
            self.is_live(*actor_id),
        ensures
            r is Some <==> self.spec_render(*actor_id) is Some,
            r is Some ==> *r->0 == self.spec_render(*actor_id)->0,
    {
        match self.renders.get(actor_id) {
            Some(entry) => entry.as_ref(),
            None => None,
        }
    }
}

} // verus!
