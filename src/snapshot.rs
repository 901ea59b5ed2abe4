//! Per-entity collider records and the per-tick snapshot of world boxes.
use vstd::prelude::*;
use crate::geometry::{AABB, Transform, world_aabb, projection_fits, projected};
use crate::tag::CollisionTag;

verus! {

/// An opaque handle to an entity: a slot index and the generation of the
/// slot, so that a handle to a deleted entity is told apart from its successor.
#[derive(Clone, Copy, Debug, PartialEq, Eq, Structural)]
pub struct EntityId {
    pub index: u32,
    pub generation: u32,
}

/// One line of the snapshot: an entity, its world box and its tag.
#[derive(Clone, Copy, Debug, PartialEq, Eq, Structural)]
pub struct AabbEntry {
    pub id: EntityId,
    pub aabb: AABB,
    pub tag: CollisionTag,
}

/// An entity as the collision pass sees it: its transform, its local box,
/// the world box last projected from them (absent when the projection did
/// not fit the coordinate type) and its collision tag (absent for an entity
/// that has stopped colliding).
#[derive(Clone, Copy, Debug, PartialEq, Eq, Structural)]
pub struct Body {
    pub id: EntityId,
    pub transform: Transform,
    pub local: AABB,
    pub global: Option<AABB>,
    pub tag: Option<CollisionTag>,
}

/// A collidable entity whose world box starts out as its local box.
pub fn aabb_bundle(id: EntityId, transform: Transform, aabb: AABB, tag: CollisionTag) -> (r: Body)
    ensures
        r == (Body { id, transform, local: aabb, global: Some(aabb), tag: Some(tag) }),
{
    Body { id, transform, local: aabb, global: Some(aabb), tag: Some(tag) }
}

/// The world box of a body's local box under its transform.
pub open spec fn world_box(b: Body) -> Option<AABB> {
    if projection_fits(b.local, b.transform) {
        Some(projected(b.local, b.transform))
    } else {
        None
    }
}

/// `b` with its world box recomputed for this tick.
pub open spec fn refreshed(b: Body) -> Body {
    Body { global: world_box(b), ..b }
}

/// Recomputes every body's world box from its local box and transform.
pub fn update_aabbs_system(bodies: &mut Vec<Body>)
    ensures
        final(bodies)@.len() == old(bodies)@.len(),
        forall|i: int|
            0 <= i < old(bodies)@.len() ==> #[trigger] final(bodies)@[i] == refreshed(old(bodies)@[i]),
{
    let ghost orig = bodies@;
    let n = bodies.len();
    let mut i: usize = 0;
    while i < n
        invariant
            n == orig.len(),
            bodies@.len() == n,
            0 <= i <= n,
            forall|k: int| 0 <= k < i ==> #[trigger] bodies@[k] == refreshed(orig[k]),
            forall|k: int| i <= k < n ==> #[trigger] bodies@[k] == orig[k],
        decreases n - i,
    {
        let b = bodies[i];
        let global = world_aabb(&b.local, &b.transform);
        bodies[i] = Body { global, ..b };
        i += 1;
    }
}

/// The snapshot line of a body that has both a world box and a tag.
pub open spec fn entry_of(b: Body) -> Option<AabbEntry> {
    match (b.global, b.tag) {
        (Some(aabb), Some(tag)) => Some(AabbEntry { id: b.id, aabb, tag }),
        _ => None,
    }
}

/// The snapshot of the first `k` bodies, in their order.
pub open spec fn snapshot_of(bodies: Seq<Body>, k: int) -> Seq<AabbEntry>
    decreases k,
{
    if k <= 0 {
        Seq::empty()
    } else {
        let prev = snapshot_of(bodies, k - 1);
        match entry_of(bodies[k - 1]) {
            Some(e) => prev.push(e),
            None => prev,
        }
    }
}

pub proof fn lemma_snapshot_len(bodies: Seq<Body>, k: int)
    ensures
        snapshot_of(bodies, k).len() <= if k < 0 { 0 } else { k },
    decreases k,
{
    if k > 0 {
        lemma_snapshot_len(bodies, k - 1);
    }
}

/// Clears the buffer and fills it with the snapshot line of every body that
/// carries both a world box and a tag.
pub fn collect_aabbs_system(buffer: &mut Vec<AabbEntry>, bodies: &Vec<Body>)
    ensures
        final(buffer)@ == snapshot_of(bodies@, bodies@.len() as int),
{
    buffer.clear();
    let n = bodies.len();
    let mut i: usize = 0;
    while i < n
        invariant
            n == bodies@.len(),
            0 <= i <= n,
            buffer@ == snapshot_of(bodies@, i as int),
        decreases n - i,
    {
        let b = bodies[i];
        match (b.global, b.tag) {
            (Some(aabb), Some(tag)) => buffer.push(AabbEntry { id: b.id, aabb, tag }),
            _ => {},
        }
        i += 1;
    }
}

} // verus!
