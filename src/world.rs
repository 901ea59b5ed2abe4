//! The per-tick pipeline: projection, snapshot, sort, sweep and the choice
//! of the next sweep axis, over state held in an explicit context.
use vstd::prelude::*;
use crate::geometry::Axis;
use crate::snapshot::{
    AabbEntry,
    Body,
    collect_aabbs_system,
    lemma_snapshot_len,
    refreshed,
    snapshot_of,
    update_aabbs_system,
};
use crate::sort::sort_by_axis;
use crate::sweep::{
    CollisionEvent,
    MAX_BODIES,
    brute_force_events,
    next_axis,
    select_axis,
    sorted_by,
    stats_of,
    sweep,
};

verus! {

/// The events of one tick, valid until the next tick rebuilds them.
pub struct Collisions(pub Vec<CollisionEvent>);

impl Default for Collisions {
    fn default() -> (r: Collisions)
        ensures
            r.0@.len() == 0,
    {
        Collisions(Vec::new())
    }
}

/// Sorts the snapshot along the current axis, sweeps it for interacting
/// pairs into a cleared event log, and picks the axis for the next tick.
pub fn sort_sweep_system(buffer: &mut Vec<AabbEntry>, axis: &mut Axis, collisions: &mut Collisions)
    requires
        old(buffer)@.len() <= MAX_BODIES,
    ensures
        final(buffer)@.to_multiset() == old(buffer)@.to_multiset(),
        final(buffer)@.len() == old(buffer)@.len(),
        sorted_by(final(buffer)@, *old(axis)),
        final(collisions).0@ == brute_force_events(final(buffer)@),
        *final(axis) == next_axis(
            stats_of(final(buffer)@, final(buffer)@.len() as int),
            *old(axis),
        ),
{
    collisions.0.clear();
    let sort_axis = *axis;
    sort_by_axis(buffer, sort_axis);
    let stats = sweep(buffer, sort_axis, &mut collisions.0);
    *axis = select_axis(&stats, sort_axis);
}

/// Installs the collision pass: hands out its state in the initial form.
pub struct CollisionPlugin;

impl CollisionPlugin {
    /// An empty snapshot buffer, the X axis and an empty event log.
    pub fn build(self) -> (r: CollisionWorld)
        ensures
            r.buffer@.len() == 0,
            r.axis == Axis::X,
            r.collisions.0@.len() == 0,
    {
        CollisionWorld { buffer: Vec::new(), axis: Axis::X, collisions: Collisions(Vec::new()) }
    }
}

/// The state that persists from tick to tick: the reusable snapshot buffer,
/// the sweep axis and the event log of the last tick.
pub struct CollisionWorld {
    pub buffer: Vec<AabbEntry>,
    pub axis: Axis,
    pub collisions: Collisions,
}

impl CollisionWorld {
    /// Runs one tick over `bodies`: refreshes their world boxes, takes the
    /// snapshot, sorts it along the current axis, sweeps it into the event
    /// log and moves to the axis chosen for the next tick.
    pub fn tick(&mut self, bodies: &mut Vec<Body>)
        requires
            old(bodies)@.len() <= MAX_BODIES,
        ensures
            final(bodies)@.len() == old(bodies)@.len(),
            forall|i: int|
                0 <= i < old(bodies)@.len() ==> #[trigger] final(bodies)@[i] == refreshed(
                    old(bodies)@[i],
                ),
            final(self).buffer@.to_multiset() == snapshot_of(
                final(bodies)@,
                final(bodies)@.len() as int,
            ).to_multiset(),
            final(self).buffer@.len() == snapshot_of(
                final(bodies)@,
                final(bodies)@.len() as int,
            ).len(),
            sorted_by(final(self).buffer@, old(self).axis),
            final(self).collisions.0@ == brute_force_events(final(self).buffer@),
            final(self).axis == next_axis(
                stats_of(final(self).buffer@, final(self).buffer@.len() as int),
                old(self).axis,
            ),
    {
        update_aabbs_system(bodies);
        collect_aabbs_system(&mut self.buffer, bodies);
        proof {
            lemma_snapshot_len(bodies@, bodies@.len() as int);
        }
        sort_sweep_system(&mut self.buffer, &mut self.axis, &mut self.collisions);
    }

    /// The events of the last tick.
    pub fn events(&self) -> (r: &Vec<CollisionEvent>)
        ensures
            r@ == self.collisions.0@,
    {
        &self.collisions.0
    }

    /// The axis that the next tick sorts along.
    pub fn axis(&self) -> (r: Axis)
        ensures
            r == self.axis,
    {
        self.axis
    }
}

} // verus!
