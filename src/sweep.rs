//! The sort-and-sweep pass over a snapshot sorted along one axis, and the
//! statistics of box centres gathered in the same pass.
use vstd::prelude::*;
use crate::geometry::{Axis, AABB, coord, overlaps, test_aabb_aabb};
use crate::snapshot::{AabbEntry, EntityId};
use crate::tag::{CollisionTag, lemma_permits_symmetric, permits, tags_permit};

verus! {

/// One detected pair: both entities and their tags, the first being the one
/// that came first in sort order.
#[derive(Clone, Copy, Debug, PartialEq, Eq, Structural)]
pub struct CollisionEvent {
    pub entity_1: EntityId,
    pub tag1: CollisionTag,
    pub entity_2: EntityId,
    pub tag2: CollisionTag,
}

/// The largest snapshot whose centre statistics are held exactly: with at
/// most this many boxes, `count * sum_sq` and `sum * sum` fit an `i128`.
pub const MAX_BODIES: usize = 0x8000_0000;

/// A pair is reported when the layers permit it and the boxes overlap.
pub open spec fn interacts(a: AabbEntry, b: AabbEntry) -> bool {
    permits(a.tag, b.tag) && overlaps(a.aabb, b.aabb)
}

pub open spec fn event_of(a: AabbEntry, b: AabbEntry) -> CollisionEvent {
    CollisionEvent { entity_1: a.id, tag1: a.tag, entity_2: b.id, tag2: b.tag }
}

/// Every entry's `min` along `axis` is at most that of every later entry.
pub open spec fn sorted_by(s: Seq<AabbEntry>, axis: Axis) -> bool {
    forall|i: int, j: int|
        0 <= i < j < s.len() ==> coord(#[trigger] s[i].aabb.min, axis) <= coord(
            #[trigger] s[j].aabb.min,
            axis,
        )
}

/// The events of entry `i` with the partners at `j` and after, tested one by
/// one with no early stop.
pub open spec fn pair_row(s: Seq<AabbEntry>, i: int, j: int) -> Seq<CollisionEvent>
    decreases s.len() - j,
{
    if j < 0 || j >= s.len() {
        Seq::empty()
    } else {
        let rest = pair_row(s, i, j + 1);
        if interacts(s[i], s[j]) {
            seq![event_of(s[i], s[j])] + rest
        } else {
            rest
        }
    }
}

/// The brute-force enumeration of all pairs `(i, j)` with `i < j`, starting
/// from entry `i`, in the order `(0, 1), (0, 2), ..., (1, 2), ...`.
pub open spec fn all_pairs(s: Seq<AabbEntry>, i: int) -> Seq<CollisionEvent>
    decreases s.len() - i,
{
    if i < 0 || i >= s.len() {
        Seq::empty()
    } else {
        pair_row(s, i, i + 1) + all_pairs(s, i + 1)
    }
}

/// What the brute-force test over every pair reports for `s`.
pub open spec fn brute_force_events(s: Seq<AabbEntry>) -> Seq<CollisionEvent> {
    all_pairs(s, 0)
}

/// The row of entry `i` as the sweep computes it: it stops at the first
/// partner whose `min` along `axis` lies beyond `i`'s `max`.
pub open spec fn swept_row(s: Seq<AabbEntry>, axis: Axis, i: int, j: int) -> Seq<CollisionEvent>
    decreases s.len() - j,
{
    if j < 0 || j >= s.len() || coord(s[j].aabb.min, axis) > coord(s[i].aabb.max, axis) {
        Seq::empty()
    } else {
        let rest = swept_row(s, axis, i, j + 1);
        if interacts(s[i], s[j]) {
            seq![event_of(s[i], s[j])] + rest
        } else {
            rest
        }
    }
}

/// All rows as the sweep with its early stop computes them.
pub open spec fn swept_pairs(s: Seq<AabbEntry>, axis: Axis, i: int) -> Seq<CollisionEvent>
    decreases s.len() - i,
{
    if i < 0 || i >= s.len() {
        Seq::empty()
    } else {
        swept_row(s, axis, i, i + 1) + swept_pairs(s, axis, i + 1)
    }
}

/// Past a partner that starts beyond entry `i`'s end along the sorted axis,
/// no partner can interact with `i`.
proof fn lemma_row_empty_from(s: Seq<AabbEntry>, axis: Axis, i: int, j: int, k: int)
    requires
        sorted_by(s, axis),
        0 <= i < j,
        j <= k,
        j < s.len(),
        coord(s[j].aabb.min, axis) > coord(s[i].aabb.max, axis),
    ensures
        pair_row(s, i, k) == Seq::<CollisionEvent>::empty(),
    decreases s.len() - k,
{
    if k < s.len() {
        assert(coord(s[j].aabb.min, axis) <= coord(s[k].aabb.min, axis) || j == k);
        assert(!interacts(s[i], s[k]));
        lemma_row_empty_from(s, axis, i, j, k + 1);
    }
}

proof fn lemma_swept_row(s: Seq<AabbEntry>, axis: Axis, i: int, j: int)
    requires
        sorted_by(s, axis),
        0 <= i < j,
    ensures
        swept_row(s, axis, i, j) == pair_row(s, i, j),
    decreases s.len() - j,
{
    if j < s.len() {
        if coord(s[j].aabb.min, axis) > coord(s[i].aabb.max, axis) {
            lemma_row_empty_from(s, axis, i, j, j);
        } else {
            lemma_swept_row(s, axis, i, j + 1);
        }
    }
}

proof fn lemma_swept_pairs(s: Seq<AabbEntry>, axis: Axis, i: int)
    requires
        sorted_by(s, axis),
        0 <= i,
    ensures
        swept_pairs(s, axis, i) == all_pairs(s, i),
    decreases s.len() - i,
{
    if i < s.len() {
        lemma_swept_row(s, axis, i, i + 1);
        lemma_swept_pairs(s, axis, i + 1);
    }
}

/// On a sequence sorted along `axis`, stopping each row at the first partner
/// that starts beyond the current box's end reports exactly the events of the
/// brute-force test over every pair: the early stop only saves work.
pub proof fn lemma_early_stop_sound(s: Seq<AabbEntry>, axis: Axis)
    requires
        sorted_by(s, axis),
    ensures
        swept_pairs(s, axis, 0) == brute_force_events(s),
{
    lemma_swept_pairs(s, axis, 0);
}

/// Whether a pair is reported does not depend on which of the two comes
/// first, although each direction of the layer test alone does.
pub proof fn lemma_interacts_symmetric(a: AabbEntry, b: AabbEntry)
    ensures
        interacts(a, b) == interacts(b, a),
{
    lemma_permits_symmetric(a.tag, b.tag);
}

/// Two entries give one event when they interact and none otherwise, in
/// either order.
pub proof fn lemma_pair_order_irrelevant(a: AabbEntry, b: AabbEntry)
    ensures
        brute_force_events(seq![a, b]).len() == brute_force_events(seq![b, a]).len(),
        brute_force_events(seq![a, b]).len() == if interacts(a, b) { 1int } else { 0int },
{
    let ab = seq![a, b];
    let ba = seq![b, a];
    assert(pair_row(ab, 1, 2).len() == 0);
    assert(all_pairs(ab, 2).len() == 0);
    assert(all_pairs(ab, 1) == pair_row(ab, 1, 2) + all_pairs(ab, 2));
    assert(pair_row(ab, 0, 2).len() == 0);
    assert(pair_row(ba, 1, 2).len() == 0);
    assert(all_pairs(ba, 2).len() == 0);
    assert(all_pairs(ba, 1) == pair_row(ba, 1, 2) + all_pairs(ba, 2));
    assert(pair_row(ba, 0, 2).len() == 0);
    lemma_interacts_symmetric(a, b);
}

proof fn lemma_row_has(s: Seq<AabbEntry>, i: int, j: int, k: int)
    requires
        0 <= i < s.len(),
        0 <= j <= k < s.len(),
        interacts(s[i], s[k]),
    ensures
        pair_row(s, i, j).contains(event_of(s[i], s[k])),
    decreases k - j,
{
    let e = event_of(s[i], s[k]);
    let rest = pair_row(s, i, j + 1);
    if j == k {
        assert((seq![e] + rest)[0] == e);
    } else {
        lemma_row_has(s, i, j + 1, k);
        let p = choose|p: int| 0 <= p < rest.len() && rest[p] == e;
        if interacts(s[i], s[j]) {
            assert((seq![event_of(s[i], s[j])] + rest)[p + 1] == e);
        }
    }
}

proof fn lemma_row_only(s: Seq<AabbEntry>, i: int, j: int, e: CollisionEvent)
    requires
        0 <= i < s.len(),
        0 <= j,
        pair_row(s, i, j).contains(e),
    ensures
        exists|k: int| j <= k < s.len() && interacts(s[i], s[k]) && e == event_of(s[i], s[k]),
    decreases s.len() - j,
{
    let row = pair_row(s, i, j);
    let rest = pair_row(s, i, j + 1);
    let p = choose|p: int| 0 <= p < row.len() && row[p] == e;
    if interacts(s[i], s[j]) {
        if p == 0 {
            assert(j <= j < s.len() && interacts(s[i], s[j]) && e == event_of(s[i], s[j]));
        } else {
            assert(rest[p - 1] == e);
            lemma_row_only(s, i, j + 1, e);
        }
    } else {
        assert(rest[p] == e);
        lemma_row_only(s, i, j + 1, e);
    }
}

proof fn lemma_pairs_has(s: Seq<AabbEntry>, i0: int, i: int, k: int)
    requires
        0 <= i0 <= i < k < s.len(),
        interacts(s[i], s[k]),
    ensures
        all_pairs(s, i0).contains(event_of(s[i], s[k])),
    decreases i - i0,
{
    let e = event_of(s[i], s[k]);
    let row = pair_row(s, i0, i0 + 1);
    let rest = all_pairs(s, i0 + 1);
    if i == i0 {
        lemma_row_has(s, i, i + 1, k);
        let p = choose|p: int| 0 <= p < row.len() && row[p] == e;
        assert((row + rest)[p] == e);
    } else {
        lemma_pairs_has(s, i0 + 1, i, k);
        let p = choose|p: int| 0 <= p < rest.len() && rest[p] == e;
        assert((row + rest)[row.len() + p] == e);
    }
}

proof fn lemma_pairs_only(s: Seq<AabbEntry>, i0: int, e: CollisionEvent)
    requires
        0 <= i0,
        all_pairs(s, i0).contains(e),
    ensures
        exists|i: int, k: int|
            i0 <= i < k < s.len() && interacts(s[i], s[k]) && e == event_of(s[i], s[k]),
    decreases s.len() - i0,
{
    let row = pair_row(s, i0, i0 + 1);
    let rest = all_pairs(s, i0 + 1);
    let all = all_pairs(s, i0);
    let p = choose|p: int| 0 <= p < all.len() && all[p] == e;
    assert(all == row + rest);
    if p < row.len() {
        assert(row[p] == e);
        lemma_row_only(s, i0, i0 + 1, e);
        let k = choose|k: int| i0 + 1 <= k < s.len() && interacts(s[i0], s[k]) && e == event_of(s[i0], s[k]);
        assert(i0 <= i0 < k < s.len() && interacts(s[i0], s[k]) && e == event_of(s[i0], s[k]));
    } else {
        assert(rest[p - row.len()] == e);
        lemma_pairs_only(s, i0 + 1, e);
    }
}

/// No two entries of `s` belong to the same entity.
pub open spec fn ids_distinct(s: Seq<AabbEntry>) -> bool {
    forall|i: int, j: int| 0 <= i < j < s.len() ==> #[trigger] s[i].id != #[trigger] s[j].id
}

/// Over entries of distinct entities, the brute-force test reports the pair
/// at positions `i < j` exactly when their layers permit it and their boxes
/// overlap.
pub proof fn lemma_brute_force_pair(s: Seq<AabbEntry>, i: int, j: int)
    requires
        ids_distinct(s),
        0 <= i < j < s.len(),
    ensures
        brute_force_events(s).contains(event_of(s[i], s[j])) <==> interacts(s[i], s[j]),
{
    let e = event_of(s[i], s[j]);
    if interacts(s[i], s[j]) {
        lemma_pairs_has(s, 0, i, j);
    }
    if brute_force_events(s).contains(e) {
        lemma_pairs_only(s, 0, e);
        let (a, b) = choose|a: int, b: int|
            0 <= a < b < s.len() && interacts(s[a], s[b]) && e == event_of(s[a], s[b]);
        assert(s[a].id == s[i].id);
        assert(s[b].id == s[j].id);
        if a != i {
            assert(s[a].id != s[i].id);
        }
        if b != j {
            assert(s[b].id != s[j].id);
        }
    }
}

/// An empty snapshot yields no event and leaves the axis as it was.
pub proof fn lemma_empty_population(s: Seq<AabbEntry>, current: Axis)
    requires
        s.len() == 0,
    ensures
        brute_force_events(s).len() == 0,
        next_axis(stats_of(s, 0), current) == current,
{
}

/// Twice the centre of a box along `axis`.
pub open spec fn center2(b: AABB, axis: Axis) -> int {
    coord(b.min, axis) + coord(b.max, axis)
}

/// Sum of `center2` over the first `k` entries.
pub open spec fn sum_centers(s: Seq<AabbEntry>, axis: Axis, k: int) -> int
    decreases k,
{
    if k <= 0 {
        0
    } else {
        sum_centers(s, axis, k - 1) + center2(s[k - 1].aabb, axis)
    }
}

/// Sum of the squares of `center2` over the first `k` entries.
pub open spec fn sum_sq_centers(s: Seq<AabbEntry>, axis: Axis, k: int) -> int
    decreases k,
{
    if k <= 0 {
        0
    } else {
        sum_sq_centers(s, axis, k - 1) + center2(s[k - 1].aabb, axis) * center2(s[k - 1].aabb, axis)
    }
}

/// Running sums of box centres (each doubled, to stay integral) and of their
/// squares, per axis, over `count` boxes.
#[derive(Clone, Copy, Debug, PartialEq, Eq, Structural)]
pub struct CenterStats {
    pub count: usize,
    pub sum_x: i128,
    pub sum_y: i128,
    pub sum_sq_x: i128,
    pub sum_sq_y: i128,
}

/// A bound on the magnitude of a doubled centre, the sum of two `i32`s.
pub const CENTER_BOUND: i128 = 0x1_0000_0000;

/// The statistics of the first `k` entries of `s`.
pub open spec fn stats_of(s: Seq<AabbEntry>, k: int) -> CenterStats {
    CenterStats {
        count: k as usize,
        sum_x: sum_centers(s, Axis::X, k) as i128,
        sum_y: sum_centers(s, Axis::Y, k) as i128,
        sum_sq_x: sum_sq_centers(s, Axis::X, k) as i128,
        sum_sq_y: sum_sq_centers(s, Axis::Y, k) as i128,
    }
}

proof fn lemma_center_bound(b: AABB, axis: Axis)
    ensures
        -CENTER_BOUND <= center2(b, axis) <= CENTER_BOUND,
        0 <= center2(b, axis) * center2(b, axis) <= CENTER_BOUND * CENTER_BOUND,
{
    let c = center2(b, axis);
    assert(-CENTER_BOUND <= c <= CENTER_BOUND);
    assert(0 <= c * c <= CENTER_BOUND * CENTER_BOUND) by (nonlinear_arith)
        requires
            -CENTER_BOUND <= c <= CENTER_BOUND,
    ;
}

proof fn lemma_sum_bounds(s: Seq<AabbEntry>, axis: Axis, k: int)
    requires
        0 <= k <= s.len(),
    ensures
        -k * CENTER_BOUND <= sum_centers(s, axis, k) <= k * CENTER_BOUND,
        0 <= sum_sq_centers(s, axis, k) <= k * (CENTER_BOUND * CENTER_BOUND),
    decreases k,
{
    if k > 0 {
        lemma_sum_bounds(s, axis, k - 1);
        lemma_center_bound(s[k - 1].aabb, axis);
        assert(-k * CENTER_BOUND == -(k - 1) * CENTER_BOUND - CENTER_BOUND) by (nonlinear_arith);
        assert(k * (CENTER_BOUND * CENTER_BOUND) == (k - 1) * (CENTER_BOUND * CENTER_BOUND) + CENTER_BOUND
            * CENTER_BOUND) by (nonlinear_arith);
    }
}

/// `n` times the sum of squared deviations of the doubled centres from their
/// mean, that is `n * sum(c * c) - sum(c) * sum(c)`. For `n > 0` it orders the
/// axes as the variance `sum(c * c) - sum(c) * sum(c) / n` does.
pub open spec fn spread(n: int, sum: int, sum_sq: int) -> int {
    n * sum_sq - sum * sum
}

/// The axis for the next tick: unchanged when no box was seen, else Y when
/// the centres spread more along Y than along X, and X otherwise.
pub open spec fn next_axis(stats: CenterStats, current: Axis) -> Axis {
    if stats.count == 0 {
        current
    } else if spread(stats.count as int, stats.sum_y as int, stats.sum_sq_y as int) > spread(
        stats.count as int,
        stats.sum_x as int,
        stats.sum_sq_x as int,
    ) {
        Axis::Y
    } else {
        Axis::X
    }
}

/// The bounds that the statistics of at most `MAX_BODIES` boxes obey.
pub open spec fn stats_in_range(stats: CenterStats) -> bool {
    &&& stats.count <= MAX_BODIES
    &&& -(stats.count as int) * CENTER_BOUND <= stats.sum_x <= stats.count as int * CENTER_BOUND
    &&& -(stats.count as int) * CENTER_BOUND <= stats.sum_y <= stats.count as int * CENTER_BOUND
    &&& 0 <= stats.sum_sq_x <= stats.count as int * (CENTER_BOUND * CENTER_BOUND)
    &&& 0 <= stats.sum_sq_y <= stats.count as int * (CENTER_BOUND * CENTER_BOUND)
}

fn spread_of(n: usize, sum: i128, sum_sq: i128) -> (r: i128)
    requires
        n <= MAX_BODIES,
        -(n as int) * CENTER_BOUND <= sum <= n as int * CENTER_BOUND,
        0 <= sum_sq <= n as int * (CENTER_BOUND * CENTER_BOUND),
    ensures
        r as int == spread(n as int, sum as int, sum_sq as int),
{
    let n128 = n as i128;
    proof {
        let m = MAX_BODIES as int;
        let nn = n as int;
        let b = CENTER_BOUND as int;
        assert(0 <= nn * sum_sq <= m * (m * (b * b))) by (nonlinear_arith)
            requires
                0 <= nn <= m,
                0 <= sum_sq <= nn * (b * b),
                b > 0,
        ;
        assert(0 <= sum * sum <= (m * b) * (m * b)) by (nonlinear_arith)
            requires
                0 <= nn <= m,
                -nn * b <= sum <= nn * b,
                b > 0,
        ;
        assert(m * (m * (b * b)) == 0x4000_0000_0000_0000_0000_0000_0000_0000);
        assert(m * b == 0x8000_0000_0000_0000);
        assert((m * b) * (m * b) == 0x4000_0000_0000_0000_0000_0000_0000_0000) by (nonlinear_arith)
            requires
                m * b == 0x8000_0000_0000_0000,
        ;
    }
    n128 * sum_sq - sum * sum
}

/// Picks the sweep axis for the next tick from the centre statistics of this
/// one, leaving it as it was when no box was seen.
pub fn select_axis(stats: &CenterStats, current: Axis) -> (r: Axis)
    requires
        stats_in_range(*stats),
    ensures
        r == next_axis(*stats, current),
{
    if stats.count == 0 {
        return current;
    }
    let vx = spread_of(stats.count, stats.sum_x, stats.sum_sq_x);
    let vy = spread_of(stats.count, stats.sum_y, stats.sum_sq_y);
    if vy > vx {
        Axis::Y
    } else {
        Axis::X
    }
}

/// Sweeps entries sorted along `axis`, appending to `collisions` every pair
/// that interacts, in the brute-force order; it stops each row at the first
/// partner that starts beyond the current box's end. In the same pass it sums
/// the box centres and their squares.
pub fn sweep(entries: &Vec<AabbEntry>, axis: Axis, collisions: &mut Vec<CollisionEvent>) -> (stats:
    CenterStats)
    requires
        sorted_by(entries@, axis),
        entries.len() <= MAX_BODIES,
    ensures
        final(collisions)@ == old(collisions)@ + brute_force_events(entries@),
        final(collisions)@ == old(collisions)@ + swept_pairs(entries@, axis, 0),
        stats == stats_of(entries@, entries.len() as int),
        stats_in_range(stats),
{
    let ghost s = entries@;
    let ghost start = collisions@;
    let n = entries.len();
    let mut sum_x: i128 = 0;
    let mut sum_y: i128 = 0;
    let mut sum_sq_x: i128 = 0;
    let mut sum_sq_y: i128 = 0;
    let mut i: usize = 0;
    while i < n
        invariant
            s == entries@,
            n == s.len(),
            n <= MAX_BODIES,
            sorted_by(s, axis),
            0 <= i <= n,
            collisions@ + all_pairs(s, i as int) == start + all_pairs(s, 0),
            sum_x == sum_centers(s, Axis::X, i as int),
            sum_y == sum_centers(s, Axis::Y, i as int),
            sum_sq_x == sum_sq_centers(s, Axis::X, i as int),
            sum_sq_y == sum_sq_centers(s, Axis::Y, i as int),
        decreases n - i,
    {
        let a = entries[i];
        let a_max = a.aabb.max.get(axis);
        let mut j: usize = i + 1;
        while j < n
            invariant
                s == entries@,
                n == s.len(),
                sorted_by(s, axis),
                0 <= i < n,
                i < j <= n,
                a == s[i as int],
                a_max == coord(a.aabb.max, axis),
                collisions@ + pair_row(s, i as int, j as int) + all_pairs(s, i + 1) == start
                    + all_pairs(s, 0),
            ensures
                collisions@ + all_pairs(s, i + 1) == start + all_pairs(s, 0),
            decreases n - j,
        {
            let b = entries[j];
            if b.aabb.min.get(axis) > a_max {
                proof {
                    lemma_row_empty_from(s, axis, i as int, j as int, j as int);
                    assert(collisions@ + Seq::<CollisionEvent>::empty() == collisions@);
                }
                break;
            }
            let ghost before = collisions@;
            if tags_permit(&a.tag, &b.tag) && test_aabb_aabb(&a.aabb, &b.aabb) {
                collisions.push(
                    CollisionEvent { entity_1: a.id, tag1: a.tag, entity_2: b.id, tag2: b.tag },
                );
                proof {
                    let e = event_of(s[i as int], s[j as int]);
                    let row = pair_row(s, i as int, j + 1);
                    let rest = all_pairs(s, i + 1);
                    assert(collisions@ == before.push(e));
                    assert(before + (seq![e] + row) + rest == collisions@ + row + rest);
                }
            }
            j += 1;
        }
        proof {
            lemma_sum_bounds(s, Axis::X, i as int);
            lemma_sum_bounds(s, Axis::Y, i as int);
            lemma_center_bound(a.aabb, Axis::X);
            lemma_center_bound(a.aabb, Axis::Y);
            assert(i as int * CENTER_BOUND <= MAX_BODIES as int * CENTER_BOUND) by (nonlinear_arith)
                requires
                    i <= MAX_BODIES,
            ;
            assert(i as int * (CENTER_BOUND * CENTER_BOUND) <= MAX_BODIES as int * (CENTER_BOUND
                * CENTER_BOUND)) by (nonlinear_arith)
                requires
                    i <= MAX_BODIES,
            ;
            assert(all_pairs(s, i as int) == pair_row(s, i as int, i + 1) + all_pairs(s, i + 1));
        }
        let cx = a.aabb.min.x as i128 + a.aabb.max.x as i128;
        let cy = a.aabb.min.y as i128 + a.aabb.max.y as i128;
        sum_x = sum_x + cx;
        sum_y = sum_y + cy;
        sum_sq_x = sum_sq_x + cx * cx;
        sum_sq_y = sum_sq_y + cy * cy;
        i += 1;
    }
    proof {
        lemma_sum_bounds(s, Axis::X, n as int);
        lemma_sum_bounds(s, Axis::Y, n as int);
        assert(collisions@ + Seq::<CollisionEvent>::empty() == collisions@);
        lemma_early_stop_sound(s, axis);
    }
    CenterStats { count: n, sum_x, sum_y, sum_sq_x, sum_sq_y }
}

} // verus!
