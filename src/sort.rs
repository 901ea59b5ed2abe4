//! Ordering the snapshot along the sweep axis.
use vstd::prelude::*;
use vstd::multiset::Multiset;
use crate::geometry::{Axis, coord};
use crate::snapshot::AabbEntry;
use crate::sweep::sorted_by;

verus! {

/// The key of an entry along `axis`: its box's `min` there.
pub open spec fn key(e: AabbEntry, axis: Axis) -> int {
    coord(e.aabb.min, axis)
}

/// Merges two runs sorted along `axis` into one sorted run holding the
/// entries of both.
fn merge(left: &Vec<AabbEntry>, right: &Vec<AabbEntry>, axis: Axis) -> (out: Vec<AabbEntry>)
    requires
        sorted_by(left@, axis),
        sorted_by(right@, axis),
    ensures
        out@.to_multiset() == left@.to_multiset().add(right@.to_multiset()),
        out@.len() == left@.len() + right@.len(),
        sorted_by(out@, axis),
{
    broadcast use vstd::multiset::group_multiset_axioms;

    let nl = left.len();
    let nr = right.len();
    let mut out: Vec<AabbEntry> = Vec::new();
    let mut i: usize = 0;
    let mut j: usize = 0;
    assert(left@.take(0) =~= Seq::<AabbEntry>::empty());
    assert(right@.take(0) =~= Seq::<AabbEntry>::empty());
    proof {
        let none = Seq::<AabbEntry>::empty();
        none.to_multiset_ensures();
        assert(none.to_multiset() =~= Multiset::empty());
        assert(out@ == none);
    }
    while i < nl || j < nr
        invariant
            nl == left@.len(),
            nr == right@.len(),
            sorted_by(left@, axis),
            sorted_by(right@, axis),
            i <= nl,
            j <= nr,
            out@.len() == i + j,
            sorted_by(out@, axis),
            out@.to_multiset() == left@.take(i as int).to_multiset().add(
                right@.take(j as int).to_multiset(),
            ),
            out@.len() > 0 && i < nl ==> key(out@.last(), axis) <= key(left@[i as int], axis),
            out@.len() > 0 && j < nr ==> key(out@.last(), axis) <= key(right@[j as int], axis),
        decreases nl + nr - i - j,
    {
        let ghost prev = out@;
        let take_left = j >= nr || (i < nl && left[i].aabb.min.get(axis) <= right[j].aabb.min.get(
            axis,
        ));
        let e;
        if take_left {
            e = left[i];
            proof {
                assert(left@.take(i + 1) == left@.take(i as int).push(e));
                left@.take(i as int).to_multiset_ensures();
            }
            i += 1;
        } else {
            e = right[j];
            proof {
                assert(right@.take(j + 1) == right@.take(j as int).push(e));
                right@.take(j as int).to_multiset_ensures();
            }
            j += 1;
        }
        out.push(e);
        proof {
            prev.to_multiset_ensures();
            assert(out@ == prev.push(e));
            assert(out@.to_multiset() =~= left@.take(i as int).to_multiset().add(
                right@.take(j as int).to_multiset(),
            ));
            assert forall|a: int, b: int| 0 <= a < b < out@.len() implies key(
                #[trigger] out@[a],
                axis,
            ) <= key(#[trigger] out@[b], axis) by {
                if b == out@.len() - 1 && a < prev.len() - 1 {
                    assert(key(prev[a], axis) <= key(prev.last(), axis));
                }
            }
        }
    }
    proof {
        assert(left@.take(nl as int) == left@);
        assert(right@.take(nr as int) == right@);
    }
    out
}

/// Sorts `v` along `axis` by splitting it in halves, sorting each and
/// merging the two runs.
fn merge_sort(v: Vec<AabbEntry>, axis: Axis) -> (r: Vec<AabbEntry>)
    ensures
        r@.to_multiset() == v@.to_multiset(),
        r@.len() == v@.len(),
        sorted_by(r@, axis),
    decreases v@.len(),
{
    let n = v.len();
    if n <= 1 {
        return v;
    }
    let ghost orig = v@;
    let mut left = v;
    let right = left.split_off(n / 2);
    proof {
        assert(orig == left@ + right@);
        vstd::seq_lib::lemma_multiset_commutative(left@, right@);
    }
    let sorted_left = merge_sort(left, axis);
    let sorted_right = merge_sort(right, axis);
    merge(&sorted_left, &sorted_right, axis)
}

/// Sorts the entries ascending by their box's `min` along `axis`. Entries
/// with equal keys may come out in any order. The sorted entries are written
/// back into the same buffer, which keeps its allocation.
pub fn sort_by_axis(entries: &mut Vec<AabbEntry>, axis: Axis)
    ensures
        final(entries)@.to_multiset() == old(entries)@.to_multiset(),
        final(entries)@.len() == old(entries)@.len(),
        sorted_by(final(entries)@, axis),
{
    let ghost orig = entries@;
    let taken = entries.split_off(0);
    assert(taken@ == orig.subrange(0, orig.len() as int));
    assert(taken@ == orig);
    let sorted = merge_sort(taken, axis);
    let n = sorted.len();
    let mut k: usize = 0;
    assert(entries@ == sorted@.take(0));
    while k < n
        invariant
            n == sorted@.len(),
            0 <= k <= n,
            entries@ == sorted@.take(k as int),
        decreases n - k,
    {
        entries.push(sorted[k]);
        assert(sorted@.take(k + 1) == sorted@.take(k as int).push(sorted@[k as int]));
        k += 1;
    }
    assert(sorted@.take(n as int) == sorted@);
}

} // verus!
