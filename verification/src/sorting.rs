//! Sorting a vector of pixels and dropping its repeated pixels.

use vstd::multiset::Multiset;
use vstd::prelude::*;
use vstd::seq_lib::{
    lemma_multiset_commutative, to_multiset_build, to_multiset_contains, to_multiset_len,
};
use crate::order::{ascending, lemma_push_after_last, lemma_same_set, strictly_ascending};
use crate::pixel::{lemma_pixel_order_total, lemma_pixel_order_transitive, Pixel};

verus! {

/// If `a` does not come after `b`, nor `b` after `c`, then `a` does not come
/// after `c`.
proof fn lemma_not_after_transitive(a: Pixel, b: Pixel, c: Pixel)
    requires
        !b.precedes(a),
        !c.precedes(b),
    ensures
        !c.precedes(a),
{
    lemma_pixel_order_total(a, b);
    lemma_pixel_order_total(b, c);
    lemma_pixel_order_total(a, c);
    if a != b && b != c {
        lemma_pixel_order_transitive(a, b, c);
    }
}

/// An ascending sequence stays ascending when a pixel is pushed that does
/// not come before its last.
proof fn lemma_push_keeps_ascending(s: Seq<Pixel>, p: Pixel)
    requires
        ascending(s),
        s.len() > 0 ==> !p.precedes(s.last()),
    ensures
        ascending(s.push(p)),
{
    let t = s.push(p);
    assert forall|i: int, j: int| 0 <= i < j < t.len() implies !t[j].precedes(t[i]) by {
        if j < s.len() {
            assert(!s[j].precedes(s[i]));
        } else if i < s.len() - 1 {
            assert(!s[s.len() - 1].precedes(s[i]));
            lemma_not_after_transitive(s[i], s.last(), p);
        }
    }
}

/// The empty sequence holds nothing, counted with multiplicity.
proof fn lemma_empty_to_multiset()
    ensures
        Seq::<Pixel>::empty().to_multiset() == Multiset::<Pixel>::empty(),
{
    let none = Seq::<Pixel>::empty();
    to_multiset_len(none);
    vstd::multiset::lemma_multiset_empty_len(none.to_multiset());
}

/// Merges two ascending vectors into one. Of two equal pixels the one from
/// `a` comes first.
fn merge(a: &Vec<Pixel>, b: &Vec<Pixel>) -> (merged: Vec<Pixel>)
    requires
        ascending(a@),
        ascending(b@),
    ensures
        ascending(merged@),
        merged@.to_multiset() == a@.to_multiset().add(b@.to_multiset()),
{
    let mut merged: Vec<Pixel> = Vec::new();
    let mut i: usize = 0;
    let mut j: usize = 0;
    proof {
        lemma_empty_to_multiset();
        assert(a@.take(0) == merged@ && b@.take(0) == merged@);
        assert(merged@.to_multiset().add(merged@.to_multiset()) == merged@.to_multiset());
    }
    while i < a.len() || j < b.len()
        invariant
            i <= a.len(),
            j <= b.len(),
            ascending(a@),
            ascending(b@),
            ascending(merged@),
            merged@.to_multiset() == a@.take(i as int).to_multiset().add(
                b@.take(j as int).to_multiset(),
            ),
            merged@.len() > 0 && i < a.len() ==> !a@[i as int].precedes(merged@.last()),
            merged@.len() > 0 && j < b.len() ==> !b@[j as int].precedes(merged@.last()),
        decreases (a.len() - i) + (b.len() - j),
    {
        let ghost from_a = a@.take(i as int).to_multiset();
        let ghost from_b = b@.take(j as int).to_multiset();
        let take_a: bool = j == b.len() || (i < a.len() && !b[j].is_before(&a[i]));
        if take_a {
            let p: Pixel = a[i];
            proof {
                lemma_push_keeps_ascending(merged@, p);
                to_multiset_build(merged@, p);
                to_multiset_build(a@.take(i as int), p);
                assert(a@.take(i + 1) == a@.take(i as int).push(p));
                assert(from_a.insert(p).add(from_b) == from_a.add(from_b).insert(p));
                if i + 1 < a.len() {
                    assert(!a@[i + 1].precedes(a@[i as int]));
                }
            }
            merged.push(p);
            i = i + 1;
        } else {
            let p: Pixel = b[j];
            proof {
                lemma_push_keeps_ascending(merged@, p);
                to_multiset_build(merged@, p);
                to_multiset_build(b@.take(j as int), p);
                assert(b@.take(j + 1) == b@.take(j as int).push(p));
                assert(from_a.add(from_b.insert(p)) == from_a.add(from_b).insert(p));
                if j + 1 < b.len() {
                    assert(!b@[j + 1].precedes(b@[j as int]));
                }
                if i < a.len() {
                    lemma_pixel_order_total(p, a@[i as int]);
                }
            }
            merged.push(p);
            j = j + 1;
        }
    }
    assert(a@.take(i as int) == a@ && b@.take(j as int) == b@);
    merged
}

/// The pixels of `v` from index `lo` up to `hi`, in ascending order.
fn sorted_range(v: &Vec<Pixel>, lo: usize, hi: usize) -> (sorted: Vec<Pixel>)
    requires
        lo <= hi <= v.len(),
    ensures
        ascending(sorted@),
        sorted@.to_multiset() == v@.subrange(lo as int, hi as int).to_multiset(),
    decreases hi - lo,
{
    if hi - lo < 2 {
        let mut sorted: Vec<Pixel> = Vec::new();
        if lo < hi {
            sorted.push(v[lo]);
        }
        assert(sorted@ == v@.subrange(lo as int, hi as int));
        sorted
    } else {
        let mid: usize = lo + (hi - lo) / 2;
        let lower: Vec<Pixel> = sorted_range(v, lo, mid);
        let upper: Vec<Pixel> = sorted_range(v, mid, hi);
        proof {
            let below = v@.subrange(lo as int, mid as int);
            let above = v@.subrange(mid as int, hi as int);
            assert(v@.subrange(lo as int, hi as int) == below + above);
            lemma_multiset_commutative(below, above);
        }
        merge(&lower, &upper)
    }
}

/// The pixels of `v` in ascending order, each as often as `v` holds it.
pub(crate) fn sorted(v: &Vec<Pixel>) -> (sorted: Vec<Pixel>)
    ensures
        ascending(sorted@),
        sorted@.to_multiset() == v@.to_multiset(),
{
    assert(v@.subrange(0, v@.len() as int) == v@);
    sorted_range(v, 0, v.len())
}

/// Sequences that hold the same pixels equally often have the same length
/// and the same set of pixels.
pub(crate) proof fn lemma_rearranged(a: Seq<Pixel>, b: Seq<Pixel>)
    requires
        a.to_multiset() == b.to_multiset(),
    ensures
        a.len() == b.len(),
        a.to_set() == b.to_set(),
{
    to_multiset_len(a);
    to_multiset_len(b);
    assert forall|q: Pixel| a.contains(q) <==> b.contains(q) by {
        to_multiset_contains(a, q);
        to_multiset_contains(b, q);
    }
    lemma_same_set(a, b);
}

/// The pixels of an ascending vector with each run of equal pixels cut down
/// to its first.
pub(crate) fn without_repeats(v: &Vec<Pixel>) -> (kept: Vec<Pixel>)
    requires
        ascending(v@),
    ensures
        strictly_ascending(kept@),
        kept@.to_set() == v@.to_set(),
        kept@.len() <= v@.len(),
{
    let mut kept: Vec<Pixel> = Vec::new();
    let mut i: usize = 0;
    assert(kept@ == v@.take(0));
    while i < v.len()
        invariant
            i <= v.len(),
            ascending(v@),
            strictly_ascending(kept@),
            kept@.len() <= i,
            kept@.to_set() == v@.take(i as int).to_set(),
            i > 0 ==> kept@.len() > 0 && kept@.last() == v@[i - 1],
        decreases v.len() - i,
    {
        let p: Pixel = v[i];
        let ghost seen = v@.take(i as int);
        proof {
            assert(v@.take(i + 1) == seen.push(p));
            seen.lemma_push_to_set_commute(p);
            kept@.lemma_push_to_set_commute(p);
        }
        if kept.len() == 0 || kept[kept.len() - 1] != p {
            proof {
                if kept@.len() > 0 {
                    assert(!v@[i as int].precedes(v@[i - 1]));
                    lemma_pixel_order_total(kept@.last(), p);
                }
                lemma_push_after_last(kept@, p);
            }
            kept.push(p);
        } else {
            assert(kept@.to_set().insert(p) == kept@.to_set()) by {
                assert(kept@.contains(kept@[kept@.len() - 1]));
            }
        }
        i = i + 1;
    }
    assert(v@.take(i as int) == v@);
    kept
}

} // verus!
