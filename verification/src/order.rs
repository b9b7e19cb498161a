//! Ordered sequences of pixels and the canonical form of a sequence.

use vstd::prelude::*;
use vstd::seq_lib::lemma_seq_contains_after_push;
use crate::pixel::{lemma_pixel_order_total, lemma_pixel_order_transitive, Pixel};

verus! {

/// No pixel of `s` precedes one that stands before it.
pub open spec fn ascending(s: Seq<Pixel>) -> bool {
    forall|i: int, j: int| #![trigger s[i], s[j]] 0 <= i < j < s.len() ==> !s[j].precedes(s[i])
}

/// Each pixel of `s` precedes all that stand after it, so none occurs twice.
pub open spec fn strictly_ascending(s: Seq<Pixel>) -> bool {
    forall|i: int, j: int| #![trigger s[i], s[j]] 0 <= i < j < s.len() ==> s[i].precedes(s[j])
}

/// `r` holds the pixels of `s`, each once, in strictly ascending order.
pub open spec fn is_canonical_of(r: Seq<Pixel>, s: Seq<Pixel>) -> bool {
    &&& strictly_ascending(r)
    &&& r.to_set() == s.to_set()
}

/// The canonical form of `s`: its distinct pixels in strictly ascending
/// order. [`lemma_optimized`] shows that there is such a sequence, and
/// [`lemma_canonical_unique`] that there is only one.
pub open spec fn optimized(s: Seq<Pixel>) -> Seq<Pixel> {
    choose|r: Seq<Pixel>| is_canonical_of(r, s)
}

/// Two sequences have the same set of pixels exactly if each holds every
/// pixel of the other.
pub proof fn lemma_same_set(a: Seq<Pixel>, b: Seq<Pixel>)
    ensures
        a.to_set() == b.to_set() <==> forall|q: Pixel| a.contains(q) <==> b.contains(q),
{
    if a.to_set() == b.to_set() {
        assert forall|q: Pixel| a.contains(q) <==> b.contains(q) by {
            assert(a.to_set().contains(q) <==> a.contains(q));
            assert(b.to_set().contains(q) <==> b.contains(q));
        }
    }
    if forall|q: Pixel| a.contains(q) <==> b.contains(q) {
        assert(a.to_set() =~= b.to_set());
    }
}

/// In a strictly ascending sequence the last pixel comes after all others,
/// which are strictly ascending themselves.
proof fn lemma_last_is_greatest(s: Seq<Pixel>)
    requires
        strictly_ascending(s),
        s.len() > 0,
    ensures
        strictly_ascending(s.drop_last()),
        forall|q: Pixel| s.drop_last().contains(q) ==> q.precedes(s.last()),
        forall|q: Pixel| s.contains(q) <==> s.drop_last().contains(q) || q == s.last(),
{
    broadcast use lemma_seq_contains_after_push;

    let head = s.drop_last();
    assert forall|i: int, j: int| 0 <= i < j < head.len() implies head[i].precedes(head[j]) by {
        assert(s[i].precedes(s[j]));
    }
    assert forall|q: Pixel| head.contains(q) implies q.precedes(s.last()) by {
        let k = choose|k: int| 0 <= k < head.len() && head[k] == q;
        assert(s[k].precedes(s[s.len() - 1]));
    }
    assert(s == head.push(s.last()));
}

/// A strictly ascending sequence stays so when a pixel is pushed that its
/// last pixel precedes.
pub(crate) proof fn lemma_push_after_last(s: Seq<Pixel>, p: Pixel)
    requires
        strictly_ascending(s),
        s.len() > 0 ==> s.last().precedes(p),
    ensures
        strictly_ascending(s.push(p)),
{
    let t = s.push(p);
    assert forall|i: int, j: int| 0 <= i < j < t.len() implies t[i].precedes(t[j]) by {
        if j < s.len() {
            assert(s[i].precedes(s[j]));
        } else if i < s.len() - 1 {
            assert(s[i].precedes(s[s.len() - 1]));
            lemma_pixel_order_transitive(s[i], s.last(), p);
        }
    }
}

/// `s` with `p` put in its place; `s` itself where it holds `p` already.
spec fn with_pixel(s: Seq<Pixel>, p: Pixel) -> Seq<Pixel>
    decreases s.len(),
{
    if s.len() == 0 {
        seq![p]
    } else if s.last() == p {
        s
    } else if s.last().precedes(p) {
        s.push(p)
    } else {
        with_pixel(s.drop_last(), p).push(s.last())
    }
}

/// Putting a pixel in its place keeps the order and adds that pixel only.
proof fn lemma_with_pixel(s: Seq<Pixel>, p: Pixel)
    requires
        strictly_ascending(s),
    ensures
        strictly_ascending(with_pixel(s, p)),
        forall|q: Pixel| with_pixel(s, p).contains(q) <==> s.contains(q) || q == p,
    decreases s.len(),
{
    broadcast use lemma_seq_contains_after_push;

    if s.len() == 0 {
        assert(with_pixel(s, p) == s.push(p));
    } else {
        let head = s.drop_last();
        let last = s.last();
        lemma_last_is_greatest(s);
        lemma_pixel_order_total(last, p);
        if last == p {
        } else if last.precedes(p) {
            lemma_push_after_last(s, p);
        } else {
            let t = with_pixel(head, p);
            lemma_with_pixel(head, p);
            assert(t.contains(t.last()));
            lemma_push_after_last(t, last);
        }
    }
}

/// Every sequence has a canonical form.
proof fn lemma_canonical_exists(s: Seq<Pixel>)
    ensures
        exists|r: Seq<Pixel>| is_canonical_of(r, s),
    decreases s.len(),
{
    broadcast use lemma_seq_contains_after_push;

    if s.len() == 0 {
        assert(is_canonical_of(s, s));
    } else {
        let head = s.drop_last();
        lemma_canonical_exists(head);
        let r = choose|r: Seq<Pixel>| is_canonical_of(r, head);
        let t = with_pixel(r, s.last());
        lemma_with_pixel(r, s.last());
        lemma_same_set(r, head);
        assert(s == head.push(s.last()));
        assert forall|q: Pixel| t.contains(q) <==> s.contains(q) by {
            assert(r.contains(q) <==> head.contains(q));
        }
        lemma_same_set(t, s);
        assert(is_canonical_of(t, s));
    }
}

/// Two strictly ascending sequences that hold the same pixels are equal.
pub proof fn lemma_strictly_ascending_unique(a: Seq<Pixel>, b: Seq<Pixel>)
    requires
        strictly_ascending(a),
        strictly_ascending(b),
        a.to_set() == b.to_set(),
    ensures
        a == b,
    decreases a.len(),
{
    lemma_same_set(a, b);
    if a.len() == 0 || b.len() == 0 {
        if a.len() > 0 {
            assert(a.contains(a[0]));
        }
        if b.len() > 0 {
            assert(b.contains(b[0]));
        }
        assert(a =~= b);
    } else {
        let (ha, la) = (a.drop_last(), a.last());
        let (hb, lb) = (b.drop_last(), b.last());
        lemma_last_is_greatest(a);
        lemma_last_is_greatest(b);
        lemma_pixel_order_total(la, lb);
        assert(la == lb) by {
            assert(a.contains(la) && b.contains(la));
            assert(b.contains(lb) && a.contains(lb));
        }
        assert forall|q: Pixel| ha.contains(q) <==> hb.contains(q) by {
            lemma_pixel_order_total(q, la);
            assert(a.contains(q) <==> b.contains(q));
        }
        lemma_same_set(ha, hb);
        lemma_strictly_ascending_unique(ha, hb);
        assert(a == ha.push(la));
        assert(b == hb.push(lb));
    }
}

/// A sequence has exactly one canonical form, and `optimized` names it.
pub proof fn lemma_canonical_unique(r: Seq<Pixel>, s: Seq<Pixel>)
    requires
        is_canonical_of(r, s),
    ensures
        r == optimized(s),
{
    lemma_strictly_ascending_unique(r, optimized(s));
}

/// In a strictly ascending sequence no pixel occurs twice.
pub proof fn lemma_strictly_ascending_no_duplicates(s: Seq<Pixel>)
    requires
        strictly_ascending(s),
    ensures
        s.no_duplicates(),
{
    assert forall|i: int, j: int| 0 <= i < s.len() && 0 <= j < s.len() && i != j implies s[i]
        != s[j] by {
        lemma_pixel_order_total(s[i], s[j]);
        if i < j {
            assert(s[i].precedes(s[j]));
        } else {
            assert(s[j].precedes(s[i]));
        }
    }
}

/// `optimized(s)` is strictly ascending, holds exactly the pixels of `s`,
/// and is no longer than `s`.
pub proof fn lemma_optimized(s: Seq<Pixel>)
    ensures
        is_canonical_of(optimized(s), s),
        optimized(s).len() <= s.len(),
{
    lemma_canonical_exists(s);
    lemma_strictly_ascending_no_duplicates(optimized(s));
    optimized(s).unique_seq_to_set();
    s.lemma_cardinality_of_set();
}

/// Optimizing twice gives what optimizing once gives.
pub proof fn lemma_optimized_idempotent(s: Seq<Pixel>)
    ensures
        optimized(optimized(s)) == optimized(s),
{
    lemma_optimized(s);
    lemma_canonical_unique(optimized(s), optimized(s));
}

} // verus!
