//! Splitting a sequence by a family of predicates.
//!
//! The outlier partitioner classifies every element of the working sample by
//! three predicates (below the lower fence, between the fences, above the
//! upper fence) and collects the matches of each in input order; [`matching`]
//! is that selection. The lemmas here say what such a three-way split
//! preserves: the element count, the multiset of elements, and — when the
//! sequence is ascending and the predicates are monotone — the sequence
//! itself, as the concatenation of the three parts.

use vstd::prelude::*;

use crate::helper_items::sorted_le;

verus! {

/// The elements of `s` that satisfy `pred`, in the order they appear.
pub open spec fn matching(s: Seq<i64>, pred: spec_fn(i64) -> bool) -> Seq<i64>
    decreases s.len(),
{
    if s.len() == 0 {
        s
    } else {
        let rest = matching(s.drop_last(), pred);
        if pred(s.last()) {
            rest.push(s.last())
        } else {
            rest
        }
    }
}

/// Appending one element to a sequence extends its selection by that element
/// exactly when the element matches.
pub proof fn lemma_matching_push(s: Seq<i64>, x: i64, pred: spec_fn(i64) -> bool)
    ensures
        matching(s.push(x), pred) == if pred(x) {
            matching(s, pred).push(x)
        } else {
            matching(s, pred)
        },
{
    assert(s.push(x).drop_last() =~= s);
    assert(s.push(x).last() == x);
}

/// A selection that matches every element returns the sequence unchanged.
pub proof fn lemma_matching_all(s: Seq<i64>, pred: spec_fn(i64) -> bool)
    requires
        forall|i: int| 0 <= i < s.len() ==> pred(s[i]),
    ensures
        matching(s, pred) == s,
    decreases s.len(),
{
    if s.len() > 0 {
        lemma_matching_all(s.drop_last(), pred);
        assert(s.drop_last().push(s.last()) =~= s);
    }
}

/// A selection that matches no element returns the empty sequence.
pub proof fn lemma_matching_none(s: Seq<i64>, pred: spec_fn(i64) -> bool)
    requires
        forall|i: int| 0 <= i < s.len() ==> !pred(s[i]),
    ensures
        matching(s, pred) == Seq::<i64>::empty(),
    decreases s.len(),
{
    if s.len() == 0 {
        assert(matching(s, pred) =~= Seq::<i64>::empty());
    } else {
        lemma_matching_none(s.drop_last(), pred);
    }
}

/// An element that satisfies the predicate turns up in the selection, which
/// is therefore non-empty.
pub proof fn lemma_matching_found(s: Seq<i64>, pred: spec_fn(i64) -> bool, i: int)
    requires
        0 <= i < s.len(),
        pred(s[i]),
    ensures
        matching(s, pred).len() > 0,
    decreases s.len(),
{
    if i == s.len() - 1 {
    } else {
        lemma_matching_found(s.drop_last(), pred, i);
    }
}

/// A selection out of an ascending sequence is ascending, and bounded by the
/// last element of the sequence it came from.
pub proof fn lemma_matching_keeps_order(s: Seq<i64>, pred: spec_fn(i64) -> bool)
    requires
        sorted_le(s),
    ensures
        sorted_le(matching(s, pred)),
        forall|i: int|
            0 <= i < matching(s, pred).len() ==> s.len() > 0 && #[trigger] matching(s, pred)[i]
                <= s[s.len() - 1],
    decreases s.len(),
{
    if s.len() > 0 {
        let d = s.drop_last();
        assert(forall|i: int| 0 <= i < d.len() ==> d[i] == s[i]);
        assert(sorted_le(d));
        lemma_matching_keeps_order(d, pred);
        assert(d.len() > 0 ==> d[d.len() - 1] <= s[s.len() - 1]);
    }
}

/// Whenever one predicate implies another, it selects no more elements.
pub proof fn lemma_matching_implies_len(
    s: Seq<i64>,
    p: spec_fn(i64) -> bool,
    q: spec_fn(i64) -> bool,
)
    requires
        forall|x: i64| #[trigger] p(x) ==> q(x),
    ensures
        matching(s, p).len() <= matching(s, q).len(),
    decreases s.len(),
{
    if s.len() > 0 {
        lemma_matching_implies_len(s.drop_last(), p, q);
    }
}

/// Splitting a sequence by three predicates, of which every element matches
/// exactly one, conserves the element count and the multiset of elements.
pub proof fn lemma_split_conserves_elements(
    s: Seq<i64>,
    p_low: spec_fn(i64) -> bool,
    p_mid: spec_fn(i64) -> bool,
    p_high: spec_fn(i64) -> bool,
)
    requires
        forall|x: i64| #[trigger] p_mid(x) <==> (!p_low(x) && !p_high(x)),
        forall|x: i64| !(#[trigger] p_low(x) && p_high(x)),
    ensures
        matching(s, p_low).len() + matching(s, p_mid).len() + matching(s, p_high).len() == s.len(),
        matching(s, p_low).to_multiset().add(matching(s, p_mid).to_multiset()).add(
            matching(s, p_high).to_multiset(),
        ) == s.to_multiset(),
    decreases s.len(),
{
    broadcast use vstd::seq_lib::group_to_multiset_ensures;
    broadcast use vstd::multiset::group_multiset_axioms;

    if s.len() == 0 {
        assert(matching(s, p_low).to_multiset().add(matching(s, p_mid).to_multiset()).add(
            matching(s, p_high).to_multiset(),
        ) =~= s.to_multiset());
    } else {
        let d = s.drop_last();
        let e = s.last();
        lemma_split_conserves_elements(d, p_low, p_mid, p_high);
        assert(d.push(e) =~= s);
        assert(s.to_multiset() =~= d.to_multiset().insert(e));
        assert(matching(s, p_low).to_multiset().add(matching(s, p_mid).to_multiset()).add(
            matching(s, p_high).to_multiset(),
        ) =~= s.to_multiset());
    }
}

/// Holds of a predicate that, once true of a value, is true of everything
/// smaller — the shape of "below the lower fence". Kept opaque so that its
/// quantifier is instantiated only where a proof reveals it.
#[verifier::opaque]
pub open spec fn downward_closed(p: spec_fn(i64) -> bool) -> bool {
    forall|x: i64, y: i64| #![trigger p(x), p(y)] x <= y && p(y) ==> p(x)
}

/// Holds of a predicate that, once true of a value, is true of everything
/// larger — the shape of "above the upper fence".
#[verifier::opaque]
pub open spec fn upward_closed(p: spec_fn(i64) -> bool) -> bool {
    forall|x: i64, y: i64| #![trigger p(x), p(y)] x <= y && p(x) ==> p(y)
}

/// An ascending sequence split by a downward-closed, an upward-closed and the
/// remaining middle predicate is the concatenation of its three parts, in
/// order: the low part is a prefix, the high part a suffix.
pub proof fn lemma_sorted_split_concat(
    s: Seq<i64>,
    p_low: spec_fn(i64) -> bool,
    p_mid: spec_fn(i64) -> bool,
    p_high: spec_fn(i64) -> bool,
)
    requires
        sorted_le(s),
        forall|x: i64| #[trigger] p_mid(x) <==> (!p_low(x) && !p_high(x)),
        forall|x: i64| !(#[trigger] p_low(x) && p_high(x)),
        downward_closed(p_low),
        upward_closed(p_high),
    ensures
        matching(s, p_low) + matching(s, p_mid) + matching(s, p_high) == s,
    decreases s.len(),
{
    if s.len() == 0 {
        assert(matching(s, p_low) + matching(s, p_mid) + matching(s, p_high) =~= s);
    } else {
        let d = s.drop_last();
        let e = s.last();
        assert(forall|i: int| 0 <= i < d.len() ==> d[i] == s[i]);
        assert(sorted_le(d));
        lemma_sorted_split_concat(d, p_low, p_mid, p_high);
        assert(s =~= d.push(e));
        lemma_matching_push(d, e, p_low);
        lemma_matching_push(d, e, p_mid);
        lemma_matching_push(d, e, p_high);
        let fl = matching(d, p_low);
        let fm = matching(d, p_mid);
        let fh = matching(d, p_high);
        if p_low(e) {
            // Everything before a low last element is low as well.
            assert forall|i: int| 0 <= i < d.len() implies p_low(d[i]) by {
                reveal(downward_closed);
                assert(d[i] <= e);
            }
            lemma_matching_all(d, p_low);
            lemma_matching_none(d, p_mid);
            lemma_matching_none(d, p_high);
            assert(d.push(e) + fm + fh =~= d.push(e));
        } else if p_high(e) {
            assert(fl + fm + fh.push(e) =~= (fl + fm + fh).push(e));
        } else {
            // A middle last element rules out any high element before it.
            assert forall|i: int| 0 <= i < d.len() implies !p_high(d[i]) by {
                reveal(upward_closed);
                assert(d[i] <= e);
                if p_high(d[i]) {
                    assert(p_high(e));
                }
            }
            lemma_matching_none(d, p_high);
            assert(fl + fm.push(e) + fh =~= (fl + fm + fh).push(e));
        }
    }
}

} // verus!
