//! Ascending in-place sort of the working values.
//!
//! The specification side fixes one canonical sorted form, [`sort_i64`],
//! built on vstd's merge sort over the `<=` ordering of `i64`. The exec side
//! is an insertion sort whose result is proved equal to that canonical form,
//! so every caller can speak of "the sorted sample" as a function of the
//! input.

use vstd::prelude::*;
use vstd::relations::{sorted_by, total_ordering};
use vstd::seq_lib::lemma_sorted_unique;

use crate::helper_items::sorted_le;

verus! {

/// The `<=` ordering of `i64`, as a first-class spec function.
pub open spec fn le_i64() -> spec_fn(i64, i64) -> bool {
    |x: i64, y: i64| x <= y
}

/// The canonical ascending rearrangement of `s`.
pub open spec fn sort_i64(s: Seq<i64>) -> Seq<i64> {
    s.sort_by(le_i64())
}

/// `<=` on `i64` is a total ordering.
pub proof fn lemma_le_i64_total_ordering()
    ensures
        total_ordering(le_i64()),
{
    let leq = le_i64();
    assert forall|x: i64| #[trigger] leq(x, x) by {}
    assert forall|x: i64, y: i64| #[trigger] leq(x, y) && #[trigger] leq(y, x) implies x == y by {}
    assert forall|x: i64, y: i64, z: i64|
        #[trigger] leq(x, y) && #[trigger] leq(y, z) implies leq(x, z) by {}
    assert forall|x: i64, y: i64| #[trigger] leq(x, y) || #[trigger] leq(y, x) by {}
}

/// What the canonical sort guarantees: an ascending sequence with the same
/// multiset of elements (hence the same length) as the input.
pub proof fn lemma_sort_i64_ensures(s: Seq<i64>)
    ensures
        sorted_le(sort_i64(s)),
        sort_i64(s).to_multiset() == s.to_multiset(),
        sort_i64(s).len() == s.len(),
{
    lemma_le_i64_total_ordering();
    s.lemma_sort_by_ensures(le_i64());
    let t = sort_i64(s);
    assert(sorted_by(t, le_i64()));
    assert forall|i: int, j: int| 0 <= i < j < t.len() implies t[i] <= t[j] by {
        assert(le_i64()(t[i], t[j]));
    }
    broadcast use vstd::seq_lib::to_multiset_len;

    assert(t.len() == t.to_multiset().len());
    assert(s.len() == s.to_multiset().len());
}

/// Sorted rearrangements are unique: any ascending sequence with the same
/// multiset as `s` is exactly `sort_i64(s)`.
pub proof fn lemma_sorted_rearrangement_is_sort(a: Seq<i64>, s: Seq<i64>)
    requires
        sorted_le(a),
        a.to_multiset() == s.to_multiset(),
    ensures
        a == sort_i64(s),
{
    lemma_le_i64_total_ordering();
    lemma_sort_i64_ensures(s);
    let t = sort_i64(s);
    assert(sorted_by(a, le_i64())) by {
        assert forall|i: int, j: int| 0 <= i < j < a.len() implies le_i64()(a[i], a[j]) by {
            assert(a[i] <= a[j]);
        }
    }
    assert(sorted_by(t, le_i64())) by {
        assert forall|i: int, j: int| 0 <= i < j < t.len() implies le_i64()(t[i], t[j]) by {
            assert(t[i] <= t[j]);
        }
    }
    lemma_sorted_unique(a, t, le_i64());
}

/// Sorts `values` ascending in place. The result is the canonical sorted
/// rearrangement of the input.
pub fn sort_values(values: &mut Vec<i64>)
    ensures
        final(values)@ == sort_i64(old(values)@),
        sorted_le(final(values)@),
        final(values)@.to_multiset() == old(values)@.to_multiset(),
        final(values)@.len() == old(values)@.len(),
{
    broadcast use vstd::seq_lib::to_multiset_update;
    broadcast use vstd::seq_lib::to_multiset_contains;
    broadcast use vstd::multiset::group_multiset_axioms;

    let length = values.len();
    if length <= 1 {
        proof {
            lemma_sorted_rearrangement_is_sort(values@, old(values)@);
        }
        return ;
    }
    let mut i: usize = 1;
    while i < length
        invariant
            1 <= i <= length,
            values@.len() == length,
            values@.to_multiset() == old(values)@.to_multiset(),
            sorted_le(values@.take(i as int)),
        decreases length - i,
    {
        proof {
            assert forall|a: int, b: int|
                0 <= a < b <= i && b != i implies values@[a] <= values@[b] by {
                assert(values@.take(i as int)[a] == values@[a]);
                assert(values@.take(i as int)[b] == values@[b]);
            }
        }
        let mut j: usize = i;
        while j > 0 && values[j - 1] > values[j]
            invariant
                0 <= j <= i < length,
                values@.len() == length,
                values@.to_multiset() == old(values)@.to_multiset(),
                forall|a: int, b: int|
                    0 <= a < b <= i && b != j ==> values@[a] <= values@[b],
                forall|b: int| j < b <= i ==> values@[j as int] <= values@[b],
            decreases j,
        {
            let ghost before = values@;
            let lower = values[j - 1];
            let upper = values[j];
            values.set(j - 1, upper);
            values.set(j, lower);
            proof {
                let after = values@;
                let b1 = before[j as int - 1];
                let bj = before[j as int];
                let mid = before.update(j as int - 1, bj);
                vstd::seq_lib::to_multiset_update(before, j as int - 1, bj);
                vstd::seq_lib::to_multiset_update(mid, j as int, b1);
                assert(after == mid.update(j as int, b1));
                assert(before.to_multiset().count(b1) > 0) by {
                    assert(before.contains(b1));
                    vstd::seq_lib::to_multiset_contains(before, b1);
                }
                assert(mid.to_multiset().count(bj) > 0);
                assert(after.to_multiset() =~= before.to_multiset());
            }
            j = j - 1;
        }
        proof {
            assert forall|a: int, b: int| 0 <= a < b <= i implies values@[a] <= values@[b] by {
                if b == j {
                    assert(j > 0);
                    assert(values@[j as int - 1] <= values@[j as int]);
                    if a < j - 1 {
                        assert(values@[a] <= values@[j as int - 1]);
                    }
                }
            }
            assert(sorted_le(values@.take(i as int + 1)));
        }
        i = i + 1;
    }
    proof {
        assert(values@.take(length as int) =~= values@);
        lemma_sorted_rearrangement_is_sort(values@, old(values)@);
    }
}

} // verus!
