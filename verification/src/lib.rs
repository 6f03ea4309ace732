//! Tukey-fence outlier detection over an exactly-represented numeric sample.
//!
//! A sample is a sequence of [`DataValue`]s: integer measurements plus an
//! explicit not-a-number marker. [`OutlierIdentifier`] sorts the sample if
//! needed, computes the quartiles `Q1`, `Q2`, `Q3` by the median-of-halves
//! rule, derives the fences `Q1 - k * IQR` and `Q3 + k * IQR` for a rational
//! multiplier `k`, and partitions the sample into lower outliers,
//! non-outliers and upper outliers. All arithmetic is exact: medians are kept
//! in half-units and fences as integer numerators over the denominator
//! `2 * k.den`, so classification never rounds.

pub mod helper_items;
pub mod partition;
pub mod sorting;

use vstd::prelude::*;

use crate::helper_items::{q1_in_halves, q3_in_halves, sorted_le};
use crate::sorting::sort_i64;

verus! {

/// The failure conditions of the outlier partitioner.
#[derive(Clone, Copy, Debug, PartialEq, Eq, Structural)]
pub enum OutlierError {
    ContainsNans,
    NegativeKValue,
}

/// One sample value: an exactly-represented measurement, or the marker for a
/// value that does not compare equal to itself and therefore cannot be
/// ordered (the not-a-number case of floating-point inputs).
#[derive(Clone, Copy, Debug, PartialEq, Eq, Structural)]
pub enum DataValue {
    Num(i64),
    Nan,
}

/// The fence multiplier `k`, an exact non-degenerate rational `num / den`.
/// Tukey's classic choice is `3 / 2`.
#[derive(Clone, Copy, Debug)]
pub struct KValue {
    num: i32,
    den: u32,
}

impl KValue {
    /// A rational needs a positive denominator.
    #[verifier::type_invariant]
    spec fn denominator_positive(self) -> bool {
        self.den >= 1
    }

    /// The numerator of the multiplier; negative exactly when `k` is.
    pub closed spec fn num(self) -> int {
        self.num as int
    }

    /// The (positive) denominator of the multiplier.
    pub closed spec fn den(self) -> int {
        self.den as int
    }

    /// The multiplier `num / den`.
    pub fn new(num: i32, den: u32) -> (r: KValue)
        requires
            den >= 1,
        ensures
            r.num() == num as int,
            r.den() == den as int,
    {
        KValue { num, den }
    }
}

/// Whether the sample holds a value with no place in the order.
pub open spec fn has_nan(s: Seq<DataValue>) -> bool {
    exists|i: int| 0 <= i < s.len() && s[i] is Nan
}

/// The measurement inside a sample value. Only consulted on samples without
/// `Nan` entries, where the fallback arm is never reached.
pub open spec fn value_of(d: DataValue) -> i64 {
    match d {
        DataValue::Num(v) => v,
        DataValue::Nan => 0,
    }
}

/// The measurements of a sample, element by element.
pub open spec fn values_of(s: Seq<DataValue>) -> Seq<i64> {
    s.map_values(|d: DataValue| value_of(d))
}

/// Plain measurements put back into sample form.
pub open spec fn wrap_values(s: Seq<i64>) -> Seq<DataValue> {
    s.map_values(|v: i64| DataValue::Num(v))
}

/// The sample as the partitioner sees it after the ordering step: taken as
/// given when the caller asserts ascending order, sorted otherwise.
pub open spec fn ordered_values(vals: Seq<i64>, is_sorted: bool) -> Seq<i64> {
    if is_sorted {
        vals
    } else {
        sort_i64(vals)
    }
}

/// Twice the interquartile range `Q3 - Q1` (both quartiles are kept in
/// half-units).
pub open spec fn iqr_in_halves(s: Seq<i64>) -> int {
    q3_in_halves(s) - q1_in_halves(s)
}

/// A sample value scaled onto the fences' common denominator: comparisons
/// against a fence multiply the value by `2 * k_den` so that everything stays
/// in integers.
pub open spec fn scaled(x: i64, k_den: int) -> int {
    2 * k_den * x
}

/// The numerator of the lower fence `Q1 - k * IQR` over the denominator
/// `2 * k_den`, for the multiplier `k = k_num / k_den`.
pub open spec fn lower_fence_num(s: Seq<i64>, k_num: int, k_den: int) -> int {
    k_den * q1_in_halves(s) - k_num * iqr_in_halves(s)
}

/// The numerator of the upper fence `Q3 + k * IQR` over the denominator
/// `2 * k_den`.
pub open spec fn upper_fence_num(s: Seq<i64>, k_num: int, k_den: int) -> int {
    k_den * q3_in_halves(s) + k_num * iqr_in_halves(s)
}

/// Strictly below the lower fence. A sample of fewer than two values has no
/// fences and so no outliers.
pub open spec fn is_lower_outlier(x: i64, s: Seq<i64>, k_num: int, k_den: int) -> bool {
    s.len() >= 2 && scaled(x, k_den) < lower_fence_num(s, k_num, k_den)
}

/// Strictly above the upper fence (and not a lower outlier, which settles the
/// degenerate case of an upper fence below the lower one; with `k >= 0` and
/// an ascending sample that case cannot arise).
pub open spec fn is_upper_outlier(x: i64, s: Seq<i64>, k_num: int, k_den: int) -> bool {
    &&& s.len() >= 2
    &&& !is_lower_outlier(x, s, k_num, k_den)
    &&& scaled(x, k_den) > upper_fence_num(s, k_num, k_den)
}

/// On or between the fences — including a value exactly equal to either
/// fence, which is never an outlier.
pub open spec fn is_non_outlier(x: i64, s: Seq<i64>, k_num: int, k_den: int) -> bool {
    !is_lower_outlier(x, s, k_num, k_den) && !is_upper_outlier(x, s, k_num, k_den)
}

/// The lower-outlier test as a first-class predicate over the fixed working
/// sample `s` and multiplier.
pub open spec fn lower_pred(s: Seq<i64>, k_num: int, k_den: int) -> spec_fn(i64) -> bool {
    |x: i64| is_lower_outlier(x, s, k_num, k_den)
}

/// The non-outlier test as a first-class predicate.
pub open spec fn non_pred(s: Seq<i64>, k_num: int, k_den: int) -> spec_fn(i64) -> bool {
    |x: i64| is_non_outlier(x, s, k_num, k_den)
}

/// The upper-outlier test as a first-class predicate.
pub open spec fn upper_pred(s: Seq<i64>, k_num: int, k_den: int) -> spec_fn(i64) -> bool {
    |x: i64| is_upper_outlier(x, s, k_num, k_den)
}

/// The lower outliers of the working sample `s`, in order.
pub open spec fn lower_outliers_of(s: Seq<i64>, k_num: int, k_den: int) -> Seq<i64> {
    partition::matching(s, lower_pred(s, k_num, k_den))
}

/// The non-outliers of the working sample `s`, in order.
pub open spec fn non_outliers_of(s: Seq<i64>, k_num: int, k_den: int) -> Seq<i64> {
    partition::matching(s, non_pred(s, k_num, k_den))
}

/// The upper outliers of the working sample `s`, in order.
pub open spec fn upper_outliers_of(s: Seq<i64>, k_num: int, k_den: int) -> Seq<i64> {
    partition::matching(s, upper_pred(s, k_num, k_den))
}

/// A product of two values within known magnitudes stays within the product
/// of the magnitudes.
proof fn lemma_mul_within(a: int, b: int, a_bound: int, b_bound: int)
    by (nonlinear_arith)
    requires
        0 <= a_bound,
        0 <= b_bound,
        -a_bound <= a <= a_bound,
        -b_bound <= b <= b_bound,
    ensures
        -(a_bound * b_bound) <= a * b <= a_bound * b_bound,
{
}

/// Scaling by a non-negative factor keeps the order of two values.
proof fn lemma_scaled_le(x: int, y: int, m: int)
    by (nonlinear_arith)
    requires
        x <= y,
        m >= 0,
    ensures
        m * x <= m * y,
{
}

/// A sample without not-a-number entries is its own measurements, wrapped
/// back up.
proof fn lemma_wrap_values_id(d: Seq<DataValue>)
    requires
        forall|i: int| 0 <= i < d.len() ==> !(#[trigger] d[i] is Nan),
    ensures
        wrap_values(values_of(d)) == d,
{
    assert(wrap_values(values_of(d)) =~= d);
}

/// The Tukey-fence outlier partitioner: a sample, the caller's claim about
/// its order, and the fence multiplier `k`.
pub struct OutlierIdentifier {
    data_set: Vec<DataValue>,
    k_value: KValue,
    data_is_sorted: bool,
}

impl OutlierIdentifier {
    /// The stored sample.
    pub closed spec fn data(self) -> Seq<DataValue> {
        self.data_set@
    }

    /// Numerator of the stored multiplier.
    pub closed spec fn k_num(self) -> int {
        self.k_value.num()
    }

    /// Denominator of the stored multiplier.
    pub closed spec fn k_den(self) -> int {
        self.k_value.den()
    }

    /// The caller's claim that the sample is already ascending.
    pub closed spec fn sorted_flag(self) -> bool {
        self.data_is_sorted
    }

    /// The working sample: the measurements, sorted unless the caller
    /// asserted ascending order.
    pub open spec fn working(self) -> Seq<i64> {
        ordered_values(values_of(self.data()), self.sorted_flag())
    }

    /// Creates a new `OutlierIdentifier` with the default multiplier `3 / 2`,
    /// the value made popular by the mathematician John Tukey. If the order
    /// state of the data is unknown, pass `false` for `data_is_sorted`.
    pub fn new(data_set: Vec<DataValue>, data_is_sorted: bool) -> (r: OutlierIdentifier)
        ensures
            r.data() == data_set@,
            r.sorted_flag() == data_is_sorted,
            r.k_num() == 3,
            r.k_den() == 2,
    {
        OutlierIdentifier { data_set, data_is_sorted, k_value: KValue::new(3, 2) }
    }

    /// Replaces the multiplier. A larger `k` widens the fences and flags
    /// fewer values as outliers; a negative `k` makes the partitioning
    /// methods return an error.
    pub fn with_k_value(self, k_value: KValue) -> (r: OutlierIdentifier)
        ensures
            r.data() == self.data(),
            r.sorted_flag() == self.sorted_flag(),
            r.k_num() == k_value.num(),
            r.k_den() == k_value.den(),
    {
        OutlierIdentifier {
            data_set: self.data_set,
            data_is_sorted: self.data_is_sorted,
            k_value,
        }
    }

    /// Validates the multiplier and the sample, orders the sample, and
    /// derives the fences. On success the stored sample holds the working
    /// values (ascending unless the caller's `data_is_sorted` claim was
    /// false about unsorted data), and the result carries the two fence
    /// numerators over the denominator `2 * k_den` — or `None` when the
    /// sample has fewer than two values and thus no fences.
    #[verifier::loop_isolation(false)]
    #[verifier::rlimit(30)]
    fn get_fences(&mut self) -> (r: Result<Option<(i128, i128)>, OutlierError>)
        ensures
            r is Err <==> (old(self).k_num() < 0 || has_nan(old(self).data())),
            r == Err::<Option<(i128, i128)>, OutlierError>(OutlierError::NegativeKValue)
                <==> old(self).k_num() < 0,
            final(self).k_num() == old(self).k_num(),
            final(self).k_den() == old(self).k_den(),
            r is Err ==> *final(self) == *old(self),
            r is Ok ==> ({
                let ws = old(self).working();
                &&& final(self).data() == wrap_values(ws)
                &&& final(self).data().len() == old(self).data().len()
                &&& (r->Ok_0 is Some <==> ws.len() >= 2)
                &&& (ws.len() >= 2 ==> r->Ok_0->Some_0.0 == lower_fence_num(
                    ws,
                    old(self).k_num(),
                    old(self).k_den(),
                ) && r->Ok_0->Some_0.1 == upper_fence_num(
                    ws,
                    old(self).k_num(),
                    old(self).k_den(),
                ))
            }),
    {
        if self.k_value.num < 0 {
            return Err(OutlierError::NegativeKValue);
        }

        // One pass over the sample: reject any entry outside the order and
        // collect the plain measurements.
        let mut vals: Vec<i64> = Vec::new();
        let mut idx: usize = 0;
        while idx < self.data_set.len()
            invariant
                idx <= self.data_set@.len(),
                vals@ == values_of(self.data_set@.take(idx as int)),
                forall|k: int| 0 <= k < idx ==> !(#[trigger] self.data_set@[k] is Nan),
            decreases self.data_set@.len() - idx,
        {
            let entry = self.data_set[idx];
            match entry {
                DataValue::Nan => {
                    proof {
                        assert(old(self).data()[idx as int] is Nan);
                    }
                    return Err(OutlierError::ContainsNans);
                },
                DataValue::Num(x) => {
                    proof {
                        assert(self.data_set@.take(idx as int + 1) =~= self.data_set@.take(
                            idx as int,
                        ).push(entry));
                        assert(values_of(self.data_set@.take(idx as int).push(entry)) =~= vals@.push(
                            x,
                        ));
                    }
                    vals.push(x);
                },
            }
            idx += 1;
        }
        proof {
            assert(self.data_set@.take(self.data_set@.len() as int) =~= self.data_set@);
            assert(!has_nan(old(self).data()));
        }

        // Ordering step: sort unless the caller vouched for ascending order.
        if !self.data_is_sorted {
            sorting::sort_values(&mut vals);
            let ghost sorted_vals = vals@;
            let mut wrapped: Vec<DataValue> = Vec::new();
            let mut j: usize = 0;
            while j < vals.len()
                invariant
                    j <= vals@.len(),
                    vals@ == sorted_vals,
                    wrapped@ == wrap_values(vals@.take(j as int)),
                decreases vals@.len() - j,
            {
                proof {
                    assert(vals@.take(j as int + 1) =~= vals@.take(j as int).push(vals@[j as int]));
                    assert(wrap_values(vals@.take(j as int).push(vals@[j as int])) =~= wrapped@.push(
                        DataValue::Num(vals@[j as int]),
                    ));
                }
                let x = vals[j];
                wrapped.push(DataValue::Num(x));
                j += 1;
            }
            proof {
                assert(vals@.take(vals@.len() as int) =~= vals@);
            }
            self.data_set = wrapped;
            self.data_is_sorted = true;
        } else {
            proof {
                lemma_wrap_values_id(self.data_set@);
            }
        }
        proof {
            assert(vals@ == old(self).working());
            assert(self.data_set@ == wrap_values(old(self).working()));
        }

        // Fence derivation: quartiles, then `Q1 - k * IQR` and `Q3 + k * IQR`
        // as exact numerators over `2 * k_den`.
        if vals.len() < 2 {
            return Ok(None);
        }

        let quartiles = helper_items::get_quartile_values(&vals).unwrap();
        let q1_value = quartiles.0;
        let q3_value = quartiles.2;
        let k_num_wide: i128 = self.k_value.num as i128;
        let k_den_wide: i128 = self.k_value.den as i128;
        proof {
            use_type_invariant(&self.k_value);
            helper_items::lemma_quartile_values_range(vals@);
            lemma_mul_within(
                k_den_wide as int,
                q1_value as int,
                0x1_0000_0000,
                0x1_0000_0000_0000_0000,
            );
            lemma_mul_within(
                k_den_wide as int,
                q3_value as int,
                0x1_0000_0000,
                0x1_0000_0000_0000_0000,
            );
            lemma_mul_within(
                k_num_wide as int,
                q3_value - q1_value,
                0x1_0000_0000,
                0x2_0000_0000_0000_0000,
            );
        }
        let iqr = q3_value - q1_value;
        let lower = k_den_wide * q1_value - k_num_wide * iqr;
        let upper = k_den_wide * q3_value + k_num_wide * iqr;
        Ok(Some((lower, upper)))
    }

    /// Performs the outlier identification. On success it returns the lower
    /// outliers, the non-outliers and the upper outliers of the working
    /// sample, in that order: three ascending sequences (for a truthful
    /// `data_is_sorted` claim) that together restore the whole sample —
    /// every measurement lands in exactly one part, duplicates included.
    /// Fails when the sample holds a not-a-number entry or the multiplier is
    /// negative; a sample of fewer than two values has no fences and comes
    /// back whole as non-outliers.
    #[verifier::loop_isolation(false)]
    pub fn get_outliers(self) -> (r: Result<(Vec<i64>, Vec<i64>, Vec<i64>), OutlierError>)
        ensures
            r is Err <==> (self.k_num() < 0 || has_nan(self.data())),
            r == Err::<(Vec<i64>, Vec<i64>, Vec<i64>), OutlierError>(OutlierError::NegativeKValue)
                <==> self.k_num() < 0,
            r == Err::<(Vec<i64>, Vec<i64>, Vec<i64>), OutlierError>(OutlierError::ContainsNans)
                <==> (self.k_num() >= 0 && has_nan(self.data())),
            r is Ok ==> ({
                let ws = self.working();
                let buckets = r->Ok_0;
                &&& buckets.0@ == lower_outliers_of(ws, self.k_num(), self.k_den())
                &&& buckets.1@ == non_outliers_of(ws, self.k_num(), self.k_den())
                &&& buckets.2@ == upper_outliers_of(ws, self.k_num(), self.k_den())
                &&& buckets.0@.len() + buckets.1@.len() + buckets.2@.len() == self.data().len()
                &&& buckets.0@.to_multiset().add(buckets.1@.to_multiset()).add(
                    buckets.2@.to_multiset(),
                ) == values_of(self.data()).to_multiset()
                &&& (sorted_le(ws) ==> buckets.0@ + buckets.1@ + buckets.2@ == ws)
                &&& (sorted_le(ws) ==> sorted_le(buckets.0@) && sorted_le(buckets.1@) && sorted_le(
                    buckets.2@,
                ))
            }),
    {
        let ghost ws = self.working();
        let ghost k_num_ghost = self.k_num();
        let ghost k_den_ghost = self.k_den();

        let mut this = self;
        let fences = match this.get_fences() {
            Ok(f) => f,
            Err(e) => {
                return Err(e);
            },
        };
        let two_k_den: i128 = 2 * (this.k_value.den as i128);
        proof {
            use_type_invariant(&this.k_value);
            assert(forall|i: int|
                0 <= i < ws.len() ==> #[trigger] wrap_values(ws)[i] == DataValue::Num(ws[i]));
        }

        let mut lower_outliers: Vec<i64> = Vec::new();
        let mut non_outliers: Vec<i64> = Vec::new();
        let mut upper_outliers: Vec<i64> = Vec::new();

        let n = this.data_set.len();
        let mut idx: usize = 0;
        while idx < n
            invariant
                idx <= n,
                lower_outliers@ == partition::matching(
                    ws.take(idx as int),
                    lower_pred(ws, k_num_ghost, k_den_ghost),
                ),
                non_outliers@ == partition::matching(
                    ws.take(idx as int),
                    non_pred(ws, k_num_ghost, k_den_ghost),
                ),
                upper_outliers@ == partition::matching(
                    ws.take(idx as int),
                    upper_pred(ws, k_num_ghost, k_den_ghost),
                ),
            decreases n - idx,
        {
            let ghost prefix = ws.take(idx as int);
            let entry = this.data_set[idx];
            proof {
                assert(this.data_set@[idx as int] == DataValue::Num(ws[idx as int]));
                assert(ws.take(idx as int + 1) =~= prefix.push(ws[idx as int]));
                partition::lemma_matching_push(
                    prefix,
                    ws[idx as int],
                    lower_pred(ws, k_num_ghost, k_den_ghost),
                );
                partition::lemma_matching_push(
                    prefix,
                    ws[idx as int],
                    non_pred(ws, k_num_ghost, k_den_ghost),
                );
                partition::lemma_matching_push(
                    prefix,
                    ws[idx as int],
                    upper_pred(ws, k_num_ghost, k_den_ghost),
                );
            }
            match entry {
                DataValue::Num(x) => {
                    match fences {
                        Some(fence_nums) => {
                            proof {
                                lemma_mul_within(
                                    two_k_den as int,
                                    x as int,
                                    0x2_0000_0000,
                                    0x8000_0000_0000_0000,
                                );
                            }
                            let scaled_x = two_k_den * (x as i128);
                            if scaled_x < fence_nums.0 {
                                lower_outliers.push(x);
                            } else if scaled_x > fence_nums.1 {
                                upper_outliers.push(x);
                            } else {
                                non_outliers.push(x);
                            }
                        },
                        None => {
                            non_outliers.push(x);
                        },
                    }
                },
                DataValue::Nan => {
                    proof {
                        assert(false);
                    }
                },
            }
            idx += 1;
        }

        proof {
            assert(ws.take(n as int) =~= ws);
            let p_low = lower_pred(ws, k_num_ghost, k_den_ghost);
            let p_mid = non_pred(ws, k_num_ghost, k_den_ghost);
            let p_high = upper_pred(ws, k_num_ghost, k_den_ghost);
            partition::lemma_split_conserves_elements(ws, p_low, p_mid, p_high);
            if !self.sorted_flag() {
                sorting::lemma_sort_i64_ensures(values_of(self.data()));
            }
            if sorted_le(ws) {
                partition::lemma_matching_keeps_order(ws, p_low);
                partition::lemma_matching_keeps_order(ws, p_mid);
                partition::lemma_matching_keeps_order(ws, p_high);
                assert(partition::downward_closed(p_low)) by {
                    reveal(partition::downward_closed);
                    assert forall|x: i64, y: i64| #![trigger p_low(x), p_low(y)] x <= y && p_low(y) implies p_low(
                        x,
                    ) by {
                        lemma_scaled_le(x as int, y as int, 2 * k_den_ghost);
                    }
                }
                assert(partition::upward_closed(p_high)) by {
                    reveal(partition::upward_closed);
                    assert forall|x: i64, y: i64| #![trigger p_high(x), p_high(y)] x <= y && p_high(x) implies p_high(
                        y,
                    ) by {
                        lemma_scaled_le(x as int, y as int, 2 * k_den_ghost);
                    }
                }
                partition::lemma_sorted_split_concat(ws, p_low, p_mid, p_high);
            }
        }
        Ok((lower_outliers, non_outliers, upper_outliers))
    }

    /// Indicates whether the sample has outliers at all, without building the
    /// partition. It short-circuits at the first value outside the fences,
    /// and reuses the identical fence computation, so its verdict agrees with
    /// `get_outliers` on the same input: `true` exactly when that partition
    /// has a non-empty outlier part.
    #[verifier::loop_isolation(false)]
    pub fn has_outliers(self) -> (r: Result<bool, OutlierError>)
        ensures
            r is Err <==> (self.k_num() < 0 || has_nan(self.data())),
            r == Err::<bool, OutlierError>(OutlierError::NegativeKValue) <==> self.k_num() < 0,
            r == Err::<bool, OutlierError>(OutlierError::ContainsNans) <==> (self.k_num() >= 0
                && has_nan(self.data())),
            r is Ok ==> r->Ok_0 == (lower_outliers_of(
                self.working(),
                self.k_num(),
                self.k_den(),
            ).len() + upper_outliers_of(self.working(), self.k_num(), self.k_den()).len() > 0),
    {
        let ghost ws = self.working();
        let ghost k_num_ghost = self.k_num();
        let ghost k_den_ghost = self.k_den();

        let mut this = self;
        let fences = match this.get_fences() {
            Ok(f) => f,
            Err(e) => {
                return Err(e);
            },
        };
        proof {
            use_type_invariant(&this.k_value);
            assert(forall|i: int|
                0 <= i < ws.len() ==> #[trigger] wrap_values(ws)[i] == DataValue::Num(ws[i]));
        }
        let fence_nums = match fences {
            Some(f) => f,
            None => {
                proof {
                    partition::lemma_matching_none(ws, lower_pred(ws, k_num_ghost, k_den_ghost));
                    partition::lemma_matching_none(ws, upper_pred(ws, k_num_ghost, k_den_ghost));
                }
                return Ok(false);
            },
        };
        let two_k_den: i128 = 2 * (this.k_value.den as i128);

        let n = this.data_set.len();
        let mut idx: usize = 0;
        while idx < n
            invariant
                idx <= n,
                forall|k: int|
                    0 <= k < idx ==> !is_lower_outlier(ws[k], ws, k_num_ghost, k_den_ghost)
                        && !is_upper_outlier(ws[k], ws, k_num_ghost, k_den_ghost),
            decreases n - idx,
        {
            let entry = this.data_set[idx];
            proof {
                assert(this.data_set@[idx as int] == DataValue::Num(ws[idx as int]));
            }
            match entry {
                DataValue::Num(x) => {
                    proof {
                        lemma_mul_within(
                            two_k_den as int,
                            x as int,
                            0x2_0000_0000,
                            0x8000_0000_0000_0000,
                        );
                    }
                    let scaled_x = two_k_den * (x as i128);
                    if scaled_x < fence_nums.0 || scaled_x > fence_nums.1 {
                        proof {
                            if scaled_x < fence_nums.0 {
                                partition::lemma_matching_found(
                                    ws,
                                    lower_pred(ws, k_num_ghost, k_den_ghost),
                                    idx as int,
                                );
                            } else {
                                partition::lemma_matching_found(
                                    ws,
                                    upper_pred(ws, k_num_ghost, k_den_ghost),
                                    idx as int,
                                );
                            }
                        }
                        return Ok(true);
                    }
                },
                DataValue::Nan => {
                    proof {
                        assert(false);
                    }
                },
            }
            idx += 1;
        }
        proof {
            partition::lemma_matching_none(ws, lower_pred(ws, k_num_ghost, k_den_ghost));
            partition::lemma_matching_none(ws, upper_pred(ws, k_num_ghost, k_den_ghost));
        }
        Ok(false)
    }
}

/// With a non-negative multiplier and an ascending sample the fence pair is
/// ordered: the lower fence is at most the upper fence. Both numerators sit
/// over the common positive denominator `2 * k_den`.
pub proof fn lemma_fences_ordered(s: Seq<i64>, k_num: int, k_den: int)
    requires
        sorted_le(s),
        s.len() >= 2,
        k_num >= 0,
        k_den >= 1,
    ensures
        lower_fence_num(s, k_num, k_den) <= upper_fence_num(s, k_num, k_den),
{
    helper_items::lemma_quartile_values_ordered(s);
    let q1 = q1_in_halves(s);
    let q3 = q3_in_halves(s);
    let iqr = iqr_in_halves(s);
    assert(iqr >= 0);
    lemma_scaled_le(0, iqr, k_den);
    lemma_scaled_le(0, iqr, k_num);
    assert((k_den * q3 + k_num * iqr) - (k_den * q1 - k_num * iqr) == k_den * iqr + 2 * (k_num
        * iqr)) by (nonlinear_arith)
        requires
            iqr == q3 - q1,
    ;
}

/// Boundary inclusivity: a value that lands exactly on either fence is a
/// non-outlier — both fence comparisons are strict.
pub proof fn lemma_boundary_value_is_non_outlier(x: i64, s: Seq<i64>, k_num: int, k_den: int)
    requires
        sorted_le(s),
        s.len() >= 2,
        k_num >= 0,
        k_den >= 1,
        scaled(x, k_den) == lower_fence_num(s, k_num, k_den) || scaled(x, k_den)
            == upper_fence_num(s, k_num, k_den),
    ensures
        is_non_outlier(x, s, k_num, k_den),
{
    lemma_fences_ordered(s, k_num, k_den);
}

/// With ordered fences the upper-outlier test is exactly "strictly above the
/// upper fence": its guard against a crossed fence pair never fires.
pub proof fn lemma_upper_outlier_simplifies(x: i64, s: Seq<i64>, k_num: int, k_den: int)
    requires
        sorted_le(s),
        s.len() >= 2,
        k_num >= 0,
        k_den >= 1,
    ensures
        is_upper_outlier(x, s, k_num, k_den) <==> scaled(x, k_den) > upper_fence_num(
            s,
            k_num,
            k_den,
        ),
{
    lemma_fences_ordered(s, k_num, k_den);
}

/// The monotone step behind the lower-fence comparison: a value below the
/// lower fence of the wider multiplier `kn2 / kd2` is below the lower fence
/// of the narrower `kn1 / kd1` as well.
proof fn lemma_lower_cmp_mono(x: int, q1: int, iqr: int, kn1: int, kd1: int, kn2: int, kd2: int)
    by (nonlinear_arith)
    requires
        1 <= kd1,
        1 <= kd2,
        0 <= iqr,
        kn1 * kd2 <= kn2 * kd1,
        2 * kd2 * x < kd2 * q1 - kn2 * iqr,
    ensures
        2 * kd1 * x < kd1 * q1 - kn1 * iqr,
{
}

/// The monotone step behind the upper-fence comparison, mirror to
/// [`lemma_lower_cmp_mono`].
proof fn lemma_upper_cmp_mono(x: int, q3: int, iqr: int, kn1: int, kd1: int, kn2: int, kd2: int)
    by (nonlinear_arith)
    requires
        1 <= kd1,
        1 <= kd2,
        0 <= iqr,
        kn1 * kd2 <= kn2 * kd1,
        2 * kd2 * x > kd2 * q3 + kn2 * iqr,
    ensures
        2 * kd1 * x > kd1 * q3 + kn1 * iqr,
{
}

/// Monotonicity in the multiplier: raising `k` from `kn1 / kd1` to
/// `kn2 / kd2` widens both fences, so it never moves a value from
/// non-outlier to outlier — every outlier under the wider multiplier is an
/// outlier under the narrower one, the outlier parts can only shrink, and
/// the non-outlier part can only grow.
pub proof fn lemma_multiplier_monotone(s: Seq<i64>, kn1: int, kd1: int, kn2: int, kd2: int)
    requires
        sorted_le(s),
        0 <= kn1,
        1 <= kd1,
        1 <= kd2,
        kn1 * kd2 <= kn2 * kd1,
    ensures
        forall|x: i64| #[trigger] is_lower_outlier(x, s, kn2, kd2) ==> is_lower_outlier(
            x,
            s,
            kn1,
            kd1,
        ),
        forall|x: i64| #[trigger] is_upper_outlier(x, s, kn2, kd2) ==> is_upper_outlier(
            x,
            s,
            kn1,
            kd1,
        ),
        forall|x: i64| #[trigger] is_non_outlier(x, s, kn1, kd1) ==> is_non_outlier(x, s, kn2, kd2),
        lower_outliers_of(s, kn2, kd2).len() <= lower_outliers_of(s, kn1, kd1).len(),
        upper_outliers_of(s, kn2, kd2).len() <= upper_outliers_of(s, kn1, kd1).len(),
        non_outliers_of(s, kn1, kd1).len() <= non_outliers_of(s, kn2, kd2).len(),
{
    assert(0 <= kn2) by (nonlinear_arith)
        requires
            0 <= kn1,
            1 <= kd1,
            1 <= kd2,
            kn1 * kd2 <= kn2 * kd1,
    ;
    assert forall|x: i64| #[trigger] is_lower_outlier(x, s, kn2, kd2) implies is_lower_outlier(
        x,
        s,
        kn1,
        kd1,
    ) by {
        helper_items::lemma_quartile_values_ordered(s);
        lemma_lower_cmp_mono(
            x as int,
            q1_in_halves(s),
            iqr_in_halves(s),
            kn1,
            kd1,
            kn2,
            kd2,
        );
    }
    assert forall|x: i64| #[trigger] is_upper_outlier(x, s, kn2, kd2) implies is_upper_outlier(
        x,
        s,
        kn1,
        kd1,
    ) by {
        helper_items::lemma_quartile_values_ordered(s);
        lemma_upper_cmp_mono(
            x as int,
            q3_in_halves(s),
            iqr_in_halves(s),
            kn1,
            kd1,
            kn2,
            kd2,
        );
        lemma_upper_outlier_simplifies(x, s, kn1, kd1);
        lemma_upper_outlier_simplifies(x, s, kn2, kd2);
    }
    partition::lemma_matching_implies_len(s, lower_pred(s, kn2, kd2), lower_pred(s, kn1, kd1));
    partition::lemma_matching_implies_len(s, upper_pred(s, kn2, kd2), upper_pred(s, kn1, kd1));
    partition::lemma_matching_implies_len(s, non_pred(s, kn1, kd1), non_pred(s, kn2, kd2));
}

/// Idempotence under re-sort: partitioning a sample with
/// `data_is_sorted == false` gives exactly the partition obtained with
/// `data_is_sorted == true` on the ascending rearrangement of that sample.
pub proof fn lemma_resort_agrees(vals: Seq<i64>, s: Seq<i64>, k_num: int, k_den: int)
    requires
        sorted_le(s),
        s.to_multiset() == vals.to_multiset(),
    ensures
        ordered_values(vals, false) == ordered_values(s, true),
        lower_outliers_of(ordered_values(vals, false), k_num, k_den) == lower_outliers_of(
            s,
            k_num,
            k_den,
        ),
        non_outliers_of(ordered_values(vals, false), k_num, k_den) == non_outliers_of(
            s,
            k_num,
            k_den,
        ),
        upper_outliers_of(ordered_values(vals, false), k_num, k_den) == upper_outliers_of(
            s,
            k_num,
            k_den,
        ),
{
    sorting::lemma_sorted_rearrangement_is_sort(s, vals);
}

} // verus!
