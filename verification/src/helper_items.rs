//! Median and quartile engine.
//!
//! All numeric results in this module are exact. A median of an even-length
//! sample is the arithmetic mean of two elements and may therefore be a
//! half-integer; to keep it exact, every median and quartile is returned in
//! *half-units*: the returned number is twice the mathematical value. Callers
//! that need the plain value divide by two (the fence arithmetic in the crate
//! root keeps working in half-units instead, so nothing is ever rounded).

use vstd::prelude::*;

verus! {

/// An ascending sequence: every element is at most every later one.
pub open spec fn sorted_le(s: Seq<i64>) -> bool {
    forall|i: int, j: int| 0 <= i < j < s.len() ==> s[i] <= s[j]
}

/// Twice the median of `s`: the middle element doubled when the length is
/// odd, the sum of the two middle elements when it is even.
pub open spec fn median_in_halves(s: Seq<i64>) -> int
    recommends
        s.len() > 0,
{
    if s.len() % 2 == 1 {
        2 * s[s.len() as int / 2]
    } else {
        s[s.len() as int / 2 - 1] + s[s.len() as int / 2]
    }
}

/// Length of the lower half of the sample: `floor(n / 2)` elements.
pub open spec fn half_len(s: Seq<i64>) -> int {
    s.len() as int / 2
}

/// First index of the upper half. For an odd length the exact middle element
/// is excluded from both halves, so the upper half starts one past it.
pub open spec fn upper_half_start(s: Seq<i64>) -> int {
    if s.len() % 2 == 1 {
        half_len(s) + 1
    } else {
        half_len(s)
    }
}

/// Twice the first quartile: the median of the lower half.
pub open spec fn q1_in_halves(s: Seq<i64>) -> int
    recommends
        s.len() >= 2,
{
    median_in_halves(s.take(half_len(s)))
}

/// Twice the third quartile: the median of the upper half.
pub open spec fn q3_in_halves(s: Seq<i64>) -> int
    recommends
        s.len() >= 2,
{
    median_in_halves(s.skip(upper_half_start(s)))
}

/// The failure conditions of the median and quartile engine.
#[derive(Clone, Copy, Debug, PartialEq, Eq, Structural)]
pub enum ErrorMessage {
    MedianFunctionFailed,
    MinimumSetForQuartile,
    NanError,
    ToPrimitiveCast,
}

/// A short description for each failure condition.
pub fn get_error_message(error_message: ErrorMessage) -> (r: &'static str)
    ensures
        error_message == ErrorMessage::MedianFunctionFailed ==> r@ == "Cannot calculate median of data set"@,
        error_message == ErrorMessage::MinimumSetForQuartile ==> r@ == "Cannot calculate the quartile values of a data set with less than 2 elements"@,
        error_message == ErrorMessage::NanError ==> r@ == "The data set contains one or more NaNs"@,
        error_message == ErrorMessage::ToPrimitiveCast ==> r@ == "Had issues casting the sample values to the working numeric type"@,
{
    match error_message {
        ErrorMessage::MedianFunctionFailed => "Cannot calculate median of data set",
        ErrorMessage::MinimumSetForQuartile => {
            "Cannot calculate the quartile values of a data set with less than 2 elements"
        },
        ErrorMessage::NanError => "The data set contains one or more NaNs",
        ErrorMessage::ToPrimitiveCast => "Had issues casting the sample values to the working numeric type",
    }
}

/// Twice the median of the elements of `data` at indices `start..end`.
fn median_range(data: &Vec<i64>, start: usize, end: usize) -> (r: i128)
    requires
        start < end <= data@.len(),
    ensures
        r == median_in_halves(data@.subrange(start as int, end as int)),
{
    let len = end - start;
    let mid = start + len / 2;
    let sub = Ghost(data@.subrange(start as int, end as int));
    if len % 2 == 1 {
        proof {
            assert(sub@[len as int / 2] == data@[mid as int]);
        }
        2 * (data[mid] as i128)
    } else {
        proof {
            assert(sub@[len as int / 2 - 1] == data@[mid as int - 1]);
            assert(sub@[len as int / 2] == data@[mid as int]);
        }
        (data[mid - 1] as i128) + (data[mid] as i128)
    }
}

/// The median of a sorted sample, in half-units (twice the value), so that
/// the mean of the two middle elements of an even-length sample stays exact.
///
/// An empty sample has no median.
pub fn median(data: &Vec<i64>) -> (r: Result<i128, ErrorMessage>)
    ensures
        data@.len() == 0 ==> r == Err::<i128, ErrorMessage>(ErrorMessage::MedianFunctionFailed),
        data@.len() > 0 ==> r is Ok && r->Ok_0 == median_in_halves(data@),
{
    if data.len() == 0 {
        Err(ErrorMessage::MedianFunctionFailed)
    } else {
        let m = median_range(data, 0, data.len());
        proof {
            assert(data@.subrange(0, data@.len() as int) =~= data@);
        }
        Ok(m)
    }
}

/// Twice the median of a non-empty sorted sequence lies between twice its
/// first and twice its last element.
proof fn lemma_median_in_halves_bounds(s: Seq<i64>)
    requires
        sorted_le(s),
        s.len() > 0,
    ensures
        2 * s[0] <= median_in_halves(s) <= 2 * s[s.len() - 1],
{
    let m = s.len() as int / 2;
    if s.len() % 2 == 1 {
        assert(s.len() > 1 ==> s[0] <= s[m]);
        assert(m < s.len() - 1 ==> s[m] <= s[s.len() - 1]);
    } else {
        assert(s[0] <= s[m - 1] || 0 == m - 1);
        assert(s[m] <= s[s.len() - 1] || m == s.len() - 1);
    }
}

/// A median in half-units stays within twice the `i64` range.
pub proof fn lemma_median_in_halves_range(s: Seq<i64>)
    requires
        s.len() > 0,
    ensures
        2 * (i64::MIN as int) <= median_in_halves(s) <= 2 * (i64::MAX as int),
{
    let m = s.len() as int / 2;
    if s.len() % 2 == 1 {
        assert(i64::MIN <= s[m] <= i64::MAX);
    } else {
        assert(i64::MIN <= s[m - 1] <= i64::MAX);
        assert(i64::MIN <= s[m] <= i64::MAX);
    }
}

/// All three quartile values, in half-units, stay within twice the `i64`
/// range.
pub proof fn lemma_quartile_values_range(s: Seq<i64>)
    requires
        s.len() >= 2,
    ensures
        2 * (i64::MIN as int) <= q1_in_halves(s) <= 2 * (i64::MAX as int),
        2 * (i64::MIN as int) <= median_in_halves(s) <= 2 * (i64::MAX as int),
        2 * (i64::MIN as int) <= q3_in_halves(s) <= 2 * (i64::MAX as int),
{
    let lo = s.take(half_len(s));
    let hi = s.skip(upper_half_start(s));
    assert(lo.len() >= 1);
    assert(hi.len() >= 1);
    lemma_median_in_halves_range(lo);
    lemma_median_in_halves_range(hi);
    lemma_median_in_halves_range(s);
}

/// On a sorted sample the quartiles come out ordered: `Q1 <= Q2 <= Q3`.
pub proof fn lemma_quartile_values_ordered(s: Seq<i64>)
    requires
        sorted_le(s),
        s.len() >= 2,
    ensures
        q1_in_halves(s) <= median_in_halves(s),
        median_in_halves(s) <= q3_in_halves(s),
{
    let n = s.len() as int;
    let h = half_len(s);
    let u = upper_half_start(s);
    let lo = s.take(h);
    let hi = s.skip(u);
    assert(lo.len() == h);
    assert(hi.len() == n - u);
    assert forall|i: int, j: int| 0 <= i < j < lo.len() implies lo[i] <= lo[j] by {
        assert(s[i] <= s[j]);
    }
    assert forall|i: int, j: int| 0 <= i < j < hi.len() implies hi[i] <= hi[j] by {
        assert(s[u + i] <= s[u + j]);
    }
    lemma_median_in_halves_bounds(lo);
    lemma_median_in_halves_bounds(hi);
    // Q1 is at most twice the last element of the lower half, which does not
    // exceed either element averaged by the full median.
    assert(lo[h - 1] == s[h - 1]);
    assert(q1_in_halves(s) <= 2 * s[h - 1]);
    if n % 2 == 1 {
        assert(s[h - 1] <= s[n / 2]);
        assert(median_in_halves(s) == 2 * s[n / 2]);
    } else {
        assert(h - 1 == n / 2 - 1);
        assert(s[n / 2 - 1] <= s[n / 2]);
    }
    // Q3 is at least twice the first element of the upper half, which is at
    // least either element averaged by the full median.
    assert(hi[0] == s[u]);
    assert(2 * s[u] <= q3_in_halves(s));
    assert(s[n / 2] <= s[u]);
}

/// The quartile triple `(Q1, Q2, Q3)` of a sorted sample, each in half-units
/// (twice the value). `Q2` is the median of the whole sample; `Q1` and `Q3`
/// are the medians of the lower and upper halves, where for an odd length the
/// exact middle element is excluded from both halves.
///
/// Fewer than two elements have no quartiles.
pub fn get_quartile_values(data: &Vec<i64>) -> (r: Result<(i128, i128, i128), ErrorMessage>)
    ensures
        data@.len() < 2 ==> r == Err::<(i128, i128, i128), ErrorMessage>(
            ErrorMessage::MinimumSetForQuartile,
        ),
        data@.len() >= 2 ==> r is Ok && r->Ok_0.0 == q1_in_halves(data@) && r->Ok_0.1
            == median_in_halves(data@) && r->Ok_0.2 == q3_in_halves(data@),
        data@.len() >= 2 && sorted_le(data@) ==> q1_in_halves(data@) <= median_in_halves(data@)
            <= q3_in_halves(data@),
{
    let data_vec_length = data.len();

    if data_vec_length < 2 {
        return Err(ErrorMessage::MinimumSetForQuartile);
    }

    let halfway = data_vec_length / 2;
    let upper_start = if data_vec_length % 2 != 0 {
        halfway + 1
    } else {
        halfway
    };

    let q1_value = median_range(data, 0, halfway);
    let q2_value = median_range(data, 0, data_vec_length);
    let q3_value = median_range(data, upper_start, data_vec_length);

    proof {
        assert(data@.subrange(0, halfway as int) =~= data@.take(half_len(data@)));
        assert(data@.subrange(0, data_vec_length as int) =~= data@);
        assert(data@.subrange(upper_start as int, data_vec_length as int) =~= data@.skip(
            upper_half_start(data@),
        ));
        if sorted_le(data@) {
            lemma_quartile_values_ordered(data@);
        }
    }
    Ok((q1_value, q2_value, q3_value))
}

} // verus!
