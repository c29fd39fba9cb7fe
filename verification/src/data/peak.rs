//! Peak primitives on a fixed-point intensity profile.

use rayon::iter::{IntoParallelRefIterator, ParallelIterator};
use vstd::prelude::*;

verus! {

/// A local maximum of an intensity profile.
#[derive(Clone, Copy, Debug, PartialEq, Eq, Structural)]
pub struct Peak {
    /// Position in the profile.
    pub index: usize,
    /// Intensity at `index`.
    pub value: i64,
    /// Height above the higher of the two valleys beside the peak.
    pub prominence: i64,
}

impl Peak {
    pub fn new(index: usize, value: i64, prominence: i64) -> (peak: Peak)
        ensures
            peak == (Peak { index, value, prominence }),
    {
        Peak { index, value, prominence }
    }
}

/// The nearest `i64` to `v`.
pub open spec fn clamp_i64(v: int) -> int {
    if v < i64::MIN {
        i64::MIN as int
    } else if v > i64::MAX {
        i64::MAX as int
    } else {
        v
    }
}

/// The least element of `s`; the largest `i64` stands for an empty `s`.
pub open spec fn seq_min(s: Seq<i64>) -> int
    decreases s.len(),
{
    if s.len() == 0 {
        i64::MAX as int
    } else {
        let rest = seq_min(s.drop_last());
        if s.last() < rest {
            s.last() as int
        } else {
            rest
        }
    }
}

/// The higher of the lowest point left of `i` and the lowest point right of it.
pub open spec fn valley_floor(y: Seq<i64>, i: int) -> int {
    let left = seq_min(y.subrange(0, i));
    let right = seq_min(y.subrange(i + 1, y.len() as int));
    if left >= right {
        left
    } else {
        right
    }
}

/// Height of `y[i]` above its valley floor, clamped to `i64`.
pub open spec fn prominence_at(y: Seq<i64>, i: int) -> int {
    clamp_i64(y[i] - valley_floor(y, i))
}

/// `i` is an interior index whose value is strictly above both neighbours.
pub open spec fn is_local_max(y: Seq<i64>, i: int) -> bool {
    &&& 1 <= i <= y.len() - 2
    &&& y[i - 1] < y[i]
    &&& y[i] > y[i + 1]
}

/// `i` is a local maximum that meets both thresholds.
pub open spec fn is_peak(y: Seq<i64>, i: int, min_height: i64, min_prominence: i64) -> bool {
    &&& is_local_max(y, i)
    &&& y[i] >= min_height
    &&& prominence_at(y, i) >= min_prominence
}

/// The peak record for index `i` of `y`.
pub open spec fn peak_at(y: Seq<i64>, i: int) -> Peak {
    Peak { index: i as usize, value: y[i], prominence: prominence_at(y, i) as i64 }
}

/// The peaks of `y` at indices below `n`, in ascending order of index.
pub open spec fn peaks_before(y: Seq<i64>, min_height: i64, min_prominence: i64, n: int) -> Seq<
    Peak,
>
    decreases n,
{
    if n <= 0 {
        Seq::empty()
    } else {
        let rest = peaks_before(y, min_height, min_prominence, n - 1);
        if is_peak(y, n - 1, min_height, min_prominence) {
            rest.push(peak_at(y, n - 1))
        } else {
            rest
        }
    }
}

/// All peaks of `y`, in ascending order of index.
pub open spec fn peaks_of(y: Seq<i64>, min_height: i64, min_prominence: i64) -> Seq<Peak> {
    peaks_before(y, min_height, min_prominence, y.len() as int)
}

/// Consecutive differences of `y`, each clamped to `i64`.
pub open spec fn diff_of(y: Seq<i64>) -> Seq<i64> {
    Seq::new(
        if y.len() == 0 {
            0nat
        } else {
            (y.len() - 1) as nat
        },
        |i: int| clamp_i64(y[i + 1] - y[i]) as i64,
    )
}

/// Running sums of `s`: element `i` is `s[0] + ... + s[i]`.
pub open spec fn prefix_sums(s: Seq<int>) -> Seq<int>
    decreases s.len(),
{
    if s.len() == 0 {
        Seq::empty()
    } else {
        let head = prefix_sums(s.drop_last());
        if head.len() == 0 {
            seq![s.last()]
        } else {
            head.push(head.last() + s.last())
        }
    }
}

proof fn lemma_seq_min_bounds(s: Seq<i64>)
    ensures
        i64::MIN <= seq_min(s) <= i64::MAX,
        forall|j: int| 0 <= j < s.len() ==> seq_min(s) <= #[trigger] s[j],
        s.len() > 0 ==> exists|j: int| 0 <= j < s.len() && s[j] == seq_min(s),
    decreases s.len(),
{
    if s.len() > 0 {
        let head = s.drop_last();
        lemma_seq_min_bounds(head);
        assert forall|j: int| 0 <= j < s.len() implies seq_min(s) <= #[trigger] s[j] by {
            if j < s.len() - 1 {
                assert(head[j] == s[j]);
            }
        }
    }
}

/// Least element of `data[from..to]`, or `i64::MAX` where the range is empty.
fn range_min(data: &[i64], from: usize, to: usize) -> (m: i64)
    requires
        from <= to <= data@.len(),
    ensures
        m == seq_min(data@.subrange(from as int, to as int)),
{
    let mut m: i64 = i64::MAX;
    let mut j: usize = from;
    while j < to
        invariant
            from <= j <= to <= data@.len(),
            m == seq_min(data@.subrange(from as int, j as int)),
        decreases to - j,
    {
        assert(data@.subrange(from as int, j + 1).drop_last() =~= data@.subrange(
            from as int,
            j as int,
        ));
        if data[j] < m {
            m = data[j];
        }
        j = j + 1;
    }
    m
}

/// Prominence of the point at `peak_idx`: its height above the higher of the
/// lowest point to its left and the lowest point to its right.
pub fn calc_prominence(data: &[i64], peak_idx: usize) -> (prominence: i64)
    requires
        peak_idx < data@.len(),
    ensures
        prominence == prominence_at(data@, peak_idx as int),
{
    let len: usize = data.len();
    let left_min = range_min(data, 0, peak_idx);
    let right_min = range_min(data, peak_idx + 1, len);
    let higher_valley = if left_min >= right_min {
        left_min
    } else {
        right_min
    };
    match data[peak_idx].checked_sub(higher_valley) {
        Some(d) => d,
        None => if data[peak_idx] < higher_valley {
            i64::MIN
        } else {
            i64::MAX
        },
    }
}

/// Finds the peaks of `data`: every interior index whose value is strictly
/// above both neighbours, at least `min_height` and at least
/// `min_prominence` above its valley floor. `i64::MIN` as `min_height`
/// switches the height filter off.
pub fn find_peaks(data: &[i64], min_height: i64, min_prominence: i64) -> (peaks: Vec<Peak>)
    ensures
        peaks@ == peaks_of(data@, min_height, min_prominence),
        data@.len() < 3 ==> peaks@.len() == 0,
{
    let mut peaks: Vec<Peak> = Vec::new();
    if data.len() < 3 {
        proof {
            lemma_short_profile_has_no_peak(data@, min_height, min_prominence, data@.len() as int);
        }
        return peaks;
    }
    let mut i: usize = 1;
    assert(peaks_before(data@, min_height, min_prominence, 1) =~= Seq::<Peak>::empty()) by {
        reveal_with_fuel(peaks_before, 2);
    }
    while i < data.len() - 1
        invariant
            data@.len() >= 3,
            1 <= i <= data@.len() - 1,
            peaks@ == peaks_before(data@, min_height, min_prominence, i as int),
        decreases data@.len() - i,
    {
        if data[i] > data[i - 1] && data[i] > data[i + 1] && data[i] >= min_height {
            let prominence = calc_prominence(data, i);
            if prominence >= min_prominence {
                peaks.push(Peak::new(i, data[i], prominence));
            }
        }
        i = i + 1;
    }
    peaks
}

proof fn lemma_short_profile_has_no_peak(y: Seq<i64>, min_height: i64, min_prominence: i64, n: int)
    requires
        y.len() < 3,
    ensures
        peaks_before(y, min_height, min_prominence, n).len() == 0,
    decreases n,
{
    if n > 0 {
        lemma_short_profile_has_no_peak(y, min_height, min_prominence, n - 1);
    }
}

/// The largest value of `data` with the first index that holds it, or `None`
/// for empty data.
pub fn find_max(data: &[i64]) -> (found: Option<(i64, usize)>)
    ensures
        found is None <==> data@.len() == 0,
        found matches Some((value, index)) ==> {
            &&& index < data@.len()
            &&& data@[index as int] == value
            &&& forall|j: int| 0 <= j < data@.len() ==> data@[j] <= value
            &&& forall|j: int| 0 <= j < index ==> data@[j] < value
        },
{
    if data.len() == 0 {
        return None;
    }
    let mut max_val: i64 = data[0];
    let mut max_idx: usize = 0;
    let mut i: usize = 1;
    while i < data.len()
        invariant
            1 <= i <= data@.len(),
            max_idx < i,
            data@[max_idx as int] == max_val,
            forall|j: int| 0 <= j < i ==> data@[j] <= max_val,
            forall|j: int| 0 <= j < max_idx ==> data@[j] < max_val,
        decreases data@.len() - i,
    {
        if data[i] > max_val {
            max_val = data[i];
            max_idx = i;
        }
        i = i + 1;
    }
    Some((max_val, max_idx))
}

/// Differences between consecutive elements: element `i` of the result is
/// `data[i + 1] - data[i]`, clamped to `i64`.
pub fn diff(data: &[i64]) -> (deltas: Vec<i64>)
    ensures
        deltas@ == diff_of(data@),
{
    let mut deltas: Vec<i64> = Vec::new();
    if data.len() == 0 {
        return deltas;
    }
    let mut i: usize = 0;
    while i < data.len() - 1
        invariant
            data@.len() > 0,
            i <= data@.len() - 1,
            deltas@.len() == i,
            forall|k: int| 0 <= k < i ==> deltas@[k] == clamp_i64(data@[k + 1] - data@[k]),
        decreases data@.len() - i,
    {
        let d: i64 = match data[i + 1].checked_sub(data[i]) {
            Some(d) => d,
            None => if data[i + 1] < data[i] {
                i64::MIN
            } else {
                i64::MAX
            },
        };
        deltas.push(d);
        i = i + 1;
    }
    deltas
}

/// Hands the rows to rayon: `par_iter` over the slice, `map` with
/// [`find_peaks`] as the closure, `collect` into a vector. Rayon collects an
/// indexed iterator in the order of its source, so row `i` of the result is
/// what [`find_peaks`] returns for row `i` of `data`. Not proved.
#[verifier::external_body]
fn par_find_peaks(data: &[Vec<i64>], min_height: i64, min_prominence: i64) -> (rows: Vec<Vec<Peak>>)
    ensures
        rows@.len() == data@.len(),
        forall|i: int|
            0 <= i < data@.len() ==> (#[trigger] rows@[i])@ == peaks_of(
                data@[i]@,
                min_height,
                min_prominence,
            ),
{
    data.par_iter().map(|row| find_peaks(row, min_height, min_prominence)).collect()
}

/// Finds the peaks of every row, in parallel over the rows. No row depends
/// on another.
pub fn find_peaks_batch(data: &[Vec<i64>], min_height: i64, min_prominence: i64) -> (rows: Vec<
    Vec<Peak>,
>)
    ensures
        rows@.len() == data@.len(),
        forall|i: int|
            0 <= i < data@.len() ==> (#[trigger] rows@[i])@ == peaks_of(
                data@[i]@,
                min_height,
                min_prominence,
            ),
{
    par_find_peaks(data, min_height, min_prominence)
}

/// What [`peaks_of`] holds: exactly the peaks of `y`, each once, in
/// ascending order of index.
pub proof fn lemma_peaks_before(y: Seq<i64>, min_height: i64, min_prominence: i64, n: int)
    requires
        0 <= n <= y.len() <= usize::MAX,
    ensures
        forall|k: int|
            0 <= k < peaks_before(y, min_height, min_prominence, n).len() ==> {
                let peak = #[trigger] peaks_before(y, min_height, min_prominence, n)[k];
                &&& peak.index < n
                &&& is_peak(y, peak.index as int, min_height, min_prominence)
                &&& peak == peak_at(y, peak.index as int)
            },
        forall|j: int, k: int|
            0 <= j < k < peaks_before(y, min_height, min_prominence, n).len() ==> (
            #[trigger] peaks_before(y, min_height, min_prominence, n)[j]).index < (
            #[trigger] peaks_before(y, min_height, min_prominence, n)[k]).index,
        forall|i: int|
            0 <= i < n && is_peak(y, i, min_height, min_prominence) ==> exists|k: int|
                0 <= k < peaks_before(y, min_height, min_prominence, n).len() && (
                #[trigger] peaks_before(y, min_height, min_prominence, n)[k]).index == i,
    decreases n,
{
    if n > 0 {
        lemma_peaks_before(y, min_height, min_prominence, n - 1);
        let rest = peaks_before(y, min_height, min_prominence, n - 1);
        let all = peaks_before(y, min_height, min_prominence, n);
        assert forall|i: int| 0 <= i < n && is_peak(y, i, min_height, min_prominence) implies exists|
            k: int,
        | 0 <= k < all.len() && (#[trigger] all[k]).index == i by {
            if i < n - 1 {
                let k = choose|k: int| 0 <= k < rest.len() && (#[trigger] rest[k]).index == i;
                assert(all[k].index == i);
            } else {
                assert(all[all.len() - 1].index == i);
            }
        }
    }
}

/// A local maximum stands strictly above its valley floor.
pub proof fn lemma_local_max_is_prominent(y: Seq<i64>, i: int)
    requires
        is_local_max(y, i),
    ensures
        prominence_at(y, i) > 0,
{
    let right = y.subrange(i + 1, y.len() as int);
    lemma_seq_min_bounds(right);
    assert(right[0] == y[i + 1]);
}

/// With the height filter off and a minimum prominence of zero, the peaks
/// are exactly the interior points that stand strictly above both
/// neighbours.
pub proof fn lemma_unfiltered_peaks_are_local_maxima(y: Seq<i64>)
    requires
        y.len() <= usize::MAX,
    ensures
        forall|k: int|
            0 <= k < peaks_of(y, i64::MIN, 0).len() ==> is_local_max(
                y,
                (#[trigger] peaks_of(y, i64::MIN, 0)[k]).index as int,
            ),
        forall|i: int|
            is_local_max(y, i) ==> exists|k: int|
                0 <= k < peaks_of(y, i64::MIN, 0).len() && (#[trigger] peaks_of(
                    y,
                    i64::MIN,
                    0,
                )[k]).index == i,
{
    lemma_peaks_before(y, i64::MIN, 0, y.len() as int);
    let peaks = peaks_of(y, i64::MIN, 0);
    assert forall|i: int| is_local_max(y, i) implies exists|k: int|
        0 <= k < peaks.len() && (#[trigger] peaks[k]).index == i by {
        lemma_local_max_is_prominent(y, i);
        assert(is_peak(y, i, i64::MIN, 0));
    }
}

/// `y` as mathematical integers.
pub open spec fn as_ints(y: Seq<i64>) -> Seq<int> {
    Seq::new(y.len(), |i: int| y[i] as int)
}

/// Taking differences undoes running sums: where no difference of
/// neighbours leaves the range of `i64`, the running sums of the first
/// element followed by the differences are the profile itself.
pub proof fn lemma_diff_undoes_prefix_sums(y: Seq<i64>)
    requires
        y.len() > 0,
        forall|i: int| 0 <= i < y.len() - 1 ==> i64::MIN <= #[trigger] y[i + 1] - y[i] <= i64::MAX,
    ensures
        prefix_sums(seq![y[0] as int] + as_ints(diff_of(y))) == as_ints(y),
    decreases y.len(),
{
    let steps = seq![y[0] as int] + as_ints(diff_of(y));
    if y.len() == 1 {
        reveal_with_fuel(prefix_sums, 2);
    } else {
        let head = y.drop_last();
        lemma_diff_undoes_prefix_sums(head);
        let head_steps = seq![head[0] as int] + as_ints(diff_of(head));
        assert(steps.drop_last() =~= head_steps);
    }
}

} // verus!
