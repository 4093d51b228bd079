//! What the master reports after the measurement loop: the lost cycles and
//! the minimum, mean and maximum round-trip time of the successful ones.
use vstd::prelude::*;
use crate::types::{Sample, Status};

verus! {

/// Number of samples whose status is not `Okay`.
pub open spec fn lost_count_of(samples: Seq<Sample>) -> nat
    decreases samples.len(),
{
    if samples.len() == 0 {
        0
    } else {
        lost_count_of(samples.drop_last()) + if samples.last().status != Status::Okay {
            1nat
        } else {
            0nat
        }
    }
}

/// Indices of the samples whose status is not `Okay`, in increasing order.
pub open spec fn lost_indices_of(samples: Seq<Sample>) -> Seq<usize>
    decreases samples.len(),
{
    if samples.len() == 0 {
        Seq::empty()
    } else if samples.last().status != Status::Okay {
        lost_indices_of(samples.drop_last()).push((samples.len() - 1) as usize)
    } else {
        lost_indices_of(samples.drop_last())
    }
}

/// The round-trip times of the `Okay` samples, in order.
pub open spec fn ok_rtts_of(samples: Seq<Sample>) -> Seq<i64>
    decreases samples.len(),
{
    if samples.len() == 0 {
        Seq::empty()
    } else if samples.last().status == Status::Okay {
        ok_rtts_of(samples.drop_last()).push(samples.last().rtt_us)
    } else {
        ok_rtts_of(samples.drop_last())
    }
}

/// The sum of a sequence of round-trip times.
pub open spec fn sum_of(s: Seq<i64>) -> int
    decreases s.len(),
{
    if s.len() == 0 {
        0
    } else {
        sum_of(s.drop_last()) + s.last()
    }
}

/// Whether every running sum of `s` (summed from the front) fits in an
/// `i64`, so that adding the values one by one never overflows.
pub open spec fn running_sums_fit(s: Seq<i64>) -> bool {
    forall|k: int| 0 <= k <= s.len() ==> i64::MIN <= #[trigger] sum_of(s.take(k)) <= i64::MAX
}

/// The smallest value of a non-empty sequence.
pub open spec fn min_of(s: Seq<i64>) -> i64
    decreases s.len(),
{
    if s.len() <= 1 {
        s[0]
    } else {
        let m = min_of(s.drop_last());
        if s.last() < m { s.last() } else { m }
    }
}

/// The largest value of a non-empty sequence.
pub open spec fn max_of(s: Seq<i64>) -> i64
    decreases s.len(),
{
    if s.len() <= 1 {
        s[0]
    } else {
        let m = max_of(s.drop_last());
        if s.last() > m { s.last() } else { m }
    }
}

/// Integer division rounded toward zero, as Rust's `/` does.
pub open spec fn trunc_div(a: int, b: int) -> int {
    if a >= 0 {
        a / b
    } else {
        -((-a) / b)
    }
}

/// Minimum, mean (rounded toward zero) and maximum round-trip time in
/// microseconds.
#[derive(Clone, Copy, Debug, PartialEq, Eq, Structural)]
pub struct RttSummary {
    pub min: i64,
    pub mean: i64,
    pub max: i64,
}


/// Every cycle is either lost or successful: the lost count plus the number
/// of successful round-trip times is the number of samples, and the lost
/// indices are exactly as many as the lost cycles, each naming a sample
/// whose status is not `Okay`. (Index values are `usize`, so the sequence
/// is one that a `Vec` can hold.)
pub proof fn lemma_lost_and_ok_partition(samples: Seq<Sample>)
    requires
        samples.len() <= usize::MAX,
    ensures
        lost_count_of(samples) + ok_rtts_of(samples).len() == samples.len(),
        lost_indices_of(samples).len() == lost_count_of(samples),
        forall|j: int| 0 <= j < lost_indices_of(samples).len() ==> {
            let k = #[trigger] lost_indices_of(samples)[j];
            &&& k < samples.len()
            &&& samples[k as int].status != Status::Okay
        },
    decreases samples.len(),
{
    if samples.len() > 0 {
        lemma_lost_and_ok_partition(samples.drop_last());
        let prev = lost_indices_of(samples.drop_last());
        assert forall|j: int| 0 <= j < lost_indices_of(samples).len() implies {
            let k = #[trigger] lost_indices_of(samples)[j];
            &&& k < samples.len()
            &&& samples[k as int].status != Status::Okay
        } by {
            if j < prev.len() {
                assert(lost_indices_of(samples)[j] == prev[j]);
                assert(samples.drop_last()[prev[j] as int] == samples[prev[j] as int]);
            } else {
                assert(samples.last().status != Status::Okay);
                assert(lost_indices_of(samples) == prev.push((samples.len() - 1) as usize));
                assert(lost_indices_of(samples)[j] == (samples.len() - 1) as usize);
            }
        }
    }
}

/// The successful round-trip times are exactly the `rtt_us` fields of the
/// `Okay` samples, in the samples' order: the returned `idx` lists the
/// positions of the `Okay` samples in increasing order, and entry `k` of
/// the round-trip times is the `rtt_us` of sample `idx[k]`.
pub proof fn lemma_ok_rtts_are_okay_samples(samples: Seq<Sample>) -> (idx: Seq<int>)
    ensures
        idx.len() == ok_rtts_of(samples).len(),
        forall|k: int| 0 <= k < idx.len() ==> {
            &&& 0 <= #[trigger] idx[k] < samples.len()
            &&& samples[idx[k]].status == Status::Okay
            &&& ok_rtts_of(samples)[k] == samples[idx[k]].rtt_us
        },
        forall|k: int, j: int| 0 <= k < j < idx.len() ==> idx[k] < idx[j],
        forall|i: int|
            0 <= i < samples.len() && #[trigger] samples[i].status == Status::Okay ==> exists|
                k: int,
            | 0 <= k < idx.len() && idx[k] == i,
    decreases samples.len(),
{
    if samples.len() == 0 {
        Seq::empty()
    } else {
        let p = samples.drop_last();
        let prev = lemma_ok_rtts_are_okay_samples(p);
        let last = samples.len() - 1;
        assert forall|i: int| 0 <= i < p.len() implies #[trigger] p[i] == samples[i] by {}
        if samples.last().status == Status::Okay {
            let idx = prev.push(last);
            assert(ok_rtts_of(samples) == ok_rtts_of(p).push(samples.last().rtt_us));
            assert forall|k: int| 0 <= k < idx.len() implies {
                &&& 0 <= #[trigger] idx[k] < samples.len()
                &&& samples[idx[k]].status == Status::Okay
                &&& ok_rtts_of(samples)[k] == samples[idx[k]].rtt_us
            } by {
                if k < prev.len() {
                    assert(idx[k] == prev[k]);
                    assert(p[prev[k]] == samples[prev[k]]);
                }
            }
            assert forall|i: int|
                0 <= i < samples.len() && #[trigger] samples[i].status
                    == Status::Okay implies exists|k: int| 0 <= k < idx.len() && idx[k] == i by {
                if i == last {
                    assert(idx[prev.len() as int] == i);
                } else {
                    assert(p[i].status == Status::Okay);
                    let k = choose|k: int| 0 <= k < prev.len() && prev[k] == i;
                    assert(idx[k] == i);
                }
            }
            idx
        } else {
            assert(ok_rtts_of(samples) == ok_rtts_of(p));
            assert forall|k: int| 0 <= k < prev.len() implies {
                &&& 0 <= #[trigger] prev[k] < samples.len()
                &&& samples[prev[k]].status == Status::Okay
                &&& ok_rtts_of(samples)[k] == samples[prev[k]].rtt_us
            } by {
                assert(p[prev[k]] == samples[prev[k]]);
            }
            assert forall|i: int|
                0 <= i < samples.len() && #[trigger] samples[i].status
                    == Status::Okay implies exists|k: int| 0 <= k < prev.len() && prev[k] == i by {
                assert(i != last);
                assert(p[i].status == Status::Okay);
            }
            prev
        }
    }
}

/// The minimum and maximum are values of the sequence, bound every element,
/// and bracket the sum: `len * min <= sum <= len * max`.
pub proof fn lemma_min_max_bounds(s: Seq<i64>)
    requires
        s.len() > 0,
    ensures
        forall|i: int| 0 <= i < s.len() ==> min_of(s) <= #[trigger] s[i] <= max_of(s),
        exists|i: int| 0 <= i < s.len() && s[i] == min_of(s),
        exists|i: int| 0 <= i < s.len() && s[i] == max_of(s),
        s.len() * min_of(s) <= sum_of(s) <= s.len() * max_of(s),
    decreases s.len(),
{
    if s.len() == 1 {
        assert(s.drop_last() =~= Seq::<i64>::empty());
        assert(s[0] == min_of(s));
        assert(s[0] == max_of(s));
        assert(sum_of(s.drop_last()) == 0);
        assert(sum_of(s) == s[0]);
    } else {
        let p = s.drop_last();
        lemma_min_max_bounds(p);
        assert forall|i: int| 0 <= i < s.len() implies min_of(s) <= #[trigger] s[i] <= max_of(s) by {
            if i < p.len() {
                assert(s[i] == p[i]);
            }
        }
        if s.last() < min_of(p) {
            assert(s[s.len() - 1] == min_of(s));
        } else {
            let w = choose|i: int| 0 <= i < p.len() && p[i] == min_of(p);
            assert(s[w] == min_of(s));
        }
        if s.last() > max_of(p) {
            assert(s[s.len() - 1] == max_of(s));
        } else {
            let w = choose|i: int| 0 <= i < p.len() && p[i] == max_of(p);
            assert(s[w] == max_of(s));
        }
        let n = p.len() as int;
        let lo = min_of(s) as int;
        let hi = max_of(s) as int;
        let plo = min_of(p) as int;
        let phi = max_of(p) as int;
        let x = s.last() as int;
        assert(n * lo <= n * plo) by (nonlinear_arith)
            requires
                lo <= plo,
                n >= 0,
        ;
        assert(n * phi <= n * hi) by (nonlinear_arith)
            requires
                phi <= hi,
                n >= 0,
        ;
        assert((n + 1) * lo == n * lo + lo) by (nonlinear_arith);
        assert((n + 1) * hi == n * hi + hi) by (nonlinear_arith);
        assert(sum_of(s) == sum_of(p) + x);
        assert(lo <= plo && lo <= x);
        assert(phi <= hi && x <= hi);
        assert(s.len() == n + 1);
    }
}

/// The reported mean lies between the reported minimum and maximum.
pub proof fn lemma_mean_between_min_and_max(s: Seq<i64>)
    requires
        s.len() > 0,
    ensures
        min_of(s) <= trunc_div(sum_of(s), s.len() as int) <= max_of(s),
{
    lemma_min_max_bounds(s);
    let n = s.len() as int;
    let a = sum_of(s);
    let lo = min_of(s) as int;
    let hi = max_of(s) as int;
    if a >= 0 {
        assert(lo <= a / n <= hi) by (nonlinear_arith)
            requires
                n > 0,
                n * lo <= a <= n * hi,
                a >= 0,
        ;
    } else {
        assert(lo <= -((-a) / n) <= hi) by (nonlinear_arith)
            requires
                n > 0,
                n * lo <= a <= n * hi,
                a < 0,
        ;
    }
}

/// Number of lost cycles (status other than `Okay`).
pub fn lost_count(samples: &Vec<Sample>) -> (r: usize)
    ensures
        r == lost_count_of(samples@),
{
    let mut count: usize = 0;
    let mut i: usize = 0;
    while i < samples.len()
        invariant
            i <= samples@.len(),
            count == lost_count_of(samples@.take(i as int)),
            count <= i,
        decreases samples@.len() - i,
    {
        assert(samples@.take(i + 1).drop_last() =~= samples@.take(i as int));
        if samples[i].status != Status::Okay {
            count = count + 1;
        }
        i = i + 1;
    }
    assert(samples@.take(i as int) =~= samples@);
    count
}

/// Indices of the lost cycles, in increasing order.
pub fn lost_cycles(samples: &Vec<Sample>) -> (r: Vec<usize>)
    ensures
        r@ == lost_indices_of(samples@),
{
    let mut out: Vec<usize> = Vec::new();
    let mut i: usize = 0;
    while i < samples.len()
        invariant
            i <= samples@.len(),
            out@ == lost_indices_of(samples@.take(i as int)),
        decreases samples@.len() - i,
    {
        assert(samples@.take(i + 1).drop_last() =~= samples@.take(i as int));
        if samples[i].status != Status::Okay {
            out.push(i);
        }
        i = i + 1;
    }
    assert(samples@.take(i as int) =~= samples@);
    out
}

/// The round-trip times of the successful cycles, in order.
pub fn ok_rtts(samples: &Vec<Sample>) -> (r: Vec<i64>)
    ensures
        r@ == ok_rtts_of(samples@),
        forall|k: int|
            0 <= k < r@.len() ==> exists|i: int|
                0 <= i < samples@.len() && #[trigger] samples@[i].status == Status::Okay
                    && #[trigger] r@[k] == samples@[i].rtt_us,
{
    let mut out: Vec<i64> = Vec::new();
    let mut i: usize = 0;
    while i < samples.len()
        invariant
            i <= samples@.len(),
            out@ == ok_rtts_of(samples@.take(i as int)),
        decreases samples@.len() - i,
    {
        assert(samples@.take(i + 1).drop_last() =~= samples@.take(i as int));
        if samples[i].status == Status::Okay {
            out.push(samples[i].rtt_us);
        }
        i = i + 1;
    }
    assert(samples@.take(i as int) =~= samples@);
    proof {
        let idx = lemma_ok_rtts_are_okay_samples(samples@);
        assert forall|k: int| 0 <= k < out@.len() implies exists|i: int|
            0 <= i < samples@.len() && #[trigger] samples@[i].status == Status::Okay
                && #[trigger] out@[k] == samples@[i].rtt_us by {
            assert(0 <= idx[k] < samples@.len());
            assert(samples@[idx[k]].status == Status::Okay);
        }
    }
    out
}

/// The sum of `rtts`, or `None` when adding them one by one from the front
/// would leave the `i64` range on the way.
pub fn checked_rtt_sum(rtts: &Vec<i64>) -> (r: Option<i64>)
    ensures
        r == if running_sums_fit(rtts@) {
            Some(sum_of(rtts@) as i64)
        } else {
            None::<i64>
        },
{
    let mut sum: i64 = 0;
    let mut i: usize = 0;
    assert(sum_of(rtts@.take(0)) == 0) by {
        assert(rtts@.take(0) =~= Seq::<i64>::empty());
    }
    while i < rtts.len()
        invariant
            i <= rtts@.len(),
            sum == sum_of(rtts@.take(i as int)),
            forall|k: int| 0 <= k <= i ==> i64::MIN <= #[trigger] sum_of(rtts@.take(k)) <= i64::MAX,
        decreases rtts@.len() - i,
    {
        assert(rtts@.take(i + 1).drop_last() =~= rtts@.take(i as int));
        match sum.checked_add(rtts[i]) {
            Some(next) => {
                sum = next;
                i = i + 1;
            },
            None => {
                assert(!running_sums_fit(rtts@)) by {
                    assert(!(i64::MIN <= sum_of(rtts@.take(i + 1)) <= i64::MAX));
                }
                return None;
            },
        }
    }
    assert(rtts@.take(i as int) =~= rtts@);
    Some(sum)
}

/// Minimum, mean and maximum of `rtts`, or `None` when there are none.
/// The mean is the sum divided by the count, rounded toward zero.
pub fn rtt_summary(rtts: &Vec<i64>) -> (r: Option<RttSummary>)
    requires
        running_sums_fit(rtts@),
    ensures
        r is None <==> rtts@.len() == 0,
        r matches Some(s) ==> {
            &&& s.min == min_of(rtts@)
            &&& s.max == max_of(rtts@)
            &&& s.mean == trunc_div(sum_of(rtts@), rtts@.len() as int)
        },
{
    if rtts.len() == 0 {
        return None;
    }
    let mut lo: i64 = rtts[0];
    let mut hi: i64 = rtts[0];
    let mut sum: i64 = 0;
    let mut i: usize = 0;
    assert(rtts@.take(0) =~= Seq::<i64>::empty());
    while i < rtts.len()
        invariant
            0 < rtts@.len(),
            i <= rtts@.len(),
            running_sums_fit(rtts@),
            sum == sum_of(rtts@.take(i as int)),
            i == 0 ==> lo == rtts@[0] && hi == rtts@[0],
            i > 0 ==> lo == min_of(rtts@.take(i as int)) && hi == max_of(rtts@.take(i as int)),
        decreases rtts@.len() - i,
    {
        let v = rtts[i];
        assert(rtts@.take(i + 1).drop_last() =~= rtts@.take(i as int));
        assert(i64::MIN <= sum_of(rtts@.take(i + 1)) <= i64::MAX);
        sum = sum + v;
        if i > 0 {
            if v < lo {
                lo = v;
            }
            if v > hi {
                hi = v;
            }
        }
        i = i + 1;
    }
    assert(rtts@.take(i as int) =~= rtts@);
    let n: u128 = rtts.len() as u128;
    let wide: i128 = sum as i128;
    let magnitude: u128 = if wide >= 0 { wide as u128 } else { (0i128 - wide) as u128 };
    let q: u128 = magnitude / n;
    assert(q <= magnitude) by (nonlinear_arith)
        requires
            q == magnitude / n,
            n >= 1,
    ;
    let mean: i64 = if sum >= 0 {
        q as i64
    } else {
        (0i128 - (q as i128)) as i64
    };
    Some(RttSummary { min: lo, mean, max: hi })
}

} // verus!
