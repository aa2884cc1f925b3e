use vstd::prelude::*;
use crate::prior::{prior_weight, N_THRESHOLDS, THRESHOLD_PRIOR};
use crate::search::{absolute_threshold, threshold_lag};
use crate::tau::TauRange;

verus! {

/// A lag picked by at least one threshold, with the summed prior weight (in
/// millionths) of the thresholds that picked it.
#[derive(Clone, Copy, Debug, PartialEq, Eq, Structural)]
pub struct LagWeight {
    pub lag: usize,
    pub weight: u64,
}

/// The lag that threshold `n` picks.
pub open spec fn lag_at(keys: Seq<u64>, thr_keys: Seq<u64>, range: TauRange, n: int) -> Option<int> {
    threshold_lag(keys, thr_keys[n], range.start as int, range.end as int)
}

/// Summed prior weight of the thresholds below `n` that pick `lag`.
pub open spec fn lag_weight(keys: Seq<u64>, thr_keys: Seq<u64>, range: TauRange, lag: int, n: int) -> nat
    decreases n,
{
    if n <= 0 {
        0
    } else {
        lag_weight(keys, thr_keys, range, lag, n - 1) + if lag_at(keys, thr_keys, range, n - 1) == Some(lag) {
            prior_weight(n - 1)
        } else {
            0
        }
    }
}

/// Whether some threshold below `n` picks `lag`.
pub open spec fn picked(keys: Seq<u64>, thr_keys: Seq<u64>, range: TauRange, lag: int, n: int) -> bool {
    exists|m: int| 0 <= m < n && lag_at(keys, thr_keys, range, m) == Some(lag)
}

proof fn lemma_unpicked_weight(keys: Seq<u64>, thr_keys: Seq<u64>, range: TauRange, lag: int, n: int)
    requires
        !picked(keys, thr_keys, range, lag, n),
    ensures
        lag_weight(keys, thr_keys, range, lag, n) == 0,
    decreases n,
{
    if n > 0 {
        assert(!picked(keys, thr_keys, range, lag, n - 1)) by {
            if picked(keys, thr_keys, range, lag, n - 1) {
                let m = choose|m: int| 0 <= m < n - 1 && lag_at(keys, thr_keys, range, m) == Some(lag);
                assert(0 <= m < n && lag_at(keys, thr_keys, range, m) == Some(lag));
            }
        }
        lemma_unpicked_weight(keys, thr_keys, range, lag, n - 1);
        assert(lag_at(keys, thr_keys, range, n - 1) != Some(lag));
    }
}

/// Probabilistic threshold search: runs the absolute-threshold search at each
/// of the thresholds whose order keys `thr_keys` holds, and sums, for every
/// distinct lag found, the prior weights of the thresholds that found it.
/// Each found lag appears once; lags come in the order in which the
/// thresholds, taken in increasing order, first pick them.
pub fn probabilistic_threshold(keys: &Vec<u64>, thr_keys: &Vec<u64>, range: &TauRange) -> (r: Vec<LagWeight>)
    requires
        range.end <= keys@.len(),
        thr_keys@.len() == N_THRESHOLDS,
    ensures
        forall|i: int, j: int| 0 <= i < j < r@.len() ==> r@[i].lag != r@[j].lag,
        forall|i: int| 0 <= i < r@.len() ==> picked(keys@, thr_keys@, *range, #[trigger] r@[i].lag as int, N_THRESHOLDS as int),
        forall|i: int| 0 <= i < r@.len() ==>
            #[trigger] r@[i].weight == lag_weight(keys@, thr_keys@, *range, r@[i].lag as int, N_THRESHOLDS as int),
        forall|n: int| 0 <= n < N_THRESHOLDS ==> (#[trigger] lag_at(keys@, thr_keys@, *range, n) matches Some(t) ==>
            exists|i: int| 0 <= i < r@.len() && r@[i].lag == t),
        r@.len() == 0 <==> no_lag_picked(keys@, thr_keys@, *range),
        forall|i: int, j: int| 0 <= i < j < r@.len() ==> picked_earlier(keys@, thr_keys@, *range, r@[i].lag as int, r@[j].lag as int),
{
    let mut out: Vec<LagWeight> = Vec::new();
    let mut n: usize = 0;
    while n < N_THRESHOLDS
        invariant
            range.end <= keys@.len(),
            thr_keys@.len() == N_THRESHOLDS,
            n <= N_THRESHOLDS,
            forall|i: int, j: int| 0 <= i < j < out@.len() ==> out@[i].lag != out@[j].lag,
            forall|i: int| 0 <= i < out@.len() ==> picked(keys@, thr_keys@, *range, #[trigger] out@[i].lag as int, n as int),
            forall|i: int| 0 <= i < out@.len() ==>
                #[trigger] out@[i].weight == lag_weight(keys@, thr_keys@, *range, out@[i].lag as int, n as int),
            forall|i: int| 0 <= i < out@.len() ==> #[trigger] out@[i].weight <= n * 0xffff_ffff,
            forall|m: int| 0 <= m < n ==> (#[trigger] lag_at(keys@, thr_keys@, *range, m) matches Some(t) ==>
                exists|i: int| 0 <= i < out@.len() && out@[i].lag == t),
            forall|i: int, j: int| 0 <= i < j < out@.len() ==>
                picked_earlier(keys@, thr_keys@, *range, out@[i].lag as int, out@[j].lag as int),
        decreases N_THRESHOLDS - n,
    {
        let found = absolute_threshold(keys, thr_keys[n], range);
        let w = THRESHOLD_PRIOR[n] as u64;
        assert(w == prior_weight(n as int));
        let ghost prev = out@;
        match found {
            Some(t) => {
                let mut j: usize = 0;
                while j < out.len() && out[j].lag != t
                    invariant
                        j <= out@.len(),
                        forall|i: int| 0 <= i < j ==> out@[i].lag != t,
                    decreases out@.len() - j,
                {
                    j = j + 1;
                }
                if j < out.len() {
                    let e = out[j];
                    out.set(j, LagWeight { lag: t, weight: e.weight + w });
                } else {
                    proof {
                        assert(!picked(keys@, thr_keys@, *range, t as int, n as int)) by {
                            if picked(keys@, thr_keys@, *range, t as int, n as int) {
                                let m = choose|m: int| 0 <= m < n && lag_at(keys@, thr_keys@, *range, m) == Some(t as int);
                                assert(lag_at(keys@, thr_keys@, *range, m) matches Some(u) && u == t);
                                let i = choose|i: int| 0 <= i < out@.len() && out@[i].lag == t;
                            }
                        }
                        lemma_unpicked_weight(keys@, thr_keys@, *range, t as int, n as int);
                    }
                    out.push(LagWeight { lag: t, weight: w });
                    assert forall|i: int, k: int| 0 <= i < k < out@.len() implies
                        picked_earlier(keys@, thr_keys@, *range, out@[i].lag as int, out@[k].lag as int) by {
                        if k == out@.len() - 1 {
                            assert(picked(keys@, thr_keys@, *range, prev[i].lag as int, n as int));
                        } else {
                            assert(picked_earlier(keys@, thr_keys@, *range, prev[i].lag as int, prev[k].lag as int));
                        }
                    }
                }
                assert forall|i: int| 0 <= i < out@.len() implies
                    picked(keys@, thr_keys@, *range, #[trigger] out@[i].lag as int, n + 1) by {
                    if i < prev.len() {
                        assert(picked(keys@, thr_keys@, *range, prev[i].lag as int, n as int));
                    } else {
                        assert(lag_at(keys@, thr_keys@, *range, n as int) == Some(t as int));
                    }
                }
                assert forall|m: int| 0 <= m < n + 1 implies (#[trigger] lag_at(keys@, thr_keys@, *range, m) matches Some(u) ==>
                    exists|i: int| 0 <= i < out@.len() && out@[i].lag == u) by {
                    if m < n {
                        if let Some(u) = lag_at(keys@, thr_keys@, *range, m) {
                            let i = choose|i: int| 0 <= i < prev.len() && prev[i].lag == u;
                            assert(out@[i].lag == u);
                        }
                    } else {
                        assert(out@[j as int].lag == t);
                    }
                }
            },
            None => {
                assert forall|i: int| 0 <= i < out@.len() implies
                    picked(keys@, thr_keys@, *range, #[trigger] out@[i].lag as int, n + 1) by {
                    assert(picked(keys@, thr_keys@, *range, out@[i].lag as int, n as int));
                }
            },
        }
        n = n + 1;
    }
    proof {
        if out@.len() > 0 {
            assert(picked(keys@, thr_keys@, *range, out@[0].lag as int, N_THRESHOLDS as int));
        }
        if !no_lag_picked(keys@, thr_keys@, *range) {
            let n = choose|n: int| 0 <= n < N_THRESHOLDS && lag_at(keys@, thr_keys@, *range, n) is Some;
            assert(lag_at(keys@, thr_keys@, *range, n) is Some);
        }
    }
    out
}

/// Whether some threshold picks `a` while no threshold up to it picks `b`.
pub open spec fn picked_earlier(keys: Seq<u64>, thr_keys: Seq<u64>, range: TauRange, a: int, b: int) -> bool {
    exists|n: int| picked(keys, thr_keys, range, a, n) && !picked(keys, thr_keys, range, b, n)
}

/// Whether no threshold picks any lag.
pub open spec fn no_lag_picked(keys: Seq<u64>, thr_keys: Seq<u64>, range: TauRange) -> bool {
    forall|n: int| 0 <= n < N_THRESHOLDS ==> (#[trigger] lag_at(keys, thr_keys, range, n)) is None
}

/// An empty searched range, or a curve whose keys in the searched range all
/// lie at or above every threshold (as silence does, its normalised
/// difference being undefined and read as unbounded), yields no candidate lag.
pub proof fn lemma_no_crossing_no_candidates(keys: Seq<u64>, thr_keys: Seq<u64>, range: TauRange)
    requires
        thr_keys.len() == N_THRESHOLDS,
        range.start >= range.end || forall|tau: int, n: int| range.start <= tau < range.end && 0 <= n < N_THRESHOLDS ==>
            #[trigger] keys[tau] >= #[trigger] thr_keys[n],
    ensures
        no_lag_picked(keys, thr_keys, range),
{
    assert forall|n: int| 0 <= n < N_THRESHOLDS implies (#[trigger] lag_at(keys, thr_keys, range, n)) is None by {
        lemma_no_key_below(keys, thr_keys[n], range.start as int, range.end as int);
    }
}

proof fn lemma_no_key_below(keys: Seq<u64>, thr: u64, tau: int, end: int)
    requires
        forall|x: int| tau <= x < end ==> keys[x] >= thr,
    ensures
        crate::search::first_below(keys, thr, tau, end) is None,
    decreases end - tau,
{
    if tau < end {
        lemma_no_key_below(keys, thr, tau + 1, end);
    }
}

} // verus!
