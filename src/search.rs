use vstd::prelude::*;
use crate::tau::TauRange;

verus! {

/// The first lag in `[tau, end)` whose key lies below `thr`.
pub open spec fn first_below(keys: Seq<u64>, thr: u64, tau: int, end: int) -> Option<int>
    decreases end - tau,
{
    if tau >= end {
        None
    } else if keys[tau] < thr {
        Some(tau)
    } else {
        first_below(keys, thr, tau + 1, end)
    }
}

/// The local minimum reached from `tau` by stepping forward while the next
/// key, still before `end`, is strictly smaller.
pub open spec fn descend(keys: Seq<u64>, tau: int, end: int) -> int
    decreases end - tau,
{
    if tau + 1 < end && keys[tau + 1] < keys[tau] {
        descend(keys, tau + 1, end)
    } else {
        tau
    }
}

/// The lag chosen by the absolute threshold: the local minimum that follows
/// the first key below `thr` in `[start, end)`, if any key there is below it.
pub open spec fn threshold_lag(keys: Seq<u64>, thr: u64, start: int, end: int) -> Option<int> {
    match first_below(keys, thr, start, end) {
        Some(t) => Some(descend(keys, t, end)),
        None => None,
    }
}

/// Absolute-threshold search over a curve of order keys: scans the range for
/// the first key below `thr`, then walks forward to the local minimum.
/// Returns `None` when no key in the range lies below `thr`.
pub fn absolute_threshold(keys: &Vec<u64>, thr: u64, range: &TauRange) -> (r: Option<usize>)
    requires
        range.end <= keys@.len(),
    ensures
        r matches Some(t) ==> Some(t as int) == threshold_lag(keys@, thr, range.start as int, range.end as int),
        r is None ==> threshold_lag(keys@, thr, range.start as int, range.end as int) is None,
{
    let end = range.end;
    let mut tau: usize = range.start;
    while tau < end && keys[tau] >= thr
        invariant
            end == range.end,
            end <= keys@.len(),
            range.start <= tau,
            first_below(keys@, thr, range.start as int, end as int) == first_below(keys@, thr, tau as int, end as int),
        decreases end - tau,
    {
        tau = tau + 1;
    }
    if tau >= end {
        return None;
    }
    let ghost first = tau as int;
    while tau + 1 < end && keys[tau + 1] < keys[tau]
        invariant
            end == range.end,
            end <= keys@.len(),
            first <= tau < end,
            descend(keys@, first, end as int) == descend(keys@, tau as int, end as int),
        decreases end - tau,
    {
        tau = tau + 1;
    }
    Some(tau)
}

/// How a lag estimate is refined: kept as a whole lag at the edges of the
/// curve, or refined between its neighbours inside it.
#[derive(Clone, Copy, Debug, PartialEq, Eq, Structural)]
pub enum Refinement {
    /// The estimate is this whole lag.
    Exact(usize),
    /// The estimate is this lag moved by the parabola through it and its two
    /// neighbours.
    Parabolic(usize),
}

/// Chooses how the lag `t` is refined on a curve of order keys: at the left
/// edge the smaller of `t` and `t + 1` (preferring `t` on a tie); at the right
/// edge `t - 1`; inside, a parabolic step around `t`.
pub fn refinement(keys: &Vec<u64>, t: usize) -> (r: Refinement)
    requires
        t < 1 ==> t + 1 < keys@.len(),
    ensures
        t < 1 ==> r == (if keys@[t as int] <= keys@[t + 1] { Refinement::Exact(t) } else { Refinement::Exact((t + 1) as usize) }),
        t >= 1 && t + 1 >= keys@.len() ==> r == Refinement::Exact((t - 1) as usize),
        t >= 1 && t + 1 < keys@.len() ==> r == Refinement::Parabolic(t),
{
    if t < 1 {
        if keys[t] <= keys[t + 1] {
            Refinement::Exact(t)
        } else {
            Refinement::Exact(t + 1)
        }
    } else if t >= keys.len() || t + 1 >= keys.len() {
        Refinement::Exact(t - 1)
    } else {
        Refinement::Parabolic(t)
    }
}

proof fn lemma_first_below_found(keys: Seq<u64>, thr: u64, tau: int, end: int)
    requires
        first_below(keys, thr, tau, end) is Some,
    ensures
        ({
            let f = first_below(keys, thr, tau, end)->Some_0;
            &&& tau <= f < end
            &&& keys[f] < thr
            &&& forall|x: int| tau <= x < f ==> keys[x] >= thr
        }),
    decreases end - tau,
{
    if tau < end && keys[tau] >= thr {
        lemma_first_below_found(keys, thr, tau + 1, end);
    }
}

proof fn lemma_first_below_at(keys: Seq<u64>, thr: u64, tau: int, f: int, end: int)
    requires
        tau <= f < end,
        keys[f] < thr,
        forall|x: int| tau <= x < f ==> keys[x] >= thr,
    ensures
        first_below(keys, thr, tau, end) == Some(f),
    decreases f - tau,
{
    if tau < f {
        lemma_first_below_at(keys, thr, tau + 1, f, end);
    }
}

/// A lag `y` on the descent from `tau` leads to the same minimum and has a
/// key no larger than `keys[tau]`.
proof fn lemma_descend_chain(keys: Seq<u64>, tau: int, end: int, y: int)
    requires
        tau <= y <= descend(keys, tau, end),
    ensures
        descend(keys, y, end) == descend(keys, tau, end),
        keys[y] <= keys[tau],
    decreases end - tau,
{
    if y > tau {
        lemma_descend_chain(keys, tau + 1, end, y);
    }
}

proof fn lemma_descend_from(keys: Seq<u64>, tau: int, end: int)
    ensures
        tau <= descend(keys, tau, end),
    decreases end - tau,
{
    if tau + 1 < end && keys[tau + 1] < keys[tau] {
        lemma_descend_from(keys, tau + 1, end);
    }
}

proof fn lemma_descend_shorter_end(keys: Seq<u64>, tau: int, end: int, end0: int)
    requires
        end <= end0,
        descend(keys, tau, end0) < end,
    ensures
        descend(keys, tau, end) == descend(keys, tau, end0),
    decreases end0 - tau,
{
    if tau + 1 < end0 && keys[tau + 1] < keys[tau] {
        lemma_descend_from(keys, tau + 1, end0);
        lemma_descend_shorter_end(keys, tau + 1, end, end0);
    }
}

/// Narrowing the searched range to any sub-range that still holds the lag
/// found over the wider range finds that same lag again.
pub proof fn lemma_restricted_range_keeps_lag(
    keys: Seq<u64>,
    thr: u64,
    start0: int,
    end0: int,
    start: int,
    end: int,
    t: int,
)
    requires
        0 <= start0 <= start,
        end <= end0 <= keys.len(),
        threshold_lag(keys, thr, start0, end0) == Some(t),
        start <= t < end,
    ensures
        threshold_lag(keys, thr, start, end) == Some(t),
{
    lemma_first_below_found(keys, thr, start0, end0);
    let f = first_below(keys, thr, start0, end0)->Some_0;
    lemma_descend_from(keys, f, end0);
    if start <= f {
        lemma_first_below_at(keys, thr, start, f, end);
        lemma_descend_shorter_end(keys, f, end, end0);
    } else {
        lemma_descend_chain(keys, f, end0, start);
        lemma_first_below_at(keys, thr, start, start, end);
        lemma_descend_shorter_end(keys, start, end, end0);
    }
}

} // verus!
