use vstd::prelude::*;

verus! {

/// Number of semitone bins, C0 to B8.
pub const N_BINS: usize = 108;

/// Number of hidden states: each bin on a primary and on a shadow track.
pub const N_STATES: usize = 216;

/// Half-width, in bins, of the triangular transition window.
pub const HALF_WIDTH: usize = 6;

/// Share, in hundredths, of a window weight that stays on the same track.
pub const SAME_TRACK_PERCENT: u64 = 99;

/// Share, in hundredths, of a window weight that switches track.
pub const SWITCH_TRACK_PERCENT: u64 = 1;

pub open spec fn abs_diff(a: int, b: int) -> nat {
    if a >= b { (a - b) as nat } else { (b - a) as nat }
}

/// Triangular window weight for moving from bin `i` to bin `j`: 7 at `j == i`,
/// one less per bin of distance, zero beyond the half-width or outside the bins.
pub open spec fn window_weight(i: int, j: int) -> nat {
    if 0 <= j < N_BINS && abs_diff(i, j) <= HALF_WIDTH {
        (HALF_WIDTH + 1 - abs_diff(i, j)) as nat
    } else {
        0
    }
}

/// Sum of the window weights of bin `i` over the bins below `k`.
pub open spec fn window_sum(i: int, k: int) -> nat
    decreases k,
{
    if k <= 0 { 0 } else { window_sum(i, k - 1) + window_weight(i, k - 1) }
}

/// The bin a state stands for.
pub open spec fn bin_of(s: int) -> int {
    if s < N_BINS { s } else { s - N_BINS }
}

/// Whether a state lies on the primary track.
pub open spec fn is_primary(s: int) -> bool {
    s < N_BINS
}

/// Numerator of the transition probability from state `r` to state `c`.
pub open spec fn transition_num(r: int, c: int) -> nat {
    window_weight(bin_of(r), bin_of(c)) * if is_primary(r) == is_primary(c) {
        SAME_TRACK_PERCENT as nat
    } else {
        SWITCH_TRACK_PERCENT as nat
    }
}

/// Common denominator of the transition probabilities out of state `r`.
pub open spec fn transition_den(r: int) -> nat {
    100 * window_sum(bin_of(r), N_BINS as int)
}

/// Sum of the numerators of row `r` over the states below `k`.
pub open spec fn row_sum(r: int, k: int) -> nat
    decreases k,
{
    if k <= 0 { 0 } else { row_sum(r, k - 1) + transition_num(r, k - 1) }
}

proof fn lemma_window_sum_bound(i: int, k: int)
    requires
        0 <= k <= N_BINS,
    ensures
        window_sum(i, k) <= 7 * k,
    decreases k,
{
    if k > 0 {
        lemma_window_sum_bound(i, k - 1);
    }
}

proof fn lemma_window_sum_positive(i: int, k: int)
    requires
        0 <= i < k <= N_BINS,
    ensures
        window_sum(i, k) >= 7,
    decreases k,
{
    if k - 1 > i {
        lemma_window_sum_positive(i, k - 1);
    } else {
        assert(window_weight(i, i) == 7);
    }
}

proof fn lemma_row_sum_first_track(r: int, k: int, a: nat)
    requires
        0 <= r < N_STATES,
        0 <= k <= N_BINS,
        a == (if is_primary(r) { SAME_TRACK_PERCENT } else { SWITCH_TRACK_PERCENT }),
    ensures
        row_sum(r, k) == a * window_sum(bin_of(r), k),
    decreases k,
{
    if k > 0 {
        lemma_row_sum_first_track(r, k - 1, a);
        let w = window_weight(bin_of(r), k - 1);
        assert(transition_num(r, k - 1) == w * a);
        assert(a * window_sum(bin_of(r), k) == a * window_sum(bin_of(r), k - 1) + w * a)
            by (nonlinear_arith)
            requires
                window_sum(bin_of(r), k) == window_sum(bin_of(r), k - 1) + w,
        ;
    }
}

proof fn lemma_row_sum_second_track(r: int, k: int, a: nat, b: nat)
    requires
        0 <= r < N_STATES,
        N_BINS <= k <= N_STATES,
        a == (if is_primary(r) { SAME_TRACK_PERCENT } else { SWITCH_TRACK_PERCENT }),
        b == (if is_primary(r) { SWITCH_TRACK_PERCENT } else { SAME_TRACK_PERCENT }),
    ensures
        row_sum(r, k) == a * window_sum(bin_of(r), N_BINS as int) + b * window_sum(bin_of(r), k - N_BINS),
    decreases k,
{
    if k > N_BINS {
        lemma_row_sum_second_track(r, k - 1, a, b);
        let w = window_weight(bin_of(r), k - 1 - N_BINS);
        assert(bin_of(k - 1) == k - 1 - N_BINS);
        assert(transition_num(r, k - 1) == w * b);
        assert(b * window_sum(bin_of(r), k - N_BINS) == b * window_sum(bin_of(r), k - 1 - N_BINS) + w * b)
            by (nonlinear_arith)
            requires
                window_sum(bin_of(r), k - N_BINS) == window_sum(bin_of(r), k - 1 - N_BINS) + w,
        ;
    } else {
        lemma_row_sum_first_track(r, k, a);
    }
}

/// The transition matrix is row-stochastic: the numerators of every row add
/// up to that row's denominator, which is positive.
pub proof fn lemma_transition_row_stochastic(r: int)
    requires
        0 <= r < N_STATES,
    ensures
        row_sum(r, N_STATES as int) == transition_den(r),
        transition_den(r) > 0,
{
    let a: nat = if is_primary(r) { SAME_TRACK_PERCENT as nat } else { SWITCH_TRACK_PERCENT as nat };
    let b: nat = if is_primary(r) { SWITCH_TRACK_PERCENT as nat } else { SAME_TRACK_PERCENT as nat };
    lemma_row_sum_second_track(r, N_STATES as int, a, b);
    lemma_window_sum_positive(bin_of(r), N_BINS as int);
    let w = window_sum(bin_of(r), N_BINS as int);
    assert(a * w + b * w == 100 * w) by (nonlinear_arith)
        requires
            a + b == 100,
    ;
}

/// Sum of the window weights of `bin` over all bins: the row denominator, up
/// to the factor 100 that splits each weight between the two tracks.
pub fn window_total(bin: usize) -> (r: u64)
    requires
        bin < N_BINS,
    ensures
        r == window_sum(bin as int, N_BINS as int),
{
    let mut sum: u64 = 0;
    let mut j: usize = 0;
    while j < N_BINS
        invariant
            bin < N_BINS,
            j <= N_BINS,
            sum == window_sum(bin as int, j as int),
        decreases N_BINS - j,
    {
        proof {
            lemma_window_sum_bound(bin as int, j as int);
        }
        let d = if bin >= j { bin - j } else { j - bin };
        if d <= HALF_WIDTH {
            sum = sum + (HALF_WIDTH + 1 - d) as u64;
        }
        j = j + 1;
    }
    sum
}

/// Denominator shared by the transition probabilities out of `state`.
pub fn transition_denominator(state: usize) -> (r: u64)
    requires
        state < N_STATES,
    ensures
        r == transition_den(state as int),
        r > 0,
{
    let bin = if state < N_BINS { state } else { state - N_BINS };
    let w = window_total(bin);
    proof {
        lemma_window_sum_bound(bin as int, N_BINS as int);
        lemma_window_sum_positive(bin as int, N_BINS as int);
    }
    100 * w
}

/// Numerators of the transition probabilities out of `state`, one per target
/// state; each is divided by `transition_denominator(state)`.
pub fn transition_row(state: usize) -> (row: Vec<u64>)
    requires
        state < N_STATES,
    ensures
        row@.len() == N_STATES,
        forall|c: int| 0 <= c < N_STATES ==> #[trigger] row@[c] == transition_num(state as int, c),
{
    let bin = if state < N_BINS { state } else { state - N_BINS };
    let mut row: Vec<u64> = Vec::new();
    let mut c: usize = 0;
    while c < N_STATES
        invariant
            state < N_STATES,
            bin as int == bin_of(state as int),
            c <= N_STATES,
            row@.len() == c,
            forall|x: int| 0 <= x < c ==> #[trigger] row@[x] == transition_num(state as int, x),
        decreases N_STATES - c,
    {
        let target = if c < N_BINS { c } else { c - N_BINS };
        let d = if bin >= target { bin - target } else { target - bin };
        let share = if (state < N_BINS) == (c < N_BINS) { SAME_TRACK_PERCENT } else { SWITCH_TRACK_PERCENT };
        let num = if d <= HALF_WIDTH {
            let w = (HALF_WIDTH + 1 - d) as u64;
            assert(w * share <= 7 * 99) by (nonlinear_arith)
                requires
                    w <= 7,
                    share <= 99,
            ;
            w * share
        } else {
            0
        };
        row.push(num);
        c = c + 1;
    }
    row
}

} // verus!
