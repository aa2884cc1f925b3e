use vstd::prelude::*;

verus! {

/// Number of thresholds tried by the probabilistic search.
pub const N_THRESHOLDS: usize = 100;

/// Prior weight, in millionths, of the `n`-th threshold `(n + 1) * 0.025`: a
/// Beta density with alpha 1 and beta 18 (mean 0.1), sampled at each threshold.
pub const THRESHOLD_PRIOR: [u32; 100] = [
    0, 29069, 48836, 61422, 68542, 71571, 71607, 69516, 65976, 61512,
    56523, 51309, 46089, 41021, 36211, 31727, 27608, 23871, 20517, 17534,
    14903, 12601, 10601, 8875, 7393, 6130, 5059, 4155, 3397, 2765,
    2239, 1806, 1449, 1157, 920, 727, 572, 448, 349, 271,
    209, 160, 122, 92, 70, 52, 39, 29, 21, 15,
    11, 8, 6, 4, 3, 2, 1, 1, 1, 0,
    0, 0, 0, 0, 0, 0, 0, 0, 0, 0,
    0, 0, 0, 0, 0, 0, 0, 0, 0, 0,
    0, 0, 0, 0, 0, 0, 0, 0, 0, 0,
    0, 0, 0, 0, 0, 0, 0, 0, 0, 0,
];

/// The prior weight of threshold `n`, in millionths.
pub open spec fn prior_weight(n: int) -> nat {
    THRESHOLD_PRIOR@[n] as nat
}

} // verus!
