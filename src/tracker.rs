use vstd::prelude::*;
use crate::transition::N_BINS;

verus! {

/// The bin chosen for a candidate from its distances to the reference bins,
/// given as order keys and walked from `i`: the bin just before the first one
/// whose distance is larger than its predecessor's.
pub open spec fn first_rise(dist: Seq<u64>, i: int) -> Option<int>
    decreases dist.len() - i,
{
    if i >= dist.len() || i < 1 {
        None
    } else if dist[i - 1] < dist[i] {
        Some(i - 1)
    } else {
        first_rise(dist, i + 1)
    }
}

/// Picks the reference bin for a candidate: walking the bins upward, the
/// distance to the candidate shrinks until the nearest bin; the bin before the
/// first rise in distance is chosen. `None` when the distance never rises
/// (the candidate lies above the last bin).
pub fn nearest_bin(dist: &Vec<u64>) -> (r: Option<usize>)
    ensures
        r matches Some(b) ==> first_rise(dist@, 1) == Some(b as int),
        r is None ==> first_rise(dist@, 1) is None,
{
    let mut i: usize = 1;
    while i < dist.len() && dist[i - 1] >= dist[i]
        invariant
            1 <= i,
            first_rise(dist@, 1) == first_rise(dist@, i as int),
        decreases dist@.len() - i,
    {
        i = i + 1;
    }
    if i < dist.len() {
        Some(i - 1)
    } else {
        None
    }
}

/// Summed weight of the candidates below `k` assigned to bin `b`.
pub open spec fn bin_mass(bins: Seq<Option<usize>>, weights: Seq<u64>, b: int, k: int) -> nat
    decreases k,
{
    if k <= 0 {
        0
    } else {
        bin_mass(bins, weights, b, k - 1) + if bins[k - 1] == Some(b as usize) {
            weights[k - 1] as nat
        } else {
            0
        }
    }
}

/// Summed weight of the candidates below `k`.
pub open spec fn total_weight(weights: Seq<u64>, k: int) -> nat
    decreases k,
{
    if k <= 0 { 0 } else { total_weight(weights, k - 1) + weights[k - 1] as nat }
}

/// The last candidate below `k` assigned to bin `b`.
pub open spec fn last_in_bin(bins: Seq<Option<usize>>, b: int, k: int) -> Option<int>
    decreases k,
{
    if k <= 0 {
        None
    } else if bins[k - 1] == Some(b as usize) {
        Some(k - 1)
    } else {
        last_in_bin(bins, b, k - 1)
    }
}

/// Candidates gathered per reference bin: the summed weight, and the index of
/// the candidate whose frequency represents the bin.
#[derive(Clone, Debug)]
pub struct BinnedCandidates {
    pub mass: Vec<u64>,
    pub representative: Vec<Option<usize>>,
}

proof fn lemma_bin_mass_bound(bins: Seq<Option<usize>>, weights: Seq<u64>, b: int, k: int)
    requires
        0 <= k <= weights.len(),
    ensures
        bin_mass(bins, weights, b, k) <= total_weight(weights, k),
    decreases k,
{
    if k > 0 {
        lemma_bin_mass_bound(bins, weights, b, k - 1);
    }
}

/// Gathers the candidates into the reference bins: candidate `k` adds its
/// weight to bin `bins[k]`, if it has one, and becomes that bin's
/// representative, the last candidate of a bin standing for it.
pub fn bin_candidates(bins: &Vec<Option<usize>>, weights: &Vec<u64>) -> (r: BinnedCandidates)
    requires
        bins@.len() == weights@.len(),
        total_weight(weights@, weights@.len() as int) <= u64::MAX,
    ensures
        r.mass@.len() == N_BINS,
        r.representative@.len() == N_BINS,
        forall|b: int| 0 <= b < N_BINS ==>
            #[trigger] r.mass@[b] == bin_mass(bins@, weights@, b, bins@.len() as int),
        forall|b: int| 0 <= b < N_BINS ==>
            (#[trigger] r.representative@[b] matches Some(k) ==> last_in_bin(bins@, b, bins@.len() as int) == Some(k as int)),
        forall|b: int| 0 <= b < N_BINS ==>
            (#[trigger] r.representative@[b] is None ==> last_in_bin(bins@, b, bins@.len() as int) is None),
{
    let mut mass: Vec<u64> = Vec::new();
    let mut representative: Vec<Option<usize>> = Vec::new();
    let mut b: usize = 0;
    while b < N_BINS
        invariant
            b <= N_BINS,
            mass@.len() == b,
            representative@.len() == b,
            forall|x: int| 0 <= x < b ==> #[trigger] mass@[x] == 0,
            forall|x: int| 0 <= x < b ==> #[trigger] representative@[x] is None,
        decreases N_BINS - b,
    {
        mass.push(0);
        representative.push(None);
        b = b + 1;
    }
    let mut k: usize = 0;
    while k < bins.len()
        invariant
            bins@.len() == weights@.len(),
            total_weight(weights@, weights@.len() as int) <= u64::MAX,
            k <= bins@.len(),
            mass@.len() == N_BINS,
            representative@.len() == N_BINS,
            forall|x: int| 0 <= x < N_BINS ==> #[trigger] mass@[x] == bin_mass(bins@, weights@, x, k as int),
            forall|x: int| 0 <= x < N_BINS ==>
                (#[trigger] representative@[x] matches Some(m) ==> last_in_bin(bins@, x, k as int) == Some(m as int)),
            forall|x: int| 0 <= x < N_BINS ==>
                (#[trigger] representative@[x] is None ==> last_in_bin(bins@, x, k as int) is None),
        decreases bins@.len() - k,
    {
        if let Some(b) = bins[k] {
            if b < N_BINS {
                proof {
                    lemma_bin_mass_bound(bins@, weights@, b as int, k as int + 1);
                    lemma_total_weight_mono(weights@, k as int + 1, weights@.len() as int);
                }
                let m = mass[b];
                mass.set(b, m + weights[k]);
                representative.set(b, Some(k));
            }
        }
        k = k + 1;
    }
    BinnedCandidates { mass, representative }
}

proof fn lemma_total_weight_mono(weights: Seq<u64>, j: int, k: int)
    requires
        0 <= j <= k,
    ensures
        total_weight(weights, j) <= total_weight(weights, k),
    decreases k - j,
{
    if j < k {
        lemma_total_weight_mono(weights, j, k - 1);
    }
}

/// One whole in millionths: the unit of candidate weights and of the trust.
pub const PPM: u64 = 1_000_000;

/// Number of probability slots: a primary and a shadow slot per bin, and a
/// last slot that stays empty.
pub const N_SLOTS: usize = 217;

/// `num / den` rounded to the nearest integer, halves rounded up.
pub open spec fn round_div(num: int, den: int) -> int {
    (2 * num + den) / (2 * den)
}

/// Sum of the bin masses below `k`.
pub open spec fn mass_total(mass: Seq<u64>, k: int) -> nat
    decreases k,
{
    if k <= 0 { 0 } else { mass_total(mass, k - 1) + mass[k - 1] as nat }
}

/// Observations drawn for a primary slot: 100 times its probability, the
/// bin's mass scaled by the trust in the pitched estimate, rounded.
pub open spec fn primary_count(trust_ppm: int, mass: int) -> int {
    round_div(100 * trust_ppm * mass, (PPM * PPM) as int)
}

/// Observations drawn for each shadow slot: 100 times the unpitched
/// probability `1 - trust * total`, spread over the bins, rounded; none when
/// the pitched probability reaches one.
pub open spec fn shadow_count(trust_ppm: int, total: int) -> int {
    if trust_ppm * total <= (PPM * PPM) as int {
        round_div(100 * ((PPM * PPM) as int - trust_ppm * total), N_BINS * (PPM * PPM) as int)
    } else {
        0
    }
}

proof fn lemma_mass_total_bound(mass: Seq<u64>, k: int)
    requires
        0 <= k,
    ensures
        mass_total(mass, k) <= k * 0xffff_ffff_ffff_ffff,
    decreases k,
{
    if k > 0 {
        lemma_mass_total_bound(mass, k - 1);
    }
}

/// How many observations each probability slot contributes, from the bin
/// masses (in millionths) and the trust in the pitched estimate (in
/// millionths): primary slot `i` gets `primary_count(trust, mass[i])`, every
/// shadow slot `shadow_count(trust, total mass)`, the last slot none.
pub fn observation_counts(mass: &Vec<u64>, trust_ppm: u64) -> (r: Vec<u64>)
    requires
        mass@.len() == N_BINS,
        trust_ppm <= PPM,
    ensures
        r@.len() == N_SLOTS,
        forall|i: int| 0 <= i < N_BINS ==> #[trigger] r@[i] == primary_count(trust_ppm as int, mass@[i] as int),
        forall|i: int| N_BINS <= i < 2 * N_BINS ==>
            #[trigger] r@[i] == shadow_count(trust_ppm as int, mass_total(mass@, N_BINS as int) as int),
        r@[2 * N_BINS] == 0,
{
    let mut total: u128 = 0;
    let mut k: usize = 0;
    while k < N_BINS
        invariant
            mass@.len() == N_BINS,
            k <= N_BINS,
            total == mass_total(mass@, k as int),
        decreases N_BINS - k,
    {
        proof {
            lemma_mass_total_bound(mass@, k as int + 1);
        }
        total = total + mass[k] as u128;
        k = k + 1;
    }
    let one: u128 = (PPM as u128) * (PPM as u128);
    let t = trust_ppm as u128;
    proof {
        lemma_mass_total_bound(mass@, N_BINS as int);
        assert(t * total <= 1_000_000 * (108 * 0xffff_ffff_ffff_ffffu128)) by (nonlinear_arith)
            requires
                t <= 1_000_000,
                total <= 108 * 0xffff_ffff_ffff_ffffu128,
        ;
    }
    let pitched: u128 = t * total;
    let shadow: u64 = if pitched <= one {
        let num = 100 * (one - pitched);
        let q = (2 * num + (N_BINS as u128) * one) / (2 * (N_BINS as u128) * one);
        assert(q <= 1) by (nonlinear_arith)
            requires
                num <= 100 * one,
                one == 1_000_000_000_000,
                q == (2 * num + 108 * one) / (2 * 108 * one),
        ;
        q as u64
    } else {
        0
    };
    let mut out: Vec<u64> = Vec::new();
    let mut i: usize = 0;
    while i < N_BINS
        invariant
            mass@.len() == N_BINS,
            trust_ppm <= PPM,
            t == trust_ppm,
            one == PPM * PPM,
            i <= N_BINS,
            out@.len() == i,
            forall|x: int| 0 <= x < i ==> #[trigger] out@[x] == primary_count(trust_ppm as int, mass@[x] as int),
        decreases N_BINS - i,
    {
        let m = mass[i] as u128;
        assert(100 * t * m <= 100_000_000 * 0xffff_ffff_ffff_ffffu128) by (nonlinear_arith)
            requires
                t <= 1_000_000,
                m <= 0xffff_ffff_ffff_ffffu128,
        ;
        let num = 100 * t * m;
        let q = (2 * num + one) / (2 * one);
        assert(q <= 0xffff_ffff_ffff_ffffu128) by (nonlinear_arith)
            requires
                q == (2 * num + one) / (2 * one),
                one == 1_000_000_000_000,
                num <= 100_000_000 * 0xffff_ffff_ffff_ffffu128,
        ;
        out.push(q as u64);
        i = i + 1;
    }
    while i < 2 * N_BINS
        invariant
            mass@.len() == N_BINS,
            N_BINS <= i <= 2 * N_BINS,
            out@.len() == i,
            shadow == shadow_count(trust_ppm as int, mass_total(mass@, N_BINS as int) as int),
            forall|x: int| 0 <= x < N_BINS ==> #[trigger] out@[x] == primary_count(trust_ppm as int, mass@[x] as int),
            forall|x: int| N_BINS <= x < i ==> #[trigger] out@[x] == shadow,
        decreases 2 * N_BINS - i,
    {
        out.push(shadow);
        i = i + 1;
    }
    out.push(0);
    out
}

/// Bin indices repeated by their counts: `counts[0]` copies of 0, then
/// `counts[1]` copies of 1, and so on up to slot `k`.
pub open spec fn expand(counts: Seq<u64>, k: int) -> Seq<usize>
    decreases k,
{
    if k <= 0 {
        Seq::empty()
    } else {
        expand(counts, k - 1) + Seq::new(counts[k - 1] as nat, |x: int| (k - 1) as usize)
    }
}

/// The observation sequence handed to the decoder: each slot index repeated
/// as many times as its count, slots in increasing order.
pub fn observation_sequence(counts: &Vec<u64>) -> (r: Vec<usize>)
    ensures
        r@ == expand(counts@, counts@.len() as int),
        r@.len() == count_total(counts@, counts@.len() as int),
        r@.len() == 0 <==> forall|i: int| 0 <= i < counts@.len() ==> #[trigger] counts@[i] == 0,
{
    let mut out: Vec<usize> = Vec::new();
    let mut i: usize = 0;
    while i < counts.len()
        invariant
            i <= counts@.len(),
            out@ == expand(counts@, i as int),
        decreases counts@.len() - i,
    {
        let c = counts[i];
        let mut j: u64 = 0;
        while j < c
            invariant
                i < counts@.len(),
                c == counts@[i as int],
                j <= c,
                out@ == expand(counts@, i as int) + Seq::new(j as nat, |x: int| i),
            decreases c - j,
        {
            out.push(i);
            j = j + 1;
            assert(out@ =~= expand(counts@, i as int) + Seq::new(j as nat, |x: int| i));
        }
        i = i + 1;
        assert(out@ =~= expand(counts@, i as int));
    }
    proof {
        lemma_expand_len(counts@, counts@.len() as int);
        lemma_count_total_zero(counts@, counts@.len() as int);
    }
    out
}

/// Sum of the counts below `k`.
pub open spec fn count_total(counts: Seq<u64>, k: int) -> nat
    decreases k,
{
    if k <= 0 { 0 } else { count_total(counts, k - 1) + counts[k - 1] as nat }
}

proof fn lemma_expand_len(counts: Seq<u64>, k: int)
    ensures
        expand(counts, k).len() == count_total(counts, k),
    decreases k,
{
    if k > 0 {
        lemma_expand_len(counts, k - 1);
    }
}

proof fn lemma_count_total_zero(counts: Seq<u64>, k: int)
    requires
        0 <= k <= counts.len(),
    ensures
        count_total(counts, k) == 0 <==> forall|i: int| 0 <= i < k ==> #[trigger] counts[i] == 0,
    decreases k,
{
    if k > 0 {
        lemma_count_total_zero(counts, k - 1);
    }
}

/// How often the path visits state `b` among its first `k` states.
pub open spec fn visits(path: Seq<usize>, b: int, k: int) -> nat
    decreases k,
{
    if k <= 0 {
        0
    } else {
        visits(path, b, k - 1) + if path[k - 1] as int == b { 1nat } else { 0nat }
    }
}

proof fn lemma_visits_bound(path: Seq<usize>, b: int, k: int)
    ensures
        visits(path, b, k) <= if k >= 0 { k } else { 0 },
    decreases k,
{
    if k > 0 {
        lemma_visits_bound(path, b, k - 1);
    }
}

/// The primary-track bin that a decoded path visits most often; among bins
/// visited equally often the lowest wins, so a path that visits no primary
/// bin gives bin 0.
pub fn most_visited_bin(path: &Vec<usize>) -> (r: usize)
    ensures
        r < N_BINS,
        forall|b: int| 0 <= b < N_BINS ==>
            #[trigger] visits(path@, b, path@.len() as int) <= visits(path@, r as int, path@.len() as int),
        forall|b: int| 0 <= b < r ==>
            #[trigger] visits(path@, b, path@.len() as int) < visits(path@, r as int, path@.len() as int),
{
    let mut counts: Vec<usize> = Vec::new();
    let mut b: usize = 0;
    while b < N_BINS
        invariant
            b <= N_BINS,
            counts@.len() == b,
            forall|x: int| 0 <= x < b ==> #[trigger] counts@[x] == 0,
        decreases N_BINS - b,
    {
        counts.push(0);
        b = b + 1;
    }
    let mut k: usize = 0;
    while k < path.len()
        invariant
            k <= path@.len(),
            counts@.len() == N_BINS,
            forall|x: int| 0 <= x < N_BINS ==> #[trigger] counts@[x] == visits(path@, x, k as int),
        decreases path@.len() - k,
    {
        let s = path[k];
        proof {
            lemma_visits_bound(path@, s as int, k as int);
        }
        if s < N_BINS {
            let c = counts[s];
            counts.set(s, c + 1);
        }
        k = k + 1;
    }
    let mut best: usize = 0;
    let mut i: usize = 0;
    while i < N_BINS
        invariant
            i <= N_BINS,
            best < N_BINS,
            best <= i,
            counts@.len() == N_BINS,
            forall|x: int| 0 <= x < N_BINS ==> #[trigger] counts@[x] == visits(path@, x, path@.len() as int),
            forall|x: int| 0 <= x < i ==> #[trigger] counts@[x] <= counts@[best as int],
            forall|x: int| 0 <= x < best ==> #[trigger] counts@[x] < counts@[best as int],
        decreases N_BINS - i,
    {
        if counts[i] > counts[best] {
            best = i;
        }
        i = i + 1;
    }
    assert(forall|x: int| 0 <= x < N_BINS ==> #[trigger] visits(path@, x, path@.len() as int) == counts@[x]);
    best
}

/// Whether `b` is the primary bin that the path visits most often, lower
/// than every other bin visited as often.
pub open spec fn is_most_visited(path: Seq<usize>, b: int) -> bool {
    &&& 0 <= b < N_BINS
    &&& forall|x: int| 0 <= x < N_BINS ==> #[trigger] visits(path, x, path.len() as int) <= visits(path, b, path.len() as int)
    &&& forall|x: int| 0 <= x < b ==> #[trigger] visits(path, x, path.len() as int) < visits(path, b, path.len() as int)
}

/// The candidate that gives the tracked pitch: the representative of the
/// most visited primary bin of the decoded path. `None` when the path is
/// empty or that bin holds no candidate, which a caller reads as "no pitch".
pub fn winning_candidate(path: &Vec<usize>, representative: &Vec<Option<usize>>) -> (r: Option<usize>)
    requires
        representative@.len() == N_BINS,
    ensures
        path@.len() == 0 ==> r is None,
        path@.len() > 0 ==> exists|b: int| is_most_visited(path@, b) && r == representative@[b],
{
    if path.len() == 0 {
        return None;
    }
    let b = most_visited_bin(path);
    assert(is_most_visited(path@, b as int));
    representative[b]
}

} // verus!
