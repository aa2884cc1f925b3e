use pyin_rs::candidates::{probabilistic_threshold, LagWeight};
use pyin_rs::config::{check_buffer_len, check_input_size, PitchError};
use pyin_rs::prior::{N_THRESHOLDS, THRESHOLD_PRIOR};
use pyin_rs::search::{absolute_threshold, refinement, Refinement};
use pyin_rs::tau::{calculate_tau_range, LagBounds, TauRange};
use pyin_rs::tracker::{
    bin_candidates, most_visited_bin, nearest_bin, observation_counts, observation_sequence,
    winning_candidate, N_SLOTS,
};
use pyin_rs::transition::{transition_denominator, transition_row, window_total, N_BINS, N_STATES};

fn threshold_keys() -> Vec<u64> {
    (0..N_THRESHOLDS as u64).map(|n| (n + 1) * 25).collect()
}

#[test]
fn tau_range_without_band_spans_buffer() {
    assert_eq!(calculate_tau_range(512, None), TauRange { start: 2, end: 512 });
}

#[test]
fn tau_range_from_band_inside_buffer() {
    // 44100 Hz, band [75, 90): floor(44100 / 90) = 490, ceil(44100 / 75) = 588.
    let r = calculate_tau_range(1024, Some(LagBounds { shortest: 490, longest: 588 }));
    assert_eq!(r, TauRange { start: 490, end: 588 });
}

#[test]
fn tau_range_clipped_to_buffer() {
    let r = calculate_tau_range(256, Some(LagBounds { shortest: 0, longest: 4000 }));
    assert_eq!(r, TauRange { start: 2, end: 256 });
    assert!(!r.is_empty());
}

#[test]
fn tau_range_of_band_below_buffer_is_empty() {
    // 44100 Hz, band [10, 20): lags 2205..4410, beyond a 512-lag buffer.
    let r = calculate_tau_range(512, Some(LagBounds { shortest: 2205, longest: 4410 }));
    assert_eq!(r, TauRange { start: 2205, end: 512 });
    assert!(r.is_empty());
}

#[test]
fn threshold_descends_to_local_minimum() {
    let keys: Vec<u64> = vec![100, 100, 100, 50, 40, 45, 10];
    let range = TauRange { start: 2, end: 7 };
    assert_eq!(absolute_threshold(&keys, 60, &range), Some(4));
}

#[test]
fn threshold_without_crossing_finds_nothing() {
    let keys: Vec<u64> = vec![100, 100, 100, 70, 80, 65];
    let range = TauRange { start: 2, end: 6 };
    assert_eq!(absolute_threshold(&keys, 60, &range), None);
    assert_eq!(absolute_threshold(&keys, 60, &TauRange { start: 5, end: 2 }), None);
}

#[test]
fn threshold_descent_stops_at_range_end() {
    let keys: Vec<u64> = vec![100, 100, 50, 40, 30, 20];
    assert_eq!(absolute_threshold(&keys, 60, &TauRange { start: 2, end: 4 }), Some(3));
    assert_eq!(absolute_threshold(&keys, 60, &TauRange { start: 2, end: 6 }), Some(5));
}

#[test]
fn restricted_range_keeps_correct_lag() {
    let keys: Vec<u64> = vec![100, 100, 90, 50, 20, 30, 90, 95];
    let full = TauRange { start: 2, end: 8 };
    assert_eq!(absolute_threshold(&keys, 60, &full), Some(4));
    assert_eq!(absolute_threshold(&keys, 60, &TauRange { start: 4, end: 6 }), Some(4));
    assert_eq!(absolute_threshold(&keys, 60, &TauRange { start: 3, end: 5 }), Some(4));
}

#[test]
fn restricted_range_skips_harmonic_dip() {
    // A shallow dip at lag 3 (a harmonic) comes before the true period at lag 8.
    let keys: Vec<u64> = vec![100, 100, 90, 55, 90, 95, 90, 30, 5, 40];
    assert_eq!(absolute_threshold(&keys, 60, &TauRange { start: 2, end: 10 }), Some(3));
    assert_eq!(absolute_threshold(&keys, 60, &TauRange { start: 6, end: 10 }), Some(8));
}

#[test]
fn refinement_at_edges_and_inside() {
    let keys: Vec<u64> = vec![5, 3, 4, 8];
    assert_eq!(refinement(&keys, 0), Refinement::Exact(1));
    let flat: Vec<u64> = vec![3, 3, 4];
    assert_eq!(refinement(&flat, 0), Refinement::Exact(0));
    assert_eq!(refinement(&keys, 3), Refinement::Exact(2));
    assert_eq!(refinement(&keys, 2), Refinement::Parabolic(2));
}

#[test]
fn probabilistic_threshold_sums_prior_per_lag() {
    let mut keys: Vec<u64> = vec![1000; 10];
    keys[3] = 60;
    keys[8] = 10;
    let range = TauRange { start: 2, end: 10 };
    let found = probabilistic_threshold(&keys, &threshold_keys(), &range);
    // Thresholds 25 and 50 pass only lag 8; from 75 on lag 3 comes first.
    // Lags come in the order in which the rising thresholds first pick them.
    assert_eq!(
        found,
        vec![LagWeight { lag: 8, weight: 29069 }, LagWeight { lag: 3, weight: 958055 }]
    );
}

#[test]
fn probabilistic_threshold_single_dip_takes_whole_prior() {
    // Every threshold key lies below 10_000.
    let mut keys: Vec<u64> = vec![10_000; 6];
    keys[4] = 1;
    let found = probabilistic_threshold(&keys, &threshold_keys(), &TauRange { start: 2, end: 6 });
    let total: u64 = THRESHOLD_PRIOR.iter().map(|w| *w as u64).sum();
    assert_eq!(total, 987124);
    assert_eq!(found, vec![LagWeight { lag: 4, weight: total }]);
}

#[test]
fn probabilistic_threshold_on_silence_is_empty() {
    let keys: Vec<u64> = vec![u64::MAX; 64];
    let found = probabilistic_threshold(&keys, &threshold_keys(), &TauRange { start: 2, end: 64 });
    assert!(found.is_empty());
}

#[test]
fn probabilistic_threshold_on_empty_range_is_empty() {
    let keys: Vec<u64> = vec![0; 16];
    let found = probabilistic_threshold(&keys, &threshold_keys(), &TauRange { start: 12, end: 8 });
    assert!(found.is_empty());
}

#[test]
fn transition_row_of_lowest_primary_bin() {
    let row = transition_row(0);
    assert_eq!(row.len(), N_STATES);
    assert_eq!(row[0], 7 * 99);
    assert_eq!(row[6], 99);
    assert_eq!(row[7], 0);
    assert_eq!(row[108], 7);
    assert_eq!(row[114], 1);
    assert_eq!(row[115], 0);
    assert_eq!(transition_denominator(0), 2800);
}

#[test]
fn transition_row_of_middle_shadow_bin() {
    let row = transition_row(150);
    assert_eq!(row[150], 7 * 99);
    assert_eq!(row[42], 7);
    assert_eq!(row[36], 1);
    assert_eq!(row[35], 0);
    assert_eq!(row[156], 99);
    assert_eq!(window_total(42), 49);
    assert_eq!(transition_denominator(150), 4900);
}

#[test]
fn transition_rows_are_stochastic() {
    for s in 0..N_STATES {
        let row = transition_row(s);
        let sum: u64 = row.iter().sum();
        assert_eq!(sum, transition_denominator(s), "row {}", s);
    }
    assert_eq!(transition_denominator(N_STATES - 1), 2800);
}

#[test]
fn nearest_bin_before_first_rise() {
    assert_eq!(nearest_bin(&vec![50, 30, 10, 20, 40]), Some(2));
    assert_eq!(nearest_bin(&vec![50, 30, 30, 40]), Some(2));
    assert_eq!(nearest_bin(&vec![5, 9]), Some(0));
}

#[test]
fn nearest_bin_above_all_bins_is_none() {
    assert_eq!(nearest_bin(&vec![90, 70, 50, 10]), None);
    assert_eq!(nearest_bin(&vec![]), None);
}

#[test]
fn bin_candidates_sum_mass_and_keep_last() {
    let bins = vec![Some(57), None, Some(12), Some(57)];
    let weights = vec![300_000, 5, 40_000, 200_000];
    let binned = bin_candidates(&bins, &weights);
    assert_eq!(binned.mass.len(), N_BINS);
    assert_eq!(binned.mass[57], 500_000);
    assert_eq!(binned.mass[12], 40_000);
    assert_eq!(binned.mass[0], 0);
    assert_eq!(binned.representative[57], Some(3));
    assert_eq!(binned.representative[12], Some(2));
    assert_eq!(binned.representative[13], None);
}

#[test]
fn observation_sequence_repeats_slots() {
    assert_eq!(observation_sequence(&vec![2, 0, 1]), vec![0, 0, 2]);
    assert_eq!(observation_sequence(&vec![0, 0]), Vec::<usize>::new());
    assert_eq!(observation_sequence(&vec![]), Vec::<usize>::new());
}

#[test]
fn most_visited_bin_takes_majority() {
    assert_eq!(most_visited_bin(&vec![3, 3, 5, 200, 5, 5, 200, 200, 200]), 5);
}

#[test]
fn most_visited_bin_breaks_ties_low() {
    assert_eq!(most_visited_bin(&vec![9, 4, 9, 4]), 4);
}

#[test]
fn most_visited_bin_without_primary_visit_is_zero() {
    assert_eq!(most_visited_bin(&vec![]), 0);
    assert_eq!(most_visited_bin(&vec![108, 150, 215]), 0);
}

fn masses(entries: &[(usize, u64)]) -> Vec<u64> {
    let mut mass = vec![0u64; N_BINS];
    for (b, m) in entries {
        mass[*b] = *m;
    }
    mass
}

#[test]
fn observation_counts_scale_mass_by_trust() {
    let counts = observation_counts(&masses(&[(57, 500_000), (12, 40_000)]), 500_000);
    assert_eq!(counts.len(), N_SLOTS);
    assert_eq!(counts[57], 25);
    assert_eq!(counts[12], 2);
    assert_eq!(counts[0], 0);
    // Unpitched probability 1 - 0.27 over 108 bins: 100 * 0.73 / 108 rounds to 1.
    assert!(counts[108..216].iter().all(|c| *c == 1));
    assert_eq!(counts[216], 0);
}

#[test]
fn observation_counts_round_halves_up() {
    let counts = observation_counts(&masses(&[(3, 25_000)]), 1_000_000);
    assert_eq!(counts[3], 3);
}

#[test]
fn observation_counts_without_unpitched_mass() {
    let counts = observation_counts(&masses(&[(40, 1_000_000)]), 1_000_000);
    assert_eq!(counts[40], 100);
    assert!(counts[108..].iter().all(|c| *c == 0));
    let over = observation_counts(&masses(&[(40, 1_500_000), (41, 500_000)]), 1_000_000);
    assert_eq!(over[40], 150);
    assert!(over[108..].iter().all(|c| *c == 0));
}

#[test]
fn observation_counts_of_no_candidate_are_shadow_only() {
    let counts = observation_counts(&masses(&[]), 500_000);
    assert!(counts[..108].iter().all(|c| *c == 0));
    // 100 / 108 rounds to 1.
    assert!(counts[108..216].iter().all(|c| *c == 1));
}

#[test]
fn tau_range_of_smallest_buffer_is_empty() {
    // A two-sample buffer leaves a single lag, below the smallest one searched.
    let r = calculate_tau_range(1, None);
    assert_eq!(r, TauRange { start: 2, end: 1 });
    assert!(r.is_empty());
}

#[test]
fn tau_range_with_extreme_bounds() {
    let r = calculate_tau_range(usize::MAX, Some(LagBounds { shortest: usize::MAX, longest: usize::MAX }));
    assert_eq!(r, TauRange { start: usize::MAX, end: usize::MAX });
    assert!(r.is_empty());
}

#[test]
fn threshold_on_equal_keys_stays_at_first() {
    let keys: Vec<u64> = vec![9, 9, 4, 4, 4];
    assert_eq!(absolute_threshold(&keys, 5, &TauRange { start: 2, end: 5 }), Some(2));
    assert_eq!(absolute_threshold(&keys, 4, &TauRange { start: 2, end: 5 }), None);
}

#[test]
fn refinement_beyond_right_edge() {
    let keys: Vec<u64> = vec![5, 3];
    assert_eq!(refinement(&keys, 1), Refinement::Exact(0));
    assert_eq!(refinement(&keys, 7), Refinement::Exact(6));
    assert_eq!(refinement(&Vec::new(), 4), Refinement::Exact(3));
}

fn representatives(entries: &[(usize, usize)]) -> Vec<Option<usize>> {
    let mut rep = vec![None; N_BINS];
    for (b, k) in entries {
        rep[*b] = Some(*k);
    }
    rep
}

#[test]
fn winning_candidate_of_most_visited_bin() {
    let rep = representatives(&[(57, 2), (12, 0)]);
    assert_eq!(winning_candidate(&vec![12, 57, 57, 165, 165, 165], &rep), Some(2));
    assert_eq!(winning_candidate(&vec![12, 57], &rep), Some(0));
}

#[test]
fn winning_candidate_without_pitch() {
    let rep = representatives(&[(57, 2)]);
    assert_eq!(winning_candidate(&vec![], &rep), None);
    // The path only visits shadow states: bin 0 wins and holds no candidate.
    assert_eq!(winning_candidate(&vec![120, 121], &rep), None);
    assert_eq!(winning_candidate(&vec![30, 30, 57], &rep), None);
}

#[test]
fn input_size_must_be_power_of_two() {
    assert_eq!(check_input_size(2048), Ok(()));
    assert_eq!(check_input_size(1), Ok(()));
    assert_eq!(check_input_size(0), Err(PitchError::ConfigurationError));
    assert_eq!(check_input_size(1000), Err(PitchError::ConfigurationError));
    assert_eq!(check_input_size(usize::MAX), Err(PitchError::ConfigurationError));
    assert_eq!(check_input_size(1 << 63), Ok(()));
}

#[test]
fn buffer_length_must_match_input_size() {
    assert_eq!(check_buffer_len(1024, 1024), Ok(()));
    assert_eq!(check_buffer_len(1024, 1023), Err(PitchError::InputSizeMismatch));
}
