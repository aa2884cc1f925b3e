//! Integer core of the YIN and probabilistic YIN pitch detectors.
//!
//! The floating-point signal path (spectral transform, difference function,
//! cumulative mean normalisation) produces a curve of values indexed by lag.
//! What the detectors decide about that curve depends only on how its values
//! compare, so the curve reaches this library as order keys: integers whose
//! order is the order of the values they stand for.
//!
//! - [`config`]: the errors reported for a bad size or buffer.
//! - [`tau`]: the range of lags searched, from an optional frequency band.
//! - [`search`]: the absolute-threshold search and the choice of refinement.
//! - [`prior`] and [`candidates`]: the probabilistic multi-threshold search.
//! - [`transition`]: the Markov chain over semitone bins, in exact fractions.
//! - [`tracker`]: binning of candidates, the observation sequence handed to
//!   the decoder, and the vote over the decoded path.

pub mod candidates;
pub mod config;
pub mod prior;
pub mod search;
pub mod tau;
pub mod tracker;
pub mod transition;
