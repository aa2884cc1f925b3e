use vstd::prelude::*;

verus! {

/// The smallest lag considered: lags 0 and 1 are degenerate.
pub const MIN_LAG: usize = 2;

/// A half-open interval `[start, end)` of lags, in samples.
#[derive(Clone, Copy, Debug, PartialEq, Eq, Structural)]
pub struct TauRange {
    pub start: usize,
    pub end: usize,
}

impl TauRange {
    /// Whether the range holds no lag.
    pub fn is_empty(&self) -> (r: bool)
        ensures
            r == (self.start >= self.end),
    {
        self.start >= self.end
    }
}

/// Lag bounds derived from a frequency band `[f_lo, f_hi)`: `shortest` is
/// `floor(sample_rate / f_hi)` and `longest` is `ceil(sample_rate / f_lo)`.
#[derive(Clone, Copy, Debug, PartialEq, Eq, Structural)]
pub struct LagBounds {
    pub shortest: usize,
    pub longest: usize,
}

pub open spec fn spec_max(a: int, b: int) -> int {
    if a >= b { a } else { b }
}

pub open spec fn spec_min(a: int, b: int) -> int {
    if a <= b { a } else { b }
}

/// The lag range searched over a difference buffer of `size` lags.
pub open spec fn tau_range_of(size: nat, bounds: Option<LagBounds>) -> (int, int) {
    match bounds {
        None => (MIN_LAG as int, size as int),
        Some(b) => (spec_max(MIN_LAG as int, b.shortest as int), spec_min(size as int, b.longest as int)),
    }
}

/// The range of lags to search in a difference buffer of `size` lags: all
/// lags from 2 when no band is given, else the band's lags clipped to
/// `[2, size)`. The result may be empty; a caller reads that as "no pitch".
pub fn calculate_tau_range(size: usize, bounds: Option<LagBounds>) -> (r: TauRange)
    ensures
        (r.start as int, r.end as int) == tau_range_of(size as nat, bounds),
        r.start >= MIN_LAG,
        r.end <= size,
{
    match bounds {
        None => TauRange { start: MIN_LAG, end: size },
        Some(b) => {
            let start = if b.shortest > MIN_LAG { b.shortest } else { MIN_LAG };
            let end = if b.longest < size { b.longest } else { size };
            TauRange { start, end }
        },
    }
}

/// Whether a band's lag bounds overlap the searchable lags `[2, size]`.
pub open spec fn bounds_meet(size: nat, bounds: Option<LagBounds>) -> bool {
    match bounds {
        None => true,
        Some(b) => b.shortest <= b.longest && b.shortest <= size && b.longest >= MIN_LAG,
    }
}

/// The tau range always starts at 2 or later and ends within the buffer; it
/// is well ordered (`start <= end`) whenever the buffer holds lag 2 and the
/// band's lags overlap `[2, size]`.
pub proof fn lemma_tau_range_bounds(size: nat, bounds: Option<LagBounds>)
    requires
        size >= MIN_LAG,
        bounds_meet(size, bounds),
    ensures
        tau_range_of(size, bounds).0 >= MIN_LAG,
        tau_range_of(size, bounds).1 <= size,
        tau_range_of(size, bounds).0 <= tau_range_of(size, bounds).1,
{
}

} // verus!
