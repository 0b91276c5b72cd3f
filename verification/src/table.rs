//! The conditional probability table: per distance bucket, the likelihood
//! of each sensed color.
//!
//! Likelihoods are integers over the common denominator
//! [`LIKELIHOOD_SCALE`], so each bucket's four likelihoods summing to one is
//! the exact equation `green + yellow + orange + red == LIKELIHOOD_SCALE`.

use vstd::prelude::*;

verus! {

/// Common denominator of the four likelihoods of one distance bucket: a
/// likelihood of `n` stands for the probability `n / LIKELIHOOD_SCALE`.
pub const LIKELIHOOD_SCALE: u64 = 100;

/// Display color of a cell. `White` marks an unprobed cell; the sensor only
/// ever reports one of the four alert colors.
///
/// The scheme is inverted on purpose: proximity to the hidden entity is
/// signaled by high-alert colors, so `Red` is most likely at distance 0 and
/// `Green` at the far buckets.
#[derive(Clone, Copy, Debug, PartialEq, Eq, Structural)]
pub enum Color {
    White,
    Green,
    Yellow,
    Orange,
    Red,
}

/// One row of the conditional probability table: the likelihood of each
/// sensed color given that the hidden entity sits at the (clamped)
/// Manhattan distance `distance` from the probe.
#[derive(Clone, Copy, Debug, PartialEq, Eq, Structural)]
pub struct ConditionalProbabilities {
    pub distance: i32,
    pub green: u64,
    pub yellow: u64,
    pub orange: u64,
    pub red: u64,
}

/// The fixed likelihood (over [`LIKELIHOOD_SCALE`]) of sensing `c` at the
/// clamped distance bucket `d` in `0..6`.
///
/// A color that the sensor never reports (`White`) is charged the `Red`
/// likelihood, so the lookup is a total function.
pub open spec fn likelihood_of(d: int, c: Color) -> int {
    match c {
        Color::Green => if d <= 2 {
            5
        } else if d <= 4 {
            10
        } else {
            75
        },
        Color::Yellow => if d == 0 {
            5
        } else if d <= 2 {
            10
        } else if d <= 4 {
            70
        } else {
            10
        },
        Color::Orange => if d == 0 {
            10
        } else if d <= 2 {
            75
        } else if d <= 4 {
            15
        } else {
            10
        },
        _ => if d == 0 {
            80
        } else if d <= 2 {
            10
        } else {
            5
        },
    }
}

/// A distance clamped to the table's six buckets: every distance of five
/// or more falls into the last bucket, and nothing falls below the first.
pub open spec fn clamp_bucket(d: int) -> int {
    if d > 5 {
        5
    } else if d < 0 {
        0
    } else {
        d
    }
}

/// The fixed table row for the clamped distance bucket `d`.
pub open spec fn canonical_row(d: int) -> ConditionalProbabilities {
    ConditionalProbabilities {
        distance: d as i32,
        green: likelihood_of(d, Color::Green) as u64,
        yellow: likelihood_of(d, Color::Yellow) as u64,
        orange: likelihood_of(d, Color::Orange) as u64,
        red: likelihood_of(d, Color::Red) as u64,
    }
}

/// Row `d` of the table holds exactly the fixed likelihoods for bucket `d`.
pub open spec fn bucket_row_ok(r: ConditionalProbabilities, d: int) -> bool {
    &&& r.distance == d
    &&& r.green == likelihood_of(d, Color::Green)
    &&& r.yellow == likelihood_of(d, Color::Yellow)
    &&& r.orange == likelihood_of(d, Color::Orange)
    &&& r.red == likelihood_of(d, Color::Red)
}

/// The table holds the six fixed rows, indexed by clamped distance `0..6`.
pub open spec fn table_canonical(t: Seq<ConditionalProbabilities>) -> bool {
    &&& t.len() == 6
    &&& forall|d: int| 0 <= d < 6 ==> #[trigger] bucket_row_ok(t[d], d)
}

/// Every distance bucket is a probability mass function: its four
/// likelihoods sum exactly to [`LIKELIHOOD_SCALE`].
pub proof fn lemma_bucket_mass(d: int)
    requires
        0 <= d < 6,
    ensures
        likelihood_of(d, Color::Green) + likelihood_of(d, Color::Yellow) + likelihood_of(
            d,
            Color::Orange,
        ) + likelihood_of(d, Color::Red) == LIKELIHOOD_SCALE,
{
    assert(d == 0 || d == 1 || d == 2 || d == 3 || d == 4 || d == 5);
}

/// Every likelihood of a clamped bucket lies between 5 and 80.
pub proof fn lemma_likelihood_bounds(d: int, c: Color)
    requires
        0 <= d < 6,
    ensures
        5 <= likelihood_of(d, c) <= 80,
{
}

impl ConditionalProbabilities {
    /// A table row from its distance bucket and four likelihoods over
    /// [`LIKELIHOOD_SCALE`].
    pub fn new(distance: i32, green: u64, yellow: u64, orange: u64, red: u64) -> (r:
        ConditionalProbabilities)
        ensures
            r == (ConditionalProbabilities { distance, green, yellow, orange, red }),
    {
        ConditionalProbabilities { distance, green, yellow, orange, red }
    }

    /// The likelihood this row assigns to the sensed color `c`.
    pub open spec fn spec_likelihood_for(self, c: Color) -> int {
        match c {
            Color::Green => self.green as int,
            Color::Yellow => self.yellow as int,
            Color::Orange => self.orange as int,
            _ => self.red as int,
        }
    }

    /// The likelihood this row assigns to the sensed color `c`; a color the
    /// sensor never reports is charged the `Red` likelihood.
    pub fn likelihood_for(&self, c: Color) -> (l: u64)
        ensures
            l == self.spec_likelihood_for(c),
    {
        match c {
            Color::Green => self.green,
            Color::Yellow => self.yellow,
            Color::Orange => self.orange,
            _ => self.red,
        }
    }
}

/// The color picked by inverse-CDF sampling of the row's categorical
/// distribution at the threshold `t` drawn uniformly below the row's weight
/// sum: the first color whose cumulative weight exceeds `t`.
pub open spec fn color_from_threshold(r: ConditionalProbabilities, t: int) -> Color {
    if t < r.green {
        Color::Green
    } else if t < r.green + r.yellow {
        Color::Yellow
    } else if t < r.green + r.yellow + r.orange {
        Color::Orange
    } else {
        Color::Red
    }
}

/// Inverse-CDF draw from the categorical distribution of the row `r` at the
/// uniformly drawn threshold `t`.
///
/// The four weights need not sum to [`LIKELIHOOD_SCALE`]: the caller
/// normalizes by drawing `t` below the row's own weight sum.
pub fn sample_color(r: &ConditionalProbabilities, t: u64) -> (c: Color)
    requires
        r.green + r.yellow + r.orange + r.red <= u64::MAX,
        t < r.green + r.yellow + r.orange + r.red,
    ensures
        c == color_from_threshold(*r, t as int),
        c != Color::White,
{
    if t < r.green {
        Color::Green
    } else if t < r.green + r.yellow {
        Color::Yellow
    } else if t < r.green + r.yellow + r.orange {
        Color::Orange
    } else {
        Color::Red
    }
}

} // verus!
