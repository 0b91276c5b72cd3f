//! The game engine: the grid, the posterior-update pass, and the
//! bust/terminal state machine.

use crate::direction::{direction_of, relative_direction, Direction};
use crate::mass::{
    lemma_cancel_factor, lemma_renorm_step, lemma_sum_all_zero, lemma_sum_element_le,
    lemma_sum_take_le, lemma_sum_take_step, lemma_sum_update, sum,
};
use crate::rng::RandomSource;
use crate::table::{
    bucket_row_ok, canonical_row, clamp_bucket, color_from_threshold, lemma_bucket_mass,
    lemma_likelihood_bounds, likelihood_of, sample_color, table_canonical, Color,
    ConditionalProbabilities, LIKELIHOOD_SCALE,
};
use vstd::math::abs;
use vstd::arithmetic::div_mod::lemma_fundamental_div_mod;
use vstd::arithmetic::mul::lemma_mul_inequality;
use vstd::arithmetic::div_mod::lemma_multiply_divide_lt;
use vstd::prelude::*;

verus! {

/// The grid's total probability mass after a completed posterior update:
/// every cell's probability is its numerator over this denominator, so the
/// grid summing to one is the exact equation `sum == mass_denominator`.
pub const MASS_SCALE: u64 = 100_000_000;

/// Attempts a fresh session starts with.
pub const INITIAL_ATTEMPTS: i32 = 30;

/// Busts a fresh session starts with.
pub const INITIAL_BUSTS: i32 = 2;

/// One grid cell: its fixed coordinates, its display color (`White` until
/// probed), its posterior-probability numerator, and whether it was probed.
#[derive(Clone, Copy, Debug, PartialEq, Eq, Structural)]
pub struct Cell {
    pub x: i32,
    pub y: i32,
    pub color: Color,
    pub probability: u64,
    pub visited: bool,
}

impl Cell {
    /// A cell at `(x, y)` with the given color and probability numerator,
    /// not yet visited.
    pub fn new(x: i32, y: i32, color: Color, probability: u64) -> (c: Cell)
        ensures
            c == (Cell { x, y, color, probability, visited: false }),
    {
        Cell { x, y, color, probability, visited: false }
    }
}

/// Whether the session is still being played or has ended.
#[derive(Clone, Copy, Debug, PartialEq, Eq, Structural)]
pub enum GameStatus {
    InProgress,
    Won,
    Lost,
}

/// Resolution of one committed guess.
#[derive(Clone, Copy, Debug, PartialEq, Eq, Structural)]
pub enum Outcome {
    Hit,
    Miss,
    OutOfBusts,
}

/// The conditions an action can report.
#[derive(Clone, Copy, Debug, PartialEq, Eq, Structural)]
pub enum GameError {
    /// A probe or bust target outside the grid bounds; the call rejects the
    /// input and mutates nothing.
    InvalidCoordinate,
    /// A grid with zero width or height; construction is refused.
    InvalidDimensions,
    /// A posterior update whose total mass is zero; the probabilities are
    /// left unchanged.
    DegenerateDistribution,
}

/// The probability numerators of a row of cells, as mathematical integers.
pub open spec fn probs_of(cells: Seq<Cell>) -> Seq<int> {
    cells.map_values(|c: Cell| c.probability as int)
}

/// Cell `k` of a grid with `h` cells per row sits at the fixed coordinates
/// `(k / h, k % h)` and its probability numerator never exceeds the mass
/// denominator's cap.
pub open spec fn cell_in_place(c: Cell, k: int, h: int) -> bool {
    &&& c.x == k / h
    &&& c.y == k % h
    &&& c.probability <= MASS_SCALE
}

/// The full game state: the grid, the hidden position, the attempt and
/// bust counters, the terminal status, and the conditional probability
/// table.
///
/// The public fields are the read surface for a presentation layer: it
/// reads the grid snapshot and the counters after every action.
#[derive(Debug)]
pub struct Game {
    /// Number of grid rows; the first coordinate `x` ranges over `0..width`.
    pub width: usize,
    /// Number of cells per row; the second coordinate `y` ranges over
    /// `0..height`.
    pub height: usize,
    /// The cells, row by row: cell `(x, y)` sits at index `x * height + y`.
    pub grid: Vec<Cell>,
    /// Where the hidden entity sits.
    pub ghost_position: (i32, i32),
    /// Probing attempts remaining.
    pub score: i32,
    /// Committed guesses remaining.
    pub busts: i32,
    /// Terminal state of the session.
    pub status: GameStatus,
    /// Denominator of every cell's probability numerator: the grid's total
    /// probability mass. Zero until the priors are computed.
    pub mass_denominator: u64,
    /// The six-row conditional probability table, indexed by clamped
    /// Manhattan distance.
    pub conditional_probabilities: Vec<ConditionalProbabilities>,
}

impl Game {
    /// Well-formedness: the dimensions are positive and within the mass
    /// cap, every cell sits at its fixed index, the probability numerators
    /// sum exactly to the mass denominator, the table holds the six fixed
    /// rows, and the hidden position is on the grid.
    pub open spec fn well_formed(self) -> bool {
        &&& 0 < self.width
        &&& 0 < self.height
        &&& self.width * self.height <= MASS_SCALE
        &&& self.grid@.len() == self.width * self.height
        &&& forall|k: int|
            0 <= k < self.grid@.len() ==> cell_in_place(
                #[trigger] self.grid@[k],
                k,
                self.height as int,
            )
        &&& sum(probs_of(self.grid@)) == self.mass_denominator
        &&& self.mass_denominator <= MASS_SCALE
        &&& table_canonical(self.conditional_probabilities@)
        &&& 0 <= self.ghost_position.0 < self.width
        &&& 0 <= self.ghost_position.1 < self.height
    }

    /// The state every fresh or reset session shows before the first
    /// action: full counters, play in progress, uniform priors `1/(W·H)`
    /// with the denominator `W·H`, and an all-white, unvisited grid.
    pub open spec fn at_session_start(self) -> bool {
        &&& self.score == INITIAL_ATTEMPTS
        &&& self.busts == INITIAL_BUSTS
        &&& self.status == GameStatus::InProgress
        &&& self.mass_denominator == self.width * self.height
        &&& forall|k: int|
            0 <= k < self.grid@.len() ==> {
                let c = #[trigger] self.grid@[k];
                c.color == Color::White && c.probability == 1 && !c.visited
            }
    }

    /// A new `w × h` session. The grid starts all white with zero mass (the
    /// priors are computed by [`Game::compute_initial_prior_probabilities`]),
    /// the hidden position at `(0, 0)` (placed by [`Game::place_ghost`]),
    /// and full counters. Zero or negative dimensions are refused.
    pub fn new(w: i32, h: i32) -> (r: Result<Game, GameError>)
        requires
            w > 0 && h > 0 ==> w * h <= MASS_SCALE,
        ensures
            r is Err <==> w <= 0 || h <= 0,
            r is Err ==> r == Result::<Game, GameError>::Err(GameError::InvalidDimensions),
            r matches Ok(g) ==> {
                &&& g.well_formed()
                &&& g.width == w
                &&& g.height == h
                &&& g.score == INITIAL_ATTEMPTS
                &&& g.busts == INITIAL_BUSTS
                &&& g.status == GameStatus::InProgress
                &&& g.mass_denominator == 0
                &&& g.ghost_position == (0i32, 0i32)
                &&& forall|k: int|
                    0 <= k < g.grid@.len() ==> {
                        let c = #[trigger] g.grid@[k];
                        c.color == Color::White && c.probability == 0 && !c.visited
                    }
            },
    {
        if w <= 0 || h <= 0 {
            return Err(GameError::InvalidDimensions);
        }
        let width = w as usize;
        let height = h as usize;
        let total_cells: usize = width * height;
        let mut grid: Vec<Cell> = Vec::new();
        let mut k: usize = 0;
        while k < total_cells
            invariant
                k <= total_cells,
                grid@.len() == k,
                0 < width,
                0 < height,
                total_cells == width * height,
                total_cells <= MASS_SCALE,
                forall|j: int|
                    0 <= j < k ==> {
                        let c = #[trigger] grid@[j];
                        &&& cell_in_place(c, j, height as int)
                        &&& c.color == Color::White
                        &&& c.probability == 0
                        &&& !c.visited
                    },
            decreases total_cells - k,
        {
            proof {
                assert((k as int) < (height as int) * (width as int)) by (nonlinear_arith)
                    requires
                        (k as int) < (width as int) * (height as int),
                ;
                assert(width <= MASS_SCALE && height <= MASS_SCALE) by (nonlinear_arith)
                    requires
                        width * height <= MASS_SCALE,
                        width >= 1,
                        height >= 1,
                ;
                lemma_multiply_divide_lt(k as int, height as int, width as int);
            }
            let x = (k / height) as i32;
            let y = (k % height) as i32;
            grid.push(Cell::new(x, y, Color::White, 0));
            k = k + 1;
        }
        let mut conditional_probabilities: Vec<ConditionalProbabilities> = Vec::new();
        conditional_probabilities.push(ConditionalProbabilities::new(0, 5, 5, 10, 80));
        conditional_probabilities.push(ConditionalProbabilities::new(1, 5, 10, 75, 10));
        conditional_probabilities.push(ConditionalProbabilities::new(2, 5, 10, 75, 10));
        conditional_probabilities.push(ConditionalProbabilities::new(3, 10, 70, 15, 5));
        conditional_probabilities.push(ConditionalProbabilities::new(4, 10, 70, 15, 5));
        conditional_probabilities.push(ConditionalProbabilities::new(5, 75, 10, 10, 5));
        proof {
            assert forall|d: int| 0 <= d < 6 implies #[trigger] bucket_row_ok(
                conditional_probabilities@[d],
                d,
            ) by {
                assert(d == 0 || d == 1 || d == 2 || d == 3 || d == 4 || d == 5);
            }
            lemma_sum_all_zero(probs_of(grid@));
        }
        Ok(
            Game {
                width,
                height,
                grid,
                ghost_position: (0, 0),
                score: INITIAL_ATTEMPTS,
                busts: INITIAL_BUSTS,
                status: GameStatus::InProgress,
                mass_denominator: 0,
                conditional_probabilities,
            },
        )
    }

    /// Sets every cell's prior to exactly `1 / (width · height)`: numerator
    /// one over the denominator `width · height`.
    pub fn compute_initial_prior_probabilities(&mut self)
        requires
            old(self).well_formed(),
        ensures
            final(self).well_formed(),
            final(self).mass_denominator == final(self).width * final(self).height,
            sum(probs_of(final(self).grid@)) == final(self).width * final(self).height,
            final(self).grid@.len() == old(self).grid@.len(),
            forall|k: int|
                0 <= k < final(self).grid@.len() ==> {
                    let c0 = old(self).grid@[k];
                    let c = #[trigger] final(self).grid@[k];
                    c == (Cell { probability: 1, ..c0 })
                },
            final(self).width == old(self).width,
            final(self).height == old(self).height,
            final(self).ghost_position == old(self).ghost_position,
            final(self).score == old(self).score,
            final(self).busts == old(self).busts,
            final(self).status == old(self).status,
            final(self).conditional_probabilities == old(self).conditional_probabilities,
    {
        let n = self.grid.len();
        let mut k: usize = 0;
        while k < n
            invariant
                k <= n,
                n == self.grid@.len(),
                n == old(self).grid@.len(),
                sum(probs_of(self.grid@).take(k as int)) == k,
                forall|j: int|
                    0 <= j < k ==> #[trigger] self.grid@[j] == (Cell {
                        probability: 1,
                        ..old(self).grid@[j]
                    }),
                forall|j: int| k <= j < n ==> #[trigger] self.grid@[j] == old(self).grid@[j],
                self.width == old(self).width,
                self.height == old(self).height,
                self.ghost_position == old(self).ghost_position,
                self.score == old(self).score,
                self.busts == old(self).busts,
                self.status == old(self).status,
                self.mass_denominator == old(self).mass_denominator,
                self.conditional_probabilities == old(self).conditional_probabilities,
            decreases n - k,
        {
            let mut c = self.grid[k];
            c.probability = 1;
            let ghost before = probs_of(self.grid@);
            self.grid.set(k, c);
            proof {
                assert(probs_of(self.grid@).take(k as int) =~= before.take(k as int));
                lemma_sum_take_step(probs_of(self.grid@), k as int);
            }
            k = k + 1;
        }
        self.mass_denominator = (self.width * self.height) as u64;
        proof {
            assert(probs_of(self.grid@).take(n as int) =~= probs_of(self.grid@));
            assert forall|k: int| 0 <= k < self.grid@.len() implies cell_in_place(
                #[trigger] self.grid@[k],
                k,
                self.height as int,
            ) by {
                assert(cell_in_place(old(self).grid@[k], k, old(self).height as int));
            }
        }
    }

    /// Places the hidden entity uniformly at random on the grid: each
    /// coordinate is an unbiased bounded draw from the injected source.
    pub fn place_ghost<R: RandomSource>(&mut self, rng: &mut R)
        requires
            old(self).well_formed(),
        ensures
            final(self).well_formed(),
            0 <= final(self).ghost_position.0 < final(self).width,
            0 <= final(self).ghost_position.1 < final(self).height,
            final(self).grid == old(self).grid,
            final(self).width == old(self).width,
            final(self).height == old(self).height,
            final(self).score == old(self).score,
            final(self).busts == old(self).busts,
            final(self).status == old(self).status,
            final(self).mass_denominator == old(self).mass_denominator,
            final(self).conditional_probabilities == old(self).conditional_probabilities,
    {
        proof {
            assert(self.width <= MASS_SCALE && self.height <= MASS_SCALE) by (nonlinear_arith)
                requires
                    self.width * self.height <= MASS_SCALE,
                    self.width >= 1,
                    self.height >= 1,
            ;
        }
        let gx = rng.pick(self.width as u64);
        let gy = rng.pick(self.height as u64);
        self.ghost_position = (gx as i32, gy as i32);
    }

    /// Bucket lookup: the table row for `distance`, clamped to `[0, 5]`.
    ///
    /// Clamping is the sole fallback policy: every distance hits a row.
    pub fn lookup(&self, distance: i64) -> (row: ConditionalProbabilities)
        requires
            self.well_formed(),
        ensures
            row == canonical_row(clamp_bucket(distance as int)),
    {
        let b: usize = if distance > 5 {
            5
        } else if distance < 0 {
            0
        } else {
            distance as usize
        };
        let row = self.conditional_probabilities[b];
        proof {
            assert(bucket_row_ok(self.conditional_probabilities@[b as int], b as int));
        }
        row
    }

    /// One noisy sense at `(x, y)`: always consumes one attempt, then
    /// reports a color drawn from the bucket of the Manhattan distance to
    /// the hidden position (normalizing the bucket's weights by their own
    /// sum) and the exact compass hint. Out-of-bounds coordinates are
    /// rejected without consuming anything.
    pub fn distance_sense<R: RandomSource>(&mut self, x: i32, y: i32, rng: &mut R) -> (r: Result<
        (Color, Direction),
        GameError,
    >)
        requires
            old(self).well_formed(),
            old(self).score > i32::MIN,
        ensures
            final(self).well_formed(),
            r is Err <==> !(0 <= x < old(self).width && 0 <= y < old(self).height),
            r is Err ==> r == Result::<(Color, Direction), GameError>::Err(
                GameError::InvalidCoordinate,
            ) && *final(self) == *old(self),
            r matches Ok((c, d)) ==> {
                &&& *final(self) == (Game { score: (old(self).score - 1) as i32, ..*old(self) })
                &&& d == direction_of(
                    x as int,
                    y as int,
                    old(self).ghost_position.0 as int,
                    old(self).ghost_position.1 as int,
                )
                &&& sensed_color(
                    c,
                    clamped_distance(
                        x as int,
                        y as int,
                        old(self).ghost_position.0 as int,
                        old(self).ghost_position.1 as int,
                    ),
                )
            },
    {
        if x < 0 || y < 0 || x as usize >= self.width || y as usize >= self.height {
            return Err(GameError::InvalidCoordinate);
        }
        self.score = self.score - 1;
        let gx = self.ghost_position.0;
        let gy = self.ghost_position.1;
        let dx = (gx as i64) - (x as i64);
        let adx = if dx < 0 {
            -dx
        } else {
            dx
        };
        let dy = (gy as i64) - (y as i64);
        let ady = if dy < 0 {
            -dy
        } else {
            dy
        };
        let distance = adx + ady;
        let row = self.lookup(distance);
        let ghost bucket = clamp_bucket(distance as int);
        proof {
            lemma_likelihood_bounds(bucket, Color::Green);
            lemma_likelihood_bounds(bucket, Color::Yellow);
            lemma_likelihood_bounds(bucket, Color::Orange);
            lemma_likelihood_bounds(bucket, Color::Red);
            lemma_bucket_mass(bucket);
        }
        let s = row.green + row.yellow + row.orange + row.red;
        let t = rng.pick(s);
        let c = sample_color(&row, t);
        let d = relative_direction(x, y, gx, gy);
        proof {
            assert(bucket == clamped_distance(
                x as int,
                y as int,
                old(self).ghost_position.0 as int,
                old(self).ghost_position.1 as int,
            ));
            assert(0 <= t < LIKELIHOOD_SCALE && c == color_from_threshold(
                canonical_row(bucket),
                t as int,
            ));
        }
        Ok((c, d))
    }

    /// One Bayesian pass over the whole grid for the observation
    /// `(color, probe at (x, y), direction)`: every cell's prior is
    /// multiplied by the observed color's likelihood at the cell's clamped
    /// distance from the probe and by the directional boost, and the
    /// results are renormalized so the grid again sums exactly to one
    /// (numerators over [`MASS_SCALE`]).
    ///
    /// Two full sweeps: one multiply step per cell, then one normalize
    /// step per cell, because normalization needs the total first. If the
    /// total mass is zero (the priors were never computed), the update
    /// reports a degenerate distribution and leaves every probability
    /// unchanged.
    pub fn update_posterior_ghost_location_probabilities(
        &mut self,
        color: Color,
        x: i32,
        y: i32,
        g_direction: Direction,
    ) -> (r: Result<(), GameError>)
        requires
            old(self).well_formed(),
        ensures
            final(self).well_formed(),
            r is Err <==> old(self).mass_denominator == 0,
            r is Err ==> r == Result::<(), GameError>::Err(GameError::DegenerateDistribution)
                && *final(self) == *old(self),
            r is Ok ==> posterior_updated(
                *old(self),
                *final(self),
                color,
                x as int,
                y as int,
                g_direction,
            ),
    {
        let ghost pre = *old(self);
        let ghost probs = probs_of(pre.grid@);
        let ghost hh = pre.height as int;
        let ghost w_spec = weighted_mass(probs, hh, color, x as int, y as int, g_direction);
        let ghost scale = MASS_SCALE as int;
        proof {
            assert forall|j: int| 0 <= j < w_spec.len() implies {
                &&& #[trigger] w_spec[j] >= 5 * probs[j]
                &&& w_spec[j] <= 240 * probs[j]
                &&& w_spec[j] >= 0
            } by {
                let p = probs[j];
                let d = clamped_distance(x as int, y as int, j / hh, j % hh);
                let l = likelihood_of(d, color);
                let dw = dir_weight(direction_of(x as int, y as int, j / hh, j % hh), g_direction);
                lemma_likelihood_bounds(d, color);
                assert(p >= 0);
                assert(5 * p <= p * l * dw <= 240 * p && p * l * dw >= 0) by (nonlinear_arith)
                    requires
                        p >= 0,
                        5 <= l <= 80,
                        1 <= dw <= 3,
                ;
            }
        }
        let n = self.grid.len();
        let mut weighted: Vec<u64> = Vec::new();
        let mut total: u64 = 0;
        let mut first: usize = n;
        let mut k: usize = 0;
        while k < n
            invariant
                *self == pre,
                pre.well_formed(),
                n == pre.grid@.len(),
                probs == probs_of(pre.grid@),
                hh == pre.height as int,
                w_spec == weighted_mass(probs, hh, color, x as int, y as int, g_direction),
                forall|j: int|
                    0 <= j < w_spec.len() ==> 5 * probs[j] <= #[trigger] w_spec[j] <= 240
                        * probs[j],
                k <= n,
                weighted@.len() == k,
                forall|j: int| 0 <= j < k ==> #[trigger] weighted@[j] as int == w_spec[j],
                total as int == sum(w_spec.take(k as int)),
                5 * sum(probs.take(k as int)) <= total as int,
                total as int <= 240 * sum(probs.take(k as int)),
                first == n || (first < k && w_spec[first as int] > 0 && (forall|j: int|
                    0 <= j < first ==> w_spec[j] == 0)),
                first == n ==> forall|j: int| 0 <= j < k ==> w_spec[j] == 0,
            decreases n - k,
        {
            let cell = self.grid[k];
            proof {
                assert(cell_in_place(pre.grid@[k as int], k as int, hh));
            }
            let dx = (x as i64) - (cell.x as i64);
            let adx = if dx < 0 {
                -dx
            } else {
                dx
            };
            let dy = (y as i64) - (cell.y as i64);
            let ady = if dy < 0 {
                -dy
            } else {
                dy
            };
            let distance = adx + ady;
            let row = self.lookup(distance);
            let like = row.likelihood_for(color);
            let dir = relative_direction(x, y, cell.x, cell.y);
            let dw: u64 = if dir == g_direction {
                3
            } else {
                1
            };
            let ghost d = clamped_distance(x as int, y as int, k as int / hh, k as int % hh);
            proof {
                assert(d == clamp_bucket(distance as int));
                assert(like == likelihood_of(d, color));
                lemma_likelihood_bounds(d, color);
                assert(cell.probability * like <= MASS_SCALE * 80) by (nonlinear_arith)
                    requires
                        cell.probability <= MASS_SCALE,
                        like <= 80,
                ;
                assert((cell.probability * like) * dw <= (MASS_SCALE * 80) * 3) by (
                nonlinear_arith)
                    requires
                        cell.probability * like <= MASS_SCALE * 80,
                        dw <= 3,
                        cell.probability * like >= 0,
                ;
            }
            let wv = cell.probability * like * dw;
            proof {
                assert(wv as int == w_spec[k as int]);
                assert(probs[k as int] == cell.probability as int);
                lemma_sum_take_step(w_spec, k as int);
                lemma_sum_take_step(probs, k as int);
                assert(forall|j: int| 0 <= j < probs.len() ==> #[trigger] probs[j] >= 0);
                lemma_sum_take_le(probs, k as int + 1);
            }
            if wv > 0 && first == n {
                first = k;
            }
            weighted.push(wv);
            total = total + wv;
            k = k + 1;
        }
        proof {
            assert(w_spec.take(n as int) =~= w_spec);
            assert(probs.take(n as int) =~= probs);
        }
        if total == 0 {
            return Err(GameError::DegenerateDistribution);
        }
        proof {
            assert(pre.mass_denominator > 0);
            if first == n {
                lemma_sum_all_zero(w_spec);
                assert(false);
            }
        }
        let ghost t = total as int;
        let ghost floors = Seq::new(w_spec.len(), |i: int| w_spec[i] * scale / t);
        let mut acc: u64 = 0;
        let mut k: usize = 0;
        while k < n
            invariant
                pre.well_formed(),
                n == pre.grid@.len(),
                probs == probs_of(pre.grid@),
                hh == pre.height as int,
                w_spec == weighted_mass(probs, hh, color, x as int, y as int, g_direction),
                forall|j: int| 0 <= j < w_spec.len() ==> #[trigger] w_spec[j] >= 0,
                scale == MASS_SCALE as int,
                t == total as int,
                t == sum(w_spec),
                t > 0,
                t <= 240 * MASS_SCALE,
                floors == Seq::new(w_spec.len(), |i: int| w_spec[i] * scale / t),
                weighted@.len() == n,
                forall|j: int| 0 <= j < n ==> #[trigger] weighted@[j] as int == w_spec[j],
                first < n,
                w_spec[first as int] > 0,
                forall|j: int| 0 <= j < first ==> w_spec[j] == 0,
                k <= n,
                self.grid@.len() == n,
                forall|j: int|
                    k <= j < n ==> #[trigger] self.grid@[j] == pre.grid@[j],
                forall|j: int|
                    0 <= j < k ==> #[trigger] self.grid@[j] == (Cell {
                        probability: self.grid@[j].probability,
                        ..pre.grid@[j]
                    }),
                forall|j: int|
                    0 <= j < k ==> (#[trigger] self.grid@[j]).probability as int == floors[j],
                acc as int == sum(floors.take(k as int)),
                acc as int * t <= sum(w_spec.take(k as int)) * scale,
                acc <= MASS_SCALE,
                self.width == pre.width,
                self.height == pre.height,
                self.ghost_position == pre.ghost_position,
                self.score == pre.score,
                self.busts == pre.busts,
                self.status == pre.status,
                self.mass_denominator == pre.mass_denominator,
                self.conditional_probabilities == pre.conditional_probabilities,
            decreases n - k,
        {
            let wv = weighted[k];
            proof {
                lemma_sum_element_le(w_spec, k as int);
                assert(wv as int <= t);
            }
            let q = wv * MASS_SCALE / total;
            proof {
                lemma_fundamental_div_mod(w_spec[k as int] * scale, t);
                assert(t * (w_spec[k as int] * scale / t) <= w_spec[k as int] * scale);
                lemma_renorm_step(
                    acc as int,
                    sum(w_spec.take(k as int)),
                    w_spec[k as int],
                    t,
                    scale,
                );
                lemma_sum_take_step(w_spec, k as int);
                lemma_sum_take_step(floors, k as int);
                lemma_sum_take_le(w_spec, k as int + 1);
                lemma_mul_inequality(sum(w_spec.take(k as int + 1)), t, scale);
                lemma_cancel_factor((acc + q) as int, scale, t);
            }
            let mut cell = self.grid[k];
            cell.probability = q;
            self.grid.set(k, cell);
            acc = acc + q;
            k = k + 1;
        }
        proof {
            assert(floors.take(n as int) =~= floors);
            assert forall|j: int| 0 <= j < floors.len() implies #[trigger] floors[j] >= 0 by {
                lemma_renorm_step(0, 0, w_spec[j], t, scale);
            }
            lemma_sum_element_le(floors, first as int);
        }
        let rem = MASS_SCALE - acc;
        let mut cell = self.grid[first];
        cell.probability = cell.probability + rem;
        self.grid.set(first, cell);
        self.mass_denominator = MASS_SCALE;
        proof {
            lemma_sum_update(floors, first as int, floors[first as int] + rem);
            assert(probs_of(self.grid@) =~= renormalized(w_spec, first as int));
            assert(sum(probs_of(self.grid@)) == MASS_SCALE);
            assert(is_first_positive(w_spec, first as int));
            assert forall|k2: int| 0 <= k2 < self.grid@.len() implies cell_in_place(
                #[trigger] self.grid@[k2],
                k2,
                self.height as int,
            ) by {
                assert(cell_in_place(pre.grid@[k2], k2, hh));
                lemma_sum_element_le(probs_of(self.grid@), k2);
            }
        }
        Ok(())
    }

    /// One committed guess at `(x, y)`. The guess always costs one bust
    /// first; only then is the outcome evaluated, so a hit on the very
    /// last bust still wins: if the guess is the hidden position the
    /// session is `Won`, otherwise if that was the last bust the session
    /// is `Lost`, otherwise it is a plain miss and play goes on.
    /// Out-of-bounds coordinates are rejected without consuming anything.
    /// A bust never consumes a probing attempt.
    pub fn bust_ghost(&mut self, x: i32, y: i32) -> (r: Result<(Outcome, GameStatus), GameError>)
        requires
            old(self).well_formed(),
            old(self).busts > i32::MIN,
        ensures
            final(self).well_formed(),
            r is Err <==> !(0 <= x < old(self).width && 0 <= y < old(self).height),
            r is Err ==> r == Result::<(Outcome, GameStatus), GameError>::Err(
                GameError::InvalidCoordinate,
            ) && *final(self) == *old(self),
            r matches Ok((o, st)) ==> {
                &&& final(self).busts == old(self).busts - 1
                &&& st == final(self).status
                &&& if (x, y) == old(self).ghost_position {
                    o == Outcome::Hit && final(self).status == GameStatus::Won
                } else if old(self).busts == 1 {
                    o == Outcome::OutOfBusts && final(self).status == GameStatus::Lost
                } else {
                    o == Outcome::Miss && final(self).status == old(self).status
                }
                &&& *final(self) == (Game {
                    busts: (old(self).busts - 1) as i32,
                    status: final(self).status,
                    ..*old(self)
                })
            },
    {
        if x < 0 || y < 0 || x as usize >= self.width || y as usize >= self.height {
            return Err(GameError::InvalidCoordinate);
        }
        self.busts = self.busts - 1;
        if self.ghost_position.0 == x && self.ghost_position.1 == y {
            self.status = GameStatus::Won;
            Ok((Outcome::Hit, self.status))
        } else if self.busts == 0 {
            self.status = GameStatus::Lost;
            Ok((Outcome::OutOfBusts, self.status))
        } else {
            Ok((Outcome::Miss, self.status))
        }
    }

    /// One full probe action at `(x, y)`: sense (always consuming one
    /// attempt), record the color and the visited flag, run the posterior
    /// update with the fresh observation, then check attempt exhaustion —
    /// a probe that leaves zero attempts while play is in progress loses
    /// the session. Returns the sensed color, the compass hint and the
    /// resulting status.
    ///
    /// Policy for re-probing a visited cell: the attempt is still
    /// consumed and the fresh hint is reported, but the display color and
    /// the posterior stay untouched. Out-of-bounds coordinates are
    /// rejected without consuming anything. A probe before the priors are
    /// computed finds zero mass; the posterior is then left unchanged.
    pub fn probe<R: RandomSource>(&mut self, x: i32, y: i32, rng: &mut R) -> (r: Result<
        (Color, Direction, GameStatus),
        GameError,
    >)
        requires
            old(self).well_formed(),
            old(self).score > i32::MIN,
        ensures
            final(self).well_formed(),
            r is Err <==> !(0 <= x < old(self).width && 0 <= y < old(self).height),
            r is Err ==> r == Result::<(Color, Direction, GameStatus), GameError>::Err(
                GameError::InvalidCoordinate,
            ) && *final(self) == *old(self),
            r matches Ok((c, d, st)) ==> {
                let pre = *old(self);
                let post = *final(self);
                let idx = x as int * pre.height + y as int;
                let w = weighted_mass(
                    probs_of(pre.grid@),
                    pre.height as int,
                    c,
                    x as int,
                    y as int,
                    d,
                );
                &&& d == direction_of(
                    x as int,
                    y as int,
                    pre.ghost_position.0 as int,
                    pre.ghost_position.1 as int,
                )
                &&& sensed_color(
                    c,
                    clamped_distance(
                        x as int,
                        y as int,
                        pre.ghost_position.0 as int,
                        pre.ghost_position.1 as int,
                    ),
                )
                &&& post.score == pre.score - 1
                &&& post.status == (if pre.score - 1 == 0 && pre.status is InProgress {
                    GameStatus::Lost
                } else {
                    pre.status
                })
                &&& st == post.status
                &&& post.busts == pre.busts
                &&& post.width == pre.width
                &&& post.height == pre.height
                &&& post.ghost_position == pre.ghost_position
                &&& post.conditional_probabilities == pre.conditional_probabilities
                &&& post.grid@.len() == pre.grid@.len()
                &&& if pre.grid@[idx].visited {
                    post.grid == pre.grid && post.mass_denominator == pre.mass_denominator
                } else {
                    &&& forall|k: int|
                        0 <= k < post.grid@.len() && k != idx ==> #[trigger] post.grid@[k]
                            == (Cell { probability: post.grid@[k].probability, ..pre.grid@[k] })
                    &&& post.grid@[idx] == (Cell {
                        color: c,
                        visited: true,
                        probability: post.grid@[idx].probability,
                        ..pre.grid@[idx]
                    })
                    &&& if pre.mass_denominator > 0 {
                        &&& exists|kk: int|
                            #[trigger] is_first_positive(w, kk) && probs_of(post.grid@)
                                == renormalized(w, kk)
                        &&& post.mass_denominator == MASS_SCALE
                        &&& sum(probs_of(post.grid@)) == MASS_SCALE
                    } else {
                        &&& probs_of(post.grid@) == probs_of(pre.grid@)
                        &&& post.mass_denominator == 0
                    }
                }
            },
    {
        if x < 0 || y < 0 || x as usize >= self.width || y as usize >= self.height {
            return Err(GameError::InvalidCoordinate);
        }
        let ghost pre = *old(self);
        let ghost hh = pre.height as int;
        let sensed = self.distance_sense(x, y, rng);
        let (c, d) = sensed.unwrap();
        proof {
            assert((x as int) * hh + (y as int) < (pre.width as int) * hh) by (nonlinear_arith)
                requires
                    0 <= (x as int) && (x as int) < (pre.width as int),
                    0 <= (y as int) && (y as int) < hh,
            ;
        }
        let idx = (x as usize) * self.height + (y as usize);
        if !self.grid[idx].visited {
            let mut cell = self.grid[idx];
            cell.color = c;
            cell.visited = true;
            let ghost before = *self;
            self.grid.set(idx, cell);
            proof {
                assert(probs_of(self.grid@) =~= probs_of(pre.grid@));
                assert forall|k: int| 0 <= k < self.grid@.len() implies cell_in_place(
                    #[trigger] self.grid@[k],
                    k,
                    hh,
                ) by {
                    assert(cell_in_place(before.grid@[k], k, hh));
                }
            }
            let ghost colored = *self;
            let updated = self.update_posterior_ghost_location_probabilities(c, x, y, d);
            proof {
                if pre.mass_denominator > 0 {
                    assert(updated is Ok);
                    assert(posterior_updated(colored, *self, c, x as int, y as int, d));
                } else {
                    assert(*self == colored);
                }
            }
        }
        if self.score == 0 {
            if self.status == GameStatus::InProgress {
                self.status = GameStatus::Lost;
            }
        }
        Ok((c, d, self.status))
    }

    /// Starts the session over in place: every cell back to white, zero
    /// mass and unvisited; full counters; play in progress; then a fresh
    /// hidden position and fresh uniform priors, exactly as a newly
    /// constructed session shows them.
    pub fn reset<R: RandomSource>(&mut self, rng: &mut R)
        requires
            old(self).well_formed(),
        ensures
            final(self).well_formed(),
            final(self).at_session_start(),
            final(self).width == old(self).width,
            final(self).height == old(self).height,
            final(self).conditional_probabilities == old(self).conditional_probabilities,
            final(self).grid@.len() == old(self).grid@.len(),
            forall|k: int|
                0 <= k < final(self).grid@.len() ==> #[trigger] final(self).grid@[k] == (Cell {
                    x: old(self).grid@[k].x,
                    y: old(self).grid@[k].y,
                    color: Color::White,
                    probability: 1,
                    visited: false,
                }),
    {
        let ghost pre = *old(self);
        let n = self.grid.len();
        let mut k: usize = 0;
        while k < n
            invariant
                k <= n,
                n == self.grid@.len(),
                n == pre.grid@.len(),
                sum(probs_of(self.grid@).take(k as int)) == 0,
                forall|j: int|
                    0 <= j < k ==> #[trigger] self.grid@[j] == (Cell {
                        x: pre.grid@[j].x,
                        y: pre.grid@[j].y,
                        color: Color::White,
                        probability: 0,
                        visited: false,
                    }),
                forall|j: int| k <= j < n ==> #[trigger] self.grid@[j] == pre.grid@[j],
                self.width == pre.width,
                self.height == pre.height,
                self.ghost_position == pre.ghost_position,
                self.score == pre.score,
                self.busts == pre.busts,
                self.status == pre.status,
                self.mass_denominator == pre.mass_denominator,
                self.conditional_probabilities == pre.conditional_probabilities,
            decreases n - k,
        {
            let mut c = self.grid[k];
            c.color = Color::White;
            c.probability = 0;
            c.visited = false;
            let ghost before = probs_of(self.grid@);
            self.grid.set(k, c);
            proof {
                assert(probs_of(self.grid@).take(k as int) =~= before.take(k as int));
                lemma_sum_take_step(probs_of(self.grid@), k as int);
            }
            k = k + 1;
        }
        self.mass_denominator = 0;
        self.score = INITIAL_ATTEMPTS;
        self.busts = INITIAL_BUSTS;
        self.status = GameStatus::InProgress;
        proof {
            assert(probs_of(self.grid@).take(n as int) =~= probs_of(self.grid@));
            assert forall|k2: int| 0 <= k2 < self.grid@.len() implies cell_in_place(
                #[trigger] self.grid@[k2],
                k2,
                self.height as int,
            ) by {
                assert(cell_in_place(pre.grid@[k2], k2, pre.height as int));
            }
        }
        self.place_ghost(rng);
        self.compute_initial_prior_probabilities();
    }
}

/// A reset session matches a freshly constructed one: two well-formed
/// sessions of the same dimensions standing at the session start — as
/// [`Game::reset`] and [`Game::new`] followed by
/// [`Game::compute_initial_prior_probabilities`] both leave them — agree
/// on the whole grid, the counters, the status, the mass denominator and
/// the table; only the randomly placed hidden position may differ.
pub proof fn lemma_reset_matches_fresh(a: Game, b: Game)
    requires
        a.well_formed(),
        b.well_formed(),
        a.at_session_start(),
        b.at_session_start(),
        a.width == b.width,
        a.height == b.height,
    ensures
        a.grid@ == b.grid@,
        a.score == b.score,
        a.busts == b.busts,
        a.status == b.status,
        a.mass_denominator == b.mass_denominator,
        a.conditional_probabilities@ == b.conditional_probabilities@,
{
    assert forall|k: int| 0 <= k < a.grid@.len() implies a.grid@[k] == b.grid@[k] by {
        assert(cell_in_place(a.grid@[k], k, a.height as int));
        assert(cell_in_place(b.grid@[k], k, b.height as int));
    }
    assert(a.grid@ =~= b.grid@);
    assert forall|d: int|
        0 <= d < a.conditional_probabilities@.len() implies a.conditional_probabilities@[d]
        == b.conditional_probabilities@[d] by {
        assert(bucket_row_ok(a.conditional_probabilities@[d], d));
        assert(bucket_row_ok(b.conditional_probabilities@[d], d));
    }
    assert(a.conditional_probabilities@ =~= b.conditional_probabilities@);
}

/// The Manhattan distance from the probe `(x, y)` to `(gx, gy)`, clamped
/// to the table's six buckets.
pub open spec fn clamped_distance(x: int, y: int, gx: int, gy: int) -> int {
    clamp_bucket((abs(x - gx) + abs(y - gy)) as int)
}

/// The fixed directional boost: a cell whose own compass hint matches the
/// observed one keeps weight 3 of 4, any other cell 1 of 4. The common
/// denominator 4 cancels in the normalization, so only the numerators
/// appear. The boost is deliberately binary over the nine-way label space:
/// all non-matching hints share one weight.
pub open spec fn dir_weight(cell_dir: Direction, observed: Direction) -> int {
    if cell_dir == observed {
        3
    } else {
        1
    }
}

/// The unnormalized posterior mass of every cell for one observation:
/// cell `k` (at `(k / h, k % h)`) keeps its prior numerator times the
/// likelihood of the observed color at its clamped distance from the
/// probe, times its directional boost.
pub open spec fn weighted_mass(
    probs: Seq<int>,
    h: int,
    c: Color,
    x: int,
    y: int,
    gd: Direction,
) -> Seq<int> {
    Seq::new(
        probs.len(),
        |k: int|
            probs[k] * likelihood_of(clamped_distance(x, y, k / h, k % h), c) * dir_weight(
                direction_of(x, y, k / h, k % h),
                gd,
            ),
    )
}

/// `k` is the first index carrying positive weight.
pub open spec fn is_first_positive(w: Seq<int>, k: int) -> bool {
    &&& 0 <= k < w.len()
    &&& w[k] > 0
    &&& forall|j: int| 0 <= j < k ==> w[j] == 0
}

/// The weighted masses renormalized to the fixed denominator
/// [`MASS_SCALE`]: every cell gets the floor of its proportional share,
/// and the rounding remainder goes to cell `kk` (the first cell with
/// positive weight), so the total is exactly [`MASS_SCALE`].
pub open spec fn renormalized(w: Seq<int>, kk: int) -> Seq<int> {
    let t = sum(w);
    let floors = Seq::new(w.len(), |i: int| w[i] * (MASS_SCALE as int) / t);
    floors.update(kk, floors[kk] + (MASS_SCALE - sum(floors)))
}

/// How one completed posterior update relates the new state to the old:
/// the probability numerators become the renormalized weighted masses
/// (summing exactly to [`MASS_SCALE`], the new denominator) and nothing
/// else changes.
pub open spec fn posterior_updated(pre: Game, post: Game, c: Color, x: int, y: int, gd: Direction) -> bool {
    let w = weighted_mass(probs_of(pre.grid@), pre.height as int, c, x, y, gd);
    &&& post.grid@.len() == pre.grid@.len()
    &&& exists|kk: int| #[trigger] is_first_positive(w, kk) && probs_of(post.grid@) == renormalized(w, kk)
    &&& post.mass_denominator == MASS_SCALE
    &&& sum(probs_of(post.grid@)) == MASS_SCALE
    &&& forall|k: int|
        0 <= k < post.grid@.len() ==> #[trigger] post.grid@[k] == (Cell {
            probability: post.grid@[k].probability,
            ..pre.grid@[k]
        })
    &&& post.width == pre.width
    &&& post.height == pre.height
    &&& post.ghost_position == pre.ghost_position
    &&& post.score == pre.score
    &&& post.busts == pre.busts
    &&& post.status == pre.status
    &&& post.conditional_probabilities == pre.conditional_probabilities
}

/// The sensed color `c` is a categorical draw from bucket `d`'s
/// distribution: some threshold below the bucket's weight sum selects it
/// by inverse CDF. Which threshold was drawn is up to the randomness
/// source, so this is everything the sensor promises about the color.
pub open spec fn sensed_color(c: Color, d: int) -> bool {
    exists|t: int|
        0 <= t < LIKELIHOOD_SCALE && c == #[trigger] color_from_threshold(canonical_row(d), t)
}

} // verus!
