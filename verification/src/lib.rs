//! Hidden-state inference engine for a single-player "hunt the hidden
//! entity" grid game.
//!
//! A player repeatedly probes cells of a rectangular grid and receives a
//! noisy color hint plus an exact compass hint about the hidden entity's
//! position. The engine keeps a posterior probability distribution over all
//! cells and updates it with a Bayesian pass after every probe. A committed
//! final guess (a "bust") is resolved by a small terminal state machine.
//!
//! Probabilities are held exactly, as integer numerators over a stored
//! denominator (`Game::mass_denominator`), so the invariant that the grid's
//! probability mass sums to one is an exact equation rather than a floating
//! tolerance.

pub mod direction;
pub mod game;
pub mod mass;
pub mod rng;
pub mod table;
