use bust_the_ghost::direction::{relative_direction, Direction};
use bust_the_ghost::game::{Game, GameError, GameStatus, Outcome, MASS_SCALE};
use bust_the_ghost::rng::SplitMix64;
use bust_the_ghost::table::Color;

fn mk_game(w: i32, h: i32) -> Game {
    Game::new(w, h).unwrap()
}

fn grid_mass(g: &Game) -> u64 {
    let mut sum: u64 = 0;
    for c in g.grid.iter() {
        sum += c.probability;
    }
    sum
}

#[test]
fn invalid_dimensions_are_refused() {
    assert_eq!(Game::new(0, 5).unwrap_err(), GameError::InvalidDimensions);
    assert_eq!(Game::new(5, 0).unwrap_err(), GameError::InvalidDimensions);
    assert_eq!(Game::new(-1, 3).unwrap_err(), GameError::InvalidDimensions);
}

#[test]
fn new_game_starts_white_and_unvisited() {
    let g = mk_game(9, 12);
    assert_eq!(g.grid.len(), 108);
    assert_eq!(g.score, 30);
    assert_eq!(g.busts, 2);
    assert_eq!(g.status, GameStatus::InProgress);
    assert_eq!(g.mass_denominator, 0);
    for c in g.grid.iter() {
        assert_eq!(c.color, Color::White);
        assert_eq!(c.probability, 0);
        assert!(!c.visited);
    }
}

#[test]
fn initial_priors_are_uniform() {
    let mut g = mk_game(9, 12);
    g.compute_initial_prior_probabilities();
    assert_eq!(g.mass_denominator, 108);
    for c in g.grid.iter() {
        // Every cell holds exactly 1 / (W·H): numerator 1 over W·H.
        assert_eq!(c.probability, 1);
    }
    assert_eq!(grid_mass(&g), g.mass_denominator);
    let float_sum = g.grid.len() as f64 / 108.0;
    assert!((float_sum - 1.0).abs() < 1e-6);
}

#[test]
fn cells_sit_at_their_indices() {
    let g = mk_game(4, 7);
    for (k, c) in g.grid.iter().enumerate() {
        assert_eq!(c.x as usize, k / 7);
        assert_eq!(c.y as usize, k % 7);
    }
}

#[test]
fn update_posteriors_keeps_mass_at_one() {
    let mut g = mk_game(9, 12);
    g.compute_initial_prior_probabilities();
    let r = g.update_posterior_ghost_location_probabilities(Color::Red, 4, 5, Direction::Exact);
    assert!(r.is_ok());
    assert_eq!(g.mass_denominator, MASS_SCALE);
    assert_eq!(grid_mass(&g), MASS_SCALE);
    // A second update over the renormalized grid keeps the exact total.
    let r2 =
        g.update_posterior_ghost_location_probabilities(Color::Green, 0, 0, Direction::SouthEast);
    assert!(r2.is_ok());
    assert_eq!(grid_mass(&g), MASS_SCALE);
}

#[test]
fn update_posteriors_exact_values_on_tiny_grid() {
    // 1 x 2 grid, uniform priors (numerator 1 each, denominator 2).
    // Observation: red at (0, 0) with the exact hint.
    //   cell (0,0): distance 0, red likelihood 80, direction Exact matches,
    //               boost 3 -> weight 1 * 80 * 3 = 240
    //   cell (0,1): distance 1, red likelihood 10, direction East differs,
    //               boost 1 -> weight 1 * 10 * 1 = 10
    // Total 250; renormalized over 100_000_000:
    //   240 * 100_000_000 / 250 = 96_000_000
    //    10 * 100_000_000 / 250 =  4_000_000
    let mut g = mk_game(1, 2);
    g.compute_initial_prior_probabilities();
    let r = g.update_posterior_ghost_location_probabilities(Color::Red, 0, 0, Direction::Exact);
    assert!(r.is_ok());
    assert_eq!(g.grid[0].probability, 96_000_000);
    assert_eq!(g.grid[1].probability, 4_000_000);
    assert_eq!(g.mass_denominator, MASS_SCALE);
}

#[test]
fn update_posteriors_boosts_consistent_cells() {
    let mut g = mk_game(3, 3);
    g.compute_initial_prior_probabilities();
    // Red at (1, 1) with an exact hint: the probed cell has likelihood 80
    // and the direction boost 3; every other cell is less likely.
    let r = g.update_posterior_ghost_location_probabilities(Color::Red, 1, 1, Direction::Exact);
    assert!(r.is_ok());
    let center = g.grid[4].probability;
    for (k, c) in g.grid.iter().enumerate() {
        if k != 4 {
            assert!(c.probability < center);
        }
    }
}

#[test]
fn degenerate_update_leaves_grid_unchanged() {
    let mut g = mk_game(3, 3);
    // Priors never computed: total mass is zero.
    let r = g.update_posterior_ghost_location_probabilities(Color::Red, 1, 1, Direction::Exact);
    assert_eq!(r.unwrap_err(), GameError::DegenerateDistribution);
    assert_eq!(g.mass_denominator, 0);
    for c in g.grid.iter() {
        assert_eq!(c.probability, 0);
    }
}

#[test]
fn bust_at_hidden_cell_wins() {
    let mut g = mk_game(3, 3);
    g.compute_initial_prior_probabilities();
    g.ghost_position = (1, 1);
    let (o, st) = g.bust_ghost(1, 1).unwrap();
    assert_eq!(o, Outcome::Hit);
    assert_eq!(st, GameStatus::Won);
    assert_eq!(g.status, GameStatus::Won);
    assert_eq!(g.busts, 1);
}

#[test]
fn bust_hit_on_last_bust_still_wins() {
    let mut g = mk_game(3, 3);
    g.compute_initial_prior_probabilities();
    g.ghost_position = (1, 1);
    let (o, st) = g.bust_ghost(0, 0).unwrap();
    assert_eq!((o, st), (Outcome::Miss, GameStatus::InProgress));
    assert_eq!(g.busts, 1);
    // The bust counter is about to reach 0, but the hit check comes first.
    let (o, st) = g.bust_ghost(1, 1).unwrap();
    assert_eq!((o, st), (Outcome::Hit, GameStatus::Won));
    assert_eq!(g.busts, 0);
}

#[test]
fn bust_miss_on_last_bust_loses() {
    let mut g = mk_game(3, 3);
    g.compute_initial_prior_probabilities();
    g.ghost_position = (1, 1);
    g.busts = 1;
    let (o, st) = g.bust_ghost(2, 2).unwrap();
    assert_eq!(o, Outcome::OutOfBusts);
    assert_eq!(st, GameStatus::Lost);
    assert_eq!(g.busts, 0);
}

#[test]
fn bust_rejects_out_of_bounds() {
    let mut g = mk_game(3, 3);
    g.compute_initial_prior_probabilities();
    assert_eq!(g.bust_ghost(3, 0).unwrap_err(), GameError::InvalidCoordinate);
    assert_eq!(g.bust_ghost(0, -1).unwrap_err(), GameError::InvalidCoordinate);
    assert_eq!(g.busts, 2);
    assert_eq!(g.status, GameStatus::InProgress);
}

#[test]
fn direction_sign_mapping_is_fixed() {
    // Probe (0, 0), hidden (2, 2): both deltas positive, the SE class.
    assert_eq!(relative_direction(0, 0, 2, 2), Direction::SouthEast);
    assert_eq!(relative_direction(2, 2, 0, 0), Direction::NorthWest);
    assert_eq!(relative_direction(2, 0, 0, 2), Direction::NorthEast);
    assert_eq!(relative_direction(0, 2, 2, 0), Direction::SouthWest);
    assert_eq!(relative_direction(2, 1, 0, 1), Direction::North);
    assert_eq!(relative_direction(0, 1, 2, 1), Direction::South);
    assert_eq!(relative_direction(1, 2, 1, 0), Direction::West);
    assert_eq!(relative_direction(1, 0, 1, 2), Direction::East);
    assert_eq!(relative_direction(1, 1, 1, 1), Direction::Exact);
}

#[test]
fn probe_senses_and_updates() {
    let mut g = mk_game(3, 3);
    g.compute_initial_prior_probabilities();
    g.ghost_position = (2, 2);
    let mut rng = SplitMix64::new(11);
    let (c, d, st) = g.probe(0, 0, &mut rng).unwrap();
    assert_ne!(c, Color::White);
    assert_eq!(d, Direction::SouthEast);
    assert_eq!(st, GameStatus::InProgress);
    assert_eq!(g.score, 29);
    assert!(g.grid[0].visited);
    assert_eq!(g.grid[0].color, c);
    assert_eq!(g.mass_denominator, MASS_SCALE);
    assert_eq!(grid_mass(&g), MASS_SCALE);
}

#[test]
fn probe_rejects_out_of_bounds_without_mutation() {
    let mut g = mk_game(3, 3);
    g.compute_initial_prior_probabilities();
    let mut rng = SplitMix64::new(11);
    assert_eq!(g.probe(3, 0, &mut rng).unwrap_err(), GameError::InvalidCoordinate);
    assert_eq!(g.probe(0, 3, &mut rng).unwrap_err(), GameError::InvalidCoordinate);
    assert_eq!(g.probe(-1, 0, &mut rng).unwrap_err(), GameError::InvalidCoordinate);
    assert_eq!(g.score, 30);
    assert_eq!(grid_mass(&g), 9);
}

#[test]
fn reprobe_charges_attempt_but_keeps_color_and_posterior() {
    let mut g = mk_game(3, 3);
    g.compute_initial_prior_probabilities();
    g.ghost_position = (2, 2);
    let mut rng = SplitMix64::new(3);
    let (c1, _, _) = g.probe(1, 1, &mut rng).unwrap();
    let score_after_first = g.score;
    let probs_after_first: Vec<u64> = g.grid.iter().map(|c| c.probability).collect();
    let (_, d2, _) = g.probe(1, 1, &mut rng).unwrap();
    assert_eq!(d2, Direction::SouthEast);
    assert_eq!(g.score, score_after_first - 1);
    assert_eq!(g.grid[4].color, c1);
    let probs_after_second: Vec<u64> = g.grid.iter().map(|c| c.probability).collect();
    assert_eq!(probs_after_first, probs_after_second);
}

#[test]
fn probe_exhausting_attempts_loses() {
    let mut g = mk_game(3, 3);
    g.compute_initial_prior_probabilities();
    g.ghost_position = (2, 2);
    g.score = 1;
    let mut rng = SplitMix64::new(5);
    let (_, _, st) = g.probe(0, 0, &mut rng).unwrap();
    assert_eq!(st, GameStatus::Lost);
    assert_eq!(g.status, GameStatus::Lost);
    assert_eq!(g.score, 0);
}

#[test]
fn bust_does_not_consume_attempts() {
    let mut g = mk_game(3, 3);
    g.compute_initial_prior_probabilities();
    g.ghost_position = (1, 1);
    let _ = g.bust_ghost(0, 0).unwrap();
    assert_eq!(g.score, 30);
}

#[test]
fn reset_restores_a_fresh_session() {
    let mut g = mk_game(3, 3);
    g.compute_initial_prior_probabilities();
    g.ghost_position = (2, 2);
    let mut rng = SplitMix64::new(21);
    for _ in 0..5 {
        let _ = g.probe(0, 1, &mut rng).unwrap();
        let _ = g.probe(2, 1, &mut rng).unwrap();
    }
    let _ = g.bust_ghost(0, 0).unwrap();
    g.reset(&mut rng);

    let mut fresh = mk_game(3, 3);
    fresh.compute_initial_prior_probabilities();
    assert_eq!(g.score, 30);
    assert_eq!(g.busts, 2);
    assert_eq!(g.status, GameStatus::InProgress);
    assert_eq!(g.mass_denominator, fresh.mass_denominator);
    assert_eq!(g.grid.len(), fresh.grid.len());
    for (a, b) in g.grid.iter().zip(fresh.grid.iter()) {
        assert_eq!(a, b);
    }
    let gp = g.ghost_position;
    assert!(0 <= gp.0 && gp.0 < 3 && 0 <= gp.1 && gp.1 < 3);
}
