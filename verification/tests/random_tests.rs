use bust_the_ghost::game::Game;
use bust_the_ghost::rng::{RandomSource, SplitMix64, ThreadRandom};
use bust_the_ghost::table::Color;

fn mk_game(w: i32, h: i32) -> Game {
    Game::new(w, h).unwrap()
}

#[test]
fn place_ghost_is_in_bounds_and_roughly_uniform() {
    let mut g = mk_game(3, 3);
    g.compute_initial_prior_probabilities();
    let mut rng = SplitMix64::new(0xC0FFEE);
    let mut counts = [0u32; 9];
    let draws = 10_000;
    for _ in 0..draws {
        g.place_ghost(&mut rng);
        let (x, y) = g.ghost_position;
        assert!(0 <= x && x < 3 && 0 <= y && y < 3);
        counts[(x * 3 + y) as usize] += 1;
    }
    // Chi-square sanity bound: with 10_000 draws over 9 cells the expected
    // count is ~1111 per cell; a fair source stays well within +/- 20 %.
    for &c in counts.iter() {
        assert!(889 < c && c < 1334, "cell count {} outside uniform band", c);
    }
}

#[test]
fn sensed_color_at_distance_zero_is_mostly_red() {
    let mut g = mk_game(3, 3);
    g.compute_initial_prior_probabilities();
    g.ghost_position = (1, 1);
    let mut rng = SplitMix64::new(0xBADC0DE);
    let trials = 10_000;
    let mut reds = 0u32;
    for _ in 0..trials {
        let (c, _) = g.distance_sense(1, 1, &mut rng).unwrap();
        if c == Color::Red {
            reds += 1;
        }
    }
    // Bucket 0 weights (green 5, yellow 5, orange 10, red 80): the red
    // frequency over 10_000 draws must sit at 0.80 +/- 0.02.
    assert!(7800 <= reds && reds <= 8200, "red count {} outside band", reds);
}

#[test]
fn thread_random_draws_stay_below_the_bound() {
    let mut rng = ThreadRandom::new();
    // The only value below 1 is 0.
    assert_eq!(rng.pick(1), 0);
    for bound in [2u64, 3, 10, 97] {
        for _ in 0..200 {
            assert!(rng.pick(bound) < bound);
        }
    }
}

#[test]
fn thread_random_places_on_the_grid() {
    let mut g = mk_game(1, 1);
    g.compute_initial_prior_probabilities();
    let mut rng = ThreadRandom::new();
    g.place_ghost(&mut rng);
    assert_eq!(g.ghost_position, (0, 0));
    let mut wide = mk_game(5, 7);
    wide.compute_initial_prior_probabilities();
    for _ in 0..100 {
        wide.place_ghost(&mut rng);
        let (x, y) = wide.ghost_position;
        assert!(0 <= x && x < 5 && 0 <= y && y < 7);
    }
}

#[test]
fn split_mix_is_deterministic() {
    let mut a = SplitMix64::new(42);
    let mut b = SplitMix64::new(42);
    for bound in [2u64, 9, 100, 1000] {
        for _ in 0..50 {
            assert_eq!(a.pick(bound), b.pick(bound));
        }
    }
}
