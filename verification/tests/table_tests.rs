use bust_the_ghost::game::Game;
use bust_the_ghost::table::{sample_color, Color, ConditionalProbabilities};

fn mk_game(w: i32, h: i32) -> Game {
    Game::new(w, h).unwrap()
}

#[test]
fn bucket_rows_sum_to_one() {
    let g = mk_game(3, 3);
    for d in 0..6i64 {
        let row = g.lookup(d);
        assert_eq!(row.green + row.yellow + row.orange + row.red, 100);
        let as_prob = (row.green + row.yellow + row.orange + row.red) as f64 / 100.0;
        assert!((as_prob - 1.0).abs() < 1e-6);
    }
}

#[test]
fn bucket_zero_is_canonical() {
    let g = mk_game(3, 3);
    let row = g.lookup(0);
    assert_eq!(row.distance, 0);
    assert_eq!((row.green, row.yellow, row.orange, row.red), (5, 5, 10, 80));
}

#[test]
fn near_buckets_favor_red_far_buckets_favor_green() {
    let g = mk_game(3, 3);
    let near = g.lookup(0);
    let far = g.lookup(5);
    assert!(near.red > near.green);
    assert!(far.green > far.red);
}

#[test]
fn lookup_clamps_distance() {
    let g = mk_game(3, 3);
    let clamped = g.lookup(5);
    for d in [6i64, 7, 100, i64::MAX] {
        let row = g.lookup(d);
        assert_eq!(
            (row.green, row.yellow, row.orange, row.red),
            (clamped.green, clamped.yellow, clamped.orange, clamped.red)
        );
    }
}

#[test]
fn sample_color_inverse_cdf_thresholds() {
    let row = ConditionalProbabilities::new(0, 5, 5, 10, 80);
    for t in 0..100u64 {
        let c = sample_color(&row, t);
        let expected = if t < 5 {
            Color::Green
        } else if t < 10 {
            Color::Yellow
        } else if t < 20 {
            Color::Orange
        } else {
            Color::Red
        };
        assert_eq!(c, expected);
    }
}

#[test]
fn sample_color_normalizes_by_weight_sum() {
    // Weights that do not sum to 100: the sampler draws below their own sum.
    let row = ConditionalProbabilities::new(1, 1, 1, 1, 1);
    assert_eq!(sample_color(&row, 0), Color::Green);
    assert_eq!(sample_color(&row, 1), Color::Yellow);
    assert_eq!(sample_color(&row, 2), Color::Orange);
    assert_eq!(sample_color(&row, 3), Color::Red);
}

#[test]
fn likelihood_for_picks_the_matching_column() {
    let row = ConditionalProbabilities::new(3, 10, 70, 15, 5);
    assert_eq!(row.likelihood_for(Color::Green), 10);
    assert_eq!(row.likelihood_for(Color::Yellow), 70);
    assert_eq!(row.likelihood_for(Color::Orange), 15);
    assert_eq!(row.likelihood_for(Color::Red), 5);
    // A color the sensor never reports is charged the red likelihood.
    assert_eq!(row.likelihood_for(Color::White), 5);
}
