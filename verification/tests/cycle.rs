use predictor::controller::{
    adjust_window_size, DECREASE_THRESHOLD, INCREASE_THRESHOLD, INITIAL_WINDOW_SIZE,
    MAX_WINDOW_SIZE, MIN_WINDOW_SIZE,
};
use predictor::forecast::{combine, dynamic_delta, Interval, Predictor, BASE_DELTA};
use predictor::input::ParseError;
use predictor::stats::Variance;
use predictor::window::insert;
use std::collections::VecDeque;

fn deque(values: &[i32]) -> VecDeque<i32> {
    values.iter().copied().collect()
}

fn around(lower: i64, upper: i64) -> Option<Interval> {
    Some(Interval { lower, upper })
}

fn outputs(inputs: &[i32]) -> (Vec<Option<Interval>>, Predictor) {
    let mut predictor = Predictor::new();
    let mut emitted = Vec::new();
    for &sample in inputs {
        emitted.push(predictor.observe(sample));
    }
    (emitted, predictor)
}

#[test]
fn the_constants_have_their_values() {
    assert_eq!(INITIAL_WINDOW_SIZE, 10);
    assert_eq!(MAX_WINDOW_SIZE, 20);
    assert_eq!(MIN_WINDOW_SIZE, 5);
    assert_eq!(INCREASE_THRESHOLD, 10);
    assert_eq!(DECREASE_THRESHOLD, 2);
    assert_eq!(BASE_DELTA, 1);
}

#[test]
fn a_new_predictor_is_empty_with_the_initial_capacity() {
    let predictor = Predictor::new();
    assert_eq!(predictor.len(), 0);
    assert_eq!(predictor.window_size(), 10);
    assert!(predictor.window().is_empty());
}

#[test]
fn insert_appends_to_a_window_with_room() {
    let mut window = deque(&[]);
    insert(&mut window, 3, 1);
    assert_eq!(window, deque(&[1]));
    insert(&mut window, 3, 2);
    insert(&mut window, 3, 3);
    assert_eq!(window, deque(&[1, 2, 3]));
}

#[test]
fn insert_evicts_the_oldest_sample_of_a_full_window() {
    let mut window = deque(&[1, 2, 3]);
    insert(&mut window, 3, 4);
    assert_eq!(window, deque(&[2, 3, 4]));
    insert(&mut window, 3, 5);
    assert_eq!(window, deque(&[3, 4, 5]));
}

#[test]
fn insert_brings_a_longer_window_down_to_the_capacity() {
    let mut window = deque(&[1, 2, 3, 4]);
    insert(&mut window, 3, 5);
    assert_eq!(window, deque(&[3, 4, 5]));
    let mut window = deque(&[1, 2, 3, 4, 5, 6]);
    insert(&mut window, 3, 7);
    assert_eq!(window, deque(&[5, 6, 7]));
    let mut window = deque(&[1, 2, 3]);
    insert(&mut window, 1, 4);
    assert_eq!(window, deque(&[4]));
}

#[test]
fn insert_never_leaves_more_samples_than_the_capacity() {
    for capacity in 1..=6usize {
        for length in 0..=8i32 {
            let mut window: VecDeque<i32> = (0..length).collect();
            insert(&mut window, capacity, 99);
            assert!(window.len() <= capacity);
            assert_eq!(window.back(), Some(&99));
            assert_eq!(window.len(), (length as usize + 1).min(capacity));
        }
    }
}

#[test]
fn the_controller_widens_above_the_upper_threshold() {
    let high = Variance { whole: 10, remainder: 1, denominator: 4 };
    assert_eq!(adjust_window_size(10, &high), 11);
    assert_eq!(adjust_window_size(19, &high), 20);
    assert_eq!(adjust_window_size(20, &high), 20);
    assert_eq!(adjust_window_size(5, &high), 6);
}

#[test]
fn the_controller_narrows_below_the_lower_threshold() {
    let low = Variance { whole: 1, remainder: 3, denominator: 4 };
    assert_eq!(adjust_window_size(10, &low), 9);
    assert_eq!(adjust_window_size(6, &low), 5);
    assert_eq!(adjust_window_size(5, &low), 5);
    assert_eq!(adjust_window_size(20, &low), 19);
}

#[test]
fn the_controller_rests_between_the_thresholds() {
    let at_lower = Variance { whole: 2, remainder: 0, denominator: 4 };
    let between = Variance { whole: 5, remainder: 0, denominator: 4 };
    let at_upper = Variance { whole: 10, remainder: 0, denominator: 4 };
    for capacity in 5..=20usize {
        assert_eq!(adjust_window_size(capacity, &at_lower), capacity);
        assert_eq!(adjust_window_size(capacity, &between), capacity);
        assert_eq!(adjust_window_size(capacity, &at_upper), capacity);
    }
}

#[test]
fn the_half_width_is_the_kept_share_of_the_capacity_rounded_down() {
    assert_eq!(dynamic_delta(1, 9), 0);
    assert_eq!(dynamic_delta(4, 5), 0);
    assert_eq!(dynamic_delta(5, 5), 1);
    assert_eq!(dynamic_delta(6, 5), 1);
    assert_eq!(dynamic_delta(20, 20), 1);
    assert_eq!(dynamic_delta(21, 20), 1);
    assert_eq!(dynamic_delta(19, 20), 0);
    assert_eq!(dynamic_delta(0, 7), 0);
}

#[test]
fn the_prediction_is_the_truncated_mean_of_smoothed_value_and_median() {
    assert_eq!(combine(5, 6), 5);
    assert_eq!(combine(6, 5), 5);
    assert_eq!(combine(-5, -6), -5);
    assert_eq!(combine(-1, 0), 0);
    assert_eq!(combine(4, 4), 4);
    assert_eq!(combine(i32::MAX, i32::MAX), i32::MAX);
    assert_eq!(combine(i32::MIN, i32::MIN), i32::MIN);
    assert_eq!(combine(i32::MIN, i32::MAX), 0);
}

#[test]
fn the_first_sample_only_seeds_the_window() {
    let mut predictor = Predictor::new();
    assert_eq!(predictor.observe(5), None);
    assert_eq!(predictor.len(), 1);
    assert_eq!(predictor.window_size(), 10);
    assert_eq!(predictor.window(), &deque(&[5]));
}

#[test]
fn five_then_seven_emits_five_five() {
    let mut predictor = Predictor::new();
    assert_eq!(predictor.observe(5), None);
    assert_eq!(predictor.observe(7), around(5, 5));
    assert_eq!(predictor.window(), &deque(&[5, 7]));
    assert_eq!(predictor.window_size(), 9);
}

#[test]
fn every_sample_after_the_first_emits_an_interval() {
    let (emitted, _) = outputs(&[9, -4, 0, 0, 12, 7, 7, 7, 100, -100, 3]);
    assert_eq!(emitted[0], None);
    for interval in &emitted[1..] {
        assert!(interval.is_some());
    }
}

#[test]
fn a_rising_series_widens_the_window_to_the_greatest_capacity() {
    let (emitted, predictor) =
        outputs(&[10, 20, 30, 40, 50, 60, 70, 80, 90, 100, 110, 120]);
    assert_eq!(
        emitted,
        vec![
            None,
            around(12, 12),
            around(15, 15),
            around(25, 25),
            around(30, 30),
            around(35, 35),
            around(37, 37),
            around(45, 45),
            around(50, 50),
            around(55, 55),
            around(60, 60),
            around(65, 65),
        ]
    );
    assert_eq!(predictor.window_size(), 20);
    assert_eq!(predictor.len(), 12);
}

#[test]
fn a_mixed_series_emits_the_expected_intervals() {
    let (emitted, predictor) = outputs(&[
        1, 100, -50, 3, 7, 1000, 2, 2, 2, 5, 9, -7, 4, 4, 4, 4, 4, 4, 4, 4, 4, 4, 4, 4, 4,
    ]);
    let centres: [i64; 24] =
        [25, -24, 7, 3, 4, 2, 5, 2, 2, 3, 2, 3, 3, 3, 3, 3, 3, 3, 3, 3, 3, 4, 4, 4];
    assert_eq!(emitted[0], None);
    for (interval, centre) in emitted[1..].iter().zip(centres) {
        assert_eq!(*interval, around(centre, centre));
    }
    assert_eq!(
        predictor.window(),
        &deque(&[1000, 2, 2, 2, 5, 9, -7, 4, 4, 4, 4, 4, 4, 4, 4, 4, 4, 4, 4, 4])
    );
    assert_eq!(predictor.window_size(), 20);
}

#[test]
fn a_quiet_series_narrows_the_window_to_the_least_capacity() {
    let (emitted, predictor) = outputs(&[4, 6, 5, 5, 4, 6, 5, 4, 6, 5, 5, 5, 4, 6]);
    assert_eq!(
        emitted,
        vec![
            None,
            around(4, 4),
            around(4, 4),
            around(5, 5),
            around(4, 4),
            around(4, 6),
            around(5, 5),
            around(3, 5),
            around(4, 6),
            around(4, 6),
            around(5, 5),
            around(5, 5),
            around(5, 5),
            around(5, 5),
        ]
    );
    assert_eq!(predictor.window_size(), 5);
    assert_eq!(predictor.window(), &deque(&[5, 5, 5, 4, 6]));
}

#[test]
fn a_window_left_longer_than_the_capacity_is_cut_back_by_the_next_sample() {
    let mut predictor = Predictor::new();
    for _ in 0..5 {
        predictor.observe(3);
    }
    assert_eq!((predictor.len(), predictor.window_size()), (5, 6));
    predictor.observe(3);
    assert_eq!((predictor.len(), predictor.window_size()), (6, 5));
    predictor.observe(4);
    assert_eq!((predictor.len(), predictor.window_size()), (5, 5));
    assert_eq!(predictor.window(), &deque(&[3, 3, 3, 3, 4]));
}

#[test]
fn equal_samples_bring_the_capacity_to_the_least() {
    let mut predictor = Predictor::new();
    let capacities: [usize; 9] = [10, 9, 8, 7, 6, 5, 5, 5, 5];
    let lengths: [usize; 9] = [1, 2, 3, 4, 5, 6, 5, 5, 5];
    for (capacity, length) in capacities.into_iter().zip(lengths) {
        predictor.observe(3);
        assert_eq!(predictor.window_size(), capacity);
        assert_eq!(predictor.len(), length);
    }
    assert_eq!(predictor.window(), &deque(&[3; 5]));
}

#[test]
fn equal_samples_emit_intervals_around_their_value() {
    let (emitted, _) = outputs(&[3; 11]);
    assert_eq!(
        emitted,
        vec![
            None,
            around(3, 3),
            around(3, 3),
            around(3, 3),
            around(3, 3),
            around(2, 4),
            around(2, 4),
            around(2, 4),
            around(2, 4),
            around(2, 4),
            around(2, 4),
        ]
    );
}

#[test]
fn intervals_around_the_extremes_do_not_overflow() {
    let (emitted, _) = outputs(&[i32::MAX; 7]);
    assert_eq!(emitted[1], around(2147483647, 2147483647));
    assert_eq!(emitted[5], around(2147483646, 2147483648));
    let (emitted, _) = outputs(&[i32::MIN; 7]);
    assert_eq!(emitted[4], around(-2147483648, -2147483648));
    assert_eq!(emitted[6], around(-2147483649, -2147483647));
}

#[test]
fn the_capacity_stays_within_its_bounds() {
    let mut predictor = Predictor::new();
    let mut seed: u32 = 12345;
    for round in 0..3000u32 {
        seed = seed.wrapping_mul(1664525).wrapping_add(1013904223);
        let spread: u32 = if (round / 200) % 2 == 0 { 3 } else { 100000 };
        let sample = (seed >> 8) % spread;
        predictor.observe(sample as i32 - (spread / 2) as i32);
        assert!(predictor.window_size() >= MIN_WINDOW_SIZE);
        assert!(predictor.window_size() <= MAX_WINDOW_SIZE);
    }
}

#[test]
fn the_window_stays_within_the_capacity_and_one_sample() {
    let mut predictor = Predictor::new();
    let mut seed: u32 = 2024;
    for round in 0..3000u32 {
        seed = seed.wrapping_mul(1664525).wrapping_add(1013904223);
        let spread: u32 = if (round / 150) % 2 == 0 { 4 } else { 50000 };
        let sample = (seed >> 8) % spread;
        let before = predictor.window_size();
        predictor.observe(sample as i32);
        assert!(predictor.len() <= before);
        assert!(predictor.len() <= predictor.window_size() + 1);
        assert!(predictor.len() <= MAX_WINDOW_SIZE);
    }
}

#[test]
fn the_half_width_never_exceeds_the_base_half_width() {
    let mut predictor = Predictor::new();
    let mut seed: u32 = 77;
    let mut zero = false;
    let mut base = false;
    for round in 0..3000u32 {
        seed = seed.wrapping_mul(1664525).wrapping_add(1013904223);
        let spread: u32 = if (round / 100) % 2 == 0 { 2 } else { 1000 };
        let sample = (seed >> 8) % spread;
        if let Some(interval) = predictor.observe(sample as i32) {
            let width = interval.upper - interval.lower;
            assert!(width == 0 || width == 2 * BASE_DELTA as i64);
            zero = zero || width == 0;
            base = base || width == 2;
        }
    }
    assert!(zero && base);
}

#[test]
fn an_interval_is_as_wide_below_its_middle_as_above() {
    let (emitted, _) = outputs(&[8, 8, 9, 8, 7, 8, 8, 9, 9, 8, 7, 7, 8]);
    assert_eq!(emitted[7], around(8, 8));
    assert_eq!(emitted[8], around(7, 9));
    assert_eq!(emitted[12], around(6, 8));
    for interval in emitted.into_iter().flatten() {
        assert!(interval.lower <= interval.upper);
        assert_eq!((interval.upper - interval.lower) % 2, 0);
    }
}

#[test]
fn feed_runs_a_cycle_on_the_sample_of_a_line() {
    let mut predictor = Predictor::new();
    assert_eq!(predictor.feed(b"5"), Ok(None));
    assert_eq!(predictor.feed(b"7"), Ok(around(5, 5)));
    assert_eq!(predictor.window_size(), 9);
    assert_eq!(predictor.feed(b"-3"), Ok(around(1, 1)));
    assert_eq!(predictor.window(), &deque(&[5, 7, -3]));
}

#[test]
fn feed_reports_a_line_without_a_sample_and_keeps_its_state() {
    let mut predictor = Predictor::new();
    assert_eq!(predictor.feed(b"5"), Ok(None));
    assert_eq!(predictor.feed(b"seven"), Err(ParseError::NotAnInteger));
    assert_eq!(predictor.feed(b"70000000000"), Err(ParseError::OutOfRange));
    assert_eq!(predictor.feed(b""), Err(ParseError::NotAnInteger));
    assert_eq!(predictor.window(), &deque(&[5]));
    assert_eq!(predictor.window_size(), 10);
    assert_eq!(predictor.feed(b"7"), Ok(around(5, 5)));
}
