use flashcard::sr::{Stats, MIN_DIFFICULTY, PASS_GRADE};

fn stats(interval: i64, repetitions: i16, difficulty: u32) -> Stats {
    Stats { interval, repetitions, difficulty }
}

#[test]
fn new_stats_start_at_the_floor() {
    assert_eq!(Stats::new(), stats(0, 0, 130));
    assert_eq!(MIN_DIFFICULTY, 130);
    assert_eq!(PASS_GRADE, 2);
}

#[test]
fn three_reviews_in_a_row() {
    let mut s = stats(0, 0, 130);
    s.repeat(3);
    assert_eq!(s, stats(1, 1, 130));
    s.repeat(3);
    assert_eq!(s, stats(4, 2, 130));
    s.repeat(1);
    assert_eq!(s.interval, 1);
    assert_eq!(s.repetitions, 0);
    assert_eq!(s.difficulty, 130);
}

#[test]
fn third_success_multiplies_the_interval() {
    let mut s = stats(4, 2, 130);
    s.repeat(3);
    // 4 * 1.30 = 5.2
    assert_eq!(s, stats(5, 3, 130));
    let mut s = stats(5, 2, 130);
    s.repeat(3);
    // 5 * 1.30 = 6.5, and a half rounds away from zero
    assert_eq!(s, stats(7, 3, 130));
    let mut s = stats(10, 7, 250);
    s.repeat(2);
    // 10 * 2.50 = 25; 0.1 - 2 * (0.08 + 2 * 0.02) = -0.14
    assert_eq!(s, stats(25, 8, 236));
}

#[test]
fn difficulty_moves_by_the_formula() {
    let mut s = stats(0, 0, 200);
    s.repeat(4);
    assert_eq!(s.difficulty, 210);
    let mut s = stats(0, 0, 200);
    s.repeat(5);
    assert_eq!(s.difficulty, 216);
    let mut s = stats(0, 0, 200);
    s.repeat(3);
    assert_eq!(s.difficulty, 200);
    let mut s = stats(0, 0, 200);
    s.repeat(2);
    assert_eq!(s.difficulty, 186);
    let mut s = stats(0, 0, 200);
    s.repeat(1);
    assert_eq!(s.difficulty, 168);
    let mut s = stats(0, 0, 200);
    s.repeat(0);
    assert_eq!(s.difficulty, 146);
}

#[test]
fn difficulty_never_falls_below_the_floor() {
    let mut s = Stats::new();
    for grade in [0i8, -3, 1, 2, -128, 127, 3, 4, 0, 0] {
        s.repeat(grade);
        assert!(s.difficulty >= 130);
    }
    let mut s = stats(3, 3, 0);
    s.repeat(4);
    assert_eq!(s.difficulty, 130);
}

#[test]
fn lapse_starts_over() {
    for grade in [1i8, 0, -1, -4, -128] {
        let mut s = stats(90, 12, 260);
        s.repeat(grade);
        assert_eq!(s.repetitions, 0);
        assert_eq!(s.interval, 1);
    }
}

#[test]
fn interval_never_shrinks_on_success() {
    for interval in [0i64, 1, 2, 3, 7, 100, 12345] {
        for difficulty in [100u32, 101, 130, 199, 250] {
            let mut s = stats(interval, 2, difficulty);
            s.repeat(4);
            assert!(s.interval >= interval);
        }
    }
}

#[test]
fn values_stay_at_the_bounds_of_their_types() {
    let mut s = stats(i64::MAX, i16::MAX, u32::MAX);
    s.repeat(6);
    assert_eq!(s, stats(i64::MAX, i16::MAX, u32::MAX));
    let mut s = stats(-7, -3, 130);
    s.repeat(2);
    // -7 * 1.30 = -9.1
    assert_eq!(s.interval, -9);
    assert_eq!(s.repetitions, -2);
    let mut s = stats(-5, 5, 130);
    s.repeat(3);
    // -5 * 1.30 = -6.5, and a half rounds away from zero
    assert_eq!(s.interval, -7);
}

#[test]
fn due_day_is_today_plus_interval() {
    assert_eq!(stats(4, 2, 130).due(738_000), 738_004);
    assert_eq!(stats(0, 0, 130).due(738_000), 738_000);
    assert_eq!(stats(i64::MAX, 2, 130).due(5), i64::MAX);
    assert_eq!(stats(-3, 2, 130).due(i64::MIN), i64::MIN);
}
