//! Spaced-repetition scheduling of a single card.
//!
//! The difficulty of a card is a decimal number with two places. It is held
//! as a whole number of hundredths, so `130` stands for `1.30`. Every step of
//! the schedule changes it by a multiple of `0.02`, so nothing is lost.

use vstd::prelude::*;

verus! {

/// The lowest difficulty a card can have, in hundredths.
pub const MIN_DIFFICULTY: u32 = 130;

/// The lowest grade that counts as a successful recall.
pub const PASS_GRADE: i8 = 2;

/// The scheduling state of one card.
#[derive(Debug, Clone, Copy, PartialEq, Eq, Structural)]
pub struct Stats {
    /// Days until the next review.
    pub interval: i64,
    /// Successful reviews in a row.
    pub repetitions: i16,
    /// Difficulty in hundredths; grows the interval of later reviews.
    pub difficulty: u32,
}

/// Whether `grade` is a successful recall.
pub open spec fn is_pass(grade: int) -> bool {
    grade >= PASS_GRADE as int
}

/// `hundredths / 100`, rounded to the nearest whole number, halves away
/// from zero.
pub open spec fn round_hundredths(hundredths: int) -> int {
    if hundredths >= 0 {
        (hundredths + 50) / 100
    } else {
        -((50 - hundredths) / 100)
    }
}

/// `interval` days times a difficulty given in hundredths, rounded to whole
/// days.
pub open spec fn grown_interval(interval: int, difficulty: int) -> int {
    round_hundredths(interval * difficulty)
}

/// `value`, or the nearest bound of `lo..=hi` where it lies outside.
pub open spec fn clamp(value: int, lo: int, hi: int) -> int {
    if value < lo {
        lo
    } else if value > hi {
        hi
    } else {
        value
    }
}

/// How much a review graded `grade` adds to the difficulty, in hundredths:
/// `0.1 - d * (0.08 + d * 0.02)` with `d = 4 - grade`.
pub open spec fn difficulty_change(grade: int) -> int {
    let d = 4 - grade;
    10 - d * (8 + d * 2)
}

/// The interval after a review graded `grade`.
pub open spec fn next_interval(s: Stats, grade: int) -> int {
    if is_pass(grade) {
        if s.repetitions == 0 {
            1
        } else if s.repetitions == 1 {
            4
        } else {
            clamp(
                grown_interval(s.interval as int, s.difficulty as int),
                i64::MIN as int,
                i64::MAX as int,
            )
        }
    } else {
        1
    }
}

/// The count of successful reviews in a row after a review graded `grade`.
pub open spec fn next_repetitions(s: Stats, grade: int) -> int {
    if is_pass(grade) {
        clamp(s.repetitions + 1, i16::MIN as int, i16::MAX as int)
    } else {
        0
    }
}

/// The difficulty after a review graded `grade`.
pub open spec fn next_difficulty(s: Stats, grade: int) -> int {
    clamp(s.difficulty + difficulty_change(grade), MIN_DIFFICULTY as int, u32::MAX as int)
}

/// The day of the next review of a card that was reviewed on day `today`
/// and got `interval` days, both kept inside `i64`.
pub open spec fn due_day(today: int, interval: int) -> int {
    clamp(today + interval, i64::MIN as int, i64::MAX as int)
}

/// The state that follows `s` after a review graded `grade`.
pub open spec fn repeated(s: Stats, grade: i8) -> Stats {
    Stats {
        interval: next_interval(s, grade as int) as i64,
        repetitions: next_repetitions(s, grade as int) as i16,
        difficulty: next_difficulty(s, grade as int) as u32,
    }
}

/// The state that follows `s` after one review for each grade of `grades`,
/// in order.
pub open spec fn repeated_all(s: Stats, grades: Seq<i8>) -> Stats
    decreases grades.len(),
{
    if grades.len() == 0 {
        s
    } else {
        repeated(repeated_all(s, grades.drop_last()), grades.last())
    }
}

impl Stats {
    /// A state is well formed when nothing in it is negative and the
    /// difficulty is at least [`MIN_DIFFICULTY`].
    pub open spec fn wf(self) -> bool {
        &&& self.interval >= 0
        &&& self.repetitions >= 0
        &&& self.difficulty >= MIN_DIFFICULTY
    }

    /// The state of a card that was never reviewed.
    pub fn new() -> (s: Self)
        ensures
            s == (Stats { interval: 0, repetitions: 0, difficulty: MIN_DIFFICULTY }),
            s.wf(),
    {
        Stats { interval: 0, repetitions: 0, difficulty: MIN_DIFFICULTY }
    }

    /// The day of the next review, if the last one was on day `today`.
    pub fn due(&self, today: i64) -> (day: i64)
        ensures
            day == due_day(today as int, self.interval as int),
    {
        let sum: i128 = today as i128 + self.interval as i128;
        if sum > i64::MAX as i128 {
            i64::MAX
        } else if sum < i64::MIN as i128 {
            i64::MIN
        } else {
            sum as i64
        }
    }

    /// Records one review graded `grade`.
    ///
    /// A grade of [`PASS_GRADE`] or more sets the interval to 1 day on the
    /// first success, 4 days on the second, and from then on to the old
    /// interval times the difficulty, rounded to whole days. A lower grade
    /// starts over at 1 day with no successes. Either way the difficulty
    /// moves by [`difficulty_change`] and never falls below
    /// [`MIN_DIFFICULTY`]. A value that would leave its type stays at the
    /// type's bound.
    pub fn repeat(&mut self, grade: i8)
        ensures
            *final(self) == repeated(*old(self), grade),
            old(self).wf() ==> final(self).wf(),
    {
        proof {
            lemma_repeated_wf(*self, grade);
        }
        if grade >= PASS_GRADE {
            if self.repetitions == 0 {
                self.interval = 1;
            } else if self.repetitions == 1 {
                self.interval = 4;
            } else {
                self.interval = grow(self.interval, self.difficulty);
            }
            if self.repetitions < i16::MAX {
                self.repetitions = self.repetitions + 1;
            }
        } else {
            self.repetitions = 0;
            self.interval = 1;
        }
        let d: i64 = 4 - grade as i64;
        assert(-35894 <= 10 - d * (8 + d * 2) <= 18 && -1000 <= d * 2 <= 1000 && -40000 <= d * (8
            + d * 2) <= 40000) by (nonlinear_arith)
            requires
                -123 <= d <= 132,
        ;
        let change: i64 = 10 - d * (8 + d * 2);
        let moved: i64 = self.difficulty as i64 + change;
        if moved < MIN_DIFFICULTY as i64 {
            self.difficulty = MIN_DIFFICULTY;
        } else if moved > u32::MAX as i64 {
            self.difficulty = u32::MAX;
        } else {
            self.difficulty = moved as u32;
        }
    }
}

/// `interval` days times `difficulty` hundredths, rounded to whole days and
/// kept inside `i64`.
fn grow(interval: i64, difficulty: u32) -> (days: i64)
    ensures
        days == clamp(
            grown_interval(interval as int, difficulty as int),
            i64::MIN as int,
            i64::MAX as int,
        ),
{
    assert(-0x8000_0000_0000_0000 * 0x1_0000_0000 <= interval * difficulty
        <= 0x8000_0000_0000_0000 * 0x1_0000_0000) by (nonlinear_arith)
        requires
            -0x8000_0000_0000_0000 <= interval < 0x8000_0000_0000_0000,
            0 <= difficulty < 0x1_0000_0000,
    ;
    let product: i128 = interval as i128 * difficulty as i128;
    let rounded: i128 = if product >= 0 {
        (product + 50) / 100
    } else {
        -((50 - product) / 100)
    };
    if rounded > i64::MAX as i128 {
        i64::MAX
    } else if rounded < i64::MIN as i128 {
        i64::MIN
    } else {
        rounded as i64
    }
}

/// The product of two numbers that are not negative, rounded, is not
/// negative; and where the difficulty is at least `1.00` it is at least the
/// interval.
proof fn lemma_grown_interval_bounds(interval: int, difficulty: int)
    requires
        interval >= 0,
        difficulty >= 0,
    ensures
        grown_interval(interval, difficulty) >= 0,
        difficulty >= 100 ==> grown_interval(interval, difficulty) >= interval,
{
    assert(interval * difficulty >= 0) by (nonlinear_arith)
        requires
            interval >= 0,
            difficulty >= 0,
    ;
    if difficulty >= 100 {
        assert(interval * difficulty >= interval * 100) by (nonlinear_arith)
            requires
                interval >= 0,
                difficulty >= 100,
        ;
    }
}

/// Rounding hundredths gives the nearest whole number: it is off by half
/// a unit at most, and only a half that was rounded away from zero is off
/// by so much.
pub proof fn lemma_round_is_nearest(hundredths: int)
    ensures
        -50 <= 100 * round_hundredths(hundredths) - hundredths <= 50,
        hundredths >= 0 ==> 100 * round_hundredths(hundredths) - hundredths > -50,
        hundredths <= 0 ==> 100 * round_hundredths(hundredths) - hundredths < 50,
{
}

/// A review keeps a well-formed state well formed.
pub proof fn lemma_repeated_wf(s: Stats, grade: i8)
    ensures
        s.wf() ==> repeated(s, grade).wf(),
{
    if s.wf() {
        lemma_grown_interval_bounds(s.interval as int, s.difficulty as int);
    }
}

/// A successful review of a card that has succeeded at least twice in a row
/// sets the interval to the old interval times the difficulty, rounded, and
/// that is never shorter than the old interval, as long as the difficulty is
/// at least `1.00`. The count of successes rises by one. Only at the bounds
/// of their types do the two stay behind: an interval that would pass the
/// last day that `i64` holds stays there, and so does a count at the last
/// number that `i16` holds.
pub proof fn lemma_interval_never_shrinks(s: Stats, grade: i8)
    requires
        s.interval >= 0,
        s.difficulty >= 100,
        s.repetitions > 1,
        grade >= PASS_GRADE,
    ensures
        repeated(s, grade).interval == clamp(
            grown_interval(s.interval as int, s.difficulty as int),
            i64::MIN as int,
            i64::MAX as int,
        ),
        grown_interval(s.interval as int, s.difficulty as int) <= i64::MAX ==> repeated(
            s,
            grade,
        ).interval == grown_interval(s.interval as int, s.difficulty as int),
        grown_interval(s.interval as int, s.difficulty as int) >= s.interval,
        repeated(s, grade).interval >= s.interval,
        s.repetitions < i16::MAX ==> repeated(s, grade).repetitions == s.repetitions + 1,
        s.repetitions == i16::MAX ==> repeated(s, grade).repetitions == s.repetitions,
{
    lemma_grown_interval_bounds(s.interval as int, s.difficulty as int);
}

/// A successful review counts: whatever the state, the count of successes
/// rises by one, and stays only at the last number that `i16` holds. The
/// first success gives an interval of one day, the second one of four.
pub proof fn lemma_success_counts(s: Stats, grade: i8)
    requires
        grade >= PASS_GRADE,
    ensures
        s.repetitions < i16::MAX ==> repeated(s, grade).repetitions == s.repetitions + 1,
        s.repetitions == i16::MAX ==> repeated(s, grade).repetitions == s.repetitions,
        s.repetitions == 0 ==> repeated(s, grade).interval == 1,
        s.repetitions == 1 ==> repeated(s, grade).interval == 4,
{
}

/// Whatever the state and the grade, the difficulty after a review is at
/// least [`MIN_DIFFICULTY`].
pub proof fn lemma_difficulty_floor(s: Stats, grade: i8)
    ensures
        repeated(s, grade).difficulty >= MIN_DIFFICULTY,
{
}

/// Over any run of reviews, the difficulty is at least [`MIN_DIFFICULTY`]
/// after each of them; and before the first, if it was so at the start.
pub proof fn lemma_difficulty_floor_always(s: Stats, grades: Seq<i8>, k: int)
    requires
        0 <= k <= grades.len(),
        k > 0 || s.difficulty >= MIN_DIFFICULTY,
    ensures
        repeated_all(s, grades.take(k)).difficulty >= MIN_DIFFICULTY,
{
    let prefix = grades.take(k);
    if k > 0 {
        lemma_difficulty_floor(repeated_all(s, prefix.drop_last()), prefix.last());
    }
}

/// A failed review starts the card over: no successes, and an interval of
/// one day, whatever the state before.
pub proof fn lemma_lapse_resets(s: Stats, grade: i8)
    requires
        grade < PASS_GRADE,
    ensures
        repeated(s, grade).repetitions == 0,
        repeated(s, grade).interval == 1,
{
}

/// A run of reviews keeps a well-formed state well formed.
pub proof fn lemma_repeated_all_wf(s: Stats, grades: Seq<i8>)
    requires
        s.wf(),
    ensures
        repeated_all(s, grades).wf(),
    decreases grades.len(),
{
    if grades.len() > 0 {
        lemma_repeated_all_wf(s, grades.drop_last());
        lemma_repeated_wf(repeated_all(s, grades.drop_last()), grades.last());
    }
}

} // verus!
