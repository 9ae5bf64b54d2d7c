//! When a card comes up again: the whole-number part of SuperMemo SM-2.
//!
//! The ease of a card is a floating-point number. It is carried here as its
//! bits, and what is computed from it (how far it moves, and the interval that
//! grows with it) is handed in. Bits of numbers that are not negative are in the
//! order of the numbers, which is all that the least ease needs.

use vstd::prelude::*;

use crate::model::{Rating, Timestamp};
use crate::trusted::add_days;

verus! {

/// How a card's reviews stand.
#[derive(Debug, Clone, Copy, PartialEq, Eq, Structural)]
pub struct SchedulerState {
    pub interval_days: u32,
    /// The ease, as the bits of a 32-bit floating-point number.
    pub ease_bits: u32,
    /// How many reviews in a row went well.
    pub repetitions: u32,
}

impl Default for SchedulerState {
    /// A card without reviews: the bits are those of an ease of two and a half.
    fn default() -> (s: Self)
        ensures
            s == fresh_state(),
    {
        SchedulerState { interval_days: 0, ease_bits: 0x4020_0000, repetitions: 0 }
    }
}

/// A card without reviews.
pub open spec fn fresh_state() -> SchedulerState {
    SchedulerState { interval_days: 0, ease_bits: 0x4020_0000, repetitions: 0 }
}

/// What is computed in floating point for a review.
#[derive(Debug, Clone, Copy, PartialEq, Eq, Structural)]
pub struct Growth {
    /// The interval before the review times the ease before it, rounded.
    pub interval_days: u32,
    /// The ease that the review moves to, which may be less than the least.
    pub ease_bits: u32,
}

/// The least ease, 1.3, as its bits.
pub const LEAST_EASE: u32 = 0x3fa6_6666;

/// The largest ease, positive infinity, as its bits. Larger bits are those of
/// negative numbers, and of what is no number.
pub const LARGEST_EASE: u32 = 0x7f80_0000;

/// What a review leads to.
#[derive(Debug, Clone, Copy, PartialEq, Eq, Structural)]
pub struct ReviewOutcome {
    pub state: SchedulerState,
    pub next_due: Timestamp,
}

/// A rule for when a card comes up again.
pub trait Scheduler {
    /// What a review leads to.
    fn on_review(&self, state: SchedulerState, rating: Rating, now: Timestamp) -> ReviewOutcome;
}

/// The SuperMemo SM-2 scheduler.
pub struct Sm2;

// ---------- the model ----------

/// The quality of recall that SM-2 takes a rating for, from 0 to 5.
pub open spec fn quality(rating: Rating) -> u8 {
    match rating {
        Rating::Again => 0,
        Rating::Hard => 3,
        Rating::Good => 4,
        Rating::Easy => 5,
    }
}

/// How many reviews in a row went well, counting this one.
pub open spec fn streak(state: SchedulerState, rating: Rating) -> int {
    if rating == Rating::Again {
        0
    } else {
        state.repetitions + 1
    }
}

/// The interval after a review: a day after a failure and after the first
/// success, six days after the second, and what has grown after the others.
pub open spec fn interval(streak: int, growth: Growth) -> u32 {
    if streak <= 1 {
        1
    } else if streak == 2 {
        6
    } else {
        growth.interval_days
    }
}

/// An ease, or the least where it is less or no number.
pub open spec fn at_least_the_least(ease_bits: u32) -> u32 {
    if LEAST_EASE <= ease_bits <= LARGEST_EASE {
        ease_bits
    } else {
        LEAST_EASE
    }
}

/// How a card's reviews stand after another.
pub open spec fn next_state(
    state: SchedulerState,
    rating: Rating,
    growth: Growth,
) -> SchedulerState {
    SchedulerState {
        interval_days: interval(streak(state, rating), growth),
        ease_bits: at_least_the_least(growth.ease_bits),
        repetitions: streak(state, rating) as u32,
    }
}

/// Whether a review can be counted and its due date be told.
pub open spec fn schedulable(
    state: SchedulerState,
    rating: Rating,
    now: Timestamp,
    growth: Growth,
) -> bool {
    &&& streak(state, rating) <= u32::MAX
    &&& now.valid()
    &&& now.has_days_later(next_state(state, rating, growth).interval_days)
}

/// What a review leads to.
pub open spec fn outcome(
    state: SchedulerState,
    rating: Rating,
    now: Timestamp,
    growth: Growth,
) -> ReviewOutcome {
    let next = next_state(state, rating, growth);
    ReviewOutcome { state: next, next_due: now.days_later(next.interval_days) }
}

// ---------- the code ----------

/// The quality of recall that SM-2 takes a rating for, from 0 to 5.
pub fn recall_quality(rating: Rating) -> (q: u8)
    ensures
        q == quality(rating),
        q <= 5,
{
    match rating {
        Rating::Again => 0,
        Rating::Hard => 3,
        Rating::Good => 4,
        Rating::Easy => 5,
    }
}

impl Sm2 {
    /// What a review leads to, or `None` where it cannot be counted or its due
    /// date lies past the calendar.
    pub fn checked_on_review(
        &self,
        state: SchedulerState,
        rating: Rating,
        now: Timestamp,
        growth: Growth,
    ) -> (r: Option<ReviewOutcome>)
        ensures
            match r {
                Some(o) => schedulable(state, rating, now, growth) && o == outcome(
                    state,
                    rating,
                    now,
                    growth,
                ),
                None => !schedulable(state, rating, now, growth),
            },
    {
        let repetitions: u32 = if rating == Rating::Again {
            0
        } else if state.repetitions == u32::MAX {
            return None;
        } else {
            state.repetitions + 1
        };
        let interval_days: u32 = if repetitions <= 1 {
            1
        } else if repetitions == 2 {
            6
        } else {
            growth.interval_days
        };
        let ease_bits = if LEAST_EASE <= growth.ease_bits && growth.ease_bits <= LARGEST_EASE {
            growth.ease_bits
        } else {
            LEAST_EASE
        };
        let next = SchedulerState { interval_days, ease_bits, repetitions };
        match add_days(now, interval_days) {
            Some(next_due) => Some(ReviewOutcome { state: next, next_due }),
            None => None,
        }
    }

    /// What a review leads to.
    pub fn on_review(
        &self,
        state: SchedulerState,
        rating: Rating,
        now: Timestamp,
        growth: Growth,
    ) -> (o: ReviewOutcome)
        requires
            schedulable(state, rating, now, growth),
        ensures
            o == outcome(state, rating, now, growth),
    {
        match self.checked_on_review(state, rating, now, growth) {
            Some(o) => o,
            None => ReviewOutcome { state, next_due: now },
        }
    }
}

// ---------- laws ----------

/// A failed recall starts over, whatever came before: the card is back in a
/// day.
pub proof fn law_again_starts_over(state: SchedulerState, now: Timestamp, growth: Growth)
    ensures
        outcome(state, Rating::Again, now, growth).state.repetitions == 0,
        outcome(state, Rating::Again, now, growth).state.interval_days == 1,
        outcome(state, Rating::Again, now, growth).next_due == now.days_later(1),
{
}

/// The first success in a row brings a card back in a day and the second in
/// six, whatever the ease.
pub proof fn law_first_intervals_are_fixed(
    state: SchedulerState,
    rating: Rating,
    now: Timestamp,
    growth: Growth,
)
    requires
        rating != Rating::Again,
    ensures
        state.repetitions == 0 ==> outcome(state, rating, now, growth).state.interval_days == 1,
        state.repetitions == 1 ==> outcome(state, rating, now, growth).state.interval_days == 6,
        state.repetitions >= 2 && schedulable(state, rating, now, growth) ==> outcome(
            state,
            rating,
            now,
            growth,
        ).state.interval_days == growth.interval_days,
{
}

/// The ease of a reviewed card is never less than the least, wherever the review
/// moves it; and one that the review leaves above the least is kept.
pub proof fn law_ease_has_a_floor(
    state: SchedulerState,
    rating: Rating,
    now: Timestamp,
    growth: Growth,
)
    ensures
        LEAST_EASE <= outcome(state, rating, now, growth).state.ease_bits <= LARGEST_EASE,
        LEAST_EASE <= growth.ease_bits <= LARGEST_EASE ==> outcome(
            state,
            rating,
            now,
            growth,
        ).state.ease_bits == growth.ease_bits,
{
}

/// A success counts one more repetition.
pub proof fn law_success_counts(
    state: SchedulerState,
    rating: Rating,
    now: Timestamp,
    growth: Growth,
)
    requires
        rating != Rating::Again,
        schedulable(state, rating, now, growth),
    ensures
        outcome(state, rating, now, growth).state.repetitions == state.repetitions + 1,
{
}

/// A reviewed card is scheduled into the future, unless its interval has
/// shrunk to nothing; it never becomes due before the review.
pub proof fn law_review_schedules_forward(
    state: SchedulerState,
    rating: Rating,
    now: Timestamp,
    growth: Growth,
)
    requires
        schedulable(state, rating, now, growth),
    ensures
        ({
            let o = outcome(state, rating, now, growth);
            &&& now.at_or_before(o.next_due)
            &&& o.state.interval_days > 0 ==> !o.next_due.at_or_before(now)
        }),
{
}

/// The ratings of a recall agree in all but the ease: they count the same, and
/// for one grown interval they give the same interval.
pub proof fn law_passing_ratings_agree(
    state: SchedulerState,
    a: Rating,
    b: Rating,
    now: Timestamp,
    after_a: Growth,
    after_b: Growth,
)
    requires
        a != Rating::Again,
        b != Rating::Again,
        after_a.interval_days == after_b.interval_days,
    ensures
        ({
            let x = outcome(state, a, now, after_a);
            let y = outcome(state, b, now, after_b);
            &&& x.state.repetitions == y.state.repetitions
            &&& x.state.interval_days == y.state.interval_days
            &&& x.next_due == y.next_due
        }),
{
}

/// Whether bits are those of a number, infinities among them.
pub open spec fn is_ease(bits: u32) -> bool {
    bits <= LARGEST_EASE || 0x8000_0000 <= bits <= 0xff80_0000
}

/// Where a number stands among all others, by its bits: the sign is the first of
/// them, and negative numbers are the lower the larger the rest.
pub open spec fn rank(bits: u32) -> int {
    if bits < 0x8000_0000 {
        bits as int
    } else {
        0x8000_0000 - bits
    }
}

/// Eases that are handed in in order stay in order above their floor: what a
/// better rating moves to is never less than what a worse one does.
pub proof fn law_floor_keeps_the_order(
    state: SchedulerState,
    worse: Rating,
    better: Rating,
    now: Timestamp,
    low: Growth,
    high: Growth,
)
    requires
        is_ease(low.ease_bits),
        is_ease(high.ease_bits),
        rank(low.ease_bits) <= rank(high.ease_bits),
    ensures
        rank(LEAST_EASE) <= rank(outcome(state, worse, now, low).state.ease_bits) <= rank(
            outcome(state, better, now, high).state.ease_bits,
        ),
{
}

/// A review can be scheduled unless its due date lies past the calendar or there
/// are too many to count.
pub proof fn law_what_can_be_scheduled(
    state: SchedulerState,
    rating: Rating,
    now: Timestamp,
    growth: Growth,
)
    ensures
        schedulable(state, rating, now, growth) <==> {
            let days = outcome(state, rating, now, growth).state.interval_days;
            &&& rating == Rating::Again || state.repetitions < u32::MAX
            &&& now.valid()
            &&& now.has_days_later(days)
        },
{
}

/// A card is due again as many days after its review as its interval says.
pub proof fn law_due_date_is_an_interval_away(
    state: SchedulerState,
    rating: Rating,
    now: Timestamp,
    growth: Growth,
)
    requires
        schedulable(state, rating, now, growth),
    ensures
        ({
            let o = outcome(state, rating, now, growth);
            &&& o.next_due == now.days_later(o.state.interval_days)
            &&& o.next_due.secs - now.secs == 86400 * o.state.interval_days
        }),
{
}

/// An ease that falls below the least, or is no number, becomes the least.
pub proof fn law_low_eases_become_the_least(
    state: SchedulerState,
    rating: Rating,
    now: Timestamp,
    growth: Growth,
)
    ensures
        growth.ease_bits < 0x3fa6_6666 || growth.ease_bits > 0x7f80_0000 ==> outcome(
            state,
            rating,
            now,
            growth,
        ).state.ease_bits == 0x3fa6_6666,
{
}

/// A better rating has a better quality; a failed recall has the worst, and every
/// other at least three of five.
pub proof fn law_qualities_follow_the_ratings()
    ensures
        quality(Rating::Again) == 0,
        quality(Rating::Hard) == 3,
        quality(Rating::Good) == 4,
        quality(Rating::Easy) == 5,
{
}

/// A card without reviews has no interval, no repetition, and an ease of two and a
/// half.
pub proof fn law_fresh_cards_have_nothing_behind_them()
    ensures
        fresh_state() == (SchedulerState {
            interval_days: 0,
            ease_bits: 0x4020_0000,
            repetitions: 0,
        }),
{
}

/// A review leads to its outcome wherever it can be scheduled.
pub proof fn law_checked_review(
    sm2: &Sm2,
    state: SchedulerState,
    rating: Rating,
    now: Timestamp,
    growth: Growth,
    r: Option<ReviewOutcome>,
)
    requires
        call_ensures(Sm2::checked_on_review, (sm2, state, rating, now, growth), r),
    ensures
        r is Some <==> schedulable(state, rating, now, growth),
        r matches Some(o) ==> o == outcome(state, rating, now, growth),
{
}

} // verus!
