//! When a card comes up again.

use studybuddy::model::{Rating, Timestamp};
use studybuddy::scheduler::{
    recall_quality, Growth, SchedulerState, Sm2, LARGEST_EASE, LEAST_EASE,
};

const NOW: Timestamp = Timestamp { secs: 1_782_000_000, nanos: 0 };
const DAY: i64 = 86_400;

/// What floating point makes of a review.
fn growth(state: SchedulerState, rating: Rating) -> Growth {
    let ease = f32::from_bits(state.ease_bits);
    let missed = 5.0 - recall_quality(rating) as f32;
    let next = ease + (0.1 - missed * (0.08 + missed * 0.02));
    Growth {
        interval_days: ((state.interval_days as f32) * ease).round() as u32,
        ease_bits: next.to_bits(),
    }
}

#[test]
fn sm2_again_resets_interval() {
    let s = Sm2;
    let state = SchedulerState {
        interval_days: 30,
        ease_bits: 2.5f32.to_bits(),
        repetitions: 5,
    };
    let out = s.on_review(state, Rating::Again, NOW, growth(state, Rating::Again));
    assert_eq!(out.state.repetitions, 0);
    assert_eq!(out.state.interval_days, 1);
}

#[test]
fn sm2_first_good_review() {
    let s = Sm2;
    let state = SchedulerState::default();
    let out = s.on_review(state, Rating::Good, NOW, growth(state, Rating::Good));
    assert_eq!(out.state.repetitions, 1);
    assert_eq!(out.state.interval_days, 1);
}

#[test]
fn sm2_ease_floor() {
    let s = Sm2;
    let mut state = SchedulerState {
        interval_days: 1,
        ease_bits: 1.3f32.to_bits(),
        repetitions: 0,
    };
    for _ in 0..5 {
        state = s.on_review(state, Rating::Again, NOW, growth(state, Rating::Again)).state;
    }
    assert!(f32::from_bits(state.ease_bits) >= 1.3);
}

#[test]
fn the_least_ease_is_that_of_floating_point() {
    for ease in [
        -1.0f32, -0.0, 0.0, 1.0, 1.2999, 1.3, 1.3001, 2.5, 1e30,
        f32::INFINITY, f32::NEG_INFINITY, f32::NAN, -f32::NAN,
    ] {
        let growth = Growth { interval_days: 1, ease_bits: ease.to_bits() };
        let out = Sm2.on_review(SchedulerState::default(), Rating::Good, NOW, growth);
        assert_eq!(f32::from_bits(out.state.ease_bits), ease.max(1.3), "{ease}");
    }
    assert_eq!(f32::from_bits(LEAST_EASE), 1.3);
    assert_eq!(f32::from_bits(LARGEST_EASE), f32::INFINITY);
}

#[test]
fn intervals_go_one_six_and_grown() {
    let s = Sm2;
    let mut state = SchedulerState::default();
    assert_eq!(f32::from_bits(state.ease_bits), 2.5);
    let mut intervals = vec![];
    for _ in 0..4 {
        let out = s.on_review(state, Rating::Good, NOW, growth(state, Rating::Good));
        assert_eq!(out.next_due.secs, NOW.secs + DAY * out.state.interval_days as i64);
        intervals.push(out.state.interval_days);
        state = out.state;
    }
    assert_eq!(intervals, vec![1, 6, 15, 38]);
    assert_eq!(state.repetitions, 4);
}

#[test]
fn the_new_ease_is_kept() {
    let state = SchedulerState::default();
    let out = Sm2.on_review(state, Rating::Easy, NOW, growth(state, Rating::Easy));
    assert_eq!(f32::from_bits(out.state.ease_bits), 2.6);
}

#[test]
fn ratings_have_their_qualities() {
    assert_eq!(recall_quality(Rating::Again), 0);
    assert_eq!(recall_quality(Rating::Hard), 3);
    assert_eq!(recall_quality(Rating::Good), 4);
    assert_eq!(recall_quality(Rating::Easy), 5);
}

/// The due date that the calendar gives, or none.
fn due_in(now: Timestamp, days: u32) -> Option<Timestamp> {
    let state = SchedulerState { repetitions: 9, ..SchedulerState::default() };
    let growth = Growth { interval_days: days, ease_bits: 0 };
    Sm2.checked_on_review(state, Rating::Good, now, growth).map(|o| o.next_due)
}

#[test]
fn due_dates_stay_in_the_calendar() {
    let last = 8_210_266_876_799;
    let first = -8_334_601_228_800;
    assert_eq!(chrono::DateTime::<chrono::Utc>::MAX_UTC.timestamp(), last);
    assert_eq!(chrono::DateTime::<chrono::Utc>::MIN_UTC.timestamp(), first);

    let at = |secs: i64, nanos: u32| Timestamp { secs, nanos };
    assert_eq!(due_in(at(last - 2 * DAY, 5), 2), Some(at(last, 5)));
    assert_eq!(due_in(at(last - 2 * DAY + 1, 5), 2), None);
    assert_eq!(due_in(at(last, 0), 0), Some(at(last, 0)));
    assert_eq!(due_in(at(last + 1, 0), 0), None);
    assert_eq!(due_in(at(first, 0), 0), Some(at(first, 0)));
    assert_eq!(due_in(at(first - 1, 0), 3), None);
    assert_eq!(due_in(at(0, 0), u32::MAX), None);
}

#[test]
fn leap_seconds_are_left_behind() {
    let at = |secs: i64, nanos: u32| Timestamp { secs, nanos };
    // 59 seconds past a minute can have a leap second, others cannot.
    assert_eq!(due_in(at(59, 1_500_000_000), 0), Some(at(59, 1_500_000_000)));
    assert_eq!(due_in(at(59, 1_500_000_000), 1), Some(at(59 + DAY, 500_000_000)));
    assert_eq!(due_in(at(-1, 1_500_000_000), 1), Some(at(DAY - 1, 500_000_000)));
    assert_eq!(due_in(at(58, 1_500_000_000), 1), None);
    assert_eq!(due_in(at(59, 2_000_000_000), 1), None);
}

#[test]
fn repetitions_do_not_wrap() {
    let state = SchedulerState { repetitions: u32::MAX, ..SchedulerState::default() };
    let growth = Growth { interval_days: 1, ease_bits: 0 };
    assert_eq!(Sm2.checked_on_review(state, Rating::Good, NOW, growth), None);
    assert!(Sm2.checked_on_review(state, Rating::Again, NOW, growth).is_some());
}

#[test]
fn passing_ratings_differ_in_the_ease_alone_and_keep_their_order() {
    for (ease, repetitions) in [(1.3f32, 0), (1.4, 1), (2.5, 2), (2.5, 7)] {
        let state = SchedulerState { interval_days: 10, ease_bits: ease.to_bits(), repetitions };
        let out = |r: Rating| Sm2.on_review(state, r, NOW, growth(state, r)).state;
        let (hard, good, easy) = (out(Rating::Hard), out(Rating::Good), out(Rating::Easy));
        for s in [hard, easy] {
            assert_eq!(s.repetitions, good.repetitions);
            assert_eq!(s.interval_days, good.interval_days);
        }
        let eases: Vec<f32> = [out(Rating::Again), hard, good, easy]
            .iter()
            .map(|s| f32::from_bits(s.ease_bits))
            .collect();
        assert!(eases[0] >= 1.3 && eases.windows(2).all(|w| w[0] <= w[1]), "{eases:?}");
    }
}
