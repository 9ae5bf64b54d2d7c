//! The store in memory.

use studybuddy::error::AppError;
use studybuddy::model::{Card, CardContent, CardStatus, Rating, Review, Timestamp};
use studybuddy::scheduler::SchedulerState;
use studybuddy::store::{InMemoryRepository, Repository};

const NOW: Timestamp = Timestamp { secs: 1_782_000_000, nanos: 0 };
const DAY: i64 = 86_400;

fn qa_card(id: u128, front: &str, status: CardStatus) -> Card {
    Card {
        id,
        content: CardContent::Qa { front: front.to_string(), back: "back".to_string() },
        source_file: "notes.md".to_string(),
        source_heading: None,
        tags: vec![],
        status,
        created_at: NOW,
    }
}

fn content(front: &str) -> CardContent {
    CardContent::Qa { front: front.to_string(), back: "back".to_string() }
}

fn days_from_now(days: i64) -> Timestamp {
    Timestamp { secs: NOW.secs + days * DAY, nanos: 0 }
}

#[test]
fn save_pending_then_list_pending_roundtrips() {
    let mut repo = InMemoryRepository::new();
    let a = qa_card(1, "a", CardStatus::Pending);
    let b = qa_card(2, "b", CardStatus::Pending);
    repo.save_pending(&vec![a.clone(), b.clone()]).unwrap();

    let mut ids: Vec<u128> = repo.list_pending().unwrap().into_iter().map(|c| c.id).collect();
    ids.sort();
    assert_eq!(ids, vec![a.id, b.id]);
}

#[test]
fn list_pending_excludes_non_pending() {
    let mut repo = InMemoryRepository::new();
    let pending = qa_card(1, "p", CardStatus::Pending);
    let accepted = qa_card(2, "a", CardStatus::Accepted);
    repo.save_pending(&vec![pending.clone(), accepted]).unwrap();

    let listed = repo.list_pending().unwrap();
    assert_eq!(listed.len(), 1);
    assert_eq!(listed[0], pending);
}

#[test]
fn update_content_edits_pending_card() {
    let mut repo = InMemoryRepository::new();
    repo.save_pending(&vec![qa_card(1, "old", CardStatus::Pending)]).unwrap();
    repo.update_content(1, content("new")).unwrap();

    let listed = repo.list_pending().unwrap();
    match &listed[0].content {
        CardContent::Qa { front, .. } => assert_eq!(front, "new"),
        other => panic!("expected qa, got {other:?}"),
    }
}

#[test]
fn update_content_rejects_non_pending() {
    let mut repo = InMemoryRepository::new();
    repo.save_pending(&vec![qa_card(1, "x", CardStatus::Accepted)]).unwrap();
    let err = repo.update_content(1, content("new")).unwrap_err();
    assert!(matches!(err, AppError::Conflict(_)));
    assert_eq!(repo.get_card(1).unwrap(), qa_card(1, "x", CardStatus::Accepted));
}

#[test]
fn update_content_unknown_card_is_not_found() {
    let mut repo = InMemoryRepository::new();
    let err = repo.update_content(1, content("new")).unwrap_err();
    assert!(matches!(err, AppError::NotFound));
}

#[test]
fn set_status_moves_card_out_of_pending() {
    let mut repo = InMemoryRepository::new();
    repo.save_pending(&vec![qa_card(1, "p", CardStatus::Pending)]).unwrap();
    repo.set_status(1, CardStatus::Accepted).unwrap();
    assert!(repo.list_pending().unwrap().is_empty());
    assert!(matches!(
        repo.set_status(2, CardStatus::Accepted),
        Err(AppError::NotFound)
    ));
}

#[test]
fn save_state_then_load_state_roundtrips() {
    let mut repo = InMemoryRepository::new();
    let state = SchedulerState {
        interval_days: 6,
        ease_bits: 2.5f32.to_bits(),
        repetitions: 2,
    };
    repo.save_state(1, state, NOW).unwrap();
    let loaded = repo.load_state(1).unwrap();
    assert_eq!(loaded.interval_days, 6);
    assert_eq!(loaded.repetitions, 2);
}

#[test]
fn load_state_unknown_card_is_not_found() {
    let repo = InMemoryRepository::new();
    assert!(matches!(repo.load_state(1).unwrap_err(), AppError::NotFound));
}

#[test]
fn list_due_returns_only_cards_due_at_or_before_now() {
    let mut repo = InMemoryRepository::new();
    let due = qa_card(1, "due", CardStatus::Accepted);
    let future = qa_card(2, "future", CardStatus::Accepted);
    let no_state = qa_card(3, "no_state", CardStatus::Accepted);
    repo.save_pending(&vec![due.clone(), future.clone(), no_state]).unwrap();
    repo.save_state(due.id, SchedulerState::default(), days_from_now(-1)).unwrap();
    repo.save_state(future.id, SchedulerState::default(), days_from_now(1)).unwrap();

    let listed = repo.list_due(&NOW).unwrap();
    assert_eq!(listed.len(), 1);
    assert_eq!(listed[0].id, due.id);

    // Due exactly now counts; a nanosecond later does not.
    repo.save_state(future.id, SchedulerState::default(), NOW).unwrap();
    assert_eq!(repo.list_due(&NOW).unwrap().len(), 2);
    let later = Timestamp { nanos: 1, ..NOW };
    repo.save_state(future.id, SchedulerState::default(), later).unwrap();
    assert_eq!(repo.list_due(&NOW).unwrap().len(), 1);
}

#[test]
fn get_card_returns_saved_card() {
    let mut repo = InMemoryRepository::new();
    repo.save_pending(&vec![qa_card(1, "q", CardStatus::Pending)]).unwrap();
    assert_eq!(repo.get_card(1).unwrap().id, 1);
}

#[test]
fn get_card_returns_not_found_for_unknown_id() {
    let repo = InMemoryRepository::new();
    assert!(matches!(repo.get_card(1).unwrap_err(), AppError::NotFound));
}

#[test]
fn save_review_appends_to_log() {
    let mut repo = InMemoryRepository::new();
    let review = Review { card_id: 4, reviewed_at: NOW, rating: Rating::Good, next_due: NOW };
    repo.save_review(&review).unwrap();
    repo.save_review(&Review { rating: Rating::Hard, ..review }).unwrap();
    assert_eq!(repo.reviews().len(), 2);
    assert_eq!(repo.reviews()[0], review);
    assert_eq!(repo.reviews()[1].rating, Rating::Hard);
}

#[test]
fn saving_a_card_again_replaces_it() {
    let mut repo = InMemoryRepository::new();
    repo.save_pending(&vec![qa_card(1, "a", CardStatus::Pending)]).unwrap();
    repo.save_pending(&vec![qa_card(1, "b", CardStatus::Pending)]).unwrap();
    assert_eq!(repo.list_pending().unwrap(), vec![qa_card(1, "b", CardStatus::Pending)]);
}
