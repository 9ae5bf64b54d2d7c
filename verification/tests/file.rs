//! Where a file store keeps its files, and what it does to their lists.

use std::path::PathBuf;

use studybuddy::error::AppError;
use studybuddy::model::{Card, CardContent, CardStatus, Timestamp};
use studybuddy::scheduler::SchedulerState;
use studybuddy::store::cards::{
    card_in_list, due_cards, edit_file, group_by_note, modify_card, pending_cards, save_entry,
    state_in, upsert_cards, CardEdit, FileStep, StateEntry,
};
use studybuddy::store::file::{is_sidecar, sidecar_name, temp_path};
use studybuddy::store::FileRepository;

#[test]
fn sidecar_path_is_flat_hashed_and_deterministic() {
    let repo = FileRepository::new("/data".to_string());
    let p = PathBuf::from(repo.sidecar_path("topic/sub/note.md"));

    // Flat under cards/, a 64-char hex stem, .json extension.
    assert_eq!(p.parent().unwrap(), PathBuf::from("/data/cards"));
    assert_eq!(p.extension().unwrap(), "json");
    let stem = p.file_stem().unwrap().to_str().unwrap();
    assert_eq!(stem.len(), 64);
    assert!(stem.chars().all(|c| c.is_ascii_hexdigit()));

    // Same path → same name; different path → different name.
    assert_eq!(PathBuf::from(repo.sidecar_path("topic/sub/note.md")), p);
    assert_ne!(PathBuf::from(repo.sidecar_path("other/note.md")), p);
}

#[test]
fn sidecar_name_is_the_sha256_of_the_path() {
    assert_eq!(
        sidecar_name("abc"),
        "ba7816bf8f01cfea414140de5dae2223b00361a396177a9cb410ff61f20015ad"
    );
    assert_eq!(
        sidecar_name(""),
        "e3b0c44298fc1c149afbf4c8996fb92427ae41e4649b934ca495991b7852b855"
    );
}

#[test]
fn files_lie_under_the_root() {
    for root in ["data", "data/"] {
        let repo = FileRepository::new(root.to_string());
        assert_eq!(repo.cards_dir(), "data/cards");
        assert_eq!(repo.state_path(), "data/state.json");
        assert_eq!(repo.reviews_path(), "data/reviews.jsonl");
    }
    assert_eq!(FileRepository::new(String::new()).cards_dir(), "cards");
    assert_eq!(temp_path("data/state.json"), "data/state.json.tmp");
}

#[test]
fn sidecars_are_known_by_their_extension() {
    for (name, wanted) in [
        ("ab12.json", true),
        ("a.b.json", true),
        ("ab12.json.tmp", false),
        (".json", false),
        ("json", false),
        ("ab12.JSON", false),
        ("ab12.", false),
        ("", false),
    ] {
        assert_eq!(is_sidecar(name), wanted, "{name}");
        let by_std = std::path::Path::new(name).extension().and_then(|s| s.to_str());
        assert_eq!(by_std == Some("json"), wanted, "{name}");
    }
}

fn card(id: u128, note: &str, status: CardStatus) -> Card {
    Card {
        id,
        content: CardContent::Qa { front: format!("front {id}"), back: "back".to_string() },
        source_file: note.to_string(),
        source_heading: None,
        tags: vec![],
        status,
        created_at: Timestamp { secs: 0, nanos: 0 },
    }
}

fn ids(cards: &[Card]) -> Vec<u128> {
    cards.iter().map(|c| c.id).collect()
}

#[test]
fn upsert_replaces_in_place_and_appends() {
    let mut list = vec![
        card(1, "a.md", CardStatus::Pending),
        card(2, "a.md", CardStatus::Pending),
    ];
    let incoming = vec![
        card(1, "a.md", CardStatus::Accepted),
        card(3, "a.md", CardStatus::Pending),
    ];
    upsert_cards(&mut list, &incoming);
    assert_eq!(ids(&list), vec![1, 2, 3]);
    assert_eq!(list[0].status, CardStatus::Accepted);
    assert_eq!(list[1].status, CardStatus::Pending);
}

#[test]
fn cards_are_grouped_by_note() {
    let cards = vec![
        card(1, "a.md", CardStatus::Pending),
        card(2, "b.md", CardStatus::Pending),
        card(3, "a.md", CardStatus::Pending),
    ];
    let groups = group_by_note(&cards);
    assert_eq!(groups.len(), 2);
    assert_eq!(groups[0].source_file, "a.md");
    assert_eq!(ids(&groups[0].cards), vec![1, 3]);
    assert_eq!(groups[1].source_file, "b.md");
    assert_eq!(ids(&groups[1].cards), vec![2]);
}

#[test]
fn changes_find_their_card_or_not() {
    let mut list = vec![
        card(1, "a.md", CardStatus::Pending),
        card(2, "a.md", CardStatus::Accepted),
    ];
    let content = CardContent::Qa { front: "new".to_string(), back: "back".to_string() };
    let edit = CardEdit::Content(content.clone());

    assert!(matches!(modify_card(&mut list, 1, &edit), Some(Ok(()))));
    assert_eq!(list[0].content, content);

    let before = list.clone();
    match modify_card(&mut list, 2, &edit) {
        Some(Err(AppError::Conflict(message))) => assert_eq!(
            message,
            "card 00000000-0000-0000-0000-000000000002 is not pending"
        ),
        other => panic!("expected a conflict, got {other:?}"),
    }
    assert_eq!(list, before);

    assert!(modify_card(&mut list, 3, &edit).is_none());
    let status = CardEdit::Status(CardStatus::Rejected);
    assert!(matches!(modify_card(&mut list, 2, &status), Some(Ok(()))));
    assert_eq!(list[1].status, CardStatus::Rejected);
    assert_eq!(ids(&pending_cards(&list)), vec![1]);
    assert_eq!(card_in_list(&list, 2).unwrap().id, 2);
    assert!(matches!(card_in_list(&list, 3), Err(AppError::NotFound)));
}

fn entry(card_id: u128, secs: i64) -> StateEntry {
    StateEntry {
        card_id,
        state: SchedulerState::default(),
        next_due: Timestamp { secs, nanos: 0 },
    }
}

#[test]
fn due_cards_are_accepted_and_have_an_entry() {
    let list = vec![
        card(1, "a.md", CardStatus::Accepted),
        card(2, "a.md", CardStatus::Rejected),
        card(3, "b.md", CardStatus::Accepted),
        card(4, "b.md", CardStatus::Accepted),
    ];
    let mut entries = vec![entry(1, 100), entry(2, 0), entry(3, 101)];
    let now = Timestamp { secs: 100, nanos: 0 };
    assert_eq!(ids(&due_cards(&list, &entries, &now)), vec![1]);
    save_entry(&mut entries, entry(3, 50));
    save_entry(&mut entries, entry(4, 100));
    assert_eq!(entries.len(), 4);
    assert_eq!(ids(&due_cards(&list, &entries, &now)), vec![1, 3, 4]);
    assert_eq!(state_in(&entries, 4).unwrap(), SchedulerState::default());
    assert!(matches!(state_in(&entries, 9), Err(AppError::NotFound)));
}

#[test]
fn the_last_entry_of_each_card_is_found_in_any_order() {
    let mut entries: Vec<StateEntry> = vec![];
    for (card, secs) in [(1, 10), (2, 20), (1, 30), (3, 40), (2, 50)] {
        let mut e = entry(card, secs);
        e.state.interval_days = secs as u32;
        save_entry(&mut entries, e);
    }
    entries.reverse();
    assert_eq!(state_in(&entries, 1).unwrap().interval_days, 30);
    assert_eq!(state_in(&entries, 2).unwrap().interval_days, 50);
    assert_eq!(state_in(&entries, 3).unwrap().interval_days, 40);
    assert!(matches!(state_in(&entries, 4), Err(AppError::NotFound)));
}

#[test]
fn an_edit_goes_through_the_files_and_touches_one() {
    let files = vec![
        vec![card(1, "a.md", CardStatus::Pending), card(2, "a.md", CardStatus::Pending)],
        vec![card(3, "b.md", CardStatus::Accepted)],
    ];
    let edit = CardEdit::Status(CardStatus::Rejected);
    assert_eq!(edit_file(Some(files[0].clone()), 3, &edit), FileStep::Next);
    match edit_file(Some(files[1].clone()), 3, &edit) {
        FileStep::Write(cards) => assert_eq!(cards, vec![card(3, "b.md", CardStatus::Rejected)]),
        other => panic!("expected Write, got {other:?}"),
    }
    let content = CardContent::Qa { front: "q".to_string(), back: "a".to_string() };
    assert!(matches!(
        edit_file(Some(files[1].clone()), 3, &CardEdit::Content(content)),
        FileStep::Stop(AppError::Conflict(_))
    ));
    assert_eq!(edit_file(None, 9, &edit), FileStep::Stop(AppError::NotFound));
}

#[test]
fn groups_go_into_the_files_of_their_notes() {
    let saved = vec![
        card(1, "a.md", CardStatus::Pending),
        card(2, "b.md", CardStatus::Pending),
        card(3, "a.md", CardStatus::Pending),
    ];
    let mut files: Vec<(String, Vec<Card>)> = vec![
        ("b.md".to_string(), vec![card(2, "b.md", CardStatus::Accepted)]),
        ("a.md".to_string(), vec![]),
    ];
    for group in group_by_note(&saved) {
        for (note, list) in files.iter_mut() {
            if *note == group.source_file {
                upsert_cards(list, &group.cards);
            }
        }
    }
    assert_eq!(ids(&files[0].1), vec![2]);
    assert_eq!(files[0].1[0].status, CardStatus::Pending);
    assert_eq!(ids(&files[1].1), vec![1, 3]);
}
