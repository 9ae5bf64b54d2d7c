//! The command line: what is shown, how keys are understood, and how sessions
//! go.

use studybuddy::cli::curate::{CurateAction, CurateEvent, CurateSession};
use studybuddy::cli::review::{ReviewAction, ReviewEvent, ReviewSession};
use studybuddy::cli::{
    rating_from_key, rating_prompt, render_card, render_push, render_question, verdict_label,
};
use studybuddy::cloze::{fill_of, render_cloze_blanked};
use studybuddy::model::{Card, CardContent, CardStatus, ClozeSpan, Rating, Timestamp, Verdict};
use studybuddy::path::relativize;
use studybuddy::wire::{EvaluateResponse, IngestResponse};

#[test]
fn relativize_strips_vault_prefix() {
    let rel = relativize("/vault", "/vault/linear/vectors.md").unwrap();
    assert_eq!(rel, "linear/vectors.md");
}

#[test]
fn relativize_rejects_file_outside_vault() {
    let err = relativize("/vault", "/elsewhere/a.md").unwrap_err();
    assert!(err.to_string().contains("outside the vault"), "{err}");
}

#[test]
fn relativize_rejects_vault_root_itself() {
    let err = relativize("/vault", "/vault").unwrap_err();
    assert!(err.to_string().contains("vault root"), "{err}");
}

#[test]
fn rating_keys_map_to_ratings() {
    assert_eq!(rating_from_key("1\n"), Some(Rating::Again));
    assert_eq!(rating_from_key(" 2 "), Some(Rating::Hard));
    assert_eq!(rating_from_key("3"), Some(Rating::Good));
    assert_eq!(rating_from_key("4"), Some(Rating::Easy));
    assert_eq!(rating_from_key("x"), None);
    assert_eq!(rating_from_key(""), None);
}

#[test]
fn cloze_blanks_spans_on_the_question_side() {
    let text = "The capital of France is Paris.";
    let start = text.find("Paris").unwrap();
    let spans = vec![ClozeSpan {
        start,
        end: start + "Paris".len(),
        hint: None,
    }];
    assert_eq!(
        render_cloze_blanked(text, &spans),
        "The capital of France is {{...}}."
    );
}

#[test]
fn cloze_blank_carries_hint_when_present() {
    let text = "Mitochondria are the powerhouse of the cell.";
    let start = text.find("powerhouse").unwrap();
    let spans = vec![ClozeSpan {
        start,
        end: start + "powerhouse".len(),
        hint: Some("energy".to_string()),
    }];
    assert!(
        render_cloze_blanked(text, &spans).contains("{{...: energy}}"),
        "hint should appear in the blank"
    );
}

#[test]
fn verdict_label_maps_all_variants() {
    assert_eq!(verdict_label(Verdict::Correct), "Correct");
    assert_eq!(verdict_label(Verdict::Partial), "Partial");
    assert_eq!(verdict_label(Verdict::Incorrect), "Incorrect");
}

#[test]
fn rating_prompt_marks_suggested_rating() {
    assert!(rating_prompt(Some(Rating::Good)).contains("*3=good*"));
    assert!(!rating_prompt(Some(Rating::Good)).contains("*1=again*"));
}

#[test]
fn rating_prompt_unmodified_when_no_suggestion() {
    let prompt = rating_prompt(None);
    assert!(prompt.contains("1=again"));
    assert!(!prompt.contains('*'));
}

// ---- more on what is shown ----

fn span(start: usize, end: usize) -> ClozeSpan {
    ClozeSpan { start, end, hint: None }
}

#[test]
fn rating_prompt_in_full() {
    assert_eq!(
        rating_prompt(Some(Rating::Hard)),
        "rate [1=again *2=hard* 3=good 4=easy]: "
    );
}

#[test]
fn cloze_spans_are_taken_by_start_and_overlaps_are_passed_over() {
    let text = "one two three";
    // Out of order, the second overlaps the first by start.
    let spans = vec![span(8, 13), span(0, 3), span(2, 6)];
    assert_eq!(render_cloze_blanked(text, &spans), "{{...}} two {{...}}");
}

#[test]
fn malformed_cloze_spans_are_passed_over() {
    let text = "naïve";
    // Past the end, reversed, and inside the two bytes of `ï`.
    let spans = vec![span(0, 99), span(3, 1), span(3, 4)];
    assert_eq!(render_cloze_blanked(text, &spans), "naïve");
    assert_eq!(fill_of(text, &span(2, 4)), Some("ï".to_string()));
    assert_eq!(fill_of(text, &span(3, 4)), None);
    assert_eq!(fill_of(text, &span(0, 6)), Some("naïve".to_string()));
    assert_eq!(fill_of(text, &span(0, 7)), None);
}

#[test]
fn wide_characters_count_their_bytes() {
    let text = "a€𝄞b";
    assert_eq!(text.len(), 9);
    assert_eq!(fill_of(text, &span(1, 4)), Some("€".to_string()));
    assert_eq!(fill_of(text, &span(4, 8)), Some("𝄞".to_string()));
    assert_eq!(fill_of(text, &span(8, 9)), Some("b".to_string()));
    assert_eq!(render_cloze_blanked(text, &vec![span(4, 8)]), "a€{{...}}b");
}

#[test]
fn cards_are_shown_with_both_sides() {
    let qa = CardContent::Qa { front: "Q?".to_string(), back: "A.".to_string() };
    assert_eq!(render_card(&qa), "  Q: Q?\n  A: A.\n");
    assert_eq!(render_question(&qa), "Q?");
    let cloze = CardContent::Cloze { text: "two words".to_string(), spans: vec![span(4, 9)] };
    assert_eq!(render_card(&cloze), "  Cloze: two words\n  Blanked: two {{...}}\n");
    assert_eq!(render_question(&cloze), "two {{...}}");
}

#[test]
fn push_is_summed_up() {
    let counts = IngestResponse {
        chunks: 12,
        proposed_cards: 30,
        failed_chunks: 0,
        skipped_chunks: 1,
    };
    assert_eq!(
        render_push("linear/vectors.md", &counts),
        "linear/vectors.md: 12 chunk(s), 30 proposed, 0 failed, 1 skipped"
    );
}

// ---- sessions ----

fn card(id: u128, content: CardContent) -> Card {
    Card {
        id,
        content,
        source_file: "vectors.md".to_string(),
        source_heading: None,
        tags: vec![],
        status: CardStatus::Accepted,
        created_at: Timestamp { secs: 0, nanos: 0 },
    }
}

fn qa(id: u128) -> Card {
    card(id, CardContent::Qa { front: "Q".to_string(), back: "A".to_string() })
}

fn line(s: &str) -> ReviewEvent {
    ReviewEvent::Line(Some(s.to_string()))
}

#[test]
fn review_reveals_then_records_rating() {
    let (mut session, shown, action) = ReviewSession::start(vec![qa(7)]);
    assert_eq!(shown, "\n[1/1] Q\nyour answer (or Enter to reveal): ");
    assert_eq!(action, ReviewAction::ReadLine);

    let (shown, action) = session.advance(line("\n"));
    assert_eq!(shown, "A\nrate [1=again 2=hard 3=good 4=easy]: ");
    assert_eq!(action, ReviewAction::ReadLine);

    let (shown, action) = session.advance(line("3\n"));
    assert_eq!(shown, "");
    assert_eq!(action, ReviewAction::Record { card: 7, rating: Rating::Good });

    let (shown, action) = session.advance(ReviewEvent::Recorded(6));
    assert_eq!(shown, "  next due in 6 day(s)\n\nreviewed 1 card(s)\n");
    assert_eq!(action, ReviewAction::Stop);
}

#[test]
fn review_with_nothing_due_says_so() {
    let (_, shown, action) = ReviewSession::start(vec![]);
    assert_eq!(shown.trim(), "nothing due");
    assert_eq!(action, ReviewAction::Stop);
}

#[test]
fn review_blanks_cloze_question_then_fills_on_reveal() {
    let text = "The dot product yields a scalar.".to_string();
    let start = text.find("scalar").unwrap();
    let spans = vec![span(start, start + "scalar".len())];
    let (mut session, shown, _) =
        ReviewSession::start(vec![card(1, CardContent::Cloze { text, spans })]);
    assert!(shown.contains("yields a {{...}}"), "blanked question: {shown}");
    assert!(shown.ends_with("(press Enter to reveal) "), "{shown}");
    let (shown, _) = session.advance(ReviewEvent::Line(None));
    assert!(shown.contains("yields a scalar."), "filled answer on reveal: {shown}");
}

#[test]
fn review_grades_a_typed_answer_and_suggests_a_rating() {
    let (mut session, _, _) = ReviewSession::start(vec![qa(1), qa(2)]);
    let (shown, action) = session.advance(line("  my answer \n"));
    assert_eq!(shown, "");
    assert_eq!(
        action,
        ReviewAction::Grade { card: 1, answer: "my answer".to_string() }
    );
    let (shown, _) = session.advance(ReviewEvent::Graded(Ok(EvaluateResponse {
        verdict: Verdict::Partial,
        explanation: "Half of it.".to_string(),
        suggested_rating: Rating::Hard,
    })));
    assert_eq!(
        shown,
        "  Partial — Half of it.\n  Expected: A\nrate [1=again *2=hard* 3=good 4=easy]: "
    );
    let (shown, action) = session.advance(line("nine"));
    assert_eq!(
        shown,
        "  unrecognized — enter 1, 2, 3, or 4\nrate [1=again *2=hard* 3=good 4=easy]: "
    );
    assert_eq!(action, ReviewAction::ReadLine);
    session.advance(line("1"));
    let (shown, _) = session.advance(ReviewEvent::Recorded(1));
    assert_eq!(
        shown,
        "  next due in 1 day(s)\n\n[2/2] Q\nyour answer (or Enter to reveal): "
    );
}

#[test]
fn review_goes_on_without_a_grade() {
    let (mut session, _, _) = ReviewSession::start(vec![qa(1)]);
    session.advance(line("answer"));
    let (shown, action) =
        session.advance(ReviewEvent::Graded(Err("server returned 503".to_string())));
    assert_eq!(
        shown,
        "  evaluation unavailable: server returned 503\nA\nrate [1=again 2=hard 3=good 4=easy]: "
    );
    assert_eq!(action, ReviewAction::ReadLine);
}

#[test]
fn review_stops_where_the_input_ends() {
    let (mut session, _, _) = ReviewSession::start(vec![qa(1), qa(2)]);
    // The end of the input counts as Enter at the answer.
    let (shown, action) = session.advance(ReviewEvent::Line(None));
    assert_eq!(shown, "A\nrate [1=again 2=hard 3=good 4=easy]: ");
    assert_eq!(action, ReviewAction::ReadLine);
    let (shown, action) = session.advance(ReviewEvent::Line(None));
    assert_eq!(shown, "\ninput ended; stopping review\n");
    assert_eq!(action, ReviewAction::Stop);
}

fn choice(s: &str) -> CurateEvent {
    CurateEvent::Line(Some(s.to_string()))
}

const MENU: &str = "[a]ccept [r]eject [e]dit [s]kip [q]uit: ";

#[test]
fn curate_with_nothing_pending_says_so() {
    let (_, shown, action) = CurateSession::start(vec![]);
    assert_eq!(shown, "nothing pending\n");
    assert!(matches!(action, CurateAction::Stop));
}

#[test]
fn curate_accept_asks_for_the_acceptance_of_the_card() {
    let (mut session, shown, _) = CurateSession::start(vec![qa(5), qa(6)]);
    assert_eq!(shown, format!("\n[1/2] vectors.md\n  Q: Q\n  A: A\n{MENU}"));
    let (shown, action) = session.advance(choice("a\n"));
    assert_eq!(shown, "");
    assert!(matches!(action, CurateAction::Accept(5)), "{action:?}");
    let (shown, action) = session.advance(CurateEvent::Confirmed);
    assert_eq!(
        shown,
        format!("  accepted\n\n[2/2] vectors.md\n  Q: Q\n  A: A\n{MENU}")
    );
    assert!(matches!(action, CurateAction::ReadLine));
    let (_, action) = session.advance(choice("r"));
    assert!(matches!(action, CurateAction::Reject(6)), "{action:?}");
    let (shown, action) = session.advance(CurateEvent::Confirmed);
    assert_eq!(shown, "  rejected\n\ncurated 2 card(s)\n");
    assert!(matches!(action, CurateAction::Stop));
}

#[test]
fn curate_edit_then_accept_keeps_the_edit() {
    let (mut session, _, _) = CurateSession::start(vec![qa(5)]);
    let (_, action) = session.advance(choice("e"));
    let edited = CardContent::Qa {
        front: "edited front".to_string(),
        back: "edited back".to_string(),
    };
    match action {
        CurateAction::Edit(content) => assert_eq!(content, qa(5).content),
        other => panic!("expected an edit, got {other:?}"),
    }
    let (_, action) = session.advance(CurateEvent::Edited(Ok(edited.clone())));
    match action {
        CurateAction::Patch(id, content) => {
            assert_eq!(id, 5);
            assert_eq!(content, edited);
        }
        other => panic!("expected a patch, got {other:?}"),
    }
    let (shown, _) = session.advance(CurateEvent::Confirmed);
    assert_eq!(
        shown,
        format!("  edited\n  Q: edited front\n  A: edited back\n{MENU}")
    );
    // The next edit starts from the edited content.
    let (_, action) = session.advance(choice("e"));
    assert!(matches!(action, CurateAction::Edit(c) if c == edited));
    let (shown, _) = session.advance(CurateEvent::Edited(Err("bad JSON".to_string())));
    assert_eq!(shown, format!("  edit aborted: bad JSON\n{MENU}"));
    let (_, action) = session.advance(choice("a"));
    assert!(matches!(action, CurateAction::Accept(5)));
}

#[test]
fn curate_skips_quits_and_asks_again() {
    let (mut session, _, _) = CurateSession::start(vec![qa(1), qa(2)]);
    let (shown, _) = session.advance(choice(" what? \n"));
    assert_eq!(shown, format!("  unrecognized 'what?' — use a/r/e/s/q\n{MENU}"));
    let (shown, _) = session.advance(choice("s"));
    assert!(shown.starts_with("  skipped\n\n[2/2]"), "{shown}");
    let (shown, action) = session.advance(choice("q"));
    assert_eq!(shown, "stopping\n");
    assert!(matches!(action, CurateAction::Stop));

    let (mut session, _, _) = CurateSession::start(vec![qa(1)]);
    let (shown, action) = session.advance(CurateEvent::Line(None));
    assert_eq!(shown, "\ninput ended; stopping\n");
    assert!(matches!(action, CurateAction::Stop));
}
