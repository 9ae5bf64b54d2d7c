//! What the server does for each request, over the store in memory.

use studybuddy::api::auth::{bearer_header, presented_token, require_bearer, same_digest};
use studybuddy::api::evaluate::{
    begin_evaluation, cloze_result, conclude_evaluation, grade_cloze, EvaluationStep,
};
use studybuddy::api::ingest::{card_from, classify_chunk, mint_card, ChunkOutcome, IngestRun};
use studybuddy::api::{
    accept_card, accept_card_now, cards_due, cards_pending, patch_card, post_review,
    post_review_now, record_review, reject_card,
};
use studybuddy::error::AppError;
use studybuddy::llm::{ChunkContext, EvaluationResult, LlmError, ProposedCard};
use studybuddy::model::{
    Card, CardContent, CardId, CardStatus, ClozeSpan, Rating, Review, Timestamp, Verdict,
};
use studybuddy::scheduler::{Growth, ReviewOutcome, Scheduler, SchedulerState, Sm2};
use studybuddy::store::{InMemoryRepository, Repository, StoreView};
use studybuddy::wire::{EvaluateRequest, EvaluateResponse, IngestRequest, IngestResponse, ReviewRequest};

/// A single-heading note that the chunker turns into exactly one chunk.
const NOTE: &str = "# Vectors\n\nA vector has both magnitude and direction. \
Adding two vectors places them tip to tail. The dot product multiplies \
corresponding components and sums them into a scalar.\n";

/// Same note, but frontmatter-excluded.
const EXCLUDED_NOTE: &str =
    "---\nstudybuddy:\n  exclude: true\n---\n\n# Vectors\n\nbody text here.\n";

const NOW: Timestamp = Timestamp { secs: 1_782_000_000, nanos: 0 };
const DAY: i64 = 86_400;

/// The scheduler with its floating point.
struct Floating;

impl Scheduler for Floating {
    fn on_review(&self, state: SchedulerState, rating: Rating, now: Timestamp) -> ReviewOutcome {
        let growth = Growth {
            interval_days: (state.interval_days as f32 * f32::from_bits(state.ease_bits)).round()
                as u32,
            ease_bits: state.ease_bits,
        };
        Sm2.on_review(state, rating, now, growth)
    }
}

fn one_card() -> Vec<ProposedCard> {
    vec![ProposedCard {
        content: CardContent::Qa { front: "Q".to_string(), back: "A".to_string() },
        rationale: None,
    }]
}

fn request(source_file: &str, content: &str) -> IngestRequest {
    IngestRequest { source_file: source_file.to_string(), content: content.to_string() }
}

type Reply = Result<Vec<ProposedCard>, LlmError>;

/// Takes a note in with a model that always replies the same; the counts, and
/// how often the model was asked.
fn ingest(
    store: &mut InMemoryRepository,
    source_file: &str,
    content: &str,
    reply: impl Fn() -> Reply,
) -> (Result<IngestResponse, AppError>, usize) {
    let mut asked = 0;
    let mut run = match IngestRun::start(&request(source_file, content)) {
        Ok(run) => run,
        Err(e) => return (Err(e), asked),
    };
    while run.next_chunk().is_some() {
        asked += 1;
        if let Err(e) = run.record(reply()) {
            return (Err(e), asked);
        }
    }
    (run.finish(store), asked)
}

fn transient(reason: &str) -> LlmError {
    LlmError::Transient { reason: reason.to_string(), retry_after: None }
}

#[test]
fn ingest_returns_counts_for_pushed_note() {
    let mut store = InMemoryRepository::new();
    let (counts, asked) = ingest(&mut store, "vectors.md", NOTE, || Ok(one_card()));
    let counts = counts.unwrap();
    assert!(counts.chunks > 0);
    assert_eq!(counts.proposed_cards, counts.chunks);
    assert_eq!(counts.failed_chunks, 0);
    assert_eq!(counts.skipped_chunks, 0);
    assert_eq!(asked, counts.chunks, "the model is asked once per chunk");
}

#[test]
fn ingest_excluded_note_yields_zero_chunks() {
    let mut store = InMemoryRepository::new();
    let (counts, asked) = ingest(&mut store, "ignored.md", EXCLUDED_NOTE, || Ok(one_card()));
    let counts = counts.unwrap();
    assert_eq!(counts.chunks, 0);
    assert_eq!(counts.proposed_cards, 0);
    assert_eq!(asked, 0, "excluded note contributes no LLM calls");
}

#[test]
fn ingest_counts_bad_input_as_skipped_not_failed() {
    let mut store = InMemoryRepository::new();
    let (counts, _) = ingest(&mut store, "vectors.md", NOTE, || {
        Err(LlmError::BadInput { reason: "model said no".to_string() })
    });
    let counts = counts.unwrap();
    assert!(counts.chunks > 0);
    assert_eq!(counts.proposed_cards, 0);
    assert_eq!(counts.failed_chunks, 0);
    assert_eq!(counts.skipped_chunks, counts.chunks);
}

#[test]
fn ingest_counts_transient_as_failed() {
    let mut store = InMemoryRepository::new();
    let (counts, _) = ingest(&mut store, "vectors.md", NOTE, || Err(transient("timeout")));
    let counts = counts.unwrap();
    assert!(counts.chunks > 0);
    assert_eq!(counts.proposed_cards, 0);
    assert_eq!(counts.skipped_chunks, 0);
    assert_eq!(counts.failed_chunks, counts.chunks);
}

#[test]
fn ingest_aborts_on_config_error() {
    let mut store = InMemoryRepository::new();
    let (counts, asked) = ingest(&mut store, "vectors.md", NOTE, || {
        Err(LlmError::Config { reason: "unknown model".to_string() })
    });
    let response = counts.unwrap_err().into_response();
    assert_eq!(response.status, 500);
    assert!(response.message.contains("unknown model"));
    assert_eq!(asked, 1, "must stop on the first Config error");
}

#[test]
fn ingest_handles_empty_card_proposals() {
    let mut store = InMemoryRepository::new();
    let (counts, _) = ingest(&mut store, "vectors.md", NOTE, || Ok(vec![]));
    let counts = counts.unwrap();
    assert!(counts.chunks > 0);
    assert_eq!(counts.proposed_cards, 0);
    assert_eq!(counts.failed_chunks, 0);
    assert_eq!(counts.skipped_chunks, 0);
}

#[test]
fn counts_are_those_of_the_replies() {
    let words = "word ".repeat(60);
    let note: String = ["A", "B", "C", "D", "E"]
        .iter()
        .map(|h| format!("# {h}\n\n{words}\n\n"))
        .collect();
    let mut store = InMemoryRepository::new();
    let mut run = IngestRun::start(&request("many.md", &note)).unwrap();
    let two = || one_card().into_iter().chain(one_card()).collect();
    let replies: Vec<Reply> = vec![
        Ok(two()),
        Err(transient("timeout")),
        Ok(vec![]),
        Err(LlmError::BadInput { reason: "refused".to_string() }),
        Ok(one_card()),
    ];
    for (reply, heading) in replies.into_iter().zip(["A", "B", "C", "D", "E"]) {
        assert_eq!(run.next_chunk().unwrap().source_heading.as_deref(), Some(heading));
        run.record(reply).unwrap();
    }
    assert!(run.next_chunk().is_none());
    let headings: Vec<_> = run.cards.iter().map(|c| c.source_heading.clone().unwrap()).collect();
    assert_eq!(headings, vec!["A", "A", "E"]);
    assert_eq!(
        run.finish(&mut store).unwrap(),
        IngestResponse { chunks: 5, proposed_cards: 3, failed_chunks: 1, skipped_chunks: 1 }
    );
    assert_eq!(store.list_pending().unwrap().len(), 3);
}

/// A store whose writes fail from some point on; it notes what is called.
struct Failing {
    inner: InMemoryRepository,
    broken: Vec<&'static str>,
    called: std::cell::RefCell<Vec<&'static str>>,
}

impl Failing {
    fn call(&self, name: &'static str) -> Result<(), AppError> {
        self.called.borrow_mut().push(name);
        if self.broken.contains(&name) {
            Err(AppError::Io(format!("{name} failed")))
        } else {
            Ok(())
        }
    }
}

impl Repository for Failing {
    fn contents(&self) -> StoreView {
        unreachable!("the contents of a store are never computed")
    }

    fn save_pending(&mut self, cards: &Vec<Card>) -> Result<(), AppError> {
        self.call("save_pending")?;
        self.inner.save_pending(cards)
    }

    fn list_pending(&self) -> Result<Vec<Card>, AppError> {
        self.inner.list_pending()
    }

    fn update_content(&mut self, card: CardId, content: CardContent) -> Result<(), AppError> {
        self.inner.update_content(card, content)
    }

    fn set_status(&mut self, card: CardId, status: CardStatus) -> Result<(), AppError> {
        self.call("set_status")?;
        self.inner.set_status(card, status)
    }

    fn list_due(&self, now: &Timestamp) -> Result<Vec<Card>, AppError> {
        self.inner.list_due(now)
    }

    fn load_state(&self, card: CardId) -> Result<SchedulerState, AppError> {
        self.call("load_state")?;
        self.inner.load_state(card)
    }

    fn save_state(
        &mut self,
        card: CardId,
        state: SchedulerState,
        next_due: Timestamp,
    ) -> Result<(), AppError> {
        self.call("save_state")?;
        self.inner.save_state(card, state, next_due)
    }

    fn save_review(&mut self, review: &Review) -> Result<(), AppError> {
        self.call("save_review")?;
        self.inner.save_review(review)
    }

    fn get_card(&self, card: CardId) -> Result<Card, AppError> {
        self.inner.get_card(card)
    }
}

#[test]
fn a_failing_store_is_written_in_order_and_no_further() {
    for (broken, review, accept) in [
        (
            vec![],
            vec!["load_state", "save_review", "save_state"],
            vec!["set_status", "save_state"],
        ),
        (vec!["load_state"], vec!["load_state"], vec!["set_status", "save_state"]),
        (
            vec!["save_review"],
            vec!["load_state", "save_review"],
            vec!["set_status", "save_state"],
        ),
        (vec!["set_status"], vec!["load_state", "save_review", "save_state"], vec!["set_status"]),
    ] {
        let mut inner = InMemoryRepository::new();
        let id = ingest_one_pending(&mut inner);
        accept_card(&mut inner, id, NOW).unwrap();
        let mut store = Failing { inner, broken: broken.clone(), called: Default::default() };
        let request = ReviewRequest { card_id: id, rating: Rating::Good };
        let _ = post_review(&mut store, &Floating, &request, NOW);
        assert_eq!(store.called.take(), review, "{broken:?}");
        let _ = accept_card(&mut store, id, NOW);
        assert_eq!(store.called.take(), accept, "{broken:?}");
    }
}

#[test]
fn ingest_rejects_absolute_source_file() {
    let response = IngestRun::start(&request("/etc/passwd", NOTE)).unwrap_err().into_response();
    assert_eq!(response.status, 400);
    assert_eq!(
        response.message,
        "source_file must be a relative path without '..': /etc/passwd"
    );
}

#[test]
fn ingest_rejects_parent_traversal() {
    let response = IngestRun::start(&request("../secret.md", NOTE)).unwrap_err().into_response();
    assert_eq!(response.status, 400);
    let response = IngestRun::start(&request("", NOTE)).unwrap_err().into_response();
    assert_eq!(response.message, "source_file is empty");
}

#[test]
fn ingest_reports_frontmatter_that_does_not_parse() {
    let err = IngestRun::start(&request("a.md", "---\ntags: {\n---\n\nbody\n")).unwrap_err();
    assert!(matches!(err, AppError::Parse(_)));
    assert_eq!(err.into_response().status, 400);
}

fn ingest_one_pending(store: &mut InMemoryRepository) -> u128 {
    ingest(store, "vectors.md", NOTE, || Ok(one_card())).0.unwrap();
    let cards = cards_pending(store).unwrap();
    assert_eq!(cards.len(), 1, "expected one pending card");
    cards[0].id
}

#[test]
fn full_lifecycle_ingest_curate_review() {
    let mut store = InMemoryRepository::new();
    let id = ingest_one_pending(&mut store);

    // Pending: not due yet, there is no review state.
    assert!(cards_due(&store).unwrap().is_empty());

    // Accepted: no longer pending, and due at once.
    accept_card_now(&mut store, id).unwrap();
    assert!(cards_pending(&store).unwrap().is_empty());
    assert_eq!(cards_due(&store).unwrap().len(), 1);

    // Reviewed: scheduled ahead, no longer due.
    let review = ReviewRequest { card_id: id, rating: Rating::Good };
    let response = post_review_now(&mut store, &Floating, &review).unwrap();
    assert_eq!(response.interval_days, 1);
    assert!(cards_due(&store).unwrap().is_empty());
    assert_eq!(store.reviews().len(), 1);
    assert_eq!(store.reviews()[0].next_due, response.next_due);
    assert_eq!(store.reviews()[0].reviewed_at.secs + DAY, response.next_due.secs);
    assert!(store.list_due(&response.next_due).unwrap().len() == 1);
}

#[test]
fn patch_edits_pending_then_conflicts_after_accept() {
    let mut store = InMemoryRepository::new();
    let id = ingest_one_pending(&mut store);
    let content = CardContent::Qa { front: "new front".to_string(), back: "new back".to_string() };
    patch_card(&mut store, id, content.clone()).unwrap();
    assert_eq!(cards_pending(&store).unwrap()[0].content, content);

    accept_card(&mut store, id, NOW).unwrap();
    let err = patch_card(&mut store, id, content.clone()).unwrap_err();
    assert_eq!(err.into_response().status, 409);
    let err = patch_card(&mut store, id ^ 1, content).unwrap_err();
    assert_eq!(err.into_response().status, 404);
}

#[test]
fn reject_removes_card_from_pending() {
    let mut store = InMemoryRepository::new();
    let id = ingest_one_pending(&mut store);
    reject_card(&mut store, id).unwrap();
    assert!(cards_pending(&store).unwrap().is_empty());
    assert_eq!(store.get_card(id).unwrap().status, CardStatus::Rejected);
}

#[test]
fn reject_after_accept_removes_card_from_due() {
    let mut store = InMemoryRepository::new();
    let id = ingest_one_pending(&mut store);
    accept_card(&mut store, id, NOW).unwrap();
    assert_eq!(store.list_due(&NOW).unwrap().len(), 1);
    reject_card(&mut store, id).unwrap();
    assert!(store.list_due(&NOW).unwrap().is_empty(), "rejected card must not stay due");
}

#[test]
fn accepting_again_resets_the_state() {
    let mut store = InMemoryRepository::new();
    let id = ingest_one_pending(&mut store);
    accept_card(&mut store, id, NOW).unwrap();
    let review = ReviewRequest { card_id: id, rating: Rating::Good };
    post_review(&mut store, &Floating, &review, NOW).unwrap();
    assert_eq!(store.load_state(id).unwrap().repetitions, 1);
    accept_card(&mut store, id, NOW).unwrap();
    assert_eq!(store.load_state(id).unwrap(), SchedulerState::default());
}

#[test]
fn unknown_cards_are_404() {
    let mut store = InMemoryRepository::new();
    for err in [
        accept_card(&mut store, 1, NOW).unwrap_err(),
        accept_card_now(&mut store, 1).unwrap_err(),
        reject_card(&mut store, 1).unwrap_err(),
    ] {
        assert_eq!(err.into_response().status, 404);
    }
}

#[test]
fn review_unknown_card_is_404() {
    let mut store = InMemoryRepository::new();
    let review = ReviewRequest { card_id: 9, rating: Rating::Good };
    let response = post_review(&mut store, &Floating, &review, NOW).unwrap_err().into_response();
    assert_eq!(response.status, 404);
    assert_eq!(response.message, "not found");
    assert!(store.reviews().is_empty());
}

#[test]
fn a_review_is_recorded_with_its_outcome() {
    let mut store = InMemoryRepository::new();
    let outcome = ReviewOutcome {
        state: SchedulerState { interval_days: 4, ease_bits: 7, repetitions: 3 },
        next_due: Timestamp { secs: NOW.secs + 4 * DAY, nanos: 0 },
    };
    let review = ReviewRequest { card_id: 9, rating: Rating::Easy };
    let response = record_review(&mut store, &review, NOW, outcome).unwrap();
    assert_eq!(response.interval_days, 4);
    assert_eq!(response.next_due, outcome.next_due);
    assert_eq!(store.load_state(9).unwrap(), outcome.state);
    assert_eq!(store.reviews()[0].rating, Rating::Easy);
}

// ---- proposals into cards ----

fn chunk() -> ChunkContext {
    ChunkContext {
        source_file: "n.md".to_string(),
        source_heading: Some("H".to_string()),
        tags: vec!["t".to_string()],
        text: "body".to_string(),
    }
}

#[test]
fn cards_keep_the_anchor_of_their_chunk() {
    let card = card_from(one_card().remove(0), &chunk(), 42, NOW);
    assert_eq!(card.id, 42);
    assert_eq!(card.source_file, "n.md");
    assert_eq!(card.source_heading.as_deref(), Some("H"));
    assert_eq!(card.tags, vec!["t".to_string()]);
    assert_eq!(card.status, CardStatus::Pending);
    assert_eq!(card.created_at, NOW);
    assert_eq!(card.content, one_card()[0].content);
}

#[test]
fn minted_cards_have_random_ids_and_the_time() {
    let a = mint_card(one_card().remove(0), &chunk());
    let b = mint_card(one_card().remove(0), &chunk());
    assert_ne!(a.id, b.id);
    for card in [&a, &b] {
        let id = uuid::Uuid::from_u128(card.id);
        assert_eq!(id.get_version_num(), 4);
        assert_eq!(id.get_variant(), uuid::Variant::RFC4122);
        assert!(card.created_at.secs > 1_700_000_000);
        assert!(card.created_at.nanos < 1_000_000_000);
    }
    assert!(a.created_at.is_at_or_before(&b.created_at));
}

#[test]
fn proposals_become_cards_in_order() {
    let mut proposed = one_card();
    proposed.push(ProposedCard {
        content: CardContent::Qa { front: "Q2".to_string(), back: "A2".to_string() },
        rationale: Some("why".to_string()),
    });
    match classify_chunk(Ok(proposed.clone()), &chunk()) {
        Ok(ChunkOutcome::Cards(cards)) => {
            assert_eq!(cards.len(), 2);
            assert_eq!(cards[0].content, proposed[0].content);
            assert_eq!(cards[1].content, proposed[1].content);
        }
        other => panic!("expected cards, got {other:?}"),
    }
    assert!(matches!(classify_chunk(Err(transient("x")), &chunk()), Ok(ChunkOutcome::Failed)));
}

// ---- bearer token auth ----

#[test]
fn open_server_asks_for_no_token() {
    assert!(require_bearer(None, None).is_ok());
    assert!(require_bearer(None, Some("Bearer anything")).is_ok());
}

#[test]
fn protected_endpoint_is_401_without_token_header() {
    let response = require_bearer(Some("s3cr3t"), None).unwrap_err().into_response();
    assert_eq!(response.status, 401);
    assert_eq!(response.message, "unauthorized");
}

#[test]
fn protected_endpoint_is_401_with_wrong_token() {
    for header in ["Bearer wrong-token", "bearer s3cr3t", "Basic s3cr3t", "Bearer", "Bearer  s3cr3t", ""] {
        let err = require_bearer(Some("s3cr3t"), Some(header)).unwrap_err();
        assert!(matches!(err, AppError::Unauthorized), "{header}");
    }
}

#[test]
fn protected_endpoint_is_accessible_with_valid_token() {
    assert!(require_bearer(Some("s3cr3t"), Some("Bearer s3cr3t")).is_ok());
    let header = bearer_header("s3cr3t");
    assert_eq!(header, "Bearer s3cr3t");
    assert_eq!(presented_token(&header), Some("s3cr3t".to_string()));
    assert!(require_bearer(Some(""), Some(&bearer_header(""))).is_ok());
}

#[test]
fn unauthorized_response_includes_www_authenticate_header() {
    assert_eq!(AppError::Unauthorized.into_response().challenge, Some("Bearer"));
    assert_eq!(AppError::NotFound.into_response().challenge, None);
}

#[test]
fn digests_are_compared_whole() {
    assert!(same_digest(&vec![1, 2], &vec![1, 2]));
    assert!(!same_digest(&vec![1, 2], &vec![1, 3]));
    assert!(!same_digest(&vec![1, 2], &vec![1]));
}

// ---- grading ----

fn evaluate(
    store: &InMemoryRepository,
    card_id: u128,
    answer: &str,
    model: Result<EvaluationResult, LlmError>,
) -> Result<EvaluateResponse, AppError> {
    let request = EvaluateRequest { card_id, user_answer: answer.to_string() };
    match begin_evaluation(store, &request)? {
        EvaluationStep::Graded(response) => Ok(response),
        EvaluationStep::AskModel(card) => {
            assert_eq!(card.id, card_id);
            conclude_evaluation(model)
        }
    }
}

fn grade(verdict: Verdict) -> Result<EvaluationResult, LlmError> {
    Ok(EvaluationResult { verdict, explanation: "because".to_string() })
}

#[test]
fn evaluate_unknown_card_is_404() {
    let store = InMemoryRepository::new();
    let err = evaluate(&store, 3, "anything", grade(Verdict::Correct)).unwrap_err();
    assert_eq!(err.into_response().status, 404);
}

#[test]
fn evaluate_qa_verdicts_suggest_their_ratings() {
    let mut store = InMemoryRepository::new();
    let id = ingest_one_pending(&mut store);
    for (verdict, rating) in [
        (Verdict::Correct, Rating::Good),
        (Verdict::Partial, Rating::Hard),
        (Verdict::Incorrect, Rating::Again),
    ] {
        let response = evaluate(&store, id, "A", grade(verdict)).unwrap();
        assert_eq!(response.verdict, verdict);
        assert_eq!(response.suggested_rating, rating);
        assert_eq!(response.explanation, "because");
    }
}

#[test]
fn evaluate_qa_llm_transient_failure_is_503() {
    let mut store = InMemoryRepository::new();
    let id = ingest_one_pending(&mut store);
    let response = evaluate(&store, id, "anything", Err(transient("timeout")))
        .unwrap_err()
        .into_response();
    assert_eq!(response.status, 503);
    assert_eq!(response.message, "LLM evaluation unavailable: timeout");
    let bad = LlmError::BadInput { reason: "no".to_string() };
    let response = evaluate(&store, id, "anything", Err(bad)).unwrap_err().into_response();
    assert_eq!(response.status, 503);
    let config = LlmError::Config { reason: "no model".to_string() };
    let response = evaluate(&store, id, "anything", Err(config)).unwrap_err().into_response();
    assert_eq!(response.status, 500);
}

fn cloze_store() -> (InMemoryRepository, u128) {
    let mut store = InMemoryRepository::new();
    // "Paris" occupies bytes 25..30 in the text below.
    let reply = || {
        Ok(vec![ProposedCard {
            content: CardContent::Cloze {
                text: "The capital of France is Paris.".to_string(),
                spans: vec![ClozeSpan { start: 25, end: 30, hint: None }],
            },
            rationale: None,
        }])
    };
    ingest(&mut store, "test.md", NOTE, reply).0.unwrap();
    let id = cards_pending(&store).unwrap()[0].id;
    (store, id)
}

#[test]
fn evaluate_cloze_correct_answer_is_correct() {
    let (store, id) = cloze_store();
    let response = evaluate(&store, id, "Paris", grade(Verdict::Incorrect)).unwrap();
    assert_eq!(response.verdict, Verdict::Correct);
    assert_eq!(response.suggested_rating, Rating::Good);
}

#[test]
fn evaluate_cloze_wrong_answer_is_incorrect() {
    let (store, id) = cloze_store();
    let response = evaluate(&store, id, "London", grade(Verdict::Correct)).unwrap();
    assert_eq!(response.verdict, Verdict::Incorrect);
    assert_eq!(response.suggested_rating, Rating::Again);
}

#[test]
fn evaluate_cloze_case_insensitive_match_is_correct() {
    let (store, id) = cloze_store();
    let response = evaluate(&store, id, "PARIS", grade(Verdict::Incorrect)).unwrap();
    assert_eq!(response.verdict, Verdict::Correct);
    let response = evaluate(&store, id, "  paris\n", grade(Verdict::Incorrect)).unwrap();
    assert_eq!(response.verdict, Verdict::Correct);
}

#[test]
fn cloze_answers_match_any_blank_in_any_alphabet() {
    let text = "Ärger und Übel";
    let spans = vec![
        ClozeSpan { start: 0, end: 6, hint: None },
        ClozeSpan { start: 11, end: 16, hint: None },
    ];
    assert_eq!(grade_cloze(text, &spans, "ÄRGER").verdict, Verdict::Correct);
    assert_eq!(grade_cloze(text, &spans, "übel").verdict, Verdict::Correct);
    assert_eq!(grade_cloze(text, &spans, "und").verdict, Verdict::Incorrect);
    assert_eq!(grade_cloze(text, &vec![], "Ärger").verdict, Verdict::Incorrect);
}

#[test]
fn cloze_grades_explain_themselves() {
    assert_eq!(cloze_result(true, "t").explanation, "Matches the blank.");
    assert_eq!(cloze_result(false, "The text.").explanation, "Full text: The text.");
}

// ---- errors ----

#[test]
fn errors_have_their_statuses() {
    let text = || "why".to_string();
    for (error, status, message) in [
        (AppError::Io(text()), 500, "why"),
        (AppError::NotFound, 404, "not found"),
        (AppError::Llm(text()), 500, "why"),
        (AppError::Parse(text()), 400, "why"),
        (AppError::BadRequest(text()), 400, "why"),
        (AppError::Conflict(text()), 409, "why"),
        (AppError::Unauthorized, 401, "unauthorized"),
        (AppError::Unavailable(text()), 503, "why"),
    ] {
        let response = error.into_response();
        assert_eq!(response.status, status);
        assert_eq!(response.message, message);
    }
}
