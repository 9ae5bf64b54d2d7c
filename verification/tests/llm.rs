//! The Ollama protocol, and trying again.

use studybuddy::llm::json::{single_value, value_at};
use studybuddy::llm::ollama::{
    body_of_reply, chat_url, evaluation, evaluation_from_fields, evaluation_messages,
    proposal_messages, proposed_card, proposed_cards, read_cards, text_of_field,
    verdict_from_word, Reply,
};
use studybuddy::llm::prompt::{render_answer, EVALUATION_PROMPT, SYSTEM_PROMPT};
use studybuddy::llm::retry::{
    after_call, before_first_call, shorter_delay, wait_in_header, RetryLimits, RetryStep,
};
use studybuddy::llm::{ChunkContext, Delay, LlmError, ProposedCard};
use studybuddy::model::{Card, CardContent, CardStatus, Timestamp, Verdict};

fn chunk() -> ChunkContext {
    ChunkContext {
        source_file: "n.md".to_string(),
        source_heading: Some("H".to_string()),
        tags: vec!["t".to_string()],
        text: "body".to_string(),
    }
}

fn received(status: u16, status_line: &str, body: &str) -> Reply {
    Reply::Received {
        status,
        status_line: status_line.to_string(),
        retry_after: None,
        body: Ok(body.to_string()),
    }
}

/// A response with the model's answer in it.
fn envelope(content: &str) -> Reply {
    let quoted = serde_json::to_string(content).unwrap();
    received(
        200,
        "200 OK",
        &format!("{{\"message\":{{\"role\":\"assistant\",\"content\":{quoted}}}}}"),
    )
}

#[test]
fn parses_happy_path_response() {
    let cards = proposed_cards(envelope(
        r#"{"cards":[{"front":"Q1","back":"A1"},{"front":"Q2","back":"A2","rationale":"r"}]}"#,
    ))
    .expect("ok");
    assert_eq!(cards.len(), 2);
    match &cards[0].content {
        CardContent::Qa { front, back } => {
            assert_eq!(front, "Q1");
            assert_eq!(back, "A1");
        }
        _ => panic!("expected Qa, got {:?}", cards[0].content),
    }
    assert_eq!(cards[0].rationale, None);
    assert_eq!(cards[1].rationale.as_deref(), Some("r"));
}

#[test]
fn empty_cards_array_is_ok() {
    assert!(proposed_cards(envelope(r#"{"cards":[]}"#)).expect("ok").is_empty());
}

#[test]
fn malformed_content_is_bad_input() {
    let err = proposed_cards(envelope("not json at all")).unwrap_err();
    assert!(matches!(err, LlmError::BadInput { .. }), "got {err:?}");
}

#[test]
fn non_2xx_is_config() {
    let err = proposed_cards(received(500, "500 Internal Server Error", "model not loaded"))
        .unwrap_err();
    match err {
        LlmError::Config { reason } => assert_eq!(
            reason,
            "ollama returned 500 Internal Server Error: model not loaded"
        ),
        other => panic!("expected Config, got {other:?}"),
    }
}

#[test]
fn no_response_is_transient() {
    match proposed_cards(Reply::Failed("connection refused".to_string())).unwrap_err() {
        LlmError::Transient { reason, retry_after } => {
            assert_eq!(reason, "ollama request failed: connection refused");
            assert_eq!(retry_after, None);
        }
        other => panic!("expected Transient, got {other:?}"),
    }
}

/// A refusal with a wait that the server asks for.
fn refused(status: u16, body: &str) -> LlmError {
    proposed_cards(Reply::Received {
        status,
        status_line: status.to_string(),
        retry_after: Some(Delay { secs: 7, nanos: 0 }),
        body: Ok(body.to_string()),
    })
    .unwrap_err()
}

#[test]
fn refusals_that_come_and_go_are_transient() {
    for status in [429, 501, 503, 599] {
        match refused(status, "busy") {
            LlmError::Transient { reason, retry_after } => {
                assert_eq!(reason, format!("ollama returned {status}: busy"));
                assert_eq!(retry_after, Some(Delay { secs: 7, nanos: 0 }));
            }
            other => panic!("expected Transient for {status}, got {other:?}"),
        }
    }
    let without = proposed_cards(received(429, "429 Too Many Requests", "slow down")).unwrap_err();
    assert!(matches!(without, LlmError::Transient { retry_after: None, .. }));
}

#[test]
fn inputs_that_are_too_long_are_bad_input() {
    assert!(matches!(refused(400, "context length exceeded"), LlmError::BadInput { .. }));
    assert!(matches!(
        refused(400, "{\"error\":\"input exceeds the context length\"}"),
        LlmError::BadInput { .. }
    ));
    assert!(matches!(refused(400, "invalid format"), LlmError::Config { .. }));
    assert!(matches!(refused(404, "context length exceeded"), LlmError::Config { .. }));
}

#[test]
fn other_refusals_are_config() {
    for status in [302, 401, 404, 428, 430, 500, 600] {
        assert!(matches!(refused(status, "no"), LlmError::Config { .. }), "{status}");
    }
}

#[test]
fn a_body_that_does_not_arrive_is_transient() {
    let cut = |status: u16| {
        proposed_cards(Reply::Received {
            status,
            status_line: status.to_string(),
            retry_after: None,
            body: Err("timed out".to_string()),
        })
        .unwrap_err()
    };
    match cut(200) {
        LlmError::Transient { reason, .. } => assert_eq!(reason, "ollama request failed: timed out"),
        other => panic!("expected Transient, got {other:?}"),
    }
    match cut(404) {
        LlmError::Config { reason } => assert_eq!(reason, "ollama returned 404: "),
        other => panic!("expected Config, got {other:?}"),
    }
}

#[test]
fn headers_ask_for_a_wait_in_seconds() {
    let secs = |secs: u64| Some(Delay { secs, nanos: 0 });
    assert_eq!(wait_in_header("120"), secs(120));
    assert_eq!(wait_in_header(" 0 "), secs(0));
    assert_eq!(wait_in_header("007"), secs(7));
    assert_eq!(wait_in_header("18446744073709551615"), secs(u64::MAX));
    assert_eq!(wait_in_header("18446744073709551616"), None);
    assert_eq!(wait_in_header("99999999999999999999999"), None);
    for header in ["", " ", "-1", "1.5", "12s", "Wed, 21 Oct 2015 07:28:00 GMT"] {
        assert_eq!(wait_in_header(header), None, "{header}");
    }
}

#[test]
fn responses_that_break_the_protocol_are_bad_input() {
    let whole = |reply: Reply| match proposed_cards(reply).unwrap_err() {
        LlmError::BadInput { reason } => reason,
        other => panic!("expected BadInput, got {other:?}"),
    };
    assert_eq!(
        whole(received(200, "200 OK", "{}")),
        "ollama response parse failed: missing field `message`"
    );
    assert_eq!(
        whole(received(200, "200 OK", "{\"message\":{}}")),
        "ollama response parse failed: missing field `content`"
    );
    assert!(whole(received(200, "200 OK", "oops")).starts_with("ollama response parse failed: "));
    assert_eq!(
        whole(envelope("{}")),
        "ollama content parse failed: missing field `cards`"
    );
    assert_eq!(
        whole(envelope(r#"{"cards":[{"front":"Q","back":"A"},{"front":"Q"}]}"#)),
        "ollama content parse failed: missing field `back`"
    );
    assert_eq!(
        whole(envelope(r#"{"cards":[{"front":null,"back":"A"}]}"#)),
        "ollama content parse failed: null in field `front`"
    );
    assert!(whole(envelope(r#"{"cards":3}"#)).starts_with("ollama content parse failed: "));
    assert!(whole(envelope(r#"{"cards":[{"front":1,"back":"A"}]}"#))
        .starts_with("ollama content parse failed: "));
}

#[test]
fn unknown_fields_of_an_answer_are_ignored() {
    let cards = read_cards(
        r#"{"note":1e999,"cards":[{"front":"Q","back":"\"A\"","rationale":null,"x":[1e999]}]}"#,
    )
    .unwrap();
    assert_eq!(
        cards,
        vec![ProposedCard {
            content: CardContent::Qa { front: "Q".to_string(), back: "\"A\"".to_string() },
            rationale: None,
        }]
    );
}

#[test]
fn fields_can_come_in_any_form_of_json() {
    let one = |s: &str| {
        let cards = read_cards(s).unwrap();
        assert_eq!(cards.len(), 1, "{s}");
        match &cards[0].content {
            CardContent::Qa { front, back } => {
                (front.clone(), back.clone(), cards[0].rationale.clone())
            }
            other => panic!("expected Qa, got {other:?}"),
        }
    };
    let card = |f: &str, b: &str, r: Option<&str>| {
        (f.to_string(), b.to_string(), r.map(|r| r.to_string()))
    };
    assert_eq!(
        one(" { \"cards\" :\n[\t{ \"front\" : \"Q\" , \"back\":\"A\" } ] } "),
        card("Q", "A", None)
    );
    assert_eq!(
        one(r#"{"cards":[{"fr\u006fnt":"{,}:\"","back":"[]","x":{"front":[1,{"y":2}]}}]}"#),
        card("{,}:\"", "[]", None)
    );
    assert_eq!(one(r#"{"cards":[["Q","A"]]}"#), card("Q", "A", None));
    assert_eq!(one(r#"[[["Q","A",null]]]"#), card("Q", "A", None));
    assert_eq!(one(r#"[[["Q","A","why"]]]"#), card("Q", "A", Some("why")));
    for (bad, why) in [
        (r#"{"cards":[["Q"]]}"#, "missing field `back`"),
        (r#"{"cards":[["Q","A",null,1]]}"#, "trailing characters"),
        (r#"[[],[]]"#, "trailing characters"),
        (r#"[]"#, "missing field `cards`"),
    ] {
        assert_eq!(read_cards(bad).unwrap_err(), why, "{bad}");
    }
    assert_eq!(read_cards(r#"[[]]"#).unwrap(), vec![]);
    assert!(read_cards(r#"{"cards":[]} x"#).is_err());
    assert!(read_cards(r#"{"cards":[],}"#).is_err());
    let reply = received(200, "200 OK", r#"[["{\"cards\":[]}"]]"#);
    assert_eq!(proposed_cards(reply).unwrap(), vec![]);
    let grade = evaluation(envelope(r#"["correct","yes"]"#)).unwrap();
    assert_eq!((grade.verdict, grade.explanation.as_str()), (Verdict::Correct, "yes"));
}

#[test]
fn fields_are_given_once() {
    for (bad, field) in [
        (r#"{"cards":[],"cards":[]}"#, "cards"),
        (r#"{"cards":[{"front":"Q","back":"A","front":"Q"}]}"#, "front"),
        (r#"{"cards":[{"front":"Q","b\u0061ck":"B","back":"A"}]}"#, "back"),
        (r#"{"cards":[{"front":"Q","back":"A","rationale":null,"rationale":"r"}]}"#, "rationale"),
    ] {
        assert_eq!(read_cards(bad).unwrap_err(), format!("duplicate field `{field}`"), "{bad}");
    }
    let reply = received(200, "200 OK", r#"{"message":{"content":"{}","content":"{}"}}"#);
    assert!(matches!(proposed_cards(reply), Err(LlmError::BadInput { .. })));
    assert!(read_cards(r#"{"x":1,"cards":[],"x":2}"#).is_ok());
    assert_eq!(single_value(vec![], "k"), Ok(None));
    assert_eq!(single_value(vec!["1".to_string()], "k"), Ok(Some("1".to_string())));
    assert_eq!(value_at(vec!["1".to_string()], 0, 1), Ok(Some("1".to_string())));
    assert_eq!(value_at(vec!["1".to_string()], 1, 2), Ok(None));
}

#[test]
fn bodies_are_used_on_success_alone() {
    assert_eq!(body_of_reply(received(204, "204 No Content", "b")).unwrap(), "b");
    assert!(body_of_reply(received(199, "199", "b")).is_err());
    assert!(body_of_reply(received(300, "300 Multiple Choices", "b")).is_err());
}

#[test]
fn fields_make_up_a_card_or_say_what_is_missing() {
    let ok = |s: &str| Ok(s.to_string());
    let err = |s: &str| Err(s.to_string());
    assert!(proposed_card(ok("f"), ok("b"), Ok(None)).is_ok());
    assert_eq!(proposed_card(err("1"), err("2"), Err("3".to_string())).unwrap_err(), "1");
    assert_eq!(proposed_card(ok("f"), err("2"), Err("3".to_string())).unwrap_err(), "2");
    assert_eq!(proposed_card(ok("f"), ok("b"), Err("3".to_string())).unwrap_err(), "3");
    assert_eq!(text_of_field("k", Ok(Some("v".to_string()))), ok("v"));
    assert_eq!(text_of_field("k", Ok(None)), err("null in field `k`"));
}

#[test]
fn chat_url_drops_trailing_slashes() {
    assert_eq!(chat_url("http://127.0.0.1:11434"), "http://127.0.0.1:11434/api/chat");
    assert_eq!(chat_url("http://127.0.0.1:11434//"), "http://127.0.0.1:11434/api/chat");
}

#[test]
fn the_model_hears_the_system_prompt_and_the_chunk() {
    let messages = proposal_messages(&chunk());
    assert_eq!(messages.len(), 2);
    assert_eq!(messages[0].role, "system");
    assert_eq!(messages[0].content, SYSTEM_PROMPT);
    assert_eq!(messages[1].role, "user");
    assert_eq!(messages[1].content, "Heading: H\nTags: t\n\nbody");
    assert!(SYSTEM_PROMPT.starts_with("You author concise flashcards from study material. Given"));
    assert!(SYSTEM_PROMPT.contains("cards.\n\nRules:\n- Each card must be self-contained: a"));
    assert!(SYSTEM_PROMPT.ends_with("\n  ]\n}"));
}

fn card(content: CardContent) -> Card {
    Card {
        id: 1,
        content,
        source_file: "n.md".to_string(),
        source_heading: None,
        tags: vec![],
        status: CardStatus::Accepted,
        created_at: Timestamp { secs: 0, nanos: 0 },
    }
}

#[test]
fn answers_are_graded_against_the_expected_answer() {
    let qa = card(CardContent::Qa { front: "2+2?".to_string(), back: "4".to_string() });
    let messages = evaluation_messages(&qa, "four").unwrap();
    assert_eq!(messages[0].content, EVALUATION_PROMPT);
    assert_eq!(
        messages[1].content,
        "Question: 2+2?\nExpected answer: 4\nStudent's answer: four"
    );
    assert_eq!(messages[1].content, render_answer("2+2?", "4", "four"));
}

#[test]
fn cloze_cards_are_not_for_the_model() {
    let cloze = card(CardContent::Cloze { text: "t".to_string(), spans: vec![] });
    assert!(matches!(
        evaluation_messages(&cloze, "x"),
        Err(LlmError::BadInput { .. })
    ));
}

#[test]
fn grades_are_read_from_the_reply() {
    let g = evaluation(envelope(r#"{"verdict":"partial","explanation":"half"}"#)).unwrap();
    assert_eq!(g.verdict, Verdict::Partial);
    assert_eq!(g.explanation, "half");
    for content in [r#"{"verdict":"maybe","explanation":"?"}"#, r#"{"verdict":"correct"}"#, "x"] {
        let err = evaluation(envelope(content)).unwrap_err();
        assert!(matches!(err, LlmError::BadInput { .. }), "{content}");
    }
    assert_eq!(verdict_from_word("correct"), Some(Verdict::Correct));
    assert_eq!(verdict_from_word("incorrect"), Some(Verdict::Incorrect));
    assert_eq!(verdict_from_word("Correct"), None);
    assert_eq!(
        evaluation_from_fields(Ok("maybe".to_string()), Ok(String::new())).unwrap_err(),
        "unknown verdict `maybe`"
    );
}

// ---- trying again ----

type Outcome = Result<Vec<ProposedCard>, LlmError>;

const POLICY: RetryLimits = RetryLimits {
    max_attempts: 3,
    max_backoff: Delay { secs: 5, nanos: 0 },
};

fn secs(secs: u64) -> Delay {
    Delay { secs, nanos: 0 }
}

fn transient_with(reason: &str, retry_after: Option<Delay>) -> Outcome {
    Err(LlmError::Transient { reason: reason.to_string(), retry_after })
}

fn transient() -> Outcome {
    transient_with("boom", None)
}

/// Calls with these results: what is returned, how many calls there were, and
/// the waits between them.
fn run(limits: RetryLimits, results: Vec<Outcome>, backoff: Delay) -> (Outcome, usize, Vec<Delay>) {
    if let Some(e) = before_first_call(&limits) {
        return (Err(e), 0, vec![]);
    }
    let mut waits = vec![];
    for (attempt, result) in results.into_iter().enumerate() {
        match after_call(&limits, attempt, result, backoff) {
            RetryStep::Done(r) => return (r, attempt + 1, waits),
            RetryStep::Wait(d) => waits.push(d),
        }
    }
    panic!("more calls than results");
}

#[test]
fn transient_retries_then_succeeds() {
    let (result, calls, _) = run(POLICY, vec![transient(), transient(), Ok(vec![])], secs(1));
    assert!(result.is_ok());
    assert_eq!(calls, 3);
}

#[test]
fn transient_exhausts_all_attempts_and_returns_error() {
    let (result, calls, waits) =
        run(POLICY, vec![transient(), transient(), transient()], secs(1));
    assert!(matches!(result, Err(LlmError::Transient { .. })));
    assert_eq!(calls, 3);
    assert_eq!(waits.len(), 2);
}

#[test]
fn bad_input_passes_through_without_retry() {
    let bad = Err(LlmError::BadInput { reason: "bad".to_string() });
    let (result, calls, _) = run(POLICY, vec![bad], secs(1));
    assert!(matches!(result, Err(LlmError::BadInput { .. })));
    assert_eq!(calls, 1);
}

#[test]
fn config_passes_through_without_retry() {
    let config = Err(LlmError::Config { reason: "bad config".to_string() });
    let (result, calls, _) = run(POLICY, vec![config], secs(1));
    assert!(matches!(result, Err(LlmError::Config { .. })));
    assert_eq!(calls, 1);
}

#[test]
fn retry_after_is_respected_not_capped() {
    let (result, _, waits) = run(
        POLICY,
        vec![transient_with("rate limited", Some(secs(60))), Ok(vec![])],
        secs(1),
    );
    assert!(result.is_ok());
    assert_eq!(waits, vec![secs(60)]);
}

#[test]
fn exponential_backoff_is_capped_at_max_backoff() {
    let (_, _, waits) = run(POLICY, vec![transient(), Ok(vec![])], secs(10));
    assert_eq!(waits, vec![secs(5)]);
    let (_, _, waits) = run(POLICY, vec![transient(), Ok(vec![])], secs(2));
    assert_eq!(waits, vec![secs(2)]);
}

#[test]
fn first_attempt_success_makes_single_call() {
    let (result, calls, _) = run(POLICY, vec![Ok(vec![])], secs(1));
    assert!(result.is_ok());
    assert_eq!(calls, 1);
}

#[test]
fn zero_max_attempts_makes_no_call_and_returns_config_fallback() {
    let none = RetryLimits { max_attempts: 0, ..POLICY };
    let (result, calls, _) = run(none, vec![], secs(1));
    assert_eq!(calls, 0);
    match result {
        Err(LlmError::Config { reason }) => assert_eq!(reason, "no attempts made"),
        other => panic!("expected Config fallback, got {other:?}"),
    }
}

#[test]
fn exhaustion_returns_the_last_transient_error() {
    let results = vec![
        transient_with("first", None),
        transient_with("second", None),
        transient_with("third", None),
    ];
    match run(POLICY, results, secs(1)).0 {
        Err(LlmError::Transient { reason, .. }) => assert_eq!(reason, "third"),
        other => panic!("expected last transient error, got {other:?}"),
    }
}

#[test]
fn delays_are_compared_by_seconds_and_nanoseconds() {
    let a = Delay { secs: 1, nanos: 5 };
    let b = Delay { secs: 1, nanos: 6 };
    assert_eq!(shorter_delay(a, b), a);
    assert_eq!(shorter_delay(b, a), a);
    assert_eq!(shorter_delay(secs(2), b), b);
    assert_eq!(RetryLimits::default(), POLICY);
}
