//! The Ollama protocol: what is sent, and what is made of the reply.

use vstd::prelude::*;
use vstd::string::StringExecFns;

use crate::llm::json::{field, read_field};
use crate::llm::prompt::{
    answer_prompt, render_answer, render_user, user_prompt, EVALUATION_PROMPT, SYSTEM_PROMPT,
};
use crate::llm::{
    proposal_views, ChunkContext, Delay, EvaluationResult, EvaluationView, LlmError, LlmErrorView,
    ProposalView, ProposedCard,
};
use crate::model::{Card, CardContent, ContentView, Verdict};
use crate::text::{
    chars_of, find, find_in, same, string_of, strip_end, stripped_end, views, Class,
};
use crate::trusted::{
    json_items, json_list, json_string, json_text, option_result_view, result_view,
};

verus! {

/// A message to the model.
#[derive(Debug, PartialEq, Eq)]
pub struct Message {
    pub role: &'static str,
    pub content: String,
}

/// What a message is.
pub struct MessageView {
    pub role: Seq<char>,
    pub content: Seq<char>,
}

impl View for Message {
    type V = MessageView;

    open spec fn view(&self) -> MessageView {
        MessageView { role: self.role@, content: self.content@ }
    }
}

/// The messages of a list.
pub open spec fn message_views(v: Seq<Message>) -> Seq<MessageView> {
    v.map_values(|m: Message| m@)
}

/// What came back from the server: no response at all, or one with a status,
/// the wait that its `Retry-After` header asks for, and a body, which may not
/// have arrived whole.
#[derive(Debug)]
pub enum Reply {
    Failed(String),
    Received {
        status: u16,
        status_line: String,
        retry_after: Option<Delay>,
        body: Result<String, String>,
    },
}

/// What a reply is.
pub enum ReplyView {
    Failed(Seq<char>),
    Received {
        status: u16,
        status_line: Seq<char>,
        retry_after: Option<Delay>,
        body: Result<Seq<char>, Seq<char>>,
    },
}

impl View for Reply {
    type V = ReplyView;

    open spec fn view(&self) -> ReplyView {
        match *self {
            Reply::Failed(e) => ReplyView::Failed(e@),
            Reply::Received { status, status_line, retry_after, body } => ReplyView::Received {
                status,
                status_line: status_line@,
                retry_after,
                body: result_view(body),
            },
        }
    }
}

// ---------- the model ----------

/// Where the chat endpoint of a server is.
pub open spec fn chat_endpoint(base: Seq<char>) -> Seq<char> {
    strip_end(base, Class::Only('/')) + "/api/chat"@
}

/// The system prompt and what is asked.
pub open spec fn dialogue(system: Seq<char>, user: Seq<char>) -> Seq<MessageView> {
    seq![
        MessageView { role: "system"@, content: system },
        MessageView { role: "user"@, content: user },
    ]
}

/// A string field that must be there; it is the one at a position among so many.
pub open spec fn required(json: Seq<char>, key: Seq<char>, position: nat, fields: nat) -> Result<
    Seq<char>,
    Seq<char>,
> {
    match field(json, key, position, fields) {
        Ok(Some(value)) => must_be_text(key, json_string(value)),
        Ok(None) => Err(missing(key)),
        Err(e) => Err(e),
    }
}

/// What is said of a field that is missing.
pub open spec fn missing(key: Seq<char>) -> Seq<char> {
    "missing field `"@ + key + "`"@
}

/// The text of a field that may not be null.
pub open spec fn must_be_text(
    key: Seq<char>,
    value: Result<Option<Seq<char>>, Seq<char>>,
) -> Result<Seq<char>, Seq<char>> {
    match value {
        Ok(Some(s)) => Ok(s),
        Ok(None) => Err("null in field `"@ + key + "`"@),
        Err(e) => Err(e),
    }
}

/// A string field that may be missing or null.
pub open spec fn optional(json: Seq<char>, key: Seq<char>, position: nat, fields: nat) -> Result<
    Option<Seq<char>>,
    Seq<char>,
> {
    match field(json, key, position, fields) {
        Ok(Some(value)) => json_string(value),
        Ok(None) => Ok(None),
        Err(e) => Err(e),
    }
}

/// The card that its fields make up.
pub open spec fn proposal(
    front: Result<Seq<char>, Seq<char>>,
    back: Result<Seq<char>, Seq<char>>,
    rationale: Result<Option<Seq<char>>, Seq<char>>,
) -> Result<ProposalView, Seq<char>> {
    match (front, back, rationale) {
        (Ok(f), Ok(b), Ok(r)) => Ok(
            ProposalView { content: ContentView::Qa { front: f, back: b }, rationale: r },
        ),
        (Err(e), _, _) => Err(e),
        (_, Err(e), _) => Err(e),
        (_, _, Err(e)) => Err(e),
    }
}

/// The card that a JSON value describes: an object with its three fields, or an
/// array of them.
pub open spec fn card_in(item: Seq<char>) -> Result<ProposalView, Seq<char>> {
    proposal(
        required(item, "front"@, 0, 3),
        required(item, "back"@, 1, 3),
        optional(item, "rationale"@, 2, 3),
    )
}

/// The cards that some JSON values describe; the first that does not makes
/// all of them unusable.
pub open spec fn cards_among(items: Seq<Seq<char>>) -> Result<Seq<ProposalView>, Seq<char>>
    decreases items.len(),
{
    if items.len() == 0 {
        Ok(seq![])
    } else {
        match cards_among(items.drop_last()) {
            Ok(v) => match card_in(items.last()) {
                Ok(c) => Ok(v.push(c)),
                Err(e) => Err(e),
            },
            Err(e) => Err(e),
        }
    }
}

/// The cards that the model's answer describes.
pub open spec fn cards_in(content: Seq<char>) -> Result<Seq<ProposalView>, Seq<char>> {
    match field(content, "cards"@, 0, 1) {
        Ok(Some(list)) => match json_items(list) {
            Ok(items) => cards_among(items),
            Err(e) => Err(e),
        },
        Ok(None) => Err(missing("cards"@)),
        Err(e) => Err(e),
    }
}

/// The verdict that a word stands for.
pub open spec fn verdict_of(word: Seq<char>) -> Option<Verdict> {
    if word == "correct"@ {
        Some(Verdict::Correct)
    } else if word == "partial"@ {
        Some(Verdict::Partial)
    } else if word == "incorrect"@ {
        Some(Verdict::Incorrect)
    } else {
        None
    }
}

/// The grade that its fields make up.
pub open spec fn grade(
    verdict: Result<Seq<char>, Seq<char>>,
    explanation: Result<Seq<char>, Seq<char>>,
) -> Result<EvaluationView, Seq<char>> {
    match (verdict, explanation) {
        (Ok(w), Ok(x)) => match verdict_of(w) {
            Some(v) => Ok(EvaluationView { verdict: v, explanation: x }),
            None => Err("unknown verdict `"@ + w + "`"@),
        },
        (Err(e), _) => Err(e),
        (_, Err(e)) => Err(e),
    }
}

/// The grade that the model's answer describes.
pub open spec fn grade_in(content: Seq<char>) -> Result<EvaluationView, Seq<char>> {
    grade(required(content, "verdict"@, 0, 2), required(content, "explanation"@, 1, 2))
}

/// The model's answer inside a response body.
pub open spec fn content_in(body: Seq<char>) -> Result<Seq<char>, Seq<char>> {
    match field(body, "message"@, 0, 1) {
        Ok(Some(message)) => required(message, "content"@, 0, 1),
        Ok(None) => Err(missing("message"@)),
        Err(e) => Err(e),
    }
}

/// Whether a status comes and goes: too many requests, or a server that is not
/// up to it right now. An internal error is none of them: that is how a model
/// that cannot be loaded is answered.
pub open spec fn passing(status: u16) -> bool {
    status == 429 || 500 < status < 600
}

/// Whether a response says that this input is too long for the model.
pub open spec fn too_long(status: u16, body: Seq<char>) -> bool {
    status == 400 && find(body, "context length"@) is Some
}

/// What is said of a response without success.
pub open spec fn returned(status_line: Seq<char>, body: Seq<char>) -> Seq<char> {
    "ollama returned "@ + status_line + ": "@ + body
}

/// What is said where the request did not get through.
pub open spec fn request_failed(e: Seq<char>) -> Seq<char> {
    "ollama request failed: "@ + e
}

/// The body of a response without success; one that does not arrive counts as
/// empty.
pub open spec fn body_or_nothing(body: Result<Seq<char>, Seq<char>>) -> Seq<char> {
    match body {
        Ok(b) => b,
        Err(_) => seq![],
    }
}

/// What a response without success means: a status that comes and goes is
/// transient, with the wait that the server asks for; an input that is too long
/// is this input's; and any other is a matter of configuration.
pub open spec fn unsuccessful(
    status: u16,
    status_line: Seq<char>,
    retry_after: Option<Delay>,
    body: Seq<char>,
) -> LlmErrorView {
    let reason = returned(status_line, body);
    if passing(status) {
        LlmErrorView::Transient { reason, retry_after }
    } else if too_long(status, body) {
        LlmErrorView::BadInput { reason }
    } else {
        LlmErrorView::Config { reason }
    }
}

/// The body of a reply that can be used, or what went wrong. Without a response,
/// or where its body does not arrive, trying again can help.
pub open spec fn usable_body(reply: ReplyView) -> Result<Seq<char>, LlmErrorView> {
    match reply {
        ReplyView::Failed(e) => Err(
            LlmErrorView::Transient { reason: request_failed(e), retry_after: None },
        ),
        ReplyView::Received { status, status_line, retry_after, body } => if 200 <= status < 300 {
            match body {
                Ok(b) => Ok(b),
                Err(e) => Err(LlmErrorView::Transient { reason: request_failed(e), retry_after }),
            }
        } else {
            Err(unsuccessful(status, status_line, retry_after, body_or_nothing(body)))
        },
    }
}

/// A response that is not what the protocol asks for.
pub open spec fn unreadable_response(e: Seq<char>) -> LlmErrorView {
    LlmErrorView::BadInput { reason: "ollama response parse failed: "@ + e }
}

/// A model's answer that is not what was asked for.
pub open spec fn unreadable_content(e: Seq<char>) -> LlmErrorView {
    LlmErrorView::BadInput { reason: "ollama content parse failed: "@ + e }
}

/// The model's answer in a reply.
pub open spec fn answer_in(reply: ReplyView) -> Result<Seq<char>, LlmErrorView> {
    match usable_body(reply) {
        Ok(body) => match content_in(body) {
            Ok(content) => Ok(content),
            Err(e) => Err(unreadable_response(e)),
        },
        Err(e) => Err(e),
    }
}

/// The cards that a reply proposes.
pub open spec fn proposed_in(reply: ReplyView) -> Result<Seq<ProposalView>, LlmErrorView> {
    match answer_in(reply) {
        Ok(content) => match cards_in(content) {
            Ok(cards) => Ok(cards),
            Err(e) => Err(unreadable_content(e)),
        },
        Err(e) => Err(e),
    }
}

/// The grade that a reply gives.
pub open spec fn graded_in(reply: ReplyView) -> Result<EvaluationView, LlmErrorView> {
    match answer_in(reply) {
        Ok(content) => match grade_in(content) {
            Ok(g) => Ok(g),
            Err(e) => Err(unreadable_content(e)),
        },
        Err(e) => Err(e),
    }
}

/// The text inside a result, or the error.
pub open spec fn text_or_error(r: Result<String, LlmError>) -> Result<Seq<char>, LlmErrorView> {
    match r {
        Ok(s) => Ok(s@),
        Err(e) => Err(e@),
    }
}

/// The cards inside a result, or the error.
pub open spec fn proposals_or_error(r: Result<Vec<ProposedCard>, LlmError>) -> Result<
    Seq<ProposalView>,
    LlmErrorView,
> {
    match r {
        Ok(v) => Ok(proposal_views(v@)),
        Err(e) => Err(e@),
    }
}

/// The grade inside a result, or the error.
pub open spec fn grade_or_error(r: Result<EvaluationResult, LlmError>) -> Result<
    EvaluationView,
    LlmErrorView,
> {
    match r {
        Ok(g) => Ok(g@),
        Err(e) => Err(e@),
    }
}

// ---------- the code ----------

/// Where the chat endpoint of a server is.
pub fn chat_url(base_url: &str) -> (url: String)
    ensures
        url@ == chat_endpoint(base_url@),
{
    let chars = chars_of(base_url);
    let mut url = string_of(stripped_end(&chars, Class::Only('/')));
    url.append("/api/chat");
    url
}

fn two_messages(system: &str, user: String) -> (v: Vec<Message>)
    ensures
        message_views(v@) == dialogue(system@, user@),
{
    let mut v: Vec<Message> = Vec::new();
    v.push(Message { role: "system", content: system.to_string() });
    v.push(Message { role: "user", content: user });
    assert(message_views(v@) =~= dialogue(system@, user@));
    v
}

/// What is sent to have cards proposed for a chunk.
pub fn proposal_messages(chunk: &ChunkContext) -> (v: Vec<Message>)
    ensures
        message_views(v@) == dialogue(SYSTEM_PROMPT@, user_prompt(chunk@)),
{
    two_messages(SYSTEM_PROMPT, render_user(chunk))
}

/// What is sent to have an answer to a card graded. Only a question with an
/// answer can be; a cloze card is bad input.
pub fn evaluation_messages(card: &Card, answer: &str) -> (r: Result<Vec<Message>, LlmError>)
    ensures
        match (r, card@.content) {
            (Ok(v), ContentView::Qa { front, back }) => message_views(v@) == dialogue(
                EVALUATION_PROMPT@,
                answer_prompt(front, back, answer@),
            ),
            (Err(e), ContentView::Cloze { text: _, spans: _ }) => e@ == (LlmErrorView::BadInput {
                reason: "cloze cards are not graded by the model"@,
            }),
            _ => false,
        },
{
    match &card.content {
        CardContent::Qa { front, back } => {
            let user = render_answer(front.as_str(), back.as_str(), answer);
            Ok(two_messages(EVALUATION_PROMPT, user))
        },
        CardContent::Cloze { .. } => Err(
            LlmError::BadInput { reason: "cloze cards are not graded by the model".to_string() },
        ),
    }
}

fn missing_field(key: &str) -> (e: String)
    ensures
        e@ == missing(key@),
{
    let mut e = "missing field `".to_string();
    e.append(key);
    e.append("`");
    e
}

/// The text of a field that may not be null.
pub fn text_of_field(key: &str, value: Result<Option<String>, String>) -> (r: Result<
    String,
    String,
>)
    ensures
        result_view(r) == must_be_text(key@, option_result_view(value)),
{
    match value {
        Ok(Some(s)) => Ok(s),
        Ok(None) => {
            let mut e = "null in field `".to_string();
            e.append(key);
            e.append("`");
            Err(e)
        },
        Err(e) => Err(e),
    }
}

fn required_text(json: &str, key: &str, position: usize, fields: usize) -> (r: Result<
    String,
    String,
>)
    ensures
        result_view(r) == required(json@, key@, position as nat, fields as nat),
{
    match read_field(json, key, position, fields) {
        Ok(Some(value)) => text_of_field(key, json_text(value.as_str())),
        Ok(None) => Err(missing_field(key)),
        Err(e) => Err(e),
    }
}

fn optional_text(json: &str, key: &str, position: usize, fields: usize) -> (r: Result<
    Option<String>,
    String,
>)
    ensures
        option_result_view(r) == optional(json@, key@, position as nat, fields as nat),
{
    match read_field(json, key, position, fields) {
        Ok(Some(value)) => json_text(value.as_str()),
        Ok(None) => Ok(None),
        Err(e) => Err(e),
    }
}

/// The card that its fields make up.
pub fn proposed_card(
    front: Result<String, String>,
    back: Result<String, String>,
    rationale: Result<Option<String>, String>,
) -> (r: Result<ProposedCard, String>)
    ensures
        match r {
            Ok(c) => proposal(
                result_view(front),
                result_view(back),
                option_result_view(rationale),
            ) == Ok::<ProposalView, Seq<char>>(c@),
            Err(e) => proposal(
                result_view(front),
                result_view(back),
                option_result_view(rationale),
            ) == Err::<ProposalView, Seq<char>>(e@),
        },
{
    let front = match front {
        Ok(s) => s,
        Err(e) => {
            return Err(e);
        },
    };
    let back = match back {
        Ok(s) => s,
        Err(e) => {
            return Err(e);
        },
    };
    match rationale {
        Ok(rationale) => Ok(
            ProposedCard { content: CardContent::Qa { front, back }, rationale },
        ),
        Err(e) => Err(e),
    }
}

fn read_card(item: &str) -> (r: Result<ProposedCard, String>)
    ensures
        match r {
            Ok(c) => card_in(item@) == Ok::<ProposalView, Seq<char>>(c@),
            Err(e) => card_in(item@) == Err::<ProposalView, Seq<char>>(e@),
        },
{
    proposed_card(
        required_text(item, "front", 0, 3),
        required_text(item, "back", 1, 3),
        optional_text(item, "rationale", 2, 3),
    )
}

proof fn lemma_first_bad_card(items: Seq<Seq<char>>, n: int)
    requires
        0 <= n <= items.len(),
        cards_among(items.take(n)) is Err,
    ensures
        cards_among(items) == cards_among(items.take(n)),
    decreases items.len() - n,
{
    if n < items.len() {
        assert(items.take(n + 1).drop_last() =~= items.take(n));
        lemma_first_bad_card(items, n + 1);
    } else {
        assert(items.take(n) =~= items);
    }
}

/// Reads the cards that the model's answer describes.
pub fn read_cards(content: &str) -> (r: Result<Vec<ProposedCard>, String>)
    ensures
        match r {
            Ok(v) => cards_in(content@) == Ok::<Seq<ProposalView>, Seq<char>>(
                proposal_views(v@),
            ),
            Err(e) => cards_in(content@) == Err::<Seq<ProposalView>, Seq<char>>(e@),
        },
{
    let list = match read_field(content, "cards", 0, 1) {
        Ok(Some(list)) => list,
        Ok(None) => {
            return Err(missing_field("cards"));
        },
        Err(e) => {
            return Err(e);
        },
    };
    let items = match json_list(list.as_str()) {
        Ok(items) => items,
        Err(e) => {
            return Err(e);
        },
    };
    let ghost all = views(items@);
    let n = items.len();
    let mut out: Vec<ProposedCard> = Vec::new();
    assert(proposal_views(out@) =~= seq![]);
    for i in 0..n
        invariant
            n == items@.len(),
            all == views(items@),
            cards_in(content@) == cards_among(all),
            cards_among(all.take(i as int)) == Ok::<Seq<ProposalView>, Seq<char>>(
                proposal_views(out@),
            ),
    {
        assert(all.take(i + 1).drop_last() =~= all.take(i as int));
        match read_card(items[i].as_str()) {
            Ok(card) => {
                let ghost before = out@;
                out.push(card);
                assert(proposal_views(out@) =~= proposal_views(before).push(card@));
            },
            Err(e) => {
                proof {
                    lemma_first_bad_card(all, i + 1);
                }
                return Err(e);
            },
        }
    }
    assert(all.take(n as int) =~= all);
    Ok(out)
}

/// The verdict that a word stands for.
pub fn verdict_from_word(word: &str) -> (v: Option<Verdict>)
    ensures
        v == verdict_of(word@),
{
    if same(word, "correct") {
        Some(Verdict::Correct)
    } else if same(word, "partial") {
        Some(Verdict::Partial)
    } else if same(word, "incorrect") {
        Some(Verdict::Incorrect)
    } else {
        None
    }
}

/// The grade that its fields make up.
pub fn evaluation_from_fields(
    verdict: Result<String, String>,
    explanation: Result<String, String>,
) -> (r: Result<EvaluationResult, String>)
    ensures
        match r {
            Ok(g) => grade(result_view(verdict), result_view(explanation)) == Ok::<
                EvaluationView,
                Seq<char>,
            >(g@),
            Err(e) => grade(result_view(verdict), result_view(explanation)) == Err::<
                EvaluationView,
                Seq<char>,
            >(e@),
        },
{
    let word = match verdict {
        Ok(w) => w,
        Err(e) => {
            return Err(e);
        },
    };
    let explanation = match explanation {
        Ok(x) => x,
        Err(e) => {
            return Err(e);
        },
    };
    match verdict_from_word(word.as_str()) {
        Some(verdict) => Ok(EvaluationResult { verdict, explanation }),
        None => {
            let mut e = "unknown verdict `".to_string();
            e.append(word.as_str());
            e.append("`");
            Err(e)
        },
    }
}

/// Reads the grade that the model's answer describes.
pub fn read_evaluation(content: &str) -> (r: Result<EvaluationResult, String>)
    ensures
        match r {
            Ok(g) => grade_in(content@) == Ok::<EvaluationView, Seq<char>>(g@),
            Err(e) => grade_in(content@) == Err::<EvaluationView, Seq<char>>(e@),
        },
{
    evaluation_from_fields(
        required_text(content, "verdict", 0, 2),
        required_text(content, "explanation", 1, 2),
    )
}

fn read_content(body: &str) -> (r: Result<String, String>)
    ensures
        result_view(r) == content_in(body@),
{
    match read_field(body, "message", 0, 1) {
        Ok(Some(message)) => required_text(message.as_str(), "content", 0, 1),
        Ok(None) => Err(missing_field("message")),
        Err(e) => Err(e),
    }
}

fn bad_response(e: &str) -> (r: LlmError)
    ensures
        r@ == unreadable_response(e@),
{
    let mut reason = "ollama response parse failed: ".to_string();
    reason.append(e);
    LlmError::BadInput { reason }
}

fn bad_content(e: &str) -> (r: LlmError)
    ensures
        r@ == unreadable_content(e@),
{
    let mut reason = "ollama content parse failed: ".to_string();
    reason.append(e);
    LlmError::BadInput { reason }
}

/// The error of a request that did not get through.
fn failed_request(e: &str, retry_after: Option<Delay>) -> (r: LlmError)
    ensures
        r@ == (LlmErrorView::Transient { reason: request_failed(e@), retry_after }),
{
    let mut reason = "ollama request failed: ".to_string();
    reason.append(e);
    LlmError::Transient { reason, retry_after }
}

/// The error of a response without success.
fn error_of_status(
    status: u16,
    status_line: &str,
    retry_after: Option<Delay>,
    body: &str,
) -> (r: LlmError)
    ensures
        r@ == unsuccessful(status, status_line@, retry_after, body@),
{
    let mut reason = "ollama returned ".to_string();
    reason.append(status_line);
    reason.append(": ");
    reason.append(body);
    if status == 429 || (500 < status && status < 600) {
        return LlmError::Transient { reason, retry_after };
    }
    if status == 400 {
        let chars = chars_of(body);
        let words = chars_of("context length");
        if find_in(&chars, &words).is_some() {
            return LlmError::BadInput { reason };
        }
    }
    LlmError::Config { reason }
}

/// The body of a reply that can be used, or what went wrong.
pub fn body_of_reply(reply: Reply) -> (r: Result<String, LlmError>)
    ensures
        text_or_error(r) == usable_body(reply@),
{
    match reply {
        Reply::Failed(e) => Err(failed_request(e.as_str(), None)),
        Reply::Received { status, status_line, retry_after, body } => if 200 <= status && status
            < 300 {
            match body {
                Ok(b) => Ok(b),
                Err(e) => Err(failed_request(e.as_str(), retry_after)),
            }
        } else {
            let body = match body {
                Ok(b) => b,
                Err(_) => String::new(),
            };
            Err(error_of_status(status, status_line.as_str(), retry_after, body.as_str()))
        },
    }
}

/// The model's answer in a reply.
fn answer_of_reply(reply: Reply) -> (r: Result<String, LlmError>)
    ensures
        text_or_error(r) == answer_in(reply@),
{
    match body_of_reply(reply) {
        Ok(body) => match read_content(body.as_str()) {
            Ok(content) => Ok(content),
            Err(e) => Err(bad_response(e.as_str())),
        },
        Err(e) => Err(e),
    }
}

/// The cards that a reply proposes.
pub fn proposed_cards(reply: Reply) -> (r: Result<Vec<ProposedCard>, LlmError>)
    ensures
        proposals_or_error(r) == proposed_in(reply@),
{
    match answer_of_reply(reply) {
        Ok(content) => match read_cards(content.as_str()) {
            Ok(cards) => Ok(cards),
            Err(e) => Err(bad_content(e.as_str())),
        },
        Err(e) => Err(e),
    }
}

/// The grade that a reply gives.
pub fn evaluation(reply: Reply) -> (r: Result<EvaluationResult, LlmError>)
    ensures
        grade_or_error(r) == graded_in(reply@),
{
    match answer_of_reply(reply) {
        Ok(content) => match read_evaluation(content.as_str()) {
            Ok(g) => Ok(g),
            Err(e) => Err(bad_content(e.as_str())),
        },
        Err(e) => Err(e),
    }
}

// ---------- laws ----------

/// How a reply without cards is understood: without a response, or with one
/// whose body did not arrive, trying again can help; so it can where the server
/// is asked too much or is not up to it, and then the wait that the server asks
/// for goes with it; an input that is too long concerns this input alone; any
/// other status without success is a matter of configuration; and an answer that
/// cannot be read is this input's.
pub proof fn law_replies_without_cards(reply: ReplyView)
    requires
        proposed_in(reply) is Err,
    ensures
        ({
            let e = proposed_in(reply)->Err_0;
            match reply {
                ReplyView::Failed(_) => e is Transient,
                ReplyView::Received { status, status_line: _, retry_after, body } => {
                    &&& e matches LlmErrorView::Transient { reason: _, retry_after: w } ==> w
                        == retry_after
                    &&& e is Transient <==> if 200 <= status < 300 {
                        body is Err
                    } else {
                        status == 429 || 500 < status < 600
                    }
                    &&& !(200 <= status < 300) ==> (e is BadInput <==> too_long(
                        status,
                        body_or_nothing(body),
                    ))
                    &&& 200 <= status < 300 ==> !(e is Config)
                },
            }
        }),
{
}

/// Every card that is proposed is a question with an answer.
pub proof fn law_only_questions_are_proposed(items: Seq<Seq<char>>)
    ensures
        cards_among(items) matches Ok(cards) ==> cards.len() == items.len() && forall|i: int|
            0 <= i < cards.len() ==> (#[trigger] cards[i]).content is Qa,
    decreases items.len(),
{
    if items.len() > 0 {
        law_only_questions_are_proposed(items.drop_last());
    }
}

/// A model that returns an empty list of cards made no mistake.
pub proof fn law_no_cards_is_no_error(content: Seq<char>, list: Seq<char>)
    ensures
        field(content, "cards"@, 0, 1) == Ok::<Option<Seq<char>>, Seq<char>>(Some(list))
            && json_items(list) == Ok::<Seq<Seq<char>>, Seq<char>>(seq![]) ==> cards_in(content)
            == Ok::<Seq<ProposalView>, Seq<char>>(seq![]),
{
}

/// A response with success is used as it is; without success it tells the status
/// and the body, and without a response why there is none.
pub proof fn law_replies_are_told(
    status: u16,
    line: Seq<char>,
    wait: Option<Delay>,
    body: Seq<char>,
    e: Seq<char>,
)
    ensures
        ({
            let whole = ReplyView::Received {
                status,
                status_line: line,
                retry_after: wait,
                body: Ok(body),
            };
            let broken = ReplyView::Received {
                status,
                status_line: line,
                retry_after: wait,
                body: Err(e),
            };
            let told = "ollama returned "@ + line + ": "@ + body;
            let success = 200 <= status < 300;
            &&& success ==> usable_body(whole) == Ok::<Seq<char>, LlmErrorView>(body)
            &&& success ==> usable_body(broken) == Err::<Seq<char>, LlmErrorView>(
                LlmErrorView::Transient {
                    reason: "ollama request failed: "@ + e,
                    retry_after: wait,
                },
            )
            &&& status == 429 || 500 < status < 600 ==> usable_body(whole) == Err::<
                Seq<char>,
                LlmErrorView,
            >(LlmErrorView::Transient { reason: told, retry_after: wait })
            &&& status == 400 && find(body, "context length"@) is Some ==> usable_body(whole)
                == Err::<Seq<char>, LlmErrorView>(LlmErrorView::BadInput { reason: told })
            &&& status == 400 && find(body, "context length"@) is None ==> usable_body(whole)
                == Err::<Seq<char>, LlmErrorView>(LlmErrorView::Config { reason: told })
            &&& !success && status != 400 && status != 429 && !(500 < status < 600)
                ==> usable_body(whole) == Err::<Seq<char>, LlmErrorView>(
                LlmErrorView::Config { reason: told },
            )
            &&& usable_body(ReplyView::Failed(e)) == Err::<Seq<char>, LlmErrorView>(
                LlmErrorView::Transient {
                    reason: "ollama request failed: "@ + e,
                    retry_after: None,
                },
            )
        }),
{
}

/// A card has its question from the field `front`, its answer from `back`, and the
/// reason for it from `rationale`, which can be missing or null.
pub proof fn law_cards_have_their_fields(
    item: Seq<char>,
    f: Seq<char>,
    b: Seq<char>,
    front: Seq<char>,
    back: Seq<char>,
)
    requires
        field(item, "front"@, 0, 3) == Ok::<Option<Seq<char>>, Seq<char>>(Some(f)),
        field(item, "back"@, 1, 3) == Ok::<Option<Seq<char>>, Seq<char>>(Some(b)),
        json_string(f) == Ok::<Option<Seq<char>>, Seq<char>>(Some(front)),
        json_string(b) == Ok::<Option<Seq<char>>, Seq<char>>(Some(back)),
    ensures
        field(item, "rationale"@, 2, 3) == Ok::<Option<Seq<char>>, Seq<char>>(None) ==> card_in(
            item,
        ) == Ok::<ProposalView, Seq<char>>(
            ProposalView { content: ContentView::Qa { front, back }, rationale: None },
        ),
        forall|r: Seq<char>, rationale: Option<Seq<char>>|
            field(item, "rationale"@, 2, 3) == Ok::<Option<Seq<char>>, Seq<char>>(Some(r))
                && #[trigger] json_string(r) == Ok::<Option<Seq<char>>, Seq<char>>(rationale)
                ==> card_in(item) == Ok::<ProposalView, Seq<char>>(
                #[trigger] proposal_with(front, back, rationale),
            ),
{
}

/// A question with an answer and the reason for it.
pub open spec fn proposal_with(
    front: Seq<char>,
    back: Seq<char>,
    rationale: Option<Seq<char>>,
) -> ProposalView {
    ProposalView { content: ContentView::Qa { front, back }, rationale }
}

/// A card without its question or its answer is none, whichever else it has.
pub proof fn law_cards_need_both_sides(item: Seq<char>)
    ensures
        field(item, "front"@, 0, 3) == Ok::<Option<Seq<char>>, Seq<char>>(None) ==> card_in(item)
            == Err::<ProposalView, Seq<char>>("missing field `front`"@),
        required(item, "front"@, 0, 3) is Ok && field(item, "back"@, 1, 3) == Ok::<
            Option<Seq<char>>,
            Seq<char>,
        >(None) ==> card_in(item) == Err::<ProposalView, Seq<char>>("missing field `back`"@),
        card_in(item) is Ok ==> required(item, "front"@, 0, 3) is Ok && required(
            item,
            "back"@,
            1,
            3,
        ) is Ok,
{
    reveal_strlit("missing field `front`");
    reveal_strlit("missing field `back`");
    reveal_strlit("missing field `");
    reveal_strlit("front");
    reveal_strlit("back");
    reveal_strlit("`");
    assert(missing("front"@) =~= "missing field `front`"@);
    assert(missing("back"@) =~= "missing field `back`"@);
}

/// The cards come in the order in which the model lists them, each as it is
/// described; one that is not usable makes all of them so.
pub proof fn law_cards_come_in_order(items: Seq<Seq<char>>, i: int)
    requires
        0 <= i < items.len(),
    ensures
        match cards_among(items) {
            Ok(cards) => cards.len() == items.len() && card_in(items[i]) == Ok::<
                ProposalView,
                Seq<char>,
            >(cards[i]),
            Err(e) => exists|k: int|
                0 <= k < items.len() && #[trigger] card_in(items[k]) == Err::<
                    ProposalView,
                    Seq<char>,
                >(e),
        },
    decreases items.len(),
{
    let few = items.drop_last();
    let n = items.len() - 1;
    law_only_questions_are_proposed(few);
    if few.len() > 0 {
        law_cards_come_in_order(
            few,
            if i < n {
                i
            } else {
                0
            },
        );
    }
    match cards_among(few) {
        Ok(cards) => {
            if let Err(e) = card_in(items.last()) {
                assert(card_in(items[n]) == Err::<ProposalView, Seq<char>>(e));
            } else if i < n {
                assert(few[i] == items[i]);
            }
        },
        Err(e) => {
            assert(few.len() > 0);
            let k = choose|k: int|
                0 <= k < few.len() && #[trigger] card_in(few[k]) == Err::<
                    ProposalView,
                    Seq<char>,
                >(e);
            assert(card_in(items[k]) == Err::<ProposalView, Seq<char>>(e));
        },
    }
}

/// A grade has its verdict from the field `verdict`, by one of three words, and its
/// reason from `explanation`.
pub proof fn law_grades_have_their_fields(verdict: Seq<char>, explanation: Seq<char>)
    ensures
        grade(Ok("correct"@), Ok(explanation)) == Ok::<EvaluationView, Seq<char>>(
            EvaluationView { verdict: Verdict::Correct, explanation },
        ),
        grade(Ok("partial"@), Ok(explanation)) == Ok::<EvaluationView, Seq<char>>(
            EvaluationView { verdict: Verdict::Partial, explanation },
        ),
        grade(Ok("incorrect"@), Ok(explanation)) == Ok::<EvaluationView, Seq<char>>(
            EvaluationView { verdict: Verdict::Incorrect, explanation },
        ),
        verdict != "correct"@ && verdict != "partial"@ && verdict != "incorrect"@ ==> grade(
            Ok(verdict),
            Ok(explanation),
        ) == Err::<EvaluationView, Seq<char>>("unknown verdict `"@ + verdict + "`"@),
        grade_in(verdict) == grade(
            required(verdict, "verdict"@, 0, 2),
            required(verdict, "explanation"@, 1, 2),
        ),
{
    reveal_strlit("correct");
    reveal_strlit("partial");
    reveal_strlit("incorrect");
    assert("correct"@[0] == 'c' && "partial"@[0] == 'p' && "incorrect"@[0] == 'i');
}

/// What the model says stands in the field `content` of the field `message`, and
/// the cards in the field `cards` of that.
pub proof fn law_answers_stand_in_the_message(
    body: Seq<char>,
    message: Seq<char>,
    c: Seq<char>,
    content: Seq<char>,
    list: Seq<char>,
    items: Seq<Seq<char>>,
)
    requires
        field(body, "message"@, 0, 1) == Ok::<Option<Seq<char>>, Seq<char>>(Some(message)),
        field(message, "content"@, 0, 1) == Ok::<Option<Seq<char>>, Seq<char>>(Some(c)),
        json_string(c) == Ok::<Option<Seq<char>>, Seq<char>>(Some(content)),
    ensures
        ({
            let reply = |status: u16|
                ReplyView::Received {
                    status,
                    status_line: ""@,
                    retry_after: None,
                    body: Ok(body),
                };
            &&& answer_in(reply(200)) == Ok::<Seq<char>, LlmErrorView>(content)
            &&& field(content, "cards"@, 0, 1) == Ok::<Option<Seq<char>>, Seq<char>>(Some(list))
                && json_items(list) == Ok::<Seq<Seq<char>>, Seq<char>>(items) ==> {
                match cards_among(items) {
                    Ok(cards) => proposed_in(reply(200)) == Ok::<
                        Seq<ProposalView>,
                        LlmErrorView,
                    >(cards),
                    Err(e) => proposed_in(reply(200)) == Err::<Seq<ProposalView>, LlmErrorView>(
                        LlmErrorView::BadInput {
                            reason: "ollama content parse failed: "@ + e,
                        },
                    ),
                }
            }
            &&& match grade_in(content) {
                Ok(g) => graded_in(reply(200)) == Ok::<EvaluationView, LlmErrorView>(g),
                Err(e) => graded_in(reply(200)) == Err::<EvaluationView, LlmErrorView>(
                    LlmErrorView::BadInput { reason: "ollama content parse failed: "@ + e },
                ),
            }
        }),
{
}

/// A reply that gives no answer gives no grade and no cards, for the same reason.
pub proof fn law_no_answer_no_grade(reply: ReplyView)
    ensures
        answer_in(reply) matches Err(e) ==> proposed_in(reply) == Err::<
            Seq<ProposalView>,
            LlmErrorView,
        >(e) && graded_in(reply) == Err::<EvaluationView, LlmErrorView>(e),
        usable_body(reply) matches Err(e) ==> answer_in(reply) == Err::<Seq<char>, LlmErrorView>(
            e,
        ),
        usable_body(reply) matches Ok(body) ==> match content_in(body) {
            Ok(content) => answer_in(reply) == Ok::<Seq<char>, LlmErrorView>(content),
            Err(e) => answer_in(reply) == Err::<Seq<char>, LlmErrorView>(
                LlmErrorView::BadInput { reason: "ollama response parse failed: "@ + e },
            ),
        },
{
}

/// The model is told its task first and then what is asked, and is reached below
/// the server's URL, with slashes at its end or without.
pub proof fn law_requests_go_to_the_chat(base: Seq<char>, system: Seq<char>, user: Seq<char>)
    ensures
        dialogue(system, user).len() == 2,
        dialogue(system, user)[0] == (MessageView { role: "system"@, content: system }),
        dialogue(system, user)[1] == (MessageView { role: "user"@, content: user }),
        base.len() == 0 || base.last() != '/' ==> chat_endpoint(base) == base + "/api/chat"@,
        chat_endpoint(base.push('/')) == chat_endpoint(base),
{
    assert(base.take(base.len() as int) =~= base);
    crate::client::law_slashes_at_the_end_do_not_count(base);
}

/// To have cards proposed, the model is told how to write them and then the chunk;
/// to have an answer graded, how to grade it and then the question, the expected
/// answer and the student's. A cloze card is not graded by it.
pub proof fn law_sent_messages(
    chunk: &ChunkContext,
    card: &Card,
    answer: &str,
    v: Vec<Message>,
    r: Result<Vec<Message>, LlmError>,
)
    ensures
        call_ensures(proposal_messages, (chunk,), v) ==> message_views(v@) == seq![
            MessageView { role: "system"@, content: SYSTEM_PROMPT@ },
            MessageView { role: "user"@, content: user_prompt(chunk@) },
        ],
        call_ensures(evaluation_messages, (card, answer), r) ==> match card@.content {
            ContentView::Qa { front, back } => r matches Ok(ms) && message_views(ms@) == seq![
                MessageView { role: "system"@, content: EVALUATION_PROMPT@ },
                MessageView { role: "user"@, content: answer_prompt(front, back, answer@) },
            ],
            ContentView::Cloze { text: _, spans: _ } => r matches Err(e) && e@ is BadInput,
        },
{
}

/// What is read from a reply: the cards that it proposes, and the grade that it
/// gives.
pub proof fn law_read_replies(
    reply: Reply,
    cards: Result<Vec<ProposedCard>, LlmError>,
    g: Result<EvaluationResult, LlmError>,
)
    ensures
        call_ensures(proposed_cards, (reply,), cards) ==> proposals_or_error(cards) == proposed_in(
            reply@,
        ),
        call_ensures(evaluation, (reply,), g) ==> grade_or_error(g) == graded_in(reply@),
{
}

} // verus!
