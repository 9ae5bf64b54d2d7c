//! Grading an answer before its rating.

use vstd::prelude::*;
use vstd::string::StringExecFns;

use crate::cloze::{fill, fill_of};
use crate::error::{AppError, ErrorView};
use crate::llm::{EvaluationResult, EvaluationView, LlmError, LlmErrorView};
use crate::model::{span_views, Card, CardContent, ClozeSpan, ContentView, SpanView, Verdict};
use crate::store::{store_failed, Repository};
use crate::text::{chars_of, same, string_of, trim, trimmed};
use crate::trusted::{lowercase, to_lowercase};
use crate::wire::{EvaluateRequest, EvaluateResponse};

verus! {

// ---------- the model ----------

/// An answer as far as it counts: without the white space around it, and in
/// lower case.
pub open spec fn normal(s: Seq<char>) -> Seq<char> {
    lowercase(trim(s))
}

/// Whether an answer is what one of the blanks hides.
pub open spec fn fills_a_blank(text: Seq<char>, spans: Seq<SpanView>, answer: Seq<char>) -> bool {
    exists|i: int|
        0 <= i < spans.len() && fill(text, #[trigger] spans[i]) is Some && normal(
            fill(text, spans[i]).unwrap(),
        ) == normal(answer)
}

/// The grade of an answer to a cloze card.
pub open spec fn cloze_grade(
    text: Seq<char>,
    spans: Seq<SpanView>,
    answer: Seq<char>,
) -> EvaluationView {
    if fills_a_blank(text, spans, answer) {
        EvaluationView { verdict: Verdict::Correct, explanation: "Matches the blank."@ }
    } else {
        EvaluationView { verdict: Verdict::Incorrect, explanation: "Full text: "@ + text }
    }
}

/// Whether a response says what a grade says, with the rating that the verdict
/// suggests.
pub open spec fn responds(r: EvaluateResponse, g: EvaluationView) -> bool {
    &&& r.verdict == g.verdict
    &&& r.explanation@ == g.explanation
    &&& r.suggested_rating == g.verdict.suggests()
}

/// What is answered where the model gave no grade: trying another time can
/// help, unless the model is misconfigured.
pub open spec fn no_grade(e: LlmErrorView) -> ErrorView {
    match e {
        LlmErrorView::Transient { reason, retry_after: _ } => unavailable(reason),
        LlmErrorView::BadInput { reason } => unavailable(reason),
        LlmErrorView::Config { reason } => ErrorView::Llm(reason),
    }
}

/// What is answered where the model cannot be used right now.
pub open spec fn unavailable(reason: Seq<char>) -> ErrorView {
    ErrorView::Unavailable("LLM evaluation unavailable: "@ + reason)
}

/// How an evaluation goes on.
#[derive(Debug)]
pub enum EvaluationStep {
    /// The answer is graded.
    Graded(EvaluateResponse),
    /// The model is to grade the answer to this card.
    AskModel(Card),
}

// ---------- the code ----------

/// An answer as far as it counts.
fn normalized(s: &str) -> (r: String)
    ensures
        r@ == normal(s@),
{
    let chars = chars_of(s);
    to_lowercase(string_of(trimmed(&chars)).as_str())
}

/// The response to a grade.
pub fn respond(g: EvaluationResult) -> (r: EvaluateResponse)
    ensures
        responds(r, g@),
{
    let suggested_rating = g.verdict.suggested_rating();
    EvaluateResponse { verdict: g.verdict, explanation: g.explanation, suggested_rating }
}

/// The grade of an answer to a cloze card; `matches` says whether it is what
/// one of the blanks hides.
pub fn cloze_result(matches: bool, text: &str) -> (g: EvaluationResult)
    ensures
        g@ == (if matches {
            EvaluationView { verdict: Verdict::Correct, explanation: "Matches the blank."@ }
        } else {
            EvaluationView { verdict: Verdict::Incorrect, explanation: "Full text: "@ + text@ }
        }),
{
    if matches {
        EvaluationResult {
            verdict: Verdict::Correct,
            explanation: "Matches the blank.".to_string(),
        }
    } else {
        let mut explanation = "Full text: ".to_string();
        explanation.append(text);
        EvaluationResult { verdict: Verdict::Incorrect, explanation }
    }
}

/// Grades an answer to a cloze card.
pub fn grade_cloze(text: &str, spans: &Vec<ClozeSpan>, answer: &str) -> (g: EvaluationResult)
    ensures
        g@ == cloze_grade(text@, span_views(spans@), answer@),
{
    let wanted = normalized(answer);
    let n = spans.len();
    let ghost all = span_views(spans@);
    let mut i: usize = 0;
    let mut found = false;
    while i < n && !found
        invariant
            n == spans@.len(),
            all == span_views(spans@),
            i <= n,
            wanted@ == normal(answer@),
            found ==> fills_a_blank(text@, all, answer@),
            !found ==> forall|k: int|
                0 <= k < i ==> !(fill(text@, #[trigger] all[k]) is Some && normal(
                    fill(text@, all[k]).unwrap(),
                ) == normal(answer@)),
        ensures
            found == fills_a_blank(text@, all, answer@),
        decreases n - i,
    {
        assert(all[i as int] == spans@[i as int]@);
        if let Some(f) = fill_of(text, &spans[i]) {
            if same(normalized(f.as_str()).as_str(), wanted.as_str()) {
                found = true;
            }
        }
        i = i + 1;
    }
    cloze_result(found, text)
}

/// Begins the grading of an answer: a cloze card is graded at once, for any
/// other the model is asked.
pub fn begin_evaluation<R: Repository>(store: &R, request: &EvaluateRequest) -> (r: Result<
    EvaluationStep,
    AppError,
>)
    requires
        store.contents().wf(),
    ensures
        match r {
            Ok(EvaluationStep::Graded(g)) => store.contents().cards.contains_key(request.card_id)
                && match store.contents().cards[request.card_id].content {
                ContentView::Cloze { text, spans } => responds(
                    g,
                    cloze_grade(text, spans, request.user_answer@),
                ),
                ContentView::Qa { front: _, back: _ } => false,
            },
            Ok(EvaluationStep::AskModel(card)) => store.contents().cards.contains_key(
                request.card_id,
            ) && card@ == store.contents().cards[request.card_id] && card@.content is Qa,
            Err(e) => store_failed(store.reliable(), e@) || (!store.contents().cards.contains_key(
                request.card_id,
            ) && e@ == ErrorView::NotFound),
        },
{
    match store.get_card(request.card_id) {
        Ok(card) => {
            if let CardContent::Cloze { text, spans } = &card.content {
                let g = grade_cloze(text.as_str(), spans, request.user_answer.as_str());
                return Ok(EvaluationStep::Graded(respond(g)));
            }
            Ok(EvaluationStep::AskModel(card))
        },
        Err(e) => Err(e),
    }
}

fn unavailable_error(reason: &str) -> (e: AppError)
    ensures
        e@ == unavailable(reason@),
{
    let mut message = "LLM evaluation unavailable: ".to_string();
    message.append(reason);
    AppError::Unavailable(message)
}

/// Concludes the grading of an answer with what came of asking the model.
pub fn conclude_evaluation(result: Result<EvaluationResult, LlmError>) -> (r: Result<
    EvaluateResponse,
    AppError,
>)
    ensures
        match (r, result) {
            (Ok(response), Ok(g)) => responds(response, g@),
            (Err(e), Err(cause)) => e@ == no_grade(cause@),
            _ => false,
        },
{
    match result {
        Ok(g) => Ok(respond(g)),
        Err(LlmError::Transient { reason, retry_after: _ }) => Err(
            unavailable_error(reason.as_str()),
        ),
        Err(LlmError::BadInput { reason }) => Err(unavailable_error(reason.as_str())),
        Err(LlmError::Config { reason }) => Err(AppError::Llm(reason)),
    }
}

// ---------- laws ----------

/// An answer is graded by what it says, not by its case or the white space
/// around it: answers that agree in that get the same grade.
pub proof fn law_case_and_space_do_not_count(
    text: Seq<char>,
    spans: Seq<SpanView>,
    a: Seq<char>,
    b: Seq<char>,
)
    ensures
        normal(a) == normal(b) ==> cloze_grade(text, spans, a) == cloze_grade(text, spans, b),
{
}

/// What a blank hides is the correct answer.
pub proof fn law_fill_is_correct(text: Seq<char>, spans: Seq<SpanView>, i: int)
    requires
        0 <= i < spans.len(),
        fill(text, spans[i]) is Some,
    ensures
        cloze_grade(text, spans, fill(text, spans[i]).unwrap()).verdict == Verdict::Correct,
{
}

/// A grade that fails for want of the model is answered 503, and 500 where the
/// model is misconfigured.
pub proof fn law_failed_grades_have_their_status(e: LlmErrorView)
    ensures
        no_grade(e).status() == (if e is Config {
            500u16
        } else {
            503u16
        }),
{
}

/// An answer to a cloze card is correct if it is what one of the blanks hides, but
/// for case and the white space around either, and incorrect otherwise; the
/// learner is shown the whole text then.
pub proof fn law_only_fills_are_correct(text: Seq<char>, spans: Seq<SpanView>, answer: Seq<char>)
    ensures
        ({
            let g = cloze_grade(text, spans, answer);
            let right = exists|i: int|
                0 <= i < spans.len() && (fill(text, #[trigger] spans[i]) matches Some(f)
                    && lowercase(trim(f)) == lowercase(trim(answer)));
            &&& right ==> g.verdict == Verdict::Correct && g.explanation == "Matches the blank."@
            &&& !right ==> g.verdict == Verdict::Incorrect && g.explanation == "Full text: "@
                + text
        }),
{
}

/// A verdict suggests the rating that goes with it: a correct answer that it went
/// well, a partial one that it was hard, and an incorrect one to start over.
pub proof fn law_verdicts_suggest_ratings(r: EvaluateResponse, g: EvaluationView)
    requires
        responds(r, g),
    ensures
        r.verdict == g.verdict,
        r.explanation@ == g.explanation,
        r.suggested_rating == crate::model::Rating::Good <==> g.verdict == Verdict::Correct,
        r.suggested_rating == crate::model::Rating::Hard <==> g.verdict == Verdict::Partial,
        r.suggested_rating == crate::model::Rating::Again <==> g.verdict == Verdict::Incorrect,
{
}

/// A grade that fails says why, in the model's own words.
pub proof fn law_failed_grades_say_why(e: LlmErrorView)
    ensures
        e matches LlmErrorView::Transient { reason, retry_after } ==> no_grade(e)
            == ErrorView::Unavailable("LLM evaluation unavailable: "@ + reason),
        e matches LlmErrorView::BadInput { reason } ==> no_grade(e) == ErrorView::Unavailable(
            "LLM evaluation unavailable: "@ + reason,
        ),
        e matches LlmErrorView::Config { reason } ==> no_grade(e) == ErrorView::Llm(reason),
{
}

/// A cloze card is graded without the model: an answer that is what a blank hides
/// is correct, and any other is not.
pub proof fn law_graded_cloze(
    text: &str,
    spans: &Vec<ClozeSpan>,
    answer: &str,
    g: EvaluationResult,
)
    requires
        call_ensures(grade_cloze, (text, spans, answer), g),
    ensures
        g.verdict == Verdict::Correct <==> exists|i: int|
            0 <= i < spans@.len() && (fill(text@, (#[trigger] spans@[i])@) matches Some(f)
                && lowercase(trim(f)) == lowercase(trim(answer@))),
        g.verdict == Verdict::Correct || g.verdict == Verdict::Incorrect,
        g.verdict == Verdict::Incorrect ==> g.explanation@ == "Full text: "@ + text@,
{
    let all = span_views(spans@);
    law_only_fills_are_correct(text@, all, answer@);
    if exists|i: int|
        0 <= i < spans@.len() && (fill(text@, (#[trigger] spans@[i])@) matches Some(f) && lowercase(
            trim(f),
        ) == lowercase(trim(answer@))) {
        let i = choose|i: int|
            0 <= i < spans@.len() && (fill(text@, (#[trigger] spans@[i])@) matches Some(f)
                && lowercase(trim(f)) == lowercase(trim(answer@)));
        assert(all[i] == spans@[i]@);
    }
    if exists|i: int|
        0 <= i < all.len() && (fill(text@, #[trigger] all[i]) matches Some(f) && lowercase(trim(f))
            == lowercase(trim(answer@))) {
        let i = choose|i: int|
            0 <= i < all.len() && (fill(text@, #[trigger] all[i]) matches Some(f) && lowercase(
                trim(f),
            ) == lowercase(trim(answer@)));
        assert(all[i] == spans@[i]@);
    }
}

/// An evaluation concludes with the model's grade and the rating that goes with it,
/// or with why there is none.
pub proof fn law_concluded_evaluation(
    result: Result<EvaluationResult, LlmError>,
    r: Result<EvaluateResponse, AppError>,
)
    requires
        call_ensures(conclude_evaluation, (result,), r),
    ensures
        result matches Ok(g) ==> (r matches Ok(response) && response.verdict == g.verdict
            && response.explanation@ == g.explanation@ && response.suggested_rating
            == g.verdict.suggests()),
        result matches Err(cause) ==> (r matches Err(e) && e@ == no_grade(cause@)),
{
}

/// An evaluation begins with the card that it is about: a cloze card is graded at
/// once, for a question the model is asked, and a card that is not known is not
/// found.
pub proof fn law_begun_evaluation<R: Repository>(
    store: &R,
    request: &EvaluateRequest,
    r: Result<EvaluationStep, AppError>,
)
    requires
        call_ensures(begin_evaluation::<R>, (store, request), r),
        store.reliable(),
    ensures
        !store.contents().cards.contains_key(request.card_id) ==> (r matches Err(e) && e@
            == ErrorView::NotFound),
        store.contents().cards.contains_key(request.card_id) ==> match store.contents(
        ).cards[request.card_id].content {
            ContentView::Cloze { text, spans } => r matches Ok(EvaluationStep::Graded(g))
                && responds(g, cloze_grade(text, spans, request.user_answer@)),
            ContentView::Qa { front: _, back: _ } => r matches Ok(EvaluationStep::AskModel(card))
                && card@ == store.contents().cards[request.card_id],
        },
{
}

} // verus!
