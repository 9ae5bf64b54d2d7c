//! What is asked of a language model, and how its replies are understood.

pub mod json;
pub mod ollama;
pub mod prompt;
pub mod retry;

use vstd::prelude::*;

use crate::model::{copy_opt, copy_strings, opt_view, CardContent, ContentView, Verdict};
use crate::text::views;

verus! {

/// A length of time: whole seconds, and nanoseconds of a further second.
#[derive(Debug, Clone, Copy, PartialEq, Eq, Structural)]
pub struct Delay {
    pub secs: u64,
    pub nanos: u32,
}

/// Why a language model gave no usable reply, by what to do about it.
#[derive(Debug, PartialEq, Eq)]
pub enum LlmError {
    /// It comes and goes: trying again can help.
    Transient { reason: String, retry_after: Option<Delay> },
    /// It depends on this input: the next input may do.
    BadInput { reason: String },
    /// It will fail in the same way for every input.
    Config { reason: String },
}

/// A piece of a note, with where it came from.
#[derive(Debug, PartialEq, Eq)]
pub struct ChunkContext {
    pub source_file: String,
    pub source_heading: Option<String>,
    pub tags: Vec<String>,
    pub text: String,
}

/// A card that a language model proposes.
#[derive(Debug, PartialEq, Eq)]
pub struct ProposedCard {
    pub content: CardContent,
    pub rationale: Option<String>,
}

/// A language model's grade of an answer.
#[derive(Debug, PartialEq, Eq)]
pub struct EvaluationResult {
    pub verdict: Verdict,
    pub explanation: String,
}

// ---------- the model ----------

/// What an error of a language model is.
pub enum LlmErrorView {
    Transient { reason: Seq<char>, retry_after: Option<Delay> },
    BadInput { reason: Seq<char> },
    Config { reason: Seq<char> },
}

impl View for LlmError {
    type V = LlmErrorView;

    open spec fn view(&self) -> LlmErrorView {
        match *self {
            LlmError::Transient { reason, retry_after } => LlmErrorView::Transient {
                reason: reason@,
                retry_after,
            },
            LlmError::BadInput { reason } => LlmErrorView::BadInput { reason: reason@ },
            LlmError::Config { reason } => LlmErrorView::Config { reason: reason@ },
        }
    }
}

/// What a chunk is.
pub struct ChunkView {
    pub source_file: Seq<char>,
    pub source_heading: Option<Seq<char>>,
    pub tags: Seq<Seq<char>>,
    pub text: Seq<char>,
}

impl View for ChunkContext {
    type V = ChunkView;

    open spec fn view(&self) -> ChunkView {
        ChunkView {
            source_file: self.source_file@,
            source_heading: opt_view(self.source_heading),
            tags: views(self.tags@),
            text: self.text@,
        }
    }
}

/// The chunks of a list.
pub open spec fn chunk_views(v: Seq<ChunkContext>) -> Seq<ChunkView> {
    v.map_values(|c: ChunkContext| c@)
}

/// What a proposed card is.
pub struct ProposalView {
    pub content: ContentView,
    pub rationale: Option<Seq<char>>,
}

impl View for ProposedCard {
    type V = ProposalView;

    open spec fn view(&self) -> ProposalView {
        ProposalView { content: self.content@, rationale: opt_view(self.rationale) }
    }
}

/// The proposed cards of a list.
pub open spec fn proposal_views(v: Seq<ProposedCard>) -> Seq<ProposalView> {
    v.map_values(|p: ProposedCard| p@)
}

/// What a grade of an answer is.
pub struct EvaluationView {
    pub verdict: Verdict,
    pub explanation: Seq<char>,
}

impl View for EvaluationResult {
    type V = EvaluationView;

    open spec fn view(&self) -> EvaluationView {
        EvaluationView { verdict: self.verdict, explanation: self.explanation@ }
    }
}

// ---------- copies ----------

impl Clone for LlmError {
    fn clone(&self) -> (r: Self)
        ensures
            r@ == self@,
    {
        match self {
            LlmError::Transient { reason, retry_after } => LlmError::Transient {
                reason: reason.clone(),
                retry_after: *retry_after,
            },
            LlmError::BadInput { reason } => LlmError::BadInput { reason: reason.clone() },
            LlmError::Config { reason } => LlmError::Config { reason: reason.clone() },
        }
    }
}

impl Clone for ChunkContext {
    fn clone(&self) -> (r: Self)
        ensures
            r@ == self@,
    {
        ChunkContext {
            source_file: self.source_file.clone(),
            source_heading: copy_opt(&self.source_heading),
            tags: copy_strings(&self.tags),
            text: self.text.clone(),
        }
    }
}

impl Clone for ProposedCard {
    fn clone(&self) -> (r: Self)
        ensures
            r@ == self@,
    {
        ProposedCard { content: self.content.clone(), rationale: copy_opt(&self.rationale) }
    }
}

impl Clone for EvaluationResult {
    fn clone(&self) -> (r: Self)
        ensures
            r@ == self@,
    {
        EvaluationResult { verdict: self.verdict, explanation: self.explanation.clone() }
    }
}

} // verus!
