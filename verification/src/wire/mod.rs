//! What requests and responses carry.

pub mod path;

use vstd::prelude::*;

use crate::model::{Card, CardContent, CardId, Rating, Timestamp, Verdict};

verus! {

/// The key of the message in the body of an error.
pub const ERROR_KEY: &'static str = "error";

/// A note to take in: its path in the vault, and its markdown.
#[derive(Debug, PartialEq, Eq)]
pub struct IngestRequest {
    pub source_file: String,
    pub content: String,
}

/// What became of a note, in counts.
#[derive(Debug, Clone, Copy, PartialEq, Eq, Structural)]
pub struct IngestResponse {
    pub chunks: usize,
    pub proposed_cards: usize,
    pub failed_chunks: usize,
    pub skipped_chunks: usize,
}

/// Some cards.
#[derive(Debug, PartialEq, Eq)]
pub struct CardsResponse {
    pub cards: Vec<Card>,
}

/// New content for a card.
#[derive(Debug, PartialEq, Eq)]
pub struct UpdateContentRequest {
    pub content: CardContent,
}

/// A review of a card.
#[derive(Debug, Clone, Copy, PartialEq, Eq, Structural)]
pub struct ReviewRequest {
    pub card_id: CardId,
    pub rating: Rating,
}

/// When a reviewed card comes up again.
#[derive(Debug, Clone, Copy, PartialEq, Eq, Structural)]
pub struct ReviewResponse {
    pub next_due: Timestamp,
    pub interval_days: u32,
}

/// An answer to grade.
#[derive(Debug, PartialEq, Eq)]
pub struct EvaluateRequest {
    pub card_id: CardId,
    pub user_answer: String,
}

/// The grade of an answer, and the rating that it suggests.
#[derive(Debug, PartialEq, Eq)]
pub struct EvaluateResponse {
    pub verdict: Verdict,
    pub explanation: String,
    pub suggested_rating: Rating,
}

} // verus!
