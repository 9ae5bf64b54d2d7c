//! The paths of the endpoints that have no parameter.

use vstd::prelude::*;

verus! {

/// Takes a note.
pub const INGEST: &'static str = "/ingest";

/// Lists the cards that await curation.
pub const CARDS_PENDING: &'static str = "/cards/pending";

/// Lists the cards that are to be reviewed.
pub const CARDS_DUE: &'static str = "/cards/due";

/// Takes a review.
pub const REVIEWS: &'static str = "/reviews";

/// Grades an answer.
pub const REVIEWS_EVALUATE: &'static str = "/reviews/evaluate";

} // verus!
