//! What the server does for each request.

pub mod auth;
pub mod evaluate;
pub mod ingest;

use vstd::prelude::*;

use crate::error::{AppError, ErrorView};
use crate::model::{
    card_views, Card, CardContent, CardId, CardStatus, CardView, ContentView, Rating, Review,
    Timestamp,
};
use crate::scheduler::{fresh_state, ReviewOutcome, Scheduler, SchedulerState};
use crate::store::{
    differ_in_cards, differ_in_log, differ_in_state, lists, store_failed, Repository, StoreView,
};
use crate::trusted::clock_time;
use crate::wire::{ReviewRequest, ReviewResponse};

verus! {

// ---------- the model ----------

/// The store after a card's acceptance: the card is accepted, its reviews start
/// afresh, and it is due at once.
pub open spec fn accepted(s: StoreView, id: CardId, now: Timestamp) -> Result<
    StoreView,
    ErrorView,
> {
    match s.with_status(id, CardStatus::Accepted) {
        Ok(after) => Ok(after.with_state(id, fresh_state(), now)),
        Err(e) => Err(e),
    }
}

/// What a failing store can be left with by an acceptance. The status comes
/// first: the review states are touched only once the card is accepted.
pub open spec fn half_accepted(before: StoreView, after: StoreView, id: CardId) -> bool {
    ||| differ_in_cards(before, after)
    ||| before.with_status(id, CardStatus::Accepted) matches Ok(moved) && differ_in_state(
        moved,
        after,
    )
}

/// The review that is logged.
pub open spec fn review_of(
    request: ReviewRequest,
    now: Timestamp,
    outcome: ReviewOutcome,
) -> Review {
    Review {
        card_id: request.card_id,
        reviewed_at: now,
        rating: request.rating,
        next_due: outcome.next_due,
    }
}

/// The store after a review with some outcome: the log has the review, and the
/// card's state and due date are those of the outcome.
pub open spec fn reviewed(
    s: StoreView,
    request: ReviewRequest,
    now: Timestamp,
    outcome: ReviewOutcome,
) -> StoreView {
    s.with_review(review_of(request, now, outcome)).with_state(
        request.card_id,
        outcome.state,
        outcome.next_due,
    )
}

/// What a failing store can be left with by a review with some outcome. The log
/// comes first: the review states are touched only once the review is logged.
pub open spec fn half_reviewed(
    before: StoreView,
    after: StoreView,
    request: ReviewRequest,
    now: Timestamp,
    outcome: ReviewOutcome,
) -> bool {
    ||| differ_in_log(before, after)
    ||| differ_in_state(before.with_review(review_of(request, now, outcome)), after)
}

/// Whether a scheduler can come to an outcome for a card that stands so, was
/// rated so, and is reviewed now.
pub open spec fn decided<S: Scheduler>(
    scheduler: &S,
    prior: SchedulerState,
    rating: Rating,
    now: Timestamp,
    outcome: ReviewOutcome,
) -> bool {
    call_ensures(S::on_review, (scheduler, prior, rating, now), outcome)
}

// ---------- the code ----------

/// Moves a card into the pool of cards to review, due at `now`.
pub fn accept_card<R: Repository>(store: &mut R, id: CardId, now: Timestamp) -> (r: Result<
    (),
    AppError,
>)
    requires
        old(store).contents().wf(),
    ensures
        final(store).contents().wf(),
        final(store).reliable() == old(store).reliable(),
        match r {
            Ok(_) => accepted(old(store).contents(), id, now) == Ok::<StoreView, ErrorView>(
                final(store).contents(),
            ),
            Err(e) => (store_failed(old(store).reliable(), e@) && half_accepted(
                old(store).contents(),
                final(store).contents(),
                id,
            )) || (accepted(old(store).contents(), id, now) == Err::<StoreView, ErrorView>(e@)
                && final(store).contents() == old(store).contents()),
        },
{
    match store.set_status(id, CardStatus::Accepted) {
        Ok(_) => store.save_state(id, SchedulerState::default(), now),
        Err(e) => Err(e),
    }
}

/// Moves a card into the pool of cards to review, due at once by the clock.
pub fn accept_card_now<R: Repository>(store: &mut R, id: CardId) -> (r: Result<(), AppError>)
    requires
        old(store).contents().wf(),
    ensures
        final(store).contents().wf(),
        final(store).reliable() == old(store).reliable(),
        match r {
            Ok(_) => exists|now: Timestamp|
                now.valid() && accepted(old(store).contents(), id, now) == Ok::<
                    StoreView,
                    ErrorView,
                >(final(store).contents()),
            Err(e) => (store_failed(old(store).reliable(), e@) && half_accepted(
                old(store).contents(),
                final(store).contents(),
                id,
            )) || (e@ == ErrorView::NotFound && !old(store).contents().cards.contains_key(id)
                && final(store).contents() == old(store).contents()),
        },
{
    let now = clock_time();
    accept_card(store, id, now)
}

/// Drops a card: it is marked, not deleted.
pub fn reject_card<R: Repository>(store: &mut R, id: CardId) -> (r: Result<(), AppError>)
    requires
        old(store).contents().wf(),
    ensures
        final(store).contents().wf(),
        final(store).reliable() == old(store).reliable(),
        match r {
            Ok(_) => old(store).contents().with_status(id, CardStatus::Rejected) == Ok::<
                StoreView,
                ErrorView,
            >(final(store).contents()),
            Err(e) => (store_failed(old(store).reliable(), e@) && differ_in_cards(
                old(store).contents(),
                final(store).contents(),
            )) || (old(store).contents().with_status(id, CardStatus::Rejected) == Err::<
                StoreView,
                ErrorView,
            >(e@) && final(store).contents() == old(store).contents()),
        },
{
    store.set_status(id, CardStatus::Rejected)
}

/// Replaces the content of a card that is still pending.
pub fn patch_card<R: Repository>(store: &mut R, id: CardId, content: CardContent) -> (r: Result<
    (),
    AppError,
>)
    requires
        old(store).contents().wf(),
    ensures
        final(store).contents().wf(),
        final(store).reliable() == old(store).reliable(),
        match r {
            Ok(_) => old(store).contents().with_content(id, content@) == Ok::<
                StoreView,
                ErrorView,
            >(final(store).contents()),
            Err(e) => (store_failed(old(store).reliable(), e@) && differ_in_cards(
                old(store).contents(),
                final(store).contents(),
            )) || (old(store).contents().with_content(id, content@) == Err::<
                StoreView,
                ErrorView,
            >(e@) && final(store).contents() == old(store).contents()),
        },
{
    store.update_content(id, content)
}

/// The cards that await curation.
pub fn cards_pending<R: Repository>(store: &R) -> (r: Result<Vec<Card>, AppError>)
    requires
        store.contents().wf(),
    ensures
        match r {
            Ok(v) => lists(
                card_views(v@),
                store.contents(),
                |id: CardId| store.contents().is_pending(id),
            ),
            Err(e) => store_failed(store.reliable(), e@),
        },
{
    store.list_pending()
}

/// The cards that are to be reviewed by the clock.
pub fn cards_due<R: Repository>(store: &R) -> (r: Result<Vec<Card>, AppError>)
    requires
        store.contents().wf(),
    ensures
        match r {
            Ok(v) => exists|now: Timestamp|
                now.valid() && #[trigger] lists_due(card_views(v@), store.contents(), now),
            Err(e) => store_failed(store.reliable(), e@),
        },
{
    let now = clock_time();
    match store.list_due(&now) {
        Ok(v) => {
            assert(lists_due(card_views(v@), store.contents(), now));
            Ok(v)
        },
        Err(e) => Err(e),
    }
}

/// Whether a list holds the cards that are to be reviewed at a time.
pub open spec fn lists_due(list: Seq<CardView>, store: StoreView, now: Timestamp) -> bool {
    lists(list, store, |id: CardId| store.is_due(id, now))
}

/// Records a review with its outcome: the log first, and then the card's state.
pub fn record_review<R: Repository>(
    store: &mut R,
    request: &ReviewRequest,
    now: Timestamp,
    outcome: ReviewOutcome,
) -> (r: Result<ReviewResponse, AppError>)
    requires
        old(store).contents().wf(),
    ensures
        final(store).contents().wf(),
        final(store).reliable() == old(store).reliable(),
        match r {
            Ok(response) => final(store).contents() == reviewed(
                old(store).contents(),
                *request,
                now,
                outcome,
            ) && response == (ReviewResponse {
                next_due: outcome.next_due,
                interval_days: outcome.state.interval_days,
            }),
            Err(e) => store_failed(old(store).reliable(), e@) && half_reviewed(
                old(store).contents(),
                final(store).contents(),
                *request,
                now,
                outcome,
            ),
        },
{
    let review = Review {
        card_id: request.card_id,
        reviewed_at: now,
        rating: request.rating,
        next_due: outcome.next_due,
    };
    if let Err(e) = store.save_review(&review) {
        return Err(e);
    }
    match store.save_state(request.card_id, outcome.state, outcome.next_due) {
        Ok(_) => Ok(
            ReviewResponse {
                next_due: outcome.next_due,
                interval_days: outcome.state.interval_days,
            },
        ),
        Err(e) => Err(e),
    }
}

/// Takes a review: the scheduler decides its outcome, which is recorded and
/// answered. A card that was never accepted has no reviews to go on from.
/// Nothing is written before the card's state has been read.
pub fn post_review<R: Repository, S: Scheduler>(
    store: &mut R,
    scheduler: &S,
    request: &ReviewRequest,
    now: Timestamp,
) -> (r: Result<ReviewResponse, AppError>)
    requires
        old(store).contents().wf(),
    ensures
        final(store).contents().wf(),
        final(store).reliable() == old(store).reliable(),
        match r {
            Ok(response) => old(store).contents().state.contains_key(request.card_id) && exists|
                outcome: ReviewOutcome,
            |
                decided(
                    scheduler,
                    old(store).contents().state[request.card_id].0,
                    request.rating,
                    now,
                    outcome,
                ) && final(store).contents() == #[trigger] reviewed(
                    old(store).contents(),
                    *request,
                    now,
                    outcome,
                ) && response == (ReviewResponse {
                    next_due: outcome.next_due,
                    interval_days: outcome.state.interval_days,
                }),
            Err(e) => {
                ||| e@ == ErrorView::NotFound && !old(store).contents().state.contains_key(
                    request.card_id,
                ) && final(store).contents() == old(store).contents()
                ||| store_failed(old(store).reliable(), e@) && final(store).contents() == old(
                    store,
                ).contents()
                ||| store_failed(old(store).reliable(), e@) && old(
                    store,
                ).contents().state.contains_key(request.card_id) && exists|outcome: ReviewOutcome|
                    decided(
                        scheduler,
                        old(store).contents().state[request.card_id].0,
                        request.rating,
                        now,
                        outcome,
                    ) && #[trigger] half_reviewed(
                        old(store).contents(),
                        final(store).contents(),
                        *request,
                        now,
                        outcome,
                    )
            },
        },
{
    match store.load_state(request.card_id) {
        Ok(prior) => {
            let outcome = scheduler.on_review(prior, request.rating, now);
            record_review(store, request, now, outcome)
        },
        Err(e) => Err(e),
    }
}

/// Takes a review at the time of the clock.
pub fn post_review_now<R: Repository, S: Scheduler>(
    store: &mut R,
    scheduler: &S,
    request: &ReviewRequest,
) -> (r: Result<ReviewResponse, AppError>)
    requires
        old(store).contents().wf(),
    ensures
        final(store).contents().wf(),
        final(store).reliable() == old(store).reliable(),
        match r {
            Ok(response) => old(store).contents().state.contains_key(request.card_id) && exists|
                now: Timestamp,
                outcome: ReviewOutcome,
            |
                now.valid() && decided(
                    scheduler,
                    old(store).contents().state[request.card_id].0,
                    request.rating,
                    now,
                    outcome,
                ) && final(store).contents() == #[trigger] reviewed(
                    old(store).contents(),
                    *request,
                    now,
                    outcome,
                ) && response == (ReviewResponse {
                    next_due: outcome.next_due,
                    interval_days: outcome.state.interval_days,
                }),
            Err(e) => {
                ||| e@ == ErrorView::NotFound && !old(store).contents().state.contains_key(
                    request.card_id,
                ) && final(store).contents() == old(store).contents()
                ||| store_failed(old(store).reliable(), e@) && final(store).contents() == old(
                    store,
                ).contents()
                ||| store_failed(old(store).reliable(), e@) && old(
                    store,
                ).contents().state.contains_key(request.card_id) && exists|
                    now: Timestamp,
                    outcome: ReviewOutcome,
                |
                    now.valid() && decided(
                        scheduler,
                        old(store).contents().state[request.card_id].0,
                        request.rating,
                        now,
                        outcome,
                    ) && #[trigger] half_reviewed(
                        old(store).contents(),
                        final(store).contents(),
                        *request,
                        now,
                        outcome,
                    )
            },
        },
{
    let now = clock_time();
    post_review(store, scheduler, request, now)
}

// ---------- laws ----------

/// From acceptance to review: an accepted card leaves curation and is due at
/// once; reviewed with a due date ahead, it leaves the cards to review until
/// that date; and the log has the review.
pub proof fn law_accept_then_review(
    s: StoreView,
    id: CardId,
    accepted_at: Timestamp,
    request: ReviewRequest,
    now: Timestamp,
    outcome: ReviewOutcome,
)
    requires
        s.cards.contains_key(id),
        accepted_at.at_or_before(now),
        request.card_id == id,
        !outcome.next_due.at_or_before(now),
    ensures
        accepted(s, id, accepted_at) matches Ok(a) && {
            let r = reviewed(a, request, now, outcome);
            &&& !a.is_pending(id)
            &&& a.is_due(id, now)
            &&& !r.is_due(id, now)
            &&& r.is_due(id, outcome.next_due)
            &&& r.reviews == s.reviews.push(
                Review {
                    card_id: id,
                    reviewed_at: now,
                    rating: request.rating,
                    next_due: outcome.next_due,
                },
            )
        },
{
}

/// A card rejected after its acceptance is neither pending nor due, ever, as
/// long as its status stays.
pub proof fn law_reject_after_accept(
    s: StoreView,
    id: CardId,
    accepted_at: Timestamp,
    now: Timestamp,
)
    requires
        s.cards.contains_key(id),
    ensures
        accepted(s, id, accepted_at) matches Ok(a) && (a.with_status(id, CardStatus::Rejected)
            matches Ok(after) && !after.is_due(id, now) && !after.is_pending(id)),
{
}

/// An accepted card can no longer be edited.
pub proof fn law_accepted_card_is_not_edited(
    s: StoreView,
    id: CardId,
    now: Timestamp,
    content: ContentView,
)
    requires
        s.cards.contains_key(id),
    ensures
        accepted(s, id, now) matches Ok(a) && (a.with_content(id, content) matches Err(e) && e
            is Conflict),
{
}

/// Accepting a card again starts its reviews afresh.
pub proof fn law_accepting_again_starts_afresh(s: StoreView, id: CardId, now: Timestamp)
    requires
        s.cards.contains_key(id),
    ensures
        accepted(s, id, now) matches Ok(a) && a.state[id] == (fresh_state(), now),
{
}

/// An acceptance changes the status and the review state of the card, and nothing
/// else in the store; only a card that is known can be accepted.
pub proof fn law_acceptance_changes_one_card(s: StoreView, id: CardId, now: Timestamp)
    ensures
        accepted(s, id, now) is Ok <==> s.cards.contains_key(id),
        accepted(s, id, now) matches Err(e) ==> e == ErrorView::NotFound,
        accepted(s, id, now) matches Ok(a) ==> {
            &&& a.cards[id] == (CardView { status: CardStatus::Accepted, ..s.cards[id] })
            &&& a.cards.remove(id) == s.cards.remove(id)
            &&& a.state.remove(id) == s.state.remove(id)
            &&& a.state.contains_key(id) && a.state[id].1 == now
            &&& a.reviews == s.reviews
        },
{
    if let Ok(a) = accepted(s, id, now) {
        assert(a.cards.remove(id) =~= s.cards.remove(id));
        assert(a.state.remove(id) =~= s.state.remove(id));
    }
}

/// A review changes the review state of the card that it is about, to what the
/// scheduler decided, and adds itself to the log; no card and no other state
/// changes.
pub proof fn law_review_changes_one_state(
    s: StoreView,
    request: ReviewRequest,
    now: Timestamp,
    outcome: ReviewOutcome,
)
    ensures
        ({
            let r = reviewed(s, request, now, outcome);
            let id = request.card_id;
            &&& r.cards == s.cards
            &&& r.state.contains_key(id) && r.state[id] == (outcome.state, outcome.next_due)
            &&& r.state.remove(id) == s.state.remove(id)
            &&& r.reviews.len() == s.reviews.len() + 1
            &&& s.reviews.is_prefix_of(r.reviews)
            &&& r.reviews.last().card_id == id
            &&& r.reviews.last().rating == request.rating
            &&& r.reviews.last().reviewed_at == now
            &&& r.reviews.last().next_due == outcome.next_due
        }),
{
    let r = reviewed(s, request, now, outcome);
    assert(r.state.remove(request.card_id) =~= s.state.remove(request.card_id));
    assert(s.reviews =~= r.reviews.take(s.reviews.len() as int));
}

/// A failed acceptance leaves the log alone and every card but perhaps the one
/// state that was being written; a failed review leaves the cards alone.
pub proof fn law_failures_leave_the_rest(
    before: StoreView,
    after: StoreView,
    id: CardId,
    request: ReviewRequest,
    now: Timestamp,
    outcome: ReviewOutcome,
)
    ensures
        half_accepted(before, after, id) ==> after.reviews == before.reviews && (after.state
            == before.state || (before.with_status(id, CardStatus::Accepted) matches Ok(moved)
            && after.cards == moved.cards)),
        half_reviewed(before, after, request, now, outcome) ==> after.cards == before.cards && (
        after.state == before.state || after.reviews == before.reviews.push(
            review_of(request, now, outcome),
        )),
{
}

/// A list of the cards to review at a time holds every card that is due then, and
/// no other.
pub proof fn law_due_lists_hold_what_is_due(
    list: Seq<CardView>,
    s: StoreView,
    now: Timestamp,
    id: CardId,
)
    requires
        s.wf(),
        lists_due(list, s, now),
        s.cards.contains_key(id),
    ensures
        list.contains(s.cards[id]) <==> s.is_due(id, now),
        list.no_duplicates(),
{
    crate::store::law_lists_hold_what_is_wanted(list, s, |id: CardId| s.is_due(id, now), id);
}

} // verus!
