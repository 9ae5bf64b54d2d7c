//! Where cards, their review state and the review log are kept.

pub mod cards;
pub mod file;
pub mod memory;

use vstd::prelude::*;
use vstd::string::StringExecFns;

use crate::error::{AppError, ErrorView};
use crate::model::{
    card_views, uuid_text, Card, CardContent, CardId, CardStatus, CardView, ContentView, Review,
    Timestamp,
};
use crate::scheduler::{fresh_state, SchedulerState};
use crate::trusted::uuid_string;

pub use self::file::FileRepository;
pub use self::memory::InMemoryRepository;

verus! {

// ---------- the model ----------

/// What a store holds: the cards, how each card's reviews stand and when it is
/// due, and the log of reviews.
pub struct StoreView {
    pub cards: Map<CardId, CardView>,
    pub state: Map<CardId, (SchedulerState, Timestamp)>,
    pub reviews: Seq<Review>,
}

impl StoreView {
    /// A store that holds nothing.
    pub open spec fn empty() -> StoreView {
        StoreView { cards: Map::empty(), state: Map::empty(), reviews: seq![] }
    }

    /// Whether every card is kept under its own id.
    pub open spec fn wf(self) -> bool {
        forall|id: CardId| #[trigger]
            self.cards.contains_key(id) ==> self.cards[id].id == id
    }

    /// The store with some cards put in, each in place of one with its id.
    pub open spec fn with_cards(self, cards: Seq<CardView>) -> StoreView
        decreases cards.len(),
    {
        if cards.len() == 0 {
            self
        } else {
            let before = self.with_cards(cards.drop_last());
            StoreView { cards: before.cards.insert(cards.last().id, cards.last()), ..before }
        }
    }

    /// The store with a card's content replaced: only a card that is known and
    /// still pending can be edited.
    pub open spec fn with_content(self, id: CardId, content: ContentView) -> Result<
        StoreView,
        ErrorView,
    > {
        if !self.cards.contains_key(id) {
            Err(ErrorView::NotFound)
        } else if self.cards[id].status != CardStatus::Pending {
            Err(ErrorView::Conflict(not_pending(id)))
        } else {
            let card = CardView { content, ..self.cards[id] };
            Ok(StoreView { cards: self.cards.insert(id, card), ..self })
        }
    }

    /// The store with a card moved to another status.
    pub open spec fn with_status(self, id: CardId, status: CardStatus) -> Result<
        StoreView,
        ErrorView,
    > {
        if !self.cards.contains_key(id) {
            Err(ErrorView::NotFound)
        } else {
            let card = CardView { status, ..self.cards[id] };
            Ok(StoreView { cards: self.cards.insert(id, card), ..self })
        }
    }

    /// The store with a card's review state and due date replaced.
    pub open spec fn with_state(
        self,
        id: CardId,
        state: SchedulerState,
        next_due: Timestamp,
    ) -> StoreView {
        StoreView { state: self.state.insert(id, (state, next_due)), ..self }
    }

    /// The store with one review more in its log.
    pub open spec fn with_review(self, review: Review) -> StoreView {
        StoreView { reviews: self.reviews.push(review), ..self }
    }

    /// Whether a card awaits curation.
    pub open spec fn is_pending(self, id: CardId) -> bool {
        self.cards.contains_key(id) && self.cards[id].status == CardStatus::Pending
    }

    /// Whether a card is to be reviewed: it is accepted, and its due date is
    /// not later than now.
    pub open spec fn is_due(self, id: CardId, now: Timestamp) -> bool {
        &&& self.cards.contains_key(id)
        &&& self.cards[id].status == CardStatus::Accepted
        &&& self.state.contains_key(id)
        &&& self.state[id].1.at_or_before(now)
    }
}

/// Whether two stores differ at most in their cards.
pub open spec fn differ_in_cards(before: StoreView, after: StoreView) -> bool {
    after.state == before.state && after.reviews == before.reviews
}

/// Whether two stores differ at most in their review states.
pub open spec fn differ_in_state(before: StoreView, after: StoreView) -> bool {
    after.cards == before.cards && after.reviews == before.reviews
}

/// Whether two stores differ at most in their logs of reviews.
pub open spec fn differ_in_log(before: StoreView, after: StoreView) -> bool {
    after.cards == before.cards && after.state == before.state
}

/// What is said of an edit of a card that is no longer pending.
pub open spec fn not_pending(id: CardId) -> Seq<char> {
    "card "@ + uuid_text(id) + " is not pending"@
}

/// Whether a list holds the cards of a store with the wanted ids, each once.
pub open spec fn lists(
    list: Seq<CardView>,
    store: StoreView,
    wanted: spec_fn(CardId) -> bool,
) -> bool {
    &&& forall|i: int|
        0 <= i < list.len() ==> {
            let c = #[trigger] list[i];
            store.cards.contains_key(c.id) && store.cards[c.id] == c && wanted(c.id)
        }
    &&& forall|i: int, j: int|
        0 <= i < j < list.len() ==> (#[trigger] list[i]).id != (#[trigger] list[j]).id
    &&& forall|id: CardId| #[trigger]
        store.cards.contains_key(id) && wanted(id) ==> list.contains(store.cards[id])
}

/// Whether an error is a failure of the store itself: what it keeps cannot be
/// read or written.
pub open spec fn storage_failure(e: ErrorView) -> bool {
    e is Io
}

/// Whether an error is a failure of a store that can fail.
pub open spec fn store_failed(reliable: bool, e: ErrorView) -> bool {
    !reliable && storage_failure(e)
}

// ---------- the code ----------

/// A place to keep cards, their review states and the review log: three things
/// that are written apart. Unless the store is a reliable one, any of its
/// operations can fail for want of the store itself. What then became of the
/// thing that was being written is not known; the other two are as they were.
pub trait Repository {
    /// What the store holds.
    spec fn contents(&self) -> StoreView;

    /// Whether the store itself never fails.
    open spec fn reliable(&self) -> bool {
        false
    }

    /// Puts freshly proposed cards in, each in place of one with its id.
    fn save_pending(&mut self, cards: &Vec<Card>) -> (r: Result<(), AppError>)
        requires
            old(self).contents().wf(),
        ensures
            final(self).contents().wf(),
            final(self).reliable() == old(self).reliable(),
            match r {
                Ok(_) => final(self).contents() == old(self).contents().with_cards(
                    card_views(cards@),
                ),
                Err(e) => store_failed(old(self).reliable(), e@) && differ_in_cards(
                    old(self).contents(),
                    final(self).contents(),
                ),
            },
    ;

    /// The cards that await curation.
    fn list_pending(&self) -> (r: Result<Vec<Card>, AppError>)
        requires
            self.contents().wf(),
        ensures
            match r {
                Ok(v) => lists(
                    card_views(v@),
                    self.contents(),
                    |id: CardId| self.contents().is_pending(id),
                ),
                Err(e) => store_failed(self.reliable(), e@),
            },
    ;

    /// Replaces the content of a card that is still pending.
    fn update_content(&mut self, card: CardId, content: CardContent) -> (r: Result<(), AppError>)
        requires
            old(self).contents().wf(),
        ensures
            final(self).contents().wf(),
            final(self).reliable() == old(self).reliable(),
            match r {
                Ok(_) => old(self).contents().with_content(card, content@) == Ok::<
                    StoreView,
                    ErrorView,
                >(final(self).contents()),
                Err(e) => (store_failed(old(self).reliable(), e@) && differ_in_cards(
                    old(self).contents(),
                    final(self).contents(),
                )) || (old(self).contents().with_content(card, content@) == Err::<
                    StoreView,
                    ErrorView,
                >(e@) && final(self).contents() == old(self).contents()),
            },
    ;

    /// Moves a card to another status.
    fn set_status(&mut self, card: CardId, status: CardStatus) -> (r: Result<(), AppError>)
        requires
            old(self).contents().wf(),
        ensures
            final(self).contents().wf(),
            final(self).reliable() == old(self).reliable(),
            match r {
                Ok(_) => old(self).contents().with_status(card, status) == Ok::<
                    StoreView,
                    ErrorView,
                >(final(self).contents()),
                Err(e) => (store_failed(old(self).reliable(), e@) && differ_in_cards(
                    old(self).contents(),
                    final(self).contents(),
                )) || (old(self).contents().with_status(card, status) == Err::<
                    StoreView,
                    ErrorView,
                >(e@) && final(self).contents() == old(self).contents()),
            },
    ;

    /// The cards that are to be reviewed.
    fn list_due(&self, now: &Timestamp) -> (r: Result<Vec<Card>, AppError>)
        requires
            self.contents().wf(),
        ensures
            match r {
                Ok(v) => lists(
                    card_views(v@),
                    self.contents(),
                    |id: CardId| self.contents().is_due(id, *now),
                ),
                Err(e) => store_failed(self.reliable(), e@),
            },
    ;

    /// How a card's reviews stand.
    fn load_state(&self, card: CardId) -> (r: Result<SchedulerState, AppError>)
        requires
            self.contents().wf(),
        ensures
            match r {
                Ok(s) => self.contents().state.contains_key(card) && s == self.contents(
                ).state[card].0,
                Err(e) => store_failed(self.reliable(), e@) || (!self.contents().state.contains_key(
                    card,
                ) && e@ == ErrorView::NotFound),
            },
    ;

    /// Replaces how a card's reviews stand and when it is due.
    fn save_state(&mut self, card: CardId, state: SchedulerState, next_due: Timestamp) -> (r:
        Result<(), AppError>)
        requires
            old(self).contents().wf(),
        ensures
            final(self).contents().wf(),
            final(self).reliable() == old(self).reliable(),
            match r {
                Ok(_) => final(self).contents() == old(self).contents().with_state(
                    card,
                    state,
                    next_due,
                ),
                Err(e) => store_failed(old(self).reliable(), e@) && differ_in_state(
                    old(self).contents(),
                    final(self).contents(),
                ),
            },
    ;

    /// Appends a review to the log.
    fn save_review(&mut self, review: &Review) -> (r: Result<(), AppError>)
        requires
            old(self).contents().wf(),
        ensures
            final(self).contents().wf(),
            final(self).reliable() == old(self).reliable(),
            match r {
                Ok(_) => final(self).contents() == old(self).contents().with_review(*review),
                Err(e) => store_failed(old(self).reliable(), e@) && differ_in_log(
                    old(self).contents(),
                    final(self).contents(),
                ),
            },
    ;

    /// A card by its id.
    fn get_card(&self, card: CardId) -> (r: Result<Card, AppError>)
        requires
            self.contents().wf(),
        ensures
            match r {
                Ok(c) => self.contents().cards.contains_key(card) && c@ == self.contents(
                ).cards[card],
                Err(e) => store_failed(self.reliable(), e@) || (!self.contents().cards.contains_key(
                    card,
                ) && e@ == ErrorView::NotFound),
            },
    ;
}

/// The error of an edit of a card that is no longer pending.
pub fn not_pending_err(card: CardId) -> (e: AppError)
    ensures
        e@ == ErrorView::Conflict(not_pending(card)),
{
    let mut message = "card ".to_string();
    message.append(uuid_string(card).as_str());
    message.append(" is not pending");
    AppError::Conflict(message)
}

// ---------- laws ----------

proof fn lemma_with_cards(s: StoreView, cards: Seq<CardView>)
    ensures
        s.with_cards(cards).state == s.state,
        s.with_cards(cards).reviews == s.reviews,
        s.wf() ==> s.with_cards(cards).wf(),
        forall|id: CardId|
            s.with_cards(cards).cards.contains_key(id) <==> s.cards.contains_key(id) || exists|
                i: int,
            |
                0 <= i < cards.len() && (#[trigger] cards[i]).id == id,
        forall|id: CardId|
            (forall|i: int| 0 <= i < cards.len() ==> (#[trigger] cards[i]).id != id)
                && s.cards.contains_key(id) ==> s.with_cards(cards).cards[id] == s.cards[id],
    decreases cards.len(),
{
    if cards.len() > 0 {
        let few = cards.drop_last();
        lemma_with_cards(s, few);
        let before = s.with_cards(few);
        let now = s.with_cards(cards);
        assert forall|id: CardId|
            now.cards.contains_key(id) <==> s.cards.contains_key(id) || exists|i: int|
                0 <= i < cards.len() && (#[trigger] cards[i]).id == id by {
            assert(before.cards.contains_key(id) <==> (s.cards.contains_key(id) || exists|i: int|
                0 <= i < few.len() && (#[trigger] few[i]).id == id));
            assert(cards[cards.len() - 1] == cards.last());
            if exists|i: int| 0 <= i < few.len() && (#[trigger] few[i]).id == id {
                let i = choose|i: int| 0 <= i < few.len() && (#[trigger] few[i]).id == id;
                assert(cards[i].id == id);
            }
            if exists|i: int| 0 <= i < cards.len() && (#[trigger] cards[i]).id == id {
                let i = choose|i: int| 0 <= i < cards.len() && (#[trigger] cards[i]).id == id;
                if i < few.len() {
                    assert(few[i].id == id);
                }
            }
        }
        assert forall|id: CardId|
            (forall|i: int| 0 <= i < cards.len() ==> (#[trigger] cards[i]).id != id)
                && s.cards.contains_key(id) implies now.cards[id] == s.cards[id] by {
            assert(cards[cards.len() - 1].id != id);
            assert forall|i: int| 0 <= i < few.len() implies (#[trigger] few[i]).id != id by {
                assert(cards[i].id != id);
            }
            assert(before.cards[id] == s.cards[id]);
        }
    }
}

/// A failure of the store is the server's own, and answered so.
pub proof fn law_store_failures_are_internal_errors(reliable: bool, e: ErrorView)
    requires
        store_failed(reliable, e),
    ensures
        e.status() == 500,
{
}

/// Cards that are put in are found again; the others, the review states and
/// the log stay as they were.
pub proof fn law_saved_cards_are_kept(s: StoreView, cards: Seq<CardView>, i: int)
    requires
        0 <= i < cards.len(),
        forall|a: int, b: int|
            0 <= a < b < cards.len() ==> (#[trigger] cards[a]).id != (#[trigger] cards[b]).id,
    ensures
        ({
            let now = s.with_cards(cards);
            &&& now.cards.contains_key(cards[i].id)
            &&& now.cards[cards[i].id] == cards[i]
            &&& now.state == s.state
            &&& now.reviews == s.reviews
            &&& forall|id: CardId|
                s.cards.contains_key(id) && (forall|k: int|
                    0 <= k < cards.len() ==> (#[trigger] cards[k]).id != id) ==> now.cards[id]
                    == s.cards[id]
        }),
    decreases cards.len(),
{
    lemma_with_cards(s, cards);
    let few = cards.drop_last();
    if i < few.len() {
        assert forall|a: int, b: int| 0 <= a < b < few.len() implies (#[trigger] few[a]).id != (
        #[trigger] few[b]).id by {
            assert(few[a] == cards[a] && few[b] == cards[b]);
        }
        law_saved_cards_are_kept(s, few, i);
        assert(few[i] == cards[i]);
        assert(cards[i].id != cards[cards.len() - 1].id);
    }
}

/// Only a card that awaits curation can be edited, and an edit changes nothing
/// but its content.
pub proof fn law_only_pending_cards_are_edited(s: StoreView, id: CardId, content: ContentView)
    ensures
        s.with_content(id, content) is Ok <==> s.is_pending(id),
        s.with_content(id, content) matches Ok(now) ==> {
            &&& now.is_pending(id)
            &&& now.cards[id] == (CardView { content, ..s.cards[id] })
            &&& now.cards.remove(id) == s.cards.remove(id)
            &&& now.state == s.state
            &&& now.reviews == s.reviews
        },
{
    if let Ok(now) = s.with_content(id, content) {
        assert(now.cards.remove(id) =~= s.cards.remove(id));
    }
}

/// A card that is not accepted is not due, whatever its review state says: a
/// card rejected after its acceptance does not come up again.
pub proof fn law_only_accepted_cards_are_due(
    s: StoreView,
    id: CardId,
    status: CardStatus,
    now: Timestamp,
)
    requires
        status != CardStatus::Accepted,
    ensures
        s.with_status(id, status) matches Ok(after) ==> !after.is_due(id, now),
{
}

/// A card leaves curation with its acceptance or rejection, and a move to
/// another status changes no other card.
pub proof fn law_status_moves_one_card(s: StoreView, id: CardId, status: CardStatus)
    ensures
        s.with_status(id, status) is Ok <==> s.cards.contains_key(id),
        s.with_status(id, status) matches Ok(after) ==> {
            &&& after.is_pending(id) <==> status == CardStatus::Pending
            &&& after.cards[id] == (CardView { status, ..s.cards[id] })
            &&& after.cards.remove(id) == s.cards.remove(id)
            &&& after.state == s.state
            &&& after.reviews == s.reviews
        },
{
    if let Ok(after) = s.with_status(id, status) {
        assert(after.cards.remove(id) =~= s.cards.remove(id));
    }
}

/// An accepted card is due at once.
pub proof fn law_accepted_card_is_due(
    s: StoreView,
    id: CardId,
    accepted_at: Timestamp,
    now: Timestamp,
)
    requires
        accepted_at.at_or_before(now),
    ensures
        s.with_status(id, CardStatus::Accepted) matches Ok(after) ==> after.with_state(
            id,
            fresh_state(),
            accepted_at,
        ).is_due(id, now),
{
}

/// A card without a review state is never due.
pub proof fn law_card_without_state_is_not_due(s: StoreView, id: CardId, now: Timestamp)
    requires
        !s.state.contains_key(id),
    ensures
        !s.is_due(id, now),
{
}

/// A review state that is put in is found again, and no other changes.
pub proof fn law_saved_state_is_kept(
    s: StoreView,
    id: CardId,
    state: SchedulerState,
    next_due: Timestamp,
)
    ensures
        ({
            let after = s.with_state(id, state, next_due);
            &&& after.state.contains_key(id)
            &&& after.state[id] == (state, next_due)
            &&& after.state.remove(id) == s.state.remove(id)
            &&& after.cards == s.cards
            &&& after.reviews == s.reviews
        }),
{
    let after = s.with_state(id, state, next_due);
    assert(after.state.remove(id) =~= s.state.remove(id));
}

/// The log only grows: a review goes to its end, and nothing else touches it.
pub proof fn law_log_only_grows(
    s: StoreView,
    review: Review,
    cards: Seq<CardView>,
    id: CardId,
    content: ContentView,
    status: CardStatus,
    state: SchedulerState,
    due: Timestamp,
)
    ensures
        s.reviews.is_prefix_of(s.with_review(review).reviews),
        s.with_review(review).reviews.last() == review,
        s.with_review(review).reviews.len() == s.reviews.len() + 1,
        s.with_cards(cards).reviews == s.reviews,
        s.with_content(id, content) matches Ok(after) ==> after.reviews == s.reviews,
        s.with_status(id, status) matches Ok(after) ==> after.reviews == s.reviews,
        s.with_state(id, state, due).reviews == s.reviews,
{
    lemma_with_cards(s, cards);
}

/// Every card stays under its own id, whatever is done to the store.
pub proof fn law_cards_stay_under_their_ids(
    s: StoreView,
    cards: Seq<CardView>,
    id: CardId,
    content: ContentView,
    status: CardStatus,
    state: SchedulerState,
    due: Timestamp,
    review: Review,
)
    requires
        s.wf(),
    ensures
        s.with_cards(cards).wf(),
        s.with_content(id, content) matches Ok(after) ==> after.wf(),
        s.with_status(id, status) matches Ok(after) ==> after.wf(),
        s.with_state(id, state, due).wf(),
        s.with_review(review).wf(),
{
    lemma_with_cards(s, cards);
}

/// No card is ever deleted, and none loses its anchor: whatever is done, a card
/// that was in the store is in it still, and an edit or another status leaves
/// its note, its heading, its tags and its time as they were.
pub proof fn law_cards_and_anchors_stay(
    s: StoreView,
    kept: CardId,
    cards: Seq<CardView>,
    id: CardId,
    content: ContentView,
    status: CardStatus,
    state: SchedulerState,
    due: Timestamp,
    review: Review,
)
    requires
        s.cards.contains_key(kept),
    ensures
        s.with_cards(cards).cards.contains_key(kept),
        s.with_content(id, content) matches Ok(after) ==> keeps_anchor(s, after, kept),
        s.with_status(id, status) matches Ok(after) ==> keeps_anchor(s, after, kept),
        s.with_state(id, state, due).cards == s.cards,
        s.with_review(review).cards == s.cards,
{
    lemma_with_cards(s, cards);
}

/// Whether a card is still there, with the same id, note, heading, tags and
/// time.
pub open spec fn keeps_anchor(before: StoreView, after: StoreView, id: CardId) -> bool {
    &&& after.cards.contains_key(id)
    &&& after.cards[id].id == before.cards[id].id
    &&& after.cards[id].source_file == before.cards[id].source_file
    &&& after.cards[id].source_heading == before.cards[id].source_heading
    &&& after.cards[id].tags == before.cards[id].tags
    &&& after.cards[id].created_at == before.cards[id].created_at
}

/// Of cards with the same id, the one that is put in last is kept.
pub proof fn law_last_card_wins(s: StoreView, cards: Seq<CardView>, card: CardView)
    ensures
        s.with_cards(seq![]) == s,
        s.with_cards(cards.push(card)).cards == s.with_cards(cards).cards.insert(card.id, card),
        s.with_cards(cards.push(card)).cards[card.id] == card,
{
    assert(cards.push(card).drop_last() =~= cards);
}

/// A list of cards holds all that are wanted, no other, and none twice, each as
/// the store has it.
pub proof fn law_lists_hold_what_is_wanted(
    list: Seq<CardView>,
    s: StoreView,
    wanted: spec_fn(CardId) -> bool,
    id: CardId,
)
    requires
        s.wf(),
        lists(list, s, wanted),
        s.cards.contains_key(id),
    ensures
        list.contains(s.cards[id]) <==> wanted(id),
        list.no_duplicates(),
        forall|i: int| 0 <= i < list.len() ==> s.cards.contains_value(#[trigger] list[i]),
{
    if list.contains(s.cards[id]) {
        let i = choose|i: int| 0 <= i < list.len() && list[i] == s.cards[id];
        assert(wanted(list[i].id));
    }
    assert forall|i: int, j: int| 0 <= i < list.len() && 0 <= j < list.len() && i
        != j implies list[i] != list[j] by {
        if i < j {
            assert(list[i].id != list[j].id);
        } else {
            assert(list[j].id != list[i].id);
        }
    }
    assert forall|i: int| 0 <= i < list.len() implies s.cards.contains_value(
        #[trigger] list[i],
    ) by {
        assert(s.cards.contains_key(list[i].id) && s.cards[list[i].id] == list[i]);
    }
}

/// A card awaits curation while it is pending; it is to be reviewed from its due
/// date on, that instant included, while it is accepted.
pub proof fn law_status_and_date_decide(s: StoreView, id: CardId, now: Timestamp)
    requires
        s.cards.contains_key(id),
    ensures
        s.is_pending(id) <==> s.cards[id].status == CardStatus::Pending,
        s.state.contains_key(id) && s.cards[id].status == CardStatus::Accepted ==> {
            &&& s.is_due(id, s.state[id].1)
            &&& s.is_due(id, now) <==> s.state[id].1.at_or_before(now)
        },
{
}

/// An edit is refused with the reason: a card that is not known is not found, and
/// one that no longer awaits curation is named.
pub proof fn law_refused_edits_say_why(s: StoreView, id: CardId, content: ContentView)
    ensures
        s.with_content(id, content) matches Err(e) ==> {
            &&& !s.cards.contains_key(id) ==> e == ErrorView::NotFound
            &&& s.cards.contains_key(id) ==> e == ErrorView::Conflict(
                "card "@ + uuid_text(id) + " is not pending"@,
            )
        },
{
}

} // verus!
