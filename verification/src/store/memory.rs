//! A store in memory.

use std::collections::HashMap;

use vstd::prelude::*;
use vstd::std_specs::hash::group_hash_axioms;
use vstd::std_specs::iter::IteratorSpec;

use crate::error::{AppError, ErrorView};
use crate::model::{
    card_views, Card, CardContent, CardId, CardStatus, CardView, Review, Timestamp,
};
use crate::scheduler::SchedulerState;
use crate::store::{lists, not_pending_err, Repository, StoreView};

verus! {

broadcast use group_hash_axioms;

/// A store in memory; what it holds is gone with the process.
pub struct InMemoryRepository {
    cards: HashMap<CardId, Card>,
    state: HashMap<CardId, (SchedulerState, Timestamp)>,
    reviews: Vec<Review>,
}

impl View for InMemoryRepository {
    type V = StoreView;

    closed spec fn view(&self) -> StoreView {
        StoreView {
            cards: self.cards@.map_values(|c: Card| c@),
            state: self.state@,
            reviews: self.reviews@,
        }
    }
}

impl InMemoryRepository {
    /// A store that holds nothing.
    pub fn new() -> (r: Self)
        ensures
            r@ == StoreView::empty(),
            r@.wf(),
    {
        let r = InMemoryRepository {
            cards: HashMap::new(),
            state: HashMap::new(),
            reviews: Vec::new(),
        };
        assert(r@.cards =~= Map::empty());
        assert(r@.reviews =~= seq![]);
        r
    }

    /// Puts cards in, each in place of one with its id.
    fn put_cards(&mut self, cards: &Vec<Card>)
        requires
            old(self)@.wf(),
        ensures
            final(self)@ == old(self)@.with_cards(card_views(cards@)),
            final(self)@.wf(),
    {
        let n = cards.len();
        let ghost all = card_views(cards@);
        assert(all.take(0) =~= seq![]);
        for i in 0..n
            invariant
                n == cards@.len(),
                all == card_views(cards@),
                self@ == old(self)@.with_cards(all.take(i as int)),
                self@.wf(),
        {
            let ghost before = self@;
            let card = cards[i].clone();
            self.cards.insert(card.id, card);
            assert(all.take(i + 1).drop_last() =~= all.take(i as int));
            assert(self@.cards =~= before.cards.insert(card.id, card@));
        }
        assert(all.take(n as int) =~= all);
    }
}

/// The keys of a map.
fn keys_of<V>(m: &HashMap<CardId, V>) -> (ks: Vec<CardId>)
    ensures
        ks@.no_duplicates(),
        forall|k: CardId| ks@.contains(k) <==> m@.contains_key(k),
{
    let mut ks: Vec<CardId> = Vec::new();
    for k in it: m.keys()
        invariant
            ks@.len() == it.index(),
            forall|i: int| 0 <= i < ks@.len() ==> ks@[i] == *it.seq()[i],
    {
        ks.push(*k);
    }
    let ghost seen = vstd::std_specs::hash::spec_keys_iter(m).remaining();
    assert(ks@ =~= seen.unref());
    assert forall|k: CardId| ks@.contains(k) <==> m@.contains_key(k) by {
        assert(ks@.to_set().contains(k) <==> m@.dom().contains(k));
    }
    assert forall|i: int, j: int| 0 <= i < ks@.len() && 0 <= j < ks@.len() && i != j implies ks@[i]
        != ks@[j] by {
        assert(*seen[i] != *seen[j]);
    }
    ks
}

proof fn lemma_one_more(ks: Seq<CardId>, i: int, id: CardId)
    requires
        0 <= i < ks.len(),
        ks.no_duplicates(),
    ensures
        ks.take(i + 1).contains(id) <==> ks.take(i).contains(id) || id == ks[i],
        !ks.take(i).contains(ks[i]),
{
    let more = ks.take(i + 1);
    let few = ks.take(i);
    assert(more[i] == ks[i]);
    if more.contains(id) && id != ks[i] {
        let k = choose|k: int| 0 <= k < more.len() && more[k] == id;
        assert(few[k] == id);
    }
    if few.contains(id) {
        let k = choose|k: int| 0 <= k < few.len() && few[k] == id;
        assert(more[k] == id);
    }
}

impl InMemoryRepository {
    /// The ids of the cards that await curation.
    fn pending_ids(&self) -> (ids: Vec<CardId>)
        ensures
            ids@.no_duplicates(),
            forall|id: CardId| ids@.contains(id) <==> self@.is_pending(id),
    {
        let ks = keys_of(&self.cards);
        let n = ks.len();
        let mut ids: Vec<CardId> = Vec::new();
        assert(ks@.take(0) =~= seq![]);
        for i in 0..n
            invariant
                n == ks@.len(),
                ks@.no_duplicates(),
                forall|k: CardId| ks@.contains(k) <==> self.cards@.contains_key(k),
                ids@.no_duplicates(),
                forall|id: CardId|
                    ids@.contains(id) <==> ks@.take(i as int).contains(id) && self@.is_pending(id),
        {
            let k = ks[i];
            let ghost before = ids@;
            assert(ks@.contains(k));
            proof {
                assert forall|id: CardId|
                    ks@.take(i + 1).contains(id) <==> ks@.take(i as int).contains(id) || id
                        == k by {
                    lemma_one_more(ks@, i as int, id);
                }
                lemma_one_more(ks@, i as int, k);
            }
            let wanted = match self.cards.get(&k) {
                Some(card) => card.status == CardStatus::Pending,
                None => false,
            };
            assert(wanted == self@.is_pending(k));
            if wanted {
                ids.push(k);
                proof {
                    lemma_pushed(before, k);
                }
            }
            assert forall|id: CardId|
                ids@.contains(id) <==> ks@.take(i + 1).contains(id) && self@.is_pending(id) by {
                assert(before.contains(id) <==> ks@.take(i as int).contains(id)
                    && self@.is_pending(id));
            }
        }
        assert(ks@.take(n as int) =~= ks@);
        ids
    }

    /// The ids of the cards that are to be reviewed.
    fn due_ids(&self, now: &Timestamp) -> (ids: Vec<CardId>)
        ensures
            ids@.no_duplicates(),
            forall|id: CardId| ids@.contains(id) <==> self@.is_due(id, *now),
    {
        let ks = keys_of(&self.state);
        let n = ks.len();
        let mut ids: Vec<CardId> = Vec::new();
        assert(ks@.take(0) =~= seq![]);
        for i in 0..n
            invariant
                n == ks@.len(),
                ks@.no_duplicates(),
                forall|k: CardId| ks@.contains(k) <==> self.state@.contains_key(k),
                ids@.no_duplicates(),
                forall|id: CardId|
                    ids@.contains(id) <==> ks@.take(i as int).contains(id) && self@.is_due(
                        id,
                        *now,
                    ),
        {
            let k = ks[i];
            let ghost before = ids@;
            assert(ks@.contains(k));
            proof {
                assert forall|id: CardId|
                    ks@.take(i + 1).contains(id) <==> ks@.take(i as int).contains(id) || id
                        == k by {
                    lemma_one_more(ks@, i as int, id);
                }
                lemma_one_more(ks@, i as int, k);
            }
            let wanted = match (self.state.get(&k), self.cards.get(&k)) {
                (Some(entry), Some(card)) => entry.1.is_at_or_before(now) && card.status
                    == CardStatus::Accepted,
                _ => false,
            };
            assert(wanted == self@.is_due(k, *now));
            if wanted {
                ids.push(k);
                proof {
                    lemma_pushed(before, k);
                }
            }
            assert forall|id: CardId|
                ids@.contains(id) <==> ks@.take(i + 1).contains(id) && self@.is_due(id, *now) by {
                assert(before.contains(id) <==> ks@.take(i as int).contains(id) && self@.is_due(
                    id,
                    *now,
                ));
            }
        }
        assert(ks@.take(n as int) =~= ks@);
        ids
    }

    /// The cards with some ids.
    fn cards_with(&self, ids: &Vec<CardId>) -> (out: Vec<Card>)
        requires
            forall|i: int| 0 <= i < ids@.len() ==> self@.cards.contains_key(#[trigger] ids@[i]),
        ensures
            card_views(out@) == ids@.map_values(|id: CardId| self@.cards[id]),
    {
        let mut out: Vec<Card> = Vec::new();
        let n = ids.len();
        let ghost want = |id: CardId| self@.cards[id];
        for i in 0..n
            invariant
                n == ids@.len(),
                want == (|id: CardId| self@.cards[id]),
                forall|i: int| 0 <= i < ids@.len() ==> self@.cards.contains_key(#[trigger] ids@[i]),
                card_views(out@) == ids@.take(i as int).map_values(want),
        {
            let ghost before = out@;
            assert(self@.cards.contains_key(ids@[i as int]));
            if let Some(card) = self.cards.get(&ids[i]) {
                let copy = card.clone();
                out.push(copy);
                assert(card_views(out@) =~= card_views(before).push(copy@));
            }
            assert(card_views(out@) =~= ids@.take(i + 1).map_values(want));
        }
        assert(ids@.take(n as int) =~= ids@);
        out
    }

    /// The cards that await curation.
    fn pending(&self) -> (out: Vec<Card>)
        requires
            self@.wf(),
        ensures
            lists(card_views(out@), self@, |id: CardId| self@.is_pending(id)),
    {
        let ids = self.pending_ids();
        assert forall|i: int| 0 <= i < ids@.len() implies self@.cards.contains_key(
            #[trigger] ids@[i],
        ) by {
            assert(ids@.contains(ids@[i]));
        }
        let out = self.cards_with(&ids);
        proof {
            lemma_lists(card_views(out@), self@, ids@, |id: CardId| self@.is_pending(id));
        }
        out
    }

    /// The cards that are to be reviewed.
    fn due(&self, now: &Timestamp) -> (out: Vec<Card>)
        requires
            self@.wf(),
        ensures
            lists(card_views(out@), self@, |id: CardId| self@.is_due(id, *now)),
    {
        let ids = self.due_ids(now);
        assert forall|i: int| 0 <= i < ids@.len() implies self@.cards.contains_key(
            #[trigger] ids@[i],
        ) by {
            assert(ids@.contains(ids@[i]));
        }
        let out = self.cards_with(&ids);
        proof {
            lemma_lists(card_views(out@), self@, ids@, |id: CardId| self@.is_due(id, *now));
        }
        out
    }

    /// A card by its id.
    fn card(&self, card: CardId) -> (r: Result<Card, AppError>)
        ensures
            match r {
                Ok(c) => self@.cards.contains_key(card) && c@ == self@.cards[card],
                Err(e) => !self@.cards.contains_key(card) && e@ == ErrorView::NotFound,
            },
    {
        match self.cards.get(&card) {
            Some(c) => Ok(c.clone()),
            None => Err(AppError::NotFound),
        }
    }

    /// Replaces the content of a card that is still pending.
    fn edit(&mut self, card: CardId, content: CardContent) -> (r: Result<
        (),
        AppError,
    >)
        requires
            old(self)@.wf(),
        ensures
            match r {
                Ok(_) => old(self)@.with_content(card, content@) == Ok::<StoreView, ErrorView>(
                    final(self)@,
                ),
                Err(e) => old(self)@.with_content(card, content@) == Err::<StoreView, ErrorView>(
                    e@,
                ) && final(self)@ == old(self)@,
            },
            final(self)@.wf(),
    {
        let found = self.card(card);
        match found {
            Ok(c) => {
                if c.status != CardStatus::Pending {
                    return Err(not_pending_err(card));
                }
                let ghost before = self@;
                let edited = Card { content, ..c };
                self.cards.insert(card, edited);
                assert(self@.cards =~= before.cards.insert(card, edited@));
                Ok(())
            },
            Err(e) => Err(e),
        }
    }

    /// Moves a card to another status.
    fn move_to(&mut self, card: CardId, status: CardStatus) -> (r: Result<(), AppError>)
        requires
            old(self)@.wf(),
        ensures
            match r {
                Ok(_) => old(self)@.with_status(card, status) == Ok::<StoreView, ErrorView>(
                    final(self)@,
                ),
                Err(e) => old(self)@.with_status(card, status) == Err::<StoreView, ErrorView>(e@)
                    && final(self)@ == old(self)@,
            },
            final(self)@.wf(),
    {
        let found = self.card(card);
        match found {
            Ok(c) => {
                let ghost before = self@;
                let moved = Card { status, ..c };
                self.cards.insert(card, moved);
                assert(self@.cards =~= before.cards.insert(card, moved@));
                Ok(())
            },
            Err(e) => Err(e),
        }
    }

    /// How a card's reviews stand.
    fn state_of(&self, card: CardId) -> (r: Result<SchedulerState, AppError>)
        ensures
            match r {
                Ok(s) => self@.state.contains_key(card) && s == self@.state[card].0,
                Err(e) => !self@.state.contains_key(card) && e@ == ErrorView::NotFound,
            },
    {
        match self.state.get(&card) {
            Some(entry) => Ok(entry.0),
            None => Err(AppError::NotFound),
        }
    }

    /// Replaces how a card's reviews stand and when it is due.
    fn put_state(&mut self, card: CardId, state: SchedulerState, next_due: Timestamp)
        requires
            old(self)@.wf(),
        ensures
            final(self)@ == old(self)@.with_state(card, state, next_due),
            final(self)@.wf(),
    {
        self.state.insert(card, (state, next_due));
    }

    /// Appends a review to the log.
    fn log(&mut self, review: &Review)
        requires
            old(self)@.wf(),
        ensures
            final(self)@ == old(self)@.with_review(*review),
            final(self)@.wf(),
    {
        self.reviews.push(*review);
    }

    /// The log of reviews.
    pub fn reviews(&self) -> (r: &Vec<Review>)
        ensures
            r@ == self@.reviews,
    {
        &self.reviews
    }
}

impl Repository for InMemoryRepository {
    open spec fn contents(&self) -> StoreView {
        self@
    }

    open spec fn reliable(&self) -> bool {
        true
    }

    fn save_pending(&mut self, cards: &Vec<Card>) -> (r: Result<(), AppError>)
    {
        self.put_cards(cards);
        Ok(())
    }

    fn list_pending(&self) -> (r: Result<Vec<Card>, AppError>)
    {
        Ok(self.pending())
    }

    fn update_content(&mut self, card: CardId, content: CardContent) -> (r: Result<(), AppError>)
    {
        self.edit(card, content)
    }

    fn set_status(&mut self, card: CardId, status: CardStatus) -> (r: Result<(), AppError>)
    {
        self.move_to(card, status)
    }

    fn list_due(&self, now: &Timestamp) -> (r: Result<Vec<Card>, AppError>)
    {
        Ok(self.due(now))
    }

    fn load_state(&self, card: CardId) -> (r: Result<SchedulerState, AppError>)
    {
        self.state_of(card)
    }

    fn save_state(&mut self, card: CardId, state: SchedulerState, next_due: Timestamp) -> (r:
        Result<(), AppError>)
    {
        self.put_state(card, state, next_due);
        Ok(())
    }

    fn save_review(&mut self, review: &Review) -> (r: Result<(), AppError>)
    {
        self.log(review);
        Ok(())
    }

    fn get_card(&self, card: CardId) -> (r: Result<Card, AppError>)
    {
        self.card(card)
    }
}

proof fn lemma_pushed(ids: Seq<CardId>, k: CardId)
    requires
        ids.no_duplicates(),
        !ids.contains(k),
    ensures
        ids.push(k).no_duplicates(),
        forall|id: CardId| ids.push(k).contains(id) <==> ids.contains(id) || id == k,
{
    let all = ids.push(k);
    assert forall|id: CardId| all.contains(id) <==> ids.contains(id) || id == k by {
        assert(all[ids.len() as int] == k);
        if ids.contains(id) {
            let i = choose|i: int| 0 <= i < ids.len() && ids[i] == id;
            assert(all[i] == id);
        }
        if all.contains(id) && id != k {
            let i = choose|i: int| 0 <= i < all.len() && all[i] == id;
            assert(ids[i] == id);
        }
    }
    assert forall|i: int, j: int| 0 <= i < all.len() && 0 <= j < all.len() && i != j implies all[i]
        != all[j] by {
        if i < ids.len() {
            assert(ids.contains(ids[i]));
        }
        if j < ids.len() {
            assert(ids.contains(ids[j]));
        }
    }
}

/// A list made from the wanted ids lists what is wanted.
proof fn lemma_lists(
    list: Seq<CardView>,
    store: StoreView,
    ids: Seq<CardId>,
    wanted: spec_fn(CardId) -> bool,
)
    requires
        store.wf(),
        ids.no_duplicates(),
        list == ids.map_values(|id: CardId| store.cards[id]),
        forall|id: CardId| ids.contains(id) <==> #[trigger] wanted(id),
        forall|id: CardId| #[trigger] wanted(id) ==> store.cards.contains_key(id),
    ensures
        lists(list, store, wanted),
{
    assert forall|i: int| 0 <= i < list.len() implies ({
        let c = #[trigger] list[i];
        store.cards.contains_key(c.id) && store.cards[c.id] == c && wanted(c.id) && c.id == ids[i]
    }) by {
        assert(ids.contains(ids[i]));
        assert(wanted(ids[i]));
        assert(store.cards.contains_key(ids[i]));
    }
    assert forall|id: CardId| #[trigger]
        store.cards.contains_key(id) && wanted(id) implies list.contains(store.cards[id]) by {
        let i = choose|i: int| 0 <= i < ids.len() && ids[i] == id;
        assert(list[i] == store.cards[id]);
    }
}

} // verus!
