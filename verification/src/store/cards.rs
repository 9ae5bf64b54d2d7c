//! Lists of cards and of review states, as a file holds them.

use vstd::prelude::*;

use crate::error::{AppError, ErrorView};
use crate::model::{
    card_views, Card, CardContent, CardId, CardStatus, CardView, ContentView, Timestamp,
};
use crate::scheduler::SchedulerState;
use crate::store::{lists, not_pending, not_pending_err, StoreView};

verus! {

/// How a card's reviews stand, and when it is due.
#[derive(Debug, Clone, Copy, PartialEq, Eq, Structural)]
pub struct StateEntry {
    pub card_id: CardId,
    pub state: SchedulerState,
    pub next_due: Timestamp,
}

/// A change to one card.
#[derive(Debug, PartialEq, Eq)]
pub enum CardEdit {
    /// New content, for a card that is still pending.
    Content(CardContent),
    /// Another status.
    Status(CardStatus),
}

/// What to do after a file has been looked at for a card to change.
#[derive(Debug, PartialEq, Eq)]
pub enum FileStep {
    /// Look at the next file.
    Next,
    /// Write the file anew, with these cards; this is the end.
    Write(Vec<Card>),
    /// Stop without writing.
    Stop(AppError),
}

/// The cards of one note.
#[derive(Debug, PartialEq, Eq)]
pub struct NoteCards {
    pub source_file: String,
    pub cards: Vec<Card>,
}

// ---------- the model ----------

/// What a change to a card is.
pub enum EditView {
    Content(ContentView),
    Status(CardStatus),
}

impl View for CardEdit {
    type V = EditView;

    open spec fn view(&self) -> EditView {
        match *self {
            CardEdit::Content(c) => EditView::Content(c@),
            CardEdit::Status(s) => EditView::Status(s),
        }
    }
}

/// The first place of a card with an id.
pub open spec fn place(list: Seq<CardView>, id: CardId) -> Option<nat>
    decreases list.len(),
{
    if list.len() == 0 {
        None
    } else if place(list.drop_last(), id) is Some {
        place(list.drop_last(), id)
    } else if list.last().id == id {
        Some((list.len() - 1) as nat)
    } else {
        None
    }
}

/// The list with a card put in place of the one with its id, or at the end.
pub open spec fn put(list: Seq<CardView>, card: CardView) -> Seq<CardView> {
    match place(list, card.id) {
        Some(i) => list.update(i as int, card),
        None => list.push(card),
    }
}

/// The list with some cards put in, one after another.
pub open spec fn put_all(list: Seq<CardView>, cards: Seq<CardView>) -> Seq<CardView>
    decreases cards.len(),
{
    if cards.len() == 0 {
        list
    } else {
        put(put_all(list, cards.drop_last()), cards.last())
    }
}

/// A card after a change, or why it is refused.
pub open spec fn changed(card: CardView, edit: EditView) -> Result<CardView, ErrorView> {
    match edit {
        EditView::Content(content) => if card.status == CardStatus::Pending {
            Ok(CardView { content, ..card })
        } else {
            Err(ErrorView::Conflict(not_pending(card.id)))
        },
        EditView::Status(status) => Ok(CardView { status, ..card }),
    }
}

/// The list after a change to a card in it, or why it is refused; `None` where
/// the card is not in the list.
pub open spec fn edited(list: Seq<CardView>, id: CardId, edit: EditView) -> Option<
    Result<Seq<CardView>, ErrorView>,
> {
    match place(list, id) {
        Some(i) => Some(
            match changed(list[i as int], edit) {
                Ok(card) => Ok(list.update(i as int, card)),
                Err(e) => Err(e),
            },
        ),
        None => None,
    }
}

/// The cards of a list that await curation.
pub open spec fn pending_in(list: Seq<CardView>) -> Seq<CardView>
    decreases list.len(),
{
    if list.len() == 0 {
        seq![]
    } else if list.last().status == CardStatus::Pending {
        pending_in(list.drop_last()).push(list.last())
    } else {
        pending_in(list.drop_last())
    }
}

/// The place of the entry of a card.
pub open spec fn entry_place(entries: Seq<StateEntry>, id: CardId) -> Option<nat>
    decreases entries.len(),
{
    if entries.len() == 0 {
        None
    } else if entry_place(entries.drop_last(), id) is Some {
        entry_place(entries.drop_last(), id)
    } else if entries.last().card_id == id {
        Some((entries.len() - 1) as nat)
    } else {
        None
    }
}

/// Whether the entries say that a card is due.
pub open spec fn due_by(entries: Seq<StateEntry>, id: CardId, now: Timestamp) -> bool {
    match entry_place(entries, id) {
        Some(i) => entries[i as int].next_due.at_or_before(now),
        None => false,
    }
}

/// The cards of a list that are to be reviewed.
pub open spec fn due_in(list: Seq<CardView>, entries: Seq<StateEntry>, now: Timestamp) -> Seq<
    CardView,
>
    decreases list.len(),
{
    if list.len() == 0 {
        seq![]
    } else if list.last().status == CardStatus::Accepted && due_by(entries, list.last().id, now) {
        due_in(list.drop_last(), entries, now).push(list.last())
    } else {
        due_in(list.drop_last(), entries, now)
    }
}

/// The entries with one put in place of that of its card, or at the end.
pub open spec fn put_entry(entries: Seq<StateEntry>, entry: StateEntry) -> Seq<StateEntry> {
    match entry_place(entries, entry.card_id) {
        Some(i) => entries.update(i as int, entry),
        None => entries.push(entry),
    }
}

/// What the entries say of a card.
pub open spec fn entry_of(entries: Seq<StateEntry>, id: CardId) -> Option<StateEntry> {
    match entry_place(entries, id) {
        Some(i) => Some(entries[i as int]),
        None => None,
    }
}

/// The entries after some have been put in, one after the other.
pub open spec fn put_entries(entries: Seq<StateEntry>, puts: Seq<StateEntry>) -> Seq<StateEntry>
    decreases puts.len(),
{
    if puts.len() == 0 {
        entries
    } else {
        put_entry(put_entries(entries, puts.drop_last()), puts.last())
    }
}

/// The last of some entries that is about a card.
pub open spec fn last_about(puts: Seq<StateEntry>, id: CardId) -> Option<StateEntry>
    decreases puts.len(),
{
    if puts.len() == 0 {
        None
    } else if puts.last().card_id == id {
        Some(puts.last())
    } else {
        last_about(puts.drop_last(), id)
    }
}

/// The cards of a note among others, in order.
pub open spec fn of_note(cards: Seq<CardView>, note: Seq<char>) -> Seq<CardView>
    decreases cards.len(),
{
    if cards.len() == 0 {
        seq![]
    } else if cards.last().source_file == note {
        of_note(cards.drop_last(), note).push(cards.last())
    } else {
        of_note(cards.drop_last(), note)
    }
}

/// The notes that some cards come from, each once, in the order of their first
/// cards.
pub open spec fn notes_of(cards: Seq<CardView>) -> Seq<Seq<char>>
    decreases cards.len(),
{
    if cards.len() == 0 {
        seq![]
    } else {
        let before = notes_of(cards.drop_last());
        if before.contains(cards.last().source_file) {
            before
        } else {
            before.push(cards.last().source_file)
        }
    }
}

/// Whether groups hold the cards of each note.
pub open spec fn groups(g: Seq<NoteCards>, cards: Seq<CardView>) -> bool {
    &&& g.len() == notes_of(cards).len()
    &&& forall|i: int|
        0 <= i < g.len() ==> (#[trigger] g[i]).source_file@ == notes_of(cards)[i] && card_views(
            g[i].cards@,
        ) == of_note(cards, notes_of(cards)[i])
}

// ---------- the code ----------

/// The first place of a card with an id.
fn find_card(cards: &Vec<Card>, id: CardId) -> (r: Option<usize>)
    ensures
        match r {
            Some(i) => i < cards@.len() && place(card_views(cards@), id) == Some(i as nat)
                && cards@[i as int].id == id,
            None => place(card_views(cards@), id) is None,
        },
{
    let n = cards.len();
    let ghost all = card_views(cards@);
    let mut i: usize = 0;
    assert(all.take(0) =~= seq![]);
    while i < n
        invariant
            n == cards@.len(),
            all == card_views(cards@),
            i <= n,
            place(all.take(i as int), id) is None,
        decreases n - i,
    {
        assert(all.take(i + 1).drop_last() =~= all.take(i as int));
        if cards[i].id == id {
            proof {
                lemma_place_stays(all, i + 1, id);
            }
            return Some(i);
        }
        i = i + 1;
    }
    assert(all.take(n as int) =~= all);
    None
}

proof fn lemma_place_stays(list: Seq<CardView>, n: int, id: CardId)
    requires
        0 <= n <= list.len(),
        place(list.take(n), id) is Some,
    ensures
        place(list, id) == place(list.take(n), id),
    decreases list.len() - n,
{
    if n < list.len() {
        assert(list.take(n + 1).drop_last() =~= list.take(n));
        lemma_place_stays(list, n + 1, id);
    } else {
        assert(list.take(n) =~= list);
    }
}

/// Puts cards into a list, each in place of the one with its id or at the end.
pub fn upsert_cards(list: &mut Vec<Card>, cards: &Vec<Card>)
    ensures
        card_views(final(list)@) == put_all(card_views(old(list)@), card_views(cards@)),
{
    let n = cards.len();
    let ghost all = card_views(cards@);
    let ghost start = card_views(list@);
    assert(all.take(0) =~= seq![]);
    for i in 0..n
        invariant
            n == cards@.len(),
            all == card_views(cards@),
            start == card_views(old(list)@),
            card_views(list@) == put_all(start, all.take(i as int)),
    {
        let ghost before = list@;
        assert(all.take(i + 1).drop_last() =~= all.take(i as int));
        let card = cards[i].clone();
        match find_card(list, card.id) {
            Some(k) => {
                list.set(k, card);
                assert(card_views(list@) =~= card_views(before).update(k as int, card@));
            },
            None => {
                list.push(card);
                assert(card_views(list@) =~= card_views(before).push(card@));
            },
        }
    }
    assert(all.take(n as int) =~= all);
}

/// A card after a change, or why it is refused.
fn apply_edit(card: &Card, edit: &CardEdit) -> (r: Result<Card, AppError>)
    ensures
        match r {
            Ok(c) => changed(card@, edit@) == Ok::<CardView, ErrorView>(c@),
            Err(e) => changed(card@, edit@) == Err::<CardView, ErrorView>(e@),
        },
{
    match edit {
        CardEdit::Content(content) => {
            if card.status != CardStatus::Pending {
                return Err(not_pending_err(card.id));
            }
            Ok(Card { content: content.clone(), ..card.clone() })
        },
        CardEdit::Status(status) => Ok(Card { status: *status, ..card.clone() }),
    }
}

/// Changes a card in a list: whether it was there, and why the change was
/// refused. A refused change leaves the list as it was.
pub fn modify_card(list: &mut Vec<Card>, card: CardId, edit: &CardEdit) -> (r: Option<
    Result<(), AppError>,
>)
    ensures
        match r {
            Some(Ok(_)) => edited(card_views(old(list)@), card, edit@) == Some(
                Ok::<Seq<CardView>, ErrorView>(card_views(final(list)@)),
            ),
            Some(Err(e)) => edited(card_views(old(list)@), card, edit@) == Some(
                Err::<Seq<CardView>, ErrorView>(e@),
            ) && final(list)@ == old(list)@,
            None => edited(card_views(old(list)@), card, edit@) is None && final(list)@ == old(
                list,
            )@,
        },
{
    match find_card(list, card) {
        Some(i) => match apply_edit(&list[i], edit) {
            Ok(c) => {
                let ghost before = list@;
                list.set(i, c);
                assert(card_views(list@) =~= card_views(before).update(i as int, c@));
                Some(Ok(()))
            },
            Err(e) => Some(Err(e)),
        },
        None => None,
    }
}

/// The cards of a list that await curation.
pub fn pending_cards(list: &Vec<Card>) -> (out: Vec<Card>)
    ensures
        card_views(out@) == pending_in(card_views(list@)),
{
    let n = list.len();
    let ghost all = card_views(list@);
    let mut out: Vec<Card> = Vec::new();
    assert(card_views(out@) =~= pending_in(all.take(0)));
    for i in 0..n
        invariant
            n == list@.len(),
            all == card_views(list@),
            card_views(out@) == pending_in(all.take(i as int)),
    {
        assert(all.take(i + 1).drop_last() =~= all.take(i as int));
        if list[i].status == CardStatus::Pending {
            let ghost before = out@;
            let card = list[i].clone();
            out.push(card);
            assert(card_views(out@) =~= card_views(before).push(card@));
        }
    }
    assert(all.take(n as int) =~= all);
    out
}

/// The place of the entry of a card.
fn find_entry(entries: &Vec<StateEntry>, id: CardId) -> (r: Option<usize>)
    ensures
        match r {
            Some(i) => i < entries@.len() && entry_place(entries@, id) == Some(i as nat)
                && entries@[i as int].card_id == id,
            None => entry_place(entries@, id) is None,
        },
{
    let n = entries.len();
    let mut i: usize = 0;
    assert(entries@.take(0) =~= seq![]);
    while i < n
        invariant
            n == entries@.len(),
            i <= n,
            entry_place(entries@.take(i as int), id) is None,
        decreases n - i,
    {
        assert(entries@.take(i + 1).drop_last() =~= entries@.take(i as int));
        if entries[i].card_id == id {
            proof {
                lemma_entry_place_stays(entries@, i + 1, id);
            }
            return Some(i);
        }
        i = i + 1;
    }
    assert(entries@.take(n as int) =~= entries@);
    None
}

proof fn lemma_entry_place_stays(entries: Seq<StateEntry>, n: int, id: CardId)
    requires
        0 <= n <= entries.len(),
        entry_place(entries.take(n), id) is Some,
    ensures
        entry_place(entries, id) == entry_place(entries.take(n), id),
    decreases entries.len() - n,
{
    if n < entries.len() {
        assert(entries.take(n + 1).drop_last() =~= entries.take(n));
        lemma_entry_place_stays(entries, n + 1, id);
    } else {
        assert(entries.take(n) =~= entries);
    }
}

/// The cards of a list that are to be reviewed.
pub fn due_cards(list: &Vec<Card>, entries: &Vec<StateEntry>, now: &Timestamp) -> (out: Vec<Card>)
    ensures
        card_views(out@) == due_in(card_views(list@), entries@, *now),
{
    let n = list.len();
    let ghost all = card_views(list@);
    let mut out: Vec<Card> = Vec::new();
    assert(card_views(out@) =~= due_in(all.take(0), entries@, *now));
    for i in 0..n
        invariant
            n == list@.len(),
            all == card_views(list@),
            card_views(out@) == due_in(all.take(i as int), entries@, *now),
    {
        assert(all.take(i + 1).drop_last() =~= all.take(i as int));
        let due = match find_entry(entries, list[i].id) {
            Some(k) => entries[k].next_due.is_at_or_before(now),
            None => false,
        };
        if list[i].status == CardStatus::Accepted && due {
            let ghost before = out@;
            let card = list[i].clone();
            out.push(card);
            assert(card_views(out@) =~= card_views(before).push(card@));
        }
    }
    assert(all.take(n as int) =~= all);
    out
}

/// How a card's reviews stand, by the entries.
pub fn state_in(entries: &Vec<StateEntry>, card: CardId) -> (r: Result<SchedulerState, AppError>)
    ensures
        match (r, entry_of(entries@, card)) {
            (Ok(s), Some(entry)) => s == entry.state,
            (Err(e), None) => e@ == ErrorView::NotFound,
            _ => false,
        },
{
    match find_entry(entries, card) {
        Some(i) => Ok(entries[i].state),
        None => Err(AppError::NotFound),
    }
}

/// Puts an entry in place of that of its card, or at the end.
pub fn save_entry(entries: &mut Vec<StateEntry>, entry: StateEntry)
    ensures
        final(entries)@ == put_entry(old(entries)@, entry),
{
    match find_entry(entries, entry.card_id) {
        Some(i) => {
            entries.set(i, entry);
        },
        None => {
            entries.push(entry);
        },
    }
}

/// Looks for a card in the next of several files and changes it there: `None`
/// stands for the end of the files.
pub fn edit_file(file: Option<Vec<Card>>, card: CardId, edit: &CardEdit) -> (r: FileStep)
    ensures
        match file {
            Some(cards) => match (edited(card_views(cards@), card, edit@), r) {
                (Some(Ok(now)), FileStep::Write(list)) => card_views(list@) == now,
                (Some(Err(e)), FileStep::Stop(stop)) => stop@ == e,
                (None, FileStep::Next) => true,
                _ => false,
            },
            None => r matches FileStep::Stop(stop) && stop@ == ErrorView::NotFound,
        },
{
    match file {
        Some(cards) => {
            let mut cards = cards;
            match modify_card(&mut cards, card, edit) {
                Some(Ok(_)) => FileStep::Write(cards),
                Some(Err(e)) => FileStep::Stop(e),
                None => FileStep::Next,
            }
        },
        None => FileStep::Stop(AppError::NotFound),
    }
}

/// A card of a list by its id.
pub fn card_in_list(list: &Vec<Card>, card: CardId) -> (r: Result<Card, AppError>)
    ensures
        match (r, place(card_views(list@), card)) {
            (Ok(c), Some(i)) => c@ == card_views(list@)[i as int],
            (Err(e), None) => e@ == ErrorView::NotFound,
            _ => false,
        },
{
    match find_card(list, card) {
        Some(i) => Ok(list[i].clone()),
        None => Err(AppError::NotFound),
    }
}

/// The place of a note among groups.
fn find_group(g: &Vec<NoteCards>, note: &String) -> (r: Option<usize>)
    ensures
        match r {
            Some(i) => i < g@.len() && g@[i as int].source_file@ == note@,
            None => forall|i: int| 0 <= i < g@.len() ==> (#[trigger] g@[i]).source_file@ != note@,
        },
{
    let n = g.len();
    let mut i: usize = 0;
    while i < n
        invariant
            n == g@.len(),
            i <= n,
            forall|j: int| 0 <= j < i ==> (#[trigger] g@[j]).source_file@ != note@,
        decreases n - i,
    {
        if g[i].source_file == *note {
            return Some(i);
        }
        i = i + 1;
    }
    None
}

proof fn lemma_notes(cards: Seq<CardView>)
    ensures
        notes_of(cards).no_duplicates(),
        forall|note: Seq<char>|
            !(#[trigger] notes_of(cards).contains(note)) ==> of_note(cards, note) == Seq::<
                CardView,
            >::empty(),
    decreases cards.len(),
{
    if cards.len() > 0 {
        let few = cards.drop_last();
        lemma_notes(few);
        let before = notes_of(few);
        let now = notes_of(cards);
        assert forall|note: Seq<char>| !(#[trigger] now.contains(note)) implies of_note(
            cards,
            note,
        ) == Seq::<CardView>::empty() by {
            if before.contains(note) {
                let k = choose|k: int| 0 <= k < before.len() && before[k] == note;
                assert(now[k] == note);
            }
            if !before.contains(cards.last().source_file) {
                assert(now[before.len() as int] == cards.last().source_file);
            }
        }
    }
}

/// Groups cards by the note that they come from.
pub fn group_by_note(cards: &Vec<Card>) -> (g: Vec<NoteCards>)
    ensures
        groups(g@, card_views(cards@)),
{
    let n = cards.len();
    let ghost all = card_views(cards@);
    let mut g: Vec<NoteCards> = Vec::new();
    assert(all.take(0) =~= seq![]);
    for i in 0..n
        invariant
            n == cards@.len(),
            all == card_views(cards@),
            groups(g@, all.take(i as int)),
    {
        let ghost few = all.take(i as int);
        let ghost more = all.take(i + 1);
        let ghost before = g@;
        proof {
            assert(more.drop_last() =~= few);
            lemma_notes(few);
        }
        let card = cards[i].clone();
        assert(more.last() == card@);
        match find_group(&g, &cards[i].source_file) {
            Some(k) => {
                proof {
                    assert(notes_of(few)[k as int] == card@.source_file);
                    assert(notes_of(few).contains(card@.source_file));
                }
                let mut grown: Vec<Card> = Vec::new();
                let m = g[k].cards.len();
                for j in 0..m
                    invariant
                        m == g@[k as int].cards@.len(),
                        k < g@.len(),
                        card_views(grown@) == card_views(g@[k as int].cards@).take(j as int),
                {
                    let ghost so_far = grown@;
                    let copy = g[k].cards[j].clone();
                    grown.push(copy);
                    assert(card_views(grown@) =~= card_views(so_far).push(copy@));
                }
                assert(card_views(grown@) =~= card_views(g@[k as int].cards@));
                let ghost whole = grown@;
                grown.push(card);
                assert(card_views(grown@) =~= card_views(whole).push(card@));
                let name = g[k].source_file.clone();
                g.set(k, NoteCards { source_file: name, cards: grown });
                assert forall|x: int| 0 <= x < g@.len() implies (
                #[trigger] g@[x]).source_file@ == notes_of(more)[x] && card_views(g@[x].cards@)
                    == of_note(more, notes_of(more)[x]) by {
                    assert(before[x].source_file@ == notes_of(few)[x]);
                    if x != k {
                        assert(notes_of(few)[x] != notes_of(few)[k as int]);
                    }
                }
            },
            None => {
                proof {
                    assert forall|x: int| 0 <= x < notes_of(few).len() implies notes_of(few)[x]
                        != card@.source_file by {
                        assert(before[x].source_file@ == notes_of(few)[x]);
                    }
                    assert(!notes_of(few).contains(card@.source_file));
                }
                let mut fresh: Vec<Card> = Vec::new();
                let name = card.source_file.clone();
                fresh.push(card);
                assert(card_views(fresh@) =~= seq![card@]);
                g.push(NoteCards { source_file: name, cards: fresh });
                assert forall|x: int| 0 <= x < g@.len() implies (
                #[trigger] g@[x]).source_file@ == notes_of(more)[x] && card_views(g@[x].cards@)
                    == of_note(more, notes_of(more)[x]) by {
                    if x < before.len() {
                        assert(before[x].source_file@ == notes_of(few)[x]);
                    } else {
                        assert(of_note(few, card@.source_file) =~= seq![]);
                        assert(of_note(more, card@.source_file) =~= seq![card@]);
                    }
                }
            },
        }
    }
    assert(all.take(n as int) =~= all);
    g
}

// ---------- laws ----------

/// Whether no two cards of a list have the same id.
pub open spec fn distinct(list: Seq<CardView>) -> bool {
    forall|i: int, j: int|
        0 <= i < j < list.len() ==> (#[trigger] list[i]).id != (#[trigger] list[j]).id
}

/// The cards of a list by their ids.
pub open spec fn by_id(list: Seq<CardView>) -> Map<CardId, CardView>
    decreases list.len(),
{
    if list.len() == 0 {
        Map::empty()
    } else {
        by_id(list.drop_last()).insert(list.last().id, list.last())
    }
}

proof fn lemma_place(list: Seq<CardView>, id: CardId)
    ensures
        match place(list, id) {
            Some(i) => i < list.len() && list[i as int].id == id && forall|j: int|
                0 <= j < i ==> (#[trigger] list[j]).id != id,
            None => forall|j: int| 0 <= j < list.len() ==> (#[trigger] list[j]).id != id,
        },
    decreases list.len(),
{
    if list.len() > 0 {
        lemma_place(list.drop_last(), id);
        assert forall|j: int| 0 <= j < list.len() - 1 implies #[trigger] list[j]
            == list.drop_last()[j] by {}
    }
}

proof fn lemma_by_id(list: Seq<CardView>)
    requires
        distinct(list),
    ensures
        forall|id: CardId|
            by_id(list).contains_key(id) <==> #[trigger] place(list, id) is Some,
        forall|i: int|
            0 <= i < list.len() ==> by_id(list).contains_key((#[trigger] list[i]).id) && by_id(
                list,
            )[list[i].id] == list[i],
    decreases list.len(),
{
    if list.len() > 0 {
        let few = list.drop_last();
        assert forall|i: int, j: int| 0 <= i < j < few.len() implies (#[trigger] few[i]).id != (
        #[trigger] few[j]).id by {
            assert(few[i] == list[i] && few[j] == list[j]);
        }
        lemma_by_id(few);
        assert forall|i: int| 0 <= i < list.len() implies by_id(list).contains_key(
            (#[trigger] list[i]).id,
        ) && by_id(list)[list[i].id] == list[i] by {
            if i < few.len() {
                assert(few[i] == list[i]);
                assert(list[i].id != list[list.len() - 1].id);
            }
        }
        assert forall|id: CardId| by_id(list).contains_key(id) <==> #[trigger] place(
            list,
            id,
        ) is Some by {
            assert(by_id(few).contains_key(id) <==> place(few, id) is Some);
        }
    }
}

/// Putting a card into a list without repeated ids is putting it into a map by
/// id, and repeats no id.
pub proof fn law_put_is_insert(list: Seq<CardView>, card: CardView)
    requires
        distinct(list),
    ensures
        distinct(put(list, card)),
        by_id(put(list, card)) == by_id(list).insert(card.id, card),
{
    lemma_place(list, card.id);
    lemma_by_id(list);
    let now = put(list, card);
    assert(distinct(now)) by {
        assert forall|i: int, j: int| 0 <= i < j < now.len() implies (#[trigger] now[i]).id != (
        #[trigger] now[j]).id by {
            match place(list, card.id) {
                Some(k) => {
                    assert(list[i].id != list[j].id);
                },
                None => {
                    if j < list.len() {
                        assert(list[i].id != list[j].id);
                    } else {
                        assert(list[i].id != card.id);
                    }
                },
            }
        }
    }
    lemma_by_id(now);
    match place(list, card.id) {
        Some(k) => {
            let want = by_id(list).insert(card.id, card);
            assert forall|id: CardId|
                by_id(now).contains_key(id) <==> want.contains_key(id) by {
                lemma_place(now, id);
                lemma_place(list, id);
                assert(by_id(now).contains_key(id) <==> place(now, id) is Some);
                assert(by_id(list).contains_key(id) <==> place(list, id) is Some);
                if let Some(i) = place(list, id) {
                    assert(now[i as int].id == id);
                }
                if let Some(i) = place(now, id) {
                    assert(list[i as int].id == id);
                }
            }
            assert forall|id: CardId| by_id(now).contains_key(id) implies by_id(now)[id]
                == want[id] by {
                lemma_place(now, id);
                assert(by_id(now).contains_key(id) <==> place(now, id) is Some);
                let i = place(now, id).unwrap() as int;
                assert(by_id(now)[now[i].id] == now[i]);
                if i != k {
                    assert(now[i] == list[i]);
                    assert(by_id(list)[list[i].id] == list[i]);
                    if i < k {
                        assert(list[i].id != list[k as int].id);
                    } else {
                        assert(list[k as int].id != list[i].id);
                    }
                } else {
                    assert(now[k as int] == card);
                }
            }
            assert(by_id(now) =~= want);
        },
        None => {
            assert(now.drop_last() =~= list);
        },
    }
}

/// Putting cards into a file's list does to its cards what putting them into a
/// store does.
pub proof fn law_put_all_matches_store(list: Seq<CardView>, cards: Seq<CardView>, s: StoreView)
    requires
        distinct(list),
        s.cards == by_id(list),
    ensures
        distinct(put_all(list, cards)),
        by_id(put_all(list, cards)) == s.with_cards(cards).cards,
    decreases cards.len(),
{
    if cards.len() > 0 {
        law_put_all_matches_store(list, cards.drop_last(), s);
        law_put_is_insert(put_all(list, cards.drop_last()), cards.last());
    }
}

/// A change to a card in a file's list does to its cards what it does in a
/// store, and is refused for the same reasons.
pub proof fn law_edit_matches_store(list: Seq<CardView>, id: CardId, edit: EditView, s: StoreView)
    requires
        distinct(list),
        s.cards == by_id(list),
    ensures
        ({
            let in_store = match edit {
                EditView::Content(c) => s.with_content(id, c),
                EditView::Status(t) => s.with_status(id, t),
            };
            match edited(list, id, edit) {
                Some(Ok(now)) => distinct(now) && in_store == Ok::<StoreView, ErrorView>(
                    StoreView { cards: by_id(now), ..s },
                ),
                Some(Err(e)) => in_store == Err::<StoreView, ErrorView>(e),
                None => in_store == Err::<StoreView, ErrorView>(ErrorView::NotFound),
            }
        }),
{
    lemma_place(list, id);
    lemma_by_id(list);
    assert(by_id(list).contains_key(id) <==> place(list, id) is Some);
    if let Some(i) = place(list, id) {
        let card = list[i as int];
        assert(by_id(list)[card.id] == card);
        if let Ok(after) = changed(card, edit) {
            law_put_is_insert(list, after);
            assert(put(list, after) == list.update(i as int, after));
        }
    }
}

/// What is pending in a file's list is what is pending in a store.
pub proof fn law_pending_matches_store(list: Seq<CardView>, s: StoreView)
    requires
        distinct(list),
        s.cards == by_id(list),
    ensures
        lists(pending_in(list), s, |id: CardId| s.is_pending(id)),
{
    lemma_by_id(list);
    lemma_pending_in(list);
    let out = pending_in(list);
    assert forall|i: int| 0 <= i < out.len() implies ({
        let c = #[trigger] out[i];
        s.cards.contains_key(c.id) && s.cards[c.id] == c && s.is_pending(c.id)
    }) by {
        assert(list.contains(out[i]));
        let k = choose|k: int| 0 <= k < list.len() && list[k] == out[i];
        assert(by_id(list)[list[k].id] == list[k]);
    }
    assert forall|id: CardId| #[trigger]
        s.cards.contains_key(id) && s.is_pending(id) implies out.contains(s.cards[id]) by {
        assert(by_id(list).contains_key(id) <==> place(list, id) is Some);
        lemma_place(list, id);
        let k = place(list, id).unwrap() as int;
        assert(by_id(list)[list[k].id] == list[k]);
        assert(list.contains(list[k]));
    }
}

proof fn lemma_pending_in(list: Seq<CardView>)
    requires
        distinct(list),
    ensures
        distinct(pending_in(list)),
        forall|c: CardView| #[trigger]
            pending_in(list).contains(c) <==> list.contains(c) && c.status == CardStatus::Pending,
        forall|i: int|
            0 <= i < pending_in(list).len() ==> list.contains(#[trigger] pending_in(list)[i])
                && pending_in(list)[i].status == CardStatus::Pending,
    decreases list.len(),
{
    let out = pending_in(list);
    if list.len() > 0 {
        let few = list.drop_last();
        let last = list.last();
        assert forall|i: int, j: int| 0 <= i < j < few.len() implies (#[trigger] few[i]).id != (
        #[trigger] few[j]).id by {
            assert(few[i] == list[i] && few[j] == list[j]);
        }
        lemma_pending_in(few);
        let before = pending_in(few);
        assert(list[list.len() - 1] == last);
        assert forall|c: CardView| #[trigger] out.contains(c) <==> list.contains(c) && c.status
            == CardStatus::Pending by {
            if list.contains(c) && c != last {
                let k = choose|k: int| 0 <= k < list.len() && list[k] == c;
                assert(few[k] == c);
            }
            if few.contains(c) {
                let k = choose|k: int| 0 <= k < few.len() && few[k] == c;
                assert(list[k] == c);
            }
            if last.status == CardStatus::Pending {
                assert(out[before.len() as int] == last);
                if before.contains(c) {
                    let k = choose|k: int| 0 <= k < before.len() && before[k] == c;
                    assert(out[k] == c);
                }
                if out.contains(c) && c != last {
                    let k = choose|k: int| 0 <= k < out.len() && out[k] == c;
                    assert(before[k] == c);
                }
            }
            assert(before.contains(c) <==> few.contains(c) && c.status == CardStatus::Pending);
        }
        assert forall|i: int| 0 <= i < out.len() implies list.contains(#[trigger] out[i])
            && out[i].status == CardStatus::Pending by {
            assert(out.contains(out[i]));
        }
        assert(distinct(out)) by {
            assert forall|i: int, j: int| 0 <= i < j < out.len() implies (#[trigger] out[i]).id
                != (#[trigger] out[j]).id by {
                if j < before.len() {
                    assert(before[i].id != before[j].id);
                } else {
                    assert(few.contains(before[i]));
                    let k = choose|k: int| 0 <= k < few.len() && few[k] == before[i];
                    assert(list[k].id != list[list.len() - 1].id);
                }
            }
        }
    }
}

/// Every card that is saved goes into the file of its own note.
pub proof fn law_every_card_is_grouped(cards: Seq<CardView>, i: int)
    requires
        0 <= i < cards.len(),
    ensures
        notes_of(cards).contains(cards[i].source_file),
        of_note(cards, cards[i].source_file).contains(cards[i]),
    decreases cards.len(),
{
    let few = cards.drop_last();
    let note = cards[i].source_file;
    if i < few.len() {
        law_every_card_is_grouped(few, i);
        assert(few[i] == cards[i]);
        let k = choose|k: int| 0 <= k < notes_of(few).len() && notes_of(few)[k] == note;
        assert(notes_of(cards)[k] == note);
        let m = choose|m: int|
            0 <= m < of_note(few, note).len() && of_note(few, note)[m] == cards[i];
        assert(of_note(cards, note)[m] == cards[i]);
    } else {
        assert(of_note(cards, note)[of_note(few, note).len() as int] == cards[i]);
        if !notes_of(few).contains(note) {
            assert(notes_of(cards)[notes_of(few).len() as int] == note);
        }
    }
}

/// The cards that come from a note.
pub open spec fn under_note(cards: Map<CardId, CardView>, note: Seq<char>) -> Map<
    CardId,
    CardView,
> {
    cards.restrict(
        Set::new(|id: CardId| cards.contains_key(id) && cards[id].source_file == note),
    )
}

/// Whether files hold what a store holds: the file of each note its cards, each
/// once. A file that is missing holds none.
pub open spec fn files_agree(files: spec_fn(Seq<char>) -> Seq<CardView>, s: StoreView) -> bool {
    forall|note: Seq<char>|
        distinct(#[trigger] files(note)) && by_id(files(note)) == under_note(s.cards, note)
}

/// The files after cards have been put in, each group into the file of its note.
pub open spec fn files_with(
    files: spec_fn(Seq<char>) -> Seq<CardView>,
    cards: Seq<CardView>,
) -> spec_fn(Seq<char>) -> Seq<CardView> {
    |note: Seq<char>| put_all(files(note), of_note(cards, note))
}

/// The files with one of them replaced.
pub open spec fn files_but(
    files: spec_fn(Seq<char>) -> Seq<CardView>,
    note: Seq<char>,
    list: Seq<CardView>,
) -> spec_fn(Seq<char>) -> Seq<CardView> {
    |other: Seq<char>|
        if other == note {
            list
        } else {
            files(other)
        }
}

/// Whether no card changes its note: an id that is known, or that occurs more
/// than once, goes with one note.
pub open spec fn notes_stay(s: StoreView, cards: Seq<CardView>) -> bool {
    &&& forall|i: int|
        0 <= i < cards.len() && s.cards.contains_key((#[trigger] cards[i]).id)
            ==> s.cards[cards[i].id].source_file == cards[i].source_file
    &&& forall|i: int, j: int|
        0 <= i < j < cards.len() && (#[trigger] cards[i]).id == (#[trigger] cards[j]).id
            ==> cards[i].source_file == cards[j].source_file
}

proof fn lemma_under_note(s: StoreView, cards: Seq<CardView>, note: Seq<char>)
    requires
        notes_stay(s, cards),
    ensures
        under_note(s.with_cards(cards).cards, note) == (StoreView {
            cards: under_note(s.cards, note),
            ..s
        }).with_cards(of_note(cards, note)).cards,
        forall|id: CardId| #[trigger]
            s.with_cards(cards).cards.contains_key(id) ==> ((s.cards.contains_key(id)
                && s.cards[id].source_file == s.with_cards(cards).cards[id].source_file) || exists|
                i: int,
            |
                0 <= i < cards.len() && (#[trigger] cards[i]).id == id && cards[i].source_file
                    == s.with_cards(cards).cards[id].source_file),
    decreases cards.len(),
{
    let part = StoreView { cards: under_note(s.cards, note), ..s };
    if cards.len() > 0 {
        let few = cards.drop_last();
        let card = cards.last();
        let n = few.len() as int;
        assert(cards[n] == card);
        assert(notes_stay(s, few)) by {
            assert forall|i: int|
                0 <= i < few.len() && s.cards.contains_key(
                    (#[trigger] few[i]).id,
                ) implies s.cards[few[i].id].source_file == few[i].source_file by {
                assert(few[i] == cards[i]);
            }
            assert forall|i: int, j: int|
                0 <= i < j < few.len() && (#[trigger] few[i]).id == (
                #[trigger] few[j]).id implies few[i].source_file == few[j].source_file by {
                assert(few[i] == cards[i] && few[j] == cards[j]);
            }
        }
        lemma_under_note(s, few, note);
        let before = s.with_cards(few).cards;
        let now = s.with_cards(cards).cards;
        if before.contains_key(card.id) {
            assert(before[card.id].source_file == card.source_file) by {
                if !(s.cards.contains_key(card.id) && s.cards[card.id].source_file
                    == before[card.id].source_file) {
                    let i = choose|i: int|
                        0 <= i < few.len() && (#[trigger] few[i]).id == card.id
                            && few[i].source_file == before[card.id].source_file;
                    assert(cards[i].id == cards[n].id);
                }
            }
        }
        if card.source_file == note {
            assert(of_note(cards, note).drop_last() =~= of_note(few, note));
            assert(under_note(now, note) =~= under_note(before, note).insert(card.id, card));
        } else {
            assert(under_note(now, note) =~= under_note(before, note));
        }
        assert forall|id: CardId| #[trigger] now.contains_key(id) implies ((s.cards.contains_key(id)
            && s.cards[id].source_file == now[id].source_file) || exists|i: int|
            0 <= i < cards.len() && (#[trigger] cards[i]).id == id && cards[i].source_file
                == now[id].source_file) by {
            if id == card.id {
                assert(cards[n].id == id);
            } else {
                assert(before.contains_key(id));
                if !(s.cards.contains_key(id) && s.cards[id].source_file == before[id].source_file)
                {
                    let i = choose|i: int|
                        0 <= i < few.len() && (#[trigger] few[i]).id == id && few[i].source_file
                            == before[id].source_file;
                    assert(cards[i].id == id);
                }
            }
        }
    } else {
        assert(under_note(s.with_cards(cards).cards, note) =~= part.with_cards(
            of_note(cards, note),
        ).cards);
    }
}

/// Putting cards into files, the group of each note into its own, does to all of
/// them together what putting the cards into a store does.
pub proof fn law_groups_go_into_their_files(
    files: spec_fn(Seq<char>) -> Seq<CardView>,
    cards: Seq<CardView>,
    s: StoreView,
)
    requires
        files_agree(files, s),
        notes_stay(s, cards),
    ensures
        files_agree(files_with(files, cards), s.with_cards(cards)),
{
    let after = files_with(files, cards);
    assert forall|note: Seq<char>| distinct(#[trigger] after(note)) && by_id(after(note))
        == under_note(s.with_cards(cards).cards, note) by {
        assert(distinct(files(note)));
        let part = StoreView { cards: under_note(s.cards, note), ..s };
        law_put_all_matches_store(files(note), of_note(cards, note), part);
        lemma_under_note(s, cards, note);
    }
}

/// A change to a card touches one file. The card is in the file of its note and
/// in no other; changed there, all files together are what the store is after the
/// change, which is refused for the same reasons; and a card that is in no file
/// is not found.
pub proof fn law_edit_touches_one_file(
    files: spec_fn(Seq<char>) -> Seq<CardView>,
    id: CardId,
    edit: EditView,
    s: StoreView,
)
    requires
        files_agree(files, s),
    ensures
        ({
            let in_store = match edit {
                EditView::Content(c) => s.with_content(id, c),
                EditView::Status(t) => s.with_status(id, t),
            };
            &&& forall|note: Seq<char>|
                match #[trigger] edited(files(note), id, edit) {
                    Some(Ok(now)) => in_store matches Ok(after) && files_agree(
                        files_but(files, note, now),
                        after,
                    ),
                    Some(Err(e)) => in_store == Err::<StoreView, ErrorView>(e),
                    None => true,
                }
            &&& forall|a: Seq<char>, b: Seq<char>|
                #[trigger] edited(files(a), id, edit) is Some && #[trigger] edited(
                    files(b),
                    id,
                    edit,
                ) is Some ==> a == b
            &&& (forall|note: Seq<char>| #[trigger] edited(files(note), id, edit) is None)
                ==> in_store == Err::<StoreView, ErrorView>(ErrorView::NotFound)
        }),
{
    let in_store = match edit {
        EditView::Content(c) => s.with_content(id, c),
        EditView::Status(t) => s.with_status(id, t),
    };
    assert forall|note: Seq<char>| (#[trigger] edited(files(note), id, edit) is Some)
        == under_note(s.cards, note).contains_key(id) by {
        assert(distinct(files(note)));
        lemma_by_id(files(note));
        assert(by_id(files(note)).contains_key(id) <==> place(files(note), id) is Some);
    }
    assert forall|note: Seq<char>|
        match #[trigger] edited(files(note), id, edit) {
            Some(Ok(now)) => in_store matches Ok(after) && files_agree(
                files_but(files, note, now),
                after,
            ),
            Some(Err(e)) => in_store == Err::<StoreView, ErrorView>(e),
            None => true,
        } by {
        if edited(files(note), id, edit) is Some {
            assert(distinct(files(note)));
            let part = StoreView { cards: under_note(s.cards, note), ..s };
            law_edit_matches_store(files(note), id, edit, part);
            if let Some(Ok(now)) = edited(files(note), id, edit) {
                let after = in_store->Ok_0;
                let fs = files_but(files, note, now);
                assert forall|other: Seq<char>| distinct(#[trigger] fs(other)) && by_id(fs(other))
                    == under_note(after.cards, other) by {
                    assert(distinct(files(other)));
                    if other == note {
                        assert(by_id(now) =~= under_note(after.cards, note));
                    } else {
                        assert(under_note(after.cards, other) =~= under_note(s.cards, other));
                    }
                }
            }
        }
    }
    if forall|note: Seq<char>| #[trigger] edited(files(note), id, edit) is None {
        if s.cards.contains_key(id) {
            let note = s.cards[id].source_file;
            assert(under_note(s.cards, note).contains_key(id));
            assert(edited(files(note), id, edit) is None);
        }
    }
}

/// Whether no card has two entries.
pub open spec fn distinct_entries(entries: Seq<StateEntry>) -> bool {
    forall|i: int, j: int|
        0 <= i < j < entries.len() ==> (#[trigger] entries[i]).card_id != (
        #[trigger] entries[j]).card_id
}

/// Whether entries say of each card what a store says.
pub open spec fn agrees(entries: Seq<StateEntry>, s: StoreView) -> bool {
    &&& distinct_entries(entries)
    &&& forall|i: int|
        0 <= i < entries.len() ==> s.state.contains_key((#[trigger] entries[i]).card_id)
            && s.state[entries[i].card_id] == (entries[i].state, entries[i].next_due)
    &&& forall|id: CardId| #[trigger]
        s.state.contains_key(id) ==> entry_place(entries, id) is Some
}

proof fn lemma_entry_place(entries: Seq<StateEntry>, id: CardId)
    ensures
        match entry_place(entries, id) {
            Some(i) => i < entries.len() && entries[i as int].card_id == id,
            None => forall|j: int| 0 <= j < entries.len() ==> (#[trigger] entries[j]).card_id != id,
        },
    decreases entries.len(),
{
    if entries.len() > 0 {
        lemma_entry_place(entries.drop_last(), id);
        assert forall|j: int| 0 <= j < entries.len() - 1 implies #[trigger] entries[j]
            == entries.drop_last()[j] by {}
    }
}

proof fn lemma_entry_found(entries: Seq<StateEntry>, i: int)
    requires
        0 <= i < entries.len(),
    ensures
        entry_place(entries, entries[i].card_id) is Some,
{
    lemma_entry_place(entries, entries[i].card_id);
}

/// Putting an entry into a file's list does to the review states what it does
/// in a store.
pub proof fn law_put_entry_matches_store(
    entries: Seq<StateEntry>,
    entry: StateEntry,
    s: StoreView,
)
    requires
        agrees(entries, s),
    ensures
        agrees(
            put_entry(entries, entry),
            s.with_state(entry.card_id, entry.state, entry.next_due),
        ),
{
    let id = entry.card_id;
    let now = put_entry(entries, entry);
    let after = s.with_state(id, entry.state, entry.next_due);
    lemma_entry_place(entries, id);
    assert forall|i: int, j: int| 0 <= i < j < now.len() implies (#[trigger] now[i]).card_id != (
    #[trigger] now[j]).card_id by {
        if j < entries.len() {
            assert(entries[i].card_id != entries[j].card_id);
        } else {
            assert(entries[i].card_id != id);
        }
    }
    assert forall|i: int| 0 <= i < now.len() implies after.state.contains_key(
        (#[trigger] now[i]).card_id,
    ) && after.state[now[i].card_id] == (now[i].state, now[i].next_due) by {
        if i < entries.len() && now[i] != entry {
            assert(now[i] == entries[i]);
            assert(s.state.contains_key(entries[i].card_id));
            if let Some(k) = entry_place(entries, id) {
                if i < k {
                    assert(entries[i].card_id != entries[k as int].card_id);
                } else if i > k {
                    assert(entries[k as int].card_id != entries[i].card_id);
                }
            } else {
                assert(entries[i].card_id != id);
            }
        }
    }
    assert forall|other: CardId| #[trigger] after.state.contains_key(other) implies entry_place(
        now,
        other,
    ) is Some by {
        if other == id {
            let k = match entry_place(entries, id) {
                Some(k) => k as int,
                None => entries.len() as int,
            };
            assert(now[k] == entry);
            lemma_entry_found(now, k);
        } else {
            assert(s.state.contains_key(other));
            lemma_entry_place(entries, other);
            let k = entry_place(entries, other).unwrap() as int;
            assert(now[k].card_id == other);
            lemma_entry_found(now, k);
        }
    }
}

/// What is due by a file's lists is what is due in a store.
pub proof fn law_due_matches_store(
    list: Seq<CardView>,
    entries: Seq<StateEntry>,
    s: StoreView,
    now: Timestamp,
)
    requires
        distinct(list),
        s.cards == by_id(list),
        agrees(entries, s),
    ensures
        lists(due_in(list, entries, now), s, |id: CardId| s.is_due(id, now)),
{
    lemma_by_id(list);
    lemma_due_in(list, entries, now);
    let out = due_in(list, entries, now);
    assert forall|id: CardId| due_by(entries, id, now) <==> s.state.contains_key(id)
        && s.state[id].1.at_or_before(now) by {
        lemma_entry_place(entries, id);
        if let Some(k) = entry_place(entries, id) {
            assert(s.state.contains_key(entries[k as int].card_id));
        }
    }
    assert forall|i: int| 0 <= i < out.len() implies ({
        let c = #[trigger] out[i];
        s.cards.contains_key(c.id) && s.cards[c.id] == c && s.is_due(c.id, now)
    }) by {
        assert(out.contains(out[i]));
        let k = choose|k: int| 0 <= k < list.len() && list[k] == out[i];
        assert(by_id(list)[list[k].id] == list[k]);
        assert(due_by(entries, out[i].id, now));
    }
    assert forall|id: CardId| #[trigger]
        s.cards.contains_key(id) && s.is_due(id, now) implies out.contains(s.cards[id]) by {
        assert(by_id(list).contains_key(id) <==> place(list, id) is Some);
        lemma_place(list, id);
        let k = place(list, id).unwrap() as int;
        assert(by_id(list)[list[k].id] == list[k]);
        assert(list.contains(list[k]));
        assert(due_by(entries, id, now));
    }
}

proof fn lemma_due_in(list: Seq<CardView>, entries: Seq<StateEntry>, now: Timestamp)
    requires
        distinct(list),
    ensures
        distinct(due_in(list, entries, now)),
        forall|c: CardView| #[trigger]
            due_in(list, entries, now).contains(c) <==> list.contains(c) && c.status
                == CardStatus::Accepted && due_by(entries, c.id, now),
    decreases list.len(),
{
    let out = due_in(list, entries, now);
    if list.len() > 0 {
        let few = list.drop_last();
        let last = list.last();
        assert forall|i: int, j: int| 0 <= i < j < few.len() implies (#[trigger] few[i]).id != (
        #[trigger] few[j]).id by {
            assert(few[i] == list[i] && few[j] == list[j]);
        }
        lemma_due_in(few, entries, now);
        let before = due_in(few, entries, now);
        let wanted = last.status == CardStatus::Accepted && due_by(entries, last.id, now);
        assert(list[list.len() - 1] == last);
        assert forall|c: CardView| #[trigger] out.contains(c) <==> list.contains(c) && c.status
            == CardStatus::Accepted && due_by(entries, c.id, now) by {
            if list.contains(c) && c != last {
                let k = choose|k: int| 0 <= k < list.len() && list[k] == c;
                assert(few[k] == c);
            }
            if few.contains(c) {
                let k = choose|k: int| 0 <= k < few.len() && few[k] == c;
                assert(list[k] == c);
            }
            if wanted {
                assert(out[before.len() as int] == last);
                if before.contains(c) {
                    let k = choose|k: int| 0 <= k < before.len() && before[k] == c;
                    assert(out[k] == c);
                }
                if out.contains(c) && c != last {
                    let k = choose|k: int| 0 <= k < out.len() && out[k] == c;
                    assert(before[k] == c);
                }
            }
            assert(before.contains(c) <==> few.contains(c) && c.status == CardStatus::Accepted
                && due_by(entries, c.id, now));
        }
        assert(distinct(out)) by {
            assert forall|i: int, j: int| 0 <= i < j < out.len() implies (#[trigger] out[i]).id
                != (#[trigger] out[j]).id by {
                if j < before.len() {
                    assert(before[i].id != before[j].id);
                } else {
                    assert(before.contains(before[i]));
                    let k = choose|k: int| 0 <= k < few.len() && few[k] == before[i];
                    assert(list[k].id != list[list.len() - 1].id);
                }
            }
        }
    }
}

proof fn lemma_put_entry(entries: Seq<StateEntry>, entry: StateEntry, id: CardId)
    requires
        distinct_entries(entries),
    ensures
        distinct_entries(put_entry(entries, entry)),
        entry_of(put_entry(entries, entry), id) == if id == entry.card_id {
            Some(entry)
        } else {
            entry_of(entries, id)
        },
{
    let now = put_entry(entries, entry);
    lemma_entry_place(entries, entry.card_id);
    lemma_entry_place(entries, id);
    lemma_entry_place(now, id);
    assert forall|i: int, j: int| 0 <= i < j < now.len() implies (#[trigger] now[i]).card_id != (
    #[trigger] now[j]).card_id by {
        if j < entries.len() {
            assert(entries[i].card_id != entries[j].card_id);
        } else {
            assert(entries[i].card_id != entry.card_id);
        }
    }
    if id == entry.card_id {
        let k = match entry_place(entries, id) {
            Some(k) => k as int,
            None => entries.len() as int,
        };
        assert(now[k] == entry);
        lemma_entry_is(now, k);
    } else {
        match entry_place(entries, id) {
            Some(k) => {
                assert(now[k as int] == entries[k as int]);
                lemma_entry_is(now, k as int);
            },
            None => {
                if let Some(k) = entry_place(now, id) {
                    if k < entries.len() {
                        assert(entries[k as int].card_id != id);
                    }
                }
            },
        }
    }
}

proof fn lemma_entry_is(entries: Seq<StateEntry>, i: int)
    requires
        distinct_entries(entries),
        0 <= i < entries.len(),
    ensures
        entry_of(entries, entries[i].card_id) == Some(entries[i]),
{
    let id = entries[i].card_id;
    lemma_entry_place(entries, id);
    lemma_entry_found(entries, i);
    let k = entry_place(entries, id).unwrap() as int;
    if k < i {
        assert(entries[k].card_id != entries[i].card_id);
    } else if i < k {
        assert(entries[i].card_id != entries[k].card_id);
    }
}

proof fn lemma_put_entries(puts: Seq<StateEntry>, id: CardId)
    ensures
        distinct_entries(put_entries(seq![], puts)),
        entry_of(put_entries(seq![], puts), id) == last_about(puts, id),
    decreases puts.len(),
{
    if puts.len() > 0 {
        lemma_put_entries(puts.drop_last(), id);
        lemma_put_entry(put_entries(seq![], puts.drop_last()), puts.last(), id);
    }
}

/// The entries that a file is given are found again in what is read from it, in
/// whatever order they come: of each card the last that was saved, whatever was
/// saved of others, and of a card that none was saved of nothing.
pub proof fn law_saved_entries_are_found_again(
    puts: Seq<StateEntry>,
    read: Seq<StateEntry>,
    id: CardId,
)
    requires
        distinct_entries(read),
        forall|e: StateEntry| #[trigger]
            read.contains(e) <==> put_entries(seq![], puts).contains(e),
    ensures
        entry_of(read, id) == last_about(puts, id),
{
    let written = put_entries(seq![], puts);
    lemma_put_entries(puts, id);
    lemma_entry_place(written, id);
    lemma_entry_place(read, id);
    if let Some(i) = entry_place(written, id) {
        let e = written[i as int];
        assert(written.contains(e));
        assert(read.contains(e));
        let k = choose|k: int| 0 <= k < read.len() && read[k] == e;
        lemma_entry_is(read, k);
    } else if let Some(k) = entry_place(read, id) {
        let e = read[k as int];
        assert(read.contains(e));
        assert(written.contains(e));
        let i = choose|i: int| 0 <= i < written.len() && written[i] == e;
        assert(written[i].card_id != id);
    }
}

/// What is pending, what is due and what is of a note come in the order of the
/// list, and nothing else does.
pub proof fn law_cards_come_in_the_order_of_the_list(
    list: Seq<CardView>,
    entries: Seq<StateEntry>,
    now: Timestamp,
    note: Seq<char>,
)
    ensures
        pending_in(list) == list.filter(|c: CardView| c.status == CardStatus::Pending),
        due_in(list, entries, now) == list.filter(
            |c: CardView| c.status == CardStatus::Accepted && due_by(entries, c.id, now),
        ),
        of_note(list, note) == list.filter(|c: CardView| c.source_file == note),
    decreases list.len(),
{
    reveal(Seq::filter);
    if list.len() > 0 {
        law_cards_come_in_the_order_of_the_list(list.drop_last(), entries, now, note);
    } else {
        assert(pending_in(list) =~= list.filter(|c: CardView| c.status == CardStatus::Pending));
        assert(due_in(list, entries, now) =~= list.filter(
            |c: CardView| c.status == CardStatus::Accepted && due_by(entries, c.id, now),
        ));
        assert(of_note(list, note) =~= list.filter(|c: CardView| c.source_file == note));
    }
}

/// A card that is put in takes the place of the one with its id, or comes last;
/// the others keep their places. A change keeps every place.
pub proof fn law_cards_keep_their_places(
    list: Seq<CardView>,
    card: CardView,
    id: CardId,
    edit: EditView,
    i: int,
)
    requires
        0 <= i < list.len(),
    ensures
        list[i].id != card.id ==> put(list, card)[i] == list[i],
        (exists|k: int| 0 <= k < list.len() && (#[trigger] list[k]).id == card.id) ==> put(
            list,
            card,
        ).len() == list.len(),
        (forall|k: int| 0 <= k < list.len() ==> (#[trigger] list[k]).id != card.id) ==> put(
            list,
            card,
        ) == list.push(card),
        edited(list, id, edit) matches Some(Ok(now)) ==> now.len() == list.len() && (list[i].id
            != id ==> now[i] == list[i]),
{
    lemma_place(list, card.id);
    lemma_place(list, id);
}

/// A change of content goes to a card that awaits curation and changes nothing
/// else of it; a change of status goes to any card and changes nothing else of it.
pub proof fn law_changes_are_what_they_say(
    card: CardView,
    content: ContentView,
    status: CardStatus,
)
    ensures
        changed(card, EditView::Status(status)) == Ok::<CardView, ErrorView>(
            CardView { status, ..card },
        ),
        card.status == CardStatus::Pending ==> changed(card, EditView::Content(content)) == Ok::<
            CardView,
            ErrorView,
        >(CardView { content, ..card }),
        card.status != CardStatus::Pending ==> changed(card, EditView::Content(content)) == Err::<
            CardView,
            ErrorView,
        >(ErrorView::Conflict(not_pending(card.id))),
{
}

/// The notes of some cards are those that they come from, each once.
pub proof fn law_notes_are_those_of_the_cards(cards: Seq<CardView>)
    ensures
        notes_of(cards).no_duplicates(),
        forall|note: Seq<char>| #[trigger]
            notes_of(cards).contains(note) <==> of_note(cards, note).len() > 0,
    decreases cards.len(),
{
    if cards.len() > 0 {
        let few = cards.drop_last();
        law_notes_are_those_of_the_cards(few);
        let before = notes_of(few);
        let now = notes_of(cards);
        let last = cards.last().source_file;
        assert forall|note: Seq<char>| #[trigger]
            now.contains(note) <==> of_note(cards, note).len() > 0 by {
            assert(before.contains(note) <==> of_note(few, note).len() > 0);
            if !before.contains(last) {
                assert(now[before.len() as int] == last);
                if before.contains(note) {
                    let k = choose|k: int| 0 <= k < before.len() && before[k] == note;
                    assert(now[k] == note);
                }
                if now.contains(note) && note != last {
                    let k = choose|k: int| 0 <= k < now.len() && now[k] == note;
                    assert(before[k] == note);
                }
            }
        }
        assert forall|i: int, j: int| 0 <= i < now.len() && 0 <= j < now.len() && i
            != j implies now[i] != now[j] by {
            if !before.contains(last) {
                if i < before.len() {
                    assert(before.contains(before[i]));
                }
                if j < before.len() {
                    assert(before.contains(before[j]));
                }
            }
        }
    }
}

} // verus!
