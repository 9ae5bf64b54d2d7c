//! Taking in a note: its chunks go to the model one by one, and what the model
//! proposes is counted and kept.

use vstd::prelude::*;

use crate::error::{AppError, ErrorView};
use crate::ingest::{ingest_text, note_chunks, ChunkConfig};
use crate::llm::ollama::proposals_or_error;
use crate::llm::{
    chunk_views, proposal_views, ChunkContext, ChunkView, LlmError, LlmErrorView, ProposalView,
    ProposedCard,
};
use crate::model::{
    card_views, copy_opt, copy_strings, Card, CardId, CardStatus, CardView, Timestamp,
};
use crate::path::{acceptable, objection, validate_source_file};
use crate::store::{differ_in_cards, store_failed, Repository};
use crate::trusted::{clock_time, random_id};
use crate::wire::{IngestRequest, IngestResponse};

verus! {

// ---------- the model ----------

/// The card that a proposal for a chunk becomes: it awaits curation, and stays
/// anchored to where the chunk came from.
pub open spec fn card_of(
    p: ProposalView,
    chunk: ChunkView,
    id: CardId,
    created_at: Timestamp,
) -> CardView {
    CardView {
        id,
        content: p.content,
        source_file: chunk.source_file,
        source_heading: chunk.source_heading,
        tags: chunk.tags,
        status: CardStatus::Pending,
        created_at,
    }
}

/// Whether a card came from a proposal for a chunk, under some id and at some
/// time.
pub open spec fn comes_from(card: CardView, p: ProposalView, chunk: ChunkView) -> bool {
    card == card_of(p, chunk, card.id, card.created_at)
}

/// Whether a card has a random id, as UUIDs of version 4 are, and a time that the
/// calendar has.
pub open spec fn minted(card: CardView) -> bool {
    &&& card.id & 0xF000_0000_0000_0000_0000u128 == 0x4000_0000_0000_0000_0000u128
    &&& card.id & 0xC000_0000_0000_0000u128 == 0x8000_0000_0000_0000u128
    &&& card.created_at.valid()
}

/// Whether cards came from proposals for a chunk, one from each, with ids and
/// times of their own. That no two ids are the same is likely and not claimed.
pub open spec fn all_come_from(
    cards: Seq<CardView>,
    ps: Seq<ProposalView>,
    chunk: ChunkView,
) -> bool {
    &&& cards.len() == ps.len()
    &&& forall|i: int|
        0 <= i < cards.len() ==> comes_from(#[trigger] cards[i], ps[i], chunk) && minted(cards[i])
}

/// The default size of chunks.
pub open spec fn default_config() -> ChunkConfig {
    ChunkConfig { target_words: 500, max_words: 1500, min_words: 50 }
}

/// What one chunk contributes: cards, a failure that may pass, or nothing.
#[derive(Debug)]
pub enum ChunkOutcome {
    Cards(Vec<Card>),
    Failed,
    Skipped,
}

/// A note on its way in.
#[derive(Debug)]
pub struct IngestRun {
    /// The chunks of the note.
    pub chunks: Vec<ChunkContext>,
    /// How many of them have been asked about.
    pub asked: usize,
    /// The cards so far.
    pub cards: Vec<Card>,
    /// How many chunks the model gave cards for, perhaps none.
    pub answered: usize,
    /// How many chunks failed.
    pub failed: usize,
    /// How many chunks the model had nothing for.
    pub skipped: usize,
}

impl IngestRun {
    /// Whether the counts agree: every chunk that was asked about was answered,
    /// failed or was skipped.
    pub open spec fn wf(self) -> bool {
        &&& self.asked <= self.chunks@.len()
        &&& self.answered + self.failed + self.skipped == self.asked
    }
}

/// Whether a run has taken the model's reply about the chunk that was next: the
/// cards that it proposes come behind those so far, one for each proposal; a
/// failure that may pass is counted as failed, and a chunk that the model had
/// nothing for as skipped. A misconfigured model is not taken for an answer.
pub open spec fn recorded(
    before: IngestRun,
    reply: Result<Seq<ProposalView>, LlmErrorView>,
    after: IngestRun,
) -> bool {
    &&& after.chunks@ == before.chunks@
    &&& after.asked == before.asked + 1
    &&& after.cards@.len() == before.cards@.len() + proposals(reply)
    &&& card_views(after.cards@).take(before.cards@.len() as int) == card_views(before.cards@)
    &&& reply matches Ok(ps) ==> all_come_from(
        card_views(after.cards@).skip(before.cards@.len() as int),
        ps,
        before.chunks@[before.asked as int]@,
    )
    &&& after.answered == before.answered + (if reply is Ok {
        1int
    } else {
        0int
    })
    &&& after.failed == before.failed + failures(reply)
    &&& after.skipped == before.skipped + skips(reply)
    &&& !(reply matches Err(LlmErrorView::Config { reason: _ }))
}

/// How many cards a reply proposes.
pub open spec fn proposals(reply: Result<Seq<ProposalView>, LlmErrorView>) -> nat {
    match reply {
        Ok(ps) => ps.len(),
        Err(_) => 0,
    }
}

/// 1 for a reply that may be another the next time, and 0 for any other.
pub open spec fn failures(reply: Result<Seq<ProposalView>, LlmErrorView>) -> nat {
    match reply {
        Err(LlmErrorView::Transient { reason: _, retry_after: _ }) => 1,
        _ => 0,
    }
}

/// 1 for a reply by which the model had nothing for a chunk, and 0 for any
/// other.
pub open spec fn skips(reply: Result<Seq<ProposalView>, LlmErrorView>) -> nat {
    match reply {
        Err(LlmErrorView::BadInput { reason: _ }) => 1,
        _ => 0,
    }
}

/// What replies add up to.
pub open spec fn total(
    replies: Seq<Result<Seq<ProposalView>, LlmErrorView>>,
    of: spec_fn(Result<Seq<ProposalView>, LlmErrorView>) -> nat,
) -> nat
    decreases replies.len(),
{
    if replies.len() == 0 {
        0
    } else {
        total(replies.drop_last(), of) + of(replies.last())
    }
}

// ---------- the code ----------

/// The card that a proposal for a chunk becomes.
pub fn card_from(
    proposed: ProposedCard,
    chunk: &ChunkContext,
    id: CardId,
    created_at: Timestamp,
) -> (card: Card)
    ensures
        card@ == card_of(proposed@, chunk@, id, created_at),
{
    Card {
        id,
        content: proposed.content,
        source_file: chunk.source_file.clone(),
        source_heading: copy_opt(&chunk.source_heading),
        tags: copy_strings(&chunk.tags),
        status: CardStatus::Pending,
        created_at,
    }
}

/// The card that a proposal for a chunk becomes, under a random id and at the
/// time of the clock.
pub fn mint_card(proposed: ProposedCard, chunk: &ChunkContext) -> (card: Card)
    ensures
        comes_from(card@, proposed@, chunk@),
        minted(card@),
{
    let id = random_id();
    let created_at = clock_time();
    card_from(proposed, chunk, id, created_at)
}

/// What a chunk contributes, by the model's reply. Only a misconfigured model
/// stops the note.
pub fn classify_chunk(reply: Result<Vec<ProposedCard>, LlmError>, chunk: &ChunkContext) -> (r:
    Result<ChunkOutcome, AppError>)
    ensures
        match (reply, r) {
            (Ok(ps), Ok(ChunkOutcome::Cards(cards))) => all_come_from(
                card_views(cards@),
                proposal_views(ps@),
                chunk@,
            ),
            (Err(e), Ok(ChunkOutcome::Failed)) => e@ is Transient,
            (Err(e), Ok(ChunkOutcome::Skipped)) => e@ is BadInput,
            (Err(e), Err(stop)) => e@ matches LlmErrorView::Config { reason } && stop@
                == ErrorView::Llm(reason),
            _ => false,
        },
{
    match reply {
        Ok(proposed) => {
            let ghost all = proposal_views(proposed@);
            let mut cards: Vec<Card> = Vec::new();
            for p in it: proposed
                invariant
                    it.seq() == proposed@,
                    all == proposal_views(proposed@),
                    cards@.len() == it.index(),
                    forall|i: int|
                        0 <= i < cards@.len() ==> comes_from(
                            (#[trigger] cards@[i])@,
                            all[i],
                            chunk@,
                        ) && minted(cards@[i]@),
            {
                assert(p@ == all[it.index()]);
                cards.push(mint_card(p, chunk));
            }
            assert forall|i: int| 0 <= i < card_views(cards@).len() implies comes_from(
                #[trigger] card_views(cards@)[i],
                all[i],
                chunk@,
            ) && minted(card_views(cards@)[i]) by {
                assert(comes_from(cards@[i]@, all[i], chunk@));
            }
            Ok(ChunkOutcome::Cards(cards))
        },
        Err(LlmError::Transient { .. }) => Ok(ChunkOutcome::Failed),
        Err(LlmError::BadInput { .. }) => Ok(ChunkOutcome::Skipped),
        Err(LlmError::Config { reason }) => Err(AppError::Llm(reason)),
    }
}

impl IngestRun {
    /// Starts to take in a note: its path must do, and its frontmatter parse.
    pub fn start(request: &IngestRequest) -> (r: Result<IngestRun, AppError>)
        ensures
            match r {
                Ok(run) => {
                    &&& acceptable(request.source_file@)
                    &&& note_chunks(request.content@, request.source_file@, default_config())
                        == Ok::<Seq<ChunkView>, ErrorView>(chunk_views(run.chunks@))
                    &&& run.wf()
                    &&& run.asked == 0
                    &&& run.cards@.len() == 0
                },
                Err(e) => if acceptable(request.source_file@) {
                    note_chunks(request.content@, request.source_file@, default_config())
                        == Err::<Seq<ChunkView>, ErrorView>(e@)
                } else {
                    e@ == ErrorView::BadRequest(objection(request.source_file@))
                },
            },
    {
        if let Err(e) = validate_source_file(request.source_file.as_str()) {
            return Err(e);
        }
        let config = ChunkConfig::default();
        match ingest_text(request.content.as_str(), request.source_file.as_str(), &config) {
            Ok(chunks) => Ok(
                IngestRun {
                    chunks,
                    asked: 0,
                    cards: Vec::new(),
                    answered: 0,
                    failed: 0,
                    skipped: 0,
                },
            ),
            Err(e) => Err(e),
        }
    }

    /// The chunk to ask about next.
    pub fn next_chunk(&self) -> (r: Option<&ChunkContext>)
        requires
            self.wf(),
        ensures
            match r {
                Some(c) => self.asked < self.chunks@.len() && *c == self.chunks@[self.asked as int],
                None => self.asked == self.chunks@.len(),
            },
    {
        if self.asked < self.chunks.len() {
            Some(&self.chunks[self.asked])
        } else {
            None
        }
    }

    /// Takes the model's reply about the chunk that is next.
    pub fn record(&mut self, reply: Result<Vec<ProposedCard>, LlmError>) -> (r: Result<
        (),
        AppError,
    >)
        requires
            old(self).wf(),
            old(self).asked < old(self).chunks@.len(),
        ensures
            final(self).wf(),
            match r {
                Ok(_) => recorded(*old(self), proposals_or_error(reply), *final(self)),
                Err(stop) => {
                    &&& proposals_or_error(reply) matches Err(LlmErrorView::Config { reason })
                    &&& stop@ == ErrorView::Llm(reason)
                    &&& *final(self) == *old(self)
                },
            },
    {
        let many = self.chunks.len();
        assert(self.asked < many);
        assert(card_views(self.cards@).take(self.cards@.len() as int) =~= card_views(self.cards@));
        match classify_chunk(reply, &self.chunks[self.asked]) {
            Ok(ChunkOutcome::Cards(fresh)) => {
                let ghost before = self.cards@;
                let ghost more = card_views(fresh@);
                let mut fresh = fresh;
                self.cards.append(&mut fresh);
                self.answered = self.answered + 1;
                assert(card_views(self.cards@) =~= card_views(before) + more);
                assert(card_views(self.cards@).take(before.len() as int) =~= card_views(before));
                assert(card_views(self.cards@).skip(before.len() as int) =~= more);
            },
            Ok(ChunkOutcome::Failed) => {
                self.failed = self.failed + 1;
            },
            Ok(ChunkOutcome::Skipped) => {
                self.skipped = self.skipped + 1;
            },
            Err(e) => {
                return Err(e);
            },
        }
        self.asked = self.asked + 1;
        Ok(())
    }

    /// The counts, once every chunk has been asked about.
    pub fn counts(&self) -> (r: IngestResponse)
        requires
            self.wf(),
        ensures
            r == (IngestResponse {
                chunks: self.chunks.len(),
                proposed_cards: self.cards.len(),
                failed_chunks: self.failed,
                skipped_chunks: self.skipped,
            }),
    {
        IngestResponse {
            chunks: self.chunks.len(),
            proposed_cards: self.cards.len(),
            failed_chunks: self.failed,
            skipped_chunks: self.skipped,
        }
    }

    /// Keeps the cards, once every chunk has been asked about, and answers with
    /// the counts.
    pub fn finish<R: Repository>(&self, store: &mut R) -> (r: Result<IngestResponse, AppError>)
        requires
            self.wf(),
            self.asked == self.chunks@.len(),
            old(store).contents().wf(),
        ensures
            final(store).contents().wf(),
            final(store).reliable() == old(store).reliable(),
            match r {
                Ok(response) => {
                    &&& final(store).contents() == old(store).contents().with_cards(
                        card_views(self.cards@),
                    )
                    &&& response.chunks == self.chunks@.len()
                    &&& response.proposed_cards == self.cards@.len()
                    &&& response.failed_chunks == self.failed
                    &&& response.skipped_chunks == self.skipped
                },
                Err(e) => store_failed(old(store).reliable(), e@) && differ_in_cards(
                    old(store).contents(),
                    final(store).contents(),
                ),
            },
    {
        match store.save_pending(&self.cards) {
            Ok(_) => Ok(self.counts()),
            Err(e) => Err(e),
        }
    }
}

// ---------- laws ----------

/// Every chunk of a note is counted once: it was answered, failed or was
/// skipped.
pub proof fn law_every_chunk_is_counted(run: IngestRun)
    requires
        run.wf(),
        run.asked == run.chunks@.len(),
    ensures
        run.answered + run.failed + run.skipped == run.chunks@.len(),
{
}

/// The counts of a note are those of the model's replies: the chunks are asked
/// about one by one and in order, one reply for each; there are as many cards as
/// the replies propose together; the failed chunks are those whose replies may
/// be others the next time, and the skipped ones those that the model had
/// nothing for. An empty list of cards is neither.
pub proof fn law_counts_are_those_of_the_replies(
    runs: Seq<IngestRun>,
    replies: Seq<Result<Seq<ProposalView>, LlmErrorView>>,
)
    requires
        runs.len() == replies.len() + 1,
        runs[0].wf(),
        runs[0].asked == 0,
        runs[0].cards@.len() == 0,
        forall|i: int|
            0 <= i < replies.len() ==> #[trigger] recorded(runs[i], replies[i], runs[i + 1]),
    ensures
        ({
            let last = runs.last();
            &&& last.chunks@ == runs[0].chunks@
            &&& last.asked == replies.len()
            &&& last.cards@.len() == total(replies, |r| proposals(r))
            &&& last.failed == total(replies, |r| failures(r))
            &&& last.skipped == total(replies, |r| skips(r))
        }),
    decreases replies.len(),
{
    if replies.len() > 0 {
        let n = replies.len() - 1;
        let few = replies.drop_last();
        let sooner = runs.drop_last();
        assert forall|i: int| 0 <= i < few.len() implies #[trigger] recorded(
            sooner[i],
            few[i],
            sooner[i + 1],
        ) by {
            assert(recorded(runs[i], replies[i], runs[i + 1]));
        }
        law_counts_are_those_of_the_replies(sooner, few);
        assert(recorded(runs[n], replies[n], runs[n + 1]));
        assert(sooner.last() == runs[n]);
    }
}

/// The cards that the model proposes for a chunk come behind those so far, one for
/// each proposal and in their order; each has the content of its proposal and the
/// anchor and the tags of the chunk that was asked about, and awaits curation.
pub proof fn law_proposals_become_pending_cards(
    before: IngestRun,
    ps: Seq<ProposalView>,
    after: IngestRun,
    i: int,
)
    requires
        before.wf(),
        before.asked < before.chunks@.len(),
        recorded(before, Ok(ps), after),
        0 <= i < ps.len(),
    ensures
        ({
            let n = before.cards@.len();
            let card = card_views(after.cards@)[n + i];
            let chunk = before.chunks@[before.asked as int]@;
            &&& after.cards@.len() == n + ps.len()
            &&& card.content == ps[i].content
            &&& card.source_file == chunk.source_file
            &&& card.source_heading == chunk.source_heading
            &&& card.tags == chunk.tags
            &&& card.status == CardStatus::Pending
            &&& minted(card)
        }),
{
    let n = before.cards@.len() as int;
    let fresh = card_views(after.cards@).skip(n);
    assert(comes_from(fresh[i], ps[i], before.chunks@[before.asked as int]@));
    assert(fresh[i] == card_views(after.cards@)[n + i]);
}

/// Cards that were there stay, in their places, whatever the model replies; a reply
/// that proposes none adds none.
pub proof fn law_earlier_cards_stay(
    before: IngestRun,
    reply: Result<Seq<ProposalView>, LlmErrorView>,
    after: IngestRun,
    i: int,
)
    requires
        recorded(before, reply, after),
        0 <= i < before.cards@.len(),
    ensures
        i < after.cards@.len(),
        card_views(after.cards@)[i] == card_views(before.cards@)[i],
        reply is Err ==> after.cards@.len() == before.cards@.len(),
        reply is Ok ==> after.failed == before.failed && after.skipped == before.skipped,
        reply matches Err(e) ==> after.failed + after.skipped == before.failed + before.skipped
            + 1 && (after.failed > before.failed <==> e is Transient) && (after.skipped
            > before.skipped <==> e is BadInput),
        reply matches Err(e) ==> !(e is Config),
{
    let n = before.cards@.len() as int;
    assert(card_views(after.cards@).take(n)[i] == card_views(before.cards@)[i]);
}

/// Notes are cut into chunks of about five hundred words: sections of fewer than
/// fifty are merged, and those of more than fifteen hundred are split.
pub proof fn law_default_sizes()
    ensures
        default_config().target_words == 500,
        default_config().max_words == 1500,
        default_config().min_words == 50,
{
}

/// A note is taken in only under a path that will do, and begins with all of its
/// chunks still to be asked about.
pub proof fn law_started_run(request: &IngestRequest, r: Result<IngestRun, AppError>)
    requires
        call_ensures(IngestRun::start, (request,), r),
    ensures
        !acceptable(request.source_file@) ==> (r matches Err(e) && e@ == ErrorView::BadRequest(
            objection(request.source_file@),
        )),
        acceptable(request.source_file@) ==> match note_chunks(
            request.content@,
            request.source_file@,
            default_config(),
        ) {
            Ok(chunks) => r matches Ok(run) && chunk_views(run.chunks@) == chunks && run.asked == 0
                && run.cards@.len() == 0 && run.failed == 0 && run.skipped == 0,
            Err(e) => r matches Err(x) && x@ == e,
        },
{
}

/// A chunk gives a card for each proposal, fails where trying again can help, and
/// is skipped where the model had nothing for it; a misconfigured model stops the
/// note.
pub proof fn law_classified_chunk(
    reply: Result<Vec<ProposedCard>, LlmError>,
    chunk: &ChunkContext,
    r: Result<ChunkOutcome, AppError>,
)
    requires
        call_ensures(classify_chunk, (reply, chunk), r),
    ensures
        reply matches Ok(ps) ==> (r matches Ok(ChunkOutcome::Cards(cards)) && all_come_from(
            card_views(cards@),
            proposal_views(ps@),
            chunk@,
        )),
        reply matches Err(e) ==> match e@ {
            LlmErrorView::Transient { reason: _, retry_after: _ } => r matches Ok(
                ChunkOutcome::Failed,
            ),
            LlmErrorView::BadInput { reason: _ } => r matches Ok(ChunkOutcome::Skipped),
            LlmErrorView::Config { reason } => r matches Err(x) && x@ == ErrorView::Llm(reason),
        },
{
}

} // verus!
