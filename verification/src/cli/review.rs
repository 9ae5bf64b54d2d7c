//! A review session, one decision at a time.

use vstd::prelude::*;
use vstd::string::StringExecFns;

use crate::cli::{
    card_head, keyed_rating, question, rating_from_key, rating_prompt, rating_question,
    render_head, render_question, trimmed_text, verdict_label, verdict_words,
};
use crate::cloze::blanked;
use crate::model::{card_views, Card, CardContent, CardId, CardView, ContentView, Rating, Verdict};
use crate::text::{decimal, decimal_of, trim};
use crate::wire::EvaluateResponse;

verus! {

/// What a session waits for.
#[derive(Debug, Clone, Copy, PartialEq, Eq, Structural)]
pub enum ReviewPhase {
    /// An answer to a question.
    Answering,
    /// The line that reveals a cloze text.
    Revealing,
    /// The grade of an answer.
    Grading,
    /// A rating.
    Rating(Option<Rating>),
    /// The record of a rating.
    Recording(Rating),
    /// Nothing more.
    Done,
}

/// A review session over some cards.
#[derive(Debug)]
pub struct ReviewSession {
    pub cards: Vec<Card>,
    /// The card that is shown.
    pub at: usize,
    pub phase: ReviewPhase,
}

/// What comes to a session.
#[derive(Debug)]
pub enum ReviewEvent {
    /// A line of input, or the end of the input.
    Line(Option<String>),
    /// The grade of an answer, or why there is none.
    Graded(Result<EvaluateResponse, String>),
    /// A review was recorded; the card is back in so many days.
    Recorded(u32),
}

/// What a session asks for.
#[derive(Debug, PartialEq, Eq)]
pub enum ReviewAction {
    /// Read a line.
    ReadLine,
    /// Have an answer to a card graded.
    Grade { card: CardId, answer: String },
    /// Record a rating of a card.
    Record { card: CardId, rating: Rating },
    /// Stop.
    Stop,
}

// ---------- the model ----------

/// What a session is.
pub struct SessionView {
    pub cards: Seq<CardView>,
    pub at: nat,
    pub phase: ReviewPhase,
}

impl View for ReviewSession {
    type V = SessionView;

    open spec fn view(&self) -> SessionView {
        SessionView { cards: card_views(self.cards@), at: self.at as nat, phase: self.phase }
    }
}

/// What comes to a session.
pub enum EventView {
    Line(Option<Seq<char>>),
    Graded(Result<(Verdict, Seq<char>, Rating), Seq<char>>),
    Recorded(u32),
}

impl View for ReviewEvent {
    type V = EventView;

    open spec fn view(&self) -> EventView {
        match *self {
            ReviewEvent::Line(Some(s)) => EventView::Line(Some(s@)),
            ReviewEvent::Line(None) => EventView::Line(None),
            ReviewEvent::Graded(Ok(g)) => EventView::Graded(
                Ok((g.verdict, g.explanation@, g.suggested_rating)),
            ),
            ReviewEvent::Graded(Err(e)) => EventView::Graded(Err(e@)),
            ReviewEvent::Recorded(days) => EventView::Recorded(days),
        }
    }
}

/// What a session asks for.
pub enum ActionView {
    ReadLine,
    Grade { card: CardId, answer: Seq<char> },
    Record { card: CardId, rating: Rating },
    Stop,
}

impl View for ReviewAction {
    type V = ActionView;

    open spec fn view(&self) -> ActionView {
        match *self {
            ReviewAction::ReadLine => ActionView::ReadLine,
            ReviewAction::Grade { card, answer } => ActionView::Grade { card, answer: answer@ },
            ReviewAction::Record { card, rating } => ActionView::Record { card, rating },
            ReviewAction::Stop => ActionView::Stop,
        }
    }
}

/// A step of a session: how it stands then, what it shows and what it asks for.
pub struct Step {
    pub session: SessionView,
    pub shown: Seq<char>,
    pub action: ActionView,
}

/// The answer side of a card.
pub open spec fn answer_side(content: ContentView) -> Seq<char> {
    match content {
        ContentView::Qa { front: _, back } => back,
        ContentView::Cloze { text, spans: _ } => text,
    }
}

impl SessionView {
    /// Whether the session is on one of its cards, or done.
    pub open spec fn wf(self) -> bool {
        self.phase != ReviewPhase::Done ==> self.at < self.cards.len()
    }

    /// The session waiting for something else.
    pub open spec fn waiting(self, phase: ReviewPhase) -> SessionView {
        SessionView { phase, ..self }
    }

    /// The step that shows a card.
    pub open spec fn show(self, at: nat) -> Step {
        let content = self.cards[at as int].content;
        Step {
            session: SessionView {
                at,
                phase: if content is Qa {
                    ReviewPhase::Answering
                } else {
                    ReviewPhase::Revealing
                },
                ..self
            },
            shown: card_head(at + 1, self.cards.len(), question(content)) + (if content is Qa {
                "your answer (or Enter to reveal): "@
            } else {
                "(press Enter to reveal) "@
            }),
            action: ActionView::ReadLine,
        }
    }

    /// The step that shows some text and asks for a rating.
    pub open spec fn ask_rating(self, shown: Seq<char>, suggested: Option<Rating>) -> Step {
        Step {
            session: self.waiting(ReviewPhase::Rating(suggested)),
            shown: shown + rating_question(suggested),
            action: ActionView::ReadLine,
        }
    }

    /// The step that shows some text and ends the session.
    pub open spec fn stop(self, shown: Seq<char>) -> Step {
        Step { session: self.waiting(ReviewPhase::Done), shown, action: ActionView::Stop }
    }

    /// What comes of an event. An event that the session does not wait for
    /// leaves it as it is.
    pub open spec fn step(self, event: EventView) -> Step {
        let card = self.cards[self.at as int];
        let back = answer_side(card.content);
        match (self.phase, event) {
            (ReviewPhase::Answering, EventView::Line(line)) => {
                let answer = trim(
                    match line {
                        Some(s) => s,
                        None => seq![],
                    },
                );
                if answer.len() > 0 {
                    Step {
                        session: self.waiting(ReviewPhase::Grading),
                        shown: seq![],
                        action: ActionView::Grade { card: card.id, answer },
                    }
                } else {
                    self.ask_rating(back + "\n"@, None)
                }
            },
            (ReviewPhase::Grading, EventView::Graded(Ok((verdict, explanation, suggested)))) =>
                self.ask_rating(
                "  "@ + verdict_words(verdict) + " — "@ + explanation + "\n  Expected: "@ + back
                    + "\n"@,
                Some(suggested),
            ),
            (ReviewPhase::Grading, EventView::Graded(Err(e))) => self.ask_rating(
                "  evaluation unavailable: "@ + e + "\n"@ + back + "\n"@,
                None,
            ),
            (ReviewPhase::Revealing, EventView::Line(_)) => self.ask_rating(back + "\n"@, None),
            (ReviewPhase::Rating(_), EventView::Line(None)) => self.stop(
                "\ninput ended; stopping review\n"@,
            ),
            (ReviewPhase::Rating(suggested), EventView::Line(Some(key))) => match keyed_rating(
                key,
            ) {
                Some(rating) => Step {
                    session: self.waiting(ReviewPhase::Recording(rating)),
                    shown: seq![],
                    action: ActionView::Record { card: card.id, rating },
                },
                None => self.ask_rating("  unrecognized — enter 1, 2, 3, or 4\n"@, suggested),
            },
            (ReviewPhase::Recording(_), EventView::Recorded(days)) => {
                let done = "  next due in "@ + decimal(days as nat) + " day(s)\n"@;
                if self.at + 1 < self.cards.len() {
                    let next = self.show(self.at + 1);
                    Step { shown: done + next.shown, ..next }
                } else {
                    self.stop(done + "\nreviewed "@ + decimal(self.cards.len()) + " card(s)\n"@)
                }
            },
            _ => Step { session: self, shown: seq![], action: ActionView::Stop },
        }
    }
}

/// The first step of a session.
pub open spec fn first_step(cards: Seq<CardView>) -> Step {
    let session = SessionView { cards, at: 0, phase: ReviewPhase::Done };
    if cards.len() == 0 {
        session.stop("nothing due\n"@)
    } else {
        session.show(0)
    }
}

// ---------- the code ----------

impl ReviewSession {
    /// Shows a card.
    fn show_card(&mut self, at: usize) -> (r: (String, ReviewAction))
        requires
            at < old(self).cards@.len(),
        ensures
            old(self)@.show(at as nat) == (Step {
                session: final(self)@,
                shown: r.0@,
                action: r.1@,
            }),
            final(self)@.wf(),
    {
        let total = self.cards.len();
        let text = render_question(&self.cards[at].content);
        let mut shown = render_head(at + 1, total, text.as_str());
        match &self.cards[at].content {
            CardContent::Qa { .. } => {
                shown.append("your answer (or Enter to reveal): ");
                self.phase = ReviewPhase::Answering;
            },
            CardContent::Cloze { .. } => {
                shown.append("(press Enter to reveal) ");
                self.phase = ReviewPhase::Revealing;
            },
        }
        self.at = at;
        (shown, ReviewAction::ReadLine)
    }

    /// Shows some text and asks for a rating.
    fn ask(&mut self, shown: String, suggested: Option<Rating>) -> (r: (String, ReviewAction))
        requires
            old(self)@.at < old(self)@.cards.len(),
        ensures
            old(self)@.ask_rating(shown@, suggested) == (Step {
                session: final(self)@,
                shown: r.0@,
                action: r.1@,
            }),
            final(self)@.wf(),
    {
        let mut shown = shown;
        shown.append(rating_prompt(suggested).as_str());
        self.phase = ReviewPhase::Rating(suggested);
        (shown, ReviewAction::ReadLine)
    }

    /// Shows some text and ends the session.
    fn end(&mut self, shown: String) -> (r: (String, ReviewAction))
        ensures
            old(self)@.stop(shown@) == (Step {
                session: final(self)@,
                shown: r.0@,
                action: r.1@,
            }),
            final(self)@.wf(),
    {
        self.phase = ReviewPhase::Done;
        (shown, ReviewAction::Stop)
    }

    /// The answer side of the card that is shown, with a line feed.
    fn answer_line(&self) -> (s: String)
        requires
            self@.at < self@.cards.len(),
        ensures
            s@ == answer_side(self@.cards[self@.at as int].content) + "\n"@,
    {
        let mut s = match &self.cards[self.at].content {
            CardContent::Qa { back, .. } => back.clone(),
            CardContent::Cloze { text, .. } => text.clone(),
        };
        s.append("\n");
        s
    }

    /// Starts a session over some cards: the session, what it shows, and what
    /// it asks for.
    pub fn start(cards: Vec<Card>) -> (r: (ReviewSession, String, ReviewAction))
        ensures
            first_step(card_views(cards@)) == (Step {
                session: r.0@,
                shown: r.1@,
                action: r.2@,
            }),
            r.0@.wf(),
    {
        let mut session = ReviewSession { cards, at: 0, phase: ReviewPhase::Done };
        let (shown, action) = if session.cards.len() == 0 {
            session.end("nothing due\n".to_string())
        } else {
            session.show_card(0)
        };
        (session, shown, action)
    }

    /// Takes an event: what is shown then, and what is asked for.
    pub fn advance(&mut self, event: ReviewEvent) -> (r: (String, ReviewAction))
        requires
            old(self)@.wf(),
        ensures
            old(self)@.step(event@) == (Step {
                session: final(self)@,
                shown: r.0@,
                action: r.1@,
            }),
            final(self)@.wf(),
    {
        match (self.phase, event) {
            (ReviewPhase::Answering, ReviewEvent::Line(line)) => {
                let answer = match line {
                    Some(s) => trimmed_text(s.as_str()),
                    None => trimmed_text(String::new().as_str()),
                };
                if answer.as_str().is_empty() {
                    let shown = self.answer_line();
                    self.ask(shown, None)
                } else {
                    let card = self.cards[self.at].id;
                    self.phase = ReviewPhase::Grading;
                    (String::new(), ReviewAction::Grade { card, answer })
                }
            },
            (ReviewPhase::Grading, ReviewEvent::Graded(Ok(g))) => {
                let mut shown = "  ".to_string();
                shown.append(verdict_label(g.verdict));
                shown.append(" — ");
                shown.append(g.explanation.as_str());
                shown.append("\n  Expected: ");
                let ghost head = shown@;
                let back = self.answer_line();
                shown.append(back.as_str());
                assert(shown@ =~= head + answer_side(self@.cards[self@.at as int].content)
                    + "\n"@);
                self.ask(shown, Some(g.suggested_rating))
            },
            (ReviewPhase::Grading, ReviewEvent::Graded(Err(e))) => {
                let mut shown = "  evaluation unavailable: ".to_string();
                shown.append(e.as_str());
                shown.append("\n");
                let ghost head = shown@;
                let back = self.answer_line();
                shown.append(back.as_str());
                assert(shown@ =~= head + answer_side(self@.cards[self@.at as int].content)
                    + "\n"@);
                self.ask(shown, None)
            },
            (ReviewPhase::Revealing, ReviewEvent::Line(_)) => {
                let shown = self.answer_line();
                self.ask(shown, None)
            },
            (ReviewPhase::Rating(_), ReviewEvent::Line(None)) => self.end(
                "\ninput ended; stopping review\n".to_string(),
            ),
            (ReviewPhase::Rating(suggested), ReviewEvent::Line(Some(key))) => {
                match rating_from_key(key.as_str()) {
                    Some(rating) => {
                        let card = self.cards[self.at].id;
                        self.phase = ReviewPhase::Recording(rating);
                        (String::new(), ReviewAction::Record { card, rating })
                    },
                    None => self.ask(
                        "  unrecognized — enter 1, 2, 3, or 4\n".to_string(),
                        suggested,
                    ),
                }
            },
            (ReviewPhase::Recording(_), ReviewEvent::Recorded(days)) => {
                let mut done = "  next due in ".to_string();
                done.append(decimal_of(days as usize).as_str());
                done.append(" day(s)\n");
                let total = self.cards.len();
                if self.at < total - 1 {
                    let (shown, action) = self.show_card(self.at + 1);
                    done.append(shown.as_str());
                    (done, action)
                } else {
                    done.append("\nreviewed ");
                    done.append(decimal_of(total).as_str());
                    done.append(" card(s)\n");
                    self.end(done)
                }
            },
            _ => (String::new(), ReviewAction::Stop),
        }
    }
}

// ---------- laws ----------

/// A session goes to the next card only when the review of the one before it is
/// recorded, and never leaves a card out.
pub proof fn law_cards_are_reviewed_in_turn(s: SessionView, event: EventView)
    requires
        s.wf(),
    ensures
        ({
            let next = s.step(event).session;
            &&& next.wf()
            &&& next.cards == s.cards
            &&& next.at == s.at || (next.at == s.at + 1 && s.phase is Recording && event
                is Recorded)
        }),
{
}

/// What is recorded is the rating that the learner keyed for the card that is
/// shown, never one that was only suggested.
pub proof fn law_only_keyed_ratings_are_recorded(s: SessionView, event: EventView)
    requires
        s.wf(),
    ensures
        s.step(event).action matches ActionView::Record { card, rating } ==> {
            &&& card == s.cards[s.at as int].id
            &&& s.phase is Rating
            &&& event matches EventView::Line(Some(key)) && keyed_rating(key) == Some(rating)
        },
{
}

/// A key that stands for no rating is asked for again, with the same rating
/// suggested.
pub proof fn law_unknown_key_is_asked_again(
    s: SessionView,
    suggested: Option<Rating>,
    key: Seq<char>,
)
    requires
        s.phase == ReviewPhase::Rating(suggested),
        keyed_rating(key) is None,
    ensures
        s.step(EventView::Line(Some(key))).session == s,
        s.step(EventView::Line(Some(key))).action == ActionView::ReadLine,
{
}

/// A session begins with the question side of its first card: the front of a Q&A
/// card, a cloze text with its blanks blanked. A session without cards ends.
pub proof fn law_first_card_is_asked(cards: Seq<CardView>)
    ensures
        cards.len() == 0 ==> {
            &&& first_step(cards).shown == "nothing due\n"@
            &&& first_step(cards).action == ActionView::Stop
        },
        cards.len() > 0 ==> {
            let first = first_step(cards);
            let head = "\n["@ + decimal(1) + "/"@ + decimal(cards.len()) + "] "@;
            &&& first.action == ActionView::ReadLine
            &&& first.session.cards == cards
            &&& first.session.at == 0
            &&& cards[0].content matches ContentView::Qa { front, back } ==> first.shown == head
                + front + "\n"@ + "your answer (or Enter to reveal): "@
                && first.session.phase == ReviewPhase::Answering
            &&& cards[0].content matches ContentView::Cloze { text, spans } ==> first.shown == head
                + blanked(text, spans) + "\n"@ + "(press Enter to reveal) "@
                && first.session.phase == ReviewPhase::Revealing
        },
{
}

/// When the review of a card is recorded, the session says when it is due and asks
/// the question side of the card behind it; behind the last, it ends.
pub proof fn law_next_card_is_asked(s: SessionView, rating: Rating, days: u32)
    requires
        s.wf(),
        s.phase == ReviewPhase::Recording(rating),
    ensures
        ({
            let next = s.step(EventView::Recorded(days));
            let due = "  next due in "@ + decimal(days as nat) + " day(s)\n"@;
            let k = s.at + 1;
            let head = "\n["@ + decimal((k + 1) as nat) + "/"@ + decimal(s.cards.len()) + "] "@;
            &&& k < s.cards.len() ==> {
                &&& next.action == ActionView::ReadLine
                &&& next.session.at == k
                &&& s.cards[k as int].content matches ContentView::Qa { front, back } ==> next.shown
                    == due + (head + front + "\n"@ + "your answer (or Enter to reveal): "@)
                    && next.session.phase == ReviewPhase::Answering
                &&& s.cards[k as int].content matches ContentView::Cloze { text, spans }
                    ==> next.shown == due + (head + blanked(text, spans) + "\n"@
                    + "(press Enter to reveal) "@) && next.session.phase == ReviewPhase::Revealing
            }
            &&& k >= s.cards.len() ==> {
                &&& next.action == ActionView::Stop
                &&& next.session.phase == ReviewPhase::Done
                &&& next.shown == due + "\nreviewed "@ + decimal(s.cards.len()) + " card(s)\n"@
            }
        }),
{
}

/// An answer goes to be graded, trimmed and with the id of the card that is shown;
/// nothing is shown before its grade is there.
pub proof fn law_answers_are_graded(s: SessionView, line: Seq<char>)
    requires
        s.wf(),
        s.phase == ReviewPhase::Answering,
        trim(line).len() > 0,
    ensures
        ({
            let next = s.step(EventView::Line(Some(line)));
            &&& next.action == ActionView::Grade {
                card: s.cards[s.at as int].id,
                answer: trim(line),
            }
            &&& next.shown.len() == 0
            &&& next.session == s.waiting(ReviewPhase::Grading)
        }),
{
}

/// Without an answer, the answer side of the card that is shown is revealed, and
/// its rating is asked for with none suggested.
pub proof fn law_no_answer_reveals(s: SessionView, line: Option<Seq<char>>)
    requires
        s.wf(),
        s.phase == ReviewPhase::Revealing || (s.phase == ReviewPhase::Answering && (line
            matches Some(l) ==> trim(l).len() == 0)),
    ensures
        ({
            let next = s.step(EventView::Line(line));
            let asked = "\n"@ + rating_question(None);
            &&& s.cards[s.at as int].content matches ContentView::Qa { front, back } ==> next.shown
                =~= back + asked
            &&& s.cards[s.at as int].content matches ContentView::Cloze { text, spans }
                ==> next.shown =~= text + asked
            &&& next.action == ActionView::ReadLine
            &&& next.session == s.waiting(ReviewPhase::Rating(None))
        }),
{
    let none: Seq<char> = seq![];
    crate::text::lemma_trim_blank(none);
}

/// A grade is shown with its verdict, its explanation and the answer side of the
/// card, and the rating that it suggests is marked in the question for one.
pub proof fn law_grades_are_shown(
    s: SessionView,
    verdict: Verdict,
    explanation: Seq<char>,
    suggested: Rating,
)
    requires
        s.wf(),
        s.phase == ReviewPhase::Grading,
    ensures
        ({
            let next = s.step(EventView::Graded(Ok((verdict, explanation, suggested))));
            let said = "  "@ + verdict_words(verdict) + " — "@ + explanation + "\n  Expected: "@;
            let asked = "\n"@ + rating_question(Some(suggested));
            &&& s.cards[s.at as int].content matches ContentView::Qa { front, back } ==> next.shown
                =~= said + back + asked
            &&& s.cards[s.at as int].content matches ContentView::Cloze { text, spans }
                ==> next.shown =~= said + text + asked
            &&& next.action == ActionView::ReadLine
            &&& next.session == s.waiting(ReviewPhase::Rating(Some(suggested)))
        }),
{
}

/// Where there is no grade, the session says why, reveals the answer side all the
/// same, and goes on.
pub proof fn law_missing_grade_does_not_stop(s: SessionView, e: Seq<char>)
    requires
        s.wf(),
        s.phase == ReviewPhase::Grading,
    ensures
        ({
            let next = s.step(EventView::Graded(Err(e)));
            let said = "  evaluation unavailable: "@ + e + "\n"@;
            let asked = "\n"@ + rating_question(None);
            &&& s.cards[s.at as int].content matches ContentView::Qa { front, back } ==> next.shown
                =~= said + back + asked
            &&& s.cards[s.at as int].content matches ContentView::Cloze { text, spans }
                ==> next.shown =~= said + text + asked
            &&& next.action == ActionView::ReadLine
            &&& next.session == s.waiting(ReviewPhase::Rating(None))
        }),
{
}

/// A rating that is keyed is recorded for the card that is shown; another key is
/// asked for again; and where the input ends, the session stops and records
/// nothing.
pub proof fn law_keyed_ratings_are_recorded(
    s: SessionView,
    suggested: Option<Rating>,
    key: Seq<char>,
)
    requires
        s.wf(),
        s.phase == ReviewPhase::Rating(suggested),
    ensures
        keyed_rating(key) matches Some(rating) ==> {
            let next = s.step(EventView::Line(Some(key)));
            &&& next.action == ActionView::Record { card: s.cards[s.at as int].id, rating }
            &&& next.shown.len() == 0
            &&& next.session == s.waiting(ReviewPhase::Recording(rating))
        },
        keyed_rating(key) is None ==> s.step(EventView::Line(Some(key))).shown
            == "  unrecognized — enter 1, 2, 3, or 4\n"@ + rating_question(suggested),
        s.step(EventView::Line(None)).action == ActionView::Stop,
        s.step(EventView::Line(None)).shown == "\ninput ended; stopping review\n"@,
        s.step(EventView::Line(None)).session == s.waiting(ReviewPhase::Done),
{
}

/// An event that a session does not wait for changes nothing and shows nothing.
pub proof fn law_other_events_change_nothing(s: SessionView, event: EventView)
    requires
        match s.phase {
            ReviewPhase::Answering | ReviewPhase::Revealing | ReviewPhase::Rating(_) => !(event
                is Line),
            ReviewPhase::Grading => !(event is Graded),
            ReviewPhase::Recording(_) => !(event is Recorded),
            ReviewPhase::Done => true,
        },
    ensures
        s.step(event).session == s,
        s.step(event).shown.len() == 0,
        s.step(event).action == ActionView::Stop,
{
}

/// A session that is started over some cards asks the first of them.
pub proof fn law_started_session(cards: Vec<Card>, r: (ReviewSession, String, ReviewAction))
    requires
        call_ensures(ReviewSession::start, (cards,), r),
    ensures
        r.0@.cards == card_views(cards@),
        cards@.len() == 0 ==> r.1@ == "nothing due\n"@ && r.2@ == ActionView::Stop,
        cards@.len() > 0 ==> {
            let head = "\n["@ + decimal(1) + "/"@ + decimal(cards@.len()) + "] "@;
            &&& r.0@.at == 0
            &&& r.2@ == ActionView::ReadLine
            &&& cards@[0]@.content matches ContentView::Qa { front, back } ==> r.1@ == head + front
                + "\n"@ + "your answer (or Enter to reveal): "@
            &&& cards@[0]@.content matches ContentView::Cloze { text, spans } ==> r.1@ == head
                + blanked(text, spans) + "\n"@ + "(press Enter to reveal) "@
        },
{
    law_first_card_is_asked(card_views(cards@));
    assert(card_views(cards@).len() == cards@.len());
    if cards@.len() > 0 {
        assert(card_views(cards@)[0] == cards@[0]@);
    }
}

} // verus!
