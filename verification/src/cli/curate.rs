//! A curation session, one decision at a time.

use vstd::prelude::*;
use vstd::string::StringExecFns;

use crate::cli::{card_head, card_text, render_card, render_head, trimmed_text};
use crate::model::{card_views, Card, CardContent, CardId, CardView, ContentView};
use crate::text::{decimal, decimal_of, same, trim};

verus! {

/// What a session waits for.
#[derive(Debug)]
pub enum CuratePhase {
    /// A choice.
    Choosing,
    /// That the card is accepted.
    Accepting,
    /// That the card is rejected.
    Rejecting,
    /// Edited content.
    Editing,
    /// That the edited content is taken.
    Patching(CardContent),
    /// Nothing more.
    Done,
}

/// A curation session over some cards.
#[derive(Debug)]
pub struct CurateSession {
    pub cards: Vec<Card>,
    /// The card that is shown.
    pub at: usize,
    /// Its content, with the edits so far.
    pub content: CardContent,
    pub phase: CuratePhase,
}

/// What comes to a session.
#[derive(Debug)]
pub enum CurateEvent {
    /// A line of input, or the end of the input.
    Line(Option<String>),
    /// The server did what was asked.
    Confirmed,
    /// Edited content, or why there is none.
    Edited(Result<CardContent, String>),
}

/// What a session asks for.
#[derive(Debug)]
pub enum CurateAction {
    /// Read a line.
    ReadLine,
    /// Accept a card.
    Accept(CardId),
    /// Reject a card.
    Reject(CardId),
    /// Let the content be edited.
    Edit(CardContent),
    /// Replace the content of a card.
    Patch(CardId, CardContent),
    /// Stop.
    Stop,
}

// ---------- the model ----------

/// What a session waits for.
pub enum PhaseView {
    Choosing,
    Accepting,
    Rejecting,
    Editing,
    Patching(ContentView),
    Done,
}

impl View for CuratePhase {
    type V = PhaseView;

    open spec fn view(&self) -> PhaseView {
        match *self {
            CuratePhase::Choosing => PhaseView::Choosing,
            CuratePhase::Accepting => PhaseView::Accepting,
            CuratePhase::Rejecting => PhaseView::Rejecting,
            CuratePhase::Editing => PhaseView::Editing,
            CuratePhase::Patching(c) => PhaseView::Patching(c@),
            CuratePhase::Done => PhaseView::Done,
        }
    }
}

/// What a session is.
pub struct SessionView {
    pub cards: Seq<CardView>,
    pub at: nat,
    pub content: ContentView,
    pub phase: PhaseView,
}

impl View for CurateSession {
    type V = SessionView;

    open spec fn view(&self) -> SessionView {
        SessionView {
            cards: card_views(self.cards@),
            at: self.at as nat,
            content: self.content@,
            phase: self.phase@,
        }
    }
}

/// What comes to a session.
pub enum EventView {
    Line(Option<Seq<char>>),
    Confirmed,
    Edited(Result<ContentView, Seq<char>>),
}

impl View for CurateEvent {
    type V = EventView;

    open spec fn view(&self) -> EventView {
        match *self {
            CurateEvent::Line(Some(s)) => EventView::Line(Some(s@)),
            CurateEvent::Line(None) => EventView::Line(None),
            CurateEvent::Confirmed => EventView::Confirmed,
            CurateEvent::Edited(Ok(c)) => EventView::Edited(Ok(c@)),
            CurateEvent::Edited(Err(e)) => EventView::Edited(Err(e@)),
        }
    }
}

/// What a session asks for.
pub enum ActionView {
    ReadLine,
    Accept(CardId),
    Reject(CardId),
    Edit(ContentView),
    Patch(CardId, ContentView),
    Stop,
}

impl View for CurateAction {
    type V = ActionView;

    open spec fn view(&self) -> ActionView {
        match *self {
            CurateAction::ReadLine => ActionView::ReadLine,
            CurateAction::Accept(id) => ActionView::Accept(id),
            CurateAction::Reject(id) => ActionView::Reject(id),
            CurateAction::Edit(c) => ActionView::Edit(c@),
            CurateAction::Patch(id, c) => ActionView::Patch(id, c@),
            CurateAction::Stop => ActionView::Stop,
        }
    }
}

/// A step of a session: how it stands then, what it shows and what it asks for.
pub struct Step {
    pub session: SessionView,
    pub shown: Seq<char>,
    pub action: ActionView,
}

/// The choices.
pub open spec fn menu() -> Seq<char> {
    "[a]ccept [r]eject [e]dit [s]kip [q]uit: "@
}

impl SessionView {
    /// Whether the session is on one of its cards, or done.
    pub open spec fn wf(self) -> bool {
        self.phase != PhaseView::Done ==> self.at < self.cards.len()
    }

    /// The step that waits for something else and shows and asks for it.
    pub open spec fn wait(self, phase: PhaseView, action: ActionView) -> Step {
        Step { session: SessionView { phase, ..self }, shown: seq![], action }
    }

    /// The step that shows some text and the choices.
    pub open spec fn choose_again(self, shown: Seq<char>) -> Step {
        Step {
            session: SessionView { phase: PhaseView::Choosing, ..self },
            shown: shown + menu(),
            action: ActionView::ReadLine,
        }
    }

    /// The step that shows a card.
    pub open spec fn show(self, at: nat) -> Step {
        let card = self.cards[at as int];
        SessionView { at, content: card.content, ..self }.choose_again(
            card_head(at + 1, self.cards.len(), card.source_file) + card_text(card.content),
        )
    }

    /// The step that shows some text and ends the session.
    pub open spec fn stop(self, shown: Seq<char>) -> Step {
        Step {
            session: SessionView { phase: PhaseView::Done, ..self },
            shown,
            action: ActionView::Stop,
        }
    }

    /// The step that shows some text and goes on to the next card, or ends the
    /// session after the last.
    pub open spec fn go_on(self, shown: Seq<char>) -> Step {
        if self.at + 1 < self.cards.len() {
            let next = self.show(self.at + 1);
            Step { shown: shown + next.shown, ..next }
        } else {
            self.stop(shown + "\ncurated "@ + decimal(self.cards.len()) + " card(s)\n"@)
        }
    }

    /// What comes of a choice.
    pub open spec fn choice(self, line: Seq<char>) -> Step {
        let key = trim(line);
        let id = self.cards[self.at as int].id;
        if key == "a"@ {
            self.wait(PhaseView::Accepting, ActionView::Accept(id))
        } else if key == "r"@ {
            self.wait(PhaseView::Rejecting, ActionView::Reject(id))
        } else if key == "s"@ {
            self.go_on("  skipped\n"@)
        } else if key == "q"@ {
            self.stop("stopping\n"@)
        } else if key == "e"@ {
            self.wait(PhaseView::Editing, ActionView::Edit(self.content))
        } else {
            self.choose_again("  unrecognized '"@ + key + "' — use a/r/e/s/q\n"@)
        }
    }

    /// What comes of an event. An event that the session does not wait for
    /// leaves it as it is.
    pub open spec fn step(self, event: EventView) -> Step {
        let id = self.cards[self.at as int].id;
        match (self.phase, event) {
            (PhaseView::Choosing, EventView::Line(None)) => self.stop(
                "\ninput ended; stopping\n"@,
            ),
            (PhaseView::Choosing, EventView::Line(Some(line))) => self.choice(line),
            (PhaseView::Accepting, EventView::Confirmed) => self.go_on("  accepted\n"@),
            (PhaseView::Rejecting, EventView::Confirmed) => self.go_on("  rejected\n"@),
            (PhaseView::Editing, EventView::Edited(Ok(c))) => self.wait(
                PhaseView::Patching(c),
                ActionView::Patch(id, c),
            ),
            (PhaseView::Editing, EventView::Edited(Err(e))) => self.choose_again(
                "  edit aborted: "@ + e + "\n"@,
            ),
            (PhaseView::Patching(c), EventView::Confirmed) => SessionView {
                content: c,
                ..self
            }.choose_again("  edited\n"@ + card_text(c)),
            _ => Step { session: self, shown: seq![], action: ActionView::Stop },
        }
    }
}

/// The first step of a session.
pub open spec fn first_step(cards: Seq<CardView>, none: ContentView) -> Step {
    let session = SessionView { cards, at: 0, content: none, phase: PhaseView::Done };
    if cards.len() == 0 {
        session.stop("nothing pending\n"@)
    } else {
        session.show(0)
    }
}

/// Content that says nothing.
pub open spec fn no_content() -> ContentView {
    ContentView::Qa { front: seq![], back: seq![] }
}

// ---------- the code ----------

impl CurateSession {
    /// Shows some text and the choices.
    fn offer(&mut self, shown: String) -> (r: (String, CurateAction))
        requires
            old(self)@.at < old(self)@.cards.len(),
        ensures
            old(self)@.choose_again(shown@) == (Step {
                session: final(self)@,
                shown: r.0@,
                action: r.1@,
            }),
            final(self)@.wf(),
    {
        let mut shown = shown;
        shown.append("[a]ccept [r]eject [e]dit [s]kip [q]uit: ");
        self.phase = CuratePhase::Choosing;
        (shown, CurateAction::ReadLine)
    }

    /// Shows a card.
    fn show_card(&mut self, at: usize) -> (r: (String, CurateAction))
        requires
            at < old(self).cards@.len(),
        ensures
            old(self)@.show(at as nat) == (Step {
                session: final(self)@,
                shown: r.0@,
                action: r.1@,
            }),
            final(self)@.wf(),
    {
        let total = self.cards.len();
        let mut shown = render_head(at + 1, total, self.cards[at].source_file.as_str());
        shown.append(render_card(&self.cards[at].content).as_str());
        self.content = self.cards[at].content.clone();
        self.at = at;
        self.offer(shown)
    }

    /// Shows some text and ends the session.
    fn end(&mut self, shown: String) -> (r: (String, CurateAction))
        ensures
            old(self)@.stop(shown@) == (Step {
                session: final(self)@,
                shown: r.0@,
                action: r.1@,
            }),
            final(self)@.wf(),
    {
        self.phase = CuratePhase::Done;
        (shown, CurateAction::Stop)
    }

    /// Shows some text and goes on to the next card, or ends the session.
    fn go_to_next(&mut self, shown: String) -> (r: (String, CurateAction))
        requires
            old(self)@.at < old(self)@.cards.len(),
        ensures
            old(self)@.go_on(shown@) == (Step {
                session: final(self)@,
                shown: r.0@,
                action: r.1@,
            }),
            final(self)@.wf(),
    {
        let mut shown = shown;
        let total = self.cards.len();
        if self.at < total - 1 {
            let (more, action) = self.show_card(self.at + 1);
            shown.append(more.as_str());
            (shown, action)
        } else {
            shown.append("\ncurated ");
            shown.append(decimal_of(total).as_str());
            shown.append(" card(s)\n");
            self.end(shown)
        }
    }

    /// Starts a session over some cards: the session, what it shows, and what
    /// it asks for.
    pub fn start(cards: Vec<Card>) -> (r: (CurateSession, String, CurateAction))
        ensures
            first_step(card_views(cards@), no_content()) == (Step {
                session: r.0@,
                shown: r.1@,
                action: r.2@,
            }),
            r.0@.wf(),
    {
        let mut session = CurateSession {
            cards,
            at: 0,
            content: CardContent::Qa { front: String::new(), back: String::new() },
            phase: CuratePhase::Done,
        };
        assert(session@.content == no_content());
        let (shown, action) = if session.cards.len() == 0 {
            session.end("nothing pending\n".to_string())
        } else {
            session.show_card(0)
        };
        (session, shown, action)
    }

    /// Takes a choice.
    fn take_choice(&mut self, line: &str) -> (r: (String, CurateAction))
        requires
            old(self)@.at < old(self)@.cards.len(),
        ensures
            old(self)@.choice(line@) == (Step {
                session: final(self)@,
                shown: r.0@,
                action: r.1@,
            }),
            final(self)@.wf(),
    {
        let key = trimmed_text(line);
        let key = key.as_str();
        let id = self.cards[self.at].id;
        if same(key, "a") {
            self.phase = CuratePhase::Accepting;
            (String::new(), CurateAction::Accept(id))
        } else if same(key, "r") {
            self.phase = CuratePhase::Rejecting;
            (String::new(), CurateAction::Reject(id))
        } else if same(key, "s") {
            self.go_to_next("  skipped\n".to_string())
        } else if same(key, "q") {
            self.end("stopping\n".to_string())
        } else if same(key, "e") {
            self.phase = CuratePhase::Editing;
            (String::new(), CurateAction::Edit(self.content.clone()))
        } else {
            let mut shown = "  unrecognized '".to_string();
            shown.append(key);
            shown.append("' — use a/r/e/s/q\n");
            self.offer(shown)
        }
    }

    /// Takes an event: what is shown then, and what is asked for.
    pub fn advance(&mut self, event: CurateEvent) -> (r: (String, CurateAction))
        requires
            old(self)@.wf(),
        ensures
            old(self)@.step(event@) == (Step {
                session: final(self)@,
                shown: r.0@,
                action: r.1@,
            }),
            final(self)@.wf(),
    {
        match event {
            CurateEvent::Line(line) => match (&self.phase, line) {
                (CuratePhase::Choosing, None) => self.end("\ninput ended; stopping\n".to_string()),
                (CuratePhase::Choosing, Some(line)) => self.take_choice(line.as_str()),
                _ => (String::new(), CurateAction::Stop),
            },
            CurateEvent::Confirmed => match &self.phase {
                CuratePhase::Accepting => self.go_to_next("  accepted\n".to_string()),
                CuratePhase::Rejecting => self.go_to_next("  rejected\n".to_string()),
                CuratePhase::Patching(c) => {
                    let content = c.clone();
                    let mut shown = "  edited\n".to_string();
                    shown.append(render_card(&content).as_str());
                    self.content = content;
                    self.offer(shown)
                },
                _ => (String::new(), CurateAction::Stop),
            },
            CurateEvent::Edited(result) => match (&self.phase, result) {
                (CuratePhase::Editing, Ok(c)) => {
                    let id = self.cards[self.at].id;
                    self.phase = CuratePhase::Patching(c.clone());
                    (String::new(), CurateAction::Patch(id, c))
                },
                (CuratePhase::Editing, Err(e)) => {
                    let mut shown = "  edit aborted: ".to_string();
                    shown.append(e.as_str());
                    shown.append("\n");
                    self.offer(shown)
                },
                _ => (String::new(), CurateAction::Stop),
            },
        }
    }
}

// ---------- laws ----------

/// A session goes to the next card only when the learner skips the one that is
/// shown, or its acceptance or rejection is confirmed; an edit stays on the
/// card.
pub proof fn law_cards_are_curated_in_turn(s: SessionView, event: EventView)
    requires
        s.wf(),
    ensures
        ({
            let next = s.step(event).session;
            &&& next.wf()
            &&& next.cards == s.cards
            &&& next.at == s.at || (next.at == s.at + 1 && (s.phase is Accepting || s.phase
                is Rejecting || s.phase is Choosing))
        }),
{
}

/// A card is accepted or rejected only on the learner's word, and only the one
/// that is shown.
pub proof fn law_cards_are_accepted_on_request(s: SessionView, event: EventView)
    requires
        s.wf(),
    ensures
        s.step(event).action matches ActionView::Accept(id) ==> id == s.cards[s.at as int].id && (
        event matches EventView::Line(Some(line)) && trim(line) == "a"@),
        s.step(event).action matches ActionView::Reject(id) ==> id == s.cards[s.at as int].id && (
        event matches EventView::Line(Some(line)) && trim(line) == "r"@),
{
}

/// Content that was edited and taken is what is offered for the next edit.
pub proof fn law_edits_build_on_each_other(s: SessionView, c: ContentView, e: Seq<char>)
    requires
        s.wf(),
        s.phase == PhaseView::Patching(c),
        trim(e) == "e"@,
    ensures
        ({
            let edited = s.step(EventView::Confirmed).session;
            edited.step(EventView::Line(Some(e))).action == ActionView::Edit(c)
        }),
{
    reveal_strlit("e");
    reveal_strlit("a");
    reveal_strlit("r");
    reveal_strlit("s");
    reveal_strlit("q");
    assert("e"@[0] == 'e');
    assert("a"@[0] != "e"@[0] && "r"@[0] != "e"@[0] && "s"@[0] != "e"@[0] && "q"@[0] != "e"@[0]);
}

/// If a step asks to replace the content of a card, it is that of the card that is
/// shown, with the content that the edit gave.
pub proof fn law_edits_go_to_the_card_that_is_shown(s: SessionView, event: EventView)
    requires
        s.wf(),
    ensures
        s.step(event).action matches ActionView::Patch(id, content) ==> {
            &&& id == s.cards[s.at as int].id
            &&& event == EventView::Edited(Ok(content))
            &&& s.phase is Editing
        },
        event matches EventView::Edited(Ok(c)) ==> s.phase is Editing ==> {
            &&& s.step(event).action == ActionView::Patch(s.cards[s.at as int].id, c)
            &&& s.step(event).session == (SessionView { phase: PhaseView::Patching(c), ..s })
        },
        s.step(event).action matches ActionView::Edit(content) ==> content == s.content
            && s.phase is Choosing,
{
}

/// An edit that came to nothing leaves the card as it is, and the choices are
/// offered again.
pub proof fn law_aborted_edit_changes_nothing(s: SessionView, e: Seq<char>)
    requires
        s.wf(),
        s.phase is Editing,
    ensures
        ({
            let next = s.step(EventView::Edited(Err(e)));
            &&& next.session == (SessionView { phase: PhaseView::Choosing, ..s })
            &&& next.action == ActionView::ReadLine
            &&& next.shown == "  edit aborted: "@ + e + "\n"@ + menu()
        }),
{
}

/// Content that was edited and taken is shown in full, and the choices are offered
/// again for the same card.
pub proof fn law_edited_content_is_shown(s: SessionView, c: ContentView)
    requires
        s.wf(),
        s.phase == PhaseView::Patching(c),
    ensures
        ({
            let next = s.step(EventView::Confirmed);
            &&& next.session == (SessionView { phase: PhaseView::Choosing, content: c, ..s })
            &&& next.action == ActionView::ReadLine
            &&& next.shown == "  edited\n"@ + card_text(c) + menu()
        }),
{
}

/// Whether a step shows a card of some cards: its number, where it comes from, its
/// content in full, and the choices. What is edited then is that content.
pub open spec fn shows_card(next: Step, cards: Seq<CardView>, k: nat, before: Seq<char>) -> bool {
    let card = cards[k as int];
    &&& next.session.cards == cards
    &&& next.session.at == k
    &&& next.session.content == card.content
    &&& next.session.phase is Choosing
    &&& next.action == ActionView::ReadLine
    &&& next.shown == before + ("\n["@ + decimal(k + 1) + "/"@ + decimal(cards.len()) + "] "@
        + card.source_file + "\n"@ + card_text(card.content) + menu())
}

/// A session begins with its first card; one without cards ends.
pub proof fn law_first_card_is_shown(cards: Seq<CardView>, none: ContentView)
    ensures
        cards.len() == 0 ==> {
            &&& first_step(cards, none).shown == "nothing pending\n"@
            &&& first_step(cards, none).action == ActionView::Stop
        },
        cards.len() > 0 ==> shows_card(first_step(cards, none), cards, 0, seq![]),
{
    if cards.len() > 0 {
        let first = first_step(cards, none);
        assert(seq![] + first.shown =~= first.shown);
    }
}

/// Once a card is accepted, rejected or skipped, the card behind it is shown;
/// behind the last, the session ends.
pub proof fn law_next_card_is_shown(s: SessionView, line: Seq<char>)
    requires
        s.wf(),
        s.phase is Accepting || s.phase is Rejecting || (s.phase is Choosing && trim(line)
            == "s"@),
    ensures
        ({
            let (next, said) = match s.phase {
                PhaseView::Accepting => (s.step(EventView::Confirmed), "  accepted\n"@),
                PhaseView::Rejecting => (s.step(EventView::Confirmed), "  rejected\n"@),
                _ => (s.step(EventView::Line(Some(line))), "  skipped\n"@),
            };
            &&& s.at + 1 < s.cards.len() ==> shows_card(next, s.cards, s.at + 1, said)
            &&& s.at + 1 >= s.cards.len() ==> {
                &&& next.action == ActionView::Stop
                &&& next.session.phase is Done
                &&& next.shown == said + "\ncurated "@ + decimal(s.cards.len()) + " card(s)\n"@
            }
        }),
{
    lemma_choices();
    let (next, said) = match s.phase {
        PhaseView::Accepting => (s.step(EventView::Confirmed), "  accepted\n"@),
        PhaseView::Rejecting => (s.step(EventView::Confirmed), "  rejected\n"@),
        _ => (s.step(EventView::Line(Some(line))), "  skipped\n"@),
    };
    if s.at + 1 < s.cards.len() {
        let card = s.cards[s.at as int + 1];
        assert(next.shown =~= said + ("\n["@ + decimal(s.at + 1 + 1) + "/"@ + decimal(
            s.cards.len(),
        ) + "] "@ + card.source_file + "\n"@ + card_text(card.content) + menu()));
    }
}

proof fn lemma_choices()
    ensures
        "a"@ != "r"@ && "a"@ != "s"@ && "a"@ != "q"@ && "a"@ != "e"@,
        "r"@ != "s"@ && "r"@ != "q"@ && "r"@ != "e"@,
        "s"@ != "q"@ && "s"@ != "e"@,
        "q"@ != "e"@,
{
    reveal_strlit("e");
    reveal_strlit("a");
    reveal_strlit("r");
    reveal_strlit("s");
    reveal_strlit("q");
    assert("a"@[0] == 'a' && "r"@[0] == 'r' && "s"@[0] == 's' && "q"@[0] == 'q' && "e"@[0] == 'e');
}

/// Each choice does what it says for the card that is shown: accept it, reject it,
/// edit its content, or stop. Another line is no choice, and the choices are
/// offered again.
pub proof fn law_choices_do_what_they_say(s: SessionView, line: Seq<char>)
    requires
        s.wf(),
        s.phase is Choosing,
    ensures
        ({
            let next = s.step(EventView::Line(Some(line)));
            let id = s.cards[s.at as int].id;
            let key = trim(line);
            &&& key == "a"@ ==> next.action == ActionView::Accept(id) && next.session == (
                SessionView { phase: PhaseView::Accepting, ..s })
            &&& key == "r"@ ==> next.action == ActionView::Reject(id) && next.session == (
                SessionView { phase: PhaseView::Rejecting, ..s })
            &&& key == "e"@ ==> next.action == ActionView::Edit(s.content) && next.session == (
                SessionView { phase: PhaseView::Editing, ..s })
            &&& key == "q"@ ==> next.action == ActionView::Stop && next.shown == "stopping\n"@
                && next.session.phase is Done
            &&& key != "a"@ && key != "r"@ && key != "e"@ && key != "s"@ && key != "q"@ ==> {
                &&& next.session == s
                &&& next.action == ActionView::ReadLine
                &&& next.shown == "  unrecognized '"@ + key + "' — use a/r/e/s/q\n"@ + menu()
            }
        }),
        s.step(EventView::Line(None)).action == ActionView::Stop,
        s.step(EventView::Line(None)).shown == "\ninput ended; stopping\n"@,
{
    lemma_choices();
}

/// The choices name their keys.
pub proof fn law_menu_names_the_choices()
    ensures
        menu() == "[a]ccept [r]eject [e]dit [s]kip [q]uit: "@,
{
}

/// An event that a session does not wait for changes nothing and shows nothing.
pub proof fn law_other_events_change_nothing(s: SessionView, event: EventView)
    requires
        match s.phase {
            PhaseView::Choosing => !(event is Line),
            PhaseView::Accepting | PhaseView::Rejecting | PhaseView::Patching(_) => !(event
                is Confirmed),
            PhaseView::Editing => !(event is Edited),
            PhaseView::Done => true,
        },
    ensures
        s.step(event).session == s,
        s.step(event).shown.len() == 0,
        s.step(event).action == ActionView::Stop,
{
}

/// A session that is started over some cards shows the first of them.
pub proof fn law_started_session(cards: Vec<Card>, r: (CurateSession, String, CurateAction))
    requires
        call_ensures(CurateSession::start, (cards,), r),
    ensures
        cards@.len() == 0 ==> r.1@ == "nothing pending\n"@ && r.2@ == ActionView::Stop,
        cards@.len() > 0 ==> shows_card(
            Step { session: r.0@, shown: r.1@, action: r.2@ },
            card_views(cards@),
            0,
            seq![],
        ),
{
    law_first_card_is_shown(card_views(cards@), no_content());
    assert(card_views(cards@).len() == cards@.len());
}

} // verus!
