//! The domain types: cards, their content, and reviews.

use vstd::prelude::*;

use crate::text::views;

verus! {

/// A card's UUID, as the 128-bit number that it is.
pub type CardId = u128;

/// An instant in UTC: whole seconds since the Unix epoch, and nanoseconds
/// within the second (a leap second goes on past one thousand million).
#[derive(Debug, Clone, Copy, PartialEq, Eq, Structural)]
pub struct Timestamp {
    pub secs: i64,
    pub nanos: u32,
}

/// Whether the calendar has this second: from the first of the year -262143 to
/// the last of the year 262142.
pub open spec fn in_calendar(secs: int) -> bool {
    -8334601228800 <= secs <= 8210266876799
}

impl Timestamp {
    /// Whether `self` is no later than `other`.
    pub open spec fn at_or_before(self, other: Timestamp) -> bool {
        self.secs < other.secs || (self.secs == other.secs && self.nanos <= other.nanos)
    }

    /// Whether the calendar has this instant: its year lies between -262143 and
    /// 262142, and a second goes on past one thousand million nanoseconds only
    /// at the end of a minute.
    pub open spec fn valid(self) -> bool {
        &&& in_calendar(self.secs as int)
        &&& self.nanos < 2_000_000_000
        &&& self.nanos >= 1_000_000_000 ==> self.secs as int % 60 == 59
    }

    /// Whether the calendar still has the instant so many days later.
    pub open spec fn has_days_later(self, days: u32) -> bool {
        in_calendar(self.secs + 86400 * days)
    }

    /// The instant so many days later. No leap second is hit on the way, so one
    /// is left behind.
    pub open spec fn days_later(self, days: u32) -> Timestamp {
        Timestamp {
            secs: (self.secs + 86400 * days) as i64,
            nanos: if days > 0 && self.nanos >= 1_000_000_000 {
                (self.nanos - 1_000_000_000) as u32
            } else {
                self.nanos
            },
        }
    }

    /// Whether `self` is no later than `other`.
    pub fn is_at_or_before(&self, other: &Timestamp) -> (b: bool)
        ensures
            b == self.at_or_before(*other),
    {
        self.secs < other.secs || (self.secs == other.secs && self.nanos <= other.nanos)
    }
}

/// The two card formats.
#[derive(Debug, PartialEq, Eq)]
pub enum CardContent {
    Qa { front: String, back: String },
    Cloze { text: String, spans: Vec<ClozeSpan> },
}

/// A blank in a cloze text, as byte offsets into it.
#[derive(Debug, PartialEq, Eq)]
pub struct ClozeSpan {
    pub start: usize,
    pub end: usize,
    pub hint: Option<String>,
}

/// Where a card is in its life.
#[derive(Debug, Clone, Copy, PartialEq, Eq, Structural)]
pub enum CardStatus {
    Pending,
    Accepted,
    Orphaned,
    Stale,
    Rejected,
}

/// A flashcard with its anchor in the note that it came from.
#[derive(Debug, PartialEq, Eq)]
pub struct Card {
    pub id: CardId,
    pub content: CardContent,
    pub source_file: String,
    pub source_heading: Option<String>,
    pub tags: Vec<String>,
    pub status: CardStatus,
    pub created_at: Timestamp,
}

/// A learner's own grade of a recall.
#[derive(Debug, Clone, Copy, PartialEq, Eq, Structural)]
pub enum Rating {
    Again,
    Hard,
    Good,
    Easy,
}

/// A grader's view of a free-text answer.
#[derive(Debug, Clone, Copy, PartialEq, Eq, Structural)]
pub enum Verdict {
    Correct,
    Partial,
    Incorrect,
}

impl Verdict {
    /// The rating that a verdict suggests.
    pub open spec fn suggests(self) -> Rating {
        match self {
            Verdict::Correct => Rating::Good,
            Verdict::Partial => Rating::Hard,
            Verdict::Incorrect => Rating::Again,
        }
    }

    /// The rating that a verdict suggests.
    pub fn suggested_rating(self) -> (r: Rating)
        ensures
            r == self.suggests(),
    {
        match self {
            Verdict::Correct => Rating::Good,
            Verdict::Partial => Rating::Hard,
            Verdict::Incorrect => Rating::Again,
        }
    }
}

/// One review of one card.
#[derive(Debug, Clone, Copy, PartialEq, Eq, Structural)]
pub struct Review {
    pub card_id: CardId,
    pub reviewed_at: Timestamp,
    pub rating: Rating,
    pub next_due: Timestamp,
}

// ---------- the model ----------

/// What a cloze blank is: its bounds and its hint.
pub struct SpanView {
    pub start: usize,
    pub end: usize,
    pub hint: Option<Seq<char>>,
}

/// What a card's content is.
pub enum ContentView {
    Qa { front: Seq<char>, back: Seq<char> },
    Cloze { text: Seq<char>, spans: Seq<SpanView> },
}

/// What a card is.
pub struct CardView {
    pub id: CardId,
    pub content: ContentView,
    pub source_file: Seq<char>,
    pub source_heading: Option<Seq<char>>,
    pub tags: Seq<Seq<char>>,
    pub status: CardStatus,
    pub created_at: Timestamp,
}

/// The text of an optional string.
pub open spec fn opt_view(o: Option<String>) -> Option<Seq<char>> {
    match o {
        Some(s) => Some(s@),
        None => None,
    }
}

impl View for ClozeSpan {
    type V = SpanView;

    open spec fn view(&self) -> SpanView {
        SpanView { start: self.start, end: self.end, hint: opt_view(self.hint) }
    }
}

/// The blanks of a cloze text.
pub open spec fn span_views(v: Seq<ClozeSpan>) -> Seq<SpanView> {
    v.map_values(|s: ClozeSpan| s@)
}

impl View for CardContent {
    type V = ContentView;

    open spec fn view(&self) -> ContentView {
        match *self {
            CardContent::Qa { front, back } => ContentView::Qa { front: front@, back: back@ },
            CardContent::Cloze { text, spans } => ContentView::Cloze {
                text: text@,
                spans: span_views(spans@),
            },
        }
    }
}

impl View for Card {
    type V = CardView;

    open spec fn view(&self) -> CardView {
        CardView {
            id: self.id,
            content: self.content@,
            source_file: self.source_file@,
            source_heading: opt_view(self.source_heading),
            tags: views(self.tags@),
            status: self.status,
            created_at: self.created_at,
        }
    }
}

/// The cards of a list.
pub open spec fn card_views(v: Seq<Card>) -> Seq<CardView> {
    v.map_values(|c: Card| c@)
}

/// A hexadecimal digit.
pub open spec fn hex_digit(n: nat) -> char {
    if n < 10 {
        ('0' as int + n) as char
    } else {
        ('a' as int + n - 10) as char
    }
}

/// A number in so many hexadecimal digits.
pub open spec fn hex(n: nat, digits: nat) -> Seq<char>
    decreases digits,
{
    if digits == 0 {
        seq![]
    } else {
        hex(n / 16, (digits - 1) as nat).push(hex_digit(n % 16))
    }
}

/// How an id is written: 32 hexadecimal digits in groups of 8, 4, 4, 4 and 12.
pub open spec fn uuid_text(id: CardId) -> Seq<char> {
    let h = hex(id as nat, 32);
    h.subrange(0, 8) + "-"@ + h.subrange(8, 12) + "-"@ + h.subrange(12, 16) + "-"@ + h.subrange(
        16,
        20,
    ) + "-"@ + h.subrange(20, 32)
}

// ---------- copies ----------

/// A copy of an optional string.
pub fn copy_opt(o: &Option<String>) -> (r: Option<String>)
    ensures
        opt_view(r) == opt_view(*o),
{
    match o {
        Some(s) => Some(s.clone()),
        None => None,
    }
}

/// A copy of a list of strings.
pub fn copy_strings(v: &Vec<String>) -> (r: Vec<String>)
    ensures
        views(r@) == views(v@),
{
    let mut r: Vec<String> = Vec::new();
    let n = v.len();
    for i in 0..n
        invariant
            n == v@.len(),
            views(r@) == views(v@).take(i as int),
    {
        let ghost before = views(r@);
        r.push(v[i].clone());
        assert(views(r@) =~= before.push(v@[i as int]@));
    }
    r
}

impl Clone for ClozeSpan {
    fn clone(&self) -> (r: Self)
        ensures
            r@ == self@,
    {
        ClozeSpan { start: self.start, end: self.end, hint: copy_opt(&self.hint) }
    }
}

impl Clone for CardContent {
    fn clone(&self) -> (r: Self)
        ensures
            r@ == self@,
    {
        match self {
            CardContent::Qa { front, back } => CardContent::Qa {
                front: front.clone(),
                back: back.clone(),
            },
            CardContent::Cloze { text, spans } => {
                let mut copies: Vec<ClozeSpan> = Vec::new();
                let n = spans.len();
                for i in 0..n
                    invariant
                        n == spans@.len(),
                        span_views(copies@) == span_views(spans@).take(i as int),
                {
                    let ghost before = span_views(copies@);
                    copies.push(spans[i].clone());
                    assert(span_views(copies@) =~= before.push(spans@[i as int]@));
                }
                assert(span_views(copies@) =~= span_views(spans@));
                CardContent::Cloze { text: text.clone(), spans: copies }
            },
        }
    }
}

impl Clone for Card {
    fn clone(&self) -> (r: Self)
        ensures
            r@ == self@,
    {
        Card {
            id: self.id,
            content: self.content.clone(),
            source_file: self.source_file.clone(),
            source_heading: copy_opt(&self.source_heading),
            tags: copy_strings(&self.tags),
            status: self.status,
            created_at: self.created_at,
        }
    }
}

// ---------- laws ----------

/// Instants are in one order: the second decides, and within one the nanosecond.
pub proof fn law_instants_are_ordered(a: Timestamp, b: Timestamp, c: Timestamp)
    ensures
        a.at_or_before(a),
        a.at_or_before(b) || b.at_or_before(a),
        a.at_or_before(b) && b.at_or_before(a) ==> a == b,
        a.at_or_before(b) && b.at_or_before(c) ==> a.at_or_before(c),
        a.secs < b.secs ==> a.at_or_before(b) && !b.at_or_before(a),
        a.secs == b.secs ==> (a.at_or_before(b) <==> a.nanos <= b.nanos),
{
}

/// A day is eighty-six thousand four hundred seconds, and no day is no change.
pub proof fn law_days_are_of_equal_length(t: Timestamp, days: u32)
    requires
        t.valid(),
        t.has_days_later(days),
    ensures
        t.days_later(days).secs - t.secs == 86400 * days,
        t.days_later(0) == t,
        t.nanos < 1_000_000_000 ==> t.days_later(days).nanos == t.nanos,
        t.days_later(days).valid(),
{
}

/// A correct answer suggests that the recall went well, a partial one that it was
/// hard, and an incorrect one to start over; none suggests that it was easy.
pub proof fn law_verdicts_suggest(v: Verdict)
    ensures
        v.suggests() == Rating::Good <==> v == Verdict::Correct,
        v.suggests() == Rating::Hard <==> v == Verdict::Partial,
        v.suggests() == Rating::Again <==> v == Verdict::Incorrect,
{
}

/// The number that hexadecimal digits stand for.
pub open spec fn hex_value(s: Seq<char>) -> int
    decreases s.len(),
{
    if s.len() == 0 {
        0
    } else {
        let c = s.last() as int;
        hex_value(s.drop_last()) * 16 + (if c <= '9' as int {
            c - '0' as int
        } else {
            c - 'a' as int + 10
        })
    }
}

/// So many sixteens multiplied.
pub open spec fn sixteens(digits: nat) -> int
    decreases digits,
{
    if digits == 0 {
        1
    } else {
        16 * sixteens((digits - 1) as nat)
    }
}

/// Hexadecimal digits stand for the number that they are written for, as far as
/// there are digits enough.
pub proof fn law_hex_stands_for_its_number(n: nat, digits: nat)
    requires
        n < sixteens(digits),
    ensures
        hex_value(hex(n, digits)) == n,
        hex(n, digits).len() == digits,
    decreases digits,
{
    if digits > 0 {
        let m = n / 16;
        assert(m < sixteens((digits - 1) as nat)) by (nonlinear_arith)
            requires
                m == n / 16,
                n < 16 * sixteens((digits - 1) as nat),
        ;
        law_hex_stands_for_its_number(m, (digits - 1) as nat);
        let s = hex(n, digits);
        assert(s.drop_last() =~= hex(m, (digits - 1) as nat));
    }
}

} // verus!
