//! The command line: what is shown, and how keys are understood.

pub mod curate;
pub mod review;

use vstd::prelude::*;
use vstd::string::StringExecFns;

use crate::cloze::{blanked, render_cloze_blanked};
use crate::model::{CardContent, ContentView, Rating, Verdict};
use crate::text::{
    chars_of, decimal, decimal_of, same, string_of, trim, trimmed,
};
use crate::wire::IngestResponse;

verus! {

// ---------- the model ----------

/// The key and the name of a rating.
pub open spec fn rating_label(r: Rating) -> Seq<char> {
    match r {
        Rating::Again => "1=again"@,
        Rating::Hard => "2=hard"@,
        Rating::Good => "3=good"@,
        Rating::Easy => "4=easy"@,
    }
}

/// The label of a rating, between stars where it is suggested.
pub open spec fn marked_label(r: Rating, suggested: Option<Rating>) -> Seq<char> {
    if suggested == Some(r) {
        "*"@ + rating_label(r) + "*"@
    } else {
        rating_label(r)
    }
}

/// The question for a rating.
pub open spec fn rating_question(suggested: Option<Rating>) -> Seq<char> {
    "rate ["@ + marked_label(Rating::Again, suggested) + " "@ + marked_label(
        Rating::Hard,
        suggested,
    ) + " "@ + marked_label(Rating::Good, suggested) + " "@ + marked_label(Rating::Easy, suggested)
        + "]: "@
}

/// The rating that a key stands for.
pub open spec fn keyed_rating(key: Seq<char>) -> Option<Rating> {
    let k = trim(key);
    if k == "1"@ {
        Some(Rating::Again)
    } else if k == "2"@ {
        Some(Rating::Hard)
    } else if k == "3"@ {
        Some(Rating::Good)
    } else if k == "4"@ {
        Some(Rating::Easy)
    } else {
        None
    }
}

/// A verdict in words.
pub open spec fn verdict_words(v: Verdict) -> Seq<char> {
    match v {
        Verdict::Correct => "Correct"@,
        Verdict::Partial => "Partial"@,
        Verdict::Incorrect => "Incorrect"@,
    }
}

/// The question side of a card.
pub open spec fn question(content: ContentView) -> Seq<char> {
    match content {
        ContentView::Qa { front, back: _ } => front,
        ContentView::Cloze { text, spans } => blanked(text, spans),
    }
}

/// Both sides of a card.
pub open spec fn card_text(content: ContentView) -> Seq<char> {
    match content {
        ContentView::Qa { front, back } => "  Q: "@ + front + "\n  A: "@ + back + "\n"@,
        ContentView::Cloze { text, spans } => "  Cloze: "@ + text + "\n  Blanked: "@ + blanked(
            text,
            spans,
        ) + "\n"@,
    }
}

/// The head of a card in a session: its number, how many there are, and a text.
pub open spec fn card_head(number: nat, total: nat, text: Seq<char>) -> Seq<char> {
    "\n["@ + decimal(number) + "/"@ + decimal(total) + "] "@ + text + "\n"@
}

/// What is said of a note that was pushed.
pub open spec fn push_summary(source_file: Seq<char>, counts: IngestResponse) -> Seq<char> {
    source_file + ": "@ + decimal(counts.chunks as nat) + " chunk(s), "@ + decimal(
        counts.proposed_cards as nat,
    ) + " proposed, "@ + decimal(counts.failed_chunks as nat) + " failed, "@ + decimal(
        counts.skipped_chunks as nat,
    ) + " skipped"@
}

// ---------- the code ----------

/// The label of a rating, between stars where it is suggested.
fn label(r: Rating, suggested: Option<Rating>) -> (s: String)
    ensures
        s@ == marked_label(r, suggested),
{
    let name = match r {
        Rating::Again => "1=again",
        Rating::Hard => "2=hard",
        Rating::Good => "3=good",
        Rating::Easy => "4=easy",
    };
    let marked = match suggested {
        Some(x) => x == r,
        None => false,
    };
    if marked {
        let mut s = "*".to_string();
        s.append(name);
        s.append("*");
        s
    } else {
        name.to_string()
    }
}

/// The question for a rating, with the suggested one marked.
pub fn rating_prompt(suggested: Option<Rating>) -> (s: String)
    ensures
        s@ == rating_question(suggested),
{
    let mut s = "rate [".to_string();
    s.append(label(Rating::Again, suggested).as_str());
    s.append(" ");
    s.append(label(Rating::Hard, suggested).as_str());
    s.append(" ");
    s.append(label(Rating::Good, suggested).as_str());
    s.append(" ");
    s.append(label(Rating::Easy, suggested).as_str());
    s.append("]: ");
    s
}

/// A verdict in words.
pub fn verdict_label(v: Verdict) -> (s: &'static str)
    ensures
        s@ == verdict_words(v),
{
    match v {
        Verdict::Correct => "Correct",
        Verdict::Partial => "Partial",
        Verdict::Incorrect => "Incorrect",
    }
}

/// The text without the white space around it.
fn trimmed_text(s: &str) -> (t: String)
    ensures
        t@ == trim(s@),
{
    let chars = chars_of(s);
    string_of(trimmed(&chars))
}

/// The rating that a key stands for.
pub fn rating_from_key(key: &str) -> (r: Option<Rating>)
    ensures
        r == keyed_rating(key@),
{
    let k = trimmed_text(key);
    if same(k.as_str(), "1") {
        Some(Rating::Again)
    } else if same(k.as_str(), "2") {
        Some(Rating::Hard)
    } else if same(k.as_str(), "3") {
        Some(Rating::Good)
    } else if same(k.as_str(), "4") {
        Some(Rating::Easy)
    } else {
        None
    }
}

/// The question side of a card.
pub fn render_question(content: &CardContent) -> (s: String)
    ensures
        s@ == question(content@),
{
    match content {
        CardContent::Qa { front, .. } => front.clone(),
        CardContent::Cloze { text, spans } => render_cloze_blanked(text.as_str(), spans),
    }
}

/// Both sides of a card.
pub fn render_card(content: &CardContent) -> (s: String)
    ensures
        s@ == card_text(content@),
{
    match content {
        CardContent::Qa { front, back } => {
            let mut s = "  Q: ".to_string();
            s.append(front.as_str());
            s.append("\n  A: ");
            s.append(back.as_str());
            s.append("\n");
            s
        },
        CardContent::Cloze { text, spans } => {
            let mut s = "  Cloze: ".to_string();
            s.append(text.as_str());
            s.append("\n  Blanked: ");
            s.append(render_cloze_blanked(text.as_str(), spans).as_str());
            s.append("\n");
            s
        },
    }
}

/// The head of a card in a session.
fn render_head(number: usize, total: usize, text: &str) -> (s: String)
    ensures
        s@ == card_head(number as nat, total as nat, text@),
{
    let mut s = "\n[".to_string();
    s.append(decimal_of(number).as_str());
    s.append("/");
    s.append(decimal_of(total).as_str());
    s.append("] ");
    s.append(text);
    s.append("\n");
    s
}

/// What is said of a note that was pushed.
pub fn render_push(source_file: &str, counts: &IngestResponse) -> (s: String)
    ensures
        s@ == push_summary(source_file@, *counts),
{
    let mut s = source_file.to_string();
    s.append(": ");
    s.append(decimal_of(counts.chunks).as_str());
    s.append(" chunk(s), ");
    s.append(decimal_of(counts.proposed_cards).as_str());
    s.append(" proposed, ");
    s.append(decimal_of(counts.failed_chunks).as_str());
    s.append(" failed, ");
    s.append(decimal_of(counts.skipped_chunks).as_str());
    s.append(" skipped");
    s
}

// ---------- laws ----------

/// The key that a rating's label starts with stands for that rating.
pub proof fn law_labels_show_their_keys(r: Rating)
    ensures
        keyed_rating(rating_label(r).take(1)) == Some(r),
{
    reveal_strlit("1=again");
    reveal_strlit("2=hard");
    reveal_strlit("3=good");
    reveal_strlit("4=easy");
    reveal_strlit("1");
    reveal_strlit("2");
    reveal_strlit("3");
    reveal_strlit("4");
    let key = rating_label(r).take(1);
    let k = crate::text::Class::White;
    crate::text::lemma_run_is(key, k, 0);
    assert(key.skip(0) =~= key);
    crate::text::lemma_tail_run_is(key, k, 0);
    assert(trim(key) =~= key);
    assert(key =~= seq![key[0]]);
    match r {
        Rating::Again => {
            assert(key =~= "1"@);
        },
        Rating::Hard => {
            assert(key =~= "2"@);
            assert("1"@[0] != key[0]);
        },
        Rating::Good => {
            assert(key =~= "3"@);
            assert("1"@[0] != key[0] && "2"@[0] != key[0]);
        },
        Rating::Easy => {
            assert(key =~= "4"@);
            assert("1"@[0] != key[0] && "2"@[0] != key[0] && "3"@[0] != key[0]);
        },
    }
}

/// A key stands for a rating only if it is the one that the rating's label starts
/// with.
pub proof fn law_only_labelled_keys_count(key: Seq<char>)
    ensures
        match keyed_rating(key) {
            Some(r) => trim(key) == rating_label(r).take(1),
            None => forall|r: Rating| trim(key) != #[trigger] rating_label(r).take(1),
        },
{
    reveal_strlit("1=again");
    reveal_strlit("2=hard");
    reveal_strlit("3=good");
    reveal_strlit("4=easy");
    reveal_strlit("1");
    reveal_strlit("2");
    reveal_strlit("3");
    reveal_strlit("4");
    assert("1=again"@.take(1) =~= "1"@);
    assert("2=hard"@.take(1) =~= "2"@);
    assert("3=good"@.take(1) =~= "3"@);
    assert("4=easy"@.take(1) =~= "4"@);
}

/// The question for a rating names all four, worst first, and puts stars around
/// the one that is suggested and no other.
pub proof fn law_suggested_rating_is_marked()
    ensures
        rating_question(None) == "rate [1=again 2=hard 3=good 4=easy]: "@,
        rating_question(Some(Rating::Again)) == "rate [*1=again* 2=hard 3=good 4=easy]: "@,
        rating_question(Some(Rating::Hard)) == "rate [1=again *2=hard* 3=good 4=easy]: "@,
        rating_question(Some(Rating::Good)) == "rate [1=again 2=hard *3=good* 4=easy]: "@,
        rating_question(Some(Rating::Easy)) == "rate [1=again 2=hard 3=good *4=easy*]: "@,
{
    reveal_strlit("1=again");
    reveal_strlit("2=hard");
    reveal_strlit("3=good");
    reveal_strlit("4=easy");
    reveal_strlit("rate [");
    reveal_strlit("]: ");
    reveal_strlit(" ");
    reveal_strlit("*");
    reveal_strlit("rate [1=again 2=hard 3=good 4=easy]: ");
    reveal_strlit("rate [*1=again* 2=hard 3=good 4=easy]: ");
    reveal_strlit("rate [1=again *2=hard* 3=good 4=easy]: ");
    reveal_strlit("rate [1=again 2=hard *3=good* 4=easy]: ");
    reveal_strlit("rate [1=again 2=hard 3=good *4=easy*]: ");
    assert(rating_question(None) =~= "rate [1=again 2=hard 3=good 4=easy]: "@);
    assert(rating_question(Some(Rating::Again)) =~= "rate [*1=again* 2=hard 3=good 4=easy]: "@);
    assert(rating_question(Some(Rating::Hard)) =~= "rate [1=again *2=hard* 3=good 4=easy]: "@);
    assert(rating_question(Some(Rating::Good)) =~= "rate [1=again 2=hard *3=good* 4=easy]: "@);
    assert(rating_question(Some(Rating::Easy)) =~= "rate [1=again 2=hard 3=good *4=easy*]: "@);
}

/// A verdict is shown by its own name.
pub proof fn law_verdicts_are_named(v: Verdict)
    ensures
        v == Verdict::Correct <==> verdict_words(v) == "Correct"@,
        v == Verdict::Partial <==> verdict_words(v) == "Partial"@,
        v == Verdict::Incorrect <==> verdict_words(v) == "Incorrect"@,
{
    reveal_strlit("Correct");
    reveal_strlit("Partial");
    reveal_strlit("Incorrect");
    assert("Correct"@[0] == 'C' && "Partial"@[0] == 'P' && "Incorrect"@[0] == 'I');
}

/// The question side of a Q&A card is its front, all of it and no more, and that
/// of a cloze card is its text with the blanks blanked; in full, a card shows both
/// sides.
pub proof fn law_cards_show_their_sides(
    front: Seq<char>,
    back: Seq<char>,
    text: Seq<char>,
    spans: Seq<crate::model::SpanView>,
)
    ensures
        question(ContentView::Qa { front, back }) == front,
        question(ContentView::Cloze { text, spans }) == blanked(text, spans),
        card_text(ContentView::Qa { front, back }) == "  Q: "@ + front + "\n  A: "@ + back + "\n"@,
        card_text(ContentView::Cloze { text, spans }) == "  Cloze: "@ + text + "\n  Blanked: "@
            + blanked(text, spans) + "\n"@,
{
}

/// What is said of a note that was pushed names the note and gives each count
/// under its own name.
pub proof fn law_push_gives_each_count(file: Seq<char>, counts: IngestResponse)
    ensures
        push_summary(file, counts) == file + ": "@ + decimal(counts.chunks as nat)
            + " chunk(s), "@ + decimal(counts.proposed_cards as nat) + " proposed, "@ + decimal(
            counts.failed_chunks as nat,
        ) + " failed, "@ + decimal(counts.skipped_chunks as nat) + " skipped"@,
{
}

/// What is shown of a card, of a rating and of a verdict, and the rating that a key
/// is taken for.
pub proof fn law_what_is_shown(
    content: &CardContent,
    side: String,
    both: String,
    suggested: Option<Rating>,
    prompt: String,
    key: &str,
    rating: Option<Rating>,
    v: Verdict,
    word: &'static str,
)
    ensures
        call_ensures(render_question, (content,), side) ==> match content@ {
            ContentView::Qa { front, back: _ } => side@ == front,
            ContentView::Cloze { text, spans } => side@ == blanked(text, spans),
        },
        call_ensures(render_card, (content,), both) ==> both@ == card_text(content@),
        call_ensures(rating_prompt, (suggested,), prompt) ==> prompt@ == rating_question(
            suggested,
        ),
        call_ensures(rating_from_key, (key,), rating) ==> match rating {
            Some(r) => trim(key@) == rating_label(r).take(1),
            None => keyed_rating(key@) is None,
        },
        call_ensures(verdict_label, (v,), word) ==> word@ == verdict_words(v),
{
    law_only_labelled_keys_count(key@);
}

} // verus!
