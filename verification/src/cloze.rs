//! Cloze texts: byte offsets into them, their blanks, and what fills those.

use vstd::prelude::*;
use vstd::slice::slice_subrange;
use vstd::string::StringExecFns;

use crate::model::{opt_view, span_views, ClozeSpan, SpanView};
use crate::text::{chars_of, string_of};
use vstd::utf8::encode_utf8;

verus! {

// ---------- the model ----------

/// How many bytes a character takes in UTF-8.
pub open spec fn width(c: char) -> nat {
    if (c as u32) < 0x80 {
        1
    } else if (c as u32) < 0x800 {
        2
    } else if (c as u32) < 0x10000 {
        3
    } else {
        4
    }
}

/// Which character starts at a byte of a text; the end of the text counts, and
/// inside a character none does.
pub open spec fn char_at_byte(s: Seq<char>, byte: nat) -> Option<nat>
    decreases s.len(),
{
    if byte == 0 {
        Some(0)
    } else if s.len() == 0 || byte < width(s[0]) {
        None
    } else {
        match char_at_byte(s.drop_first(), (byte - width(s[0])) as nat) {
            Some(i) => Some(i + 1),
            None => None,
        }
    }
}

/// The characters that a blank covers, where its bounds are in order and on
/// characters of the text.
pub open spec fn covered(s: Seq<char>, span: SpanView) -> Option<(int, int)> {
    match (char_at_byte(s, span.start as nat), char_at_byte(s, span.end as nat)) {
        (Some(a), Some(b)) => if span.start <= span.end {
            Some((a as int, b as int))
        } else {
            None
        },
        _ => None,
    }
}

/// What a blank hides.
pub open spec fn fill(s: Seq<char>, span: SpanView) -> Option<Seq<char>> {
    match covered(s, span) {
        Some((a, b)) => Some(s.subrange(a, b)),
        None => None,
    }
}

/// How a blank is shown.
pub open spec fn blank_text(hint: Option<Seq<char>>) -> Seq<char> {
    match hint {
        Some(h) => "{{...: "@ + h + "}}"@,
        None => "{{...}}"@,
    }
}

/// A list of blanks with one more put behind those that start no later.
pub open spec fn insert_span(sorted: Seq<SpanView>, span: SpanView) -> Seq<SpanView>
    decreases sorted.len(),
{
    if sorted.len() > 0 && sorted.last().start > span.start {
        insert_span(sorted.drop_last(), span).push(sorted.last())
    } else {
        sorted.push(span)
    }
}

/// The blanks in the order of their starts; those with the same start keep
/// their order.
pub open spec fn by_start(spans: Seq<SpanView>) -> Seq<SpanView>
    decreases spans.len(),
{
    if spans.len() == 0 {
        seq![]
    } else {
        insert_span(by_start(spans.drop_last()), spans.last())
    }
}

/// How far a text has been shown: what is shown, and the byte and the character
/// that are next.
pub struct Shown {
    pub out: Seq<char>,
    pub byte: nat,
    pub next: int,
}

impl Shown {
    /// The text shown up to the end of one more blank. A blank that is
    /// malformed, or begins inside an earlier one, is passed over.
    pub open spec fn with(self, s: Seq<char>, span: SpanView) -> Shown {
        match covered(s, span) {
            Some((a, b)) => if span.start >= self.byte {
                Shown {
                    out: self.out + s.subrange(self.next, a) + blank_text(span.hint),
                    byte: span.end as nat,
                    next: b,
                }
            } else {
                self
            },
            None => self,
        }
    }
}

/// The text shown up to the end of the last of some blanks.
pub open spec fn shown_with(s: Seq<char>, spans: Seq<SpanView>) -> Shown
    decreases spans.len(),
{
    if spans.len() == 0 {
        Shown { out: seq![], byte: 0, next: 0 }
    } else {
        shown_with(s, spans.drop_last()).with(s, spans.last())
    }
}

/// A cloze text with its blanks blanked.
pub open spec fn blanked(s: Seq<char>, spans: Seq<SpanView>) -> Seq<char> {
    let shown = shown_with(s, by_start(spans));
    shown.out + s.skip(shown.next)
}

// ---------- facts about the model ----------

proof fn lemma_char_at_byte(s: Seq<char>, byte: nat)
    ensures
        char_at_byte(s, byte) matches Some(i) ==> i <= s.len(),
    decreases s.len(),
{
    if byte > 0 && s.len() > 0 && byte >= width(s[0]) {
        lemma_char_at_byte(s.drop_first(), (byte - width(s[0])) as nat);
    }
}

proof fn lemma_in_order(s: Seq<char>, a: nat, b: nat)
    requires
        a <= b,
        char_at_byte(s, a) is Some,
        char_at_byte(s, b) is Some,
    ensures
        char_at_byte(s, a).unwrap() <= char_at_byte(s, b).unwrap() <= s.len(),
    decreases s.len(),
{
    lemma_char_at_byte(s, b);
    if a > 0 && s.len() > 0 {
        lemma_in_order(s.drop_first(), (a - width(s[0])) as nat, (b - width(s[0])) as nat);
    }
}

proof fn lemma_shown(s: Seq<char>, spans: Seq<SpanView>)
    ensures
        0 <= shown_with(s, spans).next <= s.len(),
        char_at_byte(s, shown_with(s, spans).byte) == Some(shown_with(s, spans).next as nat),
    decreases spans.len(),
{
    if spans.len() > 0 {
        lemma_shown(s, spans.drop_last());
        lemma_char_at_byte(s, spans.last().end as nat);
    }
}

// ---------- the code ----------

/// How many bytes a character takes in UTF-8.
fn utf8_width(c: char) -> (n: usize)
    ensures
        n == width(c),
        1 <= n <= 4,
{
    let code = c as u32;
    if code < 0x80 {
        1
    } else if code < 0x800 {
        2
    } else if code < 0x10000 {
        3
    } else {
        4
    }
}

/// Which character starts at a byte of a text.
fn find_char(s: &[char], byte: usize) -> (r: Option<usize>)
    ensures
        match r {
            Some(i) => char_at_byte(s@, byte as nat) == Some(i as nat) && i <= s@.len(),
            None => char_at_byte(s@, byte as nat) is None,
        },
{
    let n = s.len();
    let mut left = byte;
    let mut i: usize = 0;
    assert(s@.skip(0) =~= s@);
    while left > 0
        invariant
            n == s@.len(),
            i <= n,
            match char_at_byte(s@.skip(i as int), left as nat) {
                Some(k) => char_at_byte(s@, byte as nat) == Some((k + i) as nat),
                None => char_at_byte(s@, byte as nat) is None,
            },
        decreases left,
    {
        assert(i < n ==> s@.skip(i as int)[0] == s@[i as int]);
        if i == n {
            return None;
        }
        let w = utf8_width(s[i]);
        if left < w {
            return None;
        }
        left = left - w;
        assert(s@.skip(i as int).drop_first() =~= s@.skip(i + 1));
        i = i + 1;
    }
    Some(i)
}

/// The characters that a blank covers.
fn bounds(s: &[char], span: &ClozeSpan) -> (r: Option<(usize, usize)>)
    ensures
        match r {
            Some((a, b)) => covered(s@, span@) == Some((a as int, b as int)) && a <= b <= s@.len(),
            None => covered(s@, span@) is None,
        },
{
    if span.start > span.end {
        return None;
    }
    match (find_char(s, span.start), find_char(s, span.end)) {
        (Some(a), Some(b)) => {
            proof {
                lemma_in_order(s@, span.start as nat, span.end as nat);
            }
            Some((a, b))
        },
        _ => None,
    }
}

/// What a blank hides, where its bounds are in order and on characters of the
/// text.
pub fn fill_of(text: &str, span: &ClozeSpan) -> (r: Option<String>)
    ensures
        opt_view(r) == fill(text@, span@),
{
    let chars = chars_of(text);
    match bounds(&chars, span) {
        Some((a, b)) => {
            let part = slice_subrange(&chars, a, b);
            assert(part@ =~= text@.subrange(a as int, b as int));
            Some(string_of(part))
        },
        None => None,
    }
}

/// How a blank is shown.
fn render_blank(hint: &Option<String>) -> (s: String)
    ensures
        s@ == blank_text(opt_view(*hint)),
{
    match hint {
        Some(h) => {
            let mut s = "{{...: ".to_string();
            s.append(h.as_str());
            s.append("}}");
            s
        },
        None => "{{...}}".to_string(),
    }
}

proof fn lemma_insert_at(sorted: Seq<SpanView>, span: SpanView, at: int)
    requires
        0 <= at <= sorted.len(),
        forall|i: int| at <= i < sorted.len() ==> (#[trigger] sorted[i]).start > span.start,
        at > 0 ==> sorted[at - 1].start <= span.start,
    ensures
        insert_span(sorted, span) == sorted.insert(at, span),
    decreases sorted.len(),
{
    if at < sorted.len() {
        assert(sorted[sorted.len() - 1].start > span.start);
        lemma_insert_at(sorted.drop_last(), span, at);
        assert(insert_span(sorted, span) =~= sorted.insert(at, span));
    } else {
        assert(insert_span(sorted, span) =~= sorted.insert(at, span));
    }
}

/// The blanks in the order of their starts.
fn sorted_spans(spans: &Vec<ClozeSpan>) -> (out: Vec<ClozeSpan>)
    ensures
        span_views(out@) == by_start(span_views(spans@)),
{
    let n = spans.len();
    let ghost all = span_views(spans@);
    let mut out: Vec<ClozeSpan> = Vec::new();
    assert(span_views(out@) =~= by_start(all.take(0)));
    for i in 0..n
        invariant
            n == spans@.len(),
            all == span_views(spans@),
            span_views(out@) == by_start(all.take(i as int)),
    {
        let span = spans[i].clone();
        let ghost before = out@;
        assert(all.take(i + 1).drop_last() =~= all.take(i as int));
        let mut at = out.len();
        while at > 0 && out[at - 1].start > span.start
            invariant
                at <= out@.len(),
                forall|k: int| at <= k < out@.len() ==> (#[trigger] out@[k]).start > span.start,
            decreases at,
        {
            at = at - 1;
        }
        proof {
            let sorted = span_views(before);
            assert forall|k: int| at <= k < sorted.len() implies (#[trigger] sorted[k]).start
                > span@.start by {
                assert(before[k].start > span.start);
            }
            lemma_insert_at(sorted, span@, at as int);
        }
        out.insert(at, span);
        assert(span_views(out@) =~= span_views(before).insert(at as int, span@));
    }
    assert(all.take(n as int) =~= all);
    out
}

/// A cloze text with its blanks blanked.
pub fn render_cloze_blanked(text: &str, spans: &Vec<ClozeSpan>) -> (out: String)
    ensures
        out@ == blanked(text@, span_views(spans@)),
{
    let chars = chars_of(text);
    let ordered = sorted_spans(spans);
    let ghost all = span_views(ordered@);
    let n = ordered.len();
    let mut out = String::new();
    let mut byte: usize = 0;
    let mut next: usize = 0;
    assert(all.take(0) =~= seq![]);
    assert(out@ =~= seq![]);
    for i in 0..n
        invariant
            n == ordered@.len(),
            all == span_views(ordered@),
            chars@ == text@,
            next <= chars@.len(),
            shown_with(text@, all.take(i as int)) == (Shown {
                out: out@,
                byte: byte as nat,
                next: next as int,
            }),
    {
        let ghost few = all.take(i as int);
        assert(all.take(i + 1).drop_last() =~= few);
        let span = &ordered[i];
        if let Some((a, b)) = bounds(&chars, span) {
            if span.start >= byte {
                proof {
                    lemma_shown(text@, few);
                    lemma_in_order(text@, byte as nat, span.start as nat);
                }
                let between = slice_subrange(&chars, next, a);
                assert(between@ =~= text@.subrange(next as int, a as int));
                out.append(string_of(between).as_str());
                out.append(render_blank(&span.hint).as_str());
                byte = span.end;
                next = b;
            }
        }
    }
    assert(all.take(n as int) =~= all);
    let rest = slice_subrange(&chars, next, chars.len());
    assert(rest@ =~= text@.skip(next as int));
    out.append(string_of(rest).as_str());
    out
}

// ---------- laws ----------

proof fn lemma_insert_span(sorted: Seq<SpanView>, span: SpanView)
    requires
        ascending(sorted),
    ensures
        ascending(insert_span(sorted, span)),
        insert_span(sorted, span).to_multiset() == sorted.to_multiset().insert(span),
        insert_span(sorted, span).len() == sorted.len() + 1,
        insert_span(sorted, span).last().start == span.start || (sorted.len() > 0 && insert_span(
            sorted,
            span,
        ).last() == sorted.last()),
    decreases sorted.len(),
{
    broadcast use vstd::seq_lib::group_to_multiset_ensures;

    if sorted.len() > 0 && sorted.last().start > span.start {
        let few = sorted.drop_last();
        let last = sorted.last();
        assert forall|i: int, j: int| 0 <= i <= j < few.len() implies (#[trigger] few[i]).start <= (
        #[trigger] few[j]).start by {
            assert(few[i] == sorted[i] && few[j] == sorted[j]);
        }
        lemma_insert_span(few, span);
        let now = insert_span(few, span);
        assert(sorted =~= few.push(last));
        assert forall|i: int, j: int| 0 <= i <= j < now.push(last).len() implies (
        #[trigger] now.push(last)[i]).start <= (#[trigger] now.push(last)[j]).start by {
            if j < now.len() {
                assert(now[i].start <= now[j].start);
            } else if i < now.len() {
                assert(now[i].start <= now[now.len() - 1].start);
                if few.len() > 0 {
                    assert(few.last() == sorted[sorted.len() - 2]);
                    assert(sorted[sorted.len() - 2].start <= sorted[sorted.len() - 1].start);
                }
            }
        }
        assert(now.push(last).to_multiset() =~= sorted.to_multiset().insert(span));
    } else {
        assert forall|i: int, j: int| 0 <= i <= j < sorted.push(span).len() implies (
        #[trigger] sorted.push(span)[i]).start <= (#[trigger] sorted.push(span)[j]).start by {
            if j < sorted.len() {
                assert(sorted[i].start <= sorted[j].start);
            } else if i < sorted.len() {
                assert(sorted[i].start <= sorted[sorted.len() - 1].start);
            }
        }
    }
}

/// Whether blanks stand in the order of their starts.
pub open spec fn ascending(spans: Seq<SpanView>) -> bool {
    forall|i: int, j: int|
        0 <= i <= j < spans.len() ==> (#[trigger] spans[i]).start <= (#[trigger] spans[j]).start
}

/// Ordering the blanks loses none, adds none, and puts them in order.
pub proof fn law_by_start_orders(spans: Seq<SpanView>)
    ensures
        ascending(by_start(spans)),
        by_start(spans).to_multiset() == spans.to_multiset(),
    decreases spans.len(),
{
    broadcast use vstd::seq_lib::group_to_multiset_ensures;

    if spans.len() > 0 {
        law_by_start_orders(spans.drop_last());
        lemma_insert_span(by_start(spans.drop_last()), spans.last());
        assert(spans =~= spans.drop_last().push(spans.last()));
        assert(by_start(spans).to_multiset() =~= spans.to_multiset());
    } else {
        assert(by_start(spans) =~= spans);
    }
}

/// A text without blanks is shown as it is.
pub proof fn law_no_blanks_no_change(s: Seq<char>)
    ensures
        blanked(s, seq![]) == s,
{
    assert(by_start(seq![]) =~= seq![]);
    assert(blanked(s, seq![]) =~= s);
}

/// One blank is shown in place of what it hides, and the text around it stays.
pub proof fn law_one_blank_hides_its_fill(s: Seq<char>, span: SpanView)
    requires
        covered(s, span) is Some,
    ensures
        ({
            let (a, b) = covered(s, span).unwrap();
            &&& 0 <= a <= b <= s.len()
            &&& s == s.take(a) + fill(s, span).unwrap() + s.skip(b)
            &&& blanked(s, seq![span]) == s.take(a) + blank_text(span.hint) + s.skip(b)
        }),
{
    lemma_in_order(s, span.start as nat, span.end as nat);
    let (a, b) = covered(s, span).unwrap();
    let one = seq![span];
    assert(one.drop_last() =~= seq![]);
    assert(by_start(one.drop_last()) =~= seq![]);
    assert(by_start(one) =~= one);
    assert(shown_with(s, one.drop_last()) == (Shown { out: seq![], byte: 0, next: 0 }));
    assert(s =~= s.take(a) + fill(s, span).unwrap() + s.skip(b));
    assert(blanked(s, one) =~= s.take(a) + blank_text(span.hint) + s.skip(b));
}

/// A blank that is malformed hides nothing.
pub proof fn law_malformed_blank_is_passed_over(s: Seq<char>, span: SpanView)
    requires
        covered(s, span) is None,
    ensures
        blanked(s, seq![span]) == s,
{
    let one = seq![span];
    assert(one.drop_last() =~= seq![]);
    assert(by_start(one.drop_last()) =~= seq![]);
    assert(by_start(one) =~= one);
    assert(shown_with(s, one.drop_last()) == (Shown { out: seq![], byte: 0, next: 0 }));
    assert(blanked(s, one) =~= s);
}

/// The first of two texts in UTF-8 comes first, and the second follows it.
proof fn lemma_encode_concat(a: Seq<char>, b: Seq<char>)
    ensures
        encode_utf8(a + b) == encode_utf8(a) + encode_utf8(b),
    decreases a.len(),
{
    if a.len() == 0 {
        assert(a + b =~= b);
        assert(encode_utf8(a + b) =~= encode_utf8(a) + encode_utf8(b));
    } else {
        assert((a + b).drop_first() =~= a.drop_first() + b);
        lemma_encode_concat(a.drop_first(), b);
        assert(encode_utf8(a + b) =~= encode_utf8(a) + encode_utf8(b));
    }
}

/// A character takes as many bytes as its encoding in UTF-8 has.
pub proof fn law_width_is_that_of_the_encoding(c: char)
    ensures
        width(c) == encode_utf8(seq![c]).len(),
        width(c) > 0,
{
    reveal_with_fuel(encode_utf8, 2);
    assert(seq![c].drop_first() =~= seq![]);
}

/// A character starts at the byte that comes behind the characters before it in
/// UTF-8, and at no other.
pub proof fn law_characters_start_behind_those_before(s: Seq<char>, byte: nat, i: nat)
    ensures
        char_at_byte(s, byte) == Some(i) <==> i <= s.len() && byte == encode_utf8(
            s.take(i as int),
        ).len(),
    decreases s.len(),
{
    reveal_with_fuel(encode_utf8, 2);
    if s.len() > 0 {
        let rest = s.drop_first();
        law_width_is_that_of_the_encoding(s[0]);
        if 0 < i <= s.len() {
            assert(s.take(i as int).drop_first() =~= rest.take(i - 1));
            assert(s.take(i as int) =~= seq![s[0]] + rest.take(i - 1));
            lemma_encode_concat(seq![s[0]], rest.take(i - 1));
        }
        if byte >= width(s[0]) {
            if i > 0 {
                law_characters_start_behind_those_before(
                    rest,
                    (byte - width(s[0])) as nat,
                    (i - 1) as nat,
                );
            }
        }
        if i == 0 {
            assert(s.take(0) =~= seq![]);
        }
    } else if i == 0 {
        assert(s.take(0) =~= seq![]);
    }
}

/// Blanks with the same start keep their order.
pub proof fn law_equal_starts_keep_their_order(spans: Seq<SpanView>, start: usize)
    ensures
        by_start(spans).filter(|x: SpanView| x.start == start) == spans.filter(
            |x: SpanView| x.start == start,
        ),
    decreases spans.len(),
{
    reveal(Seq::filter);
    let f = |x: SpanView| x.start == start;
    if spans.len() > 0 {
        law_equal_starts_keep_their_order(spans.drop_last(), start);
        lemma_insert_filter(by_start(spans.drop_last()), spans.last(), start);
        let sorted = by_start(spans.drop_last());
        assert(sorted.push(spans.last()).drop_last() =~= sorted);
    } else {
        assert(by_start(spans).filter(f) =~= spans.filter(f));
    }
}

proof fn lemma_insert_filter(sorted: Seq<SpanView>, span: SpanView, start: usize)
    ensures
        insert_span(sorted, span).filter(|x: SpanView| x.start == start) == sorted.push(
            span,
        ).filter(|x: SpanView| x.start == start),
    decreases sorted.len(),
{
    reveal(Seq::filter);
    let f = |x: SpanView| x.start == start;
    if sorted.len() > 0 && sorted.last().start > span.start {
        let few = sorted.drop_last();
        lemma_insert_filter(few, span, start);
        let now = insert_span(few, span);
        assert(now.push(sorted.last()).drop_last() =~= now);
        assert(sorted.push(span).drop_last() =~= sorted);
        assert(few.push(span).drop_last() =~= few);
        assert(sorted.filter(f) == (if f(sorted.last()) {
            few.filter(f).push(sorted.last())
        } else {
            few.filter(f)
        }));
        assert(few.push(span).filter(f) == (if f(span) {
            few.filter(f).push(span)
        } else {
            few.filter(f)
        }));
        assert(insert_span(sorted, span).filter(f) =~= sorted.push(span).filter(f));
    }
}

proof fn lemma_by_start_push(spans: Seq<SpanView>, last: SpanView)
    requires
        forall|i: int| 0 <= i < spans.len() ==> (#[trigger] spans[i]).start <= last.start,
    ensures
        by_start(spans.push(last)) == by_start(spans).push(last),
        forall|i: int| 0 <= i < by_start(spans).len() ==> spans.contains(
            #[trigger] by_start(spans)[i],
        ),
{
    broadcast use vstd::seq_lib::group_to_multiset_ensures;

    law_by_start_orders(spans);
    let o = by_start(spans);
    assert(spans.push(last).drop_last() =~= spans);
    assert forall|i: int| 0 <= i < o.len() implies spans.contains(#[trigger] o[i]) by {
        assert(o.contains(o[i]));
        assert(o.to_multiset().count(o[i]) > 0);
        assert(spans.to_multiset().count(o[i]) > 0);
    }
    if o.len() > 0 {
        assert(spans.contains(o[o.len() - 1]));
    }
}

/// A blank covers the same characters of a text as of a part of it that begins it
/// and holds them.
proof fn lemma_covered_before(s: Seq<char>, span: SpanView, a: int, at: nat)
    requires
        0 <= a <= s.len(),
        char_at_byte(s, at) == Some(a as nat),
        covered(s, span) is Some ==> span.end <= at,
    ensures
        covered(s.take(a), span) == covered(s, span),
        covered(s, span) is Some ==> 0 <= covered(s, span).unwrap().0 <= covered(
            s,
            span,
        ).unwrap().1 <= a,
{
    let t = s.take(a);
    assert forall|b: nat, i: nat| char_at_byte(t, b) == Some(i) implies char_at_byte(s, b) == Some(
        i,
    ) by {
        law_characters_start_behind_those_before(t, b, i);
        law_characters_start_behind_those_before(s, b, i);
        assert(t.take(i as int) =~= s.take(i as int));
    }
    if covered(s, span) is Some {
        lemma_in_order(s, span.start as nat, span.end as nat);
        lemma_in_order(s, span.end as nat, at);
        let (x, y) = covered(s, span).unwrap();
        law_characters_start_behind_those_before(s, span.start as nat, x as nat);
        law_characters_start_behind_those_before(s, span.end as nat, y as nat);
        assert(t.take(x) =~= s.take(x));
        assert(t.take(y) =~= s.take(y));
        law_characters_start_behind_those_before(t, span.start as nat, x as nat);
        law_characters_start_behind_those_before(t, span.end as nat, y as nat);
    } else if covered(t, span) is Some {
        let (x, y) = covered(t, span).unwrap();
        assert(char_at_byte(t, span.start as nat) == Some(x as nat));
        assert(char_at_byte(t, span.end as nat) == Some(y as nat));
    }
}

proof fn lemma_shown_before(s: Seq<char>, spans: Seq<SpanView>, a: int, at: nat)
    requires
        0 <= a <= s.len(),
        char_at_byte(s, at) == Some(a as nat),
        forall|i: int|
            0 <= i < spans.len() ==> covered(s, #[trigger] spans[i]) is Some ==> spans[i].end <= at,
    ensures
        shown_with(s.take(a), spans) == shown_with(s, spans),
        shown_with(s, spans).byte <= at,
        0 <= shown_with(s, spans).next <= a,
    decreases spans.len(),
{
    if spans.len() > 0 {
        let few = spans.drop_last();
        let last = spans.last();
        assert forall|i: int| 0 <= i < few.len() && covered(
            s,
            #[trigger] few[i],
        ) is Some implies few[i].end <= at by {
            assert(few[i] == spans[i]);
        }
        lemma_shown_before(s, few, a, at);
        assert(covered(s, spans[spans.len() - 1]) is Some ==> last.end <= at);
        lemma_covered_before(s, last, a, at);
        let st = shown_with(s, few);
        if let Some((x, y)) = covered(s, last) {
            if last.start >= st.byte {
                lemma_shown(s, few);
                lemma_in_order(s, st.byte, last.start as nat);
                assert(s.take(a).subrange(st.next, x) =~= s.subrange(st.next, x));
            }
        }
    }
}

/// A blank behind all the others stands for the text that it covers, with its
/// hint; what stands before it is shown as if the text ended there, and what
/// stands behind it stays.
pub proof fn law_last_blank_stands_for_its_fill(s: Seq<char>, spans: Seq<SpanView>, last: SpanView)
    requires
        covered(s, last) is Some,
        forall|i: int| 0 <= i < spans.len() ==> (#[trigger] spans[i]).start <= last.start,
        forall|i: int|
            0 <= i < spans.len() ==> covered(s, #[trigger] spans[i]) is Some ==> spans[i].end
                <= last.start,
    ensures
        ({
            let (a, b) = covered(s, last).unwrap();
            blanked(s, spans.push(last)) == blanked(s.take(a), spans) + (match last.hint {
                Some(h) => "{{...: "@ + h + "}}"@,
                None => "{{...}}"@,
            }) + s.skip(b)
        }),
{
    let (a, b) = covered(s, last).unwrap();
    let o = by_start(spans);
    lemma_by_start_push(spans, last);
    lemma_in_order(s, last.start as nat, last.end as nat);
    assert forall|i: int| 0 <= i < o.len() && covered(
        s,
        #[trigger] o[i],
    ) is Some implies o[i].end <= last.start by {
        assert(spans.contains(o[i]));
    }
    lemma_shown_before(s, o, a, last.start as nat);
    assert(o.push(last).drop_last() =~= o);
    let st = shown_with(s, o);
    assert(s.subrange(st.next, a) =~= s.take(a).skip(st.next));
    assert(blanked(s, spans.push(last)) =~= blanked(s.take(a), spans) + blank_text(last.hint)
        + s.skip(b));
}

/// Whether blanks are well formed and do not overlap, in the order of their starts.
pub open spec fn apart(s: Seq<char>, spans: Seq<SpanView>) -> bool {
    &&& forall|i: int| 0 <= i < spans.len() ==> covered(s, #[trigger] spans[i]) is Some
    &&& forall|i: int, j: int|
        0 <= i < j < spans.len() ==> (#[trigger] spans[i]).end <= (#[trigger] spans[j]).start
}

proof fn lemma_apart_shown(s: Seq<char>, spans: Seq<SpanView>)
    requires
        apart(s, spans),
    ensures
        spans.len() > 0 ==> shown_with(s, spans).byte == spans.last().end,
    decreases spans.len(),
{
    if spans.len() > 0 {
        let few = spans.drop_last();
        assert(apart(s, few)) by {
            assert forall|i: int| 0 <= i < few.len() implies covered(
                s,
                #[trigger] few[i],
            ) is Some by {
                assert(few[i] == spans[i]);
            }
            assert forall|i: int, j: int| 0 <= i < j < few.len() implies (
            #[trigger] few[i]).end <= (#[trigger] few[j]).start by {
                assert(few[i] == spans[i] && few[j] == spans[j]);
            }
        }
        lemma_apart_shown(s, few);
        assert(covered(s, spans[spans.len() - 1]) is Some);
        if few.len() == 0 {
            assert(shown_with(s, few).byte == 0);
        }
        if few.len() > 0 {
            assert(few.last() == spans[spans.len() - 2]);
            assert(spans[spans.len() - 2].end <= spans[spans.len() - 1].start);
        }
    }
}

/// A blank that is malformed, or begins inside the last of blanks that are apart,
/// changes nothing.
pub proof fn law_broken_blank_changes_nothing(s: Seq<char>, spans: Seq<SpanView>, last: SpanView)
    requires
        forall|i: int| 0 <= i < spans.len() ==> (#[trigger] spans[i]).start <= last.start,
        covered(s, last) is None || (spans.len() > 0 && ascending(spans) && apart(s, spans)
            && last.start < spans.last().end),
    ensures
        blanked(s, spans.push(last)) == blanked(s, spans),
{
    lemma_by_start_push(spans, last);
    let o = by_start(spans);
    assert(o.push(last).drop_last() =~= o);
    if covered(s, last) is Some {
        lemma_ascending_stays(spans);
        lemma_apart_shown(s, spans);
    }
}

proof fn lemma_ascending_stays(spans: Seq<SpanView>)
    requires
        ascending(spans),
    ensures
        by_start(spans) == spans,
    decreases spans.len(),
{
    if spans.len() > 0 {
        let few = spans.drop_last();
        assert(ascending(few)) by {
            assert forall|i: int, j: int| 0 <= i <= j < few.len() implies (
            #[trigger] few[i]).start <= (#[trigger] few[j]).start by {
                assert(few[i] == spans[i] && few[j] == spans[j]);
            }
        }
        lemma_ascending_stays(few);
        if few.len() > 0 {
            assert(spans[spans.len() - 2].start <= spans[spans.len() - 1].start);
        }
        assert(few.push(spans.last()) =~= spans);
    } else {
        assert(by_start(spans) =~= spans);
    }
}

/// What a blank hides stands between its bounds, in bytes: the text before it has
/// as many bytes as its start says, and the text up to its end as its end says. A
/// blank has bounds in the text only if they are in order and fall on characters.
pub proof fn law_fill_stands_between_its_bounds(s: Seq<char>, span: SpanView)
    ensures
        fill(s, span) matches Some(f) ==> exists|a: int, b: int|
            0 <= a <= b <= s.len() && f == #[trigger] s.subrange(a, b) && span.start
                == encode_utf8(s.take(a)).len() && span.end == encode_utf8(s.take(b)).len(),
        forall|a: int, b: int|
            0 <= a <= b <= s.len() && span.start == encode_utf8(s.take(a)).len() && span.end
                == encode_utf8(s.take(b)).len() ==> fill(s, span) == Some(
                #[trigger] s.subrange(a, b),
            ),
{
    if let Some((a, b)) = covered(s, span) {
        lemma_in_order(s, span.start as nat, span.end as nat);
        law_characters_start_behind_those_before(s, span.start as nat, a as nat);
        law_characters_start_behind_those_before(s, span.end as nat, b as nat);
        assert(fill(s, span) == Some(s.subrange(a, b)));
    }
    assert forall|a: int, b: int|
        0 <= a <= b <= s.len() && span.start == encode_utf8(s.take(a)).len() && span.end
            == encode_utf8(s.take(b)).len() implies fill(s, span) == Some(
        #[trigger] s.subrange(a, b),
    ) by {
        law_characters_start_behind_those_before(s, span.start as nat, a as nat);
        law_characters_start_behind_those_before(s, span.end as nat, b as nat);
        assert(s.take(b) =~= s.take(a) + s.subrange(a, b));
        lemma_encode_concat(s.take(a), s.subrange(a, b));
    }
}

/// What is shown of a cloze text is the text with the blanks blanked, however they
/// are listed, and what a blank is said to hide is what it hides.
pub proof fn law_shown_text_is_blanked(
    text: &str,
    spans: &Vec<ClozeSpan>,
    shown: String,
    span: &ClozeSpan,
    hidden: Option<String>,
)
    ensures
        call_ensures(render_cloze_blanked, (text, spans), shown) ==> shown@ == blanked(
            text@,
            span_views(spans@),
        ),
        call_ensures(fill_of, (text, span), hidden) ==> opt_view(hidden) == fill(text@, span@),
{
}

} // verus!
