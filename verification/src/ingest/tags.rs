//! Inline `#tags`, which count in prose but not in code.

use vstd::prelude::*;
use vstd::slice::slice_subrange;

use crate::ingest::sections::{fence_line, fence_open, is_fence};
use crate::text::{
    chars_of, chop_return, lemma_lines_hold, lemma_lines_of_unlines, lemma_run, lines, lines_of,
    occurs_at, run, run_len, string_of, strip_start, unlines, views, words, words_of, Class,
};

verus! {

// ---------- the model ----------

/// A line without its inline code, and whether inline code is still open at
/// its end. Each backtick opens or closes inline code and never stays.
pub open spec fn outside_backticks(line: Seq<char>) -> (Seq<char>, bool)
    decreases line.len(),
{
    if line.len() == 0 {
        (seq![], false)
    } else {
        let (kept, inside) = outside_backticks(line.drop_last());
        if line.last() == '`' {
            (kept, !inside)
        } else if inside {
            (kept, inside)
        } else {
            (kept.push(line.last()), inside)
        }
    }
}

/// The prose of some lines: without fenced code blocks and inline code.
pub open spec fn prose(ls: Seq<Seq<char>>) -> Seq<char>
    decreases ls.len(),
{
    if ls.len() == 0 {
        seq![]
    } else if is_fence(ls.last()) || fence_open(ls.drop_last()) {
        prose(ls.drop_last())
    } else {
        prose(ls.drop_last()) + outside_backticks(ls.last()).0 + seq!['\n']
    }
}

/// The tag that a word is: a `#` and a letter, number or underscore behind it;
/// the tag goes on over hyphens and slashes.
pub open spec fn tag_of(word: Seq<char>) -> Option<Seq<char>> {
    if word.len() >= 2 && word[0] == '#' && Class::TagHead.has(word[1]) {
        let name = word.drop_first();
        Some(name.take(run(name, Class::TagBody) as int))
    } else {
        None
    }
}

/// The tags among some words, in their order.
pub open spec fn tags_among(ws: Seq<Seq<char>>) -> Seq<Seq<char>>
    decreases ws.len(),
{
    if ws.len() == 0 {
        seq![]
    } else {
        match tag_of(ws.last()) {
            Some(t) => tags_among(ws.drop_last()).push(t),
            None => tags_among(ws.drop_last()),
        }
    }
}

/// The inline tags of a text.
pub open spec fn inline_tags(body: Seq<char>) -> Seq<Seq<char>> {
    tags_among(words(prose(lines(body))))
}

// ---------- the code ----------

/// The text without fenced code blocks and inline code.
pub fn strip_code_regions(text: &str) -> (out: String)
    ensures
        out@ == prose(lines(text@)),
{
    let ls = lines_of(text);
    let mut out = String::new();
    let mut fenced = false;
    let n = ls.len();
    assert(out@ =~= seq![]);
    for i in 0..n
        invariant
            n == ls@.len(),
            out@ == prose(views(ls@).take(i as int)),
            fenced == fence_open(views(ls@).take(i as int)),
    {
        let ghost next = views(ls@).take(i + 1);
        let ghost before = out@;
        assert(next.drop_last() =~= views(ls@).take(i as int));
        if fence_line(ls[i].as_str()) {
            fenced = !fenced;
        } else if !fenced {
            let line = chars_of(ls[i].as_str());
            let mut inside = false;
            let m = line.len();
            assert(out@ =~= before + outside_backticks(line@.take(0)).0);
            for j in 0..m
                invariant
                    m == line@.len(),
                    out@ == before + outside_backticks(line@.take(j as int)).0,
                    inside == outside_backticks(line@.take(j as int)).1,
            {
                let c = line[j];
                assert(line@.take(j + 1).drop_last() =~= line@.take(j as int));
                if c == '`' {
                    inside = !inside;
                } else if !inside {
                    out.push(c);
                }
                assert(out@ =~= before + outside_backticks(line@.take(j + 1)).0);
            }
            assert(line@.take(m as int) =~= line@);
            out.push('\n');
            assert(out@ =~= before + outside_backticks(line@).0 + seq!['\n']);
        }
    }
    assert(views(ls@).take(n as int) =~= views(ls@));
    out
}

/// The tag that a word is, if it is one.
fn parse_tag(word: &str) -> (r: Option<String>)
    ensures
        match r {
            Some(t) => tag_of(word@) == Some(t@),
            None => tag_of(word@) is None,
        },
{
    let chars = chars_of(word);
    if chars.len() >= 2 && chars[0] == '#' && Class::TagHead.test(chars[1]) {
        let name = slice_subrange(&chars, 1, chars.len());
        assert(name@ =~= word@.drop_first());
        let n = run_len(name, Class::TagBody);
        Some(string_of(slice_subrange(name, 0, n)))
    } else {
        None
    }
}

/// The inline tags of a text, in their order and as often as they occur.
pub fn extract_inline_tags(body: &str) -> (out: Vec<String>)
    ensures
        views(out@) == inline_tags(body@),
{
    let cleaned = strip_code_regions(body);
    let ws = words_of(cleaned.as_str());
    let mut out: Vec<String> = Vec::new();
    let n = ws.len();
    assert(views(out@) =~= seq![]);
    for i in 0..n
        invariant
            n == ws@.len(),
            views(out@) == tags_among(views(ws@).take(i as int)),
    {
        let ghost next = views(ws@).take(i + 1);
        let ghost before = out@;
        assert(next.drop_last() =~= views(ws@).take(i as int));
        if let Some(t) = parse_tag(ws[i].as_str()) {
            out.push(t);
            assert(views(out@) =~= views(before).push(t@));
        }
    }
    assert(views(ws@).take(n as int) =~= views(ws@));
    out
}

// ---------- laws ----------

/// No backtick survives in the part of a line that is not inline code.
pub proof fn law_no_backtick_left(line: Seq<char>)
    ensures
        !outside_backticks(line).0.contains('`'),
    decreases line.len(),
{
    if line.len() > 0 {
        law_no_backtick_left(line.drop_last());
        let kept = outside_backticks(line.drop_last()).0;
        if line.last() != '`' {
            assert forall|i: int| 0 <= i < kept.len() + 1 implies kept.push(line.last())[i]
                != '`' by {
                if i < kept.len() {
                    assert(kept.contains(kept[i]));
                }
            }
        }
    }
}

/// The lines of the prose of some lines.
spec fn prose_lines(ls: Seq<Seq<char>>) -> Seq<Seq<char>>
    decreases ls.len(),
{
    if ls.len() == 0 {
        seq![]
    } else if is_fence(ls.last()) || fence_open(ls.drop_last()) {
        prose_lines(ls.drop_last())
    } else {
        prose_lines(ls.drop_last()).push(outside_backticks(ls.last()).0)
    }
}

proof fn lemma_outside_holds(line: Seq<char>, c: char)
    requires
        outside_backticks(line).0.contains(c),
    ensures
        line.contains(c),
    decreases line.len(),
{
    let kept = outside_backticks(line).0;
    if line.len() > 0 {
        let k = choose|k: int| 0 <= k < kept.len() && kept[k] == c;
        let before = outside_backticks(line.drop_last()).0;
        assert(line[line.len() - 1] == line.last());
        if k < before.len() {
            assert(before[k] == c);
            lemma_outside_holds(line.drop_last(), c);
            let j = choose|j: int| 0 <= j < line.len() - 1 && line.drop_last()[j] == c;
            assert(line[j] == c);
        }
    }
}

proof fn lemma_prose_lines(ls: Seq<Seq<char>>)
    ensures
        prose(ls) == unlines(prose_lines(ls)),
        forall|i: int|
            0 <= i < prose_lines(ls).len() ==> !(#[trigger] prose_lines(ls)[i]).contains('`'),
        forall|i: int, c: char|
            0 <= i < prose_lines(ls).len() && #[trigger] prose_lines(ls)[i].contains(c) ==> exists|
                j: int,
            |
                0 <= j < ls.len() && (#[trigger] ls[j]).contains(c),
    decreases ls.len(),
{
    if ls.len() > 0 {
        let few = ls.drop_last();
        lemma_prose_lines(few);
        let before = prose_lines(few);
        let now = prose_lines(ls);
        law_no_backtick_left(ls.last());
        assert(now != before ==> now.drop_last() =~= before);
        assert forall|i: int| 0 <= i < now.len() implies !(#[trigger] now[i]).contains('`') by {
            if i < before.len() {
                assert(now[i] == before[i]);
            }
        }
        assert forall|i: int, c: char| 0 <= i < now.len() && #[trigger] now[i].contains(
            c,
        ) implies exists|j: int| 0 <= j < ls.len() && (#[trigger] ls[j]).contains(c) by {
            if i < before.len() {
                assert(before[i].contains(c));
                let j = choose|j: int| 0 <= j < few.len() && (#[trigger] few[j]).contains(c);
                assert(ls[j].contains(c));
            } else {
                lemma_outside_holds(ls.last(), c);
                assert(ls[ls.len() - 1].contains(c));
            }
        }
    }
}

proof fn lemma_no_backtick(line: Seq<char>)
    requires
        !line.contains('`'),
    ensures
        outside_backticks(line) == (line, false),
        !is_fence(line),
    decreases line.len(),
{
    reveal_strlit("```");
    let s = strip_start(line, Class::White);
    lemma_run(line, Class::White);
    if occurs_at(s, "```"@, 0) {
        assert(s.subrange(0, 3)[0] == '`');
        assert(line[run(line, Class::White) as int] == '`');
    }
    if line.len() > 0 {
        assert forall|c: char| line.drop_last().contains(c) implies line.contains(c) by {
            let k = choose|k: int| 0 <= k < line.len() - 1 && line.drop_last()[k] == c;
            assert(line[k] == c);
        }
        assert(line[line.len() - 1] == line.last());
        lemma_no_backtick(line.drop_last());
        assert(line.drop_last().push(line.last()) =~= line);
    } else {
        assert(line =~= seq![]);
    }
}

proof fn lemma_plain_lines(ls: Seq<Seq<char>>)
    requires
        forall|i: int| 0 <= i < ls.len() ==> !(#[trigger] ls[i]).contains('`'),
    ensures
        prose_lines(ls) == ls,
        !fence_open(ls),
    decreases ls.len(),
{
    if ls.len() > 0 {
        let few = ls.drop_last();
        assert forall|i: int| 0 <= i < few.len() implies !(#[trigger] few[i]).contains('`') by {
            assert(!ls[i].contains('`'));
        }
        lemma_plain_lines(few);
        assert(!ls[ls.len() - 1].contains('`'));
        lemma_no_backtick(ls.last());
        assert(few.push(ls.last()) =~= ls);
    } else {
        assert(prose_lines(ls) =~= ls);
    }
}

proof fn lemma_unlines_hold(ls: Seq<Seq<char>>, c: char)
    requires
        unlines(ls).contains(c),
        c != '\n',
    ensures
        exists|i: int| 0 <= i < ls.len() && (#[trigger] ls[i]).contains(c),
    decreases ls.len(),
{
    if ls.len() > 0 {
        let few = ls.drop_last();
        let t = unlines(ls);
        let k = choose|k: int| 0 <= k < t.len() && t[k] == c;
        let n = unlines(few).len();
        if k < n {
            assert(unlines(few)[k] == c);
            lemma_unlines_hold(few, c);
            let i = choose|i: int| 0 <= i < few.len() && (#[trigger] few[i]).contains(c);
            assert(ls[i].contains(c));
        } else {
            assert(ls.last()[k - n] == c);
            assert(ls[ls.len() - 1].contains(c));
        }
    }
}

/// Stripping code is done once and for all: no backtick is left anywhere in a
/// text, and, where the text holds no carriage return, stripping it again
/// changes nothing.
pub proof fn law_stripping_code_is_final(text: Seq<char>)
    ensures
        !prose(lines(text)).contains('`'),
        !text.contains('\r') ==> prose(lines(prose(lines(text)))) == prose(lines(text)),
{
    let ls = lines(text);
    let kept = prose_lines(ls);
    lemma_prose_lines(ls);
    lemma_lines_hold(text);
    if prose(ls).contains('`') {
        lemma_unlines_hold(kept, '`');
    }
    assert forall|i: int| 0 <= i < kept.len() implies !(#[trigger] kept[i]).contains('\n') by {
        if kept[i].contains('\n') {
            let j = choose|j: int| 0 <= j < ls.len() && (#[trigger] ls[j]).contains('\n');
        }
    }
    lemma_lines_of_unlines(kept);
    if !text.contains('\r') {
        assert forall|i: int| 0 <= i < kept.len() implies chop_return(#[trigger] kept[i])
            == kept[i] by {
            if kept[i].len() > 0 && kept[i].last() == '\r' {
                assert(kept[i].contains('\r'));
                let j = choose|j: int| 0 <= j < ls.len() && (#[trigger] ls[j]).contains('\r');
            }
        }
        assert(lines(unlines(kept)) =~= kept);
        lemma_plain_lines(kept);
        lemma_prose_lines(kept);
    }
}

/// What stands in inline code adds nothing to the prose: a line with a code
/// span reads as the line without it.
pub proof fn law_inline_code_is_silent(before: Seq<char>, code: Seq<char>, after: Seq<char>)
    requires
        !outside_backticks(before).1,
        !code.contains('`'),
    ensures
        outside_backticks(before + seq!['`'] + code + seq!['`'] + after) == outside_backticks(
            before + after,
        ),
    decreases code.len() + after.len(),
{
    let s = before + seq!['`'] + code + seq!['`'] + after;
    if after.len() > 0 {
        law_inline_code_is_silent(before, code, after.drop_last());
        assert(s.drop_last() =~= before + seq!['`'] + code + seq!['`'] + after.drop_last());
        assert((before + after).drop_last() =~= before + after.drop_last());
    } else {
        assert(s.drop_last() =~= before + seq!['`'] + code);
        assert(before + after =~= before);
        lemma_inside(before, code);
    }
}

proof fn lemma_inside(before: Seq<char>, code: Seq<char>)
    requires
        !outside_backticks(before).1,
        !code.contains('`'),
    ensures
        outside_backticks(before + seq!['`'] + code) == (outside_backticks(before).0, true),
    decreases code.len(),
{
    let s = before + seq!['`'] + code;
    if code.len() > 0 {
        assert(code.contains(code.last()));
        assert forall|c: char| code.drop_last().contains(c) implies code.contains(c) by {
            let k = choose|k: int| 0 <= k < code.len() - 1 && code.drop_last()[k] == c;
            assert(code[k] == c);
        }
        lemma_inside(before, code.drop_last());
        assert(s.drop_last() =~= before + seq!['`'] + code.drop_last());
    } else {
        assert(s.drop_last() =~= before);
    }
}

/// A fenced code block adds nothing to the prose: lines before it and behind
/// it read as if it were not there.
pub proof fn law_fenced_code_is_silent(
    before: Seq<Seq<char>>,
    open: Seq<char>,
    code: Seq<Seq<char>>,
    close: Seq<char>,
    after: Seq<Seq<char>>,
)
    requires
        !fence_open(before),
        is_fence(open),
        is_fence(close),
        forall|i: int| 0 <= i < code.len() ==> !is_fence(#[trigger] code[i]),
    ensures
        prose(before + seq![open] + code + seq![close] + after) == prose(before + after),
        fence_open(before + seq![open] + code + seq![close] + after) == fence_open(before + after),
    decreases after.len(),
{
    let s = before + seq![open] + code + seq![close] + after;
    if after.len() > 0 {
        law_fenced_code_is_silent(before, open, code, close, after.drop_last());
        assert(s.drop_last() =~= before + seq![open] + code + seq![close] + after.drop_last());
        assert((before + after).drop_last() =~= before + after.drop_last());
    } else {
        assert(s.drop_last() =~= before + seq![open] + code);
        assert(before + after =~= before);
        lemma_fenced(before, open, code);
    }
}

proof fn lemma_fenced(before: Seq<Seq<char>>, open: Seq<char>, code: Seq<Seq<char>>)
    requires
        !fence_open(before),
        is_fence(open),
        forall|i: int| 0 <= i < code.len() ==> !is_fence(#[trigger] code[i]),
    ensures
        prose(before + seq![open] + code) == prose(before),
        fence_open(before + seq![open] + code),
    decreases code.len(),
{
    let s = before + seq![open] + code;
    if code.len() > 0 {
        assert(!is_fence(code[code.len() - 1]));
        assert forall|i: int| 0 <= i < code.len() - 1 implies !is_fence(
            #[trigger] code.drop_last()[i],
        ) by {
            assert(!is_fence(code[i]));
        }
        lemma_fenced(before, open, code.drop_last());
        assert(s.drop_last() =~= before + seq![open] + code.drop_last());
    } else {
        assert(s.drop_last() =~= before);
    }
}

/// Whether a text has the shape of a tag: a run of tag characters that starts
/// with a letter, a number or an underscore.
pub open spec fn tag_shaped(t: Seq<char>) -> bool {
    &&& t.len() > 0
    &&& Class::TagHead.has(t[0])
    &&& forall|j: int| 0 <= j < t.len() ==> Class::TagBody.has(#[trigger] t[j])
}

/// Every inline tag has the shape of a tag; in particular none is empty.
pub proof fn law_tags_are_tag_shaped(ws: Seq<Seq<char>>)
    ensures
        forall|i: int| 0 <= i < tags_among(ws).len() ==> tag_shaped(#[trigger] tags_among(ws)[i]),
    decreases ws.len(),
{
    if ws.len() > 0 {
        law_tags_are_tag_shaped(ws.drop_last());
        if let Some(t) = tag_of(ws.last()) {
            let name = ws.last().drop_first();
            lemma_run(name, Class::TagBody);
            assert(name[0] == ws.last()[1]);
            assert(Class::TagBody.has(name[0]));
            assert forall|j: int| 0 <= j < t.len() implies Class::TagBody.has(#[trigger] t[j]) by {
                assert(t[j] == name[j]);
            }
            assert(tag_shaped(t));
        }
        let earlier = tags_among(ws.drop_last());
        assert forall|i: int| 0 <= i < tags_among(ws).len() implies tag_shaped(
            #[trigger] tags_among(ws)[i],
        ) by {
            if i < earlier.len() {
                assert(tags_among(ws)[i] == earlier[i]);
            }
        }
    }
}

/// A word is a tag if it is a `#` with the name of a tag behind it; the tag is that
/// name, all of it, up to the first character that no tag holds.
pub proof fn law_tag_is_its_whole_name(name: Seq<char>, rest: Seq<char>)
    requires
        tag_shaped(name),
        rest.len() > 0 ==> !Class::TagBody.has(rest[0]),
    ensures
        tag_of(seq!['#'] + name + rest) == Some(name),
{
    let word = seq!['#'] + name + rest;
    let body = word.drop_first();
    assert(word[1] == name[0]);
    assert(body =~= name + rest);
    assert forall|i: int| 0 <= i < name.len() implies Class::TagBody.has(#[trigger] body[i]) by {
        assert(body[i] == name[i]);
    }
    if rest.len() > 0 {
        assert(body[name.len() as int] == rest[0]);
    }
    crate::text::lemma_run_is(body, Class::TagBody, name.len() as int);
    assert(body.take(name.len() as int) =~= name);
}

/// A word is no tag without a `#` before it, or with something behind the `#` that
/// no tag begins with.
pub proof fn law_other_words_are_no_tags(word: Seq<char>)
    requires
        word.len() < 2 || word[0] != '#' || !Class::TagHead.has(word[1]),
    ensures
        tag_of(word) is None,
{
}

/// A tag begins with a letter, a number or an underscore, and goes on over those,
/// hyphens and slashes.
pub proof fn law_tag_characters(c: char)
    ensures
        Class::TagHead.has(c) <==> crate::text::is_letter_or_number(c) || c == '_',
        Class::TagBody.has(c) <==> crate::text::is_letter_or_number(c) || c == '_' || c == '-' || c
            == '/',
        'a' <= c <= 'z' || 'A' <= c <= 'Z' || '0' <= c <= '9' ==> crate::text::is_letter_or_number(
            c,
        ),
        c == '#' || c == '.' || c == ',' || c == ' ' || c == '`' ==>
            !crate::text::is_letter_or_number(c),
{
}

/// Every word that is a tag is found, in order, and no other.
pub proof fn law_tags_are_found_in_order(a: Seq<Seq<char>>, word: Seq<char>, b: Seq<Seq<char>>)
    ensures
        tags_among(a + seq![word] + b) == tags_among(a) + (match tag_of(word) {
            Some(t) => seq![t],
            None => seq![],
        }) + tags_among(b),
    decreases b.len(),
{
    let all = a + seq![word] + b;
    if b.len() == 0 {
        assert(all.drop_last() =~= a);
        assert(tags_among(all) =~= tags_among(a) + (match tag_of(word) {
            Some(t) => seq![t],
            None => seq![],
        }) + tags_among(b));
    } else {
        assert(all.drop_last() =~= a + seq![word] + b.drop_last());
        law_tags_are_found_in_order(a, word, b.drop_last());
        assert(tags_among(all) =~= tags_among(a) + (match tag_of(word) {
            Some(t) => seq![t],
            None => seq![],
        }) + tags_among(b));
    }
}

/// A line without a backtick is prose, all of it.
pub proof fn law_line_without_code_stays(line: Seq<char>)
    requires
        !line.contains('`'),
    ensures
        outside_backticks(line) == (line, false),
    decreases line.len(),
{
    if line.len() > 0 {
        let few = line.drop_last();
        assert forall|i: int| 0 <= i < few.len() implies few[i] != '`' by {
            assert(line.contains(line[i]));
        }
        law_line_without_code_stays(few);
        assert(line.contains(line[line.len() - 1]));
        assert(few.push(line.last()) =~= line);
    } else {
        assert(outside_backticks(line).0 =~= line);
    }
}

/// Inline code that is never closed goes to the end of its line, and no further.
pub proof fn law_unclosed_code_ends_with_its_line(before: Seq<char>, code: Seq<char>)
    requires
        !before.contains('`'),
        !code.contains('`'),
    ensures
        outside_backticks(before + seq!['`'] + code).0 == before,
{
    law_line_without_code_stays(before);
    lemma_inside(before, code);
}

/// Outside code blocks, each line leaves its prose and a line feed; inside, and at
/// the fences, lines leave nothing.
pub proof fn law_prose_is_taken_line_by_line(ls: Seq<Seq<char>>, line: Seq<char>)
    ensures
        prose(seq![]) == Seq::<char>::empty(),
        !is_fence(line) && !fence_open(ls) ==> prose(ls.push(line)) == prose(ls)
            + outside_backticks(line).0 + seq!['\n'],
        is_fence(line) || fence_open(ls) ==> prose(ls.push(line)) == prose(ls),
{
    assert(ls.push(line).drop_last() =~= ls);
}

proof fn lemma_prose_of_plain(ls: Seq<Seq<char>>)
    requires
        forall|i: int| 0 <= i < ls.len() ==> !(#[trigger] ls[i]).contains('`'),
    ensures
        prose(ls) == unlines(ls),
        !fence_open(ls),
    decreases ls.len(),
{
    if ls.len() > 0 {
        let few = ls.drop_last();
        assert forall|i: int| 0 <= i < few.len() implies !(#[trigger] few[i]).contains('`') by {
            assert(few[i] == ls[i]);
        }
        lemma_prose_of_plain(few);
        assert(!ls[ls.len() - 1].contains('`'));
        law_line_without_code_stays(ls.last());
        let line = ls.last();
        if is_fence(line) {
            let w = Class::White;
            reveal_strlit("```");
            lemma_run(line, w);
            let n = run(line, w) as int;
            assert(strip_start(line, w).subrange(0, 3)[0] == '`');
            assert(line[n] == '`');
            assert(line.contains('`'));
        }
    }
}

/// The tags of a text without code are those of its words.
pub proof fn law_text_without_code_has_the_tags_of_its_words(body: Seq<char>)
    requires
        !body.contains('`'),
    ensures
        inline_tags(body) == tags_among(words(body)),
{
    let ls = lines(body);
    lemma_lines_hold(body);
    assert forall|i: int| 0 <= i < ls.len() implies !(#[trigger] ls[i]).contains('`') by {}
    lemma_prose_of_plain(ls);
    crate::text::lemma_unlines_words(ls);
    crate::text::lemma_lines_words(body);
}

/// The tags of a text are those of the words of its prose.
pub proof fn law_tags_come_from_prose(body: Seq<char>)
    ensures
        inline_tags(body) == tags_among(words(prose(lines(body)))),
{
}

/// The tags that are found in a text are those of its prose, and what is left
/// without code holds no backtick.
pub proof fn law_found_tags(text: &str, tags: Vec<String>, rest: String)
    ensures
        call_ensures(extract_inline_tags, (text,), tags) ==> views(tags@) == tags_among(
            words(prose(lines(text@))),
        ),
        call_ensures(strip_code_regions, (text,), rest) ==> rest@ == prose(lines(text@))
            && !rest@.contains('`'),
{
    law_stripping_code_is_final(text@);
}

} // verus!
