//! Obsidian syntax, reduced to plain text: links, embeds and callouts.

use vstd::prelude::*;
use vstd::slice::slice_subrange;
use vstd::string::StringExecFns;

use crate::text::{
    Class, chars_of, find, find_in, lemma_find, lines_of, occurs_at, same_chars, starts_with,
    string_of, strip_start, stripped_start, tail_run, tail_run_len, views,
};

verus! {

// ---------- the model ----------

/// What a link shows: its alias, which stands behind the last bar, or else its
/// target.
pub open spec fn shown(inner: Seq<char>) -> Seq<char> {
    inner.skip(inner.len() - tail_run(inner, Class::Except('|')))
}

/// Where the text before a link or embed at `i` ends: the `!` of an embed
/// belongs to the embed.
pub open spec fn before_link(s: Seq<char>, i: nat) -> int {
    if i > 0 && s[i - 1] == '!' {
        i - 1
    } else {
        i as int
    }
}

/// The text with each `[[link]]` replaced by what it shows and each
/// `![[embed]]` dropped, taken from the left. A `[[` that nothing closes stays,
/// with all that follows.
pub open spec fn plain_links(s: Seq<char>) -> Seq<char>
    decreases s.len(),
{
    match find(s, "[["@) {
        None => s,
        Some(i) => {
            let after = s.skip((i + "[["@.len()) as int);
            match find(after, "]]"@) {
                None => s,
                Some(c) => {
                    let rest = after.skip((c + "]]"@.len()) as int);
                    proof {
                        lemma_find(s, "[["@);
                        lemma_find(after, "]]"@);
                        reveal_strlit("[[");
                    }
                    s.take(before_link(s, i)) + (if before_link(s, i) < i {
                        seq![]
                    } else {
                        shown(after.take(c as int))
                    }) + plain_links(rest)
                },
            }
        },
    }
}

/// A line of a quote without its `>`: an empty quote line vanishes, a callout
/// opener leaves its title, if it has one.
pub open spec fn plain_callout(line: Seq<char>) -> Seq<char> {
    if line == ">"@ {
        seq![]
    } else if !occurs_at(line, "> "@, 0) {
        line + seq!['\n']
    } else {
        let quoted = line.skip("> "@.len() as int);
        let opened = quoted.skip("[!"@.len() as int);
        if occurs_at(quoted, "[!"@, 0) && find(opened, "]"@) is Some {
            let title = strip_start(
                opened.skip((find(opened, "]"@)->0 + "]"@.len()) as int),
                Class::White,
            );
            if title.len() == 0 {
                seq![]
            } else {
                title + seq!['\n']
            }
        } else {
            quoted + seq!['\n']
        }
    }
}

/// The lines with quotes and callouts reduced to plain text.
pub open spec fn plain_callouts(ls: Seq<Seq<char>>) -> Seq<char>
    decreases ls.len(),
{
    if ls.len() == 0 {
        seq![]
    } else {
        plain_callouts(ls.drop_last()) + plain_callout(ls.last())
    }
}

// ---------- the code ----------

/// Replaces links by what they show and drops embeds.
pub fn obsidian_transform(text: &str) -> (out: String)
    ensures
        out@ == plain_links(text@),
{
    let all = chars_of(text);
    let open = chars_of("[[");
    let close = chars_of("]]");
    proof {
        reveal_strlit("[[");
    }
    let mut rest: &[char] = &all;
    let mut out = String::new();
    assert(out@ + plain_links(rest@) =~= plain_links(text@));
    loop
        invariant
            open@ == "[["@,
            close@ == "]]"@,
            open@.len() == 2,
            out@ + plain_links(rest@) == plain_links(text@),
        decreases rest@.len(),
    {
        let ghost s = rest@;
        let ghost done = out@;
        let found = find_in(rest, &open);
        if found.is_none() {
            out.append(string_of(rest).as_str());
            return out;
        }
        let idx = found.unwrap();
        let n = rest.len();
        let embed = idx > 0 && rest[idx - 1] == '!';
        let prefix_end = if embed {
            idx - 1
        } else {
            idx
        };
        let after = slice_subrange(rest, idx + open.len(), n);
        let closed = find_in(after, &close);
        if closed.is_none() {
            out.append(string_of(rest).as_str());
            return out;
        }
        let end = closed.unwrap();
        out.append(string_of(slice_subrange(rest, 0, prefix_end)).as_str());
        if !embed {
            let inner = slice_subrange(after, 0, end);
            let display = slice_subrange(
                inner,
                inner.len() - tail_run_len(inner, Class::Except('|')),
                inner.len(),
            );
            out.append(string_of(display).as_str());
        }
        let m = after.len();
        rest = slice_subrange(after, end + close.len(), m);
        assert(out@ + plain_links(rest@) =~= done + plain_links(s));
    }
}

/// A line of a quote without its `>`, with the line feed that it keeps.
fn callout_line(line: &str) -> (out: String)
    ensures
        out@ == plain_callout(line@),
{
    let chars = chars_of(line);
    let mut out = String::new();
    if same_chars(&chars, &chars_of(">")) {
        assert(out@ =~= seq![]);
        return out;
    }
    let arrow = chars_of("> ");
    if !starts_with(&chars, &arrow) {
        out.append(line);
        out.push('\n');
        assert(out@ =~= line@ + seq!['\n']);
        return out;
    }
    let quoted = slice_subrange(&chars, arrow.len(), chars.len());
    let open = chars_of("[!");
    if starts_with(quoted, &open) {
        let opened = slice_subrange(quoted, open.len(), quoted.len());
        let close = chars_of("]");
        if let Some(end) = find_in(opened, &close) {
            let n = opened.len();
            let title = stripped_start(
                slice_subrange(opened, end + close.len(), n),
                Class::White,
            );
            if title.len() > 0 {
                out.append(string_of(title).as_str());
                out.push('\n');
                assert(out@ =~= title@ + seq!['\n']);
            } else {
                assert(out@ =~= seq![]);
            }
            return out;
        }
    }
    out.append(string_of(quoted).as_str());
    out.push('\n');
    assert(out@ =~= quoted@ + seq!['\n']);
    out
}

/// Reduces quotes and callouts to their text.
pub fn strip_callout_markers(text: &str) -> (out: String)
    ensures
        out@ == plain_callouts(crate::text::lines(text@)),
{
    let ls = lines_of(text);
    let mut out = String::new();
    let n = ls.len();
    assert(out@ =~= seq![]);
    for i in 0..n
        invariant
            n == ls@.len(),
            out@ == plain_callouts(views(ls@).take(i as int)),
    {
        let ghost next = views(ls@).take(i + 1);
        assert(next.drop_last() =~= views(ls@).take(i as int));
        out.append(callout_line(ls[i].as_str()).as_str());
    }
    assert(views(ls@).take(n as int) =~= views(ls@));
    out
}

// ---------- laws ----------

/// Text without a link is left as it is.
pub proof fn law_no_link_no_change(s: Seq<char>)
    requires
        find(s, "[["@) is None,
    ensures
        plain_links(s) == s,
{
}

/// A link that is not an embed leaves the text before it, what it shows, and
/// the rest reduced in turn: `[[target]]` shows the target, `[[target|alias]]`
/// the alias.
pub proof fn law_link_shows(before: Seq<char>, inner: Seq<char>, rest: Seq<char>)
    requires
        find(before + "[["@ + inner + "]]"@ + rest, "[["@) == Some(before.len()),
        find(inner + "]]"@ + rest, "]]"@) == Some(inner.len()),
        before.len() > 0 ==> before.last() != '!',
    ensures
        plain_links(before + "[["@ + inner + "]]"@ + rest) == before + shown(inner) + plain_links(
            rest,
        ),
{
    let s = before + "[["@ + inner + "]]"@ + rest;
    reveal_strlit("[[");
    reveal_strlit("]]");
    let after = s.skip((before.len() + "[["@.len()) as int);
    assert(after =~= inner + "]]"@ + rest);
    assert(after.take(inner.len() as int) =~= inner);
    assert(after.skip((inner.len() + "]]"@.len()) as int) =~= rest);
    assert(s.take(before.len() as int) =~= before);
    if before.len() > 0 {
        assert(s[before.len() - 1] == before.last());
    }
}

/// An embed leaves nothing of itself.
pub proof fn law_embed_is_dropped(before: Seq<char>, inner: Seq<char>, rest: Seq<char>)
    requires
        find(before + "!"@ + "[["@ + inner + "]]"@ + rest, "[["@) == Some(before.len() + 1),
        find(inner + "]]"@ + rest, "]]"@) == Some(inner.len()),
    ensures
        plain_links(before + "!"@ + "[["@ + inner + "]]"@ + rest) == before + plain_links(rest),
{
    let s = before + "!"@ + "[["@ + inner + "]]"@ + rest;
    reveal_strlit("!");
    reveal_strlit("[[");
    reveal_strlit("]]");
    let after = s.skip((before.len() + 1 + "[["@.len()) as int);
    assert(after =~= inner + "]]"@ + rest);
    assert(after.skip((inner.len() + "]]"@.len()) as int) =~= rest);
    assert(s[before.len() as int] == '!');
    assert(s.take(before.len() as int) =~= before);
    assert(before + seq![] + plain_links(rest) =~= before + plain_links(rest));
}

/// A link shows its alias where it has one, and its target where it has none.
pub proof fn law_alias_or_target(target: Seq<char>, alias: Seq<char>)
    requires
        !alias.contains('|'),
    ensures
        shown(target + "|"@ + alias) == alias,
        !target.contains('|') ==> shown(target) == target,
{
    reveal_strlit("|");
    let s = target + "|"@ + alias;
    assert(s.len() == target.len() + 1 + alias.len());
    assert forall|i: int| s.len() - alias.len() <= i < s.len() implies s[i] != '|' by {
        assert(s[i] == alias[i - target.len() - 1]);
        assert(alias.contains(alias[i - target.len() - 1]));
    }
    assert(s[target.len() as int] == '|');
    crate::text::lemma_tail_run_is(s, Class::Except('|'), alias.len() as int);
    assert(s.skip(s.len() - alias.len()) =~= alias);
    if !target.contains('|') {
        assert forall|i: int| 0 <= i < target.len() implies target[i] != '|' by {
            assert(target.contains(target[i]));
        }
        crate::text::lemma_tail_run_is(target, Class::Except('|'), target.len() as int);
        assert(target.skip(0) =~= target);
    }
}

/// A quoted line that opens no callout keeps all of its text.
pub proof fn law_quoted_text_is_kept(q: Seq<char>)
    requires
        !occurs_at(q, "[!"@, 0),
    ensures
        plain_callout("> "@ + q) == q + seq!['\n'],
{
    reveal_strlit("> ");
    reveal_strlit(">");
    let line = "> "@ + q;
    assert(line.subrange(0, 2) =~= "> "@);
    assert(line.skip(2) =~= q);
}

/// A callout opener leaves its title, all of it, and nothing of its kind; one
/// without a title leaves nothing.
pub proof fn law_callout_leaves_its_title(kind: Seq<char>, gap: Seq<char>, title: Seq<char>)
    requires
        !kind.contains(']'),
        crate::text::blank(gap),
        title.len() > 0 ==> !crate::text::is_white(title[0]),
    ensures
        plain_callout("> [!"@ + kind + "]"@ + gap + title) == (if title.len() == 0 {
            seq![]
        } else {
            title + seq!['\n']
        }),
{
    reveal_strlit("> ");
    reveal_strlit(">");
    reveal_strlit("[!");
    reveal_strlit("> [!");
    reveal_strlit("]");
    let line = "> [!"@ + kind + "]"@ + gap + title;
    let quoted = line.skip(2);
    let opened = quoted.skip(2);
    assert(line.subrange(0, 2) =~= "> "@);
    assert(quoted.subrange(0, 2) =~= "[!"@);
    assert(opened =~= kind + "]"@ + gap + title);
    let n = kind.len() as int;
    assert(opened.subrange(n, n + 1) =~= "]"@);
    assert forall|j: int| 0 <= j < n implies !#[trigger] occurs_at(opened, "]"@, j) by {
        if occurs_at(opened, "]"@, j) {
            assert(opened.subrange(j, j + 1)[0] == ']');
            assert(kind[j] == ']');
        }
    }
    crate::text::lemma_find_is(opened, "]"@, n);
    let behind = opened.skip(n + 1);
    assert(behind =~= gap + title);
    let k = Class::White;
    assert forall|i: int| 0 <= i < gap.len() implies k.has(#[trigger] behind[i]) by {
        assert(crate::text::is_white(gap[i]));
    }
    crate::text::lemma_run_is(behind, k, gap.len() as int);
    assert(behind.skip(gap.len() as int) =~= title);
}

/// A callout opener that is never closed is a quote like any other.
pub proof fn law_unclosed_callout_is_kept(rest: Seq<char>)
    requires
        !rest.contains(']'),
    ensures
        plain_callout("> [!"@ + rest) == "[!"@ + rest + seq!['\n'],
{
    reveal_strlit("> ");
    reveal_strlit(">");
    reveal_strlit("[!");
    reveal_strlit("> [!");
    reveal_strlit("]");
    let line = "> [!"@ + rest;
    let quoted = line.skip(2);
    let opened = quoted.skip(2);
    assert(line.subrange(0, 2) =~= "> "@);
    assert(quoted =~= "[!"@ + rest);
    assert(opened =~= rest);
    lemma_find(opened, "]"@);
    if let Some(i) = find(opened, "]"@) {
        assert(opened.subrange(i as int, i as int + 1)[0] == ']');
        assert(rest[i as int] == ']');
    }
}

/// A line that is no quote stays as it is, and an empty line of a quote vanishes.
pub proof fn law_other_lines_stay(line: Seq<char>)
    requires
        line.len() == 0 || line[0] != '>' || (line.len() > 1 && line[1] != ' '),
    ensures
        plain_callout(line) == line + seq!['\n'],
        plain_callout(seq!['>']) == Seq::<char>::empty(),
{
    reveal_strlit("> ");
    reveal_strlit(">");
    assert(">"@ =~= seq!['>']);
    if occurs_at(line, "> "@, 0) {
        assert(line.subrange(0, 2)[0] == '>' && line.subrange(0, 2)[1] == ' ');
    }
}

/// Lines are reduced one by one, each whatever the others are.
pub proof fn law_lines_are_reduced_one_by_one(a: Seq<Seq<char>>, line: Seq<char>, b: Seq<Seq<char>>)
    ensures
        plain_callouts(a + seq![line] + b) == plain_callouts(a) + plain_callout(line)
            + plain_callouts(b),
    decreases b.len(),
{
    let all = a + seq![line] + b;
    if b.len() == 0 {
        assert(all.drop_last() =~= a);
        assert(plain_callouts(b) =~= seq![]);
        assert(plain_callouts(all) =~= plain_callouts(a) + plain_callout(line) + plain_callouts(b));
    } else {
        assert(all.drop_last() =~= a + seq![line] + b.drop_last());
        law_lines_are_reduced_one_by_one(a, line, b.drop_last());
        assert(plain_callouts(all) =~= plain_callouts(a) + plain_callout(line) + plain_callouts(b));
    }
}

/// Quotes that open no callout keep all of their text, line by line.
pub proof fn law_quotes_keep_their_text(qs: Seq<Seq<char>>)
    requires
        forall|i: int| 0 <= i < qs.len() ==> !occurs_at(#[trigger] qs[i], "[!"@, 0),
    ensures
        plain_callouts(qs.map_values(|q: Seq<char>| "> "@ + q)) == crate::text::unlines(qs),
    decreases qs.len(),
{
    let f = |q: Seq<char>| "> "@ + q;
    if qs.len() > 0 {
        let few = qs.drop_last();
        assert forall|i: int| 0 <= i < few.len() implies !occurs_at(
            #[trigger] few[i],
            "[!"@,
            0,
        ) by {
            assert(few[i] == qs[i]);
        }
        law_quotes_keep_their_text(few);
        assert(qs.map_values(f).drop_last() =~= few.map_values(f));
        assert(!occurs_at(qs[qs.len() - 1], "[!"@, 0));
        law_quoted_text_is_kept(qs.last());
        assert(plain_callouts(qs.map_values(f)) =~= crate::text::unlines(qs));
    } else {
        assert(plain_callouts(qs.map_values(f)) =~= crate::text::unlines(qs));
    }
}

/// A link that nothing closes stays, with all that follows it.
pub proof fn law_unclosed_link_stays(before: Seq<char>, rest: Seq<char>)
    requires
        find(before + "[["@ + rest, "[["@) == Some(before.len()),
        find(rest, "]]"@) is None,
    ensures
        plain_links(before + "[["@ + rest) == before + "[["@ + rest,
{
    reveal_strlit("[[");
    let s = before + "[["@ + rest;
    assert(s.skip(before.len() as int + 2) =~= rest);
}

/// What the two reductions give back of a text: its quotes and callouts line by
/// line, and its links from the left.
pub proof fn law_reduced_text(text: &str, quotes: String, links: String)
    ensures
        call_ensures(strip_callout_markers, (text,), quotes) ==> quotes@ == plain_callouts(
            crate::text::lines(text@),
        ),
        call_ensures(obsidian_transform, (text,), links) ==> links@ == plain_links(text@) && (find(
            text@,
            "[["@,
        ) is None ==> links@ == text@),
{
    if find(text@, "[["@) is None {
        law_no_link_no_change(text@);
    }
}

} // verus!
