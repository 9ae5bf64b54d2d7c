//! Heading-based sections of a note's body.

use vstd::prelude::*;
use vstd::slice::slice_subrange;
use vstd::string::StringExecFns;

use crate::model::copy_strings;
use crate::text::{
    all_words, blank, chars_of, chop_return, is_white, lemma_blank_words, lemma_run, lemma_run_is,
    lemma_trim_blank, lemma_words_concat, lines, lines_of, occurs_at, run, run_len, starts_with,
    string_of, strip_end, strip_start, stripped_end, stripped_start, trim, trimmed, unlines, views,
    words, Class,
};

verus! {

// ---------- the model ----------

/// A section as it stands in the note: the headings above it, outermost first,
/// and its lines, each ended by a line feed.
pub struct RawView {
    pub path: Seq<Seq<char>>,
    pub body: Seq<char>,
}

/// A heading: its level and its text.
pub type HeadingView = (nat, Seq<char>);

/// Whether a line opens or closes a fenced code block.
pub open spec fn is_fence(line: Seq<char>) -> bool {
    occurs_at(strip_start(line, Class::White), "```"@, 0)
}

/// Whether a fenced code block is open behind some lines.
pub open spec fn fence_open(ls: Seq<Seq<char>>) -> bool
    decreases ls.len(),
{
    if ls.len() == 0 {
        false
    } else {
        fence_open(ls.drop_last()) != is_fence(ls.last())
    }
}

/// The heading that a line is: one to six `#`, then a space or the end of the
/// line; its text is without the white space and the closing `#` around it.
pub open spec fn heading(line: Seq<char>) -> Option<HeadingView> {
    let stripped = strip_start(line, Class::White);
    let level = run(stripped, Class::Only('#'));
    let after = stripped.skip(level as int);
    if 1 <= level <= 6 && (after.len() == 0 || after[0] == ' ') {
        Some(
            (
                level,
                trim(
                    strip_end(trim(after), Class::Only('#')),
                ),
            ),
        )
    } else {
        None
    }
}

/// The open headings without those at or below a level.
pub open spec fn above(stack: Seq<HeadingView>, level: nat) -> Seq<HeadingView>
    decreases stack.len(),
{
    if stack.len() > 0 && stack.last().0 >= level {
        above(stack.drop_last(), level)
    } else {
        stack
    }
}

/// Where the walk over the lines is: the open headings, the lines since the
/// last of them, whether a code block is open, and the sections before.
pub struct Walk {
    pub stack: Seq<HeadingView>,
    pub body: Seq<char>,
    pub fenced: bool,
    pub done: Seq<RawView>,
}

impl Walk {
    /// The texts of the open headings.
    pub open spec fn path(self) -> Seq<Seq<char>> {
        self.stack.map_values(|h: HeadingView| h.1)
    }

    /// The sections so far with the one under way, unless that is blank.
    pub open spec fn closed(self) -> Seq<RawView> {
        if trim(self.body).len() == 0 {
            self.done
        } else {
            self.done.push(RawView { path: self.path(), body: self.body })
        }
    }

    /// The walk with a line taken into the section under way.
    pub open spec fn with_line(self, line: Seq<char>) -> Walk {
        Walk { body: self.body + line + seq!['\n'], ..self }
    }

    /// The walk one line further. Headings count only outside code blocks.
    pub open spec fn step(self, line: Seq<char>) -> Walk {
        if is_fence(line) {
            Walk { fenced: !self.fenced, ..self.with_line(line) }
        } else if self.fenced {
            self.with_line(line)
        } else {
            match heading(line) {
                Some(h) => Walk {
                    stack: above(self.stack, h.0).push(h),
                    body: seq![],
                    fenced: false,
                    done: self.closed(),
                },
                None => self.with_line(line),
            }
        }
    }
}

/// The walk over some lines from the start.
pub open spec fn walk(ls: Seq<Seq<char>>) -> Walk
    decreases ls.len(),
{
    if ls.len() == 0 {
        Walk { stack: seq![], body: seq![], fenced: false, done: seq![] }
    } else {
        walk(ls.drop_last()).step(ls.last())
    }
}

/// The sections of a body.
pub open spec fn sections(body: Seq<char>) -> Seq<RawView> {
    walk(lines(body)).closed()
}

// ---------- the code ----------

/// A section as it stands in the note.
#[derive(Debug)]
pub struct RawSection {
    pub heading_path: Vec<String>,
    pub body: String,
}

impl View for RawSection {
    type V = RawView;

    open spec fn view(&self) -> RawView {
        RawView { path: views(self.heading_path@), body: self.body@ }
    }
}

/// The sections of a list.
pub open spec fn raw_views(v: Seq<RawSection>) -> Seq<RawView> {
    v.map_values(|s: RawSection| s@)
}

/// The headings of a list.
pub open spec fn heading_views(v: Seq<(usize, String)>) -> Seq<HeadingView> {
    v.map_values(|h: (usize, String)| (h.0 as nat, h.1@))
}

/// Whether a line opens or closes a fenced code block.
pub fn fence_line(line: &str) -> (b: bool)
    ensures
        b == is_fence(line@),
{
    let chars = chars_of(line);
    starts_with(stripped_start(&chars, Class::White), &chars_of("```"))
}

/// The heading that a line is, if it is one.
pub fn parse_atx_heading(line: &str) -> (r: Option<(usize, String)>)
    ensures
        match r {
            Some((level, text)) => heading(line@) == Some((level as nat, text@)) && 1 <= level <= 6,
            None => heading(line@) is None,
        },
{
    let chars = chars_of(line);
    let stripped = stripped_start(&chars, Class::White);
    let level = run_len(stripped, Class::Only('#'));
    if level < 1 || level > 6 {
        return None;
    }
    let after = slice_subrange(stripped, level, stripped.len());
    if after.len() > 0 && after[0] != ' ' {
        return None;
    }
    let text = trimmed(stripped_end(trimmed(after), Class::Only('#')));
    Some((level, string_of(text)))
}

/// Closes the section under way: a blank one is dropped.
fn flush_section(path: &Vec<String>, body: &mut String, sections: &mut Vec<RawSection>)
    ensures
        final(body)@.len() == 0,
        raw_views(final(sections)@) == (if trim(old(body)@).len() == 0 {
            raw_views(old(sections)@)
        } else {
            raw_views(old(sections)@).push(RawView { path: views(path@), body: old(body)@ })
        }),
{
    let chars = chars_of(body.as_str());
    if trimmed(&chars).len() == 0 {
        *body = String::new();
        return;
    }
    let section = RawSection { heading_path: copy_strings(path), body: body.clone() };
    sections.push(section);
    *body = String::new();
    assert(raw_views(sections@) =~= raw_views(old(sections)@).push(section@));
}

/// The texts of the open headings.
fn path_of(stack: &Vec<(usize, String)>) -> (path: Vec<String>)
    ensures
        views(path@) == heading_views(stack@).map_values(|h: HeadingView| h.1),
{
    let mut path: Vec<String> = Vec::new();
    let n = stack.len();
    for i in 0..n
        invariant
            n == stack@.len(),
            path@.len() == i,
            forall|j: int| 0 <= j < i ==> (#[trigger] path@[j])@ == stack@[j].1@,
    {
        path.push(stack[i].1.clone());
    }
    assert(views(path@) =~= heading_views(stack@).map_values(|h: HeadingView| h.1));
    path
}

/// The sections of a note's body: the lines under each heading, with the
/// headings above them. Lines before the first heading have no heading; what
/// is inside a fenced code block is never a heading; blank sections are
/// dropped.
pub fn collect_sections(body: &str) -> (out: Vec<RawSection>)
    ensures
        raw_views(out@) == sections(body@),
{
    let ls = lines_of(body);
    let mut done: Vec<RawSection> = Vec::new();
    let mut path: Vec<String> = Vec::new();
    let mut current = String::new();
    let mut stack: Vec<(usize, String)> = Vec::new();
    let mut fenced = false;
    let n = ls.len();
    assert(views(path@) =~= walk(seq![]).path());
    assert(raw_views(done@) =~= walk(seq![]).done);
    assert(heading_views(stack@) =~= walk(seq![]).stack);
    assert(views(ls@).take(0) =~= seq![]);
    for i in 0..n
        invariant
            n == ls@.len(),
            ({
                let w = walk(views(ls@).take(i as int));
                &&& raw_views(done@) == w.done
                &&& current@ == w.body
                &&& heading_views(stack@) == w.stack
                &&& views(path@) == w.path()
                &&& fenced == w.fenced
            }),
    {
        let line = ls[i].as_str();
        let ghost w = walk(views(ls@).take(i as int));
        let ghost next = views(ls@).take(i + 1);
        proof {
            assert(next.drop_last() =~= views(ls@).take(i as int));
            assert(next.last() == line@);
        }
        let fence = fence_line(line);
        if fence {
            fenced = !fenced;
        }
        let found = if fence || fenced {
            None
        } else {
            parse_atx_heading(line)
        };
        match found {
            Some((level, text)) => {
                flush_section(&path, &mut current, &mut done);
                assert(current@ =~= seq![]);
                while stack.len() > 0 && stack[stack.len() - 1].0 >= level
                    invariant
                        above(heading_views(stack@), level as nat) == above(w.stack, level as nat),
                    ensures
                        heading_views(stack@) == above(w.stack, level as nat),
                    decreases stack@.len(),
                {
                    let ghost before = stack@;
                    stack.pop();
                    assert(heading_views(stack@) =~= heading_views(before).drop_last());
                }
                let ghost kept = stack@;
                stack.push((level, text));
                assert(heading_views(stack@) =~= heading_views(kept).push((level as nat, text@)));
                path = path_of(&stack);
            },
            None => {
                current.append(line);
                current.push('\n');
                assert(current@ =~= w.body + line@ + seq!['\n']);
            },
        }
    }
    assert(views(ls@).take(n as int) =~= views(ls@));
    flush_section(&path, &mut current, &mut done);
    done
}

// ---------- laws ----------

/// Whether a stack of open headings goes strictly deeper, within the six
/// levels that there are.
pub open spec fn deepens(stack: Seq<HeadingView>) -> bool {
    &&& forall|i: int| 0 <= i < stack.len() ==> 1 <= (#[trigger] stack[i]).0 <= 6
    &&& forall|i: int, j: int|
        0 <= i < j < stack.len() ==> (#[trigger] stack[i]).0 < (#[trigger] stack[j]).0
}

proof fn lemma_above(stack: Seq<HeadingView>, level: nat)
    requires
        deepens(stack),
    ensures
        deepens(above(stack, level)),
        above(stack, level).len() > 0 ==> above(stack, level).last().0 < level,
    decreases stack.len(),
{
    if stack.len() > 0 && stack.last().0 >= level {
        lemma_above(stack.drop_last(), level);
    }
}

proof fn lemma_depth(stack: Seq<HeadingView>)
    requires
        deepens(stack),
    ensures
        stack.len() <= 6,
        stack.len() > 0 ==> stack.last().0 >= stack.len(),
    decreases stack.len(),
{
    if stack.len() > 1 {
        lemma_depth(stack.drop_last());
        assert(stack[stack.len() - 2].0 < stack[stack.len() - 1].0);
    } else if stack.len() == 1 {
        assert(stack[0].0 >= 1);
    }
    if stack.len() > 0 {
        assert(stack[stack.len() - 1].0 <= 6);
    }
}

/// The open headings go strictly deeper at every line of a note.
pub proof fn law_headings_deepen(ls: Seq<Seq<char>>)
    ensures
        deepens(walk(ls).stack),
    decreases ls.len(),
{
    if ls.len() > 0 {
        law_headings_deepen(ls.drop_last());
        let w = walk(ls.drop_last());
        if let Some(h) = heading(ls.last()) {
            lemma_above(w.stack, h.0);
            let kept = above(w.stack, h.0);
            let next = kept.push(h);
            assert forall|i: int, j: int| 0 <= i < j < next.len() implies (
            #[trigger] next[i]).0 < (#[trigger] next[j]).0 by {
                if j == kept.len() && i < kept.len() - 1 {
                    assert(kept[i].0 < kept[kept.len() - 1].0);
                }
            }
        }
    }
}

/// Whether a line of some lines is a heading: it has the form of one, and no
/// fenced code block is open there.
pub open spec fn heading_at(ls: Seq<Seq<char>>, k: int) -> bool {
    !is_fence(ls[k]) && !fence_open(ls.take(k)) && heading(ls[k]) is Some
}

/// The headings of some lines, in their order.
pub open spec fn headings(ls: Seq<Seq<char>>) -> Seq<HeadingView>
    decreases ls.len(),
{
    if ls.len() == 0 {
        seq![]
    } else if heading_at(ls, ls.len() - 1) {
        headings(ls.drop_last()).push(heading(ls.last()).unwrap())
    } else {
        headings(ls.drop_last())
    }
}

/// Whether a heading has only deeper headings behind it.
pub open spec fn still_open(hs: Seq<HeadingView>, i: int) -> bool {
    forall|j: int| i < j < hs.len() ==> hs[i].0 < (#[trigger] hs[j]).0
}

/// Those of the first `n` headings that have only deeper ones behind them, in
/// their order.
pub open spec fn open_among(hs: Seq<HeadingView>, n: nat) -> Seq<HeadingView>
    decreases n,
{
    if n == 0 {
        seq![]
    } else if still_open(hs, n - 1) {
        open_among(hs, (n - 1) as nat).push(hs[n - 1])
    } else {
        open_among(hs, (n - 1) as nat)
    }
}

/// The headings that what follows some lines stands under: those that have only
/// deeper headings between.
pub open spec fn path_behind(ls: Seq<Seq<char>>) -> Seq<Seq<char>> {
    let hs = headings(ls);
    open_among(hs, hs.len()).map_values(|h: HeadingView| h.1)
}

/// Whether a section is the lines from `m` to `n`: these are no headings, a
/// heading or the start of the note stands before them and a heading or the end
/// behind them, and the path is that of the headings that they stand under.
pub open spec fn is_section(ls: Seq<Seq<char>>, r: RawView, m: int, n: int) -> bool {
    &&& 0 <= m <= n <= ls.len()
    &&& m > 0 ==> heading_at(ls, m - 1)
    &&& n < ls.len() ==> heading_at(ls, n)
    &&& forall|k: int| m <= k < n ==> !#[trigger] heading_at(ls, k)
    &&& r.body == unlines(ls.subrange(m, n))
    &&& r.path == path_behind(ls.take(m))
}

/// Whether a section stands among some lines.
pub open spec fn stands_in(ls: Seq<Seq<char>>, r: RawView) -> bool {
    exists|m: int, n: int| #[trigger] is_section(ls, r, m, n)
}

/// Whether a section stands among some lines, with a heading behind it.
spec fn ended_in(ls: Seq<Seq<char>>, r: RawView) -> bool {
    exists|m: int, n: int| n < ls.len() && #[trigger] is_section(ls, r, m, n)
}

/// Where the lines behind the last heading start.
spec fn last_start(ls: Seq<Seq<char>>) -> int
    decreases ls.len(),
{
    if ls.len() == 0 {
        0
    } else if heading_at(ls, ls.len() - 1) {
        ls.len() as int
    } else {
        last_start(ls.drop_last())
    }
}

proof fn lemma_same_headings(ls: Seq<Seq<char>>, k: int)
    requires
        0 <= k < ls.len() - 1,
    ensures
        heading_at(ls.drop_last(), k) == heading_at(ls, k),
{
    assert(ls.drop_last().take(k) =~= ls.take(k));
}

proof fn lemma_open_among(hs: Seq<HeadingView>, h: HeadingView, n: nat)
    requires
        n <= hs.len(),
    ensures
        open_among(hs.push(h), n) == above(open_among(hs, n), h.0),
        n < hs.len() ==> forall|i: int|
            0 <= i < open_among(hs, n).len() ==> (#[trigger] open_among(hs, n)[i]).0
                < hs[n as int].0,
    decreases n,
{
    let more = hs.push(h);
    if n > 0 {
        let m = (n - 1) as nat;
        lemma_open_among(hs, h, m);
        let x = hs[m as int];
        assert(more[m as int] == x);
        assert(more[hs.len() as int] == h);
        assert(still_open(more, m as int) <==> still_open(hs, m as int) && x.0 < h.0) by {
            if still_open(more, m as int) {
                assert forall|j: int| m < j < hs.len() implies x.0 < (#[trigger] hs[j]).0 by {
                    assert(more[j] == hs[j]);
                }
            }
            if still_open(hs, m as int) && x.0 < h.0 {
                assert forall|j: int| m < j < more.len() implies x.0 < (#[trigger] more[j]).0 by {
                    if j < hs.len() {
                        assert(more[j] == hs[j]);
                    }
                }
            }
        }
        let few = open_among(hs, m);
        if still_open(hs, m as int) {
            let now = few.push(x);
            assert(now.drop_last() =~= few);
            if x.0 < h.0 {
                lemma_above_none(few, h.0);
            }
        }
        if n < hs.len() {
            let now = open_among(hs, n);
            assert forall|i: int| 0 <= i < now.len() implies (#[trigger] now[i]).0
                < hs[n as int].0 by {
                lemma_open_before(hs, n, n as int, i);
            }
        }
    } else {
        assert(open_among(more, n) =~= above(open_among(hs, n), h.0));
    }
}

proof fn lemma_open_before(hs: Seq<HeadingView>, n: nat, at: int, i: int)
    requires
        n <= at < hs.len(),
        0 <= i < open_among(hs, n).len(),
    ensures
        open_among(hs, n)[i].0 < hs[at].0,
    decreases n,
{
    let m = (n - 1) as nat;
    if i < open_among(hs, m).len() {
        lemma_open_before(hs, m, at, i);
    }
}

proof fn lemma_above_none(stack: Seq<HeadingView>, level: nat)
    requires
        forall|i: int| 0 <= i < stack.len() ==> (#[trigger] stack[i]).0 < level,
    ensures
        above(stack, level) == stack,
{
    if stack.len() > 0 {
        assert(stack[stack.len() - 1].0 < level);
    }
}

proof fn lemma_walk_headings(ls: Seq<Seq<char>>)
    ensures
        walk(ls).fenced == fence_open(ls),
        walk(ls).stack == open_among(headings(ls), headings(ls).len()),
        0 <= last_start(ls) <= ls.len(),
        last_start(ls) > 0 ==> heading_at(ls, last_start(ls) - 1),
        forall|k: int| last_start(ls) <= k < ls.len() ==> !#[trigger] heading_at(ls, k),
        walk(ls).body == unlines(ls.subrange(last_start(ls), ls.len() as int)),
        walk(ls).path() == path_behind(ls.take(last_start(ls))),
        forall|i: int| 0 <= i < walk(ls).done.len() ==> ended_in(ls, #[trigger] walk(ls).done[i]),
    decreases ls.len(),
{
    if ls.len() == 0 {
        assert(ls.subrange(0, 0) =~= seq![]);
        assert(ls.take(0) =~= ls);
        assert(walk(ls).stack =~= open_among(headings(ls), 0));
        assert(walk(ls).path() =~= path_behind(ls));
    } else {
        let few = ls.drop_last();
        let line = ls.last();
        let n = few.len() as int;
        lemma_walk_headings(few);
        assert(ls.take(n) =~= few);
        assert(ls[n] == line);
        let before = walk(few);
        let now = walk(ls);
        let hs = headings(few);
        let s = last_start(few);
        assert forall|i: int| 0 <= i < before.done.len() implies ended_in(
            ls,
            #[trigger] before.done[i],
        ) by {
            assert(ended_in(few, before.done[i]));
            let (a, b) = choose|a: int, b: int|
                b < few.len() && #[trigger] is_section(few, before.done[i], a, b);
            lemma_section_stays(ls, before.done[i], a, b);
            assert(is_section(ls, before.done[i], a, b));
        }
        if heading_at(ls, n) {
            let h = heading(line).unwrap();
            assert(headings(ls) == hs.push(h));
            lemma_open_among(hs, h, hs.len());
            assert(still_open(hs.push(h), hs.len() as int));
            assert(hs.push(h)[hs.len() as int] == h);
            assert(now.stack =~= open_among(headings(ls), headings(ls).len()));
            assert(ls.subrange(n + 1, n + 1) =~= seq![]);
            assert(ls.take(n + 1) =~= ls);
            let r = RawView { path: before.path(), body: before.body };
            assert(is_section(ls, r, s, n)) by {
                assert(ls.subrange(s, n) =~= few.subrange(s, n));
                assert(ls.take(s) =~= few.take(s));
                if s > 0 {
                    lemma_same_headings(ls, s - 1);
                }
                assert forall|k: int| s <= k < n implies !#[trigger] heading_at(ls, k) by {
                    lemma_same_headings(ls, k);
                    assert(!heading_at(few, k));
                }
            }
            assert forall|i: int| 0 <= i < now.done.len() implies ended_in(
                ls,
                #[trigger] now.done[i],
            ) by {
                if i < before.done.len() {
                    assert(now.done[i] == before.done[i]);
                } else {
                    assert(now.done[i] == r);
                }
            }
        } else {
            assert(ls.take(s) =~= few.take(s));
            let sub = ls.subrange(s, n + 1);
            assert(sub.drop_last() =~= few.subrange(s, n));
            if s > 0 {
                lemma_same_headings(ls, s - 1);
            }
            assert forall|k: int| s <= k < ls.len() implies !#[trigger] heading_at(ls, k) by {
                if k < n {
                    lemma_same_headings(ls, k);
                    assert(!heading_at(few, k));
                }
            }
            assert(now.stack == before.stack);
            assert(now.done == before.done);
        }
    }
}

proof fn lemma_section_stays(ls: Seq<Seq<char>>, r: RawView, m: int, n: int)
    requires
        ls.len() > 0,
        is_section(ls.drop_last(), r, m, n),
        n < ls.len() - 1,
    ensures
        is_section(ls, r, m, n),
{
    let few = ls.drop_last();
    assert(ls.subrange(m, n) =~= few.subrange(m, n));
    assert(ls.take(m) =~= few.take(m));
    if m > 0 {
        lemma_same_headings(ls, m - 1);
    }
    lemma_same_headings(ls, n);
    assert forall|k: int| m <= k < n implies !#[trigger] heading_at(ls, k) by {
        lemma_same_headings(ls, k);
        assert(!heading_at(few, k));
    }
}

/// What a section is: the lines between two headings, or before the first or
/// behind the last; and its path is just the headings above it that have only
/// deeper headings between.
pub proof fn law_sections_stand_under_their_headings(body: Seq<char>)
    ensures
        forall|i: int|
            0 <= i < sections(body).len() ==> stands_in(lines(body), #[trigger] sections(body)[i]),
{
    let ls = lines(body);
    let w = walk(ls);
    lemma_walk_headings(ls);
    let all = sections(body);
    assert forall|i: int| 0 <= i < all.len() implies stands_in(ls, #[trigger] all[i]) by {
        if i < w.done.len() {
            assert(all[i] == w.done[i]);
            assert(ended_in(ls, w.done[i]));
            let (m, n) = choose|m: int, n: int|
                n < ls.len() && #[trigger] is_section(ls, w.done[i], m, n);
            assert(is_section(ls, all[i], m, n));
        } else {
            assert(is_section(ls, all[i], last_start(ls), ls.len() as int));
        }
    }
}

/// Whether sections stand under at most six headings and are not blank.
spec fn shallow(s: Seq<RawView>) -> bool {
    forall|i: int| 0 <= i < s.len() ==> (#[trigger] s[i]).path.len() <= 6 && !blank(s[i].body)
}

proof fn lemma_shallow(ls: Seq<Seq<char>>)
    ensures
        shallow(walk(ls).done),
        shallow(walk(ls).closed()),
    decreases ls.len(),
{
    if ls.len() > 0 {
        lemma_shallow(ls.drop_last());
    }
    law_headings_deepen(ls);
    let w = walk(ls);
    lemma_depth(w.stack);
    lemma_trim_blank(w.body);
    assert(shallow(w.done));
}

/// A section stands under at most six headings, and it is never blank.
pub proof fn law_sections_are_shallow_and_not_blank(body: Seq<char>)
    ensures
        forall|i: int|
            0 <= i < sections(body).len() ==> (#[trigger] sections(body)[i]).path.len() <= 6
                && !blank(sections(body)[i].body),
{
    lemma_shallow(lines(body));
}

/// The lines that are no headings.
pub open spec fn kept_lines(ls: Seq<Seq<char>>) -> Seq<Seq<char>>
    decreases ls.len(),
{
    if ls.len() == 0 {
        seq![]
    } else if !is_fence(ls.last()) && !walk(ls.drop_last()).fenced && heading(
        ls.last(),
    ) is Some {
        kept_lines(ls.drop_last())
    } else {
        kept_lines(ls.drop_last()).push(ls.last())
    }
}

/// The bodies of some sections.
pub open spec fn bodies(s: Seq<RawView>) -> Seq<Seq<char>> {
    s.map_values(|r: RawView| r.body)
}

proof fn lemma_closed_words(w: Walk)
    ensures
        all_words(bodies(w.closed())) == all_words(bodies(w.done)) + words(w.body),
{
    lemma_trim_blank(w.body);
    if trim(w.body).len() == 0 {
        lemma_blank_words(w.body);
        assert(all_words(bodies(w.done)) + words(w.body) =~= all_words(bodies(w.done)));
    } else {
        let now = bodies(w.closed());
        assert(now =~= bodies(w.done).push(w.body));
        assert(now.drop_last() =~= bodies(w.done));
    }
}

proof fn lemma_walk_words(ls: Seq<Seq<char>>)
    ensures
        all_words(bodies(walk(ls).done)) + words(walk(ls).body) == all_words(kept_lines(ls)),
        walk(ls).body.len() == 0 || walk(ls).body.last() == '\n',
    decreases ls.len(),
{
    let w = walk(ls);
    if ls.len() == 0 {
        assert(bodies(w.done) =~= seq![]);
    } else {
        let before = walk(ls.drop_last());
        let line = ls.last();
        lemma_walk_words(ls.drop_last());
        if !is_fence(line) && !before.fenced && heading(line) is Some {
            lemma_closed_words(before);
            assert(all_words(bodies(w.done)) + words(w.body) =~= all_words(bodies(w.done)));
        } else {
            let kept = kept_lines(ls);
            assert(kept.drop_last() =~= kept_lines(ls.drop_last()));
            lemma_words_concat(before.body, line);
            lemma_words_concat(before.body + line, seq!['\n']);
            lemma_blank_words(seq!['\n']);
            assert(words(w.body) =~= words(before.body) + words(line));
            assert(all_words(bodies(w.done)) + words(w.body) =~= all_words(kept));
        }
    }
}

/// The sections hold every word of the lines that are no headings, in order.
pub proof fn law_sections_keep_words(body: Seq<char>)
    ensures
        all_words(bodies(sections(body))) == all_words(kept_lines(lines(body))),
{
    lemma_walk_words(lines(body));
    lemma_closed_words(walk(lines(body)));
}

proof fn lemma_blank_lines(s: Seq<char>)
    requires
        blank(s),
    ensures
        forall|i: int| 0 <= i < lines(s).len() ==> blank(#[trigger] lines(s)[i]),
    decreases s.len(),
{
    if s.len() > 0 {
        lemma_run(s, Class::Except('\n'));
        let e = run(s, Class::Except('\n'));
        if e < s.len() {
            let first = chop_return(s.take(e as int));
            let rest = s.skip((e + 1) as int);
            assert forall|i: int| 0 <= i < rest.len() implies is_white(#[trigger] rest[i]) by {
                assert(rest[i] == s[i + e + 1]);
            }
            assert forall|i: int| 0 <= i < first.len() implies is_white(#[trigger] first[i]) by {
                assert(first[i] == s[i]);
            }
            lemma_blank_lines(rest);
            assert forall|i: int| 0 <= i < lines(s).len() implies blank(#[trigger] lines(s)[i]) by {
                if i > 0 {
                    assert(lines(s)[i] == lines(rest)[i - 1]);
                }
            }
        }
    }
}

proof fn lemma_blank_walk(ls: Seq<Seq<char>>)
    requires
        forall|i: int| 0 <= i < ls.len() ==> blank(#[trigger] ls[i]),
    ensures
        blank(walk(ls).body),
        walk(ls).done.len() == 0,
        !walk(ls).fenced,
    decreases ls.len(),
{
    if ls.len() > 0 {
        lemma_blank_walk(ls.drop_last());
        let line = ls.last();
        assert(blank(ls[ls.len() - 1]));
        assert forall|i: int| 0 <= i < line.len() implies Class::White.has(#[trigger] line[i]) by {
            assert(is_white(line[i]));
        }
        lemma_run_is(line, Class::White, line.len() as int);
        reveal_strlit("```");
    }
}

/// A body without a word has no sections.
pub proof fn law_blank_body_has_no_sections(body: Seq<char>)
    requires
        blank(body),
    ensures
        sections(body) == Seq::<RawView>::empty(),
{
    lemma_blank_lines(body);
    lemma_blank_walk(lines(body));
    lemma_trim_blank(walk(lines(body)).body);
}

/// Whether a text is so many of one character.
pub open spec fn repeats(s: Seq<char>, c: char) -> bool {
    forall|i: int| 0 <= i < s.len() ==> #[trigger] s[i] == c
}

/// One to six `#` with a space behind them make a heading of that level, whatever
/// white space stands before them; its title is what stands behind, without white
/// space around it and without closing `#`.
pub proof fn law_heading_has_its_level_and_title(
    indent: Seq<char>,
    marks: Seq<char>,
    gap: Seq<char>,
    title: Seq<char>,
    more: Seq<char>,
    closing: Seq<char>,
    end: Seq<char>,
)
    requires
        blank(indent) && blank(gap) && blank(more) && blank(end),
        repeats(marks, '#') && repeats(closing, '#'),
        1 <= marks.len() <= 6,
        title.len() > 0,
        !is_white(title[0]) && !is_white(title.last()) && title.last() != '#',
    ensures
        heading(indent + marks + seq![' '] + gap + title + more + closing + end) == Some(
            (marks.len(), title),
        ),
{
    let line = indent + marks + seq![' '] + gap + title + more + closing + end;
    let w = Class::White;
    let h = Class::Only('#');
    let stripped = marks + seq![' '] + gap + title + more + closing + end;
    assert forall|i: int| 0 <= i < indent.len() implies w.has(#[trigger] line[i]) by {
        assert(is_white(indent[i]));
    }
    assert(line[indent.len() as int] == marks[0]);
    lemma_run_is(line, w, indent.len() as int);
    assert(line.skip(indent.len() as int) =~= stripped);
    let n = marks.len() as int;
    assert forall|i: int| 0 <= i < n implies h.has(#[trigger] stripped[i]) by {
        assert(marks[i] == '#');
    }
    assert(stripped[n] == ' ');
    lemma_run_is(stripped, h, n);
    let after = seq![' '] + gap + title + more + closing + end;
    assert(stripped.skip(n) =~= after);
    let core = title + more + closing;
    let lead = seq![' '] + gap;
    assert(is_white(' '));
    if closing.len() > 0 {
        lemma_trim_is(lead, core, end);
        assert(after =~= lead + core + end);
        lemma_strip_closing(title + more, closing);
        assert(title + more + closing =~= core);
        lemma_trim_is(seq![], title, more);
        assert(seq![] + title + more =~= title + more);
    } else {
        let rest = more + end;
        assert forall|i: int| 0 <= i < rest.len() implies is_white(#[trigger] rest[i]) by {
            if i < more.len() {
                assert(is_white(more[i]));
            } else {
                assert(is_white(end[i - more.len()]));
            }
        }
        lemma_trim_is(lead, title, rest);
        assert(after =~= lead + title + rest);
        lemma_strip_closing(title, seq![]);
        assert(title + Seq::<char>::empty() =~= title);
        lemma_trim_is(seq![], title, seq![]);
        assert(seq![] + title + Seq::<char>::empty() =~= title);
    }
}

proof fn lemma_trim_is(a: Seq<char>, s: Seq<char>, b: Seq<char>)
    requires
        blank(a) && blank(b),
        s.len() > 0,
        !is_white(s[0]) && !is_white(s.last()),
    ensures
        trim(a + s + b) == s,
{
    let w = Class::White;
    let all = a + s + b;
    assert forall|i: int| 0 <= i < a.len() implies w.has(#[trigger] all[i]) by {
        assert(is_white(a[i]));
    }
    assert(all[a.len() as int] == s[0]);
    lemma_run_is(all, w, a.len() as int);
    let t = s + b;
    assert(all.skip(a.len() as int) =~= t);
    let n = b.len() as int;
    assert forall|i: int| t.len() - n <= i < t.len() implies w.has(#[trigger] t[i]) by {
        assert(is_white(b[i - s.len()]));
    }
    assert(t[t.len() - n - 1] == s.last());
    crate::text::lemma_tail_run_is(t, w, n);
    assert(t.take(t.len() - n) =~= s);
}

proof fn lemma_strip_closing(s: Seq<char>, closing: Seq<char>)
    requires
        s.len() > 0 && s.last() != '#',
        repeats(closing, '#'),
    ensures
        strip_end(s + closing, Class::Only('#')) == s,
{
    let h = Class::Only('#');
    let all = s + closing;
    let n = closing.len() as int;
    assert forall|i: int| all.len() - n <= i < all.len() implies h.has(#[trigger] all[i]) by {
        assert(closing[i - s.len()] == '#');
    }
    assert(all[all.len() - n - 1] == s.last());
    crate::text::lemma_tail_run_is(all, h, n);
    assert(all.take(all.len() - n) =~= s);
}

/// A line is no heading if it does not begin with `#`, has more than six of them,
/// or has something else than a space behind them.
pub proof fn law_other_lines_are_no_headings(
    indent: Seq<char>,
    marks: Seq<char>,
    rest: Seq<char>,
)
    requires
        blank(indent),
        repeats(marks, '#'),
        rest.len() > 0 ==> rest[0] != '#',
        marks.len() == 0 ==> rest.len() > 0 ==> !is_white(rest[0]),
        marks.len() == 0 || marks.len() > 6 || (rest.len() > 0 && rest[0] != ' '),
    ensures
        heading(indent + marks + rest) is None,
{
    let line = indent + marks + rest;
    let w = Class::White;
    let h = Class::Only('#');
    assert forall|i: int| 0 <= i < indent.len() implies w.has(#[trigger] line[i]) by {
        assert(is_white(indent[i]));
    }
    let stripped = marks + rest;
    if stripped.len() > 0 {
        if marks.len() > 0 {
            assert(marks[0] == '#');
        }
        assert(line[indent.len() as int] == stripped[0]);
    }
    lemma_run_is(line, w, indent.len() as int);
    assert(line.skip(indent.len() as int) =~= stripped);
    let n = marks.len() as int;
    assert forall|i: int| 0 <= i < n implies h.has(#[trigger] stripped[i]) by {
        assert(marks[i] == '#');
    }
    if rest.len() > 0 {
        assert(stripped[n] == rest[0]);
    }
    lemma_run_is(stripped, h, n);
    assert(stripped.skip(n) =~= rest);
}

/// A code block opens or closes at three backticks that stand first on their line,
/// and at nothing else.
pub proof fn law_fences_are_three_backticks(indent: Seq<char>, rest: Seq<char>)
    requires
        blank(indent),
        rest.len() > 0 ==> !is_white(rest[0]),
    ensures
        is_fence(indent + rest) <==> rest.len() >= 3 && rest[0] == '`' && rest[1] == '`' && rest[2]
            == '`',
{
    reveal_strlit("```");
    let line = indent + rest;
    let w = Class::White;
    assert forall|i: int| 0 <= i < indent.len() implies w.has(#[trigger] line[i]) by {
        assert(is_white(indent[i]));
    }
    if rest.len() > 0 {
        assert(line[indent.len() as int] == rest[0]);
    }
    lemma_run_is(line, w, indent.len() as int);
    assert(line.skip(indent.len() as int) =~= rest);
    if rest.len() >= 3 {
        let three = rest.subrange(0, 3);
        assert(three[0] == rest[0] && three[1] == rest[1] && three[2] == rest[2]);
        if rest[0] == '`' && rest[1] == '`' && rest[2] == '`' {
            assert(three =~= "```"@);
        }
    }
}

/// Each fence opens or closes a block, and no other line does.
pub proof fn law_fences_open_and_close(ls: Seq<Seq<char>>, line: Seq<char>)
    ensures
        !fence_open(seq![]),
        is_fence(line) ==> fence_open(ls.push(line)) == !fence_open(ls),
        !is_fence(line) ==> fence_open(ls.push(line)) == fence_open(ls),
{
    assert(ls.push(line).drop_last() =~= ls);
}

proof fn lemma_walk_plain(ls: Seq<Seq<char>>)
    requires
        forall|k: int| 0 <= k < ls.len() ==> !#[trigger] heading_at(ls, k),
    ensures
        walk(ls).body == unlines(ls),
        walk(ls).done.len() == 0,
        walk(ls).stack.len() == 0,
        walk(ls).fenced == fence_open(ls),
    decreases ls.len(),
{
    if ls.len() > 0 {
        let few = ls.drop_last();
        assert forall|k: int| 0 <= k < few.len() implies !#[trigger] heading_at(few, k) by {
            lemma_same_headings(ls, k);
            assert(!heading_at(ls, k));
        }
        lemma_walk_plain(few);
        assert(!heading_at(ls, ls.len() - 1));
        assert(ls.take(ls.len() - 1) =~= few);
    }
}

/// A body without headings that is not blank is one section under no heading, with
/// all of its lines.
pub proof fn law_body_without_headings_is_one_section(body: Seq<char>)
    requires
        !blank(body),
        forall|k: int| 0 <= k < lines(body).len() ==> !#[trigger] heading_at(lines(body), k),
    ensures
        sections(body) == seq![RawView { path: seq![], body: unlines(lines(body)) }],
{
    let ls = lines(body);
    lemma_walk_plain(ls);
    let w = walk(ls);
    crate::text::lemma_unlines_words(ls);
    crate::text::lemma_lines_words(body);
    lemma_trim_blank(w.body);
    lemma_trim_blank(body);
    crate::text::lemma_words_trim(body);
    crate::text::lemma_trim_ends(body);
    crate::text::lemma_has_word(trim(body));
    if trim(w.body).len() == 0 {
        lemma_blank_words(w.body);
    }
    assert(w.path() =~= seq![]);
    assert(w.done =~= seq![]);
    assert(sections(body) =~= seq![RawView { path: seq![], body: unlines(ls) }]);
}

} // verus!
