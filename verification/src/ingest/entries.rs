//! The entries of a block of YAML, each with its own lines.
//!
//! How YAML is read is left to serde_yaml, which says where an entry ends: a line
//! begins the next one where the lines before it, read on their own, are a
//! mapping with one key.

use vstd::prelude::*;
use vstd::string::StringExecFns;

use crate::text::{
    chars_of, lines, lines_of, run, run_len, same, strip_start, stripped_start, unlines, views,
    Class,
};
use crate::trusted::{list_result_view, yaml_keys, yaml_names};

verus! {

// ---------- the model ----------

/// An entry of a block: its lines, and how far the first of them is indented.
pub struct EntryView {
    pub text: Seq<char>,
    pub indent: nat,
}

/// Whether a text, read on its own, is a mapping with one key.
pub open spec fn one_key(text: Seq<char>) -> bool {
    match yaml_keys(text) {
        Ok(keys) => keys.len() == 1,
        Err(_) => false,
    }
}

/// Whether a text, read on its own, is a mapping with this key and no other.
pub open spec fn has_key(text: Seq<char>, name: Seq<char>) -> bool {
    match yaml_keys(text) {
        Ok(keys) => keys.len() == 1 && keys[0] == name,
        Err(_) => false,
    }
}

/// How far a line is indented.
pub open spec fn indent(line: Seq<char>) -> nat {
    run(line, Class::Only(' '))
}

/// Whether a line is blank or a comment.
pub open spec fn silent(line: Seq<char>) -> bool {
    let ink = strip_start(line, Class::White);
    ink.len() == 0 || ink[0] == '#'
}

/// Whether a line is an item of a list.
pub open spec fn is_item(line: Seq<char>) -> bool {
    let ink = strip_start(line, Class::Only(' '));
    ink.len() > 0 && ink[0] == '-' && (ink.len() == 1 || ink[1] == ' ')
}

/// Whether a line goes on with an entry.
pub open spec fn carries_on(entry: EntryView, line: Seq<char>) -> bool {
    ||| silent(line)
    ||| is_item(line)
    ||| indent(line) > entry.indent
    ||| !one_key(entry.text)
}

/// The entries of a block with these lines.
pub open spec fn entries(ls: Seq<Seq<char>>) -> Seq<EntryView>
    decreases ls.len(),
{
    if ls.len() == 0 {
        seq![]
    } else {
        let es = entries(ls.drop_last());
        let line = ls.last();
        let next = EntryView { text: line.push('\n'), indent: indent(line) };
        if es.len() == 0 {
            if silent(line) {
                es
            } else {
                seq![next]
            }
        } else if carries_on(es.last(), line) {
            es.drop_last().push(EntryView { text: es.last().text + next.text, ..es.last() })
        } else {
            es.push(next)
        }
    }
}

/// Whether a block comes apart into entries with one key each. One in braces
/// does not, nor one whose entries refer to each other.
pub open spec fn comes_apart(es: Seq<EntryView>) -> bool {
    forall|i: int| 0 <= i < es.len() ==> one_key((#[trigger] es[i]).text)
}

/// The texts of the entries with a key.
pub open spec fn texts_of(es: Seq<EntryView>, name: Seq<char>) -> Seq<Seq<char>>
    decreases es.len(),
{
    if es.len() == 0 {
        seq![]
    } else if has_key(es.last().text, name) {
        texts_of(es.drop_last(), name).push(es.last().text)
    } else {
        texts_of(es.drop_last(), name)
    }
}

// ---------- the code ----------

/// An entry of a block: its lines, and how far the first of them is indented.
pub struct Entry {
    pub text: String,
    pub indent: usize,
}

impl View for Entry {
    type V = EntryView;

    open spec fn view(&self) -> EntryView {
        EntryView { text: self.text@, indent: self.indent as nat }
    }
}

/// The entries as values.
pub open spec fn entry_views(v: Seq<Entry>) -> Seq<EntryView> {
    v.map_values(|e: Entry| e@)
}

fn is_single(text: &str) -> (b: bool)
    ensures
        b == one_key(text@),
{
    match yaml_names(text) {
        Ok(keys) => {
            assert(views(keys@).len() == keys@.len());
            keys.len() == 1
        },
        Err(_) => false,
    }
}

fn names(text: &str, name: &str) -> (b: bool)
    ensures
        b == has_key(text@, name@),
{
    match yaml_names(text) {
        Ok(keys) => {
            assert(views(keys@).len() == keys@.len());
            keys.len() == 1 && same(keys[0].as_str(), name)
        },
        Err(_) => false,
    }
}

fn says_nothing(line: &[char]) -> (b: bool)
    ensures
        b == silent(line@),
{
    let ink = stripped_start(line, Class::White);
    ink.len() == 0 || ink[0] == '#'
}

fn begins_item(line: &[char]) -> (b: bool)
    ensures
        b == is_item(line@),
{
    let ink = stripped_start(line, Class::Only(' '));
    ink.len() > 0 && ink[0] == '-' && (ink.len() == 1 || ink[1] == ' ')
}

/// The entries of a block.
pub fn entries_of(block: &str) -> (out: Vec<Entry>)
    ensures
        entry_views(out@) == entries(lines(block@)),
{
    let all = lines_of(block);
    let out = entries_from(&all, 0);
    assert(views(all@).skip(0) =~= views(all@));
    out
}

/// The entries of a block with the lines from one on.
pub fn entries_from(all: &Vec<String>, start: usize) -> (out: Vec<Entry>)
    requires
        start <= all@.len(),
    ensures
        entry_views(out@) == entries(views(all@).skip(start as int)),
{
    let ghost ls = views(all@).skip(start as int);
    let n = all.len();
    let mut out: Vec<Entry> = Vec::new();
    assert(entry_views(out@) =~= entries(ls.take(0)));
    for i in start..n
        invariant
            start <= n == all@.len(),
            ls == views(all@).skip(start as int),
            entry_views(out@) == entries(ls.take(i - start)),
    {
        assert(ls.take(i - start + 1).drop_last() =~= ls.take(i - start));
        assert(ls.take(i - start + 1).last() == all@[i as int]@);
        let ghost before = out@;
        assert(entry_views(before).len() == before.len());
        let line = chars_of(all[i].as_str());
        let quiet = says_nothing(&line);
        let depth = run_len(&line, Class::Only(' '));
        let mut text = all[i].clone();
        text.push('\n');
        match out.pop() {
            Some(mut last) => {
                assert(entry_views(before).last() == last@);
                assert(entry_views(out@) =~= entry_views(before).drop_last());
                if quiet || begins_item(&line) || depth > last.indent || !is_single(
                    last.text.as_str(),
                ) {
                    last.text.append(text.as_str());
                    out.push(last);
                    assert(entry_views(out@) =~= entry_views(before).drop_last().push(last@));
                } else {
                    let next = Entry { text, indent: depth };
                    out.push(last);
                    out.push(next);
                    assert(entry_views(out@) =~= entry_views(before).push(next@));
                }
            },
            None => {
                if !quiet {
                    let next = Entry { text, indent: depth };
                    out.push(next);
                    assert(entry_views(out@) =~= seq![next@]);
                }
            },
        }
    }
    assert(ls.take(n - start) =~= ls);
    out
}

/// Whether a block comes apart into entries with one key each.
pub fn all_single(es: &Vec<Entry>) -> (b: bool)
    ensures
        b == comes_apart(entry_views(es@)),
{
    let n = es.len();
    assert(entry_views(es@).len() == n);
    for i in 0..n
        invariant
            n == es@.len(),
            forall|j: int| 0 <= j < i ==> one_key((#[trigger] entry_views(es@)[j]).text),
    {
        if !is_single(es[i].text.as_str()) {
            assert(!one_key(entry_views(es@)[i as int].text));
            return false;
        }
    }
    true
}

/// The texts of the entries with a key.
pub fn texts_named(es: &Vec<Entry>, name: &str) -> (out: Vec<String>)
    ensures
        views(out@) == texts_of(entry_views(es@), name@),
{
    let ghost all = entry_views(es@);
    let n = es.len();
    let mut out: Vec<String> = Vec::new();
    assert(views(out@) =~= texts_of(all.take(0), name@));
    for i in 0..n
        invariant
            n == es@.len(),
            all == entry_views(es@),
            views(out@) == texts_of(all.take(i as int), name@),
    {
        assert(all.take(i + 1).drop_last() =~= all.take(i as int));
        assert(all.take(i + 1).last() == es@[i as int]@);
        let ghost before = out@;
        if names(es[i].text.as_str(), name) {
            out.push(es[i].text.clone());
            assert(views(out@) =~= views(before).push(es@[i as int].text@));
        }
    }
    assert(all.take(n as int) =~= all);
    out
}

// ---------- what holds of it ----------

/// An entry with a key is found.
pub proof fn lemma_texts(es: Seq<EntryView>, name: Seq<char>, i: int)
    requires
        0 <= i < es.len(),
        has_key(es[i].text, name),
    ensures
        texts_of(es, name).len() > 0,
    decreases es.len(),
{
    if i < es.len() - 1 {
        assert(es.drop_last()[i] == es[i]);
        lemma_texts(es.drop_last(), name, i);
    }
}

/// Two entries with the same key are both found.
pub proof fn lemma_two_texts(es: Seq<EntryView>, name: Seq<char>, i: int, j: int)
    requires
        0 <= i < j < es.len(),
        has_key(es[i].text, name),
        has_key(es[j].text, name),
    ensures
        texts_of(es, name).len() > 1,
    decreases es.len(),
{
    let few = es.drop_last();
    assert(few[i] == es[i]);
    if j < few.len() {
        assert(few[j] == es[j]);
        lemma_two_texts(few, name, i, j);
    } else {
        lemma_texts(few, name, i);
    }
}

/// Whether lines are the texts of some entries, behind lines that say nothing.
pub open spec fn made_of(ls: Seq<Seq<char>>, es: Seq<EntryView>, n: int) -> bool {
    &&& 0 <= n <= ls.len()
    &&& forall|i: int| 0 <= i < n ==> silent(#[trigger] ls[i])
    &&& unlines(ls.skip(n)) == concat(es)
}

/// The texts of some entries, one after another.
pub open spec fn concat(es: Seq<EntryView>) -> Seq<char>
    decreases es.len(),
{
    if es.len() == 0 {
        seq![]
    } else {
        concat(es.drop_last()) + es.last().text
    }
}

/// The entries of a block hold all of its lines, in order, but for those at the
/// start that say nothing.
pub proof fn law_entries_hold_every_line(ls: Seq<Seq<char>>)
    ensures
        exists|n: int| made_of(ls, entries(ls), n) && (entries(ls).len() == 0 ==> n == ls.len()),
    decreases ls.len(),
{
    if ls.len() == 0 {
        assert(ls.skip(0) =~= ls);
        assert(made_of(ls, entries(ls), 0));
    } else {
        let few = ls.drop_last();
        let line = ls.last();
        law_entries_hold_every_line(few);
        let es = entries(few);
        let n = choose|n: int| made_of(few, es, n) && (es.len() == 0 ==> n == few.len());
        let now = entries(ls);
        assert forall|i: int| 0 <= i < n implies silent(#[trigger] ls[i]) by {
            assert(few[i] == ls[i]);
        }
        if es.len() == 0 {
            if silent(line) {
                assert(ls.skip(ls.len() as int) =~= seq![]);
                assert(unlines(ls.skip(ls.len() as int)) =~= concat(now));
                assert(made_of(ls, now, ls.len() as int));
            } else {
                reveal_with_fuel(unlines, 2);
                reveal_with_fuel(concat, 2);
                assert(now.drop_last() =~= seq![]);
                assert(ls.skip(n) =~= seq![line]);
                assert(seq![line].drop_last() =~= seq![]);
                assert(unlines(seq![line]) =~= concat(now));
                assert(made_of(ls, now, n));
            }
        } else {
            assert(ls.skip(n).drop_last() =~= few.skip(n));
            assert(ls.skip(n).last() == line);
            if carries_on(es.last(), line) {
                assert(now.drop_last() =~= es.drop_last());
            } else {
                assert(now.drop_last() =~= es);
            }
            assert(unlines(ls.skip(n)) =~= concat(now));
            assert(made_of(ls, now, n));
        }
    }
}

/// A line begins an entry if the entry before it is whole, a mapping with one key,
/// and the line stands no deeper, is no item of a list, and says something;
/// otherwise it goes to the entry before it.
pub proof fn law_entries_end_where_they_are_whole(ls: Seq<Seq<char>>, line: Seq<char>)
    requires
        entries(ls).len() > 0,
    ensures
        ({
            let es = entries(ls);
            let now = entries(ls.push(line));
            let ends = one_key(es.last().text) && !silent(line) && !is_item(line) && indent(line)
                <= es.last().indent;
            &&& ends ==> now.drop_last() == es && now.last().text == line.push('\n')
            &&& !ends ==> now.len() == es.len() && now.drop_last() == es.drop_last()
                && now.last().text == es.last().text + line.push('\n')
        }),
{
    let es = entries(ls);
    let now = entries(ls.push(line));
    assert(ls.push(line).drop_last() =~= ls);
    if carries_on(es.last(), line) {
        assert(now.drop_last() =~= es.drop_last());
    } else {
        assert(now.drop_last() =~= es);
    }
}

/// A line says nothing if it is blank or its first mark is a `#`; it is an item if
/// a hyphen comes first and a space or nothing follows; and it is indented by the
/// spaces before its first other character.
pub proof fn law_lines_of_a_block(spaces: Seq<char>, ink: Seq<char>)
    requires
        forall|i: int| 0 <= i < spaces.len() ==> #[trigger] spaces[i] == ' ',
        ink.len() > 0 ==> !crate::text::is_white(ink[0]),
    ensures
        indent(spaces + ink) == spaces.len(),
        silent(spaces + ink) <==> ink.len() == 0 || ink[0] == '#',
        is_item(spaces + ink) <==> ink.len() > 0 && ink[0] == '-' && (ink.len() == 1 || ink[1]
            == ' '),
{
    let line = spaces + ink;
    let n = spaces.len() as int;
    let one = Class::Only(' ');
    assert forall|i: int| 0 <= i < n implies one.has(#[trigger] line[i]) by {
        assert(spaces[i] == ' ');
    }
    assert forall|i: int| 0 <= i < n implies Class::White.has(#[trigger] line[i]) by {
        assert(spaces[i] == ' ');
    }
    if ink.len() > 0 {
        assert(line[n] == ink[0]);
    }
    crate::text::lemma_run_is(line, one, n);
    crate::text::lemma_run_is(line, Class::White, n);
    assert(line.skip(n) =~= ink);
}

/// The first line that says something begins the first entry.
pub proof fn law_first_entry_begins_with_its_line(ls: Seq<Seq<char>>, line: Seq<char>)
    requires
        entries(ls).len() == 0,
    ensures
        silent(line) ==> entries(ls.push(line)).len() == 0,
        !silent(line) ==> entries(ls.push(line)) == seq![
            EntryView { text: line.push('\n'), indent: indent(line) },
        ],
{
    assert(ls.push(line).drop_last() =~= ls);
}

/// The texts of a key are those of its entries, in order.
pub proof fn law_texts_are_those_of_the_key(es: Seq<EntryView>, e: EntryView, name: Seq<char>)
    ensures
        yaml_keys(e.text) == Ok::<Seq<Seq<char>>, Seq<char>>(seq![name]) ==> texts_of(
            es.push(e),
            name,
        ) == texts_of(es, name).push(e.text),
        yaml_keys(e.text) != Ok::<Seq<Seq<char>>, Seq<char>>(seq![name]) ==> texts_of(
            es.push(e),
            name,
        ) == texts_of(es, name),
{
    assert(es.push(e).drop_last() =~= es);
    if let Ok(keys) = yaml_keys(e.text) {
        if keys.len() == 1 && keys[0] == name {
            assert(keys =~= seq![name]);
        }
    }
}

} // verus!
