//! Plain text, as sequences of characters: searching, trimming, and splitting
//! into lines, words and pieces.

use vstd::prelude::*;
use vstd::slice::slice_subrange;
use vstd::string::StringExecFns;

use crate::trusted::is_alphanumeric;

verus! {

/// The characters with the Unicode property White_Space.
pub open spec fn is_white(c: char) -> bool {
    let u = c as u32;
    ||| 0x9 <= u <= 0xd
    ||| u == 0x20
    ||| u == 0x85
    ||| u == 0xa0
    ||| u == 0x1680
    ||| 0x2000 <= u <= 0x200a
    ||| u == 0x2028
    ||| u == 0x2029
    ||| u == 0x202f
    ||| u == 0x205f
    ||| u == 0x3000
}

/// Letters and numbers: spelled out for ASCII, left to the Unicode tables
/// beyond it.
pub open spec fn is_letter_or_number(c: char) -> bool {
    let u = c as u32;
    if u < 0x80 {
        0x30 <= u <= 0x39 || 0x41 <= u <= 0x5a || 0x61 <= u <= 0x7a
    } else {
        crate::trusted::unicode_alphanumeric(c)
    }
}

/// Whether a character is white space.
pub fn white(c: char) -> (b: bool)
    ensures
        b == is_white(c),
{
    let u: u32 = c as u32;
    (0x9 <= u && u <= 0xd) || u == 0x20 || u == 0x85 || u == 0xa0 || u == 0x1680 || (0x2000 <= u
        && u <= 0x200a) || u == 0x2028 || u == 0x2029 || u == 0x202f || u == 0x205f || u == 0x3000
}

/// Whether a character is a letter or a number.
pub fn letter_or_number(c: char) -> (b: bool)
    ensures
        b == is_letter_or_number(c),
{
    let u: u32 = c as u32;
    if u < 0x80 {
        (0x30 <= u && u <= 0x39) || (0x41 <= u && u <= 0x5a) || (0x61 <= u && u <= 0x7a)
    } else {
        is_alphanumeric(c)
    }
}

/// A class of characters, by which runs of text are measured.
#[derive(Clone, Copy)]
pub enum Class {
    /// White space.
    White,
    /// Anything but white space.
    Ink,
    /// One character and no other.
    Only(char),
    /// Any character but one.
    Except(char),
    /// Line feed or carriage return.
    LineBreak,
    /// What JSON takes for white space.
    JsonSpace,
    /// What an inline tag may start with.
    TagHead,
    /// What an inline tag may go on with.
    TagBody,
}

impl Class {
    /// Whether the class has a character.
    pub open spec fn has(self, c: char) -> bool {
        match self {
            Class::White => is_white(c),
            Class::Ink => !is_white(c),
            Class::Only(x) => c == x,
            Class::Except(x) => c != x,
            Class::LineBreak => c == '\n' || c == '\r',
            Class::JsonSpace => c == ' ' || c == '\t' || c == '\n' || c == '\r',
            Class::TagHead => is_letter_or_number(c) || c == '_',
            Class::TagBody => is_letter_or_number(c) || c == '_' || c == '-' || c == '/',
        }
    }

    /// Whether the class has a character.
    pub fn test(self, c: char) -> (b: bool)
        ensures
            b == self.has(c),
    {
        match self {
            Class::White => white(c),
            Class::Ink => !white(c),
            Class::Only(x) => c == x,
            Class::Except(x) => c != x,
            Class::LineBreak => c == '\n' || c == '\r',
            Class::JsonSpace => c == ' ' || c == '\t' || c == '\n' || c == '\r',
            Class::TagHead => letter_or_number(c) || c == '_',
            Class::TagBody => letter_or_number(c) || c == '_' || c == '-' || c == '/',
        }
    }
}

// ---------- the model ----------

/// The length of the longest prefix of `s` whose characters are all in `k`.
pub open spec fn run(s: Seq<char>, k: Class) -> nat
    decreases s.len(),
{
    if s.len() == 0 || !k.has(s[0]) {
        0
    } else {
        1 + run(s.drop_first(), k)
    }
}

/// The length of the longest suffix of `s` whose characters are all in `k`.
pub open spec fn tail_run(s: Seq<char>, k: Class) -> nat
    decreases s.len(),
{
    if s.len() == 0 || !k.has(s.last()) {
        0
    } else {
        1 + tail_run(s.drop_last(), k)
    }
}

/// `s` without its leading characters of class `k`.
pub open spec fn strip_start(s: Seq<char>, k: Class) -> Seq<char> {
    s.skip(run(s, k) as int)
}

/// `s` without its trailing characters of class `k`.
pub open spec fn strip_end(s: Seq<char>, k: Class) -> Seq<char> {
    s.take(s.len() - tail_run(s, k))
}

/// `s` without the white space around it.
pub open spec fn trim(s: Seq<char>) -> Seq<char> {
    strip_end(strip_start(s, Class::White), Class::White)
}

/// Whether `s` holds nothing but white space.
pub open spec fn blank(s: Seq<char>) -> bool {
    forall|i: int| 0 <= i < s.len() ==> is_white(#[trigger] s[i])
}

/// Whether `p` stands in `s` at position `i`.
pub open spec fn occurs_at(s: Seq<char>, p: Seq<char>, i: int) -> bool {
    0 <= i && i + p.len() <= s.len() && s.subrange(i, i + p.len()) == p
}

/// The first position at which `p` stands in `s`.
pub open spec fn find(s: Seq<char>, p: Seq<char>) -> Option<nat>
    decreases s.len(),
{
    if occurs_at(s, p, 0) {
        Some(0)
    } else if s.len() == 0 {
        None
    } else {
        match find(s.drop_first(), p) {
            Some(i) => Some(i + 1),
            None => None,
        }
    }
}

/// A line without the carriage return that ends it.
pub open spec fn chop_return(s: Seq<char>) -> Seq<char> {
    if s.len() > 0 && s.last() == '\r' {
        s.drop_last()
    } else {
        s
    }
}

/// The lines of `s`. A line ends in a line feed, with or without a carriage
/// return before it, neither of which belongs to the line; the last line may
/// lack the line feed.
pub open spec fn lines(s: Seq<char>) -> Seq<Seq<char>>
    decreases s.len(),
{
    if s.len() == 0 {
        seq![]
    } else {
        let e = run(s, Class::Except('\n'));
        if e >= s.len() {
            seq![s]
        } else {
            seq![chop_return(s.take(e as int))] + lines(s.skip((e + 1) as int))
        }
    }
}

/// Some lines as a text, each ended by a line feed.
pub open spec fn unlines(ls: Seq<Seq<char>>) -> Seq<char>
    decreases ls.len(),
{
    if ls.len() == 0 {
        seq![]
    } else {
        unlines(ls.drop_last()) + ls.last() + seq!['\n']
    }
}

/// The words of `s`: its longest runs without white space.
pub open spec fn words(s: Seq<char>) -> Seq<Seq<char>>
    decreases s.len(),
{
    if s.len() == 0 {
        seq![]
    } else if is_white(s[0]) {
        words(s.drop_first())
    } else {
        let e = run(s, Class::Ink);
        proof {
            lemma_run(s, Class::Ink);
        }
        seq![s.take(e as int)] + words(s.skip(e as int))
    }
}

/// The words of some texts, one text after another.
pub open spec fn all_words(ts: Seq<Seq<char>>) -> Seq<Seq<char>>
    decreases ts.len(),
{
    if ts.len() == 0 {
        seq![]
    } else {
        all_words(ts.drop_last()) + words(ts.last())
    }
}

/// The pieces of `s` between occurrences of `p`, taken from the left.
pub open spec fn pieces(s: Seq<char>, p: Seq<char>) -> Seq<Seq<char>>
    decreases s.len(),
{
    match find(s, p) {
        Some(i) => if p.len() > 0 && i + p.len() <= s.len() {
            seq![s.take(i as int)] + pieces(s.skip((i + p.len()) as int), p)
        } else {
            seq![s]
        },
        None => seq![s],
    }
}

/// The parts one after another with `sep` between them.
pub open spec fn join(parts: Seq<Seq<char>>, sep: Seq<char>) -> Seq<char>
    decreases parts.len(),
{
    if parts.len() == 0 {
        seq![]
    } else if parts.len() == 1 {
        parts[0]
    } else {
        join(parts.drop_last(), sep) + sep + parts.last()
    }
}

/// A number in decimal digits.
pub open spec fn decimal(n: nat) -> Seq<char>
    decreases n,
{
    if n < 10 {
        seq![('0' as int + n) as char]
    } else {
        decimal(n / 10).push(('0' as int + n % 10) as char)
    }
}

/// The texts of a sequence of strings.
pub open spec fn views(v: Seq<String>) -> Seq<Seq<char>> {
    v.map_values(|s: String| s@)
}

// ---------- facts about the model ----------

/// A run never goes past the end, holds only its class, and stops at the first
/// character outside it.
pub proof fn lemma_run(s: Seq<char>, k: Class)
    ensures
        run(s, k) <= s.len(),
        forall|i: int| 0 <= i < run(s, k) ==> k.has(#[trigger] s[i]),
        run(s, k) < s.len() ==> !k.has(s[run(s, k) as int]),
    decreases s.len(),
{
    if s.len() > 0 && k.has(s[0]) {
        let t = s.drop_first();
        lemma_run(t, k);
        assert forall|i: int| 0 <= i < run(s, k) implies k.has(#[trigger] s[i]) by {
            if i > 0 {
                assert(s[i] == t[i - 1]);
            }
        }
        if run(s, k) < s.len() {
            assert(s[run(s, k) as int] == t[run(t, k) as int]);
        }
    }
}

/// A prefix of one class with a stop behind it is the run.
pub proof fn lemma_run_is(s: Seq<char>, k: Class, n: int)
    requires
        0 <= n <= s.len(),
        forall|i: int| 0 <= i < n ==> k.has(#[trigger] s[i]),
        n < s.len() ==> !k.has(s[n]),
    ensures
        run(s, k) == n,
{
    lemma_run(s, k);
    let r = run(s, k) as int;
    if r < n {
        assert(k.has(s[r]));
    }
    if n < r {
        assert(k.has(s[n]));
    }
}

/// The same for the run at the end.
pub proof fn lemma_tail_run(s: Seq<char>, k: Class)
    ensures
        tail_run(s, k) <= s.len(),
        forall|i: int| s.len() - tail_run(s, k) <= i < s.len() ==> k.has(#[trigger] s[i]),
        tail_run(s, k) < s.len() ==> !k.has(s[s.len() - tail_run(s, k) - 1]),
    decreases s.len(),
{
    if s.len() > 0 && k.has(s.last()) {
        let t = s.drop_last();
        lemma_tail_run(t, k);
        assert forall|i: int| s.len() - tail_run(s, k) <= i < s.len() implies k.has(
            #[trigger] s[i],
        ) by {
            if i < s.len() - 1 {
                assert(s[i] == t[i]);
            }
        }
        if tail_run(s, k) < s.len() {
            assert(s[s.len() - tail_run(s, k) - 1] == t[t.len() - tail_run(t, k) - 1]);
        }
    }
}

/// A suffix of one class with a stop before it is the run at the end.
pub proof fn lemma_tail_run_is(s: Seq<char>, k: Class, n: int)
    requires
        0 <= n <= s.len(),
        forall|i: int| s.len() - n <= i < s.len() ==> k.has(#[trigger] s[i]),
        n < s.len() ==> !k.has(s[s.len() - n - 1]),
    ensures
        tail_run(s, k) == n,
{
    lemma_tail_run(s, k);
    let r = tail_run(s, k) as int;
    if r < n {
        assert(k.has(s[s.len() - r - 1]));
    }
    if n < r {
        assert(k.has(s[s.len() - n - 1]));
    }
}

/// `find` gives the least position, and nothing only where there is none.
pub proof fn lemma_find(s: Seq<char>, p: Seq<char>)
    ensures
        match find(s, p) {
            Some(i) => occurs_at(s, p, i as int) && forall|j: int|
                0 <= j < i ==> !#[trigger] occurs_at(s, p, j),
            None => forall|j: int| !#[trigger] occurs_at(s, p, j),
        },
    decreases s.len(),
{
    if occurs_at(s, p, 0) {
    } else if s.len() == 0 {
        assert forall|j: int| !#[trigger] occurs_at(s, p, j) by {
            if occurs_at(s, p, j) {
                assert(j == 0);
            }
        }
    } else {
        let t = s.drop_first();
        lemma_find(t, p);
        assert forall|j: int| j > 0 implies #[trigger] occurs_at(s, p, j) == occurs_at(
            t,
            p,
            j - 1,
        ) by {
            if j + p.len() <= s.len() {
                assert(s.subrange(j, j + p.len()) =~= t.subrange(j - 1, j - 1 + p.len()));
            }
        }
        match find(t, p) {
            Some(i) => {
                assert(occurs_at(s, p, (i + 1) as int));
            },
            None => {},
        }
    }
}

/// The least position is what `find` gives.
pub proof fn lemma_find_is(s: Seq<char>, p: Seq<char>, i: int)
    requires
        occurs_at(s, p, i),
        forall|j: int| 0 <= j < i ==> !#[trigger] occurs_at(s, p, j),
    ensures
        find(s, p) == Some(i as nat),
{
    lemma_find(s, p);
}

/// Where `p` stands nowhere, `find` gives nothing.
pub proof fn lemma_find_none(s: Seq<char>, p: Seq<char>)
    requires
        forall|j: int| 0 <= j <= s.len() ==> !#[trigger] occurs_at(s, p, j),
    ensures
        find(s, p) is None,
{
    lemma_find(s, p);
}

/// A blank text has no words.
pub proof fn lemma_blank_words(s: Seq<char>)
    requires
        blank(s),
    ensures
        words(s) == Seq::<Seq<char>>::empty(),
    decreases s.len(),
{
    if s.len() > 0 {
        assert(is_white(s[0]));
        assert forall|i: int| 0 <= i < s.drop_first().len() implies is_white(
            #[trigger] s.drop_first()[i],
        ) by {
            assert(is_white(s[i + 1]));
        }
        lemma_blank_words(s.drop_first());
    }
}

/// Where white space stands at the seam, the words of two texts are those of
/// the first and then those of the second.
pub proof fn lemma_words_concat(a: Seq<char>, b: Seq<char>)
    requires
        a.len() == 0 || b.len() == 0 || is_white(a.last()) || is_white(b[0]),
    ensures
        words(a + b) == words(a) + words(b),
    decreases a.len(),
{
    if a.len() == 0 {
        assert(a + b =~= b);
        assert(words(a) + words(b) =~= words(b));
    } else if is_white(a[0]) {
        assert((a + b).drop_first() =~= a.drop_first() + b);
        lemma_words_concat(a.drop_first(), b);
    } else {
        let e = run(a, Class::Ink) as int;
        lemma_run(a, Class::Ink);
        assert forall|i: int| 0 <= i < e implies Class::Ink.has(#[trigger] (a + b)[i]) by {
            assert(Class::Ink.has(a[i]));
        }
        if e < a.len() {
            assert((a + b)[e] == a[e]);
            lemma_run_is(a + b, Class::Ink, e);
            assert((a + b).take(e) =~= a.take(e));
            assert((a + b).skip(e) =~= a.skip(e) + b);
            lemma_words_concat(a.skip(e), b);
            assert(words(a + b) =~= words(a) + words(b));
        } else {
            assert(Class::Ink.has(a[e - 1]));
            if b.len() > 0 {
                assert((a + b)[e] == b[0]);
            }
            lemma_run_is(a + b, Class::Ink, e);
            assert((a + b).take(e) =~= a);
            assert((a + b).skip(e) =~= b);
            assert(a.take(e) =~= a);
            assert(words(a.skip(e)) =~= seq![]);
            assert(words(a + b) =~= words(a) + words(b));
        }
    }
}

/// Trimming keeps the words.
pub proof fn lemma_words_trim(s: Seq<char>)
    ensures
        words(trim(s)) == words(s),
{
    lemma_run(s, Class::White);
    let r = run(s, Class::White) as int;
    let t = s.skip(r);
    assert(s =~= s.take(r) + t);
    assert forall|i: int| 0 <= i < s.take(r).len() implies is_white(#[trigger] s.take(r)[i]) by {
        assert(Class::White.has(s[i]));
    }
    lemma_words_concat(s.take(r), t);
    lemma_blank_words(s.take(r));
    lemma_tail_run(t, Class::White);
    let n = t.len() - tail_run(t, Class::White);
    assert(t =~= t.take(n) + t.skip(n));
    assert forall|i: int| 0 <= i < t.skip(n).len() implies is_white(#[trigger] t.skip(n)[i]) by {
        assert(Class::White.has(t[n + i]));
    }
    lemma_words_concat(t.take(n), t.skip(n));
    lemma_blank_words(t.skip(n));
    assert(words(s) =~= words(trim(s)));
}

/// Trimming leaves nothing of a blank text, and only of a blank text.
pub proof fn lemma_trim_blank(s: Seq<char>)
    ensures
        trim(s).len() == 0 <==> blank(s),
{
    lemma_run(s, Class::White);
    let r = run(s, Class::White) as int;
    let t = s.skip(r);
    lemma_tail_run(t, Class::White);
    if trim(s).len() == 0 {
        assert forall|i: int| 0 <= i < s.len() implies is_white(#[trigger] s[i]) by {
            if i < r {
                assert(Class::White.has(s[i]));
            } else {
                assert(Class::White.has(t[i - r]));
            }
        }
    } else {
        assert(!Class::White.has(s[r]));
        assert(!is_white(s[r]));
    }
}

/// A trimmed text begins and ends in something else than white space.
pub proof fn lemma_trim_ends(s: Seq<char>)
    ensures
        trim(s).len() > 0 ==> !is_white(trim(s)[0]) && !is_white(trim(s).last()),
        trim(trim(s)) == trim(s),
{
    lemma_run(s, Class::White);
    let r = run(s, Class::White) as int;
    let t = s.skip(r);
    lemma_tail_run(t, Class::White);
    let u = trim(s);
    if u.len() > 0 {
        assert(u[0] == s[r]);
        assert(u.last() == t[u.len() - 1]);
    }
    lemma_run_is(u, Class::White, 0);
    assert(u.skip(0) =~= u);
    lemma_tail_run_is(u, Class::White, 0);
    assert(u.take(u.len() as int) =~= u);
}

/// A text that begins in something else than white space has a word.
pub proof fn lemma_has_word(s: Seq<char>)
    requires
        s.len() > 0,
        !is_white(s[0]),
    ensures
        words(s).len() > 0,
{
}

/// The words of two lists of texts are those of the first and then the second.
pub proof fn lemma_all_words_concat(a: Seq<Seq<char>>, b: Seq<Seq<char>>)
    ensures
        all_words(a + b) == all_words(a) + all_words(b),
    decreases b.len(),
{
    if b.len() == 0 {
        assert(a + b =~= a);
        assert(all_words(a) + all_words(b) =~= all_words(a));
    } else {
        assert((a + b).drop_last() =~= a + b.drop_last());
        lemma_all_words_concat(a, b.drop_last());
        assert(all_words(a + b) =~= all_words(a) + all_words(b));
    }
}

/// The words of one text.
pub proof fn lemma_all_words_one(t: Seq<char>)
    ensures
        all_words(seq![t]) == words(t),
{
    reveal_with_fuel(all_words, 2);
    assert(seq![t].drop_last() =~= seq![]);
    assert(all_words(seq![t]) =~= words(t));
}

/// A line behind whole lines is the last of the lines.
pub proof fn lemma_lines_append(s: Seq<char>, line: Seq<char>)
    requires
        s.len() == 0 || s.last() == '\n',
        !line.contains('\n'),
    ensures
        lines(s + line + seq!['\n']) == lines(s).push(chop_return(line)),
    decreases s.len(),
{
    let k = Class::Except('\n');
    let t = s + line + seq!['\n'];
    if s.len() == 0 {
        assert forall|i: int| 0 <= i < line.len() implies k.has(#[trigger] t[i]) by {
            assert(line.contains(line[i]));
        }
        lemma_run_is(t, k, line.len() as int);
        assert(t.take(line.len() as int) =~= line);
        assert(t.skip(line.len() as int + 1) =~= seq![]);
        assert(lines(seq![]) =~= seq![]);
        assert(lines(t) =~= seq![chop_return(line)]);
    } else {
        lemma_run(s, k);
        let e = run(s, k) as int;
        if e >= s.len() {
            assert(k.has(s[s.len() - 1]));
        }
        assert forall|i: int| 0 <= i < e implies k.has(#[trigger] t[i]) by {
            assert(k.has(s[i]));
        }
        assert(t[e] == s[e]);
        lemma_run_is(t, k, e);
        let rest = s.skip(e + 1);
        assert(t.take(e) =~= s.take(e));
        assert(t.skip(e + 1) =~= rest + line + seq!['\n']);
        if rest.len() > 0 {
            assert(rest.last() == s.last());
        }
        lemma_lines_append(rest, line);
        assert(lines(t) =~= lines(s).push(chop_return(line)));
    }
}

/// The lines of lines are those lines, but for a carriage return at their ends.
pub proof fn lemma_lines_of_unlines(ls: Seq<Seq<char>>)
    requires
        forall|i: int| 0 <= i < ls.len() ==> !(#[trigger] ls[i]).contains('\n'),
    ensures
        lines(unlines(ls)) == ls.map_values(|l: Seq<char>| chop_return(l)),
        unlines(ls).len() == 0 || unlines(ls).last() == '\n',
    decreases ls.len(),
{
    if ls.len() > 0 {
        let few = ls.drop_last();
        assert forall|i: int| 0 <= i < few.len() implies !(#[trigger] few[i]).contains('\n') by {
            assert(!ls[i].contains('\n'));
        }
        lemma_lines_of_unlines(few);
        assert(!ls[ls.len() - 1].contains('\n'));
        lemma_lines_append(unlines(few), ls.last());
        assert(lines(unlines(ls)) =~= ls.map_values(|l: Seq<char>| chop_return(l)));
    } else {
        assert(lines(unlines(ls)) =~= ls.map_values(|l: Seq<char>| chop_return(l)));
    }
}

/// Every character of a line stands in the text, and no line holds a line feed.
pub proof fn lemma_lines_hold(s: Seq<char>)
    ensures
        forall|i: int| 0 <= i < lines(s).len() ==> !(#[trigger] lines(s)[i]).contains('\n'),
        forall|i: int, c: char|
            0 <= i < lines(s).len() && #[trigger] lines(s)[i].contains(c) ==> s.contains(c),
    decreases s.len(),
{
    if s.len() > 0 {
        let k = Class::Except('\n');
        lemma_run(s, k);
        let e = run(s, k) as int;
        let ls = lines(s);
        let head = if e >= s.len() {
            s
        } else {
            chop_return(s.take(e))
        };
        assert forall|c: char| head.contains(c) implies c != '\n' && s.contains(c) by {
            let j = choose|j: int| 0 <= j < head.len() && head[j] == c;
            assert(s[j] == c);
            assert(k.has(s[j]));
        }
        if e < s.len() {
            let rest = s.skip(e + 1);
            lemma_lines_hold(rest);
            assert forall|i: int| 0 <= i < ls.len() implies !(#[trigger] ls[i]).contains('\n') by {
                if i > 0 {
                    assert(ls[i] == lines(rest)[i - 1]);
                }
            }
            assert forall|i: int, c: char|
                0 <= i < ls.len() && #[trigger] ls[i].contains(c) implies s.contains(c) by {
                if i > 0 {
                    assert(ls[i] == lines(rest)[i - 1]);
                    assert(rest.contains(c));
                    let j = choose|j: int| 0 <= j < rest.len() && rest[j] == c;
                    assert(s[j + e + 1] == c);
                }
            }
        }
    }
}

/// The words of a text are those of its lines, one line after another.
pub proof fn lemma_lines_words(s: Seq<char>)
    ensures
        all_words(lines(s)) == words(s),
    decreases s.len(),
{
    if s.len() == 0 {
        assert(all_words(lines(s)) =~= words(s));
    } else {
        let k = Class::Except('\n');
        lemma_run(s, k);
        let e = run(s, k) as int;
        if e >= s.len() {
            lemma_all_words_one(s);
        } else {
            let whole = s.take(e);
            let line = chop_return(whole);
            let gap = whole.skip(line.len() as int) + seq!['\n'];
            let rest = s.skip(e + 1);
            assert(s[e] == '\n');
            assert(s =~= line + gap + rest);
            assert(blank(gap));
            lemma_words_concat(line, gap);
            lemma_words_concat(line + gap, rest);
            lemma_blank_words(gap);
            lemma_lines_words(rest);
            lemma_all_words_concat(seq![line], lines(rest));
            lemma_all_words_one(line);
            assert(words(line) + words(gap) =~= words(line));
        }
    }
}

/// The words of lines as a text are those of the lines.
pub proof fn lemma_unlines_words(ls: Seq<Seq<char>>)
    ensures
        words(unlines(ls)) == all_words(ls),
        unlines(ls).len() == 0 || unlines(ls).last() == '\n',
    decreases ls.len(),
{
    if ls.len() > 0 {
        let before = unlines(ls.drop_last());
        lemma_unlines_words(ls.drop_last());
        lemma_words_concat(before, ls.last());
        lemma_words_concat(before + ls.last(), seq!['\n']);
        lemma_blank_words(seq!['\n']);
        assert(words(unlines(ls)) =~= all_words(ls));
    } else {
        assert(words(unlines(ls)) =~= all_words(ls));
    }
}

// ---------- strings and characters ----------

/// The characters of a string.
pub fn chars_of(s: &str) -> (v: Vec<char>)
    ensures
        v@ == s@,
{
    let mut v: Vec<char> = Vec::new();
    for c in it: s.chars()
        invariant
            v@ == it.seq().take(it.index() as int),
            it.seq() == s@,
    {
        v.push(c);
    }
    v
}

/// The string of some characters.
pub fn string_of(v: &[char]) -> (s: String)
    ensures
        s@ == v@,
{
    let mut s = String::new();
    let n = v.len();
    for i in 0..n
        invariant
            n == v@.len(),
            s@ == v@.take(i as int),
    {
        s.push(v[i]);
    }
    s
}

// ---------- measuring, trimming, searching ----------

/// The length of the leading run of a class.
pub fn run_len(s: &[char], k: Class) -> (n: usize)
    ensures
        n == run(s@, k),
        n <= s@.len(),
{
    let mut n: usize = 0;
    while n < s.len() && k.test(s[n])
        invariant
            n <= s@.len(),
            forall|i: int| 0 <= i < n ==> k.has(#[trigger] s@[i]),
        ensures
            n <= s@.len(),
            forall|i: int| 0 <= i < n ==> k.has(#[trigger] s@[i]),
            n < s@.len() ==> !k.has(s@[n as int]),
        decreases s@.len() - n,
    {
        n = n + 1;
    }
    proof {
        lemma_run_is(s@, k, n as int);
    }
    n
}

/// The length of the trailing run of a class.
pub fn tail_run_len(s: &[char], k: Class) -> (n: usize)
    ensures
        n == tail_run(s@, k),
        n <= s@.len(),
{
    let mut n: usize = 0;
    while n < s.len() && k.test(s[s.len() - 1 - n])
        invariant
            n <= s@.len(),
            forall|i: int| s@.len() - n <= i < s@.len() ==> k.has(#[trigger] s@[i]),
        ensures
            n <= s@.len(),
            forall|i: int| s@.len() - n <= i < s@.len() ==> k.has(#[trigger] s@[i]),
            n < s@.len() ==> !k.has(s@[s@.len() - n - 1]),
        decreases s@.len() - n,
    {
        n = n + 1;
    }
    proof {
        lemma_tail_run_is(s@, k, n as int);
    }
    n
}

/// What is left without the leading run of a class.
pub fn stripped_start(s: &[char], k: Class) -> (r: &[char])
    ensures
        r@ == strip_start(s@, k),
{
    let n = run_len(s, k);
    slice_subrange(s, n, s.len())
}

/// What is left without the trailing run of a class.
pub fn stripped_end(s: &[char], k: Class) -> (r: &[char])
    ensures
        r@ == strip_end(s@, k),
{
    let n = tail_run_len(s, k);
    slice_subrange(s, 0, s.len() - n)
}

/// What is left without the white space around it.
pub fn trimmed(s: &[char]) -> (r: &[char])
    ensures
        r@ == trim(s@),
{
    stripped_end(stripped_start(s, Class::White), Class::White)
}

/// Whether the text begins with a prefix.
pub fn starts_with(s: &[char], p: &[char]) -> (b: bool)
    ensures
        b == occurs_at(s@, p@, 0),
{
    stands_at(s, p, 0)
}

/// Whether a pattern stands at a position.
fn stands_at(s: &[char], p: &[char], at: usize) -> (b: bool)
    ensures
        b == occurs_at(s@, p@, at as int),
{
    if p.len() > s.len() || at > s.len() - p.len() {
        return false;
    }
    let mut i: usize = 0;
    while i < p.len()
        invariant
            i <= p@.len(),
            at + p@.len() <= s.len(),
            forall|j: int| 0 <= j < i ==> s@[at + j] == #[trigger] p@[j],
        decreases p@.len() - i,
    {
        if s[at + i] != p[i] {
            assert(s@.subrange(at as int, at + p@.len())[i as int] == s@[at + i]);
            return false;
        }
        i = i + 1;
    }
    assert(s@.subrange(at as int, at + p@.len()) =~= p@);
    true
}

/// The first position of a pattern.
pub fn find_in(s: &[char], p: &[char]) -> (r: Option<usize>)
    ensures
        match r {
            Some(i) => find(s@, p@) == Some(i as nat) && i + p@.len() <= s@.len(),
            None => find(s@, p@) is None,
        },
{
    let mut i: usize = 0;
    loop
        invariant
            i <= s@.len(),
            forall|j: int| 0 <= j < i ==> !#[trigger] occurs_at(s@, p@, j),
        decreases s@.len() - i,
    {
        if stands_at(s, p, i) {
            proof {
                lemma_find_is(s@, p@, i as int);
            }
            return Some(i);
        }
        if i == s.len() {
            proof {
                lemma_find_none(s@, p@);
            }
            return None;
        }
        i = i + 1;
    }
}

/// Whether two texts are the same.
pub fn same_chars(a: &[char], b: &[char]) -> (r: bool)
    ensures
        r == (a@ == b@),
{
    if a.len() != b.len() {
        return false;
    }
    let r = stands_at(a, b, 0);
    assert(a@.subrange(0, b@.len() as int) =~= a@);
    r
}

/// Whether two strings are the same.
pub fn same(a: &str, b: &str) -> (r: bool)
    ensures
        r == (a@ == b@),
{
    same_chars(&chars_of(a), &chars_of(b))
}

// ---------- splitting and joining ----------

/// Whether a list has a text.
pub fn has_text(v: &Vec<String>, s: &str) -> (b: bool)
    ensures
        b == views(v@).contains(s@),
{
    let n = v.len();
    let mut i: usize = 0;
    while i < n
        invariant
            n == v@.len(),
            i <= n,
            forall|j: int| 0 <= j < i ==> (#[trigger] v@[j])@ != s@,
        decreases n - i,
    {
        if same(v[i].as_str(), s) {
            assert(views(v@)[i as int] == s@);
            return true;
        }
        i = i + 1;
    }
    assert forall|j: int| 0 <= j < views(v@).len() implies views(v@)[j] != s@ by {
        assert(v@[j]@ != s@);
    }
    false
}

/// The lines of a text.
pub fn lines_of(text: &str) -> (out: Vec<String>)
    ensures
        views(out@) == lines(text@),
{
    let all = chars_of(text);
    let mut rest: &[char] = &all;
    let mut out: Vec<String> = Vec::new();
    while rest.len() > 0
        invariant
            views(out@) + lines(rest@) == lines(text@),
        decreases rest@.len(),
    {
        let ghost before = rest@;
        let e = run_len(rest, Class::Except('\n'));
        let ghost done = out@;
        if e == rest.len() {
            out.push(string_of(rest));
            assert(views(out@) =~= views(done).push(before));
            rest = slice_subrange(rest, e, e);
            assert(views(out@) + lines(rest@) =~= views(done) + lines(before));
        } else {
            let cut = if e > 0 && rest[e - 1] == '\r' {
                e - 1
            } else {
                e
            };
            let line = slice_subrange(rest, 0, cut);
            assert(line@ =~= chop_return(before.take(e as int)));
            out.push(string_of(line));
            assert(views(out@) =~= views(done).push(line@));
            rest = slice_subrange(rest, e + 1, rest.len());
            assert(views(out@) + lines(rest@) =~= views(done) + lines(before));
        }
    }
    assert(views(out@) + lines(rest@) =~= views(out@));
    out
}

/// The words of a text.
pub fn words_of(text: &str) -> (out: Vec<String>)
    ensures
        views(out@) == words(text@),
{
    let all = chars_of(text);
    let mut rest: &[char] = &all;
    let mut out: Vec<String> = Vec::new();
    while rest.len() > 0
        invariant
            views(out@) + words(rest@) == words(text@),
        decreases rest@.len(),
    {
        let ghost before = rest@;
        let ghost done = out@;
        if white(rest[0]) {
            rest = slice_subrange(rest, 1, rest.len());
            assert(rest@ =~= before.drop_first());
        } else {
            let e = run_len(rest, Class::Ink);
            let word = slice_subrange(rest, 0, e);
            out.push(string_of(word));
            assert(views(out@) =~= views(done).push(word@));
            rest = slice_subrange(rest, e, rest.len());
            assert(views(out@) + words(rest@) =~= views(done) + words(before));
        }
    }
    assert(views(out@) + words(rest@) =~= views(out@));
    out
}

/// The pieces of a text between occurrences of a pattern.
pub fn pieces_of(text: &str, p: &str) -> (out: Vec<String>)
    requires
        p@.len() > 0,
    ensures
        views(out@) == pieces(text@, p@),
{
    let all = chars_of(text);
    let pattern = chars_of(p);
    let mut rest: &[char] = &all;
    let mut out: Vec<String> = Vec::new();
    loop
        invariant
            p@.len() > 0,
            pattern@ == p@,
            views(out@) + pieces(rest@, p@) == pieces(text@, p@),
        decreases rest@.len(),
    {
        let ghost before = rest@;
        let ghost done = out@;
        match find_in(rest, &pattern) {
            Some(i) => {
                let piece = slice_subrange(rest, 0, i);
                out.push(string_of(piece));
                assert(views(out@) =~= views(done).push(piece@));
                let n = rest.len();
                rest = slice_subrange(rest, i + pattern.len(), n);
                assert(views(out@) + pieces(rest@, p@) =~= views(done) + pieces(before, p@));
            },
            None => {
                out.push(string_of(rest));
                assert(views(out@) =~= views(done) + pieces(before, p@));
                return out;
            },
        }
    }
}

/// The strings one after another with a separator between them.
pub fn joined(parts: &Vec<String>, sep: &str) -> (out: String)
    ensures
        out@ == join(views(parts@), sep@),
{
    let mut out = String::new();
    let n = parts.len();
    for i in 0..n
        invariant
            n == parts@.len(),
            out@ == join(views(parts@).take(i as int), sep@),
    {
        if i > 0 {
            out.append(sep);
        }
        out.append(parts[i].as_str());
        let ghost t = views(parts@).take(i + 1);
        assert(t.drop_last() =~= views(parts@).take(i as int));
        assert(t.last() == parts@[i as int]@);
        if i == 0 {
            assert(out@ =~= t[0]);
        }
    }
    assert(views(parts@).take(n as int) =~= views(parts@));
    out
}

/// How many words a text has.
pub fn word_count(text: &str) -> (n: usize)
    ensures
        n == words(text@).len(),
{
    words_of(text).len()
}

/// A number in decimal digits.
pub fn decimal_of(n: usize) -> (s: String)
    ensures
        s@ == decimal(n as nat),
    decreases n,
{
    let digit = (48 + (n % 10) as u8) as char;
    let mut s = if n < 10 {
        String::new()
    } else {
        decimal_of(n / 10)
    };
    let ghost head = s@;
    s.push(digit);
    assert(n < 10 ==> s@ =~= seq![digit]);
    s
}

// ---------- laws ----------

/// White space is what Unicode counts as such.
pub proof fn law_white_space(c: char)
    ensures
        is_white(c) <==> {
            let u = c as u32;
            ||| u == 0x9 || u == 0xa || u == 0xb || u == 0xc || u == 0xd || u == 0x20
            ||| u == 0x85 || u == 0xa0 || u == 0x1680
            ||| 0x2000 <= u && u <= 0x200a
            ||| u == 0x2028 || u == 0x2029 || u == 0x202f || u == 0x205f || u == 0x3000
        },
{
}

/// Whether `s` is white before one position and from another on.
pub open spec fn white_around(s: Seq<char>, i: int, j: int) -> bool {
    blank(s.take(i)) && blank(s.skip(j))
}

/// Trimming takes white space off both ends and leaves all between them.
pub proof fn law_trim_takes_white_off(s: Seq<char>)
    ensures
        exists|i: int, j: int|
            0 <= i <= j <= s.len() && trim(s) == s.subrange(i, j) && #[trigger] white_around(
                s,
                i,
                j,
            ),
        trim(s).len() > 0 ==> !is_white(trim(s)[0]) && !is_white(trim(s).last()),
{
    let k = Class::White;
    lemma_run(s, k);
    let i = run(s, k) as int;
    let t = strip_start(s, k);
    lemma_tail_run(t, k);
    let j = i + t.len() - tail_run(t, k);
    assert(trim(s) =~= s.subrange(i, j));
    assert forall|x: int| 0 <= x < s.take(i).len() implies is_white(#[trigger] s.take(i)[x]) by {
        assert(k.has(s[x]));
    }
    assert forall|x: int| 0 <= x < s.skip(j).len() implies is_white(#[trigger] s.skip(j)[x]) by {
        assert(k.has(t[x + j - i]));
    }
    assert(white_around(s, i, j));
    lemma_trim_ends(s);
}

/// A text that is not blank and has no white space in it is one word; a blank
/// text has none; and the words of two texts with white space between them are
/// those of the first and those of the second.
pub proof fn law_words(w: Seq<char>, a: Seq<char>, gap: Seq<char>, b: Seq<char>)
    requires
        w.len() > 0,
        forall|i: int| 0 <= i < w.len() ==> !is_white(#[trigger] w[i]),
        gap.len() > 0,
        blank(gap),
    ensures
        words(w) == seq![w],
        words(gap) == Seq::<Seq<char>>::empty(),
        words(a + gap + b) == words(a) + words(b),
{
    lemma_run_is(w, Class::Ink, w.len() as int);
    assert(w.take(w.len() as int) =~= w);
    assert(w.skip(w.len() as int) =~= seq![]);
    assert(words(seq![]) =~= seq![]);
    assert(words(w) =~= seq![w]);
    lemma_blank_words(gap);
    assert(is_white(gap[0]) && is_white(gap[gap.len() - 1]));
    lemma_words_concat(a, gap);
    assert((a + gap).last() == gap.last());
    lemma_words_concat(a + gap, b);
    assert(words(a) + words(gap) =~= words(a));
}

/// A line feed ends a line, and so do a carriage return and a line feed; what
/// stands behind the last line feed is a line too, unless nothing does.
pub proof fn law_lines(line: Seq<char>, rest: Seq<char>)
    requires
        !line.contains('\n'),
    ensures
        lines(seq![]) == Seq::<Seq<char>>::empty(),
        line.len() > 0 ==> lines(line) == seq![line],
        line.len() == 0 || line.last() != '\r' ==> lines(line + seq!['\n'] + rest) == seq![line]
            + lines(rest),
        lines(line + seq!['\r', '\n'] + rest) == seq![line] + lines(rest),
{
    let k = Class::Except('\n');
    assert forall|i: int| 0 <= i < line.len() implies k.has(#[trigger] line[i]) by {
        assert(line.contains(line[i]));
    }
    lemma_run_is(line, k, line.len() as int);
    let s = line + seq!['\n'] + rest;
    let n = line.len() as int;
    assert forall|i: int| 0 <= i < n implies k.has(#[trigger] s[i]) by {
        assert(k.has(line[i]));
    }
    lemma_run_is(s, k, n);
    assert(s.take(n) =~= line);
    assert(s.skip(n + 1) =~= rest);
    let t = line + seq!['\r', '\n'] + rest;
    assert forall|i: int| 0 <= i < n + 1 implies k.has(#[trigger] t[i]) by {
        if i < n {
            assert(k.has(line[i]));
        }
    }
    lemma_run_is(t, k, n + 1);
    assert(t.take(n + 1) =~= line.push('\r'));
    assert(line.push('\r').drop_last() =~= line);
    assert(t.skip(n + 2) =~= rest);
}

/// Pieces joined again are the text that they came from, and no piece holds what
/// stands between them.
pub proof fn law_pieces_join_again(s: Seq<char>, p: Seq<char>)
    requires
        p.len() > 0,
    ensures
        join(pieces(s, p), p) == s,
        pieces(s, p).len() > 0,
        forall|i: int| 0 <= i < pieces(s, p).len() ==> find(#[trigger] pieces(s, p)[i], p) is None,
    decreases s.len(),
{
    lemma_find(s, p);
    match find(s, p) {
        Some(i) => {
            let head = s.take(i as int);
            let tail = s.skip((i + p.len()) as int);
            let more = pieces(tail, p);
            let all = pieces(s, p);
            law_pieces_join_again(tail, p);
            assert(all =~= seq![head] + more);
            lemma_join_front(head, more, p);
            assert(s.subrange(i as int, (i + p.len()) as int) == p);
            assert(head + p + tail =~= s);
            assert forall|j: int| 0 <= j <= head.len() implies !#[trigger] occurs_at(
                head,
                p,
                j,
            ) by {
                if occurs_at(head, p, j) {
                    assert(s.subrange(j, j + p.len()) =~= head.subrange(j, j + p.len()));
                    assert(occurs_at(s, p, j));
                }
            }
            lemma_find_none(head, p);
            assert forall|k: int| 0 <= k < all.len() implies find(#[trigger] all[k], p) is None by {
                if k > 0 {
                    assert(all[k] == more[k - 1]);
                }
            }
        },
        None => {},
    }
}

proof fn lemma_join_front(head: Seq<char>, more: Seq<Seq<char>>, sep: Seq<char>)
    requires
        more.len() > 0,
    ensures
        join(seq![head] + more, sep) == head + sep + join(more, sep),
    decreases more.len(),
{
    let all = seq![head] + more;
    assert(all.drop_last() =~= seq![head] + more.drop_last());
    if more.len() > 1 {
        lemma_join_front(head, more.drop_last(), sep);
        assert(join(all, sep) =~= head + sep + join(more, sep));
    } else {
        assert(all.drop_last() =~= seq![head]);
        assert(join(seq![head], sep) == head);
        assert(all.last() == more[0]);
        assert(join(all, sep) =~= head + sep + join(more, sep));
    }
}

/// Parts that are joined begin with the first, and what stands between parts
/// follows it.
pub proof fn law_join_begins_with_its_first(parts: Seq<Seq<char>>, sep: Seq<char>)
    requires
        parts.len() > 0,
    ensures
        parts.len() == 1 ==> join(parts, sep) == parts[0],
        parts.len() > 1 ==> join(parts, sep) == parts[0] + sep + join(parts.drop_first(), sep),
{
    if parts.len() > 1 {
        lemma_join_front(parts[0], parts.drop_first(), sep);
        assert(seq![parts[0]] + parts.drop_first() =~= parts);
    }
}

/// The number that decimal digits stand for.
pub open spec fn digits_value(digits: Seq<char>) -> int
    decreases digits.len(),
{
    if digits.len() == 0 {
        0
    } else {
        digits_value(digits.drop_last()) * 10 + (digits.last() as int - '0' as int)
    }
}

/// A number in decimal is digits that stand for it, and does not begin with a
/// nought, unless it is one.
pub proof fn law_decimal(n: nat)
    ensures
        digits_value(decimal(n)) == n,
        forall|i: int| 0 <= i < decimal(n).len() ==> '0' <= #[trigger] decimal(n)[i] <= '9',
        decimal(n).len() > 0,
        n > 0 ==> decimal(n)[0] != '0',
    decreases n,
{
    reveal_with_fuel(digits_value, 2);
    if n >= 10 {
        law_decimal(n / 10);
        assert(decimal(n).drop_last() =~= decimal(n / 10));
    } else {
        assert(decimal(n).drop_last() =~= seq![]);
    }
}

/// A text stands in another at a position if the other is what comes before it, the
/// text, and what comes behind; and the place that is found is the first of those.
pub proof fn law_find_gives_the_first_place(
    before: Seq<char>,
    p: Seq<char>,
    behind: Seq<char>,
    s: Seq<char>,
    i: int,
)
    ensures
        occurs_at(before + p + behind, p, before.len() as int),
        occurs_at(s, p, i) ==> 0 <= i && i + p.len() <= s.len() && s == s.take(i) + p + s.skip(
            i + p.len(),
        ),
        find(before + p + behind, p) matches Some(k) && k <= before.len(),
        find(s, p) matches Some(k) ==> occurs_at(s, p, k as int) && (occurs_at(s, p, i) ==> k
            <= i),
        find(s, p) is None ==> !occurs_at(s, p, i),
{
    let all = before + p + behind;
    let n = before.len() as int;
    assert(all.subrange(n, n + p.len()) =~= p);
    assert(occurs_at(all, p, n));
    lemma_find(all, p);
    lemma_find(s, p);
    if occurs_at(s, p, i) {
        assert(s =~= s.take(i) + s.subrange(i, i + p.len()) + s.skip(i + p.len()));
    }
}

} // verus!
