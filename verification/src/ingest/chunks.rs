//! Sections brought to size: small siblings merged, large sections split.

use vstd::prelude::*;
use vstd::string::StringExecFns;

use crate::model::copy_strings;
use crate::text::{
    all_words, chars_of, find, has_text, is_white, join, law_join_begins_with_its_first,
    law_pieces_join_again, law_trim_takes_white_off, lemma_all_words_concat, lemma_all_words_one,
    lemma_blank_words, lemma_find, lemma_find_is, lemma_has_word, lemma_trim_ends,
    lemma_words_concat, lemma_words_trim, occurs_at, pieces, pieces_of, string_of, trim, trimmed,
    views, white_around, word_count, words,
};

verus! {

/// How large chunks are meant to be, in words.
#[derive(Debug, Clone, Copy)]
pub struct ChunkConfig {
    /// Small sections are merged up to this size.
    pub target_words: usize,
    /// Larger sections are split.
    pub max_words: usize,
    /// Smaller sections are merged with what follows.
    pub min_words: usize,
}

impl Default for ChunkConfig {
    fn default() -> (c: Self)
        ensures
            c.target_words == 500,
            c.max_words == 1500,
            c.min_words == 50,
    {
        ChunkConfig { target_words: 500, max_words: 1500, min_words: 50 }
    }
}

// ---------- the model ----------

/// A section in plain text: the headings above it, its text, and its tags.
pub struct SectionView {
    pub path: Seq<Seq<char>>,
    pub text: Seq<char>,
    pub tags: Seq<Seq<char>>,
}

/// Whether two heading paths differ at most in their last heading.
pub open spec fn siblings(a: Seq<Seq<char>>, b: Seq<Seq<char>>) -> bool {
    a.len() > 0 && b.len() > 0 && a.drop_last() == b.drop_last()
}

/// How many headings two paths have in common from the outermost on.
pub open spec fn shared(a: Seq<Seq<char>>, b: Seq<Seq<char>>) -> nat
    decreases a.len(),
{
    if a.len() > 0 && b.len() > 0 && a[0] == b[0] {
        1 + shared(a.drop_first(), b.drop_first())
    } else {
        0
    }
}

/// The first list and then what of the second is not in it yet, each once.
pub open spec fn union(a: Seq<Seq<char>>, b: Seq<Seq<char>>) -> Seq<Seq<char>>
    decreases b.len(),
{
    if b.len() == 0 {
        a
    } else {
        let u = union(a, b.drop_last());
        if u.contains(b.last()) {
            u
        } else {
            u.push(b.last())
        }
    }
}

/// Two sections as one, under the headings that they share.
pub open spec fn merged(a: SectionView, b: SectionView) -> SectionView {
    SectionView {
        path: a.path.take(shared(a.path, b.path) as int),
        text: a.text + "\n\n"@ + b.text,
        tags: union(a.tags, b.tags),
    }
}

/// Whether what began with the section under `under` takes in the next section:
/// it is small so far, the next is a sibling of the section that it began with,
/// and together they are no larger than meant.
pub open spec fn takes_in(
    under: Seq<Seq<char>>,
    a: SectionView,
    b: SectionView,
    config: ChunkConfig,
) -> bool {
    &&& words(a.text).len() < config.min_words
    &&& siblings(under, b.path)
    &&& words(a.text).len() + words(b.text).len() <= config.target_words
}

/// A section with all that it takes in, and what is left. `under` is the path of
/// the section that it began with.
pub open spec fn absorb(
    under: Seq<Seq<char>>,
    first: SectionView,
    rest: Seq<SectionView>,
    config: ChunkConfig,
) -> (SectionView, Seq<SectionView>)
    decreases rest.len(),
{
    if rest.len() > 0 && takes_in(under, first, rest[0], config) {
        absorb(under, merged(first, rest[0]), rest.drop_first(), config)
    } else {
        (first, rest)
    }
}

/// Absorbing leaves no more than there was.
pub proof fn lemma_absorb_shrinks(
    under: Seq<Seq<char>>,
    first: SectionView,
    rest: Seq<SectionView>,
    config: ChunkConfig,
)
    ensures
        absorb(under, first, rest, config).1.len() <= rest.len(),
    decreases rest.len(),
{
    if rest.len() > 0 && takes_in(under, first, rest[0], config) {
        lemma_absorb_shrinks(under, merged(first, rest[0]), rest.drop_first(), config);
    }
}

/// The sections with small siblings merged, from the first on.
pub open spec fn merge_small(s: Seq<SectionView>, config: ChunkConfig) -> Seq<SectionView>
    decreases s.len(),
{
    if s.len() == 0 {
        seq![]
    } else {
        let (first, rest) = absorb(s[0].path, s[0], s.drop_first(), config);
        proof {
            lemma_absorb_shrinks(s[0].path, s[0], s.drop_first(), config);
        }
        seq![first] + merge_small(rest, config)
    }
}

/// The pieces that are not blank, trimmed.
pub open spec fn paragraphs(ps: Seq<Seq<char>>) -> Seq<Seq<char>>
    decreases ps.len(),
{
    if ps.len() == 0 {
        seq![]
    } else if trim(ps.last()).len() == 0 {
        paragraphs(ps.drop_last())
    } else {
        paragraphs(ps.drop_last()).push(trim(ps.last()))
    }
}

/// Texts that are full, and the one being filled.
pub struct Packing {
    pub full: Seq<Seq<char>>,
    pub open: Seq<char>,
}

impl Packing {
    /// With one paragraph more: in the open text if it fits, else in a new one.
    pub open spec fn with(self, p: Seq<char>, max: nat) -> Packing {
        if self.open.len() == 0 {
            Packing { open: p, ..self }
        } else if words(self.open).len() + words(p).len() > max {
            Packing { full: self.full.push(self.open), open: p }
        } else {
            Packing { open: self.open + "\n\n"@ + p, ..self }
        }
    }

    /// All texts.
    pub open spec fn texts(self) -> Seq<Seq<char>> {
        if self.open.len() == 0 {
            self.full
        } else {
            self.full.push(self.open)
        }
    }
}

/// Paragraphs packed into texts of at most `max` words, in their order; a
/// paragraph is never cut.
pub open spec fn pack(ps: Seq<Seq<char>>, max: nat) -> Packing
    decreases ps.len(),
{
    if ps.len() == 0 {
        Packing { full: seq![], open: seq![] }
    } else {
        pack(ps.drop_last(), max).with(ps.last(), max)
    }
}

/// The texts that a text is split into.
pub open spec fn split_text(text: Seq<char>, max: nat) -> Seq<Seq<char>> {
    pack(paragraphs(pieces(text, "\n\n"@)), max).texts()
}

/// A section, or the parts of one that is too large.
pub open spec fn split_large(s: SectionView, config: ChunkConfig) -> Seq<SectionView> {
    if words(s.text).len() <= config.max_words {
        seq![s]
    } else {
        split_text(s.text, config.max_words as nat).map_values(
            |t: Seq<char>| SectionView { path: s.path, text: t, tags: s.tags },
        )
    }
}

// ---------- the code ----------

/// A section in plain text.
#[derive(Debug)]
pub struct Section {
    pub heading_path: Vec<String>,
    pub text: String,
    pub tags: Vec<String>,
}

impl View for Section {
    type V = SectionView;

    open spec fn view(&self) -> SectionView {
        SectionView {
            path: views(self.heading_path@),
            text: self.text@,
            tags: views(self.tags@),
        }
    }
}

impl Clone for Section {
    fn clone(&self) -> (r: Self)
        ensures
            r@ == self@,
    {
        Section {
            heading_path: copy_strings(&self.heading_path),
            text: self.text.clone(),
            tags: copy_strings(&self.tags),
        }
    }
}

/// The sections of a list.
pub open spec fn section_views(v: Seq<Section>) -> Seq<SectionView> {
    v.map_values(|s: Section| s@)
}

/// Whether two heading paths differ at most in their last heading.
fn are_siblings(a: &Vec<String>, b: &Vec<String>) -> (r: bool)
    ensures
        r == siblings(views(a@), views(b@)),
{
    if a.len() == 0 || b.len() == 0 || a.len() != b.len() {
        return false;
    }
    let n = a.len() - 1;
    let mut i: usize = 0;
    while i < n
        invariant
            n + 1 == a@.len(),
            a@.len() == b@.len(),
            i <= n,
            forall|j: int| 0 <= j < i ==> (#[trigger] a@[j])@ == b@[j]@,
        decreases n - i,
    {
        if a[i] != b[i] {
            assert(views(a@).drop_last()[i as int] != views(b@).drop_last()[i as int]);
            return false;
        }
        i = i + 1;
    }
    assert(views(a@).drop_last() =~= views(b@).drop_last());
    true
}

proof fn lemma_shared(a: Seq<Seq<char>>, b: Seq<Seq<char>>, n: int)
    requires
        0 <= n <= a.len(),
        n <= b.len(),
        forall|i: int| 0 <= i < n ==> a[i] == b[i],
        n < a.len() && n < b.len() ==> a[n] != b[n],
    ensures
        shared(a, b) == n,
    decreases n,
{
    if n > 0 {
        assert(a[0] == b[0]);
        lemma_shared(a.drop_first(), b.drop_first(), n - 1);
    }
}

/// The headings that two paths have in common from the outermost on.
fn common_prefix(a: &Vec<String>, b: &Vec<String>) -> (r: Vec<String>)
    ensures
        views(r@) == views(a@).take(shared(views(a@), views(b@)) as int),
{
    let mut r: Vec<String> = Vec::new();
    let mut n: usize = 0;
    while n < a.len() && n < b.len() && a[n] == b[n]
        invariant
            n <= a@.len(),
            n <= b@.len(),
            views(r@) == views(a@).take(n as int),
            forall|j: int| 0 <= j < n ==> (#[trigger] a@[j])@ == b@[j]@,
        ensures
            n <= a@.len(),
            n <= b@.len(),
            views(r@) == views(a@).take(n as int),
            forall|j: int| 0 <= j < n ==> (#[trigger] a@[j])@ == b@[j]@,
            n < a@.len() && n < b@.len() ==> a@[n as int]@ != b@[n as int]@,
        decreases a@.len() - n,
    {
        let ghost before = views(r@);
        r.push(a[n].clone());
        assert(views(r@) =~= before.push(a@[n as int]@));
        n = n + 1;
        assert(views(r@) =~= views(a@).take(n as int));
    }
    proof {
        lemma_shared(views(a@), views(b@), n as int);
    }
    r
}

/// Adds what of a second list is not in the first yet.
pub fn add_missing(tags: &mut Vec<String>, more: &Vec<String>)
    ensures
        views(final(tags)@) == union(views(old(tags)@), views(more@)),
{
    let n = more.len();
    assert(views(more@).take(0) =~= seq![]);
    for i in 0..n
        invariant
            n == more@.len(),
            views(tags@) == union(views(old(tags)@), views(more@).take(i as int)),
    {
        let ghost before = tags@;
        assert(views(more@).take(i + 1).drop_last() =~= views(more@).take(i as int));
        if !has_text(tags, more[i].as_str()) {
            tags.push(more[i].clone());
            assert(views(tags@) =~= views(before).push(more@[i as int]@));
        }
    }
    assert(views(more@).take(n as int) =~= views(more@));
}

/// Whether what began with the section under `under` takes in the next section.
fn joins(under: &Vec<String>, a: &Section, b: &Section, config: &ChunkConfig) -> (r: bool)
    ensures
        r == takes_in(views(under@), a@, b@, *config),
{
    let mine = word_count(a.text.as_str());
    let theirs = word_count(b.text.as_str());
    mine < config.min_words && are_siblings(under, &b.heading_path) && theirs
        <= config.target_words && mine <= config.target_words - theirs
}

/// Merges small sections with the siblings that follow them, under the headings
/// that all of them share.
pub fn merge_small_siblings(sections: &Vec<Section>, config: &ChunkConfig) -> (out: Vec<Section>)
    ensures
        section_views(out@) == merge_small(section_views(sections@), *config),
{
    let ghost all = section_views(sections@);
    let n = sections.len();
    let mut out: Vec<Section> = Vec::new();
    let mut i: usize = 0;
    assert(all.skip(0) =~= all);
    assert(section_views(out@) + merge_small(all, *config) =~= merge_small(all, *config));
    while i < n
        invariant
            n == sections@.len(),
            i <= n,
            all == section_views(sections@),
            section_views(out@) + merge_small(all.skip(i as int), *config) == merge_small(
                all,
                *config,
            ),
        decreases n - i,
    {
        let ghost from = all.skip(i as int);
        let start = i;
        let mut current = sections[i].clone();
        i = i + 1;
        assert(from.drop_first() =~= all.skip(i as int));
        while i < n && joins(&sections[start].heading_path, &current, &sections[i], config)
            invariant
                n == sections@.len(),
                start < i <= n,
                all == section_views(sections@),
                from[0] == sections@[start as int]@,
                absorb(from[0].path, current@, all.skip(i as int), *config) == absorb(
                    from[0].path,
                    from[0],
                    from.drop_first(),
                    *config,
                ),
            ensures
                start < i <= n,
                absorb(from[0].path, from[0], from.drop_first(), *config) == (
                    current@,
                    all.skip(i as int),
                ),
            decreases n - i,
        {
            let next = &sections[i];
            let ghost left = all.skip(i as int);
            let ghost before = current@;
            assert(left[0] == next@);
            let path = common_prefix(&current.heading_path, &next.heading_path);
            let mut text = current.text.clone();
            text.append("\n\n");
            text.append(next.text.as_str());
            let mut tags = current.tags;
            add_missing(&mut tags, &next.tags);
            current = Section { heading_path: path, text, tags };
            assert(current@ == merged(before, next@));
            i = i + 1;
            assert(left.drop_first() =~= all.skip(i as int));
        }
        let ghost done = out@;
        out.push(current);
        assert(section_views(out@) =~= section_views(done).push(current@));
        assert(section_views(out@) + merge_small(all.skip(i as int), *config) =~= section_views(
            done,
        ) + merge_small(from, *config));
    }
    assert(section_views(out@) + merge_small(all.skip(i as int), *config) =~= section_views(out@));
    out
}

/// The paragraphs of a text, trimmed, without blank ones.
fn paragraphs_of(text: &str) -> (out: Vec<String>)
    ensures
        views(out@) == paragraphs(pieces(text@, "\n\n"@)),
{
    proof {
        reveal_strlit("\n\n");
    }
    let ps = pieces_of(text, "\n\n");
    let n = ps.len();
    let mut out: Vec<String> = Vec::new();
    assert(views(out@) =~= paragraphs(views(ps@).take(0)));
    for i in 0..n
        invariant
            n == ps@.len(),
            views(out@) == paragraphs(views(ps@).take(i as int)),
    {
        let chars = chars_of(ps[i].as_str());
        let p = trimmed(&chars);
        let ghost before = out@;
        assert(views(ps@).take(i + 1).drop_last() =~= views(ps@).take(i as int));
        if p.len() > 0 {
            out.push(string_of(p));
            assert(views(out@) =~= views(before).push(p@));
        }
    }
    assert(views(ps@).take(n as int) =~= views(ps@));
    out
}

/// A part of a section.
fn part(section: &Section, text: String) -> (r: Section)
    ensures
        r@ == (SectionView { path: section@.path, text: text@, tags: section@.tags }),
{
    Section {
        heading_path: copy_strings(&section.heading_path),
        text,
        tags: copy_strings(&section.tags),
    }
}

/// Splits a section that is too large between its paragraphs.
pub fn split_oversize(section: &Section, config: &ChunkConfig) -> (out: Vec<Section>)
    ensures
        section_views(out@) == split_large(section@, *config),
{
    let mut out: Vec<Section> = Vec::new();
    if word_count(section.text.as_str()) <= config.max_words {
        out.push(section.clone());
        assert(section_views(out@) =~= seq![section@]);
        return out;
    }
    let ghost sized = |t: Seq<char>|
        SectionView { path: section@.path, text: t, tags: section@.tags };
    let ps = paragraphs_of(section.text.as_str());
    let ghost all = views(ps@);
    let ghost max = config.max_words as nat;
    let mut current = String::new();
    let n = ps.len();
    assert(section_views(out@) =~= pack(all.take(0), max).full.map_values(sized));
    assert(current@ =~= pack(all.take(0), max).open);
    for i in 0..n
        invariant
            n == ps@.len(),
            all == views(ps@),
            max == config.max_words,
            sized == (|t: Seq<char>|
                SectionView { path: section@.path, text: t, tags: section@.tags }),
            current@ == pack(all.take(i as int), max).open,
            section_views(out@) == pack(all.take(i as int), max).full.map_values(sized),
    {
        let para = ps[i].as_str();
        assert(all.take(i + 1).drop_last() =~= all.take(i as int));
        let ghost before = pack(all.take(i as int), max);
        let ghost done = out@;
        if current.as_str().is_empty() {
            current = para.to_string();
        } else {
            let have = word_count(current.as_str());
            let more = word_count(para);
            if more > config.max_words || have > config.max_words - more {
                out.push(part(section, current));
                assert(section_views(out@) =~= section_views(done).push(sized(before.open)));
                assert(section_views(out@) =~= before.full.push(before.open).map_values(sized));
                current = para.to_string();
            } else {
                current.append("\n\n");
                current.append(para);
            }
        }
    }
    assert(all.take(n as int) =~= all);
    let ghost last = pack(all, max);
    let ghost done = out@;
    if !current.as_str().is_empty() {
        out.push(part(section, current));
        assert(section_views(out@) =~= section_views(done).push(sized(last.open)));
        assert(section_views(out@) =~= last.full.push(last.open).map_values(sized));
    }
    assert(section_views(out@) =~= split_large(section@, *config));
    out
}

// ---------- laws ----------

/// The texts of some sections.
pub open spec fn texts(s: Seq<SectionView>) -> Seq<Seq<char>> {
    s.map_values(|x: SectionView| x.text)
}

/// Two texts with an empty line between them have the words of both.
proof fn lemma_gap(a: Seq<char>, b: Seq<char>)
    ensures
        words(a + "\n\n"@ + b) == words(a) + words(b),
{
    reveal_strlit("\n\n");
    let gap = "\n\n"@;
    lemma_words_concat(a, gap);
    lemma_blank_words(gap);
    lemma_words_concat(a + gap, b);
    assert(words(a) + words(gap) =~= words(a));
}

proof fn lemma_absorb_words(
    under: Seq<Seq<char>>,
    first: SectionView,
    rest: Seq<SectionView>,
    config: ChunkConfig,
)
    ensures
        ({
            let (taken, left) = absorb(under, first, rest, config);
            words(taken.text) + all_words(texts(left)) == words(first.text) + all_words(texts(rest))
        }),
    decreases rest.len(),
{
    if rest.len() > 0 && takes_in(under, first, rest[0], config) {
        let both = merged(first, rest[0]);
        lemma_absorb_words(under, both, rest.drop_first(), config);
        lemma_gap(first.text, rest[0].text);
        assert(texts(rest) =~= seq![rest[0].text] + texts(rest.drop_first()));
        lemma_all_words_concat(seq![rest[0].text], texts(rest.drop_first()));
        lemma_all_words_one(rest[0].text);
        assert(words(both.text) + all_words(texts(rest.drop_first())) =~= words(first.text)
            + all_words(texts(rest)));
    }
}

/// Merging loses no word and keeps all of them in order.
pub proof fn law_merging_keeps_words(s: Seq<SectionView>, config: ChunkConfig)
    ensures
        all_words(texts(merge_small(s, config))) == all_words(texts(s)),
    decreases s.len(),
{
    if s.len() > 0 {
        let (first, rest) = absorb(s[0].path, s[0], s.drop_first(), config);
        lemma_absorb_shrinks(s[0].path, s[0], s.drop_first(), config);
        lemma_absorb_words(s[0].path, s[0], s.drop_first(), config);
        law_merging_keeps_words(rest, config);
        assert(texts(merge_small(s, config)) =~= seq![first.text] + texts(
            merge_small(rest, config),
        ));
        lemma_all_words_concat(seq![first.text], texts(merge_small(rest, config)));
        lemma_all_words_one(first.text);
        assert(texts(s) =~= seq![s[0].text] + texts(s.drop_first()));
        lemma_all_words_concat(seq![s[0].text], texts(s.drop_first()));
        lemma_all_words_one(s[0].text);
    } else {
        assert(texts(merge_small(s, config)) =~= texts(s));
    }
}

/// However many siblings are merged, they end up under their common parent: the
/// path is that of the section that came first, or the headings above it.
pub proof fn law_merging_keeps_the_parent(s: Seq<SectionView>, config: ChunkConfig)
    requires
        s.len() > 0,
    ensures
        ({
            let path = merge_small(s, config)[0].path;
            path == s[0].path || (s[0].path.len() > 0 && path == s[0].path.drop_last())
        }),
{
    lemma_absorb_path(s[0].path, s[0], s.drop_first(), config);
    lemma_absorb_shrinks(s[0].path, s[0], s.drop_first(), config);
}

proof fn lemma_absorb_path(
    under: Seq<Seq<char>>,
    first: SectionView,
    rest: Seq<SectionView>,
    config: ChunkConfig,
)
    requires
        first.path == under || (under.len() > 0 && first.path == under.drop_last()),
    ensures
        ({
            let path = absorb(under, first, rest, config).0.path;
            path == under || (under.len() > 0 && path == under.drop_last())
        }),
    decreases rest.len(),
{
    if rest.len() > 0 && takes_in(under, first, rest[0], config) {
        let a = first.path;
        let b = rest[0].path;
        let parent = under.drop_last();
        assert forall|i: int| 0 <= i < parent.len() implies a[i] == b[i] by {
            assert(parent[i] == b.drop_last()[i]);
        }
        let n = if a == under && a.last() == b.last() {
            a.len() as int
        } else {
            parent.len() as int
        };
        lemma_shared(a, b, n);
        assert(a.take(n) =~= a || a.take(n) =~= parent);
        lemma_absorb_path(under, merged(first, rest[0]), rest.drop_first(), config);
    }
}

/// Small sections under one parent become one, as long as they stay small
/// enough together: all but the last are smaller than the least, and all of
/// them are no larger than meant.
pub proof fn law_small_siblings_become_one(s: Seq<SectionView>, config: ChunkConfig)
    requires
        s.len() > 0,
        forall|i: int| 0 <= i < s.len() ==> siblings(s[0].path, (#[trigger] s[i]).path),
        all_words(texts(s)).len() <= config.target_words,
        all_words(texts(s.drop_last())).len() < config.min_words,
    ensures
        merge_small(s, config).len() == 1,
{
    assert(texts(s) =~= seq![s[0].text] + texts(s.drop_first()));
    lemma_all_words_concat(seq![s[0].text], texts(s.drop_first()));
    lemma_all_words_one(s[0].text);
    if s.len() > 1 {
        let few = s.drop_first().drop_last();
        assert(texts(s.drop_last()) =~= seq![s[0].text] + texts(few));
        lemma_all_words_concat(seq![s[0].text], texts(few));
        assert forall|i: int| 0 <= i < s.drop_first().len() implies siblings(
            s[0].path,
            (#[trigger] s.drop_first()[i]).path,
        ) by {
            assert(s.drop_first()[i] == s[i + 1]);
        }
        lemma_absorb_all(s[0].path, s[0], s.drop_first(), config);
    }
    lemma_absorb_shrinks(s[0].path, s[0], s.drop_first(), config);
    assert(merge_small(seq![], config).len() == 0);
    assert(absorb(s[0].path, s[0], s.drop_first(), config).1 =~= seq![]);
}

proof fn lemma_absorb_all(
    under: Seq<Seq<char>>,
    first: SectionView,
    rest: Seq<SectionView>,
    config: ChunkConfig,
)
    requires
        rest.len() > 0,
        forall|i: int| 0 <= i < rest.len() ==> siblings(under, (#[trigger] rest[i]).path),
        words(first.text).len() + all_words(texts(rest)).len() <= config.target_words,
        words(first.text).len() + all_words(texts(rest.drop_last())).len() < config.min_words,
    ensures
        absorb(under, first, rest, config).1.len() == 0,
    decreases rest.len(),
{
    let more = rest.drop_first();
    assert(siblings(under, rest[0].path));
    assert(texts(rest) =~= seq![rest[0].text] + texts(more));
    lemma_all_words_concat(seq![rest[0].text], texts(more));
    lemma_all_words_one(rest[0].text);
    lemma_gap(first.text, rest[0].text);
    if more.len() > 0 {
        assert(texts(rest.drop_last()) =~= seq![rest[0].text] + texts(more.drop_last()));
        lemma_all_words_concat(seq![rest[0].text], texts(more.drop_last()));
        assert forall|i: int| 0 <= i < more.len() implies siblings(
            under,
            (#[trigger] more[i]).path,
        ) by {
            assert(more[i] == rest[i + 1]);
        }
        lemma_absorb_all(under, merged(first, rest[0]), more, config);
    } else {
        assert(absorb(under, merged(first, rest[0]), more, config).1 == more);
    }
}

proof fn lemma_absorb_size(
    under: Seq<Seq<char>>,
    first: SectionView,
    rest: Seq<SectionView>,
    config: ChunkConfig,
)
    ensures
        absorb(under, first, rest, config).0 == first || words(
            absorb(under, first, rest, config).0.text,
        ).len() <= config.target_words,
    decreases rest.len(),
{
    if rest.len() > 0 && takes_in(under, first, rest[0], config) {
        lemma_absorb_size(under, merged(first, rest[0]), rest.drop_first(), config);
        lemma_gap(first.text, rest[0].text);
    }
}

/// A merged section is no larger than meant: what is larger was one section
/// before.
pub proof fn law_merging_respects_target(s: Seq<SectionView>, config: ChunkConfig)
    ensures
        forall|i: int|
            0 <= i < merge_small(s, config).len() ==> s.contains(
                #[trigger] merge_small(s, config)[i],
            ) || words(merge_small(s, config)[i].text).len() <= config.target_words,
    decreases s.len(),
{
    if s.len() > 0 {
        let (first, rest) = absorb(s[0].path, s[0], s.drop_first(), config);
        lemma_absorb_shrinks(s[0].path, s[0], s.drop_first(), config);
        lemma_absorb_size(s[0].path, s[0], s.drop_first(), config);
        lemma_absorb_suffix(s[0].path, s[0], s.drop_first(), config);
        law_merging_respects_target(rest, config);
        let out = merge_small(s, config);
        assert forall|i: int| 0 <= i < out.len() implies s.contains(#[trigger] out[i]) || words(
            out[i].text,
        ).len() <= config.target_words by {
            if i == 0 {
                if first == s[0] {
                    assert(s.contains(s[0]));
                }
            } else {
                let later = merge_small(rest, config);
                assert(out[i] == later[i - 1]);
                if rest.contains(later[i - 1]) {
                    let k = choose|k: int| 0 <= k < rest.len() && rest[k] == later[i - 1];
                    let d = s.len() - rest.len();
                    assert(rest[k] == s[d + k]);
                }
            }
        }
    }
}

proof fn lemma_absorb_suffix(
    under: Seq<Seq<char>>,
    first: SectionView,
    rest: Seq<SectionView>,
    config: ChunkConfig,
)
    ensures
        absorb(under, first, rest, config).1.len() <= rest.len(),
        absorb(under, first, rest, config).1 == rest.skip(
            rest.len() - absorb(under, first, rest, config).1.len(),
        ),
    decreases rest.len(),
{
    if rest.len() > 0 && takes_in(under, first, rest[0], config) {
        let left = absorb(under, first, rest, config).1;
        lemma_absorb_suffix(under, merged(first, rest[0]), rest.drop_first(), config);
        assert(rest.drop_first().skip(rest.len() - 1 - left.len()) =~= rest.skip(
            rest.len() - left.len(),
        ));
    } else {
        assert(rest.skip(0) =~= rest);
    }
}

proof fn lemma_pieces_words(s: Seq<char>)
    ensures
        all_words(pieces(s, "\n\n"@)) == words(s),
    decreases s.len(),
{
    let gap = "\n\n"@;
    reveal_strlit("\n\n");
    lemma_find(s, gap);
    match find(s, gap) {
        Some(i) => {
            let head = s.take(i as int);
            let tail = s.skip((i + gap.len()) as int);
            assert(s =~= head + s.subrange(i as int, (i + gap.len()) as int) + tail);
            lemma_gap(head, tail);
            lemma_pieces_words(tail);
            lemma_all_words_concat(seq![head], pieces(tail, gap));
            lemma_all_words_one(head);
        },
        None => {
            lemma_all_words_one(s);
        },
    }
}

proof fn lemma_paragraph_words(ps: Seq<Seq<char>>)
    ensures
        all_words(paragraphs(ps)) == all_words(ps),
        forall|i: int|
            0 <= i < paragraphs(ps).len() ==> (#[trigger] paragraphs(ps)[i]).len() > 0 && !is_white(
                paragraphs(ps)[i][0],
            ),
    decreases ps.len(),
{
    if ps.len() > 0 {
        lemma_paragraph_words(ps.drop_last());
        let p = trim(ps.last());
        lemma_words_trim(ps.last());
        lemma_trim_ends(ps.last());
        let earlier = paragraphs(ps.drop_last());
        if p.len() == 0 {
            assert(words(p) =~= seq![]);
            assert(all_words(ps) =~= all_words(ps.drop_last()));
        } else {
            assert(earlier.push(p).drop_last() =~= earlier);
            assert forall|i: int| 0 <= i < paragraphs(ps).len() implies (
            #[trigger] paragraphs(ps)[i]).len() > 0 && !is_white(paragraphs(ps)[i][0]) by {
                if i < earlier.len() {
                    assert(paragraphs(ps)[i] == earlier[i]);
                }
            }
        }
    }
}

proof fn lemma_pack(ps: Seq<Seq<char>>, max: nat)
    requires
        forall|i: int| 0 <= i < ps.len() ==> (#[trigger] ps[i]).len() > 0,
    ensures
        all_words(pack(ps, max).texts()) == all_words(ps),
        ps.len() > 0 ==> pack(ps, max).open.len() > 0,
        ps.len() == 0 ==> pack(ps, max).open.len() == 0,
        forall|i: int|
            0 <= i < pack(ps, max).texts().len() ==> {
                let t = #[trigger] pack(ps, max).texts()[i];
                t.len() > 0 && (words(t).len() <= max || ps.contains(t))
            },
    decreases ps.len(),
{
    if ps.len() > 0 {
        let before = ps.drop_last();
        let p = ps.last();
        assert forall|i: int| 0 <= i < before.len() implies (#[trigger] before[i]).len() > 0 by {
            assert(ps[i].len() > 0);
        }
        lemma_pack(before, max);
        let st = pack(before, max);
        let now = pack(ps, max);
        assert(ps[ps.len() - 1].len() > 0);
        assert(ps.contains(p));
        assert forall|t: Seq<char>| before.contains(t) implies ps.contains(t) by {
            let k = choose|k: int| 0 <= k < before.len() && before[k] == t;
            assert(ps[k] == t);
        }
        assert(now.texts().drop_last() =~= now.full);
        if st.open.len() == 0 {
            assert(st.texts() =~= st.full);
        } else {
            assert(st.texts().drop_last() =~= st.full);
            assert(st.texts()[st.full.len() as int] == st.open);
            if words(st.open).len() + words(p).len() > max {
                assert(now.full =~= st.texts());
            } else {
                lemma_gap(st.open, p);
                assert(all_words(now.texts()) =~= all_words(st.full) + (words(st.open) + words(p)));
            }
        }
        assert forall|i: int| 0 <= i < now.texts().len() implies ({
            let t = #[trigger] now.texts()[i];
            t.len() > 0 && (words(t).len() <= max || ps.contains(t))
        }) by {
            if i < st.full.len() {
                assert(now.texts()[i] == st.texts()[i]);
            } else if i < now.full.len() {
                assert(now.texts()[i] == st.open);
            }
        }
    }
}

/// Splitting loses no word and keeps all of them in order.
pub proof fn law_splitting_keeps_words(s: SectionView, config: ChunkConfig)
    ensures
        all_words(texts(split_large(s, config))) == words(s.text),
{
    let max = config.max_words as nat;
    if words(s.text).len() <= max {
        assert(texts(split_large(s, config)) =~= seq![s.text]);
        lemma_all_words_one(s.text);
    } else {
        let ps = pieces(s.text, "\n\n"@);
        lemma_pieces_words(s.text);
        lemma_paragraph_words(ps);
        assert forall|i: int| 0 <= i < paragraphs(ps).len() implies (
        #[trigger] paragraphs(ps)[i]).len() > 0 by {}
        lemma_pack(paragraphs(ps), max);
        assert(texts(split_large(s, config)) =~= split_text(s.text, max));
    }
}

/// What splitting leaves has at most the maximum of words, unless it is a
/// single paragraph; and it is never empty, unless it is the section itself.
pub proof fn law_splitting_respects_max(s: SectionView, config: ChunkConfig)
    ensures
        forall|i: int|
            0 <= i < split_large(s, config).len() ==> {
                let t = (#[trigger] split_large(s, config)[i]).text;
                ||| words(t).len() <= config.max_words
                ||| paragraphs(pieces(s.text, "\n\n"@)).contains(t)
            },
        words(s.text).len() > config.max_words ==> forall|i: int|
            0 <= i < split_large(s, config).len() ==> (
            #[trigger] split_large(s, config)[i]).text.len() > 0,
{
    let max = config.max_words as nat;
    if words(s.text).len() > max {
        let ps = pieces(s.text, "\n\n"@);
        lemma_paragraph_words(ps);
        assert forall|i: int| 0 <= i < paragraphs(ps).len() implies (
        #[trigger] paragraphs(ps)[i]).len() > 0 by {}
        lemma_pack(paragraphs(ps), max);
        assert forall|i: int| 0 <= i < split_large(s, config).len() implies ({
            let t = (#[trigger] split_large(s, config)[i]).text;
            t.len() > 0 && (words(t).len() <= config.max_words || paragraphs(ps).contains(t))
        }) by {
            assert(split_large(s, config)[i].text == split_text(s.text, max)[i]);
        }
    }
}

/// Paragraphs have no white space around them.
pub proof fn lemma_paragraphs_trimmed(ps: Seq<Seq<char>>)
    ensures
        forall|t: Seq<char>| #[trigger] paragraphs(ps).contains(t) ==> trim(t) == t,
    decreases ps.len(),
{
    if ps.len() > 0 {
        lemma_paragraphs_trimmed(ps.drop_last());
        lemma_trim_ends(ps.last());
        let earlier = paragraphs(ps.drop_last());
        assert forall|t: Seq<char>| #[trigger] paragraphs(ps).contains(t) implies trim(t) == t by {
            let k = choose|k: int| 0 <= k < paragraphs(ps).len() && paragraphs(ps)[k] == t;
            if k < earlier.len() {
                assert(earlier[k] == t);
                assert(earlier.contains(t));
            }
        }
    }
}

/// What splitting leaves of a section with a word has a word each.
pub proof fn law_splitting_has_words(s: SectionView, config: ChunkConfig)
    requires
        words(s.text).len() > 0,
    ensures
        forall|i: int|
            0 <= i < split_large(s, config).len() ==> words(
                (#[trigger] split_large(s, config)[i]).text,
            ).len() > 0,
{
    let max = config.max_words as nat;
    if words(s.text).len() > max {
        let ps = pieces(s.text, "\n\n"@);
        lemma_paragraph_words(ps);
        lemma_pack_words(paragraphs(ps), max);
        assert forall|i: int| 0 <= i < split_large(s, config).len() implies words(
            (#[trigger] split_large(s, config)[i]).text,
        ).len() > 0 by {
            assert(split_large(s, config)[i].text == split_text(s.text, max)[i]);
        }
    }
}

proof fn lemma_pack_words(ps: Seq<Seq<char>>, max: nat)
    requires
        forall|i: int| 0 <= i < ps.len() ==> (#[trigger] ps[i]).len() > 0 && !is_white(ps[i][0]),
    ensures
        pack(ps, max).open.len() > 0 ==> words(pack(ps, max).open).len() > 0,
        forall|i: int|
            0 <= i < pack(ps, max).full.len() ==> words(
                #[trigger] pack(ps, max).full[i],
            ).len() > 0,
        forall|i: int|
            0 <= i < pack(ps, max).texts().len() ==> words(
                #[trigger] pack(ps, max).texts()[i],
            ).len() > 0,
    decreases ps.len(),
{
    if ps.len() > 0 {
        let before = ps.drop_last();
        let p = ps.last();
        assert(ps[ps.len() - 1].len() > 0);
        assert forall|i: int| 0 <= i < before.len() implies (#[trigger] before[i]).len() > 0
            && !is_white(before[i][0]) by {
            assert(before[i] == ps[i]);
        }
        lemma_pack_words(before, max);
        lemma_has_word(p);
        lemma_gap(pack(before, max).open, p);
    }
}

/// Merging sections with a word leaves sections with a word each.
pub proof fn law_merging_has_words(s: Seq<SectionView>, config: ChunkConfig)
    requires
        forall|i: int| 0 <= i < s.len() ==> words((#[trigger] s[i]).text).len() > 0,
    ensures
        forall|i: int|
            0 <= i < merge_small(s, config).len() ==> words(
                (#[trigger] merge_small(s, config)[i]).text,
            ).len() > 0,
    decreases s.len(),
{
    if s.len() > 0 {
        let (first, rest) = absorb(s[0].path, s[0], s.drop_first(), config);
        lemma_absorb_suffix(s[0].path, s[0], s.drop_first(), config);
        lemma_absorb_grows(s[0].path, s[0], s.drop_first(), config);
        assert forall|i: int| 0 <= i < rest.len() implies words(
            (#[trigger] rest[i]).text,
        ).len() > 0 by {
            let d = s.len() - rest.len();
            assert(rest[i] == s[d + i]);
        }
        law_merging_has_words(rest, config);
        let out = merge_small(s, config);
        assert forall|i: int| 0 <= i < out.len() implies words(
            (#[trigger] out[i]).text,
        ).len() > 0 by {
            if i > 0 {
                assert(out[i] == merge_small(rest, config)[i - 1]);
            }
        }
    }
}

proof fn lemma_absorb_grows(
    under: Seq<Seq<char>>,
    first: SectionView,
    rest: Seq<SectionView>,
    config: ChunkConfig,
)
    ensures
        words(absorb(under, first, rest, config).0.text).len() >= words(first.text).len(),
    decreases rest.len(),
{
    if rest.len() > 0 && takes_in(under, first, rest[0], config) {
        lemma_absorb_grows(under, merged(first, rest[0]), rest.drop_first(), config);
        lemma_gap(first.text, rest[0].text);
    }
}

/// A union begins with its first list, holds all of both and nothing else, and
/// repeats nothing that the first list does not repeat.
pub proof fn lemma_union(a: Seq<Seq<char>>, b: Seq<Seq<char>>)
    ensures
        a.is_prefix_of(union(a, b)),
        forall|t: Seq<char>| #[trigger] union(a, b).contains(t) <==> a.contains(t) || b.contains(t),
        a.no_duplicates() ==> union(a, b).no_duplicates(),
    decreases b.len(),
{
    let u = union(a, b);
    if b.len() > 0 {
        let b0 = b.drop_last();
        let u0 = union(a, b0);
        lemma_union(a, b0);
        assert forall|t: Seq<char>| #[trigger] u.contains(t) <==> a.contains(t) || b.contains(
            t,
        ) by {
            if b.contains(t) && t != b.last() {
                let k = choose|k: int| 0 <= k < b.len() && b[k] == t;
                assert(b0[k] == t);
                assert(b0.contains(t));
            }
            if b0.contains(t) {
                let k = choose|k: int| 0 <= k < b0.len() && b0[k] == t;
                assert(b[k] == t);
            }
            if !u0.contains(b.last()) {
                if u0.contains(t) {
                    let k = choose|k: int| 0 <= k < u0.len() && u0[k] == t;
                    assert(u[k] == t);
                }
                assert(u[u0.len() as int] == b.last());
                if u.contains(t) && t != b.last() {
                    let k = choose|k: int| 0 <= k < u.len() && u[k] == t;
                    assert(u0[k] == t);
                }
            }
            assert(b[b.len() - 1] == b.last());
            assert(u0.contains(t) <==> a.contains(t) || b0.contains(t));
        }
        if a.no_duplicates() && !u0.contains(b.last()) {
            assert forall|i: int, j: int| 0 <= i < u.len() && 0 <= j < u.len() && i
                != j implies u[i] != u[j] by {
                if i < u0.len() {
                    assert(u0.contains(u0[i]));
                }
                if j < u0.len() {
                    assert(u0.contains(u0[j]));
                }
            }
        }
    }
}

/// What of a text stands before its first empty line.
pub open spec fn first_paragraph(t: Seq<char>) -> Seq<char> {
    match find(t, "\n\n"@) {
        Some(i) => t.take(i as int),
        None => t,
    }
}

/// Whether some texts are some paragraphs, cut into runs: `cuts` are the
/// positions between which the paragraphs of each text stand.
pub open spec fn cut_at(ts: Seq<Seq<char>>, ps: Seq<Seq<char>>, cuts: Seq<int>) -> bool {
    &&& cuts.len() == ts.len() + 1
    &&& cuts[0] == 0
    &&& cuts.last() == ps.len()
    &&& forall|i: int| 0 <= i < ts.len() ==> is_run(#[trigger] ts[i], ps, cuts[i], cuts[i + 1])
}

/// Whether a text is the paragraphs from one position to another, with an empty
/// line between any two.
pub open spec fn is_run(t: Seq<char>, ps: Seq<Seq<char>>, from: int, to: int) -> bool {
    0 <= from < to <= ps.len() && t == join(ps.subrange(from, to), "\n\n"@)
}

/// Whether a text of this many paragraphs could not be made larger: with the
/// paragraph that follows it, it has more than `max` words.
pub open spec fn is_full(t: Seq<char>, next: Seq<char>, max: nat) -> bool {
    words(t).len() + words(next).len() > max
}

proof fn lemma_pack_cuts(ps: Seq<Seq<char>>, max: nat) -> (cuts: Seq<int>)
    requires
        forall|i: int| 0 <= i < ps.len() ==> (#[trigger] ps[i]).len() > 0,
    ensures
        cut_at(pack(ps, max).texts(), ps, cuts),
        forall|i: int|
            0 <= i < pack(ps, max).texts().len() - 1 ==> is_full(
                #[trigger] pack(ps, max).texts()[i],
                ps[cuts[i + 1]],
                max,
            ),
    decreases ps.len(),
{
    if ps.len() == 0 {
        seq![0int]
    } else {
        let before = ps.drop_last();
        let p = ps.last();
        let n = ps.len() as int;
        assert forall|i: int| 0 <= i < before.len() implies (#[trigger] before[i]).len() > 0 by {
            assert(ps[i].len() > 0);
        }
        let was = lemma_pack_cuts(before, max);
        lemma_pack(before, max);
        let st = pack(before, max);
        let now = pack(ps, max);
        assert(ps[n - 1].len() > 0);
        let ts = st.texts();
        let us = now.texts();
        if st.open.len() == 0 {
            let cuts = seq![0int, 1int];
            assert(ps.subrange(0, 1) =~= seq![p]);
            assert(us =~= seq![p]);
            assert(is_run(us[0], ps, 0, 1));
            cuts
        } else {
            let m = ts.len() as int;
            assert(ts[m - 1] == st.open);
            assert(is_run(ts[m - 1], before, was[m - 1], was[m]));
            if words(st.open).len() + words(p).len() > max {
                let cuts = was.push(n);
                assert(us =~= ts.push(p));
                assert forall|i: int| 0 <= i < us.len() implies is_run(
                    #[trigger] us[i],
                    ps,
                    cuts[i],
                    cuts[i + 1],
                ) by {
                    if i < m {
                        assert(is_run(ts[i], before, was[i], was[i + 1]));
                        assert(before.subrange(was[i], was[i + 1]) =~= ps.subrange(
                            was[i],
                            was[i + 1],
                        ));
                    } else {
                        assert(ps.subrange(n - 1, n) =~= seq![p]);
                    }
                }
                assert forall|i: int| 0 <= i < us.len() - 1 implies is_full(
                    #[trigger] us[i],
                    ps[cuts[i + 1]],
                    max,
                ) by {
                    assert(us[i] == ts[i]);
                    if i < m - 1 {
                        assert(is_full(ts[i], before[was[i + 1]], max));
                        assert(is_run(ts[i + 1], before, was[i + 1], was[i + 2]));
                    }
                }
                cuts
            } else {
                let cuts = was.update(m, n);
                assert(us =~= ts.update(m - 1, st.open + "\n\n"@ + p));
                assert forall|i: int| 0 <= i < us.len() implies is_run(
                    #[trigger] us[i],
                    ps,
                    cuts[i],
                    cuts[i + 1],
                ) by {
                    assert(is_run(ts[i], before, was[i], was[i + 1]));
                    if i < m - 1 {
                        assert(before.subrange(was[i], was[i + 1]) =~= ps.subrange(
                            was[i],
                            was[i + 1],
                        ));
                    } else {
                        let run = ps.subrange(was[i], n);
                        assert(run.drop_last() =~= before.subrange(was[i], was[i + 1]));
                        assert(run.last() == p);
                    }
                }
                assert forall|i: int| 0 <= i < us.len() - 1 implies is_full(
                    #[trigger] us[i],
                    ps[cuts[i + 1]],
                    max,
                ) by {
                    assert(us[i] == ts[i]);
                    assert(is_full(ts[i], before[was[i + 1]], max));
                    assert(is_run(ts[i + 1], before, was[i + 1], was[i + 2]));
                }
                cuts
            }
        }
    }
}

/// A section that is too large becomes runs of its paragraphs, in order and
/// complete, each run as long as it can be: with the paragraph that follows it,
/// it would be too large. The parts keep the section's headings and tags.
pub proof fn law_splitting_fills_its_parts(s: SectionView, config: ChunkConfig)
    requires
        words(s.text).len() > config.max_words,
    ensures
        ({
            let ts = texts(split_large(s, config));
            let ps = paragraphs(pieces(s.text, "\n\n"@));
            exists|cuts: Seq<int>| #[trigger] cut_at(ts, ps, cuts) && forall|i: int|
                0 <= i < ts.len() - 1 ==> is_full(
                    #[trigger] ts[i],
                    ps[cuts[i + 1]],
                    config.max_words as nat,
                )
        }),
        forall|i: int|
            0 <= i < split_large(s, config).len() ==> (#[trigger] split_large(s, config)[i]).path
                == s.path && split_large(s, config)[i].tags == s.tags,
{
    let ps = paragraphs(pieces(s.text, "\n\n"@));
    lemma_paragraph_words(pieces(s.text, "\n\n"@));
    assert forall|i: int| 0 <= i < ps.len() implies (#[trigger] ps[i]).len() > 0 by {}
    let cuts = lemma_pack_cuts(ps, config.max_words as nat);
    assert(texts(split_large(s, config)) =~= split_text(s.text, config.max_words as nat));
}

/// A section that is not too large stays as it is.
pub proof fn law_fitting_sections_stay(s: SectionView, config: ChunkConfig)
    requires
        words(s.text).len() <= config.max_words,
    ensures
        split_large(s, config) == seq![s],
{
}

/// Paragraphs are what stands between empty lines, trimmed, in order, without
/// what is blank; there is no empty line in any.
pub proof fn law_paragraphs_stand_between_empty_lines(text: Seq<char>)
    ensures
        paragraphs(pieces(text, "\n\n"@)) == pieces(text, "\n\n"@).map_values(
            |p: Seq<char>| trim(p),
        ).filter(|p: Seq<char>| p.len() > 0),
        join(pieces(text, "\n\n"@), "\n\n"@) == text,
        forall|i: int|
            0 <= i < paragraphs(pieces(text, "\n\n"@)).len() ==> find(
                #[trigger] paragraphs(pieces(text, "\n\n"@))[i],
                "\n\n"@,
            ) is None,
{
    reveal_strlit("\n\n");
    law_pieces_join_again(text, "\n\n"@);
    lemma_paragraphs_filter(pieces(text, "\n\n"@));
    lemma_paragraphs_whole(pieces(text, "\n\n"@));
}

proof fn lemma_paragraphs_filter(ps: Seq<Seq<char>>)
    ensures
        paragraphs(ps) == ps.map_values(|p: Seq<char>| trim(p)).filter(
            |p: Seq<char>| p.len() > 0,
        ),
    decreases ps.len(),
{
    reveal(Seq::filter);
    let f = |p: Seq<char>| trim(p);
    if ps.len() > 0 {
        lemma_paragraphs_filter(ps.drop_last());
        assert(ps.map_values(f).drop_last() =~= ps.drop_last().map_values(f));
    } else {
        assert(paragraphs(ps) =~= ps.map_values(f).filter(|p: Seq<char>| p.len() > 0));
    }
}

/// Trimming brings no empty line about.
proof fn lemma_trim_no_gap(s: Seq<char>)
    requires
        find(s, "\n\n"@) is None,
    ensures
        find(trim(s), "\n\n"@) is None,
{
    let gap = "\n\n"@;
    law_trim_takes_white_off(s);
    let (i, j) = choose|i: int, j: int|
        0 <= i <= j <= s.len() && trim(s) == s.subrange(i, j) && #[trigger] white_around(s, i, j);
    lemma_find(trim(s), gap);
    lemma_find(s, gap);
    if let Some(k) = find(trim(s), gap) {
        assert(s.subrange(i + k, i + k + gap.len()) =~= trim(s).subrange(
            k as int,
            (k + gap.len()) as int,
        ));
        assert(occurs_at(s, gap, i + k));
    }
}

proof fn lemma_paragraphs_whole(ps: Seq<Seq<char>>)
    requires
        forall|i: int| 0 <= i < ps.len() ==> find(#[trigger] ps[i], "\n\n"@) is None,
    ensures
        forall|i: int|
            0 <= i < paragraphs(ps).len() ==> find(
                #[trigger] paragraphs(ps)[i],
                "\n\n"@,
            ) is None,
    decreases ps.len(),
{
    if ps.len() > 0 {
        let few = ps.drop_last();
        assert forall|i: int| 0 <= i < few.len() implies find(
            #[trigger] few[i],
            "\n\n"@,
        ) is None by {
            assert(find(ps[i], "\n\n"@) is None);
        }
        lemma_paragraphs_whole(few);
        assert(find(ps[ps.len() - 1], "\n\n"@) is None);
        lemma_trim_no_gap(ps.last());
        assert forall|i: int| 0 <= i < paragraphs(ps).len() implies find(
            #[trigger] paragraphs(ps)[i],
            "\n\n"@,
        ) is None by {
            if i < paragraphs(few).len() {
                assert(paragraphs(ps)[i] == paragraphs(few)[i]);
            }
        }
    }
}

/// Of paragraphs with an empty line between any two, the first stands before the
/// first empty line.
proof fn lemma_first_of_run(ps: Seq<Seq<char>>)
    requires
        ps.len() > 0,
        find(ps[0], "\n\n"@) is None,
        ps[0].len() > 0 && !is_white(ps[0].last()),
    ensures
        first_paragraph(join(ps, "\n\n"@)) == ps[0],
{
    let gap = "\n\n"@;
    reveal_strlit("\n\n");
    let all = join(ps, gap);
    let p = ps[0];
    law_join_begins_with_its_first(ps, gap);
    lemma_find(p, gap);
    if ps.len() > 1 {
        let n = p.len() as int;
        assert(all.take(n) =~= p);
        assert(occurs_at(all, gap, n)) by {
            assert(all.subrange(n, n + 2) =~= gap);
        }
        assert forall|j: int| 0 <= j < n implies !#[trigger] occurs_at(all, gap, j) by {
            if occurs_at(all, gap, j) {
                assert(all.subrange(j, j + 2)[0] == '\n' && all.subrange(j, j + 2)[1] == '\n');
                assert(all[j] == '\n' && all[j + 1] == '\n');
                assert(all[j] == p[j]);
                if j == n - 1 {
                    assert(is_white(p.last()));
                } else {
                    assert(all[j + 1] == p[j + 1]);
                    assert(p.subrange(j, j + 2) =~= gap);
                    assert(occurs_at(p, gap, j));
                }
            }
        }
        lemma_find_is(all, gap, n);
    }
}

/// Splitting is no finer than needed: of any two neighbouring texts, the first
/// and the first paragraph of the second are too large together.
pub proof fn law_splitting_is_no_finer_than_needed(s: SectionView, config: ChunkConfig, i: int)
    requires
        words(s.text).len() > config.max_words,
        0 <= i < split_large(s, config).len() - 1,
    ensures
        words(split_large(s, config)[i].text).len() + words(
            first_paragraph(split_large(s, config)[i + 1].text),
        ).len() > config.max_words,
{
    let ts = texts(split_large(s, config));
    let pcs = pieces(s.text, "\n\n"@);
    let ps = paragraphs(pcs);
    law_splitting_fills_its_parts(s, config);
    law_paragraphs_stand_between_empty_lines(s.text);
    lemma_paragraph_words(pcs);
    lemma_paragraphs_trimmed(pcs);
    let cuts = choose|cuts: Seq<int>| #[trigger] cut_at(ts, ps, cuts) && forall|i: int|
        0 <= i < ts.len() - 1 ==> is_full(
            #[trigger] ts[i],
            ps[cuts[i + 1]],
            config.max_words as nat,
        );
    assert(is_full(ts[i], ps[cuts[i + 1]], config.max_words as nat));
    assert(is_run(ts[i + 1], ps, cuts[i + 1], cuts[i + 2]));
    let run = ps.subrange(cuts[i + 1], cuts[i + 2]);
    assert(run[0] == ps[cuts[i + 1]]);
    assert(ps.contains(run[0]));
    lemma_trim_ends(run[0]);
    lemma_first_of_run(run);
}

/// Sections are siblings if one heading stands last in each path and all above it
/// are the same.
pub proof fn law_siblings_share_their_parent(
    parent: Seq<Seq<char>>,
    a: Seq<char>,
    b: Seq<char>,
    p: Seq<Seq<char>>,
    q: Seq<Seq<char>>,
)
    ensures
        siblings(parent.push(a), parent.push(b)),
        siblings(p, q) ==> p.len() > 0 && q.len() > 0 && q == p.drop_last().push(q.last()),
        !siblings(seq![], p) && !siblings(p, seq![]),
{
    assert(parent.push(a).drop_last() =~= parent);
    assert(parent.push(b).drop_last() =~= parent);
    if siblings(p, q) {
        assert(q =~= q.drop_last().push(q.last()));
    }
}

/// What a union adds to its first list stands behind it in the order of the second
/// list, each once.
pub proof fn law_union_adds_in_order(a: Seq<Seq<char>>, b: Seq<Seq<char>>, x: Seq<char>)
    ensures
        union(a, seq![]) == a,
        a.contains(x) || b.contains(x) ==> union(a, b.push(x)) == union(a, b),
        !a.contains(x) && !b.contains(x) ==> union(a, b.push(x)) == union(a, b).push(x),
{
    lemma_union(a, b);
    assert(b.push(x).drop_last() =~= b);
    assert(union(a, b).contains(x) <==> a.contains(x) || b.contains(x));
}

/// Whether all paths are the first one.
pub open spec fn one_path(s: Seq<SectionView>) -> bool {
    forall|k: int| 0 <= k < s.len() ==> (#[trigger] s[k]).path == s[0].path
}

/// Whether the first `k` sections take in the next one: they are small so far, the
/// next is a sibling of the first, and with it they are no larger than meant.
pub open spec fn wants_next(s: Seq<SectionView>, k: int, config: ChunkConfig) -> bool {
    &&& all_words(texts(s.take(k))).len() < config.min_words
    &&& siblings(s[0].path, s[k].path)
    &&& all_words(texts(s.take(k + 1))).len() <= config.target_words
}

/// Whether a section is some sections as one: their texts with an empty line
/// between any two, all their tags, and the headings that they share.
pub open spec fn is_whole(whole: SectionView, s: Seq<SectionView>) -> bool {
    &&& s.len() > 0
    &&& whole.text == join(texts(s), "\n\n"@)
    &&& whole.path == (if one_path(s) {
        s[0].path
    } else {
        s[0].path.drop_last()
    })
    &&& forall|t: Seq<char>| #[trigger] whole.tags.contains(t) <==> tagged(s, t)
    &&& s[0].tags.is_prefix_of(whole.tags)
}

/// Whether one of some sections has a tag.
pub open spec fn tagged(s: Seq<SectionView>, t: Seq<char>) -> bool {
    exists|k: int| 0 <= k < s.len() && (#[trigger] s[k]).tags.contains(t)
}

/// Whether so many sections from the first on belong together: each of them but
/// the first was wanted by those before it, and the one behind them is not.
pub open spec fn belong(s: Seq<SectionView>, n: int, config: ChunkConfig) -> bool {
    &&& 1 <= n <= s.len()
    &&& forall|k: int| 1 <= k < n ==> #[trigger] wants_next(s, k, config)
    &&& n < s.len() ==> !wants_next(s, n, config)
}

proof fn lemma_join_words(ts: Seq<Seq<char>>)
    ensures
        words(join(ts, "\n\n"@)) == all_words(ts),
    decreases ts.len(),
{
    if ts.len() == 0 {
        assert(words(join(ts, "\n\n"@)) =~= all_words(ts));
    } else if ts.len() == 1 {
        lemma_all_words_one(ts[0]);
        assert(ts =~= seq![ts[0]]);
    } else {
        lemma_join_words(ts.drop_last());
        lemma_gap(join(ts.drop_last(), "\n\n"@), ts.last());
    }
}

proof fn lemma_whole_next(whole: SectionView, s: Seq<SectionView>, k: int)
    requires
        1 <= k < s.len(),
        is_whole(whole, s.take(k)),
        forall|i: int| 1 <= i <= k ==> siblings(s[0].path, (#[trigger] s[i]).path),
    ensures
        is_whole(merged(whole, s[k]), s.take(k + 1)),
{
    let a = s.take(k);
    let b = s.take(k + 1);
    let now = merged(whole, s[k]);
    let p = s[0].path;
    let q = s[k].path;
    let parent = p.drop_last();
    assert(texts(b).drop_last() =~= texts(a));
    assert(texts(b).last() == s[k].text);
    assert(siblings(p, q));
    assert forall|i: int| 0 <= i < parent.len() implies whole.path[i] == q[i] by {
        assert(parent[i] == q.drop_last()[i]);
    }
    assert(a[0] == s[0] && b[0] == s[0]);
    if one_path(a) && q == p {
        assert(one_path(b)) by {
            assert forall|i: int| 0 <= i < b.len() implies (#[trigger] b[i]).path == b[0].path by {
                if i < k {
                    assert(a[i] == b[i]);
                }
            }
        }
        lemma_shared(whole.path, q, p.len() as int);
        assert(whole.path.take(p.len() as int) =~= p);
    } else {
        assert(!one_path(b)) by {
            if one_path(b) {
                assert(b[k].path == b[0].path);
                assert forall|i: int| 0 <= i < a.len() implies (#[trigger] a[i]).path
                    == a[0].path by {
                    assert(a[i] == b[i]);
                }
            }
        }
        if one_path(a) {
            if p.last() == q.last() {
                assert(p =~= q);
            }
        }
        lemma_shared(whole.path, q, parent.len() as int);
        assert(whole.path.take(parent.len() as int) =~= parent);
    }
    lemma_union(whole.tags, s[k].tags);
    assert forall|t: Seq<char>| #[trigger] now.tags.contains(t) <==> tagged(b, t) by {
        assert(union(whole.tags, s[k].tags).contains(t) <==> whole.tags.contains(t)
            || s[k].tags.contains(t));
        if tagged(a, t) {
            let i = choose|i: int| 0 <= i < a.len() && (#[trigger] a[i]).tags.contains(t);
            assert(b[i].tags.contains(t));
        }
        if s[k].tags.contains(t) {
            assert(b[k].tags.contains(t));
        }
        if tagged(b, t) {
            let i = choose|i: int| 0 <= i < b.len() && (#[trigger] b[i]).tags.contains(t);
            if i < k {
                assert(a[i].tags.contains(t));
            }
        }
    }
    assert(s[0].tags.is_prefix_of(now.tags)) by {
        assert(s[0].tags =~= now.tags.take(s[0].tags.len() as int));
    }
}

proof fn lemma_absorb_takes(
    s: Seq<SectionView>,
    k: int,
    whole: SectionView,
    config: ChunkConfig,
) -> (n: int)
    requires
        1 <= k <= s.len(),
        is_whole(whole, s.take(k)),
        forall|i: int| 1 <= i < k ==> #[trigger] wants_next(s, i, config),
    ensures
        belong(s, n, config),
        is_whole(absorb(s[0].path, whole, s.skip(k), config).0, s.take(n)),
        absorb(s[0].path, whole, s.skip(k), config).1 == s.skip(n),
    decreases s.len() - k,
{
    lemma_join_words(texts(s.take(k)));
    if k < s.len() {
        assert(texts(s.take(k + 1)) =~= texts(s.take(k)) + seq![s[k].text]);
        lemma_all_words_concat(texts(s.take(k)), seq![s[k].text]);
        lemma_all_words_one(s[k].text);
        assert(s.skip(k)[0] == s[k]);
        assert(takes_in(s[0].path, whole, s[k], config) == wants_next(s, k, config));
        if wants_next(s, k, config) {
            assert forall|i: int| 1 <= i <= k implies siblings(
                s[0].path,
                (#[trigger] s[i]).path,
            ) by {
                assert(wants_next(s, i, config));
            }
            lemma_whole_next(whole, s, k);
            assert(s.skip(k).drop_first() =~= s.skip(k + 1));
            lemma_absorb_takes(s, k + 1, merged(whole, s[k]), config)
        } else {
            k
        }
    } else {
        k
    }
}

/// Merging makes one section of as many as belong together from the first on, and
/// goes on in the same way behind them. A section that wants no other is left as
/// it is.
pub proof fn law_merging_takes_what_belongs_together(s: Seq<SectionView>, config: ChunkConfig)
    requires
        s.len() > 0,
    ensures
        exists|n: int| #[trigger]
            belong(s, n, config) && merge_small(s, config).len() > 0 && is_whole(
                merge_small(s, config)[0],
                s.take(n),
            ) && merge_small(s, config).drop_first() == merge_small(s.skip(n), config) && (n == 1
                ==> merge_small(s, config)[0] == s[0]),
{
    let one = s.take(1);
    assert(texts(one) =~= seq![s[0].text]);
    assert(is_whole(s[0], one)) by {
        assert forall|t: Seq<char>| #[trigger] s[0].tags.contains(t) <==> tagged(one, t) by {
            if s[0].tags.contains(t) {
                assert(one[0].tags.contains(t));
            }
        }
        assert(s[0].tags =~= s[0].tags.take(s[0].tags.len() as int));
        assert(one_path(one));
    }
    let n = lemma_absorb_takes(s, 1, s[0], config);
    assert(s.skip(1) =~= s.drop_first());
    lemma_absorb_shrinks(s[0].path, s[0], s.drop_first(), config);
    assert(merge_small(s, config).drop_first() =~= merge_small(s.skip(n), config));
    if n == 1 {
        lemma_absorb_suffix(s[0].path, s[0], s.drop_first(), config);
        if takes_in(s[0].path, s[0], s.drop_first()[0], config) && s.len() > 1 {
            lemma_absorb_shrinks(
                s[0].path,
                merged(s[0], s[1]),
                s.drop_first().drop_first(),
                config,
            );
        }
    }
}

/// What splitting a section gives back: a section that fits, as it is; the parts of
/// one that does not, none finer than needed, each under its headings and with its
/// tags.
pub proof fn law_split_section(section: &Section, config: &ChunkConfig, out: Vec<Section>, i: int)
    requires
        call_ensures(split_oversize, (section, config), out),
    ensures
        words(section.text@).len() <= config.max_words ==> section_views(out@) == seq![section@],
        all_words(texts(section_views(out@))) == words(section.text@),
        0 <= i < out@.len() ==> {
            &&& out@[i]@.path == section@.path
            &&& out@[i]@.tags == section@.tags
            &&& words(section.text@).len() > config.max_words ==> words(out@[i].text@).len()
                <= config.max_words || paragraphs(pieces(section.text@, "\n\n"@)).contains(
                out@[i].text@,
            )
        },
        0 <= i < out@.len() - 1 ==> words(out@[i].text@).len() + words(
            first_paragraph(out@[i + 1].text@),
        ).len() > config.max_words,
{
    let s = section@;
    law_splitting_keeps_words(s, *config);
    law_splitting_respects_max(s, *config);
    if words(s.text).len() > config.max_words {
        law_splitting_fills_its_parts(s, *config);
        if 0 <= i < out@.len() - 1 {
            law_splitting_is_no_finer_than_needed(s, *config, i);
            assert(section_views(out@)[i + 1] == out@[i + 1]@);
        }
    } else {
        law_fitting_sections_stay(s, *config);
    }
    if 0 <= i < out@.len() {
        assert(section_views(out@)[i] == out@[i]@);
    }
}

/// What merging sections gives back: the first is as many as belong together, and
/// no word is lost.
pub proof fn law_merge_sections(sections: &Vec<Section>, config: &ChunkConfig, out: Vec<Section>)
    requires
        call_ensures(merge_small_siblings, (sections, config), out),
        sections@.len() > 0,
    ensures
        all_words(texts(section_views(out@))) == all_words(texts(section_views(sections@))),
        out@.len() > 0,
        exists|n: int| #[trigger]
            belong(section_views(sections@), n, *config) && is_whole(
                out@[0]@,
                section_views(sections@).take(n),
            ),
{
    law_merging_keeps_words(section_views(sections@), *config);
    law_merging_takes_what_belongs_together(section_views(sections@), *config);
    assert(section_views(out@)[0] == out@[0]@);
}

} // verus!
