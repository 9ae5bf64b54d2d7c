//! From a note's markdown to the chunks that cards are proposed for.

pub mod chunks;
pub mod entries;
pub mod frontmatter;
pub mod obsidian;
pub mod sections;
pub mod tags;

use vstd::prelude::*;

use crate::error::{AppError, ErrorView};
use crate::llm::{chunk_views, ChunkContext, ChunkView};
use crate::model::copy_strings;
use crate::text::{
    all_words, blank, chars_of, chop_return, find, is_white, join, joined, lemma_all_words_concat,
    lemma_blank_words, lemma_find, lemma_has_word, lemma_lines_hold,
    lemma_lines_of_unlines, lemma_lines_words, lemma_trim_blank, lemma_trim_ends,
    lemma_unlines_words, lemma_words_trim, lines, occurs_at, pieces, string_of, trim, trimmed,
    unlines, views, words,
};

pub use self::chunks::ChunkConfig;
use self::chunks::{
    add_missing, law_merging_has_words, law_merging_keeps_words, law_splitting_has_words,
    law_splitting_keeps_words, law_splitting_respects_max, lemma_paragraphs_trimmed, lemma_union,
    merge_small, merge_small_siblings, paragraphs, section_views, split_large, split_oversize,
    texts, union, Section, SectionView,
};
use self::frontmatter::{note_settings, parse_frontmatter, split_frontmatter, split_note};
use self::obsidian::{
    law_no_link_no_change, law_quotes_keep_their_text, obsidian_transform, plain_callout,
    plain_callouts, plain_links, strip_callout_markers,
};
use self::sections::{
    bodies, collect_sections, heading, is_section, kept_lines, law_blank_body_has_no_sections,
    law_sections_keep_words, law_sections_stand_under_their_headings, raw_views, sections,
    stands_in, RawSection, RawView,
};
use self::tags::{extract_inline_tags, inline_tags};

verus! {

// ---------- the model ----------

/// A section in plain text: no callout markers, links as they read, and the
/// tags of its prose.
pub open spec fn plain_section(raw: RawView) -> SectionView {
    SectionView {
        path: raw.path,
        text: plain_links(plain_callouts(lines(raw.body))),
        tags: inline_tags(raw.body),
    }
}

/// The sections in plain text, without those that are blank then.
pub open spec fn plain_sections(raws: Seq<RawView>) -> Seq<SectionView>
    decreases raws.len(),
{
    if raws.len() == 0 {
        seq![]
    } else if trim(plain_section(raws.last()).text).len() == 0 {
        plain_sections(raws.drop_last())
    } else {
        plain_sections(raws.drop_last()).push(plain_section(raws.last()))
    }
}

/// The sections with the large ones split.
pub open spec fn split_all(s: Seq<SectionView>, config: ChunkConfig) -> Seq<SectionView>
    decreases s.len(),
{
    if s.len() == 0 {
        seq![]
    } else {
        split_all(s.drop_last(), config) + split_large(s.last(), config)
    }
}

/// The sections of a body, in plain text and to size.
pub open spec fn sized_sections(body: Seq<char>, config: ChunkConfig) -> Seq<SectionView> {
    split_all(merge_small(plain_sections(sections(body)), config), config)
}

/// The chunk that a section becomes.
pub open spec fn chunk_of(s: SectionView, tags: Seq<Seq<char>>, file: Seq<char>) -> ChunkView {
    ChunkView {
        source_file: file,
        source_heading: if s.path.len() == 0 {
            None
        } else {
            Some(join(s.path, " > "@))
        },
        tags: union(tags, s.tags),
        text: trim(s.text),
    }
}

/// The chunks of a note's body; `tags` are those of the whole note.
pub open spec fn body_chunks(
    body: Seq<char>,
    tags: Seq<Seq<char>>,
    file: Seq<char>,
    config: ChunkConfig,
) -> Seq<ChunkView> {
    sized_sections(body, config).map_values(|s: SectionView| chunk_of(s, tags, file))
}

/// The chunks of a note, or why its frontmatter does not parse.
pub open spec fn note_chunks(content: Seq<char>, file: Seq<char>, config: ChunkConfig) -> Result<
    Seq<ChunkView>,
    ErrorView,
> {
    let (yaml, body) = split_note(content);
    match note_settings(yaml) {
        Ok((excluded, tags)) => if excluded {
            Ok(seq![])
        } else {
            Ok(body_chunks(body, tags, file, config))
        },
        Err(e) => Err(ErrorView::Parse(e)),
    }
}

/// The chunks inside a result, or the error.
pub open spec fn chunks_result_view(r: Result<Vec<ChunkContext>, AppError>) -> Result<
    Seq<ChunkView>,
    ErrorView,
> {
    match r {
        Ok(v) => Ok(chunk_views(v@)),
        Err(e) => Err(e@),
    }
}

// ---------- the code ----------

/// Brings sections into plain text and drops those that are blank then.
fn to_plain(raws: &Vec<RawSection>) -> (out: Vec<Section>)
    ensures
        section_views(out@) == plain_sections(raw_views(raws@)),
{
    let ghost all = raw_views(raws@);
    let mut out: Vec<Section> = Vec::new();
    let n = raws.len();
    assert(section_views(out@) =~= plain_sections(all.take(0)));
    for i in 0..n
        invariant
            n == raws@.len(),
            all == raw_views(raws@),
            section_views(out@) == plain_sections(all.take(i as int)),
    {
        let raw = &raws[i];
        let text = obsidian_transform(strip_callout_markers(raw.body.as_str()).as_str());
        assert(all.take(i + 1).drop_last() =~= all.take(i as int));
        let ghost before = out@;
        let chars = chars_of(text.as_str());
        if trimmed(&chars).len() > 0 {
            let section = Section {
                heading_path: copy_strings(&raw.heading_path),
                text,
                tags: extract_inline_tags(raw.body.as_str()),
            };
            out.push(section);
            assert(section_views(out@) =~= section_views(before).push(section@));
        }
    }
    assert(all.take(n as int) =~= all);
    out
}

/// The chunk that a section becomes.
fn to_chunk(section: &Section, tags: &Vec<String>, source_file: &str) -> (c: ChunkContext)
    ensures
        c@ == chunk_of(section@, views(tags@), source_file@),
{
    let mut all_tags = copy_strings(tags);
    add_missing(&mut all_tags, &section.tags);
    let heading = if section.heading_path.len() == 0 {
        None
    } else {
        Some(joined(&section.heading_path, " > "))
    };
    let chars = chars_of(section.text.as_str());
    ChunkContext {
        source_file: source_file.to_string(),
        source_heading: heading,
        tags: all_tags,
        text: string_of(trimmed(&chars)),
    }
}

/// Parses a note's body into chunks; `tags` are those of the whole note.
pub fn ingest_body(
    body: &str,
    tags: &Vec<String>,
    source_file: &str,
    config: &ChunkConfig,
) -> (out: Vec<ChunkContext>)
    ensures
        chunk_views(out@) == body_chunks(body@, views(tags@), source_file@, *config),
{
    let plain = to_plain(&collect_sections(body));
    let merged = merge_small_siblings(&plain, config);
    let ghost all = section_views(merged@);
    let ghost chunked = |s: SectionView| chunk_of(s, views(tags@), source_file@);
    let mut out: Vec<ChunkContext> = Vec::new();
    let n = merged.len();
    assert(chunk_views(out@) =~= split_all(all.take(0), *config).map_values(chunked));
    for i in 0..n
        invariant
            n == merged@.len(),
            all == section_views(merged@),
            chunked == (|s: SectionView| chunk_of(s, views(tags@), source_file@)),
            chunk_views(out@) == split_all(all.take(i as int), *config).map_values(chunked),
    {
        let parts = split_oversize(&merged[i], config);
        let ghost before = chunk_views(out@);
        let ghost more = section_views(parts@);
        let m = parts.len();
        for j in 0..m
            invariant
                m == parts@.len(),
                more == section_views(parts@),
                chunked == (|s: SectionView| chunk_of(s, views(tags@), source_file@)),
                chunk_views(out@) == before + more.take(j as int).map_values(chunked),
        {
            let ghost done = out@;
            let chunk = to_chunk(&parts[j], tags, source_file);
            out.push(chunk);
            assert(chunk_views(out@) =~= chunk_views(done).push(chunk@));
            assert(chunk_views(out@) =~= before + more.take(j + 1).map_values(chunked));
        }
        assert(more.take(m as int) =~= more);
        assert(all.take(i + 1).drop_last() =~= all.take(i as int));
        assert(chunk_views(out@) =~= split_all(all.take(i + 1), *config).map_values(chunked));
    }
    assert(all.take(n as int) =~= all);
    out
}

/// Parses a note into chunks. `source_file` is recorded verbatim on each of
/// them.
pub fn ingest_text(content: &str, source_file: &str, config: &ChunkConfig) -> (r: Result<
    Vec<ChunkContext>,
    AppError,
>)
    ensures
        chunks_result_view(r) == note_chunks(content@, source_file@, *config),
{
    let (yaml, body) = split_frontmatter(content);
    let settings = match &yaml {
        Some(y) => parse_frontmatter(Some(y.as_str())),
        None => parse_frontmatter(None),
    };
    match settings {
        Ok((excluded, tags)) => if excluded {
            let none: Vec<ChunkContext> = Vec::new();
            assert(chunk_views(none@) =~= seq![]);
            Ok(none)
        } else {
            Ok(ingest_body(body.as_str(), &tags, source_file, config))
        },
        Err(e) => Err(e),
    }
}

// ---------- laws ----------

/// A note that asks to be left out gives no chunks.
pub proof fn law_excluded_note_gives_nothing(
    content: Seq<char>,
    file: Seq<char>,
    config: ChunkConfig,
    tags: Seq<Seq<char>>,
)
    ensures
        note_settings(split_note(content).0) == Ok::<_, Seq<char>>((true, tags)) ==> note_chunks(
            content,
            file,
            config,
        ) == Ok::<Seq<ChunkView>, ErrorView>(seq![]),
{
}

/// A body without a word gives no chunks.
pub proof fn law_blank_body_gives_nothing(
    body: Seq<char>,
    tags: Seq<Seq<char>>,
    file: Seq<char>,
    config: ChunkConfig,
)
    requires
        blank(body),
    ensures
        body_chunks(body, tags, file, config).len() == 0,
{
    law_blank_body_has_no_sections(body);
    reveal_with_fuel(plain_sections, 2);
    reveal_with_fuel(split_all, 2);
    reveal_with_fuel(merge_small, 2);
}

proof fn lemma_split_all_words(s: Seq<SectionView>, config: ChunkConfig)
    ensures
        all_words(texts(split_all(s, config))) == all_words(texts(s)),
    decreases s.len(),
{
    if s.len() > 0 {
        lemma_split_all_words(s.drop_last(), config);
        law_splitting_keeps_words(s.last(), config);
        let earlier = split_all(s.drop_last(), config);
        let more = split_large(s.last(), config);
        assert(texts(split_all(s, config)) =~= texts(earlier) + texts(more));
        lemma_all_words_concat(texts(earlier), texts(more));
        assert(texts(s).drop_last() =~= texts(s.drop_last()));
    } else {
        assert(texts(split_all(s, config)) =~= texts(s));
    }
}

proof fn lemma_trimmed_words(ts: Seq<Seq<char>>)
    ensures
        all_words(ts.map_values(|t: Seq<char>| trim(t))) == all_words(ts),
    decreases ts.len(),
{
    let f = |t: Seq<char>| trim(t);
    if ts.len() > 0 {
        lemma_trimmed_words(ts.drop_last());
        lemma_words_trim(ts.last());
        assert(ts.map_values(f).drop_last() =~= ts.drop_last().map_values(f));
    } else {
        assert(ts.map_values(f) =~= ts);
    }
}

/// The texts of some chunks.
pub open spec fn chunk_texts(c: Seq<ChunkView>) -> Seq<Seq<char>> {
    c.map_values(|x: ChunkView| x.text)
}

/// The chunks of a body hold every word of its sections in plain text, in
/// order: merging and splitting lose nothing.
pub proof fn law_chunks_keep_words(
    body: Seq<char>,
    tags: Seq<Seq<char>>,
    file: Seq<char>,
    config: ChunkConfig,
)
    ensures
        all_words(chunk_texts(body_chunks(body, tags, file, config))) == all_words(
            texts(plain_sections(sections(body))),
        ),
{
    let plain = plain_sections(sections(body));
    let merged = merge_small(plain, config);
    let sized = split_all(merged, config);
    law_merging_keeps_words(plain, config);
    lemma_split_all_words(merged, config);
    lemma_trimmed_words(texts(sized));
    assert(chunk_texts(body_chunks(body, tags, file, config)) =~= texts(sized).map_values(
        |t: Seq<char>| trim(t),
    ));
}

/// Whether a line has no markup but that of headings: it is no quote, and it
/// opens no link.
pub open spec fn unmarked(line: Seq<char>) -> bool {
    &&& line.len() > 0 ==> line[0] != '>'
    &&& find(line, "[["@) is None
}

spec fn opens_at(s: Seq<char>, i: int) -> bool {
    s[i] == '[' && s[i + 1] == '['
}

proof fn lemma_no_link(s: Seq<char>)
    ensures
        find(s, "[["@) is None <==> forall|i: int|
            0 <= i < s.len() - 1 ==> !#[trigger] opens_at(s, i),
{
    reveal_strlit("[[");
    lemma_find(s, "[["@);
    if find(s, "[["@) is None {
        assert forall|i: int| 0 <= i < s.len() - 1 implies !#[trigger] opens_at(s, i) by {
            if opens_at(s, i) {
                assert(s.subrange(i, i + 2) =~= "[["@);
                assert(occurs_at(s, "[["@, i));
            }
        }
    } else {
        let i = find(s, "[["@).unwrap() as int;
        assert(s.subrange(i, i + 2)[0] == '[' && s.subrange(i, i + 2)[1] == '[');
        assert(opens_at(s, i));
    }
}

proof fn lemma_unmarked_lines(ls: Seq<Seq<char>>)
    requires
        forall|i: int| 0 <= i < ls.len() ==> unmarked(#[trigger] ls[i]),
    ensures
        plain_callouts(ls) == unlines(ls),
        find(unlines(ls), "[["@) is None,
    decreases ls.len(),
{
    let t = unlines(ls);
    if ls.len() > 0 {
        let few = ls.drop_last();
        assert forall|i: int| 0 <= i < few.len() implies unmarked(#[trigger] few[i]) by {
            assert(unmarked(ls[i]));
        }
        lemma_unmarked_lines(few);
        let line = ls.last();
        assert(unmarked(ls[ls.len() - 1]));
        reveal_strlit(">");
        reveal_strlit("> ");
        assert(!occurs_at(line, "> "@, 0)) by {
            if occurs_at(line, "> "@, 0) {
                assert(line.subrange(0, 2)[0] == '>');
            }
        }
        assert(line != ">"@);
        assert(plain_callout(line) == line + seq!['\n']);
        assert(plain_callouts(ls) =~= t);
        let n = unlines(few).len() as int;
        lemma_unlines_words(few);
        lemma_no_link(unlines(few));
        lemma_no_link(line);
        assert forall|i: int| 0 <= i < t.len() - 1 implies !#[trigger] opens_at(t, i) by {
            if i < n - 1 {
                assert(!opens_at(unlines(few), i));
            } else if i == n - 1 {
                assert(t[i] == '\n');
            } else if i < t.len() - 2 {
                assert(!opens_at(line, i - n));
            } else {
                assert(t[i + 1] == '\n');
            }
        }
    }
    lemma_no_link(t);
}

proof fn lemma_unmarked_section(ls: Seq<Seq<char>>, raw: RawView)
    requires
        forall|i: int| 0 <= i < ls.len() ==> unmarked(#[trigger] ls[i]),
        forall|i: int| 0 <= i < ls.len() ==> !(#[trigger] ls[i]).contains('\n'),
        stands_in(ls, raw),
    ensures
        words(plain_section(raw).text) == words(raw.body),
{
    let (m, n) = choose|m: int, n: int| #[trigger] is_section(ls, raw, m, n);
    let sub = ls.subrange(m, n);
    assert forall|i: int| 0 <= i < sub.len() implies !(#[trigger] sub[i]).contains('\n') by {
        assert(!ls[m + i].contains('\n'));
    }
    lemma_lines_of_unlines(sub);
    let again = lines(raw.body);
    assert forall|i: int| 0 <= i < again.len() implies unmarked(#[trigger] again[i]) by {
        let line = ls[m + i];
        assert(sub[i] == line);
        assert(again[i] == chop_return(line));
        assert(unmarked(line));
        lemma_no_link(line);
        assert forall|j: int| 0 <= j < again[i].len() - 1 implies !#[trigger] opens_at(
            again[i],
            j,
        ) by {
            assert(!opens_at(line, j));
        }
        lemma_no_link(again[i]);
    }
    lemma_unmarked_lines(again);
    lemma_unlines_words(again);
    lemma_lines_words(raw.body);
}

proof fn lemma_plain_words(raws: Seq<RawView>)
    requires
        forall|i: int|
            0 <= i < raws.len() ==> words(plain_section(#[trigger] raws[i]).text) == words(
                raws[i].body,
            ),
    ensures
        all_words(texts(plain_sections(raws))) == all_words(bodies(raws)),
    decreases raws.len(),
{
    if raws.len() > 0 {
        let few = raws.drop_last();
        let last = plain_section(raws.last());
        assert forall|i: int| 0 <= i < few.len() implies words(
            plain_section(#[trigger] few[i]).text,
        ) == words(few[i].body) by {
            assert(few[i] == raws[i]);
        }
        lemma_plain_words(few);
        assert(raws[raws.len() - 1] == raws.last());
        assert(bodies(raws).drop_last() =~= bodies(few));
        lemma_trim_blank(last.text);
        if trim(last.text).len() == 0 {
            lemma_blank_words(last.text);
            assert(all_words(bodies(raws)) =~= all_words(bodies(few)));
        } else {
            assert(texts(plain_sections(raws)).drop_last() =~= texts(plain_sections(few)));
        }
    } else {
        assert(texts(plain_sections(raws)) =~= bodies(raws));
    }
}

proof fn lemma_all_kept(ls: Seq<Seq<char>>)
    requires
        forall|i: int| 0 <= i < ls.len() ==> heading(#[trigger] ls[i]) is None,
    ensures
        kept_lines(ls) == ls,
    decreases ls.len(),
{
    if ls.len() > 0 {
        let few = ls.drop_last();
        assert forall|i: int| 0 <= i < few.len() implies heading(#[trigger] few[i]) is None by {
            assert(heading(ls[i]) is None);
        }
        lemma_all_kept(few);
        assert(heading(ls[ls.len() - 1]) is None);
        assert(few.push(ls.last()) =~= ls);
    } else {
        assert(kept_lines(ls) =~= ls);
    }
}

/// Text without markup keeps its words, in order, from a note's body to its
/// chunks: all that is not in a heading is in a chunk; and where there are no
/// headings, the chunks hold just the words of the body.
pub proof fn law_unmarked_text_keeps_words(
    body: Seq<char>,
    tags: Seq<Seq<char>>,
    file: Seq<char>,
    config: ChunkConfig,
)
    requires
        forall|i: int| 0 <= i < lines(body).len() ==> unmarked(#[trigger] lines(body)[i]),
    ensures
        all_words(chunk_texts(body_chunks(body, tags, file, config))) == all_words(
            kept_lines(lines(body)),
        ),
        (forall|i: int|
            0 <= i < lines(body).len() ==> heading(#[trigger] lines(body)[i]) is None)
            ==> all_words(chunk_texts(body_chunks(body, tags, file, config))) == words(body),
{
    let raws = sections(body);
    law_sections_stand_under_their_headings(body);
    lemma_lines_hold(body);
    assert forall|i: int| 0 <= i < raws.len() implies words(
        plain_section(#[trigger] raws[i]).text,
    ) == words(raws[i].body) by {
        lemma_unmarked_section(lines(body), raws[i]);
    }
    lemma_plain_words(raws);
    law_chunks_keep_words(body, tags, file, config);
    law_sections_keep_words(body);
    lemma_lines_words(body);
    if forall|i: int| 0 <= i < lines(body).len() ==> heading(#[trigger] lines(body)[i]) is None {
        lemma_all_kept(lines(body));
    }
}

proof fn lemma_plain_not_blank(raws: Seq<RawView>)
    ensures
        forall|i: int|
            0 <= i < plain_sections(raws).len() ==> words(
                (#[trigger] plain_sections(raws)[i]).text,
            ).len() > 0,
    decreases raws.len(),
{
    if raws.len() > 0 {
        lemma_plain_not_blank(raws.drop_last());
        let text = plain_section(raws.last()).text;
        lemma_trim_ends(text);
        lemma_words_trim(text);
        let earlier = plain_sections(raws.drop_last());
        let now = plain_sections(raws);
        if trim(text).len() > 0 {
            lemma_has_word(trim(text));
            assert forall|i: int| 0 <= i < now.len() implies words(
                (#[trigger] now[i]).text,
            ).len() > 0 by {
                if i < earlier.len() {
                    assert(now[i] == earlier[i]);
                }
            }
        }
    }
}

proof fn lemma_split_all_not_blank(s: Seq<SectionView>, config: ChunkConfig)
    requires
        forall|i: int| 0 <= i < s.len() ==> words((#[trigger] s[i]).text).len() > 0,
    ensures
        forall|i: int|
            0 <= i < split_all(s, config).len() ==> words(
                (#[trigger] split_all(s, config)[i]).text,
            ).len() > 0,
        forall|i: int|
            0 <= i < split_all(s, config).len() ==> within_max(
                (#[trigger] split_all(s, config)[i]).text,
                s,
                config,
            ),
    decreases s.len(),
{
    if s.len() > 0 {
        let earlier = split_all(s.drop_last(), config);
        let more = split_large(s.last(), config);
        let all = split_all(s, config);
        assert forall|i: int| 0 <= i < s.drop_last().len() implies words(
            (#[trigger] s.drop_last()[i]).text,
        ).len() > 0 by {
            assert(words(s[i].text).len() > 0);
        }
        lemma_split_all_not_blank(s.drop_last(), config);
        law_splitting_respects_max(s.last(), config);
        law_splitting_has_words(s.last(), config);
        assert(words(s[s.len() - 1].text).len() > 0);
        assert forall|i: int| 0 <= i < all.len() implies words((#[trigger] all[i]).text).len() > 0
            && within_max(all[i].text, s, config) by {
            if i < earlier.len() {
                assert(all[i] == earlier[i]);
                if words(all[i].text).len() > config.max_words {
                    let k = choose|k: int|
                        0 <= k < s.drop_last().len() && paragraphs(
                            pieces((#[trigger] s.drop_last()[k]).text, "\n\n"@),
                        ).contains(all[i].text);
                    assert(s[k] == s.drop_last()[k]);
                }
            } else {
                assert(all[i] == more[i - earlier.len()]);
                assert(s.last() == s[s.len() - 1]);
            }
        }
    }
}

/// Whether a text is within the maximum of words, or a single paragraph of one
/// of the sections.
pub open spec fn within_max(t: Seq<char>, s: Seq<SectionView>, config: ChunkConfig) -> bool {
    words(t).len() <= config.max_words || exists|k: int|
        0 <= k < s.len() && paragraphs(pieces((#[trigger] s[k]).text, "\n\n"@)).contains(t)
}

/// A chunk's text is never blank, and has no white space around it.
pub proof fn law_chunk_texts_are_trimmed(
    body: Seq<char>,
    tags: Seq<Seq<char>>,
    file: Seq<char>,
    config: ChunkConfig,
)
    ensures
        forall|i: int|
            0 <= i < body_chunks(body, tags, file, config).len() ==> {
                let t = (#[trigger] body_chunks(body, tags, file, config)[i]).text;
                t.len() > 0 && !is_white(t[0]) && !is_white(t.last())
            },
{
    let plain = plain_sections(sections(body));
    let merged = merge_small(plain, config);
    let sized = split_all(merged, config);
    let out = body_chunks(body, tags, file, config);
    lemma_plain_not_blank(sections(body));
    law_merging_has_words(plain, config);
    lemma_split_all_not_blank(merged, config);
    assert forall|i: int| 0 <= i < out.len() implies ({
        let t = (#[trigger] out[i]).text;
        t.len() > 0 && !is_white(t[0]) && !is_white(t.last())
    }) by {
        assert(words(sized[i].text).len() > 0);
        lemma_trim_ends(sized[i].text);
        lemma_words_trim(sized[i].text);
        if trim(sized[i].text).len() == 0 {
            assert(words(trim(sized[i].text)).len() == 0);
        }
    }
}

/// A chunk has at most the maximum of words, unless it is a single paragraph.
pub proof fn law_chunks_respect_max(
    body: Seq<char>,
    tags: Seq<Seq<char>>,
    file: Seq<char>,
    config: ChunkConfig,
)
    ensures
        forall|i: int|
            0 <= i < body_chunks(body, tags, file, config).len() ==> within_max(
                (#[trigger] body_chunks(body, tags, file, config)[i]).text,
                merge_small(plain_sections(sections(body)), config),
                config,
            ),
{
    let plain = plain_sections(sections(body));
    let merged = merge_small(plain, config);
    let sized = split_all(merged, config);
    let out = body_chunks(body, tags, file, config);
    lemma_plain_not_blank(sections(body));
    law_merging_has_words(plain, config);
    lemma_split_all_not_blank(merged, config);
    assert forall|i: int| 0 <= i < out.len() implies within_max(
        (#[trigger] out[i]).text,
        merged,
        config,
    ) by {
        let t = sized[i].text;
        lemma_words_trim(t);
        if words(t).len() > config.max_words {
            let k = choose|k: int|
                0 <= k < merged.len() && paragraphs(
                    pieces((#[trigger] merged[k]).text, "\n\n"@),
                ).contains(t);
            lemma_paragraphs_trimmed(pieces(merged[k].text, "\n\n"@));
            assert(trim(t) == t);
        }
    }
}

/// Every chunk of a note carries the note's path and tags: the note's tags come
/// first, in order. Unless the note itself repeats a tag, none occurs twice.
pub proof fn law_chunks_carry_the_note(
    body: Seq<char>,
    tags: Seq<Seq<char>>,
    file: Seq<char>,
    config: ChunkConfig,
)
    ensures
        forall|i: int|
            0 <= i < body_chunks(body, tags, file, config).len() ==> {
                let c = #[trigger] body_chunks(body, tags, file, config)[i];
                &&& c.source_file == file
                &&& tags.is_prefix_of(c.tags)
                &&& (tags.no_duplicates() ==> c.tags.no_duplicates())
            },
{
    let sized = sized_sections(body, config);
    let out = body_chunks(body, tags, file, config);
    assert forall|i: int| 0 <= i < out.len() implies ({
        let c = #[trigger] out[i];
        &&& c.source_file == file
        &&& tags.is_prefix_of(c.tags)
        &&& (tags.no_duplicates() ==> c.tags.no_duplicates())
    }) by {
        lemma_union(tags, sized[i].tags);
    }
}

/// Sections in plain text come in the order of the sections, each once, and only
/// blank ones are left out.
pub proof fn law_only_blank_sections_are_left_out(raws: Seq<RawView>)
    ensures
        plain_sections(raws) == raws.map_values(|r: RawView| plain_section(r)).filter(
            |s: SectionView| trim(s.text).len() > 0,
        ),
    decreases raws.len(),
{
    reveal(Seq::filter);
    let f = |r: RawView| plain_section(r);
    let g = |s: SectionView| trim(s.text).len() > 0;
    if raws.len() > 0 {
        law_only_blank_sections_are_left_out(raws.drop_last());
        assert(raws.map_values(f).drop_last() =~= raws.drop_last().map_values(f));
    } else {
        assert(plain_sections(raws) =~= raws.map_values(f).filter(g));
    }
}

/// A section keeps its headings, and its tags are those of its lines as they stand
/// in the note.
pub proof fn law_plain_section_keeps_headings_and_tags(raw: RawView)
    ensures
        plain_section(raw).path == raw.path,
        plain_section(raw).tags == inline_tags(raw.body),
{
}

/// Quoted lines that open no callout and hold no link come out of a section whole,
/// without the mark of the quote.
pub proof fn law_quoted_section_reads_as_its_prose(path: Seq<Seq<char>>, qs: Seq<Seq<char>>)
    requires
        forall|i: int|
            0 <= i < qs.len() ==> !occurs_at(#[trigger] qs[i], "[!"@, 0) && !qs[i].contains('\n')
                && !qs[i].contains('\r'),
        find(unlines(qs), "[["@) is None,
    ensures
        plain_section(
            RawView { path, body: unlines(qs.map_values(|q: Seq<char>| "> "@ + q)) },
        ).text == unlines(qs),
{
    reveal_strlit("> ");
    let f = |q: Seq<char>| "> "@ + q;
    let ls = qs.map_values(f);
    assert forall|i: int| 0 <= i < ls.len() implies !(#[trigger] ls[i]).contains('\n')
        && chop_return(ls[i]) == ls[i] by {
        let q = qs[i];
        assert(!q.contains('\n') && !q.contains('\r'));
        assert(ls[i] == "> "@ + q);
        if ls[i].contains('\n') {
            let j = choose|j: int| 0 <= j < ls[i].len() && ls[i][j] == '\n';
            if j >= 2 {
                assert(q[j - 2] == '\n');
            }
        }
        if q.len() > 0 {
            assert(ls[i].last() == q.last());
            assert(q.contains(q.last()));
        } else {
            assert(ls[i].last() == ' ');
        }
    }
    lemma_lines_of_unlines(ls);
    assert(lines(unlines(ls)) =~= ls);
    assert forall|i: int| 0 <= i < qs.len() implies !occurs_at(#[trigger] qs[i], "[!"@, 0) by {}
    law_quotes_keep_their_text(qs);
    law_no_link_no_change(unlines(qs));
}

/// Each section is brought to size on its own, in order.
pub proof fn law_sections_are_split_one_by_one(
    a: Seq<SectionView>,
    s: SectionView,
    b: Seq<SectionView>,
    config: ChunkConfig,
)
    ensures
        split_all(a + seq![s] + b, config) == split_all(a, config) + split_large(s, config)
            + split_all(b, config),
    decreases b.len(),
{
    let all = a + seq![s] + b;
    if b.len() == 0 {
        assert(all.drop_last() =~= a);
        assert(split_all(all, config) =~= split_all(a, config) + split_large(s, config)
            + split_all(b, config));
    } else {
        assert(all.drop_last() =~= a + seq![s] + b.drop_last());
        law_sections_are_split_one_by_one(a, s, b.drop_last(), config);
        assert(split_all(all, config) =~= split_all(a, config) + split_large(s, config)
            + split_all(b, config));
    }
}

/// Whether some tags are those of two lists and no others.
pub open spec fn has_tags_of(all: Seq<Seq<char>>, a: Seq<Seq<char>>, b: Seq<Seq<char>>) -> bool {
    forall|t: Seq<char>| #[trigger] all.contains(t) <==> a.contains(t) || b.contains(t)
}

/// The chunks of a body are its sections in plain text, first merged and then
/// split; each carries the path of the note, the headings of its section from the
/// outermost on, the note's tags and then its own, and its text.
pub proof fn law_chunks_are_sections_to_size(
    body: Seq<char>,
    tags: Seq<Seq<char>>,
    file: Seq<char>,
    config: ChunkConfig,
)
    ensures
        ({
            let sized = split_all(merge_small(plain_sections(sections(body)), config), config);
            let out = body_chunks(body, tags, file, config);
            &&& out.len() == sized.len()
            &&& forall|i: int|
                0 <= i < out.len() ==> {
                    let c = #[trigger] out[i];
                    &&& c.text == trim(sized[i].text)
                    &&& c.source_file == file
                    &&& c.source_heading is None <==> sized[i].path.len() == 0
                    &&& c.source_heading matches Some(h) ==> h == join(sized[i].path, " > "@)
                    &&& has_tags_of(c.tags, tags, sized[i].tags)
                }
        }),
{
    let sized = sized_sections(body, config);
    let out = body_chunks(body, tags, file, config);
    assert forall|i: int| 0 <= i < out.len() implies has_tags_of(
        (#[trigger] out[i]).tags,
        tags,
        sized[i].tags,
    ) by {
        lemma_union(tags, sized[i].tags);
    }
}

/// A note that is not left out gives the chunks of its body, with its tags; one
/// whose frontmatter does not parse gives the error.
pub proof fn law_note_gives_the_chunks_of_its_body(
    content: Seq<char>,
    file: Seq<char>,
    config: ChunkConfig,
    tags: Seq<Seq<char>>,
)
    ensures
        note_settings(split_note(content).0) == Ok::<_, Seq<char>>((false, tags)) ==> note_chunks(
            content,
            file,
            config,
        ) == Ok::<Seq<ChunkView>, ErrorView>(
            body_chunks(split_note(content).1, tags, file, config),
        ),
        note_settings(split_note(content).0) matches Err(e) ==> note_chunks(content, file, config)
            == Err::<Seq<ChunkView>, ErrorView>(ErrorView::Parse(e)),
{
}

/// What taking a note in gives back: nothing for a note that is left out, an error
/// for one whose frontmatter does not parse, and else the chunks of its body, all
/// of them under the path that was given.
pub proof fn law_ingested_note(
    content: &str,
    file: &str,
    config: &ChunkConfig,
    r: Result<Vec<ChunkContext>, AppError>,
)
    requires
        call_ensures(ingest_text, (content, file, config), r),
    ensures
        match note_settings(split_note(content@).0) {
            Ok((excluded, tags)) => r matches Ok(chunks) && {
                &&& excluded ==> chunks@.len() == 0
                &&& !excluded ==> chunk_views(chunks@) == body_chunks(
                    split_note(content@).1,
                    tags,
                    file@,
                    *config,
                )
                &&& forall|i: int|
                    0 <= i < chunks@.len() ==> (#[trigger] chunks@[i]).source_file@ == file@
            },
            Err(e) => r matches Err(x) && x@ == ErrorView::Parse(e),
        },
{
    if let Ok((excluded, tags)) = note_settings(split_note(content@).0) {
        if let Ok(chunks) = r {
            assert(chunk_views(chunks@).len() == chunks@.len());
            if !excluded {
                law_chunks_carry_the_note(split_note(content@).1, tags, file@, *config);
                assert forall|i: int| 0 <= i < chunks@.len() implies (
                #[trigger] chunks@[i]).source_file@ == file@ by {
                    assert(chunk_views(chunks@)[i] == chunks@[i]@);
                }
            }
        }
    }
}

} // verus!
