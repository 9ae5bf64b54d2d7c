//! Notes into chunks: the edge cases of the parser and the chunker.

use studybuddy::ingest::chunks::{merge_small_siblings, Section};
use studybuddy::ingest::sections::collect_sections;
use studybuddy::ingest::tags::strip_code_regions;
use studybuddy::ingest::{ingest_text, ChunkConfig};
use studybuddy::llm::ChunkContext;
use studybuddy::text::word_count;
use std::collections::HashSet;

fn parse(content: &str) -> Vec<ChunkContext> {
    ingest_text(content, "note.md", &ChunkConfig::default()).unwrap()
}

// ---- frontmatter & opt-out ----

#[test]
fn frontmatter_exclude_skips_file() {
    let content = "---\nstudybuddy:\n  exclude: true\n---\n\n# Heading\n\nbody text here.\n";
    assert!(
        parse(content).is_empty(),
        "expected empty result, got {:#?}",
        parse(content)
    );
}

#[test]
fn frontmatter_tags_extracted_onto_chunks() {
    let content = "---\ntags: [math, calculus]\n---\n\n# Heading\n\nbody text.\n";
    let chunks = parse(content);
    assert_eq!(chunks.len(), 1, "expected one chunk, got {chunks:?}");
    let tags: HashSet<_> = chunks[0].tags.iter().cloned().collect();
    assert!(tags.contains("math"), "tags = {tags:?}");
    assert!(tags.contains("calculus"), "tags = {tags:?}");
}

#[test]
fn frontmatter_block_excluded_from_chunk_text() {
    let content = "---\ntags: [x]\n---\n\n# Heading\n\nbody text.\n";
    let chunks = parse(content);
    assert!(!chunks[0].text.contains("tags:"));
    assert!(!chunks[0].text.contains("---"));
}

#[test]
fn file_with_only_frontmatter_yields_no_chunks() {
    assert!(parse("---\ntags: [x]\n---\n").is_empty());
}

// ---- tag extraction ----

#[test]
fn inline_hashtag_extracted() {
    let chunks = parse("# H\n\nthis note covers #algebra topics.\n");
    assert!(
        chunks[0].tags.iter().any(|t| t == "algebra"),
        "tags = {:?}",
        chunks[0].tags
    );
}

#[test]
fn hierarchical_tags_preserved_verbatim() {
    let chunks = parse("# H\n\ntagged #math/calculus here.\n");
    assert!(
        chunks[0].tags.iter().any(|t| t == "math/calculus"),
        "tags = {:?}",
        chunks[0].tags
    );
}

#[test]
fn hashtags_in_fenced_code_block_are_not_tags() {
    let content = "# H\n\ntext\n\n```\n#not_a_tag\n```\n\nmore text.\n";
    let chunks = parse(content);
    assert!(
        !chunks[0].tags.iter().any(|t| t == "not_a_tag"),
        "code-block content should not be a tag: tags = {:?}",
        chunks[0].tags
    );
}

#[test]
fn hashtags_in_inline_code_are_not_tags() {
    let content = "# H\n\nuse `#not_a_tag` for the literal value.\n";
    let chunks = parse(content);
    assert!(
        !chunks[0].tags.iter().any(|t| t == "not_a_tag"),
        "inline-code content should not be a tag: tags = {:?}",
        chunks[0].tags
    );
}

#[test]
fn markdown_heading_does_not_become_a_tag() {
    let chunks = parse("## Section A\n\nbody.\n");
    assert!(
        !chunks[0].tags.iter().any(|t| t.contains("Section")),
        "heading text leaked as tag: {:?}",
        chunks[0].tags
    );
}

// ---- chunking by heading ----

#[test]
fn content_before_first_heading_has_none_heading() {
    let intro: String = "intro paragraph word ".repeat(60);
    let content = format!("{intro}\n\n# Heading\n\nbody text here.\n");
    let chunks = parse(&content);
    assert!(
        chunks.iter().any(|c| c.source_heading.is_none()),
        "no None-heading chunk in {chunks:?}"
    );
}

#[test]
fn distinct_large_leaf_headings_yield_separate_chunks() {
    let big: String = "word ".repeat(600);
    let content = format!("# Top\n\n## A\n\n{big}\n\n## B\n\n{big}\n");
    let chunks = parse(&content);
    let headings: HashSet<_> = chunks
        .iter()
        .filter_map(|c| c.source_heading.clone())
        .collect();
    assert!(
        headings.iter().any(|h| h.contains("A")),
        "headings = {headings:?}"
    );
    assert!(
        headings.iter().any(|h| h.contains("B")),
        "headings = {headings:?}"
    );
}

#[test]
fn empty_section_under_heading_does_not_emit_chunk() {
    let content =
        "# Top\n\n## Empty\n\n## NonEmpty\n\nactual content goes here in the second section.\n";
    let chunks = parse(content);
    let headings: HashSet<_> = chunks
        .iter()
        .filter_map(|c| c.source_heading.clone())
        .collect();
    assert!(
        !headings
            .iter()
            .any(|h| h.contains("Empty") && !h.contains("NonEmpty")),
        "empty section emitted chunk: {headings:?}"
    );
}

#[test]
fn heading_path_includes_ancestors() {
    let big: String = "word ".repeat(600);
    let content = format!("# Linear Algebra\n\n## Vectors\n\n### Dot Product\n\n{big}\n");
    let chunks = parse(&content);
    let h = chunks
        .iter()
        .find_map(|c| c.source_heading.clone())
        .expect("heading present");
    assert!(h.contains("Linear Algebra"), "h = {h}");
    assert!(h.contains("Vectors"), "h = {h}");
    assert!(h.contains("Dot Product"), "h = {h}");
}

// ---- Obsidian syntax ----

#[test]
fn wikilink_basic_keeps_target_text() {
    let chunks = parse("# H\n\nSee [[foo]] for details.\n");
    assert!(
        chunks[0].text.contains("foo"),
        "text = {:?}",
        chunks[0].text
    );
    assert!(
        !chunks[0].text.contains("[[foo]]"),
        "raw wikilink remained: {:?}",
        chunks[0].text
    );
}

#[test]
fn wikilink_with_alias_keeps_alias_only() {
    let chunks = parse("# H\n\nSee [[target|the alias]] for details.\n");
    assert!(
        chunks[0].text.contains("the alias"),
        "text = {:?}",
        chunks[0].text
    );
    assert!(
        !chunks[0].text.contains("[["),
        "raw wikilink remained: {:?}",
        chunks[0].text
    );
    assert!(
        !chunks[0].text.contains("target"),
        "non-aliased target leaked: {:?}",
        chunks[0].text
    );
}

#[test]
fn embed_is_dropped() {
    let chunks = parse("# H\n\nBefore ![[embedded-note]] After text.\n");
    assert!(
        !chunks[0].text.contains("![["),
        "embed syntax remained: {:?}",
        chunks[0].text
    );
    assert!(
        !chunks[0].text.contains("embedded-note"),
        "embed target leaked: {:?}",
        chunks[0].text
    );
    assert!(chunks[0].text.contains("Before"));
    assert!(chunks[0].text.contains("After"));
}

#[test]
fn callout_marker_stripped_content_preserved() {
    let content = "# H\n\n> [!note] Callout Title\n> callout body line.\n";
    let chunks = parse(content);
    assert!(chunks[0].text.contains("Callout Title"));
    assert!(chunks[0].text.contains("callout body line"));
    assert!(
        !chunks[0].text.contains("[!note]"),
        "callout marker remained: {:?}",
        chunks[0].text
    );
}

// ---- robustness ----

#[test]
fn empty_input_yields_no_chunks() {
    assert!(parse("").is_empty());
}

// ---- size-aware chunking ----

#[test]
fn small_siblings_merge_under_common_parent() {
    let small_a: String = "alpha alpha alpha alpha alpha ".repeat(4);
    let small_b: String = "beta beta beta beta beta ".repeat(4);
    let content = format!("# Top\n\n## Parent\n\n### A\n\n{small_a}\n\n### B\n\n{small_b}\n");
    let chunks = parse(&content);
    assert_eq!(
        chunks.len(),
        1,
        "expected siblings to merge into one chunk, got {chunks:?}"
    );
    let h = chunks[0].source_heading.as_ref().expect("heading present");
    assert!(
        h.contains("Top") && h.contains("Parent"),
        "common-ancestor path expected, got {h}"
    );
    assert!(
        chunks[0].text.contains("alpha") && chunks[0].text.contains("beta"),
        "merged chunk missing content"
    );
}

fn section(path: &[&str], text: &str) -> Section {
    Section {
        heading_path: path.iter().map(|h| h.to_string()).collect(),
        text: text.to_string(),
        tags: vec![],
    }
}

/// The headings and the text of each section after merging.
fn merged(sections: &[Section]) -> Vec<(String, String)> {
    merge_small_siblings(&sections.to_vec(), &ChunkConfig::default())
        .into_iter()
        .map(|s| (s.heading_path.join(" > "), s.text))
        .collect()
}

fn pair(path: &str, text: &str) -> (String, String) {
    (path.to_string(), text.to_string())
}

#[test]
fn any_number_of_small_siblings_merge() {
    assert_eq!(
        merged(&[
            section(&["P", "A"], "one"),
            section(&["P", "B"], "two"),
            section(&["P", "C"], "three"),
        ]),
        vec![pair("P", "one\n\ntwo\n\nthree")]
    );
    let chunks = parse("# P\n\n## A\n\none\n\n## B\n\ntwo\n\n## C\n\nthree\n\n## D\n\nfour\n");
    assert_eq!(chunks.len(), 1, "{chunks:?}");
    assert_eq!(chunks[0].source_heading.as_deref(), Some("P"));
    let words: Vec<&str> = chunks[0].text.split_whitespace().collect();
    assert_eq!(words, vec!["one", "two", "three", "four"]);
}

#[test]
fn merged_siblings_take_in_no_one_else() {
    assert_eq!(
        merged(&[
            section(&["P", "A"], "one"),
            section(&["P", "B"], "two"),
            section(&["Q"], "three"),
            section(&["R"], "four"),
        ]),
        vec![pair("P", "one\n\ntwo"), pair("", "three\n\nfour")]
    );
    assert_eq!(
        merged(&[
            section(&["P", "A"], "one"),
            section(&["P", "A"], "two"),
            section(&["P"], "three"),
            section(&[], "four"),
        ]),
        vec![pair("P > A", "one\n\ntwo"), pair("P", "three"), pair("", "four")]
    );
}

#[test]
fn siblings_stop_merging_at_the_target() {
    let words = |n: usize| vec!["w"; n].join(" ");
    let merged = merged(&[
        section(&["P", "A"], &words(30)),
        section(&["P", "B"], &words(19)),
        section(&["P", "C"], &words(451)),
        section(&["P", "D"], &words(1)),
        section(&["P", "E"], &words(499)),
    ]);
    let sizes: Vec<(String, usize)> =
        merged.into_iter().map(|(path, text)| (path, word_count(&text))).collect();
    assert_eq!(
        sizes,
        vec![("P".to_string(), 500), ("P".to_string(), 500)]
    );
}

#[test]
fn small_section_does_not_merge_with_large_sibling() {
    let big: String = "big ".repeat(400);
    let small: String = "small body word ".repeat(5);
    let content = format!("# Top\n\n## Parent\n\n### Big\n\n{big}\n\n### Small\n\n{small}\n");
    let chunks = parse(&content);
    assert!(
        chunks.len() >= 2,
        "expected at least 2 chunks (no merge), got {chunks:?}"
    );
}

#[test]
fn oversize_section_with_subheadings_splits_at_subheadings() {
    let big: String = "word ".repeat(2000);
    let content = format!("## Section\n\n### SubA\n\n{big}\n\n### SubB\n\n{big}\n");
    let chunks = parse(&content);
    let headings: HashSet<_> = chunks
        .iter()
        .filter_map(|c| c.source_heading.clone())
        .collect();
    assert!(
        headings.iter().any(|h| h.contains("SubA")),
        "SubA not split out: {headings:?}"
    );
    assert!(
        headings.iter().any(|h| h.contains("SubB")),
        "SubB not split out: {headings:?}"
    );
}

#[test]
fn oversize_section_without_subheadings_splits_at_paragraphs_and_respects_max() {
    let para1: String = "alpha ".repeat(900);
    let para2: String = "beta ".repeat(900);
    let content = format!("## Section\n\n{para1}\n\n{para2}\n");
    let chunks = parse(&content);
    assert!(
        chunks.len() >= 2,
        "expected paragraph split, got {} chunk(s)",
        chunks.len()
    );
    let cfg = ChunkConfig::default();
    for c in &chunks {
        let wc = word_count(&c.text);
        assert!(
            wc <= cfg.max_words,
            "chunk exceeded max_words ({} > {}): heading={:?}",
            wc,
            cfg.max_words,
            c.source_heading
        );
    }
}

#[test]
fn tiny_lone_section_kept_as_own_chunk() {
    let chunks = parse("# Solo\n\nshort body of about ten words, kept whole.\n");
    assert_eq!(chunks.len(), 1, "expected single chunk, got {chunks:?}");
    let h = chunks[0].source_heading.as_ref().expect("heading present");
    assert!(h.contains("Solo"), "h = {h}");
}

#[test]
fn sections_stand_under_the_headings_that_are_still_open() {
    let body = "intro\n# A\n### B\nb\n## C\nc\n```\n# no heading\n```\n#### D\nd\n# E\ne\n";
    let sections: Vec<(String, String)> = collect_sections(body)
        .into_iter()
        .map(|s| (s.heading_path.join(" > "), s.body))
        .collect();
    assert_eq!(
        sections,
        vec![
            pair("", "intro\n"),
            pair("A > B", "b\n"),
            pair("A > C", "c\n```\n# no heading\n```\n"),
            pair("A > C > D", "d\n"),
            pair("E", "e\n"),
        ]
    );
}

#[test]
fn code_is_stripped_once_and_for_all() {
    let text = "a `b` c\n```\nx\n``` y\nd `e\nf` g ``h\n";
    let stripped = strip_code_regions(text);
    assert_eq!(stripped, "a  c\nd \nf\n");
    assert_eq!(strip_code_regions(&stripped), stripped);
    assert!(!strip_code_regions("x\r`\r\n`").contains('`'));
}

#[test]
fn text_without_markup_keeps_its_words() {
    let body = "one two\r\n\n  three\tfour\n\n\nfive [six] !seven #eight `nine`\n> ";
    let body = body.trim_end_matches("> ");
    let config = ChunkConfig { target_words: 4, max_words: 2, min_words: 2 };
    let chunks = ingest_text(body, "n.md", &config).unwrap();
    assert!(chunks.len() > 1);
    let kept: Vec<&str> = chunks.iter().flat_map(|c| c.text.split_whitespace()).collect();
    assert_eq!(kept, body.split_whitespace().collect::<Vec<&str>>());
}
