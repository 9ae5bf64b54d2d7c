//! Walking a vault, here one in memory.

use std::collections::HashSet;
use std::path::Path;

use studybuddy::ingest::ChunkConfig;
use studybuddy::llm::ChunkContext;
use studybuddy::watcher::{entry_action, EntryAction, EntryKind, IngestOutput, VaultWalk, Visit};

/// Files by their paths below the root; `None` cannot be read.
type Vault<'a> = &'a [(&'a str, Option<&'a str>)];

const ROOT: &str = "/vaults/mine";

/// The entries of a directory.
fn list(vault: Vault, dir: &str) -> Vec<(String, EntryKind)> {
    let below = dir.strip_prefix(ROOT).unwrap().trim_start_matches('/');
    let prefix = if below.is_empty() { String::new() } else { format!("{below}/") };
    let mut entries: Vec<(String, EntryKind)> = vec![];
    for (path, _) in vault {
        if let Some(rest) = path.strip_prefix(prefix.as_str()) {
            let entry = match rest.split_once('/') {
                Some((name, _)) => (name.to_string(), EntryKind::Directory),
                None => (rest.to_string(), EntryKind::File),
            };
            if !entries.contains(&entry) {
                entries.push(entry);
            }
        }
    }
    entries
}

fn ingest(vault: Vault) -> IngestOutput {
    let mut output = IngestOutput::new();
    let mut walk = VaultWalk::start(ROOT);
    while let Some(dir) = walk.next_dir() {
        for (name, kind) in list(vault, &dir) {
            if let Visit::Note(note) = walk.visit(&dir, &name, kind) {
                let below = note.path.strip_prefix(&format!("{ROOT}/")).unwrap();
                let content = vault.iter().find(|(p, _)| *p == below).unwrap().1;
                output.take_note(content, &note.source_file, &ChunkConfig::default());
            }
        }
    }
    output
}

fn source_files(chunks: &[ChunkContext]) -> HashSet<String> {
    chunks.iter().map(|c| c.source_file.clone()).collect()
}

fn ends_with(set: &HashSet<String>, suffix: &str) -> bool {
    set.iter().any(|s| s.ends_with(suffix))
}

fn contains_substring(set: &HashSet<String>, needle: &str) -> bool {
    set.iter().any(|s| s.contains(needle))
}

const BODY: Option<&str> = Some("# H\n\nsome words here.\n");

// ---- discovery ----

const NESTED: Vault = &[("top.md", BODY), ("sub/inner.md", BODY), ("sub/deep/er.md", BODY)];

#[test]
fn discovers_markdown_recursively() {
    let files = source_files(&ingest(NESTED).chunks);
    assert!(ends_with(&files, "top.md"), "top.md not found in {files:?}");
    assert!(
        ends_with(&files, "sub/inner.md"),
        "sub/inner.md not found in {files:?}"
    );
    assert_eq!(files.len(), 3);
}

#[test]
fn ignores_non_markdown_files() {
    let files = source_files(&ingest(&[("note.md", BODY), ("a.txt", BODY), ("md", BODY)]).chunks);
    for f in &files {
        assert!(f.ends_with(".md"), "non-md file ingested: {f}");
    }
    assert!(ends_with(&files, "note.md"));
}

#[test]
fn ignores_hidden_directories() {
    let files = source_files(
        &ingest(&[
            (".git/x.md", BODY),
            (".obsidian/y.md", BODY),
            ("normal.md", BODY),
        ])
        .chunks,
    );
    assert!(
        !contains_substring(&files, ".git/"),
        ".git contents ingested: {files:?}"
    );
    assert!(
        !contains_substring(&files, ".obsidian/"),
        ".obsidian contents ingested: {files:?}"
    );
    assert!(
        ends_with(&files, "normal.md"),
        "expected normal.md, got {files:?}"
    );
    assert_eq!(files.len(), 1);
}

#[test]
fn empty_directory_yields_no_chunks() {
    let chunks = ingest(&[]).chunks;
    assert!(chunks.is_empty(), "expected no chunks, got {chunks:?}");
}

#[test]
fn directory_chunks_use_paths_relative_to_root() {
    let chunks = ingest(NESTED).chunks;
    for c in &chunks {
        let p = Path::new(&c.source_file);
        assert!(
            p.is_relative(),
            "expected relative source_file, got {:?}",
            c.source_file
        );
        assert!(
            !c.source_file.starts_with('/') && !c.source_file.contains(":\\"),
            "source_file looks absolute: {}",
            c.source_file
        );
    }
    assert!(source_files(&chunks).contains("sub/deep/er.md"));
}

#[test]
fn entries_are_told_apart() {
    for (name, kind, action) in [
        ("a.md", EntryKind::File, EntryAction::Read),
        (".md", EntryKind::File, EntryAction::Read),
        (".hidden.md", EntryKind::File, EntryAction::Read),
        (".hidden.md", EntryKind::Directory, EntryAction::Leave),
        ("a.md", EntryKind::Other, EntryAction::Leave),
        ("a.md", EntryKind::Directory, EntryAction::Enter),
        (".a", EntryKind::Directory, EntryAction::Leave),
        ("a.MD", EntryKind::File, EntryAction::Leave),
        ("md", EntryKind::File, EntryAction::Leave),
    ] {
        assert_eq!(entry_action(name, kind), action, "{name} {kind:?}");
    }
}

#[test]
fn notes_that_cannot_be_used_are_counted_and_left() {
    let output = ingest(&[
        ("a.md", BODY),
        ("unreadable.md", None),
        ("broken.md", Some("---\ntags: {\n---\n\nwords\n")),
        ("excluded.md", Some("---\nstudybuddy:\n  exclude: true\n---\n\nwords\n")),
    ]);
    assert_eq!(output.files_scanned, 4);
    assert_eq!(output.excluded_files, 1);
    assert_eq!(source_files(&output.chunks).len(), 1);
}

// ---- a realistic vault ----

const LINEAR_ALGEBRA: &str = "---
tags: [math, linear-algebra]
---

# Linear Algebra

A study of [[vectors]] and [[matrices|matrix operations]]. The page is also
tagged #algebra inline.

## Vectors

Vectors have magnitude and direction. See [[dot_product]] for one common
operation.

### Dot Product

The dot product of two vectors is the sum of pairwise products:

```python
# `#not_a_tag` should be ignored because it's inside a fenced code block
def dot(a, b):
    return sum(x * y for x, y in zip(a, b))
```

> [!note] Tip
> Make sure both vectors have the same dimension before computing the dot product.

## Matrices

Matrices are 2D arrays of numbers. They compose linear maps between vector
spaces.
";

fn ingest_sample_vault() -> Vec<ChunkContext> {
    ingest(&[
        ("linear_algebra.md", Some(LINEAR_ALGEBRA)),
        ("dot_product.md", Some("# Dot product\n\nPairwise products, summed.\n")),
        ("ignored.md", Some("---\nstudybuddy:\n  exclude: true\n---\n\n# Not this\n\nwords\n")),
    ])
    .chunks
}

#[test]
fn sample_vault_ingests_non_excluded_notes_only() {
    let files = source_files(&ingest_sample_vault());
    assert!(
        ends_with(&files, "linear_algebra.md"),
        "linear_algebra.md missing: {files:?}"
    );
    assert!(
        ends_with(&files, "dot_product.md"),
        "dot_product.md missing: {files:?}"
    );
    assert!(
        !ends_with(&files, "ignored.md"),
        "excluded file was ingested: {files:?}"
    );
}

#[test]
fn sample_vault_propagates_frontmatter_and_inline_tags() {
    let chunks = ingest_sample_vault();
    let la: Vec<&ChunkContext> = chunks
        .iter()
        .filter(|c| c.source_file.ends_with("linear_algebra.md"))
        .collect();
    assert!(!la.is_empty(), "no chunks from linear_algebra.md");
    let tags: HashSet<String> = la.iter().flat_map(|c| c.tags.iter().cloned()).collect();
    assert!(tags.contains("math"), "frontmatter tag missing: {tags:?}");
    assert!(
        tags.contains("linear-algebra"),
        "frontmatter tag missing: {tags:?}"
    );
    assert!(tags.contains("algebra"), "inline tag missing: {tags:?}");
    assert!(
        !tags.iter().any(|t| t == "not_a_tag"),
        "code-block content leaked into tags: {tags:?}"
    );
}

#[test]
fn sample_vault_resolves_wikilinks_and_strips_callouts() {
    let chunks = ingest_sample_vault();
    let la_text: String = chunks
        .iter()
        .filter(|c| c.source_file.ends_with("linear_algebra.md"))
        .map(|c| c.text.as_str())
        .collect::<Vec<_>>()
        .join("\n");
    assert!(
        la_text.contains("vectors"),
        "wikilink target not preserved: {la_text}"
    );
    assert!(
        !la_text.contains("[[vectors]]"),
        "raw wikilink remained: {la_text}"
    );
    assert!(
        la_text.contains("matrix operations"),
        "wikilink alias not used: {la_text}"
    );
    assert!(
        la_text.contains("Tip") && la_text.contains("same dimension"),
        "callout content lost: {la_text}"
    );
    assert!(
        !la_text.contains("[!note]"),
        "callout marker remained: {la_text}"
    );
}

#[test]
fn sample_vault_heading_paths_carry_hierarchy() {
    let chunks = ingest_sample_vault();
    let la_headings: HashSet<String> = chunks
        .iter()
        .filter(|c| c.source_file.ends_with("linear_algebra.md"))
        .filter_map(|c| c.source_heading.clone())
        .collect();
    assert!(
        la_headings
            .iter()
            .any(|h| h.contains("Linear Algebra") && h.contains("Vectors")),
        "expected an ancestor-carrying heading path, got {la_headings:?}"
    );
}
