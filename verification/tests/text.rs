//! Text, paths, frontmatter and settings.

use studybuddy::config::{
    check_provider, config_source, data_dir, ConfigSource, ServerConfig, StoreConfig, LOCAL_CONFIG,
};
use studybuddy::error::AppError;
use studybuddy::ingest::chunks::{merge_small_siblings, split_oversize, Section};
use studybuddy::ingest::frontmatter::{frontmatter_settings, parse_frontmatter, split_frontmatter};
use studybuddy::ingest::obsidian::{obsidian_transform, strip_callout_markers};
use studybuddy::ingest::sections::{collect_sections, parse_atx_heading};
use studybuddy::ingest::tags::{extract_inline_tags, strip_code_regions};
use studybuddy::ingest::{ingest_text, ChunkConfig};
use studybuddy::path::{components_of, has_extension, path_inside, relativize, validate_source_file};
use studybuddy::text::{
    chars_of, decimal_of, joined, letter_or_number, lines_of, pieces_of, string_of, trimmed, white,
    word_count, words_of,
};

#[test]
fn characters_are_classed_as_unicode_does() {
    for c in (0..=0x10FFFFu32).filter_map(char::from_u32) {
        assert_eq!(white(c), c.is_whitespace(), "{c:?}");
        assert_eq!(letter_or_number(c), c.is_alphanumeric(), "{c:?}");
    }
}

const TEXTS: &[&str] = &[
    "",
    "\n",
    "one",
    "one\n",
    "one\r\ntwo\r\n\r\nthree",
    "a\rb\n\r",
    "  leading and trailing \t",
    "a\n\n\nb\n\n",
    "\u{3000}wide\u{2003}space\u{85}",
    "ünï cödé \u{1F600}",
];

#[test]
fn text_is_split_as_std_does() {
    for text in TEXTS {
        assert_eq!(lines_of(text), text.lines().collect::<Vec<_>>(), "{text:?}");
        assert_eq!(words_of(text), text.split_whitespace().collect::<Vec<_>>(), "{text:?}");
        assert_eq!(word_count(text), text.split_whitespace().count(), "{text:?}");
        for sep in ["\n\n", "\n", "e", "an"] {
            assert_eq!(pieces_of(text, sep), text.split(sep).collect::<Vec<_>>(), "{text:?}");
        }
        let chars = chars_of(text);
        assert_eq!(string_of(trimmed(&chars)), text.trim(), "{text:?}");
    }
    let parts: Vec<String> = vec!["a".to_string(), String::new(), "c".to_string()];
    assert_eq!(joined(&parts, ", "), parts.join(", "));
    assert_eq!(joined(&vec![], ", "), "");
}

#[test]
fn numbers_are_written_in_decimal() {
    for n in [0usize, 7, 10, 99, 100, 12345, usize::MAX] {
        assert_eq!(decimal_of(n), n.to_string());
    }
}

// ---- paths ----

#[test]
fn components_are_those_of_std() {
    for path in [
        "", "/", "a", "a/b", "/a//b/", "./a/./b", "../a", "a/..", ".", "a/.", "//", "/.", "./.",
    ] {
        let by_std: Vec<String> = std::path::Path::new(path)
            .components()
            .map(|c| c.as_os_str().to_str().unwrap().to_string())
            .collect();
        assert_eq!(components_of(path), by_std, "{path:?}");
    }
}

#[test]
fn source_files_are_relative_and_go_up_nowhere() {
    for path in ["a.md", "a/b.md", "./a.md", "a//b.md", "..a/b..md", "..."] {
        assert!(validate_source_file(path).is_ok(), "{path}");
    }
    for path in ["", "/a.md", "..", "../a.md", "a/../b.md", "a/.."] {
        assert!(matches!(validate_source_file(path), Err(AppError::BadRequest(_))), "{path}");
    }
}

#[test]
fn names_go_inside_directories_as_in_std() {
    for dir in ["", "a", "a/", "/", "/a/b"] {
        let by_std = std::path::Path::new(dir).join("n.md");
        assert_eq!(path_inside(dir, "n.md"), by_std.to_str().unwrap());
    }
    assert!(has_extension("n.md", "md"));
    assert!(!has_extension(".md", "md"));
}

#[test]
fn relative_paths_compare_whole_names() {
    assert!(relativize("/vault", "/vaults/a.md").is_err());
    assert_eq!(relativize("/", "/a/b.md").unwrap(), "a/b.md");
    assert_eq!(relativize("/v/", "/v//a/./b.md").unwrap(), "a/b.md");
    assert_eq!(
        relativize("/vault", "/else/a.md").unwrap_err(),
        "/else/a.md is outside the vault /vault"
    );
    assert_eq!(
        relativize("/vault", "/vault/").unwrap_err(),
        "file resolves to the vault root itself, not a note"
    );
}

// ---- frontmatter ----

fn split(content: &str) -> (Option<String>, String) {
    split_frontmatter(content)
}

#[test]
fn frontmatter_stands_between_dashes() {
    assert_eq!(split("---\na: 1\n---\n\r\nbody\n"), (Some("a: 1".to_string()), "body\n".to_string()));
    assert_eq!(split("---\n\n---\nbody"), (Some(String::new()), "body".to_string()));
    for content in ["body", "---", "---\nno end", " ---\na\n---\n", ""] {
        assert_eq!(split(content), (None, content.to_string()));
    }
}

#[test]
fn frontmatter_is_read_as_yaml() {
    let read = |yaml: &str| parse_frontmatter(Some(yaml));
    assert_eq!(parse_frontmatter(None).unwrap(), (false, vec![]));
    assert_eq!(read("").unwrap(), (false, vec![]));
    assert_eq!(read("title: x\nnested: {a: [1, 2]}").unwrap(), (false, vec![]));
    assert_eq!(
        read("tags: [math, \"two words\", 2024, true]").unwrap(),
        (
            false,
            vec!["math".to_string(), "two words".to_string(), "2024".to_string(), "true".to_string()]
        )
    );
    assert_eq!(
        read("tags:\n  - a\n  - 'b: c'\nstudybuddy:\n  exclude: true\n  other: 1\n").unwrap(),
        (true, vec!["a".to_string(), "b: c".to_string()])
    );
    assert_eq!(read("tags:\nstudybuddy:\n").unwrap(), (false, vec![]));
    assert_eq!(read("studybuddy: {exclude: false}").unwrap(), (false, vec![]));
    for yaml in [
        "tags: math",
        "tags: {a: 1}",
        "tags: [[a]]",
        "studybuddy: yes please",
        "studybuddy: {exclude: 3}",
        "- a list",
        "just text",
        "tags: [",
    ] {
        assert!(matches!(read(yaml), Err(AppError::Parse(_))), "{yaml}");
    }
}

#[test]
fn tags_keep_their_own_text() {
    let tags = |yaml: &str| parse_frontmatter(Some(yaml)).unwrap().1;
    assert_eq!(
        tags("tags: [3.10, 1e3, 007, .5, 0x1F, True]"),
        ["3.10", "1e3", "007", ".5", "0x1F", "True"]
    );
    assert_eq!(tags("# head\n\ntags:\n- 3.10\n# between\n- b\ntitle: x\n"), ["3.10", "b"]);
    assert_eq!(tags("\"tags\": [1.0]\ntitle: 'x: y'\n"), ["1.0"]);
    assert_eq!(tags("title: x\ntags: [\n  2.50,\nb\n]\nother: y"), ["2.50", "b"]);
    assert_eq!(tags("text: |\n  tags: [no]\n\n  more\ntags: [1.50]"), ["1.50"]);
    assert_eq!(tags("quoted: \"a\ntags: [no]\"\ntags: [1.50]"), ["1.50"]);
    assert_eq!(tags("{tags: [3.10]}"), ["3.10"]);
    assert_eq!(tags("{title: x, tags: [a, b]}"), ["a", "b"]);
    assert_eq!(tags("base: &t [a, b]\ntags: *t"), ["a", "b"]);
}

#[test]
fn settings_are_given_once_and_are_not_null() {
    let read = |yaml: &str| parse_frontmatter(Some(yaml));
    for yaml in [
        "tags: [a]\ntags: [b]",
        "tags: [a]\ntitle: x\ntags:",
        "studybuddy:\n  exclude: true\nstudybuddy:\n  exclude: true\n",
        "studybuddy:\n  exclude: true\n  exclude: false\n",
        "tags: null",
        "tags: ~\ntitle: x",
        "studybuddy: null",
        "studybuddy:\n  ~\n",
        "studybuddy:\n  - exclude\n",
        "studybuddy:\n  exclude: null\n",
        "studybuddy:\n  exclude:\n",
        "studybuddy: {exclude: null}",
        "~",
        "title: x\n  y: z",
    ] {
        assert!(matches!(read(yaml), Err(AppError::Parse(_))), "{yaml}");
    }
    assert_eq!(read("title: x\ntitle: y\nmap: {a: 1, a: 2}\n").unwrap(), (false, vec![]));
    assert_eq!(
        read("studybuddy:\n  other: 1\n  other: {a: 1, a: 2}\n  # on\n  exclude: True\ntags:\n")
            .unwrap(),
        (true, vec![])
    );
    assert_eq!(read("studybuddy: # none\ntags: []\n").unwrap(), (false, vec![]));
    assert_eq!(read("studybuddy: {\n  exclude: true,\n}\n").unwrap(), (true, vec![]));
    assert_eq!(read("# nothing\n").unwrap(), (false, vec![]));
}

#[test]
fn fields_make_up_the_settings() {
    let err = || "broken".to_string();
    assert_eq!(frontmatter_settings(Ok(None), Ok(None)).unwrap(), (false, vec![]));
    assert_eq!(
        frontmatter_settings(Ok(Some(true)), Ok(Some(vec!["t".to_string()]))).unwrap(),
        (true, vec!["t".to_string()])
    );
    for settings in [
        frontmatter_settings(Err(err()), Ok(None)),
        frontmatter_settings(Ok(None), Err(err())),
    ] {
        assert_eq!(settings.unwrap_err(), AppError::Parse(err()));
    }
}

// ---- markdown ----

#[test]
fn headings_have_one_to_six_marks() {
    let heading = |line: &str| parse_atx_heading(line);
    assert_eq!(heading("# One"), Some((1, "One".to_string())));
    assert_eq!(heading("  ###### Six ##"), Some((6, "Six".to_string())));
    assert_eq!(heading("##"), Some((2, String::new())));
    for line in ["####### Seven", "#tag", "text", "", "#\ttab"] {
        assert_eq!(heading(line), None, "{line}");
    }
}

#[test]
fn sections_carry_their_headings() {
    let body = "intro\n# A\na\n## B\n```\n# not a heading\n```\n# C\n\n## D\nd\n";
    let sections: Vec<(Vec<String>, String)> =
        collect_sections(body).into_iter().map(|s| (s.heading_path, s.body)).collect();
    let path = |names: &[&str]| names.iter().map(|n| n.to_string()).collect::<Vec<_>>();
    assert_eq!(
        sections,
        vec![
            (path(&[]), "intro\n".to_string()),
            (path(&["A"]), "a\n".to_string()),
            (path(&["A", "B"]), "```\n# not a heading\n```\n".to_string()),
            (path(&["C", "D"]), "d\n".to_string()),
        ]
    );
}

#[test]
fn links_embeds_and_callouts_become_plain() {
    assert_eq!(obsidian_transform("a [[b]] ![[c]] [[d|e|f]] [[open"), "a b  f [[open");
    assert_eq!(obsidian_transform("no links"), "no links");
    assert_eq!(
        strip_callout_markers("> [!note] Title\n>\n> line\n> [!tip]\nplain\n"),
        "Title\nline\nplain\n"
    );
}

#[test]
fn tags_are_read_from_prose_alone() {
    assert_eq!(
        extract_inline_tags("#a text #b/c-d, `#no` #_x ##no #\n```\n#no\n```\n#é!\n"),
        vec!["a", "b/c-d", "_x", "é"]
    );
    assert_eq!(strip_code_regions("a `b` c\n```\nd\n```\ne"), "a  c\ne\n");
}

fn section(path: &[&str], text: &str, tags: &[&str]) -> Section {
    Section {
        heading_path: path.iter().map(|s| s.to_string()).collect(),
        text: text.to_string(),
        tags: tags.iter().map(|s| s.to_string()).collect(),
    }
}

#[test]
fn small_siblings_are_merged_up_to_the_target() {
    let config = ChunkConfig { target_words: 4, max_words: 9, min_words: 3 };
    let sections = vec![
        section(&["P", "A"], "one two", &["x"]),
        section(&["P", "B"], "three", &["y", "x"]),
        section(&["P", "C"], "four five", &[]),
        section(&["Q"], "six", &[]),
    ];
    let merged = merge_small_siblings(&sections, &config);
    assert_eq!(merged.len(), 3);
    assert_eq!(merged[0].heading_path, vec!["P"]);
    assert_eq!(merged[0].text, "one two\n\nthree");
    assert_eq!(merged[0].tags, vec!["x", "y"]);
    assert_eq!(merged[1].text, "four five");
    assert_eq!(merged[2].heading_path, vec!["Q"]);
}

#[test]
fn large_sections_are_split_between_paragraphs() {
    let config = ChunkConfig { target_words: 4, max_words: 3, min_words: 1 };
    let parts = split_oversize(&section(&["P"], "a b\n\nc\n\n \n\nd e f g\n\nh", &["t"]), &config);
    let texts: Vec<&str> = parts.iter().map(|p| p.text.as_str()).collect();
    assert_eq!(texts, vec!["a b\n\nc", "d e f g", "h"]);
    assert!(parts.iter().all(|p| p.heading_path == vec!["P"] && p.tags == vec!["t"]));
    let whole = split_oversize(&section(&["P"], "  a b c  ", &[]), &config);
    assert_eq!(whole.len(), 1);
    assert_eq!(whole[0].text, "  a b c  ");
}

#[test]
fn chunks_keep_every_word_in_order() {
    let config = ChunkConfig { target_words: 6, max_words: 5, min_words: 3 };
    let content = "---\ntags: [t]\n---\nzero\n# A\n\none two\n\n## B\n\nthree\n\n## C\n\nfour #u five six seven eight\n\nnine ten\n";
    let chunks = ingest_text(content, "n.md", &config).unwrap();
    let words: Vec<String> = chunks.iter().flat_map(|c| words_of(&c.text)).collect();
    assert_eq!(
        words.join(" "),
        "zero one two three four #u five six seven eight nine ten"
    );
    for c in &chunks {
        assert_eq!(c.source_file, "n.md");
        assert_eq!(c.tags[0], "t");
        assert_eq!(c.text, c.text.trim());
        assert!(!c.text.is_empty());
    }
}

// ---- settings ----

#[test]
fn settings_have_defaults() {
    assert_eq!(ServerConfig::default().bind, "127.0.0.1:8080");
    assert_eq!(ServerConfig::default().api_token, None);
    assert_eq!(StoreConfig::default().data_dir, "./studybuddy-data");
    assert_eq!(LOCAL_CONFIG, "studybuddy.toml");
}

#[test]
fn settings_come_from_the_environment_first() {
    let named = || Some("/etc/sb.toml".to_string());
    assert_eq!(config_source(named(), true), ConfigSource::Named("/etc/sb.toml".to_string()));
    assert_eq!(config_source(named(), false), ConfigSource::Named("/etc/sb.toml".to_string()));
    assert_eq!(config_source(None, true), ConfigSource::Local);
    assert_eq!(config_source(None, false), ConfigSource::Defaults);
}

#[test]
fn the_environment_can_name_the_data_dir() {
    let configured = StoreConfig { data_dir: "/var/sb".to_string() };
    assert_eq!(data_dir(None, &configured), "/var/sb");
    assert_eq!(data_dir(Some("./my-data".to_string()), &configured), "./my-data");
}

#[test]
fn only_ollama_is_provided() {
    assert!(check_provider("ollama").is_ok());
    assert_eq!(
        check_provider("openai").unwrap_err(),
        "unsupported LLM provider 'openai' — only 'ollama' is supported in this build"
    );
}
