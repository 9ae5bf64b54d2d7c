//! The YAML block at the head of a note.

use vstd::prelude::*;
use vstd::slice::slice_subrange;

use crate::error::{AppError, ErrorView};
use crate::ingest::entries::{
    all_single, comes_apart, entries, entries_from, entries_of, has_key, lemma_two_texts,
    texts_named, texts_of,
};
use crate::llm::json::{only_value, single_value};
use crate::text::{
    chars_of, find, find_in, lines, lines_of, occurs_at, same_chars, starts_with, string_of,
    strip_start, stripped_start, trim, trimmed, views, Class,
};
use crate::trusted::{
    sections_check, strings_result_view, yaml_bool, yaml_field, yaml_flag, yaml_keys, yaml_list,
    yaml_list_at, yaml_names, yaml_sections, yaml_strings, yaml_strings_at, yaml_value_at,
};

verus! {

// ---------- the model ----------

/// A note's frontmatter, where it has one, and its body.
pub open spec fn split_note(s: Seq<char>) -> (Option<Seq<char>>, Seq<char>) {
    let opening = "---\n"@;
    let closing = "\n---"@;
    let rest = s.skip(opening.len() as int);
    if occurs_at(s, opening, 0) {
        match find(rest, closing) {
            Some(i) => (
                Some(rest.take(i as int)),
                strip_start(rest.skip((i + closing.len()) as int), Class::LineBreak),
            ),
            None => (None, s),
        }
    } else {
        (None, s)
    }
}

/// The `tags` of a frontmatter, where its entries are read together. A plain
/// scalar is in its canonical form, of a key that is given twice the last value
/// counts, and `null` stands for no tags.
pub open spec fn loose_tags(yaml: Seq<char>) -> Result<Option<Seq<Seq<char>>>, Seq<char>> {
    match yaml_field(yaml, "tags"@) {
        Ok(Some(value)) => yaml_strings(value),
        Ok(None) => Ok(None),
        Err(e) => Err(e),
    }
}

/// The `tags` of a frontmatter. Where it comes apart into entries, the one with
/// the tags is read on its own, and there is at most one.
pub open spec fn tags_field(yaml: Seq<char>) -> Result<Option<Seq<Seq<char>>>, Seq<char>> {
    let es = entries(lines(yaml));
    match yaml_keys(yaml) {
        Ok(_) => if comes_apart(es) {
            match only_value(texts_of(es, "tags"@), "tags"@) {
                Ok(Some(text)) => yaml_strings_at(text, "tags"@),
                Ok(None) => Ok(None),
                Err(e) => Err(e),
            }
        } else {
            loose_tags(yaml)
        },
        Err(e) => Err(e),
    }
}

/// The `exclude` flag in a mapping.
pub open spec fn flag_field(yaml: Seq<char>) -> Result<Option<bool>, Seq<char>> {
    match yaml_field(yaml, "exclude"@) {
        Ok(Some(value)) => match yaml_bool(value) {
            Ok(b) => Ok(Some(b)),
            Err(e) => Err(e),
        },
        Ok(None) => Ok(None),
        Err(e) => Err(e),
    }
}

/// The `exclude` flag in the `studybuddy` section of a frontmatter, where its
/// entries are read together. Of a key that is given twice the last value
/// counts, and `null` stands for an empty section.
pub open spec fn loose_exclude(yaml: Seq<char>) -> Result<Option<bool>, Seq<char>> {
    match yaml_field(yaml, "studybuddy"@) {
        Ok(Some(section)) => flag_field(section),
        Ok(None) => Ok(None),
        Err(e) => Err(e),
    }
}

/// The lines of a section below its key.
pub open spec fn section_body(text: Seq<char>) -> Seq<Seq<char>> {
    lines(text).skip(1)
}

/// The `exclude` flag in the entry of the `studybuddy` section. Where the section
/// stands below its key and comes apart into entries, the one with the flag is
/// read on its own, and there is at most one.
pub open spec fn section_flag(text: Seq<char>) -> Result<Option<bool>, Seq<char>> {
    let es = entries(section_body(text));
    match yaml_sections(text) {
        Ok(_) => if lines(text).len() > 0 && trim(lines(text)[0]) == "studybuddy:"@ && comes_apart(
            es,
        ) {
            match only_value(texts_of(es, "exclude"@), "exclude"@) {
                Ok(Some(flag)) => flag_field(flag),
                Ok(None) => Ok(None),
                Err(e) => Err(e),
            }
        } else {
            loose_exclude(text)
        },
        Err(e) => Err(e),
    }
}

/// The `exclude` flag in the `studybuddy` section of a frontmatter. Where it
/// comes apart into entries, the section is read on its own, and there is at
/// most one.
pub open spec fn exclude_field(yaml: Seq<char>) -> Result<Option<bool>, Seq<char>> {
    let es = entries(lines(yaml));
    match yaml_keys(yaml) {
        Ok(_) => if comes_apart(es) {
            match only_value(texts_of(es, "studybuddy"@), "studybuddy"@) {
                Ok(Some(text)) => section_flag(text),
                Ok(None) => Ok(None),
                Err(e) => Err(e),
            }
        } else {
            loose_exclude(yaml)
        },
        Err(e) => Err(e),
    }
}

/// What the two fields say: whether the note is left out, and its tags. Fields
/// that are missing say no, and none.
pub open spec fn settings(
    exclude: Result<Option<bool>, Seq<char>>,
    tags: Result<Option<Seq<Seq<char>>>, Seq<char>>,
) -> Result<(bool, Seq<Seq<char>>), Seq<char>> {
    match (exclude, tags) {
        (Ok(x), Ok(t)) => Ok(
            (
                match x {
                    Some(b) => b,
                    None => false,
                },
                match t {
                    Some(v) => v,
                    None => seq![],
                },
            ),
        ),
        (Err(e), _) => Err(e),
        (_, Err(e)) => Err(e),
    }
}

/// What a note's frontmatter says; a note without one is not left out and has
/// no tags.
pub open spec fn note_settings(yaml: Option<Seq<char>>) -> Result<
    (bool, Seq<Seq<char>>),
    Seq<char>,
> {
    match yaml {
        Some(y) => settings(exclude_field(y), tags_field(y)),
        None => Ok((false, seq![])),
    }
}

/// The settings inside a result, or the message of the parse error.
pub open spec fn settings_view(r: Result<(bool, Vec<String>), AppError>) -> Result<
    (bool, Seq<Seq<char>>),
    ErrorView,
> {
    match r {
        Ok((b, v)) => Ok((b, views(v@))),
        Err(e) => Err(e@),
    }
}

/// A parse error out of a message.
pub open spec fn as_parse_error(r: Result<(bool, Seq<Seq<char>>), Seq<char>>) -> Result<
    (bool, Seq<Seq<char>>),
    ErrorView,
> {
    match r {
        Ok(v) => Ok(v),
        Err(e) => Err(ErrorView::Parse(e)),
    }
}

/// The flag inside a result, or the message.
pub open spec fn flag_result_view(r: Result<Option<bool>, String>) -> Result<
    Option<bool>,
    Seq<char>,
> {
    match r {
        Ok(b) => Ok(b),
        Err(e) => Err(e@),
    }
}

// ---------- the code ----------

/// Splits a note into its frontmatter, where it has one, and its body.
pub fn split_frontmatter(content: &str) -> (r: (Option<String>, String))
    ensures
        (crate::model::opt_view(r.0), r.1@) == split_note(content@),
{
    let all = chars_of(content);
    let opening = chars_of("---\n");
    if !starts_with(&all, &opening) {
        return (None, content.to_string());
    }
    let rest = slice_subrange(&all, opening.len(), all.len());
    assert(rest@ =~= content@.skip("---\n"@.len() as int));
    let closing = chars_of("\n---");
    match find_in(rest, &closing) {
        Some(i) => {
            proof {
                crate::text::lemma_find(rest@, "\n---"@);
            }
            let yaml = slice_subrange(rest, 0, i);
            let after = slice_subrange(rest, i + closing.len(), rest.len());
            assert(yaml@ =~= rest@.take(i as int));
            assert(after@ =~= rest@.skip(i + "\n---"@.len()));
            (Some(string_of(yaml)), string_of(stripped_start(after, Class::LineBreak)))
        },
        None => (None, content.to_string()),
    }
}

/// The settings that the two fields of a frontmatter make up.
pub fn frontmatter_settings(
    exclude: Result<Option<bool>, String>,
    tags: Result<Option<Vec<String>>, String>,
) -> (r: Result<(bool, Vec<String>), AppError>)
    ensures
        settings_view(r) == as_parse_error(
            settings(flag_result_view(exclude), strings_result_view(tags)),
        ),
{
    let excluded = match exclude {
        Ok(Some(b)) => b,
        Ok(None) => false,
        Err(e) => {
            return Err(AppError::Parse(e));
        },
    };
    match tags {
        Ok(Some(v)) => Ok((excluded, v)),
        Ok(None) => {
            let none: Vec<String> = Vec::new();
            assert(views(none@) =~= seq![]);
            Ok((excluded, none))
        },
        Err(e) => Err(AppError::Parse(e)),
    }
}

/// Reads the `tags` of a frontmatter.
fn read_tags(yaml: &str) -> (r: Result<Option<Vec<String>>, String>)
    ensures
        strings_result_view(r) == tags_field(yaml@),
{
    if let Err(e) = yaml_names(yaml) {
        return Err(e);
    }
    let es = entries_of(yaml);
    if all_single(&es) {
        return match single_value(texts_named(&es, "tags"), "tags") {
            Ok(Some(text)) => yaml_list_at(text.as_str(), "tags"),
            Ok(None) => Ok(None),
            Err(e) => Err(e),
        };
    }
    match yaml_value_at(yaml, "tags") {
        Ok(Some(value)) => yaml_list(value.as_str()),
        Ok(None) => Ok(None),
        Err(e) => Err(e),
    }
}

/// Reads the `exclude` flag of a mapping.
fn read_flag(yaml: &str) -> (r: Result<Option<bool>, String>)
    ensures
        flag_result_view(r) == flag_field(yaml@),
{
    match yaml_value_at(yaml, "exclude") {
        Ok(Some(value)) => match yaml_flag(value.as_str()) {
            Ok(b) => Ok(Some(b)),
            Err(e) => Err(e),
        },
        Ok(None) => Ok(None),
        Err(e) => Err(e),
    }
}

/// Reads the `exclude` flag of a frontmatter whose entries are read together.
fn read_loose_exclude(yaml: &str) -> (r: Result<Option<bool>, String>)
    ensures
        flag_result_view(r) == loose_exclude(yaml@),
{
    match yaml_value_at(yaml, "studybuddy") {
        Ok(Some(section)) => read_flag(section.as_str()),
        Ok(None) => Ok(None),
        Err(e) => Err(e),
    }
}

/// Reads the `exclude` flag of the entry of the `studybuddy` section.
fn read_section(text: &str) -> (r: Result<Option<bool>, String>)
    ensures
        flag_result_view(r) == section_flag(text@),
{
    if let Err(e) = sections_check(text) {
        return Err(e);
    }
    let all = lines_of(text);
    assert(views(all@).len() == all@.len());
    if all.len() > 0 && same_chars(
        trimmed(&chars_of(all[0].as_str())),
        &chars_of("studybuddy:"),
    ) {
        let es = entries_from(&all, 1);
        if all_single(&es) {
            return match single_value(texts_named(&es, "exclude"), "exclude") {
                Ok(Some(flag)) => read_flag(flag.as_str()),
                Ok(None) => Ok(None),
                Err(e) => Err(e),
            };
        }
    }
    read_loose_exclude(text)
}

/// Reads the `exclude` flag of a frontmatter.
fn read_exclude(yaml: &str) -> (r: Result<Option<bool>, String>)
    ensures
        flag_result_view(r) == exclude_field(yaml@),
{
    if let Err(e) = yaml_names(yaml) {
        return Err(e);
    }
    let es = entries_of(yaml);
    if all_single(&es) {
        return match single_value(texts_named(&es, "studybuddy"), "studybuddy") {
            Ok(Some(text)) => read_section(text.as_str()),
            Ok(None) => Ok(None),
            Err(e) => Err(e),
        };
    }
    read_loose_exclude(yaml)
}

/// Reads a note's frontmatter: whether the note is left out, and its tags.
pub fn parse_frontmatter(yaml: Option<&str>) -> (r: Result<(bool, Vec<String>), AppError>)
    ensures
        settings_view(r) == as_parse_error(
            note_settings(
                match yaml {
                    Some(y) => Some(y@),
                    None => None,
                },
            ),
        ),
{
    match yaml {
        Some(y) => frontmatter_settings(read_exclude(y), read_tags(y)),
        None => {
            let none: Vec<String> = Vec::new();
            assert(views(none@) =~= seq![]);
            Ok((false, none))
        },
    }
}

// ---------- laws ----------

/// A frontmatter that comes apart into entries is refused where two of them give
/// the tags, or two of them the section, whatever stands there.
pub proof fn law_settings_are_given_once(yaml: Seq<char>, i: int, j: int, name: Seq<char>)
    requires
        name == "tags"@ || name == "studybuddy"@,
        comes_apart(entries(lines(yaml))),
        0 <= i < j < entries(lines(yaml)).len(),
        has_key(entries(lines(yaml))[i].text, name),
        has_key(entries(lines(yaml))[j].text, name),
    ensures
        note_settings(Some(yaml)) is Err,
{
    lemma_two_texts(entries(lines(yaml)), name, i, j);
}

/// The frontmatter of a note stands between its opening and the first closing
/// line behind it; the body is what follows, without the line breaks before it.
pub proof fn law_frontmatter_stands_before_the_body(
    yaml: Seq<char>,
    breaks: Seq<char>,
    body: Seq<char>,
)
    requires
        find(yaml + "\n---"@ + breaks + body, "\n---"@) == Some(yaml.len()),
        forall|i: int| 0 <= i < breaks.len() ==> #[trigger] breaks[i] == '\n' || breaks[i] == '\r',
        body.len() > 0 ==> body[0] != '\n' && body[0] != '\r',
    ensures
        split_note("---\n"@ + yaml + "\n---"@ + breaks + body) == (Some(yaml), body),
{
    reveal_strlit("---\n");
    reveal_strlit("\n---");
    let s = "---\n"@ + yaml + "\n---"@ + breaks + body;
    let rest = s.skip(4);
    assert(s.subrange(0, 4) =~= "---\n"@);
    assert(rest =~= yaml + "\n---"@ + breaks + body);
    assert(rest.take(yaml.len() as int) =~= yaml);
    let after = rest.skip(yaml.len() as int + 4);
    assert(after =~= breaks + body);
    let k = Class::LineBreak;
    assert forall|i: int| 0 <= i < breaks.len() implies k.has(#[trigger] after[i]) by {
        assert(after[i] == breaks[i]);
    }
    if body.len() > 0 {
        assert(after[breaks.len() as int] == body[0]);
    }
    crate::text::lemma_run_is(after, k, breaks.len() as int);
    assert(after.skip(breaks.len() as int) =~= body);
}

/// A note that does not open with a frontmatter, or never closes it, is all body.
pub proof fn law_note_without_frontmatter_is_all_body(s: Seq<char>)
    requires
        !occurs_at(s, "---\n"@, 0) || find(s.skip(4), "\n---"@) is None,
    ensures
        split_note(s) == (None::<Seq<char>>, s),
{
    reveal_strlit("---\n");
}

/// A note is left out only if its flag says so, its tags are those that are given,
/// and what is not given says no, and none. Either field that does not parse is
/// an error.
pub proof fn law_settings_are_what_is_given(
    exclude: Result<Option<bool>, Seq<char>>,
    tags: Result<Option<Seq<Seq<char>>>, Seq<char>>,
)
    ensures
        settings(exclude, tags) matches Ok((excluded, given)) ==> {
            &&& excluded <==> exclude == Ok::<Option<bool>, Seq<char>>(Some(true))
            &&& tags matches Ok(Some(ts)) ==> given == ts
            &&& tags matches Ok(None) ==> given.len() == 0
        },
        settings(exclude, tags) is Ok <==> exclude is Ok && tags is Ok,
        note_settings(None) == Ok::<(bool, Seq<Seq<char>>), Seq<char>>((false, seq![])),
{
}

proof fn lemma_one_text(es: Seq<crate::ingest::entries::EntryView>, name: Seq<char>, i: int)
    requires
        0 <= i < es.len() ==> has_key(es[i].text, name),
        forall|k: int| 0 <= k < es.len() && k != i ==> !has_key((#[trigger] es[k]).text, name),
    ensures
        0 <= i < es.len() ==> texts_of(es, name) == seq![es[i].text],
        !(0 <= i < es.len()) ==> texts_of(es, name).len() == 0,
    decreases es.len(),
{
    if es.len() > 0 {
        let few = es.drop_last();
        assert forall|k: int| 0 <= k < few.len() && k != i implies !has_key(
            (#[trigger] few[k]).text,
            name,
        ) by {
            assert(few[k] == es[k]);
        }
        lemma_one_text(few, name, i);
        if 0 <= i < es.len() {
            assert(texts_of(es, name) =~= seq![es[i].text]);
        }
    }
}

/// In a frontmatter that comes apart into entries, the tags and the section are
/// what stands in the entries with their keys.
pub proof fn law_settings_stand_in_their_entries(yaml: Seq<char>, i: int, name: Seq<char>)
    requires
        yaml_keys(yaml) is Ok,
        comes_apart(entries(lines(yaml))),
        0 <= i < entries(lines(yaml)).len() ==> has_key(entries(lines(yaml))[i].text, name),
        forall|k: int|
            0 <= k < entries(lines(yaml)).len() && k != i ==> !has_key(
                (#[trigger] entries(lines(yaml))[k]).text,
                name,
            ),
    ensures
        ({
            let es = entries(lines(yaml));
            let given = 0 <= i < es.len();
            &&& name == "tags"@ && given ==> tags_field(yaml) == yaml_strings_at(
                es[i].text,
                "tags"@,
            )
            &&& name == "tags"@ && !given ==> tags_field(yaml) == Ok::<
                Option<Seq<Seq<char>>>,
                Seq<char>,
            >(None)
            &&& name == "studybuddy"@ && given ==> exclude_field(yaml) == section_flag(es[i].text)
            &&& name == "studybuddy"@ && !given ==> exclude_field(yaml) == Ok::<
                Option<bool>,
                Seq<char>,
            >(None)
        }),
{
    lemma_one_text(entries(lines(yaml)), name, i);
}

/// The flag of a section that stands below its key is what stands in the one entry
/// with the flag, and missing where there is none; two are refused, and so is a
/// section that is no mapping.
pub proof fn law_flag_stands_in_its_section(text: Seq<char>, i: int)
    requires
        lines(text).len() > 0,
        trim(lines(text)[0]) == "studybuddy:"@,
        comes_apart(entries(lines(text).skip(1))),
    ensures
        ({
            let es = entries(lines(text).skip(1));
            let given = 0 <= i < es.len();
            let alone = forall|k: int|
                0 <= k < es.len() && k != i ==> !has_key((#[trigger] es[k]).text, "exclude"@);
            &&& yaml_sections(text) matches Err(e) ==> section_flag(text) == Err::<
                Option<bool>,
                Seq<char>,
            >(e)
            &&& yaml_sections(text) is Ok && alone && given && has_key(es[i].text, "exclude"@)
                ==> section_flag(text) == flag_field(es[i].text)
            &&& yaml_sections(text) is Ok && alone && !given ==> section_flag(text) == Ok::<
                Option<bool>,
                Seq<char>,
            >(None)
            &&& !alone && given && has_key(es[i].text, "exclude"@) ==> section_flag(text) is Err
        }),
{
    let es = entries(lines(text).skip(1));
    let name = "exclude"@;
    let alone = forall|k: int|
        0 <= k < es.len() && k != i ==> !has_key((#[trigger] es[k]).text, name);
    if alone && (0 <= i < es.len() ==> has_key(es[i].text, name)) {
        lemma_one_text(es, name, i);
    }
    if !alone && 0 <= i < es.len() && has_key(es[i].text, name) {
        let k = choose|k: int|
            0 <= k < es.len() && k != i && has_key((#[trigger] es[k]).text, name);
        if i < k {
            lemma_two_texts(es, name, i, k);
        } else {
            lemma_two_texts(es, name, k, i);
        }
    }
}

/// The flag in a mapping is the boolean under `exclude`, and missing where the
/// mapping lacks it.
pub proof fn law_flag_is_the_boolean_there(yaml: Seq<char>, value: Seq<char>, b: bool)
    ensures
        yaml_field(yaml, "exclude"@) == Ok::<Option<Seq<char>>, Seq<char>>(Some(value))
            && yaml_bool(value) == Ok::<bool, Seq<char>>(b) ==> flag_field(yaml) == Ok::<
            Option<bool>,
            Seq<char>,
        >(Some(b)),
        yaml_field(yaml, "exclude"@) == Ok::<Option<Seq<char>>, Seq<char>>(None) ==> flag_field(
            yaml,
        ) == Ok::<Option<bool>, Seq<char>>(None),
        yaml_field(yaml, "exclude"@) == Ok::<Option<Seq<char>>, Seq<char>>(Some(value))
            && yaml_bool(value) is Err ==> flag_field(yaml) is Err,
{
}

/// A frontmatter that is no mapping is refused.
pub proof fn law_only_mappings_are_frontmatter(yaml: Seq<char>)
    ensures
        yaml_keys(yaml) matches Err(e) ==> note_settings(Some(yaml)) == Err::<
            (bool, Seq<Seq<char>>),
            Seq<char>,
        >(e),
{
}

/// A frontmatter that does not come apart is read as a whole: the list under
/// `tags`, and the flag in the mapping under `studybuddy`.
pub proof fn law_other_frontmatter_is_read_as_a_whole(
    yaml: Seq<char>,
    value: Seq<char>,
    section: Seq<char>,
)
    requires
        yaml_keys(yaml) is Ok,
        !comes_apart(entries(lines(yaml))),
    ensures
        yaml_field(yaml, "tags"@) == Ok::<Option<Seq<char>>, Seq<char>>(Some(value))
            ==> tags_field(yaml) == yaml_strings(value),
        yaml_field(yaml, "tags"@) == Ok::<Option<Seq<char>>, Seq<char>>(None) ==> tags_field(yaml)
            == Ok::<Option<Seq<Seq<char>>>, Seq<char>>(None),
        yaml_field(yaml, "studybuddy"@) == Ok::<Option<Seq<char>>, Seq<char>>(Some(section))
            ==> exclude_field(yaml) == flag_field(section),
        yaml_field(yaml, "studybuddy"@) == Ok::<Option<Seq<char>>, Seq<char>>(None)
            ==> exclude_field(yaml) == Ok::<Option<bool>, Seq<char>>(None),
{
}

} // verus!
