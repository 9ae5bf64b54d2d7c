//! Every statement that is believed rather than proved: the contracts of the
//! outside functions that the library calls.

use std::collections::BTreeMap;

use vstd::prelude::*;

use crate::model::{opt_view, uuid_text, CardId, Timestamp};
use crate::text::views;

verus! {

/// `String::push` of std: appends the character to the end of the string.
pub assume_specification[ String::push ](s: &mut String, c: char)
    ensures
        final(s)@ == old(s)@.push(c),
;

/// The name of what `char::is_alphanumeric` of std answers for a character.
pub uninterp spec fn unicode_alphanumeric(c: char) -> bool;

/// `char::is_alphanumeric` of std: whether Unicode counts the character as a
/// letter or a number. The answer depends on the character alone; which
/// characters those are is left to the Unicode tables.
#[verifier::external_body]
pub(crate) fn is_alphanumeric(c: char) -> (b: bool)
    ensures
        b == unicode_alphanumeric(c),
{
    c.is_alphanumeric()
}

/// The text inside a result.
pub open spec fn result_view(r: Result<String, String>) -> Result<Seq<char>, Seq<char>> {
    match r {
        Ok(s) => Ok(s@),
        Err(e) => Err(e@),
    }
}

/// The text inside a result that may hold none.
pub open spec fn option_result_view(r: Result<Option<String>, String>) -> Result<
    Option<Seq<char>>,
    Seq<char>,
> {
    match r {
        Ok(Some(s)) => Ok(Some(s@)),
        Ok(None) => Ok(None),
        Err(e) => Err(e@),
    }
}

/// The strings inside a result.
pub open spec fn list_result_view(r: Result<Vec<String>, String>) -> Result<
    Seq<Seq<char>>,
    Seq<char>,
> {
    match r {
        Ok(v) => Ok(views(v@)),
        Err(e) => Err(e@),
    }
}

/// The name of the keys that `serde_yaml` finds in a YAML mapping, each once
/// and in order; its message where the text is no mapping with string keys.
pub uninterp spec fn yaml_keys(yaml: Seq<char>) -> Result<Seq<Seq<char>>, Seq<char>>;

/// `serde_yaml::from_str` into a map whose values are ignored. The outcome
/// depends on the text alone; how YAML is read is left to the crate.
#[verifier::external_body]
pub(crate) fn yaml_names(yaml: &str) -> (r: Result<Vec<String>, String>)
    ensures
        list_result_view(r) == yaml_keys(yaml@),
{
    serde_yaml::from_str::<BTreeMap<String, serde::de::IgnoredAny>>(yaml)
        .map(|m| m.into_keys().collect())
        .map_err(|e| e.to_string())
}

/// The name of the strings that `serde_yaml` finds under a key of a YAML
/// mapping of lists; `None` where the mapping lacks the key, its message where
/// the text is no such mapping.
pub uninterp spec fn yaml_strings_at(yaml: Seq<char>, key: Seq<char>) -> Result<
    Option<Seq<Seq<char>>>,
    Seq<char>,
>;

/// `serde_yaml::from_str` into a map of lists of strings, and the list under a
/// key. The outcome depends on the two texts alone. A scalar in a list is its
/// own text; a list that is left out is empty, and `null` is none.
#[verifier::external_body]
pub(crate) fn yaml_list_at(yaml: &str, key: &str) -> (r: Result<Option<Vec<String>>, String>)
    ensures
        strings_result_view(r) == yaml_strings_at(yaml@, key@),
{
    serde_yaml::from_str::<BTreeMap<String, Vec<String>>>(yaml)
        .map(|mut m| m.remove(key))
        .map_err(|e| e.to_string())
}

/// The name of whether `serde_yaml` takes a text for a YAML mapping of
/// mappings; its message where it does not.
pub uninterp spec fn yaml_sections(yaml: Seq<char>) -> Result<(), Seq<char>>;

/// `serde_yaml::from_str` into a map of maps whose values are ignored. The
/// outcome depends on the text alone. A mapping that is left out is empty, and
/// `null` is none.
#[verifier::external_body]
pub(crate) fn sections_check(yaml: &str) -> (r: Result<(), String>)
    ensures
        unit_result_view(r) == yaml_sections(yaml@),
{
    serde_yaml::from_str::<BTreeMap<String, BTreeMap<String, serde::de::IgnoredAny>>>(yaml)
        .map(|_| ())
        .map_err(|e| e.to_string())
}

/// The name of what `serde_yaml` finds under a key of a YAML mapping: the
/// value, written as YAML again; `None` where the mapping lacks the key or the
/// text is null or empty; its message where the text is no mapping with
/// string keys.
pub uninterp spec fn yaml_field(yaml: Seq<char>, key: Seq<char>) -> Result<
    Option<Seq<char>>,
    Seq<char>,
>;

/// `serde_yaml::from_str` into a map of values, and `serde_yaml::to_string` of
/// the value under a key. The outcome depends on the two texts alone; how YAML
/// is read and written is left to the crate. It writes a plain scalar in its
/// canonical form, `3.10` as `3.1`, and a value that is left out as `null`.
#[verifier::external_body]
pub(crate) fn yaml_value_at(yaml: &str, key: &str) -> (r: Result<Option<String>, String>)
    ensures
        option_result_view(r) == yaml_field(yaml@, key@),
{
    let map = serde_yaml::from_str::<Option<BTreeMap<String, serde_yaml::Value>>>(yaml)
        .map_err(|e| e.to_string())?;
    match map.and_then(|m| m.get(key).cloned()) {
        Some(value) => serde_yaml::to_string(&value).map(Some).map_err(|e| e.to_string()),
        None => Ok(None),
    }
}

/// The name of what `serde_yaml` reads from a YAML list of scalars: `None`
/// where the text is null or empty, its message where it is no such list.
pub uninterp spec fn yaml_strings(yaml: Seq<char>) -> Result<Option<Seq<Seq<char>>>, Seq<char>>;

/// The strings inside a result that may hold none.
pub open spec fn strings_result_view(r: Result<Option<Vec<String>>, String>) -> Result<
    Option<Seq<Seq<char>>>,
    Seq<char>,
> {
    match r {
        Ok(Some(v)) => Ok(Some(views(v@))),
        Ok(None) => Ok(None),
        Err(e) => Err(e@),
    }
}

/// `serde_yaml::from_str` into a list of strings. The outcome depends on the
/// text alone.
#[verifier::external_body]
pub(crate) fn yaml_list(yaml: &str) -> (r: Result<Option<Vec<String>>, String>)
    ensures
        strings_result_view(r) == yaml_strings(yaml@),
{
    serde_yaml::from_str::<Option<Vec<String>>>(yaml).map_err(|e| e.to_string())
}

/// The name of what `serde_yaml` reads from a YAML boolean; its message where
/// the text is none.
pub uninterp spec fn yaml_bool(yaml: Seq<char>) -> Result<bool, Seq<char>>;

/// The message inside a result of a boolean.
pub open spec fn bool_result_view(r: Result<bool, String>) -> Result<bool, Seq<char>> {
    match r {
        Ok(b) => Ok(b),
        Err(e) => Err(e@),
    }
}

/// `serde_yaml::from_str` into a boolean. The outcome depends on the text
/// alone.
#[verifier::external_body]
pub(crate) fn yaml_flag(yaml: &str) -> (r: Result<bool, String>)
    ensures
        bool_result_view(r) == yaml_bool(yaml@),
{
    serde_yaml::from_str::<bool>(yaml).map_err(|e| e.to_string())
}

/// The name of whether `serde_json` takes a text for a JSON object; its message
/// where it does not.
pub uninterp spec fn json_object(json: Seq<char>) -> Result<(), Seq<char>>;

/// The message inside a result without a value.
pub open spec fn unit_result_view(r: Result<(), String>) -> Result<(), Seq<char>> {
    match r {
        Ok(_) => Ok(()),
        Err(e) => Err(e@),
    }
}

/// `serde_json::from_str` into a map whose values are passed over. The outcome
/// depends on the text alone.
#[verifier::external_body]
pub(crate) fn object_check(json: &str) -> (r: Result<(), String>)
    ensures
        unit_result_view(r) == json_object(json@),
{
    serde_json::from_str::<BTreeMap<String, serde::de::IgnoredAny>>(json)
        .map(|_| ())
        .map_err(|e| e.to_string())
}

/// The name of the JSON value that `serde_json` finds at the head of a text, as
/// it stands there, and of the text behind it; `None` where there is none.
pub uninterp spec fn json_head(text: Seq<char>) -> Option<(Seq<char>, Seq<char>)>;

/// The two texts inside an option.
pub open spec fn head_view(r: Option<(String, String)>) -> Option<(Seq<char>, Seq<char>)> {
    match r {
        Some((value, rest)) => Some((value@, rest@)),
        None => None,
    }
}

/// The first step of `serde_json::StreamDeserializer`, which reads one value
/// after another, and where that step ends. The outcome depends on the text
/// alone, and the value takes up part of it.
#[verifier::external_body]
pub(crate) fn json_first(text: &str) -> (r: Option<(String, String)>)
    ensures
        head_view(r) == json_head(text@),
        r matches Some((_, rest)) ==> rest@.len() < text@.len(),
{
    let mut values = serde_json::Deserializer::from_str(text)
        .into_iter::<Box<serde_json::value::RawValue>>();
    let value = values.next()?.ok()?;
    let rest = text.get(values.byte_offset()..)?;
    Some((value.get().to_string(), rest.to_string()))
}

/// The name of what `serde_json` reads from a JSON array: the text of each item
/// as it stands there; its message where the text is no array.
pub uninterp spec fn json_items(json: Seq<char>) -> Result<Seq<Seq<char>>, Seq<char>>;

/// `serde_json::from_str` into a list of raw values, each as its text. The
/// outcome depends on the text alone.
#[verifier::external_body]
pub(crate) fn json_list(json: &str) -> (r: Result<Vec<String>, String>)
    ensures
        list_result_view(r) == json_items(json@),
{
    let items = serde_json::from_str::<Vec<Box<serde_json::value::RawValue>>>(json)
        .map_err(|e| e.to_string())?;
    Ok(items.iter().map(|value| value.get().to_string()).collect())
}

/// The name of what `serde_json` reads from a JSON string: `None` where the
/// text is null, its message where it is neither.
pub uninterp spec fn json_string(json: Seq<char>) -> Result<Option<Seq<char>>, Seq<char>>;

/// `serde_json::from_str` into a string. The outcome depends on the text alone.
#[verifier::external_body]
pub(crate) fn json_text(json: &str) -> (r: Result<Option<String>, String>)
    ensures
        option_result_view(r) == json_string(json@),
{
    serde_json::from_str::<Option<String>>(json).map_err(|e| e.to_string())
}

/// The name of the string that `serde_json` finds under a key of a JSON object;
/// `None` where the text is not JSON, is no object, lacks the key, or holds
/// something else there.
pub uninterp spec fn json_string_at(json: Seq<char>, key: Seq<char>) -> Option<Seq<char>>;

/// `serde_json::from_str` into a value, of which `Value::get` and `Value::as_str`
/// hand out the string under a key. The outcome depends on the two texts alone.
#[verifier::external_body]
pub(crate) fn json_text_at(json: &str, key: &str) -> (r: Option<String>)
    ensures
        opt_view(r) == json_string_at(json@, key@),
{
    let value = serde_json::from_str::<serde_json::Value>(json).ok()?;
    Some(value.get(key)?.as_str()?.to_string())
}

/// `DateTime::<Utc>::now` of chrono: the time of the machine's clock. Of a clock
/// set to 1970 or later only the form of its time is known; which time it is
/// depends on the machine.
#[verifier::external_body]
pub(crate) fn clock_time() -> (t: Timestamp)
    ensures
        t.secs >= 0,
        t.nanos < 1_000_000_000,
        t.valid(),
{
    let now = chrono::Utc::now();
    Timestamp { secs: now.timestamp(), nanos: now.timestamp_subsec_nanos() }
}

/// `DateTime::from_timestamp` and `DateTime::checked_add_signed` of chrono with
/// `TimeDelta::days`: the instant so many days later, or `None` where the
/// calendar lacks the instant or the later one.
#[verifier::external_body]
pub(crate) fn add_days(t: Timestamp, days: u32) -> (r: Option<Timestamp>)
    ensures
        match r {
            Some(later) => t.valid() && t.has_days_later(days) && later == t.days_later(days),
            None => !(t.valid() && t.has_days_later(days)),
        },
{
    let start = chrono::DateTime::<chrono::Utc>::from_timestamp(t.secs, t.nanos)?;
    let later = start.checked_add_signed(chrono::TimeDelta::days(days as i64))?;
    Some(Timestamp { secs: later.timestamp(), nanos: later.timestamp_subsec_nanos() })
}

/// `Uuid::from_u128` and the `Display` of `Uuid` of uuid: the id as lowercase
/// hexadecimal digits, most significant first, with hyphens between the groups.
#[verifier::external_body]
pub(crate) fn uuid_string(id: CardId) -> (s: String)
    ensures
        s@ == uuid_text(id),
{
    uuid::Uuid::from_u128(id).to_string()
}

/// `Uuid::new_v4` of uuid: a random id. Which one it is depends on chance; it is
/// always of version 4 and of the variant of RFC 9562.
#[verifier::external_body]
pub(crate) fn random_id() -> (id: CardId)
    ensures
        id & 0xF000_0000_0000_0000_0000u128 == 0x4000_0000_0000_0000_0000u128,
        id & 0xC000_0000_0000_0000u128 == 0x8000_0000_0000_0000u128,
{
    uuid::Uuid::new_v4().as_u128()
}

/// The name of what `Sha256::digest` of sha2 computes from the UTF-8 bytes of a
/// text.
pub uninterp spec fn sha256(text: Seq<char>) -> Seq<u8>;

/// `Sha256::digest` of sha2 over the bytes of a text: 32 bytes that depend on
/// the text alone. That different texts have different digests is likely and
/// not claimed.
#[verifier::external_body]
pub(crate) fn sha256_digest(text: &str) -> (d: Vec<u8>)
    ensures
        d@ == sha256(text@),
        d@.len() == 32,
{
    <sha2::Sha256 as sha2::Digest>::digest(text.as_bytes()).to_vec()
}

/// The name of what `str::to_lowercase` of std makes of a text.
pub uninterp spec fn lowercase(text: Seq<char>) -> Seq<char>;

/// `str::to_lowercase` of std: the text in lower case by the rules of Unicode.
/// The outcome depends on the text alone; the rules are left to std.
#[verifier::external_body]
pub(crate) fn to_lowercase(text: &str) -> (s: String)
    ensures
        s@ == lowercase(text@),
{
    text.to_lowercase()
}

} // verus!
