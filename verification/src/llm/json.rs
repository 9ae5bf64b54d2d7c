//! Fields of JSON values: by name from an object, by position from an array.
//!
//! How JSON is read is left to serde_json, which reads one value at a time; here
//! stands which value is which field. A field that an object gives twice is an
//! error, and so is an array with more items than there are fields.

use vstd::prelude::*;
use vstd::slice::slice_subrange;
use vstd::string::StringExecFns;

use crate::text::{
    chars_of, lemma_run, same, string_of, strip_start, stripped_start, views, Class,
};
use crate::trusted::{
    json_first, json_head, json_items, json_list, json_object, json_string, json_text,
    object_check, option_result_view,
};

verus! {

// ---------- the model ----------

/// A member of an object, with its key and its value as they stand there.
pub struct MemberView {
    pub key: Seq<char>,
    pub value: Seq<char>,
}

/// The members of an object, from behind its brace or a comma on.
pub open spec fn members(text: Seq<char>) -> Seq<MemberView>
    decreases text.len(),
{
    match json_head(text) {
        Some((key, rest)) => {
            let colon = strip_start(rest, Class::JsonSpace);
            if colon.len() == 0 {
                seq![]
            } else {
                match json_head(colon.drop_first()) {
                    Some((value, more)) => {
                        let end = strip_start(more, Class::JsonSpace);
                        let first = MemberView { key, value };
                        if 0 < end.len() <= text.len() && end[0] == ',' {
                            seq![first] + members(end.drop_first())
                        } else {
                            seq![first]
                        }
                    },
                    None => seq![],
                }
            }
        },
        None => seq![],
    }
}

/// The members of a text that is an object.
pub open spec fn object_members(json: Seq<char>) -> Result<Seq<MemberView>, Seq<char>> {
    match json_object(json) {
        Ok(_) => {
            let brace = strip_start(json, Class::JsonSpace);
            Ok(
                if brace.len() == 0 {
                    seq![]
                } else {
                    members(brace.drop_first())
                },
            )
        },
        Err(e) => Err(e),
    }
}

/// Whether a key, as it stands in an object, reads as a name.
pub open spec fn reads_as(key: Seq<char>, name: Seq<char>) -> bool {
    json_string(key) == Ok::<Option<Seq<char>>, Seq<char>>(Some(name))
}

/// The values of the members with a name.
pub open spec fn values_of(ms: Seq<MemberView>, name: Seq<char>) -> Seq<Seq<char>>
    decreases ms.len(),
{
    if ms.len() == 0 {
        seq![]
    } else if reads_as(ms.last().key, name) {
        values_of(ms.drop_last(), name).push(ms.last().value)
    } else {
        values_of(ms.drop_last(), name)
    }
}

/// The one value of a name, if it has any.
pub open spec fn only_value(values: Seq<Seq<char>>, name: Seq<char>) -> Result<
    Option<Seq<char>>,
    Seq<char>,
> {
    if values.len() == 0 {
        Ok(None)
    } else if values.len() == 1 {
        Ok(Some(values[0]))
    } else {
        Err("duplicate field `"@ + name + "`"@)
    }
}

/// The item at a position of an array that stands for so many fields.
pub open spec fn item_at(items: Seq<Seq<char>>, position: nat, fields: nat) -> Result<
    Option<Seq<char>>,
    Seq<char>,
> {
    if items.len() > fields {
        Err("trailing characters"@)
    } else if position < items.len() {
        Ok(Some(items[position as int]))
    } else {
        Ok(None)
    }
}

/// A field of a value with so many fields, as it stands there: by name where the
/// value is an object, by position where it is an array.
pub open spec fn field(
    json: Seq<char>,
    name: Seq<char>,
    position: nat,
    fields: nat,
) -> Result<Option<Seq<char>>, Seq<char>> {
    match json_items(json) {
        Ok(items) => item_at(items, position, fields),
        Err(_) => match object_members(json) {
            Ok(ms) => only_value(values_of(ms, name), name),
            Err(e) => Err(e),
        },
    }
}

// ---------- the code ----------

/// A member of an object, with its key and its value as they stand there.
struct Member {
    key: String,
    value: String,
}

impl View for Member {
    type V = MemberView;

    closed spec fn view(&self) -> MemberView {
        MemberView { key: self.key@, value: self.value@ }
    }
}

spec fn member_views(v: Seq<Member>) -> Seq<MemberView> {
    v.map_values(|m: Member| m@)
}

/// The text behind white space and one character, and that character.
fn behind(text: &str) -> (r: Option<(char, String)>)
    ensures
        ({
            let s = strip_start(text@, Class::JsonSpace);
            match r {
                Some((c, rest)) => s.len() > 0 && c == s[0] && rest@ == s.drop_first()
                    && rest@.len() < text@.len(),
                None => s.len() == 0,
            }
        }),
{
    let chars = chars_of(text);
    let s = stripped_start(&chars, Class::JsonSpace);
    proof {
        lemma_run(text@, Class::JsonSpace);
    }
    if s.len() == 0 {
        return None;
    }
    let rest = slice_subrange(s, 1, s.len());
    assert(rest@ =~= s@.drop_first());
    Some((s[0], string_of(rest)))
}

/// The members of an object, from behind its brace on.
fn read_members(text: String) -> (out: Vec<Member>)
    ensures
        member_views(out@) == members(text@),
{
    let ghost whole = text@;
    let mut left = text;
    let mut out: Vec<Member> = Vec::new();
    assert(member_views(out@) + members(left@) =~= members(whole));
    loop
        invariant
            whole == text@,
            member_views(out@) + members(left@) == members(whole),
        decreases left@.len(),
    {
        let ghost done = out@;
        let (key, rest) = match json_first(left.as_str()) {
            Some((key, rest)) => (key, rest),
            None => {
                assert(member_views(out@) =~= members(whole));
                return out;
            },
        };
        let colon = match behind(rest.as_str()) {
            Some((_, colon)) => colon,
            None => {
                assert(member_views(out@) =~= members(whole));
                return out;
            },
        };
        let (value, more) = match json_first(colon.as_str()) {
            Some((value, more)) => (value, more),
            None => {
                assert(member_views(out@) =~= members(whole));
                return out;
            },
        };
        let member = Member { key, value };
        out.push(member);
        assert(member_views(out@) =~= member_views(done).push(member@));
        match behind(more.as_str()) {
            Some((',', next)) => {
                assert(members(left@) =~= seq![member@] + members(next@));
                assert(member_views(out@) + members(next@) =~= member_views(done) + members(left@));
                left = next;
            },
            _ => {
                assert(member_views(out@) =~= member_views(done) + members(left@));
                return out;
            },
        }
    }
}

/// The values of the members with a name.
fn values_named(ms: &Vec<Member>, name: &str) -> (out: Vec<String>)
    ensures
        views(out@) == values_of(member_views(ms@), name@),
{
    let ghost all = member_views(ms@);
    let n = ms.len();
    let mut out: Vec<String> = Vec::new();
    assert(views(out@) =~= values_of(all.take(0), name@));
    for i in 0..n
        invariant
            n == ms@.len(),
            all == member_views(ms@),
            views(out@) == values_of(all.take(i as int), name@),
    {
        assert(all.take(i + 1).drop_last() =~= all.take(i as int));
        assert(all.take(i + 1).last() == ms@[i as int]@);
        let ghost before = out@;
        if let Ok(Some(key)) = json_text(ms[i].key.as_str()) {
            if same(key.as_str(), name) {
                out.push(ms[i].value.clone());
                assert(views(out@) =~= views(before).push(ms@[i as int].value@));
            }
        }
    }
    assert(all.take(n as int) =~= all);
    out
}

/// The one value of a name, if it has any.
pub fn single_value(values: Vec<String>, name: &str) -> (r: Result<Option<String>, String>)
    ensures
        option_result_view(r) == only_value(views(values@), name@),
{
    if values.len() > 1 {
        let mut e = "duplicate field `".to_string();
        e.append(name);
        e.append("`");
        return Err(e);
    }
    if values.len() == 1 {
        Ok(Some(values[0].clone()))
    } else {
        Ok(None)
    }
}

/// The item at a position of an array that stands for so many fields.
pub fn value_at(items: Vec<String>, position: usize, fields: usize) -> (r: Result<
    Option<String>,
    String,
>)
    ensures
        option_result_view(r) == item_at(views(items@), position as nat, fields as nat),
{
    if items.len() > fields {
        return Err("trailing characters".to_string());
    }
    if position < items.len() {
        Ok(Some(items[position].clone()))
    } else {
        Ok(None)
    }
}

/// A field of a value with so many fields, as it stands there: by name where the
/// value is an object, by position where it is an array.
pub fn read_field(json: &str, name: &str, position: usize, fields: usize) -> (r: Result<
    Option<String>,
    String,
>)
    ensures
        option_result_view(r) == field(json@, name@, position as nat, fields as nat),
{
    match json_list(json) {
        Ok(items) => value_at(items, position, fields),
        Err(_) => match object_check(json) {
            Ok(_) => {
                let ms = match behind(json) {
                    Some((_, inside)) => read_members(inside),
                    None => Vec::new(),
                };
                assert(member_views(ms@) =~= object_members(json@)->Ok_0);
                single_value(values_named(&ms, name), name)
            },
            Err(e) => Err(e),
        },
    }
}

// ---------- laws ----------

/// A field that an object gives more than once is an error, whatever its values
/// are; fields of other names can be given as often as they like.
pub proof fn law_fields_are_given_once(ms: Seq<MemberView>, name: Seq<char>, i: int, j: int)
    requires
        0 <= i < j < ms.len(),
    ensures
        reads_as(ms[i].key, name) && reads_as(ms[j].key, name) ==> only_value(
            values_of(ms, name),
            name,
        ) is Err,
        (forall|k: int| 0 <= k < ms.len() && reads_as((#[trigger] ms[k]).key, name) ==> k == i)
            ==> only_value(values_of(ms, name), name) is Ok,
{
    if reads_as(ms[i].key, name) && reads_as(ms[j].key, name) {
        lemma_two_values(ms, name, i, j);
    }
    if forall|k: int| 0 <= k < ms.len() && reads_as((#[trigger] ms[k]).key, name) ==> k == i {
        lemma_one_value(ms, name, i);
    }
}

proof fn lemma_values(ms: Seq<MemberView>, name: Seq<char>)
    ensures
        values_of(ms, name).len() <= ms.len(),
        forall|k: int|
            0 <= k < ms.len() && reads_as((#[trigger] ms[k]).key, name) ==> values_of(
                ms,
                name,
            ).len() > 0,
    decreases ms.len(),
{
    if ms.len() > 0 {
        lemma_values(ms.drop_last(), name);
        assert forall|k: int|
            0 <= k < ms.len() && reads_as((#[trigger] ms[k]).key, name) implies values_of(
            ms,
            name,
        ).len() > 0 by {
            if k < ms.len() - 1 {
                assert(ms.drop_last()[k] == ms[k]);
            }
        }
    }
}

proof fn lemma_two_values(ms: Seq<MemberView>, name: Seq<char>, i: int, j: int)
    requires
        0 <= i < j < ms.len(),
        reads_as(ms[i].key, name),
        reads_as(ms[j].key, name),
    ensures
        values_of(ms, name).len() > 1,
    decreases ms.len(),
{
    let few = ms.drop_last();
    if j < few.len() {
        lemma_two_values(few, name, i, j);
    } else {
        lemma_values(few, name);
        assert(few[i] == ms[i]);
    }
}

proof fn lemma_one_value(ms: Seq<MemberView>, name: Seq<char>, i: int)
    requires
        forall|k: int| 0 <= k < ms.len() && reads_as((#[trigger] ms[k]).key, name) ==> k == i,
    ensures
        values_of(ms, name).len() <= 1,
        i >= ms.len() || i < 0 ==> values_of(ms, name).len() == 0,
    decreases ms.len(),
{
    if ms.len() > 0 {
        let few = ms.drop_last();
        assert forall|k: int| 0 <= k < few.len() && reads_as(
            (#[trigger] few[k]).key,
            name,
        ) implies k == i by {
            assert(few[k] == ms[k]);
        }
        lemma_one_value(few, name, i);
        if reads_as(ms.last().key, name) {
            assert(ms[ms.len() - 1] == ms.last());
        }
    }
}

/// A field that an object gives once is the value that stands there.
pub proof fn law_field_is_its_value(ms: Seq<MemberView>, name: Seq<char>, i: int)
    requires
        0 <= i < ms.len(),
        reads_as(ms[i].key, name),
        forall|k: int| 0 <= k < ms.len() && reads_as((#[trigger] ms[k]).key, name) ==> k == i,
    ensures
        only_value(values_of(ms, name), name) == Ok::<Option<Seq<char>>, Seq<char>>(
            Some(ms[i].value),
        ),
    decreases ms.len(),
{
    let few = ms.drop_last();
    assert forall|k: int| 0 <= k < few.len() && reads_as(
        (#[trigger] few[k]).key,
        name,
    ) implies k == i by {
        assert(few[k] == ms[k]);
    }
    if i < few.len() {
        assert(few[i] == ms[i]);
        law_field_is_its_value(few, name, i);
        assert(!reads_as(ms[ms.len() - 1].key, name));
    } else {
        lemma_one_value(few, name, i);
    }
}

/// A field that an object does not give is missing, and no error.
pub proof fn law_missing_field_is_none(ms: Seq<MemberView>, name: Seq<char>)
    requires
        forall|k: int| 0 <= k < ms.len() ==> !reads_as((#[trigger] ms[k]).key, name),
    ensures
        only_value(values_of(ms, name), name) == Ok::<Option<Seq<char>>, Seq<char>>(None),
{
    lemma_one_value(ms, name, -1);
}

/// An array gives a field by its position, as far as it goes, and is refused if it
/// has more items than there are fields.
pub proof fn law_array_gives_fields_by_position(items: Seq<Seq<char>>, position: nat, fields: nat)
    ensures
        items.len() > fields ==> item_at(items, position, fields) is Err,
        items.len() <= fields && position < items.len() ==> item_at(items, position, fields)
            == Ok::<Option<Seq<char>>, Seq<char>>(Some(items[position as int])),
        items.len() <= fields && position >= items.len() ==> item_at(items, position, fields)
            == Ok::<Option<Seq<char>>, Seq<char>>(None),
{
}

/// A value gives its fields by position where it is an array and by name where it
/// is an object, and none where it is neither.
pub proof fn law_fields_come_from_arrays_or_objects(
    json: Seq<char>,
    name: Seq<char>,
    position: nat,
    fields: nat,
)
    ensures
        json_items(json) matches Ok(items) ==> field(json, name, position, fields) == item_at(
            items,
            position,
            fields,
        ),
        json_items(json) is Err ==> match object_members(json) {
            Ok(ms) => field(json, name, position, fields) == only_value(values_of(ms, name), name),
            Err(e) => field(json, name, position, fields) == Err::<Option<Seq<char>>, Seq<char>>(
                e,
            ),
        },
        json_object(json) matches Err(e) ==> object_members(json) == Err::<
            Seq<MemberView>,
            Seq<char>,
        >(e),
{
}

/// Members are read one after another: a key, what stands between, a value, and
/// the others behind a comma.
pub proof fn law_members_are_read_in_turn(
    text: Seq<char>,
    key: Seq<char>,
    rest: Seq<char>,
    value: Seq<char>,
    more: Seq<char>,
)
    requires
        json_head(text) == Some((key, rest)),
        strip_start(rest, Class::JsonSpace).len() > 0,
        json_head(strip_start(rest, Class::JsonSpace).drop_first()) == Some((value, more)),
        strip_start(more, Class::JsonSpace).len() <= text.len(),
    ensures
        ({
            let end = strip_start(more, Class::JsonSpace);
            let first = MemberView { key, value };
            &&& end.len() > 0 && end[0] == ',' ==> members(text) == seq![first] + members(
                end.drop_first(),
            )
            &&& end.len() == 0 || end[0] != ',' ==> members(text) == seq![first]
        }),
{
}

} // verus!
