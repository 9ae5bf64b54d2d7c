//! Talking to the server: where requests go, and what is made of refusals.

use vstd::prelude::*;
use vstd::string::StringExecFns;

use crate::model::{opt_view, uuid_text, CardId};
use crate::text::{chars_of, lemma_tail_run, string_of, strip_end, stripped_end, Class};
use crate::trusted::{json_string_at, json_text_at, uuid_string};
use crate::wire::ERROR_KEY;

verus! {

/// A server, by its base URL.
#[derive(Debug, PartialEq, Eq)]
pub struct Endpoint {
    pub base_url: String,
}

// ---------- the model ----------

/// The path of a card, and of something done to it.
pub open spec fn card_path(id: CardId, action: Seq<char>) -> Seq<char> {
    "/cards/"@ + uuid_text(id) + action
}

/// What is said of a refusal: the message, where there is one that is not
/// empty, or else the whole body.
pub open spec fn refusal(
    status_line: Seq<char>,
    message: Option<Seq<char>>,
    body: Seq<char>,
) -> Seq<char> {
    "server returned "@ + status_line + ": "@ + match message {
        Some(m) => if m.len() > 0 {
            m
        } else {
            body
        },
        None => body,
    }
}

/// Whether a token can go into a header.
pub open spec fn all_ascii(token: Seq<char>) -> bool {
    forall|i: int| 0 <= i < token.len() ==> (#[trigger] token[i] as u32) < 128
}

// ---------- the code ----------

impl Endpoint {
    /// A server; slashes at the end of its URL are dropped.
    pub fn new(base_url: &str) -> (e: Self)
        ensures
            e.base_url@ == strip_end(base_url@, Class::Only('/')),
    {
        let chars = chars_of(base_url);
        Endpoint { base_url: string_of(stripped_end(&chars, Class::Only('/'))) }
    }

    /// Where a path is on the server.
    pub fn url(&self, path: &str) -> (u: String)
        ensures
            u@ == self.base_url@ + path@,
    {
        let mut u = self.base_url.clone();
        u.append(path);
        u
    }
}

fn path_of_card(id: CardId, action: &str) -> (p: String)
    ensures
        p@ == card_path(id, action@),
{
    let mut p = "/cards/".to_string();
    p.append(uuid_string(id).as_str());
    p.append(action);
    p
}

/// The path that accepts a card.
pub fn accept_path(id: CardId) -> (p: String)
    ensures
        p@ == card_path(id, "/accept"@),
{
    path_of_card(id, "/accept")
}

/// The path that rejects a card.
pub fn reject_path(id: CardId) -> (p: String)
    ensures
        p@ == card_path(id, "/reject"@),
{
    path_of_card(id, "/reject")
}

/// The path that edits a card.
pub fn patch_path(id: CardId) -> (p: String)
    ensures
        p@ == card_path(id, ""@),
{
    path_of_card(id, "")
}

/// Whether a status is a success.
pub fn is_success(status: u16) -> (b: bool)
    ensures
        b == (200 <= status < 300),
{
    200 <= status && status < 300
}

/// What is said of a refusal with a message or without.
pub fn refusal_text(status_line: &str, message: Option<String>, body: &str) -> (t: String)
    ensures
        t@ == refusal(status_line@, opt_view(message), body@),
{
    let mut t = "server returned ".to_string();
    t.append(status_line);
    t.append(": ");
    match message {
        Some(m) => {
            if !m.as_str().is_empty() {
                t.append(m.as_str());
            } else {
                t.append(body);
            }
        },
        None => {
            t.append(body);
        },
    }
    t
}

/// What is said of a refusal: the message that its body carries, where it carries
/// one, or else the whole body.
pub fn error_from(status_line: &str, body: &str) -> (t: String)
    ensures
        t@ == refusal(status_line@, json_string_at(body@, ERROR_KEY@), body@),
{
    refusal_text(status_line, json_text_at(body, ERROR_KEY), body)
}

/// Whether a token can go into a header.
pub fn validate_api_token(token: &str) -> (r: Result<(), String>)
    ensures
        match r {
            Ok(_) => all_ascii(token@),
            Err(e) => !all_ascii(token@) && e@
                == "STUDYBUDDY_API_TOKEN must contain only ASCII characters"@,
        },
{
    let chars = chars_of(token);
    let n = chars.len();
    let mut i: usize = 0;
    while i < n
        invariant
            n == chars@.len(),
            chars@ == token@,
            i <= n,
            forall|j: int| 0 <= j < i ==> (#[trigger] token@[j] as u32) < 128,
        decreases n - i,
    {
        if chars[i] as u32 >= 128 {
            assert(token@[i as int] as u32 >= 128);
            return Err("STUDYBUDDY_API_TOKEN must contain only ASCII characters".to_string());
        }
        i = i + 1;
    }
    Ok(())
}

// ---------- laws ----------

/// A base URL can be written with slashes at its end or without.
pub proof fn law_slashes_at_the_end_do_not_count(base: Seq<char>)
    ensures
        strip_end(base.push('/'), Class::Only('/')) == strip_end(base, Class::Only('/')),
{
    let k = Class::Only('/');
    lemma_tail_run(base, k);
    assert(base.push('/').drop_last() =~= base);
    assert(strip_end(base.push('/'), k) =~= strip_end(base, k));
}

/// A base URL without a slash at its end stays as it is.
pub proof fn law_bare_urls_stay(base: Seq<char>)
    requires
        base.len() > 0 ==> base.last() != '/',
    ensures
        strip_end(base, Class::Only('/')) == base,
{
    assert(base.take(base.len() as int) =~= base);
}

/// A card's path names the card and what is done to it.
pub proof fn law_card_paths_name_the_card(id: CardId, action: Seq<char>)
    ensures
        card_path(id, action) == "/cards/"@ + uuid_text(id) + action,
{
}

/// A refusal is told with its status and the server's message, or with the whole
/// body where there is no message.
pub proof fn law_refusals_say_what_the_server_said(
    status_line: Seq<char>,
    message: Seq<char>,
    body: Seq<char>,
)
    ensures
        message.len() > 0 ==> refusal(status_line, Some(message), body) == "server returned "@
            + status_line + ": "@ + message,
        refusal(status_line, Some(seq![]), body) == "server returned "@ + status_line + ": "@
            + body,
        refusal(status_line, None, body) == "server returned "@ + status_line + ": "@ + body,
{
}

/// A token can go into a header if every character of it is ASCII, and not if one
/// is not.
pub proof fn law_tokens_are_ascii(token: Seq<char>, i: int)
    requires
        0 <= i < token.len(),
    ensures
        token[i] as u32 >= 128 ==> !all_ascii(token),
        all_ascii(token.drop_last()) && (token.last() as u32) < 128 ==> all_ascii(token),
{
    if all_ascii(token.drop_last()) && (token.last() as u32) < 128 {
        assert forall|j: int| 0 <= j < token.len() implies (#[trigger] token[j] as u32) < 128 by {
            if j < token.len() - 1 {
                assert(token.drop_last()[j] == token[j]);
            }
        }
    }
}

/// Requests about a card go to its own path: acceptance, rejection and edits each
/// to theirs.
pub proof fn law_each_request_has_its_path(id: CardId, a: String, r: String, p: String)
    ensures
        call_ensures(accept_path, (id,), a) ==> a@ == "/cards/"@ + uuid_text(id) + "/accept"@,
        call_ensures(reject_path, (id,), r) ==> r@ == "/cards/"@ + uuid_text(id) + "/reject"@,
        call_ensures(patch_path, (id,), p) ==> p@ == "/cards/"@ + uuid_text(id),
{
    reveal_strlit("");
    assert("/cards/"@ + uuid_text(id) + ""@ =~= "/cards/"@ + uuid_text(id));
}

/// A URL is the server's, without slashes at its end, and the path behind it; a
/// status of two hundred and something is a success and no other; and a refusal is
/// told with what the server says under `error`.
pub proof fn law_talking_to_the_server(
    base: &str,
    e: Endpoint,
    path: &str,
    url: String,
    status: u16,
    ok: bool,
    line: &str,
    body: &str,
    told: String,
)
    ensures
        call_ensures(Endpoint::new, (base,), e) ==> e.base_url@ == strip_end(
            base@,
            Class::Only('/'),
        ),
        call_ensures(Endpoint::url, (&e, path), url) ==> url@ == e.base_url@ + path@,
        call_ensures(is_success, (status,), ok) ==> (ok <==> 200 <= status <= 299),
        call_ensures(error_from, (line, body), told) ==> told@ == refusal(
            line@,
            json_string_at(body@, "error"@),
            body@,
        ),
{
}

} // verus!
