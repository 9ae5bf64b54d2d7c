//! Who may use the server.

use vstd::prelude::*;
use vstd::slice::slice_subrange;
use vstd::string::StringExecFns;

use crate::error::{AppError, ErrorView};
use crate::text::{chars_of, occurs_at, starts_with, string_of};
use crate::trusted::{sha256, sha256_digest};

verus! {

// ---------- the model ----------

/// What a client sends to show that it has a token.
pub open spec fn bearer(token: Seq<char>) -> Seq<char> {
    "Bearer "@ + token
}

/// The token that an `Authorization` header shows.
pub open spec fn presented(header: Seq<char>) -> Option<Seq<char>> {
    if occurs_at(header, "Bearer "@, 0) {
        Some(header.skip("Bearer "@.len() as int))
    } else {
        None
    }
}

/// Whether a request may pass: every request does where no token is
/// configured; else the token that it shows must have the same digest as the
/// configured one.
pub open spec fn admitted(configured: Option<Seq<char>>, header: Option<Seq<char>>) -> bool {
    match (configured, header) {
        (None, _) => true,
        (Some(expected), Some(h)) => match presented(h) {
            Some(token) => sha256(token) == sha256(expected),
            None => false,
        },
        (Some(_), None) => false,
    }
}

/// The text of an optional borrowed string.
pub open spec fn opt_str_view(o: Option<&str>) -> Option<Seq<char>> {
    match o {
        Some(s) => Some(s@),
        None => None,
    }
}

// ---------- the code ----------

/// Whether two digests are the same.
pub fn same_digest(a: &Vec<u8>, b: &Vec<u8>) -> (r: bool)
    ensures
        r == (a@ == b@),
{
    if a.len() != b.len() {
        return false;
    }
    let n = a.len();
    let mut i: usize = 0;
    while i < n
        invariant
            n == a@.len(),
            n == b@.len(),
            i <= n,
            forall|j: int| 0 <= j < i ==> a@[j] == b@[j],
        decreases n - i,
    {
        if a[i] != b[i] {
            return false;
        }
        i = i + 1;
    }
    assert(a@ =~= b@);
    true
}

/// The token that an `Authorization` header shows.
pub fn presented_token(header: &str) -> (r: Option<String>)
    ensures
        crate::model::opt_view(r) == presented(header@),
{
    let chars = chars_of(header);
    let prefix = chars_of("Bearer ");
    if starts_with(&chars, &prefix) {
        let token = slice_subrange(&chars, prefix.len(), chars.len());
        assert(token@ =~= header@.skip("Bearer "@.len() as int));
        Some(string_of(token))
    } else {
        None
    }
}

/// Lets a request pass, or not.
pub fn require_bearer(configured: Option<&str>, header: Option<&str>) -> (r: Result<
    (),
    AppError,
>)
    ensures
        match r {
            Ok(_) => admitted(opt_str_view(configured), opt_str_view(header)),
            Err(e) => !admitted(opt_str_view(configured), opt_str_view(header)) && e@
                == ErrorView::Unauthorized,
        },
{
    let expected = match configured {
        Some(expected) => expected,
        None => {
            return Ok(());
        },
    };
    let token = match header {
        Some(h) => presented_token(h),
        None => None,
    };
    match token {
        Some(token) => {
            if same_digest(&sha256_digest(token.as_str()), &sha256_digest(expected)) {
                Ok(())
            } else {
                Err(AppError::Unauthorized)
            }
        },
        None => Err(AppError::Unauthorized),
    }
}

/// What a client sends to show that it has a token.
pub fn bearer_header(token: &str) -> (h: String)
    ensures
        h@ == bearer(token@),
{
    let mut h = "Bearer ".to_string();
    h.append(token);
    h
}

// ---------- laws ----------

/// What a client with the configured token sends lets it pass.
pub proof fn law_bearer_of_the_token_is_admitted(token: Seq<char>)
    ensures
        presented(bearer(token)) == Some(token),
        admitted(Some(token), Some(bearer(token))),
{
    reveal_strlit("Bearer ");
    let h = bearer(token);
    assert(h.subrange(0, 7) =~= "Bearer "@);
    assert(h.skip(7) =~= token);
}

/// Without a header, or with one that shows no token, nobody passes where a
/// token is configured.
pub proof fn law_nothing_shown_is_refused(expected: Seq<char>, header: Seq<char>)
    ensures
        !admitted(Some(expected), None),
        presented(header) is None ==> !admitted(Some(expected), Some(header)),
{
}

/// Without a configured token everybody passes.
pub proof fn law_open_server_admits_all(header: Option<Seq<char>>)
    ensures
        admitted(None, header),
{
}

/// Where a token is configured, only a header passes that is the word `Bearer`, a
/// space, and a token with the digest of the configured one.
pub proof fn law_only_bearers_pass(expected: Seq<char>, header: Option<Seq<char>>)
    ensures
        admitted(Some(expected), header) <==> exists|token: Seq<char>|
            header == Some("Bearer "@ + token) && #[trigger] sha256(token) == sha256(expected),
{
    reveal_strlit("Bearer ");
    if let Some(h) = header {
        if occurs_at(h, "Bearer "@, 0) {
            let token = h.skip(7);
            assert(h =~= "Bearer "@ + token);
            assert(presented(h) == Some(token));
            if admitted(Some(expected), header) {
                assert(header == Some("Bearer "@ + token) && sha256(token) == sha256(expected));
            }
        }
        assert forall|token: Seq<char>| header == Some("Bearer "@ + token) && #[trigger] sha256(
            token,
        ) == sha256(expected) implies admitted(Some(expected), header) by {
            assert(h.subrange(0, 7) =~= "Bearer "@);
            assert(h.skip(7) =~= token);
        }
    }
}

/// A request passes, or is refused as unauthorized.
pub proof fn law_required_bearer(
    configured: Option<&str>,
    header: Option<&str>,
    r: Result<(), AppError>,
)
    requires
        call_ensures(require_bearer, (configured, header), r),
    ensures
        configured is None ==> r is Ok,
        configured matches Some(expected) ==> (r is Ok <==> exists|token: Seq<char>|
            opt_str_view(header) == Some("Bearer "@ + token) && #[trigger] sha256(token) == sha256(
                expected@,
            )),
        r matches Err(e) ==> e@ == ErrorView::Unauthorized,
{
    if let Some(expected) = configured {
        law_only_bearers_pass(expected@, opt_str_view(header));
    }
}

} // verus!
