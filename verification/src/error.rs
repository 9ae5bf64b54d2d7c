//! The errors of the server, and how each is answered.

use vstd::prelude::*;

verus! {

/// What can go wrong while serving a request.
#[derive(Debug, PartialEq, Eq)]
pub enum AppError {
    /// The filesystem or the network failed, or what is stored cannot be read.
    Io(String),
    /// Nothing is known under that id.
    NotFound,
    /// The language model is misconfigured.
    Llm(String),
    /// A note's frontmatter does not parse.
    Parse(String),
    /// The request is not acceptable.
    BadRequest(String),
    /// The request does not fit the card's state.
    Conflict(String),
    /// The request carries no valid token.
    Unauthorized,
    /// The language model cannot be used right now.
    Unavailable(String),
}

/// What an error is.
pub enum ErrorView {
    Io(Seq<char>),
    NotFound,
    Llm(Seq<char>),
    Parse(Seq<char>),
    BadRequest(Seq<char>),
    Conflict(Seq<char>),
    Unauthorized,
    Unavailable(Seq<char>),
}

impl View for AppError {
    type V = ErrorView;

    open spec fn view(&self) -> ErrorView {
        match *self {
            AppError::Io(s) => ErrorView::Io(s@),
            AppError::NotFound => ErrorView::NotFound,
            AppError::Llm(s) => ErrorView::Llm(s@),
            AppError::Parse(s) => ErrorView::Parse(s@),
            AppError::BadRequest(s) => ErrorView::BadRequest(s@),
            AppError::Conflict(s) => ErrorView::Conflict(s@),
            AppError::Unauthorized => ErrorView::Unauthorized,
            AppError::Unavailable(s) => ErrorView::Unavailable(s@),
        }
    }
}

impl ErrorView {
    /// The HTTP status that answers the error.
    pub open spec fn status(self) -> u16 {
        match self {
            ErrorView::Io(_) => 500,
            ErrorView::NotFound => 404,
            ErrorView::Llm(_) => 500,
            ErrorView::Parse(_) => 400,
            ErrorView::BadRequest(_) => 400,
            ErrorView::Conflict(_) => 409,
            ErrorView::Unauthorized => 401,
            ErrorView::Unavailable(_) => 503,
        }
    }

    /// The message in the body of the answer.
    pub open spec fn message(self) -> Seq<char> {
        match self {
            ErrorView::Io(s) => s,
            ErrorView::NotFound => "not found"@,
            ErrorView::Llm(s) => s,
            ErrorView::Parse(s) => s,
            ErrorView::BadRequest(s) => s,
            ErrorView::Conflict(s) => s,
            ErrorView::Unauthorized => "unauthorized"@,
            ErrorView::Unavailable(s) => s,
        }
    }
}

/// An answer to a request that failed.
pub struct ErrorResponse {
    pub status: u16,
    pub message: String,
    /// What goes into the `WWW-Authenticate` header, where the answer has one.
    pub challenge: Option<&'static str>,
}

impl AppError {
    /// The answer to a request that failed with this error.
    pub fn into_response(self) -> (r: ErrorResponse)
        ensures
            r.status == self@.status(),
            r.message@ == self@.message(),
            match r.challenge {
                Some(c) => self@ is Unauthorized && c@ == "Bearer"@,
                None => !(self@ is Unauthorized),
            },
    {
        match self {
            AppError::Io(s) => ErrorResponse { status: 500, message: s, challenge: None },
            AppError::NotFound => ErrorResponse {
                status: 404,
                message: "not found".to_string(),
                challenge: None,
            },
            AppError::Llm(s) => ErrorResponse { status: 500, message: s, challenge: None },
            AppError::Parse(s) => ErrorResponse { status: 400, message: s, challenge: None },
            AppError::BadRequest(s) => ErrorResponse { status: 400, message: s, challenge: None },
            AppError::Conflict(s) => ErrorResponse { status: 409, message: s, challenge: None },
            AppError::Unauthorized => ErrorResponse {
                status: 401,
                message: "unauthorized".to_string(),
                challenge: Some("Bearer"),
            },
            AppError::Unavailable(s) => ErrorResponse { status: 503, message: s, challenge: None },
        }
    }
}

// ---------- laws ----------

/// Each error has its own status: what the client did wrong is answered in the four
/// hundreds, and what went wrong at the server in the five hundreds.
pub proof fn law_errors_have_their_status(e: ErrorView)
    ensures
        e.status() == 404 <==> e is NotFound,
        e.status() == 409 <==> e is Conflict,
        e.status() == 401 <==> e is Unauthorized,
        e.status() == 503 <==> e is Unavailable,
        e.status() == 400 <==> e is Parse || e is BadRequest,
        e.status() == 500 <==> e is Io || e is Llm,
{
}

/// An error is answered with its own message, where it has one.
pub proof fn law_errors_say_what_they_hold(s: Seq<char>)
    ensures
        ErrorView::Io(s).message() == s,
        ErrorView::Llm(s).message() == s,
        ErrorView::Parse(s).message() == s,
        ErrorView::BadRequest(s).message() == s,
        ErrorView::Conflict(s).message() == s,
        ErrorView::Unavailable(s).message() == s,
        ErrorView::NotFound.message() == "not found"@,
        ErrorView::Unauthorized.message() == "unauthorized"@,
{
}

/// An error is answered with its status and its message, and only a missing token
/// with a challenge.
pub proof fn law_answered_errors(e: AppError, r: ErrorResponse)
    requires
        call_ensures(AppError::into_response, (e,), r),
    ensures
        r.status == e@.status(),
        r.message@ == e@.message(),
        r.challenge is Some <==> e@ is Unauthorized,
        r.challenge matches Some(c) ==> c@ == "Bearer"@,
{
}

} // verus!
