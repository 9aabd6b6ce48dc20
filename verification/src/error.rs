//! The error envelope of the HTTP surface and the rules that turn a
//! failure into one.

use crate::strings::{decimal, to_decimal};
use vstd::prelude::*;
use vstd::string::*;

verus! {

/// The reason phrase that `http::StatusCode::canonical_reason` gives for a
/// status code, if the code is a valid status and has one.
pub uninterp spec fn reason_phrase(code: u16) -> Option<Seq<char>>;

/// The JSON string literal that `serde_json::to_string` writes for a text,
/// if it writes one.
pub uninterp spec fn json_string_of(text: Seq<char>) -> Option<Seq<char>>;

/// Turns the code into an `http::StatusCode` with `StatusCode::from_u16`
/// and asks it for its reason phrase with `canonical_reason`. A code that
/// is no status has no phrase.
#[verifier::external_body]
fn canonical_reason(code: u16) -> (r: Option<String>)
    ensures
        text_of_reason(r) == reason_phrase(code),
{
    match http::StatusCode::from_u16(code) {
        Ok(status) => match status.canonical_reason() {
            Some(phrase) => Some(phrase.to_owned()),
            None => None,
        },
        Err(_) => None,
    }
}

/// Calls `serde_json::to_string` on a text, which writes it as a JSON
/// string literal. Whether and what it writes depends on the text alone.
#[verifier::external_body]
fn json_string(text: &str) -> (r: Option<String>)
    ensures
        text_of_reason(r) == json_string_of(text@),
{
    serde_json::to_string(text).ok()
}

/// The text of an optional string.
pub open spec fn text_of_reason(r: Option<String>) -> Option<Seq<char>> {
    match r {
        Some(s) => Some(s@),
        None => None,
    }
}

/// The status of a request for something that is not there.
pub const NOT_FOUND: u16 = 404;

/// The status of a request that is not well formed.
pub const BAD_REQUEST: u16 = 400;

/// The status of a failure on the server's side.
pub const INTERNAL_SERVER_ERROR: u16 = 500;

/// A number from 100 to 999 is a status.
pub open spec fn is_status(code: u16) -> bool {
    100 <= code <= 999
}

/// The statuses from 400 to 499 blame the client.
pub open spec fn is_client_error(code: u16) -> bool {
    400 <= code <= 499
}

/// The statuses from 500 to 599 blame the server.
pub open spec fn is_server_error(code: u16) -> bool {
    500 <= code <= 599
}

/// A failure as the client sees it: the HTTP status as a number and a
/// message.
#[derive(Clone, Debug, PartialEq, Eq)]
pub struct APIError {
    pub code: u16,
    pub message: String,
}

/// An error answer: status, content type and body.
#[derive(Clone, Debug, PartialEq, Eq)]
pub struct ErrorReply {
    pub status: u16,
    pub content_type: String,
    pub body: String,
}

/// The status under which an error with this code goes out: the code
/// itself if it is a status, an internal server error otherwise.
pub open spec fn status_of(code: u16) -> u16 {
    if is_status(code) {
        code
    } else {
        INTERNAL_SERVER_ERROR
    }
}

/// The envelope: a JSON object with the status as `code`, a number, and
/// the message as the string literal `quoted`.
pub open spec fn envelope_of(code: u16, quoted: Seq<char>) -> Seq<char> {
    "{\"code\":"@ + decimal(code as nat) + ",\"message\":"@ + quoted + "}"@
}

/// A text with a backslash put before each double quote.
pub open spec fn quotes_escaped(text: Seq<char>) -> Seq<char>
    decreases text.len(),
{
    if text.len() == 0 {
        text
    } else if text.last() == '"' {
        quotes_escaped(text.drop_last()).push('\\').push('"')
    } else {
        quotes_escaped(text.drop_last()).push(text.last())
    }
}

/// The envelope that is written by hand when the message cannot be
/// turned into a JSON string.
pub open spec fn fallback_of(status: u16, message: Seq<char>) -> Seq<char> {
    "{\"code\": "@ + decimal(status as nat)
        + ", \"message\": \"Serde JSON serileştirme başarısız oldu: "@ + quotes_escaped(message)
        + "\"}"@
}

/// The body of the answer to an error with this code and message: the
/// envelope with the status of the answer as code and the message as a
/// JSON string, given what became of the message as a JSON string; the
/// envelope written by hand if it did not become one.
pub open spec fn body_of(code: u16, message: Seq<char>, quoted: Option<Seq<char>>) -> Seq<char> {
    match quoted {
        Some(q) => envelope_of(status_of(code), q),
        None => fallback_of(status_of(code), message),
    }
}

/// Puts a backslash before each double quote of `text`.
pub fn escape_quotes(text: &str) -> (r: String)
    ensures
        r@ == quotes_escaped(text@),
{
    let mut out = String::new();
    assert(text@.take(0) =~= Seq::<char>::empty());
    for c in it: text.chars()
        invariant
            it.seq() == text@,
            out@ == quotes_escaped(text@.take(it.index())),
    {
        proof {
            let next = text@.take(it.index() + 1);
            assert(next.drop_last() =~= text@.take(it.index()));
            assert(next.last() == c);
        }
        if c == '"' {
            out.push('\\');
        }
        out.push(c);
    }
    assert(text@.take(text@.len() as int) == text@);
    out
}

/// The envelope for a code and a message that is already a JSON string
/// literal.
pub fn envelope(code: u16, quoted: &str) -> (r: String)
    ensures
        r@ == envelope_of(code, quoted@),
{
    let digits = to_decimal(code as u64);
    let mut out = "{\"code\":".to_owned();
    out.append(digits.as_str());
    out.append(",\"message\":");
    out.append(quoted);
    out.append("}");
    out
}

/// The envelope written by hand.
pub fn fallback_envelope(status: u16, message: &str) -> (r: String)
    ensures
        r@ == fallback_of(status, message@),
{
    let digits = to_decimal(status as u64);
    let escaped = escape_quotes(message);
    let mut out = "{\"code\": ".to_owned();
    out.append(digits.as_str());
    out.append(", \"message\": \"Serde JSON serileştirme başarısız oldu: ");
    out.append(escaped.as_str());
    out.append("\"}");
    out
}

impl APIError {
    /// An error with this status code and message.
    pub fn new(code: u16, message: &str) -> (r: APIError)
        ensures
            r.code == code,
            r.message@ == message@,
    {
        APIError { code, message: message.to_owned() }
    }

    /// The status under which the error goes out.
    pub fn status(&self) -> (r: u16)
        ensures
            r == status_of(self.code),
            is_status(r),
    {
        if 100 <= self.code && self.code <= 999 {
            self.code
        } else {
            INTERNAL_SERVER_ERROR
        }
    }

    /// The body of the error answer: the envelope whose code is the status
    /// under which the error goes out, with the message as a JSON string;
    /// the envelope written by hand if the message did not become one.
    pub fn body(&self) -> (r: String)
        ensures
            r@ == body_of(self.code, self.message@, json_string_of(self.message@)),
    {
        self.body_with(json_string(self.message.as_str()))
    }

    /// The body of the error answer, given what became of the message as a
    /// JSON string.
    pub fn body_with(&self, quoted: Option<String>) -> (r: String)
        ensures
            r@ == body_of(self.code, self.message@, text_of_reason(quoted)),
    {
        match quoted {
            Some(q) => envelope(self.status(), q.as_str()),
            None => fallback_envelope(self.status(), self.message.as_str()),
        }
    }

    /// The error as an answer: its status, JSON as content type, and as
    /// body the envelope, whose code is that status.
    pub fn into_response(self) -> (r: ErrorReply)
        ensures
            r.status == status_of(self.code),
            r.content_type@ == "application/json"@,
            r.body@ == body_of(self.code, self.message@, json_string_of(self.message@)),
    {
        let status = self.status();
        let body = self.body();
        ErrorReply { status, content_type: "application/json".to_owned(), body }
    }

    /// The error in one line, for a log.
    pub fn describe(&self) -> (r: String)
        ensures
            r@ == self.message@ + " (Kod: "@ + decimal(self.code as nat) + ")"@,
    {
        let mut out = self.message.clone();
        out.append(" (Kod: ");
        out.append(to_decimal(self.code as u64).as_str());
        out.append(")");
        out
    }
}

/// What a request could not be read for.
#[derive(Clone, Debug, PartialEq, Eq)]
pub enum Rejection {
    /// The query string could not be turned into the parameters; the text
    /// says why.
    QueryString(String),
    /// The query was refused for another reason.
    Query,
    /// Anything else.
    Other,
}

/// The phrase of a status, or the words for a status without one.
pub open spec fn phrase_or_default(reason: Option<Seq<char>>) -> Seq<char> {
    match reason {
        Some(p) => p,
        None => "Tanımsız davranış"@,
    }
}

/// The error that replaces an answer with this status on its way out:
/// none for an answer that is no error; for a client or server error, the
/// status with a message made of the side at fault and the reason phrase.
pub open spec fn boundary_error_of(status: u16, reason: Option<Seq<char>>) -> Option<
    (u16, Seq<char>),
> {
    if is_client_error(status) {
        Some((status, "İstemci hatası: "@ + phrase_or_default(reason)))
    } else if is_server_error(status) {
        Some((status, "Sunucu hatası: "@ + phrase_or_default(reason)))
    } else {
        None
    }
}

/// The code and message of an optional error.
pub open spec fn said(e: Option<APIError>) -> Option<(u16, Seq<char>)> {
    match e {
        Some(x) => Some((x.code, x.message@)),
        None => None,
    }
}

/// The error that replaces an answer with this status, given the reason
/// phrase of the status.
pub fn boundary_error_with(status: u16, reason: Option<String>) -> (r: Option<APIError>)
    ensures
        said(r) == boundary_error_of(status, text_of_reason(reason)),
{
    let client = 400 <= status && status <= 499;
    let server = 500 <= status && status <= 599;
    if !client && !server {
        return None;
    }
    let mut message = if client {
        "İstemci hatası: ".to_owned()
    } else {
        "Sunucu hatası: ".to_owned()
    };
    match reason {
        Some(phrase) => {
            message.append(phrase.as_str());
        },
        None => {
            message.append("Tanımsız davranış");
        },
    }
    Some(APIError { code: status, message })
}

/// The error that replaces an answer with this status on its way out, so
/// that a client never sees an error in another shape than the envelope.
pub fn handle_axum_rejections(status: u16) -> (r: Option<APIError>)
    ensures
        said(r) == boundary_error_of(status, reason_phrase(status)),
{
    boundary_error_with(status, canonical_reason(status))
}

/// The code and message of the error for a request that could not be
/// read.
pub open spec fn rejection_error_of(r: Rejection) -> (u16, Seq<char>) {
    match r {
        Rejection::QueryString(detail) => (
            BAD_REQUEST,
            "Sorgu ters serileştirilirken bir problem oluştu "@ + detail@,
        ),
        Rejection::Query => (BAD_REQUEST, "Geçeriz sorgu"@),
        Rejection::Other => (INTERNAL_SERVER_ERROR, "Teknik bir hata oluştu"@),
    }
}

/// The error for a request that could not be read: a bad request if the
/// query was at fault, an internal error otherwise.
pub fn handle_rejections(rejection: Rejection) -> (r: APIError)
    ensures
        (r.code, r.message@) == rejection_error_of(rejection),
{
    match rejection {
        Rejection::QueryString(detail) => {
            let mut message = "Sorgu ters serileştirilirken bir problem oluştu ".to_owned();
            message.append(detail.as_str());
            APIError { code: BAD_REQUEST, message }
        },
        Rejection::Query => APIError::new(BAD_REQUEST, "Geçeriz sorgu"),
        Rejection::Other => APIError::new(INTERNAL_SERVER_ERROR, "Teknik bir hata oluştu"),
    }
}

} // verus!
