//! What the handlers share: error replies, and reading the bearer token and
//! the user id that it names.

use vstd::prelude::*;
use vstd::string::*;
use vstd::utf8::*;
use crate::text::{ascii_chars, header_text, header_value_text, parse_i64, parsed_i64, visible_ascii};

verus! {

/// HTTP status 400.
pub const BAD_REQUEST: u16 = 400;

/// HTTP status 401.
pub const UNAUTHORIZED: u16 = 401;

/// HTTP status 409.
pub const CONFLICT: u16 = 409;

/// HTTP status 500.
pub const INTERNAL_SERVER_ERROR: u16 = 500;

/// The JSON body of an error reply.
pub struct ErrorResponse {
    pub error: String,
}

/// An error reply: its HTTP status and its body.
pub struct ApiError {
    pub status: u16,
    pub body: ErrorResponse,
}

/// Whether `e` is the reply with status `status` and message `message`.
pub open spec fn is_error(e: ApiError, status: u16, message: Seq<char>) -> bool {
    e.status == status && e.body.error@ == message
}

/// The error reply with the given status and message.
pub fn api_error(status: u16, message: &str) -> (e: ApiError)
    ensures
        is_error(e, status, message@),
{
    ApiError { status, body: ErrorResponse { error: message.to_owned() } }
}

/// The reply for a failure of the store or of a service: status 500 with the
/// failure's text.
pub fn internal_error(detail: &str) -> (e: ApiError)
    ensures
        is_error(e, INTERNAL_SERVER_ERROR, detail@),
{
    api_error(INTERNAL_SERVER_ERROR, detail)
}

/// The text that opens a bearer credential: `Bearer ` with its space.
pub open spec fn bearer_prefix() -> Seq<char> {
    seq!['B', 'e', 'a', 'r', 'e', 'r', ' ']
}

/// The token of an `Authorization` header value: its text after `Bearer `,
/// when the value is text and opens with `Bearer `.
pub open spec fn bearer_credential(header: Option<Seq<u8>>) -> Option<Seq<char>> {
    match header {
        None => None,
        Some(v) => match header_value_text(v) {
            None => None,
            Some(t) => if t.len() >= 7 && t.take(7) == bearer_prefix() {
                Some(t.skip(7))
            } else {
                None
            },
        },
    }
}

/// The bytes of an optional header value.
pub open spec fn header_bytes(header: Option<&[u8]>) -> Option<Seq<u8>> {
    match header {
        Some(v) => Some(v@),
        None => None,
    }
}

/// Reads the bearer token of an `Authorization` header value, if any.
pub fn bearer_token(header: Option<&[u8]>) -> (token: Option<String>)
    ensures
        token is Some <==> bearer_credential(header_bytes(header)) is Some,
        token matches Some(t) ==> bearer_credential(header_bytes(header)) == Some(t@),
{
    let v = match header {
        None => return None,
        Some(v) => v,
    };
    let text = match header_text(v) {
        None => return None,
        Some(t) => t,
    };
    let t = text.as_str();
    let n = t.unicode_len();
    if n < 7 {
        return None;
    }
    let prefix = "Bearer ";
    proof {
        reveal_strlit("Bearer ");
    }
    let mut i: usize = 0;
    while i < 7
        invariant
            i <= 7,
            n == t@.len(),
            n >= 7,
            prefix@ == bearer_prefix(),
            header_bytes(header) == Some(v@),
            header_value_text(v@) == Some(t@),
            forall|j: int| 0 <= j < i ==> t@[j] == prefix@[j],
        decreases 7 - i,
    {
        let got = t.get_char(i);
        let want = prefix.get_char(i);
        if got != want {
            assert(t@.take(7)[i as int] != bearer_prefix()[i as int]);
            return None;
        }
        i = i + 1;
    }
    assert(t@.take(7) =~= bearer_prefix());
    let rest = t.substring_char(7, n);
    assert(rest@ =~= t@.skip(7));
    Some(rest.to_owned())
}

/// The token of an `Authorization` header, or status 401 with `missing_message`.
pub fn require_bearer(header: Option<&[u8]>, missing_message: &str) -> (r: Result<String, ApiError>)
    ensures
        r is Ok <==> bearer_credential(header_bytes(header)) is Some,
        r matches Ok(t) ==> bearer_credential(header_bytes(header)) == Some(t@),
        r matches Err(e) ==> is_error(e, UNAUTHORIZED, missing_message@),
{
    match bearer_token(header) {
        Some(t) => Ok(t),
        None => Err(api_error(UNAUTHORIZED, missing_message)),
    }
}

/// The reply for a token that fails verification: status 401, `Invalid token`.
pub fn invalid_token() -> (e: ApiError)
    ensures
        e.status == UNAUTHORIZED,
        e.body.error@ == "Invalid token"@,
{
    api_error(UNAUTHORIZED, "Invalid token")
}

/// The user id that a token's subject names: the subject read as an `i64`,
/// or 0 when it is not one.
pub open spec fn subject_user_id(subject: Seq<char>) -> i64 {
    match parsed_i64(subject) {
        Some(v) => v,
        None => 0,
    }
}

/// Reads the user id that a token's subject names, as
/// `subject.parse().unwrap_or(0)` does.
pub fn user_id_from_subject(subject: &str) -> (id: i64)
    ensures
        id == subject_user_id(subject@),
{
    match parse_i64(subject) {
        Some(v) => v,
        None => 0,
    }
}

/// The user behind a request, given the subject of its token when the token
/// verified (`None` when it did not): the user id, or the reply for an
/// invalid token.
pub fn authenticated_user(verified_subject: Option<String>) -> (r: Result<i64, ApiError>)
    ensures
        verified_subject is None ==> (r matches Err(e) && e.status == UNAUTHORIZED
            && e.body.error@ == "Invalid token"@),
        verified_subject matches Some(s) ==> r == Ok::<i64, ApiError>(subject_user_id(s@)),
{
    match verified_subject {
        None => Err(invalid_token()),
        Some(s) => Ok(user_id_from_subject(s.as_str())),
    }
}

/// The bytes of `Bearer ` with its space.
pub open spec fn bearer_prefix_bytes() -> Seq<u8> {
    seq![66u8, 101u8, 97u8, 114u8, 101u8, 114u8, 32u8]
}

/// A token sent as `Bearer {token}` is read back as that token.
pub proof fn lemma_bearer_roundtrip(token: Seq<u8>)
    requires
        forall|i: int| 0 <= i < token.len() ==> visible_ascii(#[trigger] token[i]),
    ensures
        bearer_credential(Some(bearer_prefix_bytes() + token)) == Some(ascii_chars(token)),
{
    let v = bearer_prefix_bytes() + token;
    assert forall|i: int| 0 <= i < v.len() implies visible_ascii(#[trigger] v[i]) by {
        if i >= 7 {
            assert(v[i] == token[i - 7]);
        }
    }
    let t = ascii_chars(v);
    assert(t.take(7) =~= bearer_prefix());
    assert(t.skip(7) =~= ascii_chars(token));
}

/// Whether a request whose token was checked may go on: exactly when the
/// token verified (`verified_subject` is its subject then), whoever it names.
pub open spec fn access_granted(verified_subject: Option<String>) -> bool {
    verified_subject is Some
}

/// Lets a request go on when its token verified, else replies status 401
/// `Invalid token`.
pub fn require_verified(verified_subject: Option<String>) -> (r: Result<(), ApiError>)
    ensures
        r is Ok <==> access_granted(verified_subject),
        r matches Err(e) ==> e.status == UNAUTHORIZED && e.body.error@ == "Invalid token"@,
{
    match verified_subject {
        Some(_) => Ok(()),
        None => Err(invalid_token()),
    }
}

/// Listing a camera's images and sending it commands need only a token that
/// verifies: any subject is let through, whichever cameras its user owns.
pub proof fn lemma_any_verified_token_has_access(subject: String)
    ensures
        access_granted(Some(subject)),
{
}

} // verus!
