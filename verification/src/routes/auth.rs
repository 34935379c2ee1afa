//! Logging in and registering with a username and a password.

use vstd::prelude::*;
use crate::routes::reply::{api_error, is_error, ApiError, CONFLICT, UNAUTHORIZED};
use crate::routes::reply::subject_user_id;
use crate::text::{lemma_parse_signed_decimal, signed_decimal, signed_decimal_text};

pub use crate::routes::reply::{internal_error, ErrorResponse};

verus! {

/// The body of a login or registration request.
pub struct LoginRequest {
    pub username: String,
    pub password: String,
}

/// The reply to a successful login or registration.
pub struct LoginResponse {
    pub token: String,
    pub user_id: i64,
    pub username: String,
}

/// A stored user as a login looks it up: id, name and password hash.
pub struct UserRecord {
    pub id: i64,
    pub name: String,
    pub password_hash: String,
}

/// The columns of a new user's row.
pub struct NewUser {
    pub google_id: String,
    pub email: String,
    pub name: String,
    pub password_hash: String,
}

/// Whether `e` is the reply to a failed login: status 401, `Invalid username or password`.
pub open spec fn is_unauthorized(e: ApiError) -> bool {
    is_error(e, UNAUTHORIZED, "Invalid username or password"@)
}

/// Whether `e` is the reply to a registration under a taken name: status 409,
/// `Username already taken`.
pub open spec fn is_username_taken(e: ApiError) -> bool {
    is_error(e, CONFLICT, "Username already taken"@)
}

/// The reply to a failed login.
pub fn unauthorized() -> (e: ApiError)
    ensures
        is_unauthorized(e),
{
    api_error(UNAUTHORIZED, "Invalid username or password")
}

/// The reply to a registration under a taken name.
pub fn username_taken() -> (e: ApiError)
    ensures
        is_username_taken(e),
{
    api_error(CONFLICT, "Username already taken")
}

/// The user a login is granted to: the stored user of the requested name,
/// when the password equals the stored hash.
pub open spec fn login_granted(stored: Option<UserRecord>, request: LoginRequest) -> Option<i64> {
    match stored {
        Some(u) => if u.password_hash@ == request.password@ {
            Some(u.id)
        } else {
            None
        },
        None => None,
    }
}

/// Decides a login from the stored user of the requested name (if any): the
/// user's id when the password equals the stored hash, else the 401 reply.
pub fn check_login(stored: Option<UserRecord>, request: &LoginRequest) -> (r: Result<i64, ApiError>)
    ensures
        login_granted(stored, *request) matches Some(id) ==> r == Ok::<i64, ApiError>(id),
        login_granted(stored, *request) is None ==> (r matches Err(e) && is_unauthorized(e)),
{
    match stored {
        None => Err(unauthorized()),
        Some(u) => {
            if u.password_hash != request.password {
                Err(unauthorized())
            } else {
                Ok(u.id)
            }
        },
    }
}

/// The subject that a user's token carries: the user id in decimal, as
/// `id.to_string()` writes it.
pub fn token_subject(user_id: i64) -> (s: String)
    ensures
        s@ == signed_decimal(user_id as int),
{
    signed_decimal_text(user_id)
}

/// Decides whether a registration may go on, given the id of an existing
/// user of the requested name (if any).
pub fn check_registration(existing: Option<i64>) -> (r: Result<(), ApiError>)
    ensures
        existing is None <==> r is Ok,
        r matches Err(e) ==> is_username_taken(e),
{
    match existing {
        Some(_) => Err(username_taken()),
        None => Ok(()),
    }
}

/// The row of a newly registered user: the username serves as Google id, as
/// e-mail and as name; the password is stored as the hash.
pub fn new_user(request: &LoginRequest) -> (u: NewUser)
    ensures
        u.google_id@ == request.username@,
        u.email@ == request.username@,
        u.name@ == request.username@,
        u.password_hash@ == request.password@,
{
    NewUser {
        google_id: request.username.clone(),
        email: request.username.clone(),
        name: request.username.clone(),
        password_hash: request.password.clone(),
    }
}

/// The cameras every new user is given: `cam01` to `cam04`.
pub open spec fn starter_camera_ids() -> Seq<Seq<char>> {
    seq!["cam01"@, "cam02"@, "cam03"@, "cam04"@]
}

/// The cameras assigned to a newly registered user, in order.
pub fn starter_cameras() -> (cams: Vec<String>)
    ensures
        cams@.map_values(|c: String| c@) == starter_camera_ids(),
{
    let mut cams: Vec<String> = Vec::new();
    cams.push("cam01".to_owned());
    cams.push("cam02".to_owned());
    cams.push("cam03".to_owned());
    cams.push("cam04".to_owned());
    assert(cams@.map_values(|c: String| c@) =~= starter_camera_ids());
    cams
}

/// The reply to a successful login or registration.
pub fn login_response(token: String, user_id: i64, request: LoginRequest) -> (r: LoginResponse)
    ensures
        r.token == token,
        r.user_id == user_id,
        r.username == request.username,
{
    LoginResponse { token, user_id, username: request.username }
}

/// The reply of the OAuth callback route.
pub fn callback() -> (r: &'static str)
    ensures
        r@ == "callback"@,
{
    "callback"
}

/// A user logs in with the password given at registration, and with no other:
/// registration stores the password as the hash (`new_user`), and a login is
/// granted exactly when the password equals the stored hash.
pub proof fn lemma_registered_user_logs_in(stored: UserRecord, registration: LoginRequest, login: LoginRequest)
    requires
        stored.password_hash@ == registration.password@,
    ensures
        login_granted(Some(stored), login) == (if login.password@ == registration.password@ {
            Some(stored.id)
        } else {
            None::<i64>
        }),
{
}

/// The token issued at login or registration names the user it was issued
/// to: reading the user id back from its subject gives that user's id.
pub proof fn lemma_subject_names_user(user_id: i64)
    ensures
        subject_user_id(signed_decimal(user_id as int)) == user_id,
{
    lemma_parse_signed_decimal(user_id);
}

} // verus!
