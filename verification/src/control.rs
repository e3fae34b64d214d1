//! The control plane's decisions: who may assign rights or toggle
//! moderation, what a right-change request means, the login check, and the
//! session cookie. The HTTP surface around them lives outside this crate
//! and only moves rows and bytes.

use vstd::prelude::*;
use vstd::string::*;
use crate::rights::{Right, spec_is_manager};
use crate::bus::CanvasDataEvent;
use crate::identity::{Claims, AuthError};
use crate::text::str_eq;

use argon2::PasswordVerifier;

verus! {

/// The body of a registration request.
pub struct RegisterPayload {
    pub email: String,
    pub password: String,
    pub display_name: String,
}

/// The body of a login request.
pub struct LoginPayload {
    pub email: String,
    pub password: String,
}

/// The body of a profile update: only the fields present are changed.
pub struct UpdateUserPayload {
    pub email: Option<String>,
    pub display_name: Option<String>,
}

/// A user as the control plane reports it.
pub struct UserResponse {
    pub id: String,
    pub email: String,
    pub display_name: String,
}

/// The body of a right-change request: `None`, the empty string and
/// `"null"` all revoke the right.
pub struct ChangeRight {
    pub email: String,
    pub right: Option<String>,
}

/// One user's right on a canvas, as listed to moderators and owners.
pub struct UserRight {
    pub email: String,
    pub right: String,
}

/// One canvas as the control plane reports it to a user: the per-user
/// rights are listed only to moderators and owners.
pub struct CanvasRightsModerated {
    pub canvas_id: String,
    pub moderated: bool,
    pub right: String,
    pub rights: Option<Vec<UserRight>>,
}

/// The body of a moderation toggle.
pub struct ModeratedPayload {
    pub moderated: bool,
}

/// Whether `my_right` may assign `wanted` to someone on the canvas: an
/// owner may assign anything; a moderator anything but ownership; nobody
/// else may assign at all.
pub open spec fn spec_can_change_right(my_right: Option<Right>, wanted: Option<Seq<char>>) -> bool {
    match my_right {
        Some(Right::O) => true,
        Some(Right::M) => wanted != Some("O"@),
        _ => false,
    }
}

pub fn can_change_right(my_right: Option<Right>, wanted: &Option<String>) -> (b: bool)
    ensures
        b == spec_can_change_right(
            my_right,
            match *wanted {
                Some(ref s) => Some(s@),
                None => None,
            },
        ),
{
    match my_right {
        Some(Right::O) => true,
        Some(Right::M) => match wanted {
            Some(s) => !str_eq(s.as_str(), "O"),
            None => true,
        },
        _ => false,
    }
}

/// Whether a right-change request revokes instead of assigning: an absent,
/// empty or `"null"` right removes the row.
pub open spec fn spec_removes_right(wanted: Option<Seq<char>>) -> bool {
    match wanted {
        None => true,
        Some(s) => s.len() == 0 || s == "null"@,
    }
}

pub fn removes_right(wanted: &Option<String>) -> (b: bool)
    ensures
        b == spec_removes_right(
            match *wanted {
                Some(ref s) => Some(s@),
                None => None,
            },
        ),
{
    match wanted {
        None => true,
        Some(s) => s.as_str().unicode_len() == 0 || str_eq(s.as_str(), "null"),
    }
}

/// The bus message a right change publishes once its row is committed:
/// a revocation carries `None`, an assignment the new letter.
pub fn right_change_event(canvas_id: &String, user_id: &String, wanted: &Option<String>) -> (ev:
    CanvasDataEvent)
    ensures
        ev matches CanvasDataEvent::RightChanged(c, u, nr) && c@ == canvas_id@ && u@ == user_id@
            && (spec_removes_right(
            match *wanted {
                Some(ref s) => Some(s@),
                None => None,
            },
        ) ==> nr is None) && (!spec_removes_right(
            match *wanted {
                Some(ref s) => Some(s@),
                None => None,
            },
        ) ==> nr is Some && nr.unwrap()@ == wanted.unwrap()@),
{
    if removes_right(wanted) {
        CanvasDataEvent::RightChanged(canvas_id.clone(), user_id.clone(), None)
    } else {
        match wanted {
            Some(s) => CanvasDataEvent::RightChanged(
                canvas_id.clone(),
                user_id.clone(),
                Some(s.clone()),
            ),
            None => CanvasDataEvent::RightChanged(canvas_id.clone(), user_id.clone(), None),
        }
    }
}

/// Whether `my_right` may toggle the canvas's moderation flag: moderators
/// and owners only.
pub fn can_set_moderated(my_right: Option<Right>) -> (b: bool)
    ensures
        b == match my_right {
            Some(r) => spec_is_manager(r),
            None => false,
        },
{
    match my_right {
        Some(r) => crate::rights::is_manager(r),
        None => false,
    }
}

/// The bus message a moderation toggle publishes once the row is
/// committed.
pub fn moderated_change_event(canvas_id: &String, moderated: bool) -> (ev: CanvasDataEvent)
    ensures
        ev matches CanvasDataEvent::ModeratedChanged(c, m) && c@ == canvas_id@ && m == moderated,
{
    CanvasDataEvent::ModeratedChanged(canvas_id.clone(), moderated)
}

/// Whether this password verifies against this Argon2 hash: a function of
/// the two strings alone.
pub uninterp spec fn argon2_verifies(password: Seq<char>, hash: Seq<char>) -> bool;

/// Relies on Argon2::default().verify_password: deterministic in the
/// password and the encoded hash; a malformed hash simply fails to verify.
#[verifier::external_body]
fn password_matches_raw(password: &str, hash: &str) -> (r: bool)
    ensures
        r == argon2_verifies(password@, hash@),
{
    argon2::Argon2::default().verify_password(password.as_bytes(), hash).is_ok()
}

/// The row a login looks up by email: id, password hash, display name.
pub struct AccountRow {
    pub id: String,
    pub password_hash: String,
    pub display_name: String,
}

/// Decide a login: an unknown email and a wrong password both answer
/// `WrongCredentials`; a verified password yields the claims that go into
/// the session token, with the fixed expiry the control plane issues.
pub fn login_outcome(row: Option<AccountRow>, email: &str, password: &str) -> (r: Result<
    Claims,
    AuthError,
>)
    ensures
        r is Ok <==> (row matches Some(a) && argon2_verifies(password@, a.password_hash@)),
        r matches Ok(c) ==> {
            &&& row matches Some(a) && c@.id == a.id@ && c@.display_name == a.display_name@
            &&& c@.email == email@
            &&& c@.exp == 2000000000
        },
        r is Err ==> r.unwrap_err() == AuthError::WrongCredentials,
{
    let a = match row {
        None => {
            return Err(AuthError::WrongCredentials);
        },
        Some(a) => a,
    };
    if password_matches_raw(password, a.password_hash.as_str()) {
        Ok(
            Claims {
                id: a.id,
                email: String::from_str(email),
                exp: 2000000000,
                display_name: a.display_name,
            },
        )
    } else {
        Err(AuthError::WrongCredentials)
    }
}

/// The signed session token for these claims under this secret: a
/// function of the two alone.
pub uninterp spec fn jwt_of(claims: crate::identity::ClaimsView, secret: Seq<u8>) -> Seq<char>;

/// Relies on jsonwebtoken::encode with the default header: HS256 over the
/// claims object, deterministic in the claims and the secret.
#[verifier::external_body]
fn encode_claims_raw(claims: &Claims, secret: &[u8]) -> (r: Option<String>)
    ensures
        r is Some ==> r.unwrap()@ == jwt_of(claims@, secret@),
{
    let mut m = serde_json::Map::new();
    m.insert("id".to_string(), serde_json::Value::String(claims.id.clone()));
    m.insert("email".to_string(), serde_json::Value::String(claims.email.clone()));
    m.insert("exp".to_string(), serde_json::Value::from(claims.exp as u64));
    m.insert(
        "display_name".to_string(),
        serde_json::Value::String(claims.display_name.clone()),
    );
    let key = jsonwebtoken::EncodingKey::from_secret(secret);
    jsonwebtoken::encode(&jsonwebtoken::Header::default(), &serde_json::Value::Object(m), &key)
        .ok()
}

/// The `Set-Cookie` value that installs a session token.
pub fn session_cookie(token: &str) -> (r: String)
    ensures
        r@ == "access_token="@ + token@ + "; HttpOnly; Path=/; SameSite=Lax"@,
{
    let mut r = String::from_str("access_token=");
    r.append(token);
    r.append("; HttpOnly; Path=/; SameSite=Lax");
    r
}

/// The `Set-Cookie` value that clears the session on logout.
pub fn logout_cookie() -> (r: String)
    ensures
        r@ == "access_token=; HttpOnly; Path=/; SameSite=Lax; Max-Age=0"@,
{
    String::from_str("access_token=; HttpOnly; Path=/; SameSite=Lax; Max-Age=0")
}

/// Issue the session token and its cookie for freshly minted claims.
pub fn issue_session(claims: &Claims, secret: &[u8]) -> (r: Result<String, AuthError>)
    ensures
        r matches Ok(c) ==> c@ == "access_token="@ + jwt_of(claims@, secret@)
            + "; HttpOnly; Path=/; SameSite=Lax"@,
        r is Err ==> r.unwrap_err() == AuthError::TokenCreation,
{
    match encode_claims_raw(claims, secret) {
        Some(t) => Ok(session_cookie(t.as_str())),
        None => Err(AuthError::TokenCreation),
    }
}

/// A user may only update their own profile.
pub fn may_update_user(claims_id: &str, user_id: &str) -> (b: bool)
    ensures
        b == (claims_id@ == user_id@),
{
    str_eq(claims_id, user_id)
}

/// The per-user rights list of a canvas is visible to moderators and
/// owners only; everyone else gets nothing.
pub fn visible_rights(my_right: Right, all: Vec<UserRight>) -> (r: Option<Vec<UserRight>>)
    ensures
        (r is Some) == spec_is_manager(my_right),
        r matches Some(v) ==> v@ == all@,
{
    if crate::rights::is_manager(my_right) {
        Some(all)
    } else {
        None
    }
}

/// The status a registration answers with: created when the row went in, a
/// client error when the database refused the row (the email is taken), a
/// server error otherwise.
#[derive(PartialEq, Eq, Structural, Clone, Copy, Debug)]
pub enum RegisterOutcome {
    Inserted,
    Refused,
    Failed,
}

pub fn register_status(outcome: RegisterOutcome) -> (s: u16)
    ensures
        outcome == RegisterOutcome::Inserted ==> s == 201,
        outcome == RegisterOutcome::Refused ==> s == 400,
        outcome == RegisterOutcome::Failed ==> s == 500,
{
    match outcome {
        RegisterOutcome::Inserted => 201,
        RegisterOutcome::Refused => 400,
        RegisterOutcome::Failed => 500,
    }
}

} // verus!
