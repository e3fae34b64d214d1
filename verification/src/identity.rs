//! The identity extractor: find the `access_token` cookie among the
//! handshake's cookies and verify it with the shared secret. The cookie
//! scan is verified; the token check leans on jsonwebtoken behind a
//! trusted wrapper, and its outcome depends on the clock, so nothing is
//! assumed of it.

use vstd::prelude::*;
use vstd::string::*;
use crate::text::{spec_split, split_on, str_eq};

verus! {

/// The authenticated identity a verified token carries.
#[derive(Debug)]
pub struct Claims {
    pub id: String,
    pub email: String,
    pub exp: usize,
    pub display_name: String,
}

/// The mathematical value of a `Claims`.
pub ghost struct ClaimsView {
    pub id: Seq<char>,
    pub email: Seq<char>,
    pub exp: usize,
    pub display_name: Seq<char>,
}

impl View for Claims {
    type V = ClaimsView;

    open spec fn view(&self) -> ClaimsView {
        ClaimsView {
            id: self.id@,
            email: self.email@,
            exp: self.exp,
            display_name: self.display_name@,
        }
    }
}

/// Why an identity could not be established.
#[derive(PartialEq, Eq, Structural, Clone, Copy, Debug)]
pub enum AuthError {
    WrongCredentials,
    MissingCredentials,
    TokenCreation,
    InvalidToken,
}

impl AuthError {
    /// The HTTP status and message each failure maps to.
    pub fn status_and_message(&self) -> (r: (u16, &'static str))
        ensures
            *self == AuthError::WrongCredentials ==> r.0 == 401 && r.1@ == "Wrong credentials"@,
            *self == AuthError::MissingCredentials ==> r.0 == 400 && r.1@
                == "Missing credentials"@,
            *self == AuthError::TokenCreation ==> r.0 == 500 && r.1@ == "Token creation error"@,
            *self == AuthError::InvalidToken ==> r.0 == 400 && r.1@ == "Invalid token"@,
    {
        match self {
            AuthError::WrongCredentials => (401, "Wrong credentials"),
            AuthError::MissingCredentials => (400, "Missing credentials"),
            AuthError::TokenCreation => (500, "Token creation error"),
            AuthError::InvalidToken => (400, "Invalid token"),
        }
    }
}

/// A cookie-separator space: what the scan strips around each pair.
pub open spec fn spec_is_space(c: char) -> bool {
    c == ' ' || c == '\t'
}

/// `s` without leading spaces.
pub open spec fn spec_trim_front(s: Seq<char>) -> Seq<char>
    decreases s.len(),
{
    if s.len() > 0 && spec_is_space(s[0]) {
        spec_trim_front(s.drop_first())
    } else {
        s
    }
}

/// `s` without trailing spaces.
pub open spec fn spec_trim_back(s: Seq<char>) -> Seq<char>
    decreases s.len(),
{
    if s.len() > 0 && spec_is_space(s[s.len() - 1]) {
        spec_trim_back(s.drop_last())
    } else {
        s
    }
}

/// `s` without leading and trailing spaces.
pub open spec fn spec_trim(s: Seq<char>) -> Seq<char> {
    spec_trim_back(spec_trim_front(s))
}

fn is_space(c: char) -> (b: bool)
    ensures
        b == spec_is_space(c),
{
    c == ' ' || c == '\t'
}

/// Strip leading and trailing spaces.
pub fn trim_spaces(s: &str) -> (r: String)
    ensures
        r@ == spec_trim(s@),
{
    let n = s.unicode_len();
    let mut a: usize = 0;
    proof {
        assert(s@.subrange(0, n as int) =~= s@);
    }
    while a < n && is_space(s.get_char(a))
        invariant
            n == s@.len(),
            a <= n,
            spec_trim_front(s@) == spec_trim_front(s@.subrange(a as int, n as int)),
        decreases n - a,
    {
        proof {
            let rest = s@.subrange(a as int, n as int);
            assert(rest[0] == s@[a as int]);
            assert(rest.drop_first() =~= s@.subrange(a as int + 1, n as int));
        }
        a += 1;
    }
    proof {
        let rest = s@.subrange(a as int, n as int);
        if a < n {
            assert(rest[0] == s@[a as int]);
        }
        assert(spec_trim_front(rest) == rest);
    }
    let mut b: usize = n;
    while b > a && is_space(s.get_char(b - 1))
        invariant
            n == s@.len(),
            a <= b <= n,
            spec_trim_front(s@) == s@.subrange(a as int, n as int),
            spec_trim_back(s@.subrange(a as int, n as int)) == spec_trim_back(
                s@.subrange(a as int, b as int),
            ),
        decreases b,
    {
        proof {
            let piece = s@.subrange(a as int, b as int);
            assert(piece[piece.len() - 1] == s@[b as int - 1]);
            assert(piece.drop_last() =~= s@.subrange(a as int, b as int - 1));
        }
        b -= 1;
    }
    proof {
        let piece = s@.subrange(a as int, b as int);
        if b > a {
            assert(piece[piece.len() - 1] == s@[b as int - 1]);
        }
        assert(spec_trim_back(piece) == piece);
    }
    String::from_str(s.substring_char(a, b))
}

/// The name every session token is filed under in the cookie header.
pub open spec fn spec_token_name() -> Seq<char> {
    "access_token="@
}

/// The token in a cookie header: among the `;`-separated pairs, the first
/// whose trimmed form starts with `access_token=`, with that prefix
/// removed.
pub open spec fn spec_token_in(pieces: Seq<Seq<char>>) -> Option<Seq<char>>
    decreases pieces.len(),
{
    if pieces.len() == 0 {
        None
    } else {
        let t = spec_trim(pieces[0]);
        if t.len() >= spec_token_name().len() && t.subrange(0, spec_token_name().len() as int)
            == spec_token_name() {
            Some(t.subrange(spec_token_name().len() as int, t.len() as int))
        } else {
            spec_token_in(pieces.drop_first())
        }
    }
}

pub open spec fn spec_token_of_cookies(cookies: Seq<char>) -> Option<Seq<char>> {
    spec_token_in(spec_split(cookies, ';'))
}

/// Whether `p` is a prefix of `s`.
pub fn has_prefix(s: &str, p: &str) -> (b: bool)
    ensures
        b == (s@.len() >= p@.len() && s@.subrange(0, p@.len() as int) == p@),
{
    let n = s.unicode_len();
    let m = p.unicode_len();
    if n < m {
        return false;
    }
    let mut i: usize = 0;
    while i < m
        invariant
            n == s@.len(),
            m == p@.len(),
            m <= n,
            i <= m,
            forall|j: int| 0 <= j < i ==> s@[j] == p@[j],
        decreases m - i,
    {
        if s.get_char(i) != p.get_char(i) {
            proof {
                assert(s@.subrange(0, m as int)[i as int] == s@[i as int]);
            }
            return false;
        }
        i += 1;
    }
    proof {
        assert(s@.subrange(0, m as int) =~= p@);
    }
    true
}

/// Scan a `Cookie` header for the `access_token` pair.
pub fn find_access_token(cookies: &str) -> (r: Option<String>)
    ensures
        r is Some <==> spec_token_of_cookies(cookies@) is Some,
        r is Some ==> r.unwrap()@ == spec_token_of_cookies(cookies@).unwrap(),
{
    let pieces = split_on(cookies, ';');
    let ghost pv = pieces.deep_view();
    let m = pieces.len();
    let mut i: usize = 0;
    proof {
        assert(pv.subrange(0, m as int) =~= pv);
        reveal_strlit("access_token=");
    }
    while i < m
        invariant
            m == pv.len(),
            pv == pieces.deep_view(),
            pv == spec_split(cookies@, ';'),
            i <= m,
            spec_token_name().len() == 13,
            spec_token_in(pv) == spec_token_in(pv.subrange(i as int, m as int)),
        decreases m - i,
    {
        proof {
            let rest = pv.subrange(i as int, m as int);
            assert(rest[0] == pv[i as int]);
            assert(rest.drop_first() =~= pv.subrange(i as int + 1, m as int));
            assert(pieces@[i as int]@ == pv[i as int]);
        }
        let t = trim_spaces(pieces[i].as_str());
        if has_prefix(t.as_str(), "access_token=") {
            let token = String::from_str(t.as_str().substring_char(13, t.as_str().unicode_len()));
            proof {
                let rest = pv.subrange(i as int, m as int);
                let t0 = spec_trim(rest[0]);
                assert(rest[0] == pv[i as int]);
                assert(t0 == t@);
                assert(t0.len() >= 13 && t0.subrange(0, 13) == spec_token_name());
                assert(spec_token_in(rest) == Some(t0.subrange(13, t0.len() as int)));
                assert(token@ =~= t0.subrange(13, t0.len() as int));
            }
            return Some(token);
        }
        proof {
            let rest = pv.subrange(i as int, m as int);
            let t0 = spec_trim(rest[0]);
            assert(t0 == t@);
            assert(!(t0.len() >= spec_token_name().len() && t0.subrange(
                0,
                spec_token_name().len() as int,
            ) == spec_token_name()));
            assert(spec_token_in(rest) == spec_token_in(rest.drop_first()));
        }
        i += 1;
    }
    proof {
        assert(pv.subrange(i as int, m as int) =~= Seq::<Seq<char>>::empty());
    }
    None
}

/// Relies on jsonwebtoken::decode with the default validation: HS256, the
/// signature checked against the secret and the expiry against the clock.
/// The outcome depends on the time of the call, so nothing is assumed of
/// it beyond its shape.
#[verifier::external_body]
fn decode_claims_raw(token: &str, secret: &[u8]) -> (r: Option<Claims>)
{
    let key = jsonwebtoken::DecodingKey::from_secret(secret);
    let data: jsonwebtoken::TokenData<serde_json::Value> = jsonwebtoken::decode(
        token,
        &key,
        &jsonwebtoken::Validation::default(),
    ).ok()?;
    let v = data.claims;
    Some(Claims {
        id: v.get("id")?.as_str()?.to_string(),
        email: v.get("email")?.as_str()?.to_string(),
        exp: v.get("exp")?.as_u64()? as usize,
        display_name: v.get("display_name")?.as_str()?.to_string(),
    })
}

/// Establish the identity behind a handshake: scan the cookies for the
/// `access_token` pair and verify the token with the secret. A handshake
/// without the cookie, or whose token does not verify, is rejected.
pub fn parse_jwt_from_cookies(cookies: &str, secret: &[u8]) -> (r: Result<Claims, AuthError>)
    ensures
        spec_token_of_cookies(cookies@) is None ==> r == Err::<Claims, AuthError>(
            AuthError::InvalidToken,
        ),
        r is Err ==> r.unwrap_err() == AuthError::InvalidToken,
{
    let token = match find_access_token(cookies) {
        None => {
            return Err(AuthError::InvalidToken);
        },
        Some(t) => t,
    };
    match decode_claims_raw(token.as_str(), secret) {
        Some(c) => Ok(c),
        None => Err(AuthError::InvalidToken),
    }
}

} // verus!
