//! The admission gate: it reads the bearer credential, resolves it to an
//! identity, and admits a connection to a group only for a member of it.
use vstd::prelude::*;
use crate::errors::AppError;
use crate::ids::{parse_uuid, parsed_uuid};
use crate::json::{int_member, json_int_member, json_text_member, text_member};
use crate::relay::Admission;

verus! {

/// What a verified access token says: its subject and its validity window,
/// in seconds since the Unix epoch.
#[derive(Clone, Debug)]
pub struct Claims {
    pub sub: String,
    pub exp: i64,
    pub iat: i64,
}

/// Why a token was not accepted.
#[derive(Clone, Copy, Debug, PartialEq, Eq, Structural)]
pub enum TokenFault {
    /// Well signed, but past its expiry.
    Expired,
    /// Malformed, badly signed, or lacking a required claim.
    Invalid,
}

/// The scheme word that opens an `Authorization` header, with its space.
pub open spec fn bearer_prefix() -> Seq<char> {
    "Bearer "@
}

/// Whether `s` opens with the prefix.
pub open spec fn starts_with_bearer(s: Seq<char>) -> bool {
    s.len() >= bearer_prefix().len() && s.take(bearer_prefix().len() as int) == bearer_prefix()
}

/// `s` with every leading repetition of the prefix taken off.
pub open spec fn strip_bearer(s: Seq<char>) -> Seq<char>
    decreases s.len(),
{
    if starts_with_bearer(s) && bearer_prefix().len() > 0 {
        strip_bearer(s.skip(bearer_prefix().len() as int))
    } else {
        s
    }
}

/// The member that names a token's subject.
pub open spec fn sub_key() -> Seq<char> {
    "sub"@
}

/// The member that holds a token's expiry.
pub open spec fn exp_key() -> Seq<char> {
    "exp"@
}

/// The member that holds a token's issue time.
pub open spec fn iat_key() -> Seq<char> {
    "iat"@
}

/// The claims that a token's JSON payload carries, when all three are there
/// with the right types.
pub open spec fn claims_of(json: Seq<char>) -> Option<(Seq<char>, i64, i64)> {
    match (
        json_text_member(json, sub_key()),
        json_int_member(json, exp_key()),
        json_int_member(json, iat_key()),
    ) {
        (Some(s), Some(e), Some(i)) => Some((s, e, i)),
        _ => None,
    }
}

/// Relies on `jsonwebtoken::decode` with an HMAC key made by
/// `DecodingKey::from_secret` and the default validation (HS256, `exp`
/// required and checked against the clock): the payload as JSON text, or
/// whether the failure was an expired signature.
#[verifier::external_body]
fn decode_token(token: &str, secret: &str) -> (r: Result<String, TokenFault>) {
    let key = jsonwebtoken::DecodingKey::from_secret(secret.as_bytes());
    match jsonwebtoken::decode::<serde_json::Value>(token, &key, &jsonwebtoken::Validation::default()) {
        Ok(data) => Ok(data.claims.to_string()),
        Err(e) => match e.kind() {
            jsonwebtoken::errors::ErrorKind::ExpiredSignature => Err(TokenFault::Expired),
            _ => Err(TokenFault::Invalid),
        },
    }
}

/// Whether the prefix stands at position `start` of `s`.
fn bearer_at(s: &str, n: usize, start: usize) -> (r: bool)
    requires
        n == s@.len(),
        start <= n,
    ensures
        r == starts_with_bearer(s@.skip(start as int)),
{
    let p = "Bearer ";
    proof {
        reveal_strlit("Bearer ");
    }
    if n - start < 7 {
        return false;
    }
    let mut k: usize = 0;
    while k < 7
        invariant
            k <= 7,
            start + 7 <= n,
            n == s@.len(),
            p@ == bearer_prefix(),
            p@.len() == 7,
            forall|j: int| 0 <= j < k ==> s@[start + j] == p@[j],
        decreases 7 - k,
    {
        if s.get_char(start + k) != p.get_char(k) {
            assert(s@.skip(start as int).take(7)[k as int] != bearer_prefix()[k as int]);
            return false;
        }
        k = k + 1;
    }
    assert(s@.skip(start as int).take(7) =~= bearer_prefix());
    true
}

/// The token of an `Authorization` header: the text after the `Bearer `
/// prefix, every leading repetition of it taken off. A missing header, or
/// one of another scheme, is unauthorized.
pub fn bearer_token(header: Option<&str>) -> (r: Result<String, AppError>)
    ensures
        match header {
            None => r matches Err(AppError::Unauthorized),
            Some(h) => if starts_with_bearer(h@) {
                r matches Ok(t) && t@ == strip_bearer(h@)
            } else {
                r matches Err(AppError::Unauthorized)
            },
        },
{
    proof {
        reveal_strlit("Bearer ");
    }
    match header {
        None => Err(AppError::Unauthorized),
        Some(h) => {
            let n = h.unicode_len();
            assert(h@.skip(0) =~= h@);
            if !bearer_at(h, n, 0) {
                return Err(AppError::Unauthorized);
            }
            let mut start: usize = 0;
            while bearer_at(h, n, start)
                invariant
                    start <= n,
                    n == h@.len(),
                    bearer_prefix().len() == 7,
                    strip_bearer(h@) == strip_bearer(h@.skip(start as int)),
                decreases n - start,
            {
                assert(h@.skip(start as int).skip(7) =~= h@.skip(start + 7));
                start = start + 7;
            }
            let rest = h.substring_char(start, n);
            assert(rest@ =~= h@.skip(start as int));
            Ok(rest.to_string())
        },
    }
}

/// The claims that a decoded payload carries, when it carries all three.
pub fn claims_from_json(json: &str) -> (r: Option<Claims>)
    ensures
        match claims_of(json@) {
            None => r is None,
            Some((s, e, i)) => r matches Some(c) && c.sub@ == s && c.exp == e && c.iat == i,
        },
{
    proof {
        reveal_strlit("sub");
        reveal_strlit("exp");
        reveal_strlit("iat");
    }
    let sub = text_member(json, "sub");
    let exp = int_member(json, "exp");
    let iat = int_member(json, "iat");
    match (sub, exp, iat) {
        (Some(sub), Some(exp), Some(iat)) => Some(Claims { sub, exp, iat }),
        _ => None,
    }
}

/// The outcome of checking a token, from what decoding it gave: an expired
/// token, and every other failure, each have their error.
pub fn claims_outcome(decoded: Result<String, TokenFault>) -> (r: Result<Claims, AppError>)
    ensures
        match decoded {
            Err(TokenFault::Expired) => r matches Err(AppError::TokenExpired),
            Err(TokenFault::Invalid) => r matches Err(AppError::InvalidToken),
            Ok(j) => match claims_of(j@) {
                None => r matches Err(AppError::InvalidToken),
                Some((s, e, i)) => r matches Ok(c) && c.sub@ == s && c.exp == e && c.iat == i,
            },
        },
{
    match decoded {
        Err(TokenFault::Expired) => Err(AppError::TokenExpired),
        Err(TokenFault::Invalid) => Err(AppError::InvalidToken),
        Ok(j) => match claims_from_json(j.as_str()) {
            None => Err(AppError::InvalidToken),
            Some(c) => Ok(c),
        },
    }
}

/// Checks `token` against `secret` and the clock, and reads its claims.
pub fn verify_token(token: &str, secret: &str) -> (r: Result<Claims, AppError>)
    ensures
        r matches Err(e) ==> (e is TokenExpired || e is InvalidToken),
{
    claims_outcome(decode_token(token, secret))
}

/// The identity that a token's subject names; a subject that is no
/// identifier makes the token invalid.
pub fn subject_id(claims: &Claims) -> (r: Result<u128, AppError>)
    ensures
        match parsed_uuid(claims.sub@) {
            Some(u) => r == Ok::<u128, AppError>(u),
            None => r matches Err(AppError::InvalidToken),
        },
{
    match parse_uuid(claims.sub.as_str()) {
        Some(u) => Ok(u),
        None => Err(AppError::InvalidToken),
    }
}

/// The identity that the outcome of a token check gives: a failed check
/// passes its error on unchanged, and valid claims give the identity their
/// subject names.
pub fn identity_outcome(verified: Result<Claims, AppError>) -> (r: Result<u128, AppError>)
    ensures
        match verified {
            Err(e) => r == Err::<u128, AppError>(e),
            Ok(c) => match parsed_uuid(c.sub@) {
                Some(u) => r == Ok::<u128, AppError>(u),
                None => r matches Err(AppError::InvalidToken),
            },
        },
{
    match verified {
        Err(e) => Err(e),
        Ok(c) => subject_id(&c),
    }
}

/// The identity behind an `Authorization` header: the header must carry a
/// bearer token, valid under `secret` and unexpired, whose subject is an
/// identifier.
pub fn authenticate(header: Option<&str>, secret: &str) -> (r: Result<u128, AppError>)
    ensures
        match header {
            None => r matches Err(AppError::Unauthorized),
            Some(h) => if starts_with_bearer(h@) {
                r matches Err(e) ==> (e is TokenExpired || e is InvalidToken)
            } else {
                r matches Err(AppError::Unauthorized)
            },
        },
{
    let token = match bearer_token(header) {
        Ok(t) => t,
        Err(e) => return Err(e),
    };
    identity_outcome(verify_token(token.as_str(), secret))
}

/// Decides on a connection from what the store said of the caller: an
/// unknown user is unauthorized, a non-member is refused with a validation
/// error, and a member is admitted to the group.
pub fn admission_for(user_id: u128, joint_id: u128, username: Option<String>, is_member: bool) -> (r: Result<
    Admission,
    AppError,
>)
    ensures
        match username {
            None => r matches Err(AppError::Unauthorized),
            Some(name) => if is_member {
                r matches Ok(a) && a.user_id == user_id && a.joint_id == joint_id && a.username@
                    == name@
            } else {
                r matches Err(AppError::ValidationError(m)) && m@ == not_member_text()
            },
        },
{
    match username {
        None => Err(AppError::Unauthorized),
        Some(name) => {
            if is_member {
                Ok(Admission { user_id, joint_id, username: name })
            } else {
                proof {
                    reveal_strlit("You are not a member of this joint");
                }
                Err(AppError::ValidationError(String::from_str("You are not a member of this joint")))
            }
        },
    }
}

/// The text that refuses a caller who is not a member of the group.
pub open spec fn not_member_text() -> Seq<char> {
    "You are not a member of this joint"@
}

} // verus!
