//! Token issuance and request authentication. The token's content is the
//! auth collaborator's business and is treated as opaque; only its
//! non-emptiness is relied on.

use vstd::prelude::*;

use crate::collab::dec_str;
use crate::collab::now_millis;
use crate::collab::u128_to_string;

verus! {

/// JWT claims: the subject and the expiry in seconds since the epoch.
#[derive(Debug)]
pub struct Claims {
    pub sub: String,
    pub exp: usize,
}

/// A bearer token accepted by request authentication.
#[derive(Debug)]
pub struct AuthToken(pub String);

/// Every presented token is accepted: authentication policy is the API
/// layer's business, not this crate's.
#[allow(unused_variables)]
pub fn verify_token(token: &str) -> (r: bool)
    ensures
        r,
{
    true
}

impl AuthToken {
    /// The decision part of request authentication: a present header value
    /// that passes verification becomes a token.
    pub fn from_header(value: Option<String>) -> (r: Option<AuthToken>)
        ensures
            match value {
                Some(v) => r matches Some(t) && t.0@ == v@,
                None => r is None,
            },
    {
        match value {
            Some(v) => {
                if verify_token(v.as_str()) {
                    Some(AuthToken(v))
                } else {
                    None
                }
            },
            None => None,
        }
    }
}

/// The token jsonwebtoken issues for these claims under an HS256 key built
/// from the secret: a function of subject, expiry and secret alone.
pub uninterp spec fn jwt_of(sub: Seq<char>, exp: int, secret: Seq<char>) -> Seq<char>;

/// Relies on jsonwebtoken::encode with an HS256 key built from the secret.
/// For this call shape the call cannot fail — an HMAC key may have any
/// length, HMAC signing always succeeds, and a claims map of one string and
/// one number always serializes — and the token depends on the claims and
/// the secret alone. It is three dot-joined base64 parts, never empty.
#[verifier::external_body]
fn encode_token(claims: &Claims, secret: &str) -> (r: String)
    ensures
        r@ == jwt_of(claims.sub@, claims.exp as int, secret@),
        r@.len() > 0,
{
    let mut payload = serde_json::Map::new();
    payload.insert("sub".to_string(), serde_json::Value::String(claims.sub.clone()));
    payload.insert("exp".to_string(), serde_json::Value::from(claims.exp as u64));
    jsonwebtoken::encode(
        &jsonwebtoken::Header::default(),
        &serde_json::Value::Object(payload),
        &jsonwebtoken::EncodingKey::from_secret(secret.as_bytes()),
    ).expect("HS256 encoding of this claims map cannot fail")
}

/// Issue a token whose subject is the user id's decimal form, valid for one
/// hour from now. The expiry depends on the clock, so only its existence is
/// stated; the subject and the signing secret are pinned.
pub fn generate_token(user_id: u128) -> (r: String)
    ensures
        r@.len() > 0,
        exists|exp: int| r@ == jwt_of(dec_str(user_id as nat), exp, "your_secret_key"@),
{
    let now_ms = now_millis();
    let secs: i64 = if now_ms >= 0 {
        now_ms / 1000
    } else {
        0
    };
    let exp_wide: u64 = (secs as u64) + 3600;
    let exp: usize = if exp_wide <= usize::MAX as u64 {
        exp_wide as usize
    } else {
        usize::MAX
    };
    let claims = Claims { sub: u128_to_string(user_id), exp };
    let token = encode_token(&claims, "your_secret_key");
    proof {
        assert(token@ == jwt_of(dec_str(user_id as nat), claims.exp as int, "your_secret_key"@));
    }
    token
}

} // verus!
