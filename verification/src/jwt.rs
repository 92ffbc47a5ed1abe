//! Signing and checking of tokens as HS256 JSON Web Tokens with jsonwebtoken.

use vstd::prelude::*;
use crate::auth::Claims;
use crate::text::dec;
use jsonwebtoken::{decode, encode, Algorithm, DecodingKey, EncodingKey, Header, Validation};
use serde_json::Value;

verus! {

#[verifier::external_type_specification]
#[verifier::external_body]
pub struct ExJwtError(jsonwebtoken::errors::Error);

#[verifier::external_type_specification]
#[verifier::external_body]
pub struct ExJsonValue(serde_json::Value);

#[verifier::external_type_specification]
#[verifier::external_body]
#[verifier::reject_recursive_types(K)]
#[verifier::reject_recursive_types(V)]
pub struct ExJsonMap<K, V>(serde_json::Map<K, V>);

/// A value of a token's payload as the claims are read from it: absent, `null`,
/// a string, a number (by its JSON text) or anything else.
pub enum PayloadData {
    Missing,
    Null,
    Text(Seq<char>),
    Number(Seq<char>),
    Other,
}

/// A value read from a token's payload.
pub enum PayloadValue {
    Missing,
    Null,
    Text(String),
    Number(String),
    Other,
}

impl PayloadValue {
    pub open spec fn data(self) -> PayloadData {
        match self {
            PayloadValue::Missing => PayloadData::Missing,
            PayloadValue::Null => PayloadData::Null,
            PayloadValue::Text(s) => PayloadData::Text(s@),
            PayloadValue::Number(s) => PayloadData::Number(s@),
            PayloadValue::Other => PayloadData::Other,
        }
    }
}

/// What a decoded payload holds: each key with its value.
pub uninterp spec fn payload_fields(m: serde_json::Map<String, serde_json::Value>) -> Map<Seq<char>, PayloadData>;

/// The value under `key` (`Missing` where there is none).
pub open spec fn field_data(fields: Map<Seq<char>, PayloadData>, key: Seq<char>) -> PayloadData {
    if fields.dom().contains(key) {
        fields[key]
    } else {
        PayloadData::Missing
    }
}

/// The payload that `jsonwebtoken::decode` (HS256, key `secret`, with no time
/// checks and no required claims) finds in `token`: `None` where it refuses the
/// token (such as a malformed token, another algorithm, a wrong signature, a
/// payload that is not a JSON object, or an audience claim).
pub uninterp spec fn hs256_payload(token: Seq<char>, secret: Seq<u8>) -> Option<Map<Seq<char>, PayloadData>>;

/// A token time as it is written into a payload: `null`, or its decimal text.
pub open spec fn time_data(t: Option<usize>) -> PayloadData {
    match t {
        None => PayloadData::Null,
        Some(v) => PayloadData::Number(dec(v as nat)),
    }
}

/// The payload written for the five claims.
pub open spec fn signed_payload(
    username: Seq<char>,
    exp: Option<usize>,
    iat: Option<usize>,
    nbf: Option<usize>,
    jti: Seq<char>,
) -> Map<Seq<char>, PayloadData> {
    map![
        "username"@ => PayloadData::Text(username),
        "exp"@ => time_data(exp),
        "iat"@ => time_data(iat),
        "nbf"@ => time_data(nbf),
        "jti"@ => PayloadData::Text(jti),
    ]
}

/// The text of the HS256 JSON Web Token that `jsonwebtoken::encode` makes,
/// under the default header and the key `secret`, from the claims `username`,
/// `exp`, `iat`, `nbf` and `jti` (a missing time is written as `null`).
pub uninterp spec fn hs256_token(
    username: Seq<char>,
    exp: Option<usize>,
    iat: Option<usize>,
    nbf: Option<usize>,
    jti: Seq<char>,
    secret: Seq<u8>,
) -> Seq<char>;

/// `jsonwebtoken::encode` with `Header::default()` (HS256) and
/// `EncodingKey::from_secret(secret)`, on a JSON object of the five claims.
/// The result is named by `hs256_token`, and decoding it under the same key
/// gives back the five claims (numbers written in decimal, a missing time as
/// `null`). It is always `Ok`: with the
/// `rust_crypto` feature the HMAC signer takes a key of any length, the
/// header's algorithm matches the key's family, a JSON object with string
/// keys always serialises, and HMAC signing cannot fail.
#[verifier::external_body]
pub(crate) fn sign_hs256(claims: &Claims, secret: &[u8]) -> (r: Result<String, jsonwebtoken::errors::Error>)
    ensures
        r is Ok,
        r matches Ok(t) ==> t@ == hs256_token(claims.username@, claims.exp, claims.iat, claims.nbf, claims.jti@, secret@),
        r matches Ok(t) ==> hs256_payload(t@, secret@) == Some(
            signed_payload(claims.username@, claims.exp, claims.iat, claims.nbf, claims.jti@),
        ),
{
    let mut payload = serde_json::Map::<String, Value>::new();
    payload.insert("username".into(), claims.username.clone().into());
    payload.insert("exp".into(), claims.exp.into());
    payload.insert("iat".into(), claims.iat.into());
    payload.insert("nbf".into(), claims.nbf.into());
    payload.insert("jti".into(), claims.jti.clone().into());
    encode(&Header::default(), &payload, &EncodingKey::from_secret(secret))
}

/// `jsonwebtoken::decode` into a JSON object, with HS256, the key
/// `DecodingKey::from_secret(secret)`, and a `Validation` that checks neither
/// times nor required claims, so that the outcome depends on the token and the
/// key alone. Its result is named by `hs256_payload` and `payload_fields`.
#[verifier::external_body]
pub(crate) fn verify_hs256(
    token: &str,
    secret: &[u8],
) -> (r: Result<serde_json::Map<String, Value>, jsonwebtoken::errors::Error>)
    ensures
        match r {
            Ok(m) => hs256_payload(token@, secret@) == Some(payload_fields(m)),
            Err(_) => hs256_payload(token@, secret@) is None,
        },
{
    let mut validation = Validation::new(Algorithm::HS256);
    validation.validate_exp = false;
    validation.required_spec_claims.clear();
    decode::<serde_json::Map<String, Value>>(token, &DecodingKey::from_secret(secret), &validation).map(|d| d.claims)
}

/// `serde_json::Map::get`: the value under `key`, told apart by its kind; a
/// number is given by its JSON text (`Display`).
#[verifier::external_body]
pub(crate) fn read_field(m: &serde_json::Map<String, Value>, key: &str) -> (r: PayloadValue)
    ensures
        r.data() == field_data(payload_fields(*m), key@),
{
    match m.get(key) {
        None => PayloadValue::Missing,
        Some(Value::Null) => PayloadValue::Null,
        Some(Value::String(s)) => PayloadValue::Text(s.clone()),
        Some(Value::Number(n)) => PayloadValue::Number(n.to_string()),
        Some(_) => PayloadValue::Other,
    }
}

/// `Display` of `jsonwebtoken::errors::Error` (`to_string`): the error's
/// message. Nothing is promised of the text.
#[verifier::external_body]
pub(crate) fn jwt_error_text(e: &jsonwebtoken::errors::Error) -> String {
    e.to_string()
}

} // verus!
