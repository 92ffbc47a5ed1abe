//! The rules of the authentication endpoints: credential checks, registration,
//! password checks, login and refresh (the claims, lifetimes and signing of
//! issued tokens and their recording), bearer-token extraction and the checks
//! on presented tokens.

use vstd::prelude::*;
use vstd::utf8::encode_utf8;
use crate::clock::{checked_add_seconds, chrono_sure_max, unix_time};
use crate::errors::{AppError, AppResult, ErrorKind};
use crate::ids::{is_uuid_v4_text, new_uuid_v4};
use crate::jwt::{
    field_data, hs256_payload, hs256_token, signed_payload, jwt_error_text, payload_fields, read_field, sign_hs256, verify_hs256,
    PayloadData,
    PayloadValue,
};
use crate::monitoring::HeaderField;
use crate::passwords::{bcrypt_verify_result, hash_error, hash_password, verify_password};
use crate::storage::{has_jti, replaced, without_kind, TokenEntry, TokenStore, UserStore};
use crate::text::{dec, parse_bounded, parse_unsigned_bounded, starts_with, str_eq, trim, trim_str, utf8_len_below};

verus! {

/// What is wrong with a username and password, if anything: both must be
/// non-empty after trimming whitespace, the username at least 3 bytes and the
/// password at least 6 bytes long (UTF-8) after trimming.
pub open spec fn credentials_problem(username: Seq<char>, password: Seq<char>) -> Option<Seq<char>> {
    let u = trim(username);
    let p = trim(password);
    if u.len() == 0 || p.len() == 0 {
        Some("username and password are required"@)
    } else if encode_utf8(u).len() < 3 {
        Some("username must be at least 3 characters"@)
    } else if encode_utf8(p).len() < 6 {
        Some("password must be at least 6 characters"@)
    } else {
        None
    }
}

/// Checks a username and password before registration or login.
pub fn validate_credentials(username: &str, password: &str) -> (r: AppResult<()>)
    ensures
        match credentials_problem(username@, password@) {
            Some(m) => r matches Err(e) && e.is(ErrorKind::Validation, m),
            None => r is Ok,
        },
{
    let u = trim_str(username);
    let p = trim_str(password);
    if u.is_empty() || p.is_empty() {
        return Err(AppError::Validation(String::from_str("username and password are required")));
    }
    if utf8_len_below(u, 3) {
        return Err(AppError::Validation(String::from_str("username must be at least 3 characters")));
    }
    if utf8_len_below(p, 6) {
        return Err(AppError::Validation(String::from_str("password must be at least 6 characters")));
    }
    Ok(())
}

/// Registers a user: checks the credentials, refuses a taken username, hashes
/// the password and stores the user. Returns the stored hash.
pub fn register(users: &mut UserStore, username: &str, password: &str) -> (r: AppResult<String>)
    ensures
        credentials_problem(username@, password@) matches Some(m) ==> {
            &&& r matches Err(e) && e.is(ErrorKind::Validation, m)
            &&& final(users)@ == old(users)@
        },
        credentials_problem(username@, password@) is None && old(users)@.dom().contains(username@) ==> {
            &&& r matches Err(e) && e.is(ErrorKind::Conflict, "user already exists"@)
            &&& final(users)@ == old(users)@
        },
        credentials_problem(username@, password@) is None && !old(users)@.dom().contains(username@) ==> {
            &&& r matches Ok(h) ==> final(users)@ == old(users)@.insert(username@, h@)
                && bcrypt_verify_result(password@, h@) == Some(true) && h@.len() == 60
            &&& r matches Err(e) ==> e.kind() == ErrorKind::Hash && final(users)@ == old(users)@
        },
{
    validate_credentials(username, password)?;
    if users.find_user(username).is_some() {
        return Err(AppError::Conflict(String::from_str("user already exists")));
    }
    let hash = match hash_password(password) {
        Ok(h) => h,
        Err(e) => return Err(hash_error(e)),
    };
    match users.create_user(username, hash.as_str()) {
        Ok(()) => Ok(hash),
        Err(e) => Err(e),
    }
}

/// The outcome of checking a username and password against the user table.
pub enum LoginCheck {
    Accepted,
    Refused(ErrorKind, Seq<char>),
    HashFailure,
}

pub open spec fn login_check(users: Map<Seq<char>, Seq<char>>, username: Seq<char>, password: Seq<char>) -> LoginCheck {
    match credentials_problem(username, password) {
        Some(m) => LoginCheck::Refused(ErrorKind::Validation, m),
        None => if !users.dom().contains(username) {
            LoginCheck::Refused(ErrorKind::Unauthorized, "invalid credentials"@)
        } else {
            match bcrypt_verify_result(password, users[username]) {
                None => LoginCheck::HashFailure,
                Some(true) => LoginCheck::Accepted,
                Some(false) => LoginCheck::Refused(ErrorKind::Unauthorized, "invalid credentials"@),
            }
        },
    }
}

pub open spec fn matches_check(r: AppResult<()>, c: LoginCheck) -> bool {
    match c {
        LoginCheck::Accepted => r is Ok,
        LoginCheck::Refused(k, m) => r matches Err(e) && e.is(k, m),
        LoginCheck::HashFailure => r matches Err(e) && e.kind() == ErrorKind::Hash,
    }
}

/// Checks a username and password against the stored password hash.
pub fn authenticate(users: &UserStore, username: &str, password: &str) -> (r: AppResult<()>)
    ensures
        matches_check(r, login_check(users@, username@, password@)),
{
    validate_credentials(username, password)?;
    let stored = match users.find_user(username) {
        Some(h) => h,
        None => return Err(AppError::Unauthorized(String::from_str("invalid credentials"))),
    };
    match verify_password(password, stored.as_str()) {
        Ok(true) => Ok(()),
        Ok(false) => Err(AppError::Unauthorized(String::from_str("invalid credentials"))),
        Err(e) => Err(hash_error(e)),
    }
}

/// A user registered with a password can log in with the same password.
pub proof fn lemma_registered_user_can_log_in(
    users: Map<Seq<char>, Seq<char>>,
    username: Seq<char>,
    password: Seq<char>,
    hash: Seq<char>,
)
    requires
        credentials_problem(username, password) is None,
        bcrypt_verify_result(password, hash) == Some(true),
    ensures
        login_check(users.insert(username, hash), username, password) == LoginCheck::Accepted,
{
}

/// The claims carried by an issued token.
#[derive(Debug, Clone)]
pub struct Claims {
    pub username: String,
    pub exp: Option<usize>,
    pub iat: Option<usize>,
    pub nbf: Option<usize>,
    pub jti: String,
}

/// A Unix time as `usize`, when it fits.
pub open spec fn time_as_usize(t: int) -> Option<usize> {
    if 0 <= t <= usize::MAX {
        Some(t as usize)
    } else {
        None
    }
}

fn time_to_usize(t: i64) -> (r: Option<usize>)
    ensures
        r == time_as_usize(t as int),
{
    if t < 0 {
        None
    } else if t as u64 > usize::MAX as u64 {
        None
    } else {
        Some(t as usize)
    }
}

/// Claims of a token for `username` expiring at `exp`, issued (and valid from)
/// `iat`, with id `jti`.
pub open spec fn claims_are(c: Claims, username: Seq<char>, exp: usize, iat: usize, jti: Seq<char>) -> bool {
    &&& c.username@ == username
    &&& c.exp == Some(exp)
    &&& c.iat == Some(iat)
    &&& c.nbf == Some(iat)
    &&& c.jti@ == jti
}

/// Lifetime of an access token, in seconds (15 minutes).
pub open spec fn access_lifetime() -> int {
    900
}

/// Lifetime of a refresh token, in seconds (7 days).
pub open spec fn refresh_lifetime() -> int {
    604800
}

/// Access-token claims from the computed expiry (`None` when it was out of
/// range), the issue time and the random id.
pub fn access_claims_from(username: &str, expiry: Option<i64>, issued: i64, id: &str) -> (r: AppResult<Claims>)
    ensures
        match expiry {
            None => r matches Err(e) && e.is(ErrorKind::Token, "failed to build access expiration"@),
            Some(x) => match time_as_usize(x as int) {
                None => r matches Err(e) && e.is(ErrorKind::Token, "invalid access exp"@),
                Some(exp) => match time_as_usize(issued as int) {
                    None => r matches Err(e) && e.is(ErrorKind::Token, "invalid iat"@),
                    Some(iat) => r matches Ok(c) && claims_are(c, username@, exp, iat, "access-"@ + id@),
                },
            },
        },
{
    let exp = match expiry {
        None => return Err(AppError::Token(String::from_str("failed to build access expiration"))),
        Some(x) => match time_to_usize(x) {
            None => return Err(AppError::Token(String::from_str("invalid access exp"))),
            Some(e) => e,
        },
    };
    let iat = match time_to_usize(issued) {
        None => return Err(AppError::Token(String::from_str("invalid iat"))),
        Some(t) => t,
    };
    Ok(Claims {
        username: String::from_str(username),
        exp: Some(exp),
        iat: Some(iat),
        nbf: Some(iat),
        jti: prefixed("access-", id),
    })
}

fn prefixed(prefix: &str, id: &str) -> (s: String)
    ensures
        s@ == prefix@ + id@,
{
    let mut s = String::from_str(prefix);
    s.append(id);
    s
}

/// Login claims (access, refresh) from the computed expiries (`None` when out
/// of range), the issue time and the two random ids.
pub fn login_claims_from(
    username: &str,
    access_expiry: Option<i64>,
    refresh_expiry: Option<i64>,
    issued: i64,
    access_id: &str,
    refresh_id: &str,
) -> (r: AppResult<(Claims, Claims)>)
    ensures
        match access_expiry {
            None => r matches Err(e) && e.is(ErrorKind::Token, "failed to build access expiration"@),
            Some(ax) => match time_as_usize(ax as int) {
                None => r matches Err(e) && e.is(ErrorKind::Token, "invalid access exp"@),
                Some(aexp) => match refresh_expiry {
                    None => r matches Err(e) && e.is(ErrorKind::Token, "failed to build refresh expiration"@),
                    Some(rx) => match time_as_usize(rx as int) {
                        None => r matches Err(e) && e.is(ErrorKind::Token, "invalid refresh exp"@),
                        Some(rexp) => match time_as_usize(issued as int) {
                            None => r matches Err(e) && e.is(ErrorKind::Token, "invalid iat"@),
                            Some(iat) => r matches Ok((a, f)) && claims_are(
                                a,
                                username@,
                                aexp,
                                iat,
                                "access-"@ + access_id@,
                            ) && claims_are(f, username@, rexp, iat, "refresh-"@ + refresh_id@),
                        },
                    },
                },
            },
        },
{
    let aexp = match access_expiry {
        None => return Err(AppError::Token(String::from_str("failed to build access expiration"))),
        Some(x) => match time_to_usize(x) {
            None => return Err(AppError::Token(String::from_str("invalid access exp"))),
            Some(e) => e,
        },
    };
    let rexp = match refresh_expiry {
        None => return Err(AppError::Token(String::from_str("failed to build refresh expiration"))),
        Some(x) => match time_to_usize(x) {
            None => return Err(AppError::Token(String::from_str("invalid refresh exp"))),
            Some(e) => e,
        },
    };
    let iat = match time_to_usize(issued) {
        None => return Err(AppError::Token(String::from_str("invalid iat"))),
        Some(t) => t,
    };
    let access = Claims {
        username: String::from_str(username),
        exp: Some(aexp),
        iat: Some(iat),
        nbf: Some(iat),
        jti: prefixed("access-", access_id),
    };
    let refresh = Claims {
        username: String::from_str(username),
        exp: Some(rexp),
        iat: Some(iat),
        nbf: Some(iat),
        jti: prefixed("refresh-", refresh_id),
    };
    Ok((access, refresh))
}

/// Unix times at which a token of `lifetime` seconds is sure to be issued:
/// from 1970 on, with the expiry within chrono's sure range and within `usize`.
pub open spec fn issuable(now: int, lifetime: int) -> bool {
    &&& 0 <= now
    &&& now + lifetime <= chrono_sure_max()
    &&& now + lifetime <= usize::MAX
}

/// Claims of a token for `username` issued at Unix time `now` for `lifetime`
/// seconds: expiring at `now + lifetime`, issued and valid from `now`, with id
/// `jti`.
pub open spec fn issued_claims(c: Claims, username: Seq<char>, now: int, lifetime: int, jti: Seq<char>) -> bool {
    &&& 0 <= now && now + lifetime <= usize::MAX
    &&& c.username@ == username
    &&& c.exp == Some((now + lifetime) as usize)
    &&& c.iat == Some(now as usize)
    &&& c.nbf == Some(now as usize)
    &&& c.jti@ == jti
}

/// The refusals of claims that cannot be built at a given time: an expiry
/// out of chrono's range, or a time that does not fit `usize`.
pub open spec fn claims_failure(e: AppError) -> bool {
    ||| e.is(ErrorKind::Token, "failed to build access expiration"@)
    ||| e.is(ErrorKind::Token, "invalid access exp"@)
    ||| e.is(ErrorKind::Token, "failed to build refresh expiration"@)
    ||| e.is(ErrorKind::Token, "invalid refresh exp"@)
    ||| e.is(ErrorKind::Token, "invalid iat"@)
}

/// The claims of an access token issued at the Unix time `now` with the random
/// id `id`: they expire `access_lifetime()` seconds later.
pub fn access_claims_at(username: &str, now: i64, id: &str) -> (r: AppResult<Claims>)
    ensures
        r matches Ok(c) ==> issued_claims(c, username@, now as int, access_lifetime(), "access-"@ + id@),
        r matches Err(e) ==> claims_failure(e),
        issuable(now as int, access_lifetime()) ==> r is Ok,
{
    let expiry = checked_add_seconds(now, 900);
    access_claims_from(username, expiry, now, id)
}

/// The claims of the access and refresh tokens of a login at the Unix time
/// `now`, with the random ids `access_id` and `refresh_id`: the access token
/// expires `access_lifetime()` seconds later, the refresh token
/// `refresh_lifetime()` seconds later.
pub fn login_claims_at(username: &str, now: i64, access_id: &str, refresh_id: &str) -> (r: AppResult<(Claims, Claims)>)
    ensures
        r matches Ok((a, f)) ==> issued_claims(a, username@, now as int, access_lifetime(), "access-"@ + access_id@)
            && issued_claims(f, username@, now as int, refresh_lifetime(), "refresh-"@ + refresh_id@),
        r matches Err(e) ==> claims_failure(e),
        issuable(now as int, refresh_lifetime()) ==> r is Ok,
{
    let access_expiry = checked_add_seconds(now, 900);
    let refresh_expiry = checked_add_seconds(now, 604800);
    login_claims_from(username, access_expiry, refresh_expiry, now, access_id, refresh_id)
}

/// The text of the token issued to `username` at `now` for `lifetime` seconds
/// with id `jti`, signed with `secret`.
pub open spec fn issued_token(username: Seq<char>, now: int, lifetime: int, jti: Seq<char>, secret: Seq<u8>) -> Seq<char> {
    hs256_token(
        username,
        Some((now + lifetime) as usize),
        Some(now as usize),
        Some(now as usize),
        jti,
        secret,
    )
}

/// The payload of the token issued to `username` at `now` for `lifetime`
/// seconds with id `jti`.
pub open spec fn issued_payload(username: Seq<char>, now: int, lifetime: int, jti: Seq<char>) -> Map<Seq<char>, PayloadData> {
    signed_payload(username, Some((now + lifetime) as usize), Some(now as usize), Some(now as usize), jti)
}

/// Signs the claims with `secret` (HS256).
fn sign(claims: &Claims, secret: &[u8]) -> (t: String)
    ensures
        t@ == hs256_token(claims.username@, claims.exp, claims.iat, claims.nbf, claims.jti@, secret@),
        hs256_payload(t@, secret@) == Some(signed_payload(claims.username@, claims.exp, claims.iat, claims.nbf, claims.jti@)),
{
    match sign_hs256(claims, secret) {
        Ok(t) => t,
        Err(_) => vstd::pervasive::unreached(),
    }
}

/// The outcome of issuing a login's tokens to `username` at `now` with the
/// ids `aid` and `rid`: the access token replaces the user's access token,
/// then the refresh token replaces the user's refresh token; a refused
/// replacement ends the login with its error, what was done before it
/// standing. `r` is the result and `after` the table after.
pub open spec fn login_issued(
    before: Map<Seq<char>, TokenEntry>,
    after: Map<Seq<char>, TokenEntry>,
    r: AppResult<(String, String)>,
    secret: Seq<u8>,
    username: Seq<char>,
    now: int,
    aid: Seq<char>,
    rid: Seq<char>,
) -> bool {
    let a = issued_token(username, now, access_lifetime(), "access-"@ + aid, secret);
    let f = issued_token(username, now, refresh_lifetime(), "refresh-"@ + rid, secret);
    let (e1, m1) = replaced(before, a, username, "access"@, "access-"@ + aid);
    let (e2, m2) = replaced(m1, f, username, "refresh"@, "refresh-"@ + rid);
    match e1 {
        Some(msg) => r matches Err(e) && e.is(ErrorKind::Database, msg) && after == m1,
        None => match e2 {
            Some(msg) => r matches Err(e) && e.is(ErrorKind::Database, msg) && after == m2,
            None => {
                &&& r matches Ok((x, y)) && x@ == a && y@ == f && after == m2
                &&& hs256_payload(a, secret) == Some(issued_payload(username, now, access_lifetime(), "access-"@ + aid))
                &&& hs256_payload(f, secret) == Some(issued_payload(username, now, refresh_lifetime(), "refresh-"@ + rid))
            },
        },
    }
}

/// Issues the tokens of a login at the Unix time `now` with the random ids
/// `access_id` and `refresh_id`, and records them in the token table. At a
/// time when the claims cannot be built the login fails with a token error
/// and the table is unchanged.
pub fn issue_login_tokens(
    tokens: &mut TokenStore,
    secret: &[u8],
    username: &str,
    now: i64,
    access_id: &str,
    refresh_id: &str,
) -> (r: AppResult<(String, String)>)
    ensures
        issuable(now as int, refresh_lifetime()) ==> login_issued(
            old(tokens)@,
            final(tokens)@,
            r,
            secret@,
            username@,
            now as int,
            access_id@,
            refresh_id@,
        ),
        login_issued(old(tokens)@, final(tokens)@, r, secret@, username@, now as int, access_id@, refresh_id@)
            || (r matches Err(e) && claims_failure(e) && final(tokens)@ == old(tokens)@),
{
    let (access, refresh) = login_claims_at(username, now, access_id, refresh_id)?;
    let access_token = sign(&access, secret);
    let refresh_token = sign(&refresh, secret);
    tokens.replace_token_for_user(access_token.as_str(), username, "access", access.jti.as_str())?;
    tokens.replace_token_for_user(refresh_token.as_str(), username, "refresh", refresh.jti.as_str())?;
    Ok((access_token, refresh_token))
}

/// Issuing a login's tokens at `now` with the ids `aid` and `rid` ended with
/// `r` and left the table `after`: exactly as `login_issued` at a time that can
/// be issued; at another time either so or a token error with the table
/// unchanged.
pub open spec fn login_issued_at(
    before: Map<Seq<char>, TokenEntry>,
    after: Map<Seq<char>, TokenEntry>,
    r: AppResult<(String, String)>,
    secret: Seq<u8>,
    username: Seq<char>,
    now: int,
    aid: Seq<char>,
    rid: Seq<char>,
) -> bool {
    &&& issuable(now, refresh_lifetime()) ==> login_issued(before, after, r, secret, username, now, aid, rid)
    &&& login_issued(before, after, r, secret, username, now, aid, rid)
        || (r matches Err(e) && claims_failure(e) && after == before)
}

/// Logs a user in: checks the credentials, then issues an access token and a
/// refresh token, signed with `secret`, and records them in the token table,
/// each replacing the user's token of its kind. The clock and the random ids
/// are not promised: the outcome is that of `issue_login_tokens` at some Unix
/// time with some version 4 UUIDs, or a token error with the table unchanged
/// where the system clock reads before 1970 or the random source fails.
pub fn login(
    users: &UserStore,
    tokens: &mut TokenStore,
    secret: &[u8],
    username: &str,
    password: &str,
) -> (r: AppResult<(String, String)>)
    ensures
        !(login_check(users@, username@, password@) is Accepted) ==> {
            &&& r matches Err(e) && matches_check(Err(e), login_check(users@, username@, password@))
            &&& final(tokens)@ == old(tokens)@
        },
        login_check(users@, username@, password@) is Accepted ==> {
            ||| (r matches Err(e) && outside_failure(e) && final(tokens)@ == old(tokens)@)
            ||| exists|now: i64, aid: Seq<char>, rid: Seq<char>| {
                &&& now >= 0
                &&& is_uuid_v4_text(aid)
                &&& is_uuid_v4_text(rid)
                &&& #[trigger] login_issued_at(old(tokens)@, final(tokens)@, r, secret@, username@, now as int, aid, rid)
            }
        },
{
    authenticate(users, username, password)?;
    let now = match unix_time() {
        Some(t) => t,
        None => return Err(AppError::Token(String::from_str("system time before Unix epoch"))),
    };
    let access_id = match new_uuid_v4() {
        Some(id) => id,
        None => return Err(AppError::Token(String::from_str("random source unavailable"))),
    };
    let refresh_id = match new_uuid_v4() {
        Some(id) => id,
        None => return Err(AppError::Token(String::from_str("random source unavailable"))),
    };
    let r = issue_login_tokens(tokens, secret, username, now, access_id.as_str(), refresh_id.as_str());
    proof {
        assert(login_issued_at(old(tokens)@, tokens@, r, secret@, username@, now as int, access_id@, refresh_id@));
    }
    r
}

/// The outcome of issuing a new access token to `username` at `now` with the
/// id `id`: it replaces the user's access token.
pub open spec fn access_issued(
    before: Map<Seq<char>, TokenEntry>,
    after: Map<Seq<char>, TokenEntry>,
    r: AppResult<String>,
    secret: Seq<u8>,
    username: Seq<char>,
    now: int,
    id: Seq<char>,
) -> bool {
    let a = issued_token(username, now, access_lifetime(), "access-"@ + id, secret);
    let (err, m) = replaced(before, a, username, "access"@, "access-"@ + id);
    &&& after == m
    &&& match err {
        Some(msg) => r matches Err(e) && e.is(ErrorKind::Database, msg),
        None => {
            &&& r matches Ok(x) && x@ == a
            &&& hs256_payload(a, secret) == Some(issued_payload(username, now, access_lifetime(), "access-"@ + id))
        },
    }
}

/// Issues a new access token for `username` at the Unix time `now` with the
/// random id `id`, and records it in the token table. At a time when the
/// claims cannot be built it fails with a token error, the table unchanged.
pub fn issue_access_token(tokens: &mut TokenStore, secret: &[u8], username: &str, now: i64, id: &str) -> (r: AppResult<String>)
    ensures
        issuable(now as int, access_lifetime()) ==> access_issued(old(tokens)@, final(tokens)@, r, secret@, username@, now as int, id@),
        access_issued(old(tokens)@, final(tokens)@, r, secret@, username@, now as int, id@)
            || (r matches Err(e) && claims_failure(e) && final(tokens)@ == old(tokens)@),
{
    let claims = access_claims_at(username, now, id)?;
    let token = sign(&claims, secret);
    tokens.replace_token_for_user(token.as_str(), username, "access", claims.jti.as_str())?;
    Ok(token)
}

/// A token may be exchanged for a new access token while it is in the token
/// table as a refresh token.
pub open spec fn refresh_accepted(m: Map<Seq<char>, TokenEntry>, token: Seq<char>) -> bool {
    m.dom().contains(token) && m[token].kind == "refresh"@
}

/// The first check on a refresh request: the presented token must be in the
/// token table as a refresh token.
pub fn check_refresh_token(tokens: &TokenStore, token: &str) -> (r: AppResult<()>)
    ensures
        refresh_accepted(tokens@, token@) ==> r is Ok,
        !refresh_accepted(tokens@, token@) ==> (r matches Err(e) && e.is(ErrorKind::Unauthorized, "invalid refresh token"@)),
{
    match tokens.token_kind(token) {
        Some(kind) => {
            if str_eq(kind.as_str(), "refresh") {
                Ok(())
            } else {
                Err(AppError::Unauthorized(String::from_str("invalid refresh token")))
            }
        },
        None => Err(AppError::Unauthorized(String::from_str("invalid refresh token"))),
    }
}

/// The token carried by an `Authorization: Bearer <token>` header, or the
/// message refusing the header.
pub open spec fn bearer_outcome(h: HeaderField) -> Result<Seq<char>, Seq<char>> {
    match h {
        HeaderField::Absent => Err("missing authorization header"@),
        HeaderField::Opaque => Err("invalid authorization header"@),
        HeaderField::Text(v) => {
            let p = "Bearer "@;
            if p.len() <= v@.len() && v@.subrange(0, p.len() as int) == p {
                let t = v@.subrange(p.len() as int, v@.len() as int);
                if trim(t).len() == 0 {
                    Err("token must not be empty"@)
                } else {
                    Ok(t)
                }
            } else {
                Err("expected bearer token"@)
            }
        },
    }
}

/// Extracts the bearer token from an `Authorization` header.
pub fn bearer_token(authorization: &HeaderField) -> (r: AppResult<String>)
    ensures
        match bearer_outcome(*authorization) {
            Ok(t) => r matches Ok(s) && s@ == t,
            Err(m) => r matches Err(e) && e.is(ErrorKind::Unauthorized, m),
        },
{
    let value = match authorization {
        HeaderField::Absent => {
            return Err(AppError::Unauthorized(String::from_str("missing authorization header")));
        },
        HeaderField::Opaque => {
            return Err(AppError::Unauthorized(String::from_str("invalid authorization header")));
        },
        HeaderField::Text(v) => v.as_str(),
    };
    if !starts_with(value, "Bearer ") {
        return Err(AppError::Unauthorized(String::from_str("expected bearer token")));
    }
    let prefix_len = "Bearer ".unicode_len();
    let token = value.substring_char(prefix_len, value.unicode_len());
    if trim_str(token).is_empty() {
        return Err(AppError::Unauthorized(String::from_str("token must not be empty")));
    }
    Ok(String::from_str(token))
}

/// Logs out: removes the bearer token from the token table. Returns the token.
pub fn logout(tokens: &mut TokenStore, authorization: &HeaderField) -> (r: AppResult<String>)
    ensures
        match bearer_outcome(*authorization) {
            Ok(t) => r matches Ok(s) && s@ == t && final(tokens)@ == old(tokens)@.remove(t),
            Err(m) => r matches Err(e) && e.is(ErrorKind::Unauthorized, m) && final(tokens)@ == old(tokens)@,
        },
{
    let token = bearer_token(authorization)?;
    tokens.invalidate_token(token.as_str());
    Ok(token)
}

/// The first check on a profile request: the bearer token, or the message
/// refusing the request.
pub open spec fn authorize_outcome(m: Map<Seq<char>, TokenEntry>, h: HeaderField) -> Result<Seq<char>, Seq<char>> {
    match bearer_outcome(h) {
        Ok(t) => if m.dom().contains(t) {
            Ok(t)
        } else {
            Err("invalid token"@)
        },
        Err(msg) => Err(msg),
    }
}

/// The first check on a profile request: the bearer token must be in the
/// token table. Returns the token.
pub fn authorize(tokens: &TokenStore, authorization: &HeaderField) -> (r: AppResult<String>)
    ensures
        match authorize_outcome(tokens@, *authorization) {
            Ok(t) => r matches Ok(s) && s@ == t,
            Err(m) => r matches Err(e) && e.is(ErrorKind::Unauthorized, m),
        },
{
    let token = bearer_token(authorization)?;
    if !tokens.has_token(token.as_str()) {
        return Err(AppError::Unauthorized(String::from_str("invalid token")));
    }
    Ok(token)
}

/// A token is not yet valid at Unix time `now` (converted as by `as usize`) when
/// its issue time or its not-before time (0 when missing) is later.
pub open spec fn not_yet_valid(c: Claims, now: i64) -> bool {
    times_not_yet_valid(c.iat, c.nbf, now)
}

/// An issue time or not-before time (0 when missing) later than `now`
/// (converted as by `as usize`).
pub open spec fn times_not_yet_valid(iat: Option<usize>, nbf: Option<usize>, now: i64) -> bool {
    let t = now as usize;
    let i = match iat { Some(v) => v, None => 0 };
    let n = match nbf { Some(v) => v, None => 0 };
    i > t || n > t
}

/// The profile check on decoded claims at Unix time `now`: the username, or a
/// refusal of a token that is not yet valid.
pub fn check_claim_times(claims: &Claims, now: i64) -> (r: AppResult<String>)
    ensures
        not_yet_valid(*claims, now) ==> (r matches Err(e) && e.is(ErrorKind::Unauthorized, "token not yet valid"@)),
        !not_yet_valid(*claims, now) ==> (r matches Ok(u) && u@ == claims.username@),
{
    let t = now as usize;
    let iat = match claims.iat { Some(v) => v, None => 0 };
    let nbf = match claims.nbf { Some(v) => v, None => 0 };
    if iat > t || nbf > t {
        return Err(AppError::Unauthorized(String::from_str("token not yet valid")));
    }
    Ok(claims.username.clone())
}

/// The claims as plain values: username, expiry, issue time, not-before time
/// and id.
pub open spec fn claims_data(c: Claims) -> (Seq<char>, Option<usize>, Option<usize>, Option<usize>, Seq<char>) {
    (c.username@, c.exp, c.iat, c.nbf, c.jti@)
}

/// A time claim as serde reads it into `Option<usize>`: absent or `null` is
/// none; a number must be an unsigned integer that fits `usize`.
pub open spec fn time_claim(d: PayloadData) -> Option<Option<usize>> {
    match d {
        PayloadData::Missing => Some(None),
        PayloadData::Null => Some(None),
        PayloadData::Number(s) => match parse_bounded(s, usize::MAX as nat) {
            Some(v) => Some(Some(v as usize)),
            None => None,
        },
        _ => None,
    }
}

/// A text claim as serde reads it into `String`: it must be a string.
pub open spec fn text_claim(d: PayloadData) -> Option<Seq<char>> {
    match d {
        PayloadData::Text(s) => Some(s),
        _ => None,
    }
}

/// The claims that a token's payload holds, as serde reads them into `Claims`,
/// or `None` where it cannot.
pub open spec fn payload_claims(p: Map<Seq<char>, PayloadData>) -> Option<(Seq<char>, Option<usize>, Option<usize>, Option<usize>, Seq<char>)> {
    match (
        text_claim(field_data(p, "username"@)),
        time_claim(field_data(p, "exp"@)),
        time_claim(field_data(p, "iat"@)),
        time_claim(field_data(p, "nbf"@)),
        text_claim(field_data(p, "jti"@)),
    ) {
        (Some(u), Some(e), Some(i), Some(n), Some(j)) => Some((u, e, i, n, j)),
        _ => None,
    }
}

fn time_value(v: PayloadValue) -> (r: Option<Option<usize>>)
    ensures
        r == time_claim(v.data()),
{
    match v {
        PayloadValue::Missing => Some(None),
        PayloadValue::Null => Some(None),
        PayloadValue::Number(s) => match parse_unsigned_bounded(s.as_str(), usize::MAX as u64) {
            Some(n) => Some(Some(n as usize)),
            None => None,
        },
        _ => None,
    }
}

fn text_value(v: PayloadValue) -> (r: Option<String>)
    ensures
        match text_claim(v.data()) {
            Some(s) => r matches Some(t) && t@ == s,
            None => r is None,
        },
{
    match v {
        PayloadValue::Text(s) => Some(s),
        _ => None,
    }
}

/// Reads the claims out of a decoded payload.
fn claims_from_payload(m: &serde_json::Map<String, serde_json::Value>) -> (r: Option<Claims>)
    ensures
        match payload_claims(payload_fields(*m)) {
            Some(d) => r matches Some(c) && claims_data(c) == d,
            None => r is None,
        },
{
    let username = text_value(read_field(m, "username"));
    let exp = time_value(read_field(m, "exp"));
    let iat = time_value(read_field(m, "iat"));
    let nbf = time_value(read_field(m, "nbf"));
    let jti = text_value(read_field(m, "jti"));
    match (username, exp, iat, nbf, jti) {
        (Some(username), Some(exp), Some(iat), Some(nbf), Some(jti)) => Some(Claims { username, exp, iat, nbf, jti }),
        _ => None,
    }
}

/// jsonwebtoken's checks of the times of a presented token at the Unix time
/// `now`, with its default leeway of 60 seconds: the expiry is required; with
/// `check_nbf` a `null` not-before time is malformed; the token has expired
/// when `exp + 60 < now`; with `check_nbf` it is not yet valid when
/// `nbf > now + 60`. The refusal, if any.
pub open spec fn time_problem(
    p: Map<Seq<char>, PayloadData>,
    d: (Seq<char>, Option<usize>, Option<usize>, Option<usize>, Seq<char>),
    now: int,
    check_nbf: bool,
) -> Option<Seq<char>> {
    if d.1 is None {
        Some("Missing required claim: exp"@)
    } else if check_nbf && field_data(p, "nbf"@) == PayloadData::Null {
        Some("Invalid format for claim: nbf"@)
    } else if d.1->Some_0 + 60 < now {
        Some("ExpiredSignature"@)
    } else if check_nbf && d.3 is Some && d.3->Some_0 > now + 60 {
        Some("ImmatureSignature"@)
    } else {
        None
    }
}

/// The outcome of checking a presented token at `now`: its claims, or the
/// refusal (`None` for the message jsonwebtoken gives for a token it rejects).
pub open spec fn presented_outcome(
    token: Seq<char>,
    secret: Seq<u8>,
    now: int,
    check_nbf: bool,
) -> Result<(Seq<char>, Option<usize>, Option<usize>, Option<usize>, Seq<char>), Option<Seq<char>>> {
    match hs256_payload(token, secret) {
        None => Err(None),
        Some(p) => match payload_claims(p) {
            None => Err(Some("invalid token claims"@)),
            Some(d) => match time_problem(p, d, now, check_nbf) {
                Some(m) => Err(Some(m)),
                None => Ok(d),
            },
        },
    }
}

/// `e` is the token error of the refusal `o`.
pub open spec fn refused_with(e: AppError, o: Option<Seq<char>>) -> bool {
    match o {
        None => e.kind() == ErrorKind::Token,
        Some(m) => e.is(ErrorKind::Token, m),
    }
}

/// Checks a presented token at the Unix time `now`: its HS256 signature under
/// `secret` and its payload (by jsonwebtoken), its claims, and its times.
pub fn check_presented_token(token: &str, secret: &[u8], now: i64, check_nbf: bool) -> (r: AppResult<Claims>)
    ensures
        match presented_outcome(token@, secret@, now as int, check_nbf) {
            Ok(d) => r matches Ok(c) && claims_data(c) == d,
            Err(o) => r matches Err(e) && refused_with(e, o),
        },
{
    let payload = match verify_hs256(token, secret) {
        Ok(m) => m,
        Err(e) => return Err(AppError::Token(jwt_error_text(&e))),
    };
    let claims = match claims_from_payload(&payload) {
        Some(c) => c,
        None => return Err(AppError::Token(String::from_str("invalid token claims"))),
    };
    let exp = match claims.exp {
        Some(e) => e,
        None => return Err(AppError::Token(String::from_str("Missing required claim: exp"))),
    };
    if check_nbf {
        if let PayloadValue::Null = read_field(&payload, "nbf") {
            return Err(AppError::Token(String::from_str("Invalid format for claim: nbf")));
        }
    }
    if (exp as i128) + 60 < now as i128 {
        return Err(AppError::Token(String::from_str("ExpiredSignature")));
    }
    if check_nbf {
        if let Some(nbf) = claims.nbf {
            if (nbf as i128) > (now as i128) + 60 {
                return Err(AppError::Token(String::from_str("ImmatureSignature")));
            }
        }
    }
    Ok(claims)
}

/// The failures of the clock and of the random source.
pub open spec fn outside_failure(e: AppError) -> bool {
    ||| e.is(ErrorKind::Token, "system time before Unix epoch"@)
    ||| e.is(ErrorKind::Token, "random source unavailable"@)
}

/// Issuing an access token at `now` with the id `id` ended with `r` and left
/// `after`: exactly as `access_issued` at a time that can be issued; at
/// another time either so or a token error with the table unchanged.
pub open spec fn access_issued_at(
    before: Map<Seq<char>, TokenEntry>,
    after: Map<Seq<char>, TokenEntry>,
    r: AppResult<String>,
    secret: Seq<u8>,
    username: Seq<char>,
    now: int,
    id: Seq<char>,
) -> bool {
    &&& issuable(now, access_lifetime()) ==> access_issued(before, after, r, secret, username, now, id)
    &&& access_issued(before, after, r, secret, username, now, id)
        || (r matches Err(e) && claims_failure(e) && after == before)
}

/// A refresh at `now` with the new id `id` ended with `r` and left `after`: the
/// presented token is checked (its expiry, not its not-before time); a refused
/// token leaves the table unchanged; an accepted one has a new access token,
/// with a version 4 UUID as its id, issued to its user.
pub open spec fn refreshed_at(
    before: Map<Seq<char>, TokenEntry>,
    after: Map<Seq<char>, TokenEntry>,
    r: AppResult<String>,
    secret: Seq<u8>,
    token: Seq<char>,
    now: int,
    id: Seq<char>,
) -> bool {
    match presented_outcome(token, secret, now, false) {
        Err(o) => r matches Err(e) && refused_with(e, o) && after == before,
        Ok(d) => is_uuid_v4_text(id) && access_issued_at(before, after, r, secret, d.0, now, id),
    }
}

/// Exchanges a refresh token for a new access token: the token must be in the
/// table as a refresh token, then pass the presented-token checks at the
/// current time; the new access token goes to the token's user and replaces
/// that user's access token. The clock and the random id are not promised: the
/// outcome is that of `refreshed_at` at some Unix time with some id, or a failure of the clock or of the random source with the table
/// unchanged.
pub fn refresh(tokens: &mut TokenStore, secret: &[u8], refresh_token: &str) -> (r: AppResult<String>)
    ensures
        !refresh_accepted(old(tokens)@, refresh_token@) ==> {
            &&& r matches Err(e) && e.is(ErrorKind::Unauthorized, "invalid refresh token"@)
            &&& final(tokens)@ == old(tokens)@
        },
        refresh_accepted(old(tokens)@, refresh_token@) ==> {
            ||| (r matches Err(e) && outside_failure(e) && final(tokens)@ == old(tokens)@)
            ||| exists|now: i64, id: Seq<char>| {
                &&& now >= 0
                &&& #[trigger] refreshed_at(old(tokens)@, final(tokens)@, r, secret@, refresh_token@, now as int, id)
            }
        },
{
    check_refresh_token(tokens, refresh_token)?;
    let now = match unix_time() {
        Some(t) => t,
        None => return Err(AppError::Token(String::from_str("system time before Unix epoch"))),
    };
    let claims = match check_presented_token(refresh_token, secret, now, false) {
        Ok(c) => c,
        Err(e) => {
            let r: AppResult<String> = Err(e);
            proof {
                assert(refreshed_at(old(tokens)@, tokens@, r, secret@, refresh_token@, now as int, seq!['0']));
            }
            return r;
        },
    };
    let id = match new_uuid_v4() {
        Some(id) => id,
        None => return Err(AppError::Token(String::from_str("random source unavailable"))),
    };
    let username = claims.username.as_str();
    let r = issue_access_token(tokens, secret, username, now, id.as_str());
    proof {
        assert(username@ == claims.username@);
        assert(refreshed_at(old(tokens)@, tokens@, r, secret@, refresh_token@, now as int, id@));
    }
    r
}

/// A profile request with the token `token` at `now` ended with `r`: the
/// presented token is checked (expiry and not-before time), then its issue
/// and not-before times against `now`; the result is the token's username.
pub open spec fn profile_at(r: AppResult<String>, token: Seq<char>, secret: Seq<u8>, now: i64) -> bool {
    match presented_outcome(token, secret, now as int, true) {
        Err(o) => r matches Err(e) && refused_with(e, o),
        Ok(d) => if times_not_yet_valid(d.2, d.3, now) {
            r matches Err(e) && e.is(ErrorKind::Unauthorized, "token not yet valid"@)
        } else {
            r matches Ok(u) && u@ == d.0
        },
    }
}

/// The username of the bearer of a token: the bearer token must be in the
/// token table, then pass the presented-token checks and the profile's time
/// check at the current time. The clock is not promised: the outcome is that
/// of `profile_at` at some Unix time, or a failure of the clock.
pub fn me(tokens: &TokenStore, secret: &[u8], authorization: &HeaderField) -> (r: AppResult<String>)
    ensures
        match authorize_outcome(tokens@, *authorization) {
            Err(m) => r matches Err(e) && e.is(ErrorKind::Unauthorized, m),
            Ok(t) => {
                ||| (r matches Err(e) && e.is(ErrorKind::Token, "system time before Unix epoch"@))
                ||| exists|now: i64| now >= 0 && #[trigger] profile_at(r, t, secret@, now)
            },
        },
{
    let token = authorize(tokens, authorization)?;
    let now = match unix_time() {
        Some(t) => t,
        None => return Err(AppError::Token(String::from_str("system time before Unix epoch"))),
    };
    let claims = match check_presented_token(token.as_str(), secret, now, true) {
        Ok(c) => c,
        Err(e) => {
            let r: AppResult<String> = Err(e);
            proof {
                assert(profile_at(r, token@, secret@, now));
            }
            return r;
        },
    };
    let r = check_claim_times(&claims, now);
    proof {
        assert(profile_at(r, token@, secret@, now));
    }
    r
}

/// A token the library issued at `now` for `lifetime` seconds passes the
/// presented-token checks, and gives back its claims, at any time from 60
/// seconds before its issue to 60 seconds after its expiry.
pub proof fn lemma_issued_token_accepted(
    token: Seq<char>,
    secret: Seq<u8>,
    username: Seq<char>,
    now: int,
    lifetime: int,
    jti: Seq<char>,
    at: int,
    check_nbf: bool,
)
    requires
        hs256_payload(token, secret) == Some(issued_payload(username, now, lifetime, jti)),
        0 <= now,
        0 <= lifetime,
        now + lifetime <= usize::MAX,
        now - 60 <= at <= now + lifetime + 60,
    ensures
        presented_outcome(token, secret, at, check_nbf) == Ok::<_, Option<Seq<char>>>(
            (username, Some((now + lifetime) as usize), Some(now as usize), Some(now as usize), jti),
        ),
{
    reveal_strlit("username");
    reveal_strlit("exp");
    reveal_strlit("iat");
    reveal_strlit("nbf");
    reveal_strlit("jti");
    let p = issued_payload(username, now, lifetime, jti);
    assert("username"@.len() == 8 && "exp"@.len() == 3);
    assert("username"@ != "exp"@ && "username"@ != "iat"@ && "username"@ != "nbf"@ && "username"@ != "jti"@);
    assert("exp"@[0] != "iat"@[0] && "exp"@[0] != "nbf"@[0] && "exp"@[0] != "jti"@[0]);
    assert("exp"@ != "iat"@ && "exp"@ != "nbf"@ && "exp"@ != "jti"@);
    crate::text::lemma_dec_parses((now + lifetime) as nat, usize::MAX as nat);
    crate::text::lemma_dec_parses(now as nat, usize::MAX as nat);
    assert(field_data(p, "username"@) == PayloadData::Text(username));
    assert(field_data(p, "exp"@) == PayloadData::Number(dec((now + lifetime) as nat)));
    assert(field_data(p, "iat"@) == PayloadData::Number(dec(now as nat)));
    assert(field_data(p, "nbf"@) == PayloadData::Number(dec(now as nat)));
    assert(field_data(p, "jti"@) == PayloadData::Text(jti));
}

/// At a time that can be issued, a login whose new tokens and ids are not
/// already in the token table succeeds and returns exactly the access token and
/// refresh token issued at that time: it fails neither with a token error nor
/// with a refusal of the table.
pub proof fn lemma_login_succeeds(
    before: Map<Seq<char>, TokenEntry>,
    after: Map<Seq<char>, TokenEntry>,
    r: AppResult<(String, String)>,
    secret: Seq<u8>,
    username: Seq<char>,
    now: int,
    aid: Seq<char>,
    rid: Seq<char>,
)
    requires
        login_issued_at(before, after, r, secret, username, now, aid, rid),
        issuable(now, refresh_lifetime()),
        issued_token(username, now, access_lifetime(), "access-"@ + aid, secret)
            != issued_token(username, now, refresh_lifetime(), "refresh-"@ + rid, secret),
        !before.dom().contains(issued_token(username, now, access_lifetime(), "access-"@ + aid, secret)),
        !before.dom().contains(issued_token(username, now, refresh_lifetime(), "refresh-"@ + rid, secret)),
        !has_jti(before, "access-"@ + aid),
        !has_jti(before, "refresh-"@ + rid),
    ensures
        r matches Ok((x, y)) && x@ == issued_token(username, now, access_lifetime(), "access-"@ + aid, secret)
            && y@ == issued_token(username, now, refresh_lifetime(), "refresh-"@ + rid, secret),
{
    reveal_strlit("access-");
    reveal_strlit("refresh-");
    let a = issued_token(username, now, access_lifetime(), "access-"@ + aid, secret);
    let f = issued_token(username, now, refresh_lifetime(), "refresh-"@ + rid, secret);
    let ja = "access-"@ + aid;
    let jr = "refresh-"@ + rid;
    assert(ja[0] == 'a' && jr[0] == 'r');
    assert(ja != jr);
    let rest1 = without_kind(before, username, "access"@);
    assert(!has_jti(rest1, ja)) by {
        if has_jti(rest1, ja) {
            let t = choose|t: Seq<char>| #[trigger] rest1.dom().contains(t) && rest1[t].jti == ja;
            assert(before.dom().contains(t) && before[t].jti == ja);
        }
    }
    let m1 = replaced(before, a, username, "access"@, ja).1;
    assert(m1 == rest1.insert(a, TokenEntry { username, kind: "access"@, jti: ja }));
    let rest2 = without_kind(m1, username, "refresh"@);
    assert(!rest2.dom().contains(f));
    assert(!has_jti(rest2, jr)) by {
        if has_jti(rest2, jr) {
            let t = choose|t: Seq<char>| #[trigger] rest2.dom().contains(t) && rest2[t].jti == jr;
            if t != a {
                assert(before.dom().contains(t) && before[t].jti == jr);
            }
        }
    }
}

/// The access token a refresh returns belongs to the user of the presented
/// refresh token, expires `access_lifetime()` seconds after the time at which
/// the refresh token was checked, and passes the presented-token checks
/// (expiry and not-before) at that time.
pub proof fn lemma_refreshed_token_accepted(
    before: Map<Seq<char>, TokenEntry>,
    after: Map<Seq<char>, TokenEntry>,
    r: AppResult<String>,
    secret: Seq<u8>,
    token: Seq<char>,
    now: int,
    id: Seq<char>,
)
    requires
        refreshed_at(before, after, r, secret, token, now, id),
        r is Ok,
        0 <= now,
        now + access_lifetime() <= usize::MAX,
    ensures
        presented_outcome(token, secret, now, false) is Ok,
        presented_outcome(r->Ok_0@, secret, now, true) == Ok::<_, Option<Seq<char>>>((
            presented_outcome(token, secret, now, false)->Ok_0.0,
            Some((now + access_lifetime()) as usize),
            Some(now as usize),
            Some(now as usize),
            "access-"@ + id,
        )),
{
    let d = presented_outcome(token, secret, now, false)->Ok_0;
    lemma_issued_token_accepted(
        r->Ok_0@,
        secret,
        d.0,
        now,
        access_lifetime(),
        "access-"@ + id,
        now,
        true,
    );
}

/// Once a logout with a header has removed its token, a profile request
/// with the same header is refused as carrying an invalid token.
pub proof fn lemma_logged_out_token_refused(m: Map<Seq<char>, TokenEntry>, h: HeaderField)
    requires
        bearer_outcome(h) is Ok,
    ensures
        authorize_outcome(m.remove(bearer_outcome(h)->Ok_0), h) == Err::<Seq<char>, Seq<char>>("invalid token"@),
{
}

/// The tokens of a successful login are accepted afterwards: the access token
/// by the profile check, as the user's access token, and the refresh token by
/// the refresh check, as the user's refresh token; they differ.
pub proof fn lemma_login_tokens_accepted(
    before: Map<Seq<char>, TokenEntry>,
    after: Map<Seq<char>, TokenEntry>,
    r: AppResult<(String, String)>,
    secret: Seq<u8>,
    username: Seq<char>,
    now: int,
    aid: Seq<char>,
    rid: Seq<char>,
)
    requires
        login_issued(before, after, r, secret, username, now, aid, rid),
        r is Ok,
    ensures
        ({
            let (a, f) = r->Ok_0;
            &&& a@ != f@
            &&& after.dom().contains(a@) && after[a@].username == username && after[a@].kind == "access"@
            &&& refresh_accepted(after, f@) && after[f@].username == username
        }),
{
    reveal_strlit("access");
    reveal_strlit("refresh");
    let a = issued_token(username, now, access_lifetime(), "access-"@ + aid, secret);
    let f = issued_token(username, now, refresh_lifetime(), "refresh-"@ + rid, secret);
    let m1 = replaced(before, a, username, "access"@, "access-"@ + aid).1;
    let rest = crate::storage::without_kind(m1, username, "refresh"@);
    assert("access"@ != "refresh"@) by {
        assert("access"@.len() != "refresh"@.len());
    }
    assert(m1.dom().contains(a) && m1[a].kind == "access"@);
    assert(rest.dom().contains(a));
    assert(a != f);
    assert(rest[a] == m1[a]);
}

} // verus!
