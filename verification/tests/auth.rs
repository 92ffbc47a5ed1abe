use auth::auth::{
    access_claims_at, access_claims_from, authenticate, authorize, bearer_token, check_claim_times,
    check_refresh_token, issue_access_token, issue_login_tokens, login, login_claims_at, login_claims_from,
    check_presented_token, logout, me, refresh, register, validate_credentials, Claims,
};
use jsonwebtoken::{decode, Algorithm, DecodingKey, Validation};
use auth::errors::AppError;
use auth::monitoring::HeaderField;
use auth::storage::{TokenStore, UserStore};

fn bearer(v: &str) -> HeaderField {
    HeaderField::Text(v.to_string())
}

fn unauthorized(m: &str) -> String {
    m.to_string()
}

#[test]
fn validate_credentials_rejects_empty_username() {
    let err = validate_credentials("", "password123").unwrap_err();
    assert_eq!(err.status_code(), 400);
}

#[test]
fn validate_credentials_rules() {
    let e = validate_credentials("ab", "").unwrap_err();
    assert_eq!(e.status_code(), 400);
    assert_eq!(e.message(), "username and password are required");
    assert_eq!(validate_credentials("   ", "password").unwrap_err().message(), "username and password are required");
    assert_eq!(validate_credentials(" ab ", "password").unwrap_err().message(), "username must be at least 3 characters");
    assert_eq!(validate_credentials("abc", " 12345 ").unwrap_err().message(), "password must be at least 6 characters");
    assert!(validate_credentials(" abc ", "123456").is_ok());
    // lengths are counted in UTF-8 bytes after trimming
    assert!(validate_credentials("é\u{3000}", "пароль").is_err());
    assert!(validate_credentials("éa", "пар").is_ok());
}

#[test]
fn register_and_login_round_trip() {
    let mut users = UserStore::new();
    let hash = register(&mut users, "alice", "secret123").unwrap();
    assert_eq!(hash.len(), 60);
    assert_eq!(users.find_user("alice").as_deref(), Some(hash.as_str()));
    assert!(authenticate(&users, "alice", "secret123").is_ok());
    let e = authenticate(&users, "alice", "wrongpass").unwrap_err();
    assert_eq!(e.status_code(), 401);
    assert_eq!(e.message(), "invalid credentials");
    let e = authenticate(&users, "nobody", "secret123").unwrap_err();
    assert_eq!(e.message(), "invalid credentials");
    let e = register(&mut users, "alice", "another123").unwrap_err();
    assert_eq!(e.status_code(), 409);
    assert_eq!(e.message(), "user already exists");
}

#[test]
fn malformed_stored_hash_is_a_hash_error() {
    let mut users = UserStore::new();
    users.create_user("bob", "not-a-hash").unwrap();
    match authenticate(&users, "bob", "secret123") {
        Err(AppError::Hash(_)) => {}
        other => panic!("unexpected {:?}", other),
    }
}

fn decoded(token: &str, secret: &[u8]) -> serde_json::Map<String, serde_json::Value> {
    let mut validation = Validation::new(Algorithm::HS256);
    validation.validate_exp = false;
    validation.required_spec_claims.clear();
    decode::<serde_json::Map<String, serde_json::Value>>(token, &DecodingKey::from_secret(secret), &validation)
        .unwrap()
        .claims
}

#[test]
fn login_issues_signed_tokens() {
    let secret = b"test-secret";
    let mut users = UserStore::new();
    let mut tokens = TokenStore::new();
    register(&mut users, "carol", "secret123").unwrap();
    let (a, r) = login(&users, &mut tokens, secret, "carol", "secret123").unwrap();
    assert_ne!(a, r);
    let ac = decoded(&a, secret);
    let rc = decoded(&r, secret);
    assert_eq!(ac["username"], "carol");
    let jti = ac["jti"].as_str().unwrap();
    assert!(jti.starts_with("access-"));
    assert_eq!(jti.len(), 7 + 36);
    assert!(rc["jti"].as_str().unwrap().starts_with("refresh-"));
    let iat = ac["iat"].as_u64().unwrap();
    assert_eq!(ac["nbf"].as_u64().unwrap(), iat);
    assert_eq!(ac["exp"].as_u64().unwrap(), iat + 900);
    assert_eq!(rc["iat"].as_u64().unwrap(), iat);
    assert_eq!(rc["exp"].as_u64().unwrap(), iat + 604800);
    // the table holds exactly these two tokens, with their kinds
    assert_eq!(tokens.get_user_id(&a).as_deref(), Some("carol"));
    assert!(check_refresh_token(&tokens, &r).is_ok());
    assert_eq!(check_refresh_token(&tokens, &a).unwrap_err().message(), "invalid refresh token");
    assert_eq!(authorize(&tokens, &bearer(&format!("Bearer {}", a))).unwrap(), a);
    // a wrong password issues nothing
    let e = login(&users, &mut tokens, secret, "carol", "bad-password").unwrap_err();
    assert_eq!(e.message(), "invalid credentials");
    // a second login replaces both tokens
    let (a2, r2) = login(&users, &mut tokens, secret, "carol", "secret123").unwrap();
    assert!(!tokens.has_token(&a) && !tokens.has_token(&r));
    assert!(tokens.has_token(&a2) && tokens.has_token(&r2));
}

#[test]
fn tokens_issued_at_a_given_time() {
    let secret = b"k";
    let mut tokens = TokenStore::new();
    let (a, r) = issue_login_tokens(&mut tokens, secret, "erin", 1_000_000, "aid", "rid").unwrap();
    let ac = decoded(&a, secret);
    assert_eq!(ac["exp"].as_u64(), Some(1_000_900));
    assert_eq!(ac["iat"].as_u64(), Some(1_000_000));
    assert_eq!(ac["jti"], "access-aid");
    let rc = decoded(&r, secret);
    assert_eq!(rc["exp"].as_u64(), Some(1_604_800));
    assert_eq!(rc["jti"], "refresh-rid");
    // the same time and ids give the same tokens; the id is then refused
    let e = issue_login_tokens(&mut tokens, secret, "frank", 1_000_000, "aid", "rid2").unwrap_err();
    assert_eq!(e.message(), "UNIQUE constraint failed: tokens.jti");
    assert_eq!(e.status_code(), 500);
    // a time before 1970 cannot be issued, and the table is unchanged
    let e = issue_access_token(&mut tokens, secret, "erin", -500, "x").unwrap_err();
    assert_eq!(e.message(), "invalid iat");
    let t = issue_access_token(&mut tokens, secret, "erin", 2_000_000, "new").unwrap();
    assert_eq!(decoded(&t, secret)["exp"].as_u64(), Some(2_000_900));
    assert!(!tokens.has_token(&a));
    assert!(tokens.has_token(&r));
    let c = access_claims_at("g", 10, "i").unwrap();
    assert_eq!((c.exp, c.iat, c.nbf), (Some(910), Some(10), Some(10)));
    let (x, y) = login_claims_at("g", 10, "i", "j").unwrap();
    assert_eq!((x.exp, y.exp, x.iat, y.iat), (Some(910), Some(604810), Some(10), Some(10)));
}

#[test]
fn refresh_issues_a_new_access_token() {
    let secret = b"another";
    let mut users = UserStore::new();
    let mut tokens = TokenStore::new();
    register(&mut users, "hank", "secret123").unwrap();
    let (a, r) = login(&users, &mut tokens, secret, "hank", "secret123").unwrap();
    let a2 = refresh(&mut tokens, secret, &r).unwrap();
    assert_ne!(a2, a);
    assert!(!tokens.has_token(&a));
    assert!(tokens.has_token(&a2) && tokens.has_token(&r));
    let c = decoded(&a2, secret);
    assert_eq!(c["username"], "hank");
    assert_eq!(c["exp"].as_u64().unwrap(), c["iat"].as_u64().unwrap() + 900);
    // an access token cannot be exchanged, and the table is unchanged
    assert_eq!(refresh(&mut tokens, secret, &a2).unwrap_err().message(), "invalid refresh token");
    assert!(tokens.has_token(&a2));
    // a stored refresh token signed with another key is refused by its signature
    let mut other = TokenStore::new();
    let (_, forged) = issue_login_tokens(&mut other, b"wrong-key", "hank", 1_000_000, "x", "y").unwrap();
    tokens.save_token(&forged, "hank", "refresh", "refresh-y");
    let e = refresh(&mut tokens, secret, &forged).unwrap_err();
    assert_eq!(e.message(), "InvalidSignature");
    assert_eq!(e.status_code(), 500);
}

#[test]
fn profile_of_token_bearer() {
    let secret = b"profile-key";
    let mut users = UserStore::new();
    let mut tokens = TokenStore::new();
    register(&mut users, "ivan", "secret123").unwrap();
    let (a, _) = login(&users, &mut tokens, secret, "ivan", "secret123").unwrap();
    assert_eq!(me(&tokens, secret, &bearer(&format!("Bearer {}", a))).unwrap(), "ivan");
    assert_eq!(me(&tokens, secret, &bearer("Bearer nope")).unwrap_err().message(), "invalid token");
    assert_eq!(me(&tokens, secret, &HeaderField::Absent).unwrap_err().message(), "missing authorization header");
    // a stored but expired token is refused by the expiry check
    let old = issue_access_token(&mut tokens, secret, "judy", 1_000_000, "old").unwrap();
    let e = me(&tokens, secret, &bearer(&format!("Bearer {}", old))).unwrap_err();
    assert_eq!(e.message(), "ExpiredSignature");
}

#[test]
fn presented_token_checks() {
    let secret = b"s";
    let mut tokens = TokenStore::new();
    let t = issue_access_token(&mut tokens, secret, "kim", 1_000_000, "k").unwrap();
    let c = check_presented_token(&t, secret, 1_000_000, true).unwrap();
    assert_eq!(c.username, "kim");
    assert_eq!((c.exp, c.iat, c.nbf), (Some(1_000_900), Some(1_000_000), Some(1_000_000)));
    assert_eq!(c.jti, "access-k");
    // the leeway is 60 seconds on both sides
    assert!(check_presented_token(&t, secret, 1_000_960, true).is_ok());
    assert_eq!(check_presented_token(&t, secret, 1_000_961, false).unwrap_err().message(), "ExpiredSignature");
    assert!(check_presented_token(&t, secret, 999_940, true).is_ok());
    assert_eq!(check_presented_token(&t, secret, 999_939, true).unwrap_err().message(), "ImmatureSignature");
    assert!(check_presented_token(&t, secret, 999_939, false).is_ok());
    assert_eq!(check_presented_token(&t, b"t", 1_000_000, true).unwrap_err().message(), "InvalidSignature");
    assert_eq!(check_presented_token("abc", secret, 1_000_000, true).unwrap_err().status_code(), 500);
    // a token without an expiry is refused
    let mut payload = serde_json::Map::new();
    payload.insert("username".to_string(), serde_json::Value::from("kim"));
    payload.insert("jti".to_string(), serde_json::Value::from("j"));
    let no_exp = jsonwebtoken::encode(
        &jsonwebtoken::Header::default(),
        &payload,
        &jsonwebtoken::EncodingKey::from_secret(secret),
    )
    .unwrap();
    // a null not-before time is malformed where it is checked
    payload.insert("exp".to_string(), serde_json::Value::from(5_000_000u64));
    payload.insert("nbf".to_string(), serde_json::Value::Null);
    let null_nbf = jsonwebtoken::encode(
        &jsonwebtoken::Header::default(),
        &payload,
        &jsonwebtoken::EncodingKey::from_secret(secret),
    )
    .unwrap();
    assert_eq!(check_presented_token(&null_nbf, secret, 0, true).unwrap_err().message(), "Invalid format for claim: nbf");
    assert!(check_presented_token(&null_nbf, secret, 0, false).is_ok());
    // a claim of the wrong type is refused
    payload.insert("jti".to_string(), serde_json::Value::from(7u64));
    let bad = jsonwebtoken::encode(
        &jsonwebtoken::Header::default(),
        &payload,
        &jsonwebtoken::EncodingKey::from_secret(secret),
    )
    .unwrap();
    assert_eq!(check_presented_token(&bad, secret, 0, false).unwrap_err().message(), "invalid token claims");
    assert_eq!(check_presented_token(&no_exp, secret, 0, false).unwrap_err().message(), "Missing required claim: exp");
}

#[test]
fn claims_from_values() {
    let c = access_claims_from("dave", Some(1900), 1000, "id").unwrap();
    assert_eq!(c.username, "dave");
    assert_eq!(c.exp, Some(1900));
    assert_eq!(c.iat, Some(1000));
    assert_eq!(c.nbf, Some(1000));
    assert_eq!(c.jti, "access-id");
    assert_eq!(access_claims_from("d", None, 1, "x").unwrap_err().message(), "failed to build access expiration");
    assert_eq!(access_claims_from("d", Some(-1), 1, "x").unwrap_err().message(), "invalid access exp");
    assert_eq!(access_claims_from("d", Some(5), -1, "x").unwrap_err().message(), "invalid iat");
    let (a, r) = login_claims_from("e", Some(10), Some(20), 5, "a", "r").unwrap();
    assert_eq!(a.jti, "access-a");
    assert_eq!(r.jti, "refresh-r");
    assert_eq!(r.exp, Some(20));
    assert_eq!(login_claims_from("e", Some(10), None, 5, "a", "r").unwrap_err().message(), "failed to build refresh expiration");
    assert_eq!(login_claims_from("e", Some(10), Some(-3), 5, "a", "r").unwrap_err().status_code(), 500);
}

#[test]
fn bearer_token_extraction() {
    assert_eq!(bearer_token(&bearer("Bearer abc")).unwrap(), "abc");
    assert_eq!(bearer_token(&bearer("Bearer  abc ")).unwrap(), " abc ");
    assert_eq!(bearer_token(&HeaderField::Absent).unwrap_err().message(), unauthorized("missing authorization header"));
    assert_eq!(bearer_token(&HeaderField::Opaque).unwrap_err().message(), "invalid authorization header");
    assert_eq!(bearer_token(&bearer("Basic abc")).unwrap_err().message(), "expected bearer token");
    assert_eq!(bearer_token(&bearer("bearer abc")).unwrap_err().message(), "expected bearer token");
    let e = bearer_token(&bearer("Bearer   ")).unwrap_err();
    assert_eq!(e.message(), "token must not be empty");
    assert_eq!(e.status_code(), 401);
}

#[test]
fn logout_and_profile_checks() {
    let mut tokens = TokenStore::new();
    tokens.replace_token_for_user("acc", "alice", "access", "j-acc").unwrap();
    tokens.replace_token_for_user("ref", "alice", "refresh", "j-ref").unwrap();
    assert!(check_refresh_token(&tokens, "ref").is_ok());
    assert_eq!(check_refresh_token(&tokens, "zzz").unwrap_err().message(), "invalid refresh token");
    // an access token cannot be exchanged
    assert_eq!(check_refresh_token(&tokens, "acc").unwrap_err().message(), "invalid refresh token");
    assert_eq!(authorize(&tokens, &bearer("Bearer acc")).unwrap(), "acc");
    assert_eq!(authorize(&tokens, &bearer("Bearer nope")).unwrap_err().message(), "invalid token");
    assert_eq!(logout(&mut tokens, &bearer("Bearer acc")).unwrap(), "acc");
    assert!(!tokens.has_token("acc"));
    assert!(tokens.has_token("ref"));
    assert_eq!(authorize(&tokens, &bearer("Bearer acc")).unwrap_err().message(), "invalid token");
    // a second login replaces both tokens
    tokens.replace_token_for_user("acc2", "alice", "access", "j-acc2").unwrap();
    tokens.replace_token_for_user("ref2", "alice", "refresh", "j-ref2").unwrap();
    assert!(!tokens.has_token("ref"));
    assert!(tokens.has_token("ref2"));
}

#[test]
fn claim_times() {
    let c = Claims { username: "u".to_string(), exp: Some(10), iat: Some(100), nbf: Some(100), jti: "j".to_string() };
    assert_eq!(check_claim_times(&c, 100).unwrap(), "u");
    assert_eq!(check_claim_times(&c, 99).unwrap_err().message(), "token not yet valid");
    let d = Claims { username: "v".to_string(), exp: None, iat: None, nbf: Some(50), jti: "j".to_string() };
    assert_eq!(check_claim_times(&d, 49).unwrap_err().status_code(), 401);
    assert_eq!(check_claim_times(&d, 50).unwrap(), "v");
}

#[test]
fn register_endpoint_rejects_invalid_payload() {
    let mut users = UserStore::new();
    let err = register(&mut users, "ab", "").unwrap_err();
    assert_eq!(err.status_code(), 400);
    assert_eq!(users.find_user("ab"), None);
}
