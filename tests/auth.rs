use conduit_auth::auth::TIMING_HASH;
use conduit_auth::claims::{parse_claims_text, plain_text, render_claims, ONE_DAY};
use conduit_auth::error::AuthError;
use conduit_auth::store::{str_eq, CredentialStore, SignupUser, User};
use conduit_auth::token::{validate_token, TokenPayload};

const KEY: &[u8] = b"0123456789abcdef";
const OTHER_KEY: &[u8] = b"fedcba9876543210";

fn user_with_id(id: &str) -> User {
    User {
        id: id.to_string(),
        email: "u@x.com".to_string(),
        username: "u".to_string(),
        password: TIMING_HASH.to_string(),
        bio: None,
        image: None,
        created_at: 0,
        updated_at: 0,
    }
}

#[test]
fn signup_signin_scenario() {
    let mut store = CredentialStore::new();
    let (user, token) = User::signup(&mut store, "a@x.com", "alice", "Secret123", KEY).unwrap();
    assert!(!user.id.is_empty());
    assert_eq!(user.id.len(), 36);
    assert!(!token.is_empty());
    assert_eq!(user.email, "a@x.com");
    assert_eq!(user.username, "alice");
    assert_ne!(user.password, "Secret123");
    assert_eq!(validate_token(&token, KEY, user.created_at), Ok(user.id.clone()));

    let second = User::signup(&mut store, "a@x.com", "alice2", "Other456", KEY);
    assert_eq!(second.err(), Some(AuthError::Conflict));
    assert_eq!(store.len(), 1);

    let wrong = User::signin(&store, "a@x.com", "wrong", KEY).err();
    let nobody = User::signin(&store, "nobody@x.com", "Secret123", KEY).err();
    assert_eq!(wrong, Some(AuthError::Unauthorized));
    assert_eq!(wrong, nobody);

    let (again, token2) = User::signin(&store, "a@x.com", "Secret123", KEY).unwrap();
    assert_eq!(again.id, user.id);
    let now = chrono::Utc::now().timestamp();
    assert_eq!(validate_token(&token2, KEY, now), Ok(user.id.clone()));
}

#[test]
fn second_signup_with_same_email_conflicts() {
    let mut store = CredentialStore::new();
    let first = User::signup(&mut store, "c@x.com", "carol", "pw1", KEY);
    assert!(first.is_ok());
    let second = User::signup(&mut store, "c@x.com", "carol2", "pw2", KEY);
    assert_eq!(second.err(), Some(AuthError::Conflict));
    let third = User::signup(&mut store, "c2@x.com", "carol", "pw3", KEY);
    assert_eq!(third.err(), Some(AuthError::Conflict));
    assert_eq!(store.len(), 1);
}

#[test]
fn signup_with_empty_fields_is_a_validation_error() {
    let mut store = CredentialStore::new();
    assert_eq!(User::signup(&mut store, "", "dave", "pw", KEY).err(), Some(AuthError::Validation));
    assert_eq!(User::signup(&mut store, "d@x.com", "", "pw", KEY).err(), Some(AuthError::Validation));
    assert_eq!(store.len(), 0);
}

#[test]
fn hashing_twice_gives_two_hashes_that_both_verify() {
    let h1 = User::hash_password("Secret123").unwrap();
    let h2 = User::hash_password("Secret123").unwrap();
    assert_ne!(h1, h2);
    assert!(User::verify_password("Secret123", &h1));
    assert!(User::verify_password("Secret123", &h2));
}

#[test]
fn other_password_does_not_verify() {
    let h = User::hash_password("Secret123").unwrap();
    assert!(!User::verify_password("Secret124", &h));
    assert!(!User::verify_password("", &h));
}

#[test]
fn malformed_hash_does_not_verify() {
    assert!(!User::verify_password("Secret123", "not a hash"));
    assert!(!User::verify_password("Secret123", TIMING_HASH));
}

#[test]
fn token_is_valid_until_expiry() {
    let u = user_with_id("u-1");
    let token = u.token_at(1000, KEY).unwrap();
    assert_eq!(validate_token(&token, KEY, 1000), Ok("u-1".to_string()));
    assert_eq!(validate_token(&token, KEY, 1000 + ONE_DAY), Ok("u-1".to_string()));
    assert_eq!(validate_token(&token, KEY, 1000 + ONE_DAY + 1), Err(AuthError::Expired));
    assert_eq!(validate_token(&token, KEY, 0), Ok("u-1".to_string()));
}

#[test]
fn token_under_other_key_is_rejected() {
    let u = user_with_id("u-2");
    let token = u.token_at(1000, KEY).unwrap();
    assert_eq!(validate_token(&token, OTHER_KEY, 1000), Err(AuthError::Unauthorized));
    assert_eq!(validate_token(&token, OTHER_KEY, 1000 + ONE_DAY + 1), Err(AuthError::Unauthorized));
}

#[test]
fn tampered_and_malformed_tokens_are_rejected() {
    let u = user_with_id("u-3");
    let token = u.token_at(1000, KEY).unwrap();
    let other = user_with_id("u-4").token_at(1000, KEY).unwrap();
    let parts: Vec<&str> = token.split('.').collect();
    let other_parts: Vec<&str> = other.split('.').collect();
    assert_eq!(parts.len(), 3);
    let swapped = format!("{}.{}.{}", parts[0], other_parts[1], parts[2]);
    assert_eq!(validate_token(&swapped, KEY, 1000), Err(AuthError::Unauthorized));
    assert_eq!(validate_token("", KEY, 1000), Err(AuthError::Unauthorized));
    assert_eq!(validate_token("abc", KEY, 1000), Err(AuthError::Unauthorized));
    assert_eq!(validate_token("a.b.c", KEY, 1000), Err(AuthError::Unauthorized));
}

#[test]
fn token_has_the_standard_header_and_claims() {
    let u = user_with_id("u-5");
    let token = u.token_at(1000, KEY).unwrap();
    let parts: Vec<&str> = token.split('.').collect();
    assert_eq!(parts[0], "eyJ0eXAiOiJKV1QiLCJhbGciOiJIUzI1NiJ9");
    assert_eq!(parts[1], "eyJpYXQiOjEwMDAsImV4cCI6ODc0MDAsInN1YiI6InUtNSJ9");
    assert_eq!(parts[2].len(), 43);
}

#[test]
fn token_is_accepted_by_the_jwt_decoder() {
    let now = chrono::Utc::now().timestamp();
    let token = user_with_id("u-6").token_at(now, KEY).unwrap();
    let validation = jsonwebtoken::Validation::new(jsonwebtoken::Algorithm::HS256);
    let decoded = jsonwebtoken::decode::<serde_json::Value>(
        &token,
        &jsonwebtoken::DecodingKey::from_secret(KEY),
        &validation,
    )
    .unwrap();
    assert_eq!(decoded.claims["sub"], "u-6");
    assert_eq!(decoded.claims["iat"], now);
    assert_eq!(decoded.claims["exp"], now + ONE_DAY);
}

#[test]
fn token_cannot_be_issued_at_impossible_times_or_ids() {
    let u = user_with_id("u-7");
    assert_eq!(u.token_at(-1, KEY), Err(AuthError::Internal));
    assert_eq!(u.token_at(i64::MAX - ONE_DAY + 1, KEY), Err(AuthError::Internal));
    assert!(u.token_at(i64::MAX - ONE_DAY, KEY).is_ok());
    assert_eq!(user_with_id("a\"b").token_at(0, KEY), Err(AuthError::Internal));
}

#[test]
fn payload_signs_and_validates_at_the_largest_times() {
    let p = TokenPayload { iat: i64::MAX - 1, exp: i64::MAX, sub: "z".to_string() };
    let token = p.sign(KEY);
    assert_eq!(validate_token(&token, KEY, i64::MAX), Ok("z".to_string()));
}

#[test]
fn claims_render_exactly() {
    assert_eq!(render_claims(1, 86401, "ab"), "{\"iat\":1,\"exp\":86401,\"sub\":\"ab\"}");
    assert_eq!(render_claims(0, 0, ""), "{\"iat\":0,\"exp\":0,\"sub\":\"\"}");
}

#[test]
fn claims_parse_back() {
    let text = render_claims(42, i64::MAX, "id-1");
    assert_eq!(parse_claims_text(&text), Some((42, i64::MAX, "id-1".to_string())));
    assert_eq!(parse_claims_text("{\"iat\":007,\"exp\":8,\"sub\":\"x\"}"), Some((7, 8, "x".to_string())));
}

#[test]
fn claims_reject_malformed_text() {
    assert_eq!(parse_claims_text("{\"iat\":9223372036854775808,\"exp\":8,\"sub\":\"x\"}"), None);
    assert_eq!(parse_claims_text("{\"iat\":,\"exp\":8,\"sub\":\"x\"}"), None);
    assert_eq!(parse_claims_text("{\"iat\":1,\"exp\":8,\"sub\":\"x\\\"\"}"), None);
    assert_eq!(parse_claims_text("{\"iat\":1,\"exp\":8,\"sub\":\"x\""), None);
    assert_eq!(parse_claims_text("{\"exp\":8,\"iat\":1,\"sub\":\"x\"}"), None);
    assert_eq!(parse_claims_text(""), None);
}

#[test]
fn plain_text_excludes_quotes_and_backslashes() {
    assert!(plain_text("0f3a-bc"));
    assert!(!plain_text("a\"b"));
    assert!(!plain_text("a\\b"));
}

#[test]
fn store_creates_and_finds_rows() {
    let mut store = CredentialStore::new();
    let rec = SignupUser { email: "e@x.com", username: "eve", password: "h" };
    let u = store.create_user(&rec, "id-1".to_string(), 77).unwrap();
    assert_eq!(u.id, "id-1");
    assert_eq!(u.created_at, 77);
    assert_eq!(u.updated_at, 77);
    assert!(u.bio.is_none());
    assert_eq!(store.find_by_email("e@x.com").unwrap().id, "id-1");
    assert_eq!(store.find_by_id("id-1").unwrap().email, "e@x.com");
    assert!(store.find_by_email("f@x.com").is_none());
    assert!(store.find_by_id("id-2").is_none());

    let same_id = SignupUser { email: "g@x.com", username: "gus", password: "h" };
    assert_eq!(store.create_user(&same_id, "id-1".to_string(), 78).err(), Some(AuthError::Conflict));
    assert_eq!(store.create_user(&same_id, String::new(), 78).err(), Some(AuthError::Validation));
    assert_eq!(store.len(), 1);
}

#[test]
fn register_and_authenticate_at_given_times() {
    let mut store = CredentialStore::new();
    let hash = User::hash_password("pw").unwrap();
    let (u, t) = User::register(&mut store, "h@x.com", "hal", &hash, "id-9".to_string(), 500, KEY).unwrap();
    assert_eq!(u.password, hash);
    assert_eq!(validate_token(&t, KEY, 500 + ONE_DAY), Ok("id-9".to_string()));
    let late = User::register(&mut store, "i@x.com", "ivy", &hash, "id-10".to_string(), -5, KEY);
    assert_eq!(late.err(), Some(AuthError::Internal));
    assert_eq!(store.len(), 1);

    let (v, t2) = User::authenticate(&store, "h@x.com", "pw", 600, KEY).unwrap();
    assert_eq!(v.id, "id-9");
    assert_eq!(validate_token(&t2, KEY, 600 + ONE_DAY + 1), Err(AuthError::Expired));
    assert_eq!(User::authenticate(&store, "h@x.com", "pw", -1, KEY).err(), Some(AuthError::Internal));
    assert_eq!(User::authenticate(&store, "h@x.com", "px", 600, KEY).err(), Some(AuthError::Unauthorized));
    assert_eq!(User::authenticate(&store, "j@x.com", "pw", 600, KEY).err(), Some(AuthError::Unauthorized));
}

#[test]
fn generate_token_validates_now() {
    let u = user_with_id("u-8");
    let token = u.generate_token(KEY).unwrap();
    let now = chrono::Utc::now().timestamp();
    assert_eq!(validate_token(&token, KEY, now), Ok("u-8".to_string()));
}

#[test]
fn text_equality() {
    assert!(str_eq("abc", "abc"));
    assert!(!str_eq("abc", "abd"));
    assert!(!str_eq("abc", "ab"));
}
