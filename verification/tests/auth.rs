use stonkscollect::auth::{
    attempt_login, bearer, hash_password, hash_token, new_token, to_hex, valid_status, verify_password,
    LoginOutcome,
};
use stonkscollect::net::{LoginThrottle, Span};

#[test]
fn hashes_and_verifies_passwords() {
    let hash = hash_password("s3cret");
    assert!(verify_password(&hash, "s3cret"));
    assert!(!verify_password(&hash, "wrong"));
    assert!(!verify_password("not-a-valid-hash", "s3cret"));
}

#[test]
fn tokens_are_unique_and_hash_consistently() {
    let (token, token_hash) = new_token();
    assert_eq!(hash_token(&token), token_hash);
    assert_ne!(token, token_hash);
    let (other, _) = new_token();
    assert_ne!(token, other);
}

#[test]
fn token_is_64_hex_chars_and_hash_is_sha256_hex() {
    let (token, token_hash) = new_token();
    assert_eq!(token.len(), 64);
    assert!(token.chars().all(|c| c.is_ascii_hexdigit() && !c.is_ascii_uppercase()));
    // sha256("abc")
    assert_eq!(hash_token("abc"), "ba7816bf8f01cfea414140de5dae2223b00361a396177a9cb410ff61f20015ad");
    assert_eq!(token_hash.len(), 64);
}

#[test]
fn to_hex_writes_two_lowercase_digits_per_byte() {
    assert_eq!(to_hex(&[0x00, 0x0f, 0xa0, 0xff]), "000fa0ff");
    assert_eq!(to_hex(&[]), "");
}

#[test]
fn bearer_strips_the_scheme_prefix() {
    assert_eq!(bearer(Some("Bearer abc123")), Some("abc123"));
    assert_eq!(bearer(Some("Bearer ")), Some(""));
    assert_eq!(bearer(Some("bearer abc")), None);
    assert_eq!(bearer(Some("Basic xyz")), None);
    assert_eq!(bearer(None), None);
}

#[test]
fn login_throttles_records_failures_and_clears_on_success() {
    let hash = hash_password("pw");
    let mut th = LoginThrottle::new(2, Span::from_secs(900));
    let now: i128 = 0;
    assert_eq!(attempt_login(&mut th, "a@e.com", "bad", Some((1, &hash)), now), LoginOutcome::Rejected);
    assert_eq!(attempt_login(&mut th, "a@e.com", "pw", None, now), LoginOutcome::Rejected);
    // two failures: the next attempt is refused without checking
    assert_eq!(attempt_login(&mut th, "a@e.com", "pw", Some((1, &hash)), now), LoginOutcome::Throttled);
    // another identity is unaffected, and succeeds
    assert_eq!(
        attempt_login(&mut th, "b@e.com", "pw", Some((2, &hash)), now),
        LoginOutcome::Accepted { user_id: 2 }
    );
    // after the window the right password gets in and clears the tally
    let later: i128 = 901 * 1_000_000_000;
    assert_eq!(
        attempt_login(&mut th, "a@e.com", "pw", Some((1, &hash)), later),
        LoginOutcome::Accepted { user_id: 1 }
    );
    assert!(th.allowed("a@e.com", later));
}

#[test]
fn status_override_accepts_only_known_statuses() {
    assert!(valid_status("active"));
    assert!(valid_status("delisted"));
    assert!(!valid_status("Active"));
    assert!(!valid_status("gone"));
}

#[test]
fn stored_hashes_are_phc_strings_and_other_texts_never_verify() {
    let hash = hash_password("pw");
    assert!(hash.starts_with('$'));
    assert!(!verify_password("", "pw"));
    assert!(!verify_password("argon2id$v=19$m=19456,t=2,p=1$c2FsdA$aGFzaA", "pw"));
}
