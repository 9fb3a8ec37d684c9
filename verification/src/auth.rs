//! Password hashing (argon2) and opaque session tokens (random + sha256).

use vstd::prelude::*;
use vstd::string::StringSliceAdditionalSpecFns;

use crate::net::{after_failure, login_allowed, tally_of, LoginThrottle, EARLIEST_INSTANT_NANOS, LATEST_INSTANT_NANOS};
use crate::text::{chars_of, hex_digits, hex_fixed, lemma_hex_fixed_digits, lemma_hex_fixed_len, lower_hex, matches_at, occurs_at, push_char};

verus! {

/// Entropy of a session token before hex-encoding (256 bits).
pub const TOKEN_BYTES: usize = 32;

/// The SHA-256 digest of `data`.
pub uninterp spec fn sha256_of(data: Seq<u8>) -> Seq<u8>;

/// Whether argon2 accepts `password` against the stored PHC-format hash
/// (`false` when the stored text is not a valid hash).
pub uninterp spec fn argon2_accepts(stored: Seq<char>, password: Seq<char>) -> bool;

/// Calls `sha2::Sha256::digest`: the 32-byte SHA-256 digest of `data`.
#[verifier::external_body]
fn sha256(data: &[u8]) -> (r: Vec<u8>)
    ensures
        r@ == sha256_of(data@),
        r@.len() == 32,
{
    <sha2::Sha256 as sha2::Digest>::digest(data).to_vec()
}

/// Calls `argon2`'s `PasswordHash::new` then `Argon2::default().verify_password`;
/// a stored text that is not a valid hash is rejected. `PasswordHash::new`
/// refuses an empty text and one whose first character is not `$`.
#[verifier::external_body]
fn argon2_verify(stored: &str, password: &str) -> (r: bool)
    ensures
        r == argon2_accepts(stored@, password@),
        (stored@.len() == 0 || stored@[0] != '$') ==> !r,
{
    match argon2::password_hash::PasswordHash::new(stored) {
        Ok(parsed) => argon2::password_hash::PasswordVerifier::verify_password(
            &argon2::Argon2::default(),
            password.as_bytes(),
            &parsed,
        ).is_ok(),
        Err(_) => false,
    }
}

/// Calls `rand::random` for 32 bytes from the thread-local CSPRNG. Nothing is
/// promised of the bytes but their number.
#[verifier::external_body]
fn random_token_bytes() -> (r: Vec<u8>)
    ensures
        r@.len() == TOKEN_BYTES,
{
    let raw: [u8; 32] = rand::random();
    raw.to_vec()
}

/// Hash a password for storage: argon2id with default parameters and a fresh
/// random salt from the OS generator, in PHC string format. The salt makes
/// every call's text different, so only argon2's own round trip is promised:
/// the stored hash verifies the password it was made from, and, as every PHC
/// string, it starts with `$`. argon2 refuses a
/// password longer than `u32::MAX` bytes (`MAX_PWD_LEN`), which would panic
/// here, so such a password is not accepted.
#[verifier::external_body]
pub fn hash_password(password: &str) -> (r: String)
    requires
        vstd::utf8::encode_utf8(password@).len() <= u32::MAX,
    ensures
        argon2_accepts(r@, password@),
        r@.len() > 0 && r@[0] == '$',
{
    let salt = argon2::password_hash::SaltString::generate(
        &mut argon2::password_hash::rand_core::OsRng,
    );
    argon2::password_hash::PasswordHasher::hash_password(
        &argon2::Argon2::default(),
        password.as_bytes(),
        &salt,
    ).expect("argon2 hashing").to_string()
}

/// Verify a password against a stored hash. `false` on any mismatch or bad hash.
pub fn verify_password(stored_hash: &str, password: &str) -> (r: bool)
    ensures
        r == argon2_accepts(stored_hash@, password@),
        (stored_hash@.len() == 0 || stored_hash@[0] != '$') ==> !r,
{
    argon2_verify(stored_hash, password)
}

/// Lowercase hex of a byte string: two digits per byte, in order.
pub open spec fn hex_of(bytes: Seq<u8>) -> Seq<char>
    decreases bytes.len(),
{
    if bytes.len() == 0 {
        Seq::empty()
    } else {
        hex_of(bytes.drop_last()) + hex_fixed(bytes.last() as nat, 2)
    }
}

/// The hex of `n` bytes is `2 * n` lowercase hexadecimal digits.
pub proof fn lemma_hex_of(bytes: Seq<u8>)
    ensures
        hex_of(bytes).len() == 2 * bytes.len(),
        forall|i: int| 0 <= i < hex_of(bytes).len() ==> lower_hex(#[trigger] hex_of(bytes)[i]),
    decreases bytes.len(),
{
    if bytes.len() > 0 {
        let prev = hex_of(bytes.drop_last());
        let pair = hex_fixed(bytes.last() as nat, 2);
        lemma_hex_of(bytes.drop_last());
        lemma_hex_fixed_len(bytes.last() as nat, 2);
        lemma_hex_fixed_digits(bytes.last() as nat, 2);
        assert forall|i: int| 0 <= i < hex_of(bytes).len() implies lower_hex(#[trigger] hex_of(bytes)[i]) by {
            if i < prev.len() {
                assert(hex_of(bytes)[i] == prev[i]);
            } else {
                assert(hex_of(bytes)[i] == pair[i - prev.len()]);
            }
        }
    }
}

/// Lowercase hex encoding of `bytes`.
pub fn to_hex(bytes: &[u8]) -> (r: String)
    ensures
        r@ == hex_of(bytes@),
{
    let mut out = String::new();
    let mut i: usize = 0;
    while i < bytes.len()
        invariant
            i <= bytes@.len(),
            out@ == hex_of(bytes@.subrange(0, i as int)),
        decreases bytes.len() - i,
    {
        assert(bytes@.subrange(0, i + 1).drop_last() =~= bytes@.subrange(0, i as int));
        let pair = hex_digits(bytes[i] as u64, 2);
        proof {
            lemma_hex_fixed_len(bytes@[i as int] as nat, 2);
            assert(pair@ =~= seq![pair@[0], pair@[1]]);
        }
        push_char(&mut out, pair[0]);
        push_char(&mut out, pair[1]);
        assert(out@ =~= hex_of(bytes@.subrange(0, i + 1)));
        i = i + 1;
    }
    assert(bytes@.subrange(0, bytes@.len() as int) =~= bytes@);
    out
}

/// The stored form of a session token: hex of the SHA-256 of its UTF-8 bytes.
pub open spec fn token_hash_of(token: Seq<char>) -> Seq<char> {
    hex_of(sha256_of(vstd::utf8::encode_utf8(token)))
}

/// SHA-256 hex of a token — what we store/look up (never the raw token).
pub fn hash_token(token: &str) -> (r: String)
    ensures
        r@ == token_hash_of(token@),
        r@.len() == 64,
        forall|i: int| 0 <= i < r@.len() ==> lower_hex(#[trigger] r@[i]),
{
    let digest = sha256(token.as_bytes());
    let r = to_hex(digest.as_slice());
    proof {
        lemma_hex_of(digest@);
    }
    r
}

/// Generate a fresh session token and its stored hash: `(token, token_hash)`.
/// The token is the hex of 32 random bytes.
pub fn new_token() -> (r: (String, String))
    ensures
        exists|raw: Seq<u8>| raw.len() == TOKEN_BYTES && r.0@ == hex_of(raw),
        r.0@.len() == 64,
        forall|i: int| 0 <= i < r.0@.len() ==> lower_hex(#[trigger] r.0@[i]),
        r.1@ == token_hash_of(r.0@),
        r.1@.len() == 64,
{
    let raw = random_token_bytes();
    let token = to_hex(raw.as_slice());
    proof {
        lemma_hex_of(raw@);
    }
    let token_hash = hash_token(token.as_str());
    (token, token_hash)
}

/// A token's stored hash is a function of the token alone: hashing the same
/// token again finds the same session.
pub proof fn token_hash_is_deterministic(a: Seq<char>, b: Seq<char>)
    requires
        a == b,
    ensures
        token_hash_of(a) == token_hash_of(b),
{
}

/// Authenticated user, extracted from an `Authorization: Bearer <token>`
/// header.
#[derive(Debug, Clone, Copy, PartialEq, Eq)]
pub struct AuthUser {
    pub user_id: i64,
}

/// The token an `Authorization` header value carries: what follows the
/// `"Bearer "` prefix, when the value starts with it.
pub open spec fn bearer_token(header: Seq<char>) -> Option<Seq<char>> {
    if occurs_at(header, "Bearer "@, 0) {
        Some(header.subrange(7, header.len() as int))
    } else {
        None
    }
}

/// The bearer token of an `Authorization` header value, if it has the
/// `"Bearer "` prefix (no header, no token).
pub fn bearer(header: Option<&str>) -> (r: Option<&str>)
    ensures
        match header {
            Some(h) => match r {
                Some(t) => bearer_token(h@) == Some(t@),
                None => bearer_token(h@) is None,
            },
            None => r is None,
        },
        (header matches Some(h) && r matches Some(t)) ==> header.unwrap()@ == "Bearer "@ + r.unwrap()@,
        (header matches Some(h) && h@.len() >= 7 && h@.subrange(0, 7) == "Bearer "@) ==> r is Some,
{
    proof {
        reveal_strlit("Bearer ");
    }
    match header {
        Some(h) => {
            let cs = chars_of(h);
            let prefix = chars_of("Bearer ");
            if matches_at(&cs, &prefix, 0) {
                proof {
                    assert(h@ =~= h@.subrange(0, 7) + h@.subrange(7, h@.len() as int));
                }
                Some(h.substring_char(7, cs.len()))
            } else {
                None
            }
        },
        None => None,
    }
}

/// How a login attempt ends.
#[derive(Debug, Clone, Copy, PartialEq, Eq)]
pub enum LoginOutcome {
    /// Too many recent failures for this identity: refused without checking.
    Throttled,
    /// Unknown identity or wrong password; the failure is recorded.
    Rejected,
    /// The password matches: the identity's failures are cleared and a
    /// session is to be issued for the user.
    Accepted { user_id: i64 },
}

/// Decide a login attempt for `email` at `now`, given the stored
/// `(user id, password hash)` of that identity if there is one, and update
/// the throttle: a throttled identity is refused outright; a failure is
/// recorded against the identity; a success clears its failures.
pub fn attempt_login(
    throttle: &mut LoginThrottle,
    email: &str,
    password: &str,
    stored: Option<(i64, &str)>,
    now: i128,
) -> (r: LoginOutcome)
    requires
        EARLIEST_INSTANT_NANOS <= now <= LATEST_INSTANT_NANOS,
    ensures
        final(throttle).limit() == old(throttle).limit(),
        final(throttle).span() == old(throttle).span(),
        !login_allowed(old(throttle).log(), old(throttle).limit(), old(throttle).span()@, email@, now) ==> {
            &&& r == LoginOutcome::Throttled
            &&& final(throttle).log() == old(throttle).log()
        },
        login_allowed(old(throttle).log(), old(throttle).limit(), old(throttle).span()@, email@, now) ==> {
            match stored {
                Some((user_id, hash)) if argon2_accepts(hash@, password@) => {
                    &&& r == (LoginOutcome::Accepted { user_id })
                    &&& tally_of(final(throttle).log(), email@) is None
                },
                _ => {
                    &&& r == LoginOutcome::Rejected
                    &&& tally_of(final(throttle).log(), email@) == Some(
                        after_failure(tally_of(old(throttle).log(), email@), now, old(throttle).span()@),
                    )
                },
            }
        },
        forall|k: Seq<char>| k != email@ ==> #[trigger] tally_of(final(throttle).log(), k) == tally_of(
            old(throttle).log(),
            k,
        ),
{
    if !throttle.allowed(email, now) {
        return LoginOutcome::Throttled;
    }
    match stored {
        Some((user_id, hash)) => {
            if verify_password(hash, password) {
                throttle.clear(email);
                LoginOutcome::Accepted { user_id }
            } else {
                throttle.record_failure(email, now);
                LoginOutcome::Rejected
            }
        },
        None => {
            throttle.record_failure(email, now);
            LoginOutcome::Rejected
        },
    }
}

/// A refused login changes nothing, and a throttled identity stays refused
/// until its window elapses: while the tally stands, every attempt inside
/// the window is answered `Throttled`.
pub proof fn throttled_stays_throttled(
    throttle_log: Seq<crate::net::Attempt>,
    max: u32,
    window: nat,
    email: Seq<char>,
    now: i128,
    later: i128,
)
    requires
        !login_allowed(throttle_log, max, window, email, now),
        now <= later,
        tally_of(throttle_log, email) matches Some((count, first)) && later - first < window,
    ensures
        !login_allowed(throttle_log, max, window, email, later),
{
}

/// The listing statuses a company can be set to by hand.
pub open spec fn status_allowed(s: Seq<char>) -> bool {
    s == "active"@ || s == "delisted"@
}

/// Whether a manual listing-status override names an allowed status
/// (`active` or `delisted`).
pub fn valid_status(s: &str) -> (r: bool)
    ensures
        r == status_allowed(s@),
{
    crate::text::str_eq(s, "active") || crate::text::str_eq(s, "delisted")
}

} // verus!
