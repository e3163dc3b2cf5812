//! Session tokens: a signed, URL-safe string `H.P.S` that carries the claims
//! text of `claims`, signed with HMAC-SHA256 under the process-wide key.
use vstd::prelude::*;
use vstd::string::*;
use vstd::utf8::{decode_utf8, encode_utf8, valid_utf8};
use base64::Engine;
use jsonwebtoken::{Algorithm, DecodingKey, EncodingKey};
use crate::claims::{claims_text, is_plain, key_at, parse_claims, parse_claims_text, render_claims, lemma_claims_round_trip};
use crate::error::AuthError;

verus! {

/// The URL-safe base64 text, without padding, of the bytes `b`.
pub uninterp spec fn b64url_of(b: Seq<u8>) -> Seq<char>;

/// The bytes that a URL-safe base64 text without padding encodes, when it is
/// one.
pub uninterp spec fn bytes_of_b64url(s: Seq<char>) -> Option<Seq<u8>>;

/// The URL-safe base64 text of the UTF-8 bytes of `t`.
pub open spec fn b64url_of_text(t: Seq<char>) -> Seq<char> {
    b64url_of(encode_utf8(t))
}

/// The text whose UTF-8 bytes `s` encodes, when it is one.
pub open spec fn text_of_b64url(s: Seq<char>) -> Option<Seq<char>> {
    match bytes_of_b64url(s) {
        Some(b) => if valid_utf8(b) {
            Some(decode_utf8(b))
        } else {
            None
        },
        None => None,
    }
}

/// The HMAC-SHA256 signature of `message` under `key`, in URL-safe base64.
pub uninterp spec fn hs256_signature(key: Seq<u8>, message: Seq<char>) -> Seq<char>;

pub open spec fn is_b64url_char(c: char) -> bool {
    ('A' <= c && c <= 'Z') || ('a' <= c && c <= 'z') || ('0' <= c && c <= '9') || c == '-' || c == '_'
}

/// Every character of `s` is of the URL-safe base64 alphabet.
pub open spec fn is_b64url(s: Seq<char>) -> bool {
    forall|i: int| 0 <= i < s.len() ==> is_b64url_char(#[trigger] s[i])
}

/// The header of every token: HMAC-SHA256, type JWT.
pub open spec fn header_json() -> Seq<char> {
    seq!['{', '"', 't', 'y', 'p', '"', ':', '"', 'J', 'W', 'T', '"', ',', '"', 'a', 'l', 'g', '"', ':', '"', 'H', 'S', '2', '5', '6', '"', '}']
}

pub open spec fn dot() -> Seq<char> {
    seq!['.']
}

/// The part of a token that its signature covers.
pub open spec fn signing_input(claims: Seq<char>) -> Seq<char> {
    b64url_of_text(header_json()) + dot() + b64url_of_text(claims)
}

/// The token that carries the claims text `claims`, signed under `key`.
pub open spec fn signed_token(claims: Seq<char>, key: Seq<u8>) -> Seq<char> {
    signing_input(claims) + dot() + hs256_signature(key, signing_input(claims))
}

/// The position of the last dot in `s`.
pub open spec fn last_dot(s: Seq<char>) -> Option<int>
    decreases s.len(),
{
    if s.len() == 0 {
        None
    } else if s.last() == '.' {
        Some(s.len() - 1)
    } else {
        last_dot(s.drop_last())
    }
}

/// What validating `token` under `key` at time `now` gives: the subject of a
/// token whose signature holds and which has not expired, `Expired` for one
/// whose signature holds and whose expiry lies before `now`, and
/// `Unauthorized` for anything else.
pub open spec fn token_validation(token: Seq<char>, key: Seq<u8>, now: int) -> Result<Seq<char>, AuthError> {
    match last_dot(token) {
        None => Err(AuthError::Unauthorized),
        Some(i) => {
            let message = token.take(i);
            let head = b64url_of_text(header_json()) + dot();
            if token.skip(i + 1) != hs256_signature(key, message) || !head.is_prefix_of(message) {
                Err(AuthError::Unauthorized)
            } else {
                match text_of_b64url(message.skip(head.len() as int)) {
                    None => Err(AuthError::Unauthorized),
                    Some(text) => match parse_claims(text) {
                        None => Err(AuthError::Unauthorized),
                        Some((iat, exp, sub)) => if now > exp {
                            Err(AuthError::Expired)
                        } else {
                            Ok(sub)
                        },
                    },
                }
            }
        },
    }
}

/// Relies on base64's `URL_SAFE_NO_PAD` engine, `Engine::encode`, on the
/// UTF-8 bytes of `t`: the text is over the URL-safe alphabet, and the same
/// engine decodes it to the same bytes.
#[verifier::external_body]
fn b64url_encode(t: &str) -> (r: String)
    ensures
        r@ == b64url_of(t.spec_bytes()),
        is_b64url(r@),
        bytes_of_b64url(r@) == Some(t.spec_bytes()),
{
    base64::engine::general_purpose::URL_SAFE_NO_PAD.encode(t)
}

/// Relies on base64's `URL_SAFE_NO_PAD` engine, `Engine::decode`.
#[verifier::external_body]
fn b64url_decode(s: &str) -> (r: Option<Vec<u8>>)
    ensures
        match r {
            Some(b) => bytes_of_b64url(s@) == Some(b@),
            None => bytes_of_b64url(s@) is None,
        },
{
    base64::engine::general_purpose::URL_SAFE_NO_PAD.decode(s).ok()
}

/// Relies on `String::from_utf8`: the text of the bytes where they are valid
/// UTF-8, and an error where they are not.
#[verifier::external_body]
fn utf8_text(b: Vec<u8>) -> (r: Option<String>)
    ensures
        match r {
            Some(t) => valid_utf8(b@) && t@ == decode_utf8(b@),
            None => !valid_utf8(b@),
        },
{
    String::from_utf8(b).ok()
}

/// Relies on `jsonwebtoken::crypto::sign` with HS256: the HMAC-SHA256 of the
/// message under the key, in URL-safe base64; it never fails for HS256.
#[verifier::external_body]
fn hs256_sign(key: &[u8], message: &str) -> (r: String)
    ensures
        r@ == hs256_signature(key@, message@),
        is_b64url(r@),
{
    jsonwebtoken::crypto::sign(message.as_bytes(), &EncodingKey::from_secret(key), Algorithm::HS256)
        .unwrap_or_default()
}

/// Relies on `jsonwebtoken::crypto::verify` with HS256: it signs the message
/// again under the key and compares the two signatures in constant time.
#[verifier::external_body]
fn hs256_verify(key: &[u8], message: &str, signature: &str) -> (r: bool)
    ensures
        r == (signature@ == hs256_signature(key@, message@)),
{
    jsonwebtoken::crypto::verify(signature, message.as_bytes(), &DecodingKey::from_secret(key), Algorithm::HS256)
        .unwrap_or(false)
}

proof fn lemma_last_dot(s: Seq<char>, i: int)
    requires
        0 <= i <= s.len(),
        forall|k: int| i <= k < s.len() ==> s[k] != '.',
    ensures
        last_dot(s) == last_dot(s.take(i)),
    decreases s.len() - i,
{
    if i < s.len() {
        assert(s.drop_last() =~= s.take(s.len() - 1));
        lemma_last_dot(s.drop_last(), i);
        assert(s.drop_last().take(i) =~= s.take(i));
    } else {
        assert(s.take(i) =~= s);
    }
}

proof fn lemma_validation_of_signed(claims: Seq<char>, key: Seq<u8>, now: int)
    requires
        text_of_b64url(b64url_of_text(claims)) == Some(claims),
        is_b64url(hs256_signature(key, signing_input(claims))),
        parse_claims(claims) is Some,
    ensures
        token_validation(signed_token(claims, key), key, now) == match parse_claims(claims) {
            Some((iat, exp, sub)) => if now > exp {
                Err::<Seq<char>, AuthError>(AuthError::Expired)
            } else {
                Ok(sub)
            },
            None => Err(AuthError::Unauthorized),
        },
{
    let m = signing_input(claims);
    let sig = hs256_signature(key, m);
    let t = signed_token(claims, key);
    let head = b64url_of_text(header_json()) + dot();
    assert forall|k: int| m.len() + 1 <= k < t.len() implies t[k] != '.' by {
        assert(t[k] == sig[k - m.len() - 1]);
        assert(is_b64url_char(sig[k - m.len() - 1]));
    }
    lemma_last_dot(t, m.len() as int + 1);
    assert(t.take(m.len() as int + 1).drop_last() =~= m);
    assert(t.take(m.len() as int) =~= m);
    assert(t.skip(m.len() as int + 1) =~= sig);
    assert(m.take(head.len() as int) =~= head);
    assert(m.skip(head.len() as int) =~= b64url_of_text(claims));
}

/// The claims of a session token.
pub struct TokenPayload {
    /// Seconds since the epoch at issue.
    pub iat: i64,
    /// Seconds since the epoch at expiry.
    pub exp: i64,
    /// The identifier of the user the token was issued to.
    pub sub: String,
}

impl TokenPayload {
    /// Times are not before the epoch and the subject is plain text.
    pub open spec fn wf(&self) -> bool {
        0 <= self.iat && 0 <= self.exp && is_plain(self.sub@)
    }

    /// The token that carries these claims, signed under `key`. Validated
    /// under the same key, it gives the subject up to the expiry time, and
    /// `Expired` after it.
    pub fn sign(&self, key: &[u8]) -> (r: String)
        requires
            self.wf(),
        ensures
            r@ == signed_token(claims_text(self.iat as nat, self.exp as nat, self.sub@), key@),
            forall|now: int| #[trigger] token_validation(r@, key@, now) == if now <= self.exp {
                Ok::<Seq<char>, AuthError>(self.sub@)
            } else {
                Err::<Seq<char>, AuthError>(AuthError::Expired)
            },
    {
        proof { reveal_strlit("{\"typ\":\"JWT\",\"alg\":\"HS256\"}"); reveal_strlit("."); }
        let claims = render_claims(self.iat, self.exp, self.sub.as_str());
        let header = "{\"typ\":\"JWT\",\"alg\":\"HS256\"}";
        assert(header@ =~= header_json());
        let mut message = b64url_encode(header);
        message.append(".");
        let body = b64url_encode(claims.as_str());
        message.append(body.as_str());
        assert(message@ =~= signing_input(claims@));
        let signature = hs256_sign(key, message.as_str());
        let mut token = message;
        token.append(".");
        token.append(signature.as_str());
        proof {
            lemma_claims_round_trip(self.iat as nat, self.exp as nat, self.sub@);
            assert(token@ =~= signed_token(claims@, key@));
            vstd::utf8::encode_utf8_valid_utf8(claims@);
            vstd::utf8::encode_utf8_decode_utf8(claims@);
            assert(text_of_b64url(b64url_of_text(claims@)) == Some(claims@));
            assert forall|now: int| #[trigger] token_validation(token@, key@, now) == if now <= self.exp {
                Ok::<Seq<char>, AuthError>(self.sub@)
            } else {
                Err::<Seq<char>, AuthError>(AuthError::Expired)
            } by {
                lemma_validation_of_signed(claims@, key@, now);
            }
        }
        token
    }
}

/// Validates `token` under `key` at time `now` (seconds since the epoch): the
/// subject it was issued to, `Expired` where its signature holds but its
/// expiry lies before `now`, and `Unauthorized` where its signature does not
/// hold or it is malformed.
pub fn validate_token(token: &str, key: &[u8], now: i64) -> (r: Result<String, AuthError>)
    ensures
        match r {
            Ok(sub) => token_validation(token@, key@, now as int) == Ok::<Seq<char>, AuthError>(sub@),
            Err(e) => token_validation(token@, key@, now as int) == Err::<Seq<char>, AuthError>(e),
        },
{
    let n = token.unicode_len();
    let mut i: usize = n;
    while i > 0 && token.get_char(i - 1) != '.'
        invariant
            i <= n,
            n == token@.len(),
            forall|k: int| i <= k < n ==> token@[k] != '.',
        decreases i,
    {
        i -= 1;
    }
    proof {
        lemma_last_dot(token@, i as int);
        if i > 0 {
            assert(token@.take(i as int).drop_last() =~= token@.take(i - 1));
        }
    }
    if i == 0 {
        assert(token@.take(0) =~= Seq::<char>::empty());
        return Err(AuthError::Unauthorized);
    }
    let message = token.substring_char(0, i - 1);
    let signature = token.substring_char(i, n);
    assert(message@ =~= token@.take(i - 1));
    assert(signature@ =~= token@.skip(i as int));
    if !hs256_verify(key, message, signature) {
        return Err(AuthError::Unauthorized);
    }
    proof { reveal_strlit("{\"typ\":\"JWT\",\"alg\":\"HS256\"}"); reveal_strlit("."); }
    let header = "{\"typ\":\"JWT\",\"alg\":\"HS256\"}";
    assert(header@ =~= header_json());
    let mut head = b64url_encode(header);
    head.append(".");
    let ml = message.unicode_len();
    let hl = head.unicode_len();
    assert(message@.skip(0) =~= message@);
    let start = match key_at(message, ml, 0, head.as_str()) {
        None => return Err(AuthError::Unauthorized),
        Some(p) => p,
    };
    let body = message.substring_char(start, ml);
    assert(body@ =~= message@.skip(hl as int));
    let bytes = match b64url_decode(body) {
        None => return Err(AuthError::Unauthorized),
        Some(b) => b,
    };
    let text = match utf8_text(bytes) {
        None => return Err(AuthError::Unauthorized),
        Some(t) => t,
    };
    match parse_claims_text(text.as_str()) {
        None => Err(AuthError::Unauthorized),
        Some((_iat, exp, sub)) => if now > exp {
            Err(AuthError::Expired)
        } else {
            Ok(sub)
        },
    }
}

} // verus!
