//! The authentication service: password hashing and checking, signup,
//! signin, and the issue of session tokens.
use vstd::prelude::*;
use crate::claims::{claims_text, is_plain, plain_text, ONE_DAY};
use crate::error::AuthError;
use crate::store::{create_outcome, email_taken, username_taken, CredentialStore, SignupUser, User};
use crate::token::{signed_token, token_validation, TokenPayload};

verus! {

/// What `bcrypt::verify` says of a password against a stored hash: `None`
/// where the hash is malformed.
pub uninterp spec fn bcrypt_check(password: Seq<char>, hash: Seq<char>) -> Option<bool>;

/// `hash` is a well-formed bcrypt hash of `password`.
pub open spec fn password_matches(password: Seq<char>, hash: Seq<char>) -> bool {
    bcrypt_check(password, hash) == Some(true)
}

/// Some row of `rows` has the email `email` and a hash of `password`.
pub open spec fn credentials_match(rows: Seq<User>, email: Seq<char>, password: Seq<char>) -> bool {
    exists|i: int|
        0 <= i < rows.len() && (#[trigger] rows[i]).email@ == email && password_matches(password, rows[i].password@)
}

/// A token can be issued at `now`: not before the epoch, and its expiry
/// fits in an `i64`.
pub open spec fn issue_time_ok(now: int) -> bool {
    0 <= now <= i64::MAX - ONE_DAY
}

/// The session token of the user `id`, issued at `now`, signed under `key`.
pub open spec fn session_token(id: Seq<char>, now: int, key: Seq<u8>) -> Seq<char> {
    signed_token(claims_text(now as nat, (now + ONE_DAY) as nat, id), key)
}

/// Validated under `key`, `token` gives `id` up to one day after `now`, and
/// `Expired` after that.
pub open spec fn valid_for_a_day(token: Seq<char>, key: Seq<u8>, id: Seq<char>, now: int) -> bool {
    forall|t: int| #[trigger] token_validation(token, key, t) == if t <= now + ONE_DAY {
        Ok::<Seq<char>, AuthError>(id)
    } else {
        Err::<Seq<char>, AuthError>(AuthError::Expired)
    }
}

/// Identifiers are of lowercase hex digits and hyphens.
pub open spec fn is_id_char(c: char) -> bool {
    ('0' <= c && c <= '9') || ('a' <= c && c <= 'f') || c == '-'
}

/// A bcrypt hash at the default cost, checked against on a signin whose email
/// is unknown, so that such a signin costs what a wrong password costs.
pub const TIMING_HASH: &'static str = "$2b$12$FMfnaS4KbEA0d5XL8jTOZeuGqAOsVvnHDbbZ74y5vlAtvbjGbJeCS";

/// Relies on `bcrypt::hash` at `DEFAULT_COST`: it draws a fresh salt, and on
/// success `bcrypt::verify` accepts the same password against what it
/// returns, since it hashes again with the cost and salt it reads there.
#[verifier::external_body]
fn bcrypt_hash(password: &str) -> (r: Option<String>)
    ensures
        r matches Some(h) ==> bcrypt_check(password@, h@) == Some(true),
{
    bcrypt::hash(password, bcrypt::DEFAULT_COST).ok()
}

/// Relies on `bcrypt::verify`: an error where the hash is malformed, else
/// whether the password hashes to it.
#[verifier::external_body]
fn bcrypt_verify(password: &str, hash: &str) -> (r: Option<bool>)
    ensures
        r == bcrypt_check(password@, hash@),
{
    bcrypt::verify(password, hash).ok()
}

/// Relies on `uuid::Uuid::new_v4` and the hyphenated form that its
/// `to_string` writes: 36 lowercase hex digits and hyphens.
#[verifier::external_body]
fn fresh_id() -> (r: String)
    ensures
        r@.len() == 36,
        forall|i: int| 0 <= i < r@.len() ==> is_id_char(#[trigger] r@[i]),
{
    uuid::Uuid::new_v4().to_string()
}

/// Relies on `chrono::Utc::now` and `DateTime::timestamp`: the system clock,
/// in seconds since the epoch.
#[verifier::external_body]
fn now_seconds() -> (r: i64) {
    chrono::Utc::now().timestamp()
}

impl User {
    /// A salted hash of `naive_pw`, which `verify_password` accepts for it.
    pub fn hash_password(naive_pw: &str) -> (r: Result<String, AuthError>)
        ensures
            match r {
                Ok(h) => password_matches(naive_pw@, h@),
                Err(e) => e == AuthError::Internal,
            },
    {
        match bcrypt_hash(naive_pw) {
            Some(h) => Ok(h),
            None => Err(AuthError::Internal),
        }
    }

    /// Whether `hash` is a well-formed hash of `naive_pw`.
    pub fn verify_password(naive_pw: &str, hash: &str) -> (r: bool)
        ensures
            r == password_matches(naive_pw@, hash@),
    {
        match bcrypt_verify(naive_pw, hash) {
            Some(b) => b,
            None => false,
        }
    }

    /// The session token of this user, issued at `now` and signed under
    /// `key`. Fails with `Internal` where `now` is not a possible issue time
    /// or the identifier cannot stand in a token.
    pub fn token_at(&self, now: i64, key: &[u8]) -> (r: Result<String, AuthError>)
        ensures
            match r {
                Ok(t) => {
                    &&& issue_time_ok(now as int)
                    &&& is_plain(self.id@)
                    &&& t@ == session_token(self.id@, now as int, key@)
                    &&& valid_for_a_day(t@, key@, self.id@, now as int)
                },
                Err(e) => e == AuthError::Internal && !(issue_time_ok(now as int) && is_plain(self.id@)),
            },
    {
        if now < 0 || now > i64::MAX - ONE_DAY || !plain_text(self.id.as_str()) {
            return Err(AuthError::Internal);
        }
        let payload = TokenPayload { iat: now, exp: now + ONE_DAY, sub: self.id.clone() };
        Ok(payload.sign(key))
    }

    /// The session token of this user, issued now and signed under `key`.
    pub fn generate_token(&self, key: &[u8]) -> (r: Result<String, AuthError>)
        ensures
            match r {
                Ok(t) => exists|now: int| #![trigger session_token(self.id@, now, key@)]
                    t@ == session_token(self.id@, now, key@) && valid_for_a_day(t@, key@, self.id@, now),
                Err(e) => e == AuthError::Internal,
            },
    {
        let now = now_seconds();
        self.token_at(now, key)
    }

    /// Creates the user `email`, `username` with the password hash
    /// `password_hash` and the identifier `id` at `now`, and issues its
    /// session token. Fails with `Internal`, creating nothing, where no token
    /// could be issued for `id` at `now`; else as `create_user` does.
    pub fn register(
        store: &mut CredentialStore,
        email: &str,
        username: &str,
        password_hash: &str,
        id: String,
        now: i64,
        key: &[u8],
    ) -> (r: Result<(User, String), AuthError>)
        requires
            old(store).wf(),
        ensures
            final(store).wf(),
            !(issue_time_ok(now as int) && is_plain(id@)) ==> r == Err::<(User, String), AuthError>(AuthError::Internal),
            match r {
                Ok((u, t)) => {
                    &&& issue_time_ok(now as int) && is_plain(id@)
                    &&& create_outcome(old(store)@, email@, username@, id@) is Ok
                    &&& final(store)@ == old(store)@.push(u)
                    &&& u.id == id
                    &&& u.email@ == email@
                    &&& u.username@ == username@
                    &&& u.password@ == password_hash@
                    &&& u.created_at == now
                    &&& t@ == session_token(id@, now as int, key@)
                    &&& valid_for_a_day(t@, key@, id@, now as int)
                },
                Err(e) => {
                    &&& final(store)@ == old(store)@
                    &&& issue_time_ok(now as int) && is_plain(id@) ==> create_outcome(old(store)@, email@, username@, id@)
                        == Err::<(), AuthError>(e)
                },
            },
    {
        if now < 0 || now > i64::MAX - ONE_DAY || !plain_text(id.as_str()) {
            return Err(AuthError::Internal);
        }
        let record = SignupUser { email, username, password: password_hash };
        let user = match store.create_user(&record, id, now) {
            Ok(u) => u,
            Err(e) => return Err(e),
        };
        match user.token_at(now, key) {
            Ok(token) => Ok((user, token)),
            Err(_) => Err(AuthError::Internal),
        }
    }

    /// Signs up a new user: hashes the password, creates the row with a fresh
    /// identifier, and issues its session token. Fails with `Validation`
    /// exactly where the email or the username is empty; where either is
    /// already in use, with `Conflict` (or `Internal`, where hashing or the
    /// clock failed first). On failure the store is unchanged.
    pub fn signup(
        store: &mut CredentialStore,
        email: &str,
        username: &str,
        naive_password: &str,
        key: &[u8],
    ) -> (r: Result<(User, String), AuthError>)
        requires
            old(store).wf(),
        ensures
            final(store).wf(),
            match r {
                Ok((u, t)) => {
                    &&& email@.len() > 0 && username@.len() > 0
                    &&& !email_taken(old(store)@, email@)
                    &&& !username_taken(old(store)@, username@)
                    &&& final(store)@ == old(store)@.push(u)
                    &&& u.email@ == email@
                    &&& u.username@ == username@
                    &&& password_matches(naive_password@, u.password@)
                    &&& exists|now: int| #![trigger session_token(u.id@, now, key@)]
                        t@ == session_token(u.id@, now, key@) && valid_for_a_day(t@, key@, u.id@, now)
                },
                Err(e) => {
                    &&& final(store)@ == old(store)@
                    &&& (e == AuthError::Validation <==> (email@.len() == 0 || username@.len() == 0))
                    &&& (email@.len() > 0 && username@.len() > 0 && (email_taken(old(store)@, email@)
                        || username_taken(old(store)@, username@))) ==> (e == AuthError::Conflict || e
                        == AuthError::Internal)
                },
            },
    {
        if email.unicode_len() == 0 || username.unicode_len() == 0 {
            return Err(AuthError::Validation);
        }
        let hash = match User::hash_password(naive_password) {
            Ok(h) => h,
            Err(e) => return Err(e),
        };
        let id = fresh_id();
        let now = now_seconds();
        User::register(store, email, username, hash.as_str(), id, now, key)
    }

    /// Checks `naive_password` against the row of `email` and issues the
    /// session token of that user at `now`. An unknown email and a wrong
    /// password both give `Unauthorized`, and both check a hash.
    pub fn authenticate(
        store: &CredentialStore,
        email: &str,
        naive_password: &str,
        now: i64,
        key: &[u8],
    ) -> (r: Result<(User, String), AuthError>)
        requires
            store.wf(),
        ensures
            match r {
                Ok((u, t)) => {
                    &&& exists|i: int| 0 <= i < store@.len() && store@[i] == u
                    &&& u.email@ == email@
                    &&& password_matches(naive_password@, u.password@)
                    &&& t@ == session_token(u.id@, now as int, key@)
                    &&& valid_for_a_day(t@, key@, u.id@, now as int)
                },
                Err(AuthError::Unauthorized) => !credentials_match(store@, email@, naive_password@),
                Err(AuthError::Internal) => credentials_match(store@, email@, naive_password@) && (
                !issue_time_ok(now as int) || exists|i: int| #![trigger store@[i]]
                    0 <= i < store@.len() && store@[i].email@ == email@ && !is_plain(store@[i].id@)),
                Err(_) => false,
            },
    {
        let user = match store.find_by_email(email) {
            Some(u) => u,
            None => {
                let _ = bcrypt_verify(naive_password, TIMING_HASH);
                return Err(AuthError::Unauthorized);
            },
        };
        if !User::verify_password(naive_password, user.password.as_str()) {
            return Err(AuthError::Unauthorized);
        }
        match user.token_at(now, key) {
            Ok(token) => Ok((user, token)),
            Err(_) => Err(AuthError::Internal),
        }
    }

    /// Signs in: checks `naive_password` against the row of `email` and
    /// issues a session token now. An unknown email and a wrong password give
    /// the same error, `Unauthorized`.
    pub fn signin(
        store: &CredentialStore,
        email: &str,
        naive_password: &str,
        key: &[u8],
    ) -> (r: Result<(User, String), AuthError>)
        requires
            store.wf(),
        ensures
            match r {
                Ok((u, t)) => {
                    &&& exists|i: int| 0 <= i < store@.len() && store@[i] == u
                    &&& u.email@ == email@
                    &&& password_matches(naive_password@, u.password@)
                    &&& exists|now: int| #![trigger session_token(u.id@, now, key@)]
                        t@ == session_token(u.id@, now, key@) && valid_for_a_day(t@, key@, u.id@, now)
                },
                Err(e) => {
                    &&& e == AuthError::Unauthorized || e == AuthError::Internal
                    &&& (e == AuthError::Unauthorized <==> !credentials_match(store@, email@, naive_password@))
                },
            },
    {
        let now = now_seconds();
        let r = User::authenticate(store, email, naive_password, now, key);
        proof {
            if r is Ok {
                let u = r->Ok_0.0;
                let t = r->Ok_0.1;
                assert(t@ == session_token(u.id@, now as int, key@));
            }
        }
        r
    }
}

} // verus!
