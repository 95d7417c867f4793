//! Users, sessions and the forms that carry credentials.

use crate::cache::{has_key, key_index, since, TtlCache};
use vstd::pervasive::cloned;
use bcrypt::BcryptError;
use vstd::prelude::*;
use vstd::string::is_ascii;

verus! {

/// A registered user, with the hash of the password.
#[derive(Debug, Clone)]
pub struct User {
    pub id: u64,
    pub name: String,
    pub password: String,
}

/// A user bound to a live session token.
#[derive(Debug, Clone)]
pub struct AuthenticatedUser {
    pub id: u64,
    pub name: String,
    pub token: String,
}

/// Why a request carries no usable session.
#[derive(Debug, Clone, Copy, PartialEq, Eq, Structural)]
pub enum AuthTokenError {
    MissingToken,
    InvalidToken,
}

/// The fields of a login request.
#[derive(Debug, Clone)]
pub struct LoginForm {
    pub username: String,
    pub password: String,
}

/// The fields of a registration request.
#[derive(Debug, Clone)]
pub struct RegisterForm {
    pub username: String,
    pub password: String,
}

/// Where the process keeps its note index and its user store.
#[derive(Debug, Clone)]
pub struct Config {
    pub index_dir: String,
    pub auth_store: String,
}

/// The bcrypt cost with which passwords are hashed.
pub const BCRYPT_ITERATIONS: u32 = 12;

#[verifier::external_type_specification]
#[verifier::external_body]
pub struct ExBcryptError(BcryptError);

/// Why registering or authenticating a user failed.
#[derive(Debug)]
pub enum AuthenticationError {
    UsernameTaken,
    UserNotFound,
    IncorrectPassword,
    HashError(BcryptError),
    StoreInaccessible,
}

/// What `bcrypt::verify(password, hash)` answers: `Some(b)` where it returns
/// `Ok(b)`, whether `password` hashes to `hash` under the salt and cost that
/// `hash` holds; `None` where it returns an error (a malformed hash).
pub uninterp spec fn bcrypt_verdict(password: Seq<char>, hash: Seq<char>) -> Option<bool>;

/// Relies on `bcrypt::verify`: it splits `hash` into cost, salt and digest,
/// rehashes the password with them and compares, so both whether it fails
/// and what it answers depend on the two arguments alone. It slices the hash
/// by bytes, which is sound for ASCII.
#[verifier::external_body]
fn verify_password(password: &str, hash: &str) -> (r: Result<bool, BcryptError>)
    requires
        is_ascii(hash),
    ensures
        r is Ok <==> bcrypt_verdict(password@, hash@) is Some,
        r matches Ok(b) ==> bcrypt_verdict(password@, hash@) == Some(b),
{
    bcrypt::verify(password, hash)
}

/// Relies on `bcrypt::hash`, which draws a random salt: nothing is known of
/// which hash it returns. What it returns is `$2y$`, the cost and the
/// bcrypt-base64 salt and digest, all ASCII, and `bcrypt::verify` rehashes the
/// same password with that salt and cost to the same digest, so it accepts it.
#[verifier::external_body]
fn hash_password(password: &str, cost: u32) -> (r: Result<String, BcryptError>)
    ensures
        r matches Ok(h) ==> is_ascii_chars_of(h@) && bcrypt_verdict(password@, h@) == Some(true),
{
    bcrypt::hash(password, cost)
}

/// Relies on bcrypt's `BcryptError::InvalidHash`, the error that
/// `bcrypt::verify` gives for a hash it cannot read.
#[verifier::external_body]
fn malformed_hash(hash: &str) -> (r: BcryptError) {
    BcryptError::InvalidHash(hash.to_string())
}

/// Registration may go on only where no user of that name exists.
pub fn check_name_free(existing: Option<User>) -> (r: Result<(), AuthenticationError>)
    ensures
        existing is None <==> r is Ok,
        r is Err ==> r matches Err(AuthenticationError::UsernameTaken),
{
    match existing {
        Some(_) => Err(AuthenticationError::UsernameTaken),
        None => Ok(()),
    }
}

/// The record of a new user, with the password hashed.
pub fn new_user_record(id: u64, name: &str, password: &str) -> (r: Result<
    User,
    AuthenticationError,
>)
    ensures
        r matches Ok(u) ==> u.id == id && u.name@ == name@ && is_ascii_chars_of(u.password@)
            && bcrypt_verdict(password@, u.password@) == Some(true),
        r is Err ==> r matches Err(AuthenticationError::HashError(_)),
{
    match hash_password(password, BCRYPT_ITERATIONS) {
        Ok(hash) => Ok(User { id, name: name.to_owned(), password: hash }),
        Err(e) => Err(AuthenticationError::HashError(e)),
    }
}

/// The stored user, where `password` matches the stored hash. A stored hash
/// that is not ASCII is malformed, and so is one that bcrypt cannot read.
pub fn check_credentials(stored: Option<User>, password: &str) -> (r: Result<
    User,
    AuthenticationError,
>)
    ensures
        stored is None ==> r matches Err(AuthenticationError::UserNotFound),
        stored matches Some(u) ==> ({
            let readable = is_ascii_chars_of(u.password@) && bcrypt_verdict(
                password@,
                u.password@,
            ) is Some;
            &&& !readable ==> (r matches Err(AuthenticationError::HashError(_)))
            &&& readable && bcrypt_verdict(password@, u.password@) == Some(true) ==> r == Ok::<
                User,
                AuthenticationError,
            >(u)
            &&& readable && bcrypt_verdict(password@, u.password@) == Some(false) ==> (r matches Err(
                AuthenticationError::IncorrectPassword,
            ))
        }),
{
    match stored {
        None => Err(AuthenticationError::UserNotFound),
        Some(user) => {
            if !user.password.as_str().is_ascii() {
                return Err(AuthenticationError::HashError(malformed_hash(user.password.as_str())));
            }
            match verify_password(password, user.password.as_str()) {
                Ok(true) => Ok(user),
                Ok(false) => Err(AuthenticationError::IncorrectPassword),
                Err(e) => Err(AuthenticationError::HashError(e)),
            }
        },
    }
}

pub open spec fn is_ascii_chars_of(s: Seq<char>) -> bool {
    vstd::utf8::is_ascii_chars(s)
}

/// The user of the session that a request's token names.
pub fn session_user(cache: &mut TtlCache<AuthenticatedUser>, token: Option<&str>, now: u64) -> (r:
    Result<AuthenticatedUser, AuthTokenError>)
    requires
        old(cache).wf(),
    ensures
        final(cache).wf(),
        final(cache).expiry_spec() == old(cache).expiry_spec(),
        token is None ==> r == Err::<AuthenticatedUser, AuthTokenError>(
            AuthTokenError::MissingToken,
        ) && final(cache)@ == old(cache)@,
        token matches Some(t) ==> (!has_key(old(cache)@, t@) ==> r == Err::<
            AuthenticatedUser,
            AuthTokenError,
        >(AuthTokenError::InvalidToken)),
        token matches Some(t) ==> (has_key(old(cache)@, t@) ==> ({
            let e = old(cache)@[key_index(old(cache)@, t@)];
            &&& since(now, e.2) > old(cache).expiry_spec() ==> r == Err::<
                AuthenticatedUser,
                AuthTokenError,
            >(AuthTokenError::InvalidToken)
            &&& since(now, e.2) <= old(cache).expiry_spec() ==> (r matches Ok(u) && cloned(e.1, u))
        })),
{
    match token {
        None => Err(AuthTokenError::MissingToken),
        Some(t) => match cache.get_with_time_at(t, now) {
            Some((user, _)) => Ok(user),
            None => Err(AuthTokenError::InvalidToken),
        },
    }
}

/// A session is renewed once more than half its lifetime has passed.
pub open spec fn refresh_due(created: u64, now: u64, expiry: u64) -> bool {
    since(now, created) > expiry / 2
}

/// The user of the session under `token`, where it is live and due for a
/// new token.
pub fn session_to_refresh(cache: &mut TtlCache<AuthenticatedUser>, token: &str, now: u64) -> (r:
    Option<AuthenticatedUser>)
    requires
        old(cache).wf(),
    ensures
        final(cache).wf(),
        final(cache).expiry_spec() == old(cache).expiry_spec(),
        !has_key(old(cache)@, token@) ==> r is None,
        has_key(old(cache)@, token@) ==> ({
            let e = old(cache)@[key_index(old(cache)@, token@)];
            let live = since(now, e.2) <= old(cache).expiry_spec();
            &&& (live && refresh_due(e.2, now, old(cache).expiry_spec())) <==> r is Some
            &&& r matches Some(u) ==> cloned(e.1, u)
        }),
{
    match cache.get_with_time_at(token, now) {
        Some((user, created)) => {
            let age: u64 = if now >= created { now - created } else { 0 };
            if age > cache.get_expiry() / 2 {
                Some(user)
            } else {
                None
            }
        },
        None => None,
    }
}

/// Opens a session for `user` under `token`, made at `now`.
pub fn start_session(cache: &mut TtlCache<AuthenticatedUser>, user: User, token: &str, now: u64)
    requires
        old(cache).wf(),
    ensures
        final(cache).wf(),
        final(cache).expiry_spec() == old(cache).expiry_spec(),
        exists|s: AuthenticatedUser|
            s.id == user.id && s.name == user.name && s.token@ == token@ && (final(cache)@,
            final(cache).ops_spec()) == crate::cache::settled(
                crate::cache::upserted(old(cache)@, token@, s, now),
                old(cache).ops_spec(),
                false,
                now,
                old(cache).expiry_spec(),
            ),
{
    let session = AuthenticatedUser { id: user.id, name: user.name, token: token.to_owned() };
    let ghost witness = session;
    cache.insert_at(token, session, now);
    assert(witness.id == user.id && witness.name == user.name && witness.token@ == token@);
}

} // verus!
