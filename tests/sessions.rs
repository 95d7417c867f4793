use soash::auth::{
    check_credentials, check_name_free, new_user_record, session_to_refresh, session_user, start_session,
    AuthTokenError, AuthenticationError, AuthenticatedUser, User,
};
use soash::cache::TtlCache;

fn user(password: String) -> User {
    User { id: 3, name: "ann".to_string(), password }
}

#[test]
fn name_must_be_free() {
    assert!(check_name_free(None).is_ok());
    let taken = check_name_free(Some(user("h".to_string())));
    assert!(matches!(taken, Err(AuthenticationError::UsernameTaken)));
}

#[test]
fn credentials_checked_against_hash() {
    let hash = bcrypt::hash("secret", 4).unwrap();
    let ok = check_credentials(Some(user(hash.clone())), "secret").unwrap();
    assert_eq!(ok.id, 3);
    let bad = check_credentials(Some(user(hash)), "guess");
    assert!(matches!(bad, Err(AuthenticationError::IncorrectPassword)));
}

#[test]
fn unknown_user_and_bad_hash() {
    assert!(matches!(check_credentials(None, "x"), Err(AuthenticationError::UserNotFound)));
    let r = check_credentials(Some(user("not a hash".to_string())), "x");
    assert!(matches!(r, Err(AuthenticationError::HashError(_))));
    let r = check_credentials(Some(user("é".to_string())), "x");
    assert!(matches!(r, Err(AuthenticationError::HashError(_))));
}

#[test]
fn session_lookup_outcomes() {
    let mut c: TtlCache<AuthenticatedUser> = TtlCache::new(1000);
    assert_eq!(session_user(&mut c, None, 0).unwrap_err(), AuthTokenError::MissingToken);
    assert_eq!(session_user(&mut c, Some("t"), 0).unwrap_err(), AuthTokenError::InvalidToken);
    start_session(&mut c, user("h".to_string()), "t", 0);
    let u = session_user(&mut c, Some("t"), 10).unwrap();
    assert_eq!((u.id, u.name.as_str(), u.token.as_str()), (3, "ann", "t"));
    assert_eq!(session_user(&mut c, Some("t"), 1001).unwrap_err(), AuthTokenError::InvalidToken);
}

#[test]
fn refresh_after_half_lifetime() {
    let mut c: TtlCache<AuthenticatedUser> = TtlCache::new(1000);
    start_session(&mut c, user("h".to_string()), "t", 0);
    assert!(session_to_refresh(&mut c, "t", 500).is_none());
    assert_eq!(session_to_refresh(&mut c, "t", 501).unwrap().token, "t");
    assert!(session_to_refresh(&mut c, "t", 1001).is_none());
    assert!(session_to_refresh(&mut c, "u", 0).is_none());
}

#[test]
fn registered_user_signs_in() {
    let u = new_user_record(4, "bob", "hunter2").unwrap();
    assert_eq!((u.id, u.name.as_str()), (4, "bob"));
    assert_ne!(u.password, "hunter2");
    assert!(u.password.is_ascii());
    assert_eq!(check_credentials(Some(u.clone()), "hunter2").unwrap().name, "bob");
    assert!(matches!(check_credentials(Some(u), "hunter3"), Err(AuthenticationError::IncorrectPassword)));
}
