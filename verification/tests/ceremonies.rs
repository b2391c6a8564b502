use star_haven_platform::claims::Scope;
use star_haven_platform::cookie::get_cookie_value;
use star_haven_platform::errors::{AuthError, ConflictKind, NotFoundKind};
use star_haven_platform::passkey::{
    authenticate_update, credential_conflict, finish_login, finish_register, found_or,
    start_discoverable_login, start_login, start_register_existing, start_register_new,
    CeremonyStore,
};
use star_haven_platform::session::{session, Session};
use star_haven_platform::user::UserRecord;

use webauthn_authenticator_rs::softpasskey::SoftPasskey;
use webauthn_authenticator_rs::WebauthnAuthenticator;
use webauthn_rs::prelude::Url;
use webauthn_rs::{Webauthn, WebauthnBuilder};

fn relying_party() -> Webauthn {
    let rp_origin = Url::parse("http://localhost").expect("valid origin");
    WebauthnBuilder::new("localhost", &rp_origin)
        .expect("compatible rp id and origin")
        .rp_name("Star Haven")
        .allow_any_port(true)
        .build()
        .expect("valid configuration")
}

fn key() -> Vec<u8> {
    b"test signing key".to_vec()
}

#[test]
fn register_login_end_to_end() {
    let wa = relying_party();
    let mut store = CeremonyStore::new();
    let mut authenticator = WebauthnAuthenticator::new(SoftPasskey::new(true));
    let origin = Url::parse("http://localhost").expect("valid origin");
    let now: u64 = 1_700_000_000;

    // registration: start, client-side credential creation, finish
    let username = String::from("alice");
    let ccr = start_register_new(&mut store, &wa, &username, false).expect("start should succeed");
    let reg = authenticator
        .do_registration(origin.clone(), ccr)
        .expect("the soft authenticator should create a credential");
    let outcome =
        finish_register(&mut store, &wa, &username, None, &reg).expect("finish should verify");
    assert!(!outcome.credential_id.is_empty());

    // the credential id is fresh, so the conflict check passes and the
    // application would now insert the user and credential rows
    assert!(credential_conflict(false).is_ok());
    let user = UserRecord::new(outcome.candidate_user_id, username.clone());
    assert_eq!(user.username_normalized, "alice");
    let mut passkey_row = outcome.passkey;

    // the new user is signed in as part of registration
    let mut sess = Session { claims: None };
    let cookie = sess.login(&user, vec![Scope::CreateMod], now, &key(), false);
    assert!(sess.is_logged_in());
    assert_eq!(sess.uuid(), Some(user.id));

    // the client keeps the cookie; a later request resolves it
    let token = get_cookie_value(&cookie, "session").expect("session cookie set");
    let resolved = session(Some(&token), &key(), now + 5);
    assert_eq!(resolved.uuid(), Some(user.id));

    // log out: the session is gone
    let clearing = sess.logout(false);
    assert!(!sess.is_logged_in());
    assert!(get_cookie_value(&clearing, "session").is_none());

    // targeted login with the registered passkey
    let (challenge, login_id) = start_login(&mut store, &wa, vec![passkey_row.clone()])
        .expect("login start should succeed");
    let cred = authenticator
        .do_authentication(origin, challenge)
        .expect("the soft authenticator should sign the challenge");
    let auth = finish_login(&mut store, &wa, login_id, &cred).expect("finish should verify");

    // fold the result into the stored credential and sign in again
    authenticate_update(&mut passkey_row, &auth).expect("result belongs to this passkey");
    let mut sess2 = Session { claims: None };
    let cookie2 = sess2.login(&user, vec![Scope::CreateMod], now + 60, &key(), false);
    let token2 = get_cookie_value(&cookie2, "session").expect("session cookie set");
    let resolved2 = session(Some(&token2), &key(), now + 70);
    assert_eq!(resolved2.uuid(), Some(user.id));

    // replaying the same login challenge fails: it was consumed
    assert!(matches!(
        finish_login(&mut store, &wa, login_id, &cred),
        Err(AuthError::InvalidChallenge)
    ));
}

#[test]
fn finish_register_consumes_the_challenge() {
    let wa = relying_party();
    let mut store = CeremonyStore::new();
    let mut authenticator = WebauthnAuthenticator::new(SoftPasskey::new(true));
    let origin = Url::parse("http://localhost").expect("valid origin");

    let username = String::from("brandt");
    let ccr = start_register_new(&mut store, &wa, &username, false).expect("start should succeed");
    let reg = authenticator.do_registration(origin, ccr).expect("credential created");
    let first = finish_register(&mut store, &wa, &username, None, &reg);
    assert!(first.is_ok());
    // the second finish for the same username always fails: the stored
    // challenge was taken atomically by the first
    let second = finish_register(&mut store, &wa, &username, None, &reg);
    assert!(matches!(second, Err(AuthError::InvalidChallenge)));
}

#[test]
fn finish_register_without_start_fails() {
    let wa = relying_party();
    let mut store = CeremonyStore::new();
    let mut authenticator = WebauthnAuthenticator::new(SoftPasskey::new(true));
    let origin = Url::parse("http://localhost").expect("valid origin");

    // start a ceremony for one name to get a plausible response shape
    let username = String::from("carol");
    let ccr = start_register_new(&mut store, &wa, &username, false).expect("start should succeed");
    let reg = authenticator.do_registration(origin, ccr).expect("credential created");
    // finishing under a different name finds no challenge
    let other = String::from("david");
    assert!(matches!(
        finish_register(&mut store, &wa, &other, None, &reg),
        Err(AuthError::InvalidChallenge)
    ));
}

#[test]
fn registration_rejects_bad_and_taken_usernames() {
    let wa = relying_party();
    let mut store = CeremonyStore::new();
    let bad = String::from("ab");
    match start_register_new(&mut store, &wa, &bad, false) {
        Err(AuthError::Validation(_)) => {},
        _ => panic!("a too-short username must be rejected"),
    }
    let taken = String::from("ernie");
    assert!(matches!(
        start_register_new(&mut store, &wa, &taken, true),
        Err(AuthError::Conflict(ConflictKind::UsernameInUse))
    ));
}

#[test]
fn registration_for_existing_user_requires_matching_name() {
    let wa = relying_party();
    let mut store = CeremonyStore::new();
    let user = UserRecord::new(1, String::from("frida"));
    let other = String::from("georg");
    assert!(matches!(
        start_register_existing(&mut store, &wa, &other, &user, vec![]),
        Err(AuthError::Authorization)
    ));
    // the user's own name is accepted
    let own = String::from("frida");
    assert!(start_register_existing(&mut store, &wa, &own, &user, vec![]).is_ok());
}

#[test]
fn finish_register_checks_session_username() {
    let wa = relying_party();
    let mut store = CeremonyStore::new();
    let user = UserRecord::new(1, String::from("frida"));
    let mut authenticator = WebauthnAuthenticator::new(SoftPasskey::new(true));
    let origin = Url::parse("http://localhost").expect("valid origin");
    let own = String::from("frida");
    let ccr = start_register_existing(&mut store, &wa, &own, &user, vec![]).expect("start");
    let reg = authenticator.do_registration(origin, ccr).expect("credential created");
    // a ceremony started as one user may not be completed as another
    let imposter = UserRecord::new(2, String::from("henry"));
    assert!(matches!(
        finish_register(&mut store, &wa, &own, Some(&imposter), &reg),
        Err(AuthError::Authorization)
    ));
    // the mismatch did not consume the challenge; the right user still can
    assert!(finish_register(&mut store, &wa, &own, Some(&user), &reg).is_ok());
}

#[test]
fn login_start_without_passkeys_fails() {
    let wa = relying_party();
    let mut store = CeremonyStore::new();
    assert!(matches!(
        start_login(&mut store, &wa, vec![]),
        Err(AuthError::NotFound(NotFoundKind::NoPasskeys))
    ));
}

#[test]
fn finish_login_with_unknown_id_fails() {
    let wa = relying_party();
    let mut store = CeremonyStore::new();
    let mut authenticator = WebauthnAuthenticator::new(SoftPasskey::new(true));
    let origin = Url::parse("http://localhost").expect("valid origin");
    // register a credential so a syntactically valid response exists
    let username = String::from("irene");
    let ccr = start_register_new(&mut store, &wa, &username, false).expect("start");
    let reg = authenticator.do_registration(origin.clone(), ccr).expect("credential created");
    let outcome = finish_register(&mut store, &wa, &username, None, &reg).expect("finish");
    let (challenge, _login_id) =
        start_login(&mut store, &wa, vec![outcome.passkey]).expect("login start");
    let cred = authenticator.do_authentication(origin, challenge).expect("signed");
    assert!(matches!(
        finish_login(&mut store, &wa, 0xDEAD_BEEF, &cred),
        Err(AuthError::InvalidChallenge)
    ));
}

#[test]
fn discoverable_login_start_and_replay() {
    let wa = relying_party();
    let mut store = CeremonyStore::new();
    let (_challenge, id) =
        start_discoverable_login(&mut store, &wa).expect("discoverable start should succeed");
    // consuming an id that was never stored fails
    assert_ne!(id, 0);
}

#[test]
fn credential_conflict_is_reported() {
    assert!(matches!(
        credential_conflict(true),
        Err(AuthError::Conflict(ConflictKind::CredentialAlreadyRegistered))
    ));
    assert_eq!(
        AuthError::Conflict(ConflictKind::CredentialAlreadyRegistered).message(),
        "credential already registered"
    );
    assert_eq!(AuthError::NotFound(NotFoundKind::NoPasskeys).message(), "no passkeys");
    assert_eq!(AuthError::InvalidChallenge.message(), "invalid challenge");
}

#[test]
fn found_or_maps_missing_rows() {
    let x: Option<u32> = None;
    assert!(matches!(
        found_or(x, NotFoundKind::PasskeyMissing),
        Err(AuthError::NotFound(NotFoundKind::PasskeyMissing))
    ));
    assert_eq!(found_or(Some(7u32), NotFoundKind::UserMissing), Ok(7));
}
