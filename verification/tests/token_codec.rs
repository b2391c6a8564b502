use star_haven_platform::claims::{Claims, Scope, Service};
use star_haven_platform::errors::TokenError;
use star_haven_platform::session::{session, Session, SESSION_LENGTH_SECONDS};

fn key() -> Vec<u8> {
    b"correct horse battery staple".to_vec()
}

fn other_key() -> Vec<u8> {
    b"swordfish".to_vec()
}

#[test]
fn round_trip_preserves_claims() {
    let now: u64 = 1_700_000_000;
    let c = Claims::new(42, vec![Scope::CreateMod, Scope::PublishMod], 3600, now);
    let token = c.encode(&key());
    let back = Claims::validate(&token, &key(), now).expect("token should validate");
    assert_eq!(back.sub, 42);
    assert_eq!(back.iat, now);
    assert_eq!(back.exp, now + 3600);
    assert_eq!(back.scopes.len(), 2);
    assert!(matches!(back.scopes[0], Scope::CreateMod));
    assert!(matches!(back.scopes[1], Scope::PublishMod));
    assert!(matches!(back.iss, Service::StarHavenPlatform));
    assert_eq!(back.aud.len(), 2);
    assert!(matches!(back.aud[0], Service::StarHavenPlatform));
    assert!(matches!(back.aud[1], Service::StarHavenSccache));
}

#[test]
fn round_trip_with_unknown_scope() {
    let now: u64 = 1_700_000_000;
    let c = Claims::new(
        7,
        vec![Scope::Unknown(String::from("operate_time_machine"))],
        100,
        now,
    );
    let token = c.encode(&key());
    let back = Claims::validate(&token, &key(), now).expect("token should validate");
    assert_eq!(back.scopes.len(), 1);
    match &back.scopes[0] {
        Scope::Unknown(raw) => assert_eq!(raw, "operate_time_machine"),
        _ => panic!("expected the unknown scope to survive"),
    }
}

#[test]
fn wrong_key_is_rejected() {
    let now: u64 = 1_700_000_000;
    let c = Claims::new(42, vec![], 3600, now);
    let token = c.encode(&key());
    assert!(matches!(Claims::validate(&token, &other_key(), now), Err(TokenError::Invalid)));
}

#[test]
fn expired_token_is_rejected() {
    let now: u64 = 1_700_000_000;
    let c = Claims::new(42, vec![], 3600, now);
    let token = c.encode(&key());
    // at the stroke of the expiry and after it the token is dead
    assert!(matches!(Claims::validate(&token, &key(), now + 3600), Err(TokenError::Invalid)));
    assert!(matches!(Claims::validate(&token, &key(), now + 7200), Err(TokenError::Invalid)));
    // just before, it is alive
    assert!(Claims::validate(&token, &key(), now + 3599).is_ok());
}

#[test]
fn tampered_token_is_rejected() {
    let now: u64 = 1_700_000_000;
    let c = Claims::new(42, vec![], 3600, now);
    let token = c.encode(&key());
    let mut tampered = token.clone();
    // flip one hex digit of the packed payload
    let first = tampered.remove(0);
    let flipped = if first == '0' { '1' } else { '0' };
    tampered.insert(0, flipped);
    assert!(matches!(Claims::validate(&tampered, &key(), now), Err(TokenError::Invalid)));
}

#[test]
fn garbage_tokens_are_rejected() {
    let now: u64 = 1_700_000_000;
    for t in ["", ".", "abc", "abc.def", "zzzzzz.sig", "000000."] {
        assert!(matches!(Claims::validate(t, &key(), now), Err(TokenError::Invalid)));
    }
}

#[test]
fn session_resolves_valid_cookie_value() {
    let now: u64 = 1_700_000_000;
    let mut s = Session { claims: None };
    let user = star_haven_platform::user::UserRecord::new(99, String::from("alice"));
    let cookie = s.login(&user, vec![Scope::CreateMod], now, &key(), false);
    assert!(s.is_logged_in());
    assert_eq!(s.uuid(), Some(99));
    assert!(s.has_scope(&Scope::CreateMod));
    assert!(!s.has_scope(&Scope::PublishMod));
    // the cookie carries the token; read it back like a request would
    let token =
        star_haven_platform::cookie::get_cookie_value(&cookie, "session").expect("cookie set");
    let s2 = session(Some(&token), &key(), now + 10);
    assert!(s2.is_logged_in());
    assert_eq!(s2.uuid(), Some(99));
}

#[test]
fn session_treats_expired_token_as_unauthenticated() {
    let now: u64 = 1_700_000_000;
    let mut s = Session { claims: None };
    let user = star_haven_platform::user::UserRecord::new(99, String::from("alice"));
    let cookie = s.login(&user, vec![], now, &key(), false);
    let token =
        star_haven_platform::cookie::get_cookie_value(&cookie, "session").expect("cookie set");
    let later = now + SESSION_LENGTH_SECONDS + 1;
    let s2 = session(Some(&token), &key(), later);
    assert!(!s2.is_logged_in());
    assert_eq!(s2.uuid(), None);
}

#[test]
fn session_without_cookie_is_unauthenticated() {
    let s = session(None, &key(), 1_700_000_000);
    assert!(!s.is_logged_in());
    assert!(!s.has_scope(&Scope::CreateMod));
}

#[test]
fn logout_clears_the_session() {
    let now: u64 = 1_700_000_000;
    let mut s = Session { claims: None };
    let user = star_haven_platform::user::UserRecord::new(5, String::from("bob1"));
    let _ = s.login(&user, vec![], now, &key(), false);
    assert!(s.is_logged_in());
    let clearing = s.logout(false);
    assert!(!s.is_logged_in());
    assert_eq!(clearing, "session=; Path=/;  SameSite=Lax; HttpOnly; Max-Age=0");
    // the clearing cookie holds no readable session value
    assert!(star_haven_platform::cookie::get_cookie_value(&clearing, "session").is_none());
}
