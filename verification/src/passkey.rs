//! The ceremony engine: registration, targeted login, and discoverable
//! login, each a two-phase start/finish protocol.
//!
//! The engine owns the transient challenge store and drives the WebAuthn
//! verifier; the surrounding application supplies what only the
//! persistent store knows (credential rows, user rows) as plain values
//! and performs the writes the engine decides on. Every start stores at
//! most one challenge; every finish consumes its challenge first, so a
//! response can never be replayed.

use vstd::prelude::*;

use crate::challenges::{IdMap, NameMap};
use crate::errors::{AuthError, ConflictKind, NotFoundKind};
use crate::user::UserRecord;
use crate::username::{check_username_validity, validity_spec};

verus! {

#[verifier::external_type_specification]
#[verifier::external_body]
pub struct ExWebauthn(webauthn_rs::Webauthn);

#[verifier::external_type_specification]
#[verifier::external_body]
pub struct ExWebauthnError(webauthn_rs::prelude::WebauthnError);

#[verifier::external_type_specification]
#[verifier::external_body]
pub struct ExCreationChallengeResponse(webauthn_rs::prelude::CreationChallengeResponse);

#[verifier::external_type_specification]
#[verifier::external_body]
pub struct ExRequestChallengeResponse(webauthn_rs::prelude::RequestChallengeResponse);

#[verifier::external_type_specification]
#[verifier::external_body]
pub struct ExRegisterPublicKeyCredential(webauthn_rs::prelude::RegisterPublicKeyCredential);

#[verifier::external_type_specification]
#[verifier::external_body]
pub struct ExPublicKeyCredential(webauthn_rs::prelude::PublicKeyCredential);

#[verifier::external_type_specification]
#[verifier::external_body]
pub struct ExPasskeyRegistration(webauthn_rs::prelude::PasskeyRegistration);

#[verifier::external_type_specification]
#[verifier::external_body]
pub struct ExPasskeyAuthentication(webauthn_rs::prelude::PasskeyAuthentication);

#[verifier::external_type_specification]
#[verifier::external_body]
pub struct ExDiscoverableAuthentication(webauthn_rs::prelude::DiscoverableAuthentication);

#[verifier::external_type_specification]
#[verifier::external_body]
pub struct ExAuthenticationResult(webauthn_rs::prelude::AuthenticationResult);

#[verifier::external_type_specification]
#[verifier::external_body]
pub struct ExPasskey(webauthn_rs::prelude::Passkey);

/// Relies on `uuid::Uuid::new_v4`: a freshly generated random
/// identifier. Nothing is promised of the value.
#[verifier::external_body]
fn fresh_id() -> u128 {
    uuid::Uuid::new_v4().as_u128()
}

/// Relies on `Webauthn::start_passkey_registration`: builds a
/// registration challenge bound to the given user id and name, excluding
/// the given credential ids. The challenge and verifier state are opaque
/// here.
#[verifier::external_body]
fn wa_start_passkey_registration(
    wa: &webauthn_rs::Webauthn,
    user_id: u128,
    username: &str,
    exclude_credentials: Option<Vec<Vec<u8>>>,
) -> Result<
    (webauthn_rs::prelude::CreationChallengeResponse, webauthn_rs::prelude::PasskeyRegistration),
    webauthn_rs::prelude::WebauthnError,
> {
    wa.start_passkey_registration(
        uuid::Uuid::from_u128(user_id),
        username,
        username,
        exclude_credentials.map(
            |ids| ids.into_iter().map(webauthn_rs::prelude::CredentialID::from).collect(),
        ),
    )
}

/// Relies on `Webauthn::finish_passkey_registration`: verifies the
/// client's registration response against the stored verifier state and
/// yields the new passkey on success.
#[verifier::external_body]
fn wa_finish_passkey_registration(
    wa: &webauthn_rs::Webauthn,
    reg: &webauthn_rs::prelude::RegisterPublicKeyCredential,
    state: &webauthn_rs::prelude::PasskeyRegistration,
) -> Result<webauthn_rs::prelude::Passkey, webauthn_rs::prelude::WebauthnError> {
    wa.finish_passkey_registration(reg, state)
}

/// Relies on `Passkey::cred_id`: the credential identifier bytes of a
/// passkey.
#[verifier::external_body]
fn passkey_credential_id(p: &webauthn_rs::prelude::Passkey) -> Vec<u8> {
    p.cred_id().to_vec()
}

/// Relies on `Passkey::update_credential`: folds an authentication
/// result into the stored passkey (signature counter, backup state).
/// `None` means the result belongs to a different credential; `Some`
/// reports whether anything changed.
#[verifier::external_body]
fn passkey_update_credential(
    p: &mut webauthn_rs::prelude::Passkey,
    res: &webauthn_rs::prelude::AuthenticationResult,
) -> Option<bool> {
    p.update_credential(res)
}

/// Relies on `Webauthn::start_passkey_authentication`: builds an
/// authentication challenge scoped to exactly the given passkeys.
#[verifier::external_body]
fn wa_start_passkey_authentication(
    wa: &webauthn_rs::Webauthn,
    creds: &Vec<webauthn_rs::prelude::Passkey>,
) -> Result<
    (webauthn_rs::prelude::RequestChallengeResponse, webauthn_rs::prelude::PasskeyAuthentication),
    webauthn_rs::prelude::WebauthnError,
> {
    wa.start_passkey_authentication(creds.as_slice())
}

/// Relies on `Webauthn::finish_passkey_authentication`: verifies the
/// client's response against the stored verifier state.
#[verifier::external_body]
fn wa_finish_passkey_authentication(
    wa: &webauthn_rs::Webauthn,
    cred: &webauthn_rs::prelude::PublicKeyCredential,
    state: &webauthn_rs::prelude::PasskeyAuthentication,
) -> Result<webauthn_rs::prelude::AuthenticationResult, webauthn_rs::prelude::WebauthnError> {
    wa.finish_passkey_authentication(cred, state)
}

/// Relies on `Webauthn::start_discoverable_authentication`: builds a
/// username-less authentication challenge.
#[verifier::external_body]
fn wa_start_discoverable_authentication(wa: &webauthn_rs::Webauthn) -> Result<
    (
        webauthn_rs::prelude::RequestChallengeResponse,
        webauthn_rs::prelude::DiscoverableAuthentication,
    ),
    webauthn_rs::prelude::WebauthnError,
> {
    wa.start_discoverable_authentication()
}

/// Relies on `Webauthn::identify_discoverable_authentication`: reads
/// which user a discoverable response claims to be, without verifying
/// the signature yet.
#[verifier::external_body]
fn wa_identify_discoverable_authentication(
    wa: &webauthn_rs::Webauthn,
    cred: &webauthn_rs::prelude::PublicKeyCredential,
) -> Result<u128, webauthn_rs::prelude::WebauthnError> {
    wa.identify_discoverable_authentication(cred).map(|(u, _)| u.as_u128())
}

/// Relies on `Webauthn::finish_discoverable_authentication`: verifies
/// the client's response against the stored state and the user's full
/// current credential set.
#[verifier::external_body]
fn wa_finish_discoverable_authentication(
    wa: &webauthn_rs::Webauthn,
    cred: &webauthn_rs::prelude::PublicKeyCredential,
    state: webauthn_rs::prelude::DiscoverableAuthentication,
    creds: Vec<webauthn_rs::prelude::Passkey>,
) -> Result<webauthn_rs::prelude::AuthenticationResult, webauthn_rs::prelude::WebauthnError> {
    let keys: Vec<webauthn_rs::prelude::DiscoverableKey> = creds.into_iter().map(
        webauthn_rs::prelude::DiscoverableKey::from,
    ).collect();
    wa.finish_discoverable_authentication(cred, state, keys.as_slice())
}

/// One in-flight registration: the identity the user row will get if it
/// does not exist yet, and the verifier's challenge state.
pub struct RegistrationChallenge {
    /// Pre-allocated id for the user row to be created at finish.
    pub candidate_user_id: u128,
    /// Opaque verifier state for this ceremony.
    pub state: webauthn_rs::prelude::PasskeyRegistration,
}

/// The three transient challenge maps, one per ceremony family.
pub struct CeremonyStore {
    /// In-flight registrations, keyed by username.
    pub registrations: NameMap<RegistrationChallenge>,
    /// In-flight targeted logins, keyed by random challenge id.
    pub logins: IdMap<webauthn_rs::prelude::PasskeyAuthentication>,
    /// In-flight discoverable logins, keyed by random challenge id.
    pub discoverable_logins: IdMap<webauthn_rs::prelude::DiscoverableAuthentication>,
}

impl CeremonyStore {
    pub open spec fn wf(self) -> bool {
        self.registrations.wf() && self.logins.wf() && self.discoverable_logins.wf()
    }

    /// An empty store, to be created once at service start.
    pub fn new() -> (r: CeremonyStore)
        ensures
            r.wf(),
            r.registrations@ == Map::<Seq<char>, RegistrationChallenge>::empty(),
            r.logins@ == Map::<u128, webauthn_rs::prelude::PasskeyAuthentication>::empty(),
            r.discoverable_logins@ == Map::<
                u128,
                webauthn_rs::prelude::DiscoverableAuthentication,
            >::empty(),
    {
        CeremonyStore { registrations: NameMap::new(), logins: IdMap::new(), discoverable_logins: IdMap::new() }
    }
}

/// The value, or the given not-found error.
pub fn found_or<T>(x: Option<T>, kind: NotFoundKind) -> (r: Result<T, AuthError>)
    ensures
        match x {
            Some(v) => r matches Ok(rv) && rv == v,
            None => r == Err::<T, AuthError>(AuthError::NotFound(kind)),
        },
{
    match x {
        Some(v) => Ok(v),
        None => Err(AuthError::NotFound(kind)),
    }
}

/// Registration start for a signed-in user adding another passkey: the
/// requested username must be the session user's own, and the user's
/// existing credential ids are excluded so one device cannot register
/// twice. On success the challenge replaces any in-flight registration
/// for the username.
pub fn start_register_existing(
    store: &mut CeremonyStore,
    wa: &webauthn_rs::Webauthn,
    username: &String,
    user: &UserRecord,
    existing_credential_ids: Vec<Vec<u8>>,
) -> (r: Result<webauthn_rs::prelude::CreationChallengeResponse, AuthError>)
    requires
        old(store).wf(),
    ensures
        final(store).wf(),
        final(store).logins@ == old(store).logins@,
        final(store).discoverable_logins@ == old(store).discoverable_logins@,
        user.username@ != username@ ==> r == Err::<
            webauthn_rs::prelude::CreationChallengeResponse,
            AuthError,
        >(AuthError::Authorization) && final(store).registrations@ == old(store).registrations@,
        r is Ok ==> user.username@ == username@ && (exists|ch: RegistrationChallenge|
            final(store).registrations@ == old(store).registrations@.insert(username@, ch))
            && final(store).registrations@.contains_key(username@) && final(store).registrations@[username@].candidate_user_id == user.id,
        r is Err ==> (r == Err::<webauthn_rs::prelude::CreationChallengeResponse, AuthError>(
            AuthError::Authorization,
        ) || r == Err::<webauthn_rs::prelude::CreationChallengeResponse, AuthError>(
            AuthError::CredentialVerification,
        )) && final(store).registrations@ == old(store).registrations@,
        user.username@ == username@ && r is Err ==> r == Err::<
            webauthn_rs::prelude::CreationChallengeResponse,
            AuthError,
        >(AuthError::CredentialVerification),
{
    if !(user.username == *username) {
        return Err(AuthError::Authorization);
    }
    let candidate_user_id = user.id;
    match wa_start_passkey_registration(
        wa,
        candidate_user_id,
        username.as_str(),
        Some(existing_credential_ids),
    ) {
        Ok((ccr, state)) => {
            let chal = RegistrationChallenge { candidate_user_id, state };
            let ghost chg = chal;
            let _overwritten = store.registrations.insert(username.clone(), chal);
            proof {
                assert(final(store).registrations@ == old(store).registrations@.insert(
                    username@,
                    chg,
                ));
            }
            Ok(ccr)
        },
        Err(_) => Err(AuthError::CredentialVerification),
    }
}

/// Registration start for a fresh username: the username must pass the
/// policy and its normal form must be unclaimed; a fresh candidate user
/// id is drawn and the challenge stored under the username.
pub fn start_register_new(
    store: &mut CeremonyStore,
    wa: &webauthn_rs::Webauthn,
    username: &String,
    normalized_username_taken: bool,
) -> (r: Result<webauthn_rs::prelude::CreationChallengeResponse, AuthError>)
    requires
        old(store).wf(),
    ensures
        final(store).wf(),
        final(store).logins@ == old(store).logins@,
        final(store).discoverable_logins@ == old(store).discoverable_logins@,
        validity_spec(username@) matches Err(e) ==> r == Err::<
            webauthn_rs::prelude::CreationChallengeResponse,
            AuthError,
        >(AuthError::Validation(e)) && final(store).registrations@ == old(store).registrations@,
        validity_spec(username@) is Ok && normalized_username_taken ==> r == Err::<
            webauthn_rs::prelude::CreationChallengeResponse,
            AuthError,
        >(AuthError::Conflict(ConflictKind::UsernameInUse)) && final(store).registrations@ == old(
            store,
        ).registrations@,
        r is Ok ==> validity_spec(username@) is Ok && !normalized_username_taken && (
        exists|ch: RegistrationChallenge|
            final(store).registrations@ == old(store).registrations@.insert(username@, ch)),
        r is Err ==> final(store).registrations@ == old(store).registrations@,
        validity_spec(username@) is Ok && !normalized_username_taken && r is Err ==> r == Err::<
            webauthn_rs::prelude::CreationChallengeResponse,
            AuthError,
        >(AuthError::CredentialVerification),
{
    if let Err(e) = check_username_validity(username.as_str()) {
        return Err(AuthError::Validation(e));
    }
    if normalized_username_taken {
        return Err(AuthError::Conflict(ConflictKind::UsernameInUse));
    }
    let candidate_user_id = fresh_id();
    match wa_start_passkey_registration(wa, candidate_user_id, username.as_str(), None) {
        Ok((ccr, state)) => {
            let chal = RegistrationChallenge { candidate_user_id, state };
            let ghost chg = chal;
            let _overwritten = store.registrations.insert(username.clone(), chal);
            proof {
                assert(final(store).registrations@ == old(store).registrations@.insert(
                    username@,
                    chg,
                ));
            }
            Ok(ccr)
        },
        Err(_) => Err(AuthError::CredentialVerification),
    }
}

/// What a verified registration finish hands back for persisting: the
/// identity to attach the credential to, the verified passkey, and its
/// credential id.
pub struct RegistrationOutcome {
    /// The user id the ceremony was started for.
    pub candidate_user_id: u128,
    /// The verified passkey to store.
    pub passkey: webauthn_rs::prelude::Passkey,
    /// The passkey's credential id, the persistent row key.
    pub credential_id: Vec<u8>,
}

/// Registration finish up to verification: re-checks the session
/// username, consumes the stored challenge — exactly once, whatever
/// happens afterwards — and verifies the client's response against it.
/// The caller must then refuse a credential id that is already
/// registered and persist the rows inside one transaction.
pub fn finish_register(
    store: &mut CeremonyStore,
    wa: &webauthn_rs::Webauthn,
    username: &String,
    session_user: Option<&UserRecord>,
    reg: &webauthn_rs::prelude::RegisterPublicKeyCredential,
) -> (r: Result<RegistrationOutcome, AuthError>)
    requires
        old(store).wf(),
    ensures
        final(store).wf(),
        final(store).logins@ == old(store).logins@,
        final(store).discoverable_logins@ == old(store).discoverable_logins@,
        (session_user matches Some(u) && u.username@ != username@) ==> (r matches Err(e) && e
            == AuthError::Authorization) && final(store).registrations@ == old(
            store,
        ).registrations@,
        (match session_user {
            Some(u) => u.username@ == username@,
            None => true,
        }) ==> {
            &&& !old(store).registrations@.contains_key(username@) ==> (r matches Err(e) && e
                == AuthError::InvalidChallenge) && final(store).registrations@ == old(
                store,
            ).registrations@
            &&& old(store).registrations@.contains_key(username@) ==> {
                &&& final(store).registrations@ == old(store).registrations@.remove(username@)
                &&& (r matches Ok(out) ==> out.candidate_user_id == old(
                    store,
                ).registrations@[username@].candidate_user_id)
                &&& r is Err ==> r == Err::<RegistrationOutcome, AuthError>(
                    AuthError::CredentialVerification,
                )
            }
        },
{
    if let Some(user) = session_user {
        if !(user.username == *username) {
            return Err(AuthError::Authorization);
        }
    }
    let taken = store.registrations.remove(username);
    let Some(chal) = taken else {
        return Err(AuthError::InvalidChallenge);
    };
    match wa_finish_passkey_registration(wa, reg, &chal.state) {
        Ok(passkey) => {
            let credential_id = passkey_credential_id(&passkey);
            Ok(
                RegistrationOutcome {
                    candidate_user_id: chal.candidate_user_id,
                    passkey,
                    credential_id,
                },
            )
        },
        Err(_) => Err(AuthError::CredentialVerification),
    }
}

/// Whether a credential id already registered to a row must stop the
/// ceremony: the same physical key may not be registered twice.
pub fn credential_conflict(credential_id_registered: bool) -> (r: Result<(), AuthError>)
    ensures
        credential_id_registered ==> r == Err::<(), AuthError>(
            AuthError::Conflict(ConflictKind::CredentialAlreadyRegistered),
        ),
        !credential_id_registered ==> r is Ok,
{
    if credential_id_registered {
        Err(AuthError::Conflict(ConflictKind::CredentialAlreadyRegistered))
    } else {
        Ok(())
    }
}

/// Login start: builds an authentication challenge scoped to exactly
/// the user's passkeys and stores it under a fresh random id. A user
/// with no passkeys is refused and nothing is stored.
pub fn start_login(
    store: &mut CeremonyStore,
    wa: &webauthn_rs::Webauthn,
    passkeys: Vec<webauthn_rs::prelude::Passkey>,
) -> (r: Result<(webauthn_rs::prelude::RequestChallengeResponse, u128), AuthError>)
    requires
        old(store).wf(),
    ensures
        final(store).wf(),
        final(store).registrations@ == old(store).registrations@,
        final(store).discoverable_logins@ == old(store).discoverable_logins@,
        passkeys@.len() == 0 ==> r == Err::<
            (webauthn_rs::prelude::RequestChallengeResponse, u128),
            AuthError,
        >(AuthError::NotFound(NotFoundKind::NoPasskeys)) && final(store).logins@ == old(
            store,
        ).logins@,
        r is Ok ==> passkeys@.len() > 0,
        r is Ok ==> final(store).logins@ == old(store).logins@.insert(
            (r->Ok_0).1,
            final(store).logins@[(r->Ok_0).1],
        ),
        r is Err ==> (r == Err::<(webauthn_rs::prelude::RequestChallengeResponse, u128), AuthError>(
            AuthError::NotFound(NotFoundKind::NoPasskeys),
        ) || r == Err::<(webauthn_rs::prelude::RequestChallengeResponse, u128), AuthError>(
            AuthError::CredentialVerification,
        )) && final(store).logins@ == old(store).logins@,
        passkeys@.len() > 0 && r is Err ==> r == Err::<
            (webauthn_rs::prelude::RequestChallengeResponse, u128),
            AuthError,
        >(AuthError::CredentialVerification),
{
    if passkeys.len() == 0 {
        return Err(AuthError::NotFound(NotFoundKind::NoPasskeys));
    }
    match wa_start_passkey_authentication(wa, &passkeys) {
        Ok((challenge, state)) => {
            let id = fresh_id();
            let ghost stg = state;
            let _overwritten = store.logins.insert(id, state);
            proof {
                assert(final(store).logins@ == old(store).logins@.insert(id, stg));
                assert(exists|st: webauthn_rs::prelude::PasskeyAuthentication|
                    final(store).logins@ == old(store).logins@.insert(id, st));
            }
            Ok((challenge, id))
        },
        Err(_) => Err(AuthError::CredentialVerification),
    }
}

/// Login finish: consumes the stored challenge — exactly once — and
/// verifies the client's response against it. The caller then updates
/// the credential row and signs the session in.
pub fn finish_login(
    store: &mut CeremonyStore,
    wa: &webauthn_rs::Webauthn,
    id: u128,
    credential: &webauthn_rs::prelude::PublicKeyCredential,
) -> (r: Result<webauthn_rs::prelude::AuthenticationResult, AuthError>)
    requires
        old(store).wf(),
    ensures
        final(store).wf(),
        final(store).registrations@ == old(store).registrations@,
        final(store).discoverable_logins@ == old(store).discoverable_logins@,
        !old(store).logins@.contains_key(id) ==> r == Err::<
            webauthn_rs::prelude::AuthenticationResult,
            AuthError,
        >(AuthError::InvalidChallenge) && final(store).logins@ == old(store).logins@,
        old(store).logins@.contains_key(id) ==> final(store).logins@ == old(store).logins@.remove(
            id,
        ) && (r is Err ==> r == Err::<webauthn_rs::prelude::AuthenticationResult, AuthError>(
            AuthError::CredentialVerification,
        )),
{
    let taken = store.logins.remove(id);
    let Some(state) = taken else {
        return Err(AuthError::InvalidChallenge);
    };
    match wa_finish_passkey_authentication(wa, credential, &state) {
        Ok(auth) => Ok(auth),
        Err(_) => Err(AuthError::CredentialVerification),
    }
}

/// Discoverable login start: a username-less challenge under a fresh
/// random id.
pub fn start_discoverable_login(store: &mut CeremonyStore, wa: &webauthn_rs::Webauthn) -> (r:
    Result<(webauthn_rs::prelude::RequestChallengeResponse, u128), AuthError>)
    requires
        old(store).wf(),
    ensures
        final(store).wf(),
        final(store).registrations@ == old(store).registrations@,
        final(store).logins@ == old(store).logins@,
        r is Ok ==> final(store).discoverable_logins@ == old(store).discoverable_logins@.insert(
            (r->Ok_0).1,
            final(store).discoverable_logins@[(r->Ok_0).1],
        ),
        r is Err ==> r == Err::<(webauthn_rs::prelude::RequestChallengeResponse, u128), AuthError>(
            AuthError::CredentialVerification,
        ) && final(store).discoverable_logins@ == old(store).discoverable_logins@,
{
    match wa_start_discoverable_authentication(wa) {
        Ok((challenge, state)) => {
            let id = fresh_id();
            let ghost stg = state;
            let _overwritten = store.discoverable_logins.insert(id, state);
            proof {
                assert(final(store).discoverable_logins@ == old(
                    store,
                ).discoverable_logins@.insert(id, stg));
                assert(exists|st: webauthn_rs::prelude::DiscoverableAuthentication|
                    final(store).discoverable_logins@ == old(store).discoverable_logins@.insert(
                        id,
                        st,
                    ));
            }
            Ok((challenge, id))
        },
        Err(_) => Err(AuthError::CredentialVerification),
    }
}

/// Discoverable login finish, first half: consumes the stored challenge
/// — exactly once — and asks the verifier which user the response
/// claims to be, without verifying the signature yet. The caller fetches
/// that user's full, current credential set and calls
/// [`finish_discoverable_verify`].
pub fn finish_discoverable_login(
    store: &mut CeremonyStore,
    wa: &webauthn_rs::Webauthn,
    id: u128,
    credential: &webauthn_rs::prelude::PublicKeyCredential,
) -> (r: Result<(u128, webauthn_rs::prelude::DiscoverableAuthentication), AuthError>)
    requires
        old(store).wf(),
    ensures
        final(store).wf(),
        final(store).registrations@ == old(store).registrations@,
        final(store).logins@ == old(store).logins@,
        !old(store).discoverable_logins@.contains_key(id) ==> r == Err::<
            (u128, webauthn_rs::prelude::DiscoverableAuthentication),
            AuthError,
        >(AuthError::InvalidChallenge) && final(store).discoverable_logins@ == old(
            store,
        ).discoverable_logins@,
        old(store).discoverable_logins@.contains_key(id) ==> final(store).discoverable_logins@
            == old(store).discoverable_logins@.remove(id) && (r is Err ==> r == Err::<
            (u128, webauthn_rs::prelude::DiscoverableAuthentication),
            AuthError,
        >(AuthError::CredentialVerification)),
{
    let taken = store.discoverable_logins.remove(id);
    let Some(state) = taken else {
        return Err(AuthError::InvalidChallenge);
    };
    match wa_identify_discoverable_authentication(wa, credential) {
        Ok(user_id) => Ok((user_id, state)),
        Err(_) => Err(AuthError::CredentialVerification),
    }
}

/// Discoverable login finish, second half: verifies the response
/// against the consumed challenge state and the user's complete current
/// credential set.
pub fn finish_discoverable_verify(
    wa: &webauthn_rs::Webauthn,
    credential: &webauthn_rs::prelude::PublicKeyCredential,
    state: webauthn_rs::prelude::DiscoverableAuthentication,
    passkeys: Vec<webauthn_rs::prelude::Passkey>,
) -> (r: Result<webauthn_rs::prelude::AuthenticationResult, AuthError>)
    ensures
        r is Err ==> r == Err::<webauthn_rs::prelude::AuthenticationResult, AuthError>(
            AuthError::CredentialVerification,
        ),
{
    match wa_finish_discoverable_authentication(wa, credential, state, passkeys) {
        Ok(auth) => Ok(auth),
        Err(_) => Err(AuthError::CredentialVerification),
    }
}

/// The shared authentication tail: folds the verification result into
/// the stored passkey, updating its internal signature counter. A result
/// that does not belong to this passkey is a verification failure; the
/// caller persists the updated passkey with a fresh last-used time and
/// signs the session in.
pub fn authenticate_update(
    passkey: &mut webauthn_rs::prelude::Passkey,
    auth: &webauthn_rs::prelude::AuthenticationResult,
) -> (r: Result<bool, AuthError>)
    ensures
        r is Err ==> r == Err::<bool, AuthError>(AuthError::CredentialVerification),
{
    match passkey_update_credential(passkey, auth) {
        Some(changed) => Ok(changed),
        None => Err(AuthError::CredentialVerification),
    }
}

} // verus!
