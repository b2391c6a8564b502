//! Error taxonomy of the authentication core.
//!
//! Every failure of a ceremony or a session operation is one of the
//! variants below; store failures of the surrounding application are not
//! represented here and propagate outside the library.

use vstd::prelude::*;

verus! {

/// A username was rejected by the username policy.
#[derive(Debug, Clone, Copy, PartialEq, Eq, Structural)]
pub enum UsernameValidationError {
    /// Shorter than the minimum length.
    TooShort,
    /// Longer than the maximum length.
    TooLong,
    /// Holds a character outside the allowed set.
    InvalidCharacters,
    /// First or last character is not an ASCII letter or digit.
    InvalidStartOrEnd,
    /// The normalized form is on the reserved-name list.
    Banned,
}

impl UsernameValidationError {
    /// The user-facing message for this rejection.
    pub fn message(&self) -> (r: &'static str)
        ensures
            r@ == self.message_spec(),
    {
        match self {
            UsernameValidationError::TooShort => "too short, must be at least 4 characters",
            UsernameValidationError::TooLong => "too long, must be at most 20 characters",
            UsernameValidationError::InvalidCharacters => "letters, numbers, underscores, and hyphens only",
            UsernameValidationError::InvalidStartOrEnd => "must start and end with a letter or number",
            UsernameValidationError::Banned => "this username is not allowed",
        }
    }

    pub open spec fn message_spec(self) -> Seq<char> {
        match self {
            UsernameValidationError::TooShort => "too short, must be at least 4 characters"@,
            UsernameValidationError::TooLong => "too long, must be at most 20 characters"@,
            UsernameValidationError::InvalidCharacters => "letters, numbers, underscores, and hyphens only"@,
            UsernameValidationError::InvalidStartOrEnd => "must start and end with a letter or number"@,
            UsernameValidationError::Banned => "this username is not allowed"@,
        }
    }
}

/// Which pre-existing row a conflicting request collided with.
#[derive(Debug, Clone, Copy, PartialEq, Eq, Structural)]
pub enum ConflictKind {
    /// Another user already owns the normalized username.
    UsernameInUse,
    /// The credential id is already registered.
    CredentialAlreadyRegistered,
}

/// Which lookup came back empty.
#[derive(Debug, Clone, Copy, PartialEq, Eq, Structural)]
pub enum NotFoundKind {
    /// The user has no registered passkeys to log in with.
    NoPasskeys,
    /// A credential row the verifier pointed at is missing from the store.
    PasskeyMissing,
    /// The user row owning a credential is missing from the store.
    UserMissing,
}

/// A failure of a ceremony operation.
#[derive(Debug, Clone, Copy, PartialEq, Eq, Structural)]
pub enum AuthError {
    /// The username is rejected by the username policy.
    Validation(UsernameValidationError),
    /// The request collides with an existing row.
    Conflict(ConflictKind),
    /// A required row does not exist.
    NotFound(NotFoundKind),
    /// The ceremony id is unknown or the challenge was already consumed.
    InvalidChallenge,
    /// The verifier rejected the client's credential response.
    CredentialVerification,
    /// The caller's session does not permit the request.
    Authorization,
}

impl AuthError {
    /// The user-facing message for this failure.
    pub fn message(&self) -> (r: &'static str)
        ensures
            r@ == self.message_spec(),
    {
        match self {
            AuthError::Validation(e) => e.message(),
            AuthError::Conflict(ConflictKind::UsernameInUse) => "username in use",
            AuthError::Conflict(ConflictKind::CredentialAlreadyRegistered) => "credential already registered",
            AuthError::NotFound(NotFoundKind::NoPasskeys) => "no passkeys",
            AuthError::NotFound(NotFoundKind::PasskeyMissing) => "not found",
            AuthError::NotFound(NotFoundKind::UserMissing) => "not found",
            AuthError::InvalidChallenge => "invalid challenge",
            AuthError::CredentialVerification => "bad credentials",
            AuthError::Authorization => "unauthorized",
        }
    }

    pub open spec fn message_spec(self) -> Seq<char> {
        match self {
            AuthError::Validation(e) => e.message_spec(),
            AuthError::Conflict(ConflictKind::UsernameInUse) => "username in use"@,
            AuthError::Conflict(ConflictKind::CredentialAlreadyRegistered) => "credential already registered"@,
            AuthError::NotFound(NotFoundKind::NoPasskeys) => "no passkeys"@,
            AuthError::NotFound(NotFoundKind::PasskeyMissing) => "not found"@,
            AuthError::NotFound(NotFoundKind::UserMissing) => "not found"@,
            AuthError::InvalidChallenge => "invalid challenge"@,
            AuthError::CredentialVerification => "bad credentials"@,
            AuthError::Authorization => "unauthorized"@,
        }
    }
}

/// A session cookie failed to decode or validate.
///
/// Signature, structure, expiry and audience failures deliberately
/// collapse into this one value: the caller only learns that the token is
/// not acceptable, and treats the bearer as logged out.
#[derive(Debug, Clone, Copy, PartialEq, Eq, Structural)]
pub enum TokenError {
    /// The token is missing, malformed, forged, expired, or addressed to
    /// another service.
    Invalid,
}

} // verus!
