//! Verified core of a passkey-based authentication service.
//!
//! The crate covers the security-sensitive heart of the platform: the
//! username policy, the signed session-token codec, cookie handling, the
//! transient ceremony-state store, and the registration/login ceremony
//! engine built around a WebAuthn verifier. Page markup helpers that the
//! surrounding application renders are built here too, as plain strings.

pub mod challenges;
pub mod claims;
pub mod cookie;
pub mod errors;
pub mod markup;
pub mod media;
pub mod passkey;
pub mod payload;
pub mod session;
pub mod slug;
pub mod text;
pub mod token;
pub mod user;
pub mod username;
pub mod wire;
