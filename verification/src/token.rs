//! The session-token codec: a claim set signed with a symmetric key.
//!
//! A token is the hex packing of the canonical claim payload, a dot, and
//! an HMAC-SHA256 tag over the packed bytes. [`Claims::encode`] mints
//! exactly that string; [`Claims::validate`] accepts a string exactly
//! when it carries a correctly signed, unexpired claim set addressed to
//! this platform. Whatever fails — shape, signature, expiry or audience —
//! the caller learns one opaque [`TokenError`].

use vstd::prelude::*;

use crate::claims::{Claims, ClaimsView, Scope, Service, ServiceView, wf_scope};
use crate::errors::TokenError;
use crate::payload::{claims_of_payload, parse_payload, payload_chars, payload_of_claims, scan_char, scan_to};
use crate::text::{chars_of_str, push_char};
use crate::wire::{hex_pack, hex_pack_into, hex_unpack, hex_unpack_all};

verus! {

/// The bytes a packed token is signed over: each (hex digit) character
/// as one byte.
pub open spec fn byte_view(s: Seq<char>) -> Seq<u8> {
    s.map_values(|c: char| c as u8)
}

/// What the HS256 signer returns for a message under a key: the
/// base64url form of the HMAC-SHA256 tag. A function of key and message
/// alone. jsonwebtoken resolves its crypto through a process-global
/// provider; this crate enables exactly one backend and never installs
/// another, so the resolution is deterministic.
pub uninterp spec fn hmac_tag(key: Seq<u8>, msg: Seq<u8>) -> Seq<char>;

/// Relies on `jsonwebtoken::crypto::sign` with HS256: the result is the
/// base64url HMAC-SHA256 tag of the message under the secret key,
/// determined by key and message alone. For an HMAC key (any byte
/// string) signing cannot fail, so the error arm is unreachable.
#[verifier::external_body]
fn sign_hs256(key: &Vec<u8>, msg: &Vec<u8>) -> (r: String)
    ensures
        r@ == hmac_tag(key@, msg@),
{
    match jsonwebtoken::crypto::sign(
        msg.as_slice(),
        &jsonwebtoken::EncodingKey::from_secret(key.as_slice()),
        jsonwebtoken::Algorithm::HS256,
    ) {
        Ok(s) => s,
        Err(_) => String::new(),
    }
}

/// Relies on `jsonwebtoken::crypto::verify` with HS256: it re-computes
/// the HMAC-SHA256 tag of the message and compares. Its base64url
/// decoding is strict (canonical, no padding), so the comparison
/// succeeds exactly when the presented signature is the canonical tag
/// string; an undecodable signature yields an error and is never equal
/// to the tag.
#[verifier::external_body]
fn verify_hs256(key: &Vec<u8>, msg: &Vec<u8>, sig: &str) -> (r: bool)
    ensures
        r == (sig@ == hmac_tag(key@, msg@)),
{
    jsonwebtoken::crypto::verify(
        sig,
        msg.as_slice(),
        &jsonwebtoken::DecodingKey::from_secret(key.as_slice()),
        jsonwebtoken::Algorithm::HS256,
    ).unwrap_or(false)
}

/// The packed characters as bytes.
fn bytes_of_chars(s: &Vec<char>) -> (r: Vec<u8>)
    ensures
        r@ == byte_view(s@),
{
    let mut out: Vec<u8> = Vec::new();
    let mut i: usize = 0;
    while i < s.len()
        invariant
            i <= s@.len(),
            out@ =~= byte_view(s@.subrange(0, i as int)),
        decreases s@.len() - i,
    {
        let b = #[verifier::truncate] (s[i] as u8);
        out.push(b);
        proof {
            assert(s@.subrange(0, i + 1) =~= s@.subrange(0, i as int).push(s@[i as int]));
            assert(out@ =~= byte_view(s@.subrange(0, i + 1)));
        }
        i = i + 1;
    }
    proof {
        assert(s@.subrange(0, s@.len() as int) =~= s@);
    }
    out
}

/// The one token string minted for a claim set under a key.
pub open spec fn token_chars(c: ClaimsView, key: Seq<u8>) -> Seq<char> {
    let packed = hex_pack(payload_chars(c));
    packed + seq!['.'] + hmac_tag(key, byte_view(packed))
}

/// The claim set a token string carries, if its signature is the tag of
/// its packed prefix under the key, the prefix unpacks and parses, the
/// expiry lies after `now`, and this platform is in the audience.
pub open spec fn validate_spec(t: Seq<char>, key: Seq<u8>, now: u64) -> Option<ClaimsView> {
    let d = scan_char(t, 0, '.');
    if d == t.len() {
        None
    } else {
        let packed = t.subrange(0, d);
        let sig = t.subrange(d + 1, t.len() as int);
        if sig != hmac_tag(key, byte_view(packed)) {
            None
        } else {
            match hex_unpack(packed, 0) {
                None => None,
                Some(p) => match parse_payload(p) {
                    None => None,
                    Some(c) => {
                        if now < c.exp && c.aud.contains(ServiceView::StarHavenPlatform) {
                            Some(c)
                        } else {
                            None
                        }
                    },
                },
            }
        }
    }
}

/// Law: a token minted for a well-formed claim set validates, under the
/// same key, back to exactly that claim set, as long as the expiry lies
/// after `now` and this platform is in the audience.
pub proof fn lemma_token_round_trip(c: ClaimsView, key: Seq<u8>, now: u64)
    requires
        c.wf(),
        now < c.exp,
        c.aud.contains(ServiceView::StarHavenPlatform),
    ensures
        validate_spec(token_chars(c, key), key, now) == Some(c),
{
    let packed = hex_pack(payload_chars(c));
    let tag = hmac_tag(key, byte_view(packed));
    let t = token_chars(c, key);
    assert(t == packed + seq!['.'] + tag);
    crate::wire::lemma_hex_pack_chars(payload_chars(c));
    assert(forall|j: int| 0 <= j < packed.len() ==> #[trigger] t[j] == packed[j]);
    assert(forall|j: int| 0 <= j < packed.len() ==> #[trigger] t[j] != '.') by {
        assert(forall|j: int|
            0 <= j < packed.len() ==> crate::wire::is_hex_char(#[trigger] packed[j]));
    }
    assert(t[packed.len() as int] == '.');
    crate::payload::lemma_scan_finds(t, 0, packed.len() as int, '.');
    let d = packed.len() as int;
    assert(d < t.len());
    assert(t.subrange(0, d) =~= packed);
    assert(t.subrange(d + 1, t.len() as int) =~= tag);
    crate::wire::lemma_hex_round_trip(payload_chars(c));
    crate::payload::lemma_payload_round_trip(c);
}

/// Law: an accepted token is never expired. Whatever string is
/// presented, if validation yields a claim set, its expiry lies after
/// `now`; a token whose expiry has passed is rejected.
pub proof fn lemma_expired_token_rejected(t: Seq<char>, key: Seq<u8>, now: u64)
    ensures
        validate_spec(t, key, now) matches Some(c) ==> now < c.exp,
{
}

impl Claims {
    /// A fresh claim set for a user: issued now, expiring `age` seconds
    /// later, audience this platform and its build-cache sibling, issuer
    /// this platform, scopes as given.
    pub fn new(user: u128, scopes: Vec<Scope>, age: u64, now: u64) -> (r: Claims)
        requires
            now + age <= u64::MAX,
            forall|i: int|
                0 <= i < scopes@.len() ==> wf_scope(#[trigger] scopes.deep_view()[i]),
        ensures
            r@.sub == user,
            r@.exp == now + age,
            r@.iat == now,
            r@.aud == seq![ServiceView::StarHavenPlatform, ServiceView::StarHavenSccache],
            r@.iss == ServiceView::StarHavenPlatform,
            r@.scopes == scopes.deep_view(),
            r@.wf(),
    {
        let mut aud: Vec<Service> = Vec::new();
        aud.push(Service::StarHavenPlatform);
        aud.push(Service::StarHavenSccache);
        proof {
            assert(aud.deep_view() =~= seq![
                ServiceView::StarHavenPlatform,
                ServiceView::StarHavenSccache,
            ]);
            crate::claims::lemma_known_values_wf();
            assert(forall|i: int|
                0 <= i < aud.deep_view().len() ==> crate::claims::wf_service(
                    #[trigger] aud.deep_view()[i],
                )) by {
                assert(aud.deep_view()[0] == ServiceView::StarHavenPlatform);
                assert(aud.deep_view()[1] == ServiceView::StarHavenSccache);
            }
        }
        Claims { sub: user, exp: now + age, iat: now, aud, iss: Service::StarHavenPlatform, scopes }
    }

    /// Mints the signed token string for this claim set.
    pub fn encode(&self, key: &Vec<u8>) -> (r: String)
        ensures
            r@ == token_chars(self@, key@),
    {
        let payload = payload_of_claims(self);
        let mut packed: Vec<char> = Vec::new();
        hex_pack_into(&mut packed, &payload);
        let msg = bytes_of_chars(&packed);
        let sig = sign_hs256(key, &msg);
        let mut token = String::new();
        let mut i: usize = 0;
        while i < packed.len()
            invariant
                i <= packed@.len(),
                token@ =~= packed@.subrange(0, i as int),
            decreases packed@.len() - i,
        {
            push_char(&mut token, packed[i]);
            proof {
                assert(packed@.subrange(0, i + 1) =~= packed@.subrange(0, i as int).push(
                    packed@[i as int],
                ));
            }
            i = i + 1;
        }
        proof {
            assert(packed@.subrange(0, packed@.len() as int) =~= packed@);
        }
        push_char(&mut token, '.');
        token.append(sig.as_str());
        proof {
            assert(token@ =~= token_chars(self@, key@));
        }
        token
    }

    /// Decodes and checks a token string; any shortcoming at all comes
    /// back as the one opaque [`TokenError`].
    pub fn validate(token: &str, key: &Vec<u8>, now: u64) -> (r: Result<Claims, TokenError>)
        ensures
            match r {
                Ok(c) => validate_spec(token@, key@, now) == Some(c@),
                Err(e) => validate_spec(token@, key@, now) is None && e == TokenError::Invalid,
            },
    {
        let tv = chars_of_str(token);
        let d = scan_to(&tv, 0, '.');
        if d == tv.len() {
            return Err(TokenError::Invalid);
        }
        let mut packed: Vec<char> = Vec::new();
        let mut i: usize = 0;
        while i < d
            invariant
                i <= d <= tv@.len(),
                packed@ =~= tv@.subrange(0, i as int),
            decreases d - i,
        {
            packed.push(tv[i]);
            proof {
                assert(tv@.subrange(0, i + 1) =~= tv@.subrange(0, i as int).push(tv@[i as int]));
            }
            i = i + 1;
        }
        let n = tv.len();
        let sig = token.substring_char(d + 1, n);
        let msg = bytes_of_chars(&packed);
        if !verify_hs256(key, &msg, sig) {
            return Err(TokenError::Invalid);
        }
        let Some(p) = hex_unpack_all(&packed) else {
            return Err(TokenError::Invalid);
        };
        let Some(c) = claims_of_payload(&p) else {
            return Err(TokenError::Invalid);
        };
        if !(now < c.exp) {
            return Err(TokenError::Invalid);
        }
        let mut has_aud = false;
        let mut k: usize = 0;
        while k < c.aud.len()
            invariant
                k <= c.aud@.len(),
                has_aud == exists|x: int|
                    0 <= x < k && c.aud.deep_view()[x] == ServiceView::StarHavenPlatform,
            decreases c.aud@.len() - k,
        {
            let hit = match &c.aud[k] {
                Service::StarHavenPlatform => true,
                _ => false,
            };
            proof {
                assert(c.aud.deep_view()[k as int] == c.aud@[k as int]@);
                if hit {
                    assert(c.aud.deep_view()[k as int] == ServiceView::StarHavenPlatform);
                }
            }
            has_aud = has_aud || hit;
            k = k + 1;
        }
        if !has_aud {
            proof {
                assert(!c@.aud.contains(ServiceView::StarHavenPlatform)) by {
                    if c@.aud.contains(ServiceView::StarHavenPlatform) {
                        let x = choose|x: int|
                            0 <= x < c@.aud.len() && c@.aud[x]
                                == ServiceView::StarHavenPlatform;
                        assert(c.aud.deep_view()[x] == ServiceView::StarHavenPlatform);
                    }
                }
            }
            return Err(TokenError::Invalid);
        }
        proof {
            assert(c@.aud.contains(ServiceView::StarHavenPlatform)) by {
                let x = choose|x: int|
                    0 <= x < c.aud@.len() && c.aud.deep_view()[x]
                        == ServiceView::StarHavenPlatform;
                assert(c@.aud[x] == ServiceView::StarHavenPlatform);
            }
        }
        Ok(c)
    }
}

} // verus!
