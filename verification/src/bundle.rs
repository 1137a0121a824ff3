//! Key bundles and session bootstrap.
//!
//! A pair of peers seeds a session by running X3DH once per secret the Magic
//! Ratchet needs: the root key, the two header keys, and one per address
//! ratchet. Alice's bundle holds an identity and an ephemeral key; Bob's an
//! identity key, a signed prekey, a one-time prekey and the signature over
//! the prekey. The curve work lives in x3dh_ke behind trusted wrappers; each
//! key handle tracks whether its private half is present, since only
//! stripped bundles travel and the exchanges need the local private halves.

use vstd::prelude::*;
use vstd::slice::slice_to_vec;

use crate::bytes::{read_seg, write_opt_seg, write_seg};
use crate::dh::p256_valid_pk;
use crate::magic::MagicRatchet;

verus! {

/// Which part a peer plays in a session.
#[derive(Debug, Clone, Copy, PartialEq, Eq, Structural)]
pub enum AliceBob {
    /// The side that opens the session.
    Alice,
    /// The side that answers.
    Bob,
}

/// Why a bundle could not be built.
#[derive(Debug, PartialEq, Eq, Structural)]
pub enum BundleBuilderError {
    /// The role was not set.
    Partner,
    /// The identity key was not set.
    IdKey,
    /// The share count was not set.
    NumberShares,
}

/// Why two bundles could not open a session.
#[derive(Debug, PartialEq, Eq)]
pub enum PartnerBundleError {
    /// The two sides disagree on the share count; carries both.
    NumberOfSharesDifferent(usize, usize),
    /// A key exchange failed; carries its message.
    KeyExchangeError(&'static str),
}

#[verifier::external_type_specification]
#[verifier::external_body]
pub struct ExIdentityKey(x3dh_ke::IdentityKey);

#[verifier::external_type_specification]
#[verifier::external_body]
pub struct ExEphemeralKey(x3dh_ke::EphemeralKey);

#[verifier::external_type_specification]
#[verifier::external_body]
pub struct ExSignedPreKey(x3dh_ke::SignedPreKey);

#[verifier::external_type_specification]
#[verifier::external_body]
pub struct ExOneTimePreKey(x3dh_ke::OneTimePreKey);

/// Whether bytes are the textual form of a public key that x3dh_ke can read
/// back: valid text that p256's PublicKey parses.
pub uninterp spec fn x3dh_pk_str_ok(b: Seq<u8>) -> bool;

/// Relies on core's str::from_utf8 and p256's PublicKey::from_str: whether
/// serialised public-key text parses, which is exactly what x3dh_ke's
/// accessors unwrap when a key is read back from bytes.
#[verifier::external_body]
fn x3dh_pk_str_check(b: &[u8]) -> (r: bool)
    ensures
        r == x3dh_pk_str_ok(b@),
{
    match core::str::from_utf8(b) {
        Ok(s) => <p256::PublicKey as core::str::FromStr>::from_str(s).is_ok(),
        Err(_) => false,
    }
}

/// The serialised layout of one x3dh_ke key, validated: the variant index as
/// four little-endian bytes, a presence byte for the private half, then the
/// length-prefixed halves; a present private half must be a valid scalar and
/// the public half readable text, since reading the key back unwraps both.
pub open spec fn x3dh_key_wire_ok(d: Seq<u8>, kind: u8) -> bool {
    &&& d.len() >= 5
    &&& d[0] == kind
    &&& d[1] == 0u8
    &&& d[2] == 0u8
    &&& d[3] == 0u8
    &&& if d[4] == 1u8 {
        match crate::bytes::parse_seg(d, 5) {
            None => false,
            Some((sk, j)) => {
                &&& crate::dh::p256_valid_sk(sk)
                &&& match crate::bytes::parse_seg(d, j) {
                    None => false,
                    Some((pk, end)) => end == d.len() && x3dh_pk_str_ok(pk),
                }
            },
        }
    } else if d[4] == 0u8 {
        match crate::bytes::parse_seg(d, 5) {
            None => false,
            Some((pk, end)) => end == d.len() && x3dh_pk_str_ok(pk),
        }
    } else {
        false
    }
}

/// Check serialised key bytes before they are handed to x3dh_ke.
fn check_x3dh_key_bytes(d: &[u8], kind: u8) -> (r: bool)
    ensures
        r == x3dh_key_wire_ok(d@, kind),
{
    if d.len() < 5 {
        return false;
    }
    if d[0] != kind || d[1] != 0u8 || d[2] != 0u8 || d[3] != 0u8 {
        return false;
    }
    let tag = d[4];
    if tag == 1u8 {
        let (sk, j) = match read_seg(d, 5) {
            None => {
                return false;
            },
            Some(p) => p,
        };
        if !crate::dh::check_secret_key(sk.as_slice()) {
            return false;
        }
        let (pk, end) = match read_seg(d, j) {
            None => {
                return false;
            },
            Some(p) => p,
        };
        end == d.len() && x3dh_pk_str_check(pk.as_slice())
    } else if tag == 0u8 {
        let (pk, end) = match read_seg(d, 5) {
            None => {
                return false;
            },
            Some(p) => p,
        };
        end == d.len() && x3dh_pk_str_check(pk.as_slice())
    } else {
        false
    }
}

/// A long-term identity key, with or without its private half.
pub struct IdKey {
    pub(crate) raw: x3dh_ke::IdentityKey,
    pub(crate) has_private: bool,
}

/// A per-session ephemeral key of Alice's.
pub struct EphKey {
    pub(crate) raw: x3dh_ke::EphemeralKey,
    pub(crate) has_private: bool,
}

/// Bob's signed prekey.
pub struct PreKey {
    pub(crate) raw: x3dh_ke::SignedPreKey,
    pub(crate) has_private: bool,
}

/// Bob's one-time prekey.
pub struct OneTimeKey {
    pub(crate) raw: x3dh_ke::OneTimePreKey,
    pub(crate) has_private: bool,
}

/// Relies on x3dh_ke's Key::default for IdKey: a fresh random key with
/// its private half.
#[verifier::external_body]
fn x3dh_ik_generate() -> (r: x3dh_ke::IdentityKey)
{
    <x3dh_ke::IdentityKey as x3dh_ke::Key>::default()
}

/// Relies on x3dh_ke's Key::strip for IdKey: the same key with only
/// its public half.
#[verifier::external_body]
fn x3dh_ik_strip(k: &x3dh_ke::IdentityKey) -> (r: x3dh_ke::IdentityKey)
{
    x3dh_ke::Key::strip(k)
}

/// Relies on x3dh_ke's Key::to_bytes for IdKey: a serialised key.
#[verifier::external_body]
fn x3dh_ik_to_bytes(k: &x3dh_ke::IdentityKey) -> (r: Vec<u8>)
{
    x3dh_ke::Key::to_bytes(k)
}

/// Relies on x3dh_ke's Key::from_bytes and ex_private_key for IdKey:
/// parses a serialised key and reports whether a private half came with it.
/// Reading a key back unwraps the scalar and public-key parses, so only
/// pre-validated bytes may be handed in.
#[verifier::external_body]
fn x3dh_ik_from_bytes(d: &[u8]) -> (r: Option<(x3dh_ke::IdentityKey, bool)>)
    requires
        x3dh_key_wire_ok(d@, 0u8),
{
    match <x3dh_ke::IdentityKey as x3dh_ke::Key>::from_bytes(d) {
        Ok(k) => {
            let has = x3dh_ke::Key::ex_private_key(&k).is_some();
            Some((k, has))
        },
        Err(_) => None,
    }
}

/// Relies on x3dh_ke's Key::default for EphKey.
#[verifier::external_body]
fn x3dh_ek_generate() -> (r: x3dh_ke::EphemeralKey)
{
    <x3dh_ke::EphemeralKey as x3dh_ke::Key>::default()
}

/// Relies on x3dh_ke's Key::strip for EphKey.
#[verifier::external_body]
fn x3dh_ek_strip(k: &x3dh_ke::EphemeralKey) -> (r: x3dh_ke::EphemeralKey)
{
    x3dh_ke::Key::strip(k)
}

/// Relies on x3dh_ke's Key::to_bytes for EphKey.
#[verifier::external_body]
fn x3dh_ek_to_bytes(k: &x3dh_ke::EphemeralKey) -> (r: Vec<u8>)
{
    x3dh_ke::Key::to_bytes(k)
}

/// Relies on x3dh_ke's Key::from_bytes and ex_private_key for EphKey.
/// Reading a key back unwraps the scalar and public-key parses, so only
/// pre-validated bytes may be handed in.
#[verifier::external_body]
fn x3dh_ek_from_bytes(d: &[u8]) -> (r: Option<(x3dh_ke::EphemeralKey, bool)>)
    requires
        x3dh_key_wire_ok(d@, 1u8),
{
    match <x3dh_ke::EphemeralKey as x3dh_ke::Key>::from_bytes(d) {
        Ok(k) => {
            let has = x3dh_ke::Key::ex_private_key(&k).is_some();
            Some((k, has))
        },
        Err(_) => None,
    }
}

/// Relies on x3dh_ke's Key::default for PreKey.
#[verifier::external_body]
fn x3dh_spk_generate() -> (r: x3dh_ke::SignedPreKey)
{
    <x3dh_ke::SignedPreKey as x3dh_ke::Key>::default()
}

/// Relies on x3dh_ke's Key::strip for PreKey.
#[verifier::external_body]
fn x3dh_spk_strip(k: &x3dh_ke::SignedPreKey) -> (r: x3dh_ke::SignedPreKey)
{
    x3dh_ke::Key::strip(k)
}

/// Relies on x3dh_ke's Key::to_bytes for PreKey.
#[verifier::external_body]
fn x3dh_spk_to_bytes(k: &x3dh_ke::SignedPreKey) -> (r: Vec<u8>)
{
    x3dh_ke::Key::to_bytes(k)
}

/// Relies on x3dh_ke's Key::from_bytes and ex_private_key for PreKey.
/// Reading a key back unwraps the scalar and public-key parses, so only
/// pre-validated bytes may be handed in.
#[verifier::external_body]
fn x3dh_spk_from_bytes(d: &[u8]) -> (r: Option<(x3dh_ke::SignedPreKey, bool)>)
    requires
        x3dh_key_wire_ok(d@, 2u8),
{
    match <x3dh_ke::SignedPreKey as x3dh_ke::Key>::from_bytes(d) {
        Ok(k) => {
            let has = x3dh_ke::Key::ex_private_key(&k).is_some();
            Some((k, has))
        },
        Err(_) => None,
    }
}

/// Relies on x3dh_ke's PreKey::pk_to_bytes: the public half's bytes,
/// the message Bob's identity key signs.
#[verifier::external_body]
fn x3dh_spk_pk_bytes(k: &x3dh_ke::SignedPreKey) -> (r: Vec<u8>)
{
    k.pk_to_bytes()
}

/// Relies on x3dh_ke's Key::default for OneTimeKey.
#[verifier::external_body]
fn x3dh_opk_generate() -> (r: x3dh_ke::OneTimePreKey)
{
    <x3dh_ke::OneTimePreKey as x3dh_ke::Key>::default()
}

/// Relies on x3dh_ke's Key::strip for OneTimeKey.
#[verifier::external_body]
fn x3dh_opk_strip(k: &x3dh_ke::OneTimePreKey) -> (r: x3dh_ke::OneTimePreKey)
{
    x3dh_ke::Key::strip(k)
}

/// Relies on x3dh_ke's Key::to_bytes for OneTimeKey.
#[verifier::external_body]
fn x3dh_opk_to_bytes(k: &x3dh_ke::OneTimePreKey) -> (r: Vec<u8>)
{
    x3dh_ke::Key::to_bytes(k)
}

/// Relies on x3dh_ke's Key::from_bytes and ex_private_key for OneTimeKey.
/// Reading a key back unwraps the scalar and public-key parses, so only
/// pre-validated bytes may be handed in.
#[verifier::external_body]
fn x3dh_opk_from_bytes(d: &[u8]) -> (r: Option<(x3dh_ke::OneTimePreKey, bool)>)
    requires
        x3dh_key_wire_ok(d@, 3u8),
{
    match <x3dh_ke::OneTimePreKey as x3dh_ke::Key>::from_bytes(d) {
        Ok(k) => {
            let has = x3dh_ke::Key::ex_private_key(&k).is_some();
            Some((k, has))
        },
        Err(_) => None,
    }
}

/// Relies on x3dh_ke's Key::sign: an ECDSA signature over `data` by the
/// identity key, serialised as DER bytes. Signing needs the private half,
/// which the precondition guarantees.
#[verifier::external_body]
fn x3dh_sign(ik: &IdKey, data: &[u8]) -> (r: Vec<u8>)
    requires
        ik.private(),
{
    x3dh_ke::Key::sign(&ik.raw, data).to_der().as_bytes().to_vec()
}

/// Relies on x3dh_ke's x3dh_a: Alice's side of the extended triple
/// Diffie-Hellman. The signature travels as DER bytes and is parsed here;
/// the call fails exactly when it does not parse or does not verify against
/// Bob's identity key. Success yields the 32-byte shared secret. The private
/// halves the computation needs are guaranteed by the preconditions.
#[verifier::external_body]
fn x3dh_alice(
    signature_der: &[u8],
    ika: &IdKey,
    spkb: &PreKey,
    eka: &EphKey,
    ikb: &IdKey,
    opkb: &OneTimeKey,
) -> (r: Result<Vec<u8>, &'static str>)
    requires
        ika.private(),
        eka.private(),
    ensures
        r matches Ok(k) ==> k@.len() == 32,
{
    let signature = match p256::ecdsa::Signature::from_der(signature_der) {
        Ok(s) => s,
        Err(_) => {
            return Err("Signature couldn't be verified");
        },
    };
    match x3dh_ke::x3dh_a(&signature, &ika.raw, &spkb.raw, &eka.raw, &ikb.raw, &opkb.raw) {
        Ok(k) => Ok(k.to_vec()),
        Err(e) => Err(e),
    }
}

/// Relies on x3dh_ke's x3dh_b: Bob's side of the exchange, which performs no
/// signature check and cannot fail. The 32-byte shared secret equals Alice's
/// when run over the matching bundles. The private halves the computation
/// needs are guaranteed by the preconditions.
#[verifier::external_body]
fn x3dh_bob(
    ika: &IdKey,
    spkb: &PreKey,
    eka: &EphKey,
    ikb: &IdKey,
    opkb: &OneTimeKey,
) -> (r: Vec<u8>)
    requires
        spkb.private(),
        ikb.private(),
        opkb.private(),
    ensures
        r@.len() == 32,
{
    x3dh_ke::x3dh_b(&ika.raw, &spkb.raw, &eka.raw, &ikb.raw, &opkb.raw).to_vec()
}

impl IdKey {
    /// The private half is present.
    pub closed spec fn private(&self) -> bool {
        self.has_private
    }

    /// A fresh identity key.
    pub fn generate() -> (r: Self)
        ensures
            r.private(),
    {
        IdKey { raw: x3dh_ik_generate(), has_private: true }
    }

    /// A copy with only the public half.
    pub fn strip(&self) -> (r: Self)
        ensures
            !r.private(),
    {
        IdKey { raw: x3dh_ik_strip(&self.raw), has_private: false }
    }

    /// Serialise the key.
    pub fn to_bytes(&self) -> Vec<u8> {
        x3dh_ik_to_bytes(&self.raw)
    }

    /// Parse a serialised key; refuses bytes whose halves would not read
    /// back.
    pub fn from_bytes(d: &[u8]) -> Option<Self> {
        if !check_x3dh_key_bytes(d, 0u8) {
            return None;
        }
        match x3dh_ik_from_bytes(d) {
            Some((raw, has_private)) => Some(IdKey { raw, has_private }),
            None => None,
        }
    }
}

impl Clone for IdKey {
    /// An identical handle.
    fn clone(&self) -> (r: Self)
        ensures
            r.private() == self.private(),
    {
        IdKey { raw: x3dh_ik_clone(&self.raw), has_private: self.has_private }
    }
}

/// Relies on x3dh_ke's Clone for IdKey: an identical key.
#[verifier::external_body]
fn x3dh_ik_clone(k: &x3dh_ke::IdentityKey) -> (r: x3dh_ke::IdentityKey)
{
    k.clone()
}

impl Default for IdKey {
    /// A fresh identity key.
    fn default() -> (r: Self)
        ensures
            r.private(),
    {
        Self::generate()
    }
}

impl EphKey {
    /// The private half is present.
    pub closed spec fn private(&self) -> bool {
        self.has_private
    }

    /// A fresh ephemeral key.
    pub fn generate() -> (r: Self)
        ensures
            r.private(),
    {
        EphKey { raw: x3dh_ek_generate(), has_private: true }
    }

    /// A copy with only the public half.
    pub fn strip(&self) -> (r: Self)
        ensures
            !r.private(),
    {
        EphKey { raw: x3dh_ek_strip(&self.raw), has_private: false }
    }
}

impl PreKey {
    /// The private half is present.
    pub closed spec fn private(&self) -> bool {
        self.has_private
    }

    /// A fresh signed prekey.
    pub fn generate() -> (r: Self)
        ensures
            r.private(),
    {
        PreKey { raw: x3dh_spk_generate(), has_private: true }
    }

    /// A copy with only the public half.
    pub fn strip(&self) -> (r: Self)
        ensures
            !r.private(),
    {
        PreKey { raw: x3dh_spk_strip(&self.raw), has_private: false }
    }

    /// The public half's bytes, the message the identity key signs.
    pub fn pk_to_bytes(&self) -> Vec<u8> {
        x3dh_spk_pk_bytes(&self.raw)
    }
}

impl OneTimeKey {
    /// The private half is present.
    pub closed spec fn private(&self) -> bool {
        self.has_private
    }

    /// A fresh one-time prekey.
    pub fn generate() -> (r: Self)
        ensures
            r.private(),
    {
        OneTimeKey { raw: x3dh_opk_generate(), has_private: true }
    }

    /// A copy with only the public half.
    pub fn strip(&self) -> (r: Self)
        ensures
            !r.private(),
    {
        OneTimeKey { raw: x3dh_opk_strip(&self.raw), has_private: false }
    }
}

/// Alice's key bundle: her identity key and a fresh ephemeral key.
pub struct AliceKeyBundle {
    pub ik: IdKey,
    pub ek: EphKey,
}

impl AliceKeyBundle {
    /// Both private halves are present, so Alice can run her exchange.
    pub open spec fn private(&self) -> bool {
        self.ik.private() && self.ek.private()
    }

    /// A bundle around an identity key, with a fresh ephemeral key.
    pub fn new(ik: &IdKey) -> (r: AliceKeyBundle)
        ensures
            r.ik.private() == ik.private(),
            r.ek.private(),
    {
        AliceKeyBundle { ik: ik.clone(), ek: EphKey::generate() }
    }

    /// A copy with only public material, for transport.
    pub fn strip(&self) -> (r: AliceKeyBundle)
        ensures
            !r.ik.private(),
            !r.ek.private(),
    {
        AliceKeyBundle { ik: self.ik.strip(), ek: self.ek.strip() }
    }

    /// Alice's side of the exchange against Bob's (possibly stripped)
    /// bundle: checks Bob's prekey signature and derives the shared secret.
    pub fn key_exchange(&self, bob: &BobKeyBundle) -> (r: Result<Vec<u8>, &'static str>)
        requires
            self.private(),
        ensures
            r matches Ok(k) ==> k@.len() == 32,
    {
        x3dh_alice(bob.signature.as_slice(), &self.ik, &bob.spk, &self.ek, &bob.ik, &bob.opk)
    }
}

/// Bob's key bundle: identity key, signed prekey, one-time prekey, and the
/// identity key's DER signature over the prekey's public bytes.
pub struct BobKeyBundle {
    pub ik: IdKey,
    pub spk: PreKey,
    pub opk: OneTimeKey,
    pub signature: Vec<u8>,
}

impl BobKeyBundle {
    /// All private halves are present, so Bob can run his exchange.
    pub open spec fn private(&self) -> bool {
        self.ik.private() && self.spk.private() && self.opk.private()
    }

    /// A bundle around an identity key: fresh prekeys, and the signature of
    /// the signed prekey's public bytes under the identity key.
    pub fn new(ik: &IdKey) -> (r: BobKeyBundle)
        requires
            ik.private(),
        ensures
            r.private(),
            r.ik.private(),
    {
        let spk = PreKey::generate();
        let stripped_pre_key_bytes = spk.strip().pk_to_bytes();
        let opk = OneTimeKey::generate();
        let signature = x3dh_sign(ik, stripped_pre_key_bytes.as_slice());
        BobKeyBundle { ik: ik.clone(), spk, opk, signature }
    }

    /// A copy with only public material, for transport; the signature stays.
    pub fn strip(&self) -> (r: BobKeyBundle)
        ensures
            !r.private(),
    {
        BobKeyBundle {
            ik: self.ik.strip(),
            spk: self.spk.strip(),
            opk: self.opk.strip(),
            signature: slice_to_vec(self.signature.as_slice()),
        }
    }

    /// Bob's side of the exchange against Alice's (possibly stripped)
    /// bundle; no signature check, so it cannot fail.
    pub fn key_exchange(&self, alice: &AliceKeyBundle) -> (r: Vec<u8>)
        requires
            self.private(),
        ensures
            r@.len() == 32,
    {
        x3dh_bob(&alice.ik, &self.spk, &alice.ek, &self.ik, &self.opk)
    }
}

/// The serialised form of Bob's key bundle: each key's bytes and the
/// signature, length-prefixed.
pub struct BobKeyBundleBytes {
    pub ik: Vec<u8>,
    pub spk: Vec<u8>,
    pub opk: Vec<u8>,
    pub signature: Vec<u8>,
}

impl BobKeyBundleBytes {
    /// Serialise a bundle.
    pub fn from_bundle(b: &BobKeyBundle) -> BobKeyBundleBytes {
        BobKeyBundleBytes {
            ik: b.ik.to_bytes(),
            spk: x3dh_spk_to_bytes(&b.spk.raw),
            opk: x3dh_opk_to_bytes(&b.opk.raw),
            signature: slice_to_vec(b.signature.as_slice()),
        }
    }

    /// Parse the keys back into a bundle.
    pub fn to_bundle(&self) -> Option<BobKeyBundle> {
        let ik = match IdKey::from_bytes(self.ik.as_slice()) {
            Some(k) => k,
            None => {
                return None;
            },
        };
        if !check_x3dh_key_bytes(self.spk.as_slice(), 2u8) {
            return None;
        }
        let spk = match x3dh_spk_from_bytes(self.spk.as_slice()) {
            Some((raw, has_private)) => PreKey { raw, has_private },
            None => {
                return None;
            },
        };
        if !check_x3dh_key_bytes(self.opk.as_slice(), 3u8) {
            return None;
        }
        let opk = match x3dh_opk_from_bytes(self.opk.as_slice()) {
            Some((raw, has_private)) => OneTimeKey { raw, has_private },
            None => {
                return None;
            },
        };
        Some(
            BobKeyBundle {
                ik,
                spk,
                opk,
                signature: slice_to_vec(self.signature.as_slice()),
            },
        )
    }
}

/// The serialised form of Alice's key bundle.
pub struct AliceKeyBundleBytes {
    pub ik: Vec<u8>,
    pub ek: Vec<u8>,
}

impl AliceKeyBundleBytes {
    /// Serialise a bundle.
    pub fn from_bundle(b: &AliceKeyBundle) -> AliceKeyBundleBytes {
        AliceKeyBundleBytes { ik: b.ik.to_bytes(), ek: x3dh_ek_to_bytes(&b.ek.raw) }
    }

    /// Parse the keys back into a bundle.
    pub fn to_bundle(&self) -> Option<AliceKeyBundle> {
        let ik = match IdKey::from_bytes(self.ik.as_slice()) {
            Some(k) => k,
            None => {
                return None;
            },
        };
        if !check_x3dh_key_bytes(self.ek.as_slice(), 1u8) {
            return None;
        }
        let ek = match x3dh_ek_from_bytes(self.ek.as_slice()) {
            Some((raw, has_private)) => EphKey { raw, has_private },
            None => {
                return None;
            },
        };
        Some(AliceKeyBundle { ik, ek })
    }
}

/// Builds one side's bundle set for a session.
pub struct BundleBuilder {
    pub partner: Option<AliceBob>,
    pub number_shares: Option<usize>,
    pub identity_key: Option<IdKey>,
}

impl Default for BundleBuilder {
    /// An empty builder.
    fn default() -> (r: Self)
        ensures
            r.partner is None,
            r.number_shares is None,
            r.identity_key is None,
    {
        BundleBuilder { partner: None, number_shares: None, identity_key: None }
    }
}

impl BundleBuilder {
    /// Set the role.
    pub fn partner(self, partner: AliceBob) -> (r: Self)
        ensures
            r.partner == Some(partner),
            r.number_shares == self.number_shares,
            r.identity_key == self.identity_key,
    {
        BundleBuilder { partner: Some(partner), ..self }
    }

    /// Set the share count.
    pub fn number_shares(self, number_shares: usize) -> (r: Self)
        ensures
            r.number_shares == Some(number_shares),
            r.partner == self.partner,
            r.identity_key == self.identity_key,
    {
        BundleBuilder { number_shares: Some(number_shares), ..self }
    }

    /// Set the identity key.
    pub fn identity_key(self, identity_key: IdKey) -> (r: Self)
        ensures
            r.identity_key matches Some(k) && k.private() == identity_key.private(),
            r.partner == self.partner,
            r.number_shares == self.number_shares,
    {
        BundleBuilder { identity_key: Some(identity_key), ..self }
    }

    /// Draw the fresh key material for one side: one key bundle for the
    /// root key, one per header key, and one per address ratchet. Fails on
    /// any field left unset.
    pub fn build(self) -> (r: Result<PartnerBundle, BundleBuilderError>)
        requires
            self.identity_key matches Some(k) ==> k.private(),
        ensures
            self.partner is None <==> r == Err::<PartnerBundle, BundleBuilderError>(
                BundleBuilderError::Partner,
            ),
            self.partner is Some && self.identity_key is None <==> r == Err::<
                PartnerBundle,
                BundleBuilderError,
            >(BundleBuilderError::IdKey),
            self.partner is Some && self.identity_key is Some && self.number_shares is None <==> r
                == Err::<PartnerBundle, BundleBuilderError>(BundleBuilderError::NumberShares),
            r matches Ok(b) ==> (match b {
                PartnerBundle::Alice(ab) => self.partner == Some(AliceBob::Alice)
                    && ab.number_shares == self.number_shares->Some_0 && ab.private()
                    && ab.address_rks@.len() == ab.number_shares,
                PartnerBundle::Bob(bb) => self.partner == Some(AliceBob::Bob) && bb.number_shares
                    == self.number_shares->Some_0 && bb.private() && bb.address_rks@.len()
                    == bb.number_shares,
            }),
    {
        let partner = match self.partner {
            Some(d) => d,
            None => {
                return Err(BundleBuilderError::Partner);
            },
        };
        let identity_key = match self.identity_key {
            Some(d) => d,
            None => {
                return Err(BundleBuilderError::IdKey);
            },
        };
        let number_shares = match self.number_shares {
            Some(d) => d,
            None => {
                return Err(BundleBuilderError::NumberShares);
            },
        };
        match partner {
            AliceBob::Alice => {
                let enc_rk = AliceKeyBundle::new(&identity_key);
                let shka = AliceKeyBundle::new(&identity_key);
                let snhkb = AliceKeyBundle::new(&identity_key);
                let mut address_rks: Vec<AliceKeyBundle> = Vec::new();
                let mut k: usize = 0;
                while k < number_shares
                    invariant
                        identity_key.private(),
                        0 <= k <= number_shares,
                        address_rks@.len() == k as int,
                        forall|i: int|
                            0 <= i < k ==> (#[trigger] address_rks@[i]).private(),
                    decreases number_shares - k,
                {
                    address_rks.push(AliceKeyBundle::new(&identity_key));
                    k = k + 1;
                }
                let alice_bundle = AliceBundle { enc_rk, shka, snhkb, address_rks, number_shares };
                Ok(PartnerBundle::Alice(Box::new(alice_bundle)))
            },
            AliceBob::Bob => {
                let enc_rk = BobKeyBundle::new(&identity_key);
                let shka = BobKeyBundle::new(&identity_key);
                let snhkb = BobKeyBundle::new(&identity_key);
                let mut address_rks: Vec<BobKeyBundle> = Vec::new();
                let mut k: usize = 0;
                while k < number_shares
                    invariant
                        identity_key.private(),
                        0 <= k <= number_shares,
                        address_rks@.len() == k as int,
                        forall|i: int|
                            0 <= i < k ==> (#[trigger] address_rks@[i]).private(),
                    decreases number_shares - k,
                {
                    address_rks.push(BobKeyBundle::new(&identity_key));
                    k = k + 1;
                }
                let bob_bundle = BobBundle {
                    enc_rk,
                    enc_pk: None,
                    shka,
                    snhkb,
                    address_rks,
                    address_pks: None,
                    number_shares,
                };
                Ok(PartnerBundle::Bob(Box::new(bob_bundle)))
            },
        }
    }
}

/// One side's bundle set.
pub enum PartnerBundle {
    Alice(Box<AliceBundle>),
    Bob(Box<BobBundle>),
}

/// Alice's bundle set: one key bundle per session secret.
pub struct AliceBundle {
    pub enc_rk: AliceKeyBundle,
    pub shka: AliceKeyBundle,
    pub snhkb: AliceKeyBundle,
    pub address_rks: Vec<AliceKeyBundle>,
    pub number_shares: usize,
}

impl AliceBundle {
    /// Every key bundle still holds its private halves.
    pub open spec fn private(&self) -> bool {
        &&& self.enc_rk.private()
        &&& self.shka.private()
        &&& self.snhkb.private()
        &&& forall|i: int|
            0 <= i < self.address_rks@.len() ==> (#[trigger] self.address_rks@[i]).private()
    }

    /// Run the session bootstrap against Bob's answered bundle: one key
    /// exchange per secret, then the Magic Ratchet initialiser. Fails when
    /// the share counts differ or any signature check fails.
    pub fn init(&self, bob_bundle: &BobBundle) -> (r: Result<
        (AliceBob, MagicRatchet),
        PartnerBundleError,
    >)
        requires
            self.private(),
            self.address_rks@.len() == self.number_shares,
            1 <= self.number_shares <= 255,
            bob_bundle.answered(),
            bob_bundle.address_rks@.len() == bob_bundle.number_shares,
        ensures
            r matches Ok(p) ==> p.0 == AliceBob::Alice && p.1.wf() && p.1.can_send()
                && p.1.counters_ok(),
            r == Err::<(AliceBob, MagicRatchet), PartnerBundleError>(
                PartnerBundleError::NumberOfSharesDifferent(
                    self.number_shares,
                    bob_bundle.number_shares,
                ),
            ) <==> self.number_shares != bob_bundle.number_shares,
    {
        if self.number_shares != bob_bundle.number_shares {
            return Err(
                PartnerBundleError::NumberOfSharesDifferent(
                    self.number_shares,
                    bob_bundle.number_shares,
                ),
            );
        }
        let enc_rk = match self.enc_rk.key_exchange(&bob_bundle.enc_rk) {
            Ok(d) => d,
            Err(e) => {
                return Err(PartnerBundleError::KeyExchangeError(e));
            },
        };
        let shka = match self.shka.key_exchange(&bob_bundle.shka) {
            Ok(d) => d,
            Err(e) => {
                return Err(PartnerBundleError::KeyExchangeError(e));
            },
        };
        let snhkb = match self.snhkb.key_exchange(&bob_bundle.snhkb) {
            Ok(d) => d,
            Err(e) => {
                return Err(PartnerBundleError::KeyExchangeError(e));
            },
        };
        let share_number = self.number_shares;
        let mut address_rks: Vec<Vec<u8>> = Vec::new();
        let mut k: usize = 0;
        while k < share_number
            invariant
                self.private(),
                self.number_shares == bob_bundle.number_shares,
                self.address_rks@.len() == share_number,
                bob_bundle.address_rks@.len() == share_number,
                0 <= k <= share_number,
                address_rks@.len() == k as int,
                forall|i: int|
                    0 <= i < k ==> (#[trigger] address_rks@[i])@.len() == 32,
            decreases share_number - k,
        {
            let secret = match self.address_rks[k].key_exchange(&bob_bundle.address_rks[k]) {
                Ok(d) => d,
                Err(e) => {
                    return Err(PartnerBundleError::KeyExchangeError(e));
                },
            };
            address_rks.push(secret);
            k = k + 1;
        }
        let enc_pk = match &bob_bundle.enc_pk {
            Some(p) => p,
            None => {
                proof {
                    assert(false);
                }
                unreached()
            },
        };
        let address_pks = match &bob_bundle.address_pks {
            Some(p) => p,
            None => {
                proof {
                    assert(false);
                }
                unreached()
            },
        };
        let magic_ratchet = MagicRatchet::init_alice(
            enc_rk.as_slice(),
            enc_pk.as_slice(),
            shka.as_slice(),
            snhkb.as_slice(),
            share_number,
            &address_rks,
            address_pks,
        );
        Ok((AliceBob::Alice, magic_ratchet))
    }

    /// A copy with only public material, for transport.
    pub fn strip(&self) -> (r: AliceBundle)
        ensures
            r.number_shares == self.number_shares,
            r.address_rks@.len() == self.address_rks@.len(),
    {
        let mut address_rks: Vec<AliceKeyBundle> = Vec::new();
        let mut k: usize = 0;
        while k < self.address_rks.len()
            invariant
                0 <= k <= self.address_rks@.len(),
                address_rks@.len() == k as int,
            decreases self.address_rks@.len() - k,
        {
            address_rks.push(self.address_rks[k].strip());
            k = k + 1;
        }
        AliceBundle {
            enc_rk: self.enc_rk.strip(),
            shka: self.shka.strip(),
            snhkb: self.snhkb.strip(),
            address_rks,
            number_shares: self.number_shares,
        }
    }

    /// Serialise the bundle: each key bundle as two length-prefixed
    /// segments, then the count of address bundles.
    pub fn to_bytes(&self) -> Vec<u8> {
        let mut out: Vec<u8> = Vec::new();
        write_alice_key_bundle(&mut out, &self.enc_rk);
        write_alice_key_bundle(&mut out, &self.shka);
        write_alice_key_bundle(&mut out, &self.snhkb);
        crate::bytes::write_u64_le(&mut out, self.address_rks.len() as u64);
        let mut k: usize = 0;
        while k < self.address_rks.len()
            invariant
                0 <= k <= self.address_rks@.len(),
            decreases self.address_rks@.len() - k,
        {
            write_alice_key_bundle(&mut out, &self.address_rks[k]);
            k = k + 1;
        }
        crate::bytes::write_u64_le(&mut out, self.number_shares as u64);
        out
    }

    /// Parse a serialised bundle; refuses malformed keys and trailing bytes.
    pub fn from_bytes(inp: &[u8]) -> Option<AliceBundle> {
        let (enc_rk, i1) = read_alice_key_bundle(inp, 0)?;
        let (shka, i2) = read_alice_key_bundle(inp, i1)?;
        let (snhkb, i3) = read_alice_key_bundle(inp, i2)?;
        let (count, mut cur) = crate::bytes::read_u64_le(inp, i3)?;
        let mut address_rks: Vec<AliceKeyBundle> = Vec::new();
        let mut taken: u64 = 0;
        while taken < count
            invariant
                0 <= taken <= count,
                cur <= inp@.len(),
            decreases count - taken,
        {
            let (b, next) = match read_alice_key_bundle(inp, cur) {
                None => {
                    return None;
                },
                Some(p) => p,
            };
            address_rks.push(b);
            cur = next;
            taken = taken + 1;
        }
        let (ns, end) = crate::bytes::read_u64_le(inp, cur)?;
        if end != inp.len() {
            return None;
        }
        if ns > usize::MAX as u64 {
            return None;
        }
        Some(
            AliceBundle {
                enc_rk,
                shka,
                snhkb,
                address_rks,
                number_shares: ns as usize,
            },
        )
    }
}

/// Append one of Alice's key bundles as two segments.
fn write_alice_key_bundle(out: &mut Vec<u8>, b: &AliceKeyBundle) {
    let bytes = AliceKeyBundleBytes::from_bundle(b);
    write_seg(out, bytes.ik.as_slice());
    write_seg(out, bytes.ek.as_slice());
}

/// Read one of Alice's key bundles.
fn read_alice_key_bundle(s: &[u8], pos: usize) -> (r: Option<(AliceKeyBundle, usize)>)
    requires
        pos <= s.len(),
    ensures
        r matches Some(p) ==> p.1 <= s.len(),
{
    let (ik, i1) = match read_seg(s, pos) {
        None => {
            return None;
        },
        Some(p) => p,
    };
    let (ek, i2) = match read_seg(s, i1) {
        None => {
            return None;
        },
        Some(p) => p,
    };
    let parsed = AliceKeyBundleBytes { ik, ek };
    match parsed.to_bundle() {
        Some(b) => Some((b, i2)),
        None => None,
    }
}

/// Append one of Bob's key bundles as four segments.
fn write_bob_key_bundle(out: &mut Vec<u8>, b: &BobKeyBundle) {
    let bytes = BobKeyBundleBytes::from_bundle(b);
    write_seg(out, bytes.ik.as_slice());
    write_seg(out, bytes.spk.as_slice());
    write_seg(out, bytes.opk.as_slice());
    write_seg(out, bytes.signature.as_slice());
}

/// Read one of Bob's key bundles.
fn read_bob_key_bundle(s: &[u8], pos: usize) -> (r: Option<(BobKeyBundle, usize)>)
    requires
        pos <= s.len(),
    ensures
        r matches Some(p) ==> p.1 <= s.len(),
{
    let (ik, i1) = match read_seg(s, pos) {
        None => {
            return None;
        },
        Some(p) => p,
    };
    let (spk, i2) = match read_seg(s, i1) {
        None => {
            return None;
        },
        Some(p) => p,
    };
    let (opk, i3) = match read_seg(s, i2) {
        None => {
            return None;
        },
        Some(p) => p,
    };
    let (signature, i4) = match read_seg(s, i3) {
        None => {
            return None;
        },
        Some(p) => p,
    };
    let parsed = BobKeyBundleBytes { ik, spk, opk, signature };
    match parsed.to_bundle() {
        Some(b) => Some((b, i4)),
        None => None,
    }
}

/// Bob's bundle set; after `init` it also carries the public keys Alice
/// needs to aim her ratchets at him.
pub struct BobBundle {
    pub enc_rk: BobKeyBundle,
    pub enc_pk: Option<Vec<u8>>,
    pub shka: BobKeyBundle,
    pub snhkb: BobKeyBundle,
    pub address_rks: Vec<BobKeyBundle>,
    pub address_pks: Option<Vec<Vec<u8>>>,
    pub number_shares: usize,
}

impl BobBundle {
    /// Every key bundle still holds its private halves.
    pub open spec fn private(&self) -> bool {
        &&& self.enc_rk.private()
        &&& self.shka.private()
        &&& self.snhkb.private()
        &&& forall|i: int|
            0 <= i < self.address_rks@.len() ==> (#[trigger] self.address_rks@[i]).private()
    }

    /// Bob has run his side: his ratchet public keys are present and valid.
    pub open spec fn answered(&self) -> bool {
        &&& self.enc_pk matches Some(p) && p256_valid_pk(p@) && p@.len() <= u64::MAX
        &&& self.address_pks matches Some(ps) && ps@.len() == self.number_shares && forall|i: int|
            0 <= i < ps@.len() ==> p256_valid_pk((#[trigger] ps@[i])@) && (ps@[i])@.len()
                <= u64::MAX
    }

    /// Run the session bootstrap against Alice's bundle: one key exchange
    /// per secret, then the Magic Ratchet initialiser, leaving the ratchet
    /// public keys in the bundle for Alice. Fails when the share counts
    /// differ.
    pub fn init(&mut self, alice_bundle: &AliceBundle) -> (r: Result<
        (AliceBob, MagicRatchet),
        PartnerBundleError,
    >)
        requires
            old(self).private(),
            old(self).address_rks@.len() == old(self).number_shares,
            1 <= old(self).number_shares <= 255,
            alice_bundle.address_rks@.len() == alice_bundle.number_shares,
        ensures
            r is Ok <==> old(self).number_shares == alice_bundle.number_shares,
            r matches Ok(p) ==> p.0 == AliceBob::Bob && p.1.wf() && p.1.counters_ok()
                && final(self).answered(),
            r is Err ==> r == Err::<(AliceBob, MagicRatchet), PartnerBundleError>(
                PartnerBundleError::NumberOfSharesDifferent(
                    old(self).number_shares,
                    alice_bundle.number_shares,
                ),
            ) && *final(self) == *old(self),
    {
        if self.number_shares != alice_bundle.number_shares {
            return Err(
                PartnerBundleError::NumberOfSharesDifferent(
                    self.number_shares,
                    alice_bundle.number_shares,
                ),
            );
        }
        let enc_rk = self.enc_rk.key_exchange(&alice_bundle.enc_rk);
        let shka = self.shka.key_exchange(&alice_bundle.shka);
        let snhkb = self.snhkb.key_exchange(&alice_bundle.snhkb);
        let share_number = self.number_shares;
        let mut address_rks: Vec<Vec<u8>> = Vec::new();
        let mut k: usize = 0;
        while k < share_number
            invariant
                old(self) == self,
                self.private(),
                self.address_rks@.len() == share_number,
                alice_bundle.address_rks@.len() == share_number,
                0 <= k <= share_number,
                address_rks@.len() == k as int,
                forall|i: int|
                    0 <= i < k ==> (#[trigger] address_rks@[i])@.len() == 32,
            decreases share_number - k,
        {
            let secret = self.address_rks[k].key_exchange(&alice_bundle.address_rks[k]);
            address_rks.push(secret);
            k = k + 1;
        }
        let (magic_ratchet, pk, pks) = MagicRatchet::init_bob(
            enc_rk.as_slice(),
            shka.as_slice(),
            snhkb.as_slice(),
            share_number,
            &address_rks,
        );
        self.enc_pk = Some(pk);
        self.address_pks = Some(pks);
        Ok((AliceBob::Bob, magic_ratchet))
    }

    /// A copy with only public material, for transport; the ratchet public
    /// keys travel along.
    pub fn strip(&self) -> (r: BobBundle)
        ensures
            r.number_shares == self.number_shares,
            r.address_rks@.len() == self.address_rks@.len(),
            self.answered() ==> r.answered(),
    {
        let mut address_rks: Vec<BobKeyBundle> = Vec::new();
        let mut k: usize = 0;
        while k < self.address_rks.len()
            invariant
                0 <= k <= self.address_rks@.len(),
                address_rks@.len() == k as int,
            decreases self.address_rks@.len() - k,
        {
            address_rks.push(self.address_rks[k].strip());
            k = k + 1;
        }
        BobBundle {
            enc_rk: self.enc_rk.strip(),
            enc_pk: crate::enc_ratchet::copy_opt_bytes(&self.enc_pk),
            shka: self.shka.strip(),
            snhkb: self.snhkb.strip(),
            address_rks,
            address_pks: copy_opt_tuple(&self.address_pks),
            number_shares: self.number_shares,
        }
    }

    /// Serialise the bundle, the ratchet public keys included when present.
    pub fn to_bytes(&self) -> Vec<u8> {
        let mut out: Vec<u8> = Vec::new();
        write_bob_key_bundle(&mut out, &self.enc_rk);
        write_opt_seg(&mut out, &self.enc_pk);
        write_bob_key_bundle(&mut out, &self.shka);
        write_bob_key_bundle(&mut out, &self.snhkb);
        crate::bytes::write_u64_le(&mut out, self.address_rks.len() as u64);
        let mut k: usize = 0;
        while k < self.address_rks.len()
            invariant
                0 <= k <= self.address_rks@.len(),
            decreases self.address_rks@.len() - k,
        {
            write_bob_key_bundle(&mut out, &self.address_rks[k]);
            k = k + 1;
        }
        match &self.address_pks {
            None => out.push(0u8),
            Some(pks) => {
                out.push(1u8);
                crate::bytes::write_u64_le(&mut out, pks.len() as u64);
                let mut t: usize = 0;
                while t < pks.len()
                    invariant
                        0 <= t <= pks@.len(),
                    decreases pks@.len() - t,
                {
                    write_seg(&mut out, pks[t].as_slice());
                    t = t + 1;
                }
            },
        }
        crate::bytes::write_u64_le(&mut out, self.number_shares as u64);
        out
    }

    /// Parse a serialised bundle; refuses malformed keys, invalid ratchet
    /// public keys and trailing bytes.
    pub fn from_bytes(inp: &[u8]) -> (r: Option<BobBundle>)
        ensures
            r matches Some(b) ==> (b.enc_pk is Some && b.address_pks is Some
                && b.address_pks->Some_0@.len() == b.number_shares ==> b.answered()),
    {
        let (enc_rk, i1) = read_bob_key_bundle(inp, 0)?;
        let (enc_pk, i2) = crate::bytes::read_opt_seg(inp, i1)?;
        match &enc_pk {
            None => {},
            Some(p) => {
                if !crate::dh::check_public_key(p.as_slice()) {
                    return None;
                }
            },
        }
        let (shka, i3) = read_bob_key_bundle(inp, i2)?;
        let (snhkb, i4) = read_bob_key_bundle(inp, i3)?;
        let (count, mut cur) = crate::bytes::read_u64_le(inp, i4)?;
        let mut address_rks: Vec<BobKeyBundle> = Vec::new();
        let mut taken: u64 = 0;
        while taken < count
            invariant
                0 <= taken <= count,
                cur <= inp@.len(),
            decreases count - taken,
        {
            let (b, next) = match read_bob_key_bundle(inp, cur) {
                None => {
                    return None;
                },
                Some(p) => p,
            };
            address_rks.push(b);
            cur = next;
            taken = taken + 1;
        }
        if cur >= inp.len() {
            return None;
        }
        let tag = inp[cur];
        let mut address_pks: Option<Vec<Vec<u8>>> = None;
        let mut cur2 = cur + 1;
        if tag == 1u8 {
            let (pcount, mut pc) = crate::bytes::read_u64_le(inp, cur2)?;
            let mut pks: Vec<Vec<u8>> = Vec::new();
            let mut got: u64 = 0;
            while got < pcount
                invariant
                    0 <= got <= pcount,
                    pc <= inp@.len(),
                    forall|i: int|
                        0 <= i < pks@.len() ==> p256_valid_pk((#[trigger] pks@[i])@) && (
                        pks@[i])@.len() <= u64::MAX,
                decreases pcount - got,
            {
                let (p, next) = match read_seg(inp, pc) {
                    None => {
                        return None;
                    },
                    Some(pr) => pr,
                };
                if !crate::dh::check_public_key(p.as_slice()) {
                    return None;
                }
                pks.push(p);
                pc = next;
                got = got + 1;
            }
            address_pks = Some(pks);
            cur2 = pc;
        } else if tag != 0u8 {
            return None;
        }
        let (ns, end) = crate::bytes::read_u64_le(inp, cur2)?;
        if end != inp.len() {
            return None;
        }
        if ns > usize::MAX as u64 {
            return None;
        }
        Some(
            BobBundle {
                enc_rk,
                enc_pk,
                shka,
                snhkb,
                address_rks,
                address_pks,
                number_shares: ns as usize,
            },
        )
    }
}

/// Copy an optional list of byte strings.
fn copy_opt_tuple(o: &Option<Vec<Vec<u8>>>) -> (r: Option<Vec<Vec<u8>>>)
    ensures
        r is Some <==> o is Some,
        r matches Some(ts) ==> {
            &&& o matches Some(os)
            &&& ts@.len() == os@.len()
            &&& forall|i: int| 0 <= i < ts@.len() ==> (#[trigger] ts@[i])@ == (os@[i])@
        },
{
    match o {
        None => None,
        Some(ts) => {
            let mut out: Vec<Vec<u8>> = Vec::new();
            let mut k: usize = 0;
            while k < ts.len()
                invariant
                    0 <= k <= ts@.len(),
                    out@.len() == k as int,
                    forall|i: int| 0 <= i < k ==> (#[trigger] out@[i])@ == (ts@[i])@,
                decreases ts@.len() - k,
            {
                out.push(slice_to_vec(ts[k].as_slice()));
                k = k + 1;
            }
            Some(out)
        },
    }
}

} // verus!
