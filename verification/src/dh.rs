//! NIST P-256 Diffie-Hellman key agreement.
//!
//! Inside the crate a secret key is its 32 big-endian scalar bytes and a
//! public key is its 33-byte compressed SEC1 encoding; p256 does the curve
//! arithmetic behind trusted wrappers. The uninterpreted names tie a public
//! key and a shared secret to the bytes they are derived from, so ratchet
//! contracts can state key agreement exactly.

use vstd::prelude::*;
use vstd::slice::slice_to_vec;

verus! {

/// Whether 32 bytes are a valid P-256 secret scalar (what p256's
/// SecretKey::from_bytes accepts).
pub uninterp spec fn p256_valid_sk(sk: Seq<u8>) -> bool;

/// Whether bytes are a valid SEC1 public-key encoding (what p256's
/// PublicKey::from_sec1_bytes accepts).
pub uninterp spec fn p256_valid_pk(pk: Seq<u8>) -> bool;

/// The compressed SEC1 encoding of the public key belonging to a secret
/// scalar, as a function of the scalar bytes alone.
pub uninterp spec fn p256_pk_of(sk: Seq<u8>) -> Seq<u8>;

/// The ECDH shared secret of a secret scalar and a public key, as a function
/// of their bytes alone.
pub uninterp spec fn p256_dh_of(sk: Seq<u8>, pk: Seq<u8>) -> Seq<u8>;

/// Relies on p256's SecretKey::random and public_key: a fresh key pair,
/// returned as scalar bytes and compressed SEC1 point bytes. The scalar
/// re-parses (to_bytes inverts from_bytes), the point is 33 bytes and
/// re-parses, and the point is the one derived from the scalar.
#[verifier::external_body]
fn p256_generate() -> (r: (Vec<u8>, Vec<u8>))
    ensures
        r.0@.len() == 32,
        p256_valid_sk(r.0@),
        r.1@ == p256_pk_of(r.0@),
        r.1@.len() == 33,
        p256_valid_pk(r.1@),
{
    let secret = p256::SecretKey::random(&mut rand_core::OsRng);
    let sk = secret.to_bytes().to_vec();
    let pk = p256::elliptic_curve::sec1::ToEncodedPoint::to_encoded_point(
        &secret.public_key(),
        true,
    ).as_bytes().to_vec();
    (sk, pk)
}

/// Relies on p256's SecretKey::from_bytes and public_key: recovers the
/// compressed public key of a secret scalar, or nothing when the bytes are
/// not a valid scalar.
#[verifier::external_body]
fn p256_public_of(sk: &[u8]) -> (r: Option<Vec<u8>>)
    ensures
        r is Some <==> p256_valid_sk(sk@),
        r matches Some(pk) ==> pk@ == p256_pk_of(sk@) && pk@.len() == 33 && p256_valid_pk(pk@),
{
    let secret = match p256::SecretKey::from_bytes(sk) {
        Ok(s) => s,
        Err(_) => {
            return None;
        },
    };
    let pk = p256::elliptic_curve::sec1::ToEncodedPoint::to_encoded_point(
        &secret.public_key(),
        true,
    ).as_bytes().to_vec();
    Some(pk)
}

/// Relies on p256's PublicKey::from_sec1_bytes: whether bytes encode a valid
/// public key.
#[verifier::external_body]
fn p256_check_pk(pk: &[u8]) -> (r: bool)
    ensures
        r == p256_valid_pk(pk@),
{
    p256::PublicKey::from_sec1_bytes(pk).is_ok()
}

/// Relies on p256's SecretKey::from_bytes: whether bytes encode a valid
/// secret scalar.
#[verifier::external_body]
fn p256_check_sk(sk: &[u8]) -> (r: bool)
    ensures
        r == p256_valid_sk(sk@),
{
    p256::SecretKey::from_bytes(sk).is_ok()
}

/// Relies on p256's ecdh::diffie_hellman: the 32-byte shared secret of a
/// valid secret scalar and a valid public key, a function of the two byte
/// strings alone. The last clause is the documented point of key agreement:
/// when the remote point is some scalar's public key, both sides derive the
/// same secret (the shared x-coordinate of the product point).
#[verifier::external_body]
fn p256_agree(sk: &[u8], pk: &[u8]) -> (r: Vec<u8>)
    requires
        p256_valid_sk(sk@),
        p256_valid_pk(pk@),
    ensures
        r@ == p256_dh_of(sk@, pk@),
        r@.len() == 32,
        forall|sk2: Seq<u8>|
            p256_valid_sk(sk2) && pk@ == p256_pk_of(sk2) ==> r@ == #[trigger] p256_dh_of(
                sk2,
                p256_pk_of(sk@),
            ),
{
    let secret = p256::SecretKey::from_bytes(sk).expect("checked by the precondition");
    let public = p256::PublicKey::from_sec1_bytes(pk).expect("checked by the precondition");
    p256::elliptic_curve::ecdh::diffie_hellman(
        secret.to_secret_scalar(),
        public.as_affine(),
    ).as_bytes().to_vec()
}

/// What makes scalar and point bytes a real key pair: a valid 32-byte
/// scalar whose own 33-byte compressed public key the point bytes are.
pub open spec fn keypair_wf(sk: Seq<u8>, pk: Seq<u8>) -> bool {
    &&& sk.len() == 32
    &&& p256_valid_sk(sk)
    &&& pk == p256_pk_of(sk)
    &&& pk.len() == 33
    &&& p256_valid_pk(pk)
}

/// A local Diffie-Hellman key pair: the secret scalar bytes and the
/// compressed encoding of the matching public key.
#[derive(Debug, Clone)]
pub struct DhKeyPair {
    pub private_key: Vec<u8>,
    pub public_key: Vec<u8>,
}

impl View for DhKeyPair {
    type V = (Seq<u8>, Seq<u8>);

    open spec fn view(&self) -> (Seq<u8>, Seq<u8>) {
        (self.private_key@, self.public_key@)
    }
}

impl DhKeyPair {
    /// The pair is as `p256_generate` made it: a valid scalar with its own
    /// public key.
    pub open spec fn wf(&self) -> bool {
        keypair_wf(self.private_key@, self.public_key@)
    }

    /// Generate a fresh key pair.
    pub fn new() -> (r: DhKeyPair)
        ensures
            r.wf(),
    {
        let (sk, pk) = p256_generate();
        DhKeyPair { private_key: sk, public_key: pk }
    }

    /// The ECDH shared secret with a remote public key; when that key is
    /// some scalar's public key, the result is what that scalar's owner
    /// derives against our public key.
    pub fn key_agreement(&self, public_key: &[u8]) -> (r: Vec<u8>)
        requires
            self.wf(),
            p256_valid_pk(public_key@),
        ensures
            r@ == p256_dh_of(self.private_key@, public_key@),
            r@.len() == 32,
            forall|sk2: Seq<u8>|
                p256_valid_sk(sk2) && public_key@ == p256_pk_of(sk2) ==> r@
                    == #[trigger] p256_dh_of(sk2, self.public_key@),
    {
        p256_agree(self.private_key.as_slice(), public_key)
    }

    /// The bytes of the public half.
    pub fn ex_public_key_bytes(&self) -> (r: Vec<u8>)
        ensures
            r@ == self.public_key@,
    {
        slice_to_vec(self.public_key.as_slice())
    }

    /// An exact copy of the pair.
    pub fn duplicate(&self) -> (r: DhKeyPair)
        ensures
            r@ == self@,
    {
        DhKeyPair {
            private_key: slice_to_vec(self.private_key.as_slice()),
            public_key: slice_to_vec(self.public_key.as_slice()),
        }
    }

    /// Rebuild a pair from stored scalar bytes, recomputing and checking the
    /// public half.
    pub fn from_private_bytes(sk: &[u8]) -> (r: Option<DhKeyPair>)
        ensures
            r is Some <==> (p256_valid_sk(sk@) && sk@.len() == 32),
            r matches Some(p) ==> p.wf() && p.private_key@ == sk@,
    {
        if sk.len() != 32 {
            return None;
        }
        match p256_public_of(sk) {
            None => None,
            Some(pk) => Some(DhKeyPair { private_key: slice_to_vec(sk), public_key: pk }),
        }
    }
}

impl PartialEq for DhKeyPair {
    fn eq(&self, other: &Self) -> (r: bool) {
        crate::bytes::bytes_eq(self.private_key.as_slice(), other.private_key.as_slice())
            && crate::bytes::bytes_eq(self.public_key.as_slice(), other.public_key.as_slice())
    }
}

impl vstd::std_specs::cmp::PartialEqSpecImpl for DhKeyPair {
    open spec fn obeys_eq_spec() -> bool {
        true
    }

    open spec fn eq_spec(&self, other: &Self) -> bool {
        self.private_key@ == other.private_key@ && self.public_key@ == other.public_key@
    }
}

impl Default for DhKeyPair {
    /// A fresh random pair.
    fn default() -> (r: Self)
        ensures
            r.wf(),
    {
        Self::new()
    }
}

/// Whether a remote public key is acceptable: a valid SEC1 encoding.
pub fn check_public_key(pk: &[u8]) -> (r: bool)
    ensures
        r == p256_valid_pk(pk@),
{
    p256_check_pk(pk)
}

/// Whether bytes are a valid secret scalar.
pub(crate) fn check_secret_key(sk: &[u8]) -> (r: bool)
    ensures
        r == p256_valid_sk(sk@),
{
    p256_check_sk(sk)
}

/// An ephemeral shared secret between two fresh pairs.
pub fn gen_shared_secret() -> (r: Vec<u8>)
    ensures
        r@.len() == 32,
{
    let alice_pair = DhKeyPair::new();
    let bob_pair = DhKeyPair::new();
    alice_pair.key_agreement(bob_pair.public_key.as_slice())
}

/// A fresh key pair.
pub fn gen_key_pair() -> (r: DhKeyPair)
    ensures
        r.wf(),
{
    DhKeyPair::new()
}

} // verus!
