//! The two key-derivation functions of the Double Ratchet.
//!
//! `kdf_rk` advances a root key from a Diffie-Hellman output (HKDF with
//! SHA-512); `kdf_ck` advances a chain key and yields a message key (one
//! HMAC-SHA-512 keyed by the chain key, split in two halves). Both are pure
//! functions of their inputs, named by uninterpreted spec functions so that
//! every caller's contract can speak of the derived keys exactly.

use hmac::KeyInit;
use hmac::Mac;
use vstd::prelude::*;
use vstd::slice::{slice_subrange, slice_to_vec};

verus! {

/// The 64-byte HMAC-SHA-512 tag over the empty message, as a function of the
/// key alone.
pub uninterp spec fn hmac_sha512_of(key: Seq<u8>) -> Seq<u8>;

/// The HKDF-SHA-512 extract-then-expand output, as a function of salt, input
/// key material, info string and output length alone.
pub uninterp spec fn hkdf_sha512_of(salt: Seq<u8>, ikm: Seq<u8>, info: Seq<u8>, n: nat) -> Seq<u8>;

/// Relies on hmac's Hmac over sha2's Sha512, keyed by `key`, finalised over
/// the empty message: a 64-byte tag that depends on the key alone. HMAC
/// accepts keys of any length, so the construction cannot fail.
#[verifier::external_body]
fn hmac_sha512(key: &[u8]) -> (r: Vec<u8>)
    ensures
        r@ == hmac_sha512_of(key@),
        r@.len() == 64,
{
    let mac = hmac::Hmac::<sha2::Sha512>::new_from_slice(key).expect("any key length is accepted");
    mac.finalize().into_bytes().to_vec()
}

/// Relies on hkdf's Hkdf over sha2's Sha512: extract with `salt` and `ikm`,
/// then expand with `info` to `n` bytes. The output depends on the arguments
/// alone; expand fails only for outputs over 255 hash lengths, which the
/// precondition rules out.
#[verifier::external_body]
fn hkdf_sha512(salt: &[u8], ikm: &[u8], info: &[u8], n: usize) -> (r: Vec<u8>)
    requires
        n <= 16320,
    ensures
        r@ == hkdf_sha512_of(salt@, ikm@, info@, n as nat),
        r@.len() == n,
{
    let h = hkdf::Hkdf::<sha2::Sha512>::new(Some(salt), ikm);
    let mut okm = vec![0u8; n];
    h.expand(info, &mut okm).expect("output length is within bounds");
    okm
}

/// The domain-separation info string of the root-key derivation.
pub open spec fn root_info_spec() -> Seq<u8> {
    seq![0x52u8, 0x6f, 0x6f, 0x74, 0x20, 0x4b, 0x65, 0x79, 0x20, 0x49, 0x6e, 0x66, 0x6f]
}

fn root_info() -> (r: Vec<u8>)
    ensures
        r@ == root_info_spec(),
{
    let mut v: Vec<u8> = Vec::new();
    v.push(0x52);
    v.push(0x6f);
    v.push(0x6f);
    v.push(0x74);
    v.push(0x20);
    v.push(0x4b);
    v.push(0x65);
    v.push(0x79);
    v.push(0x20);
    v.push(0x49);
    v.push(0x6e);
    v.push(0x66);
    v.push(0x6f);
    assert(v@ =~= root_info_spec());
    v
}

/// The new chain key after one symmetric step: the first half of the HMAC tag.
pub open spec fn kdf_ck_next(ck: Seq<u8>) -> Seq<u8> {
    hmac_sha512_of(ck).subrange(0, 32)
}

/// The message key of one symmetric step: the second half of the HMAC tag.
pub open spec fn kdf_ck_mk(ck: Seq<u8>) -> Seq<u8> {
    hmac_sha512_of(ck).subrange(32, 64)
}

/// The chain key after `k` symmetric steps.
pub open spec fn ck_after(ck: Seq<u8>, k: nat) -> Seq<u8>
    decreases k,
{
    if k == 0 {
        ck
    } else {
        kdf_ck_next(ck_after(ck, (k - 1) as nat))
    }
}

/// The root-key half of a root step.
pub open spec fn kdf_rk_root(rk: Seq<u8>, dh: Seq<u8>) -> Seq<u8> {
    hkdf_sha512_of(rk, dh, root_info_spec(), 64).subrange(0, 32)
}

/// The chain-key half of a root step.
pub open spec fn kdf_rk_chain(rk: Seq<u8>, dh: Seq<u8>) -> Seq<u8> {
    hkdf_sha512_of(rk, dh, root_info_spec(), 64).subrange(32, 64)
}

/// The root-key third of a header-encryption root step.
pub open spec fn kdf_he_root(rk: Seq<u8>, dh: Seq<u8>) -> Seq<u8> {
    hkdf_sha512_of(rk, dh, root_info_spec(), 96).subrange(0, 32)
}

/// The chain-key third of a header-encryption root step.
pub open spec fn kdf_he_chain(rk: Seq<u8>, dh: Seq<u8>) -> Seq<u8> {
    hkdf_sha512_of(rk, dh, root_info_spec(), 96).subrange(32, 64)
}

/// The next-header-key third of a header-encryption root step.
pub open spec fn kdf_he_hk(rk: Seq<u8>, dh: Seq<u8>) -> Seq<u8> {
    hkdf_sha512_of(rk, dh, root_info_spec(), 96).subrange(64, 96)
}

/// Step a root key for the header-encryption ratchet: the next root key, a
/// fresh chain key, and the next header key.
pub fn kdf_rk_he(rk: &[u8], dh_out: &[u8]) -> (r: (Vec<u8>, Vec<u8>, Vec<u8>))
    ensures
        r.0@ == kdf_he_root(rk@, dh_out@),
        r.1@ == kdf_he_chain(rk@, dh_out@),
        r.2@ == kdf_he_hk(rk@, dh_out@),
        r.0@.len() == 32,
        r.1@.len() == 32,
        r.2@.len() == 32,
{
    let info = root_info();
    let okm = hkdf_sha512(rk, dh_out, info.as_slice(), 96);
    let root = slice_to_vec(slice_subrange(okm.as_slice(), 0, 32));
    let chain = slice_to_vec(slice_subrange(okm.as_slice(), 32, 64));
    let hk = slice_to_vec(slice_subrange(okm.as_slice(), 64, 96));
    (root, chain, hk)
}

/// Step a chain key: returns the next chain key and the message key.
pub fn kdf_ck(ck: &[u8]) -> (r: (Vec<u8>, Vec<u8>))
    ensures
        r.0@ == kdf_ck_next(ck@),
        r.1@ == kdf_ck_mk(ck@),
        r.0@.len() == 32,
        r.1@.len() == 32,
{
    let tag = hmac_sha512(ck);
    let next = slice_to_vec(slice_subrange(tag.as_slice(), 0, 32));
    let mk = slice_to_vec(slice_subrange(tag.as_slice(), 32, 64));
    (next, mk)
}

/// Step a root key with a Diffie-Hellman output: returns the next root key
/// and a fresh chain key.
pub fn kdf_rk(rk: &[u8], dh_out: &[u8]) -> (r: (Vec<u8>, Vec<u8>))
    ensures
        r.0@ == kdf_rk_root(rk@, dh_out@),
        r.1@ == kdf_rk_chain(rk@, dh_out@),
        r.0@.len() == 32,
        r.1@.len() == 32,
{
    let info = root_info();
    let okm = hkdf_sha512(rk, dh_out, info.as_slice(), 64);
    let root = slice_to_vec(slice_subrange(okm.as_slice(), 0, 32));
    let chain = slice_to_vec(slice_subrange(okm.as_slice(), 32, 64));
    (root, chain)
}

/// A fresh chain key, derived from a zero root key and an ephemeral shared
/// secret.
pub fn gen_ck() -> (r: Vec<u8>)
    ensures
        r@.len() == 32,
{
    let shared_secret = crate::dh::gen_shared_secret();
    let rk: Vec<u8> = crate::bytes::zero_bytes(32);
    let (_, ck) = kdf_rk(rk.as_slice(), shared_secret.as_slice());
    ck
}

/// A fresh message key, one chain step past `gen_ck`.
pub fn gen_mk() -> (r: Vec<u8>)
    ensures
        r@.len() == 32,
{
    let ck = gen_ck();
    let (_, mk) = kdf_ck(ck.as_slice());
    mk
}

} // verus!
