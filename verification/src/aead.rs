//! Authenticated encryption.
//!
//! Two constructions, both with 256-bit keys, 96-bit nonces and 128-bit tags:
//! AES-256-GCM for content (fresh nonce per send) and AES-256-GCM-SIV for
//! headers (misuse-resistant, so the all-zero nonce is safe while the header
//! key rotates). Each ciphertext is named by an uninterpreted spec function
//! of key, nonce, associated data and plaintext; decryption's contract states
//! that it inverts encryption on matching parameters.

use aes_gcm::aead::Aead;
use aes_gcm_siv::aead::Aead as SivAead;
use vstd::prelude::*;

verus! {

/// What can go wrong at the AEAD layer.
#[derive(Debug, PartialEq, Eq, Structural)]
pub enum AeadError {
    /// Authentication failed, or the ciphertext is malformed; the two are
    /// deliberately not distinguished.
    DecryptionFailure,
    /// The key is not 32 bytes; carries the length seen.
    InvalidKeyLength(usize),
    /// The nonce is not 12 bytes; carries the length seen.
    InvalidNonceLength(usize),
}

/// The AES-256-GCM ciphertext (with trailing tag) of a plaintext under key,
/// nonce and associated data: a function of those bytes alone.
pub uninterp spec fn gcm_ct_of(key: Seq<u8>, nonce: Seq<u8>, aad: Seq<u8>, pt: Seq<u8>) -> Seq<u8>;

/// The AES-256-GCM-SIV ciphertext (with trailing tag) of a plaintext under
/// key, nonce and associated data: a function of those bytes alone.
pub uninterp spec fn gcm_siv_ct_of(
    key: Seq<u8>,
    nonce: Seq<u8>,
    aad: Seq<u8>,
    pt: Seq<u8>,
) -> Seq<u8>;

/// The largest plaintext either construction accepts.
pub const AEAD_PT_MAX: u64 = 0x10_0000_0000 - 32;

/// The largest associated data either construction accepts.
pub const AEAD_AAD_MAX: u64 = 0x10_0000_0000 - 32;

/// Relies on aes_gcm's Aes256Gcm::encrypt: deterministic authenticated
/// encryption, emitting ciphertext followed by the 16-byte tag. Encryption
/// fails only on plaintext or associated data over the GCM length limits,
/// which the precondition rules out.
#[verifier::external_body]
pub(crate) fn gcm_seal(key: &[u8], nonce: &[u8], aad: &[u8], pt: &[u8]) -> (r: Vec<u8>)
    requires
        key@.len() == 32,
        nonce@.len() == 12,
        pt@.len() <= AEAD_PT_MAX,
        aad@.len() <= AEAD_AAD_MAX,
    ensures
        r@ == gcm_ct_of(key@, nonce@, aad@, pt@),
        r@.len() == pt@.len() + 16,
{
    let key: &aes_gcm::Key<aes_gcm::Aes256Gcm> = key.try_into().expect("length checked");
    let nonce: &aes_gcm::Nonce<aes_gcm::aead::consts::U12> = nonce.try_into().expect(
        "length checked",
    );
    let cipher = <aes_gcm::Aes256Gcm as aes_gcm::KeyInit>::new(key);
    cipher.encrypt(nonce, aes_gcm::aead::Payload { msg: pt, aad }).expect(
        "lengths are within the GCM limits",
    )
}

/// Relies on aes_gcm's Aes256Gcm::decrypt: returns the plaintext when the
/// ciphertext authenticates under key, nonce and associated data, nothing
/// otherwise. GCM decryption inverts encryption, so any ciphertext equal to
/// an encryption under the same parameters yields that plaintext back; and
/// since a success means the recomputed tag over the deciphered plaintext
/// matched, a success also means the ciphertext is exactly the encryption of
/// the returned plaintext.
#[verifier::external_body]
pub(crate) fn gcm_open(key: &[u8], nonce: &[u8], aad: &[u8], ct: &[u8]) -> (r: Option<Vec<u8>>)
    requires
        key@.len() == 32,
        nonce@.len() == 12,
    ensures
        forall|pt: Seq<u8>|
            (ct@ == #[trigger] gcm_ct_of(key@, nonce@, aad@, pt) && pt.len() <= AEAD_PT_MAX
                && aad@.len() <= AEAD_AAD_MAX) ==> r is Some && r.unwrap()@ == pt,
        r is Some ==> ct@.len() >= 16 && r.unwrap()@.len() == ct@.len() - 16,
        r matches Some(p) ==> ct@ == gcm_ct_of(key@, nonce@, aad@, p@),
{
    let key: &aes_gcm::Key<aes_gcm::Aes256Gcm> = key.try_into().expect("length checked");
    let nonce: &aes_gcm::Nonce<aes_gcm::aead::consts::U12> = nonce.try_into().expect(
        "length checked",
    );
    let cipher = <aes_gcm::Aes256Gcm as aes_gcm::KeyInit>::new(key);
    cipher.decrypt(nonce, aes_gcm::aead::Payload { msg: ct, aad }).ok()
}

/// Relies on aes_gcm_siv's Aes256GcmSiv::encrypt: deterministic
/// misuse-resistant authenticated encryption, ciphertext followed by the
/// 16-byte tag. Fails only over the length limits, which the precondition
/// rules out.
#[verifier::external_body]
pub(crate) fn gcm_siv_seal(key: &[u8], nonce: &[u8], aad: &[u8], pt: &[u8]) -> (r: Vec<u8>)
    requires
        key@.len() == 32,
        nonce@.len() == 12,
        pt@.len() <= AEAD_PT_MAX,
        aad@.len() <= AEAD_AAD_MAX,
    ensures
        r@ == gcm_siv_ct_of(key@, nonce@, aad@, pt@),
        r@.len() == pt@.len() + 16,
{
    let key: &aes_gcm_siv::Key<aes_gcm_siv::Aes256GcmSiv> = key.try_into().expect(
        "length checked",
    );
    let nonce: &aes_gcm_siv::Nonce = nonce.try_into().expect("length checked");
    let cipher = <aes_gcm_siv::Aes256GcmSiv as aes_gcm_siv::KeyInit>::new(key);
    cipher.encrypt(nonce, aes_gcm_siv::aead::Payload { msg: pt, aad }).expect(
        "lengths are within the GCM-SIV limits",
    )
}

/// Relies on aes_gcm_siv's Aes256GcmSiv::decrypt: returns the plaintext when
/// the ciphertext authenticates, nothing otherwise; inverts encryption on
/// matching parameters, and a success means the ciphertext is exactly the
/// encryption of the returned plaintext (the synthetic IV is recomputed from
/// the deciphered plaintext and compared).
#[verifier::external_body]
pub(crate) fn gcm_siv_open(key: &[u8], nonce: &[u8], aad: &[u8], ct: &[u8]) -> (r: Option<Vec<u8>>)
    requires
        key@.len() == 32,
        nonce@.len() == 12,
    ensures
        forall|pt: Seq<u8>|
            (ct@ == #[trigger] gcm_siv_ct_of(key@, nonce@, aad@, pt) && pt.len() <= AEAD_PT_MAX
                && aad@.len() <= AEAD_AAD_MAX) ==> r is Some && r.unwrap()@ == pt,
        r is Some ==> ct@.len() >= 16 && r.unwrap()@.len() == ct@.len() - 16,
        r matches Some(p) ==> ct@ == gcm_siv_ct_of(key@, nonce@, aad@, p@),
{
    let key: &aes_gcm_siv::Key<aes_gcm_siv::Aes256GcmSiv> = key.try_into().expect(
        "length checked",
    );
    let nonce: &aes_gcm_siv::Nonce = nonce.try_into().expect("length checked");
    let cipher = <aes_gcm_siv::Aes256GcmSiv as aes_gcm_siv::KeyInit>::new(key);
    cipher.decrypt(nonce, aes_gcm_siv::aead::Payload { msg: ct, aad }).ok()
}

/// A 256-bit-key AEAD cipher over byte slices, without associated data.
pub trait AeadCipher {
    /// Encrypt. Succeeds exactly when the key is 32 bytes and the nonce 12;
    /// the ciphertext carries a 16-byte tag. Which bytes come out is fixed
    /// by each construction's own contract.
    fn encrypt(plaintext: &[u8], key: &[u8], nonce: &[u8]) -> (r: Result<Vec<u8>, AeadError>)
        requires
            plaintext@.len() <= AEAD_PT_MAX,
        ensures
            key@.len() != 32 ==> r == Err::<Vec<u8>, AeadError>(AeadError::InvalidKeyLength(
                key@.len() as usize,
            )),
            key@.len() == 32 && nonce@.len() != 12 ==> r == Err::<Vec<u8>, AeadError>(
                AeadError::InvalidNonceLength(nonce@.len() as usize),
            ),
            key@.len() == 32 && nonce@.len() == 12 ==> r is Ok && r.unwrap()@.len()
                == plaintext@.len() + 16,
    ;

    /// Decrypt; fails on bad lengths or, with good lengths, exactly with the
    /// authentication failure.
    fn decrypt(ciphertext: &[u8], key: &[u8], nonce: &[u8]) -> (r: Result<Vec<u8>, AeadError>)
        ensures
            key@.len() != 32 ==> r == Err::<Vec<u8>, AeadError>(AeadError::InvalidKeyLength(
                key@.len() as usize,
            )),
            key@.len() == 32 && nonce@.len() != 12 ==> r == Err::<Vec<u8>, AeadError>(
                AeadError::InvalidNonceLength(nonce@.len() as usize),
            ),
            key@.len() == 32 && nonce@.len() == 12 && r is Err ==> r == Err::<Vec<u8>, AeadError>(
                AeadError::DecryptionFailure,
            ),
            r matches Ok(p) ==> ciphertext@.len() >= 16 && p@.len() == ciphertext@.len() - 16,
    ;
}

/// AES-256-GCM, the streaming construction used on message content.
pub struct AesGcm;

/// AES-256-GCM-SIV, the misuse-resistant construction used on headers.
pub struct AesGcmSiv;

impl AesGcm {
    /// Encrypt `plaintext`; `Ok` exactly when the key is 32 bytes and the
    /// nonce 12, with the ciphertext pinned to the GCM function of the
    /// inputs. Plaintexts over the GCM length limit are left out, as the
    /// construction has no output for them.
    pub fn seal(plaintext: &[u8], key: &[u8], nonce: &[u8]) -> (r: Result<Vec<u8>, AeadError>)
        requires
            plaintext@.len() <= AEAD_PT_MAX,
        ensures
            key@.len() != 32 ==> r == Err::<Vec<u8>, AeadError>(AeadError::InvalidKeyLength(
                key@.len() as usize,
            )),
            key@.len() == 32 && nonce@.len() != 12 ==> r == Err::<Vec<u8>, AeadError>(
                AeadError::InvalidNonceLength(nonce@.len() as usize),
            ),
            key@.len() == 32 && nonce@.len() == 12 <==> r is Ok,
            r is Ok ==> r.unwrap()@ == gcm_ct_of(key@, nonce@, Seq::<u8>::empty(), plaintext@)
                && r.unwrap()@.len() == plaintext@.len() + 16,
    {
        if key.len() != 32 {
            return Err(AeadError::InvalidKeyLength(key.len()));
        }
        if nonce.len() != 12 {
            return Err(AeadError::InvalidNonceLength(nonce.len()));
        }
        let empty_aad: Vec<u8> = Vec::new();
        Ok(gcm_seal(key, nonce, empty_aad.as_slice(), plaintext))
    }

    /// Decrypt; inverts `seal` on the same key and nonce, and fails on bad
    /// lengths or any authentication failure.
    pub fn open(ciphertext: &[u8], key: &[u8], nonce: &[u8]) -> (r: Result<Vec<u8>, AeadError>)
        ensures
            key@.len() != 32 ==> r == Err::<Vec<u8>, AeadError>(AeadError::InvalidKeyLength(
                key@.len() as usize,
            )),
            key@.len() == 32 && nonce@.len() != 12 ==> r == Err::<Vec<u8>, AeadError>(
                AeadError::InvalidNonceLength(nonce@.len() as usize),
            ),
            forall|pt: Seq<u8>|
                (key@.len() == 32 && nonce@.len() == 12 && ciphertext@ == #[trigger] gcm_ct_of(
                    key@,
                    nonce@,
                    Seq::<u8>::empty(),
                    pt,
                ) && pt.len() <= AEAD_PT_MAX) ==> r is Ok && r.unwrap()@ == pt,
            key@.len() == 32 && nonce@.len() == 12 && r is Err ==> r == Err::<Vec<u8>, AeadError>(
                AeadError::DecryptionFailure,
            ),
            r matches Ok(p) ==> ciphertext@ == gcm_ct_of(key@, nonce@, Seq::<u8>::empty(), p@)
                && ciphertext@.len() >= 16 && p@.len() == ciphertext@.len() - 16,
    {
        if key.len() != 32 {
            return Err(AeadError::InvalidKeyLength(key.len()));
        }
        if nonce.len() != 12 {
            return Err(AeadError::InvalidNonceLength(nonce.len()));
        }
        let empty_aad: Vec<u8> = Vec::new();
        match gcm_open(key, nonce, empty_aad.as_slice(), ciphertext) {
            Some(pt) => Ok(pt),
            None => Err(AeadError::DecryptionFailure),
        }
    }
}

impl AeadCipher for AesGcm {
    fn encrypt(plaintext: &[u8], key: &[u8], nonce: &[u8]) -> Result<Vec<u8>, AeadError> {
        AesGcm::seal(plaintext, key, nonce)
    }

    fn decrypt(ciphertext: &[u8], key: &[u8], nonce: &[u8]) -> Result<Vec<u8>, AeadError> {
        AesGcm::open(ciphertext, key, nonce)
    }
}

impl AesGcmSiv {
    /// Encrypt `plaintext`; `Ok` exactly when the key is 32 bytes and the
    /// nonce 12, with the ciphertext pinned to the GCM-SIV function of the
    /// inputs. Plaintexts over the length limit are left out, as the
    /// construction has no output for them.
    pub fn seal(plaintext: &[u8], key: &[u8], nonce: &[u8]) -> (r: Result<Vec<u8>, AeadError>)
        requires
            plaintext@.len() <= AEAD_PT_MAX,
        ensures
            key@.len() != 32 ==> r == Err::<Vec<u8>, AeadError>(AeadError::InvalidKeyLength(
                key@.len() as usize,
            )),
            key@.len() == 32 && nonce@.len() != 12 ==> r == Err::<Vec<u8>, AeadError>(
                AeadError::InvalidNonceLength(nonce@.len() as usize),
            ),
            key@.len() == 32 && nonce@.len() == 12 <==> r is Ok,
            r is Ok ==> r.unwrap()@ == gcm_siv_ct_of(key@, nonce@, Seq::<u8>::empty(), plaintext@)
                && r.unwrap()@.len() == plaintext@.len() + 16,
    {
        if key.len() != 32 {
            return Err(AeadError::InvalidKeyLength(key.len()));
        }
        if nonce.len() != 12 {
            return Err(AeadError::InvalidNonceLength(nonce.len()));
        }
        let empty_aad: Vec<u8> = Vec::new();
        Ok(gcm_siv_seal(key, nonce, empty_aad.as_slice(), plaintext))
    }

    /// Decrypt; inverts `seal` on the same key and nonce, and fails on bad
    /// lengths or any authentication failure.
    pub fn open(ciphertext: &[u8], key: &[u8], nonce: &[u8]) -> (r: Result<Vec<u8>, AeadError>)
        ensures
            key@.len() != 32 ==> r == Err::<Vec<u8>, AeadError>(AeadError::InvalidKeyLength(
                key@.len() as usize,
            )),
            key@.len() == 32 && nonce@.len() != 12 ==> r == Err::<Vec<u8>, AeadError>(
                AeadError::InvalidNonceLength(nonce@.len() as usize),
            ),
            forall|pt: Seq<u8>|
                (key@.len() == 32 && nonce@.len() == 12 && ciphertext@ == #[trigger] gcm_siv_ct_of(
                    key@,
                    nonce@,
                    Seq::<u8>::empty(),
                    pt,
                ) && pt.len() <= AEAD_PT_MAX) ==> r is Ok && r.unwrap()@ == pt,
            key@.len() == 32 && nonce@.len() == 12 && r is Err ==> r == Err::<Vec<u8>, AeadError>(
                AeadError::DecryptionFailure,
            ),
            r matches Ok(p) ==> ciphertext@ == gcm_siv_ct_of(key@, nonce@, Seq::<u8>::empty(), p@)
                && ciphertext@.len() >= 16 && p@.len() == ciphertext@.len() - 16,
    {
        if key.len() != 32 {
            return Err(AeadError::InvalidKeyLength(key.len()));
        }
        if nonce.len() != 12 {
            return Err(AeadError::InvalidNonceLength(nonce.len()));
        }
        let empty_aad: Vec<u8> = Vec::new();
        match gcm_siv_open(key, nonce, empty_aad.as_slice(), ciphertext) {
            Some(pt) => Ok(pt),
            None => Err(AeadError::DecryptionFailure),
        }
    }
}

impl AeadCipher for AesGcmSiv {
    fn encrypt(plaintext: &[u8], key: &[u8], nonce: &[u8]) -> Result<Vec<u8>, AeadError> {
        AesGcmSiv::seal(plaintext, key, nonce)
    }

    fn decrypt(ciphertext: &[u8], key: &[u8], nonce: &[u8]) -> Result<Vec<u8>, AeadError> {
        AesGcmSiv::open(ciphertext, key, nonce)
    }
}

} // verus!
