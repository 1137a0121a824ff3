//! Content hashes used by the storage layer.
//!
//! A stored blob is acknowledged with a hash whose algorithm depends on the
//! content length: SHA-512 for small blobs, Adler-32 for medium ones, and
//! SeaHash for the rest. The digests themselves are outside calls with named
//! results; the algorithm choice and the verification rule are verified here.

use sha2::Digest;
use vstd::prelude::*;

verus! {

/// The 64-byte SHA-512 digest of a byte string.
pub uninterp spec fn sha512_of(data: Seq<u8>) -> Seq<u8>;

/// The Adler-32 checksum of a byte string, as its four big-endian bytes.
pub uninterp spec fn adler32_of(data: Seq<u8>) -> Seq<u8>;

/// The SeaHash of a byte string, as its eight big-endian bytes.
pub uninterp spec fn seahash_of(data: Seq<u8>) -> Seq<u8>;

/// Relies on sha2's Sha512: the digest is a function of the data alone and
/// is 64 bytes long.
#[verifier::external_body]
pub fn sha512_hash_bytes(data: &[u8]) -> (r: Vec<u8>)
    ensures
        r@ == sha512_of(data@),
        r@.len() == 64,
{
    let mut hasher = sha2::Sha512::new();
    hasher.update(data);
    hasher.finalize().to_vec()
}

/// Relies on adler's Adler32: the checksum is a function of the data alone;
/// its big-endian encoding is 4 bytes long.
#[verifier::external_body]
pub fn adler_hash_bytes(data: &[u8]) -> (r: Vec<u8>)
    ensures
        r@ == adler32_of(data@),
        r@.len() == 4,
{
    let mut hasher = adler::Adler32::new();
    hasher.write_slice(data);
    hasher.checksum().to_be_bytes().to_vec()
}

/// Relies on seahash's hash: the value is a function of the data alone; its
/// big-endian encoding is 8 bytes long.
#[verifier::external_body]
pub fn seahash_hash_bytes(data: &[u8]) -> (r: Vec<u8>)
    ensures
        r@ == seahash_of(data@),
        r@.len() == 8,
{
    seahash::hash(data).to_be_bytes().to_vec()
}

/// Which hash algorithm a blob is acknowledged with.
#[derive(Debug, Clone, Copy, PartialEq, Eq, Structural)]
pub enum HashType {
    Sha512,
    Adler32,
    Lz4,
}

/// The algorithm chosen for a content length: SHA-512 up to 1000 bytes,
/// Adler-32 up to 10000, SeaHash beyond.
pub open spec fn hash_type_for(len: nat) -> HashType {
    if len <= 1000 {
        HashType::Sha512
    } else if len <= 10000 {
        HashType::Adler32
    } else {
        HashType::Lz4
    }
}

/// The digest of `data` under a given algorithm.
pub open spec fn hash_of(t: HashType, data: Seq<u8>) -> Seq<u8> {
    match t {
        HashType::Sha512 => sha512_of(data),
        HashType::Adler32 => adler32_of(data),
        HashType::Lz4 => seahash_of(data),
    }
}

/// Hash a stored blob with the algorithm its length calls for.
pub fn hash_content(content: &[u8]) -> (r: (HashType, Vec<u8>))
    ensures
        r.0 == hash_type_for(content@.len()),
        r.1@ == hash_of(r.0, content@),
{
    let len = content.len();
    if len <= 1000 {
        (HashType::Sha512, sha512_hash_bytes(content))
    } else if len <= 10000 {
        (HashType::Adler32, adler_hash_bytes(content))
    } else {
        (HashType::Lz4, seahash_hash_bytes(content))
    }
}

/// The algorithm behind a wire number: 0 is SHA-512, 1 is Adler-32, 2 is
/// SeaHash.
pub open spec fn hash_type_of_number(n: int) -> Option<HashType> {
    if n == 0 {
        Some(HashType::Sha512)
    } else if n == 1 {
        Some(HashType::Adler32)
    } else if n == 2 {
        Some(HashType::Lz4)
    } else {
        None
    }
}

/// Check a served hash against the content it claims to cover. False when
/// the algorithm number is unknown or the hash does not match.
pub fn verify_hash(hash_type_number: i32, content: &[u8], hash: &[u8]) -> (r: bool)
    ensures
        r == match hash_type_of_number(hash_type_number as int) {
            Some(t) => hash@ == hash_of(t, content@),
            None => false,
        },
{
    let compare_hash: Vec<u8> = if hash_type_number == 0 {
        sha512_hash_bytes(content)
    } else if hash_type_number == 1 {
        adler_hash_bytes(content)
    } else if hash_type_number == 2 {
        seahash_hash_bytes(content)
    } else {
        return false;
    };
    crate::bytes::bytes_eq(hash, compare_hash.as_slice())
}

} // verus!
