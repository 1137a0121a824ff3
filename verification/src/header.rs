//! The per-message ratchet header.
//!
//! A header carries the sender's current Diffie-Hellman public key, the
//! length of the previous sending chain and the message number. On the wire
//! it is framed together with the caller's associated data: two
//! length-prefixed segments followed by two fixed-width counters. Parsing
//! inverts framing (`lemma_header_wire_roundtrip`), and header encryption is
//! AES-256-GCM-SIV under the rotating header key with an all-zero nonce.

use vstd::prelude::*;
use vstd::slice::slice_to_vec;

use crate::aead::{gcm_siv_ct_of, gcm_siv_open, gcm_siv_seal, AEAD_PT_MAX};
use crate::bytes::{enc_seg, parse_seg, parse_u64, read_seg, read_u64_le, u64_le, write_seg,
    write_u64_le};
use crate::dh::DhKeyPair;

verus! {

/// The mathematical content of a header.
pub ghost struct HeaderV {
    pub pk: Seq<u8>,
    pub pn: u64,
    pub n: u64,
}

/// A ratchet header: the sender's Diffie-Hellman public key, the previous
/// chain length and the message number.
#[derive(Debug, Clone)]
pub struct Header {
    pub public_key: Vec<u8>,
    pub pn: u64,
    pub n: u64,
}

impl View for Header {
    type V = HeaderV;

    open spec fn view(&self) -> HeaderV {
        HeaderV { pk: self.public_key@, pn: self.pn, n: self.n }
    }
}

impl PartialEq for Header {
    fn eq(&self, other: &Self) -> (r: bool) {
        crate::bytes::bytes_eq(self.public_key.as_slice(), other.public_key.as_slice())
            && self.pn == other.pn && self.n == other.n
    }
}

impl vstd::std_specs::cmp::PartialEqSpecImpl for Header {
    open spec fn obeys_eq_spec() -> bool {
        true
    }

    open spec fn eq_spec(&self, other: &Self) -> bool {
        self@ == other@
    }
}

/// The ciphertext is the encryption of `h`, framed with some associated
/// data, under the given header key and nonce.
pub open spec fn header_ct_authentic(
    key: Seq<u8>,
    nonce: Seq<u8>,
    ct: Seq<u8>,
    h: HeaderV,
) -> bool {
    exists|ad: Seq<u8>|
        ct == gcm_siv_ct_of(key, nonce, Seq::<u8>::empty(), #[trigger] header_wire(ad, h))
}

/// A ciphertext that opened to a parsed header frame is the encryption of
/// that frame.
proof fn lemma_decrypt_converse(
    key: Seq<u8>,
    nonce: Seq<u8>,
    ct: Seq<u8>,
    wire: Seq<u8>,
    ad0: Seq<u8>,
    h: HeaderV,
)
    requires
        ct == gcm_siv_ct_of(key, nonce, Seq::<u8>::empty(), wire),
        parse_header_wire(wire) == Some((ad0, h)),
    ensures
        ct == gcm_siv_ct_of(key, nonce, Seq::<u8>::empty(), header_wire(ad0, h)),
{
    lemma_parse_header_sound(wire);
    assert(wire == header_wire(ad0, h));
}

/// A wire string that parses is exactly the encoding of what it parsed to.
pub proof fn lemma_parse_header_sound(s: Seq<u8>)
    requires
        parse_header_wire(s) is Some,
    ensures
        ({
            let (ad, h) = parse_header_wire(s)->Some_0;
            &&& s == header_wire(ad, h)
            &&& ad.len() <= u64::MAX
            &&& h.pk.len() <= u64::MAX
        }),
{
    let (ad, i) = crate::bytes::parse_seg(s, 0)->Some_0;
    let (pk, j) = crate::bytes::parse_seg(s, i)->Some_0;
    let (pn, k) = crate::bytes::parse_u64(s, j)->Some_0;
    let (n, end) = crate::bytes::parse_u64(s, k)->Some_0;
    crate::bytes::lemma_parse_seg_sound(s, 0);
    crate::bytes::lemma_parse_seg_sound(s, i);
    crate::bytes::lemma_parse_u64_sound(s, j);
    crate::bytes::lemma_parse_u64_sound(s, k);
    assert(s =~= s.subrange(0, i) + s.subrange(i, j) + s.subrange(j, k) + s.subrange(k, end));
}

/// The wire form of a header together with associated data.
pub open spec fn header_wire(ad: Seq<u8>, h: HeaderV) -> Seq<u8> {
    enc_seg(ad) + enc_seg(h.pk) + u64_le(h.pn) + u64_le(h.n)
}

/// Parse a wire-form header: the associated data and the header, provided
/// the whole input is consumed.
pub open spec fn parse_header_wire(s: Seq<u8>) -> Option<(Seq<u8>, HeaderV)> {
    match parse_seg(s, 0) {
        None => None,
        Some((ad, i)) => match parse_seg(s, i) {
            None => None,
            Some((pk, j)) => match parse_u64(s, j) {
                None => None,
                Some((pn, k)) => match parse_u64(s, k) {
                    None => None,
                    Some((n, end)) => {
                        if end == s.len() {
                            Some((ad, HeaderV { pk, pn, n }))
                        } else {
                            None
                        }
                    },
                },
            },
        },
    }
}

/// Parsing the wire form of a header yields back the associated data and the
/// header.
pub proof fn lemma_header_wire_roundtrip(ad: Seq<u8>, h: HeaderV)
    requires
        ad.len() <= u64::MAX,
        h.pk.len() <= u64::MAX,
    ensures
        parse_header_wire(header_wire(ad, h)) == Some((ad, h)),
{
    let s = header_wire(ad, h);
    let i = 8 + ad.len() as int;
    let j = i + 8 + h.pk.len() as int;
    let k = j + 8;
    let end = k + 8;
    assert(s.len() == end);
    assert(s.subrange(0, i) =~= enc_seg(ad));
    crate::bytes::lemma_parse_seg_at(s, 0, ad);
    assert(s.subrange(i, j) =~= enc_seg(h.pk));
    crate::bytes::lemma_parse_seg_at(s, i, h.pk);
    assert(s.subrange(j, k) =~= u64_le(h.pn));
    crate::bytes::lemma_parse_u64_at(s, j, h.pn);
    assert(s.subrange(k, end) =~= u64_le(h.n));
    crate::bytes::lemma_parse_u64_at(s, k, h.n);
}

/// The all-zero 12-byte nonce used for header encryption; safe because the
/// header key rotates on every Diffie-Hellman step and the construction is
/// misuse-resistant.
pub open spec fn zero_nonce_spec() -> Seq<u8> {
    Seq::new(12, |i: int| 0u8)
}

fn zero_nonce() -> (r: Vec<u8>)
    ensures
        r@ == zero_nonce_spec(),
{
    crate::bytes::zero_bytes(12)
}

impl Header {
    /// A header for the current sending state of a ratchet.
    pub fn new(dh_pair: &DhKeyPair, pn: u64, n: u64) -> (r: Header)
        ensures
            r@ == (HeaderV { pk: dh_pair.public_key@, pn, n }),
    {
        Header { public_key: dh_pair.ex_public_key_bytes(), pn, n }
    }

    /// Frame the header with associated data for encryption.
    pub fn concat(&self, ad: &[u8]) -> (r: Vec<u8>)
        ensures
            r@ == header_wire(ad@, self@),
            r@.len() == 32 + ad@.len() + self.public_key@.len(),
    {
        let mut out: Vec<u8> = Vec::new();
        write_seg(&mut out, ad);
        write_seg(&mut out, self.public_key.as_slice());
        write_u64_le(&mut out, self.pn);
        write_u64_le(&mut out, self.n);
        assert(out@ =~= header_wire(ad@, self@));
        out
    }

    /// Parse a framed header, yielding the associated data and the header.
    pub fn from_wire(d: &[u8]) -> (r: Option<(Vec<u8>, Header)>)
        ensures
            match r {
                Some((ad, h)) => parse_header_wire(d@) == Some((ad@, h@)),
                None => parse_header_wire(d@) is None,
            },
    {
        let (ad, i) = match read_seg(d, 0) {
            None => {
                return None;
            },
            Some(p) => p,
        };
        let (pk, j) = match read_seg(d, i) {
            None => {
                return None;
            },
            Some(p) => p,
        };
        let (pn, k) = match read_u64_le(d, j) {
            None => {
                return None;
            },
            Some(p) => p,
        };
        let (n, end) = match read_u64_le(d, k) {
            None => {
                return None;
            },
            Some(p) => p,
        };
        if end != d.len() {
            return None;
        }
        Some((ad, Header { public_key: pk, pn, n }))
    }

    /// Encrypt the header (framed with `ad`) under the header key; returns
    /// the ciphertext and the nonce it used, which is always the zero nonce.
    pub fn encrypt(&self, hk: &[u8], ad: &[u8]) -> (r: (Vec<u8>, Vec<u8>))
        requires
            hk@.len() == 32,
            32 + ad@.len() + self@.pk.len() <= AEAD_PT_MAX,
        ensures
            r.0@ == gcm_siv_ct_of(hk@, zero_nonce_spec(), Seq::<u8>::empty(), header_wire(
                ad@,
                self@,
            )),
            r.1@ == zero_nonce_spec(),
    {
        let header_data = self.concat(ad);
        let nonce = zero_nonce();
        let empty_aad: Vec<u8> = Vec::new();
        let ct = gcm_siv_seal(hk, nonce.as_slice(), empty_aad.as_slice(), header_data.as_slice());
        (ct, nonce)
    }

    /// Try to decrypt an encrypted header. Yields the header when the key is
    /// present and the ciphertext is an encryption of a framed header under
    /// it; yields nothing on a missing key, an authentication failure or a
    /// malformed plaintext.
    #[verifier::rlimit(100)]
    #[verifier::spinoff_prover]
    pub fn decrypt(hk: &Option<Vec<u8>>, ciphertext: &[u8], nonce: &[u8]) -> (r: Option<Header>)
        requires
            hk matches Some(k) ==> k@.len() == 32,
            nonce@.len() == 12,
        ensures
            hk is None ==> r is None,
            forall|ad: Seq<u8>, h: HeaderV|
                (hk is Some && ciphertext@ == #[trigger] gcm_siv_ct_of(
                    (hk->Some_0)@,
                    nonce@,
                    Seq::<u8>::empty(),
                    header_wire(ad, h),
                ) && 32 + ad.len() + h.pk.len() <= AEAD_PT_MAX) ==> r is Some && r.unwrap()@ == h,
            r matches Some(hdr) ==> hk is Some && header_ct_authentic(
                (hk->Some_0)@,
                nonce@,
                ciphertext@,
                hdr@,
            ),
    {
        let key = match hk {
            None => {
                return None;
            },
            Some(k) => k,
        };
        let empty_aad: Vec<u8> = Vec::new();
        let wire = match gcm_siv_open(key.as_slice(), nonce, empty_aad.as_slice(), ciphertext) {
            None => {
                proof {
                    assert forall|ad: Seq<u8>, h: HeaderV|
                        (ciphertext@ == gcm_siv_ct_of(
                            key@,
                            nonce@,
                            Seq::<u8>::empty(),
                            header_wire(ad, h),
                        ) && 32 + ad.len() + h.pk.len() <= AEAD_PT_MAX) implies false by {
                        assert(header_wire(ad, h).len() == 32 + ad.len() + h.pk.len());
                    }
                }
                return None;
            },
            Some(w) => w,
        };
        let parsed = Header::from_wire(wire.as_slice());
        proof {
            assert forall|ad: Seq<u8>, h: HeaderV|
                (ciphertext@ == gcm_siv_ct_of(
                    key@,
                    nonce@,
                    Seq::<u8>::empty(),
                    header_wire(ad, h),
                ) && 32 + ad.len() + h.pk.len() <= AEAD_PT_MAX) implies wire@ == header_wire(
                ad,
                h,
            ) && parse_header_wire(wire@) == Some((ad, h)) by {
                assert(header_wire(ad, h).len() == 32 + ad.len() + h.pk.len());
                lemma_header_wire_roundtrip(ad, h);
            }
        }
        match parsed {
            None => None,
            Some((ad0, h)) => {
                proof {
                    assert(empty_aad@ =~= Seq::<u8>::empty());
                    lemma_decrypt_converse(key@, nonce@, ciphertext@, wire@, ad0@, h@);
                    assert(hk is Some);
                    assert((hk->Some_0)@ == key@);
                    assert(header_ct_authentic((hk->Some_0)@, nonce@, ciphertext@, h@));
                }
                Some(h)
            },
        }
    }

    /// The bytes of the header's public key.
    pub fn ex_public_key_bytes(&self) -> (r: Vec<u8>)
        ensures
            r@ == self@.pk,
    {
        slice_to_vec(self.public_key.as_slice())
    }

    /// An exact copy of the header.
    pub fn duplicate(&self) -> (r: Header)
        ensures
            r@ == self@,
    {
        Header { public_key: slice_to_vec(self.public_key.as_slice()), pn: self.pn, n: self.n }
    }
}

/// A header over a fresh key pair, for exercising the wire format.
pub fn gen_header() -> (r: Header)
    ensures
        r@.pn == 10,
        r@.n == 50,
{
    let dh_pair = crate::dh::gen_key_pair();
    let pn: u64 = 10;
    let n: u64 = 50;
    Header::new(&dh_pair, pn, n)
}

} // verus!
