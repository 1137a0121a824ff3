//! The encryption ratchet.
//!
//! A Double Ratchet with header encryption: each outbound message gets a
//! fresh message key from the sending chain and a header encrypted under the
//! current header key; each Diffie-Hellman step rotates the root key, the
//! chain keys and the header keys together. Decryption first tries cached
//! skipped keys, then the current header key, then the next one (which
//! signals a Diffie-Hellman step). A failed decryption leaves the state
//! exactly as it was: all work happens on a staged copy.

use vstd::prelude::*;
use vstd::slice::slice_to_vec;

use crate::address_ratchet::{skipped_wf, SkippedEntry};
use crate::aead::{gcm_ct_of, gcm_open, gcm_seal, gcm_siv_ct_of, AEAD_AAD_MAX, AEAD_PT_MAX};
use crate::dh::{keypair_wf, p256_dh_of, p256_valid_pk, DhKeyPair};
use crate::header::{header_wire, zero_nonce_spec, Header, HeaderV};
use crate::kdf::{kdf_ck, kdf_ck_mk, kdf_ck_next, kdf_he_chain, kdf_he_hk, kdf_he_root, kdf_rk_he};
use crate::rng::os_random_bytes;
use crate::MAX_SKIP;

verus! {

/// Why decryption through the encryption ratchet can fail.
#[derive(Debug, PartialEq, Eq, Structural)]
pub enum EncRatchetError {
    /// Neither a cached key nor the current or next header key opened the
    /// encrypted header.
    HeaderAuthFailed,
    /// The header opened but the content did not authenticate.
    ContentAuthFailed,
    /// Accepting the message would cache more than `MAX_SKIP` keys.
    SkippedTooMany,
}

/// The mathematical content of an encryption-ratchet state.
pub ghost struct EncRatchetV {
    pub dhs: (Seq<u8>, Seq<u8>),
    pub dhr: Option<Seq<u8>>,
    pub rk: Seq<u8>,
    pub ckr: Option<Seq<u8>>,
    pub cks: Option<Seq<u8>>,
    pub ns: u64,
    pub nr: u64,
    pub pn: u64,
    pub hks: Option<Seq<u8>>,
    pub hkr: Option<Seq<u8>>,
    pub nhks: Option<Seq<u8>>,
    pub nhkr: Option<Seq<u8>>,
    pub mkskipped: Seq<((Seq<u8>, u64), Seq<u8>)>,
}

/// The Double Ratchet with header encryption.
#[derive(Debug)]
pub struct EncRatchet {
    pub dhs: DhKeyPair,
    pub dhr: Option<Vec<u8>>,
    pub rk: Vec<u8>,
    pub ckr: Option<Vec<u8>>,
    pub cks: Option<Vec<u8>>,
    pub ns: u64,
    pub nr: u64,
    pub pn: u64,
    pub hks: Option<Vec<u8>>,
    pub hkr: Option<Vec<u8>>,
    pub nhks: Option<Vec<u8>>,
    pub nhkr: Option<Vec<u8>>,
    pub mkskipped: Vec<SkippedEntry>,
}

pub open spec fn opt_bytes_view(o: Option<Vec<u8>>) -> Option<Seq<u8>> {
    match o {
        Some(b) => Some(b@),
        None => None,
    }
}

impl View for EncRatchet {
    type V = EncRatchetV;

    open spec fn view(&self) -> EncRatchetV {
        EncRatchetV {
            dhs: (self.dhs.private_key@, self.dhs.public_key@),
            dhr: opt_bytes_view(self.dhr),
            rk: self.rk@,
            ckr: opt_bytes_view(self.ckr),
            cks: opt_bytes_view(self.cks),
            ns: self.ns,
            nr: self.nr,
            pn: self.pn,
            hks: opt_bytes_view(self.hks),
            hkr: opt_bytes_view(self.hkr),
            nhks: opt_bytes_view(self.nhks),
            nhkr: opt_bytes_view(self.nhkr),
            mkskipped: self.mkskipped@.map_values(|e: SkippedEntry| ((e.0.0@, e.0.1), e.1@)),
        }
    }
}

/// A 32-byte key when present.
pub open spec fn opt_key_wf(o: Option<Seq<u8>>) -> bool {
    o matches Some(k) ==> k.len() == 32
}

/// Every cached entry's header key is a 32-byte key.
pub open spec fn skipped_hk_wf(m: Seq<((Seq<u8>, u64), Seq<u8>)>) -> bool {
    forall|i: int| 0 <= i < m.len() ==> (#[trigger] m[i]).0.0.len() == 32
}

/// Well-formedness of an encryption-ratchet state.
pub open spec fn enc_wf(v: EncRatchetV) -> bool {
    &&& keypair_wf(v.dhs.0, v.dhs.1)
    &&& v.rk.len() == 32
    &&& (v.dhr matches Some(p) ==> p256_valid_pk(p) && p.len() <= u64::MAX)
    &&& opt_key_wf(v.cks)
    &&& opt_key_wf(v.ckr)
    &&& opt_key_wf(v.hks)
    &&& opt_key_wf(v.hkr)
    &&& opt_key_wf(v.nhks)
    &&& opt_key_wf(v.nhkr)
    &&& v.nhks is Some
    &&& v.nhkr is Some
    &&& (v.ckr is Some ==> v.dhr is Some)
    &&& (v.ckr is Some ==> v.hkr is Some)
    &&& (v.cks is Some ==> v.hks is Some)
    &&& (v.cks is None ==> v.ns == 0)
    &&& (v.ckr is None ==> v.nr == 0)
    &&& skipped_wf(v.mkskipped)
    &&& skipped_hk_wf(v.mkskipped)
}

/// The state after a Diffie-Hellman step on receipt of header `h`, with
/// `new_dhs` the freshly drawn local pair: header keys shift to the next
/// ones, the receiving chain and next receiving header key come from the old
/// local pair, the sending chain and next sending header key from the new
/// one.
pub open spec fn enc_dhratchet_spec(
    v: EncRatchetV,
    h: HeaderV,
    new_dhs: (Seq<u8>, Seq<u8>),
) -> EncRatchetV {
    let dh1 = p256_dh_of(v.dhs.0, h.pk);
    let rk1 = kdf_he_root(v.rk, dh1);
    let dh2 = p256_dh_of(new_dhs.0, h.pk);
    EncRatchetV {
        pn: v.ns,
        ns: 0,
        nr: 0,
        hks: v.nhks,
        hkr: v.nhkr,
        dhr: Some(h.pk),
        rk: kdf_he_root(rk1, dh2),
        ckr: Some(kdf_he_chain(v.rk, dh1)),
        nhkr: Some(kdf_he_hk(v.rk, dh1)),
        cks: Some(kdf_he_chain(rk1, dh2)),
        nhks: Some(kdf_he_hk(rk1, dh2)),
        dhs: new_dhs,
        mkskipped: v.mkskipped,
    }
}

/// What a successful decryption always did to the state: consumed exactly
/// one cached key, advanced the current receiving chain, or performed a
/// Diffie-Hellman step and advanced the fresh chain.
pub open spec fn decrypt_advanced(v: EncRatchetV, w: EncRatchetV) -> bool {
    ||| (w.mkskipped.len() + 1 == v.mkskipped.len() && w.nr == v.nr && w.ckr == v.ckr && w.hkr
        == v.hkr && w.dhs == v.dhs && w.ns == v.ns && w.pn == v.pn && w.cks == v.cks)
    ||| (w.nr > v.nr && w.dhs == v.dhs && w.hkr == v.hkr && w.ns == v.ns && w.pn == v.pn && w.cks
        == v.cks && w.ckr is Some)
    ||| (w.hkr == v.nhkr && w.hks == v.nhks && w.pn == v.ns && w.ns == 0 && w.nr >= 1
        && w.ckr is Some)
}

/// An authentic next message of the current receiving chain: no keys are
/// cached, the current header key opens the encrypted header to `h` framed
/// with `adh`, the message number is the next expected, and the content is
/// the encryption of `pt` under the chain's next message key.
pub open spec fn decrypt_current_ok(
    v: EncRatchetV,
    ehdr: Seq<u8>,
    hnonce: Seq<u8>,
    ct: Seq<u8>,
    cnonce: Seq<u8>,
    ad: Seq<u8>,
    adh: Seq<u8>,
    h: HeaderV,
    pt: Seq<u8>,
) -> bool {
    &&& v.mkskipped.len() == 0
    &&& v.hkr is Some
    &&& ehdr == gcm_siv_ct_of(v.hkr->Some_0, hnonce, Seq::<u8>::empty(), header_wire(adh, h))
    &&& 32 + adh.len() + h.pk.len() <= AEAD_PT_MAX
    &&& v.ckr is Some
    &&& h.n == v.nr
    &&& v.nr < u64::MAX
    &&& ct == gcm_ct_of(kdf_ck_mk(v.ckr->Some_0), cnonce, ad, pt)
    &&& pt.len() <= AEAD_PT_MAX
    &&& ad.len() <= AEAD_AAD_MAX
}

/// The state after accepting the next message of the current chain.
pub open spec fn decrypt_current_post(v: EncRatchetV) -> EncRatchetV {
    EncRatchetV { ckr: Some(kdf_ck_next(v.ckr->Some_0)), nr: (v.nr + 1) as u64, ..v }
}

/// A ratchet whose secrets have been destroyed: every key overwritten in
/// place with zeros and dropped, every chain, remote key and cached entry
/// gone, all counters cleared. A closed ratchet is not well formed and can
/// take no further step.
pub open spec fn enc_closed(v: EncRatchetV) -> bool {
    &&& enc_closed_but_cache(v)
    &&& v.mkskipped.len() == 0
}

/// Everything of a closed ratchet except the cache, which is still being
/// wiped entry by entry.
pub open spec fn enc_closed_but_cache(v: EncRatchetV) -> bool {
    &&& v.dhs.0 == crate::bytes::zero_seq(v.dhs.0.len())
    &&& v.dhs.1 == crate::bytes::zero_seq(v.dhs.1.len())
    &&& v.dhr is None
    &&& v.rk == crate::bytes::zero_seq(v.rk.len())
    &&& v.ckr is None
    &&& v.cks is None
    &&& v.hks is None
    &&& v.hkr is None
    &&& v.nhks is None
    &&& v.nhkr is None
    &&& v.ns == 0
    &&& v.nr == 0
    &&& v.pn == 0
}

/// The cache entries that filling the receiving chain from counter `from`
/// up to `until` appends, under header key `hk`: one per skipped message,
/// keyed by its number, holding the message key of that step of the chain.
pub open spec fn fill_entries(hk: Seq<u8>, ck: Seq<u8>, from: u64, until: u64) -> Seq<
    ((Seq<u8>, u64), Seq<u8>),
> {
    Seq::new(
        if until > from {
            (until - from) as nat
        } else {
            0
        },
        |i: int| ((hk, (from + i) as u64), kdf_ck_mk(crate::kdf::ck_after(ck, i as nat))),
    )
}

/// A message whose header authenticates as the next one of the current
/// chain but whose content is not an encryption of anything under the
/// chain's next message key.
pub open spec fn decrypt_current_badcontent(
    v: EncRatchetV,
    ehdr: Seq<u8>,
    hnonce: Seq<u8>,
    ct: Seq<u8>,
    cnonce: Seq<u8>,
    ad: Seq<u8>,
    adh: Seq<u8>,
    h: HeaderV,
) -> bool {
    &&& v.mkskipped.len() == 0
    &&& v.hkr is Some
    &&& ehdr == gcm_siv_ct_of(v.hkr->Some_0, hnonce, Seq::<u8>::empty(), header_wire(adh, h))
    &&& 32 + adh.len() + h.pk.len() <= AEAD_PT_MAX
    &&& v.ckr is Some
    &&& h.n == v.nr
    &&& v.nr < u64::MAX
    &&& forall|pt: Seq<u8>|
        ct != #[trigger] gcm_ct_of(kdf_ck_mk(v.ckr->Some_0), cnonce, ad, pt)
}

/// An authentic opening message at a receiver whose chains were never
/// seeded: the next receiving header key opens the encrypted header to a
/// first-message header `h` carrying a valid remote key, and the content is
/// the encryption of `pt` under the first message key the Diffie-Hellman
/// step derives.
pub open spec fn decrypt_initial_ok(
    v: EncRatchetV,
    ehdr: Seq<u8>,
    hnonce: Seq<u8>,
    ct: Seq<u8>,
    cnonce: Seq<u8>,
    ad: Seq<u8>,
    adh: Seq<u8>,
    h: HeaderV,
    pt: Seq<u8>,
) -> bool {
    &&& v.mkskipped.len() == 0
    &&& v.hkr is None
    &&& v.ckr is None
    &&& v.nhkr is Some
    &&& ehdr == gcm_siv_ct_of(v.nhkr->Some_0, hnonce, Seq::<u8>::empty(), header_wire(adh, h))
    &&& 32 + adh.len() + h.pk.len() <= AEAD_PT_MAX
    &&& h.pn == 0
    &&& h.n == 0
    &&& crate::dh::p256_valid_pk(h.pk)
    &&& h.pk.len() <= 65
    &&& ct == gcm_ct_of(
        kdf_ck_mk(kdf_he_chain(v.rk, p256_dh_of(v.dhs.0, h.pk))),
        cnonce,
        ad,
        pt,
    )
    &&& pt.len() <= AEAD_PT_MAX
    &&& ad.len() <= AEAD_AAD_MAX
}

/// The state after accepting an opening message: the Diffie-Hellman step,
/// then one receiving-chain step.
pub open spec fn decrypt_initial_post(
    v: EncRatchetV,
    h: HeaderV,
    new_dhs: (Seq<u8>, Seq<u8>),
) -> EncRatchetV {
    let w = enc_dhratchet_spec(v, h, new_dhs);
    EncRatchetV { ckr: Some(kdf_ck_next(w.ckr->Some_0)), nr: 1u64, ..w }
}

/// Alice's freshly initialised encryption ratchet toward a remote key: the
/// root stepped once, the sending chain and next sending header key derived,
/// the agreed header keys in place, nothing received yet; and the agreement
/// is symmetric, so the remote key's owner derives the same secret against
/// this ratchet's public key.
pub open spec fn enc_alice_init_ok(
    v: EncRatchetV,
    rk: Seq<u8>,
    pk: Seq<u8>,
    shka: Seq<u8>,
    snhkb: Seq<u8>,
) -> bool {
    &&& v.dhr == Some(pk)
    &&& v.rk == kdf_he_root(rk, p256_dh_of(v.dhs.0, pk))
    &&& v.cks == Some(kdf_he_chain(rk, p256_dh_of(v.dhs.0, pk)))
    &&& v.nhks == Some(kdf_he_hk(rk, p256_dh_of(v.dhs.0, pk)))
    &&& v.hks == Some(shka)
    &&& v.nhkr == Some(snhkb)
    &&& v.ckr is None
    &&& v.hkr is None
    &&& v.ns == 0 && v.nr == 0 && v.pn == 0
    &&& v.mkskipped.len() == 0
    &&& forall|sk2: Seq<u8>|
        crate::dh::p256_valid_sk(sk2) && pk == crate::dh::p256_pk_of(sk2) ==> p256_dh_of(
            v.dhs.0,
            pk,
        ) == #[trigger] p256_dh_of(sk2, v.dhs.1)
}

/// Bob's freshly initialised encryption ratchet: the shared secret as root
/// key, no chains or current header keys, the next header keys crossed with
/// Alice's.
pub open spec fn enc_bob_init_ok(
    v: EncRatchetV,
    rk: Seq<u8>,
    shka: Seq<u8>,
    snhkb: Seq<u8>,
) -> bool {
    &&& v.dhr is None
    &&& v.rk == rk
    &&& v.cks is None
    &&& v.ckr is None
    &&& v.hks is None
    &&& v.hkr is None
    &&& v.nhks == Some(snhkb)
    &&& v.nhkr == Some(shka)
    &&& v.ns == 0 && v.nr == 0 && v.pn == 0
    &&& v.mkskipped.len() == 0
}

impl EncRatchet {
    /// The state is well formed.
    pub open spec fn wf(&self) -> bool {
        enc_wf(self@)
    }

    /// The ratchet can encrypt: its sending chain is seeded.
    pub open spec fn can_send(&self) -> bool {
        self@.cks is Some
    }

    /// Alice's initial state: seeded towards Bob's public key, sending
    /// header key `shka`, next receiving header key `snhkb`.
    pub fn init_alice(rk: &[u8], bob_public_key: &[u8], shka: &[u8], snhkb: &[u8]) -> (r:
        EncRatchet)
        requires
            rk@.len() == 32,
            shka@.len() == 32,
            snhkb@.len() == 32,
            p256_valid_pk(bob_public_key@),
            bob_public_key@.len() <= u64::MAX,
        ensures
            r.wf(),
            r.can_send(),
            enc_alice_init_ok(r@, rk@, bob_public_key@, shka@, snhkb@),
    {
        let dhs = DhKeyPair::new();
        let shared = dhs.key_agreement(bob_public_key);
        proof {
            assert forall|sk2: Seq<u8>|
                crate::dh::p256_valid_sk(sk2) && bob_public_key@ == crate::dh::p256_pk_of(
                    sk2,
                ) implies p256_dh_of(dhs.private_key@, bob_public_key@) == #[trigger] p256_dh_of(
                sk2,
                dhs.public_key@,
            ) by {
                assert(shared@ == p256_dh_of(sk2, dhs.public_key@));
            }
        }
        let (rk_new, cks, nhks) = kdf_rk_he(rk, shared.as_slice());
        let r = EncRatchet {
            dhs,
            dhr: Some(slice_to_vec(bob_public_key)),
            rk: rk_new,
            ckr: None,
            cks: Some(cks),
            ns: 0,
            nr: 0,
            pn: 0,
            hks: Some(slice_to_vec(shka)),
            hkr: None,
            nhks: Some(nhks),
            nhkr: Some(slice_to_vec(snhkb)),
            mkskipped: Vec::new(),
        };
        proof {
            assert(r@.mkskipped =~= Seq::<((Seq<u8>, u64), Seq<u8>)>::empty());
        }
        r
    }

    /// Bob's initial state: no chains yet, his public key handed back for
    /// Alice, next header keys crossed with Alice's.
    pub fn init_bob(rk: &[u8], shka: &[u8], snhkb: &[u8]) -> (r: (EncRatchet, Vec<u8>))
        requires
            rk@.len() == 32,
            shka@.len() == 32,
            snhkb@.len() == 32,
        ensures
            r.0.wf(),
            r.1@ == r.0@.dhs.1,
            enc_bob_init_ok(r.0@, rk@, shka@, snhkb@),
    {
        let dhs = DhKeyPair::new();
        let public_key = dhs.ex_public_key_bytes();
        let r = EncRatchet {
            dhs,
            dhr: None,
            rk: slice_to_vec(rk),
            ckr: None,
            cks: None,
            ns: 0,
            nr: 0,
            pn: 0,
            hks: None,
            hkr: None,
            nhks: Some(slice_to_vec(snhkb)),
            nhkr: Some(slice_to_vec(shka)),
            mkskipped: Vec::new(),
        };
        proof {
            assert(r@.mkskipped =~= Seq::<((Seq<u8>, u64), Seq<u8>)>::empty());
        }
        (r, public_key)
    }

    /// An exact copy of the state.
    pub fn duplicate(&self) -> (r: EncRatchet)
        ensures
            r@ == self@,
    {
        let r = EncRatchet {
            dhs: self.dhs.duplicate(),
            dhr: copy_opt_bytes(&self.dhr),
            rk: slice_to_vec(self.rk.as_slice()),
            ckr: copy_opt_bytes(&self.ckr),
            cks: copy_opt_bytes(&self.cks),
            ns: self.ns,
            nr: self.nr,
            pn: self.pn,
            hks: copy_opt_bytes(&self.hks),
            hkr: copy_opt_bytes(&self.hkr),
            nhks: copy_opt_bytes(&self.nhks),
            nhkr: copy_opt_bytes(&self.nhkr),
            mkskipped: copy_skipped(&self.mkskipped),
        };
        proof {
            assert(r@.mkskipped =~= self@.mkskipped);
        }
        r
    }

    /// Encrypt one message: step the sending chain, build and encrypt the
    /// header under the current header key, encrypt the content under the
    /// fresh message key with a fresh random nonce and the caller's
    /// associated data. Returns (encrypted header, header nonce, ciphertext,
    /// content nonce).
    pub fn ratchet_encrypt(&mut self, plaintext: &[u8], ad: &[u8]) -> (r: (
        Vec<u8>,
        Vec<u8>,
        Vec<u8>,
        Vec<u8>,
    ))
        requires
            old(self).wf(),
            old(self).can_send(),
            old(self)@.ns < u64::MAX,
            plaintext@.len() <= AEAD_PT_MAX,
            ad@.len() <= AEAD_AAD_MAX,
            ad@.len() + 65 <= AEAD_PT_MAX,
        ensures
            final(self).wf(),
            final(self).can_send(),
            old(self)@.cks matches Some(ck) ==> {
                &&& final(self)@ == (EncRatchetV {
                    cks: Some(kdf_ck_next(ck)),
                    ns: (old(self)@.ns + 1) as u64,
                    ..old(self)@
                })
                &&& r.0@ == gcm_siv_ct_of(
                    old(self)@.hks->Some_0,
                    zero_nonce_spec(),
                    Seq::<u8>::empty(),
                    header_wire(
                        ad@,
                        HeaderV { pk: old(self)@.dhs.1, pn: old(self)@.pn, n: old(self)@.ns },
                    ),
                )
                &&& r.1@ == zero_nonce_spec()
                &&& r.2@ == gcm_ct_of(kdf_ck_mk(ck), r.3@, ad@, plaintext@)
                &&& r.2@.len() == plaintext@.len() + 16
                &&& r.3@.len() == 12
            },
    {
        let ck = match &self.cks {
            None => {
                proof {
                    assert(false);
                }
                unreached()
            },
            Some(c) => slice_to_vec(c.as_slice()),
        };
        let (next, mk) = kdf_ck(ck.as_slice());
        self.cks = Some(next);
        let header = Header::new(&self.dhs, self.pn, self.ns);
        let hks = match &self.hks {
            None => {
                proof {
                    assert(false);
                }
                unreached()
            },
            Some(k) => slice_to_vec(k.as_slice()),
        };
        let (ehdr, hnonce) = header.encrypt(hks.as_slice(), ad);
        let cnonce = os_random_bytes(12);
        let ct = gcm_seal(mk.as_slice(), cnonce.as_slice(), ad, plaintext);
        self.ns = self.ns + 1;
        (ehdr, hnonce, ct, cnonce)
    }

    /// Destroy the ratchet's secrets: overwrite every key with zeros in
    /// place, drop every cached entry after wiping it, and clear the
    /// counters. The ratchet is unusable afterwards.
    pub fn close(&mut self)
        ensures
            enc_closed(final(self)@),
    {
        crate::bytes::wipe_bytes(&mut self.dhs.private_key);
        crate::bytes::wipe_bytes(&mut self.dhs.public_key);
        crate::bytes::wipe_opt_bytes(&mut self.dhr);
        crate::bytes::wipe_bytes(&mut self.rk);
        crate::bytes::wipe_opt_bytes(&mut self.ckr);
        crate::bytes::wipe_opt_bytes(&mut self.cks);
        crate::bytes::wipe_opt_bytes(&mut self.hks);
        crate::bytes::wipe_opt_bytes(&mut self.hkr);
        crate::bytes::wipe_opt_bytes(&mut self.nhks);
        crate::bytes::wipe_opt_bytes(&mut self.nhkr);
        self.ns = 0;
        self.nr = 0;
        self.pn = 0;
        while self.mkskipped.len() > 0
            invariant
                enc_closed_but_cache(self@),
            decreases self.mkskipped@.len(),
        {
            let mut e = match self.mkskipped.pop() {
                Some(e) => e,
                None => {
                    proof {
                        assert(false);
                    }
                    unreached()
                },
            };
            crate::bytes::wipe_bytes(&mut e.0.0);
            crate::bytes::wipe_bytes(&mut e.1);
        }
    }

    /// Fill the receiving chain's skipped keys up to message `until`,
    /// caching them under the current receiving header key.
    fn skip_message_keys(&mut self, until: u64) -> (r: Result<(), EncRatchetError>)
        requires
            old(self).wf(),
        ensures
            final(self).wf(),
            r is Err <==> old(self)@.nr + MAX_SKIP < until,
            r is Err ==> r == Err::<(), EncRatchetError>(EncRatchetError::SkippedTooMany)
                && final(self)@ == old(self)@,
            r is Ok ==> {
                &&& (old(self)@.ckr is Some ==> final(self)@.nr == if old(self)@.nr >= until {
                    old(self)@.nr
                } else {
                    until
                })
                &&& (old(self)@.ckr is None ==> final(self)@ == old(self)@)
                &&& (old(self)@.nr >= until ==> final(self)@ == old(self)@)
                &&& (old(self)@.ckr is Some && old(self)@.nr < until ==> final(self)@.ckr == Some(
                    crate::kdf::ck_after(old(self)@.ckr->Some_0, (until - old(self)@.nr) as nat),
                ) && final(self)@.mkskipped == old(self)@.mkskipped + fill_entries(
                    old(self)@.hkr->Some_0,
                    old(self)@.ckr->Some_0,
                    old(self)@.nr,
                    until,
                ))
                &&& final(self)@.ns == old(self)@.ns
                &&& final(self)@.pn == old(self)@.pn
                &&& final(self)@.dhs == old(self)@.dhs
                &&& final(self)@.dhr == old(self)@.dhr
                &&& final(self)@.rk == old(self)@.rk
                &&& final(self)@.cks == old(self)@.cks
                &&& final(self)@.hks == old(self)@.hks
                &&& final(self)@.hkr == old(self)@.hkr
                &&& final(self)@.nhks == old(self)@.nhks
                &&& final(self)@.nhkr == old(self)@.nhkr
                &&& final(self)@.ckr is Some <==> old(self)@.ckr is Some
            },
    {
        if until > MAX_SKIP && self.nr < until - MAX_SKIP {
            return Err(EncRatchetError::SkippedTooMany);
        }
        if self.ckr.is_none() {
            return Ok(());
        }
        if self.nr >= until {
            return Ok(());
        }
        let hk = match &self.hkr {
            None => {
                proof {
                    assert(false);
                }
                unreached()
            },
            Some(k) => slice_to_vec(k.as_slice()),
        };
        while self.nr < until
            invariant
                self.wf(),
                self@.ckr is Some,
                hk@.len() == 32,
                self@.ns == old(self)@.ns,
                self@.pn == old(self)@.pn,
                self@.dhs == old(self)@.dhs,
                self@.dhr == old(self)@.dhr,
                self@.rk == old(self)@.rk,
                self@.cks == old(self)@.cks,
                self@.hks == old(self)@.hks,
                self@.hkr == old(self)@.hkr,
                self@.nhks == old(self)@.nhks,
                self@.nhkr == old(self)@.nhkr,
                self@.nr >= old(self)@.nr,
                self@.nr <= until || self@.nr == old(self)@.nr,
                hk@ == old(self)@.hkr->Some_0,
                self@.ckr == Some(
                    crate::kdf::ck_after(
                        old(self)@.ckr->Some_0,
                        (self@.nr - old(self)@.nr) as nat,
                    ),
                ),
                self@.mkskipped == old(self)@.mkskipped + fill_entries(
                    old(self)@.hkr->Some_0,
                    old(self)@.ckr->Some_0,
                    old(self)@.nr,
                    self@.nr,
                ),
            decreases until - self.nr,
        {
            let ghost steps = (self@.nr - old(self)@.nr) as nat;
            let ck = match &self.ckr {
                None => {
                    proof {
                        assert(false);
                    }
                    unreached()
                },
                Some(c) => slice_to_vec(c.as_slice()),
            };
            let (next, mk) = kdf_ck(ck.as_slice());
            self.ckr = Some(next);
            let ghost m = self@.mkskipped;
            self.mkskipped.push(((slice_to_vec(hk.as_slice()), self.nr), mk));
            proof {
                assert(self@.mkskipped =~= m.push(((hk@, self.nr), kdf_ck_mk(ck@))));
                assert(crate::kdf::ck_after(old(self)@.ckr->Some_0, (steps + 1) as nat)
                    == kdf_ck_next(ck@));
                assert(self@.mkskipped =~= old(self)@.mkskipped + fill_entries(
                    old(self)@.hkr->Some_0,
                    old(self)@.ckr->Some_0,
                    old(self)@.nr,
                    (self@.nr + 1) as u64,
                ));
            }
            self.nr = self.nr + 1;
        }
        proof {
            assert(self@.mkskipped =~= old(self)@.mkskipped + fill_entries(
                old(self)@.hkr->Some_0,
                old(self)@.ckr->Some_0,
                old(self)@.nr,
                until,
            ));
        }
        Ok(())
    }

    /// A Diffie-Hellman step on receipt of a header carrying a new remote
    /// public key: header keys shift to the next ones, the receiving chain
    /// is derived with the old local pair, the pair rotates, and the sending
    /// chain is derived with the new one.
    fn dhratchet(&mut self, header: &Header)
        requires
            old(self).wf(),
            p256_valid_pk(header@.pk),
            header@.pk.len() <= u64::MAX,
        ensures
            final(self).wf(),
            final(self)@ == enc_dhratchet_spec(old(self)@, header@, final(self)@.dhs),
    {
        self.pn = self.ns;
        self.ns = 0;
        self.nr = 0;
        self.hks = copy_opt_bytes(&self.nhks);
        self.hkr = copy_opt_bytes(&self.nhkr);
        self.dhr = Some(header.ex_public_key_bytes());
        let shared1 = self.dhs.key_agreement(header.public_key.as_slice());
        let (rk1, ckr, nhkr) = kdf_rk_he(self.rk.as_slice(), shared1.as_slice());
        self.rk = rk1;
        self.ckr = Some(ckr);
        self.nhkr = Some(nhkr);
        self.dhs = DhKeyPair::new();
        let shared2 = self.dhs.key_agreement(header.public_key.as_slice());
        let (rk2, cks, nhks) = kdf_rk_he(self.rk.as_slice(), shared2.as_slice());
        self.rk = rk2;
        self.cks = Some(cks);
        self.nhks = Some(nhks);
    }

    /// Decrypt one message given its encrypted header, content ciphertext
    /// and nonces. On any failure the state is exactly as it was before the
    /// call; on success it has advanced past the message.
    pub fn ratchet_decrypt_w_header(
        &mut self,
        enc_header: &[u8],
        hnonce: &[u8],
        ciphertext: &[u8],
        cnonce: &[u8],
        ad: &[u8],
    ) -> (r: Result<(Vec<u8>, Header), EncRatchetError>)
        requires
            old(self).wf(),
            hnonce@.len() == 12,
            cnonce@.len() == 12,
        ensures
            final(self).wf(),
            r is Err ==> final(self)@ == old(self)@,
            r matches Ok(p) ==> ciphertext@.len() >= 16 && p.0@.len() == ciphertext@.len() - 16,
            r is Ok ==> decrypt_advanced(old(self)@, final(self)@),
            forall|adh: Seq<u8>, h: crate::header::HeaderV, pt: Seq<u8>|
                #[trigger] decrypt_current_ok(
                    old(self)@,
                    enc_header@,
                    hnonce@,
                    ciphertext@,
                    cnonce@,
                    ad@,
                    adh,
                    h,
                    pt,
                ) ==> (r matches Ok(p) && p.0@ == pt && p.1@ == h && final(self)@
                    == decrypt_current_post(old(self)@)),
            forall|adh: Seq<u8>, h: crate::header::HeaderV, pt: Seq<u8>|
                #[trigger] decrypt_initial_ok(
                    old(self)@,
                    enc_header@,
                    hnonce@,
                    ciphertext@,
                    cnonce@,
                    ad@,
                    adh,
                    h,
                    pt,
                ) ==> (r matches Ok(p) && p.0@ == pt && p.1@ == h && final(self)@
                    == decrypt_initial_post(old(self)@, h, final(self)@.dhs)),
            forall|adh: Seq<u8>, h: crate::header::HeaderV|
                #[trigger] decrypt_current_badcontent(
                    old(self)@,
                    enc_header@,
                    hnonce@,
                    ciphertext@,
                    cnonce@,
                    ad@,
                    adh,
                    h,
                ) ==> r == Err::<(Vec<u8>, Header), EncRatchetError>(
                    EncRatchetError::ContentAuthFailed,
                ),
    {
        let mut work = self.duplicate();
        match Self::decrypt_step(&mut work, enc_header, hnonce, ciphertext, cnonce, ad) {
            Ok(p) => {
                *self = work;
                Ok(p)
            },
            Err(e) => Err(e),
        }
    }

    /// The decryption work, on a state that may be discarded on failure.
    fn decrypt_step(
        work: &mut EncRatchet,
        enc_header: &[u8],
        hnonce: &[u8],
        ciphertext: &[u8],
        cnonce: &[u8],
        ad: &[u8],
    ) -> (r: Result<(Vec<u8>, Header), EncRatchetError>)
        requires
            old(work).wf(),
            hnonce@.len() == 12,
            cnonce@.len() == 12,
        ensures
            final(work).wf(),
            r matches Ok(p) ==> ciphertext@.len() >= 16 && p.0@.len() == ciphertext@.len() - 16,
            r is Ok ==> decrypt_advanced(old(work)@, final(work)@),
            forall|adh: Seq<u8>, h: crate::header::HeaderV, pt: Seq<u8>|
                #[trigger] decrypt_current_ok(
                    old(work)@,
                    enc_header@,
                    hnonce@,
                    ciphertext@,
                    cnonce@,
                    ad@,
                    adh,
                    h,
                    pt,
                ) ==> (r matches Ok(p) && p.0@ == pt && p.1@ == h && final(work)@
                    == decrypt_current_post(old(work)@)),
            forall|adh: Seq<u8>, h: crate::header::HeaderV, pt: Seq<u8>|
                #[trigger] decrypt_initial_ok(
                    old(work)@,
                    enc_header@,
                    hnonce@,
                    ciphertext@,
                    cnonce@,
                    ad@,
                    adh,
                    h,
                    pt,
                ) ==> (r matches Ok(p) && p.0@ == pt && p.1@ == h && final(work)@
                    == decrypt_initial_post(old(work)@, h, final(work)@.dhs)),
            forall|adh: Seq<u8>, h: crate::header::HeaderV|
                #[trigger] decrypt_current_badcontent(
                    old(work)@,
                    enc_header@,
                    hnonce@,
                    ciphertext@,
                    cnonce@,
                    ad@,
                    adh,
                    h,
                ) ==> r == Err::<(Vec<u8>, Header), EncRatchetError>(
                    EncRatchetError::ContentAuthFailed,
                ),
    {
        // First, the cached keys of skipped messages.
        let mut k: usize = 0;
        let mut hit: Option<(usize, Header)> = None;
        while k < work.mkskipped.len() && hit.is_none()
            invariant
                work.wf(),
                hnonce@.len() == 12,
                hit matches Some((i, h)) ==> i < work.mkskipped@.len(),
            decreases work.mkskipped@.len() - k,
        {
            proof {
                assert(work@.mkskipped[k as int] == ((work.mkskipped@[k as int].0.0@,
                    work.mkskipped@[k as int].0.1), work.mkskipped@[k as int].1@));
            }
            let entry_hk = Some(slice_to_vec(work.mkskipped[k].0.0.as_slice()));
            match Header::decrypt(&entry_hk, enc_header, hnonce) {
                Some(h) => {
                    if h.n == work.mkskipped[k].0.1 {
                        hit = Some((k, h));
                    }
                },
                None => {},
            }
            k = k + 1;
        }
        if let Some((idx, header)) = hit {
            proof {
                assert(work@.mkskipped[idx as int] == ((work.mkskipped@[idx as int].0.0@,
                    work.mkskipped@[idx as int].0.1), work.mkskipped@[idx as int].1@));
            }
            let mk = slice_to_vec(work.mkskipped[idx].1.as_slice());
            let plaintext = match gcm_open(mk.as_slice(), cnonce, ad, ciphertext) {
                None => {
                    return Err(EncRatchetError::ContentAuthFailed);
                },
                Some(p) => p,
            };
            let ghost m = work@.mkskipped;
            let _ = work.mkskipped.remove(idx);
            proof {
                assert(work@.mkskipped =~= m.remove(idx as int));
                assert forall|i: int|
                    0 <= i < work@.mkskipped.len() implies (#[trigger] work@.mkskipped[i]).1.len()
                    == 32 && work@.mkskipped[i].0.0.len() <= u64::MAX
                    && work@.mkskipped[i].0.0.len() == 32 by {
                    assert(m.remove(idx as int)[i] == if i < idx as int {
                        m[i]
                    } else {
                        m[i + 1]
                    });
                }
            }
            return Ok((plaintext, header));
        }
        // Then the current receiving header key, staying in the chain.
        match Header::decrypt(&work.hkr, enc_header, hnonce) {
            Some(header) => {
                match work.skip_message_keys(header.n) {
                    Err(e) => {
                        return Err(e);
                    },
                    Ok(()) => {},
                }
                let ck = match &work.ckr {
                    None => {
                        // The current header key opened the header, so the
                        // receiving chain was seeded.
                        return Err(EncRatchetError::HeaderAuthFailed);
                    },
                    Some(c) => slice_to_vec(c.as_slice()),
                };
                let (next, mk) = kdf_ck(ck.as_slice());
                let plaintext = match gcm_open(mk.as_slice(), cnonce, ad, ciphertext) {
                    None => {
                        return Err(EncRatchetError::ContentAuthFailed);
                    },
                    Some(p) => p,
                };
                work.ckr = Some(next);
                if work.nr == u64::MAX {
                    return Err(EncRatchetError::SkippedTooMany);
                }
                work.nr = work.nr + 1;
                return Ok((plaintext, header));
            },
            None => {},
        }
        // Finally the next header key, which announces a Diffie-Hellman
        // step.
        let header = match Header::decrypt(&work.nhkr, enc_header, hnonce) {
            None => {
                return Err(EncRatchetError::HeaderAuthFailed);
            },
            Some(h) => h,
        };
        if !crate::dh::check_public_key(header.public_key.as_slice()) {
            return Err(EncRatchetError::HeaderAuthFailed);
        }
        if header.public_key.len() > 65 {
            return Err(EncRatchetError::HeaderAuthFailed);
        }
        match work.skip_message_keys(header.pn) {
            Err(e) => {
                return Err(e);
            },
            Ok(()) => {},
        }
        work.dhratchet(&header);
        match work.skip_message_keys(header.n) {
            Err(e) => {
                return Err(e);
            },
            Ok(()) => {},
        }
        let ck = match &work.ckr {
            None => {
                proof {
                    assert(false);
                }
                unreached()
            },
            Some(c) => slice_to_vec(c.as_slice()),
        };
        let (next, mk) = kdf_ck(ck.as_slice());
        let plaintext = match gcm_open(mk.as_slice(), cnonce, ad, ciphertext) {
            None => {
                return Err(EncRatchetError::ContentAuthFailed);
            },
            Some(p) => p,
        };
        work.ckr = Some(next);
        if work.nr == u64::MAX {
            return Err(EncRatchetError::SkippedTooMany);
        }
        work.nr = work.nr + 1;
        Ok((plaintext, header))
    }
}

/// Copy an optional byte string.
pub(crate) fn copy_opt_bytes(o: &Option<Vec<u8>>) -> (r: Option<Vec<u8>>)
    ensures
        opt_bytes_view(r) == opt_bytes_view(*o),
{
    match o {
        None => None,
        Some(b) => Some(slice_to_vec(b.as_slice())),
    }
}

/// Copy a skipped-key cache.
pub(crate) fn copy_skipped(v: &Vec<SkippedEntry>) -> (r: Vec<SkippedEntry>)
    ensures
        r@.map_values(|e: SkippedEntry| ((e.0.0@, e.0.1), e.1@)) == v@.map_values(
            |e: SkippedEntry| ((e.0.0@, e.0.1), e.1@),
        ),
{
    let mut r: Vec<SkippedEntry> = Vec::new();
    let mut k: usize = 0;
    while k < v.len()
        invariant
            0 <= k <= v@.len(),
            r@.map_values(|e: SkippedEntry| ((e.0.0@, e.0.1), e.1@)) == v@.subrange(
                0,
                k as int,
            ).map_values(|e: SkippedEntry| ((e.0.0@, e.0.1), e.1@)),
        decreases v@.len() - k,
    {
        let entry = &v[k];
        let copy: SkippedEntry = (
            (slice_to_vec(entry.0.0.as_slice()), entry.0.1),
            slice_to_vec(entry.1.as_slice()),
        );
        r.push(copy);
        proof {
            assert(v@.subrange(0, k + 1) =~= v@.subrange(0, k as int).push(v@[k as int]));
            assert(v@.subrange(0, k as int).push(v@[k as int]).map_values(
                |e: SkippedEntry| ((e.0.0@, e.0.1), e.1@),
            ) =~= v@.subrange(0, k as int).map_values(|e: SkippedEntry| ((e.0.0@, e.0.1), e.1@)).push(
                ((v@[k as int].0.0@, v@[k as int].0.1), v@[k as int].1@),
            ));
            assert(r@.map_values(|e: SkippedEntry| ((e.0.0@, e.0.1), e.1@)) =~= v@.subrange(
                0,
                k + 1,
            ).map_values(|e: SkippedEntry| ((e.0.0@, e.0.1), e.1@)));
        }
        k = k + 1;
    }
    proof {
        assert(v@.subrange(0, v@.len() as int) =~= v@);
    }
    r
}

} // verus!
