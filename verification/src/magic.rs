//! The Magic Ratchet.
//!
//! One encryption ratchet and N address ratchets advancing in lock-step. A
//! send steps every address ratchet for the N storage addresses, frames the
//! address headers with the message, encrypts the frame through the
//! encryption ratchet, Shamir-shares the small header bundle with threshold
//! N, splits the content into N blocks, and pairs each (header share,
//! content block) with its address. A receive is the exact inverse, and on
//! any failure leaves the state untouched: everything is staged and only
//! committed once the message is fully accepted.

use vstd::prelude::*;
use vstd::slice::slice_to_vec;

use crate::address_ratchet::{process_recv_spec, AddressRatchet, AddressRatchetV};
use crate::aead::{gcm_ct_of, gcm_siv_ct_of, AEAD_AAD_MAX, AEAD_PT_MAX};
use crate::dh::p256_valid_pk;
use crate::enc_ratchet::{EncRatchet, EncRatchetError, EncRatchetV};
use crate::header::{header_wire, zero_nonce_spec, Header, HeaderV};
use crate::kdf::{kdf_ck_mk, kdf_ck_next};
use crate::sharing::{concat_all, SharingAlgorithm, SharingError, ThresholdSharingAlgorithm};
use crate::sharing::block::BlockSharing;
use crate::sharing::shamir::ShamirSecretSharing;
use crate::wire::{decode_meta, decode_plaintext, decode_share, encode_meta, encode_plaintext,
    encode_share, meta_wire, plaintext_wire, share_wire};

verus! {

/// Why a Magic Ratchet operation can fail.
#[derive(Debug, PartialEq, Eq, Structural)]
pub enum MagicRatchetError {
    /// A value could not be framed for the wire.
    SerializationError,
    /// A wire value or an imported state could not be parsed.
    DeserializationError,
    /// Shamir sharing refused the parameters.
    ShamirSharingError(SharingError),
    /// Block sharing refused the parameters.
    BlockSharingError(SharingError),
    /// The header bundle could not be reconstructed from the shares.
    ShamirReconstructError(SharingError),
    /// The content could not be reconstructed from the blocks.
    BlockReconstructError(SharingError),
    /// No header key opened the encrypted header.
    HeaderAuthFailed,
    /// The header opened but the content did not authenticate.
    ContentAuthFailed,
    /// Accepting the message would cache more than `MAX_SKIP` keys.
    SkippedTooMany,
    /// The message did not carry one address header per address ratchet.
    HeaderCountMismatch,
}

/// One stored share: the storage address and the blob written there.
pub type AddressShare = (Vec<u8>, Vec<u8>);

/// The mathematical content of a Magic Ratchet.
pub ghost struct MagicRatchetV {
    pub enc: EncRatchetV,
    pub share_number: int,
    pub addrs: Seq<AddressRatchetV>,
    pub skipped: Seq<Seq<Seq<u8>>>,
}

/// The per-pair state machine: the encryption ratchet, the address ratchets,
/// and the set of address tuples already polled.
#[derive(Debug)]
pub struct MagicRatchet {
    pub enc_ratchet: EncRatchet,
    pub share_number: usize,
    pub address_ratchets: Vec<AddressRatchet>,
    pub skipped_addresses: Vec<Vec<Vec<u8>>>,
}

impl View for MagicRatchet {
    type V = MagicRatchetV;

    open spec fn view(&self) -> MagicRatchetV {
        MagicRatchetV {
            enc: self.enc_ratchet@,
            share_number: self.share_number as int,
            addrs: self.address_ratchets@.map_values(|a: AddressRatchet| a@),
            skipped: self.skipped_addresses@.map_values(
                |t: Vec<Vec<u8>>| t@.map_values(|a: Vec<u8>| a@),
            ),
        }
    }
}

/// The encoded address headers that a send would emit in state `addrs`.
pub open spec fn addr_headers_of(addrs: Seq<AddressRatchetV>) -> Seq<Seq<u8>> {
    Seq::new(
        addrs.len(),
        |i: int|
            header_wire(
                Seq::<u8>::empty(),
                HeaderV { pk: addrs[i].dhs.1, pn: addrs[i].pn, n: addrs[i].ns },
            ),
    )
}

/// Well-formedness of a Magic Ratchet state: every ratchet is well formed,
/// and there is one address ratchet per share, with a share count the Shamir
/// splitter accepts.
pub open spec fn magic_wf_v(v: MagicRatchetV) -> bool {
    &&& crate::enc_ratchet::enc_wf(v.enc)
    &&& 1 <= v.share_number <= 255
    &&& v.addrs.len() == v.share_number
    &&& forall|i: int|
        0 <= i < v.addrs.len() ==> crate::address_ratchet::addr_wf(#[trigger] v.addrs[i])
}

impl MagicRatchet {
    /// The state is well formed.
    pub open spec fn wf(&self) -> bool {
        magic_wf_v(self@)
    }

    /// Every ratchet can step its sending chain.
    pub open spec fn can_send(&self) -> bool {
        &&& self.enc_ratchet.can_send()
        &&& forall|i: int| 0 <= i < self@.addrs.len() ==> (#[trigger] self@.addrs[i]).cks is Some
    }

    /// Every ratchet can step its receiving chain.
    pub open spec fn can_poll(&self) -> bool {
        forall|i: int| 0 <= i < self@.addrs.len() ==> (#[trigger] self@.addrs[i]).ckr is Some
    }

    /// No send counter is saturated.
    pub open spec fn counters_ok(&self) -> bool {
        &&& self@.enc.ns < u64::MAX
        &&& forall|i: int| 0 <= i < self@.addrs.len() ==> (#[trigger] self@.addrs[i]).ns < u64::MAX
    }

    /// Alice's initial state, from the session secrets and Bob's public
    /// keys: able to send at once.
    pub fn init_alice(
        enc_rk: &[u8],
        enc_pk: &[u8],
        shka: &[u8],
        snhkb: &[u8],
        share_number: usize,
        address_rks: &Vec<Vec<u8>>,
        address_pks: &Vec<Vec<u8>>,
    ) -> (r: MagicRatchet)
        requires
            enc_rk@.len() == 32,
            shka@.len() == 32,
            snhkb@.len() == 32,
            p256_valid_pk(enc_pk@),
            enc_pk@.len() <= u64::MAX,
            1 <= share_number <= 255,
            address_rks@.len() == share_number,
            address_pks@.len() == share_number,
            forall|i: int|
                0 <= i < address_rks@.len() ==> (#[trigger] address_rks@[i])@.len() == 32,
            forall|i: int|
                0 <= i < address_pks@.len() ==> p256_valid_pk((#[trigger] address_pks@[i])@) && (
                address_pks@[i])@.len() <= u64::MAX,
        ensures
            r.wf(),
            r.can_send(),
            r.counters_ok(),
            r@.share_number == share_number,
            r@.skipped.len() == 0,
            crate::enc_ratchet::enc_alice_init_ok(r@.enc, enc_rk@, enc_pk@, shka@, snhkb@),
            forall|i: int|
                0 <= i < share_number ==> crate::address_ratchet::alice_init_ok(
                    #[trigger] r@.addrs[i],
                    (address_rks@[i])@,
                    (address_pks@[i])@,
                ),
    {
        let enc_ratchet = EncRatchet::init_alice(enc_rk, enc_pk, shka, snhkb);
        let mut address_ratchets: Vec<AddressRatchet> = Vec::new();
        let mut k: usize = 0;
        while k < share_number
            invariant
                address_rks@.len() == share_number,
                address_pks@.len() == share_number,
                forall|i: int|
                    0 <= i < address_rks@.len() ==> (#[trigger] address_rks@[i])@.len() == 32,
                forall|i: int|
                    0 <= i < address_pks@.len() ==> p256_valid_pk((#[trigger] address_pks@[i])@)
                        && (address_pks@[i])@.len() <= u64::MAX,
                0 <= k <= share_number,
                address_ratchets@.len() == k as int,
                forall|i: int|
                    0 <= i < k ==> crate::address_ratchet::addr_wf(
                        (#[trigger] address_ratchets@[i])@,
                    ) && crate::address_ratchet::alice_init_ok(
                        address_ratchets@[i]@,
                        (address_rks@[i])@,
                        (address_pks@[i])@,
                    ),
            decreases share_number - k,
        {
            let rt = AddressRatchet::init_alice(
                address_rks[k].as_slice(),
                address_pks[k].as_slice(),
            );
            address_ratchets.push(rt);
            k = k + 1;
        }
        let r = MagicRatchet {
            enc_ratchet,
            share_number,
            address_ratchets,
            skipped_addresses: Vec::new(),
        };
        proof {
            assert(r@.skipped =~= Seq::<Seq<Seq<u8>>>::empty());
            assert(forall|i: int|
                0 <= i < r@.addrs.len() ==> r@.addrs[i] == (#[trigger] r.address_ratchets@[i])@);
        }
        r
    }

    /// Bob's initial state, from the session secrets alone; hands back the
    /// public keys Alice needs. Bob cannot send until he has received once.
    pub fn init_bob(
        enc_rk: &[u8],
        shka: &[u8],
        snhkb: &[u8],
        share_number: usize,
        address_rks: &Vec<Vec<u8>>,
    ) -> (r: (MagicRatchet, Vec<u8>, Vec<Vec<u8>>))
        requires
            enc_rk@.len() == 32,
            shka@.len() == 32,
            snhkb@.len() == 32,
            1 <= share_number <= 255,
            address_rks@.len() == share_number,
            forall|i: int|
                0 <= i < address_rks@.len() ==> (#[trigger] address_rks@[i])@.len() == 32,
        ensures
            r.0.wf(),
            r.0.counters_ok(),
            r.0@.share_number == share_number,
            r.0@.skipped.len() == 0,
            r.1@ == r.0@.enc.dhs.1,
            r.2@.len() == share_number,
            forall|i: int|
                0 <= i < r.2@.len() ==> (#[trigger] r.2@[i])@ == r.0@.addrs[i].dhs.1,
            crate::enc_ratchet::enc_bob_init_ok(r.0@.enc, enc_rk@, shka@, snhkb@),
            forall|i: int|
                0 <= i < share_number ==> crate::address_ratchet::bob_init_ok(
                    #[trigger] r.0@.addrs[i],
                    (address_rks@[i])@,
                ),
    {
        let (enc_ratchet, enc_pk) = EncRatchet::init_bob(enc_rk, shka, snhkb);
        let mut address_ratchets: Vec<AddressRatchet> = Vec::new();
        let mut address_pks: Vec<Vec<u8>> = Vec::new();
        let mut k: usize = 0;
        while k < share_number
            invariant
                address_rks@.len() == share_number,
                forall|i: int|
                    0 <= i < address_rks@.len() ==> (#[trigger] address_rks@[i])@.len() == 32,
                0 <= k <= share_number,
                address_ratchets@.len() == k as int,
                address_pks@.len() == k as int,
                forall|i: int|
                    0 <= i < k ==> crate::address_ratchet::addr_wf(
                        (#[trigger] address_ratchets@[i])@,
                    ) && crate::address_ratchet::bob_init_ok(
                        address_ratchets@[i]@,
                        (address_rks@[i])@,
                    ),
                forall|i: int|
                    0 <= i < k ==> (#[trigger] address_pks@[i])@ == address_ratchets@[i]@.dhs.1,
            decreases share_number - k,
        {
            let (rt, pk) = AddressRatchet::init_bob(address_rks[k].as_slice());
            address_ratchets.push(rt);
            address_pks.push(pk);
            k = k + 1;
        }
        let r = MagicRatchet {
            enc_ratchet,
            share_number,
            address_ratchets,
            skipped_addresses: Vec::new(),
        };
        proof {
            assert(r@.skipped =~= Seq::<Seq<Seq<u8>>>::empty());
            assert(forall|i: int|
                0 <= i < r@.addrs.len() ==> r@.addrs[i] == (#[trigger] r.address_ratchets@[i])@);
        }
        (r, enc_pk, address_pks)
    }

    /// Send one message: step every ratchet once, and emit one (address,
    /// blob) pair per share. The addresses are the address ratchets' next
    /// message keys, in ratchet order; the blob pairs a Shamir share of the
    /// encrypted header bundle with a contiguous block of the content
    /// ciphertext.
    #[verifier::rlimit(100)]
    #[verifier::spinoff_prover]
    pub fn send(&mut self, data: &[u8], ad: &[u8]) -> (r: Result<
        Vec<AddressShare>,
        MagicRatchetError,
    >)
        requires
            old(self).wf(),
            old(self).can_send(),
            old(self).counters_ok(),
            data@.len() + 20000 <= AEAD_PT_MAX,
            data@.len() + 20000 < usize::MAX,
            ad@.len() + 65 <= AEAD_PT_MAX,
            ad@.len() <= AEAD_AAD_MAX,
        ensures
            final(self).wf(),
            final(self).can_send(),
            r is Ok,
            final(self)@.share_number == old(self)@.share_number,
            final(self)@.skipped == old(self)@.skipped,
            final(self)@.enc == (EncRatchetV {
                cks: Some(kdf_ck_next(old(self)@.enc.cks->Some_0)),
                ns: (old(self)@.enc.ns + 1) as u64,
                ..old(self)@.enc
            }),
            final(self)@.addrs.len() == old(self)@.addrs.len(),
            forall|i: int|
                0 <= i < old(self)@.addrs.len() ==> #[trigger] final(self)@.addrs[i]
                    == (AddressRatchetV {
                    cks: Some(kdf_ck_next(old(self)@.addrs[i].cks->Some_0)),
                    ns: (old(self)@.addrs[i].ns + 1) as u64,
                    ..old(self)@.addrs[i]
                }),
            r matches Ok(shares) ==> shares@.len() == old(self)@.share_number,
            r matches Ok(shares) ==> forall|i: int|
                0 <= i < shares@.len() ==> (#[trigger] shares@[i]).0@ == kdf_ck_mk(
                    old(self)@.addrs[i].cks->Some_0,
                ),
            r matches Ok(shares) ==> send_output_ok(old(self)@, data@, ad@, shares@),
    {
        let ghost old_addrs = self@.addrs;
        let n = self.share_number;

        // Step every address ratchet: one header and one address each.
        let mut headers: Vec<Vec<u8>> = Vec::new();
        let mut addresses: Vec<Vec<u8>> = Vec::new();
        let mut rest = Vec::new();
        core::mem::swap(&mut rest, &mut self.address_ratchets);
        let ghost rest0 = rest@;
        let mut done: Vec<AddressRatchet> = Vec::new();
        let empty_ad: Vec<u8> = Vec::new();
        proof {
            assert(empty_ad@ =~= Seq::<u8>::empty());
        }
        while rest.len() > 0
            invariant
                empty_ad@ == Seq::<u8>::empty(),
                old_addrs.len() == done@.len() + rest@.len(),
                forall|j: int|
                    0 <= j < rest@.len() ==> (#[trigger] rest@[j])@ == old_addrs[done@.len()
                        + j],
                forall|j: int|
                    0 <= j < old_addrs.len() ==> crate::address_ratchet::addr_wf(
                        #[trigger] old_addrs[j],
                    ) && old_addrs[j].cks is Some && old_addrs[j].ns < u64::MAX,
                headers@.len() == done@.len(),
                addresses@.len() == done@.len(),
                forall|j: int|
                    0 <= j < done@.len() ==> crate::address_ratchet::addr_wf(
                        (#[trigger] done@[j])@,
                    ) && done@[j]@ == (AddressRatchetV {
                        cks: Some(kdf_ck_next(old_addrs[j].cks->Some_0)),
                        ns: (old_addrs[j].ns + 1) as u64,
                        ..old_addrs[j]
                    }),
                forall|j: int|
                    0 <= j < done@.len() ==> (#[trigger] headers@[j])@ == addr_headers_of(
                        old_addrs,
                    )[j] && headers@[j]@.len() == 65,
                forall|j: int|
                    0 <= j < done@.len() ==> (#[trigger] addresses@[j])@ == kdf_ck_mk(
                        old_addrs[j].cks->Some_0,
                    ),
            decreases rest@.len(),
        {
            let ghost j = done@.len() as int;
            let mut rt = rest.remove(0);
            proof {
                assert(rt@ == old_addrs[j]);
            }
            let (header, address) = match rt.ratchet_send() {
                Ok(p) => p,
                Err(_) => {
                    proof {
                        assert(false);
                    }
                    unreached()
                },
            };
            let header_bytes = header.concat(empty_ad.as_slice());
            proof {
                assert(header_bytes@ == header_wire(
                    Seq::<u8>::empty(),
                    HeaderV { pk: old_addrs[j].dhs.1, pn: old_addrs[j].pn, n: old_addrs[j].ns },
                ));
                assert(addr_headers_of(old_addrs)[j] == header_wire(
                    Seq::<u8>::empty(),
                    HeaderV { pk: old_addrs[j].dhs.1, pn: old_addrs[j].pn, n: old_addrs[j].ns },
                ));
                assert(old_addrs[j].dhs.1.len() == 33);
            }
            headers.push(header_bytes);
            addresses.push(address);
            done.push(rt);
        }
        self.address_ratchets = done;
        proof {
            assert(headers@.map_values(|h: Vec<u8>| h@) =~= addr_headers_of(old_addrs));
        }

        // Frame the headers with the message and run the encryption ratchet.
        let message_bytes = encode_plaintext(&headers, data);
        proof {
            crate::wire::lemma_segs_wire_len_uniform(headers@.map_values(|h: Vec<u8>| h@), 65);
            assert(headers@.map_values(|h: Vec<u8>| h@).len() == old_addrs.len());
            assert(message_bytes@.len() == 16 + old_addrs.len() * 73 + data@.len());
            assert(old_addrs.len() * 73 <= 255 * 73) by (nonlinear_arith)
                requires
                    old_addrs.len() <= 255,
            ;
        }
        let (ehdr, hnonce, ct, cnonce) = self.enc_ratchet.ratchet_encrypt(
            message_bytes.as_slice(),
            ad,
        );
        let meta = encode_meta(ehdr.as_slice(), hnonce.as_slice(), cnonce.as_slice());

        // Split: the header bundle by Shamir with threshold n, the content
        // into n blocks.
        let shamir = ShamirSecretSharing::default();
        let block = BlockSharing::default();
        let meta_shares = match shamir.share(meta.as_slice(), n as u8, n as u8) {
            Ok(d) => d,
            Err(e) => {
                return Err(MagicRatchetError::ShamirSharingError(e));
            },
        };
        let blocks = match block.share(ct.as_slice(), n) {
            Ok(d) => d,
            Err(e) => {
                return Err(MagicRatchetError::BlockSharingError(e));
            },
        };

        // Pair each share with its address, in ratchet order.
        let mut out: Vec<AddressShare> = Vec::new();
        let mut k: usize = 0;
        while k < n
            invariant
                n as int == old_addrs.len(),
                0 <= k <= n,
                out@.len() == k as int,
                addresses@.len() == n as int,
                meta_shares@.len() == n as int,
                blocks@.len() == n as int,
                forall|i: int|
                    0 <= i < k ==> (#[trigger] out@[i]).0@ == addresses@[i]@ && out@[i].1@
                        == share_wire(meta_shares@[i]@, blocks@[i]@),
            decreases n - k,
        {
            let blob = encode_share(meta_shares[k].as_slice(), blocks[k].as_slice());
            out.push((slice_to_vec(addresses[k].as_slice()), blob));
            k = k + 1;
        }

        proof {
            let hs = meta_shares@.map_values(|v: Vec<u8>| v@);
            let bs = blocks@.map_values(|v: Vec<u8>| v@);
            let v0 = old(self)@;
            let enc_header = HeaderV { pk: v0.enc.dhs.1, pn: v0.enc.pn, n: v0.enc.ns };
            let ehdr_spec = gcm_siv_ct_of(
                v0.enc.hks->Some_0,
                zero_nonce_spec(),
                Seq::<u8>::empty(),
                header_wire(ad@, enc_header),
            );
            assert(ehdr@ == ehdr_spec);
            assert(meta@ == meta_wire(ehdr_spec, zero_nonce_spec(), cnonce@));
            assert(message_bytes@ == plaintext_wire(addr_headers_of(v0.addrs), data@));
            assert(ct@ == gcm_ct_of(
                kdf_ck_mk(v0.enc.cks->Some_0),
                cnonce@,
                ad@,
                plaintext_wire(addr_headers_of(v0.addrs), data@),
            ));
            assert(concat_all(bs) == ct@);
            assert(hs.len() == v0.share_number);
            assert(bs.len() == v0.share_number);
            assert forall|i: int| 0 <= i < hs.len() implies (#[trigger] hs[i]).len() == meta_wire(
                ehdr_spec,
                zero_nonce_spec(),
                cnonce@,
            ).len() + 1 by {
                assert(hs[i] == meta_shares@[i]@);
            }
            assert(crate::sharing::shamir::share_views(meta_shares@) =~= hs);
            assert(crate::sharing::shamir::shares_shaped(hs)) by {
                assert forall|i: int| 0 <= i < hs.len() implies (#[trigger] hs[i]).len() >= 1
                    && hs[i].len() == hs[0].len() by {}
            }
            assert(crate::sharing::shamir::distinct_abscissae(hs));
            let idn = Seq::new(hs.len(), |i: int| i);
            assert(crate::sharing::shamir::distinct_indices(idn, v0.share_number));
            assert(crate::sharing::shamir::share_picks(
                crate::sharing::shamir::share_views(meta_shares@),
                idn,
            ) =~= crate::sharing::shamir::share_views(meta_shares@));
            assert(crate::sharing::shamir::shamir_reconstruct_of(hs) == meta@);
            assert forall|i: int| 0 <= i < out@.len() implies (#[trigger] out@[i]).1@
                == share_wire(hs[i], bs[i]) by {
                assert(hs[i] == meta_shares@[i]@);
                assert(bs[i] == blocks@[i]@);
            }
            assert(send_blobs_ok(old(self)@, data@, ad@, out@, hs, bs, cnonce@));
            assert(send_output_ok(old(self)@, data@, ad@, out@));
            assert(forall|i: int|
                0 <= i < old_addrs.len() ==> (#[trigger] self@.addrs[i]) == done@[i]@);
            assert(self@.skipped =~= old(self)@.skipped);
            assert(out@.len() == old(self)@.share_number);
            assert forall|i: int| 0 <= i < out@.len() implies (#[trigger] out@[i]).0@ == kdf_ck_mk(
                old(self)@.addrs[i].cks->Some_0,
            ) by {
                assert(out@[i].0@ == addresses@[i]@);
            }
        }
        Ok(out)
    }

    /// Poll for the next tuple of addresses: step every address ratchet's
    /// receiving chain once and remember the tuple.
    pub fn next_addresses(&mut self) -> (r: Result<Vec<Vec<u8>>, MagicRatchetError>)
        requires
            old(self).wf(),
            old(self).can_poll(),
        ensures
            final(self).wf(),
            (exists|i: int|
                0 <= i < old(self)@.addrs.len() && (#[trigger] old(self)@.addrs[i]).nr
                    > crate::MAX_SKIP) <==> r == Err::<Vec<Vec<u8>>, MagicRatchetError>(
                MagicRatchetError::SkippedTooMany,
            ),
            r is Err ==> final(self)@ == old(self)@,
            r matches Ok(addrs) ==> {
                &&& addrs@.len() == old(self)@.addrs.len()
                &&& forall|i: int|
                    0 <= i < addrs@.len() ==> (#[trigger] addrs@[i])@ == kdf_ck_mk(
                        old(self)@.addrs[i].ckr->Some_0,
                    )
                &&& final(self)@.enc == old(self)@.enc
                &&& final(self)@.share_number == old(self)@.share_number
                &&& final(self)@.addrs.len() == old(self)@.addrs.len()
                &&& forall|i: int|
                    0 <= i < old(self)@.addrs.len() ==> #[trigger] final(self)@.addrs[i]
                        == crate::address_ratchet::poll_step_spec(old(self)@.addrs[i])
                &&& final(self)@.skipped == old(self)@.skipped.push(
                    Seq::new(addrs@.len(), |i: int| addrs@[i]@),
                )
            },
    {
        // Check the ceiling first, so that a refusal leaves no ratchet
        // half-stepped.
        let mut k: usize = 0;
        while k < self.address_ratchets.len()
            invariant
                self@ == old(self)@,
                self.wf(),
                0 <= k <= self@.addrs.len(),
                self@.addrs.len() == self.address_ratchets@.len(),
                forall|i: int| 0 <= i < k ==> (#[trigger] self@.addrs[i]).nr <= crate::MAX_SKIP,
            decreases self.address_ratchets@.len() - k,
        {
            if self.address_ratchets[k].nr > crate::MAX_SKIP {
                proof {
                    assert(self@.addrs[k as int].nr > crate::MAX_SKIP);
                }
                return Err(MagicRatchetError::SkippedTooMany);
            }
            proof {
                assert(self@.addrs[k as int] == (#[trigger] self.address_ratchets@[k as int])@);
            }
            k = k + 1;
        }

        let ghost old_addrs = self@.addrs;
        let mut rest = Vec::new();
        core::mem::swap(&mut rest, &mut self.address_ratchets);
        let mut done: Vec<AddressRatchet> = Vec::new();
        let mut addresses: Vec<Vec<u8>> = Vec::new();
        while rest.len() > 0
            invariant
                old_addrs.len() == done@.len() + rest@.len(),
                forall|j: int|
                    0 <= j < rest@.len() ==> (#[trigger] rest@[j])@ == old_addrs[done@.len()
                        + j],
                forall|j: int|
                    0 <= j < old_addrs.len() ==> crate::address_ratchet::addr_wf(
                        #[trigger] old_addrs[j],
                    ) && old_addrs[j].ckr is Some && old_addrs[j].nr <= crate::MAX_SKIP,
                addresses@.len() == done@.len(),
                forall|j: int|
                    0 <= j < done@.len() ==> crate::address_ratchet::addr_wf(
                        (#[trigger] done@[j])@,
                    ) && done@[j]@ == crate::address_ratchet::poll_step_spec(old_addrs[j]),
                forall|j: int|
                    0 <= j < done@.len() ==> (#[trigger] addresses@[j])@ == kdf_ck_mk(
                        old_addrs[j].ckr->Some_0,
                    ),
            decreases rest@.len(),
        {
            let ghost j = done@.len() as int;
            let mut rt = rest.remove(0);
            proof {
                assert(rt@ == old_addrs[j]);
            }
            let address = match rt.next_address() {
                Ok(a) => a,
                Err(_) => {
                    proof {
                        assert(false);
                    }
                    unreached()
                },
            };
            addresses.push(address);
            done.push(rt);
        }
        self.address_ratchets = done;

        // Remember the tuple.
        let mut tuple: Vec<Vec<u8>> = Vec::new();
        let mut t: usize = 0;
        while t < addresses.len()
            invariant
                0 <= t <= addresses@.len(),
                tuple@.len() == t as int,
                forall|i: int| 0 <= i < t ==> (#[trigger] tuple@[i])@ == addresses@[i]@,
            decreases addresses@.len() - t,
        {
            tuple.push(slice_to_vec(addresses[t].as_slice()));
            t = t + 1;
        }
        self.skipped_addresses.push(tuple);
        proof {
            assert(forall|i: int|
                0 <= i < old_addrs.len() ==> (#[trigger] self@.addrs[i]) == done@[i]@);
            let tv = Seq::new(addresses@.len(), |i: int| addresses@[i]@);
            assert(tuple@.map_values(|a: Vec<u8>| a@) =~= tv);
            assert(self@.skipped =~= old(self)@.skipped.push(tv));
        }
        Ok(addresses)
    }

    /// Destroy the ratchet's secrets: close the encryption ratchet, close
    /// and drop every address ratchet, and wipe and drop every remembered
    /// address tuple. The ratchet is unusable afterwards.
    pub fn close(&mut self)
        ensures
            magic_closed(final(self)@),
    {
        self.enc_ratchet.close();
        while self.address_ratchets.len() > 0
            invariant
                crate::enc_ratchet::enc_closed(self@.enc),
            decreases self.address_ratchets@.len(),
        {
            let mut rt = match self.address_ratchets.pop() {
                Some(rt) => rt,
                None => {
                    proof {
                        assert(false);
                    }
                    unreached()
                },
            };
            rt.close();
        }
        while self.skipped_addresses.len() > 0
            invariant
                crate::enc_ratchet::enc_closed(self@.enc),
                self@.addrs.len() == 0,
            decreases self.skipped_addresses@.len(),
        {
            let mut tuple = match self.skipped_addresses.pop() {
                Some(t) => t,
                None => {
                    proof {
                        assert(false);
                    }
                    unreached()
                },
            };
            while tuple.len() > 0
                decreases tuple@.len(),
            {
                let mut a = match tuple.pop() {
                    Some(a) => a,
                    None => {
                        proof {
                            assert(false);
                        }
                        unreached()
                    },
                };
                crate::bytes::wipe_bytes(&mut a);
            }
        }
    }

    /// Receive one message from its (address, blob) pairs, in the order
    /// `send` produced them. On success every ratchet has advanced past the
    /// message; on any failure the state is exactly as it was. An authentic
    /// share set - one that frames, reconstructs and authenticates under the
    /// receiver's current or never-yet-seeded chain - is accepted with
    /// exactly its framed message, and the whole post-state is fixed.
    #[verifier::rlimit(100)]
    #[verifier::spinoff_prover]
    pub fn recv(&mut self, data: &[AddressShare], ad: &[u8]) -> (r: Result<
        Vec<u8>,
        MagicRatchetError,
    >)
        requires
            old(self).wf(),
        ensures
            final(self).wf(),
            r is Err ==> final(self)@ == old(self)@,
            data@.len() != old(self)@.share_number ==> r == Err::<Vec<u8>, MagicRatchetError>(
                MagicRatchetError::ShamirReconstructError(SharingError::ReconstructFailure),
            ),
            (data@.len() == old(self)@.share_number && exists|i: int|
                0 <= i < data@.len() && crate::wire::parse_share_wire(
                    (#[trigger] data@[i]).1@,
                ) is None) ==> r == Err::<Vec<u8>, MagicRatchetError>(
                MagicRatchetError::DeserializationError,
            ),
            forall|w: RecvWitness|
                #[trigger] recv_count_mismatch(old(self)@, data@, ad@, w) ==> r == Err::<
                    Vec<u8>,
                    MagicRatchetError,
                >(MagicRatchetError::HeaderCountMismatch),
            forall|w: RecvWitness|
                #[trigger] recv_rejects_content(old(self)@, data@, ad@, w) ==> r == Err::<
                    Vec<u8>,
                    MagicRatchetError,
                >(MagicRatchetError::ContentAuthFailed),
            r is Ok ==> {
                &&& final(self)@.share_number == old(self)@.share_number
                &&& final(self)@.skipped == old(self)@.skipped
                &&& final(self)@.addrs.len() == old(self)@.addrs.len()
                &&& crate::enc_ratchet::decrypt_advanced(old(self)@.enc, final(self)@.enc)
                &&& exists|hs: Seq<HeaderV>|
                    #![trigger hs.len()]
                    hs.len() == old(self)@.addrs.len() && forall|i: int|
                        0 <= i < old(self)@.addrs.len() ==> #[trigger] final(self)@.addrs[i]
                            == process_recv_spec(
                            old(self)@.addrs[i],
                            hs[i],
                            final(self)@.addrs[i].dhs,
                        )
            },
            forall|w: RecvWitness|
                #[trigger] recv_accepts(old(self)@, data@, ad@, w) ==> (r matches Ok(m) && m@
                    == w.msg && (recv_accepts_current(old(self)@, data@, ad@, w)
                    ==> final(self)@.enc == crate::enc_ratchet::decrypt_current_post(
                    old(self)@.enc,
                )) && (
                recv_accepts_initial(old(self)@, data@, ad@, w) ==> final(self)@.enc
                    == crate::enc_ratchet::decrypt_initial_post(
                    old(self)@.enc,
                    w.h,
                    final(self)@.enc.dhs,
                )) && forall|i: int|
                    0 <= i < old(self)@.addrs.len() ==> #[trigger] final(self)@.addrs[i]
                        == process_recv_spec(
                        old(self)@.addrs[i],
                        w.inner[i].1,
                        final(self)@.addrs[i].dhs,
                    )),
    {
        // A missing or extra share is detectable at once: the session's
        // share count is fixed.
        if data.len() != self.share_number {
            return Err(
                MagicRatchetError::ShamirReconstructError(SharingError::ReconstructFailure),
            );
        }
        // Parse the stored blobs.
        let mut header_shares: Vec<Vec<u8>> = Vec::new();
        let mut content_blocks: Vec<Vec<u8>> = Vec::new();
        let mut blobs_ok = true;
        let mut k: usize = 0;
        while k < data.len()
            invariant
                self@ == old(self)@,
                self.wf(),
                0 <= k <= data@.len(),
                header_shares@.len() == k as int,
                content_blocks@.len() == k as int,
                blobs_ok ==> forall|i: int|
                    0 <= i < k ==> crate::wire::parse_share_wire((#[trigger] data@[i]).1@) == Some(
                        (header_shares@[i]@, content_blocks@[i]@),
                    ),
                !blobs_ok ==> exists|i: int|
                    0 <= i < k && crate::wire::parse_share_wire((#[trigger] data@[i]).1@) is None,
            decreases data@.len() - k,
        {
            match decode_share(data[k].1.as_slice()) {
                None => {
                    blobs_ok = false;
                    header_shares.push(Vec::new());
                    content_blocks.push(Vec::new());
                },
                Some((h, c)) => {
                    header_shares.push(h);
                    content_blocks.push(c);
                },
            }
            k = k + 1;
        }
        if !blobs_ok {
            return Err(MagicRatchetError::DeserializationError);
        }
        proof {
            lemma_recv_views(old(self)@, data@, ad@, header_shares@, content_blocks@);
        }

        // Reconstruct the header bundle and the content ciphertext.
        let shamir = ShamirSecretSharing::default();
        let block = BlockSharing::default();
        let meta_bytes = match shamir.reconstruct(header_shares.as_slice()) {
            Ok(d) => d,
            Err(e) => {
                return Err(MagicRatchetError::ShamirReconstructError(e));
            },
        };
        let encrypted_content = match block.reconstruct(content_blocks.as_slice()) {
            Ok(d) => d,
            Err(e) => {
                return Err(MagicRatchetError::BlockReconstructError(e));
            },
        };
        proof {
            lemma_recv_meta(old(self)@, data@, ad@, header_shares@, meta_bytes@);
            assert forall|w: RecvWitness|
                recv_wire_ok(old(self)@, data@, w) implies encrypted_content@ == concat_all(
                w.blocks,
            ) by {
                assert(content_blocks@.map_values(|v: Vec<u8>| v@) =~= w.blocks);
            }
        }
        let (ehdr, hnonce, cnonce) = match decode_meta(meta_bytes.as_slice()) {
            None => {
                return Err(MagicRatchetError::DeserializationError);
            },
            Some(p) => p,
        };

        // Decrypt through a staged copy of the encryption ratchet.
        let mut enc_work = self.enc_ratchet.duplicate();
        let (decrypted, _header) = match enc_work.ratchet_decrypt_w_header(
            ehdr.as_slice(),
            hnonce.as_slice(),
            encrypted_content.as_slice(),
            cnonce.as_slice(),
            ad,
        ) {
            Ok(p) => p,
            Err(e) => {
                return Err(
                    match e {
                        EncRatchetError::HeaderAuthFailed => MagicRatchetError::HeaderAuthFailed,
                        EncRatchetError::ContentAuthFailed => MagicRatchetError::ContentAuthFailed,
                        EncRatchetError::SkippedTooMany => MagicRatchetError::SkippedTooMany,
                    },
                );
            },
        };
        proof {
            assert forall|w: RecvWitness|
                #[trigger] recv_accepts(old(self)@, data@, ad@, w) implies decrypted@
                == plaintext_wire(inner_header_bytes(w.inner), w.msg)
                && crate::wire::parse_plaintext_wire(decrypted@) == Some(
                (inner_header_bytes(w.inner), w.msg),
            ) by {
                lemma_payload_roundtrip(w);
            }
            assert forall|w: RecvWitness|
                #[trigger] recv_count_mismatch(old(self)@, data@, ad@, w) implies decrypted@
                == plaintext_wire(inner_header_bytes(w.inner), w.msg)
                && crate::wire::parse_plaintext_wire(decrypted@) == Some(
                (inner_header_bytes(w.inner), w.msg),
            ) by {
                lemma_payload_roundtrip(w);
            }
        }

        // Parse the plaintext framing and check the address headers.
        let (header_bytes, message) = match decode_plaintext(decrypted.as_slice()) {
            None => {
                return Err(MagicRatchetError::DeserializationError);
            },
            Some(p) => p,
        };
        if header_bytes.len() != self.address_ratchets.len() {
            return Err(MagicRatchetError::HeaderCountMismatch);
        }
        let mut inner_headers: Vec<Header> = Vec::new();
        let mut headers_ok = true;
        let ghost mut bad_at: int = 0;
        let mut t: usize = 0;
        while t < header_bytes.len()
            invariant
                self@ == old(self)@,
                self.wf(),
                0 <= t <= header_bytes@.len(),
                inner_headers@.len() == t as int,
                headers_ok ==> forall|i: int|
                    0 <= i < t ==> good_inner_header(
                        (#[trigger] header_bytes@[i])@,
                        inner_headers@[i]@,
                    ),
                !headers_ok ==> 0 <= bad_at < t && (forall|hv: HeaderV|
                    !good_inner_header(header_bytes@[bad_at]@, hv)),
            decreases header_bytes@.len() - t,
        {
            let ghost pos = t as int;
            match Header::from_wire(header_bytes[t].as_slice()) {
                None => {
                    proof {
                        assert forall|hv: HeaderV|
                            !good_inner_header(header_bytes@[pos]@, hv) by {
                            if good_inner_header(header_bytes@[pos]@, hv) {
                                let ad0 = choose|ad0: Seq<u8>|
                                    crate::header::parse_header_wire(header_bytes@[pos]@) == Some(
                                        (ad0, hv),
                                    );
                                assert(crate::header::parse_header_wire(header_bytes@[pos]@)
                                    == Some((ad0, hv)));
                            }
                        }
                    }
                    proof {
                        if headers_ok {
                            bad_at = pos;
                        }
                    }
                    headers_ok = false;
                    inner_headers.push(Header { public_key: Vec::new(), pn: 0, n: 0 });
                },
                Some((ad0, parsed)) => {
                    let pk_good = crate::dh::check_public_key(parsed.public_key.as_slice());
                    if !pk_good || parsed.public_key.len() > 65 {
                        proof {
                            assert forall|hv: HeaderV|
                                !good_inner_header(header_bytes@[pos]@, hv) by {
                                if good_inner_header(header_bytes@[pos]@, hv) {
                                    let a0 = choose|a0: Seq<u8>|
                                        crate::header::parse_header_wire(header_bytes@[pos]@)
                                            == Some((a0, hv));
                                    assert(crate::header::parse_header_wire(header_bytes@[pos]@)
                                        == Some((a0, hv)));
                                    assert(hv == parsed@);
                                }
                            }
                        }
                        proof {
                            if headers_ok {
                                bad_at = pos;
                            }
                        }
                        headers_ok = false;
                    } else {
                        proof {
                            assert(crate::header::parse_header_wire(header_bytes@[pos]@) == Some(
                                (ad0@, parsed@),
                            ));
                            assert(good_inner_header(header_bytes@[pos]@, parsed@));
                        }
                    }
                    inner_headers.push(parsed);
                },
            }
            t = t + 1;
        }
        if !headers_ok {
            proof {
                assert forall|w: RecvWitness|
                    !(#[trigger] recv_accepts(old(self)@, data@, ad@, w)) by {
                    if recv_accepts(old(self)@, data@, ad@, w) {
                        assert(crate::wire::seg_views(header_bytes@) == inner_header_bytes(
                            w.inner,
                        ));
                        assert(header_bytes@[bad_at]@ == inner_header_bytes(w.inner)[bad_at]);
                        assert(header_bytes@[bad_at]@ == header_wire(
                            w.inner[bad_at].0,
                            w.inner[bad_at].1,
                        ));
                        crate::header::lemma_header_wire_roundtrip(
                            w.inner[bad_at].0,
                            w.inner[bad_at].1,
                        );
                        assert(good_inner_header(header_bytes@[bad_at]@, w.inner[bad_at].1));
                    }
                }
            }
            return Err(MagicRatchetError::DeserializationError);
        }
        proof {
            assert forall|i: int|
                0 <= i < inner_headers@.len() implies p256_valid_pk(
                (#[trigger] inner_headers@[i])@.pk,
            ) && (inner_headers@[i])@.pk.len() <= u64::MAX by {
                assert(good_inner_header(header_bytes@[i]@, inner_headers@[i]@));
            }
        }

        // Everything checked: commit the encryption ratchet and advance the
        // address ratchets, which from here cannot fail.
        let ghost old_addrs = self@.addrs;
        self.enc_ratchet = enc_work;
        let mut rest = Vec::new();
        core::mem::swap(&mut rest, &mut self.address_ratchets);
        let mut done: Vec<AddressRatchet> = Vec::new();
        let ghost hs = inner_headers@.map_values(|h: Header| h@);
        while rest.len() > 0
            invariant
                old_addrs.len() == done@.len() + rest@.len(),
                inner_headers@.len() == old_addrs.len(),
                hs == inner_headers@.map_values(|h: Header| h@),
                hs.len() == old_addrs.len(),
                forall|j: int|
                    0 <= j < rest@.len() ==> (#[trigger] rest@[j])@ == old_addrs[done@.len()
                        + j],
                forall|j: int|
                    0 <= j < old_addrs.len() ==> crate::address_ratchet::addr_wf(
                        #[trigger] old_addrs[j],
                    ),
                forall|i: int|
                    0 <= i < old_addrs.len() ==> p256_valid_pk(
                        (#[trigger] inner_headers@[i])@.pk,
                    ) && (inner_headers@[i])@.pk.len() <= u64::MAX,
                forall|j: int|
                    0 <= j < done@.len() ==> crate::address_ratchet::addr_wf(
                        (#[trigger] done@[j])@,
                    ) && done@[j]@ == process_recv_spec(old_addrs[j], hs[j], done@[j]@.dhs),
            decreases rest@.len(),
        {
            let idx = done.len();
            let ghost j = idx as int;
            let mut rt = rest.remove(0);
            proof {
                assert(rt@ == old_addrs[j]);
                assert(inner_headers@[j]@ == hs[j]);
            }
            rt.proccess_recv(&inner_headers[idx]);
            done.push(rt);
        }
        self.address_ratchets = done;
        proof {
            assert(self@.skipped =~= old(self)@.skipped);
            assert(forall|i: int|
                0 <= i < old_addrs.len() ==> (#[trigger] self@.addrs[i]) == done@[i]@);
            assert(hs.len() == old_addrs.len() && forall|i: int|
                0 <= i < old_addrs.len() ==> #[trigger] self@.addrs[i] == process_recv_spec(
                    old_addrs[i],
                    hs[i],
                    self@.addrs[i].dhs,
                ));
            assert forall|i: int|
                0 <= i < header_bytes@.len() implies good_inner_header(
                (#[trigger] header_bytes@[i])@,
                hs[i],
            ) by {
                assert(good_inner_header(header_bytes@[i]@, inner_headers@[i]@));
            }
            lemma_recv_conclude(
                old(self)@,
                data@,
                ad@,
                decrypted@,
                header_bytes@,
                message@,
                hs,
                self@.addrs,
            );
        }
        Ok(message)
    }
}

/// Everything an acceptance statement about one received share set speaks
/// of: the header shares and content blocks inside the blobs, the header
/// bundle they reconstruct to, the header the bundle authenticates, and the
/// framed payload.
pub ghost struct RecvWitness {
    pub hshares: Seq<Seq<u8>>,
    pub blocks: Seq<Seq<u8>>,
    pub ehdr: Seq<u8>,
    pub hnonce: Seq<u8>,
    pub cnonce: Seq<u8>,
    pub adh: Seq<u8>,
    pub h: HeaderV,
    pub inner: Seq<(Seq<u8>, HeaderV)>,
    pub msg: Seq<u8>,
}

/// The wire shape of an authentic share set, seen from the receiver: one
/// blob per share, each parsing into its header share and content block, the
/// header shares fit for reconstruction and reconstructing to the given
/// header bundle.
pub open spec fn recv_wire_ok(
    v: MagicRatchetV,
    shares: Seq<(Vec<u8>, Vec<u8>)>,
    w: RecvWitness,
) -> bool {
    &&& shares.len() == v.share_number
    &&& w.hshares.len() == shares.len()
    &&& w.blocks.len() == shares.len()
    &&& forall|i: int|
        0 <= i < shares.len() ==> crate::wire::parse_share_wire((#[trigger] shares[i]).1@)
            == Some((w.hshares[i], w.blocks[i]))
    &&& crate::sharing::shamir::shares_shaped(w.hshares)
    &&& crate::sharing::shamir::distinct_abscissae(w.hshares)
    &&& crate::sharing::shamir::shamir_reconstruct_of(w.hshares) == meta_wire(
        w.ehdr,
        w.hnonce,
        w.cnonce,
    )
    &&& w.ehdr.len() <= u64::MAX
    &&& w.hnonce.len() == 12
    &&& w.cnonce.len() == 12
}

/// The encoded form of the address headers inside the plaintext framing.
pub open spec fn inner_header_bytes(inner: Seq<(Seq<u8>, HeaderV)>) -> Seq<Seq<u8>> {
    Seq::new(inner.len(), |k: int| header_wire(inner[k].0, inner[k].1))
}

/// The size bounds under which an inner payload can be framed at all: each
/// encoded address header and the message fit the length fields.
pub open spec fn recv_payload_bounds(w: RecvWitness) -> bool {
    &&& w.inner.len() <= u64::MAX
    &&& forall|k: int|
        0 <= k < w.inner.len() ==> 32 + (#[trigger] w.inner[k]).0.len() + w.inner[k].1.pk.len()
            <= u64::MAX
    &&& w.msg.len() <= u64::MAX
}

/// The inner payload of an authentic message: one address header per address
/// ratchet, each carrying a valid remote key of encodable size, and the
/// message itself.
pub open spec fn recv_payload_ok(v: MagicRatchetV, w: RecvWitness) -> bool {
    &&& recv_payload_bounds(w)
    &&& w.inner.len() == v.share_number
    &&& forall|k: int|
        0 <= k < w.inner.len() ==> p256_valid_pk((#[trigger] w.inner[k]).1.pk)
            && w.inner[k].1.pk.len() <= 65
}

/// An authentic share set carrying the next message of the receiver's
/// current encryption chain.
pub open spec fn recv_accepts_current(
    v: MagicRatchetV,
    shares: Seq<(Vec<u8>, Vec<u8>)>,
    ad: Seq<u8>,
    w: RecvWitness,
) -> bool {
    &&& recv_wire_ok(v, shares, w)
    &&& recv_payload_ok(v, w)
    &&& crate::enc_ratchet::decrypt_current_ok(
        v.enc,
        w.ehdr,
        w.hnonce,
        concat_all(w.blocks),
        w.cnonce,
        ad,
        w.adh,
        w.h,
        plaintext_wire(inner_header_bytes(w.inner), w.msg),
    )
}

/// An authentic opening share set at a receiver whose chains were never
/// seeded.
pub open spec fn recv_accepts_initial(
    v: MagicRatchetV,
    shares: Seq<(Vec<u8>, Vec<u8>)>,
    ad: Seq<u8>,
    w: RecvWitness,
) -> bool {
    &&& recv_wire_ok(v, shares, w)
    &&& recv_payload_ok(v, w)
    &&& crate::enc_ratchet::decrypt_initial_ok(
        v.enc,
        w.ehdr,
        w.hnonce,
        concat_all(w.blocks),
        w.cnonce,
        ad,
        w.adh,
        w.h,
        plaintext_wire(inner_header_bytes(w.inner), w.msg),
    )
}

/// An authentic share set, by either acceptance path.
pub open spec fn recv_accepts(
    v: MagicRatchetV,
    shares: Seq<(Vec<u8>, Vec<u8>)>,
    ad: Seq<u8>,
    w: RecvWitness,
) -> bool {
    recv_accepts_current(v, shares, ad, w) || recv_accepts_initial(v, shares, ad, w)
}

/// An authentic share set whose framed payload carries some number of
/// address headers other than the session's share count.
pub open spec fn recv_count_mismatch(
    v: MagicRatchetV,
    shares: Seq<(Vec<u8>, Vec<u8>)>,
    ad: Seq<u8>,
    w: RecvWitness,
) -> bool {
    &&& recv_wire_ok(v, shares, w)
    &&& recv_payload_bounds(w)
    &&& w.inner.len() != v.share_number
    &&& (crate::enc_ratchet::decrypt_current_ok(
        v.enc,
        w.ehdr,
        w.hnonce,
        concat_all(w.blocks),
        w.cnonce,
        ad,
        w.adh,
        w.h,
        plaintext_wire(inner_header_bytes(w.inner), w.msg),
    ) || crate::enc_ratchet::decrypt_initial_ok(
        v.enc,
        w.ehdr,
        w.hnonce,
        concat_all(w.blocks),
        w.cnonce,
        ad,
        w.adh,
        w.h,
        plaintext_wire(inner_header_bytes(w.inner), w.msg),
    ))
}

/// A share set whose header authenticates as the next message of the current
/// chain but whose reconstructed content is not an encryption of anything
/// under that chain's next message key.
pub open spec fn recv_rejects_content(
    v: MagicRatchetV,
    shares: Seq<(Vec<u8>, Vec<u8>)>,
    ad: Seq<u8>,
    w: RecvWitness,
) -> bool {
    &&& recv_wire_ok(v, shares, w)
    &&& crate::enc_ratchet::decrypt_current_badcontent(
        v.enc,
        w.ehdr,
        w.hnonce,
        concat_all(w.blocks),
        w.cnonce,
        ad,
        w.adh,
        w.h,
    )
}

/// A parsed inner header: the bytes frame it (with some associated data) and
/// its remote key is valid and of encodable size.
pub open spec fn good_inner_header(bytes: Seq<u8>, hv: HeaderV) -> bool {
    &&& exists|ad0: Seq<u8>| crate::header::parse_header_wire(bytes) == Some((ad0, hv))
    &&& p256_valid_pk(hv.pk)
    &&& hv.pk.len() <= 65
}

/// What blob parsing recovered is what any acceptance witness speaks of.
proof fn lemma_recv_views(
    v: MagicRatchetV,
    data: Seq<(Vec<u8>, Vec<u8>)>,
    ad: Seq<u8>,
    hs: Seq<Vec<u8>>,
    cb: Seq<Vec<u8>>,
)
    requires
        hs.len() == data.len(),
        cb.len() == data.len(),
        forall|i: int|
            0 <= i < data.len() ==> crate::wire::parse_share_wire((#[trigger] data[i]).1@)
                == Some((hs[i]@, cb[i]@)),
    ensures
        forall|w: RecvWitness|
            #[trigger] recv_wire_ok(v, data, w) ==> crate::sharing::shamir::share_views(hs)
                == w.hshares && crate::sharing::piece_views(cb) == w.blocks,
{
    assert forall|w: RecvWitness|
        #[trigger] recv_wire_ok(v, data, w) implies crate::sharing::shamir::share_views(hs)
        == w.hshares && crate::sharing::piece_views(cb) == w.blocks by {
        assert forall|i: int|
            0 <= i < data.len() implies crate::sharing::shamir::share_views(hs)[i]
            == w.hshares[i] && crate::sharing::piece_views(cb)[i] == w.blocks[i] by {
            assert(crate::wire::parse_share_wire((data[i]).1@) == Some((hs[i]@, cb[i]@)));
            assert(crate::wire::parse_share_wire((data[i]).1@) == Some(
                (w.hshares[i], w.blocks[i]),
            ));
        }
        assert(crate::sharing::shamir::share_views(hs) =~= w.hshares);
        assert(crate::sharing::piece_views(cb) =~= w.blocks);
    }
}

/// The reconstructed header bundle is the witness's, and parses into its
/// parts.
proof fn lemma_recv_meta(
    v: MagicRatchetV,
    data: Seq<(Vec<u8>, Vec<u8>)>,
    ad: Seq<u8>,
    hs: Seq<Vec<u8>>,
    meta: Seq<u8>,
)
    requires
        forall|w: RecvWitness|
            #[trigger] recv_wire_ok(v, data, w) ==> crate::sharing::shamir::share_views(hs)
                == w.hshares,
        meta == crate::sharing::shamir::shamir_reconstruct_of(
            crate::sharing::shamir::share_views(hs),
        ),
    ensures
        forall|w: RecvWitness|
            #[trigger] recv_wire_ok(v, data, w) ==> meta == meta_wire(w.ehdr, w.hnonce, w.cnonce)
                && crate::wire::parse_meta_wire(meta) == Some((w.ehdr, w.hnonce, w.cnonce)),
{
    assert forall|w: RecvWitness|
        #[trigger] recv_wire_ok(v, data, w) implies meta == meta_wire(w.ehdr, w.hnonce, w.cnonce)
        && crate::wire::parse_meta_wire(meta) == Some((w.ehdr, w.hnonce, w.cnonce)) by {
        crate::wire::lemma_meta_wire_roundtrip(w.ehdr, w.hnonce, w.cnonce);
    }
}

/// The framed payload of an accepted message parses back into its headers
/// and message.
proof fn lemma_payload_roundtrip(w: RecvWitness)
    requires
        recv_payload_bounds(w),
    ensures
        crate::wire::parse_plaintext_wire(plaintext_wire(inner_header_bytes(w.inner), w.msg))
            == Some((inner_header_bytes(w.inner), w.msg)),
{
    assert forall|k: int|
        0 <= k < inner_header_bytes(w.inner).len() implies (#[trigger] inner_header_bytes(
        w.inner,
    )[k]).len() <= u64::MAX by {
        assert(inner_header_bytes(w.inner)[k] == header_wire(w.inner[k].0, w.inner[k].1));
    }
    crate::wire::lemma_plaintext_wire_roundtrip(inner_header_bytes(w.inner), w.msg);
}

/// The committed state matches every acceptance witness: the parsed payload
/// identifies the witness's headers and message, so the processed headers
/// are the witness's.
#[verifier::rlimit(100)]
#[verifier::spinoff_prover]
proof fn lemma_recv_conclude(
    v: MagicRatchetV,
    data: Seq<(Vec<u8>, Vec<u8>)>,
    ad: Seq<u8>,
    decrypted: Seq<u8>,
    header_bytes: Seq<Vec<u8>>,
    message: Seq<u8>,
    hs: Seq<HeaderV>,
    addrs_new: Seq<AddressRatchetV>,
)
    requires
        v.addrs.len() == v.share_number,
        forall|w: RecvWitness|
            #[trigger] recv_accepts(v, data, ad, w) ==> decrypted == plaintext_wire(
                inner_header_bytes(w.inner),
                w.msg,
            ) && crate::wire::parse_plaintext_wire(decrypted) == Some(
                (inner_header_bytes(w.inner), w.msg),
            ),
        crate::wire::parse_plaintext_wire(decrypted) == Some(
            (crate::wire::seg_views(header_bytes), message),
        ),
        hs.len() == header_bytes.len(),
        forall|i: int|
            0 <= i < header_bytes.len() ==> good_inner_header(
                (#[trigger] header_bytes[i])@,
                hs[i],
            ),
        addrs_new.len() == v.addrs.len(),
        forall|i: int|
            0 <= i < v.addrs.len() ==> #[trigger] addrs_new[i] == process_recv_spec(
                v.addrs[i],
                hs[i],
                addrs_new[i].dhs,
            ),
    ensures
        forall|w: RecvWitness|
            #[trigger] recv_accepts(v, data, ad, w) ==> message == w.msg && (forall|i: int|
                0 <= i < v.addrs.len() ==> #[trigger] addrs_new[i] == process_recv_spec(
                    v.addrs[i],
                    w.inner[i].1,
                    addrs_new[i].dhs,
                )),
{
    assert forall|w: RecvWitness|
        #[trigger] recv_accepts(v, data, ad, w) implies message == w.msg && (forall|i: int|
        0 <= i < v.addrs.len() ==> #[trigger] addrs_new[i] == process_recv_spec(
            v.addrs[i],
            w.inner[i].1,
            addrs_new[i].dhs,
        )) by {
        assert(crate::wire::parse_plaintext_wire(decrypted) == Some(
            (inner_header_bytes(w.inner), w.msg),
        ));
        assert(crate::wire::seg_views(header_bytes) == inner_header_bytes(w.inner));
        assert forall|i: int|
            0 <= i < v.addrs.len() implies hs[i] == (#[trigger] w.inner[i]).1 by {
            assert(header_bytes[i]@ == crate::wire::seg_views(header_bytes)[i]);
            assert(header_bytes[i]@ == header_wire(w.inner[i].0, w.inner[i].1));
            crate::header::lemma_header_wire_roundtrip(w.inner[i].0, w.inner[i].1);
            assert(good_inner_header(header_bytes[i]@, hs[i]));
            let a0 = choose|a0: Seq<u8>|
                crate::header::parse_header_wire(header_bytes[i]@) == Some((a0, hs[i]));
            assert(crate::header::parse_header_wire(header_bytes[i]@) == Some((a0, hs[i])));
        }
    }
}

impl PartialEq for MagicRatchet {
    fn eq(&self, other: &Self) -> (r: bool) {
        let a = self.export();
        let b = other.export();
        crate::bytes::bytes_eq(a.as_slice(), b.as_slice())
    }
}

impl vstd::std_specs::cmp::PartialEqSpecImpl for MagicRatchet {
    open spec fn obeys_eq_spec() -> bool {
        true
    }

    open spec fn eq_spec(&self, other: &Self) -> bool {
        crate::state_codec::magic_wire(self@) == crate::state_codec::magic_wire(other@)
    }
}

/// A ratchet whose secrets have been destroyed: the encryption ratchet's
/// keys overwritten with zeros, every address ratchet closed and dropped,
/// every remembered address tuple wiped and dropped.
pub open spec fn magic_closed(v: MagicRatchetV) -> bool {
    &&& crate::enc_ratchet::enc_closed(v.enc)
    &&& v.addrs.len() == 0
    &&& v.skipped.len() == 0
}

/// There is a choice of header shares, blocks and nonce accounting for the
/// emitted blobs.
pub open spec fn send_output_ok(
    v: MagicRatchetV,
    data: Seq<u8>,
    ad: Seq<u8>,
    shares: Seq<(Vec<u8>, Vec<u8>)>,
) -> bool {
    exists|meta_shares: Seq<Seq<u8>>, blocks: Seq<Seq<u8>>, cnonce: Seq<u8>|
        send_blobs_ok(v, data, ad, shares, meta_shares, blocks, cnonce)
}

/// What `send`'s emitted blobs hold, beyond what is deterministic: there are
/// header shares (one byte longer than the header bundle they share), blocks
/// that concatenate to the content ciphertext of the framed message, and a
/// fresh content nonce, and each blob frames its share with its block.
pub open spec fn send_blobs_ok(
    v: MagicRatchetV,
    data: Seq<u8>,
    ad: Seq<u8>,
    shares: Seq<(Vec<u8>, Vec<u8>)>,
    meta_shares: Seq<Seq<u8>>,
    blocks: Seq<Seq<u8>>,
    cnonce: Seq<u8>,
) -> bool {
    let enc_header = HeaderV { pk: v.enc.dhs.1, pn: v.enc.pn, n: v.enc.ns };
    let ehdr = gcm_siv_ct_of(
        v.enc.hks->Some_0,
        zero_nonce_spec(),
        Seq::<u8>::empty(),
        header_wire(ad, enc_header),
    );
    let ct = gcm_ct_of(
        kdf_ck_mk(v.enc.cks->Some_0),
        cnonce,
        ad,
        plaintext_wire(addr_headers_of(v.addrs), data),
    );
    let meta = meta_wire(ehdr, zero_nonce_spec(), cnonce);
    &&& meta_shares.len() == v.share_number
    &&& blocks.len() == v.share_number
    &&& cnonce.len() == 12
    &&& concat_all(blocks) == ct
    &&& forall|i: int|
        0 <= i < meta_shares.len() ==> (#[trigger] meta_shares[i]).len() == meta.len() + 1
    &&& crate::sharing::shamir::shares_shaped(meta_shares)
    &&& crate::sharing::shamir::distinct_abscissae(meta_shares)
    &&& crate::sharing::shamir::shamir_reconstruct_of(meta_shares) == meta
    &&& forall|i: int|
        0 <= i < shares.len() ==> (#[trigger] shares[i]).1@ == share_wire(
            meta_shares[i],
            blocks[i],
        )
}

} // verus!
