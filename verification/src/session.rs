//! A messaging session: one side of a pair, with its Magic Ratchet.
//!
//! A session wraps the ratchet with the role it plays (Alice opened the
//! session, Bob answered) and serialises both together. It adds no logic of
//! its own beyond the empty associated data it passes on every call.

use vstd::prelude::*;

use crate::aead::AEAD_PT_MAX;
use crate::bundle::AliceBob;
use crate::magic::{
    recv_accepts, recv_accepts_current, recv_accepts_initial, recv_count_mismatch,
    recv_rejects_content, send_output_ok, AddressShare, MagicRatchet, MagicRatchetError,
};
use crate::state_codec::{magic_wire, parse_magic};

verus! {

/// Builds a session from its two parts.
pub struct SessionBuilder {
    pub partner: Option<AliceBob>,
    pub magic_ratchet: Option<MagicRatchet>,
}

impl Default for SessionBuilder {
    /// An empty builder.
    fn default() -> (r: Self)
        ensures
            r.partner is None,
            r.magic_ratchet is None,
    {
        SessionBuilder { partner: None, magic_ratchet: None }
    }
}

impl SessionBuilder {
    /// Set the role.
    pub fn partner(self, partner: AliceBob) -> (r: Self)
        ensures
            r.partner == Some(partner),
            r.magic_ratchet == self.magic_ratchet,
    {
        SessionBuilder { partner: Some(partner), ..self }
    }

    /// Set the ratchet.
    pub fn magic_ratchet(self, magic_ratchet: MagicRatchet) -> (r: Self)
        ensures
            r.partner == self.partner,
            r.magic_ratchet matches Some(m) && m@ == magic_ratchet@,
    {
        SessionBuilder { magic_ratchet: Some(magic_ratchet), ..self }
    }

    /// Assemble the session; both parts must have been set.
    pub fn build(self) -> (r: Session)
        requires
            self.partner is Some,
            self.magic_ratchet matches Some(m) && m.wf(),
        ensures
            r.partner == self.partner->Some_0,
            r.magic_ratchet@ == (self.magic_ratchet->Some_0)@,
            r.wf(),
    {
        let partner = match self.partner {
            Some(p) => p,
            None => {
                proof {
                    assert(false);
                }
                unreached()
            },
        };
        let magic_ratchet = match self.magic_ratchet {
            Some(m) => m,
            None => {
                proof {
                    assert(false);
                }
                unreached()
            },
        };
        Session { partner, magic_ratchet }
    }
}

/// One side of an established pair.
#[derive(Debug)]
pub struct Session {
    pub partner: AliceBob,
    pub magic_ratchet: MagicRatchet,
}

impl Session {
    /// The session's ratchet is well formed.
    pub open spec fn wf(&self) -> bool {
        self.magic_ratchet.wf()
    }

    /// Wrap a role and a ratchet.
    pub fn new(partner: AliceBob, magic_ratchet: MagicRatchet) -> (r: Session)
        requires
            magic_ratchet.wf(),
        ensures
            r.wf(),
            r.partner == partner,
            r.magic_ratchet@ == magic_ratchet@,
    {
        Session { partner, magic_ratchet }
    }

    /// Send the empty opening message: one `send` of the empty message with
    /// empty associated data.
    pub fn make_init_message(&mut self) -> (r: Result<Vec<AddressShare>, MagicRatchetError>)
        requires
            old(self).wf(),
            old(self).magic_ratchet.can_send(),
            old(self).magic_ratchet.counters_ok(),
        ensures
            final(self).wf(),
            r is Ok,
            final(self).partner == old(self).partner,
            send_post(old(self).magic_ratchet@, final(self).magic_ratchet@),
            r matches Ok(shares) ==> shares@.len() == old(self).magic_ratchet@.share_number
                && (forall|i: int|
                0 <= i < shares@.len() ==> (#[trigger] shares@[i]).0@
                    == crate::kdf::kdf_ck_mk(old(self).magic_ratchet@.addrs[i].cks->Some_0))
                && send_output_ok(
                old(self).magic_ratchet@,
                Seq::<u8>::empty(),
                Seq::<u8>::empty(),
                shares@,
            ),
    {
        let empty: Vec<u8> = Vec::new();
        let r = self.magic_ratchet.send(empty.as_slice(), empty.as_slice());
        proof {
            assert(empty@ =~= Seq::<u8>::empty());
        }
        r
    }

    /// Accept the opening message and poll once for the first addresses.
    pub fn process_init_message(&mut self, message: &[AddressShare]) -> (r: Result<
        (),
        MagicRatchetError,
    >)
        requires
            old(self).wf(),
        ensures
            final(self).wf(),
            final(self).partner == old(self).partner,
            message@.len() != old(self).magic_ratchet@.share_number ==> r == Err::<
                (),
                MagicRatchetError,
            >(
                MagicRatchetError::ShamirReconstructError(
                    crate::sharing::SharingError::ReconstructFailure,
                ),
            ) && final(self).magic_ratchet@ == old(self).magic_ratchet@,
    {
        let empty: Vec<u8> = Vec::new();
        let ghost pre = self.magic_ratchet@;
        match self.magic_ratchet.recv(message, empty.as_slice()) {
            Ok(_) => {},
            Err(e) => {
                return Err(e);
            },
        }
        proof {
            let hs = choose|hs: Seq<crate::header::HeaderV>|
                #![trigger hs.len()]
                hs.len() == pre.addrs.len() && forall|i: int|
                    0 <= i < pre.addrs.len() ==> #[trigger] self.magic_ratchet@.addrs[i]
                        == crate::address_ratchet::process_recv_spec(
                        pre.addrs[i],
                        hs[i],
                        self.magic_ratchet@.addrs[i].dhs,
                    );
            assert forall|i: int|
                0 <= i < self.magic_ratchet@.addrs.len() implies (
            #[trigger] self.magic_ratchet@.addrs[i]).ckr is Some by {
                crate::address_ratchet::lemma_process_recv_seeds_ckr(
                    pre.addrs[i],
                    hs[i],
                    self.magic_ratchet@.addrs[i].dhs,
                );
            }
        }
        match self.magic_ratchet.next_addresses() {
            Ok(_) => Ok(()),
            Err(e) => Err(e),
        }
    }

    /// Send a message with empty associated data: every chain steps once
    /// and the emitted blobs share the message exactly as `send` states.
    pub fn send_message(&mut self, content: &[u8]) -> (r: Result<
        Vec<AddressShare>,
        MagicRatchetError,
    >)
        requires
            old(self).wf(),
            old(self).magic_ratchet.can_send(),
            old(self).magic_ratchet.counters_ok(),
            content@.len() + 20000 <= AEAD_PT_MAX,
            content@.len() + 20000 < usize::MAX,
        ensures
            final(self).wf(),
            r is Ok,
            final(self).partner == old(self).partner,
            send_post(old(self).magic_ratchet@, final(self).magic_ratchet@),
            r matches Ok(shares) ==> shares@.len() == old(self).magic_ratchet@.share_number
                && (forall|i: int|
                0 <= i < shares@.len() ==> (#[trigger] shares@[i]).0@
                    == crate::kdf::kdf_ck_mk(old(self).magic_ratchet@.addrs[i].cks->Some_0))
                && send_output_ok(
                old(self).magic_ratchet@,
                content@,
                Seq::<u8>::empty(),
                shares@,
            ),
    {
        let empty: Vec<u8> = Vec::new();
        let r = self.magic_ratchet.send(content, empty.as_slice());
        proof {
            assert(empty@ =~= Seq::<u8>::empty());
        }
        r
    }

    /// Poll for the next tuple of addresses: every receiving chain steps
    /// once, the produced keys are cached, and the tuple is remembered.
    pub fn next_address(&mut self) -> (r: Result<Vec<Vec<u8>>, MagicRatchetError>)
        requires
            old(self).wf(),
            old(self).magic_ratchet.can_poll(),
        ensures
            final(self).wf(),
            final(self).partner == old(self).partner,
            (exists|i: int|
                0 <= i < old(self).magic_ratchet@.addrs.len() && (
                #[trigger] old(self).magic_ratchet@.addrs[i]).nr > crate::MAX_SKIP) <==> r
                == Err::<Vec<Vec<u8>>, MagicRatchetError>(MagicRatchetError::SkippedTooMany),
            r is Err ==> final(self).magic_ratchet@ == old(self).magic_ratchet@,
            r matches Ok(addrs) ==> {
                &&& addrs@.len() == old(self).magic_ratchet@.addrs.len()
                &&& forall|i: int|
                    0 <= i < addrs@.len() ==> (#[trigger] addrs@[i])@ == crate::kdf::kdf_ck_mk(
                        old(self).magic_ratchet@.addrs[i].ckr->Some_0,
                    )
                &&& final(self).magic_ratchet@.enc == old(self).magic_ratchet@.enc
                &&& final(self).magic_ratchet@.share_number
                    == old(self).magic_ratchet@.share_number
                &&& final(self).magic_ratchet@.addrs.len() == old(self).magic_ratchet@.addrs.len()
                &&& forall|i: int|
                    0 <= i < old(self).magic_ratchet@.addrs.len()
                        ==> #[trigger] (final(self).magic_ratchet@.addrs[i])
                        == crate::address_ratchet::poll_step_spec(
                        old(self).magic_ratchet@.addrs[i],
                    )
                &&& final(self).magic_ratchet@.skipped == old(self).magic_ratchet@.skipped.push(
                    Seq::new(addrs@.len(), |i: int| addrs@[i]@),
                )
            },
    {
        self.magic_ratchet.next_addresses()
    }

    /// Receive a message sent with empty associated data. On failure the
    /// session is exactly as it was; an authentic share set is accepted with
    /// exactly its framed message, and each error names its cause, as `recv`
    /// states.
    pub fn recv_message(&mut self, data: &[AddressShare]) -> (r: Result<
        Vec<u8>,
        MagicRatchetError,
    >)
        requires
            old(self).wf(),
        ensures
            final(self).wf(),
            final(self).partner == old(self).partner,
            r is Err ==> final(self).magic_ratchet@ == old(self).magic_ratchet@,
            data@.len() != old(self).magic_ratchet@.share_number ==> r == Err::<
                Vec<u8>,
                MagicRatchetError,
            >(
                MagicRatchetError::ShamirReconstructError(
                    crate::sharing::SharingError::ReconstructFailure,
                ),
            ),
            (data@.len() == old(self).magic_ratchet@.share_number && exists|i: int|
                0 <= i < data@.len() && crate::wire::parse_share_wire(
                    (#[trigger] data@[i]).1@,
                ) is None) ==> r == Err::<Vec<u8>, MagicRatchetError>(
                MagicRatchetError::DeserializationError,
            ),
            forall|w: crate::magic::RecvWitness|
                #[trigger] recv_count_mismatch(old(self).magic_ratchet@, data@, Seq::<
                    u8,
                >::empty(), w) ==> r == Err::<Vec<u8>, MagicRatchetError>(
                    MagicRatchetError::HeaderCountMismatch,
                ),
            forall|w: crate::magic::RecvWitness|
                #[trigger] recv_rejects_content(old(self).magic_ratchet@, data@, Seq::<
                    u8,
                >::empty(), w) ==> r == Err::<Vec<u8>, MagicRatchetError>(
                    MagicRatchetError::ContentAuthFailed,
                ),
            forall|w: crate::magic::RecvWitness|
                #[trigger] recv_accepts(old(self).magic_ratchet@, data@, Seq::<u8>::empty(), w)
                    ==> (r matches Ok(m) && m@ == w.msg && (recv_accepts_current(
                    old(self).magic_ratchet@,
                    data@,
                    Seq::<u8>::empty(),
                    w,
                ) ==> final(self).magic_ratchet@.enc
                    == crate::enc_ratchet::decrypt_current_post(old(self).magic_ratchet@.enc))
                    && (recv_accepts_initial(
                    old(self).magic_ratchet@,
                    data@,
                    Seq::<u8>::empty(),
                    w,
                ) ==> final(self).magic_ratchet@.enc == crate::enc_ratchet::decrypt_initial_post(
                    old(self).magic_ratchet@.enc,
                    w.h,
                    final(self).magic_ratchet@.enc.dhs,
                )) && forall|i: int|
                    0 <= i < old(self).magic_ratchet@.addrs.len()
                        ==> #[trigger] (final(self).magic_ratchet@.addrs[i])
                        == crate::address_ratchet::process_recv_spec(
                        old(self).magic_ratchet@.addrs[i],
                        w.inner[i].1,
                        final(self).magic_ratchet@.addrs[i].dhs,
                    )),
            r is Ok ==> final(self).magic_ratchet@.skipped == old(self).magic_ratchet@.skipped
                && final(self).magic_ratchet@.share_number
                == old(self).magic_ratchet@.share_number
                && crate::enc_ratchet::decrypt_advanced(
                old(self).magic_ratchet@.enc,
                final(self).magic_ratchet@.enc,
            ),
    {
        let empty: Vec<u8> = Vec::new();
        let r = self.magic_ratchet.recv(data, empty.as_slice());
        proof {
            assert(empty@ =~= Seq::<u8>::empty());
        }
        r
    }

    /// Destroy the session's secrets: close the ratchet, which wipes every
    /// key with zeros and drops every chain and cache. The session is
    /// unusable afterwards.
    pub fn close(&mut self)
        ensures
            crate::magic::magic_closed(final(self).magic_ratchet@),
            final(self).partner == old(self).partner,
    {
        self.magic_ratchet.close();
    }

    /// Serialise the session: the role tag, then the ratchet.
    pub fn export(&self) -> (r: Vec<u8>)
        ensures
            r@ == session_wire(self.partner, self.magic_ratchet@),
    {
        let mut out: Vec<u8> = Vec::new();
        match self.partner {
            AliceBob::Alice => out.push(0u8),
            AliceBob::Bob => out.push(1u8),
        }
        let ghost mid = out@;
        let magic_bytes = self.magic_ratchet.export();
        crate::wire::append_bytes(&mut out, magic_bytes.as_slice());
        assert(out@ =~= session_wire(self.partner, self.magic_ratchet@));
        out
    }

    /// Parse and validate a serialised session.
    pub fn import(inp: &[u8]) -> (r: Option<Session>)
        ensures
            r matches Some(se) ==> {
                &&& se.wf()
                &&& parse_magic(inp@.subrange(1, inp@.len() as int), 0) == Some(
                    (se.magic_ratchet@, inp@.len() - 1),
                )
                &&& (se.partner == AliceBob::Alice <==> inp@[0] == 0u8)
            },
    {
        if inp.len() < 1 {
            return None;
        }
        let partner = if inp[0] == 0u8 {
            AliceBob::Alice
        } else if inp[0] == 1u8 {
            AliceBob::Bob
        } else {
            return None;
        };
        let rest = crate::wire::copy_range(inp, 1, inp.len());
        let magic_ratchet = match MagicRatchet::import(rest.as_slice()) {
            None => {
                return None;
            },
            Some(m) => m,
        };
        Some(Session { partner, magic_ratchet })
    }
}

impl PartialEq for Session {
    fn eq(&self, other: &Self) -> (r: bool) {
        let a = self.export();
        let b = other.export();
        crate::bytes::bytes_eq(a.as_slice(), b.as_slice())
    }
}

impl vstd::std_specs::cmp::PartialEqSpecImpl for Session {
    open spec fn obeys_eq_spec() -> bool {
        true
    }

    open spec fn eq_spec(&self, other: &Self) -> bool {
        session_wire(self.partner, self.magic_ratchet@) == session_wire(
            other.partner,
            other.magic_ratchet@,
        )
    }
}

/// How one `send` moves a ratchet state: every sending chain steps once,
/// every send counter advances, and nothing else moves.
pub open spec fn send_post(
    v0: crate::magic::MagicRatchetV,
    v1: crate::magic::MagicRatchetV,
) -> bool {
    &&& v1.share_number == v0.share_number
    &&& v1.skipped == v0.skipped
    &&& v1.enc == (crate::enc_ratchet::EncRatchetV {
        cks: Some(crate::kdf::kdf_ck_next(v0.enc.cks->Some_0)),
        ns: (v0.enc.ns + 1) as u64,
        ..v0.enc
    })
    &&& v1.addrs.len() == v0.addrs.len()
    &&& forall|i: int|
        0 <= i < v0.addrs.len() ==> #[trigger] v1.addrs[i]
            == (crate::address_ratchet::AddressRatchetV {
            cks: Some(crate::kdf::kdf_ck_next(v0.addrs[i].cks->Some_0)),
            ns: (v0.addrs[i].ns + 1) as u64,
            ..v0.addrs[i]
        })
}

/// A session on the wire: one role byte, then the ratchet.
pub open spec fn session_wire(p: AliceBob, m: crate::magic::MagicRatchetV) -> Seq<u8> {
    seq![
        match p {
            AliceBob::Alice => 0u8,
            AliceBob::Bob => 1u8,
        },
    ] + magic_wire(m)
}

} // verus!
