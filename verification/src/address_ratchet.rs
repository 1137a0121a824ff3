//! The address ratchet.
//!
//! A Double Ratchet whose per-step message keys are not encryption keys but
//! the 32-byte storage addresses of a message's shares. It has no header
//! encryption of its own: its headers travel inside the encryption ratchet's
//! plaintext. Every state change is pinned to a spec-level transition
//! function, so the Magic Ratchet's contracts can say exactly which ratchets
//! advanced and by how much.

use vstd::prelude::*;
use vstd::slice::slice_to_vec;

use crate::dh::{p256_dh_of, p256_pk_of, p256_valid_pk, p256_valid_sk, DhKeyPair};
use crate::header::{Header, HeaderV};
use crate::kdf::{kdf_ck, kdf_ck_mk, kdf_ck_next, kdf_rk, kdf_rk_chain, kdf_rk_root};
use crate::MAX_SKIP;

verus! {

/// Why an address-ratchet step can fail.
#[derive(Debug, PartialEq, Eq, Structural)]
pub enum AddressRatchetError {
    /// The sending chain has never been seeded.
    NoCks,
    /// More than `MAX_SKIP` keys would be cached in the receive chain.
    SkippedTooManyKeys,
    /// The receiving chain has never been seeded.
    NoCkr,
}

/// A header of the address ratchet; the same shape as the encryption
/// ratchet's header.
pub type AddressHeader = Header;

/// One cached skipped key: ((remote public key bytes, message number),
/// message key).
pub type SkippedEntry = ((Vec<u8>, u64), Vec<u8>);

/// The mathematical content of an address ratchet.
pub ghost struct AddressRatchetV {
    pub dhs: (Seq<u8>, Seq<u8>),
    pub dhr: Option<Seq<u8>>,
    pub rk: Seq<u8>,
    pub ckr: Option<Seq<u8>>,
    pub cks: Option<Seq<u8>>,
    pub ns: u64,
    pub nr: u64,
    pub pn: u64,
    pub mkskipped: Seq<((Seq<u8>, u64), Seq<u8>)>,
}

/// Whether the skipped-key cache holds a key for (pk, n).
pub open spec fn skipped_contains(
    m: Seq<((Seq<u8>, u64), Seq<u8>)>,
    pk: Seq<u8>,
    n: u64,
) -> bool {
    exists|i: int| 0 <= i < m.len() && (#[trigger] m[i]).0 == (pk, n)
}

/// The cache with every key for (pk, n) taken out.
pub open spec fn skipped_remove(
    m: Seq<((Seq<u8>, u64), Seq<u8>)>,
    pk: Seq<u8>,
    n: u64,
) -> Seq<((Seq<u8>, u64), Seq<u8>)>
    decreases m.len(),
{
    if m.len() == 0 {
        m
    } else if m[0].0 == (pk, n) {
        skipped_remove(m.drop_first(), pk, n)
    } else {
        seq![m[0]] + skipped_remove(m.drop_first(), pk, n)
    }
}

/// Removal looked at one more entry at the end.
pub proof fn lemma_skipped_remove_push(
    m: Seq<((Seq<u8>, u64), Seq<u8>)>,
    x: ((Seq<u8>, u64), Seq<u8>),
    pk: Seq<u8>,
    n: u64,
)
    ensures
        skipped_remove(m.push(x), pk, n) == if x.0 == (pk, n) {
            skipped_remove(m, pk, n)
        } else {
            skipped_remove(m, pk, n).push(x)
        },
    decreases m.len(),
{
    if m.len() == 0 {
        let d = m.push(x).drop_first();
        assert(d =~= Seq::<((Seq<u8>, u64), Seq<u8>)>::empty());
        assert(m.push(x)[0] == x);
        assert(skipped_remove(d, pk, n) =~= d);
        assert(m =~= Seq::<((Seq<u8>, u64), Seq<u8>)>::empty());
        if x.0 == (pk, n) {
            assert(skipped_remove(m.push(x), pk, n) =~= skipped_remove(m, pk, n));
        } else {
            assert(skipped_remove(m.push(x), pk, n) =~= seq![x] + skipped_remove(d, pk, n));
            assert(seq![x] + d =~= skipped_remove(m, pk, n).push(x));
            assert(skipped_remove(m.push(x), pk, n) =~= skipped_remove(m, pk, n).push(x));
        }
    } else {
        assert(m.push(x).drop_first() =~= m.drop_first().push(x));
        assert(m.push(x)[0] == m[0]);
        lemma_skipped_remove_push(m.drop_first(), x, pk, n);
        if m[0].0 == (pk, n) {
        } else {
            if x.0 == (pk, n) {
                assert(skipped_remove(m.push(x), pk, n) =~= skipped_remove(m, pk, n));
            } else {
                assert(skipped_remove(m.push(x), pk, n) =~= skipped_remove(m, pk, n).push(x));
            }
        }
    }
}

/// Every entry that removal keeps was in the original cache.
pub proof fn lemma_skipped_remove_entries(m: Seq<((Seq<u8>, u64), Seq<u8>)>, pk: Seq<u8>, n: u64)
    ensures
        forall|i: int|
            0 <= i < skipped_remove(m, pk, n).len() ==> m.contains(
                #[trigger] skipped_remove(m, pk, n)[i],
            ),
        skipped_remove(m, pk, n).len() <= m.len(),
    decreases m.len(),
{
    if m.len() == 0 {
    } else {
        lemma_skipped_remove_entries(m.drop_first(), pk, n);
        let d = skipped_remove(m.drop_first(), pk, n);
        assert forall|i: int| 0 <= i < d.len() implies m.contains(#[trigger] d[i]) by {
            assert(m.drop_first().contains(d[i]));
            let j = choose|j: int| 0 <= j < m.drop_first().len() && m.drop_first()[j] == d[i];
            assert(m[j + 1] == d[i]);
        }
        if m[0].0 == (pk, n) {
        } else {
            let w = skipped_remove(m, pk, n);
            assert(w =~= seq![m[0]] + d);
            assert forall|i: int| 0 <= i < w.len() implies m.contains(#[trigger] w[i]) by {
                if i == 0 {
                    assert(w[0] == m[0]);
                } else {
                    assert(w[i] == d[i - 1]);
                }
            }
        }
    }
}

/// Processing a received header always leaves the receiving chain seeded.
pub proof fn lemma_process_recv_seeds_ckr(
    v: AddressRatchetV,
    h: HeaderV,
    new_dhs: (Seq<u8>, Seq<u8>),
)
    ensures
        process_recv_spec(v, h, new_dhs).ckr is Some,
{
}

/// Alice's freshly initialised ratchet toward a remote key: the remote key
/// adopted, the sending chain seeded from the shared secret, nothing
/// received yet; and the agreement is symmetric, so the remote key's owner
/// derives the same secret against this ratchet's public key.
pub open spec fn alice_init_ok(a: AddressRatchetV, sk: Seq<u8>, pk: Seq<u8>) -> bool {
    &&& a.dhr == Some(pk)
    &&& a.rk == kdf_rk_root(sk, p256_dh_of(a.dhs.0, pk))
    &&& a.cks == Some(kdf_rk_chain(sk, p256_dh_of(a.dhs.0, pk)))
    &&& a.ckr is None
    &&& a.ns == 0 && a.nr == 0 && a.pn == 0
    &&& a.mkskipped.len() == 0
    &&& forall|sk2: Seq<u8>|
        p256_valid_sk(sk2) && pk == p256_pk_of(sk2) ==> p256_dh_of(a.dhs.0, pk)
            == #[trigger] p256_dh_of(sk2, a.dhs.1)
}

/// Bob's freshly initialised ratchet: the shared secret as root key, no
/// chains, no remote key, zero counters, empty cache.
pub open spec fn bob_init_ok(a: AddressRatchetV, sk: Seq<u8>) -> bool {
    &&& a.dhr is None
    &&& a.rk == sk
    &&& a.cks is None
    &&& a.ckr is None
    &&& a.ns == 0 && a.nr == 0 && a.pn == 0
    &&& a.mkskipped.len() == 0
}

/// A ratchet whose stepped keys are storage addresses.
#[derive(Debug)]
pub struct AddressRatchet {
    pub dhs: DhKeyPair,
    pub dhr: Option<Vec<u8>>,
    pub rk: Vec<u8>,
    pub ckr: Option<Vec<u8>>,
    pub cks: Option<Vec<u8>>,
    pub ns: u64,
    pub nr: u64,
    pub pn: u64,
    pub mkskipped: Vec<SkippedEntry>,
}

impl View for AddressRatchet {
    type V = AddressRatchetV;

    open spec fn view(&self) -> AddressRatchetV {
        AddressRatchetV {
            dhs: (self.dhs.private_key@, self.dhs.public_key@),
            dhr: match self.dhr {
                Some(ref p) => Some(p@),
                None => None,
            },
            rk: self.rk@,
            ckr: match self.ckr {
                Some(ref c) => Some(c@),
                None => None,
            },
            cks: match self.cks {
                Some(ref c) => Some(c@),
                None => None,
            },
            ns: self.ns,
            nr: self.nr,
            pn: self.pn,
            mkskipped: self.mkskipped@.map_values(|e: SkippedEntry| ((e.0.0@, e.0.1), e.1@)),
        }
    }
}

/// The well-formedness of an address-ratchet state: every key has its
/// length, the local pair is a real pair, remote keys are valid curve
/// points, and a seeded receive chain knows whom it receives from.
/// Every cached entry has a 32-byte key and an encodable public key.
pub open spec fn skipped_wf(m: Seq<((Seq<u8>, u64), Seq<u8>)>) -> bool {
    forall|i: int|
        0 <= i < m.len() ==> (#[trigger] m[i]).1.len() == 32 && m[i].0.0.len() <= u64::MAX
}

pub open spec fn addr_wf(v: AddressRatchetV) -> bool {
    &&& crate::dh::keypair_wf(v.dhs.0, v.dhs.1)
    &&& v.rk.len() == 32
    &&& (v.dhr matches Some(p) ==> p256_valid_pk(p) && p.len() <= u64::MAX)
    &&& (v.cks matches Some(c) ==> c.len() == 32)
    &&& (v.ckr matches Some(c) ==> c.len() == 32)
    &&& (v.ckr is Some ==> v.dhr is Some)
    &&& (v.cks is None ==> v.ns == 0)
    &&& (v.ckr is None ==> v.nr == 0)
    &&& skipped_wf(v.mkskipped)
}

/// A ratchet whose secrets have been destroyed: every key overwritten in
/// place with zeros and dropped, every chain, remote key and cached entry
/// gone, all counters cleared. A closed ratchet is not well formed and can
/// take no further step.
pub open spec fn addr_closed(v: AddressRatchetV) -> bool {
    &&& addr_closed_but_cache(v)
    &&& v.mkskipped.len() == 0
}

/// Everything of a closed ratchet except the cache, which is still being
/// wiped entry by entry.
pub open spec fn addr_closed_but_cache(v: AddressRatchetV) -> bool {
    &&& v.dhs.0 == crate::bytes::zero_seq(v.dhs.0.len())
    &&& v.dhs.1 == crate::bytes::zero_seq(v.dhs.1.len())
    &&& v.dhr is None
    &&& v.rk == crate::bytes::zero_seq(v.rk.len())
    &&& v.ckr is None
    &&& v.cks is None
    &&& v.ns == 0
    &&& v.nr == 0
    &&& v.pn == 0
}

/// The cache after filling the receiving chain from counter `from` up to
/// `until` under remote key `pk`: each skipped number's key is cached in
/// turn, each insertion first evicting any entry with the same index.
pub open spec fn fill_cache_spec(
    m: Seq<((Seq<u8>, u64), Seq<u8>)>,
    pk: Seq<u8>,
    ck: Seq<u8>,
    from: u64,
    until: u64,
) -> Seq<((Seq<u8>, u64), Seq<u8>)>
    decreases until - from,
{
    if from >= until {
        m
    } else {
        fill_cache_spec(
            skipped_remove(m, pk, from).push(((pk, from), kdf_ck_mk(ck))),
            pk,
            kdf_ck_next(ck),
            (from + 1) as u64,
            until,
        )
    }
}

/// The state of an address ratchet after one poll of its receiving chain:
/// the chain steps once, the produced address is cached under the current
/// remote key and counter, and the counter advances.
pub open spec fn poll_step_spec(a: AddressRatchetV) -> AddressRatchetV {
    AddressRatchetV {
        ckr: Some(kdf_ck_next(a.ckr->Some_0)),
        nr: (a.nr + 1) as u64,
        mkskipped: skipped_remove(a.mkskipped, a.dhr->Some_0, a.nr).push(
            ((a.dhr->Some_0, a.nr), kdf_ck_mk(a.ckr->Some_0)),
        ),
        ..a
    }
}

/// The state after a Diffie-Hellman ratchet step on receipt of `h`, with
/// `new_dhs` the freshly drawn local pair: the old sending chain length is
/// remembered, both counters restart, the receiving chain is derived from
/// the old local pair and the sending chain from the new one.
pub open spec fn dhratchet_spec(
    v: AddressRatchetV,
    h: HeaderV,
    new_dhs: (Seq<u8>, Seq<u8>),
) -> AddressRatchetV {
    let dh1 = p256_dh_of(v.dhs.0, h.pk);
    let rk1 = kdf_rk_root(v.rk, dh1);
    let ckr = kdf_rk_chain(v.rk, dh1);
    let dh2 = p256_dh_of(new_dhs.0, h.pk);
    let rk2 = kdf_rk_root(rk1, dh2);
    let cks = kdf_rk_chain(rk1, dh2);
    AddressRatchetV {
        pn: v.ns,
        ns: 0,
        nr: 0,
        dhr: Some(h.pk),
        rk: rk2,
        ckr: Some(ckr),
        cks: Some(cks),
        dhs: new_dhs,
        ..v
    }
}

/// The state after processing a received header `h`: any cached key for it
/// is consumed; a new remote public key triggers a Diffie-Hellman step; a
/// still-unseeded receiving chain is then derived in place.
pub open spec fn process_recv_spec(
    v: AddressRatchetV,
    h: HeaderV,
    new_dhs: (Seq<u8>, Seq<u8>),
) -> AddressRatchetV {
    let v1 = AddressRatchetV { mkskipped: skipped_remove(v.mkskipped, h.pk, h.n), ..v };
    let v2 = if v1.dhr != Some(h.pk) {
        dhratchet_spec(v1, h, new_dhs)
    } else {
        v1
    };
    if v2.ckr is None {
        let dh = p256_dh_of(v2.dhs.0, v2.dhr->Some_0);
        AddressRatchetV {
            rk: kdf_rk_root(v2.rk, dh),
            ckr: Some(kdf_rk_chain(v2.rk, dh)),
            ..v2
        }
    } else {
        v2
    }
}

impl AddressRatchet {
    /// The state is well formed.
    pub open spec fn wf(&self) -> bool {
        addr_wf(self@)
    }

    /// Alice's initial state: a fresh local pair, Bob's public key as the
    /// remote, and a sending chain seeded from the shared secret.
    pub fn init_alice(sk: &[u8], bob_dh_public_key: &[u8]) -> (r: AddressRatchet)
        requires
            sk@.len() == 32,
            p256_valid_pk(bob_dh_public_key@),
            bob_dh_public_key@.len() <= u64::MAX,
        ensures
            r.wf(),
            alice_init_ok(r@, sk@, bob_dh_public_key@),
    {
        let dhs = DhKeyPair::new();
        let shared = dhs.key_agreement(bob_dh_public_key);
        proof {
            assert forall|sk2: Seq<u8>|
                p256_valid_sk(sk2) && bob_dh_public_key@ == p256_pk_of(sk2) implies p256_dh_of(
                dhs.private_key@,
                bob_dh_public_key@,
            ) == #[trigger] p256_dh_of(sk2, dhs.public_key@) by {
                assert(shared@ == p256_dh_of(sk2, dhs.public_key@));
            }
        }
        let (rk, cks) = kdf_rk(sk, shared.as_slice());
        let r = AddressRatchet {
            dhs,
            dhr: Some(slice_to_vec(bob_dh_public_key)),
            rk,
            cks: Some(cks),
            ckr: None,
            ns: 0,
            nr: 0,
            pn: 0,
            mkskipped: Vec::new(),
        };
        proof {
            assert(r@.mkskipped =~= Seq::<((Seq<u8>, u64), Seq<u8>)>::empty());
        }
        r
    }

    /// Bob's initial state: a fresh local pair whose public half is handed
    /// back for Alice, the shared secret as root key, and no chains yet.
    pub fn init_bob(sk: &[u8]) -> (r: (AddressRatchet, Vec<u8>))
        requires
            sk@.len() == 32,
        ensures
            r.0.wf(),
            r.1@ == r.0@.dhs.1,
            bob_init_ok(r.0@, sk@),
    {
        let dhs = DhKeyPair::new();
        let public_key = dhs.ex_public_key_bytes();
        let ratchet = AddressRatchet {
            dhs,
            dhr: None,
            rk: slice_to_vec(sk),
            cks: None,
            ckr: None,
            ns: 0,
            nr: 0,
            pn: 0,
            mkskipped: Vec::new(),
        };
        proof {
            assert(ratchet@.mkskipped =~= Seq::<((Seq<u8>, u64), Seq<u8>)>::empty());
        }
        (ratchet, public_key)
    }

    /// Step the sending chain once: the new message key is the next storage
    /// address, and the header carries the local public key and counters.
    pub fn ratchet_send(&mut self) -> (r: Result<(AddressHeader, Vec<u8>), AddressRatchetError>)
        requires
            old(self).wf(),
            old(self)@.ns < u64::MAX,
        ensures
            final(self).wf(),
            old(self)@.cks is None ==> r == Err::<(AddressHeader, Vec<u8>), AddressRatchetError>(
                AddressRatchetError::NoCks,
            ) && final(self)@ == old(self)@,
            old(self)@.cks matches Some(ck) ==> {
                &&& r is Ok
                &&& final(self)@ == (AddressRatchetV {
                    cks: Some(kdf_ck_next(ck)),
                    ns: (old(self)@.ns + 1) as u64,
                    ..old(self)@
                })
                &&& r.unwrap().0@ == (HeaderV {
                    pk: old(self)@.dhs.1,
                    pn: old(self)@.pn,
                    n: old(self)@.ns,
                })
                &&& r.unwrap().1@ == kdf_ck_mk(ck)
                &&& r.unwrap().1@.len() == 32
            },
    {
        let ck = match &self.cks {
            None => {
                return Err(AddressRatchetError::NoCks);
            },
            Some(c) => slice_to_vec(c.as_slice()),
        };
        let (next, mk) = kdf_ck(ck.as_slice());
        self.cks = Some(next);
        let header = Header::new(&self.dhs, self.pn, self.ns);
        self.ns = self.ns + 1;
        Ok((header, mk))
    }

    /// Consume the cached key for a header, if one is cached; says whether
    /// one was.
    pub fn try_skipped_message_keys(&mut self, header: &AddressHeader) -> (r: bool)
        requires
            old(self).wf(),
        ensures
            final(self).wf(),
            r == skipped_contains(old(self)@.mkskipped, header@.pk, header@.n),
            final(self)@ == (AddressRatchetV {
                mkskipped: skipped_remove(old(self)@.mkskipped, header@.pk, header@.n),
                ..old(self)@
            }),
    {
        let mut kept: Vec<SkippedEntry> = Vec::new();
        let mut found = false;
        let mut k: usize = 0;
        let ghost m = self@.mkskipped;
        proof {
            assert(m.subrange(0, 0) =~= Seq::<((Seq<u8>, u64), Seq<u8>)>::empty());
            assert(kept@.map_values(|e: SkippedEntry| ((e.0.0@, e.0.1), e.1@)) =~= Seq::<
                ((Seq<u8>, u64), Seq<u8>),
            >::empty());
        }
        while k < self.mkskipped.len()
            invariant
                0 <= k <= self.mkskipped@.len(),
                m == self@.mkskipped,
                self@.mkskipped.len() == self.mkskipped@.len(),
                kept@.map_values(|e: SkippedEntry| ((e.0.0@, e.0.1), e.1@)) == skipped_remove(
                    m.subrange(0, k as int),
                    header@.pk,
                    header@.n,
                ),
                found == skipped_contains(m.subrange(0, k as int), header@.pk, header@.n),
            decreases self.mkskipped@.len() - k,
        {
            let entry = &self.mkskipped[k];
            let ghost prefix = m.subrange(0, k as int);
            let hit = crate::bytes::bytes_eq(entry.0.0.as_slice(), header.public_key.as_slice())
                && entry.0.1 == header.n;
            proof {
                assert(m.subrange(0, k + 1) =~= prefix.push(m[k as int]));
                lemma_skipped_remove_push(prefix, m[k as int], header@.pk, header@.n);
                if hit {
                    assert(m.subrange(0, k + 1)[k as int] == m[k as int]);
                    assert(skipped_contains(m.subrange(0, k + 1), header@.pk, header@.n));
                } else {
                    assert(m[k as int].0 != (header@.pk, header@.n));
                    if skipped_contains(m.subrange(0, k + 1), header@.pk, header@.n) {
                        let i = choose|i: int|
                            0 <= i < m.subrange(0, k + 1).len() && (#[trigger] m.subrange(
                                0,
                                k + 1,
                            )[i]).0 == (header@.pk, header@.n);
                        assert(m.subrange(0, k + 1)[i] == prefix[i] || i == k as int);
                        assert(skipped_contains(prefix, header@.pk, header@.n) || i == k as int);
                    }
                }
            }
            if hit {
                found = true;
            } else {
                let copy: SkippedEntry = (
                    (slice_to_vec(entry.0.0.as_slice()), entry.0.1),
                    slice_to_vec(entry.1.as_slice()),
                );
                kept.push(copy);
                proof {
                    assert(kept@.map_values(|e: SkippedEntry| ((e.0.0@, e.0.1), e.1@))
                        =~= skipped_remove(m.subrange(0, k + 1), header@.pk, header@.n));
                }
            }
            k = k + 1;
        }
        proof {
            assert(m.subrange(0, m.len() as int) =~= m);
            lemma_skipped_remove_entries(m, header@.pk, header@.n);
        }
        self.mkskipped = kept;
        found
    }

    /// Fill the receiving chain's skipped keys up to message `until`,
    /// caching one address per skipped message.
    pub fn skip_message_keys(&mut self, until: u64) -> (r: Result<(), AddressRatchetError>)
        requires
            old(self).wf(),
        ensures
            final(self).wf(),
            old(self)@.nr + MAX_SKIP < until ==> r == Err::<(), AddressRatchetError>(
                AddressRatchetError::SkippedTooManyKeys,
            ) && final(self)@ == old(self)@,
            old(self)@.nr + MAX_SKIP >= until && old(self)@.ckr is None ==> r == Err::<
                (),
                AddressRatchetError,
            >(AddressRatchetError::NoCkr) && final(self)@ == old(self)@,
            old(self)@.nr + MAX_SKIP >= until && old(self)@.ckr is Some ==> {
                &&& r is Ok
                &&& final(self)@.ns == old(self)@.ns
                &&& final(self)@.pn == old(self)@.pn
                &&& final(self)@.nr == if old(self)@.nr >= until {
                    old(self)@.nr
                } else {
                    until
                }
                &&& final(self)@.dhs == old(self)@.dhs
                &&& final(self)@.dhr == old(self)@.dhr
                &&& final(self)@.rk == old(self)@.rk
                &&& final(self)@.cks == old(self)@.cks
                &&& (old(self)@.nr >= until ==> final(self)@ == old(self)@)
                &&& (old(self)@.nr < until ==> final(self)@.ckr == Some(
                    crate::kdf::ck_after(old(self)@.ckr->Some_0, (until - old(self)@.nr) as nat),
                ) && final(self)@.mkskipped == fill_cache_spec(
                    old(self)@.mkskipped,
                    old(self)@.dhr->Some_0,
                    old(self)@.ckr->Some_0,
                    old(self)@.nr,
                    until,
                ))
            },
    {
        if until > MAX_SKIP && self.nr < until - MAX_SKIP {
            return Err(AddressRatchetError::SkippedTooManyKeys);
        }
        if self.ckr.is_none() {
            return Err(AddressRatchetError::NoCkr);
        }
        while self.nr < until
            invariant
                self.wf(),
                self@.ckr is Some,
                self@.dhr is Some,
                until <= u64::MAX,
                self@.ns == old(self)@.ns,
                self@.pn == old(self)@.pn,
                self@.dhs == old(self)@.dhs,
                self@.dhr == old(self)@.dhr,
                self@.rk == old(self)@.rk,
                self@.cks == old(self)@.cks,
                self@.nr >= old(self)@.nr,
                self@.nr <= until || self@.nr == old(self)@.nr,
                self@.ckr == Some(
                    crate::kdf::ck_after(
                        old(self)@.ckr->Some_0,
                        (self@.nr - old(self)@.nr) as nat,
                    ),
                ),
                fill_cache_spec(
                    old(self)@.mkskipped,
                    old(self)@.dhr->Some_0,
                    old(self)@.ckr->Some_0,
                    old(self)@.nr,
                    until,
                ) == fill_cache_spec(
                    self@.mkskipped,
                    old(self)@.dhr->Some_0,
                    self@.ckr->Some_0,
                    self@.nr,
                    until,
                ),
            decreases until - self.nr,
        {
            let ghost steps = (self@.nr - old(self)@.nr) as nat;
            let ghost m_in = self@.mkskipped;
            let ck = match &self.ckr {
                None => {
                    return Err(AddressRatchetError::NoCkr);
                },
                Some(c) => slice_to_vec(c.as_slice()),
            };
            let (next, mk) = kdf_ck(ck.as_slice());
            self.ckr = Some(next);
            let dhr_bytes = match &self.dhr {
                None => {
                    return Err(AddressRatchetError::NoCkr);
                },
                Some(p) => slice_to_vec(p.as_slice()),
            };
            self.insert_skipped(dhr_bytes, self.nr, mk);
            proof {
                assert(crate::kdf::ck_after(old(self)@.ckr->Some_0, (steps + 1) as nat)
                    == kdf_ck_next(ck@));
                assert(self@.mkskipped == skipped_remove(m_in, old(self)@.dhr->Some_0, self@.nr)
                    .push(((old(self)@.dhr->Some_0, self@.nr), kdf_ck_mk(ck@))));
                assert(fill_cache_spec(
                    m_in,
                    old(self)@.dhr->Some_0,
                    ck@,
                    self@.nr,
                    until,
                ) == fill_cache_spec(
                    self@.mkskipped,
                    old(self)@.dhr->Some_0,
                    kdf_ck_next(ck@),
                    (self@.nr + 1) as u64,
                    until,
                ));
            }
            self.nr = self.nr + 1;
        }
        Ok(())
    }

    /// Destroy the ratchet's secrets: overwrite every key with zeros in
    /// place, drop every cached entry after wiping it, and clear the
    /// counters. The ratchet is unusable afterwards.
    pub fn close(&mut self)
        ensures
            addr_closed(final(self)@),
    {
        crate::bytes::wipe_bytes(&mut self.dhs.private_key);
        crate::bytes::wipe_bytes(&mut self.dhs.public_key);
        crate::bytes::wipe_opt_bytes(&mut self.dhr);
        crate::bytes::wipe_bytes(&mut self.rk);
        crate::bytes::wipe_opt_bytes(&mut self.ckr);
        crate::bytes::wipe_opt_bytes(&mut self.cks);
        self.ns = 0;
        self.nr = 0;
        self.pn = 0;
        while self.mkskipped.len() > 0
            invariant
                addr_closed_but_cache(self@),
            decreases self.mkskipped@.len(),
        {
            let mut e = match self.mkskipped.pop() {
                Some(e) => e,
                None => {
                    proof {
                        assert(false);
                    }
                    unreached()
                },
            };
            crate::bytes::wipe_bytes(&mut e.0.0);
            crate::bytes::wipe_bytes(&mut e.1);
        }
    }

    /// Cache a skipped key, replacing any cached key with the same index.
    fn insert_skipped(&mut self, pk: Vec<u8>, n: u64, mk: Vec<u8>)
        requires
            old(self).wf(),
            pk@.len() <= u64::MAX,
            mk@.len() == 32,
        ensures
            final(self).wf(),
            final(self)@ == (AddressRatchetV {
                mkskipped: skipped_remove(old(self)@.mkskipped, pk@, n).push(((pk@, n), mk@)),
                ..old(self)@
            }),
    {
        let ghost m = self@.mkskipped;
        let header_like = Header { public_key: slice_to_vec(pk.as_slice()), pn: 0, n };
        let _ = self.try_skipped_message_keys(&header_like);
        self.mkskipped.push(((pk, n), mk));
        proof {
            assert(self@.mkskipped =~= skipped_remove(m, pk@, n).push(((pk@, n), mk@)));
            lemma_skipped_remove_entries(m, pk@, n);
        }
    }

    /// Step the receiving chain once and cache the produced address; the
    /// recipient polls this to learn where the next message will land.
    pub fn next_address(&mut self) -> (r: Result<Vec<u8>, AddressRatchetError>)
        requires
            old(self).wf(),
        ensures
            final(self).wf(),
            old(self)@.nr > MAX_SKIP ==> r == Err::<Vec<u8>, AddressRatchetError>(
                AddressRatchetError::SkippedTooManyKeys,
            ) && final(self)@ == old(self)@,
            old(self)@.nr <= MAX_SKIP && old(self)@.ckr is None ==> r == Err::<
                Vec<u8>,
                AddressRatchetError,
            >(AddressRatchetError::NoCkr) && final(self)@ == old(self)@,
            old(self)@.nr <= MAX_SKIP ==> (old(self)@.ckr matches Some(ck) ==> {
                &&& r is Ok
                &&& r.unwrap()@ == kdf_ck_mk(ck)
                &&& r.unwrap()@.len() == 32
                &&& final(self)@ == (AddressRatchetV {
                    ckr: Some(kdf_ck_next(ck)),
                    nr: (old(self)@.nr + 1) as u64,
                    mkskipped: skipped_remove(
                        old(self)@.mkskipped,
                        old(self)@.dhr->Some_0,
                        old(self)@.nr,
                    ).push(((old(self)@.dhr->Some_0, old(self)@.nr), kdf_ck_mk(ck))),
                    ..old(self)@
                })
            }),
    {
        if self.nr > MAX_SKIP {
            return Err(AddressRatchetError::SkippedTooManyKeys);
        }
        let ck = match &self.ckr {
            None => {
                return Err(AddressRatchetError::NoCkr);
            },
            Some(c) => slice_to_vec(c.as_slice()),
        };
        let (next, mk) = kdf_ck(ck.as_slice());
        self.ckr = Some(next);
        let dhr_bytes = match &self.dhr {
            None => {
                return Err(AddressRatchetError::NoCkr);
            },
            Some(p) => slice_to_vec(p.as_slice()),
        };
        let mk_out = slice_to_vec(mk.as_slice());
        self.insert_skipped(dhr_bytes, self.nr, mk);
        self.nr = self.nr + 1;
        Ok(mk_out)
    }

    /// Process the address header of a received message: consume any cached
    /// key for it, ratchet on a new remote public key, and seed the
    /// receiving chain if it never was.
    pub fn proccess_recv(&mut self, header: &AddressHeader)
        requires
            old(self).wf(),
            p256_valid_pk(header@.pk),
            header@.pk.len() <= u64::MAX,
        ensures
            final(self).wf(),
            final(self)@ == process_recv_spec(old(self)@, header@, final(self)@.dhs),
            old(self)@.dhr == Some(header@.pk) ==> final(self)@.dhs == old(self)@.dhs,
            final(self)@.ckr is Some,
    {
        let _ = self.try_skipped_message_keys(header);
        let same = match &self.dhr {
            None => false,
            Some(p) => crate::bytes::bytes_eq(p.as_slice(), header.public_key.as_slice()),
        };
        if !same {
            self.dhratchet(header);
        }
        if self.ckr.is_none() {
            let dhr = match &self.dhr {
                None => {
                    proof {
                        assert(false);
                    }
                    unreached()
                },
                Some(p) => slice_to_vec(p.as_slice()),
            };
            let shared = self.dhs.key_agreement(dhr.as_slice());
            let (rk, ckr) = kdf_rk(self.rk.as_slice(), shared.as_slice());
            self.rk = rk;
            self.ckr = Some(ckr);
        }
    }

    /// A Diffie-Hellman ratchet step: remember the old sending chain length,
    /// restart both counters, adopt the remote key, derive the receiving
    /// chain with the old local pair, rotate the local pair, and derive the
    /// sending chain with the new one.
    pub fn dhratchet(&mut self, header: &AddressHeader)
        requires
            old(self).wf(),
            p256_valid_pk(header@.pk),
            header@.pk.len() <= u64::MAX,
        ensures
            final(self).wf(),
            final(self)@ == dhratchet_spec(old(self)@, header@, final(self)@.dhs),
            final(self)@.ckr is Some,
    {
        self.pn = self.ns;
        self.ns = 0;
        self.nr = 0;
        self.dhr = Some(header.ex_public_key_bytes());
        let shared1 = self.dhs.key_agreement(header.public_key.as_slice());
        let (rk1, ckr) = kdf_rk(self.rk.as_slice(), shared1.as_slice());
        self.rk = rk1;
        self.ckr = Some(ckr);
        self.dhs = DhKeyPair::new();
        let shared2 = self.dhs.key_agreement(header.public_key.as_slice());
        let (rk2, cks) = kdf_rk(self.rk.as_slice(), shared2.as_slice());
        self.rk = rk2;
        self.cks = Some(cks);
    }
}

} // verus!
