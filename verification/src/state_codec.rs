//! Canonical serialisation of ratchet state.
//!
//! `export` writes a state as length-prefixed segments, optional segments
//! and fixed-width counters; `import` parses and validates, refusing
//! anything that does not re-establish the state invariants. The spec-level
//! parses include that validation, and each provably inverts its encoder on
//! well-formed states; that is what makes an exported state behaviourally
//! equivalent to the original, since every contract in this crate is a
//! function of the views recovered here.

use vstd::prelude::*;
use vstd::slice::slice_to_vec;

use crate::address_ratchet::{addr_wf, AddressRatchet, AddressRatchetV, SkippedEntry};
use crate::bytes::{bytes_eq, enc_opt_seg, enc_seg, parse_opt_seg, parse_seg, parse_u64,
    read_opt_seg, read_seg, read_u64_le, u64_le, write_opt_seg, write_seg, write_u64_le};
use crate::dh::DhKeyPair;
use crate::enc_ratchet::{copy_opt_bytes, enc_wf, opt_bytes_view, EncRatchet, EncRatchetV};

verus! {

/// The view of one cached entry.
pub open spec fn entry_view(e: SkippedEntry) -> ((Seq<u8>, u64), Seq<u8>) {
    ((e.0.0@, e.0.1), e.1@)
}

/// The view of a cache.
pub open spec fn entries_view(m: Seq<SkippedEntry>) -> Seq<((Seq<u8>, u64), Seq<u8>)> {
    m.map_values(|e: SkippedEntry| ((e.0.0@, e.0.1), e.1@))
}

/// One cached skipped key on the wire.
pub open spec fn entry_wire(e: ((Seq<u8>, u64), Seq<u8>)) -> Seq<u8> {
    enc_seg(e.0.0) + u64_le(e.0.1) + enc_seg(e.1)
}

/// A skipped-key cache on the wire, count first.
pub open spec fn entries_wire(m: Seq<((Seq<u8>, u64), Seq<u8>)>) -> Seq<u8>
    decreases m.len(),
{
    if m.len() == 0 {
        Seq::empty()
    } else {
        entry_wire(m[0]) + entries_wire(m.drop_first())
    }
}

pub proof fn lemma_entries_wire_push(
    m: Seq<((Seq<u8>, u64), Seq<u8>)>,
    x: ((Seq<u8>, u64), Seq<u8>),
)
    ensures
        entries_wire(m.push(x)) == entries_wire(m) + entry_wire(x),
    decreases m.len(),
{
    if m.len() == 0 {
        let d = m.push(x).drop_first();
        assert(d =~= Seq::<((Seq<u8>, u64), Seq<u8>)>::empty());
        assert(m.push(x)[0] == x);
        assert(entries_wire(d) =~= Seq::<u8>::empty());
        assert(entries_wire(m) =~= Seq::<u8>::empty());
        assert(entries_wire(m.push(x)) =~= entries_wire(m) + entry_wire(x));
    } else {
        assert(m.push(x).drop_first() =~= m.drop_first().push(x));
        assert(m.push(x)[0] == m[0]);
        lemma_entries_wire_push(m.drop_first(), x);
        assert(entries_wire(m.push(x)) =~= entries_wire(m) + entry_wire(x));
    }
}

/// Parse one cached entry at index `i`.
pub open spec fn parse_entry(s: Seq<u8>, i: int) -> Option<(((Seq<u8>, u64), Seq<u8>), int)> {
    match parse_seg(s, i) {
        None => None,
        Some((pk, j)) => match parse_u64(s, j) {
            None => None,
            Some((n, k)) => match parse_seg(s, k) {
                None => None,
                Some((mk, end)) => Some((((pk, n), mk), end)),
            },
        },
    }
}

pub proof fn lemma_parse_entry_at(s: Seq<u8>, i: int, e: ((Seq<u8>, u64), Seq<u8>))
    requires
        0 <= i,
        e.0.0.len() <= u64::MAX,
        e.1.len() <= u64::MAX,
        i + entry_wire(e).len() <= s.len(),
        s.subrange(i, i + entry_wire(e).len()) == entry_wire(e),
    ensures
        parse_entry(s, i) == Some((e, i + entry_wire(e).len())),
{
    let w = s.subrange(i, i + entry_wire(e).len());
    let a = 8 + e.0.0.len() as int;
    let j = i + a;
    let k = j + 8;
    let end = k + 8 + e.1.len() as int;
    assert(s.subrange(i, j) =~= w.subrange(0, a));
    assert(w.subrange(0, a) =~= enc_seg(e.0.0));
    crate::bytes::lemma_parse_seg_at(s, i, e.0.0);
    assert(s.subrange(j, k) =~= w.subrange(a, a + 8));
    assert(w.subrange(a, a + 8) =~= u64_le(e.0.1));
    crate::bytes::lemma_parse_u64_at(s, j, e.0.1);
    assert(s.subrange(k, end) =~= w.subrange(a + 8, a + 16 + e.1.len() as int));
    assert(w.subrange(a + 8, a + 16 + e.1.len() as int) =~= enc_seg(e.1));
    crate::bytes::lemma_parse_seg_at(s, k, e.1);
}

/// Parse `count` cached entries at index `i`.
pub open spec fn parse_entries(s: Seq<u8>, i: int, count: nat) -> Option<
    (Seq<((Seq<u8>, u64), Seq<u8>)>, int),
>
    decreases count,
{
    if count == 0 {
        Some((Seq::empty(), i))
    } else {
        match parse_entry(s, i) {
            None => None,
            Some((e, j)) => match parse_entries(s, j, (count - 1) as nat) {
                None => None,
                Some((rest, end)) => Some((seq![e] + rest, end)),
            },
        }
    }
}

pub proof fn lemma_parse_entries_at(s: Seq<u8>, i: int, m: Seq<((Seq<u8>, u64), Seq<u8>)>)
    requires
        0 <= i,
        i + entries_wire(m).len() <= s.len(),
        s.subrange(i, i + entries_wire(m).len()) == entries_wire(m),
        forall|k: int|
            0 <= k < m.len() ==> (#[trigger] m[k]).0.0.len() <= u64::MAX && m[k].1.len()
                <= u64::MAX,
    ensures
        parse_entries(s, i, m.len()) == Some((m, i + entries_wire(m).len())),
    decreases m.len(),
{
    if m.len() == 0 {
        assert(m =~= Seq::<((Seq<u8>, u64), Seq<u8>)>::empty());
    } else {
        let first = m[0];
        let rest = m.drop_first();
        let w = s.subrange(i, i + entries_wire(m).len());
        assert(entries_wire(m) == entry_wire(first) + entries_wire(rest));
        let a = entry_wire(first).len() as int;
        let j = i + a;
        assert(s.subrange(i, j) =~= w.subrange(0, a));
        assert(w.subrange(0, a) =~= entry_wire(first));
        lemma_parse_entry_at(s, i, first);
        assert(s.subrange(j, j + entries_wire(rest).len() as int) =~= w.subrange(
            a,
            a + entries_wire(rest).len() as int,
        ));
        assert(w.subrange(a, a + entries_wire(rest).len() as int) =~= entries_wire(rest));
        assert(forall|k: int|
            0 <= k < rest.len() ==> (#[trigger] rest[k]).0.0.len() <= u64::MAX && rest[k].1.len()
                <= u64::MAX) by {
            assert forall|k: int|
                0 <= k < rest.len() implies (#[trigger] rest[k]).0.0.len() <= u64::MAX
                && rest[k].1.len() <= u64::MAX by {
                assert(rest[k] == m[k + 1]);
            }
        }
        lemma_parse_entries_at(s, j, rest);
        assert(seq![first] + rest =~= m);
    }
}

/// Append a skipped-key cache, count first.
pub fn write_entries(out: &mut Vec<u8>, m: &Vec<SkippedEntry>)
    ensures
        final(out)@ == old(out)@ + u64_le(m@.len() as u64) + entries_wire(entries_view(m@)),
{
    let ghost mv = entries_view(m@);
    write_u64_le(out, m.len() as u64);
    let ghost base = out@;
    let mut k: usize = 0;
    proof {
        assert(mv.subrange(0, 0) =~= Seq::<((Seq<u8>, u64), Seq<u8>)>::empty());
    }
    while k < m.len()
        invariant
            0 <= k <= m@.len(),
            mv == entries_view(m@),
            mv.len() == m@.len(),
            out@ == base + entries_wire(mv.subrange(0, k as int)),
        decreases m@.len() - k,
    {
        let entry = &m[k];
        write_seg(out, entry.0.0.as_slice());
        write_u64_le(out, entry.0.1);
        write_seg(out, entry.1.as_slice());
        proof {
            lemma_entries_wire_push(mv.subrange(0, k as int), mv[k as int]);
            assert(mv.subrange(0, k + 1) =~= mv.subrange(0, k as int).push(mv[k as int]));
            assert(out@ =~= base + entries_wire(mv.subrange(0, k + 1)));
        }
        k = k + 1;
    }
    proof {
        assert(mv.subrange(0, mv.len() as int) =~= mv);
        assert(out@ =~= old(out)@ + u64_le(m@.len() as u64) + entries_wire(entries_view(m@)));
    }
}

/// Read a count-prefixed skipped-key cache, without validation.
pub fn read_entries(s: &[u8], pos: usize) -> (r: Option<(Vec<SkippedEntry>, usize)>)
    requires
        pos <= s.len(),
    ensures
        match r {
            Some((m, j)) => {
                &&& parse_u64(s@, pos as int) matches Some((count, i0))
                &&& parse_entries(s@, i0, count as nat) == Some((entries_view(m@), j as int))
                &&& j <= s.len()
            },
            None => (match parse_u64(s@, pos as int) {
                None => true,
                Some((count, i0)) => parse_entries(s@, i0, count as nat) is None,
            }),
        },
{
    let (count, start) = match read_u64_le(s, pos) {
        None => {
            return None;
        },
        Some(p) => p,
    };
    let ghost i0 = start as int;
    let mut cur = start;
    let mut m: Vec<SkippedEntry> = Vec::new();
    let mut taken: u64 = 0;
    proof {
        assert(entries_view(m@) =~= Seq::<((Seq<u8>, u64), Seq<u8>)>::empty());
    }
    while taken < count
        invariant
            0 <= taken <= count,
            cur <= s@.len(),
            parse_u64(s@, pos as int) == Some((count, i0)),
            parse_entries(s@, i0, count as nat) == match parse_entries(
                s@,
                cur as int,
                (count - taken) as nat,
            ) {
                None => None::<(Seq<((Seq<u8>, u64), Seq<u8>)>, int)>,
                Some((rest, end)) => Some((entries_view(m@) + rest, end)),
            },
        decreases count - taken,
    {
        let (pk, j1) = match read_seg(s, cur) {
            None => {
                proof {
                    assert(parse_entries(s@, cur as int, (count - taken) as nat) is None);
                }
                return None;
            },
            Some(p) => p,
        };
        let (n, j2) = match read_u64_le(s, j1) {
            None => {
                proof {
                    assert(parse_entries(s@, cur as int, (count - taken) as nat) is None);
                }
                return None;
            },
            Some(p) => p,
        };
        let (mk, j3) = match read_seg(s, j2) {
            None => {
                proof {
                    assert(parse_entries(s@, cur as int, (count - taken) as nat) is None);
                }
                return None;
            },
            Some(p) => p,
        };
        let ghost before = entries_view(m@);
        m.push(((pk, n), mk));
        proof {
            assert(entries_view(m@) =~= before.push(((pk@, n), mk@)));
            assert forall|rest: Seq<((Seq<u8>, u64), Seq<u8>)>| true implies before + (seq![
                ((pk@, n), mk@),
            ] + rest) =~= before.push(((pk@, n), mk@)) + rest by {}
        }
        cur = j3;
        taken = taken + 1;
    }
    proof {
        assert(parse_entries(s@, cur as int, 0) == Some(
            (Seq::<((Seq<u8>, u64), Seq<u8>)>::empty(), cur as int),
        ));
        assert(entries_view(m@) + Seq::<((Seq<u8>, u64), Seq<u8>)>::empty() =~= entries_view(m@));
    }
    Some((m, cur))
}

/// The fields the two ratchets share, on the wire: the local pair, the
/// remote key, the root key, the two chain keys and the three counters.
pub open spec fn common_wire(
    dhs: (Seq<u8>, Seq<u8>),
    dhr: Option<Seq<u8>>,
    rk: Seq<u8>,
    ckr: Option<Seq<u8>>,
    cks: Option<Seq<u8>>,
    ns: u64,
    nr: u64,
    pn: u64,
) -> Seq<u8> {
    enc_seg(dhs.0) + enc_seg(dhs.1) + enc_opt_seg(dhr) + enc_seg(rk) + enc_opt_seg(ckr)
        + enc_opt_seg(cks) + u64_le(ns) + u64_le(nr) + u64_le(pn)
}

/// The parsed form of the shared fields.
pub ghost struct CommonV {
    pub dhs: (Seq<u8>, Seq<u8>),
    pub dhr: Option<Seq<u8>>,
    pub rk: Seq<u8>,
    pub ckr: Option<Seq<u8>>,
    pub cks: Option<Seq<u8>>,
    pub ns: u64,
    pub nr: u64,
    pub pn: u64,
}

/// Parse the shared fields at index `i`, without validation.
pub open spec fn parse_common(s: Seq<u8>, i: int) -> Option<(CommonV, int)> {
    match parse_seg(s, i) {
        None => None,
        Some((sk, i1)) => match parse_seg(s, i1) {
            None => None,
            Some((pk, i2)) => match parse_opt_seg(s, i2) {
                None => None,
                Some((dhr, i3)) => match parse_seg(s, i3) {
                    None => None,
                    Some((rk, i4)) => match parse_opt_seg(s, i4) {
                        None => None,
                        Some((ckr, i5)) => match parse_opt_seg(s, i5) {
                            None => None,
                            Some((cks, i6)) => match parse_u64(s, i6) {
                                None => None,
                                Some((ns, i7)) => match parse_u64(s, i7) {
                                    None => None,
                                    Some((nr, i8)) => match parse_u64(s, i8) {
                                        None => None,
                                        Some((pn, i9)) => Some(
                                            (CommonV { dhs: (sk, pk), dhr, rk, ckr, cks, ns, nr, pn }, i9),
                                        ),
                                    },
                                },
                            },
                        },
                    },
                },
            },
        },
    }
}

/// If the bytes at `i` encode the shared fields, parsing recovers them.
#[verifier::rlimit(100)]
#[verifier::spinoff_prover]
pub proof fn lemma_parse_common_at(
    s: Seq<u8>,
    i: int,
    dhs: (Seq<u8>, Seq<u8>),
    dhr: Option<Seq<u8>>,
    rk: Seq<u8>,
    ckr: Option<Seq<u8>>,
    cks: Option<Seq<u8>>,
    ns: u64,
    nr: u64,
    pn: u64,
)
    requires
        0 <= i,
        dhs.0.len() <= u64::MAX,
        dhs.1.len() <= u64::MAX,
        rk.len() <= u64::MAX,
        (dhr matches Some(b) ==> b.len() <= u64::MAX),
        (ckr matches Some(b) ==> b.len() <= u64::MAX),
        (cks matches Some(b) ==> b.len() <= u64::MAX),
        i + common_wire(dhs, dhr, rk, ckr, cks, ns, nr, pn).len() <= s.len(),
        s.subrange(i, i + common_wire(dhs, dhr, rk, ckr, cks, ns, nr, pn).len()) == common_wire(
            dhs,
            dhr,
            rk,
            ckr,
            cks,
            ns,
            nr,
            pn,
        ),
    ensures
        parse_common(s, i) == Some(
            (
                CommonV { dhs, dhr, rk, ckr, cks, ns, nr, pn },
                i + common_wire(dhs, dhr, rk, ckr, cks, ns, nr, pn).len(),
            ),
        ),
{
    let c1 = enc_seg(dhs.0);
    let c2 = c1 + enc_seg(dhs.1);
    let c3 = c2 + enc_opt_seg(dhr);
    let c4 = c3 + enc_seg(rk);
    let c5 = c4 + enc_opt_seg(ckr);
    let c6 = c5 + enc_opt_seg(cks);
    let c7 = c6 + u64_le(ns);
    let c8 = c7 + u64_le(nr);
    crate::bytes::lemma_concat_split(s, i, c8, u64_le(pn));
    crate::bytes::lemma_concat_split(s, i, c7, u64_le(nr));
    crate::bytes::lemma_concat_split(s, i, c6, u64_le(ns));
    crate::bytes::lemma_concat_split(s, i, c5, enc_opt_seg(cks));
    crate::bytes::lemma_concat_split(s, i, c4, enc_opt_seg(ckr));
    crate::bytes::lemma_concat_split(s, i, c3, enc_seg(rk));
    crate::bytes::lemma_concat_split(s, i, c2, enc_opt_seg(dhr));
    crate::bytes::lemma_concat_split(s, i, c1, enc_seg(dhs.1));
    crate::bytes::lemma_parse_seg_at(s, i, dhs.0);
    let o1 = i + c1.len() as int;
    crate::bytes::lemma_parse_seg_at(s, o1, dhs.1);
    let o2 = i + c2.len() as int;
    crate::bytes::lemma_parse_opt_seg_at(s, o2, dhr);
    let o3 = i + c3.len() as int;
    crate::bytes::lemma_parse_seg_at(s, o3, rk);
    let o4 = i + c4.len() as int;
    crate::bytes::lemma_parse_opt_seg_at(s, o4, ckr);
    let o5 = i + c5.len() as int;
    crate::bytes::lemma_parse_opt_seg_at(s, o5, cks);
    let o6 = i + c6.len() as int;
    crate::bytes::lemma_parse_u64_at(s, o6, ns);
    let o7 = i + c7.len() as int;
    crate::bytes::lemma_parse_u64_at(s, o7, nr);
    let o8 = i + c8.len() as int;
    crate::bytes::lemma_parse_u64_at(s, o8, pn);
}

/// Append the shared fields of a ratchet.
#[verifier::rlimit(100)]
#[verifier::spinoff_prover]
pub fn write_common(
    out: &mut Vec<u8>,
    dhs: &DhKeyPair,
    dhr: &Option<Vec<u8>>,
    rk: &Vec<u8>,
    ckr: &Option<Vec<u8>>,
    cks: &Option<Vec<u8>>,
    ns: u64,
    nr: u64,
    pn: u64,
)
    ensures
        final(out)@ == old(out)@ + common_wire(
            (dhs.private_key@, dhs.public_key@),
            opt_bytes_view(*dhr),
            rk@,
            opt_bytes_view(*ckr),
            opt_bytes_view(*cks),
            ns,
            nr,
            pn,
        ),
{
    write_seg(out, dhs.private_key.as_slice());
    write_seg(out, dhs.public_key.as_slice());
    write_opt_seg(out, dhr);
    write_seg(out, rk.as_slice());
    write_opt_seg(out, ckr);
    write_opt_seg(out, cks);
    write_u64_le(out, ns);
    write_u64_le(out, nr);
    write_u64_le(out, pn);
    assert(final(out)@ =~= old(out)@ + common_wire(
        (dhs.private_key@, dhs.public_key@),
        opt_bytes_view(*dhr),
        rk@,
        opt_bytes_view(*ckr),
        opt_bytes_view(*cks),
        ns,
        nr,
        pn,
    ));
}

/// Read the shared fields of a ratchet, recovering the local pair from its
/// scalar and checking the stored public half against it.
pub fn read_common(s: &[u8], pos: usize) -> (r: Option<
    (DhKeyPair, Option<Vec<u8>>, Vec<u8>, Option<Vec<u8>>, Option<Vec<u8>>, u64, u64, u64, usize),
>)
    requires
        pos <= s.len(),
    ensures
        match r {
            Some(out) => {
                &&& parse_common(s@, pos as int) matches Some((c, j))
                &&& c.dhs == (out.0.private_key@, out.0.public_key@)
                &&& c.dhr == opt_bytes_view(out.1)
                &&& c.rk == out.2@
                &&& c.ckr == opt_bytes_view(out.3)
                &&& c.cks == opt_bytes_view(out.4)
                &&& c.ns == out.5 && c.nr == out.6 && c.pn == out.7
                &&& out.8 as int == j
                &&& out.8 <= s.len()
                &&& out.0.wf()
            },
            None => (match parse_common(s@, pos as int) {
                None => true,
                Some((c, j)) => !crate::dh::keypair_wf(c.dhs.0, c.dhs.1),
            }),
        },
{
    let (sk, i1) = match read_seg(s, pos) {
        None => {
            return None;
        },
        Some(p) => p,
    };
    let (pk, i2) = match read_seg(s, i1) {
        None => {
            return None;
        },
        Some(p) => p,
    };
    let (dhr, i3) = match read_opt_seg(s, i2) {
        None => {
            return None;
        },
        Some(p) => p,
    };
    let (rk, i4) = match read_seg(s, i3) {
        None => {
            return None;
        },
        Some(p) => p,
    };
    let (ckr, i5) = match read_opt_seg(s, i4) {
        None => {
            return None;
        },
        Some(p) => p,
    };
    let (cks, i6) = match read_opt_seg(s, i5) {
        None => {
            return None;
        },
        Some(p) => p,
    };
    let (ns, i7) = match read_u64_le(s, i6) {
        None => {
            return None;
        },
        Some(p) => p,
    };
    let (nr, i8) = match read_u64_le(s, i7) {
        None => {
            return None;
        },
        Some(p) => p,
    };
    let (pn, i9) = match read_u64_le(s, i8) {
        None => {
            return None;
        },
        Some(p) => p,
    };
    let dhs = match DhKeyPair::from_private_bytes(sk.as_slice()) {
        None => {
            return None;
        },
        Some(p) => p,
    };
    if !bytes_eq(dhs.public_key.as_slice(), pk.as_slice()) {
        return None;
    }
    Some((dhs, dhr, rk, ckr, cks, ns, nr, pn, i9))
}

/// An address ratchet on the wire: the shared fields, then the cache.
pub open spec fn addr_wire(v: AddressRatchetV) -> Seq<u8> {
    common_wire(v.dhs, v.dhr, v.rk, v.ckr, v.cks, v.ns, v.nr, v.pn) + u64_le(
        v.mkskipped.len() as u64,
    ) + entries_wire(v.mkskipped)
}

/// Parse and validate an address ratchet at index `i`: anything that is not
/// well formed is refused.
pub open spec fn parse_addr(s: Seq<u8>, i: int) -> Option<(AddressRatchetV, int)> {
    match parse_common(s, i) {
        None => None,
        Some((c, j)) => match parse_u64(s, j) {
            None => None,
            Some((count, k)) => match parse_entries(s, k, count as nat) {
                None => None,
                Some((m, end)) => {
                    let v = AddressRatchetV {
                        dhs: c.dhs,
                        dhr: c.dhr,
                        rk: c.rk,
                        ckr: c.ckr,
                        cks: c.cks,
                        ns: c.ns,
                        nr: c.nr,
                        pn: c.pn,
                        mkskipped: m,
                    };
                    if addr_wf(v) {
                        Some((v, end))
                    } else {
                        None
                    }
                },
            },
        },
    }
}

/// Parsing the wire form of a well-formed address ratchet recovers it.
pub proof fn lemma_parse_addr_at(s: Seq<u8>, i: int, v: AddressRatchetV)
    requires
        0 <= i,
        addr_wf(v),
        v.mkskipped.len() <= u64::MAX,
        i + addr_wire(v).len() <= s.len(),
        s.subrange(i, i + addr_wire(v).len()) == addr_wire(v),
    ensures
        parse_addr(s, i) == Some((v, i + addr_wire(v).len())),
{
    let c1 = common_wire(v.dhs, v.dhr, v.rk, v.ckr, v.cks, v.ns, v.nr, v.pn);
    let c2 = c1 + u64_le(v.mkskipped.len() as u64);
    crate::bytes::lemma_concat_split(s, i, c2, entries_wire(v.mkskipped));
    crate::bytes::lemma_concat_split(s, i, c1, u64_le(v.mkskipped.len() as u64));
    lemma_parse_common_at(s, i, v.dhs, v.dhr, v.rk, v.ckr, v.cks, v.ns, v.nr, v.pn);
    let o1 = i + c1.len() as int;
    crate::bytes::lemma_parse_u64_at(s, o1, v.mkskipped.len() as u64);
    let o2 = i + c2.len() as int;
    lemma_parse_entries_at(s, o2, v.mkskipped);
}

impl AddressRatchet {
    /// Serialise the state canonically.
    pub fn export(&self) -> (r: Vec<u8>)
        ensures
            r@ == addr_wire(self@),
    {
        let mut out: Vec<u8> = Vec::new();
        write_addr(&mut out, self);
        out
    }

    /// Parse and validate a serialised state; refuses anything that does not
    /// re-establish the invariants, and anything with trailing bytes.
    pub fn import(inp: &[u8]) -> (r: Option<AddressRatchet>)
        ensures
            r matches Some(rt) ==> parse_addr(inp@, 0) == Some((rt@, inp@.len() as int))
                && rt.wf(),
            r is None ==> (match parse_addr(inp@, 0) {
                None => true,
                Some((v, j)) => j != inp@.len(),
            }),
    {
        let (rt, j) = match read_addr(inp, 0) {
            None => {
                return None;
            },
            Some(p) => p,
        };
        if j != inp.len() {
            return None;
        }
        Some(rt)
    }
}

/// Append an address ratchet.
pub fn write_addr(out: &mut Vec<u8>, rt: &AddressRatchet)
    ensures
        final(out)@ == old(out)@ + addr_wire(rt@),
{
    write_common(out, &rt.dhs, &rt.dhr, &rt.rk, &rt.ckr, &rt.cks, rt.ns, rt.nr, rt.pn);
    write_entries(out, &rt.mkskipped);
    assert(final(out)@ =~= old(out)@ + addr_wire(rt@));
}

/// Read and validate an address ratchet.
pub fn read_addr(s: &[u8], pos: usize) -> (r: Option<(AddressRatchet, usize)>)
    requires
        pos <= s.len(),
    ensures
        r matches Some((rt, j)) ==> parse_addr(s@, pos as int) == Some((rt@, j as int)) && rt.wf()
            && j <= s.len(),
        r is None ==> parse_addr(s@, pos as int) is None,
{
    let (dhs, dhr, rk, ckr, cks, ns, nr, pn, j) = match read_common(s, pos) {
        None => {
            return None;
        },
        Some(p) => p,
    };
    let (mkskipped, end) = match read_entries(s, j) {
        None => {
            return None;
        },
        Some(p) => p,
    };
    if rk.len() != 32 {
        return None;
    }
    match &ckr {
        Some(c) => {
            if c.len() != 32 {
                return None;
            }
        },
        None => {},
    }
    match &cks {
        Some(c) => {
            if c.len() != 32 {
                return None;
            }
        },
        None => {},
    }
    match &dhr {
        Some(p) => {
            if !crate::dh::check_public_key(p.as_slice()) {
                return None;
            }
        },
        None => {
            if ckr.is_some() {
                return None;
            }
        },
    }
    if ckr.is_some() && dhr.is_none() {
        return None;
    }
    if cks.is_none() && ns != 0 {
        return None;
    }
    if ckr.is_none() && nr != 0 {
        return None;
    }
    let mut t: usize = 0;
    let mut keys_ok = true;
    while t < mkskipped.len()
        invariant
            0 <= t <= mkskipped@.len(),
            keys_ok <==> forall|i: int|
                0 <= i < t ==> (#[trigger] entries_view(mkskipped@)[i]).1.len() == 32
                    && entries_view(mkskipped@)[i].0.0.len() <= u64::MAX,
        decreases mkskipped@.len() - t,
    {
        let mk_len = mkskipped[t].1.len();
        let pk_len = mkskipped[t].0.0.len();
        proof {
            assert(entries_view(mkskipped@)[t as int] == entry_view(mkskipped@[t as int]));
        }
        if mk_len != 32 {
            keys_ok = false;
        }
        t = t + 1;
    }
    if !keys_ok {
        proof {
            assert(!crate::address_ratchet::skipped_wf(entries_view(mkskipped@)));
        }
        return None;
    }
    let rt = AddressRatchet { dhs, dhr, rk, ckr, cks, ns, nr, pn, mkskipped };
    proof {
        assert(crate::address_ratchet::skipped_wf(rt@.mkskipped)) by {
            assert forall|i: int|
                0 <= i < rt@.mkskipped.len() implies (#[trigger] rt@.mkskipped[i]).1.len() == 32
                && rt@.mkskipped[i].0.0.len() <= u64::MAX by {
                assert(rt@.mkskipped[i] == entries_view(rt.mkskipped@)[i]);
            }
        }
        assert(addr_wf(rt@));
    }
    Some((rt, end))
}

/// An encryption ratchet on the wire: the shared fields, the four header
/// keys, then the cache.
pub open spec fn enc_wire(v: EncRatchetV) -> Seq<u8> {
    common_wire(v.dhs, v.dhr, v.rk, v.ckr, v.cks, v.ns, v.nr, v.pn) + enc_opt_seg(v.hks)
        + enc_opt_seg(v.hkr) + enc_opt_seg(v.nhks) + enc_opt_seg(v.nhkr) + u64_le(
        v.mkskipped.len() as u64,
    ) + entries_wire(v.mkskipped)
}

/// Parse and validate an encryption ratchet at index `i`.
pub open spec fn parse_enc(s: Seq<u8>, i: int) -> Option<(EncRatchetV, int)> {
    match parse_common(s, i) {
        None => None,
        Some((c, j)) => match parse_opt_seg(s, j) {
            None => None,
            Some((hks, j1)) => match parse_opt_seg(s, j1) {
                None => None,
                Some((hkr, j2)) => match parse_opt_seg(s, j2) {
                    None => None,
                    Some((nhks, j3)) => match parse_opt_seg(s, j3) {
                        None => None,
                        Some((nhkr, j4)) => match parse_u64(s, j4) {
                            None => None,
                            Some((count, j5)) => match parse_entries(s, j5, count as nat) {
                                None => None,
                                Some((m, end)) => {
                                    let v = EncRatchetV {
                                        dhs: c.dhs,
                                        dhr: c.dhr,
                                        rk: c.rk,
                                        ckr: c.ckr,
                                        cks: c.cks,
                                        ns: c.ns,
                                        nr: c.nr,
                                        pn: c.pn,
                                        hks,
                                        hkr,
                                        nhks,
                                        nhkr,
                                        mkskipped: m,
                                    };
                                    if enc_wf(v) {
                                        Some((v, end))
                                    } else {
                                        None
                                    }
                                },
                            },
                        },
                    },
                },
            },
        },
    }
}

/// Parsing the wire form of a well-formed encryption ratchet recovers it.
#[verifier::rlimit(100)]
#[verifier::spinoff_prover]
pub proof fn lemma_parse_enc_at(s: Seq<u8>, i: int, v: EncRatchetV)
    requires
        0 <= i,
        enc_wf(v),
        v.mkskipped.len() <= u64::MAX,
        i + enc_wire(v).len() <= s.len(),
        s.subrange(i, i + enc_wire(v).len()) == enc_wire(v),
    ensures
        parse_enc(s, i) == Some((v, i + enc_wire(v).len())),
{
    let c1 = common_wire(v.dhs, v.dhr, v.rk, v.ckr, v.cks, v.ns, v.nr, v.pn);
    let c2 = c1 + enc_opt_seg(v.hks);
    let c3 = c2 + enc_opt_seg(v.hkr);
    let c4 = c3 + enc_opt_seg(v.nhks);
    let c5 = c4 + enc_opt_seg(v.nhkr);
    let c6 = c5 + u64_le(v.mkskipped.len() as u64);
    crate::bytes::lemma_concat_split(s, i, c6, entries_wire(v.mkskipped));
    crate::bytes::lemma_concat_split(s, i, c5, u64_le(v.mkskipped.len() as u64));
    crate::bytes::lemma_concat_split(s, i, c4, enc_opt_seg(v.nhkr));
    crate::bytes::lemma_concat_split(s, i, c3, enc_opt_seg(v.nhks));
    crate::bytes::lemma_concat_split(s, i, c2, enc_opt_seg(v.hkr));
    crate::bytes::lemma_concat_split(s, i, c1, enc_opt_seg(v.hks));
    lemma_parse_common_at(s, i, v.dhs, v.dhr, v.rk, v.ckr, v.cks, v.ns, v.nr, v.pn);
    crate::bytes::lemma_parse_opt_seg_at(s, i + c1.len() as int, v.hks);
    crate::bytes::lemma_parse_opt_seg_at(s, i + c2.len() as int, v.hkr);
    crate::bytes::lemma_parse_opt_seg_at(s, i + c3.len() as int, v.nhks);
    crate::bytes::lemma_parse_opt_seg_at(s, i + c4.len() as int, v.nhkr);
    crate::bytes::lemma_parse_u64_at(s, i + c5.len() as int, v.mkskipped.len() as u64);
    lemma_parse_entries_at(s, i + c6.len() as int, v.mkskipped);
}

/// Append an encryption ratchet.
#[verifier::rlimit(100)]
#[verifier::spinoff_prover]
pub fn write_enc(out: &mut Vec<u8>, rt: &EncRatchet)
    ensures
        final(out)@ == old(out)@ + enc_wire(rt@),
{
    write_common(out, &rt.dhs, &rt.dhr, &rt.rk, &rt.ckr, &rt.cks, rt.ns, rt.nr, rt.pn);
    write_opt_seg(out, &rt.hks);
    write_opt_seg(out, &rt.hkr);
    write_opt_seg(out, &rt.nhks);
    write_opt_seg(out, &rt.nhkr);
    write_entries(out, &rt.mkskipped);
    assert(final(out)@ =~= old(out)@ + enc_wire(rt@));
}

/// Whether an optional key, when present, is 32 bytes, checked at run time.
fn opt_key_len_ok(o: &Option<Vec<u8>>) -> (r: bool)
    ensures
        r == crate::enc_ratchet::opt_key_wf(opt_bytes_view(*o)),
{
    match o {
        None => true,
        Some(k) => k.len() == 32,
    }
}

/// Read and validate an encryption ratchet.
pub fn read_enc(s: &[u8], pos: usize) -> (r: Option<(EncRatchet, usize)>)
    requires
        pos <= s.len(),
    ensures
        r matches Some((rt, j)) ==> parse_enc(s@, pos as int) == Some((rt@, j as int)) && rt.wf()
            && j <= s.len(),
        r is None ==> parse_enc(s@, pos as int) is None,
{
    let (dhs, dhr, rk, ckr, cks, ns, nr, pn, j) = match read_common(s, pos) {
        None => {
            return None;
        },
        Some(p) => p,
    };
    let (hks, j1) = match read_opt_seg(s, j) {
        None => {
            return None;
        },
        Some(p) => p,
    };
    let (hkr, j2) = match read_opt_seg(s, j1) {
        None => {
            return None;
        },
        Some(p) => p,
    };
    let (nhks, j3) = match read_opt_seg(s, j2) {
        None => {
            return None;
        },
        Some(p) => p,
    };
    let (nhkr, j4) = match read_opt_seg(s, j3) {
        None => {
            return None;
        },
        Some(p) => p,
    };
    let (mkskipped, end) = match read_entries(s, j4) {
        None => {
            return None;
        },
        Some(p) => p,
    };
    if rk.len() != 32 {
        return None;
    }
    if !opt_key_len_ok(&ckr) || !opt_key_len_ok(&cks) || !opt_key_len_ok(&hks) || !opt_key_len_ok(
        &hkr,
    ) || !opt_key_len_ok(&nhks) || !opt_key_len_ok(&nhkr) {
        return None;
    }
    if nhks.is_none() || nhkr.is_none() {
        return None;
    }
    match &dhr {
        Some(p) => {
            if !crate::dh::check_public_key(p.as_slice()) {
                return None;
            }
        },
        None => {},
    }
    if ckr.is_some() && (dhr.is_none() || hkr.is_none()) {
        return None;
    }
    if cks.is_some() && hks.is_none() {
        return None;
    }
    if cks.is_none() && ns != 0 {
        return None;
    }
    if ckr.is_none() && nr != 0 {
        return None;
    }
    let mut t: usize = 0;
    let mut keys_ok = true;
    while t < mkskipped.len()
        invariant
            0 <= t <= mkskipped@.len(),
            keys_ok <==> forall|i: int|
                0 <= i < t ==> (#[trigger] entries_view(mkskipped@)[i]).1.len() == 32
                    && entries_view(mkskipped@)[i].0.0.len() == 32,
        decreases mkskipped@.len() - t,
    {
        let mk_len = mkskipped[t].1.len();
        let hk_len = mkskipped[t].0.0.len();
        proof {
            assert(entries_view(mkskipped@)[t as int] == entry_view(mkskipped@[t as int]));
        }
        if mk_len != 32 || hk_len != 32 {
            keys_ok = false;
        }
        t = t + 1;
    }
    if !keys_ok {
        proof {
            assert(!(crate::address_ratchet::skipped_wf(entries_view(mkskipped@))
                && crate::enc_ratchet::skipped_hk_wf(entries_view(mkskipped@))));
        }
        return None;
    }
    let rt = EncRatchet {
        dhs,
        dhr,
        rk,
        ckr,
        cks,
        ns,
        nr,
        pn,
        hks,
        hkr,
        nhks,
        nhkr,
        mkskipped,
    };
    proof {
        assert(crate::address_ratchet::skipped_wf(rt@.mkskipped)
            && crate::enc_ratchet::skipped_hk_wf(rt@.mkskipped)) by {
            assert forall|i: int|
                0 <= i < rt@.mkskipped.len() implies (#[trigger] rt@.mkskipped[i]).1.len() == 32
                && rt@.mkskipped[i].0.0.len() <= u64::MAX && rt@.mkskipped[i].0.0.len() == 32 by {
                assert(rt@.mkskipped[i] == entries_view(rt.mkskipped@)[i]);
            }
        }
        assert(enc_wf(rt@));
    }
    Some((rt, end))
}

/// One polled address tuple on the wire: its count, then its addresses.
pub open spec fn tuple_wire(t: Seq<Seq<u8>>) -> Seq<u8> {
    u64_le(t.len() as u64) + crate::wire::segs_wire(t)
}

/// A list of polled tuples on the wire.
pub open spec fn tuples_wire(ts: Seq<Seq<Seq<u8>>>) -> Seq<u8>
    decreases ts.len(),
{
    if ts.len() == 0 {
        Seq::empty()
    } else {
        tuple_wire(ts[0]) + tuples_wire(ts.drop_first())
    }
}

pub proof fn lemma_tuples_wire_push(ts: Seq<Seq<Seq<u8>>>, x: Seq<Seq<u8>>)
    ensures
        tuples_wire(ts.push(x)) == tuples_wire(ts) + tuple_wire(x),
    decreases ts.len(),
{
    if ts.len() == 0 {
        let d = ts.push(x).drop_first();
        assert(d =~= Seq::<Seq<Seq<u8>>>::empty());
        assert(ts.push(x)[0] == x);
        assert(tuples_wire(d) =~= Seq::<u8>::empty());
        assert(tuples_wire(ts) =~= Seq::<u8>::empty());
        assert(tuples_wire(ts.push(x)) =~= tuples_wire(ts) + tuple_wire(x));
    } else {
        assert(ts.push(x).drop_first() =~= ts.drop_first().push(x));
        assert(ts.push(x)[0] == ts[0]);
        lemma_tuples_wire_push(ts.drop_first(), x);
        assert(tuples_wire(ts.push(x)) =~= tuples_wire(ts) + tuple_wire(x));
    }
}

/// Parse one polled tuple at index `i`.
pub open spec fn parse_tuple(s: Seq<u8>, i: int) -> Option<(Seq<Seq<u8>>, int)> {
    match parse_u64(s, i) {
        None => None,
        Some((count, j)) => crate::wire::parse_segs(s, j, count as nat),
    }
}

pub proof fn lemma_parse_tuple_at(s: Seq<u8>, i: int, t: Seq<Seq<u8>>)
    requires
        0 <= i,
        t.len() <= u64::MAX,
        forall|k: int| 0 <= k < t.len() ==> (#[trigger] t[k]).len() <= u64::MAX,
        i + tuple_wire(t).len() <= s.len(),
        s.subrange(i, i + tuple_wire(t).len()) == tuple_wire(t),
    ensures
        parse_tuple(s, i) == Some((t, i + tuple_wire(t).len())),
{
    crate::bytes::lemma_concat_split(s, i, u64_le(t.len() as u64), crate::wire::segs_wire(t));
    crate::bytes::lemma_parse_u64_at(s, i, t.len() as u64);
    crate::wire::lemma_parse_segs_at(s, i + 8, t);
}

/// Parse `count` polled tuples at index `i`.
pub open spec fn parse_tuples(s: Seq<u8>, i: int, count: nat) -> Option<(Seq<Seq<Seq<u8>>>, int)>
    decreases count,
{
    if count == 0 {
        Some((Seq::empty(), i))
    } else {
        match parse_tuple(s, i) {
            None => None,
            Some((t, j)) => match parse_tuples(s, j, (count - 1) as nat) {
                None => None,
                Some((rest, end)) => Some((seq![t] + rest, end)),
            },
        }
    }
}

pub proof fn lemma_parse_tuples_at(s: Seq<u8>, i: int, ts: Seq<Seq<Seq<u8>>>)
    requires
        0 <= i,
        i + tuples_wire(ts).len() <= s.len(),
        s.subrange(i, i + tuples_wire(ts).len()) == tuples_wire(ts),
        forall|k: int| 0 <= k < ts.len() ==> (#[trigger] ts[k]).len() <= u64::MAX,
        forall|k: int, a: int|
            0 <= k < ts.len() && 0 <= a < ts[k].len() ==> (#[trigger] ts[k][a]).len() <= u64::MAX,
    ensures
        parse_tuples(s, i, ts.len()) == Some((ts, i + tuples_wire(ts).len())),
    decreases ts.len(),
{
    if ts.len() == 0 {
        assert(ts =~= Seq::<Seq<Seq<u8>>>::empty());
    } else {
        let first = ts[0];
        let rest = ts.drop_first();
        assert(tuples_wire(ts) == tuple_wire(first) + tuples_wire(rest));
        crate::bytes::lemma_concat_split(s, i, tuple_wire(first), tuples_wire(rest));
        assert(forall|a: int| 0 <= a < first.len() ==> (#[trigger] first[a]).len() <= u64::MAX)
            by {
            assert forall|a: int|
                0 <= a < first.len() implies (#[trigger] first[a]).len() <= u64::MAX by {
                assert(ts[0][a] == first[a]);
            }
        }
        lemma_parse_tuple_at(s, i, first);
        let j = i + tuple_wire(first).len() as int;
        assert(forall|k: int| 0 <= k < rest.len() ==> (#[trigger] rest[k]).len() <= u64::MAX)
            by {
            assert forall|k: int|
                0 <= k < rest.len() implies (#[trigger] rest[k]).len() <= u64::MAX by {
                assert(rest[k] == ts[k + 1]);
            }
        }
        assert(forall|k: int, a: int|
            0 <= k < rest.len() && 0 <= a < rest[k].len() ==> (#[trigger] rest[k][a]).len()
                <= u64::MAX) by {
            assert forall|k: int, a: int|
                0 <= k < rest.len() && 0 <= a < rest[k].len() implies (#[trigger] rest[k][a]).len()
                <= u64::MAX by {
                assert(rest[k] == ts[k + 1]);
                assert(ts[k + 1][a] == rest[k][a]);
            }
        }
        lemma_parse_tuples_at(s, j, rest);
        assert(seq![first] + rest =~= ts);
    }
}

/// A list of address ratchets on the wire.
pub open spec fn addrs_wire(addrs: Seq<AddressRatchetV>) -> Seq<u8>
    decreases addrs.len(),
{
    if addrs.len() == 0 {
        Seq::empty()
    } else {
        addr_wire(addrs[0]) + addrs_wire(addrs.drop_first())
    }
}

pub proof fn lemma_addrs_wire_push(addrs: Seq<AddressRatchetV>, x: AddressRatchetV)
    ensures
        addrs_wire(addrs.push(x)) == addrs_wire(addrs) + addr_wire(x),
    decreases addrs.len(),
{
    if addrs.len() == 0 {
        let d = addrs.push(x).drop_first();
        assert(d =~= Seq::<AddressRatchetV>::empty());
        assert(addrs.push(x)[0] == x);
        assert(addrs_wire(d) =~= Seq::<u8>::empty());
        assert(addrs_wire(addrs) =~= Seq::<u8>::empty());
        assert(addrs_wire(addrs.push(x)) =~= addrs_wire(addrs) + addr_wire(x));
    } else {
        assert(addrs.push(x).drop_first() =~= addrs.drop_first().push(x));
        assert(addrs.push(x)[0] == addrs[0]);
        lemma_addrs_wire_push(addrs.drop_first(), x);
        assert(addrs_wire(addrs.push(x)) =~= addrs_wire(addrs) + addr_wire(x));
    }
}

/// Parse `count` address ratchets at index `i`.
pub open spec fn parse_addrs(s: Seq<u8>, i: int, count: nat) -> Option<(Seq<AddressRatchetV>, int)>
    decreases count,
{
    if count == 0 {
        Some((Seq::empty(), i))
    } else {
        match parse_addr(s, i) {
            None => None,
            Some((v, j)) => match parse_addrs(s, j, (count - 1) as nat) {
                None => None,
                Some((rest, end)) => Some((seq![v] + rest, end)),
            },
        }
    }
}

#[verifier::rlimit(100)]
#[verifier::spinoff_prover]
pub proof fn lemma_parse_addrs_at(s: Seq<u8>, i: int, addrs: Seq<AddressRatchetV>)
    requires
        0 <= i,
        i + addrs_wire(addrs).len() <= s.len(),
        s.subrange(i, i + addrs_wire(addrs).len()) == addrs_wire(addrs),
        forall|k: int|
            0 <= k < addrs.len() ==> addr_wf(#[trigger] addrs[k]) && addrs[k].mkskipped.len()
                <= u64::MAX,
    ensures
        parse_addrs(s, i, addrs.len()) == Some((addrs, i + addrs_wire(addrs).len())),
    decreases addrs.len(),
{
    if addrs.len() == 0 {
        assert(addrs =~= Seq::<AddressRatchetV>::empty());
    } else {
        let first = addrs[0];
        let rest = addrs.drop_first();
        assert(addrs_wire(addrs) == addr_wire(first) + addrs_wire(rest));
        crate::bytes::lemma_concat_split(s, i, addr_wire(first), addrs_wire(rest));
        lemma_parse_addr_at(s, i, first);
        let j = i + addr_wire(first).len() as int;
        assert(forall|k: int|
            0 <= k < rest.len() ==> addr_wf(#[trigger] rest[k]) && rest[k].mkskipped.len()
                <= u64::MAX) by {
            assert forall|k: int|
                0 <= k < rest.len() implies addr_wf(#[trigger] rest[k]) && rest[k].mkskipped.len()
                <= u64::MAX by {
                assert(rest[k] == addrs[k + 1]);
            }
        }
        lemma_parse_addrs_at(s, j, rest);
        assert(seq![first] + rest =~= addrs);
    }
}

/// A whole Magic Ratchet on the wire: the share count, the encryption
/// ratchet, the address ratchets, and the polled address tuples.
pub open spec fn magic_wire(v: crate::magic::MagicRatchetV) -> Seq<u8> {
    u64_le(v.share_number as u64) + enc_wire(v.enc) + u64_le(v.addrs.len() as u64) + addrs_wire(
        v.addrs,
    ) + u64_le(v.skipped.len() as u64) + tuples_wire(v.skipped)
}

/// Parse and validate a whole Magic Ratchet at index `i`.
pub open spec fn parse_magic(s: Seq<u8>, i: int) -> Option<(crate::magic::MagicRatchetV, int)> {
    match parse_u64(s, i) {
        None => None,
        Some((sn, j0)) => match parse_enc(s, j0) {
            None => None,
            Some((enc, j1)) => match parse_u64(s, j1) {
                None => None,
                Some((count, j2)) => match parse_addrs(s, j2, count as nat) {
                    None => None,
                    Some((addrs, j3)) => match parse_u64(s, j3) {
                        None => None,
                        Some((tcount, j4)) => match parse_tuples(s, j4, tcount as nat) {
                            None => None,
                            Some((skipped, end)) => {
                                let v = crate::magic::MagicRatchetV {
                                    enc,
                                    share_number: sn as int,
                                    addrs,
                                    skipped,
                                };
                                if crate::magic::magic_wf_v(v) {
                                    Some((v, end))
                                } else {
                                    None
                                }
                            },
                        },
                    },
                },
            },
        },
    }
}

/// The side bounds a state must meet to be encodable: every list fits a
/// 64-bit count and every stored byte string a 64-bit length.
pub open spec fn magic_encodable(v: crate::magic::MagicRatchetV) -> bool {
    &&& v.enc.mkskipped.len() <= u64::MAX
    &&& forall|k: int|
        0 <= k < v.addrs.len() ==> (#[trigger] v.addrs[k]).mkskipped.len() <= u64::MAX
    &&& v.skipped.len() <= u64::MAX
    &&& forall|k: int| 0 <= k < v.skipped.len() ==> (#[trigger] v.skipped[k]).len() <= u64::MAX
    &&& forall|k: int, a: int|
        0 <= k < v.skipped.len() && 0 <= a < v.skipped[k].len() ==> (#[trigger] v.skipped[k][a]).len()
            <= u64::MAX
}

/// The wire form of a whole state splits into its six parts.
#[verifier::rlimit(100)]
#[verifier::spinoff_prover]
proof fn lemma_magic_wire_split(v: crate::magic::MagicRatchetV)
    ensures
        ({
            let s = magic_wire(v);
            let c1 = u64_le(v.share_number as u64);
            let c2 = c1 + enc_wire(v.enc);
            let c3 = c2 + u64_le(v.addrs.len() as u64);
            let c4 = c3 + addrs_wire(v.addrs);
            let c5 = c4 + u64_le(v.skipped.len() as u64);
            &&& s.subrange(0, 8) == c1
            &&& s.subrange(c1.len() as int, c2.len() as int) == enc_wire(v.enc)
            &&& s.subrange(c2.len() as int, c3.len() as int) == u64_le(v.addrs.len() as u64)
            &&& s.subrange(c3.len() as int, c4.len() as int) == addrs_wire(v.addrs)
            &&& s.subrange(c4.len() as int, c5.len() as int) == u64_le(v.skipped.len() as u64)
            &&& s.subrange(c5.len() as int, s.len() as int) == tuples_wire(v.skipped)
        }),
{
    let s = magic_wire(v);
    let c1 = u64_le(v.share_number as u64);
    let c2 = c1 + enc_wire(v.enc);
    let c3 = c2 + u64_le(v.addrs.len() as u64);
    let c4 = c3 + addrs_wire(v.addrs);
    let c5 = c4 + u64_le(v.skipped.len() as u64);
    assert(s.subrange(0, s.len() as int) =~= s);
    crate::bytes::lemma_concat_split(s, 0, c5, tuples_wire(v.skipped));
    crate::bytes::lemma_concat_split(s, 0, c4, u64_le(v.skipped.len() as u64));
    crate::bytes::lemma_concat_split(s, 0, c3, addrs_wire(v.addrs));
    crate::bytes::lemma_concat_split(s, 0, c2, u64_le(v.addrs.len() as u64));
    crate::bytes::lemma_concat_split(s, 0, c1, enc_wire(v.enc));
}

/// The six parse results of a whole state combine into one.
#[verifier::spinoff_prover]
proof fn lemma_parse_magic_combine(
    s: Seq<u8>,
    v: crate::magic::MagicRatchetV,
    i1: int,
    i2: int,
    i3: int,
    i4: int,
)
    requires
        crate::magic::magic_wf_v(v),
        v.skipped.len() <= u64::MAX,
        parse_u64(s, 0) == Some((v.share_number as u64, 8int)),
        parse_enc(s, 8) == Some((v.enc, i1)),
        parse_u64(s, i1) == Some((v.addrs.len() as u64, i2)),
        parse_addrs(s, i2, v.addrs.len()) == Some((v.addrs, i3)),
        parse_u64(s, i3) == Some((v.skipped.len() as u64, i4)),
        parse_tuples(s, i4, v.skipped.len()) == Some((v.skipped, s.len() as int)),
    ensures
        parse_magic(s, 0) == Some((v, s.len() as int)),
{
    assert(v.share_number as u64 as int == v.share_number);
    assert((v.addrs.len() as u64) as nat == v.addrs.len());
    assert((v.skipped.len() as u64) as nat == v.skipped.len());
}

/// Exporting a well-formed Magic Ratchet and importing the bytes yields the
/// state back: the parse of the wire form is exactly the original view, so
/// the imported object satisfies every contract the original did, produces
/// the same next addresses and decrypts the same messages.
#[verifier::rlimit(100)]
#[verifier::spinoff_prover]
pub proof fn lemma_export_import_roundtrip(v: crate::magic::MagicRatchetV)
    requires
        crate::magic::magic_wf_v(v),
        magic_encodable(v),
    ensures
        parse_magic(magic_wire(v), 0) == Some((v, magic_wire(v).len() as int)),
{
    let s = magic_wire(v);
    let c1 = u64_le(v.share_number as u64);
    let c2 = c1 + enc_wire(v.enc);
    let c3 = c2 + u64_le(v.addrs.len() as u64);
    let c4 = c3 + addrs_wire(v.addrs);
    let c5 = c4 + u64_le(v.skipped.len() as u64);
    lemma_export_parse_head(v);
    lemma_export_parse_tail(v);
    lemma_parse_magic_combine(
        s,
        v,
        c2.len() as int,
        c3.len() as int,
        c4.len() as int,
        c5.len() as int,
    );
}

/// The first half of parsing an exported state: the share count, the
/// encryption ratchet, and the address count.
#[verifier::rlimit(100)]
#[verifier::spinoff_prover]
proof fn lemma_export_parse_head(v: crate::magic::MagicRatchetV)
    requires
        crate::magic::magic_wf_v(v),
        magic_encodable(v),
    ensures
        ({
            let s = magic_wire(v);
            let c1 = u64_le(v.share_number as u64);
            let c2 = c1 + enc_wire(v.enc);
            let c3 = c2 + u64_le(v.addrs.len() as u64);
            &&& parse_u64(s, 0) == Some((v.share_number as u64, 8int))
            &&& parse_enc(s, 8) == Some((v.enc, c2.len() as int))
            &&& parse_u64(s, c2.len() as int) == Some((v.addrs.len() as u64, c3.len() as int))
        }),
{
    let s = magic_wire(v);
    let c1 = u64_le(v.share_number as u64);
    let c2 = c1 + enc_wire(v.enc);
    lemma_magic_wire_split(v);
    crate::bytes::lemma_parse_u64_at(s, 0, v.share_number as u64);
    lemma_parse_enc_at(s, c1.len() as int, v.enc);
    crate::bytes::lemma_parse_u64_at(s, c2.len() as int, v.addrs.len() as u64);
}

/// The second half of parsing an exported state: the address ratchets and
/// the polled tuples, ending exactly at the last byte.
#[verifier::rlimit(100)]
#[verifier::spinoff_prover]
proof fn lemma_export_parse_tail(v: crate::magic::MagicRatchetV)
    requires
        crate::magic::magic_wf_v(v),
        magic_encodable(v),
    ensures
        ({
            let s = magic_wire(v);
            let c1 = u64_le(v.share_number as u64);
            let c2 = c1 + enc_wire(v.enc);
            let c3 = c2 + u64_le(v.addrs.len() as u64);
            let c4 = c3 + addrs_wire(v.addrs);
            let c5 = c4 + u64_le(v.skipped.len() as u64);
            &&& parse_addrs(s, c3.len() as int, v.addrs.len()) == Some((v.addrs, c4.len() as int))
            &&& parse_u64(s, c4.len() as int) == Some((v.skipped.len() as u64, c5.len() as int))
            &&& parse_tuples(s, c5.len() as int, v.skipped.len()) == Some(
                (v.skipped, s.len() as int),
            )
        }),
{
    let s = magic_wire(v);
    let c1 = u64_le(v.share_number as u64);
    let c2 = c1 + enc_wire(v.enc);
    let c3 = c2 + u64_le(v.addrs.len() as u64);
    let c4 = c3 + addrs_wire(v.addrs);
    let c5 = c4 + u64_le(v.skipped.len() as u64);
    lemma_export_parse_tail_addrs(v);
    lemma_export_parse_tail_count(v);
    lemma_export_parse_tail_tuples(v);
}

/// The polled-tuple count of an exported state parses back.
#[verifier::rlimit(100)]
#[verifier::spinoff_prover]
proof fn lemma_export_parse_tail_count(v: crate::magic::MagicRatchetV)
    requires
        crate::magic::magic_wf_v(v),
        magic_encodable(v),
    ensures
        ({
            let s = magic_wire(v);
            let c1 = u64_le(v.share_number as u64);
            let c2 = c1 + enc_wire(v.enc);
            let c3 = c2 + u64_le(v.addrs.len() as u64);
            let c4 = c3 + addrs_wire(v.addrs);
            let c5 = c4 + u64_le(v.skipped.len() as u64);
            parse_u64(s, c4.len() as int) == Some((v.skipped.len() as u64, c5.len() as int))
        }),
{
    let s = magic_wire(v);
    let c1 = u64_le(v.share_number as u64);
    let c2 = c1 + enc_wire(v.enc);
    let c3 = c2 + u64_le(v.addrs.len() as u64);
    let c4 = c3 + addrs_wire(v.addrs);
    lemma_magic_wire_split(v);
    crate::bytes::lemma_parse_u64_at(s, c4.len() as int, v.skipped.len() as u64);
}

/// The polled tuples of an exported state parse back.
#[verifier::rlimit(100)]
#[verifier::spinoff_prover]
proof fn lemma_export_parse_tail_tuples(v: crate::magic::MagicRatchetV)
    requires
        crate::magic::magic_wf_v(v),
        magic_encodable(v),
    ensures
        ({
            let s = magic_wire(v);
            let c1 = u64_le(v.share_number as u64);
            let c2 = c1 + enc_wire(v.enc);
            let c3 = c2 + u64_le(v.addrs.len() as u64);
            let c4 = c3 + addrs_wire(v.addrs);
            let c5 = c4 + u64_le(v.skipped.len() as u64);
            parse_tuples(s, c5.len() as int, v.skipped.len()) == Some((v.skipped, s.len() as int))
        }),
{
    let s = magic_wire(v);
    let c1 = u64_le(v.share_number as u64);
    let c2 = c1 + enc_wire(v.enc);
    let c3 = c2 + u64_le(v.addrs.len() as u64);
    let c4 = c3 + addrs_wire(v.addrs);
    let c5 = c4 + u64_le(v.skipped.len() as u64);
    lemma_magic_wire_split(v);
    lemma_parse_tuples_at(s, c5.len() as int, v.skipped);
}

/// The address-ratchet stretch of an exported state parses back.
#[verifier::rlimit(100)]
#[verifier::spinoff_prover]
proof fn lemma_export_parse_tail_addrs(v: crate::magic::MagicRatchetV)
    requires
        crate::magic::magic_wf_v(v),
        magic_encodable(v),
    ensures
        ({
            let s = magic_wire(v);
            let c1 = u64_le(v.share_number as u64);
            let c2 = c1 + enc_wire(v.enc);
            let c3 = c2 + u64_le(v.addrs.len() as u64);
            let c4 = c3 + addrs_wire(v.addrs);
            parse_addrs(s, c3.len() as int, v.addrs.len()) == Some((v.addrs, c4.len() as int))
        }),
{
    let s = magic_wire(v);
    let c1 = u64_le(v.share_number as u64);
    let c2 = c1 + enc_wire(v.enc);
    let c3 = c2 + u64_le(v.addrs.len() as u64);
    lemma_magic_wire_split(v);
    lemma_parse_addrs_at(s, c3.len() as int, v.addrs);
}

impl crate::magic::MagicRatchet {
    /// Serialise the whole state canonically.
    pub fn export(&self) -> (r: Vec<u8>)
        ensures
            r@ == magic_wire(self@),
    {
        let mut out: Vec<u8> = Vec::new();
        write_u64_le(&mut out, self.share_number as u64);
        write_enc(&mut out, &self.enc_ratchet);
        write_u64_le(&mut out, self.address_ratchets.len() as u64);
        let ghost avs = self@.addrs;
        let mut k: usize = 0;
        let ghost base = out@;
        proof {
            assert(avs.subrange(0, 0) =~= Seq::<AddressRatchetV>::empty());
        }
        while k < self.address_ratchets.len()
            invariant
                0 <= k <= self.address_ratchets@.len(),
                avs == self@.addrs,
                avs.len() == self.address_ratchets@.len(),
                out@ == base + addrs_wire(avs.subrange(0, k as int)),
            decreases self.address_ratchets@.len() - k,
        {
            write_addr(&mut out, &self.address_ratchets[k]);
            proof {
                lemma_addrs_wire_push(avs.subrange(0, k as int), avs[k as int]);
                assert(avs.subrange(0, k + 1) =~= avs.subrange(0, k as int).push(avs[k as int]));
                assert(out@ =~= base + addrs_wire(avs.subrange(0, k + 1)));
            }
            k = k + 1;
        }
        proof {
            assert(avs.subrange(0, avs.len() as int) =~= avs);
        }
        write_u64_le(&mut out, self.skipped_addresses.len() as u64);
        let ghost tvs = self@.skipped;
        let ghost base2 = out@;
        let mut t: usize = 0;
        proof {
            assert(tvs.subrange(0, 0) =~= Seq::<Seq<Seq<u8>>>::empty());
        }
        while t < self.skipped_addresses.len()
            invariant
                0 <= t <= self.skipped_addresses@.len(),
                tvs == self@.skipped,
                tvs.len() == self.skipped_addresses@.len(),
                out@ == base2 + tuples_wire(tvs.subrange(0, t as int)),
            decreases self.skipped_addresses@.len() - t,
        {
            let tuple = &self.skipped_addresses[t];
            write_u64_le(&mut out, tuple.len() as u64);
            let ghost inner = tuple@.map_values(|a: Vec<u8>| a@);
            let ghost base3 = out@;
            let mut a: usize = 0;
            proof {
                assert(inner.subrange(0, 0) =~= Seq::<Seq<u8>>::empty());
                assert(tvs[t as int] == inner);
            }
            while a < tuple.len()
                invariant
                    0 <= a <= tuple@.len(),
                    inner == tuple@.map_values(|x: Vec<u8>| x@),
                    inner.len() == tuple@.len(),
                    out@ == base3 + crate::wire::segs_wire(inner.subrange(0, a as int)),
                decreases tuple@.len() - a,
            {
                write_seg(&mut out, tuple[a].as_slice());
                proof {
                    crate::wire::lemma_segs_wire_push(inner.subrange(0, a as int), inner[a as int]);
                    assert(inner.subrange(0, a + 1) =~= inner.subrange(0, a as int).push(
                        inner[a as int],
                    ));
                    assert(out@ =~= base3 + crate::wire::segs_wire(inner.subrange(0, a + 1)));
                }
                a = a + 1;
            }
            proof {
                assert(inner.subrange(0, inner.len() as int) =~= inner);
                lemma_tuples_wire_push(tvs.subrange(0, t as int), tvs[t as int]);
                assert(tvs.subrange(0, t + 1) =~= tvs.subrange(0, t as int).push(tvs[t as int]));
                assert(out@ =~= base2 + tuples_wire(tvs.subrange(0, t + 1)));
            }
            t = t + 1;
        }
        proof {
            assert(tvs.subrange(0, tvs.len() as int) =~= tvs);
            assert(out@ =~= magic_wire(self@));
        }
        out
    }

    /// Parse and validate a serialised state; refuses anything that does not
    /// re-establish the invariants, and anything with trailing bytes.
    pub fn import(inp: &[u8]) -> (r: Option<crate::magic::MagicRatchet>)
        ensures
            r matches Some(mr) ==> parse_magic(inp@, 0) == Some((mr@, inp@.len() as int))
                && mr.wf(),
            r is None ==> (match parse_magic(inp@, 0) {
                None => true,
                Some((v, j)) => j != inp@.len(),
            }),
    {
        let (sn, j0) = match read_u64_le(inp, 0) {
            None => {
                return None;
            },
            Some(p) => p,
        };
        let (enc_ratchet, j1) = match read_enc(inp, j0) {
            None => {
                return None;
            },
            Some(p) => p,
        };
        let (count, j2) = match read_u64_le(inp, j1) {
            None => {
                return None;
            },
            Some(p) => p,
        };
        let (address_ratchets, j3) = match read_addr_list(inp, j2, count) {
            None => {
                return None;
            },
            Some(p) => p,
        };
        let (tcount, j4) = match read_u64_le(inp, j3) {
            None => {
                return None;
            },
            Some(p) => p,
        };
        let (skipped_addresses, j5) = match read_tuple_list(inp, j4, tcount) {
            None => {
                return None;
            },
            Some(p) => p,
        };
        if j5 != inp.len() {
            return None;
        }
        if sn < 1 || sn > 255 {
            return None;
        }
        let share_number = sn as usize;
        if address_ratchets.len() != share_number {
            return None;
        }
        let mr = crate::magic::MagicRatchet {
            enc_ratchet,
            share_number,
            address_ratchets,
            skipped_addresses,
        };
        proof {
            assert forall|i: int|
                0 <= i < mr@.addrs.len() implies addr_wf(#[trigger] mr@.addrs[i]) by {
                assert(mr@.addrs[i] == (#[trigger] mr.address_ratchets@[i])@);
            }
            assert(crate::magic::magic_wf_v(mr@));
        }
        Some(mr)
    }
}

/// Read `count` address ratchets.
#[verifier::rlimit(100)]
#[verifier::spinoff_prover]
fn read_addr_list(s: &[u8], pos: usize, count: u64) -> (r: Option<(Vec<AddressRatchet>, usize)>)
    requires
        pos <= s.len(),
    ensures
        r matches Some((list, j)) ==> parse_addrs(s@, pos as int, count as nat) == Some(
            (list@.map_values(|a: AddressRatchet| a@), j as int),
        ) && j <= s.len() && (forall|k: int| 0 <= k < list@.len() ==> (#[trigger] list@[k]).wf())
            && list@.len() == count,
        r is None ==> parse_addrs(s@, pos as int, count as nat) is None,
{
    let ghost i0 = pos as int;
    let mut cur = pos;
    let mut list: Vec<AddressRatchet> = Vec::new();
    let mut taken: u64 = 0;
    proof {
        assert(list@.map_values(|a: AddressRatchet| a@) =~= Seq::<AddressRatchetV>::empty());
    }
    while taken < count
        invariant
            i0 == pos as int,
            0 <= taken <= count,
            cur <= s@.len(),
            list@.len() == taken,
            forall|k: int| 0 <= k < list@.len() ==> (#[trigger] list@[k]).wf(),
            parse_addrs(s@, i0, count as nat) == match parse_addrs(
                s@,
                cur as int,
                (count - taken) as nat,
            ) {
                None => None::<(Seq<AddressRatchetV>, int)>,
                Some((rest, end)) => Some(
                    (list@.map_values(|a: AddressRatchet| a@) + rest, end),
                ),
            },
        decreases count - taken,
    {
        let (rt, next) = match read_addr(s, cur) {
            None => {
                proof {
                    assert(parse_addrs(s@, cur as int, (count - taken) as nat) is None);
                }
                return None;
            },
            Some(p) => p,
        };
        let ghost before = list@.map_values(|a: AddressRatchet| a@);
        let ghost rtv = rt@;
        list.push(rt);
        proof {
            assert(list@.map_values(|a: AddressRatchet| a@) =~= before.push(rtv));
            assert forall|rest: Seq<AddressRatchetV>| true implies before + (seq![rtv] + rest)
                =~= before.push(rtv) + rest by {}
        }
        cur = next;
        taken = taken + 1;
    }
    proof {
        assert(parse_addrs(s@, cur as int, 0) == Some((Seq::<AddressRatchetV>::empty(), cur as int)));
        assert(list@.map_values(|a: AddressRatchet| a@) + Seq::<AddressRatchetV>::empty()
            =~= list@.map_values(|a: AddressRatchet| a@));
    }
    Some((list, cur))
}

/// Read one polled tuple.
fn read_tuple(s: &[u8], pos: usize) -> (r: Option<(Vec<Vec<u8>>, usize)>)
    requires
        pos <= s.len(),
    ensures
        r matches Some((t, j)) ==> parse_tuple(s@, pos as int) == Some(
            (t@.map_values(|a: Vec<u8>| a@), j as int),
        ) && j <= s.len(),
        r is None ==> parse_tuple(s@, pos as int) is None,
{
    let (icount, k0) = match read_u64_le(s, pos) {
        None => {
            return None;
        },
        Some(p) => p,
    };
    let ghost ik = k0 as int;
    let mut kk = k0;
    let mut tuple: Vec<Vec<u8>> = Vec::new();
    let mut got: u64 = 0;
    proof {
        assert(tuple@.map_values(|a: Vec<u8>| a@) =~= Seq::<Seq<u8>>::empty());
    }
    while got < icount
        invariant
            parse_u64(s@, pos as int) == Some((icount, ik)),
            0 <= got <= icount,
            kk <= s@.len(),
            crate::wire::parse_segs(s@, ik, icount as nat) == match crate::wire::parse_segs(
                s@,
                kk as int,
                (icount - got) as nat,
            ) {
                None => None::<(Seq<Seq<u8>>, int)>,
                Some((rest, end)) => Some((tuple@.map_values(|a: Vec<u8>| a@) + rest, end)),
            },
        decreases icount - got,
    {
        let (b, nx) = match read_seg(s, kk) {
            None => {
                proof {
                    assert(crate::wire::parse_segs(s@, kk as int, (icount - got) as nat) is None);
                }
                return None;
            },
            Some(p) => p,
        };
        let ghost beforeb = tuple@.map_values(|a: Vec<u8>| a@);
        tuple.push(b);
        proof {
            assert(tuple@.map_values(|a: Vec<u8>| a@) =~= beforeb.push(b@));
            assert forall|rest: Seq<Seq<u8>>| true implies beforeb + (seq![b@] + rest)
                =~= beforeb.push(b@) + rest by {}
        }
        kk = nx;
        got = got + 1;
    }
    proof {
        assert(crate::wire::parse_segs(s@, kk as int, 0) == Some(
            (Seq::<Seq<u8>>::empty(), kk as int),
        ));
        assert(tuple@.map_values(|a: Vec<u8>| a@) + Seq::<Seq<u8>>::empty() =~= tuple@.map_values(
            |a: Vec<u8>| a@,
        ));
    }
    Some((tuple, kk))
}

/// Read `count` polled tuples.
fn read_tuple_list(s: &[u8], pos: usize, count: u64) -> (r: Option<(Vec<Vec<Vec<u8>>>, usize)>)
    requires
        pos <= s.len(),
    ensures
        r matches Some((ts, j)) ==> parse_tuples(s@, pos as int, count as nat) == Some(
            (ts@.map_values(|t: Vec<Vec<u8>>| t@.map_values(|a: Vec<u8>| a@)), j as int),
        ) && j <= s.len(),
        r is None ==> parse_tuples(s@, pos as int, count as nat) is None,
{
    let ghost i0 = pos as int;
    let mut cur = pos;
    let mut ts: Vec<Vec<Vec<u8>>> = Vec::new();
    let mut taken: u64 = 0;
    proof {
        assert(ts@.map_values(|t: Vec<Vec<u8>>| t@.map_values(|a: Vec<u8>| a@)) =~= Seq::<
            Seq<Seq<u8>>,
        >::empty());
    }
    while taken < count
        invariant
            i0 == pos as int,
            0 <= taken <= count,
            cur <= s@.len(),
            parse_tuples(s@, i0, count as nat) == match parse_tuples(
                s@,
                cur as int,
                (count - taken) as nat,
            ) {
                None => None::<(Seq<Seq<Seq<u8>>>, int)>,
                Some((rest, end)) => Some(
                    (
                        ts@.map_values(|t: Vec<Vec<u8>>| t@.map_values(|a: Vec<u8>| a@)) + rest,
                        end,
                    ),
                ),
            },
        decreases count - taken,
    {
        let (tuple, next) = match read_tuple(s, cur) {
            None => {
                proof {
                    assert(parse_tuples(s@, cur as int, (count - taken) as nat) is None);
                }
                return None;
            },
            Some(p) => p,
        };
        let ghost before = ts@.map_values(|t: Vec<Vec<u8>>| t@.map_values(|a: Vec<u8>| a@));
        let ghost tv = tuple@.map_values(|a: Vec<u8>| a@);
        ts.push(tuple);
        proof {
            assert(ts@.map_values(|t: Vec<Vec<u8>>| t@.map_values(|a: Vec<u8>| a@)) =~= before.push(
                tv,
            ));
            assert forall|rest: Seq<Seq<Seq<u8>>>| true implies before + (seq![tv] + rest)
                =~= before.push(tv) + rest by {}
        }
        cur = next;
        taken = taken + 1;
    }
    proof {
        assert(parse_tuples(s@, cur as int, 0) == Some((Seq::<Seq<Seq<u8>>>::empty(), cur as int)));
        assert(ts@.map_values(|t: Vec<Vec<u8>>| t@.map_values(|a: Vec<u8>| a@)) + Seq::<
            Seq<Seq<u8>>,
        >::empty() =~= ts@.map_values(|t: Vec<Vec<u8>>| t@.map_values(|a: Vec<u8>| a@)));
    }
    Some((ts, cur))
}

} // verus!
