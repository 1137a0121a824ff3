//! Canonical byte framing.
//!
//! Every structure this crate puts on the wire or in an exported state is a
//! concatenation of fixed-width little-endian 64-bit integers and
//! length-prefixed byte segments. The spec functions here define that
//! encoding mathematically; the exec functions implement it; the lemmas show
//! that parsing inverts encoding, which the higher layers compose into
//! round-trip proofs for whole structures.

use vstd::prelude::*;

verus! {

/// The eight little-endian bytes of a 64-bit integer.
pub open spec fn u64_le(v: u64) -> Seq<u8> {
    seq![
        (v & 0xff) as u8,
        ((v >> 8) & 0xff) as u8,
        ((v >> 16) & 0xff) as u8,
        ((v >> 24) & 0xff) as u8,
        ((v >> 32) & 0xff) as u8,
        ((v >> 40) & 0xff) as u8,
        ((v >> 48) & 0xff) as u8,
        ((v >> 56) & 0xff) as u8,
    ]
}

/// The integer denoted by eight little-endian bytes.
pub open spec fn u64_of_le(b: Seq<u8>) -> u64
    recommends
        b.len() == 8,
{
    (b[0] as u64) | ((b[1] as u64) << 8) | ((b[2] as u64) << 16) | ((b[3] as u64) << 24) | ((
    b[4] as u64) << 32) | ((b[5] as u64) << 40) | ((b[6] as u64) << 48) | ((b[7] as u64) << 56)
}

/// Decoding the little-endian bytes of `v` gives back `v`.
pub proof fn lemma_u64_le_roundtrip(v: u64)
    ensures
        u64_le(v).len() == 8,
        u64_of_le(u64_le(v)) == v,
{
    assert((((v & 0xff) as u8) as u64) | ((((v >> 8) & 0xff) as u8) as u64) << 8 | ((((v >> 16)
        & 0xff) as u8) as u64) << 16 | ((((v >> 24) & 0xff) as u8) as u64) << 24 | ((((v >> 32)
        & 0xff) as u8) as u64) << 32 | ((((v >> 40) & 0xff) as u8) as u64) << 40 | ((((v >> 48)
        & 0xff) as u8) as u64) << 48 | ((((v >> 56) & 0xff) as u8) as u64) << 56 == v)
        by (bit_vector);
}

/// Encoding the integer denoted by eight bytes gives back those bytes.
pub proof fn lemma_u64_of_le_roundtrip(b: Seq<u8>)
    requires
        b.len() == 8,
    ensures
        u64_le(u64_of_le(b)) == b,
{
    let b0 = b[0];
    let b1 = b[1];
    let b2 = b[2];
    let b3 = b[3];
    let b4 = b[4];
    let b5 = b[5];
    let b6 = b[6];
    let b7 = b[7];
    assert((((b0 as u64) | ((b1 as u64) << 8) | ((b2 as u64) << 16) | ((b3 as u64) << 24) | ((
    b4 as u64) << 32) | ((b5 as u64) << 40) | ((b6 as u64) << 48) | ((b7 as u64) << 56)) & 0xff)
        as u8 == b0 && ((((b0 as u64) | ((b1 as u64) << 8) | ((b2 as u64) << 16) | ((b3 as u64)
        << 24) | ((b4 as u64) << 32) | ((b5 as u64) << 40) | ((b6 as u64) << 48) | ((b7 as u64)
        << 56)) >> 8) & 0xff) as u8 == b1 && ((((b0 as u64) | ((b1 as u64) << 8) | ((b2 as u64)
        << 16) | ((b3 as u64) << 24) | ((b4 as u64) << 32) | ((b5 as u64) << 40) | ((b6 as u64)
        << 48) | ((b7 as u64) << 56)) >> 16) & 0xff) as u8 == b2 && ((((b0 as u64) | ((b1 as u64)
        << 8) | ((b2 as u64) << 16) | ((b3 as u64) << 24) | ((b4 as u64) << 32) | ((b5 as u64)
        << 40) | ((b6 as u64) << 48) | ((b7 as u64) << 56)) >> 24) & 0xff) as u8 == b3 && ((((
    b0 as u64) | ((b1 as u64) << 8) | ((b2 as u64) << 16) | ((b3 as u64) << 24) | ((b4 as u64)
        << 32) | ((b5 as u64) << 40) | ((b6 as u64) << 48) | ((b7 as u64) << 56)) >> 32) & 0xff)
        as u8 == b4 && ((((b0 as u64) | ((b1 as u64) << 8) | ((b2 as u64) << 16) | ((b3 as u64)
        << 24) | ((b4 as u64) << 32) | ((b5 as u64) << 40) | ((b6 as u64) << 48) | ((b7 as u64)
        << 56)) >> 40) & 0xff) as u8 == b5 && ((((b0 as u64) | ((b1 as u64) << 8) | ((b2 as u64)
        << 16) | ((b3 as u64) << 24) | ((b4 as u64) << 32) | ((b5 as u64) << 40) | ((b6 as u64)
        << 48) | ((b7 as u64) << 56)) >> 48) & 0xff) as u8 == b6 && ((((b0 as u64) | ((b1 as u64)
        << 8) | ((b2 as u64) << 16) | ((b3 as u64) << 24) | ((b4 as u64) << 32) | ((b5 as u64)
        << 40) | ((b6 as u64) << 48) | ((b7 as u64) << 56)) >> 56) & 0xff) as u8 == b7)
        by (bit_vector);
    assert(u64_le(u64_of_le(b)) =~= b);
}

/// What `parse_u64` read at `i` stands at `i` as its own encoding.
pub proof fn lemma_parse_u64_sound(s: Seq<u8>, i: int)
    requires
        parse_u64(s, i) is Some,
    ensures
        ({
            let (v, j) = parse_u64(s, i)->Some_0;
            &&& j == i + 8
            &&& s.subrange(i, j) == u64_le(v)
        }),
{
    let (v, j) = parse_u64(s, i)->Some_0;
    lemma_u64_of_le_roundtrip(s.subrange(i, i + 8));
}

/// What `parse_seg` read at `i` stands at `i` as its own encoding.
pub proof fn lemma_parse_seg_sound(s: Seq<u8>, i: int)
    requires
        parse_seg(s, i) is Some,
    ensures
        ({
            let (b, j) = parse_seg(s, i)->Some_0;
            &&& b.len() <= u64::MAX
            &&& j == i + 8 + b.len()
            &&& s.subrange(i, j) == enc_seg(b)
        }),
{
    let (b, j) = parse_seg(s, i)->Some_0;
    lemma_parse_u64_sound(s, i);
    assert(s.subrange(i, j) =~= s.subrange(i, i + 8) + s.subrange(i + 8, j));
    assert(enc_seg(b) == u64_le(b.len() as u64) + b);
}

/// A length-prefixed byte segment: the length as little-endian 64-bit, then
/// the bytes themselves.
pub open spec fn enc_seg(b: Seq<u8>) -> Seq<u8> {
    u64_le(b.len() as u64) + b
}

/// Parse a little-endian 64-bit integer at index `i`.
pub open spec fn parse_u64(s: Seq<u8>, i: int) -> Option<(u64, int)> {
    if 0 <= i && i + 8 <= s.len() {
        Some((u64_of_le(s.subrange(i, i + 8)), i + 8))
    } else {
        None
    }
}

/// Parse a length-prefixed byte segment at index `i`.
pub open spec fn parse_seg(s: Seq<u8>, i: int) -> Option<(Seq<u8>, int)> {
    match parse_u64(s, i) {
        None => None,
        Some((len, j)) => {
            if j + len <= s.len() {
                Some((s.subrange(j, j + len), j + len))
            } else {
                None
            }
        },
    }
}

/// If the bytes at `i` are the encoding of `v`, parsing at `i` yields `v`.
pub proof fn lemma_parse_u64_at(s: Seq<u8>, i: int, v: u64)
    requires
        0 <= i,
        i + 8 <= s.len(),
        s.subrange(i, i + 8) == u64_le(v),
    ensures
        parse_u64(s, i) == Some((v, i + 8)),
{
    lemma_u64_le_roundtrip(v);
}

/// If the bytes at `i` are the encoding of segment `b`, parsing at `i`
/// yields `b`.
pub proof fn lemma_parse_seg_at(s: Seq<u8>, i: int, b: Seq<u8>)
    requires
        0 <= i,
        b.len() <= u64::MAX,
        i + 8 + b.len() <= s.len(),
        s.subrange(i, i + 8 + b.len()) == enc_seg(b),
    ensures
        parse_seg(s, i) == Some((b, i + 8 + b.len())),
{
    let w = s.subrange(i, i + 8 + b.len());
    assert(s.subrange(i, i + 8) =~= w.subrange(0, 8));
    assert(w.subrange(0, 8) =~= u64_le(b.len() as u64));
    lemma_parse_u64_at(s, i, b.len() as u64);
    assert(s.subrange(i + 8, i + 8 + b.len()) =~= w.subrange(8, 8 + b.len() as int));
    assert(w.subrange(8, 8 + b.len() as int) =~= b);
}

/// Bytes that equal a concatenation split into its two parts.
pub proof fn lemma_concat_split(s: Seq<u8>, i: int, x: Seq<u8>, y: Seq<u8>)
    requires
        0 <= i,
        i + x.len() + y.len() <= s.len(),
        s.subrange(i, i + x.len() + y.len()) == x + y,
    ensures
        s.subrange(i, i + x.len()) == x,
        s.subrange(i + x.len(), i + x.len() + y.len()) == y,
{
    let w = s.subrange(i, i + x.len() + y.len());
    assert(s.subrange(i, i + x.len() as int) =~= w.subrange(0, x.len() as int));
    assert(w.subrange(0, x.len() as int) =~= x);
    assert(s.subrange(i + x.len(), i + x.len() + y.len()) =~= w.subrange(
        x.len() as int,
        (x.len() + y.len()) as int,
    ));
    assert(w.subrange(x.len() as int, (x.len() + y.len()) as int) =~= y);
}

/// An optional byte segment: a presence byte, then the segment if present.
pub open spec fn enc_opt_seg(o: Option<Seq<u8>>) -> Seq<u8> {
    match o {
        None => seq![0u8],
        Some(b) => seq![1u8] + enc_seg(b),
    }
}

/// Parse an optional byte segment at index `i`.
pub open spec fn parse_opt_seg(s: Seq<u8>, i: int) -> Option<(Option<Seq<u8>>, int)> {
    if 0 <= i < s.len() {
        if s[i] == 0u8 {
            Some((None, i + 1))
        } else if s[i] == 1u8 {
            match parse_seg(s, i + 1) {
                None => None,
                Some((b, j)) => Some((Some(b), j)),
            }
        } else {
            None
        }
    } else {
        None
    }
}

/// If the bytes at `i` are the encoding of optional segment `o`, parsing at
/// `i` yields `o`.
pub proof fn lemma_parse_opt_seg_at(s: Seq<u8>, i: int, o: Option<Seq<u8>>)
    requires
        0 <= i,
        i + enc_opt_seg(o).len() <= s.len(),
        s.subrange(i, i + enc_opt_seg(o).len()) == enc_opt_seg(o),
        o matches Some(b) ==> b.len() <= u64::MAX,
    ensures
        parse_opt_seg(s, i) == Some((o, i + enc_opt_seg(o).len())),
{
    let w = s.subrange(i, i + enc_opt_seg(o).len());
    match o {
        None => {
            assert(s[i] == w[0]);
        },
        Some(b) => {
            assert(s[i] == w[0]);
            assert(s.subrange(i + 1, i + 1 + 8 + b.len()) =~= w.subrange(
                1,
                1 + 8 + b.len() as int,
            ));
            assert(w.subrange(1, 1 + 8 + b.len() as int) =~= enc_seg(b));
            lemma_parse_seg_at(s, i + 1, b);
        },
    }
}

/// Append an optional byte segment.
pub fn write_opt_seg(out: &mut Vec<u8>, o: &Option<Vec<u8>>)
    ensures
        final(out)@ == old(out)@ + enc_opt_seg(match o {
            Some(b) => Some(b@),
            None => None,
        }),
{
    match o {
        None => {
            out.push(0u8);
            assert(out@ =~= old(out)@ + enc_opt_seg(None));
        },
        Some(b) => {
            out.push(1u8);
            let ghost mid = out@;
            write_seg(out, b.as_slice());
            assert(out@ =~= old(out)@ + enc_opt_seg(Some(b@)));
        },
    }
}

/// Read an optional byte segment at `pos`.
pub fn read_opt_seg(s: &[u8], pos: usize) -> (r: Option<(Option<Vec<u8>>, usize)>)
    requires
        pos <= s.len(),
    ensures
        match r {
            Some((o, j)) => {
                &&& parse_opt_seg(s@, pos as int) matches Some((os, js))
                &&& os == match o {
                    Some(b) => Some(b@),
                    None => None,
                }
                &&& j as int == js
                &&& pos < j <= s.len()
            },
            None => parse_opt_seg(s@, pos as int) is None,
        },
{
    if pos >= s.len() {
        return None;
    }
    let tag = s[pos];
    if tag == 0u8 {
        Some((None, pos + 1))
    } else if tag == 1u8 {
        match read_seg(s, pos + 1) {
            None => None,
            Some((b, j)) => Some((Some(b), j)),
        }
    } else {
        None
    }
}

/// A sequence of `n` zero bytes.
pub open spec fn zero_seq(n: nat) -> Seq<u8> {
    Seq::new(n, |i: int| 0u8)
}

/// Overwrite every byte of a buffer with zero, in place.
pub fn wipe_bytes(v: &mut Vec<u8>)
    ensures
        final(v)@ == zero_seq(old(v)@.len()),
{
    let mut k: usize = 0;
    while k < v.len()
        invariant
            v@.len() == old(v)@.len(),
            0 <= k <= v@.len(),
            forall|i: int| 0 <= i < k ==> v@[i] == 0u8,
        decreases v@.len() - k,
    {
        v.set(k, 0u8);
        k = k + 1;
    }
    assert(v@ =~= zero_seq(old(v)@.len()));
}

/// Overwrite an optional key with zeros, in place, and drop it.
pub fn wipe_opt_bytes(v: &mut Option<Vec<u8>>)
    ensures
        *final(v) is None,
{
    let mut taken: Option<Vec<u8>> = None;
    core::mem::swap(v, &mut taken);
    match taken {
        Some(mut c) => {
            wipe_bytes(&mut c);
        },
        None => {},
    }
}

/// A vector of `n` zero bytes.
pub fn zero_bytes(n: usize) -> (r: Vec<u8>)
    ensures
        r@ == Seq::new(n as nat, |i: int| 0u8),
{
    let mut v: Vec<u8> = Vec::new();
    let mut k: usize = 0;
    while k < n
        invariant
            0 <= k <= n,
            v@ == Seq::new(k as nat, |i: int| 0u8),
        decreases n - k,
    {
        v.push(0u8);
        assert(v@ =~= Seq::new((k + 1) as nat, |i: int| 0u8));
        k = k + 1;
    }
    v
}

/// Byte-string equality.
pub fn bytes_eq(a: &[u8], b: &[u8]) -> (r: bool)
    ensures
        r == (a@ == b@),
{
    if a.len() != b.len() {
        assert(a@ != b@);
        return false;
    }
    let mut k: usize = 0;
    while k < a.len()
        invariant
            0 <= k <= a.len(),
            a@.len() == b@.len(),
            forall|i: int| 0 <= i < k ==> a@[i] == b@[i],
        decreases a.len() - k,
    {
        if a[k] != b[k] {
            assert(a@ != b@);
            return false;
        }
        k = k + 1;
    }
    assert(a@ =~= b@);
    true
}

/// Append the little-endian bytes of `v`.
pub fn write_u64_le(out: &mut Vec<u8>, v: u64)
    ensures
        final(out)@ == old(out)@ + u64_le(v),
{
    out.push((v & 0xff) as u8);
    out.push(((v >> 8) & 0xff) as u8);
    out.push(((v >> 16) & 0xff) as u8);
    out.push(((v >> 24) & 0xff) as u8);
    out.push(((v >> 32) & 0xff) as u8);
    out.push(((v >> 40) & 0xff) as u8);
    out.push(((v >> 48) & 0xff) as u8);
    out.push(((v >> 56) & 0xff) as u8);
    assert(out@ =~= old(out)@ + u64_le(v));
}

/// Append a length-prefixed byte segment.
pub fn write_seg(out: &mut Vec<u8>, b: &[u8])
    ensures
        final(out)@ == old(out)@ + enc_seg(b@),
{
    write_u64_le(out, b.len() as u64);
    let ghost mid = out@;
    let mut j: usize = 0;
    while j < b.len()
        invariant
            0 <= j <= b.len(),
            out@ == mid + b@.subrange(0, j as int),
        decreases b.len() - j,
    {
        out.push(b[j]);
        assert(out@ =~= mid + b@.subrange(0, j + 1));
        j = j + 1;
    }
    assert(b@.subrange(0, b@.len() as int) =~= b@);
    assert(out@ =~= old(out)@ + enc_seg(b@));
}

/// Read a little-endian 64-bit integer at `pos`.
pub fn read_u64_le(s: &[u8], pos: usize) -> (r: Option<(u64, usize)>)
    requires
        pos <= s.len(),
    ensures
        match r {
            Some((v, j)) => parse_u64(s@, pos as int) == Some((v, j as int)),
            None => parse_u64(s@, pos as int) is None,
        },
{
    if s.len() - pos < 8 {
        return None;
    }
    let v: u64 = (s[pos] as u64) | ((s[pos + 1] as u64) << 8) | ((s[pos + 2] as u64) << 16) | ((
    s[pos + 3] as u64) << 24) | ((s[pos + 4] as u64) << 32) | ((s[pos + 5] as u64) << 40) | ((s[pos
        + 6] as u64) << 48) | ((s[pos + 7] as u64) << 56);
    proof {
        let b = s@.subrange(pos as int, pos + 8);
        assert(b[0] == s@[pos as int]);
        assert(b[1] == s@[pos + 1]);
        assert(b[2] == s@[pos + 2]);
        assert(b[3] == s@[pos + 3]);
        assert(b[4] == s@[pos + 4]);
        assert(b[5] == s@[pos + 5]);
        assert(b[6] == s@[pos + 6]);
        assert(b[7] == s@[pos + 7]);
    }
    Some((v, pos + 8))
}

/// Read a length-prefixed byte segment at `pos`, copying it out.
pub fn read_seg(s: &[u8], pos: usize) -> (r: Option<(Vec<u8>, usize)>)
    requires
        pos <= s.len(),
    ensures
        match r {
            Some((b, j)) => {
                &&& parse_seg(s@, pos as int) matches Some((bs, js))
                &&& b@ == bs
                &&& j as int == js
                &&& pos < j <= s.len()
            },
            None => parse_seg(s@, pos as int) is None,
        },
{
    let (len, mut j) = match read_u64_le(s, pos) {
        None => {
            return None;
        },
        Some(p) => p,
    };
    if len > (s.len() - j) as u64 {
        return None;
    }
    let len: usize = len as usize;
    let end: usize = j + len;
    let mut b: Vec<u8> = Vec::new();
    while j < end
        invariant
            pos + 8 <= j <= end <= s.len(),
            b@ == s@.subrange(pos + 8, j as int),
        decreases end - j,
    {
        b.push(s[j]);
        assert(b@ =~= s@.subrange(pos + 8, j + 1));
        j = j + 1;
    }
    Some((b, end))
}

} // verus!
