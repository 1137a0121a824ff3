//! The on-the-wire formats of a message.
//!
//! A share as stored is the Shamir header share and the content block, each
//! length-prefixed. The header bundle fed to the Shamir splitter is the
//! encrypted header followed by the two 12-byte nonces. The plaintext inside
//! the encryption ratchet is the address-header count, the headers, and the
//! user message, all length-prefixed. Each format's parse provably inverts
//! its encoder.

use vstd::prelude::*;

use crate::bytes::{enc_seg, parse_seg, parse_u64, read_seg, read_u64_le, u64_le, write_seg,
    write_u64_le};

verus! {

/// The stored form of one share: header share, then content block.
pub open spec fn share_wire(header: Seq<u8>, content: Seq<u8>) -> Seq<u8> {
    enc_seg(header) + enc_seg(content)
}

/// Parse a stored share, requiring full consumption.
pub open spec fn parse_share_wire(s: Seq<u8>) -> Option<(Seq<u8>, Seq<u8>)> {
    match parse_seg(s, 0) {
        None => None,
        Some((header, i)) => match parse_seg(s, i) {
            None => None,
            Some((content, j)) => {
                if j == s.len() {
                    Some((header, content))
                } else {
                    None
                }
            },
        },
    }
}

/// Parsing a stored share yields its two parts back.
pub proof fn lemma_share_wire_roundtrip(header: Seq<u8>, content: Seq<u8>)
    requires
        header.len() <= u64::MAX,
        content.len() <= u64::MAX,
    ensures
        parse_share_wire(share_wire(header, content)) == Some((header, content)),
{
    let s = share_wire(header, content);
    let i = 8 + header.len() as int;
    let j = i + 8 + content.len() as int;
    assert(s.subrange(0, i) =~= enc_seg(header));
    crate::bytes::lemma_parse_seg_at(s, 0, header);
    assert(s.subrange(i, j) =~= enc_seg(content));
    crate::bytes::lemma_parse_seg_at(s, i, content);
}

/// Encode one share for storage.
pub fn encode_share(header: &[u8], content: &[u8]) -> (r: Vec<u8>)
    ensures
        r@ == share_wire(header@, content@),
{
    let mut out: Vec<u8> = Vec::new();
    write_seg(&mut out, header);
    write_seg(&mut out, content);
    assert(out@ =~= share_wire(header@, content@));
    out
}

/// Parse one stored share.
pub fn decode_share(s: &[u8]) -> (r: Option<(Vec<u8>, Vec<u8>)>)
    ensures
        match r {
            Some((h, c)) => parse_share_wire(s@) == Some((h@, c@)),
            None => parse_share_wire(s@) is None,
        },
{
    let (header, i) = match read_seg(s, 0) {
        None => {
            return None;
        },
        Some(p) => p,
    };
    let (content, j) = match read_seg(s, i) {
        None => {
            return None;
        },
        Some(p) => p,
    };
    if j != s.len() {
        return None;
    }
    Some((header, content))
}

/// The header bundle handed to the Shamir splitter: encrypted header, header
/// nonce, content nonce.
pub open spec fn meta_wire(ehdr: Seq<u8>, hnonce: Seq<u8>, cnonce: Seq<u8>) -> Seq<u8> {
    enc_seg(ehdr) + hnonce + cnonce
}

/// Parse a header bundle: the nonces are the fixed-width 12-byte tail.
pub open spec fn parse_meta_wire(s: Seq<u8>) -> Option<(Seq<u8>, Seq<u8>, Seq<u8>)> {
    match parse_seg(s, 0) {
        None => None,
        Some((ehdr, i)) => {
            if i + 24 == s.len() {
                Some((ehdr, s.subrange(i, i + 12), s.subrange(i + 12, i + 24)))
            } else {
                None
            }
        },
    }
}

/// Parsing a header bundle yields its three parts back.
pub proof fn lemma_meta_wire_roundtrip(ehdr: Seq<u8>, hnonce: Seq<u8>, cnonce: Seq<u8>)
    requires
        ehdr.len() <= u64::MAX,
        hnonce.len() == 12,
        cnonce.len() == 12,
    ensures
        parse_meta_wire(meta_wire(ehdr, hnonce, cnonce)) == Some((ehdr, hnonce, cnonce)),
{
    let s = meta_wire(ehdr, hnonce, cnonce);
    let i = 8 + ehdr.len() as int;
    assert(s.subrange(0, i) =~= enc_seg(ehdr));
    crate::bytes::lemma_parse_seg_at(s, 0, ehdr);
    assert(s.subrange(i, i + 12) =~= hnonce);
    assert(s.subrange(i + 12, i + 24) =~= cnonce);
}

/// Encode the header bundle.
pub fn encode_meta(ehdr: &[u8], hnonce: &[u8], cnonce: &[u8]) -> (r: Vec<u8>)
    requires
        hnonce@.len() == 12,
        cnonce@.len() == 12,
    ensures
        r@ == meta_wire(ehdr@, hnonce@, cnonce@),
{
    let mut out: Vec<u8> = Vec::new();
    write_seg(&mut out, ehdr);
    append_bytes(&mut out, hnonce);
    append_bytes(&mut out, cnonce);
    assert(out@ =~= meta_wire(ehdr@, hnonce@, cnonce@));
    out
}

/// Parse the header bundle.
pub fn decode_meta(s: &[u8]) -> (r: Option<(Vec<u8>, Vec<u8>, Vec<u8>)>)
    ensures
        match r {
            Some((e, h, c)) => parse_meta_wire(s@) == Some((e@, h@, c@)) && h@.len() == 12
                && c@.len() == 12,
            None => parse_meta_wire(s@) is None,
        },
{
    let (ehdr, i) = match read_seg(s, 0) {
        None => {
            return None;
        },
        Some(p) => p,
    };
    if s.len() - i != 24 {
        return None;
    }
    let hnonce = copy_range(s, i, i + 12);
    let cnonce = copy_range(s, i + 12, i + 24);
    Some((ehdr, hnonce, cnonce))
}

/// Append a byte slice to a vector.
pub fn append_bytes(out: &mut Vec<u8>, b: &[u8])
    ensures
        final(out)@ == old(out)@ + b@,
{
    let mut j: usize = 0;
    while j < b.len()
        invariant
            0 <= j <= b.len(),
            out@ == old(out)@ + b@.subrange(0, j as int),
        decreases b.len() - j,
    {
        out.push(b[j]);
        assert(out@ =~= old(out)@ + b@.subrange(0, j + 1));
        j = j + 1;
    }
    assert(old(out)@ + b@.subrange(0, b@.len() as int) =~= old(out)@ + b@);
}

/// Copy a range of a slice into a fresh vector.
pub fn copy_range(s: &[u8], from: usize, to: usize) -> (r: Vec<u8>)
    requires
        from <= to <= s.len(),
    ensures
        r@ == s@.subrange(from as int, to as int),
{
    let mut r: Vec<u8> = Vec::new();
    let mut j: usize = from;
    while j < to
        invariant
            from <= j <= to <= s@.len(),
            r@ == s@.subrange(from as int, j as int),
        decreases to - j,
    {
        r.push(s[j]);
        assert(r@ =~= s@.subrange(from as int, j + 1));
        j = j + 1;
    }
    r
}

/// The views of a vector of byte strings.
pub open spec fn seg_views(s: Seq<Vec<u8>>) -> Seq<Seq<u8>> {
    s.map_values(|v: Vec<u8>| v@)
}

/// A count-prefixed list of byte segments.
pub open spec fn segs_wire(items: Seq<Seq<u8>>) -> Seq<u8>
    decreases items.len(),
{
    if items.len() == 0 {
        Seq::empty()
    } else {
        enc_seg(items[0]) + segs_wire(items.drop_first())
    }
}

/// Appending one more item appends its segment.
pub proof fn lemma_segs_wire_push(items: Seq<Seq<u8>>, x: Seq<u8>)
    ensures
        segs_wire(items.push(x)) == segs_wire(items) + enc_seg(x),
    decreases items.len(),
{
    if items.len() == 0 {
        let d = items.push(x).drop_first();
        assert(d =~= Seq::<Seq<u8>>::empty());
        assert(items.push(x)[0] == x);
        assert(segs_wire(d) =~= Seq::<u8>::empty());
        assert(segs_wire(items) =~= Seq::<u8>::empty());
        assert(segs_wire(items.push(x)) =~= segs_wire(items) + enc_seg(x));
    } else {
        assert(items.push(x).drop_first() =~= items.drop_first().push(x));
        assert(items.push(x)[0] == items[0]);
        lemma_segs_wire_push(items.drop_first(), x);
        assert(segs_wire(items.push(x)) =~= segs_wire(items) + enc_seg(x));
    }
}

/// Segments of one common length take a fixed number of bytes each.
pub proof fn lemma_segs_wire_len_uniform(items: Seq<Seq<u8>>, len: nat)
    requires
        forall|k: int| 0 <= k < items.len() ==> (#[trigger] items[k]).len() == len,
    ensures
        segs_wire(items).len() == items.len() * (8 + len),
    decreases items.len(),
{
    if items.len() == 0 {
    } else {
        assert(forall|k: int|
            0 <= k < items.drop_first().len() ==> (#[trigger] items.drop_first()[k]).len()
                == len) by {
            assert forall|k: int|
                0 <= k < items.drop_first().len() implies (#[trigger] items.drop_first()[k]).len()
                == len by {
                assert(items.drop_first()[k] == items[k + 1]);
            }
        }
        lemma_segs_wire_len_uniform(items.drop_first(), len);
        assert(items[0].len() == len);
        assert(items.len() * (8 + len) == (8 + len) + items.drop_first().len() * (8 + len))
            by (nonlinear_arith)
            requires
                items.len() >= 1,
                items.drop_first().len() == items.len() - 1,
        ;
    }
}

/// Parse `count` consecutive segments at index `i`.
pub open spec fn parse_segs(s: Seq<u8>, i: int, count: nat) -> Option<(Seq<Seq<u8>>, int)>
    decreases count,
{
    if count == 0 {
        Some((Seq::empty(), i))
    } else {
        match parse_seg(s, i) {
            None => None,
            Some((b, j)) => match parse_segs(s, j, (count - 1) as nat) {
                None => None,
                Some((rest, end)) => Some((seq![b] + rest, end)),
            },
        }
    }
}

/// If the bytes at `i` are the segments of `items`, parsing that many
/// segments at `i` yields `items`.
pub proof fn lemma_parse_segs_at(s: Seq<u8>, i: int, items: Seq<Seq<u8>>)
    requires
        0 <= i,
        i + segs_wire(items).len() <= s.len(),
        s.subrange(i, i + segs_wire(items).len()) == segs_wire(items),
        forall|k: int| 0 <= k < items.len() ==> (#[trigger] items[k]).len() <= u64::MAX,
    ensures
        parse_segs(s, i, items.len()) == Some((items, i + segs_wire(items).len())),
    decreases items.len(),
{
    if items.len() == 0 {
        assert(parse_segs(s, i, 0) == Some((Seq::<Seq<u8>>::empty(), i)));
        assert(items =~= Seq::<Seq<u8>>::empty());
    } else {
        let first = items[0];
        let rest = items.drop_first();
        let w = segs_wire(items);
        assert(w == enc_seg(first) + segs_wire(rest));
        let j = i + 8 + first.len() as int;
        assert(s.subrange(i, j) =~= w.subrange(0, 8 + first.len() as int));
        assert(w.subrange(0, 8 + first.len() as int) =~= enc_seg(first));
        crate::bytes::lemma_parse_seg_at(s, i, first);
        assert(s.subrange(j, j + segs_wire(rest).len() as int) =~= w.subrange(
            8 + first.len() as int,
            w.len() as int,
        ));
        assert(w.subrange(8 + first.len() as int, w.len() as int) =~= segs_wire(rest));
        assert(forall|k: int| 0 <= k < rest.len() ==> (#[trigger] rest[k]).len() <= u64::MAX)
            by {
            assert forall|k: int| 0 <= k < rest.len() implies (#[trigger] rest[k]).len()
                <= u64::MAX by {
                assert(rest[k] == items[k + 1]);
            }
        }
        lemma_parse_segs_at(s, j, rest);
        assert(seq![first] + rest =~= items);
    }
}

/// The plaintext framing inside the encryption ratchet: the address-header
/// count, the headers, then the user message.
pub open spec fn plaintext_wire(headers: Seq<Seq<u8>>, msg: Seq<u8>) -> Seq<u8> {
    u64_le(headers.len() as u64) + segs_wire(headers) + enc_seg(msg)
}

/// Parse the plaintext framing, requiring full consumption.
pub open spec fn parse_plaintext_wire(s: Seq<u8>) -> Option<(Seq<Seq<u8>>, Seq<u8>)> {
    match parse_u64(s, 0) {
        None => None,
        Some((count, i)) => match parse_segs(s, i, count as nat) {
            None => None,
            Some((headers, j)) => match parse_seg(s, j) {
                None => None,
                Some((msg, end)) => {
                    if end == s.len() {
                        Some((headers, msg))
                    } else {
                        None
                    }
                },
            },
        },
    }
}

/// Parsing the plaintext framing yields the headers and message back.
#[verifier::rlimit(100)]
#[verifier::spinoff_prover]
pub proof fn lemma_plaintext_wire_roundtrip(headers: Seq<Seq<u8>>, msg: Seq<u8>)
    requires
        headers.len() <= u64::MAX,
        msg.len() <= u64::MAX,
        forall|k: int| 0 <= k < headers.len() ==> (#[trigger] headers[k]).len() <= u64::MAX,
    ensures
        parse_plaintext_wire(plaintext_wire(headers, msg)) == Some((headers, msg)),
{
    lemma_plaintext_parse_count(headers, msg);
    lemma_plaintext_parse_headers(headers, msg);
    lemma_plaintext_parse_msg(headers, msg);
}

/// The count field of the plaintext framing parses back.
#[verifier::rlimit(100)]
#[verifier::spinoff_prover]
proof fn lemma_plaintext_parse_count(headers: Seq<Seq<u8>>, msg: Seq<u8>)
    requires
        headers.len() <= u64::MAX,
        msg.len() <= u64::MAX,
    ensures
        parse_u64(plaintext_wire(headers, msg), 0) == Some((headers.len() as u64, 8int)),
{
    let s = plaintext_wire(headers, msg);
    lemma_plaintext_wire_split(headers, msg);
    crate::bytes::lemma_parse_u64_at(s, 0, headers.len() as u64);
}

/// The header segments of the plaintext framing parse back.
#[verifier::rlimit(100)]
#[verifier::spinoff_prover]
proof fn lemma_plaintext_parse_headers(headers: Seq<Seq<u8>>, msg: Seq<u8>)
    requires
        headers.len() <= u64::MAX,
        msg.len() <= u64::MAX,
        forall|k: int| 0 <= k < headers.len() ==> (#[trigger] headers[k]).len() <= u64::MAX,
    ensures
        parse_segs(plaintext_wire(headers, msg), 8, headers.len()) == Some(
            (headers, 8 + segs_wire(headers).len() as int),
        ),
{
    let s = plaintext_wire(headers, msg);
    lemma_plaintext_wire_split(headers, msg);
    lemma_parse_segs_at(s, 8, headers);
}

/// The message segment of the plaintext framing parses back, ending at the
/// last byte.
#[verifier::rlimit(100)]
#[verifier::spinoff_prover]
proof fn lemma_plaintext_parse_msg(headers: Seq<Seq<u8>>, msg: Seq<u8>)
    requires
        headers.len() <= u64::MAX,
        msg.len() <= u64::MAX,
    ensures
        parse_seg(plaintext_wire(headers, msg), 8 + segs_wire(headers).len() as int) == Some(
            (msg, plaintext_wire(headers, msg).len() as int),
        ),
{
    let s = plaintext_wire(headers, msg);
    let c1 = u64_le(headers.len() as u64);
    let c2 = c1 + segs_wire(headers);
    lemma_plaintext_wire_split(headers, msg);
    crate::bytes::lemma_parse_seg_at(s, c2.len() as int, msg);
}

/// The plaintext framing splits into its three parts.
#[verifier::rlimit(100)]
#[verifier::spinoff_prover]
proof fn lemma_plaintext_wire_split(headers: Seq<Seq<u8>>, msg: Seq<u8>)
    ensures
        ({
            let s = plaintext_wire(headers, msg);
            let c1 = u64_le(headers.len() as u64);
            let c2 = c1 + segs_wire(headers);
            &&& s.subrange(0, 8) == c1
            &&& s.subrange(8, c2.len() as int) == segs_wire(headers)
            &&& s.subrange(c2.len() as int, s.len() as int) == enc_seg(msg)
        }),
{
    let s = plaintext_wire(headers, msg);
    let c1 = u64_le(headers.len() as u64);
    let c2 = c1 + segs_wire(headers);
    assert(s.subrange(0, s.len() as int) =~= s);
    crate::bytes::lemma_concat_split(s, 0, c2, enc_seg(msg));
    crate::bytes::lemma_concat_split(s, 0, c1, segs_wire(headers));
}

/// Encode the plaintext framing from encoded headers and the message.
pub fn encode_plaintext(headers: &Vec<Vec<u8>>, msg: &[u8]) -> (r: Vec<u8>)
    ensures
        r@ == plaintext_wire(seg_views(headers@), msg@),
{
    proof {
        assert(seg_views(headers@) =~= headers@.map_values(|h: Vec<u8>| h@));
    }
    let ghost hs = headers@.map_values(|h: Vec<u8>| h@);
    let mut out: Vec<u8> = Vec::new();
    write_u64_le(&mut out, headers.len() as u64);
    let mut k: usize = 0;
    proof {
        assert(hs.subrange(0, 0) =~= Seq::<Seq<u8>>::empty());
    }
    while k < headers.len()
        invariant
            0 <= k <= headers@.len(),
            hs == headers@.map_values(|h: Vec<u8>| h@),
            hs.len() == headers@.len(),
            out@ == u64_le(hs.len() as u64) + segs_wire(hs.subrange(0, k as int)),
        decreases headers@.len() - k,
    {
        write_seg(&mut out, headers[k].as_slice());
        proof {
            lemma_segs_wire_push(hs.subrange(0, k as int), hs[k as int]);
            assert(hs.subrange(0, k + 1) =~= hs.subrange(0, k as int).push(hs[k as int]));
        }
        k = k + 1;
    }
    proof {
        assert(hs.subrange(0, hs.len() as int) =~= hs);
    }
    write_seg(&mut out, msg);
    out
}

/// Parse the plaintext framing into encoded headers and the message.
pub fn decode_plaintext(s: &[u8]) -> (r: Option<(Vec<Vec<u8>>, Vec<u8>)>)
    ensures
        match r {
            Some((hs, msg)) => parse_plaintext_wire(s@) == Some((seg_views(hs@), msg@)),
            None => parse_plaintext_wire(s@) is None,
        },
{
    let (count, start) = match read_u64_le(s, 0) {
        None => {
            return None;
        },
        Some(p) => p,
    };
    let mut headers: Vec<Vec<u8>> = Vec::new();
    let mut taken: u64 = 0;
    let mut pos: usize = start;
    proof {
        assert(headers@.map_values(|h: Vec<u8>| h@) =~= Seq::<Seq<u8>>::empty());
    }
    while taken < count
        invariant
            0 <= taken <= count,
            pos <= s@.len(),
            parse_u64(s@, 0) == Some((count, start as int)),
            parse_segs(s@, start as int, count as nat) == match parse_segs(
                s@,
                pos as int,
                (count - taken) as nat,
            ) {
                None => None::<(Seq<Seq<u8>>, int)>,
                Some((rest, end)) => Some(
                    (headers@.map_values(|h: Vec<u8>| h@) + rest, end),
                ),
            },
        decreases count - taken,
    {
        let (b, next) = match read_seg(s, pos) {
            None => {
                proof {
                    assert(parse_segs(s@, pos as int, (count - taken) as nat) is None);
                }
                return None;
            },
            Some(p) => p,
        };
        let ghost hs_before = headers@.map_values(|h: Vec<u8>| h@);
        headers.push(b);
        proof {
            assert(headers@.map_values(|h: Vec<u8>| h@) =~= hs_before.push(b@));
            assert forall|rest: Seq<Seq<u8>>| true implies hs_before + (seq![b@] + rest)
                =~= hs_before.push(b@) + rest by {}
        }
        pos = next;
        taken = taken + 1;
    }
    proof {
        assert(parse_segs(s@, pos as int, 0) == Some((Seq::<Seq<u8>>::empty(), pos as int)));
        assert(headers@.map_values(|h: Vec<u8>| h@) + Seq::<Seq<u8>>::empty() =~= headers@
            .map_values(|h: Vec<u8>| h@));
    }
    let (msg, end) = match read_seg(s, pos) {
        None => {
            return None;
        },
        Some(p) => p,
    };
    if end != s.len() {
        return None;
    }
    proof {
        assert(seg_views(headers@) =~= headers@.map_values(|h: Vec<u8>| h@));
    }
    Some((headers, msg))
}

} // verus!
