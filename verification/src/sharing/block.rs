//! The block splitter: a randomised partition into contiguous pieces.
//!
//! `share` cuts the data into `n` contiguous blocks whose lengths are drawn
//! at random and sum to the data length (empty blocks are allowed);
//! `reconstruct` concatenates blocks in the order supplied. Reconstructing
//! the shares of a split therefore gives the data back, which
//! `lemma_block_round_trip` states.

use vstd::prelude::*;
use vstd::slice::{slice_subrange, slice_to_vec};

use crate::rng::random_index;
use crate::sharing::{concat_all, lemma_concat_all_push, SharingAlgorithm, SharingError};

verus! {

/// The length-preserving block splitter.
pub struct BlockSharing;

impl Default for BlockSharing {
    /// The splitter has no configuration.
    fn default() -> (r: Self) {
        BlockSharing
    }
}

/// Reconstruction returns the concatenation of the blocks, so blocks that
/// partition `data` - as every split made by `share` does - reconstruct to
/// exactly `data`, whatever lengths were drawn.
pub proof fn lemma_block_round_trip(shares: Seq<Seq<u8>>, data: Seq<u8>)
    requires
        concat_all(shares) == data,
    ensures
        concat_all(shares).len() == data.len(),
        concat_all(shares) == data,
{
}

impl SharingAlgorithm for BlockSharing {
    fn share(&self, data: &[u8], n: usize) -> (r: Result<Vec<Vec<u8>>, SharingError>) {
        // Draw the first n - 1 block lengths by stick-breaking; the last
        // block takes whatever remains, so the lengths always sum to the
        // data length.
        let mut lengths: Vec<usize> = Vec::new();
        let mut remaining: usize = data.len();
        let mut i: usize = 0;
        while i < n - 1
            invariant
                n >= 1,
                0 <= i <= n - 1,
                lengths@.len() == i as int,
                sum_usize(lengths@) + remaining == data@.len(),
                remaining <= data@.len(),
                data@.len() < usize::MAX,
            decreases n - 1 - i,
        {
            let take = random_index(remaining + 1);
            proof {
                lemma_sum_usize_push(lengths@, take);
            }
            lengths.push(take);
            remaining = remaining - take;
            i = i + 1;
        }
        proof {
            lemma_sum_usize_push(lengths@, remaining);
        }
        lengths.push(remaining);

        let mut shares: Vec<Vec<u8>> = Vec::new();
        let mut cursor: usize = 0;
        let mut k: usize = 0;
        proof {
            assert(lengths@.subrange(0, 0) =~= Seq::<usize>::empty());
            assert(lengths@.subrange(0, lengths@.len() as int) =~= lengths@);
            assert(shares@.map_values(|v: Vec<u8>| v@) =~= Seq::<Seq<u8>>::empty());
            assert(data@.subrange(0, 0) =~= Seq::<u8>::empty());
        }
        while k < lengths.len()
            invariant
                0 <= k <= lengths@.len(),
                shares@.len() == k as int,
                cursor == sum_usize(lengths@.subrange(0, k as int)),
                sum_usize(lengths@) == data@.len(),
                cursor <= data@.len(),
                data@.len() < usize::MAX,
                sum_usize(lengths@.subrange(0, k as int)) + sum_usize(
                    lengths@.subrange(k as int, lengths@.len() as int),
                ) == data@.len(),
                concat_all(shares@.map_values(|v: Vec<u8>| v@)) == data@.subrange(0, cursor as int),
            decreases lengths@.len() - k,
        {
            let len_k = lengths[k];
            proof {
                lemma_sum_usize_first(lengths@.subrange(k as int, lengths@.len() as int));
                assert(lengths@.subrange(k as int, lengths@.len() as int).drop_first()
                    =~= lengths@.subrange(k + 1, lengths@.len() as int));
                assert(lengths@.subrange(k as int, lengths@.len() as int)[0] == lengths@[k as int]);
                assert(cursor + len_k <= data@.len());
            }
            let piece = slice_to_vec(slice_subrange(data, cursor, cursor + len_k));
            proof {
                lemma_concat_all_push(shares@.map_values(|v: Vec<u8>| v@), piece@);
                assert(shares@.push(piece).map_values(|v: Vec<u8>| v@) =~= shares@.map_values(
                    |v: Vec<u8>| v@,
                ).push(piece@));
                assert(data@.subrange(0, cursor as int) + data@.subrange(
                    cursor as int,
                    cursor + len_k,
                ) =~= data@.subrange(0, cursor + len_k));
                lemma_sum_usize_push(lengths@.subrange(0, k as int), len_k);
                assert(lengths@.subrange(0, k as int).push(len_k) =~= lengths@.subrange(
                    0,
                    k + 1,
                ));
            }
            shares.push(piece);
            cursor = cursor + len_k;
            k = k + 1;
        }
        proof {
            assert(lengths@.subrange(0, lengths@.len() as int) =~= lengths@);
            assert(data@.subrange(0, data@.len() as int) =~= data@);
            assert(crate::sharing::piece_views(shares@) =~= shares@.map_values(
                |v: Vec<u8>| v@,
            ));
        }
        Ok(shares)
    }

    fn reconstruct(&self, inp: &[Vec<u8>]) -> (r: Result<Vec<u8>, SharingError>) {
        let mut result: Vec<u8> = Vec::new();
        let mut k: usize = 0;
        proof {
            assert(inp@.subrange(0, 0).map_values(|v: Vec<u8>| v@) =~= Seq::<Seq<u8>>::empty());
        }
        while k < inp.len()
            invariant
                0 <= k <= inp@.len(),
                result@ == concat_all(inp@.subrange(0, k as int).map_values(|v: Vec<u8>| v@)),
            decreases inp@.len() - k,
        {
            let ghost before = result@;
            let piece = &inp[k];
            let mut j: usize = 0;
            while j < piece.len()
                invariant
                    0 <= j <= piece@.len(),
                    result@ == before + piece@.subrange(0, j as int),
                decreases piece@.len() - j,
            {
                result.push(piece[j]);
                assert(result@ =~= before + piece@.subrange(0, j + 1));
                j = j + 1;
            }
            proof {
                assert(piece@.subrange(0, piece@.len() as int) =~= piece@);
                lemma_concat_all_push(
                    inp@.subrange(0, k as int).map_values(|v: Vec<u8>| v@),
                    inp@[k as int]@,
                );
                assert(inp@.subrange(0, k + 1).map_values(|v: Vec<u8>| v@) =~= inp@.subrange(
                    0,
                    k as int,
                ).map_values(|v: Vec<u8>| v@).push(inp@[k as int]@));
            }
            k = k + 1;
        }
        proof {
            assert(inp@.subrange(0, inp@.len() as int) =~= inp@);
            assert(crate::sharing::piece_views(inp@) =~= inp@.subrange(
                0,
                inp@.len() as int,
            ).map_values(|v: Vec<u8>| v@));
        }
        Ok(result)
    }
}

/// The sum of a sequence of lengths.
pub open spec fn sum_usize(s: Seq<usize>) -> nat
    decreases s.len(),
{
    if s.len() == 0 {
        0
    } else {
        (s[0] + sum_usize(s.drop_first())) as nat
    }
}

proof fn lemma_sum_usize_push(s: Seq<usize>, x: usize)
    ensures
        sum_usize(s.push(x)) == sum_usize(s) + x,
    decreases s.len(),
{
    if s.len() == 0 {
        assert(s.push(x).drop_first() =~= Seq::<usize>::empty());
        assert(sum_usize(Seq::<usize>::empty()) == 0);
        assert(s.push(x)[0] == x);
        assert(sum_usize(s) == 0);
    } else {
        assert(s.push(x).drop_first() =~= s.drop_first().push(x));
        lemma_sum_usize_push(s.drop_first(), x);
        assert(s.push(x)[0] == s[0]);
    }
}

proof fn lemma_sum_usize_first(s: Seq<usize>)
    requires
        s.len() >= 1,
    ensures
        sum_usize(s) == s[0] + sum_usize(s.drop_first()),
{
}

} // verus!
