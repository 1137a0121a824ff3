//! Splitting a byte string into shares.
//!
//! Two schemes: a (t,n) Shamir threshold scheme over GF(2^8) for the small
//! header bundle, and a randomised length-preserving partition into
//! contiguous blocks for the content ciphertext. Block sharing provides no
//! secrecy of its own and Shamir reconstruction provides no integrity;
//! integrity comes from the AEAD layer underneath.

use vstd::prelude::*;

pub mod block;
pub mod shamir;

verus! {

/// What can go wrong when sharing or reconstructing.
#[derive(Debug, PartialEq, Eq, Structural)]
pub enum SharingError {
    /// The threshold exceeds the share count, or no share was asked for;
    /// carries the pair (count, threshold).
    WrongThresholdAndNumber(u8, u8),
    /// The shares cannot be reconstructed: none were given, they are empty,
    /// or their lengths disagree.
    ReconstructFailure,
}

/// The concatenation of a sequence of byte strings, in order.
pub open spec fn concat_all(s: Seq<Seq<u8>>) -> Seq<u8>
    decreases s.len(),
{
    if s.len() == 0 {
        Seq::empty()
    } else {
        s[0] + concat_all(s.drop_first())
    }
}

/// Appending one more byte string appends its bytes to the concatenation.
pub proof fn lemma_concat_all_push(s: Seq<Seq<u8>>, x: Seq<u8>)
    ensures
        concat_all(s.push(x)) == concat_all(s) + x,
    decreases s.len(),
{
    if s.len() == 0 {
        assert(s.push(x).drop_first() =~= Seq::<Seq<u8>>::empty());
        assert(concat_all(Seq::<Seq<u8>>::empty()) == Seq::<u8>::empty());
        assert(s.push(x)[0] == x);
        assert(concat_all(s) == Seq::<u8>::empty());
        assert(concat_all(s.push(x)) =~= concat_all(s) + x);
    } else {
        assert(s.push(x).drop_first() =~= s.drop_first().push(x));
        lemma_concat_all_push(s.drop_first(), x);
        assert(s.push(x)[0] == s[0]);
        assert(concat_all(s.push(x)) =~= concat_all(s) + x);
    }
}

/// A threshold scheme: any t of the n shares recover the secret.
pub trait ThresholdSharingAlgorithm {
    /// Share `data` into `n` shares, any `t` of which suffice: every
    /// non-empty selection of at least `t` distinct shares, in any order,
    /// reconstructs to exactly `data`. A threshold over the share count or a
    /// zero count is refused with the threshold error.
    fn share(&self, data: &[u8], n: u8, t: u8) -> (r: Result<Vec<Vec<u8>>, SharingError>)
        ensures
            (t > n || n == 0) <==> r == Err::<Vec<Vec<u8>>, SharingError>(
                SharingError::WrongThresholdAndNumber(n, t),
            ),
            n >= 1 && t <= n ==> r is Ok,
            r matches Ok(shares) ==> {
                &&& shares@.len() == n as int
                &&& forall|i: int|
                    0 <= i < shares@.len() ==> (#[trigger] shares@[i])@.len() == data@.len() + 1
                &&& crate::sharing::shamir::distinct_abscissae(
                    crate::sharing::shamir::share_views(shares@),
                )
                &&& forall|idx: Seq<int>|
                    crate::sharing::shamir::distinct_indices(idx, n as int) && idx.len() >= t
                        && idx.len() >= 1
                        ==> #[trigger] crate::sharing::shamir::shamir_reconstruct_of(
                        crate::sharing::shamir::share_picks(
                            crate::sharing::shamir::share_views(shares@),
                            idx,
                        ),
                    ) == data@
            },
    ;

    /// Put shares back together: succeeds exactly on one to 255 non-empty
    /// shares of one common length with pairwise-distinct abscissa bytes,
    /// and returns their interpolation. Wrong but well-shaped shares yield
    /// garbage rather than an error, so integrity must come from elsewhere.
    fn reconstruct(&self, inp: &[Vec<u8>]) -> (r: Result<Vec<u8>, SharingError>)
        ensures
            r is Ok <==> (1 <= inp@.len() <= 255 && crate::sharing::shamir::shares_shaped(
                crate::sharing::shamir::share_views(inp@),
            ) && crate::sharing::shamir::distinct_abscissae(
                crate::sharing::shamir::share_views(inp@),
            )),
            r matches Ok(d) ==> d@ == crate::sharing::shamir::shamir_reconstruct_of(
                crate::sharing::shamir::share_views(inp@),
            ) && d@.len() + 1 == inp@[0]@.len(),
    ;
}

/// The views of a vector of byte strings.
pub open spec fn piece_views(s: Seq<Vec<u8>>) -> Seq<Seq<u8>> {
    s.map_values(|v: Vec<u8>| v@)
}

/// A plain splitter: all shares together recover the data.
pub trait SharingAlgorithm {
    /// Split `data` into `n` pieces whose concatenation, in order, is
    /// exactly `data`.
    fn share(&self, data: &[u8], n: usize) -> (r: Result<Vec<Vec<u8>>, SharingError>)
        requires
            n >= 1,
            data@.len() < usize::MAX,
        ensures
            r matches Ok(shares) ==> shares@.len() == n as int && concat_all(
                piece_views(shares@),
            ) == data@,
            r is Ok,
    ;

    /// Concatenate the pieces, in the order supplied.
    fn reconstruct(&self, inp: &[Vec<u8>]) -> (r: Result<Vec<u8>, SharingError>)
        ensures
            r matches Ok(d) ==> d@ == concat_all(piece_views(inp@)),
            r is Ok,
    ;
}

} // verus!
