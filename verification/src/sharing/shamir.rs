//! The Shamir splitter: (t,n) threshold sharing over GF(2^8), per byte.
//!
//! The polynomial arithmetic lives in sss_rs behind two trusted wrappers;
//! the threshold rule (a threshold over the share count, or a zero share
//! count, is refused before anything is shared) and the shape checks on
//! reconstruction are verified here. All shares carry the same abscissa
//! list, so one share is one x byte followed by one y byte per secret byte.
//! Reconstruction is Lagrange interpolation at zero: a pure function of the
//! shares, named by `shamir_reconstruct_of`, so that sharing can state that
//! any large-enough subset of its output reconstructs the secret.
//! Reconstruction performs no integrity check: wrong shares give garbage.

use vstd::prelude::*;

use crate::sharing::{SharingError, ThresholdSharingAlgorithm};

verus! {

/// What Lagrange interpolation at zero makes of a sequence of shares: a
/// function of the shares alone (the abscissa is each share's first byte).
pub uninterp spec fn shamir_reconstruct_of(shares: Seq<Seq<u8>>) -> Seq<u8>;

/// The views of a vector of shares.
pub open spec fn share_views(shares: Seq<Vec<u8>>) -> Seq<Seq<u8>> {
    shares.map_values(|v: Vec<u8>| v@)
}

/// The shares selected by a sequence of indices, in that order.
pub open spec fn share_picks(views: Seq<Seq<u8>>, idx: Seq<int>) -> Seq<Seq<u8>> {
    Seq::new(idx.len(), |j: int| views[idx[j]])
}

/// Indices into `0..n`, no two equal.
pub open spec fn distinct_indices(idx: Seq<int>, n: int) -> bool {
    &&& forall|j: int| 0 <= j < idx.len() ==> 0 <= #[trigger] idx[j] < n
    &&& forall|j: int, k: int| 0 <= j < idx.len() && 0 <= k < idx.len() && j != k ==> idx[j] != idx[k]
}

/// No two shares carry the same abscissa byte.
pub open spec fn distinct_abscissae(views: Seq<Seq<u8>>) -> bool {
    forall|i: int, j: int|
        0 <= i < views.len() && 0 <= j < views.len() && i != j ==> (#[trigger] views[i])[0] != (
        #[trigger] views[j])[0]
}

/// Every share is non-empty and of one common length.
pub open spec fn shares_shaped(views: Seq<Seq<u8>>) -> bool {
    &&& forall|i: int| 0 <= i < views.len() ==> (#[trigger] views[i]).len() >= 1
    &&& forall|i: int| 0 <= i < views.len() ==> (#[trigger] views[i]).len() == views[0].len()
}

/// The Shamir threshold splitter.
pub struct ShamirSecretSharing;

impl Default for ShamirSecretSharing {
    /// The splitter has no configuration.
    fn default() -> (r: Self) {
        ShamirSecretSharing
    }
}

/// Relies on sss_rs's wrapped_sharing::share: splits `data` into `n` shares
/// of which `t` suffice to reconstruct. Succeeds exactly when `n >= 2` and
/// `t <= n`; each share is one abscissa byte (drawn without repetition from
/// a shuffle of the 255 nonzero bytes) followed by one byte per secret byte.
/// The share values are random, but of every outcome the polynomials have
/// degree below `t`, so interpolating any `t` or more of the shares, in any
/// order, yields the secret back.
#[verifier::external_body]
fn sss_share(data: &[u8], t: u8, n: u8) -> (r: Option<Vec<Vec<u8>>>)
    ensures
        r is Some <==> (n >= 2 && t <= n),
        r matches Some(shares) ==> {
            &&& shares@.len() == n as int
            &&& forall|i: int|
                0 <= i < shares@.len() ==> (#[trigger] shares@[i])@.len() == data@.len() + 1
            &&& distinct_abscissae(share_views(shares@))
            &&& forall|idx: Seq<int>|
                distinct_indices(idx, n as int) && idx.len() >= t && idx.len() >= 1
                    ==> #[trigger] shamir_reconstruct_of(share_picks(share_views(shares@), idx))
                    == data@
        },
{
    sss_rs::wrapped_sharing::share(data, t, n, false).ok()
}

/// Relies on sss_rs's wrapped_sharing::reconstruct: Lagrange interpolation
/// at zero, per byte, taking each share's first byte as its abscissa. The
/// preconditions keep out what the library does not guard against: an empty
/// share (it indexes the first byte unchecked) and a repeated abscissa (the
/// interpolation would divide by zero). Within them it succeeds exactly on
/// one to 255 shares of one common length, and the result is the
/// interpolation of the shares handed in. A single share interpolates to its
/// own ordinate bytes: with one point the Lagrange basis is the constant one.
#[verifier::external_body]
fn sss_reconstruct(shares: &[Vec<u8>]) -> (r: Option<Vec<u8>>)
    requires
        shares@.len() >= 1,
        forall|i: int| 0 <= i < shares@.len() ==> (#[trigger] shares@[i])@.len() >= 1,
        distinct_abscissae(share_views(shares@)),
    ensures
        r is Some <==> (shares@.len() <= 255 && shares_shaped(share_views(shares@))),
        r matches Some(d) ==> d@ == shamir_reconstruct_of(share_views(shares@)) && d@.len() + 1
            == shares@[0]@.len(),
        shares@.len() == 1 ==> (r matches Some(d) ==> d@ == shares@[0]@.subrange(
            1,
            shares@[0]@.len() as int,
        )),
{
    sss_rs::wrapped_sharing::reconstruct(shares, false).ok()
}

impl ThresholdSharingAlgorithm for ShamirSecretSharing {
    fn share(&self, data: &[u8], n: u8, t: u8) -> (r: Result<Vec<Vec<u8>>, SharingError>) {
        if t > n || n == 0 {
            return Err(SharingError::WrongThresholdAndNumber(n, t));
        }
        if n == 1 {
            // The backing crate refuses a single share, but the degenerate
            // case is exact: a constant polynomial, so the one share is an
            // abscissa byte followed by the secret itself.
            let x = crate::rng::os_random_bytes(1);
            let mut share: Vec<u8> = Vec::new();
            share.push(x[0]);
            let mut k: usize = 0;
            while k < data.len()
                invariant
                    0 <= k <= data@.len(),
                    share@.len() == k + 1,
                    share@ == seq![x@[0]] + data@.subrange(0, k as int),
                decreases data@.len() - k,
            {
                share.push(data[k]);
                proof {
                    assert(share@ =~= seq![x@[0]] + data@.subrange(0, k + 1));
                }
                k = k + 1;
            }
            proof {
                assert(data@.subrange(0, data@.len() as int) =~= data@);
            }
            let mut shares: Vec<Vec<u8>> = Vec::new();
            shares.push(share);
            proof {
                assert(share_views(shares@)[0] == shares@[0]@);
                assert(distinct_abscissae(share_views(shares@)));
            }
            // Learn what interpolation makes of this one share.
            let probe = sss_reconstruct(shares.as_slice());
            proof {
                assert(share_views(shares@)[0].len() == data@.len() + 1);
                assert(shares_shaped(share_views(shares@)));
                let d = probe->Some_0;
                assert(d@ == shamir_reconstruct_of(share_views(shares@)));
                assert(d@ == shares@[0]@.subrange(1, shares@[0]@.len() as int));
                assert(shares@[0]@.subrange(1, shares@[0]@.len() as int) =~= data@);
                assert(shamir_reconstruct_of(share_views(shares@)) == data@);
                assert forall|idx: Seq<int>|
                    distinct_indices(idx, n as int) && idx.len() >= t && idx.len()
                        >= 1 implies #[trigger] shamir_reconstruct_of(
                    share_picks(share_views(shares@), idx),
                ) == data@ by {
                    assert(idx[0] == 0);
                    if idx.len() >= 2 {
                        assert(idx[1] == 0);
                        assert(false);
                    }
                    assert(share_picks(share_views(shares@), idx) =~= share_views(shares@));
                }
            }
            return Ok(shares);
        }
        match sss_share(data, t, n) {
            Some(shares) => Ok(shares),
            None => Err(SharingError::ReconstructFailure),
        }
    }

    fn reconstruct(&self, inp: &[Vec<u8>]) -> (r: Result<Vec<u8>, SharingError>) {
        if inp.len() == 0 || inp.len() > 255 {
            return Err(SharingError::ReconstructFailure);
        }
        let common_len = inp[0].len();
        let mut k: usize = 0;
        while k < inp.len()
            invariant
                0 <= k <= inp@.len(),
                common_len == inp@[0]@.len(),
                forall|i: int|
                    0 <= i < k ==> (#[trigger] inp@[i])@.len() >= 1 && inp@[i]@.len()
                        == common_len,
            decreases inp@.len() - k,
        {
            if inp[k].len() == 0 || inp[k].len() != common_len {
                proof {
                    assert(share_views(inp@)[k as int] == inp@[k as int]@);
                    assert(share_views(inp@)[0] == inp@[0]@);
                    assert(!shares_shaped(share_views(inp@)));
                }
                return Err(SharingError::ReconstructFailure);
            }
            k = k + 1;
        }
        let mut i: usize = 0;
        while i < inp.len()
            invariant
                0 <= i <= inp@.len(),
                forall|a: int| 0 <= a < inp@.len() ==> (#[trigger] inp@[a])@.len() >= 1,
                forall|a: int, b: int|
                    0 <= a < i && 0 <= b < inp@.len() && a != b ==> (#[trigger] inp@[a])@[0] != (
                    #[trigger] inp@[b])@[0],
            decreases inp@.len() - i,
        {
            let mut j: usize = i + 1;
            while j < inp.len()
                invariant
                    0 <= i < j <= inp@.len(),
                    forall|a: int| 0 <= a < inp@.len() ==> (#[trigger] inp@[a])@.len() >= 1,
                    forall|a: int, b: int|
                        0 <= a < i && 0 <= b < inp@.len() && a != b ==> (#[trigger] inp@[a])@[0]
                            != (#[trigger] inp@[b])@[0],
                    forall|b: int|
                        i < b < j ==> (#[trigger] inp@[b])@[0] != inp@[i as int]@[0],
                decreases inp@.len() - j,
            {
                if inp[i][0] == inp[j][0] {
                    proof {
                        assert(share_views(inp@)[i as int] == inp@[i as int]@);
                        assert(share_views(inp@)[j as int] == inp@[j as int]@);
                        assert(!distinct_abscissae(share_views(inp@)));
                    }
                    return Err(SharingError::ReconstructFailure);
                }
                j = j + 1;
            }
            i = i + 1;
        }
        proof {
            assert(distinct_abscissae(share_views(inp@))) by {
                assert forall|a: int, b: int|
                    0 <= a < inp@.len() && 0 <= b < inp@.len() && a != b implies (
                #[trigger] share_views(inp@)[a])[0] != (#[trigger] share_views(inp@)[b])[0] by {
                    assert(share_views(inp@)[a] == inp@[a]@);
                    assert(share_views(inp@)[b] == inp@[b]@);
                }
            }
        }
        match sss_reconstruct(inp) {
            Some(d) => Ok(d),
            None => Err(SharingError::ReconstructFailure),
        }
    }
}

} // verus!
