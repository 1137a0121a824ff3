use dione_lib::header::{gen_header, Header};
use dione_lib::sharing::block::BlockSharing;
use dione_lib::sharing::shamir::ShamirSecretSharing;
use dione_lib::sharing::{SharingAlgorithm, SharingError, ThresholdSharingAlgorithm};

#[test]
fn share_test() {
    let algo = BlockSharing::default();
    let inp = b"Hello World".to_vec();
    let shares = algo.share(&inp, 3).unwrap();

    let reconstructed = algo.reconstruct(&shares).unwrap();
    assert_eq!(inp, reconstructed)
}

#[test]
fn block_share_shapes() {
    let algo = BlockSharing::default();
    // One block holds everything.
    let shares = algo.share(b"abc", 1).unwrap();
    assert_eq!(shares.len(), 1);
    assert_eq!(algo.reconstruct(&shares).unwrap(), b"abc".to_vec());
    // More blocks than bytes still partition exactly.
    let shares = algo.share(b"ab", 5).unwrap();
    assert_eq!(shares.len(), 5);
    let total: usize = shares.iter().map(|s| s.len()).sum();
    assert_eq!(total, 2);
    assert_eq!(algo.reconstruct(&shares).unwrap(), b"ab".to_vec());
    // Empty data gives empty blocks.
    let shares = algo.share(b"", 4).unwrap();
    assert_eq!(shares.len(), 4);
    assert_eq!(algo.reconstruct(&shares).unwrap(), Vec::<u8>::new());
}

#[test]
fn success_reconstruction() {
    let data = b"Hello World This Is Just A Test";
    let sharer = ShamirSecretSharing;
    let shares = sharer.share(data, 10, 5).unwrap();
    let recon = sharer.reconstruct(&shares).unwrap();
    assert_eq!(recon, data.to_vec())
}

#[test]
fn basic_failure() {
    let data = b"Hello World This Is Just A Test";
    let sharer = ShamirSecretSharing;
    let mut shares = sharer.share(data, 10, 10).unwrap();
    shares.pop().unwrap();
    let odata = sharer.reconstruct(&shares).unwrap();
    assert_ne!(data.to_vec(), odata)
}

#[test]
fn threshold_panic() {
    let data = b"This will fail anyway";
    let sharer = ShamirSecretSharing;
    let shares = sharer.share(data, 5, 6);
    assert_eq!(shares.unwrap_err(), SharingError::WrongThresholdAndNumber(5, 6))
}

#[test]
fn zero_shares_refused() {
    let sharer = ShamirSecretSharing;
    let shares = sharer.share(b"anything", 0, 0);
    assert_eq!(shares.unwrap_err(), SharingError::WrongThresholdAndNumber(0, 0))
}

#[test]
fn threshold_subset_reconstruction() {
    let data = b"Hello World This Is Just A Test";
    let sharer = ShamirSecretSharing;
    let shares = sharer.share(data, 5, 3).unwrap();
    // Any three of the five shares recover the secret.
    let subset = vec![shares[4].clone(), shares[1].clone(), shares[3].clone()];
    assert_eq!(sharer.reconstruct(&subset).unwrap(), data.to_vec());
}

#[test]
fn header_ser_des() {
    let ad = b"";
    let header = gen_header();
    let serialized = header.concat(ad);
    let created = Header::from_wire(serialized.as_slice()).unwrap().1;
    assert_eq!(header, created)
}

#[test]
fn test_eq_header() {
    let header1 = gen_header();
    let header2 = gen_header();
    assert_ne!(header1, header2)
}

#[test]
fn debug_header() {
    let header = gen_header();
    let _string = format!("{:?}", header);
}

#[test]
fn gen_ex_header() {
    let ad = vec![0u8];
    let ex_header = Header { public_key: vec![1u8], pn: 0, n: 0 };
    let _string = format!("{:?}", (ad, ex_header));
}

#[test]
fn dec_header() {
    let header = gen_header();
    let (encrypted, nonce) = header.encrypt(&[0u8; 32], &[0u8]);
    let decrypted = Header::decrypt(&Some(vec![1u8; 32]), &encrypted, &nonce);
    assert_eq!(None, decrypted)
}

#[test]
fn header_carries_ad() {
    let header = gen_header();
    let serialized = header.concat(b"aad bytes");
    let (ad, created) = Header::from_wire(serialized.as_slice()).unwrap();
    assert_eq!(ad, b"aad bytes".to_vec());
    assert_eq!(created, header);
}

#[test]
fn single_share_roundtrip() {
    let sharer = dione_lib::sharing::shamir::ShamirSecretSharing::default();
    let data = b"lone secret".to_vec();
    let shares =
        dione_lib::sharing::ThresholdSharingAlgorithm::share(&sharer, &data, 1, 1).unwrap();
    assert_eq!(shares.len(), 1);
    assert_eq!(shares[0].len(), data.len() + 1);
    let back =
        dione_lib::sharing::ThresholdSharingAlgorithm::reconstruct(&sharer, &shares).unwrap();
    assert_eq!(back, data);
}
