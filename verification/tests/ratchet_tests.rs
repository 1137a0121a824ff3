use dione_lib::bundle::{AliceBob, BundleBuilder, IdKey, PartnerBundle};
use dione_lib::magic::{MagicRatchet, MagicRatchetError};
use dione_lib::session::SessionBuilder;
use dione_lib::sharing::SharingError;

fn setup_pair() -> (MagicRatchet, MagicRatchet) {
    let enc_rk = vec![0u8; 32];
    let shka = vec![1u8; 32];
    let snhkb = vec![2u8; 32];
    let address_rks = vec![vec![3u8; 32], vec![4u8; 32], vec![5u8; 32]];
    let number_shares = 3;
    let (bob, enc_pk, address_pks) =
        MagicRatchet::init_bob(&enc_rk, &shka, &snhkb, number_shares, &address_rks);
    let alice = MagicRatchet::init_alice(
        &enc_rk,
        &enc_pk,
        &shka,
        &snhkb,
        number_shares,
        &address_rks,
        &address_pks,
    );
    (alice, bob)
}

#[test]
fn mod_basic_encrypt_decrypt() {
    let data = b"Hello World".to_vec();
    let (mut magic_ratchet_alice, mut magic_ratchet_bob) = setup_pair();
    let encrypted = magic_ratchet_alice.send(&data, b"").unwrap();
    let decrypted = magic_ratchet_bob.recv(&encrypted, b"").unwrap();
    assert_eq!(data, decrypted)
}

#[test]
fn address_test() {
    let (mut magic_ratchet_alice, mut magic_ratchet_bob) = setup_pair();
    let encrypted = magic_ratchet_alice.send(b"", b"").unwrap();
    let decrypted = magic_ratchet_bob.recv(&encrypted, b"").unwrap();
    assert_eq!(b"".to_vec(), decrypted);
    let send_addresses: Vec<Vec<u8>> = magic_ratchet_alice
        .send(b"", b"")
        .unwrap()
        .iter()
        .map(|e| e.0.clone())
        .collect();
    magic_ratchet_bob.next_addresses().unwrap();
    let recv_addresses = magic_ratchet_bob.next_addresses().unwrap();
    assert_eq!(send_addresses, recv_addresses);
}

#[test]
fn alice_send() {
    let (mut magic_ratchet_alice, mut magic_ratchet_bob) = setup_pair();
    let encrypted = magic_ratchet_alice.send(b"", b"").unwrap();
    let decrypted = magic_ratchet_bob.recv(&encrypted, b"").unwrap();
    assert_eq!(b"".to_vec(), decrypted);
    let data = b"This is data".to_vec();
    let encrypted = magic_ratchet_bob.send(&data, b"ad").unwrap();
    let decrypted = magic_ratchet_alice.recv(&encrypted, b"ad").unwrap();
    assert_eq!(decrypted, data)
}

#[test]
fn import_export() {
    let (magic_ratchet_alice, magic_ratchet_bob) = setup_pair();

    let ex_magic_ratchet_bob = magic_ratchet_bob.export();
    let im_magic_ratchet_bob = MagicRatchet::import(&ex_magic_ratchet_bob).unwrap();
    assert_eq!(im_magic_ratchet_bob, magic_ratchet_bob);

    let ex_magic_ratchet_alice = magic_ratchet_alice.export();
    let im_magic_ratchet_alice = MagicRatchet::import(&ex_magic_ratchet_alice).unwrap();
    assert_eq!(im_magic_ratchet_alice, magic_ratchet_alice);
}

#[test]
fn export_import_behaviour() {
    // An imported state behaves like the original: same addresses, same
    // ability to continue the conversation.
    let (mut alice, mut bob) = setup_pair();
    let encrypted = alice.send(b"Hello World", b"").unwrap();
    let decrypted = bob.recv(&encrypted, b"").unwrap();
    assert_eq!(decrypted, b"Hello World".to_vec());

    let mut alice2 = MagicRatchet::import(&alice.export()).unwrap();
    let mut bob2 = MagicRatchet::import(&bob.export()).unwrap();
    assert_eq!(alice2, alice);
    assert_eq!(bob2, bob);

    let encrypted = bob2.send(b"This is data", b"ad").unwrap();
    let decrypted = alice2.recv(&encrypted, b"ad").unwrap();
    assert_eq!(decrypted, b"This is data".to_vec());
}

#[test]
fn empty_message_roundtrip() {
    let (mut alice, mut bob) = setup_pair();
    let encrypted = alice.send(b"", b"").unwrap();
    let decrypted = bob.recv(&encrypted, b"").unwrap();
    assert_eq!(decrypted, Vec::<u8>::new());
}

#[test]
fn out_of_order_receive() {
    let (mut alice, mut bob) = setup_pair();
    // Establish the receiving chains first.
    let opening = alice.send(b"", b"").unwrap();
    bob.recv(&opening, b"").unwrap();
    let m1 = alice.send(b"first", b"").unwrap();
    let m2 = alice.send(b"second", b"").unwrap();
    let m3 = alice.send(b"third", b"").unwrap();
    assert_eq!(bob.recv(&m3, b"").unwrap(), b"third".to_vec());
    assert_eq!(bob.recv(&m1, b"").unwrap(), b"first".to_vec());
    assert_eq!(bob.recv(&m2, b"").unwrap(), b"second".to_vec());
}

#[test]
fn poll_ceiling() {
    let (mut alice, mut bob) = setup_pair();
    let opening = alice.send(b"", b"").unwrap();
    bob.recv(&opening, b"").unwrap();
    // Polling is allowed until the chain counter passes the skip ceiling:
    // the poll that reaches it still succeeds, the one after is refused.
    for _ in 0..101 {
        bob.next_addresses().unwrap();
    }
    let refused = bob.next_addresses();
    assert_eq!(refused.unwrap_err(), MagicRatchetError::SkippedTooMany);
}

#[test]
fn tamper_detection() {
    let (mut alice, mut bob) = setup_pair();
    let mut encrypted = alice.send(b"Hello World", b"").unwrap();
    // Find a share whose content block is not empty and flip one bit in its
    // last content byte.
    let mut flipped = false;
    for share in encrypted.iter_mut() {
        let parsed = dione_lib::wire::decode_share(&share.1).unwrap();
        if !parsed.1.is_empty() {
            let last = share.1.len() - 1;
            share.1[last] ^= 1;
            flipped = true;
            break;
        }
    }
    assert!(flipped);
    let before = bob.export();
    let err = bob.recv(&encrypted, b"").unwrap_err();
    assert_eq!(err, MagicRatchetError::ContentAuthFailed);
    assert_eq!(bob.export(), before);
    // A correctly delivered message still decrypts afterwards.
    let encrypted = alice.send(b"still fine", b"").unwrap();
    assert_eq!(bob.recv(&encrypted, b"").unwrap(), b"still fine".to_vec());
}

#[test]
fn dropped_share() {
    let (mut alice, mut bob) = setup_pair();
    let mut encrypted = alice.send(b"Hello World", b"").unwrap();
    encrypted.pop().unwrap();
    let before = bob.export();
    let err = bob.recv(&encrypted, b"").unwrap_err();
    assert_eq!(
        err,
        MagicRatchetError::ShamirReconstructError(SharingError::ReconstructFailure)
    );
    assert_eq!(bob.export(), before);
}

#[test]
fn bundle_build() {
    let number_shares = 3;
    let partner = AliceBob::Alice;
    let identity_key = IdKey::default();
    let bundler = BundleBuilder::default()
        .number_shares(number_shares)
        .identity_key(identity_key.clone())
        .partner(partner)
        .build()
        .unwrap();

    let alice_bundle = match bundler {
        PartnerBundle::Alice(d) => d,
        PartnerBundle::Bob(_) => {
            panic!("This is all wrong!")
        },
    };

    assert_eq!(alice_bundle.number_shares, number_shares);

    let partner = AliceBob::Bob;
    let identity_key = IdKey::default();

    let bundler = BundleBuilder::default()
        .number_shares(number_shares)
        .identity_key(identity_key.clone())
        .partner(partner)
        .build()
        .unwrap();

    let mut bob_bundle = match bundler {
        PartnerBundle::Bob(d) => d,
        PartnerBundle::Alice(_) => {
            panic!("This is all wrong!")
        },
    };

    let (bob, bob_ratchet) = bob_bundle.init(&alice_bundle).unwrap();
    let mut bob_session = SessionBuilder::default()
        .magic_ratchet(bob_ratchet)
        .partner(bob)
        .build();

    let (alice, alice_ratchet) = alice_bundle.init(&bob_bundle).unwrap();
    let mut alice_session = SessionBuilder::default()
        .magic_ratchet(alice_ratchet)
        .partner(alice)
        .build();
    assert_ne!(bob_session, alice_session);

    let encrypted = alice_session.make_init_message().unwrap();
    bob_session.process_init_message(&encrypted).unwrap();
}

#[test]
fn session_roundtrip() {
    let (alice_ratchet, bob_ratchet) = setup_pair();
    let mut alice = SessionBuilder::default()
        .partner(AliceBob::Alice)
        .magic_ratchet(alice_ratchet)
        .build();
    let mut bob = SessionBuilder::default()
        .partner(AliceBob::Bob)
        .magic_ratchet(bob_ratchet)
        .build();
    let opening = alice.make_init_message().unwrap();
    bob.process_init_message(&opening).unwrap();
    let message = alice.send_message(b"over the store").unwrap();
    assert_eq!(bob.recv_message(&message).unwrap(), b"over the store".to_vec());
    // The session serialises and comes back behaviourally equal.
    let exported = bob.export();
    let mut bob2 = dione_lib::session::Session::import(&exported).unwrap();
    assert_eq!(bob2, bob);
    let message = alice.send_message(b"again").unwrap();
    assert_eq!(bob2.recv_message(&message).unwrap(), b"again".to_vec());
}

#[test]
fn close_wipes_secrets() {
    let (mut alice, mut bob) = setup_pair();
    let encrypted = alice.send(b"parting message", b"").unwrap();
    let decrypted = bob.recv(&encrypted, b"").unwrap();
    assert_eq!(decrypted, b"parting message".to_vec());
    alice.close();
    assert!(alice.enc_ratchet.rk.iter().all(|&b| b == 0));
    assert!(alice.enc_ratchet.dhs.private_key.iter().all(|&b| b == 0));
    assert!(alice.enc_ratchet.cks.is_none());
    assert!(alice.enc_ratchet.hks.is_none());
    assert!(alice.enc_ratchet.mkskipped.is_empty());
    assert!(alice.address_ratchets.is_empty());
    assert!(alice.skipped_addresses.is_empty());
    bob.close();
    assert!(bob.enc_ratchet.rk.iter().all(|&b| b == 0));
    assert!(bob.enc_ratchet.ckr.is_none());
}

#[test]
fn session_close() {
    let (alice, _bob) = setup_pair();
    let mut session = SessionBuilder::default()
        .partner(AliceBob::Alice)
        .magic_ratchet(alice)
        .build();
    session.close();
    assert!(session.magic_ratchet.enc_ratchet.rk.iter().all(|&b| b == 0));
    assert!(session.magic_ratchet.address_ratchets.is_empty());
}

#[test]
fn single_share_session() {
    let enc_rk = vec![9u8; 32];
    let shka = vec![8u8; 32];
    let snhkb = vec![7u8; 32];
    let address_rks = vec![vec![6u8; 32]];
    let (mut bob, enc_pk, address_pks) =
        MagicRatchet::init_bob(&enc_rk, &shka, &snhkb, 1, &address_rks);
    let mut alice = MagicRatchet::init_alice(
        &enc_rk,
        &enc_pk,
        &shka,
        &snhkb,
        1,
        &address_rks,
        &address_pks,
    );
    let encrypted = alice.send(b"one share is enough", b"").unwrap();
    assert_eq!(encrypted.len(), 1);
    let decrypted = bob.recv(&encrypted, b"").unwrap();
    assert_eq!(decrypted, b"one share is enough".to_vec());
}
