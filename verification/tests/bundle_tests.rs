use dione_lib::bundle::{
    AliceBob, AliceKeyBundle, AliceKeyBundleBytes, BobKeyBundle, BobKeyBundleBytes, BundleBuilder,
    BundleBuilderError, IdKey, PartnerBundle,
};

#[test]
fn alice_strip_test() {
    let alice = AliceKeyBundle::new(&IdKey::default());
    let bob = BobKeyBundle::new(&IdKey::default());
    let alice_striped = alice.strip();
    let sk1 = bob.key_exchange(&alice);
    let sk2 = bob.key_exchange(&alice_striped);
    assert_eq!(sk1, sk2)
}

#[test]
fn bob_strip_test() {
    let bob = BobKeyBundle::new(&IdKey::default());
    let alice = AliceKeyBundle::new(&IdKey::default());
    let bob_striped = bob.strip();
    let sk1 = alice.key_exchange(&bob).expect("Signature is invalid");
    let sk2 = alice.key_exchange(&bob_striped).expect("Signature is invalid");
    assert_eq!(sk1, sk2)
}

#[test]
fn mod_generate() {
    let identity_key = IdKey::default();
    let _alice_key_bundle = AliceKeyBundle::new(&identity_key);
}

#[test]
fn bob_generate() {
    let identity_key = IdKey::default();
    let _ = BobKeyBundle::new(&identity_key);
}

#[test]
fn alice_key_bundle_bytes() {
    let identity_key = IdKey::default();
    let akb = AliceKeyBundle::new(&identity_key);
    let akbb = AliceKeyBundleBytes::from_bundle(&akb);
    let akbr = akbb.to_bundle().unwrap();
    assert_eq!(akbr.ik.to_bytes(), akb.ik.to_bytes());
    assert_eq!(
        AliceKeyBundleBytes::from_bundle(&akbr).ek,
        AliceKeyBundleBytes::from_bundle(&akb).ek
    );
}

#[test]
fn mod_ser_des() {
    let identity_key = IdKey::default();
    let akb = AliceKeyBundle::new(&identity_key);
    let akbb = AliceKeyBundleBytes::from_bundle(&akb);
    let akbr = akbb.to_bundle().expect("error deserializing");
    let again = AliceKeyBundleBytes::from_bundle(&akbr);
    assert_eq!(again.ik, akbb.ik);
    assert_eq!(again.ek, akbb.ek);
}

#[test]
fn bob_key_bundle_bytes() {
    let identity_key = IdKey::default();
    let bkb = BobKeyBundle::new(&identity_key);
    let bkbb = BobKeyBundleBytes::from_bundle(&bkb);
    let bkbr = bkbb.to_bundle().unwrap();
    let again = BobKeyBundleBytes::from_bundle(&bkbr);
    assert_eq!(again.ik, bkbb.ik);
    assert_eq!(again.spk, bkbb.spk);
    assert_eq!(again.opk, bkbb.opk);
    assert_eq!(again.signature, bkbb.signature);
}

#[test]
fn bob_mod_ser_des() {
    let identity_key = IdKey::default();
    let bkb = BobKeyBundle::new(&identity_key);
    let bkbb = BobKeyBundleBytes::from_bundle(&bkb);
    let bkbr = bkbb.to_bundle().expect("Error deserializing");
    let cka = AliceKeyBundle::new(&IdKey::default());
    // The parsed bundle still answers a key exchange like the original.
    let sk1 = bkb.key_exchange(&cka);
    let sk2 = bkbr.key_exchange(&cka);
    assert_eq!(sk1, sk2);
}

#[test]
fn key_exchange_unstriped() {
    let ika = IdKey::default();
    let ikb = IdKey::default();
    let alice_key_bundle = AliceKeyBundle::new(&ika);
    let bob_key_bundle = BobKeyBundle::new(&ikb);
    let cka = alice_key_bundle
        .key_exchange(&bob_key_bundle)
        .expect("Signature probably invalid");
    let ckb = bob_key_bundle.key_exchange(&alice_key_bundle);
    assert_eq!(cka, ckb)
}

#[test]
fn key_exchange_striped() {
    let ika = IdKey::default();
    let ikb = IdKey::default();
    let alice = AliceKeyBundle::new(&ika);
    let bob = BobKeyBundle::new(&ikb);
    let alice_s = alice.strip();
    let bob_s = bob.strip();
    let sk1 = alice.key_exchange(&bob_s).expect("Signature is invalid");
    let sk2 = bob.key_exchange(&alice_s);
    assert_eq!(sk1, sk2)
}

#[test]
fn tampered_signature_fails() {
    let ika = IdKey::default();
    let ikb = IdKey::default();
    let alice = AliceKeyBundle::new(&ika);
    let mut bob = BobKeyBundle::new(&ikb).strip();
    let last = bob.signature.len() - 1;
    bob.signature[last] ^= 1;
    assert!(alice.key_exchange(&bob).is_err());
}

#[test]
fn builder_missing_fields() {
    match BundleBuilder::default().build() {
        Err(e) => assert_eq!(e, BundleBuilderError::Partner),
        Ok(_) => panic!("built with nothing set"),
    }
    match BundleBuilder::default().partner(AliceBob::Alice).build() {
        Err(e) => assert_eq!(e, BundleBuilderError::IdKey),
        Ok(_) => panic!("built without an identity key"),
    }
    match BundleBuilder::default()
        .partner(AliceBob::Alice)
        .identity_key(IdKey::default())
        .build()
    {
        Err(e) => assert_eq!(e, BundleBuilderError::NumberShares),
        Ok(_) => panic!("built without a share count"),
    }
}

#[test]
fn alice_bundle_bytes_roundtrip() {
    let built = BundleBuilder::default()
        .partner(AliceBob::Alice)
        .identity_key(IdKey::default())
        .number_shares(3)
        .build()
        .unwrap();
    let alice = match built {
        PartnerBundle::Alice(b) => b,
        PartnerBundle::Bob(_) => panic!("asked for Alice"),
    };
    let bytes = alice.to_bytes();
    let parsed = dione_lib::bundle::AliceBundle::from_bytes(&bytes).unwrap();
    assert_eq!(parsed.number_shares, alice.number_shares);
    assert_eq!(parsed.to_bytes(), bytes);
}

#[test]
fn bob_bundle_bytes_roundtrip() {
    let built = BundleBuilder::default()
        .partner(AliceBob::Bob)
        .identity_key(IdKey::default())
        .number_shares(2)
        .build()
        .unwrap();
    let bob = match built {
        PartnerBundle::Bob(b) => b,
        PartnerBundle::Alice(_) => panic!("asked for Bob"),
    };
    let bytes = bob.to_bytes();
    let parsed = dione_lib::bundle::BobBundle::from_bytes(&bytes).unwrap();
    assert_eq!(parsed.number_shares, bob.number_shares);
    assert_eq!(parsed.to_bytes(), bytes);
}
