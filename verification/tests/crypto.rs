use crucible::crypto::corrupted;
use crucible::env::{CryptoCurve, MockCryptoRegistry, MockKeyPair};

#[test]
fn test_mock_crypto_registry_lookup_and_env_integration() {
    let kp1 = MockKeyPair::generate(CryptoCurve::Ed25519, 77);
    assert_eq!(kp1.curve, CryptoCurve::Ed25519);

    let mut registry = MockCryptoRegistry::new();
    registry.register("alice_wallet", kp1.clone());
    let fetched = registry
        .get("alice_wallet")
        .expect("registered keypair should exist");
    assert_eq!(fetched.seed, 77);

    let secp_kp = registry.secp256k1_keypair("bob_wallet", 88);
    assert_eq!(secp_kp.curve, CryptoCurve::Secp256k1);
    assert_eq!(secp_kp.seed, 88);
}

#[test]
fn ed25519_seed_bytes_follow_the_seed() {
    let kp = MockKeyPair::generate_ed25519(0x0807_0605_0403_0201);
    let expected: Vec<u8> = vec![
        1, 2, 3, 4, 5, 6, 7, 8, 9, 11, 13, 15, 17, 19, 21, 23, 17, 19, 21, 23, 25, 27, 29, 31, 25,
        27, 29, 31, 33, 35, 37, 39,
    ];
    assert_eq!(kp.secret_key_bytes, expected);
    assert_eq!(kp.public_key_bytes.len(), 32);
}

#[test]
fn ed25519_seed_bytes_wrap_around() {
    let kp = MockKeyPair::generate_ed25519(u64::MAX);
    assert_eq!(kp.secret_key_bytes[8], 255u8.wrapping_add(8));
    assert_eq!(kp.secret_key_bytes[31], 255u8.wrapping_add(31));
}

#[test]
fn keypairs_are_deterministic_per_seed() {
    for curve in [
        CryptoCurve::Ed25519,
        CryptoCurve::Secp256k1,
        CryptoCurve::Secp256r1,
    ] {
        let a = MockKeyPair::generate(curve, 5);
        let b = MockKeyPair::generate(curve, 5);
        let c = MockKeyPair::generate(curve, 6);
        assert_eq!(a.public_key_bytes, b.public_key_bytes);
        assert_eq!(a.secret_key_bytes, b.secret_key_bytes);
        assert_ne!(a.public_key_bytes, c.public_key_bytes);
    }
}

#[test]
fn ecdsa_keys_hold_64_coordinate_bytes() {
    for kp in [
        MockKeyPair::generate_secp256k1(101),
        MockKeyPair::generate_secp256r1(202),
    ] {
        assert_eq!(kp.public_key_bytes.len(), 64);
        assert_eq!(kp.secret_key_bytes.len(), 32);
        let sec1 = kp.public_key_sec1();
        assert_eq!(sec1.len(), 65);
        assert_eq!(sec1[0], 0x04);
        assert_eq!(&sec1[1..], &kp.public_key_bytes[..]);
    }
}

#[test]
fn signatures_are_deterministic_and_depend_on_the_message() {
    for curve in [
        CryptoCurve::Ed25519,
        CryptoCurve::Secp256k1,
        CryptoCurve::Secp256r1,
    ] {
        let kp = MockKeyPair::generate(curve, 42);
        let a = kp.signature(b"authorize_tx_nonce_1001").unwrap();
        let b = kp.signature(b"authorize_tx_nonce_1001").unwrap();
        let c = kp.signature(b"authorize_tx_nonce_1002").unwrap();
        assert_eq!(a, b);
        assert_ne!(a, c);
    }
}

#[test]
fn prehash_signing_needs_an_ecdsa_key() {
    let digest = [7u8; 32];
    assert!(MockKeyPair::generate_ed25519(1).prehash_signature(&digest).is_none());
    assert!(MockKeyPair::generate_secp256k1(1).prehash_signature(&digest).is_some());
    assert!(MockKeyPair::generate_secp256r1(1).prehash_signature(&digest).is_some());
    assert!(MockKeyPair::generate_secp256r1(1)
        .prehash_recoverable_signature(&digest)
        .is_none());
    let (sig, id) = MockKeyPair::generate_secp256k1(1)
        .prehash_recoverable_signature(&digest)
        .unwrap();
    assert!(id < 4);
    assert_eq!(
        Some(sig),
        MockKeyPair::generate_secp256k1(1).prehash_signature(&digest)
    );
}

#[test]
fn an_invalid_secret_key_cannot_sign() {
    let mut kp = MockKeyPair::generate_secp256k1(3);
    kp.secret_key_bytes = vec![0u8; 32];
    assert!(kp.signature(b"m").is_none());
    let mut ed = MockKeyPair::generate_ed25519(3);
    ed.secret_key_bytes.truncate(31);
    assert!(ed.signature(b"m").is_none());
}

#[test]
fn corrupting_flips_the_last_byte_only() {
    let sig = MockKeyPair::generate_ed25519(9).signature(b"msg").unwrap();
    let bad = corrupted(sig);
    assert_ne!(bad, sig);
    assert_eq!(bad[..63], sig[..63]);
    assert_eq!(bad[63], sig[63] ^ 0xff);
    assert_eq!(corrupted(bad), sig);
}

#[test]
fn a_registered_name_is_not_regenerated() {
    let mut registry = MockCryptoRegistry::new();
    let first = registry.ed25519_keypair("carol", 1).clone();
    let again = registry.ed25519_keypair("carol", 2).clone();
    assert_eq!(first.seed, 1);
    assert_eq!(again.seed, 1);
    registry.register("carol", MockKeyPair::generate_ed25519(3));
    assert_eq!(registry.get("carol").unwrap().seed, 3);
    assert!(registry.get("dave").is_none());
}

#[test]
fn an_ed25519_public_key_is_not_its_secret() {
    let kp = MockKeyPair::generate_ed25519(42);
    assert_ne!(kp.public_key_bytes, kp.secret_key_bytes);
    assert_ne!(
        MockKeyPair::generate_ed25519(42).public_key_bytes,
        MockKeyPair::generate_ed25519(43).public_key_bytes
    );
}
