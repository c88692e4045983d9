use crucible::crypto::corrupted;
use crucible::env::MockKeyPair;
use k256::ecdsa::signature::hazmat::PrehashVerifier;
use k256::ecdsa::signature::Verifier;

#[test]
fn ed25519_signatures_verify_and_corruption_is_rejected() {
    let kp = MockKeyPair::generate_ed25519(42);
    let message = b"authorize_tx_nonce_1001";
    let public: [u8; 32] = kp.public_key_bytes[..].try_into().unwrap();
    let key = ed25519_dalek::VerifyingKey::from_bytes(&public).unwrap();
    let sig = kp.signature(message).unwrap();
    assert!(key
        .verify(message, &ed25519_dalek::Signature::from_bytes(&sig))
        .is_ok());
    let bad = corrupted(sig);
    assert!(key
        .verify(message, &ed25519_dalek::Signature::from_bytes(&bad))
        .is_err());
}

#[test]
fn secp256k1_signatures_verify_and_recover_the_signing_key() {
    let kp = MockKeyPair::generate_secp256k1(101);
    let key = k256::ecdsa::VerifyingKey::from_sec1_bytes(&kp.public_key_sec1()).unwrap();

    let message = b"tx_hash_secp256k1";
    let sig = kp.signature(message).unwrap();
    let parsed = k256::ecdsa::Signature::from_slice(&sig).unwrap();
    assert!(key.verify(message, &parsed).is_ok());

    let digest = [0x5a_u8; 32];
    let (sig, id) = kp.prehash_recoverable_signature(&digest).unwrap();
    let parsed = k256::ecdsa::Signature::from_slice(&sig).unwrap();
    assert!(key.verify_prehash(&digest, &parsed).is_ok());
    let recovery = k256::ecdsa::RecoveryId::from_byte(u8::try_from(id).unwrap()).unwrap();
    let recovered = k256::ecdsa::VerifyingKey::recover_from_prehash(&digest, &parsed, recovery).unwrap();
    assert_eq!(recovered, key);

    let bad = corrupted(sig);
    let outcome = k256::ecdsa::Signature::from_slice(&bad)
        .ok()
        .and_then(|s| k256::ecdsa::VerifyingKey::recover_from_prehash(&digest, &s, recovery).ok());
    assert_ne!(outcome, Some(key));
}

#[test]
fn secp256r1_signatures_verify_and_corruption_is_rejected() {
    let kp = MockKeyPair::generate_secp256r1(202);
    let key = p256::ecdsa::VerifyingKey::from_sec1_bytes(&kp.public_key_sec1()).unwrap();
    let digest = [0x33_u8; 32];
    let sig = kp.prehash_signature(&digest).unwrap();
    let parsed = p256::ecdsa::Signature::from_slice(&sig).unwrap();
    assert!(key.verify_prehash(&digest, &parsed).is_ok());
    let bad = corrupted(sig);
    let rejected = match p256::ecdsa::Signature::from_slice(&bad) {
        Ok(s) => key.verify_prehash(&digest, &s).is_err(),
        Err(_) => true,
    };
    assert!(rejected);
}
