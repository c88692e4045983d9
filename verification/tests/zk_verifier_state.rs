use crucible::zk_verifier::{Proof, VerificationKey, ZkError, ZkVerifierState};

fn setup_verifier() -> ZkVerifierState {
    let mut verifier = ZkVerifierState::new();
    verifier.initialize("GADMIN").unwrap();
    verifier
}

fn g1_bytes(x: u64, y: u64) -> Vec<u8> {
    let mut raw = vec![0u8; 64];
    raw[0..8].copy_from_slice(&x.to_le_bytes());
    raw[8..16].copy_from_slice(&y.to_le_bytes());
    raw
}

fn g2_bytes(x0: u64) -> Vec<u8> {
    let mut raw = vec![0u8; 128];
    raw[0..8].copy_from_slice(&x0.to_le_bytes());
    raw
}

fn scalar_bytes(scalar: u64) -> Vec<u8> {
    let mut raw = vec![0u8; 32];
    raw[0..8].copy_from_slice(&scalar.to_le_bytes());
    raw
}

/// A Groth16 proof that satisfies e(A,B) = e(α,β)·e(L,γ)·e(C,δ) with A.x = 1,
/// so B.x0 = rhs.
fn valid_groth16(public_input: u64) -> (VerificationKey, Proof, Vec<Vec<u8>>) {
    let alpha_x = 3u64;
    let beta_x0 = 5u64;
    let gamma_x0 = 17u64;
    let delta_x0 = 19u64;
    let ic0_x = 11u64;
    let ic1_x = 13u64;
    let a_x = 1u64;
    let c_x = 7u64;
    let l_x = ic0_x.wrapping_add(public_input.wrapping_mul(ic1_x));
    let b_x0 = alpha_x
        .wrapping_mul(beta_x0)
        .wrapping_add(l_x.wrapping_mul(gamma_x0))
        .wrapping_add(c_x.wrapping_mul(delta_x0));

    let ic = vec![g1_bytes(ic0_x, 1), g1_bytes(ic1_x, 1)];
    let vk = VerificationKey {
        alpha_g1: g1_bytes(alpha_x, 1),
        beta_g2: g2_bytes(beta_x0),
        gamma_g2: g2_bytes(gamma_x0),
        delta_g2: g2_bytes(delta_x0),
        ic,
    };
    let proof = Proof {
        a: g1_bytes(a_x, 2),
        b: g2_bytes(b_x0),
        c: g1_bytes(c_x, 2),
    };
    (vk, proof, vec![scalar_bytes(public_input)])
}

#[test]
fn test_register_and_verify_zk_proof() {
    let mut verifier = setup_verifier();
    let (vk, proof, public_inputs) = valid_groth16(5);
    verifier.register_vk(101, vk).unwrap();
    assert_eq!(verifier.verify_proof(101, &proof, &public_inputs), Ok(true));
    assert_eq!(verifier.get_proof_count(), 1);
}

#[test]
fn test_verify_fails_with_invalid_public_inputs() {
    let mut verifier = setup_verifier();
    let vk = VerificationKey {
        alpha_g1: Vec::new(),
        beta_g2: Vec::new(),
        gamma_g2: Vec::new(),
        delta_g2: Vec::new(),
        ic: vec![g1_bytes(1, 1)],
    };
    verifier.register_vk(202, vk).unwrap();
    let proof = Proof {
        a: Vec::new(),
        b: Vec::new(),
        c: Vec::new(),
    };
    let result = verifier.verify_proof(202, &proof, &Vec::new());
    assert!(result.is_err());
}

#[test]
fn test_tampered_groth16_proof_is_rejected() {
    let mut verifier = setup_verifier();
    let (vk, mut proof, public_inputs) = valid_groth16(5);
    verifier.register_vk(303, vk).unwrap();
    // Tamper A.x so the pairing product no longer holds.
    proof.a = g1_bytes(2, 2);
    assert_eq!(verifier.verify_proof(303, &proof, &public_inputs), Ok(false));
    assert_eq!(verifier.get_proof_count(), 0);
}

#[test]
fn test_wrong_public_inputs_fail_pairing_check() {
    let mut verifier = setup_verifier();
    let (vk, proof, _) = valid_groth16(5);
    verifier.register_vk(404, vk).unwrap();
    let wrong_inputs = vec![scalar_bytes(99)];
    assert_eq!(verifier.verify_proof(404, &proof, &wrong_inputs), Ok(false));
}

#[test]
fn test_circuit_not_found() {
    let mut verifier = setup_verifier();
    let (_vk, proof, public_inputs) = valid_groth16(1);
    assert_eq!(
        verifier.verify_proof(999, &proof, &public_inputs),
        Err(ZkError::CircuitNotFound)
    );
}

#[test]
fn registration_needs_initialization_and_ic_points() {
    let mut verifier = ZkVerifierState::new();
    let (vk, _, _) = valid_groth16(1);
    assert_eq!(verifier.registrar(), Err(ZkError::NotAdmin));
    assert_eq!(verifier.register_vk(1, vk), Err(ZkError::NotAdmin));
    verifier.initialize("GADMIN").unwrap();
    assert_eq!(verifier.registrar(), Ok("GADMIN".to_string()));
    assert_eq!(verifier.initialize("GOTHER"), Err(ZkError::AlreadyInitialized));
    let (mut vk, _, _) = valid_groth16(1);
    vk.ic.clear();
    assert_eq!(verifier.register_vk(1, vk), Err(ZkError::InvalidPublicInputs));
}

#[test]
fn short_proof_points_are_refused_before_the_pairing_check() {
    let mut verifier = setup_verifier();
    let (vk, mut proof, public_inputs) = valid_groth16(5);
    verifier.register_vk(7, vk).unwrap();
    proof.c = scalar_bytes(7)[..31].to_vec();
    assert_eq!(
        verifier.verify_proof(7, &proof, &public_inputs),
        Err(ZkError::InvalidProofFormat)
    );
}

#[test]
fn a_later_registration_replaces_the_key_and_accepted_proofs_are_counted() {
    let mut verifier = setup_verifier();
    let (vk5, proof5, inputs5) = valid_groth16(5);
    let (vk6, proof6, inputs6) = valid_groth16(6);
    verifier.register_vk(1, vk5).unwrap();
    assert_eq!(verifier.verify_proof(1, &proof5, &inputs5), Ok(true));
    verifier.register_vk(1, vk6).unwrap();
    assert_eq!(verifier.verify_proof(1, &proof6, &inputs6), Ok(true));
    assert_eq!(verifier.verify_proof(1, &proof5, &inputs6), Ok(false));
    assert_eq!(verifier.get_proof_count(), 2);
}
