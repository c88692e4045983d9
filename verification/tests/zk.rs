use crucible::zk::{
    g1_add, g1_mul, g2_mul, generate_groth16_proof, generate_plonk_proof, pairing,
    sample_verifying_key, tamper_groth16_proof, tamper_plonk_proof, verify_groth16, verify_plonk,
    PairingCurve, G1, G2,
};

fn assert_bilinear(curve: PairingCurve) {
    let _ = curve;
    let p = G1::generator();
    let q = G2::generator();
    let s = 9u64;
    let t = 4u64;
    assert_eq!(pairing(g1_mul(p, s), q), pairing(p, g2_mul(q, s)));
    assert_eq!(
        pairing(g1_add(g1_mul(p, s), g1_mul(p, t)), q),
        pairing(g1_mul(p, s), q).mul(pairing(g1_mul(p, t), q))
    );
}

#[test]
fn bn254_and_bls12_381_pairings_are_bilinear() {
    assert_bilinear(PairingCurve::Bn254);
    assert_bilinear(PairingCurve::Bls12_381);
}

#[test]
fn g1_identity_is_pairing_identity() {
    assert!(pairing(G1::identity(), G2::generator()).is_one());
    assert!(pairing(G1::generator(), G2::identity()).is_one());
}

#[test]
fn groth16_valid_proof_verifies_on_both_curves() {
    for curve in [PairingCurve::Bn254, PairingCurve::Bls12_381] {
        let vk = sample_verifying_key(curve, 2);
        let inputs = [4u64, 8];
        let proof = generate_groth16_proof(&vk, &inputs).unwrap();
        assert!(verify_groth16(&vk, &proof, &inputs));
    }
}

#[test]
fn groth16_tampered_proof_is_rejected() {
    let vk = sample_verifying_key(PairingCurve::Bn254, 1);
    let inputs = [6u64];
    let proof = generate_groth16_proof(&vk, &inputs).unwrap();
    let bad = tamper_groth16_proof(proof);
    assert!(!verify_groth16(&vk, &bad, &inputs));
}

#[test]
fn groth16_wrong_public_inputs_fail() {
    let vk = sample_verifying_key(PairingCurve::Bls12_381, 1);
    let proof = generate_groth16_proof(&vk, &[3]).unwrap();
    assert!(!verify_groth16(&vk, &proof, &[99]));
}

#[test]
fn groth16_rejects_cross_curve_proof() {
    let vk = sample_verifying_key(PairingCurve::Bn254, 1);
    let mut proof = generate_groth16_proof(&vk, &[1]).unwrap();
    proof.curve = PairingCurve::Bls12_381;
    assert!(!verify_groth16(&vk, &proof, &[1]));
}

#[test]
fn plonk_valid_and_negative_cases() {
    let proof = generate_plonk_proof(PairingCurve::Bls12_381, 42);
    assert!(verify_plonk(PairingCurve::Bls12_381, &proof, 42));
    assert!(!verify_plonk(
        PairingCurve::Bls12_381,
        &tamper_plonk_proof(proof),
        42
    ));
    assert!(!verify_plonk(PairingCurve::Bn254, &proof, 42));
}

#[test]
fn a_proof_for_the_wrong_number_of_inputs_is_not_generated() {
    let vk = sample_verifying_key(PairingCurve::Bn254, 2);
    assert!(generate_groth16_proof(&vk, &[1]).is_none());
}
