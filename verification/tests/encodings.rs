use crucible::assertions::RevertAssertion;
use crucible::zk::{curve_tag_from_g1_bytes, g1_add, decode_scalar, encode_scalar, g1_mul, g2_mul, PairingCurve, G1, G2};
use soroban_sdk::Error;

#[test]
fn g1_points_round_trip_through_their_encoding() {
    let p = g1_mul(G1::generator(), 7);
    let bytes = p.to_bytes(PairingCurve::Bn254);
    assert_eq!(bytes.len(), 64);
    assert_eq!(G1::from_bytes(&bytes), p);
    assert_eq!(curve_tag_from_g1_bytes(&bytes), Some(PairingCurve::Bn254.tag()));
    let other = p.to_bytes(PairingCurve::Bls12_381);
    assert_eq!(curve_tag_from_g1_bytes(&other), Some(PairingCurve::Bls12_381.tag()));
}

#[test]
fn g2_points_round_trip_through_their_encoding() {
    let q = g2_mul(G2::generator(), 5);
    let bytes = q.to_bytes(PairingCurve::Bls12_381);
    assert_eq!(bytes.len(), 128);
    assert_eq!(G2::from_bytes(&bytes), q);
    assert_eq!(G2::from_bytes(&[]), G2::identity());
}

#[test]
fn scalars_round_trip_through_their_encoding() {
    let bytes = encode_scalar(0x0102_0304_0506_0708);
    assert_eq!(bytes.len(), 32);
    assert_eq!(bytes[0], 0x08);
    assert_eq!(decode_scalar(&bytes), 0x0102_0304_0506_0708);
    assert_eq!(decode_scalar(&bytes[..3]), 0x0006_0708);
    assert_eq!(curve_tag_from_g1_bytes(&[]), None);
}

#[test]
fn a_revert_with_the_expected_contract_error_verifies() {
    let reverted = RevertAssertion::from_run(
        true,
        Some("HostError: Error(Contract, #7)".to_string()),
    );
    assert_eq!(reverted.error_code(), Some(7));
    assert!(reverted.with_error(Error::from_contract_error(7)).verify().is_ok());
}

#[test]
fn a_revert_with_another_contract_error_is_reported() {
    let reverted = RevertAssertion::from_run(
        true,
        Some("HostError: Error(Contract, #3)".to_string()),
    );
    let err = reverted
        .with_error(Error::from_contract_error(7))
        .verify()
        .unwrap_err();
    assert!(err.contains('7'), "{err}");
    assert!(err.contains('3'), "{err}");
}

#[test]
fn a_call_that_did_not_revert_fails_verification() {
    let ok = RevertAssertion::from_run(false, Some("ignored".to_string()));
    assert!(!ok.reverted());
    assert_eq!(ok.message(), None);
    assert!(ok.with_any_error().verify().is_err());
}

#[test]
fn a_message_expectation_looks_for_the_text() {
    let reverted = RevertAssertion::from_run(true, Some("insufficient balance".to_string()));
    assert!(reverted.with_message_containing("balance").verify().is_ok());
    let reverted = RevertAssertion::from_run(true, Some("insufficient balance".to_string()));
    assert!(reverted.with_message_containing("allowance").verify().is_err());
}

#[test]
fn with_message_containing_matches_the_panic_text() {
    let reverted = RevertAssertion::from_run(true, Some("time lock has not expired".to_string()));
    assert!(reverted.with_message_containing("time lock").verify().is_ok());
}

#[test]
fn post_revert_assertions_run_after_a_matching_revert() {
    let reverted = RevertAssertion::from_run(
        true,
        Some("HostError: Error(Contract, #2)".to_string()),
    );
    let balance = 500_i128;
    let observed = reverted
        .with_error_code(2)
        .and_assert(|| balance - 100)
        .unwrap();
    assert_eq!(observed, 400);

    let succeeded = RevertAssertion::from_run(false, None);
    assert!(succeeded
        .with_any_error()
        .and_assert(|| -> i128 { panic!("this closure must not run") })
        .is_err());
}

#[test]
fn and_assert_reports_as_verify_does() {
    let run = || RevertAssertion::from_run(true, Some("HostError: Error(Contract, #3)".to_string()));
    let by_verify = run().with_error_code(2).verify().unwrap_err();
    let by_and_assert = run().with_error_code(2).and_assert(|| 0_u32).unwrap_err();
    assert_eq!(by_and_assert, by_verify);

    let not_reverted = RevertAssertion::from_run(false, None)
        .with_error_code(2)
        .and_assert(|| 0_u32)
        .unwrap_err();
    assert!(
        not_reverted.starts_with("expect_revert failed: the call did not revert.\n\nExpected : "),
        "{not_reverted}"
    );
}

#[test]
fn a_message_expectation_is_described_with_its_quoted_text() {
    let report = RevertAssertion::from_run(false, None)
        .with_message_containing("say \"hi\"")
        .verify()
        .unwrap_err();
    assert_eq!(
        report,
        "expect_revert failed: the call did not revert.\n\nExpected : a revert whose message contains \"say \\\"hi\\\"\""
    );
}

#[test]
fn g1_addition_laws_hold_on_canonical_points() {
    let p = g1_mul(G1::generator(), 3);
    let q = g1_mul(G1::generator(), 11);
    let r = g1_mul(G1::generator(), u64::MAX);
    assert_eq!(g1_add(G1::identity(), q), q);
    assert_eq!(g1_add(p, G1::identity()), p);
    assert_eq!(g1_add(p, q), g1_add(q, p));
    assert_eq!(g1_add(g1_add(p, q), r), g1_add(p, g1_add(q, r)));
}
