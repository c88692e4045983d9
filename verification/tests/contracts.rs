use crucible::governance::{check_execution, check_vote, delegate, record_vote};
use crucible::proxy::{initialize_check, ProxyError};
use crucible::treasury::{
    check_guard, check_initialization, check_withdrawal, flash_loan_fee, valid_signer_count,
    ContractError,
};
use crucible::zk_verifier::{check_proof_shape, check_verification_key, ZkError};

fn names(xs: &[&str]) -> Vec<String> {
    xs.iter().map(|x| x.to_string()).collect()
}

#[test]
fn treasury_error_codes_match_the_contract() {
    assert_eq!(ContractError::NotAdmin.code(), 1);
    assert_eq!(ContractError::DuplicateAdmin.code(), 7);
    assert_eq!(ContractError::ReentrancyGuardLocked.code(), 8);
}

#[test]
fn treasury_initialization_is_checked_in_order() {
    let admins = names(&["A", "B", "C"]);
    assert_eq!(
        check_initialization(true, &admins, 2),
        Err(ContractError::AlreadyInitialized)
    );
    assert_eq!(
        check_initialization(false, &[], 1),
        Err(ContractError::EmptyAdmins)
    );
    assert_eq!(
        check_initialization(false, &admins, 0),
        Err(ContractError::InvalidQuorum)
    );
    assert_eq!(
        check_initialization(false, &admins, 4),
        Err(ContractError::InvalidQuorum)
    );
    assert_eq!(
        check_initialization(false, &names(&["A", "B", "A"]), 2),
        Err(ContractError::DuplicateAdmin)
    );
    assert_eq!(check_initialization(false, &admins, 3), Ok(()));
}

#[test]
fn only_admin_signers_count_toward_quorum() {
    let admins = names(&["A", "B", "C"]);
    assert_eq!(valid_signer_count(&names(&["A", "X", "C"]), &admins), 2);
    assert_eq!(valid_signer_count(&names(&["A", "A"]), &admins), 2);
    assert_eq!(valid_signer_count(&[], &admins), 0);
}

#[test]
fn withdrawals_need_quorum_and_balance() {
    assert_eq!(
        check_withdrawal(1, 2, 100, 10),
        Err(ContractError::InsufficientQuorum)
    );
    assert_eq!(
        check_withdrawal(2, 2, 5, 10),
        Err(ContractError::InsufficientBalance)
    );
    assert_eq!(check_withdrawal(2, 2, 100, 10), Ok(90));
}

#[test]
fn flash_loans_cost_a_thousandth_and_at_least_one() {
    assert_eq!(flash_loan_fee(1), 1);
    assert_eq!(flash_loan_fee(999), 1);
    assert_eq!(flash_loan_fee(1000), 1);
    assert_eq!(flash_loan_fee(25_000), 25);
}

#[test]
fn the_reentrancy_guard_refuses_while_locked() {
    assert_eq!(check_guard(true), Err(ContractError::ReentrancyGuardLocked));
    assert_eq!(check_guard(false), Ok(()));
}

#[test]
fn governance_votes_are_checked_in_order() {
    assert_eq!(check_vote(5, None, 1, 10, false), Err("Proposal not found"));
    assert_eq!(
        check_vote(11, Some(10), 1, 10, false),
        Err("Voting period ended")
    );
    assert_eq!(
        check_vote(10, Some(10), 0, 10, false),
        Err("Vote amount must be positive")
    );
    assert_eq!(
        check_vote(10, Some(10), 11, 10, false),
        Err("Insufficient voting power")
    );
    assert_eq!(check_vote(10, Some(10), 5, 10, true), Err("Already voted"));
    assert_eq!(check_vote(10, Some(10), 5, 10, false), Ok(()));
}

#[test]
fn a_double_vote_is_refused() {
    assert_eq!(check_vote(1, Some(2), 3, 3, false), Ok(()));
    assert_eq!(check_vote(1, Some(2), 3, 3, true), Err("Already voted"));
}

#[test]
fn votes_are_added_to_their_side() {
    assert_eq!(record_vote(10, 4, 3, true), (13, 4));
    assert_eq!(record_vote(10, 4, 3, false), (10, 7));
}

#[test]
fn proposals_pass_on_a_majority_after_the_deadline() {
    assert_eq!(
        check_execution(10, Some(10), false, 5, 1),
        Err("Voting period not ended")
    );
    assert_eq!(
        check_execution(11, Some(10), true, 5, 1),
        Err("Proposal already executed")
    );
    assert_eq!(check_execution(11, Some(10), false, 5, 1), Ok(true));
    assert_eq!(check_execution(11, Some(10), false, 5, 5), Ok(false));
    assert_eq!(check_execution(11, None, false, 5, 5), Err("Proposal not found"));
}

#[test]
fn delegation_moves_power_without_changing_the_total() {
    assert_eq!(delegate(10, 0, 0), Err("Amount must be positive"));
    assert_eq!(delegate(10, 0, 11), Err("Insufficient power to delegate"));
    assert_eq!(delegate(10, 5, 4), Ok((6, 9)));
}

#[test]
fn zk_verifier_checks_proof_shapes() {
    assert_eq!(ZkError::InvalidProofFormat.code(), 3);
    assert_eq!(
        check_proof_shape(31, 64, 64, 2, 1),
        Err(ZkError::InvalidProofFormat)
    );
    assert_eq!(
        check_proof_shape(64, 128, 64, 3, 1),
        Err(ZkError::InvalidPublicInputs)
    );
    assert_eq!(check_proof_shape(64, 128, 64, 2, 1), Ok(()));
    assert_eq!(
        check_verification_key(0),
        Err(ZkError::InvalidPublicInputs)
    );
    assert_eq!(check_verification_key(1), Ok(()));
}

#[test]
fn a_proxy_initializes_once() {
    assert_eq!(initialize_check(false), Ok(()));
    assert_eq!(
        initialize_check(true),
        Err(ProxyError::AlreadyInitialized)
    );
    assert_eq!(ProxyError::InvalidWasmHash.code(), 4);
}
