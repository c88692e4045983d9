use crucible::treasury::{ContractError, TreasuryState};

const TREASURY: &str = "CTREASURY";
const TOKEN: &str = "CTOKEN";
const ADMIN1: &str = "GADMIN1";
const ADMIN2: &str = "GADMIN2";

fn deploy_treasury() -> TreasuryState {
    let mut state = TreasuryState::new();
    state
        .initialize(vec![ADMIN1.to_string(), ADMIN2.to_string()], 2)
        .unwrap();
    state
}

fn both_admins() -> Vec<String> {
    vec![ADMIN1.to_string(), ADMIN2.to_string()]
}

#[test]
fn test_deposit_and_balance() {
    let mut state = deploy_treasury();
    state.deposit(TREASURY, TOKEN, 1_000).unwrap();
    assert_eq!(state.balance_of(TREASURY, TOKEN), 1_000);
}

#[test]
fn test_successful_withdraw_with_quorum_auth() {
    let mut state = deploy_treasury();
    state.deposit(TREASURY, TOKEN, 1_000).unwrap();
    state.withdraw(TREASURY, TOKEN, 400, &both_admins()).unwrap();
    assert_eq!(state.balance_of(TREASURY, TOKEN), 600);
}

#[test]
fn test_withdraw_fails_below_quorum() {
    let mut state = deploy_treasury();
    state.deposit(TREASURY, TOKEN, 1_000).unwrap();
    // only one signer — quorum requires 2
    assert_eq!(
        state.withdraw(TREASURY, TOKEN, 500, &[ADMIN1.to_string()]),
        Err(ContractError::InsufficientQuorum)
    );
    assert_eq!(state.balance_of(TREASURY, TOKEN), 1_000);
}

#[test]
fn test_withdraw_fails_with_non_admin_signers() {
    let mut state = deploy_treasury();
    state.deposit(TREASURY, TOKEN, 1_000).unwrap();
    let randos = vec!["GRANDO1".to_string(), "GRANDO2".to_string()];
    assert_eq!(
        state.withdraw(TREASURY, TOKEN, 500, &randos),
        Err(ContractError::InsufficientQuorum)
    );
}

#[test]
fn test_successful_flash_loan() {
    let mut state = deploy_treasury();
    state.deposit(TREASURY, TOKEN, 10_000).unwrap();
    let loan = state.begin_flash_loan(TREASURY, TOKEN, 10_000).unwrap();
    assert_eq!(loan.fee, 10);
    assert_eq!(loan.repayment, 10_010);
    state.end_flash_loan(TREASURY, TOKEN, loan);
    assert_eq!(state.balance_of(TREASURY, TOKEN), 10_010);
}

#[test]
fn test_reentrancy_guard_protection() {
    let mut state = deploy_treasury();
    state.deposit(TREASURY, TOKEN, 5_000).unwrap();
    state.withdraw(TREASURY, TOKEN, 1_000, &both_admins()).unwrap();
    assert_eq!(state.balance_of(TREASURY, TOKEN), 4_000);
}

#[test]
fn calls_made_during_a_flash_loan_are_refused_by_the_guard() {
    let mut state = deploy_treasury();
    state.deposit(TREASURY, TOKEN, 5_000).unwrap();
    let loan = state.begin_flash_loan(TREASURY, TOKEN, 2_000).unwrap();
    assert_eq!(loan.fee, 2);
    assert_eq!(
        state.withdraw(TREASURY, TOKEN, 1_000, &both_admins()),
        Err(ContractError::ReentrancyGuardLocked)
    );
    assert_eq!(
        state.begin_flash_loan(TREASURY, TOKEN, 1),
        Err(ContractError::ReentrancyGuardLocked)
    );
    state.end_flash_loan(TREASURY, TOKEN, loan);
    assert_eq!(state.balance_of(TREASURY, TOKEN), 5_002);
    state.withdraw(TREASURY, TOKEN, 2, &both_admins()).unwrap();
    assert_eq!(state.balance_of(TREASURY, TOKEN), 5_000);
}

#[test]
fn flash_loans_are_refused_beyond_the_balance() {
    let mut state = deploy_treasury();
    state.deposit(TREASURY, TOKEN, 100).unwrap();
    assert_eq!(
        state.begin_flash_loan(TREASURY, TOKEN, 0),
        Err(ContractError::InsufficientBalance)
    );
    assert_eq!(
        state.begin_flash_loan(TREASURY, TOKEN, 101),
        Err(ContractError::InsufficientBalance)
    );
    let loan = state.begin_flash_loan(TREASURY, TOKEN, 100).unwrap();
    assert_eq!(loan.fee, 1);
    assert_eq!(loan.balance_before, 100);
}

#[test]
fn initialization_is_refused_as_the_contract_refuses_it() {
    let mut state = TreasuryState::new();
    assert_eq!(state.initialize(vec![], 1), Err(ContractError::EmptyAdmins));
    assert_eq!(
        state.initialize(vec![ADMIN1.to_string()], 2),
        Err(ContractError::InvalidQuorum)
    );
    assert_eq!(
        state.initialize(vec![ADMIN1.to_string()], 0),
        Err(ContractError::InvalidQuorum)
    );
    assert_eq!(
        state.initialize(vec![ADMIN1.to_string(), ADMIN1.to_string()], 1),
        Err(ContractError::DuplicateAdmin)
    );
    state.initialize(both_admins(), 1).unwrap();
    assert_eq!(
        state.initialize(both_admins(), 1),
        Err(ContractError::AlreadyInitialized)
    );
}

#[test]
fn deposits_that_would_leave_a_negative_balance_are_refused() {
    let mut state = deploy_treasury();
    state.deposit(TREASURY, TOKEN, 50).unwrap();
    assert_eq!(
        state.deposit(TREASURY, TOKEN, -51),
        Err(ContractError::InsufficientBalance)
    );
    assert_eq!(state.balance_of(TREASURY, TOKEN), 50);
    state.deposit(TREASURY, TOKEN, -50).unwrap();
    assert_eq!(state.balance_of(TREASURY, TOKEN), 0);
    assert_eq!(state.balance_of(ADMIN1, TOKEN), 0);
}

#[test]
fn deposit_then_withdraw_leaves_the_difference() {
    for (deposit, withdrawal) in [(1_i128, 0_i128), (9_999_999, 4_321_000), (500, 500)] {
        let mut state = deploy_treasury();
        state.deposit(TREASURY, TOKEN, deposit).unwrap();
        assert_eq!(state.balance_of(TREASURY, TOKEN), deposit);
        state
            .withdraw(TREASURY, TOKEN, withdrawal, &both_admins())
            .unwrap();
        assert_eq!(state.balance_of(TREASURY, TOKEN), deposit - withdrawal);
    }
}
