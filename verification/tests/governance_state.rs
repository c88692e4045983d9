use crucible::governance::GovernanceState;

const ADMIN: &str = "GADMIN";
const VOTER: &str = "GVOTER";

fn with_proposal(now: u64) -> (GovernanceState, u64) {
    let mut dao = GovernanceState::new();
    dao.initialize(ADMIN, 1_000_000);
    let deadline = now + 1000;
    let id = dao
        .create_proposal(
            ADMIN,
            "Test Proposal".to_string(),
            "Desc".to_string(),
            deadline,
            now,
        )
        .unwrap();
    (dao, id)
}

#[test]
fn test_double_voting_prevention() {
    let (mut dao, prop_id) = with_proposal(0);
    dao.set_voting_power(VOTER, 500);

    // First vote should succeed
    assert!(dao.vote(VOTER, prop_id, 100, true, 0).is_ok());

    // Second vote should fail with Already voted
    assert_eq!(dao.vote(VOTER, prop_id, 100, true, 0), Err("Already voted"));
}

#[test]
fn proposals_are_numbered_from_one_and_stored() {
    let (mut dao, first) = with_proposal(50);
    assert_eq!(first, 1);
    let second = dao
        .create_proposal(VOTER, "B".to_string(), "d".to_string(), 10, 60)
        .unwrap();
    assert_eq!(second, 2);
    let p = dao.get_proposal(1).unwrap();
    assert_eq!(p.title, "Test Proposal");
    assert_eq!(p.created_at, 50);
    assert_eq!(p.deadline, 1050);
    assert!(!p.executed);
    assert_eq!(dao.get_proposal(2).unwrap().proposer, VOTER);
    assert_eq!(dao.get_proposal(3).err(), Some("Proposal not found"));
}

#[test]
fn votes_are_refused_in_the_contracts_order() {
    let (mut dao, id) = with_proposal(0);
    assert_eq!(dao.vote(VOTER, 9, 1, true, 0), Err("Proposal not found"));
    assert_eq!(dao.vote(VOTER, id, 1, true, 1001), Err("Voting period ended"));
    assert_eq!(dao.vote(VOTER, id, 0, true, 0), Err("Vote amount must be positive"));
    assert_eq!(dao.vote(VOTER, id, 1, true, 0), Err("Insufficient voting power"));
    dao.set_voting_power(VOTER, 10);
    assert_eq!(dao.vote(VOTER, id, 11, true, 0), Err("Insufficient voting power"));
    dao.vote(VOTER, id, 10, false, 0).unwrap();
    let p = dao.get_proposal(id).unwrap();
    assert_eq!(p.votes_for, 0);
    assert_eq!(p.votes_against, 10);
}

#[test]
fn execution_marks_a_passed_proposal_once() {
    let (mut dao, id) = with_proposal(0);
    dao.set_voting_power(VOTER, 100);
    dao.vote(VOTER, id, 60, true, 10).unwrap();
    assert_eq!(dao.execute_proposal(id, 1000), Err("Voting period not ended"));
    assert_eq!(dao.execute_proposal(id, 1001), Ok(true));
    assert!(dao.get_proposal(id).unwrap().executed);
    assert_eq!(
        dao.execute_proposal(id, 2000),
        Err("Proposal already executed")
    );
}

#[test]
fn a_rejected_proposal_is_not_marked_executed() {
    let (mut dao, id) = with_proposal(0);
    dao.set_voting_power(VOTER, 100);
    dao.vote(VOTER, id, 60, false, 10).unwrap();
    assert_eq!(dao.execute_proposal(id, 1001), Ok(false));
    assert!(!dao.get_proposal(id).unwrap().executed);
    assert_eq!(dao.execute_proposal(id, 1002), Ok(false));
}

#[test]
fn delegation_moves_power_between_accounts() {
    let mut dao = GovernanceState::new();
    dao.initialize(ADMIN, 1);
    assert_eq!(
        dao.delegate_voting_power(ADMIN, VOTER, 5),
        Err("Insufficient power to delegate")
    );
    assert_eq!(
        dao.delegate_voting_power(ADMIN, VOTER, 0),
        Err("Amount must be positive")
    );
    dao.set_voting_power(ADMIN, 30);
    dao.delegate_voting_power(ADMIN, VOTER, 12).unwrap();
    assert_eq!(dao.voting_power(ADMIN), 18);
    assert_eq!(dao.voting_power(VOTER), 12);
    dao.delegate_voting_power(VOTER, VOTER, 12).unwrap();
    assert_eq!(dao.voting_power(VOTER), 12);
}
