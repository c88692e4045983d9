use crucible::auth_tree::{
    verify_auth_tree, AuthMismatch, AuthorizedCall, ExpectedAuth, ExpectedInvocation,
    RecordedAuth, RecordedInvocation,
};

fn call(contract: &str, function: &str, args: &[u8]) -> AuthorizedCall {
    AuthorizedCall::Contract {
        contract: contract.to_string(),
        function: format!("Symbol({function})"),
        args: args.to_vec(),
        args_text: format!("Vec({args:?})"),
    }
}

fn recorded(c: AuthorizedCall, subs: Vec<RecordedInvocation>) -> RecordedInvocation {
    RecordedInvocation {
        function: c,
        sub_invocations: subs,
    }
}

fn expected(contract: &str, function: &str, args: &[u8]) -> ExpectedInvocation {
    ExpectedInvocation::new(
        contract.to_string(),
        format!("Symbol({function})"),
        args.to_vec(),
        format!("Vec({args:?})"),
    )
}

fn escrow_tree() -> Vec<RecordedAuth> {
    vec![RecordedAuth {
        address: "GALICE".to_string(),
        invocation: recorded(
            call("CESCROW", "deposit", &[1, 2]),
            vec![recorded(call("CTOKEN", "transfer", &[3]), vec![])],
        ),
    }]
}

fn escrow_expectation() -> Vec<ExpectedAuth> {
    vec![ExpectedAuth {
        address: "GALICE".to_string(),
        invocation: expected("CESCROW", "deposit", &[1, 2])
            .with_sub_invocations(vec![expected("CTOKEN", "transfer", &[3])]),
    }]
}

#[test]
fn a_matching_tree_reports_no_mismatches() {
    let report = verify_auth_tree(&escrow_expectation(), &escrow_tree());
    assert!(report.matches());
    assert!(report.mismatches().is_empty());
    assert_eq!(report.diagnostic(), "authorization tree matched");
    assert_eq!(report.assert_matches(), Ok(()));
    assert_eq!(
        report.recorded_tree(),
        "  auth[0] GALICE =>\n    CESCROW.Symbol(deposit)(Vec([1, 2]))\n      CTOKEN.Symbol(transfer)(Vec([3]))\n"
    );
}

#[test]
fn a_wrong_signer_is_reported_as_a_mismatch() {
    let mut exp = escrow_expectation();
    exp[0].address = "GBOB".to_string();
    let report = verify_auth_tree(&exp, &escrow_tree());
    assert_eq!(
        report.mismatches(),
        &[AuthMismatch::Mismatched {
            path: "auth[0].address".to_string(),
            expected: "GBOB".to_string(),
            found: "GALICE".to_string(),
        }]
    );
}

#[test]
fn wrong_arguments_are_reported_as_a_mismatch() {
    let exp = vec![ExpectedAuth {
        address: "GALICE".to_string(),
        invocation: expected("CESCROW", "deposit", &[9])
            .with_sub_invocations(vec![expected("CTOKEN", "transfer", &[3])]),
    }];
    let report = verify_auth_tree(&exp, &escrow_tree());
    assert_eq!(
        report.mismatches(),
        &[AuthMismatch::Mismatched {
            path: "auth[0]".to_string(),
            expected: "CESCROW.Symbol(deposit)(Vec([9]))".to_string(),
            found: "CESCROW.Symbol(deposit)(Vec([1, 2]))".to_string(),
        }]
    );
}

#[test]
fn an_undeclared_sub_invocation_is_reported_with_its_path() {
    let exp = vec![ExpectedAuth {
        address: "GALICE".to_string(),
        invocation: expected("CESCROW", "deposit", &[1, 2]),
    }];
    let report = verify_auth_tree(&exp, &escrow_tree());
    assert_eq!(
        report.mismatches(),
        &[AuthMismatch::Unexpected {
            path: "auth[0].sub[0]".to_string(),
            found: "CTOKEN.Symbol(transfer)(Vec([3]))".to_string(),
        }]
    );
}

#[test]
fn an_expected_sub_invocation_that_never_happened_is_reported() {
    let exp = vec![ExpectedAuth {
        address: "GALICE".to_string(),
        invocation: expected("CESCROW", "deposit", &[1, 2]).with_sub_invocations(vec![
            expected("CTOKEN", "transfer", &[3]),
            expected("CTOKEN", "burn", &[]),
        ]),
    }];
    let report = verify_auth_tree(&exp, &escrow_tree());
    assert_eq!(
        report.mismatches(),
        &[AuthMismatch::Missing {
            path: "auth[0].sub[1]".to_string(),
            expected: "CTOKEN.Symbol(burn)(Vec([]))".to_string(),
        }]
    );
}

#[test]
fn expecting_an_authorization_that_never_occurred_is_missing() {
    let report = verify_auth_tree(&escrow_expectation(), &[]);
    assert_eq!(
        report.mismatches(),
        &[AuthMismatch::Missing {
            path: "auth[0]".to_string(),
            expected: "GALICE => CESCROW.Symbol(deposit)(Vec([1, 2]))".to_string(),
        }]
    );
    assert_eq!(
        report.diagnostic(),
        "authorization tree did not match:\n  missing authorization at auth[0]\n    expected: GALICE => CESCROW.Symbol(deposit)(Vec([1, 2]))\n    found:    <nothing>\n\nrecorded authorization tree:\n  <no authorizations recorded>\n"
    );
}

#[test]
fn an_empty_expectation_rejects_any_recorded_authorization() {
    let report = verify_auth_tree(&[], &escrow_tree());
    assert_eq!(
        report.mismatches(),
        &[AuthMismatch::Unexpected {
            path: "auth[0]".to_string(),
            found: "GALICE => CESCROW.Symbol(deposit)(Vec([1, 2]))".to_string(),
        }]
    );
    assert!(report.assert_matches().is_err());
}

#[test]
fn a_non_contract_authorization_never_satisfies_an_expectation() {
    let rec = vec![RecordedAuth {
        address: "GALICE".to_string(),
        invocation: recorded(AuthorizedCall::Other("CreateContract".to_string()), vec![]),
    }];
    let exp = vec![ExpectedAuth {
        address: "GALICE".to_string(),
        invocation: expected("CESCROW", "deposit", &[]),
    }];
    let report = verify_auth_tree(&exp, &rec);
    assert_eq!(
        report.mismatches(),
        &[AuthMismatch::Mismatched {
            path: "auth[0]".to_string(),
            expected: "CESCROW.Symbol(deposit)(Vec([]))".to_string(),
            found: "CreateContract".to_string(),
        }]
    );
}

#[test]
fn a_mismatch_renders_as_an_indented_block() {
    let m = AuthMismatch::Unexpected {
        path: "auth[1]".to_string(),
        found: "X".to_string(),
    };
    assert_eq!(
        m.render(),
        "  unexpected authorization at auth[1]\n    expected: <nothing>\n    found:    X"
    );
}
