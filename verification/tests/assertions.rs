use crucible::assertions::parse_contract_error_code;

#[test]
fn parses_contract_error_code_from_host_payload() {
    assert_eq!(
        parse_contract_error_code("HostError: Error(Contract, #7)"),
        Some(7)
    );
    assert_eq!(
        parse_contract_error_code("HostError: Error(Contract, #4294967295)"),
        Some(u32::MAX)
    );
}

#[test]
fn ignores_non_contract_error_payloads() {
    assert_eq!(
        parse_contract_error_code("HostError: Error(WasmVm, InvalidAction)"),
        None
    );
    assert_eq!(parse_contract_error_code("plain old panic"), None);
}

#[test]
fn an_error_code_past_u32_is_not_a_contract_code() {
    assert_eq!(
        parse_contract_error_code("HostError: Error(Contract, #4294967296)"),
        None
    );
}
