use crucible::env::{
    prng_step, advance_ledger_clock, advance_timestamp, ledgers_covering, Duration, FailedCallResult,
    LedgerClockError, Stroops, XlmAmountError,
};
use crucible::state::PackedState;
use crucible::storage_size::{check_size_limit, size_for_type};

#[test]
fn durations_convert_to_seconds() {
    assert_eq!(Duration::seconds(5).as_seconds(), 5);
    assert_eq!(Duration::minutes(2).as_seconds(), 120);
    assert_eq!(Duration::hours(1).as_seconds(), 3600);
    assert_eq!(Duration::days(1).as_seconds(), 86_400);
    assert_eq!(Duration::weeks(1).as_seconds(), 604_800);
    let d: Duration = std::time::Duration::from_millis(2_500).into();
    assert_eq!(d.as_seconds(), 2);
}

#[test]
fn xlm_amounts_parse_to_stroops() {
    assert_eq!(Stroops::parse_xlm("1.5").unwrap().as_stroops(), 15_000_000);
    assert_eq!(Stroops::parse_xlm(" 2 ").unwrap().as_stroops(), 20_000_000);
    assert_eq!(Stroops::parse_xlm("0.0000001").unwrap().as_stroops(), 1);
    assert_eq!(Stroops::from_xlm_str("3").as_stroops(), 30_000_000);
    assert_eq!(Stroops::xlm(2).as_stroops(), 20_000_000);
    assert_eq!(Stroops::from_parts(1, 5).as_stroops(), 10_000_005);
}

#[test]
fn malformed_xlm_amounts_are_refused() {
    assert_eq!(Stroops::parse_xlm("  ").unwrap_err(), XlmAmountError::Empty);
    assert_eq!(Stroops::parse_xlm("abc").unwrap_err(), XlmAmountError::InvalidAmount);
    assert_eq!(Stroops::parse_xlm("-1").unwrap_err(), XlmAmountError::Negative);
    assert_eq!(
        Stroops::parse_xlm("1.2x").unwrap_err(),
        XlmAmountError::InvalidFraction
    );
    assert_eq!(
        Stroops::parse_xlm("1.12345678").unwrap_err(),
        XlmAmountError::TooManyDecimals
    );
}

#[test]
fn the_ledger_clock_moves_sequence_and_time_together() {
    assert_eq!(advance_ledger_clock(10, 1000, 0, 5), Ok((10, 1000)));
    assert_eq!(advance_ledger_clock(10, 1000, 3, 5), Ok((13, 1015)));
    assert_eq!(
        advance_ledger_clock(u32::MAX, 0, 1, 5),
        Err(LedgerClockError::SequenceOverflow)
    );
    assert_eq!(
        advance_ledger_clock(0, u64::MAX, 1, 5),
        Err(LedgerClockError::TimestampOverflow)
    );
    assert_eq!(advance_timestamp(1, 2), Ok(3));
    assert_eq!(ledgers_covering(11, 5), Ok(3));
    assert_eq!(ledgers_covering(10, 5), Ok(2));
}

#[test]
fn a_failed_call_keeps_its_message() {
    let failed = FailedCallResult::from_run(true, Some("boom".to_string()));
    assert!(failed.did_fail());
    assert_eq!(failed.panic_message(), Some("boom"));
    let ok = FailedCallResult::from_run(false, Some("ignored".to_string()));
    assert!(!ok.did_fail());
    assert_eq!(ok.panic_message(), None);
}

#[test]
fn packed_state_round_trips_its_fields() {
    let s = PackedState::new(true, false, 200, 0xDEAD_BEEF);
    assert!(s.flag1());
    assert!(!s.flag2());
    assert_eq!(s.small_int(), 200);
    assert_eq!(s.large_int(), 0xDEAD_BEEF);
}

#[test]
fn sizes_go_by_type_name() {
    assert_eq!(size_for_type("bool", None, 1), 1);
    assert_eq!(size_for_type("i32", None, 4), 4);
    assert_eq!(size_for_type("u128", None, 16), 16);
    assert_eq!(size_for_type("soroban_sdk::Address", None, 80), 40);
    assert_eq!(size_for_type("soroban_sdk::address::Address", None, 80), 80);
    assert_eq!(size_for_type("soroban_sdk::String", Some(12), 24), 12);
    assert_eq!(size_for_type("my::Thing", None, 24), 24);
}

#[test]
fn the_size_limit_reports_both_numbers() {
    assert_eq!(check_size_limit(4, 1024), Ok(()));
    assert_eq!(
        check_size_limit(4, 1),
        Err("assert_storage_entry_size_limit! failed: estimated size of 4 bytes exceeds the limit of 1 bytes".to_string())
    );
}

#[test]
fn the_prng_stream_is_an_xorshift() {
    assert_eq!(prng_step(0), 0);
    assert_eq!(prng_step(1), 1_082_269_761);
    assert_eq!(prng_step(1_082_269_761), 1_152_992_998_833_853_505);
}

#[test]
fn advancing_the_clock_twice_is_advancing_it_once_by_the_sum() {
    let (s1, t1) = advance_ledger_clock(100, 5_000, 3, 5).unwrap();
    let (s2, t2) = advance_ledger_clock(s1, t1, 4, 5).unwrap();
    assert_eq!(advance_ledger_clock(100, 5_000, 7, 5), Ok((s2, t2)));
}

#[test]
fn xlm_amount_parsing_accepts_well_formed_text_only() {
    let inputs = ["100.5", "0.0000001", "999999999", "invalid", "", "-10"];
    let parsed: Vec<Option<i128>> = inputs
        .iter()
        .map(|s| Stroops::parse_xlm(s).ok().map(|v| v.as_stroops()))
        .collect();
    assert_eq!(
        parsed,
        vec![
            Some(1_005_000_000),
            Some(1),
            Some(9_999_999_990_000_000),
            None,
            None,
            None
        ]
    );
}
