use crucible::cost::{format_with_commas, CostReport};

#[test]
fn test_new() {
    let r = CostReport::new(1000, 500);
    assert_eq!(r.instructions(), 1000);
}

#[test]
fn test_commas() {
    assert_eq!(format_with_commas(1234), "1,234");
}

#[test]
fn commas_group_every_three_digits() {
    assert_eq!(format_with_commas(0), "0");
    assert_eq!(format_with_commas(999), "999");
    assert_eq!(format_with_commas(1000), "1,000");
    assert_eq!(format_with_commas(1234567), "1,234,567");
    assert_eq!(format_with_commas(u64::MAX), "18,446,744,073,709,551,615");
}

#[test]
fn the_fee_is_one_stroop_per_hundred_instructions() {
    assert_eq!(CostReport::new(1999, 0).fee_stroops(), 19);
    assert_eq!(CostReport::new(99, 0).fee_stroops(), 0);
}

#[test]
fn the_report_has_three_lines() {
    let r = CostReport::new(1_234_567, 2048);
    assert_eq!(r.memory_bytes(), 2048);
    assert_eq!(
        r.report(),
        "Instructions: 1,234,567\nMemory: 2,048 bytes\nFee: 12345 stroops"
    );
}
