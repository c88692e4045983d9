use crucible::storage_size::{check_size_limit, size_for_type};

/// The estimate for a value that is not a Soroban string, given its type's
/// name as the compiler spells it.
fn estimate<T>(name: &str, value: &T) -> usize {
    size_for_type(name, None, std::mem::size_of_val(value))
}

#[test]
fn test_estimate_size_bool() {
    let v = true;
    assert_eq!(estimate("bool", &v), 1);
}

#[test]
fn test_estimate_size_i32() {
    let v = 42i32;
    assert_eq!(estimate("i32", &v), 4);
}

#[test]
fn test_assert_storage_entry_size_limit_passes_for_small_value() {
    let v: u32 = 42;
    assert!(check_size_limit(estimate("u32", &v), 1024).is_ok());
}

#[test]
fn a_value_over_the_limit_is_reported() {
    let v: u32 = 42;
    assert_eq!(
        check_size_limit(estimate("u32", &v), 1).unwrap_err(),
        "assert_storage_entry_size_limit! failed: estimated size of 4 bytes exceeds the limit of 1 bytes"
    );
}

#[test]
fn sizes_follow_the_wire_format_of_each_type() {
    assert_eq!(size_for_type("soroban_sdk::Address", None, 32), 40);
    assert_eq!(size_for_type("i128", None, 16), 16);
    assert_eq!(size_for_type("u64", None, 8), 8);
    assert_eq!(size_for_type("soroban_sdk::String", Some(12), 8), 12);
    assert_eq!(size_for_type("my::Struct", None, 24), 24);
}
