use crucible::env::ProtocolVersion;

#[test]
fn test_protocol_version_enum_values() {
    assert_eq!(ProtocolVersion::V20.value(), 20);
    assert_eq!(ProtocolVersion::V21.value(), 21);
    assert_eq!(ProtocolVersion::V22.value(), 22);
}

#[test]
fn test_protocol_version_all_versions() {
    let versions: Vec<u32> = ProtocolVersion::all().iter().map(|v| v.value()).collect();
    assert_eq!(versions, vec![20, 21, 22]);
}

#[test]
fn test_protocol_version_max_supported() {
    assert_eq!(ProtocolVersion::max_supported(), ProtocolVersion::V22);
}

#[test]
fn test_protocol_version_from_u32() {
    assert_eq!(ProtocolVersion::from(20), ProtocolVersion::V20);
    assert_eq!(ProtocolVersion::from(21), ProtocolVersion::V21);
    assert_eq!(ProtocolVersion::from(22), ProtocolVersion::V22);
}

#[test]
fn test_protocol_version_display() {
    assert_eq!(ProtocolVersion::V20.to_display_string(), "Protocol 20");
    assert_eq!(ProtocolVersion::V21.to_display_string(), "Protocol 21");
    assert_eq!(ProtocolVersion::V22.to_display_string(), "Protocol 22");
}

#[test]
fn unsupported_protocol_numbers_are_refused() {
    assert_eq!(ProtocolVersion::try_from_u32(19), None);
    assert_eq!(ProtocolVersion::try_from_u32(23), None);
    assert_eq!(ProtocolVersion::try_from_u32(21), Some(ProtocolVersion::V21));
}

#[test]
fn a_version_converts_back_to_its_number() {
    for v in ProtocolVersion::all() {
        let n: u32 = u32::from(v);
        assert_eq!(ProtocolVersion::from(n), v);
    }
}
