use oxidoc::version::{parse_u64, version_number_hash};

#[test]
fn test_compare_version_numbers() {
    let assert_second_newer = |a, b| {
        assert!(version_number_hash(a) < version_number_hash(b), "{} {}", a, b)
    };
    assert_second_newer("0.1.0", "0.2.0");
    assert_second_newer("0.1.0", "1.0.0");
    assert_second_newer("0.1.0", "1.0.1");
    assert_second_newer("0.0.1", "0.1.0");
}

#[test]
fn version_hash_values() {
    assert_eq!(version_number_hash("1.2.3"), (1 << 16) + (2 << 8) + 3);
    assert_eq!(version_number_hash("0.0.0"), 0);
    assert_eq!(version_number_hash("+1.0.0"), 1 << 16);
    // anything but three parts hashes to zero
    assert_eq!(version_number_hash("1.2"), 0);
    assert_eq!(version_number_hash("1.2.3.4"), 0);
    assert_eq!(version_number_hash(""), 0);
}

#[test]
fn equal_versions_hash_alike() {
    assert_eq!(version_number_hash("2.10.7"), version_number_hash("2.10.7"));
    assert!(version_number_hash("1.255.255") < version_number_hash("2.0.0"));
}

#[test]
fn parse_u64_accepts_what_str_parse_accepts() {
    for s in ["0", "7", "+7", "18446744073709551615", "", "+", "-1", "1a", " 1", "18446744073709551616", "00012"] {
        assert_eq!(parse_u64(s), s.parse::<u64>().ok(), "{}", s);
    }
}
