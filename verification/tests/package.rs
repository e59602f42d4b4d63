use sota_client::package::{parse_index, u64_to_dec_string, PackageId};

#[test]
fn renders_indices_in_decimal() {
    assert_eq!(u64_to_dec_string(0), "0");
    assert_eq!(u64_to_dec_string(7), "7");
    assert_eq!(u64_to_dec_string(10), "10");
    assert_eq!(u64_to_dec_string(1203), "1203");
    assert_eq!(u64_to_dec_string(u64::MAX), "18446744073709551615");
}

#[test]
fn parses_decimal_chunk_names() {
    assert_eq!(parse_index("0"), Ok(0));
    assert_eq!(parse_index("7"), Ok(7));
    assert_eq!(parse_index("007"), Ok(7));
    assert_eq!(parse_index("1203"), Ok(1203));
    assert_eq!(parse_index("18446744073709551615"), Ok(u64::MAX));
}

#[test]
fn rejects_names_that_are_no_index() {
    assert!(parse_index("").is_err());
    assert!(parse_index("abc").is_err());
    assert!(parse_index("12a").is_err());
    assert!(parse_index("-1").is_err());
    assert!(parse_index("+5").is_err());
    assert!(parse_index("1 2").is_err());
    // one past u64::MAX
    assert!(parse_index("18446744073709551616").is_err());
}

#[test]
fn index_names_round_trip() {
    for n in [0u64, 1, 9, 10, 99, 100, 4096, u64::MAX - 1, u64::MAX] {
        assert_eq!(parse_index(&u64_to_dec_string(n)), Ok(n));
    }
}

#[test]
fn package_ids_compare_by_both_components() {
    let a = PackageId::new("pkg".to_string(), "1.0".to_string());
    let b = PackageId::new("pkg".to_string(), "1.0".to_string());
    let c = PackageId::new("pkg".to_string(), "2.0".to_string());
    let d = PackageId::new("gkp".to_string(), "1.0".to_string());
    assert!(a == b);
    assert!(a != c);
    assert!(a != d);
    assert_eq!(a.full_name(), "pkg-1.0");
    assert_eq!(c.full_name(), "pkg-2.0");
}
