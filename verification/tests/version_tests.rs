use hk_modlinks::version::{ParseIntError, ParseVersionError, Version};

#[test]
fn version_new_renders_canonically() {
    let v = Version::new(1, 2, 3, 4);
    assert_eq!(v.str(), "1.2.3.4");
    assert_eq!(v.tuple(), (1, 2, 3, 4));
    assert_eq!(Version::new(0, 0, 0, 0).str(), "0.0.0.0");
    assert_eq!(
        Version::new(4294967295, 0, 10, 100).str(),
        "4294967295.0.10.100"
    );
}

#[test]
fn version_new_from_tuple_matches_new() {
    let v = Version::new_from_tuple((7, 8, 9, 10));
    assert_eq!(v.str(), "7.8.9.10");
    assert_eq!(v.tuple(), (7, 8, 9, 10));
}

#[test]
fn version_parse_ordinary() {
    assert_eq!(Version::parse("1.0.0.0"), Ok((1, 0, 0, 0)));
    assert_eq!(Version::parse("01.2.003.4"), Ok((1, 2, 3, 4)));
    assert_eq!(Version::parse("+1.2.3.+4"), Ok((1, 2, 3, 4)));
}

#[test]
fn version_parse_keeps_original_text() {
    let v = Version::new_from_str("01.0.0.0").unwrap();
    assert_eq!(v.str(), "01.0.0.0");
    assert_eq!(v.tuple(), (1, 0, 0, 0));
    let w = Version::new_from_string(String::from("1.0.0.0")).unwrap();
    assert_eq!(w.str(), "1.0.0.0");
}

#[test]
fn version_equality_ignores_text() {
    let a = Version::new_from_str("01.0.0.0").unwrap();
    let b = Version::new_from_str("1.0.0.0").unwrap();
    assert_eq!(a, b);
    let c = Version::new_from_str("1.0.0.1").unwrap();
    assert_ne!(a, c);
}

#[test]
fn version_ordering_is_componentwise() {
    let a = Version::new(1, 2, 3, 4);
    let b = Version::new(1, 2, 4, 0);
    assert!(a < b);
    assert!(b > a);
    assert!(Version::new(2, 0, 0, 0) > Version::new(1, 9, 9, 9));
    assert!(Version::new(1, 0, 0, 0) <= Version::new(1, 0, 0, 0));
}

#[test]
fn version_parse_wrong_segment_count() {
    assert_eq!(
        Version::parse("1.2.3"),
        Err(ParseVersionError::BadSegmentLength(3))
    );
    assert_eq!(
        Version::parse("1.2.3.4.5"),
        Err(ParseVersionError::BadSegmentLength(5))
    );
    assert_eq!(Version::parse(""), Err(ParseVersionError::BadSegmentLength(1)));
}

#[test]
fn version_parse_bad_segments() {
    assert_eq!(
        Version::parse(".2.3.4"),
        Err(ParseVersionError::ParseIntError(ParseIntError::Empty))
    );
    assert_eq!(
        Version::parse("1.x.3.4"),
        Err(ParseVersionError::ParseIntError(ParseIntError::InvalidDigit))
    );
    assert_eq!(
        Version::parse("1.+.3.4"),
        Err(ParseVersionError::ParseIntError(ParseIntError::InvalidDigit))
    );
    assert_eq!(
        Version::parse("1.-2.3.4"),
        Err(ParseVersionError::ParseIntError(ParseIntError::InvalidDigit))
    );
    assert_eq!(
        Version::parse("4294967296.0.0.0"),
        Err(ParseVersionError::ParseIntError(ParseIntError::PosOverflow))
    );
    assert_eq!(Version::parse("4294967295.0.0.0"), Ok((4294967295, 0, 0, 0)));
}

#[test]
fn version_parse_reports_first_bad_segment() {
    assert_eq!(
        Version::parse("1..x.4"),
        Err(ParseVersionError::ParseIntError(ParseIntError::Empty))
    );
    assert_eq!(
        Version::parse("1.2.99999999999.x"),
        Err(ParseVersionError::ParseIntError(ParseIntError::PosOverflow))
    );
}

#[test]
fn version_into_string() {
    let v = Version::new_from_str("2.3.4.5").unwrap();
    assert_eq!(v.into_string(), "2.3.4.5");
}
