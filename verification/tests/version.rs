use std::str::FromStr;

use rinex::version::ParsingError;
use rinex::version::Version;

#[test]
fn version() {
    let version = Version::from_str("1");
    assert!(version.is_ok());
    let version = version.unwrap();
    assert_eq!(version.major, 1);
    assert_eq!(version.minor, 0);

    let version = Version::from_str("1.2");
    assert!(version.is_ok());
    let version = version.unwrap();
    assert_eq!(version.major, 1);
    assert_eq!(version.minor, 2);

    let version = Version::from_str("3.02");
    assert!(version.is_ok());
    let version = version.unwrap();
    assert_eq!(version.major, 3);
    assert_eq!(version.minor, 2);

    let version = Version::from_str("a.b");
    assert!(version.is_err());
}

#[test]
fn version_comparison() {
    let v_a = Version::from_str("1.2").unwrap();
    let v_b = Version::from_str("3.02").unwrap();
    assert!(v_b > v_a);
    assert!(v_b != v_a);
}

#[test]
fn version_arithmetics() {
    let version = Version::new(3, 2);
    assert_eq!(version + 1, Version::new(4, 2));
    assert_eq!(version + 2, Version::new(5, 2));
    assert_eq!(version - 2, Version::new(1, 2));
    assert_eq!(version - 3, Version::new(1, 2)); // clamped

    let (maj, min): (u8, u8) = version.into();
    assert_eq!(maj, 3);
    assert_eq!(min, 2);
}

#[test]
fn version_default() {
    assert_eq!(Version::default(), Version::new(4, 0));
}

#[test]
fn version_parsing_edge_cases() {
    // Empty and malformed fields are rejected as parsing errors.
    assert_eq!(Version::from_str(""), Err(ParsingError::VersionParsing));
    assert_eq!(Version::from_str("."), Err(ParsingError::VersionParsing));
    assert_eq!(Version::from_str("1."), Err(ParsingError::VersionParsing));
    assert_eq!(Version::from_str(".5"), Err(ParsingError::VersionParsing));
    assert_eq!(Version::from_str("256"), Err(ParsingError::VersionParsing));
    assert_eq!(Version::from_str("1.300"), Err(ParsingError::VersionParsing));
    assert_eq!(Version::from_str("-1.0"), Err(ParsingError::VersionParsing));

    // A single leading plus sign is accepted on each field, as the standard
    // u8 parser does, and leading zeros are fine.
    assert_eq!(Version::from_str("+3.+02"), Ok(Version::new(3, 2)));
    assert_eq!(Version::from_str("003.000"), Ok(Version::new(3, 0)));
    assert_eq!(Version::from_str("++1"), Err(ParsingError::VersionParsing));

    // Only the fields up to the second dot are read.
    assert_eq!(Version::from_str("1.2.3"), Ok(Version::new(1, 2)));

    // The largest representable revision numbers.
    assert_eq!(Version::from_str("255.255"), Ok(Version::new(255, 255)));
}

#[test]
fn version_sub_assign() {
    let mut version = Version::new(3, 2);
    version -= 1;
    assert_eq!(version, Version::new(2, 2));
    version -= 5; // clamped
    assert_eq!(version, Version::new(1, 2));
}
