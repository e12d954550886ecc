use devapack::semver::{compute_bump, parse_component, u64_to_dec, version_parts};

#[test]
fn minor_bump() {
    assert_eq!(compute_bump("1.2.3", "minor").unwrap(), "1.3.0");
}

#[test]
fn major_bump() {
    assert_eq!(compute_bump("1.2.3", "major").unwrap(), "2.0.0");
}

#[test]
fn patch_bump() {
    assert_eq!(compute_bump("1.2.3", "patch").unwrap(), "1.2.4");
}

#[test]
fn unknown_bump_token_is_named_in_the_error() {
    let err = compute_bump("1.2.3", "huge").unwrap_err();
    assert_eq!(err, "Unknown bump type: huge (expected: major|minor|patch)");
}

#[test]
fn bump_token_is_case_insensitive() {
    assert_eq!(compute_bump("1.2.3", "MAJOR").unwrap(), "2.0.0");
}

#[test]
fn prerelease_suffix_is_ignored() {
    assert_eq!(compute_bump("1.2.3-beta.1", "patch").unwrap(), "1.2.4");
}

#[test]
fn short_versions_fill_with_zeros() {
    assert_eq!(compute_bump("2", "patch").unwrap(), "2.0.1");
    assert_eq!(compute_bump("1.5", "minor").unwrap(), "1.6.0");
}

#[test]
fn malformed_components_count_as_zero() {
    assert_eq!(compute_bump("x.y.z", "major").unwrap(), "1.0.0");
}

#[test]
fn version_parts_reads_three_components() {
    assert_eq!(version_parts("10.20.30"), (10, 20, 30));
    assert_eq!(version_parts("1.2.3.4"), (1, 2, 3));
}

#[test]
fn component_parsing_matches_standard_rules() {
    assert_eq!(parse_component("42"), 42);
    assert_eq!(parse_component("+7"), 7);
    assert_eq!(parse_component(""), 0);
    assert_eq!(parse_component("12a"), 0);
    assert_eq!(parse_component("99999999999999999999999"), 0);
}

#[test]
fn decimal_rendering() {
    assert_eq!(u64_to_dec(0), "0");
    assert_eq!(u64_to_dec(907), "907");
    assert_eq!(u64_to_dec(u64::MAX), "18446744073709551615");
}
