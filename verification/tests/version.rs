use doc_cli::version::{parse_u32, VersionBumper};

fn parse_version_with_std(version: &str) -> (u32, u32, u32) {
    let parts: Vec<&str> = version.split('.').collect();
    let major = parts.get(0).and_then(|s| s.parse().ok()).unwrap_or(0);
    let minor = parts.get(1).and_then(|s| s.parse().ok()).unwrap_or(0);
    let patch = parts.get(2).and_then(|s| s.parse().ok()).unwrap_or(0);
    (major, minor, patch)
}

#[test]
fn parse_u32_reads_decimal_numbers() {
    assert_eq!(parse_u32("0"), Some(0));
    assert_eq!(parse_u32("7"), Some(7));
    assert_eq!(parse_u32("42"), Some(42));
    assert_eq!(parse_u32("007"), Some(7));
    assert_eq!(parse_u32("+15"), Some(15));
    assert_eq!(parse_u32("4294967295"), Some(4294967295));
    assert_eq!(parse_u32("00000000004294967295"), Some(4294967295));
}

#[test]
fn parse_u32_refuses_what_is_no_number() {
    assert_eq!(parse_u32(""), None);
    assert_eq!(parse_u32("+"), None);
    assert_eq!(parse_u32("-1"), None);
    assert_eq!(parse_u32("++1"), None);
    assert_eq!(parse_u32("1+"), None);
    assert_eq!(parse_u32(" 1"), None);
    assert_eq!(parse_u32("1 "), None);
    assert_eq!(parse_u32("1a"), None);
    assert_eq!(parse_u32("v1"), None);
    assert_eq!(parse_u32("1.0"), None);
    assert_eq!(parse_u32("\u{0661}"), None);
}

#[test]
fn parse_u32_refuses_what_does_not_fit() {
    assert_eq!(parse_u32("4294967296"), None);
    assert_eq!(parse_u32("4294967300"), None);
    assert_eq!(parse_u32("42949672950"), None);
    assert_eq!(parse_u32("99999999999999999999999999"), None);
    assert_eq!(parse_u32("4294967296x"), None);
}

#[test]
fn parse_u32_agrees_with_std() {
    let samples = [
        "", "0", "1", "10", "+0", "+", "-0", "00", "4294967295", "4294967296", "429496729",
        "42949672951", "12a", "a12", "1_000", "0x10", "١٢", " 5", "5\n", "+-5", "+005",
    ];
    for s in samples {
        assert_eq!(parse_u32(s), s.parse::<u32>().ok(), "{:?}", s);
    }
}

#[test]
fn parse_version_reads_three_numbers() {
    assert_eq!(VersionBumper::parse_version("1.2.3"), (1, 2, 3));
    assert_eq!(VersionBumper::parse_version("0.0.0"), (0, 0, 0));
    assert_eq!(VersionBumper::parse_version("10.20.30"), (10, 20, 30));
    assert_eq!(VersionBumper::parse_version("4294967295.0.1"), (4294967295, 0, 1));
}

#[test]
fn parse_version_counts_what_is_missing_or_no_number_as_zero() {
    assert_eq!(VersionBumper::parse_version(""), (0, 0, 0));
    assert_eq!(VersionBumper::parse_version("1"), (1, 0, 0));
    assert_eq!(VersionBumper::parse_version("1.2"), (1, 2, 0));
    assert_eq!(VersionBumper::parse_version("1..3"), (1, 0, 3));
    assert_eq!(VersionBumper::parse_version("a.b.c"), (0, 0, 0));
    assert_eq!(VersionBumper::parse_version("v1.2.3"), (0, 2, 3));
    assert_eq!(VersionBumper::parse_version("1.2.3-rc1"), (1, 2, 0));
    assert_eq!(VersionBumper::parse_version("4294967296.1.1"), (0, 1, 1));
    assert_eq!(VersionBumper::parse_version(" 1.2.3"), (0, 2, 3));
}

#[test]
fn parse_version_ignores_what_follows_the_third_number() {
    assert_eq!(VersionBumper::parse_version("1.2.3.4"), (1, 2, 3));
    assert_eq!(VersionBumper::parse_version("1.2.3.x.y"), (1, 2, 3));
}

#[test]
fn parse_version_agrees_with_std() {
    let samples = [
        "", ".", "..", "...", "1", "1.", ".1", "1.2", "1.2.3", "1.2.3.4", "+1.+2.+3", "-1.2.3",
        "01.002.0003", "1.2.3\n", "1,2,3", "v1.2.3", "1.2.x", "x.2.3", "4294967295.4294967295.1",
        "4294967296.0.0", "1.2.99999999999", "١.٢.٣",
    ];
    for s in samples {
        assert_eq!(VersionBumper::parse_version(s), parse_version_with_std(s), "{:?}", s);
    }
}

#[test]
fn get_latest_tag_strips_white_space_and_the_prefix() {
    assert_eq!(VersionBumper::get_latest_tag(Some("v1.2.3\n")), "1.2.3");
    assert_eq!(VersionBumper::get_latest_tag(Some("1.2.3\n")), "1.2.3");
    assert_eq!(VersionBumper::get_latest_tag(Some("  v0.10.0  ")), "0.10.0");
    assert_eq!(VersionBumper::get_latest_tag(Some("vv1")), "v1");
    assert_eq!(VersionBumper::get_latest_tag(Some("v")), "");
    assert_eq!(VersionBumper::get_latest_tag(Some("")), "");
    assert_eq!(VersionBumper::get_latest_tag(Some("release-1")), "release-1");
}

#[test]
fn get_latest_tag_starts_from_zero_without_a_tag() {
    assert_eq!(VersionBumper::get_latest_tag(None), "0.0.0");
}

#[test]
fn new_reads_the_numbers_of_the_latest_tag() {
    let bumper = VersionBumper::new(Some("v1.2.3\n"));
    assert_eq!(bumper.current_version(), "1.2.3");
    assert_eq!(bumper.version_numbers(), (1, 2, 3));

    let bumper = VersionBumper::new(None);
    assert_eq!(bumper.current_version(), "0.0.0");
    assert_eq!(bumper.version_numbers(), (0, 0, 0));

    let bumper = VersionBumper::new(Some("nightly"));
    assert_eq!(bumper.current_version(), "nightly");
    assert_eq!(bumper.version_numbers(), (0, 0, 0));
}

#[test]
fn calculate_new_version_raises_one_number_and_resets_those_after_it() {
    let bumper = VersionBumper::new(Some("v1.2.3"));
    assert_eq!(bumper.calculate_new_version(1), "2.0.0");
    assert_eq!(bumper.calculate_new_version(2), "1.3.0");
    assert_eq!(bumper.calculate_new_version(3), "1.2.4");
}

#[test]
fn calculate_new_version_writes_numbers_of_any_length() {
    let bumper = VersionBumper::new(Some("v9.99.1009"));
    assert_eq!(bumper.calculate_new_version(1), "10.0.0");
    assert_eq!(bumper.calculate_new_version(2), "9.100.0");
    assert_eq!(bumper.calculate_new_version(3), "9.99.1010");

    let bumper = VersionBumper::new(Some("4294967294.0.4294967294"));
    assert_eq!(bumper.calculate_new_version(1), "4294967295.0.0");
    assert_eq!(bumper.calculate_new_version(2), "4294967294.1.0");
    assert_eq!(bumper.calculate_new_version(3), "4294967294.0.4294967295");
}

#[test]
fn calculate_new_version_starts_from_zero() {
    let bumper = VersionBumper::new(None);
    assert_eq!(bumper.calculate_new_version(1), "1.0.0");
    assert_eq!(bumper.calculate_new_version(2), "0.1.0");
    assert_eq!(bumper.calculate_new_version(3), "0.0.1");
}

#[test]
fn the_new_version_reads_back_as_the_raised_numbers() {
    let bumper = VersionBumper::new(Some("v3.14.159"));
    for kind in 1u8..=3 {
        let next = bumper.calculate_new_version(kind);
        let expected = match kind {
            1 => (4, 0, 0),
            2 => (3, 15, 0),
            _ => (3, 14, 160),
        };
        assert_eq!(VersionBumper::parse_version(&next), expected);
    }
}
