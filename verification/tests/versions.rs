use operation_center::versions::{
    can_advance_version, decimal_text, default_application_version, default_template_version,
    next_patch_version, package_version_from_versions, sums_fit_versions, version_parts,
};

fn texts(list: &[&str]) -> Vec<String> {
    list.iter().map(|text| text.to_string()).collect()
}

#[test]
fn resource_versions_roll_over_each_decimal_digit() {
    assert_eq!(next_patch_version("1.0.0"), "1.0.1");
    assert_eq!(next_patch_version("1.0.9"), "1.1.0");
    assert_eq!(next_patch_version("1.9.9"), "2.0.0");
}

#[test]
fn package_version_sums_each_version_component_without_carrying() {
    assert_eq!(
        package_version_from_versions(&texts(&["1.0.3", "1.0.7", "2.6.5"])),
        "4.6.15"
    );
}

#[test]
fn defaults_are_first_versions() {
    assert_eq!(default_template_version(), "1.0.0");
    assert_eq!(default_application_version(), "1.0.0");
}

#[test]
fn version_parts_read_what_they_can() {
    assert_eq!(version_parts("2.6.5"), (2, 6, 5));
    assert_eq!(version_parts("v2.6.5"), (2, 6, 5));
    assert_eq!(version_parts("12.34"), (12, 34, 0));
}

#[test]
fn next_version_reads_back_and_is_ahead() {
    let next = next_patch_version("3.4.9");
    assert_eq!(version_parts(&next), (3, 5, 0));
    assert!(version_parts(&next) > version_parts("3.4.9"));
    assert_eq!(next_patch_version("1.9.10"), "2.0.0");
}

#[test]
fn largest_versions_cannot_advance() {
    assert!(can_advance_version("1.0.0"));
    assert!(!can_advance_version("18446744073709551615.9.9"));
    assert!(!can_advance_version("1.0.18446744073709551615"));
}

#[test]
fn sums_that_do_not_fit_are_seen() {
    assert!(sums_fit_versions(&texts(&["1.0.3", "1.0.7"])));
    assert!(!sums_fit_versions(&texts(&[
        "18446744073709551615.0.0",
        "1.0.0"
    ])));
}

#[test]
fn decimal_text_writes_digits() {
    assert_eq!(decimal_text(0), "0");
    assert_eq!(decimal_text(9_007_199_254_740_993), "9007199254740993");
    assert_eq!(decimal_text(u64::MAX), "18446744073709551615");
}

#[test]
fn unreadable_parts_have_defaults() {
    assert_eq!(version_parts(""), (1, 0, 0));
    assert_eq!(version_parts("latest"), (1, 0, 0));
    assert_eq!(version_parts(" vv7.x.3 "), (7, 0, 3));
    assert_eq!(version_parts("1.+2.3"), (1, 2, 3));
    assert_eq!(version_parts("1.-2.3"), (1, 0, 3));
    assert_eq!(version_parts("1.007.3"), (1, 7, 3));
    assert_eq!(version_parts("99999999999999999999.2.3"), (1, 2, 3));
}
