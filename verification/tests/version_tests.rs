use kernel_redirect::version::{version_from_str, LinuxVersion, ParseError, VersionComponent};

#[test]
fn parses_version_embedded_in_filename() {
    let v = version_from_str("linux-6.5.3.tar.xz").unwrap();
    assert_eq!(v, LinuxVersion { major: 6, minor: 5, patch: 3 });
}

#[test]
fn parses_v_prefixed_version() {
    let v = version_from_str("v6.5.3").unwrap();
    assert_eq!(v, LinuxVersion { major: 6, minor: 5, patch: 3 });
}

#[test]
fn parses_bare_version() {
    let v = version_from_str("6.5.3").unwrap();
    assert_eq!(v, LinuxVersion { major: 6, minor: 5, patch: 3 });
}

#[test]
fn absent_patch_defaults_to_zero() {
    let v = version_from_str("6.5").unwrap();
    assert_eq!(v, LinuxVersion { major: 6, minor: 5, patch: 0 });
}

#[test]
fn unparsable_suffix_coerces_patch_to_zero() {
    let v = version_from_str("6.5-rc1").unwrap();
    assert_eq!(v, LinuxVersion { major: 6, minor: 5, patch: 0 });
}

#[test]
fn non_numeric_patch_coerces_to_zero() {
    let v = version_from_str("6.5.x").unwrap();
    assert_eq!(v, LinuxVersion { major: 6, minor: 5, patch: 0 });
}

#[test]
fn missing_minor_is_reported() {
    let e = version_from_str("6").unwrap_err();
    assert_eq!(e, ParseError::MissingComponent(VersionComponent::Minor));
}

#[test]
fn text_without_digits_and_without_dots_misses_minor() {
    let e = version_from_str("mainline").unwrap_err();
    assert_eq!(e, ParseError::MissingComponent(VersionComponent::Minor));
}

#[test]
fn non_numeric_major_is_invalid() {
    let e = version_from_str("abc.def").unwrap_err();
    assert_eq!(e, ParseError::InvalidInteger(VersionComponent::Major));
}

#[test]
fn non_numeric_minor_is_invalid() {
    let e = version_from_str("6.x").unwrap_err();
    assert_eq!(e, ParseError::InvalidInteger(VersionComponent::Minor));
}

#[test]
fn overflowing_minor_is_invalid() {
    let e = version_from_str("6.99999999999").unwrap_err();
    assert_eq!(e, ParseError::InvalidInteger(VersionComponent::Minor));
}

#[test]
fn largest_u32_components_parse() {
    let v = version_from_str("4294967295.4294967295.4294967295").unwrap();
    assert_eq!(
        v,
        LinuxVersion { major: 4294967295, minor: 4294967295, patch: 4294967295 }
    );
}

#[test]
fn components_beyond_patch_are_ignored() {
    let v = version_from_str("6.5.3.1").unwrap();
    assert_eq!(v, LinuxVersion { major: 6, minor: 5, patch: 3 });
}

#[test]
fn empty_text_misses_minor() {
    let e = version_from_str("").unwrap_err();
    assert_eq!(e, ParseError::MissingComponent(VersionComponent::Minor));
}

#[test]
fn default_version_is_all_zero() {
    assert_eq!(
        LinuxVersion::default(),
        LinuxVersion { major: 0, minor: 0, patch: 0 }
    );
}
