use gmod_buttplug::version::{is_newer, parse_version, update_notice, update_notice_for_release};

#[test]
fn newer_patch() {
    assert!(is_newer("0.2.1", "0.2.0"));
}

#[test]
fn newer_minor() {
    assert!(is_newer("0.3.0", "0.2.9"));
}

#[test]
fn newer_major() {
    assert!(is_newer("1.0.0", "0.99.99"));
}

#[test]
fn equal_not_newer() {
    assert!(!is_newer("0.2.0", "0.2.0"));
}

#[test]
fn older_not_newer() {
    assert!(!is_newer("0.1.9", "0.2.0"));
}

#[test]
fn prerelease_suffix_treated_as_base() {
    // "0.2.1-rc1" parses as 0.2.1, which is newer than 0.2.0.
    assert!(is_newer("0.2.1-rc1", "0.2.0"));
}

#[test]
fn parse_plain_triple() {
    assert_eq!(parse_version("1.22.333"), (1, 22, 333));
}

#[test]
fn parse_missing_parts_are_zero() {
    assert_eq!(parse_version("4"), (4, 0, 0));
    assert_eq!(parse_version("4.5"), (4, 5, 0));
    assert_eq!(parse_version(""), (0, 0, 0));
}

#[test]
fn parse_unparseable_parts_are_zero() {
    assert_eq!(parse_version("x.2.y"), (0, 2, 0));
    assert_eq!(parse_version("1..3"), (1, 0, 3));
    assert_eq!(parse_version("-1.2.3"), (0, 2, 3));
}

#[test]
fn parse_follows_u32_parsing() {
    assert_eq!(parse_version("+1.+2.+3"), (1, 2, 3));
    assert_eq!(parse_version("+.1.2"), (0, 1, 2));
    assert_eq!(parse_version("4294967295.4294967296.007"), (4294967295, 0, 7));
}

#[test]
fn parse_ignores_extra_parts_and_suffixes() {
    assert_eq!(parse_version("1.2.3.4"), (1, 2, 3));
    assert_eq!(parse_version("1-a.2-b.3-rc.1"), (1, 2, 3));
}

#[test]
fn update_notice_for_newer_tag() {
    let m = update_notice(Some("v0.3.0"), "0.2.0");
    assert_eq!(
        m.as_deref(),
        Some(
            "[gmod-buttplug] update available: installed v0.2.0, latest v0.3.0\n\
             [gmod-buttplug]   https://github.com/SummerBasilisk/gmod-buttplug/releases"
        )
    );
}

#[test]
fn update_notice_strips_every_leading_v() {
    let m = update_notice(Some("vv1.0.0"), "0.9.0").unwrap();
    assert!(m.contains("latest v1.0.0\n"));
}

#[test]
fn no_update_notice_when_not_newer() {
    assert_eq!(update_notice(Some("v0.2.0"), "0.2.0"), None);
    assert_eq!(update_notice(Some("0.1.0"), "0.2.0"), None);
    assert_eq!(update_notice(None, "0.2.0"), None);
}

#[test]
fn notice_from_release_body() {
    let body = br#"{"url":"x","tag_name":"v0.3.0","name":"0.3.0"}"#;
    assert_eq!(
        update_notice_for_release(body, "0.2.0").as_deref(),
        Some(
            "[gmod-buttplug] update available: installed v0.2.0, latest v0.3.0\n\
             [gmod-buttplug]   https://github.com/SummerBasilisk/gmod-buttplug/releases"
        )
    );
    assert_eq!(update_notice_for_release(body, "0.3.0"), None);
}

#[test]
fn no_notice_from_unusable_bodies() {
    assert_eq!(update_notice_for_release(b"not json", "0.1.0"), None);
    assert_eq!(update_notice_for_release(br#"{"message":"rate limited"}"#, "0.1.0"), None);
    assert_eq!(update_notice_for_release(br#"{"tag_name":3}"#, "0.1.0"), None);
    assert_eq!(update_notice_for_release(br#"["v9.0.0"]"#, "0.1.0"), None);
    assert_eq!(update_notice_for_release(b"", "0.1.0"), None);
}
