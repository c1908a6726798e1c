use gmod_buttplug::logging::{filter_spec_is_safe, filter_update, initial_filter, DEFAULT_FILTER};

#[test]
fn valid_spec_is_accepted_when_installed() {
    assert!(filter_update("debug", true).is_ok());
    assert!(filter_update("btleplug=trace,buttplug=debug", true).is_ok());
    assert!(filter_update(DEFAULT_FILTER, true).is_ok());
    assert!(filter_update("", true).is_ok());
}

#[test]
fn valid_spec_without_subscriber_is_refused() {
    assert_eq!(
        filter_update("debug", false).err(),
        Some("log subsystem not initialized".to_string())
    );
}

#[test]
fn malformed_spec_is_reported_first() {
    for installed in [true, false] {
        let e = filter_update("buttplug=notalevel", installed).err().unwrap();
        assert!(e.starts_with("invalid filter: "), "{e}");
        assert!(e.len() > "invalid filter: ".len());
    }
}

#[test]
fn spec_safety_of_directives() {
    assert!(filter_spec_is_safe("debug"));
    assert!(filter_spec_is_safe(""));
    assert!(filter_spec_is_safe(","));
    assert!(filter_spec_is_safe(" debug,btleplug=trace"));
    assert!(filter_spec_is_safe("é=debug"));
    assert!(filter_spec_is_safe("é=debug, warn"));
    // The walk starts at the trimmed text; these slices still land on boundaries.
    assert!(filter_spec_is_safe(" é"));
    assert!(filter_spec_is_safe("\u{3000}"));
    assert!(filter_spec_is_safe("debug,\u{3000}x"));
    // Offset 2 of the trimmed text falls inside `é` of the untrimmed one.
    assert!(!filter_spec_is_safe(" é=debug"));
    assert!(!filter_spec_is_safe("debug, é=trace"));
    assert!(!filter_spec_is_safe(" [é]"));
    // The level starts at offset 3 of the trimmed text, inside `é` here.
    assert!(!filter_spec_is_safe("  é=x"));
    assert!(!filter_spec_is_safe("\u{3000}x=notalevel"));
}

#[test]
fn safe_specs_do_not_panic_the_parser() {
    for spec in [" debug", "é=debug", "é=debug, warn", "\tbuttplug=info", " é", "\u{3000}", "debug,\u{3000}x", " [x]{a=1}=info", "[é]", ""] {
        assert!(filter_spec_is_safe(spec));
        let _ = filter_update(spec, true);
    }
}

#[test]
fn initial_filter_accepts_any_safe_value() {
    let _ = initial_filter(None).into_env_filter();
    let _ = initial_filter(Some("debug")).into_env_filter();
    let _ = initial_filter(Some("buttplug=notalevel")).into_env_filter();
}

#[test]
fn safe_spec_results_match_the_parser() {
    assert!(filter_update(" é", true).is_ok());
    let e = filter_update(" x=notalevel", true).err().unwrap();
    assert!(e.starts_with("invalid filter: "), "{e}");
}

#[test]
fn every_spec_judged_safe_is_parsed_without_panic() {
    let leads = ["", " ", "  ", "\t", "\u{3000}", " \u{a0}"];
    let bodies = [
        "é=x", "x=é", "é", "[é]=x", "a[é]", "é[s]", "[s]{é=1}", "x=debug", "éé=info", "[é]", "xé=warn",
        "ab=é ", "é ",
    ];
    let mut safe = 0;
    for lead in leads {
        for body in bodies {
            let spec = format!("{lead}{body}");
            if filter_spec_is_safe(&spec) {
                safe += 1;
                let _ = filter_update(&spec, true);
                let _ = initial_filter(Some(&spec)).into_env_filter();
            }
        }
    }
    assert!(safe > 20);
}
