use gmod_buttplug::lockfile::find_crate_version;

const LOCK: &str = "# This file is automatically @generated by Cargo.\n\
version = 4\n\
\n\
[[package]]\n\
name = \"buttplug_client\"\n\
version = \"10.0.3\"\n\
source = \"registry+https://github.com/rust-lang/crates.io-index\"\n\
\n\
[[package]]\n\
name = \"buttplug_client_in_process\"\n\
version = \"10.0.4\"\n\
\n\
[[package]]\n\
name = \"tokio\"\r\n\
version = \"1.54.1\"\r\n";

#[test]
fn finds_the_named_crate() {
    assert_eq!(find_crate_version(LOCK, "buttplug_client").as_deref(), Some("10.0.3"));
    assert_eq!(find_crate_version(LOCK, "buttplug_client_in_process").as_deref(), Some("10.0.4"));
    assert_eq!(find_crate_version(LOCK, "tokio").as_deref(), Some("1.54.1"));
}

#[test]
fn missing_crate_gives_none() {
    assert_eq!(find_crate_version(LOCK, "serde"), None);
    assert_eq!(find_crate_version("", "tokio"), None);
}

#[test]
fn block_without_a_closed_version_is_skipped() {
    let lock = "[[package]]\nname = \"a\"\nversion = \"1.0\n[[package]]\nname = \"a\"\nversion = \"2.0\"\n";
    assert_eq!(find_crate_version(lock, "a").as_deref(), Some("2.0"));
}

#[test]
fn first_matching_block_wins() {
    let lock = "[[package]]\nname = \"a\"\nversion = \"1.0\"\n[[package]]\nname = \"a\"\nversion = \"2.0\"\n";
    assert_eq!(find_crate_version(lock, "a").as_deref(), Some("1.0"));
}

#[test]
fn name_must_match_whole() {
    assert_eq!(find_crate_version(LOCK, "buttplug"), None);
    assert_eq!(find_crate_version(LOCK, "client"), None);
}
