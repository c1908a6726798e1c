use gmod_buttplug::xtask::{host_default_target, platform_names, split_out_target};

fn strings(v: &[&str]) -> Vec<String> {
    v.iter().map(|s| s.to_string()).collect()
}

#[test]
fn target_flag_with_separate_value() {
    let (t, rest) = split_out_target(strings(&["--target", "x86_64-apple-darwin", "--locked"]));
    assert_eq!(t.as_deref(), Some("x86_64-apple-darwin"));
    assert_eq!(rest, strings(&["--locked"]));
}

#[test]
fn target_flag_with_equals() {
    let (t, rest) = split_out_target(strings(&["-v", "--target=i686-pc-windows-msvc", "--offline"]));
    assert_eq!(t.as_deref(), Some("i686-pc-windows-msvc"));
    assert_eq!(rest, strings(&["-v", "--offline"]));
}

#[test]
fn no_target_passes_everything_through() {
    let (t, rest) = split_out_target(strings(&["--release", "-j", "4"]));
    assert_eq!(t, None);
    assert_eq!(rest, strings(&["--release", "-j", "4"]));
    let (t, rest) = split_out_target(Vec::new());
    assert_eq!(t, None);
    assert!(rest.is_empty());
}

#[test]
fn last_target_wins_and_trailing_flag_clears() {
    let (t, _) = split_out_target(strings(&["--target=a", "--target", "b"]));
    assert_eq!(t.as_deref(), Some("b"));
    let (t, rest) = split_out_target(strings(&["--target=a", "x", "--target"]));
    assert_eq!(t, None);
    assert_eq!(rest, strings(&["x"]));
}

#[test]
fn supported_platforms() {
    assert_eq!(
        platform_names("x86_64-pc-windows-msvc"),
        Ok(("gmcl_buttplug.dll", "gmcl_buttplug_win64.dll"))
    );
    assert_eq!(
        platform_names("i686-pc-windows-msvc"),
        Ok(("gmcl_buttplug.dll", "gmcl_buttplug_win32.dll"))
    );
    assert_eq!(
        platform_names("x86_64-unknown-linux-gnu"),
        Ok(("libgmcl_buttplug.so", "gmcl_buttplug_linux64.dll"))
    );
    assert_eq!(
        platform_names("i686-unknown-linux-gnu"),
        Ok(("libgmcl_buttplug.so", "gmcl_buttplug_linux.dll"))
    );
    assert_eq!(
        platform_names("x86_64-apple-darwin"),
        Ok(("libgmcl_buttplug.dylib", "gmcl_buttplug_osx64.dll"))
    );
}

#[test]
fn unsupported_platform() {
    assert_eq!(
        platform_names("aarch64-apple-darwin"),
        Err("unsupported target: aarch64-apple-darwin".to_string())
    );
    assert!(platform_names("x86_64-pc-windows-msvc ").is_err());
}

#[test]
fn host_default_targets() {
    assert_eq!(host_default_target("windows", "x86_64"), Some("x86_64-pc-windows-msvc"));
    assert_eq!(host_default_target("linux", "x86_64"), Some("x86_64-unknown-linux-gnu"));
    assert_eq!(host_default_target("macos", "x86_64"), Some("x86_64-apple-darwin"));
    assert_eq!(host_default_target("macos", "aarch64"), None);
    assert_eq!(host_default_target("freebsd", "x86_64"), None);
}
