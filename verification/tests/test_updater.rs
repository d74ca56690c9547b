use sm::library::utils::updater;

#[test]
fn asset_name_lowercased_and_trimmed() {
    assert_eq!(updater::asset_name("X86_64\n", " Linux\n"), "secrets-machine-x86_64-linux");
    assert_eq!(updater::asset_name("arm64", "Darwin"), "secrets-machine-arm64-darwin");
}

#[test]
fn latest_version_drops_v() {
    assert_eq!(updater::latest_version("v1.2.3"), "1.2.3");
    assert_eq!(updater::latest_version("1.0.0-dev"), "1.0.0-de");
}

#[test]
fn trim_unicode_white_space() {
    assert_eq!(updater::trim("\u{3000} a b \t\n"), "a b");
    assert_eq!(updater::trim("   "), "");
    assert_eq!(updater::trim("x"), "x");
}

#[test]
fn contains_and_find_asset() {
    assert!(updater::contains("abcabd", "abd"));
    assert!(updater::contains("abc", ""));
    assert!(!updater::contains("ab", "abc"));
    assert!(!updater::contains("aXbXc", "abc"));
    let names = vec![
        None,
        Some("secrets-machine-arm64-darwin.tar.gz".to_string()),
        Some("secrets-machine-x86_64-linux".to_string()),
        Some("secrets-machine-x86_64-linux.sha256".to_string()),
    ];
    assert_eq!(updater::find_asset(&names, "secrets-machine-x86_64-linux"), Some(2));
    assert_eq!(updater::find_asset(&names, "secrets-machine-riscv"), None);
}

#[test]
fn is_latest_compares_with_the_tag_without_v() {
    assert!(updater::is_latest("1.2.3", "v1.2.3"));
    assert!(!updater::is_latest("1.2.2", "v1.2.3"));
    assert!(!updater::is_latest("v1.2.3", "v1.2.3"));
    assert!(updater::is_latest("", "v"));
}
