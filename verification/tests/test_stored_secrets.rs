use sm::library::secrets_sources::keyring;
use sm::library::secrets::keyring::{
    no_secrets, secret_name, secret_names, stored_secrets, with_secret, without_secret, SecretsDoc,
};

fn doc(text: &str) -> SecretsDoc {
    stored_secrets(Some(text)).0
}

#[test]
fn add_secret_upper_cases_and_keeps_other_members() {
    let d = doc(r#"{"B":"2","N":3}"#);
    assert_eq!(with_secret(&d, "a", "1"), r#"{"A":"1","B":"2","N":3}"#);
    assert_eq!(with_secret(&d, "b", "x\"y"), r#"{"B":"x\"y","N":3}"#);
}

#[test]
fn add_secret_to_nothing() {
    let (d, _) = stored_secrets(None);
    assert_eq!(with_secret(&d, "token", "v"), r#"{"TOKEN":"v"}"#);
    let (d, not_json) = stored_secrets(Some("garbage"));
    assert!(not_json);
    assert_eq!(with_secret(&d, "token", "v"), r#"{"TOKEN":"v"}"#);
    let d = doc("null");
    assert!(matches!(d, SecretsDoc::Null));
    assert_eq!(with_secret(&d, "token", "v"), r#"{"TOKEN":"v"}"#);
}

#[test]
fn remove_secret() {
    let d = doc(r#"{"A":"1","B":"2","F":1.5}"#);
    assert_eq!(without_secret(&d, "a"), r#"{"B":"2","F":1.5}"#);
    assert_eq!(without_secret(&d, "missing"), r#"{"A":"1","B":"2","F":1.5}"#);
    assert_eq!(without_secret(&doc("null"), "a"), "null");
    assert_eq!(without_secret(&doc("[1, 2]"), "a"), "[1,2]");
    assert_eq!(no_secrets(), "{}");
}

#[test]
fn list_secret_names_in_order() {
    let d = doc(r#"{"b":"1","A":"2","a":"3"}"#);
    assert_eq!(secret_names(&d), vec!["A".to_string(), "a".to_string(), "b".to_string()]);
    assert!(secret_names(&doc("{}")).is_empty());
}

#[test]
fn secret_names_are_upper_cased() {
    assert_eq!(secret_name("my_token"), "MY_TOKEN");
    assert_eq!(secret_name("straße"), "STRASSE");
}

#[test]
fn written_secrets_read_back() {
    let (d, _) = stored_secrets(Some(r#"{"B":"two","C":"q\"uote\n"}"#));
    let written = with_secret(&d, "github_token", "ghp_\u{e9}\\x");
    assert_eq!(secret_name("github_token"), "GITHUB_TOKEN");
    let (back, not_json) = stored_secrets(Some(&written));
    assert!(!not_json);
    assert_eq!(
        secret_names(&back),
        vec!["B".to_string(), "C".to_string(), "GITHUB_TOKEN".to_string()]
    );
    let vars = keyring::get_env_variables(&back).unwrap();
    assert_eq!(vars.env_vars.get("GITHUB_TOKEN").map(|v| v.0.as_str()), Some("ghp_\u{e9}\\x"));
    assert_eq!(vars.env_vars.get("C").map(|v| v.0.as_str()), Some("q\"uote\n"));
    assert_eq!(vars.env_vars.get("B").map(|v| v.0.as_str()), Some("two"));
    let removed = without_secret(&back, "c");
    let (back2, _) = stored_secrets(Some(&removed));
    assert_eq!(secret_names(&back2), vec!["B".to_string(), "GITHUB_TOKEN".to_string()]);
    let (empty, _) = stored_secrets(Some(&no_secrets()));
    assert!(secret_names(&empty).is_empty());
}
