use sm::library::secrets::keyring::stored_secrets;
use sm::library::secrets_sources::{self, aliases, bitwarden, keyring, local, process};
use sm::library::utils::str_map::{EnvVarsMap, StringMap};
use sm::models::full_config::FullConfig;
use sm::models::secret_source::{BitwardenCredentials, SecretsSource};

fn env(pairs: &[(&str, &str, &str)]) -> EnvVarsMap {
    let mut m = EnvVarsMap::new();
    for (k, v, s) in pairs {
        m.insert(k.to_string(), (v.to_string(), s.to_string()));
    }
    m
}

fn entry(m: &EnvVarsMap, k: &str) -> Option<(String, String)> {
    m.get(k).cloned()
}

fn pair(v: &str, s: &str) -> Option<(String, String)> {
    Some((v.to_string(), s.to_string()))
}

fn config_with_aliases(aliases: &[(&str, &str)]) -> FullConfig {
    let mut config = FullConfig::default();
    config.secrets_sources = Vec::new();
    let mut m = StringMap::new();
    for (k, v) in aliases {
        m.insert(k.to_string(), v.to_string());
    }
    config.aliases = m;
    config
}

#[test]
fn local_and_process_pairs_are_tagged() {
    let pairs = vec![
        ("A".to_string(), "1".to_string()),
        ("B".to_string(), "2".to_string()),
        ("A".to_string(), "3".to_string()),
    ];
    let l = local::get_env_variables(&pairs);
    assert_eq!(entry(&l, "A"), pair("3", ".env"));
    assert_eq!(entry(&l, "B"), pair("2", ".env"));
    let p = process::get_env_variables(&pairs);
    assert_eq!(entry(&p, "A"), pair("3", "process"));
    assert_eq!(p.len(), 2);
}

#[test]
fn check_needs_bitwarden_only_with_sources() {
    let config = FullConfig::default();
    assert!(secrets_sources::check(&config));
    let config = config_with_aliases(&[]);
    assert!(!secrets_sources::check(&config));
}

#[test]
fn aliases_resolve_or_are_skipped() {
    let config = config_with_aliases(&[("PETER", "SPIDER"), ("GHOST", "NOWHERE"), ("KEY", "TOKEN")]);
    let local = env(&[("SPIDER", "El Hombre", ".env")]);
    let process = env(&[]);
    let sources = env(&[("TOKEN", "from-bw", "bitwarden")]);
    let keyring = env(&[("TOKEN", "from-keyring", "keyring")]);
    let (resolved, skipped) = aliases::add(&config, &local, &process, &sources, &keyring);
    assert_eq!(entry(&resolved, "PETER"), pair("El Hombre", "aliased to SPIDER"));
    assert_eq!(entry(&resolved, "KEY"), pair("from-bw", "aliased to TOKEN"));
    assert_eq!(entry(&resolved, "GHOST"), None);
    assert_eq!(skipped.get("GHOST").map(|s| s.as_str()), Some("NOWHERE"));
    assert_eq!(skipped.len(), 1);
}

#[test]
fn clean_process_keeps_shared_variables() {
    let aliases = env(&[("P1", "alias", "aliased to X")]);
    let local = env(&[("P2", "local", ".env")]);
    let process = env(&[
        ("P1", "p1", "process"),
        ("P2", "p2", "process"),
        ("P3", "p3", "process"),
        ("P4", "p4", "process"),
        ("PATH", "/bin", "process"),
    ]);
    let sources = env(&[("P3", "s3", "bitwarden")]);
    let keyring = env(&[("P4", "k4", "keyring")]);
    let clean = secrets_sources::get_clean_process_env_vars(&aliases, &local, &process, &sources, &keyring);
    assert_eq!(entry(&clean, "P1"), pair("alias", "aliased to X"));
    assert_eq!(entry(&clean, "P2"), pair("local", ".env"));
    assert_eq!(entry(&clean, "P3"), pair("p3", "process"));
    assert_eq!(entry(&clean, "P4"), pair("p4", "process"));
    assert_eq!(entry(&clean, "PATH"), None);
    assert_eq!(clean.len(), 4);
}

#[test]
fn produced_map_follows_lookup_order() {
    let aliases = env(&[("A", "alias", "aliased to L")]);
    let local = env(&[("A", "local-a", ".env"), ("L", "local", ".env")]);
    let process = env(&[("K", "process-k", "process"), ("HOME", "/root", "process")]);
    let sources = env(&[("S", "bw", "bitwarden"), ("K", "bw-k", "bitwarden")]);
    let keyring = env(&[("S", "kr", "keyring"), ("K", "kr-k", "keyring"), ("R", "kr-r", "keyring")]);
    let m = secrets_sources::produce_env_vars_map(&aliases, &local, &process, &sources, &keyring);
    assert_eq!(entry(&m, "A"), pair("alias", "aliased to L"));
    assert_eq!(entry(&m, "L"), pair("local", ".env"));
    assert_eq!(entry(&m, "K"), pair("process-k", "process"));
    assert_eq!(entry(&m, "S"), pair("bw", "bitwarden"));
    assert_eq!(entry(&m, "R"), pair("kr-r", "keyring"));
    assert_eq!(entry(&m, "HOME"), None);
    for name in ["A", "L", "K", "S", "R"] {
        let looked_up = sm::library::utils::env_vars::get_from_all(
            name, &aliases, &local, &process, &keyring, &sources,
        );
        assert_eq!(m.get(name).map(|e| e.0.clone()), looked_up);
    }
}

#[test]
fn sync_combines_sources() {
    let config = config_with_aliases(&[("NEXT_PUBLIC_CLIENT_ID", "CLIENT_ID")]);
    let local = env(&[]);
    let process = env(&[("TEST_ENV_VAR", "beautiful", "process")]);
    let keyring = env(&[("HELLO", "world", "keyring")]);
    let sources = bitwarden::get_env_variables("CLIENT_ID=\"abc-123\"\nCLIENT_SECRET=\"secret-123\"\n");
    let (m, skipped) = secrets_sources::sync(&config, &local, &process, &keyring, &sources);
    assert_eq!(entry(&m, "HELLO"), pair("world", "keyring"));
    assert_eq!(entry(&m, "CLIENT_SECRET"), pair("secret-123", "bitwarden"));
    assert_eq!(entry(&m, "NEXT_PUBLIC_CLIENT_ID"), pair("abc-123", "aliased to CLIENT_ID"));
    assert_eq!(entry(&m, "TEST_ENV_VAR"), None);
    assert_eq!(skipped.len(), 0);
}

#[test]
fn bitwarden_output_lines() {
    let out = "A=\"1\"\r\nB_2=\"two \"quoted\" x\" tail\nlower=\"no\"\nC=\"\"\nD=x\n=\"v\"\nA=\"override\"\nE=\"last\"\r";
    let m = bitwarden::get_env_variables(out);
    assert_eq!(entry(&m, "A"), pair("override", "bitwarden"));
    assert_eq!(entry(&m, "B_2"), pair("two \"quoted\" x", "bitwarden"));
    assert_eq!(entry(&m, "lower"), None);
    assert_eq!(entry(&m, "C"), None);
    assert_eq!(entry(&m, "D"), None);
    // The last line has no line break, so its `\r` stays after the quote.
    assert_eq!(entry(&m, "E"), pair("last", "bitwarden"));
    assert_eq!(m.len(), 3);
    assert_eq!(bitwarden::get_env_variables("").len(), 0);
}

#[test]
fn bitwarden_access_token_lookup() {
    let creds = BitwardenCredentials { access_token_name: "BWS_ACCESS_TOKEN".to_string() };
    let local = env(&[]);
    let process = env(&[("BWS_ACCESS_TOKEN", "from-process", "process")]);
    let keyring = env(&[("BWS_ACCESS_TOKEN", "from-keyring", "keyring")]);
    assert_eq!(
        bitwarden::access_token(&creds, &local, &process, &keyring).as_deref(),
        Some("from-process")
    );
    assert_eq!(bitwarden::access_token(&creds, &local, &env(&[]), &keyring).as_deref(), Some("from-keyring"));
    assert_eq!(bitwarden::access_token(&creds, &local, &env(&[]), &env(&[])), None);
    let _ = SecretsSource::Bitwarden(creds);
}

#[test]
fn keyring_json_secrets() {
    let (doc, not_json) = stored_secrets(Some(r#"{"HELLO":"world","N":3,"ESC\u0041":"a\"b"}"#));
    assert!(!not_json);
    let k = keyring::get_env_variables(&doc).unwrap();
    assert_eq!(entry(&k.env_vars, "HELLO"), pair("world", "keyring"));
    assert_eq!(entry(&k.env_vars, "ESCA"), pair("a\"b", "keyring"));
    assert_eq!(entry(&k.env_vars, "N"), None);
    assert_eq!(k.env_vars.len(), 2);
    assert_eq!(k.rejected, vec!["N".to_string()]);

    let (doc, not_json) = stored_secrets(None);
    assert!(!not_json);
    assert_eq!(keyring::get_env_variables(&doc).unwrap().env_vars.len(), 0);

    let (doc, not_json) = stored_secrets(Some("not json"));
    assert!(not_json);
    assert_eq!(keyring::get_env_variables(&doc).unwrap().env_vars.len(), 0);

    let (doc, _) = stored_secrets(Some("[1, 2]"));
    assert!(keyring::get_env_variables(&doc).is_none());
    let (doc, _) = stored_secrets(Some("null"));
    assert!(keyring::get_env_variables(&doc).is_none());
}

#[test]
fn keyring_members_later_wins_and_rejected_in_order() {
    let (doc, _) = stored_secrets(Some(r#"{"A":"1","Z":[1],"B":true,"A":"2"}"#));
    let k = keyring::get_env_variables(&doc).unwrap();
    assert_eq!(entry(&k.env_vars, "A"), pair("2", "keyring"));
    assert_eq!(k.rejected, vec!["B".to_string(), "Z".to_string()]);
}

#[test]
fn bitwarden_line_round_trip() {
    let m = bitwarden::get_env_variables("SOME_KEY_9=\"a value with \"quotes\" and = signs\"");
    assert_eq!(entry(&m, "SOME_KEY_9"), pair("a value with \"quotes\" and = signs", "bitwarden"));
    assert_eq!(m.len(), 1);
}

#[test]
fn aliases_partition_the_aliases() {
    let config = config_with_aliases(&[("A", "X"), ("B", "Y"), ("C", "X")]);
    let local = env(&[("X", "x", ".env")]);
    let (resolved, skipped) = aliases::add(&config, &local, &env(&[]), &env(&[]), &env(&[]));
    assert_eq!(resolved.len() + skipped.len(), 3);
    for k in ["A", "B", "C"] {
        assert!(resolved.contains_key(k) != skipped.contains_key(k));
    }
}

#[test]
fn later_sources_override_earlier_ones() {
    let first = env(&[("A", "1", "bitwarden"), ("B", "1", "bitwarden")]);
    let second = env(&[("B", "2", "bitwarden"), ("C", "2", "bitwarden")]);
    let m = secrets_sources::merge_sources(&vec![first, second]);
    assert_eq!(entry(&m, "A"), pair("1", "bitwarden"));
    assert_eq!(entry(&m, "B"), pair("2", "bitwarden"));
    assert_eq!(entry(&m, "C"), pair("2", "bitwarden"));
    assert_eq!(m.len(), 3);
    assert_eq!(secrets_sources::merge_sources(&vec![]).len(), 0);
}
