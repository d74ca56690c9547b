use sm::library::commands::run;
use sm::library::commands::run::{next_step, RunAction, RunPlan};
use sm::library::config::commands;
use sm::library::system::full_config;
use sm::library::utils::str_map::StringMap;
use sm::models::config::{Config, SecretsSource as GlobalSource};
use sm::models::full_config::FullConfig;
use sm::models::general_settings::General;
use sm::models::project_config::ProjectConfig;
use sm::models::secret_source::{BitwardenCredentials, SecretsSource};
use sm::models::user_config::UserConfig;

fn smap(pairs: &[(&str, &str)]) -> StringMap {
    let mut m = StringMap::new();
    for (k, v) in pairs {
        m.insert(k.to_string(), v.to_string());
    }
    m
}

fn bw(name: &str) -> SecretsSource {
    SecretsSource::Bitwarden(BitwardenCredentials { access_token_name: name.to_string() })
}

fn names(v: &[SecretsSource]) -> Vec<String> {
    v.iter()
        .map(|s| match s {
            SecretsSource::Bitwarden(c) => c.access_token_name.clone(),
        })
        .collect()
}

#[test]
fn defaults() {
    let c = Config::default();
    assert_eq!(c.secrets_sources.len(), 1);
    match &c.secrets_sources[0] {
        GlobalSource::Bitwarden(b) => assert_eq!(b.access_token_name, "BWS_ACCESS_TOKEN"),
    }
    let f = FullConfig::default();
    assert!(f.general.print_secrets_table);
    assert_eq!(names(&f.secrets_sources), vec!["BWS_ACCESS_TOKEN".to_string()]);
    let u = UserConfig::default();
    assert!(u.general.print_secrets_table);
    assert!(u.secrets_sources.is_empty());
    assert_eq!(u.commands.len() + u.pre_commands.len() + u.aliases.len(), 0);
}

#[test]
fn full_config_project_overrides_user() {
    let project = ProjectConfig {
        commands: smap(&[("dev", "cargo run"), ("test", "cargo test")]),
        pre_commands: smap(&[]),
        aliases: smap(&[("A", "B")]),
        secrets_sources: vec![bw("P")],
    };
    let user = UserConfig {
        general: General { print_secrets_table: false },
        secrets_sources: vec![bw("U")],
        commands: smap(&[("dev", "old"), ("lint", "cargo clippy")]),
        pre_commands: smap(&[("dev", "echo hi")]),
        aliases: smap(&[("A", "C"), ("D", "E")]),
    };
    let full = full_config::get(&project, &user);
    assert!(!full.general.print_secrets_table);
    assert_eq!(full.commands.get("dev").map(|s| s.as_str()), Some("cargo run"));
    assert_eq!(full.commands.get("lint").map(|s| s.as_str()), Some("cargo clippy"));
    assert_eq!(full.commands.len(), 3);
    assert_eq!(full.pre_commands.get("dev").map(|s| s.as_str()), Some("echo hi"));
    assert_eq!(full.aliases.get("A").map(|s| s.as_str()), Some("B"));
    assert_eq!(full.aliases.get("D").map(|s| s.as_str()), Some("E"));
    assert_eq!(names(&full.secrets_sources), vec!["U".to_string(), "P".to_string()]);
}

#[test]
fn merge_replaces_present_sources() {
    let (merged, replaced) =
        full_config::merge_secrets_sources(&vec![bw("A"), bw("B")], &vec![bw("B"), bw("C")]);
    // "B" is present: the entry at position 0 leaves, "B" comes twice.
    assert_eq!(names(&merged), vec!["B", "B", "B", "C"]);
    assert_eq!(replaced, 1);
    let (merged, replaced) = full_config::merge_secrets_sources(&vec![], &vec![bw("A"), bw("B")]);
    assert_eq!(names(&merged), vec!["A", "B"]);
    assert_eq!(replaced, 0);
}

#[test]
fn replace_hash_map_overrides() {
    let r = full_config::replace_hash_map(&smap(&[("a", "1"), ("b", "2")]), &smap(&[("b", "3")]));
    assert_eq!(r.get("a").map(|s| s.as_str()), Some("1"));
    assert_eq!(r.get("b").map(|s| s.as_str()), Some("3"));
}

#[test]
fn run_plan_and_command_check() {
    let mut config = FullConfig::default();
    config.commands = smap(&[("dev", "cargo run")]);
    config.pre_commands = smap(&[("dev", "cargo build"), ("only_pre", "echo")]);
    assert!(commands::check(&config, &"dev".to_string()));
    assert!(!commands::check(&config, &"prod".to_string()));
    let p = run::plan(&config, "dev", "--release ");
    assert_eq!(p.pre_command.as_deref(), Some("cargo build"));
    assert_eq!(p.command.as_deref(), Some("cargo run --release "));
    let p = run::plan(&config, "only_pre", "");
    assert_eq!(p.pre_command.as_deref(), Some("echo"));
    assert_eq!(p.command, None);
    let p = run::plan(&config, "none", "");
    assert!(p.pre_command.is_none() && p.command.is_none());
}

#[test]
fn join_command_args_trailing_space() {
    let args = vec!["echo".to_string(), "$HELLO".to_string()];
    assert_eq!(run::join_command_args(&args), "echo $HELLO ");
    assert_eq!(run::join_command_args(&vec![]), "");
}

#[test]
fn run_steps_follow_the_pre_command() {
    let with_pre = RunPlan { pre_command: Some("make".to_string()), command: Some("serve x".to_string()) };
    assert!(matches!(next_step(&with_pre, None), RunAction::RunPreCommand(c) if c == "make"));
    assert!(matches!(next_step(&with_pre, Some(true)), RunAction::RunCommand(c) if c == "serve x"));
    assert!(matches!(next_step(&with_pre, Some(false)), RunAction::StopPreCommandFailed));
    let no_pre = RunPlan { pre_command: None, command: Some("serve".to_string()) };
    assert!(matches!(next_step(&no_pre, None), RunAction::RunCommand(c) if c == "serve"));
    let missing = RunPlan { pre_command: Some("make".to_string()), command: None };
    assert!(matches!(next_step(&missing, Some(true)), RunAction::StopCommandNotFound));
    assert!(matches!(next_step(&missing, Some(false)), RunAction::StopPreCommandFailed));
}
