use sm::library::utils::env_vars;
use sm::library::utils::str_map::EnvVarsMap;

fn env(pairs: &[(&str, &str, &str)]) -> EnvVarsMap {
    let mut m = EnvVarsMap::new();
    for (k, v, s) in pairs {
        m.insert(k.to_string(), (v.to_string(), s.to_string()));
    }
    m
}

#[test]
fn test_replace_env_vars() {
    let mut env_vars_map = EnvVarsMap::new();
    env_vars_map.insert(
        "TEST_ENV_VAR".to_string(),
        ("beautiful".to_string(), "Test".to_string()),
    );
    env_vars_map.insert(
        "TEST_ENV_VAR_2".to_string(),
        ("world".to_string(), "Test".to_string()),
    );

    let test_string = "Hi there $TEST_ENV_VAR $TEST_ENV_VAR_2";

    let test_string_with_values = env_vars::replace(&env_vars_map, test_string, false);

    assert_eq!(test_string_with_values, "Hi there beautiful world");
}

#[test]
fn test_replace_env_vars_brackets() {
    let mut env_vars_map = EnvVarsMap::new();
    env_vars_map.insert(
        "TEST_ENV_VAR".to_string(),
        ("beautiful".to_string(), "Test".to_string()),
    );
    env_vars_map.insert(
        "TEST_ENV_VAR_2".to_string(),
        ("world".to_string(), "Test".to_string()),
    );
    let test_string = "Hi there ${TEST_ENV_VAR} ${TEST_ENV_VAR_2}";

    let test_string_with_values = env_vars::replace(&env_vars_map, test_string, false);

    assert_eq!(test_string_with_values, "Hi there beautiful world");
}

#[test]
fn replace_redacts_known_and_unknown() {
    let m = env(&[("TOKEN", "s3cr3t", "keyring")]);
    assert_eq!(
        env_vars::replace(&m, "curl -H $TOKEN $MISSING", true),
        "curl -H [value of TOKEN] [unavailable value of MISSING]"
    );
    assert_eq!(
        env_vars::replace(&m, "curl -H $TOKEN $MISSING", false),
        "curl -H s3cr3t [unavailable value of MISSING]"
    );
}

#[test]
fn replace_reference_edges() {
    let m = env(&[("A", "1", "t"), ("AB", "2", "t")]);
    // The name is the longest run of word characters.
    assert_eq!(env_vars::replace(&m, "$AB", false), "2");
    assert_eq!(env_vars::replace(&m, "$A-B", false), "1-B");
    // A closing brace is taken even without an opening one.
    assert_eq!(env_vars::replace(&m, "$A}x", false), "1x");
    // An opening brace without a closing one.
    assert_eq!(env_vars::replace(&m, "${A x", false), "1 x");
    // A dollar sign without a name stays.
    assert_eq!(env_vars::replace(&m, "$ ${ $", false), "$ ${ $");
    assert_eq!(env_vars::replace(&m, "$$A", false), "$1");
    assert_eq!(env_vars::replace(&m, "", false), "");
    // Quotes are text like any other.
    assert_eq!(env_vars::replace(&m, "'$A' \"$AB\"", false), "'1' \"2\"");
}

#[test]
fn replace_unicode_word_characters() {
    let m = env(&[("café", "latte", "t"), ("x", "1", "t")]);
    assert_eq!(env_vars::replace(&m, "$café!", false), "latte!");
    // '€' is not a word character, 'é' is.
    assert_eq!(env_vars::replace(&m, "$x€", false), "1€");
    assert_eq!(env_vars::replace(&m, "$xé", false), "[unavailable value of xé]");
}

#[test]
fn replace_without_references_is_identity() {
    let m = env(&[("A", "1", "t")]);
    let text = "echo 'hello' { world } 100%";
    assert_eq!(env_vars::replace(&m, text, false), text);
    assert_eq!(env_vars::replace(&m, text, true), text);
}

#[test]
fn redaction_ignores_values() {
    let m1 = env(&[("A", "one", "t")]);
    let m2 = env(&[("A", "two", "u")]);
    let text = "x $A ${A} $B";
    assert_eq!(env_vars::replace(&m1, text, true), env_vars::replace(&m2, text, true));
}

#[test]
fn unknown_variables_same_when_redacted() {
    let m = EnvVarsMap::new();
    let text = "$ONE and ${TWO}";
    assert_eq!(env_vars::replace(&m, text, true), env_vars::replace(&m, text, false));
    assert_eq!(
        env_vars::replace(&m, text, true),
        "[unavailable value of ONE] and [unavailable value of TWO]"
    );
}

#[test]
fn replace_with_given_word_flags() {
    let m = env(&[("A", "1", "t")]);
    // With '-' counted as a word character the name runs on.
    let flags = vec![false, true, true, true];
    assert_eq!(
        env_vars::replace_with_word_flags(&m, "$A-B", &flags, false),
        "[unavailable value of A-B]"
    );
    assert_eq!(env_vars::word_flags_of("$A-é"), vec![false, true, false, true]);
}

/// The expansion computed with the `regex` crate and `\$\{?(\w+)\}?`.
fn replace_by_regex(re: &regex::Regex, m: &EnvVarsMap, text: &str, redact: bool) -> String {
    let mut result = String::new();
    let mut last_end = 0;
    for caps in re.captures_iter(text) {
        let whole = caps.get(0).unwrap();
        let name = &caps[1];
        result.push_str(&text[last_end..whole.start()]);
        let value = m.get(name).map(|(v, _)| v.clone());
        let value = match (redact, value) {
            (true, Some(_)) => format!("[value of {name}]"),
            (false, Some(v)) => v,
            (_, None) => format!("[unavailable value of {name}]"),
        };
        result.push_str(&value);
        last_end = whole.end();
    }
    result.push_str(&text[last_end..]);
    result
}

#[test]
fn replace_agrees_with_regex() {
    let m = env(&[("A", "1", "t"), ("B_2", "two", "t"), ("ü", "u", "t")]);
    let pieces = ["$", "{", "}", "A", "B_2", "ü", " ", "-", "x", "$$", "${", "€", "_"];
    let re = regex::Regex::new(r"\$\{?(\w+)\}?").unwrap();
    let mut seed: u64 = 12345;
    for _ in 0..400 {
        let mut text = String::new();
        seed = seed.wrapping_mul(6364136223846793005).wrapping_add(1442695040888963407);
        let len = (seed >> 60) as usize;
        for _ in 0..len {
            seed = seed.wrapping_mul(6364136223846793005).wrapping_add(1442695040888963407);
            text.push_str(pieces[(seed >> 33) as usize % pieces.len()]);
        }
        for redact in [false, true] {
            assert_eq!(
                env_vars::replace(&m, &text, redact),
                replace_by_regex(&re, &m, &text, redact),
                "text {text:?}"
            );
        }
    }
}

#[test]
fn verify_name_accepts_only_ascii_words() {
    assert!(env_vars::verify_name("GITHUB_TOKEN".to_string()));
    assert!(env_vars::verify_name("a1_B".to_string()));
    assert!(!env_vars::verify_name("".to_string()));
    assert!(!env_vars::verify_name("MY-SECRET".to_string()));
    assert!(!env_vars::verify_name("CAFÉ".to_string()));
    assert!(!env_vars::verify_name("A\n".to_string()));
}

#[test]
fn get_from_all_order() {
    let aliases = env(&[("X", "alias", "a")]);
    let local = env(&[("X", "local", "l"), ("Y", "local", "l")]);
    let process = env(&[("Y", "process", "p"), ("Z", "process", "p")]);
    let keyring = env(&[("Z", "keyring", "k"), ("W", "keyring", "k"), ("V", "keyring", "k")]);
    let sources = env(&[("W", "sources", "s")]);
    let get = |n: &str| env_vars::get_from_all(n, &aliases, &local, &process, &keyring, &sources);
    assert_eq!(get("X").as_deref(), Some("alias"));
    assert_eq!(get("Y").as_deref(), Some("local"));
    assert_eq!(get("Z").as_deref(), Some("process"));
    assert_eq!(get("W").as_deref(), Some("sources"));
    assert_eq!(get("V").as_deref(), Some("keyring"));
    assert_eq!(get("U"), None);
}

#[test]
fn variables_box_lines() {
    let m = env(&[("B", "secret", "keyring"), ("A KEY", "v", ".env")]);
    let lines = env_vars::print_variables_box(&m);
    assert_eq!(
        lines,
        vec![
            "┌───────┬─────────┐".to_string(),
            "│ Key   │ Source  │".to_string(),
            "├───────┼─────────┤".to_string(),
            "│ A\u{a0}KEY │ .env    │".to_string(),
            "│ B     │ keyring │".to_string(),
            "└───────┴─────────┘".to_string(),
        ]
    );
    assert!(env_vars::print_variables_box(&EnvVarsMap::new()).is_empty());
    // Widths come from byte lengths, as `str::len` counts them.
    let m = env(&[("É", "v", "s")]);
    let lines = env_vars::print_variables_box(&m);
    assert_eq!(lines[1], "│ Key │ Source │");
    assert_eq!(lines[3], "│ É  │ s │");
}

#[test]
fn reference_gives_back_stored_value() {
    let mut m = EnvVarsMap::new();
    m.insert("NAME".to_string(), ("stored value".to_string(), "t".to_string()));
    assert_eq!(env_vars::replace(&m, "${NAME}", false), "stored value");
    m.insert("NAME".to_string(), ("new".to_string(), "t".to_string()));
    assert_eq!(env_vars::replace(&m, "${NAME}", false), "new");
    assert_eq!(env_vars::replace(&m, "${OTHER}", false), "[unavailable value of OTHER]");
}

#[test]
fn variables_box_shows_no_values() {
    let m1 = env(&[("A", "one", "keyring"), ("B", "two", ".env")]);
    let m2 = env(&[("A", "a much longer value", "keyring"), ("B", "", ".env")]);
    assert_eq!(env_vars::print_variables_box(&m1), env_vars::print_variables_box(&m2));
}

#[test]
fn dollar_and_braces_are_the_same_reference() {
    let m = env(&[("X1", "hidden", "keyring")]);
    for redact in [false, true] {
        let plain = env_vars::replace(&m, "My secret is $X1", redact);
        let braced = env_vars::replace(&m, "My secret is ${X1}", redact);
        assert_eq!(plain, braced);
        let unknown_plain = env_vars::replace(&m, "My secret is $Y_2é", redact);
        let unknown_braced = env_vars::replace(&m, "My secret is ${Y_2é}", redact);
        assert_eq!(unknown_plain, unknown_braced);
    }
    assert_eq!(env_vars::replace(&m, "My secret is ${X1}", false), "My secret is hidden");
}

#[test]
fn word_flags_of_ascii_and_unicode() {
    assert_eq!(
        env_vars::word_flags_of("a_Z9{}$ é-"),
        vec![true, true, true, true, false, false, false, false, true, false]
    );
}
