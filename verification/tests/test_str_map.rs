use sm::library::utils::str_map::{EnvVarsMap, StringMap};

#[test]
fn insert_then_get() {
    let mut m = StringMap::new();
    m.insert("b".to_string(), "1".to_string());
    m.insert("a".to_string(), "2".to_string());
    m.insert("b".to_string(), "3".to_string());
    assert_eq!(m.get("b").map(|s| s.as_str()), Some("3"));
    assert_eq!(m.get("a").map(|s| s.as_str()), Some("2"));
    assert_eq!(m.get("c"), None);
    assert!(m.contains_key("a"));
    assert!(!m.contains_key("c"));
    assert_eq!(m.len(), 2);
}

#[test]
fn keys_walk_in_string_order() {
    let mut m = StringMap::new();
    for k in ["zeta", "Zeta", "alpha", "al", "é", "_x", "10", "9"] {
        m.insert(k.to_string(), k.to_uppercase());
    }
    let keys: Vec<String> = (0..m.len()).map(|i| m.key_at(i).clone()).collect();
    let mut sorted = keys.clone();
    sorted.sort();
    assert_eq!(keys, sorted);
    assert_eq!(m.value_at(0), &"10".to_string());
}

#[test]
fn update_prefers_other() {
    let mut a = EnvVarsMap::new();
    a.insert("X".to_string(), ("1".to_string(), "a".to_string()));
    a.insert("Y".to_string(), ("2".to_string(), "a".to_string()));
    let mut b = EnvVarsMap::new();
    b.insert("Y".to_string(), ("3".to_string(), "b".to_string()));
    b.insert("Z".to_string(), ("4".to_string(), "b".to_string()));
    a.update(&b);
    assert_eq!(a.len(), 3);
    assert_eq!(a.get("Y"), Some(&("3".to_string(), "b".to_string())));
    assert_eq!(a.get("X"), Some(&("1".to_string(), "a".to_string())));
    let c = a.copy();
    assert_eq!(c.get("Z"), Some(&("4".to_string(), "b".to_string())));
}
