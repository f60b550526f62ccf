use ezcli::env_map::{compare_keys, EnvMap, KeyOrder};

fn keys(m: &EnvMap) -> Vec<String> {
    (0..m.len()).map(|i| m.key_at(i).clone()).collect()
}

#[test]
fn insert_keeps_keys_sorted_and_unique() {
    let mut m = EnvMap::new();
    m.insert("b".to_string(), "1".to_string());
    m.insert("a".to_string(), "2".to_string());
    m.insert("c".to_string(), "3".to_string());
    m.insert("b".to_string(), "4".to_string());
    assert_eq!(keys(&m), vec!["a", "b", "c"]);
    assert_eq!(m.value_at(1), "4");
    assert_eq!(m.len(), 3);
    assert!(!m.is_empty());
}

#[test]
fn key_order_is_byte_order() {
    assert_eq!(compare_keys("PATH", "Path"), KeyOrder::Less);
    assert_eq!(compare_keys("Path", "PATH"), KeyOrder::Greater);
    assert_eq!(compare_keys("A", "A"), KeyOrder::Equal);
    assert_eq!(compare_keys("A", "AB"), KeyOrder::Less);
    assert_eq!(compare_keys("", "A"), KeyOrder::Less);
    assert_eq!(compare_keys("é", "z"), KeyOrder::Greater);
    let mut v = vec!["é", "z", "Z", "a", "", "AB", "A"];
    let mut by_lib = v.clone();
    by_lib.sort_by(|a, b| match compare_keys(a, b) {
        KeyOrder::Less => std::cmp::Ordering::Less,
        KeyOrder::Equal => std::cmp::Ordering::Equal,
        KeyOrder::Greater => std::cmp::Ordering::Greater,
    });
    v.sort();
    assert_eq!(by_lib, v);
}

#[test]
fn get_finds_exact_key_only() {
    let mut m = EnvMap::new();
    m.insert("PATH".to_string(), "x".to_string());
    assert_eq!(m.get("PATH").map(|s| s.as_str()), Some("x"));
    assert_eq!(m.get("Path"), None);
    assert_eq!(m.get(""), None);
}

#[test]
fn clone_copies_entries() {
    let mut m = EnvMap::new();
    m.insert("K".to_string(), "V".to_string());
    let c = m.clone();
    assert_eq!(keys(&c), vec!["K"]);
    assert_eq!(c.value_at(0), "V");
}

#[test]
fn new_map_is_empty() {
    let m = EnvMap::new();
    assert!(m.is_empty());
    assert_eq!(m.len(), 0);
}
