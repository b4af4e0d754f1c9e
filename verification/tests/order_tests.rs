use llama_recipe_manager::order::{lex_le_exec, lookup_sorted, sort_keyed, upsert_sorted};

#[test]
fn string_order() {
    assert!(lex_le_exec("a", "b"));
    assert!(lex_le_exec("", "a"));
    assert!(lex_le_exec("ab", "ab"));
    assert!(!lex_le_exec("b", "ab"));
    assert!(lex_le_exec("Z", "a"));
    assert!(lex_le_exec("GPU[10]", "GPU[2]"));
    assert!(lex_le_exec("é", "\u{10000}"));
    assert_eq!(lex_le_exec("abc", "abd"), "abc" <= "abd");
}

#[test]
fn stable_sort_by_key() {
    let v = vec![
        ("b".to_string(), 1),
        ("a".to_string(), 2),
        ("b".to_string(), 3),
        ("a".to_string(), 4),
    ];
    let r = sort_keyed(v);
    let got: Vec<(&str, i32)> = r.iter().map(|(k, x)| (k.as_str(), *x)).collect();
    assert_eq!(got, vec![("a", 2), ("a", 4), ("b", 1), ("b", 3)]);
}

#[test]
fn sorted_map_upsert_and_lookup() {
    let mut m: Vec<(String, u64)> = Vec::new();
    upsert_sorted(&mut m, "k2".to_string(), 2);
    upsert_sorted(&mut m, "k1".to_string(), 1);
    upsert_sorted(&mut m, "k2".to_string(), 20);
    upsert_sorted(&mut m, "k3".to_string(), 3);
    let keys: Vec<&str> = m.iter().map(|(k, _)| k.as_str()).collect();
    assert_eq!(keys, vec!["k1", "k2", "k3"]);
    assert_eq!(lookup_sorted(&m, "k2"), Some(20));
    assert_eq!(lookup_sorted(&m, "k4"), None);
}
