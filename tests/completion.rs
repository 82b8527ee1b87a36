use cargo_ui::completion::{completion_shard, completions};

fn names(v: &[&str]) -> Vec<String> {
    v.iter().map(|s| s.to_string()).collect()
}

#[test]
fn short_queries_find_nothing() {
    let all = names(&["serde", "ser", "serial"]);
    assert!(completions("ser", &all).is_empty());
    assert!(completion_shard("ser").is_none());
    assert!(completions("", &all).is_empty());
}

#[test]
fn non_ascii_queries_find_nothing() {
    assert!(completion_shard("s\u{e9}rde").is_none());
    assert!(completions("s\u{e9}rde", &names(&["s\u{e9}rde"])).is_empty());
}

#[test]
fn four_characters_find_prefixed_names() {
    let all = names(&["serde", "serde_json", "sera", "seri", "serde-value"]);
    assert_eq!(completions("serd", &all), vec!["serde", "serde_json", "serde-value"]);
    assert_eq!(completion_shard("serde"), Some(("se".to_string(), "rd".to_string())));
}

#[test]
fn at_most_fifty() {
    let all: Vec<String> = (0..80).map(|i| format!("toki{}", i)).collect();
    let r = completions("toki", &all);
    assert_eq!(r.len(), 50);
    assert_eq!(r[0], "toki0");
    assert_eq!(r[49], "toki49");
    assert!(r.iter().all(|n| n.starts_with("toki")));
}
