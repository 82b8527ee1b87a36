use cargo_ui::index::{newest_of, stable_of};

fn entry(versions: &[&str]) -> crates_index::Crate {
    let cksum = "0".repeat(64);
    let lines: Vec<String> = versions
        .iter()
        .map(|v| format!("{{\"name\":\"foo\",\"vers\":\"{}\",\"deps\":[],\"features\":{{}},\"cksum\":\"{}\"}}", v, cksum))
        .collect();
    crates_index::Crate::from_slice(lines.join("\n").as_bytes()).unwrap()
}

#[test]
fn newest_prefers_the_highest_stable_release() {
    let c = entry(&["1.0.0", "1.2.0", "2.0.0-alpha.1", "1.10.0"]);
    assert_eq!(newest_of(&c), Some("1.10.0".to_string()));
    assert_eq!(stable_of(&c), Some("1.10.0".to_string()));
}

#[test]
fn newest_falls_back_to_the_highest_pre_release() {
    let c = entry(&["0.1.0-beta.1", "0.1.0-beta.3", "0.1.0-alpha"]);
    assert_eq!(newest_of(&c), Some("0.1.0-beta.3".to_string()));
    assert_eq!(stable_of(&c), None);
}
