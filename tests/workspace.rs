use cargo_ui::workspace::{apply_metadata, edit_target, FeatureGroup, MemberPackage, Target, Workspace};

fn target(name: &str, kinds: &[&str]) -> Target {
    Target { name: name.to_string(), kinds: kinds.iter().map(|k| k.to_string()).collect() }
}

fn group(name: &str, members: &[&str]) -> FeatureGroup {
    FeatureGroup { name: name.to_string(), members: members.iter().map(|k| k.to_string()).collect() }
}

fn ws() -> Workspace {
    Workspace {
        members: vec![
            MemberPackage {
                name: "core".to_string(),
                package: 3,
                manifest_path: "/w/core/Cargo.toml".to_string(),
                features: vec![group("default", &["fast"]), group("fast", &[]), group("slow", &[])],
                targets: vec![target("core", &["lib"]), target("bench", &["example"]), target("it", &["test"])],
            },
            MemberPackage {
                name: "cli".to_string(),
                package: 5,
                manifest_path: "/w/cli/Cargo.toml".to_string(),
                features: vec![group("color", &[])],
                targets: vec![target("cli", &["bin"])],
            },
        ],
    }
}

#[test]
fn whole_workspace_is_shown_without_selection() {
    let v = apply_metadata(&ws(), &String::new(), true);
    assert_eq!(v.package, "");
    assert_eq!(v.packages, vec!["", "core", "cli"]);
    assert_eq!(v.run_targets, vec!["bench (example)", "cli"]);
    assert_eq!(v.test_targets, vec!["it"]);
    assert!(v.allow_package_selection);
    assert!(!v.package_selected);
    assert_eq!(v.roots, vec![3, 5]);
    let f = v.features.unwrap();
    let names: Vec<(String, bool)> = f.iter().map(|f| (f.name.clone(), f.enabled_by_default)).collect();
    assert_eq!(
        names,
        vec![("core/fast".to_string(), true), ("core/slow".to_string(), false), ("cli/color".to_string(), false)]
    );
}

#[test]
fn one_member_selected() {
    let v = apply_metadata(&ws(), &"cli".to_string(), false);
    assert_eq!(v.package, "cli");
    assert!(v.package_selected);
    assert_eq!(v.run_targets, vec!["cli"]);
    assert!(v.test_targets.is_empty());
    assert_eq!(v.roots, vec![5]);
    assert!(v.features.is_none());
}

#[test]
fn vanished_selection_is_dropped() {
    let v = apply_metadata(&ws(), &"gone".to_string(), false);
    assert_eq!(v.package, "");
    assert!(v.features.is_some());
    assert_eq!(v.roots, vec![3, 5]);
}

#[test]
fn edits_go_to_the_selected_or_first_member() {
    assert_eq!(edit_target(&ws(), ""), Some("/w/core/Cargo.toml".to_string()));
    assert_eq!(edit_target(&ws(), "cli"), Some("/w/cli/Cargo.toml".to_string()));
    assert_eq!(edit_target(&ws(), "gone"), None);
    assert_eq!(edit_target(&Workspace { members: vec![] }, ""), None);
}
