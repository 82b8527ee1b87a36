use cargo_ui::command::{cargo_args, Action, ArgumentsError, Feature, FeatureSettings};

fn action(command: &str, profile: &str, extra: &str, package: &str, arguments: &str) -> Action {
    Action {
        command: command.to_string(),
        profile: profile.to_string(),
        extra: extra.to_string(),
        package: package.to_string(),
        arguments: arguments.to_string(),
    }
}

fn feature(name: &str, enabled: bool, by_default: bool) -> Feature {
    Feature { name: name.to_string(), enabled, enabled_by_default: by_default }
}

#[test]
fn feature_settings_with_default_set() {
    let fs = vec![feature("a", true, true), feature("b", true, false), feature("c", false, false)];
    let s = FeatureSettings::new(&fs, true);
    assert_eq!(s.enabled_features, vec!["b"]);
    let s = FeatureSettings::new(&fs, false);
    assert_eq!(s.enabled_features, vec!["a", "b"]);
    let mut args = Vec::new();
    s.to_args(&mut args);
    assert_eq!(args, vec!["--no-default-features", "--features", "a,b"]);
}

#[test]
fn run_example_in_release() {
    let s = FeatureSettings { enabled_features: vec![], enable_default_features: true };
    let a = action("run", "release", "demo (example)", "pkg", "--flag 'two words'");
    let args = cargo_args(&a, &s, "/p/Cargo.toml").ok().unwrap();
    assert_eq!(
        args,
        vec![
            "run", "--manifest-path", "/p/Cargo.toml", "--release", "--example", "demo", "-p", "pkg",
            "--message-format", "json", "--", "--flag", "two words"
        ]
    );
}

#[test]
fn run_binary_and_test_target() {
    let s = FeatureSettings { enabled_features: vec!["x".to_string()], enable_default_features: true };
    let args = cargo_args(&action("run", "debug", "tool", "", ""), &s, "M").ok().unwrap();
    assert_eq!(args, vec!["run", "--manifest-path", "M", "--bin", "tool", "--features", "x", "--message-format", "json"]);
    let args = cargo_args(&action("test", "debug", "integration", "", ""), &s, "M").ok().unwrap();
    assert_eq!(args, vec!["test", "--manifest-path", "M", "--test", "integration", "--features", "x", "--message-format", "json"]);
    let args = cargo_args(&action("build", "debug", "tool", "", ""), &s, "M").ok().unwrap();
    assert_eq!(args, vec!["build", "--manifest-path", "M", "--features", "x", "--message-format", "json"]);
}

#[test]
fn bad_quoting_is_refused() {
    let s = FeatureSettings { enabled_features: vec![], enable_default_features: true };
    assert!(matches!(cargo_args(&action("run", "debug", "", "", "'open"), &s, "M"), Err(ArgumentsError::Unparsable)));
}
