use cargo_ui::depgraph::DepKind;
use cargo_ui::manifest::{dependency_add, dependency_remove, dependency_upgrade_to_version, to_table_name, Manifest, ManifestError};

const TOML: &str = "[package]\nname = \"demo\"\n\n[dependencies]\nserde = \"1.0\"\ntoml = { version = \"0.5\", features = [\"x\"] }\nodd = 3\n";

#[test]
fn add_puts_the_version_in_the_table() {
    let out = dependency_add(TOML, "regex", "1.5.4", DepKind::Normal).ok().unwrap();
    assert!(out.contains("regex = \"1.5.4\""));
    assert!(out.contains("serde = \"1.0\""));
    let dev = dependency_add(TOML, "insta", "1.0.0", DepKind::Development).ok().unwrap();
    assert!(dev.contains("[dev-dependencies]"));
    assert!(dev.contains("insta = \"1.0.0\""));
}

#[test]
fn add_fails_when_already_listed() {
    assert!(matches!(dependency_add(TOML, "serde", "2.0", DepKind::Normal), Err(ManifestError::AlreadyListed)));
}

#[test]
fn add_fails_when_table_is_not_a_table() {
    let text = "dependencies = 5\n";
    assert!(matches!(dependency_add(text, "serde", "1", DepKind::Normal), Err(ManifestError::NotATable)));
}

#[test]
fn remove_takes_the_entry_out() {
    let out = dependency_remove(TOML, "serde", DepKind::Normal).ok().unwrap();
    assert!(!out.contains("serde"));
    assert!(out.contains("toml = "));
}

#[test]
fn remove_fails_when_absent() {
    assert!(matches!(dependency_remove(TOML, "rand", DepKind::Normal), Err(ManifestError::NotListed)));
    assert!(matches!(dependency_remove(TOML, "serde", DepKind::Build), Err(ManifestError::NotListed)));
}

#[test]
fn upgrade_sets_string_and_table_versions() {
    let out = dependency_upgrade_to_version(TOML, "serde", "1.0.130", DepKind::Normal).ok().unwrap();
    assert!(out.contains("serde = \"1.0.130\""));
    let out = dependency_upgrade_to_version(TOML, "toml", "0.7.0", DepKind::Normal).ok().unwrap();
    assert!(out.contains("version = \"0.7.0\""));
    assert!(out.contains("features = [\"x\"]"));
}

#[test]
fn upgrade_fails_when_absent_or_odd() {
    assert!(matches!(dependency_upgrade_to_version(TOML, "rand", "1", DepKind::Normal), Err(ManifestError::NotListed)));
    assert!(matches!(dependency_upgrade_to_version(TOML, "odd", "1", DepKind::Normal), Err(ManifestError::UnexpectedEntry)));
}

#[test]
fn unparsable_manifest_is_an_error() {
    assert!(matches!(dependency_add("[package", "a", "1", DepKind::Normal), Err(ManifestError::Parse(_))));
    assert!(matches!(dependency_remove("[package", "a", DepKind::Normal), Err(ManifestError::Parse(_))));
}

#[test]
fn table_names() {
    assert_eq!(to_table_name(DepKind::Normal), "dependencies");
    assert_eq!(to_table_name(DepKind::Development), "dev-dependencies");
    assert_eq!(to_table_name(DepKind::Build), "build-dependencies");
}

#[test]
fn manifest_paths() {
    let m = Manifest::from_path("/home/me/proj".to_string(), true);
    assert_eq!(m.path_to_cargo_toml(), "/home/me/proj/Cargo.toml");
    assert_eq!(m.directory(), Some("/home/me/proj".to_string()));
    let m = Manifest::from_path("/home/me/proj/".to_string(), true);
    assert_eq!(m.path_to_cargo_toml(), "/home/me/proj/Cargo.toml");
    let m = Manifest::from_path("/x/Cargo.toml".to_string(), false);
    assert_eq!(m.path_to_cargo_toml(), "/x/Cargo.toml");
    assert_eq!(Manifest::from_path("/".to_string(), false).directory(), None);
}

#[test]
fn remove_from_implicit_table_leaves_a_valid_manifest() {
    let text = "[package]\nname = \"demo\"\n\n[dependencies.foo]\nversion = \"1\"\n";
    let out = dependency_remove(text, "foo", DepKind::Normal).ok().unwrap();
    assert!(!out.contains("foo"));
    assert!(out.contains("name = \"demo\""));
    let again = dependency_add(&out, "bar", "2", DepKind::Normal).ok().unwrap();
    assert!(again.contains("bar = \"2\""));
}

#[test]
fn remove_dotted_dependency() {
    let text = "dependencies.foo = \"1\"\ndependencies.bar = \"2\"\n";
    let out = dependency_remove(text, "foo", DepKind::Normal).ok().unwrap();
    assert!(!out.contains("foo"));
    assert!(out.contains("bar"));
    let out = dependency_remove(&out, "bar", DepKind::Normal).ok().unwrap();
    assert!(!out.contains("bar"));
}
