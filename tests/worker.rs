use cargo_ui::command::{Action, FeatureSettings};
use cargo_ui::depgraph::DepKind;
use cargo_ui::install::InstallJob;
use cargo_ui::manifest::Manifest;
use cargo_ui::version::is_newer_version;
use cargo_ui::worker::{
    install_worker_step, manifest_argument, rustup_worker_step, CargoInstallMessage, CargoMessage, ListingStep, RustupMessage,
    Worker, WorkerAction, WorkerEvent,
};

fn worker() -> Worker {
    Worker::new(Manifest::from_path("/p/Cargo.toml".to_string(), false))
}

#[test]
fn metadata_then_index() {
    let mut w = worker();
    let r = w.step(WorkerEvent::MetadataLoaded(true));
    assert!(matches!(r.as_slice(), [WorkerAction::ApplyMetadata(true)]));
    assert!(!w.update_features);
    let r = w.step(WorkerEvent::InstallListLoaded);
    assert!(matches!(r.as_slice(), [WorkerAction::ApplyInstallList]));
    let r = w.step(WorkerEvent::IndexLoaded(true));
    assert!(matches!(r.as_slice(), [WorkerAction::ApplyMetadata(false), WorkerAction::RefreshInstallList]));
    assert!(w.has_index);
}

#[test]
fn failed_metadata_keeps_nothing() {
    let mut w = worker();
    let r = w.step(WorkerEvent::MetadataLoaded(false));
    assert!(r.is_empty());
    assert!(!w.has_metadata);
    let r = w.step(WorkerEvent::Message(CargoMessage::DependencyRemove {
        parent_package: "p".to_string(),
        crate_name: "c".to_string(),
        dep_kind: DepKind::Normal,
    }));
    assert!(r.is_empty());
}

#[test]
fn reload_restarts_metadata() {
    let mut w = worker();
    let r = w.step(WorkerEvent::Message(CargoMessage::ReloadManifest("/q".to_string(), true)));
    match r.as_slice() {
        [WorkerAction::StartMetadata(p)] => assert_eq!(p, "/q/Cargo.toml"),
        _ => panic!("expected a metadata read"),
    }
    assert!(w.update_features);
}

#[test]
fn installs_run_one_at_a_time() {
    let mut w = worker();
    let r = w.step(WorkerEvent::Message(CargoMessage::Install(InstallJob::Install("a".to_string()))));
    assert!(matches!(r.as_slice(), [WorkerAction::StartInstall(InstallJob::Install(n))] if n == "a"));
    let r = w.step(WorkerEvent::Message(CargoMessage::Install(InstallJob::Uninstall("b".to_string()))));
    assert!(r.is_empty());
    assert!(w.installs.is_queued("b"));
    let r = w.step(WorkerEvent::InstallFinished);
    assert!(matches!(r.as_slice(), [WorkerAction::RefreshInstallList, WorkerAction::StartInstall(InstallJob::Uninstall(n))] if n == "b"));
    let r = w.step(WorkerEvent::InstallFinished);
    assert!(matches!(r.as_slice(), [WorkerAction::RefreshInstallList]));
    assert!(!w.installs.is_queued("b"));
}

#[test]
fn run_and_cancel() {
    let mut w = worker();
    let a = Action {
        command: "build".to_string(),
        profile: "debug".to_string(),
        extra: String::new(),
        package: String::new(),
        arguments: String::new(),
    };
    let f = FeatureSettings { enabled_features: vec![], enable_default_features: true };
    let r = w.step(WorkerEvent::Message(CargoMessage::Action { action: a, feature_settings: f }));
    assert!(matches!(r.as_slice(), [WorkerAction::StartRun(_, _)]));
    assert!(w.run_busy);
    let r = w.step(WorkerEvent::Message(CargoMessage::Cancel));
    assert!(matches!(r.as_slice(), [WorkerAction::CancelRun]));
    assert!(!w.run_busy);
    assert!(matches!(w.step(WorkerEvent::Message(CargoMessage::Quit)).as_slice(), [WorkerAction::Stop]));
}

#[test]
fn completion_needs_the_index() {
    let mut w = worker();
    assert!(w.step(WorkerEvent::Message(CargoMessage::UpdateCompletion("serde".to_string()))).is_empty());
    w.step(WorkerEvent::IndexLoaded(true));
    let r = w.step(WorkerEvent::Message(CargoMessage::UpdateCompletion("serde".to_string())));
    assert!(matches!(r.as_slice(), [WorkerAction::StartCompletion(q)] if q == "serde"));
}

#[test]
fn open_dialog_starts_in_manifest_directory() {
    let mut w = worker();
    let r = w.step(WorkerEvent::Message(CargoMessage::ShowOpenDialog));
    assert!(matches!(r.as_slice(), [WorkerAction::PickManifest(Some(d))] if d == "/p"));
}

#[test]
fn dependency_edits_wait_for_metadata_and_index() {
    let mut w = worker();
    w.step(WorkerEvent::MetadataLoaded(true));
    let add = || WorkerEvent::Message(CargoMessage::DependencyAdd { crate_name: "rand".to_string(), dep_kind: DepKind::Build });
    assert!(w.step(add()).is_empty());
    w.step(WorkerEvent::IndexLoaded(true));
    let r = w.step(add());
    assert!(matches!(r.as_slice(), [WorkerAction::AddDependency { crate_name, dep_kind: DepKind::Build, .. }] if crate_name == "rand"));
    let r = w.step(WorkerEvent::ManifestEdited(true));
    assert!(matches!(r.as_slice(), [WorkerAction::StartMetadata(p)] if p == "/p/Cargo.toml"));
    assert!(w.step(WorkerEvent::ManifestEdited(false)).is_empty());
}

#[test]
fn listing_workers() {
    assert_eq!(install_worker_step(Some(CargoInstallMessage::Refresh)), ListingStep::Restart);
    assert_eq!(install_worker_step(Some(CargoInstallMessage::Quit)), ListingStep::Stop);
    assert_eq!(install_worker_step(None), ListingStep::Stop);
    assert_eq!(rustup_worker_step(Some(RustupMessage::Quit)), ListingStep::Stop);
}

#[test]
fn manifest_argument_skips_ui_and_options() {
    let args: Vec<String> = ["cargo-ui", "ui", "--verbose", "/p"].iter().map(|s| s.to_string()).collect();
    assert_eq!(manifest_argument(&args), Some(3));
    let args: Vec<String> = ["cargo-ui", "ui"].iter().map(|s| s.to_string()).collect();
    assert_eq!(manifest_argument(&args), None);
}

#[test]
fn versions_compare_by_semver() {
    assert!(is_newer_version("1.10.0", "1.9.0"));
    assert!(!is_newer_version("1.0.0", "1.0.0"));
    assert!(!is_newer_version("1.0.0-beta", "1.0.0"));
    assert!(!is_newer_version("not a version", "1.0.0"));
}

#[test]
fn toolchains_are_read() {
    let t = cargo_ui::toolchain::parse_toolchains(vec!["stable-x86_64 (default)".to_string(), "nightly-x86_64".to_string()]);
    assert!(t[0].default);
    assert!(!t[1].default);
    assert_eq!(t[1].name, "nightly-x86_64");
}
