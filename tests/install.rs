use cargo_ui::install::{apply_install_list, parse_install_list, show_progress, InstallJob, InstallListError, InstallQueue, InstalledCrate};

fn install(n: &str) -> InstallJob {
    InstallJob::Install(n.to_string())
}

#[test]
fn second_job_waits_for_the_first() {
    let mut q = InstallQueue::new();
    assert!(q.submit(install("alpha")));
    assert!(!q.submit(install("beta")));
    assert_eq!(q.currently_installing(), "alpha");
    assert!(q.is_queued("beta"));
    assert!(q.is_queued("alpha"));
    assert!(q.complete());
    assert_eq!(q.currently_installing(), "beta");
    assert!(q.is_queued("beta"));
    assert!(!q.is_queued("alpha"));
    assert!(!q.complete());
    assert!(!q.is_queued("beta"));
    assert_eq!(q.currently_installing(), "");
    assert!(q.active().is_none());
}

#[test]
fn waiting_jobs_for_one_crate_coalesce() {
    let mut q = InstallQueue::new();
    assert!(q.submit(install("alpha")));
    assert!(!q.submit(install("beta")));
    assert!(!q.submit(InstallJob::Uninstall("beta".to_string())));
    assert!(q.is_waiting("beta"));
    assert!(!q.is_waiting("alpha"));
    assert!(q.complete());
    assert!(matches!(q.active(), Some(InstallJob::Install(n)) if n == "beta"));
    assert!(!q.complete());
    assert!(q.active().is_none());
    // the running crate may be queued again behind itself
    assert!(q.submit(install("gamma")));
    assert!(!q.submit(install("gamma")));
    assert!(q.is_waiting("gamma"));
}

#[test]
fn job_arguments() {
    assert_eq!(install("ripgrep").cargo_args(), vec!["install", "--force", "ripgrep"]);
    assert_eq!(InstallJob::Uninstall("ripgrep".to_string()).cargo_args(), vec!["uninstall", "ripgrep"]);
    assert_eq!(InstallJob::Uninstall("x".to_string()).crate_name(), "x");
}

fn lines(s: &[&str]) -> Vec<String> {
    s.iter().map(|l| l.to_string()).collect()
}

#[test]
fn install_list_is_read() {
    let out = lines(&[
        "cargo-edit v0.8.0:",
        "    cargo-add",
        "    cargo-rm",
        "ripgrep v13.0.0 (/home/me/rg):",
        "    rg",
    ]);
    let list = parse_install_list(&out).ok().unwrap();
    let pairs: Vec<(String, String)> = list.iter().map(|c| (c.name.clone(), c.version.clone())).collect();
    assert_eq!(
        pairs,
        vec![("cargo-edit".to_string(), "v0.8.0".to_string()), ("ripgrep".to_string(), "v13.0.0".to_string())]
    );
    assert!(parse_install_list(&vec![]).ok().unwrap().is_empty());
}

#[test]
fn install_list_errors() {
    assert!(matches!(parse_install_list(&lines(&["garbage"])), Err(InstallListError::ExpectedCrateDescription(_))));
    assert!(matches!(parse_install_list(&lines(&["foo 1.0:"])), Err(InstallListError::ExpectedVersion(_))));
    assert!(matches!(parse_install_list(&lines(&["foo v1.0:", "bar v2.0:"])), Err(InstallListError::ExpectedCrateName(_))));
}

fn installed(name: &str, version: &str) -> InstalledCrate {
    InstalledCrate {
        name: name.to_string(),
        version: version.to_string(),
        queued: false,
        new_version: String::new(),
        progress: false,
        status: String::new(),
    }
}

#[test]
fn installed_list_gets_flags() {
    let mut q = InstallQueue::new();
    q.submit(install("ripgrep"));
    q.submit(install("bat"));
    q.submit(install("bat"));
    let list = vec![installed("ripgrep", "v13.0.0"), installed("fd-find", "v8.0.0"), installed("old", "13.0.0")];
    let latest = vec![Some("14.1.0".to_string()), Some("8.0.0".to_string()), Some("14.0.0".to_string())];
    let r = apply_install_list(list, &latest, &q);
    assert_eq!(r.len(), 4);
    assert!(r[0].queued);
    assert_eq!(r[0].new_version, "14.1.0");
    assert!(!r[1].queued);
    assert_eq!(r[1].new_version, "");
    assert_eq!(r[2].new_version, "");
    assert_eq!(r[3].name, "bat");
    assert!(r[3].queued);
    assert_eq!(r[3].version, "");
}

#[test]
fn progress_goes_to_the_crate_row() {
    let mut list = vec![installed("a", "v1.0.0"), installed("b", "v1.0.0")];
    show_progress(&mut list, "b", "Compiling b".to_string());
    assert!(!list[0].progress);
    assert!(list[1].progress);
    assert_eq!(list[1].status, "Compiling b");
    show_progress(&mut list, "zzz", "x".to_string());
    assert_eq!(list[0].status, "");
}
