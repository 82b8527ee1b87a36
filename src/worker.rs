//! The decisions of the worker that owns the long-running operations. Each
//! operation lives in a slot; starting one in a busy slot replaces (and so
//! cancels) what ran there. The caller performs the actions this returns
//! and hands back what comes of them as events.

use vstd::prelude::*;
use crate::command::{Action, FeatureSettings};
use crate::depgraph::DepKind;
use crate::install::{InstallJob, InstallQueue, JobModel, submit_spec, complete_spec};
use crate::manifest::{Manifest, join_spec, parent_of};

verus! {

/// A command of the user for the worker.
pub enum CargoMessage {
    Quit,
    Action { action: Action, feature_settings: FeatureSettings },
    /// A manifest path picked by the user, and whether it is a directory.
    ReloadManifest(String, bool),
    PackageSelected(String),
    /// The user asks to pick a manifest.
    ShowOpenDialog,
    Cancel,
    /// Remove the dependency `crate_name` from the package `parent_package`.
    DependencyRemove { parent_package: String, crate_name: String, dep_kind: DepKind },
    /// Upgrade the dependency `crate_name` in the package `parent_package`.
    DependencyUpgrade { parent_package: String, crate_name: String, dep_kind: DepKind },
    DependencyAdd { crate_name: String, dep_kind: DepKind },
    Install(InstallJob),
    UpdateCompletion(String),
}

/// What reaches the worker: a command, or the end of an operation it started.
pub enum WorkerEvent {
    Message(CargoMessage),
    /// A manifest edit was done; `true` when the file was written.
    ManifestEdited(bool),
    /// The build, test, run or check ended.
    RunFinished,
    /// Reading metadata ended; `true` when it was read.
    MetadataLoaded(bool),
    /// Loading the registry index ended; `true` when it loaded.
    IndexLoaded(bool),
    /// The list of installed crates was read.
    InstallListLoaded,
    /// The active install or uninstall ended, successfully or not.
    InstallFinished,
    CompletionFinished,
    /// Nobody can send commands any more.
    Disconnected,
}

/// What the worker asks the caller to do.
pub enum WorkerAction {
    /// End the worker; every running operation is dropped.
    Stop,
    /// Start a build, test, run or check in the run slot, replacing the one
    /// running there.
    StartRun(Action, FeatureSettings),
    /// Drop the operation in the run slot.
    CancelRun,
    /// Read the metadata of the manifest at this path, replacing any read
    /// under way.
    StartMetadata(String),
    /// Lay the workspace out again from the metadata at hand; the flag says
    /// whether the feature list is shown anew.
    ApplyMetadata(bool),
    /// Remove, upgrade or add a dependency in a manifest, then report
    /// `ManifestEdited`.
    RemoveDependency { parent_package: String, crate_name: String, dep_kind: DepKind },
    UpgradeDependency { parent_package: String, crate_name: String, dep_kind: DepKind },
    AddDependency { package: String, crate_name: String, dep_kind: DepKind },
    /// Read the list of installed crates again.
    RefreshInstallList,
    /// Show the list just read, with the queue's flags.
    ApplyInstallList,
    /// Run this install or uninstall job.
    StartInstall(InstallJob),
    /// Look for completions of this query, replacing any search under way.
    StartCompletion(String),
    /// Let the user pick a manifest, starting in this directory if any, then
    /// send `ReloadManifest`.
    PickManifest(Option<String>),
}

/// The worker's state.
pub struct Worker {
    pub manifest: Manifest,
    /// The selected package, empty for none.
    pub package: String,
    /// Whether the next layout shows the feature list anew.
    pub update_features: bool,
    pub has_metadata: bool,
    pub has_index: bool,
    pub run_busy: bool,
    pub install_list_busy: bool,
    pub installs: InstallQueue,
}

/// A copy of a job.
pub fn copy_job(j: &InstallJob) -> (r: InstallJob)
    ensures
        r@ == j@,
{
    match j {
        InstallJob::Install(n) => InstallJob::Install(n.clone()),
        InstallJob::Uninstall(n) => InstallJob::Uninstall(n.clone()),
    }
}

/// The events that may change each part of the worker's state.
pub open spec fn sets_manifest(e: WorkerEvent) -> bool {
    e matches WorkerEvent::Message(CargoMessage::ReloadManifest(_, _))
}

pub open spec fn sets_package(e: WorkerEvent) -> bool {
    e matches WorkerEvent::Message(CargoMessage::PackageSelected(_))
}

pub open spec fn sets_update_features(e: WorkerEvent) -> bool {
    e matches WorkerEvent::Message(CargoMessage::ReloadManifest(_, _)) || e is MetadataLoaded || e is IndexLoaded
}

pub open spec fn sets_run(e: WorkerEvent) -> bool {
    e matches WorkerEvent::Message(CargoMessage::Action { .. }) || e matches WorkerEvent::Message(CargoMessage::Cancel)
        || e is RunFinished
}

pub open spec fn sets_install_list(e: WorkerEvent) -> bool {
    e is IndexLoaded || e is InstallListLoaded || e is InstallFinished
}

pub open spec fn sets_installs(e: WorkerEvent) -> bool {
    e matches WorkerEvent::Message(CargoMessage::Install(_)) || e is InstallFinished
}

/// Whether an action starts the given job.
pub open spec fn starts_job(a: WorkerAction, job: JobModel) -> bool {
    a matches WorkerAction::StartInstall(j) && j@ == job
}

pub open spec fn starts_run(a: WorkerAction, action: Action, f: FeatureSettings) -> bool {
    a matches WorkerAction::StartRun(a2, f2) && a2 == action && f2 == f
}

pub open spec fn starts_metadata(a: WorkerAction, path: Seq<char>) -> bool {
    a matches WorkerAction::StartMetadata(m) && m@ == path
}

pub open spec fn applies_metadata(a: WorkerAction, update_features: bool) -> bool {
    a matches WorkerAction::ApplyMetadata(u) && u == update_features
}

pub open spec fn removes(a: WorkerAction, parent: Seq<char>, name: Seq<char>, kind: DepKind) -> bool {
    a matches WorkerAction::RemoveDependency { parent_package: p, crate_name: c, dep_kind: k } && p@ == parent && c@ == name && k == kind
}

pub open spec fn upgrades(a: WorkerAction, parent: Seq<char>, name: Seq<char>, kind: DepKind) -> bool {
    a matches WorkerAction::UpgradeDependency { parent_package: p, crate_name: c, dep_kind: k } && p@ == parent && c@ == name && k == kind
}

pub open spec fn adds(a: WorkerAction, package: Seq<char>, name: Seq<char>, kind: DepKind) -> bool {
    a matches WorkerAction::AddDependency { package: p, crate_name: c, dep_kind: k } && p@ == package && c@ == name && k == kind
}

pub open spec fn picks_manifest(a: WorkerAction, dir: Option<Seq<char>>) -> bool {
    a matches WorkerAction::PickManifest(d) && match d {
        Some(s) => dir == Some(s@),
        None => dir is None,
    }
}

pub open spec fn starts_completion(a: WorkerAction, q: Seq<char>) -> bool {
    a matches WorkerAction::StartCompletion(q2) && q2@ == q
}

impl Worker {
    /// The state at start: the manifest given, nothing loaded; the caller
    /// starts reading metadata, loading the index and reading the install
    /// list.
    pub fn new(manifest: Manifest) -> (r: Self)
        ensures
            r.manifest == manifest,
            r.package@.len() == 0,
            r.update_features,
            !r.has_metadata,
            !r.has_index,
            !r.run_busy,
            r.install_list_busy,
            r.installs@.active is None,
            r.installs@.waiting.len() == 0,
    {
        Worker {
            manifest,
            package: String::new(),
            update_features: true,
            has_metadata: false,
            has_index: false,
            run_busy: false,
            install_list_busy: true,
            installs: InstallQueue::new(),
        }
    }

    /// Takes one event and says what to do.
    pub fn step(&mut self, event: WorkerEvent) -> (r: Vec<WorkerAction>)
        ensures
            !sets_manifest(event) ==> final(self).manifest == old(self).manifest,
            !sets_package(event) ==> final(self).package == old(self).package,
            !sets_update_features(event) ==> final(self).update_features == old(self).update_features,
            !(event is MetadataLoaded) ==> final(self).has_metadata == old(self).has_metadata,
            !(event is IndexLoaded) ==> final(self).has_index == old(self).has_index,
            !sets_run(event) ==> final(self).run_busy == old(self).run_busy,
            !sets_install_list(event) ==> final(self).install_list_busy == old(self).install_list_busy,
            !sets_installs(event) ==> final(self).installs@ == old(self).installs@,
            match event {
                WorkerEvent::Message(CargoMessage::Quit) | WorkerEvent::Disconnected => r@.len() == 1 && r@[0] is Stop,
                WorkerEvent::Message(CargoMessage::Action { action, feature_settings }) => r@.len() == 1
                    && starts_run(r@[0], action, feature_settings) && final(self).run_busy,
                WorkerEvent::Message(CargoMessage::ShowOpenDialog) => r@.len() == 1
                    && picks_manifest(r@[0], parent_of(old(self).manifest.path@)),
                WorkerEvent::Message(CargoMessage::Cancel) => r@.len() == 1 && r@[0] is CancelRun && !final(self).run_busy,
                WorkerEvent::Message(CargoMessage::ReloadManifest(p, is_dir)) => {
                    &&& (is_dir ==> final(self).manifest.path@ == join_spec(p@, "Cargo.toml"@))
                    &&& (!is_dir ==> final(self).manifest.path@ == p@)
                    &&& final(self).update_features
                    &&& r@.len() == 1
                    &&& starts_metadata(r@[0], final(self).manifest.path@)
                },
                WorkerEvent::Message(CargoMessage::PackageSelected(p)) => {
                    &&& final(self).package@ == p@
                    &&& old(self).has_metadata ==> r@.len() == 1 && applies_metadata(r@[0], true)
                    &&& !old(self).has_metadata ==> r@.len() == 0
                },
                WorkerEvent::Message(CargoMessage::DependencyRemove { parent_package, crate_name, dep_kind }) => {
                    &&& old(self).has_metadata ==> r@.len() == 1 && removes(r@[0], parent_package@, crate_name@, dep_kind)
                    &&& !old(self).has_metadata ==> r@.len() == 0
                },
                WorkerEvent::Message(CargoMessage::DependencyUpgrade { parent_package, crate_name, dep_kind }) => {
                    &&& old(self).has_metadata && old(self).has_index ==> r@.len() == 1
                        && upgrades(r@[0], parent_package@, crate_name@, dep_kind)
                    &&& !(old(self).has_metadata && old(self).has_index) ==> r@.len() == 0
                },
                WorkerEvent::Message(CargoMessage::DependencyAdd { crate_name, dep_kind }) => {
                    &&& old(self).has_metadata && old(self).has_index ==> r@.len() == 1
                        && adds(r@[0], old(self).package@, crate_name@, dep_kind)
                    &&& !(old(self).has_metadata && old(self).has_index) ==> r@.len() == 0
                },
                WorkerEvent::ManifestEdited(ok) => {
                    &&& ok ==> r@.len() == 1 && starts_metadata(r@[0], old(self).manifest.path@)
                    &&& !ok ==> r@.len() == 0
                },
                WorkerEvent::Message(CargoMessage::Install(job)) => {
                    &&& final(self).installs@ == submit_spec(old(self).installs@, job@)
                    &&& old(self).installs@.active is None ==> r@.len() == 1 && starts_job(r@[0], job@)
                    &&& old(self).installs@.active is Some ==> r@.len() == 0
                },
                WorkerEvent::Message(CargoMessage::UpdateCompletion(q)) => {
                    &&& old(self).has_index ==> r@.len() == 1 && starts_completion(r@[0], q@)
                    &&& !old(self).has_index ==> r@.len() == 0
                },
                WorkerEvent::RunFinished => r@.len() == 0 && !final(self).run_busy,
                WorkerEvent::MetadataLoaded(ok) => {
                    &&& final(self).has_metadata == ok
                    &&& ok ==> r@.len() == 1 && applies_metadata(r@[0], old(self).update_features) && !final(self).update_features
                    &&& !ok ==> r@.len() == 0 && final(self).update_features == old(self).update_features
                },
                WorkerEvent::IndexLoaded(ok) => {
                    &&& final(self).has_index == (old(self).has_index || ok)
                    &&& final(self).install_list_busy
                    &&& r@.len() == (if old(self).has_metadata { 1int } else { 0int }) + (if old(self).install_list_busy { 0int } else { 1int })
                    &&& old(self).has_metadata ==> applies_metadata(r@[0], old(self).update_features) && !final(self).update_features
                    &&& !old(self).install_list_busy ==> r@.last() is RefreshInstallList
                },
                WorkerEvent::InstallListLoaded => r@.len() == 1 && r@[0] is ApplyInstallList && !final(self).install_list_busy,
                WorkerEvent::InstallFinished => {
                    &&& final(self).installs@ == complete_spec(old(self).installs@)
                    &&& final(self).install_list_busy
                    &&& r@.len() >= 1
                    &&& r@[0] is RefreshInstallList
                    &&& old(self).installs@.waiting.len() > 0 ==> r@.len() == 2 && starts_job(r@[1], old(self).installs@.waiting[0])
                    &&& old(self).installs@.waiting.len() == 0 ==> r@.len() == 1
                },
                WorkerEvent::CompletionFinished => r@.len() == 0,
            },
    {
        let mut r: Vec<WorkerAction> = Vec::new();
        match event {
            WorkerEvent::Message(CargoMessage::Quit) | WorkerEvent::Disconnected => {
                r.push(WorkerAction::Stop);
            },
            WorkerEvent::Message(CargoMessage::Action { action, feature_settings }) => {
                self.run_busy = true;
                r.push(WorkerAction::StartRun(action, feature_settings));
            },
            WorkerEvent::Message(CargoMessage::ShowOpenDialog) => {
                r.push(WorkerAction::PickManifest(self.manifest.directory()));
            },
            WorkerEvent::Message(CargoMessage::Cancel) => {
                self.run_busy = false;
                r.push(WorkerAction::CancelRun);
            },
            WorkerEvent::Message(CargoMessage::ReloadManifest(p, is_dir)) => {
                self.manifest = Manifest::from_path(p, is_dir);
                self.update_features = true;
                r.push(WorkerAction::StartMetadata(self.manifest.path.clone()));
            },
            WorkerEvent::Message(CargoMessage::PackageSelected(p)) => {
                self.package = p;
                if self.has_metadata {
                    r.push(WorkerAction::ApplyMetadata(true));
                }
            },
            WorkerEvent::Message(CargoMessage::DependencyRemove { parent_package, crate_name, dep_kind }) => {
                if self.has_metadata {
                    r.push(WorkerAction::RemoveDependency { parent_package, crate_name, dep_kind });
                }
            },
            WorkerEvent::Message(CargoMessage::DependencyUpgrade { parent_package, crate_name, dep_kind }) => {
                if self.has_metadata && self.has_index {
                    r.push(WorkerAction::UpgradeDependency { parent_package, crate_name, dep_kind });
                }
            },
            WorkerEvent::Message(CargoMessage::DependencyAdd { crate_name, dep_kind }) => {
                if self.has_metadata && self.has_index {
                    r.push(WorkerAction::AddDependency { package: self.package.clone(), crate_name, dep_kind });
                }
            },
            WorkerEvent::ManifestEdited(ok) => {
                if ok {
                    r.push(WorkerAction::StartMetadata(self.manifest.path.clone()));
                }
            },
            WorkerEvent::Message(CargoMessage::Install(job)) => {
                let copy = copy_job(&job);
                if self.installs.submit(job) {
                    r.push(WorkerAction::StartInstall(copy));
                }
            },
            WorkerEvent::Message(CargoMessage::UpdateCompletion(q)) => {
                if self.has_index {
                    r.push(WorkerAction::StartCompletion(q));
                }
            },
            WorkerEvent::RunFinished => {
                self.run_busy = false;
            },
            WorkerEvent::MetadataLoaded(ok) => {
                self.has_metadata = ok;
                if ok {
                    r.push(WorkerAction::ApplyMetadata(self.update_features));
                    self.update_features = false;
                }
            },
            WorkerEvent::IndexLoaded(ok) => {
                if ok {
                    self.has_index = true;
                }
                if self.has_metadata {
                    r.push(WorkerAction::ApplyMetadata(self.update_features));
                    self.update_features = false;
                }
                if !self.install_list_busy {
                    self.install_list_busy = true;
                    r.push(WorkerAction::RefreshInstallList);
                }
            },
            WorkerEvent::InstallListLoaded => {
                self.install_list_busy = false;
                r.push(WorkerAction::ApplyInstallList);
            },
            WorkerEvent::InstallFinished => {
                self.install_list_busy = true;
                r.push(WorkerAction::RefreshInstallList);
                if self.installs.complete() {
                    match self.installs.active() {
                        Some(j) => {
                            r.push(WorkerAction::StartInstall(copy_job(j)));
                        },
                        None => {},
                    }
                }
            },
            WorkerEvent::CompletionFinished => {},
        }
        r
    }
}

/// Commands for the worker that lists installed crates.
#[derive(Clone, Copy, Debug, PartialEq, Eq, Structural)]
pub enum CargoInstallMessage {
    Refresh,
    Quit,
}

/// Commands for the worker that lists toolchains.
#[derive(Clone, Copy, Debug, PartialEq, Eq, Structural)]
pub enum RustupMessage {
    Quit,
}

/// What a listing worker does next.
#[derive(Clone, Copy, Debug, PartialEq, Eq, Structural)]
pub enum ListingStep {
    /// Drop the listing under way and start a new one.
    Restart,
    /// Drop the listing under way and end.
    Stop,
}

/// The install-list worker: a refresh replaces the listing under way; a
/// quit, or the end of the channel (`None`), stops it.
pub fn install_worker_step(msg: Option<CargoInstallMessage>) -> (r: ListingStep)
    ensures
        r == (if msg == Some(CargoInstallMessage::Refresh) { ListingStep::Restart } else { ListingStep::Stop }),
{
    match msg {
        Some(CargoInstallMessage::Refresh) => ListingStep::Restart,
        Some(CargoInstallMessage::Quit) | None => ListingStep::Stop,
    }
}

/// The toolchain worker lists once and stops on a quit or at the end of the
/// channel (`None`): every message stops it.
pub fn rustup_worker_step(msg: Option<RustupMessage>) -> (r: ListingStep)
    ensures
        r == ListingStep::Stop,
{
    match msg {
        Some(RustupMessage::Quit) | None => ListingStep::Stop,
    }
}

/// Which command-line argument names the manifest: the first after the
/// program's name that is not the `ui` subcommand and no option.
pub open spec fn is_manifest_argument(a: Seq<char>) -> bool {
    a != "ui"@ && !crate::text::is_prefix("-"@, a)
}

/// Finds the argument that names the manifest.
pub fn manifest_argument(args: &Vec<String>) -> (r: Option<usize>)
    ensures
        r matches Some(i) ==> 1 <= i < args@.len() && is_manifest_argument(args@[i as int]@)
            && forall|j: int| 1 <= j < i ==> !is_manifest_argument(#[trigger] args@[j]@),
        r is None ==> forall|j: int| 1 <= j < args@.len() ==> !is_manifest_argument(#[trigger] args@[j]@),
{
    let mut i: usize = 1;
    while i < args.len()
        invariant
            1 <= i,
            forall|j: int| 1 <= j < i && j < args@.len() ==> !is_manifest_argument(#[trigger] args@[j]@),
        decreases args@.len() - i,
    {
        let a = args[i].as_str();
        if !crate::text::same_text(a, "ui") && !crate::text::starts_with(a, "-") {
            return Some(i);
        }
        i = i + 1;
    }
    None
}

} // verus!
