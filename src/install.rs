//! Installing and uninstalling crates: the job queue, the parse of
//! `cargo install --list`, and the list shown to the user.

use vstd::prelude::*;
use crate::text::{is_prefix, is_suffix, first_index, trim_end, starts_with, ends_with, find_char, trim_end_char, slice_chars, same_text};
use crate::version::{is_newer_version, newer_version};

verus! {

/// A request to install (with `--force`) or to uninstall a crate.
pub enum InstallJob {
    Install(String),
    Uninstall(String),
}

/// The model of a job: its direction and its crate name.
pub ghost struct JobModel {
    pub install: bool,
    pub name: Seq<char>,
}

impl View for InstallJob {
    type V = JobModel;

    open spec fn view(&self) -> JobModel {
        match self {
            InstallJob::Install(n) => JobModel { install: true, name: n@ },
            InstallJob::Uninstall(n) => JobModel { install: false, name: n@ },
        }
    }
}

impl InstallJob {
    /// The crate the job is about.
    pub fn crate_name(&self) -> (r: &String)
        ensures
            r@ == self@.name,
    {
        match self {
            InstallJob::Install(a) => a,
            InstallJob::Uninstall(a) => a,
        }
    }

    /// The arguments given to cargo for this job.
    pub fn cargo_args(&self) -> (r: Vec<String>)
        ensures
            self@.install ==> crate::text::views(r@) == seq!["install"@, "--force"@, self@.name],
            !self@.install ==> crate::text::views(r@) == seq!["uninstall"@, self@.name],
    {
        let mut r: Vec<String> = Vec::new();
        match self {
            InstallJob::Install(a) => {
                r.push(String::from_str("install"));
                r.push(String::from_str("--force"));
                r.push(a.clone());
            },
            InstallJob::Uninstall(a) => {
                r.push(String::from_str("uninstall"));
                r.push(a.clone());
            },
        }
        assert(crate::text::views(r@) =~= if self@.install {
            seq!["install"@, "--force"@, self@.name]
        } else {
            seq!["uninstall"@, self@.name]
        });
        r
    }
}

/// The model of the queue: the job being processed, if any, and the jobs
/// waiting, first to run first.
pub ghost struct QueueModel {
    pub active: Option<JobModel>,
    pub waiting: Seq<JobModel>,
}

/// Whether a job for the crate `name` waits.
pub open spec fn waits_for(q: QueueModel, name: Seq<char>) -> bool {
    exists|i: int| 0 <= i < q.waiting.len() && #[trigger] q.waiting[i].name == name
}

/// The queue after a new request: it runs at once on an idle queue; else
/// it waits at the end, unless a job for the same crate waits already, which
/// then stands for both.
pub open spec fn submit_spec(q: QueueModel, job: JobModel) -> QueueModel {
    if q.active is None {
        QueueModel { active: Some(job), waiting: q.waiting }
    } else if waits_for(q, job.name) {
        q
    } else {
        QueueModel { active: q.active, waiting: q.waiting.push(job) }
    }
}

/// The queue after the active job completed, with success or not.
pub open spec fn complete_spec(q: QueueModel) -> QueueModel {
    if q.waiting.len() == 0 {
        QueueModel { active: None, waiting: q.waiting }
    } else {
        QueueModel { active: Some(q.waiting[0]), waiting: q.waiting.drop_first() }
    }
}

/// Whether a job for the crate `name` is active or waiting.
pub open spec fn queued_spec(q: QueueModel, name: Seq<char>) -> bool {
    (q.active matches Some(a) && a.name == name) || exists|i: int| 0 <= i < q.waiting.len() && #[trigger] q.waiting[i].name == name
}

/// Install and uninstall requests, run one at a time in the order they came.
pub struct InstallQueue {
    active: Option<InstallJob>,
    waiting: Vec<InstallJob>,
}

pub open spec fn job_opt_view(o: Option<InstallJob>) -> Option<JobModel> {
    match o {
        Some(j) => Some(j@),
        None => None,
    }
}

impl View for InstallQueue {
    type V = QueueModel;

    closed spec fn view(&self) -> QueueModel {
        QueueModel { active: job_opt_view(self.active), waiting: self.waiting@.map_values(|j: InstallJob| j@) }
    }
}

impl InstallQueue {
    /// An idle queue.
    pub fn new() -> (r: Self)
        ensures
            r@.active is None,
            r@.waiting.len() == 0,
    {
        let r = InstallQueue { active: None, waiting: Vec::new() };
        assert(r@.waiting =~= Seq::<JobModel>::empty());
        r
    }

    /// Takes a request. When the queue was idle the job becomes active at
    /// once and `true` is returned: the caller starts it. Else it waits.
    pub fn submit(&mut self, job: InstallJob) -> (start: bool)
        ensures
            final(self)@ == submit_spec(old(self)@, job@),
            start == (old(self)@.active is None),
    {
        if self.active.is_none() {
            self.active = Some(job);
            true
        } else if self.is_waiting(job.crate_name().as_str()) {
            false
        } else {
            let ghost before = self.waiting@;
            self.waiting.push(job);
            assert(self.waiting@.map_values(|j: InstallJob| j@) =~= before.map_values(|j: InstallJob| j@).push(job@));
            false
        }
    }

    /// Records that the active job is done, successful or not. The next
    /// waiting job becomes active, and `true` is returned: the caller starts
    /// it. Else the queue turns idle.
    pub fn complete(&mut self) -> (next: bool)
        ensures
            final(self)@ == complete_spec(old(self)@),
            next == (old(self)@.waiting.len() > 0),
    {
        if self.waiting.len() == 0 {
            self.active = None;
            false
        } else {
            let ghost before = self.waiting@;
            let job = self.waiting.remove(0);
            assert(self.waiting@.map_values(|j: InstallJob| j@) =~= before.map_values(|j: InstallJob| j@).drop_first());
            self.active = Some(job);
            true
        }
    }

    /// The active job, if any.
    pub fn active(&self) -> (r: Option<&InstallJob>)
        ensures
            r matches Some(j) ==> self@.active == Some(j@),
            r is None ==> self@.active is None,
    {
        match &self.active {
            Some(j) => Some(j),
            None => None,
        }
    }

    /// The name of the crate being processed, empty when idle.
    pub fn currently_installing(&self) -> (r: String)
        ensures
            self@.active matches Some(a) ==> r@ == a.name,
            self@.active is None ==> r@.len() == 0,
    {
        match &self.active {
            Some(j) => j.crate_name().clone(),
            None => String::new(),
        }
    }

    /// Whether a job for the crate `name` waits.
    pub fn is_waiting(&self, name: &str) -> (r: bool)
        ensures
            r == waits_for(self@, name@),
    {
        let mut i: usize = 0;
        while i < self.waiting.len()
            invariant
                i <= self.waiting@.len(),
                forall|k: int| 0 <= k < i ==> self.waiting@[k]@.name != name@,
            decreases self.waiting@.len() - i,
        {
            if same_text(self.waiting[i].crate_name().as_str(), name) {
                assert(self@.waiting[i as int].name == name@);
                return true;
            }
            i = i + 1;
        }
        assert forall|k: int| 0 <= k < self@.waiting.len() implies #[trigger] self@.waiting[k].name != name@ by {
            assert(self@.waiting[k] == self.waiting@[k]@);
        }
        false
    }

    /// Whether a job for the crate `name` is active or waiting.
    pub fn is_queued(&self, name: &str) -> (r: bool)
        ensures
            r == queued_spec(self@, name@),
    {
        if let Some(j) = &self.active {
            if same_text(j.crate_name().as_str(), name) {
                return true;
            }
        }
        let mut i: usize = 0;
        while i < self.waiting.len()
            invariant
                i <= self.waiting@.len(),
                !(self@.active matches Some(a) && a.name == name@),
                forall|k: int| 0 <= k < i ==> self.waiting@[k]@.name != name@,
            decreases self.waiting@.len() - i,
        {
            if same_text(self.waiting[i].crate_name().as_str(), name) {
                assert(self@.waiting[i as int].name == name@);
                return true;
            }
            i = i + 1;
        }
        assert forall|k: int| 0 <= k < self@.waiting.len() implies #[trigger] self@.waiting[k].name != name@ by {
            assert(self@.waiting[k] == self.waiting@[k]@);
        }
        false
    }
}

/// A job for crate A runs first; a job for B sent while A is processed waits
/// and counts as queued; B runs only once A completed, successfully or not;
/// once B completed too, B no longer counts as queued.
pub proof fn lemma_queue_runs_in_order(q: QueueModel, a: JobModel, b: JobModel)
    requires
        q.active == Some(a),
        q.waiting.len() == 0,
        a.name != b.name,
    ensures
        submit_spec(q, b).active == Some(a),
        queued_spec(submit_spec(q, b), b.name),
        complete_spec(submit_spec(q, b)).active == Some(b),
        queued_spec(complete_spec(submit_spec(q, b)), b.name),
        complete_spec(complete_spec(submit_spec(q, b))).active is None,
        !queued_spec(complete_spec(complete_spec(submit_spec(q, b))), b.name),
{
    let q1 = submit_spec(q, b);
    assert(q1.waiting[0] == b);
    let q2 = complete_spec(q1);
    assert(q2.waiting.len() == 0);
}

/// A crate installed with cargo, as shown in the list.
pub struct InstalledCrate {
    pub name: String,
    pub version: String,
    pub queued: bool,
    pub new_version: String,
    pub progress: bool,
    pub status: String,
}

/// Why the output of `cargo install --list` could not be read.
pub enum InstallListError {
    ExpectedCrateDescription(String),
    ExpectedVersion(String),
    ExpectedCrateName(String),
}

/// The name and the rest of a crate description line ("name v1.0.0 (path):"),
/// with its trailing colons taken off, split at the first space.
pub open spec fn split_at_space(t: Seq<char>) -> (Seq<char>, Seq<char>) {
    match first_index(t, ' ') {
        Some(k) => (t.subrange(0, k), t.subrange(k + 1, t.len() as int)),
        None => (t, Seq::empty()),
    }
}

/// The crates listed from line `i` on, by name and version; `None` when the
/// text does not have the shape cargo prints.
pub open spec fn install_list_from(lines: Seq<Seq<char>>, i: int) -> Option<Seq<(Seq<char>, Seq<char>)>>
    decreases lines.len() - i,
{
    if i < 0 || i >= lines.len() {
        Some(Seq::empty())
    } else if is_prefix(" "@, lines[i]) {
        install_list_from(lines, i + 1)
    } else if !is_suffix(":"@, lines[i]) {
        None
    } else {
        let rest = split_at_space(trim_end(lines[i], ':')).1;
        let name = split_at_space(trim_end(lines[i], ':')).0;
        if !is_prefix("v"@, rest) {
            None
        } else if i + 1 >= lines.len() {
            Some(seq![(name, split_at_space(rest).0)])
        } else if !is_prefix(" "@, lines[i + 1]) {
            None
        } else {
            match install_list_from(lines, i + 2) {
                Some(r) => Some(seq![(name, split_at_space(rest).0)] + r),
                None => None,
            }
        }
    }
}

/// Splits `t` at its first space.
fn split_space(t: &str) -> (r: (String, String))
    ensures
        r.0@ == split_at_space(t@).0,
        r.1@ == split_at_space(t@).1,
{
    match find_char(t, ' ') {
        Some(k) => {
            let n = t.unicode_len();
            (slice_chars(t, 0, k), slice_chars(t, k + 1, n))
        },
        None => (String::from_str(t), String::new()),
    }
}

pub open spec fn crate_pairs(v: Seq<InstalledCrate>) -> Seq<(Seq<char>, Seq<char>)> {
    v.map_values(|c: InstalledCrate| (c.name@, c.version@))
}

/// A row as read from the list: not queued, no newer version known, no job
/// running.
pub open spec fn fresh_row(c: InstalledCrate) -> bool {
    !c.queued && c.new_version@.len() == 0 && !c.progress && c.status@.len() == 0
}

/// Reads the output of `cargo install --list`, one line per entry: each
/// crate is a line "name vX.Y.Z...:" followed by indented binary names.
pub fn parse_install_list(lines: &Vec<String>) -> (r: Result<Vec<InstalledCrate>, InstallListError>)
    ensures
        r is Ok <==> install_list_from(crate::text::views(lines@), 0) is Some,
        r matches Ok(v) ==> Some(crate_pairs(v@)) == install_list_from(crate::text::views(lines@), 0),
        r matches Ok(v) ==> forall|k: int| 0 <= k < v@.len() ==> fresh_row(#[trigger] v@[k]),
{
    let ghost ls = crate::text::views(lines@);
    let mut out: Vec<InstalledCrate> = Vec::new();
    let mut i: usize = 0;
    while i < lines.len()
        invariant
            ls == crate::text::views(lines@),
            ls.len() == lines@.len(),
            i <= lines@.len() + 1,
            forall|k: int| 0 <= k < out@.len() ==> fresh_row(#[trigger] out@[k]),
            install_list_from(ls, 0) == match install_list_from(ls, i as int) {
                Some(r) => Some(crate_pairs(out@) + r),
                None => None,
            },
        decreases lines@.len() + 1 - i,
    {
        let line = lines[i].as_str();
        assert(line@ == ls[i as int]);
        if starts_with(line, " ") {
            i = i + 1;
            continue;
        }
        if !ends_with(line, ":") {
            return Err(InstallListError::ExpectedCrateDescription(lines[i].clone()));
        }
        let t = trim_end_char(line, ':');
        let (name, rest) = split_space(t.as_str());
        if !starts_with(rest.as_str(), "v") {
            return Err(InstallListError::ExpectedVersion(t));
        }
        let (version, _more) = split_space(rest.as_str());
        let ghost before = out@;
        out.push(InstalledCrate {
            name,
            version,
            queued: false,
            new_version: String::new(),
            progress: false,
            status: String::new(),
        });
        assert(crate_pairs(out@) =~= crate_pairs(before) + seq![(split_at_space(trim_end(ls[i as int], ':')).0, split_at_space(split_at_space(trim_end(ls[i as int], ':')).1).0)]);
        if i + 1 >= lines.len() {
            assert(install_list_from(ls, i + 2) == Some(Seq::<(Seq<char>, Seq<char>)>::empty()));
            assert(crate_pairs(out@) + Seq::<(Seq<char>, Seq<char>)>::empty() =~= crate_pairs(out@));
            return Ok(out);
        }
        if !starts_with(lines[i + 1].as_str(), " ") {
            return Err(InstallListError::ExpectedCrateName(lines[i + 1].clone()));
        }
        proof {
            match install_list_from(ls, i + 2) {
                Some(r) => {
                    assert(crate_pairs(before) + (seq![(split_at_space(trim_end(ls[i as int], ':')).0, split_at_space(split_at_space(trim_end(ls[i as int], ':')).1).0)] + r) =~= crate_pairs(out@) + r);
                },
                None => {},
            }
        }
        i = i + 2;
    }
    proof {
        assert(install_list_from(ls, i as int) == Some(Seq::<(Seq<char>, Seq<char>)>::empty()));
        assert(crate_pairs(out@) + Seq::<(Seq<char>, Seq<char>)>::empty() =~= crate_pairs(out@));
    }
    Ok(out)
}

/// The newer release shown for an installed crate: the index's latest
/// release when the installed version reads "v" then a version older than it,
/// else nothing.
pub open spec fn new_version_spec(latest: Option<String>, installed: Seq<char>) -> Seq<char> {
    match latest {
        Some(v) => if is_prefix("v"@, installed) && newer_version(v@, installed.subrange(1, installed.len() as int)) {
            v@
        } else {
            Seq::empty()
        },
        None => Seq::empty(),
    }
}

/// The newer release shown for an installed crate.
fn new_version_of(latest: &Option<String>, installed: &String) -> (r: String)
    ensures
        r@ == new_version_spec(*latest, installed@),
{
    match latest {
        Some(v) => {
            if starts_with(installed.as_str(), "v") {
                proof {
                    reveal_strlit("v");
                }
                let n = installed.as_str().unicode_len();
                let rest = slice_chars(installed.as_str(), 1, n);
                if is_newer_version(v.as_str(), rest.as_str()) {
                    return v.clone();
                }
            }
            String::new()
        },
        None => String::new(),
    }
}

/// Whether some entry of the list is for the crate `name`.
pub open spec fn lists_crate(v: Seq<InstalledCrate>, name: Seq<char>) -> bool {
    exists|i: int| 0 <= i < v.len() && #[trigger] v[i].name@ == name
}

fn contains_crate(v: &Vec<InstalledCrate>, name: &str) -> (r: bool)
    ensures
        r == lists_crate(v@, name@),
{
    let mut i: usize = 0;
    while i < v.len()
        invariant
            i <= v@.len(),
            forall|k: int| 0 <= k < i ==> v@[k].name@ != name@,
        decreases v@.len() - i,
    {
        if same_text(v[i].name.as_str(), name) {
            return true;
        }
        i = i + 1;
    }
    false
}

fn push_queued(out: &mut Vec<InstalledCrate>, name: &String)
    ensures
        lists_crate(old(out)@, name@) ==> final(out)@ == old(out)@,
        !lists_crate(old(out)@, name@) ==> final(out)@.len() == old(out)@.len() + 1
            && final(out)@.drop_last() == old(out)@
            && final(out)@.last().name@ == name@
            && final(out)@.last().queued
            && final(out)@.last().version@.len() == 0
            && final(out)@.last().new_version@.len() == 0
            && !final(out)@.last().progress
            && final(out)@.last().status@.len() == 0,
{
    if !contains_crate(out, name.as_str()) {
        let ghost before = out@;
        out.push(InstalledCrate {
            name: name.clone(),
            version: String::new(),
            queued: true,
            new_version: String::new(),
            progress: false,
            status: String::new(),
        });
        assert(out@.drop_last() =~= before);
    }
}

/// The crate names of rows.
pub open spec fn row_names(v: Seq<InstalledCrate>) -> Seq<Seq<char>> {
    v.map_values(|c: InstalledCrate| c.name@)
}

/// The crate names of the jobs, the active one first, then the waiting ones
/// in order.
pub open spec fn job_names(q: QueueModel) -> Seq<Seq<char>> {
    (match q.active {
        Some(a) => seq![a.name],
        None => Seq::empty(),
    }) + q.waiting.map_values(|j: JobModel| j.name)
}

/// The names among `cands`, in order and once each, that are not `known`.
pub open spec fn new_names(cands: Seq<Seq<char>>, known: Seq<Seq<char>>) -> Seq<Seq<char>>
    decreases cands.len(),
{
    if cands.len() == 0 {
        Seq::empty()
    } else {
        let prev = new_names(cands.drop_last(), known);
        if known.contains(cands.last()) || prev.contains(cands.last()) {
            prev
        } else {
            prev.push(cands.last())
        }
    }
}

proof fn lemma_lists_names(v: Seq<InstalledCrate>, name: Seq<char>)
    ensures
        lists_crate(v, name) <==> row_names(v).contains(name),
{
    if lists_crate(v, name) {
        let k = choose|k: int| 0 <= k < v.len() && #[trigger] v[k].name@ == name;
        assert(row_names(v)[k] == name);
    }
    if row_names(v).contains(name) {
        let k = choose|k: int| 0 <= k < row_names(v).len() && row_names(v)[k] == name;
        assert(v[k].name@ == name);
    }
}

proof fn lemma_queued_step(
    before: Seq<InstalledCrate>,
    after: Seq<InstalledCrate>,
    n: int,
    known: Seq<Seq<char>>,
    cands: Seq<Seq<char>>,
    c: Seq<char>,
)
    requires
        0 <= n <= before.len(),
        row_names(before.subrange(0, n)) == known,
        row_names(before.subrange(n, before.len() as int)) == new_names(cands, known),
        lists_crate(before, c) ==> after == before,
        !lists_crate(before, c) ==> after.len() == before.len() + 1 && after.drop_last() == before && after.last().name@ == c,
    ensures
        row_names(after.subrange(0, n)) == known,
        row_names(after.subrange(n, after.len() as int)) == new_names(cands.push(c), known),
{
    let prev = new_names(cands, known);
    assert(cands.push(c).drop_last() =~= cands);
    lemma_lists_names(before, c);
    assert(row_names(before) =~= known + prev) by {
        assert(before =~= before.subrange(0, n) + before.subrange(n, before.len() as int));
    }
    if known.contains(c) {
        let k = choose|k: int| 0 <= k < known.len() && known[k] == c;
        assert(row_names(before)[k] == c);
    }
    if prev.contains(c) {
        let k = choose|k: int| 0 <= k < prev.len() && prev[k] == c;
        assert(row_names(before)[known.len() + k] == c);
    }
    if row_names(before).contains(c) {
        let k = choose|k: int| 0 <= k < row_names(before).len() && row_names(before)[k] == c;
        if k < known.len() {
            assert(known[k] == c);
        } else {
            assert(prev[k - known.len()] == c);
        }
    }
    if !lists_crate(before, c) {
        assert(after.subrange(0, n) =~= before.subrange(0, n));
        assert(after.subrange(n, after.len() as int) =~= before.subrange(n, before.len() as int).push(after.last()));
        assert(row_names(after.subrange(n, after.len() as int)) =~= prev.push(c));
    }
}

/// Marks each installed crate queued when a job for it is active or waiting,
/// and gives it the newer release the index knows of (`latest`, one entry per
/// crate). Crates with a job that are not installed yet are added at the
/// end, once each, marked queued.
pub fn apply_install_list(list: Vec<InstalledCrate>, latest: &Vec<Option<String>>, queue: &InstallQueue) -> (r: Vec<InstalledCrate>)
    requires
        latest@.len() == list@.len(),
    ensures
        r@.len() >= list@.len(),
        forall|i: int| 0 <= i < list@.len() ==> {
            &&& (#[trigger] r@[i]).name == list@[i].name
            &&& r@[i].version == list@[i].version
            &&& r@[i].queued == queued_spec(queue@, list@[i].name@)
            &&& r@[i].new_version@ == new_version_spec(latest@[i], list@[i].version@)
        },
        forall|i: int| list@.len() <= i < r@.len() ==> {
            &&& (#[trigger] r@[i]).queued
            &&& queued_spec(queue@, r@[i].name@)
            &&& !lists_crate(list@, r@[i].name@)
            &&& forall|j: int| 0 <= j < r@.len() && j != i ==> r@[j].name@ != r@[i].name@
            &&& r@[i].version@.len() == 0
        },
        forall|name: Seq<char>| queued_spec(queue@, name) ==> lists_crate(r@, name),
        row_names(r@.subrange(list@.len() as int, r@.len() as int)) == new_names(job_names(queue@), row_names(list@)),
        forall|i: int| list@.len() <= i < r@.len() ==> (#[trigger] r@[i]).new_version@.len() == 0 && !r@[i].progress
            && r@[i].status@.len() == 0,
{
    let n = list.len();
    let mut out: Vec<InstalledCrate> = Vec::new();
    let mut i: usize = 0;
    while i < n
        invariant
            n == list@.len(),
            latest@.len() == n,
            i <= n,
            out@.len() == i,
            forall|k: int| 0 <= k < i ==> {
                &&& (#[trigger] out@[k]).name == list@[k].name
                &&& out@[k].version == list@[k].version
                &&& out@[k].queued == queued_spec(queue@, list@[k].name@)
                &&& out@[k].new_version@ == new_version_spec(latest@[k], list@[k].version@)
            },
        decreases n - i,
    {
        let c = &list[i];
        let queued = queue.is_queued(c.name.as_str());
        let new_version = new_version_of(&latest[i], &c.version);
        out.push(InstalledCrate {
            name: c.name.clone(),
            version: c.version.clone(),
            queued,
            new_version,
            progress: c.progress,
            status: c.status.clone(),
        });
        i = i + 1;
    }
    proof {
        assert forall|name: Seq<char>| lists_crate(out@, name) <==> lists_crate(list@, name) by {
            if lists_crate(out@, name) {
                let k = choose|k: int| 0 <= k < out@.len() && #[trigger] out@[k].name@ == name;
                assert(list@[k].name@ == name);
            }
            if lists_crate(list@, name) {
                let k = choose|k: int| 0 <= k < list@.len() && #[trigger] list@[k].name@ == name;
                assert(out@[k].name@ == name);
            }
        }
    }
    let ghost fixed = out@;
    let ghost known = row_names(list@);
    let ghost cands = job_names(queue@);
    let ghost base: int = if queue@.active is Some { 1 } else { 0 };
    proof {
        assert(row_names(out@.subrange(0, n as int)) =~= known);
        assert(out@.subrange(n as int, out@.len() as int) =~= Seq::<InstalledCrate>::empty());
        assert(row_names(out@.subrange(n as int, out@.len() as int)) =~= new_names(cands.subrange(0, 0), known));
    }
    if let Some(j) = &queue.active {
        let ghost b0 = out@;
        push_queued(&mut out, j.crate_name());
        proof {
            assert(cands[0] == j@.name);
            assert(cands.subrange(0, 0).push(j@.name) =~= cands.subrange(0, 1));
            lemma_queued_step(b0, out@, n as int, known, cands.subrange(0, 0), j@.name);
        }
        proof {
            assert(lists_crate(out@, j@.name)) by {
                if out@.len() > fixed.len() {
                    assert(out@[n as int].name@ == j@.name);
                }
            }
        }
    }
    proof {
        if out@.len() > fixed.len() {
            let j = queue@.active->0;
            assert(out@.drop_last() == fixed);
            assert forall|k: int| 0 <= k < n implies #[trigger] out@[k] == fixed[k] by {
                assert(out@.drop_last()[k] == fixed[k]);
            }
            assert(out@[n as int] == out@.last());
            assert(out@[n as int].name@ == j.name);
            assert(queued_spec(queue@, j.name));
            assert(!lists_crate(fixed, j.name));
            assert(!lists_crate(list@, out@[n as int].name@));
            assert forall|q: int| 0 <= q < out@.len() && q != n implies out@[q].name@ != out@[n as int].name@ by {
                assert(out@[q] == fixed[q]);
            }
        } else {
            assert(out@ == fixed);
        }
    }
    let mut w: usize = 0;
    while w < queue.waiting.len()
        invariant
            n == list@.len(),
            w <= queue.waiting@.len(),
            out@.len() >= n,
            forall|k: int| 0 <= k < n ==> #[trigger] out@[k] == fixed[k],
            forall|k: int| n <= k < out@.len() ==> {
                &&& (#[trigger] out@[k]).queued
                &&& queued_spec(queue@, out@[k].name@)
                &&& !lists_crate(list@, out@[k].name@)
                &&& forall|j: int| 0 <= j < out@.len() && j != k ==> out@[j].name@ != out@[k].name@
                &&& out@[k].version@.len() == 0
            },
            queue@.active matches Some(a) ==> lists_crate(out@, a.name),
            forall|k: int| 0 <= k < w ==> lists_crate(out@, #[trigger] queue@.waiting[k].name),
            forall|name: Seq<char>| lists_crate(fixed, name) <==> lists_crate(list@, name),
            fixed.len() == n,
            forall|k: int| 0 <= k < n ==> (#[trigger] fixed[k]).name == list@[k].name,
            known == row_names(list@),
            cands == job_names(queue@),
            base == (if queue@.active is Some { 1int } else { 0int }),
            row_names(out@.subrange(0, n as int)) == known,
            row_names(out@.subrange(n as int, out@.len() as int)) == new_names(cands.subrange(0, base + w), known),
            forall|k: int| n <= k < out@.len() ==> (#[trigger] out@[k]).new_version@.len() == 0 && !out@[k].progress
                && out@[k].status@.len() == 0,
        decreases queue.waiting@.len() - w,
    {
        let ghost before = out@;
        let name = queue.waiting[w].crate_name();
        assert(queue@.waiting[w as int] == queue.waiting@[w as int]@);
        push_queued(&mut out, name);
        proof {
            assert(cands[base + w] == queue@.waiting[w as int].name);
            assert(cands.subrange(0, base + w).push(cands[base + w]) =~= cands.subrange(0, base + w + 1));
            lemma_queued_step(before, out@, n as int, known, cands.subrange(0, base + w), name@);
            if out@.len() > before.len() {
                assert(out@[before.len() as int] == out@.last());
            }
            if out@.len() > before.len() {
                assert(out@.drop_last() == before);
                assert forall|k: int| 0 <= k < before.len() implies #[trigger] out@[k] == before[k] by {
                    assert(out@.drop_last()[k] == before[k]);
                }
            }
            assert forall|name2: Seq<char>| lists_crate(before, name2) implies lists_crate(out@, name2) by {
                let k = choose|k: int| 0 <= k < before.len() && #[trigger] before[k].name@ == name2;
                assert(out@[k] == before[k]);
            }
            if out@.len() > before.len() {
                let m = before.len() as int;
                assert(out@[m] == out@.last());
                assert(queued_spec(queue@, out@[m].name@));
                assert(!lists_crate(list@, out@[m].name@)) by {
                    if lists_crate(list@, out@[m].name@) {
                        let k = choose|k: int| 0 <= k < list@.len() && #[trigger] list@[k].name@ == out@[m].name@;
                        assert(before[k] == fixed[k]);
                        assert(lists_crate(before, out@[m].name@));
                    }
                }
                assert forall|j: int| 0 <= j < out@.len() && j != m implies out@[j].name@ != out@[m].name@ by {
                    assert(out@[j] == before[j]);
                }
                assert(lists_crate(out@, queue@.waiting[w as int].name));
            } else {
                assert(lists_crate(out@, queue@.waiting[w as int].name));
            }
        }
        w = w + 1;
    }
    proof {
        assert(cands.subrange(0, base + queue@.waiting.len()) =~= cands);
        assert forall|name: Seq<char>| queued_spec(queue@, name) implies lists_crate(out@, name) by {
            if !(queue@.active matches Some(a) && a.name == name) {
                let k = choose|k: int| 0 <= k < queue@.waiting.len() && #[trigger] queue@.waiting[k].name == name;
                assert(lists_crate(out@, queue@.waiting[k].name));
            }
        }
    }
    out
}

/// Shows a status line of a running job on the row of its crate: the first
/// row with that name gets the line and is marked in progress.
pub fn show_progress(list: &mut Vec<InstalledCrate>, name: &str, status: String)
    ensures
        final(list)@.len() == old(list)@.len(),
        !lists_crate(old(list)@, name@) ==> final(list)@ == old(list)@,
        lists_crate(old(list)@, name@) ==> exists|i: int| {
            &&& 0 <= i < old(list)@.len()
            &&& #[trigger] old(list)@[i].name@ == name@
            &&& forall|j: int| 0 <= j < i ==> old(list)@[j].name@ != name@
            &&& final(list)@[i].progress
            &&& final(list)@[i].status@ == status@
            &&& final(list)@[i].name == old(list)@[i].name
            &&& final(list)@[i].version == old(list)@[i].version
            &&& final(list)@[i].queued == old(list)@[i].queued
            &&& final(list)@[i].new_version == old(list)@[i].new_version
            &&& forall|j: int| 0 <= j < old(list)@.len() && j != i ==> final(list)@[j] == old(list)@[j]
        },
{
    let mut i: usize = 0;
    while i < list.len()
        invariant
            list@ == old(list)@,
            i <= list@.len(),
            forall|j: int| 0 <= j < i ==> list@[j].name@ != name@,
        decreases list@.len() - i,
    {
        if same_text(list[i].name.as_str(), name) {
            let ghost before = list@;
            list[i].progress = true;
            list[i].status = status;
            assert forall|j: int| 0 <= j < before.len() && j != i implies list@[j] == before[j] by {}
            return;
        }
        i = i + 1;
    }
}

} // verus!
