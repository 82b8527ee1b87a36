//! What the view shows of a workspace after its metadata was read: the
//! packages to pick from, the selected package, its features, its run and
//! test targets, and the members whose dependency trees are shown.

use vstd::prelude::*;
use crate::text::{views, same_text};
use crate::command::Feature;

verus! {

/// A build target of a package with its kinds ("bin", "example", "test"...).
pub struct Target {
    pub name: String,
    pub kinds: Vec<String>,
}

/// A named feature group of a package, with the features it enables.
pub struct FeatureGroup {
    pub name: String,
    pub members: Vec<String>,
}

/// A member package of the workspace.
pub struct MemberPackage {
    pub name: String,
    /// Index of the package in the dependency graph.
    pub package: usize,
    pub manifest_path: String,
    /// The package's feature groups, in the order of their names.
    pub features: Vec<FeatureGroup>,
    pub targets: Vec<Target>,
}

/// The member packages of a workspace, in the order of their ids.
pub struct Workspace {
    pub members: Vec<MemberPackage>,
}

pub open spec fn has_kind(t: Target, k: Seq<char>) -> bool {
    exists|i: int| 0 <= i < t.kinds@.len() && #[trigger] t.kinds@[i]@ == k
}

/// Whether a member is selected: always in a single-package workspace, else
/// when nothing or that member is selected.
pub open spec fn is_selected(p: MemberPackage, sel: Seq<char>, ws: bool) -> bool {
    !ws || sel.len() == 0 || p.name@ == sel
}

/// The run entries of targets: binaries by name, examples marked as such.
pub open spec fn run_entries(ts: Seq<Target>) -> Seq<Seq<char>>
    decreases ts.len(),
{
    if ts.len() == 0 {
        Seq::empty()
    } else {
        let t = ts.last();
        run_entries(ts.drop_last()) + if has_kind(t, "bin"@) {
            seq![t.name@]
        } else if has_kind(t, "example"@) {
            seq![t.name@ + " (example)"@]
        } else {
            Seq::empty()
        }
    }
}

/// The test entries of targets: those that are tests and no binary or example.
pub open spec fn test_entries(ts: Seq<Target>) -> Seq<Seq<char>>
    decreases ts.len(),
{
    if ts.len() == 0 {
        Seq::empty()
    } else {
        let t = ts.last();
        test_entries(ts.drop_last()) + if !has_kind(t, "bin"@) && !has_kind(t, "example"@) && has_kind(t, "test"@) {
            seq![t.name@]
        } else {
            Seq::empty()
        }
    }
}

/// The run entries of the selected members.
pub open spec fn member_runs(ms: Seq<MemberPackage>, sel: Seq<char>, ws: bool) -> Seq<Seq<char>>
    decreases ms.len(),
{
    if ms.len() == 0 {
        Seq::empty()
    } else {
        member_runs(ms.drop_last(), sel, ws) + if is_selected(ms.last(), sel, ws) {
            run_entries(ms.last().targets@)
        } else {
            Seq::empty()
        }
    }
}

/// The test entries of the selected members.
pub open spec fn member_tests(ms: Seq<MemberPackage>, sel: Seq<char>, ws: bool) -> Seq<Seq<char>>
    decreases ms.len(),
{
    if ms.len() == 0 {
        Seq::empty()
    } else {
        member_tests(ms.drop_last(), sel, ws) + if is_selected(ms.last(), sel, ws) {
            test_entries(ms.last().targets@)
        } else {
            Seq::empty()
        }
    }
}

/// Checks whether a target has a kind.
fn target_has_kind(t: &Target, k: &str) -> (r: bool)
    ensures
        r == has_kind(*t, k@),
{
    let mut i: usize = 0;
    while i < t.kinds.len()
        invariant
            i <= t.kinds@.len(),
            forall|j: int| 0 <= j < i ==> t.kinds@[j]@ != k@,
        decreases t.kinds@.len() - i,
    {
        if same_text(t.kinds[i].as_str(), k) {
            return true;
        }
        i = i + 1;
    }
    false
}

/// Appends the run and test entries of targets.
fn push_targets(ts: &Vec<Target>, runs: &mut Vec<String>, tests: &mut Vec<String>)
    ensures
        views(final(runs)@) == views(old(runs)@) + run_entries(ts@),
        views(final(tests)@) == views(old(tests)@) + test_entries(ts@),
{
    let ghost r0 = views(runs@);
    let ghost t0 = views(tests@);
    let mut i: usize = 0;
    while i < ts.len()
        invariant
            i <= ts@.len(),
            views(runs@) == r0 + run_entries(ts@.subrange(0, i as int)),
            views(tests@) == t0 + test_entries(ts@.subrange(0, i as int)),
        decreases ts@.len() - i,
    {
        proof {
            assert(ts@.subrange(0, i + 1).drop_last() =~= ts@.subrange(0, i as int));
        }
        let t = &ts[i];
        let ghost rb = views(runs@);
        let ghost tb = views(tests@);
        if target_has_kind(t, "bin") {
            runs.push(t.name.clone());
            assert(views(runs@) =~= rb + seq![t.name@]);
        } else if target_has_kind(t, "example") {
            let mut s = t.name.clone();
            s.append(" (example)");
            runs.push(s);
            assert(views(runs@) =~= rb + seq![t.name@ + " (example)"@]);
        } else if target_has_kind(t, "test") {
            tests.push(t.name.clone());
            assert(views(tests@) =~= tb + seq![t.name@]);
        }
        proof {
            assert(views(runs@) =~= r0 + run_entries(ts@.subrange(0, i + 1)));
            assert(views(tests@) =~= t0 + test_entries(ts@.subrange(0, i + 1)));
        }
        i = i + 1;
    }
    assert(ts@.subrange(0, ts@.len() as int) =~= ts@);
}

/// The features enabled by the package's "default" group (its first group
/// of that name), none when it has no such group.
pub open spec fn default_members(gs: Seq<FeatureGroup>) -> Seq<Seq<char>>
    decreases gs.len(),
{
    if gs.len() == 0 {
        Seq::empty()
    } else if gs[0].name@ == "default"@ {
        views(gs[0].members@)
    } else {
        default_members(gs.drop_first())
    }
}

/// The model of a feature row.
pub ghost struct FeatureModel {
    pub name: Seq<char>,
    pub enabled: bool,
    pub enabled_by_default: bool,
}

pub open spec fn feature_view(f: Feature) -> FeatureModel {
    FeatureModel { name: f.name@, enabled: f.enabled, enabled_by_default: f.enabled_by_default }
}

pub open spec fn feature_views(fs: Seq<Feature>) -> Seq<FeatureModel> {
    fs.map_values(|f: Feature| feature_view(f))
}

/// The feature rows of a member: every group but "default", prefixed with
/// the package name when the whole workspace is shown, off, and marked when
/// the default group enables it.
pub open spec fn feature_rows(p: MemberPackage, gs: Seq<FeatureGroup>, prefixed: bool) -> Seq<FeatureModel>
    decreases gs.len(),
{
    if gs.len() == 0 {
        Seq::empty()
    } else {
        let g = gs.last();
        feature_rows(p, gs.drop_last(), prefixed) + if g.name@ == "default"@ {
            Seq::empty()
        } else {
            seq![FeatureModel {
                name: if prefixed { p.name@ + "/"@ + g.name@ } else { g.name@ },
                enabled: false,
                enabled_by_default: default_members(p.features@).contains(g.name@),
            }]
        }
    }
}

/// The feature rows of the selected members.
pub open spec fn member_features(ms: Seq<MemberPackage>, sel: Seq<char>, ws: bool) -> Seq<FeatureModel>
    decreases ms.len(),
{
    if ms.len() == 0 {
        Seq::empty()
    } else {
        member_features(ms.drop_last(), sel, ws) + if is_selected(ms.last(), sel, ws) {
            feature_rows(ms.last(), ms.last().features@, sel.len() == 0 && ws)
        } else {
            Seq::empty()
        }
    }
}

fn default_group(gs: &Vec<FeatureGroup>) -> (r: Option<&Vec<String>>)
    ensures
        r matches Some(m) ==> views(m@) == default_members(gs@),
        r is None ==> default_members(gs@).len() == 0,
{
    let mut i: usize = 0;
    assert(gs@.subrange(0, gs@.len() as int) =~= gs@);
    while i < gs.len()
        invariant
            i <= gs@.len(),
            default_members(gs@) == default_members(gs@.subrange(i as int, gs@.len() as int)),
        decreases gs@.len() - i,
    {
        proof {
            assert(gs@.subrange(i as int, gs@.len() as int).drop_first() =~= gs@.subrange(i + 1, gs@.len() as int));
        }
        if same_text(gs[i].name.as_str(), "default") {
            return Some(&gs[i].members);
        }
        i = i + 1;
    }
    None
}

fn list_contains(v: &Vec<String>, s: &str) -> (r: bool)
    ensures
        r == views(v@).contains(s@),
{
    let mut i: usize = 0;
    while i < v.len()
        invariant
            i <= v@.len(),
            forall|j: int| 0 <= j < i ==> v@[j]@ != s@,
        decreases v@.len() - i,
    {
        if same_text(v[i].as_str(), s) {
            assert(views(v@)[i as int] == s@);
            return true;
        }
        i = i + 1;
    }
    assert forall|j: int| 0 <= j < views(v@).len() implies views(v@)[j] != s@ by {
        assert(views(v@)[j] == v@[j]@);
    }
    false
}

/// Appends the feature rows of a member.
fn push_features(p: &MemberPackage, prefixed: bool, out: &mut Vec<Feature>)
    ensures
        feature_views(final(out)@) == feature_views(old(out)@) + feature_rows(*p, p.features@, prefixed),
{
    let defaults = default_group(&p.features);
    let ghost f0 = feature_views(out@);
    let gs = &p.features;
    let mut i: usize = 0;
    while i < gs.len()
        invariant
            gs == &p.features,
            i <= gs@.len(),
            defaults matches Some(m) ==> views(m@) == default_members(gs@),
            defaults is None ==> default_members(gs@).len() == 0,
            feature_views(out@) == f0 + feature_rows(*p, gs@.subrange(0, i as int), prefixed),
        decreases gs@.len() - i,
    {
        proof {
            assert(gs@.subrange(0, i + 1).drop_last() =~= gs@.subrange(0, i as int));
        }
        let g = &gs[i];
        let ghost before = feature_views(out@);
        if !same_text(g.name.as_str(), "default") {
            let name = if prefixed {
                let mut s = p.name.clone();
                s.append("/");
                s.append(g.name.as_str());
                s
            } else {
                g.name.clone()
            };
            let by_default = match defaults {
                Some(m) => list_contains(m, g.name.as_str()),
                None => false,
            };
            out.push(Feature { name, enabled: false, enabled_by_default: by_default });
            assert(feature_views(out@) =~= before.push(feature_view(out@.last())));
        }
        proof {
            assert(feature_views(out@) =~= f0 + feature_rows(*p, gs@.subrange(0, i + 1), prefixed));
        }
        i = i + 1;
    }
    assert(gs@.subrange(0, gs@.len() as int) =~= gs@);
}

pub open spec fn member_names(ms: Seq<MemberPackage>) -> Seq<Seq<char>> {
    ms.map_values(|m: MemberPackage| m.name@)
}

/// The selection that stands: the one asked for when a member has that
/// name, else none.
pub open spec fn effective_selection(ms: Seq<MemberPackage>, sel: Seq<char>) -> Seq<char> {
    if sel.len() > 0 && !member_names(ms).contains(sel) {
        Seq::empty()
    } else {
        sel
    }
}

/// The graph indices of the members whose trees are shown: all of them when
/// nothing is selected, else the selected one.
pub open spec fn tree_roots(ms: Seq<MemberPackage>, sel: Seq<char>) -> Seq<usize>
    decreases ms.len(),
{
    if ms.len() == 0 {
        Seq::empty()
    } else {
        tree_roots(ms.drop_last(), sel) + if sel.len() == 0 || ms.last().name@ == sel {
            seq![ms.last().package]
        } else {
            Seq::empty()
        }
    }
}

/// What the view shows of a workspace.
pub struct WorkspaceView {
    /// The selected package, empty for none.
    pub package: String,
    /// One empty row, then each member.
    pub packages: Vec<String>,
    pub run_targets: Vec<String>,
    pub test_targets: Vec<String>,
    /// The feature rows, when they are to be shown anew.
    pub features: Option<Vec<Feature>>,
    /// More than one member: a package can be picked.
    pub allow_package_selection: bool,
    /// A single package, or one picked.
    pub package_selected: bool,
    /// Graph indices of the members whose dependency trees are shown.
    pub roots: Vec<usize>,
}

pub open spec fn feature_opt_view(o: Option<Vec<Feature>>) -> Option<Seq<FeatureModel>> {
    match o {
        Some(v) => Some(feature_views(v@)),
        None => None,
    }
}

/// Lays out what the view shows after metadata was read. `selected` is the
/// package picked before, empty for none; a pick that is no member any more
/// is dropped, and the features are then shown anew.
pub fn apply_metadata(ws: &Workspace, selected: &String, update_features: bool) -> (r: WorkspaceView)
    ensures
        r.package@ == effective_selection(ws.members@, selected@),
        views(r.packages@) == seq![Seq::<char>::empty()] + member_names(ws.members@),
        r.allow_package_selection == (ws.members@.len() > 1),
        r.package_selected == (ws.members@.len() <= 1 || r.package@.len() > 0),
        views(r.run_targets@) == member_runs(ws.members@, r.package@, ws.members@.len() > 1),
        views(r.test_targets@) == member_tests(ws.members@, r.package@, ws.members@.len() > 1),
        (update_features || r.package@ != selected@) ==> feature_opt_view(r.features) == Some(member_features(ws.members@, r.package@, ws.members@.len() > 1)),
        !(update_features || r.package@ != selected@) ==> r.features is None,
        r.roots@ == tree_roots(ws.members@, r.package@),
{
    let ms = &ws.members;
    let n = ms.len();
    let mut found = false;
    let mut k: usize = 0;
    while k < n
        invariant
            n == ms@.len(),
            k <= n,
            found == member_names(ms@).subrange(0, k as int).contains(selected@),
        decreases n - k,
    {
        proof {
            let s0 = member_names(ms@).subrange(0, k as int);
            let s1 = member_names(ms@).subrange(0, k + 1);
            assert(s1 =~= s0.push(ms@[k as int].name@));
            if s1.contains(selected@) {
                let j = choose|j: int| 0 <= j < s1.len() && s1[j] == selected@;
                if j < k {
                    assert(s0[j] == selected@);
                }
            }
            if s0.contains(selected@) {
                let j = choose|j: int| 0 <= j < s0.len() && s0[j] == selected@;
                assert(s1[j] == selected@);
            }
            assert(s1[k as int] == ms@[k as int].name@);
        }
        if same_text(ms[k].name.as_str(), selected.as_str()) {
            found = true;
        }
        k = k + 1;
    }
    assert(member_names(ms@).subrange(0, n as int) =~= member_names(ms@));
    let mut package = selected.clone();
    let mut update = update_features;
    if selected.as_str().unicode_len() > 0 && !found {
        package = String::new();
        update = true;
    }
    let is_workspace = n > 1;
    let sel_empty = package.as_str().unicode_len() == 0;
    let mut packages: Vec<String> = Vec::new();
    packages.push(String::new());
    let mut runs: Vec<String> = Vec::new();
    let mut tests: Vec<String> = Vec::new();
    let mut features: Vec<Feature> = Vec::new();
    let mut roots: Vec<usize> = Vec::new();
    let mut i: usize = 0;
    while i < n
        invariant
            n == ms@.len(),
            i <= n,
            is_workspace == (n > 1),
            sel_empty == (package@.len() == 0),
            views(packages@) == seq![Seq::<char>::empty()] + member_names(ms@.subrange(0, i as int)),
            views(runs@) == member_runs(ms@.subrange(0, i as int), package@, is_workspace),
            views(tests@) == member_tests(ms@.subrange(0, i as int), package@, is_workspace),
            feature_views(features@) == member_features(ms@.subrange(0, i as int), package@, is_workspace),
            roots@ == tree_roots(ms@.subrange(0, i as int), package@),
        decreases n - i,
    {
        let p = &ms[i];
        let ghost pre = ms@.subrange(0, i as int);
        proof {
            assert(ms@.subrange(0, i + 1).drop_last() =~= pre);
            assert(ms@.subrange(0, i + 1).last() == ms@[i as int]);
        }
        let ghost pk0 = views(packages@);
        packages.push(p.name.clone());
        assert(views(packages@) =~= pk0.push(p.name@));
        assert(member_names(ms@.subrange(0, i + 1)) =~= member_names(pre).push(p.name@));
        assert(views(packages@) =~= seq![Seq::<char>::empty()] + member_names(ms@.subrange(0, i + 1)));
        let same = same_text(p.name.as_str(), package.as_str());
        let selected_here = !is_workspace || sel_empty || same;
        let ghost f0 = feature_views(features@);
        let ghost r0 = views(runs@);
        let ghost t0 = views(tests@);
        if selected_here {
            push_features(p, sel_empty && is_workspace, &mut features);
            push_targets(&p.targets, &mut runs, &mut tests);
        } else {
            assert(feature_views(features@) =~= f0 + Seq::<FeatureModel>::empty());
            assert(views(runs@) =~= r0 + Seq::<Seq<char>>::empty());
            assert(views(tests@) =~= t0 + Seq::<Seq<char>>::empty());
        }
        let ghost ro0 = roots@;
        if sel_empty || same {
            roots.push(p.package);
        }
        assert(roots@ =~= tree_roots(ms@.subrange(0, i + 1), package@));
        i = i + 1;
    }
    assert(ms@.subrange(0, n as int) =~= ms@);
    let package_selected = !is_workspace || !sel_empty;
    WorkspaceView {
        package,
        packages,
        run_targets: runs,
        test_targets: tests,
        features: if update { Some(features) } else { None },
        allow_package_selection: is_workspace,
        package_selected,
        roots,
    }
}

/// The manifest that a dependency is added to: the selected member's, or
/// the first member's when none is selected.
pub open spec fn edit_target_spec(ms: Seq<MemberPackage>, selected: Seq<char>) -> Option<Seq<char>>
    decreases ms.len(),
{
    if ms.len() == 0 {
        None
    } else if selected.len() == 0 {
        Some(ms[0].manifest_path@)
    } else if ms[0].name@ == selected {
        Some(ms[0].manifest_path@)
    } else {
        edit_target_spec(ms.drop_first(), selected)
    }
}

/// Finds the manifest that a dependency is added to.
pub fn edit_target(ws: &Workspace, selected: &str) -> (r: Option<String>)
    ensures
        match r {
            Some(p) => edit_target_spec(ws.members@, selected@) == Some(p@),
            None => edit_target_spec(ws.members@, selected@) is None,
        },
{
    let ms = &ws.members;
    let mut i: usize = 0;
    assert(ms@.subrange(0, ms@.len() as int) =~= ms@);
    if ms.len() > 0 && selected.unicode_len() == 0 {
        return Some(ms[0].manifest_path.clone());
    }
    while i < ms.len()
        invariant
            i <= ms@.len(),
            ms == &ws.members,
            selected@.len() > 0 || ms@.len() == 0,
            edit_target_spec(ms@, selected@) == edit_target_spec(ms@.subrange(i as int, ms@.len() as int), selected@),
        decreases ms@.len() - i,
    {
        proof {
            assert(ms@.subrange(i as int, ms@.len() as int).drop_first() =~= ms@.subrange(i + 1, ms@.len() as int));
        }
        assert(ms@.subrange(i as int, ms@.len() as int)[0] == ms@[i as int]);
        if same_text(ms[i].name.as_str(), selected) {
            let ghost sub = ms@.subrange(i as int, ms@.len() as int);
            assert(sub.len() > 0 && selected@.len() > 0 && sub[0].name@ == selected@);
            assert(edit_target_spec(sub, selected@) == Some(sub[0].manifest_path@));
            return Some(ms[i].manifest_path.clone());
        }
        i = i + 1;
    }
    None
}

} // verus!
