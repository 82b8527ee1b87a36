//! The resolved dependency graph of a workspace and the tree that is built
//! from it, one pass per metadata refresh.
//!
//! The tree is held flat, in pre-order: each node carries its depth
//! (`indentation`), and the subtree of a node is the run of nodes after it
//! that are deeper than it.

use vstd::prelude::*;
use crate::text::{joined, views};
use crate::version::{is_newer_version, newer_version};

verus! {

/// The kind of a dependency edge.
#[derive(Clone, Copy, Debug, PartialEq, Eq, Structural)]
pub enum DepKind {
    Normal,
    Development,
    Build,
    Unknown,
}

/// The name cargo gives a dependency kind.
pub open spec fn kind_name(k: DepKind) -> Seq<char> {
    match k {
        DepKind::Normal => "normal"@,
        DepKind::Development => "dev"@,
        DepKind::Build => "build"@,
        DepKind::Unknown => "Unknown"@,
    }
}

/// The label shown for an edge: empty when every kind is normal, else the
/// names of its kinds separated by spaces.
pub open spec fn kind_label(kinds: Seq<DepKind>) -> Seq<char> {
    if forall|i: int| 0 <= i < kinds.len() ==> kinds[i] == DepKind::Normal {
        Seq::empty()
    } else {
        joined(kinds.map_values(|k: DepKind| kind_name(k)), " "@)
    }
}

impl DepKind {
    /// The name cargo gives this kind.
    pub fn name(&self) -> (r: String)
        ensures
            r@ == kind_name(*self),
    {
        match self {
            DepKind::Normal => String::from_str("normal"),
            DepKind::Development => String::from_str("dev"),
            DepKind::Build => String::from_str("build"),
            DepKind::Unknown => String::from_str("Unknown"),
        }
    }
}

/// The kind a view names: "dev", "build", anything else normal.
pub fn dep_kind_from_str(s: &str) -> (r: DepKind)
    ensures
        s@ == "dev"@ ==> r == DepKind::Development,
        s@ == "build"@ ==> r == DepKind::Build,
        s@ != "dev"@ && s@ != "build"@ ==> r == DepKind::Normal,
{
    proof {
        reveal_strlit("dev");
        reveal_strlit("build");
        assert("dev"@[0] != "build"@[0]);
    }
    if crate::text::same_text(s, "dev") {
        DepKind::Development
    } else if crate::text::same_text(s, "build") {
        DepKind::Build
    } else {
        DepKind::Normal
    }
}

/// Builds the label of an edge with the given kinds.
pub fn dep_kind_label(kinds: &Vec<DepKind>) -> (r: String)
    ensures
        r@ == kind_label(kinds@),
{
    let mut all_normal = true;
    let mut names: Vec<String> = Vec::new();
    let mut i: usize = 0;
    while i < kinds.len()
        invariant
            i <= kinds@.len(),
            all_normal == (forall|j: int| 0 <= j < i ==> kinds@[j] == DepKind::Normal),
            names@.len() == i,
            views(names@) == kinds@.subrange(0, i as int).map_values(|k: DepKind| kind_name(k)),
        decreases kinds@.len() - i,
    {
        if kinds[i] != DepKind::Normal {
            all_normal = false;
        }
        let ghost before = names@;
        let nm = kinds[i].name();
        names.push(nm);
        proof {
            assert(names@ == before.push(nm));
            assert forall|j: int| 0 <= j <= i implies #[trigger] views(names@)[j] == kinds@.subrange(0, i + 1).map_values(|k: DepKind| kind_name(k))[j] by {
                if j < i {
                    assert(views(before)[j] == kinds@.subrange(0, i as int).map_values(|k: DepKind| kind_name(k))[j]);
                }
            }
            assert(views(names@) =~= kinds@.subrange(0, i + 1).map_values(|k: DepKind| kind_name(k)));
        }
        i = i + 1;
    }
    if all_normal {
        String::new()
    } else {
        assert(kinds@.subrange(0, kinds@.len() as int) =~= kinds@);
        crate::text::join(&names, " ")
    }
}

/// An edge of the graph: the package it leads to and its kinds.
pub struct DepEdge {
    pub target: usize,
    pub kinds: Vec<DepKind>,
}

/// A package of the resolved graph.
pub struct PackageInfo {
    pub id: String,
    pub name: String,
    pub version: String,
}

/// The resolved dependency graph: packages by index, and for each package
/// its outgoing edges in the order the resolver lists them.
pub struct DepGraph {
    pub packages: Vec<PackageInfo>,
    pub deps: Vec<Vec<DepEdge>>,
}

impl DepGraph {
    /// Every package has an edge list and every edge leads to a package.
    pub open spec fn wf(&self) -> bool {
        &&& self.deps@.len() == self.packages@.len()
        &&& forall|p: int, e: int|
            0 <= p < self.deps@.len() && 0 <= e < self.deps@[p]@.len()
                ==> #[trigger] self.deps@[p]@[e].target < self.packages@.len()
    }
}

/// One row of the dependency tree.
pub struct DependencyNode {
    pub crate_name: String,
    pub version: String,
    /// Index of the package in the graph it was built from.
    pub package: usize,
    pub indentation: usize,
    pub duplicated: bool,
    pub outdated: bool,
    pub dep_kind: String,
    pub parent_package: String,
    pub open: bool,
    pub has_children: bool,
}

/// Depth never grows by more than one from a node to the next, the first
/// node is a root, and a duplicated node is followed by no child.
pub open spec fn forest_shape(nodes: Seq<DependencyNode>) -> bool {
    &&& nodes.len() > 0 ==> nodes[0].indentation == 0
    &&& forall|j: int|
        0 <= j < nodes.len() - 1 ==> #[trigger] nodes[j + 1].indentation <= nodes[j].indentation + 1
    &&& forall|j: int|
        0 <= j < nodes.len() - 1 && #[trigger] nodes[j].duplicated
            ==> nodes[j + 1].indentation <= nodes[j].indentation
}

/// Whether node `j` has a child, read from the shape of the tree.
pub open spec fn has_child_at(nodes: Seq<DependencyNode>, j: int) -> bool {
    j + 1 < nodes.len() && nodes[j + 1].indentation == nodes[j].indentation + 1
}

/// Whether a node's dependencies are walked: its first visit, for a package
/// with dependencies.
pub open spec fn expands(graph: &DepGraph, n: DependencyNode) -> bool {
    !n.duplicated && graph.deps@[n.package as int]@.len() > 0
}

/// A node is followed by a child exactly when its dependencies are walked.
pub open spec fn children_follow(graph: &DepGraph, nodes: Seq<DependencyNode>) -> bool {
    forall|j: int|
        0 <= j < nodes.len() - 1 ==> (#[trigger] nodes[j + 1].indentation == nodes[j].indentation + 1 <==> expands(
            graph,
            nodes[j],
        ))
}

/// The last node made does not wait for children.
pub open spec fn last_settled(graph: &DepGraph, nodes: Seq<DependencyNode>) -> bool {
    nodes.len() > 0 ==> !expands(graph, nodes.last())
}

/// Whether a node of depth `d` may be appended to `nodes`: a child right
/// after a node that expands, else a node no deeper than the last.
pub open spec fn may_follow(graph: &DepGraph, nodes: Seq<DependencyNode>, d: int) -> bool {
    &&& nodes.len() == 0 ==> d == 0
    &&& nodes.len() > 0 && expands(graph, nodes.last()) ==> d == nodes.last().indentation + 1
    &&& nodes.len() > 0 && !expands(graph, nodes.last()) ==> d <= nodes.last().indentation
}

/// Node `k` is the parent of node `j`: the nearest node before it that is one
/// level up.
pub open spec fn is_parent(nodes: Seq<DependencyNode>, k: int, j: int) -> bool {
    &&& 0 <= k < j < nodes.len()
    &&& nodes[k].indentation + 1 == nodes[j].indentation
    &&& forall|l: int| k < l < j ==> #[trigger] nodes[l].indentation >= nodes[j].indentation
}

/// `child` stands for an edge of `parent`'s package: it names the edge's
/// target, carries the label of the edge's kinds and the parent's id.
pub open spec fn edge_node(graph: &DepGraph, parent: DependencyNode, child: DependencyNode) -> bool {
    &&& child.parent_package@ == graph.packages@[parent.package as int].id@
    &&& exists|e: int|
        0 <= e < graph.deps@[parent.package as int]@.len()
            && #[trigger] graph.deps@[parent.package as int]@[e].target == child.package
            && child.dep_kind@ == kind_label(graph.deps@[parent.package as int]@[e].kinds@)
}

/// Every node below the roots stands for an edge of its parent.
pub open spec fn edges_sound(graph: &DepGraph, nodes: Seq<DependencyNode>) -> bool {
    forall|j: int|
        0 <= j < nodes.len() && #[trigger] nodes[j].indentation > 0 ==> exists|k: int|
            is_parent(nodes, k, j) && edge_node(graph, nodes[k], nodes[j])
}

/// Node `k` has a child that stands for the `c`-th dependency of its package.
pub open spec fn child_for(graph: &DepGraph, nodes: Seq<DependencyNode>, k: int, c: int) -> bool {
    exists|j: int|
        #[trigger] is_parent(nodes, k, j) && graph.deps@[nodes[k].package as int]@[c].target == nodes[j].package
            && nodes[j].dep_kind@ == kind_label(graph.deps@[nodes[k].package as int]@[c].kinds@)
}

/// Every dependency of node `k`'s package has a child of `k` that stands
/// for it.
pub open spec fn edges_covered(graph: &DepGraph, nodes: Seq<DependencyNode>, k: int) -> bool {
    forall|c: int| 0 <= c < graph.deps@[nodes[k].package as int]@.len() ==> #[trigger] child_for(graph, nodes, k, c)
}

proof fn lemma_parent_kept(a: Seq<DependencyNode>, b: Seq<DependencyNode>, k: int, j: int)
    requires
        a.len() <= b.len(),
        b.subrange(0, a.len() as int) == a,
        is_parent(a, k, j),
    ensures
        is_parent(b, k, j),
        b[k] == a[k],
        b[j] == a[j],
{
    assert(b.subrange(0, a.len() as int)[k] == b[k]);
    assert(b.subrange(0, a.len() as int)[j] == b[j]);
    assert forall|l: int| k < l < j implies #[trigger] b[l].indentation >= b[j].indentation by {
        assert(b.subrange(0, a.len() as int)[l] == b[l]);
    }
}

proof fn lemma_covered_grows(graph: &DepGraph, a: Seq<DependencyNode>, b: Seq<DependencyNode>, k: int)
    requires
        0 <= k < a.len() <= b.len(),
        b.subrange(0, a.len() as int) == a,
        edges_covered(graph, a, k),
    ensures
        edges_covered(graph, b, k),
{
    assert(b[k] == a[k]) by {
        assert(b.subrange(0, a.len() as int)[k] == b[k]);
    }
    assert forall|c: int| 0 <= c < graph.deps@[b[k].package as int]@.len() implies #[trigger] child_for(graph, b, k, c) by {
        assert(child_for(graph, a, k, c));
        let j = choose|j: int|
            #[trigger] is_parent(a, k, j) && graph.deps@[a[k].package as int]@[c].target == a[j].package
                && a[j].dep_kind@ == kind_label(graph.deps@[a[k].package as int]@[c].kinds@);
        lemma_parent_kept(a, b, k, j);
    }
}

/// Every node whose dependencies are walked, and whose walk is not under
/// way, has a child for each of them.
pub open spec fn walks_done(graph: &DepGraph, nodes: Seq<DependencyNode>, pending: Set<int>) -> bool {
    forall|k: int|
        0 <= k < nodes.len() && #[trigger] expands(graph, nodes[k]) && !pending.contains(k) ==> edges_covered(graph, nodes, k)
}

proof fn lemma_walks_done_grows(graph: &DepGraph, a: Seq<DependencyNode>, b: Seq<DependencyNode>, pending: Set<int>)
    requires
        a.len() <= b.len(),
        b.subrange(0, a.len() as int) == a,
        walks_done(graph, a, pending),
        forall|k: int| a.len() <= k < b.len() && #[trigger] expands(graph, b[k]) && !pending.contains(k) ==> edges_covered(graph, b, k),
    ensures
        walks_done(graph, b, pending),
{
    assert forall|k: int| 0 <= k < b.len() && #[trigger] expands(graph, b[k]) && !pending.contains(k)
        implies edges_covered(graph, b, k) by {
        if k < a.len() {
            assert(b[k] == a[k]) by {
                assert(b.subrange(0, a.len() as int)[k] == b[k]);
            }
            lemma_covered_grows(graph, a, b, k);
        }
    }
}

/// The children of node `k` among the nodes before `e`, in order, each as
/// its package and its label.
pub open spec fn child_entries(nodes: Seq<DependencyNode>, k: int, e: int) -> Seq<(usize, Seq<char>)>
    decreases e - k,
{
    if e <= k + 1 {
        Seq::empty()
    } else {
        child_entries(nodes, k, e - 1) + if is_parent(nodes, k, e - 1) {
            seq![(nodes[e - 1].package, nodes[e - 1].dep_kind@)]
        } else {
            Seq::empty()
        }
    }
}

/// The edges of a package, each as its target and its label, in order.
pub open spec fn edge_entries(graph: &DepGraph, p: int) -> Seq<(usize, Seq<char>)> {
    graph.deps@[p]@.map_values(|ed: DepEdge| (ed.target, kind_label(ed.kinds@)))
}

/// Node `k` has one child per edge of its package, in the order of the edges.
pub open spec fn children_exact(graph: &DepGraph, nodes: Seq<DependencyNode>, k: int) -> bool {
    child_entries(nodes, k, nodes.len() as int) == edge_entries(graph, nodes[k].package as int)
}

/// Every node whose walk is done and whose dependencies were walked has one
/// child per edge, in order.
pub open spec fn walks_exact(graph: &DepGraph, nodes: Seq<DependencyNode>, pending: Set<int>) -> bool {
    forall|k: int|
        0 <= k < nodes.len() && #[trigger] expands(graph, nodes[k]) && !pending.contains(k) ==> children_exact(graph, nodes, k)
}

proof fn lemma_parent_unique(nodes: Seq<DependencyNode>, k1: int, k2: int, j: int)
    requires
        is_parent(nodes, k1, j),
        is_parent(nodes, k2, j),
    ensures
        k1 == k2,
{
    if k1 < k2 {
        assert(nodes[k2].indentation >= nodes[j].indentation);
    } else if k2 < k1 {
        assert(nodes[k1].indentation >= nodes[j].indentation);
    }
}

/// Children before `e` depend only on the nodes before `e`.
proof fn lemma_child_entries_prefix(a: Seq<DependencyNode>, b: Seq<DependencyNode>, k: int, e: int)
    requires
        0 <= k,
        e <= a.len() <= b.len(),
        b.subrange(0, a.len() as int) == a,
    ensures
        child_entries(b, k, e) == child_entries(a, k, e),
    decreases e - k,
{
    if e > k + 1 {
        lemma_child_entries_prefix(a, b, k, e - 1);
        assert forall|l: int| 0 <= l < a.len() implies #[trigger] b[l] == a[l] by {
            assert(b.subrange(0, a.len() as int)[l] == b[l]);
        }
        assert(is_parent(b, k, e - 1) == is_parent(a, k, e - 1));
    }
}

/// Nodes in `[s, e)` that are no children of `k` add nothing.
proof fn lemma_child_entries_skip(nodes: Seq<DependencyNode>, k: int, s: int, e: int)
    requires
        k + 1 <= s <= e <= nodes.len(),
        forall|j: int| s <= j < e ==> !#[trigger] is_parent(nodes, k, j),
    ensures
        child_entries(nodes, k, e) == child_entries(nodes, k, s),
    decreases e - s,
{
    if e > s {
        lemma_child_entries_skip(nodes, k, s, e - 1);
        assert(!is_parent(nodes, k, e - 1));
        assert(child_entries(nodes, k, e) =~= child_entries(nodes, k, e - 1));
    }
}

/// Children are read the same way from two trees whose nodes agree on depth,
/// package and label.
proof fn lemma_child_entries_same(a: Seq<DependencyNode>, b: Seq<DependencyNode>, k: int, e: int)
    requires
        0 <= k,
        e <= a.len() == b.len(),
        forall|j: int| 0 <= j < a.len() ==> #[trigger] b[j].indentation == a[j].indentation && b[j].package == a[j].package
            && b[j].dep_kind == a[j].dep_kind,
    ensures
        child_entries(b, k, e) == child_entries(a, k, e),
    decreases e - k,
{
    if e > k + 1 {
        lemma_child_entries_same(a, b, k, e - 1);
        if is_parent(a, k, e - 1) {
            assert forall|l: int| k < l < e - 1 implies #[trigger] b[l].indentation >= b[e - 1].indentation by {
                assert(a[l].indentation >= a[e - 1].indentation);
            }
        }
        if is_parent(b, k, e - 1) {
            assert forall|l: int| k < l < e - 1 implies #[trigger] a[l].indentation >= a[e - 1].indentation by {
                assert(b[l].indentation >= b[e - 1].indentation);
            }
        }
    }
}

/// Appending a node that is no child of a finished node keeps that node's
/// children, and appending keeps every finished walk exact.
proof fn lemma_walks_exact_push(graph: &DepGraph, out0: Seq<DependencyNode>, node: DependencyNode, pending: Set<int>, parent: int)
    requires
        walks_exact(graph, out0, pending),
        node.indentation > 0 ==> pending.contains(parent) && is_parent(out0.push(node), parent, out0.len() as int),
    ensures
        walks_exact(graph, out0.push(node), pending.insert(out0.len() as int)),
        !expands(graph, node) ==> walks_exact(graph, out0.push(node), pending),
{
    let out = out0.push(node);
    let m = out0.len() as int;
    assert(out.subrange(0, m) =~= out0);
    assert forall|k: int| 0 <= k < out.len() && #[trigger] expands(graph, out[k]) && !pending.contains(k) && k != m
        implies children_exact(graph, out, k) by {
        assert(out[k] == out0[k]);
        assert(children_exact(graph, out0, k));
        lemma_child_entries_prefix(out0, out, k, m);
        if is_parent(out, k, m) {
            lemma_parent_unique(out, k, parent, m);
        }
        assert(child_entries(out, k, m + 1) =~= child_entries(out, k, m));
    }
}

/// After a child's walk: the first node of the block it made is the next
/// child of `m`, the rest of the block lies deeper.
proof fn lemma_child_block(before: Seq<DependencyNode>, out: Seq<DependencyNode>, m: int)
    requires
        0 <= m < before.len() < out.len(),
        out.subrange(0, before.len() as int) == before,
        is_parent(out, m, before.len() as int),
        forall|j: int| before.len() < j < out.len() ==> #[trigger] out[j].indentation > out[m].indentation + 1,
    ensures
        child_entries(out, m, out.len() as int) == child_entries(before, m, before.len() as int).push(
            (out[before.len() as int].package, out[before.len() as int].dep_kind@),
        ),
{
    let b = before.len() as int;
    assert forall|j: int| b + 1 <= j < out.len() implies !#[trigger] is_parent(out, m, j) by {}
    lemma_child_entries_skip(out, m, b + 1, out.len() as int);
    lemma_child_entries_prefix(before, out, m, b);
    assert(child_entries(out, m, b + 1) =~= child_entries(out, m, b).push((out[b].package, out[b].dep_kind@)));
}

/// The packages of the root nodes, in order.
pub open spec fn root_packages(nodes: Seq<DependencyNode>) -> Seq<usize>
    decreases nodes.len(),
{
    if nodes.len() == 0 {
        Seq::empty()
    } else {
        root_packages(nodes.drop_last()) + if nodes.last().indentation == 0 {
            seq![nodes.last().package]
        } else {
            Seq::empty()
        }
    }
}

proof fn lemma_root_packages_same(a: Seq<DependencyNode>, b: Seq<DependencyNode>)
    requires
        a.len() == b.len(),
        forall|j: int| 0 <= j < a.len() ==> #[trigger] a[j].indentation == b[j].indentation && a[j].package == b[j].package,
    ensures
        root_packages(a) == root_packages(b),
    decreases a.len(),
{
    if a.len() > 0 {
        lemma_root_packages_same(a.drop_last(), b.drop_last());
    }
}

proof fn lemma_root_packages_deeper(a: Seq<DependencyNode>, b: Seq<DependencyNode>)
    requires
        forall|j: int| 0 <= j < b.len() ==> #[trigger] b[j].indentation > 0,
    ensures
        root_packages(a + b) == root_packages(a),
    decreases b.len(),
{
    if b.len() > 0 {
        assert((a + b).drop_last() =~= a + b.drop_last());
        lemma_root_packages_deeper(a, b.drop_last());
    } else {
        assert(a + b =~= a);
    }
}

/// Whether a package occurs among the first `upto` nodes.
pub open spec fn occurs_before(nodes: Seq<DependencyNode>, p: int, upto: int) -> bool {
    exists|k: int| 0 <= k < upto && #[trigger] nodes[k].package == p
}

/// A node is marked duplicated exactly when its package occurred before it.
pub open spec fn duplicates_marked(nodes: Seq<DependencyNode>) -> bool {
    forall|j: int|
        0 <= j < nodes.len() ==> (#[trigger] nodes[j].duplicated <==> occurs_before(nodes, nodes[j].package as int, j))
}

/// The latest release of each package, as far as the registry index knows.
pub open spec fn latest_ok(graph: &DepGraph, latest: Seq<Option<String>>) -> bool {
    latest.len() == graph.packages@.len()
}

/// Whether the package's latest known release is newer than its version.
pub open spec fn package_outdated(graph: &DepGraph, latest: Seq<Option<String>>, p: int) -> bool {
    match latest[p] {
        Some(v) => newer_version(v@, graph.packages@[p].version@),
        None => false,
    }
}

/// What a node holds of its package; every node starts open.
pub open spec fn node_of_package(graph: &DepGraph, latest: Seq<Option<String>>, n: DependencyNode) -> bool {
    &&& n.package < graph.packages@.len()
    &&& n.crate_name@ == graph.packages@[n.package as int].name@
    &&& n.version@ == graph.packages@[n.package as int].version@
    &&& n.outdated == package_outdated(graph, latest, n.package as int)
    &&& n.open
}

/// Number of `true` entries.
pub open spec fn count_true(s: Seq<bool>) -> nat
    decreases s.len(),
{
    if s.len() == 0 {
        0
    } else {
        count_true(s.drop_last()) + if s.last() { 1nat } else { 0nat }
    }
}

/// The number of edges of the packages marked in `marked`.
pub open spec fn dep_weight(graph: &DepGraph, marked: Seq<bool>) -> nat
    decreases marked.len(),
{
    if marked.len() == 0 {
        0
    } else {
        dep_weight(graph, marked.drop_last()) + if marked.last() {
            graph.deps@[marked.len() - 1]@.len()
        } else {
            0nat
        }
    }
}

/// Which packages occur in a tree.
pub open spec fn occurring(graph: &DepGraph, nodes: Seq<DependencyNode>) -> Seq<bool> {
    Seq::new(graph.packages@.len(), |p: int| occurs_before(nodes, p, nodes.len() as int))
}

proof fn lemma_dep_weight_none(graph: &DepGraph, s: Seq<bool>)
    requires
        forall|i: int| 0 <= i < s.len() ==> !#[trigger] s[i],
    ensures
        dep_weight(graph, s) == 0,
    decreases s.len(),
{
    if s.len() > 0 {
        lemma_dep_weight_none(graph, s.drop_last());
    }
}

proof fn lemma_dep_weight_set(graph: &DepGraph, s: Seq<bool>, i: int)
    requires
        0 <= i < s.len(),
        !s[i],
    ensures
        dep_weight(graph, s.update(i, true)) == dep_weight(graph, s) + graph.deps@[i]@.len(),
    decreases s.len(),
{
    let t = s.update(i, true);
    if i == s.len() - 1 {
        assert(t.drop_last() =~= s.drop_last());
    } else {
        assert(t.drop_last() =~= s.drop_last().update(i, true));
        lemma_dep_weight_set(graph, s.drop_last(), i);
    }
}

proof fn lemma_count_true_bound(s: Seq<bool>)
    ensures
        count_true(s) <= s.len(),
    decreases s.len(),
{
    if s.len() > 0 {
        lemma_count_true_bound(s.drop_last());
    }
}

proof fn lemma_count_true_none(s: Seq<bool>)
    requires
        forall|i: int| 0 <= i < s.len() ==> !#[trigger] s[i],
    ensures
        count_true(s) == 0,
    decreases s.len(),
{
    if s.len() > 0 {
        lemma_count_true_none(s.drop_last());
    }
}

proof fn lemma_count_true_set(s: Seq<bool>, i: int)
    requires
        0 <= i < s.len(),
        !s[i],
    ensures
        count_true(s.update(i, true)) == count_true(s) + 1,
    decreases s.len(),
{
    let t = s.update(i, true);
    if i == s.len() - 1 {
        assert(t.drop_last() =~= s.drop_last());
    } else {
        assert(t.drop_last() =~= s.drop_last().update(i, true));
        lemma_count_true_set(s.drop_last(), i);
    }
}

/// The state threaded through one build: which packages were visited, and
/// the nodes made so far.
#[verifier::opaque]
pub open spec fn build_inv(
    graph: &DepGraph,
    latest: Seq<Option<String>>,
    visited: Seq<bool>,
    out: Seq<DependencyNode>,
) -> bool {
    &&& visited.len() == graph.packages@.len()
    &&& forall|j: int| 0 <= j < out.len() ==> node_of_package(graph, latest, #[trigger] out[j])
    &&& forall|p: int| 0 <= p < visited.len() ==> (visited[p] <==> occurs_before(out, p, out.len() as int))
    &&& duplicates_marked(out)
    &&& forest_shape(out)
    &&& children_follow(graph, out)
    &&& edges_sound(graph, out)
}

proof fn lemma_pushed_edges(
    graph: &DepGraph,
    out0: Seq<DependencyNode>,
    node: DependencyNode,
    kinds: Seq<DepKind>,
    parent: Seq<char>,
)
    requires
        edges_sound(graph, out0),
        node.dep_kind@ == kind_label(kinds),
        node.parent_package@ == parent,
        node.indentation > 0 ==> exists|k: int|
            0 <= k < out0.len() && #[trigger] out0[k].indentation + 1 == node.indentation
                && (forall|l: int| k < l < out0.len() ==> #[trigger] out0[l].indentation >= node.indentation)
                && parent == graph.packages@[out0[k].package as int].id@
                && exists|e: int|
                    0 <= e < graph.deps@[out0[k].package as int]@.len()
                        && #[trigger] graph.deps@[out0[k].package as int]@[e].target == node.package
                        && kinds == graph.deps@[out0[k].package as int]@[e].kinds@,
    ensures
        edges_sound(graph, out0.push(node)),
{
    let out = out0.push(node);
    let m = out0.len() as int;
    let pkg = node.package as int;
    let depth = node.indentation as int;
    assert(out.subrange(0, m) =~= out0);
    assert forall|j: int| 0 <= j < out.len() && #[trigger] out[j].indentation > 0 implies exists|k: int|
        is_parent(out, k, j) && edge_node(graph, out[k], out[j]) by {
        if j < m {
            assert(out[j] == out0[j]);
            let k = choose|k: int| is_parent(out0, k, j) && edge_node(graph, out0[k], out0[j]);
            assert(out[k] == out0[k]);
            assert forall|l: int| k < l < j implies #[trigger] out[l].indentation >= out[j].indentation by {
                assert(out[l] == out0[l]);
            }
            assert(is_parent(out, k, j));
        } else {
            assert(j == m);
            let k = choose|k: int|
                0 <= k < out0.len() && #[trigger] out0[k].indentation + 1 == depth
                    && (forall|l: int| k < l < out0.len() ==> #[trigger] out0[l].indentation >= depth)
                    && parent == graph.packages@[out0[k].package as int].id@
                    && exists|e: int|
                        0 <= e < graph.deps@[out0[k].package as int]@.len()
                            && #[trigger] graph.deps@[out0[k].package as int]@[e].target == pkg
                            && kinds == graph.deps@[out0[k].package as int]@[e].kinds@;
            assert(out[k] == out0[k]);
            assert forall|l: int| k < l < j implies #[trigger] out[l].indentation >= out[j].indentation by {
                assert(out[l] == out0[l]);
            }
            assert(is_parent(out, k, j));
            let e = choose|e: int|
                0 <= e < graph.deps@[out0[k].package as int]@.len()
                    && #[trigger] graph.deps@[out0[k].package as int]@[e].target == pkg
                    && kinds == graph.deps@[out0[k].package as int]@[e].kinds@;
            assert(graph.deps@[out[k].package as int]@[e].target == out[j].package);
            assert(edge_node(graph, out[k], out[j]));
        }
    }
}

proof fn lemma_pushed_marks(visited: Seq<bool>, out0: Seq<DependencyNode>, node: DependencyNode)
    requires
        forall|p: int| 0 <= p < visited.len() ==> (visited[p] <==> occurs_before(out0, p, out0.len() as int)),
        duplicates_marked(out0),
        0 <= node.package < visited.len(),
        node.duplicated == visited[node.package as int],
    ensures
        forall|p: int| 0 <= p < visited.len() ==> (visited.update(node.package as int, true)[p] <==> occurs_before(
            out0.push(node),
            p,
            (out0.len() + 1) as int,
        )),
        duplicates_marked(out0.push(node)),
{
    let out = out0.push(node);
    let m = out0.len() as int;
    let pkg = node.package as int;
    let duplicated = node.duplicated;
    assert(out.subrange(0, m) =~= out0);
    assert forall|p: int| 0 <= p < visited.len() && p != pkg implies (visited[p] <==> occurs_before(out, p, out.len() as int)) by {
        if occurs_before(out, p, out.len() as int) {
            let k = choose|k: int| 0 <= k < out.len() && #[trigger] out[k].package == p;
            assert(k < m);
            assert(occurs_before(out0, p, m));
        }
        if occurs_before(out0, p, m) {
            let k = choose|k: int| 0 <= k < m && #[trigger] out0[k].package == p;
            assert(out[k].package == p);
        }
    }
    assert(occurs_before(out, pkg, out.len() as int)) by {
        assert(out[m].package == pkg);
    }
    assert(duplicated <==> occurs_before(out, pkg, m)) by {
        if occurs_before(out0, pkg, m) {
            let k = choose|k: int| 0 <= k < m && #[trigger] out0[k].package == pkg;
            assert(out[k].package == pkg);
        }
        if occurs_before(out, pkg, m) {
            let k = choose|k: int| 0 <= k < m && #[trigger] out[k].package == pkg;
            assert(out0[k].package == pkg);
        }
    }
    assert forall|j: int| 0 <= j < m implies (#[trigger] out[j].duplicated <==> occurs_before(out, out[j].package as int, j)) by {
        assert(out[j] == out0[j]);
        let p = out0[j].package as int;
        if occurs_before(out0, p, j) {
            let k = choose|k: int| 0 <= k < j && #[trigger] out0[k].package == p;
            assert(out[k].package == p);
        }
        if occurs_before(out, p, j) {
            let k = choose|k: int| 0 <= k < j && #[trigger] out[k].package == p;
            assert(out0[k].package == p);
        }
    }
    let v2 = visited.update(pkg, true);
    assert forall|p: int| 0 <= p < v2.len() implies (v2[p] <==> occurs_before(out, p, out.len() as int)) by {
    if p == pkg {
        assert(occurs_before(out, pkg, out.len() as int));
    }
    }
}


/// What holds once a node is appended: the state of the build is kept.
proof fn lemma_pushed(
    graph: &DepGraph,
    latest: Seq<Option<String>>,
    visited: Seq<bool>,
    out0: Seq<DependencyNode>,
    node: DependencyNode,
    kinds: Seq<DepKind>,
    parent: Seq<char>,
)
    requires
        graph.wf(),
        build_inv(graph, latest, visited, out0),
        may_follow(graph, out0, node.indentation as int),
        node_of_package(graph, latest, node),
        node.duplicated == visited[node.package as int],
        node.dep_kind@ == kind_label(kinds),
        node.parent_package@ == parent,
        node.indentation > 0 ==> exists|k: int|
            0 <= k < out0.len() && #[trigger] out0[k].indentation + 1 == node.indentation
                && (forall|l: int| k < l < out0.len() ==> #[trigger] out0[l].indentation >= node.indentation)
                && parent == graph.packages@[out0[k].package as int].id@
                && exists|e: int|
                    0 <= e < graph.deps@[out0[k].package as int]@.len()
                        && #[trigger] graph.deps@[out0[k].package as int]@[e].target == node.package
                        && kinds == graph.deps@[out0[k].package as int]@[e].kinds@,
    ensures
        build_inv(graph, latest, visited.update(node.package as int, true), out0.push(node)),
{
    reveal(build_inv);
    lemma_pushed_edges(graph, out0, node, kinds, parent);
    lemma_pushed_marks(visited, out0, node);
    let out = out0.push(node);
    let m = out0.len() as int;
    assert forall|j: int| 0 <= j < out.len() implies node_of_package(graph, latest, #[trigger] out[j]) by {
        if j < m {
            assert(out[j] == out0[j]);
        }
    }
    assert forall|j: int| 0 <= j < out.len() - 1 implies #[trigger] out[j + 1].indentation <= out[j].indentation + 1 by {
        if j + 1 < m {
            assert(out[j] == out0[j] && out[j + 1] == out0[j + 1]);
        }
    }
    assert forall|j: int| 0 <= j < out.len() - 1 && #[trigger] out[j].duplicated implies out[j + 1].indentation <= out[j].indentation by {
        if j + 1 < m {
            assert(out[j] == out0[j] && out[j + 1] == out0[j + 1]);
        }
    }
    assert forall|j: int| 0 <= j < out.len() - 1 implies (#[trigger] out[j + 1].indentation == out[j].indentation + 1 <==> expands(graph, out[j])) by {
        if j + 1 < m {
            assert(out[j] == out0[j] && out[j + 1] == out0[j + 1]);
        } else {
            assert(out[j] == out0.last());
        }
    }
}

/// Appends the node of `pkg` at depth `depth`, then, on its first visit,
/// the subtrees of its dependencies.
#[verifier::loop_isolation(false)]
fn visit(
    graph: &DepGraph,
    latest: &Vec<Option<String>>,
    pkg: usize,
    kinds: &Vec<DepKind>,
    parent: &String,
    depth: usize,
    visited: &mut Vec<bool>,
    out: &mut Vec<DependencyNode>,
    pending: Ghost<Set<int>>,
)
    requires
        graph.wf(),
        latest_ok(graph, latest@),
        pkg < graph.packages@.len(),
        old(visited)@.len() == graph.packages@.len(),
        walks_done(graph, old(out)@, pending@),
        walks_exact(graph, old(out)@, pending@),
        forall|k: int| #[trigger] pending@.contains(k) ==> 0 <= k < old(out)@.len(),
        build_inv(graph, latest@, old(visited)@, old(out)@),
        may_follow(graph, old(out)@, depth as int),
        depth <= count_true(old(visited)@),
        depth > 0 ==> exists|k: int|
            0 <= k < old(out)@.len() && #[trigger] old(out)@[k].indentation + 1 == depth
                && (forall|l: int| k < l < old(out)@.len() ==> #[trigger] old(out)@[l].indentation >= depth)
                && pending@.contains(k)
                && parent@ == graph.packages@[old(out)@[k].package as int].id@
                && exists|e: int|
                    0 <= e < graph.deps@[old(out)@[k].package as int]@.len()
                        && #[trigger] graph.deps@[old(out)@[k].package as int]@[e].target == pkg
                        && kinds@ == graph.deps@[old(out)@[k].package as int]@[e].kinds@,
    ensures
        build_inv(graph, latest@, final(visited)@, final(out)@),
        final(visited)@.len() == graph.packages@.len(),
        walks_done(graph, final(out)@, pending@),
        walks_exact(graph, final(out)@, pending@),
        last_settled(graph, final(out)@),
        depth == 0 ==> root_packages(final(out)@) == root_packages(old(out)@).push(pkg),
        depth > 0 ==> root_packages(final(out)@) == root_packages(old(out)@),
        final(out)@.len() > old(out)@.len(),
        final(out)@.subrange(0, old(out)@.len() as int) == old(out)@,
        final(out)@[old(out)@.len() as int].package == pkg,
        final(out)@[old(out)@.len() as int].indentation == depth,
        final(out)@[old(out)@.len() as int].dep_kind@ == kind_label(kinds@),
        final(out)@[old(out)@.len() as int].parent_package@ == parent@,
        forall|j: int|
            old(out)@.len() < j < final(out)@.len() ==> #[trigger] final(out)@[j].indentation > depth,
        count_true(final(visited)@) >= count_true(old(visited)@),
        final(out)@.len() - old(out)@.len() <= 1 + dep_weight(graph, final(visited)@) - dep_weight(graph, old(visited)@),
    decreases graph.packages@.len() - count_true(visited@),
{
    let ghost out0 = out@;
    let ghost visited0 = visited@;
    proof {
        lemma_count_true_bound(visited0);
    }
    let m = out.len();
    let info = &graph.packages[pkg];
    let duplicated = visited[pkg];
    let outdated = match &latest[pkg] {
        Some(v) => is_newer_version(v.as_str(), info.version.as_str()),
        None => false,
    };
    let node = DependencyNode {
        crate_name: info.name.clone(),
        version: info.version.clone(),
        package: pkg,
        indentation: depth,
        duplicated,
        outdated,
        dep_kind: dep_kind_label(kinds),
        parent_package: parent.clone(),
        open: true,
        has_children: false,
    };
    let ghost made = node;
    out.push(node);
    proof {
        assert(out@ == out0.push(made));
        lemma_pushed(graph, latest@, visited0, out0, made, kinds@, parent@);
        assert(out@.subrange(0, m as int) =~= out0);
        assert(walks_done(graph, out0, pending@.insert(m as int)));
        lemma_walks_done_grows(graph, out0, out@, pending@.insert(m as int));
        if !expands(graph, made) {
            lemma_walks_done_grows(graph, out0, out@, pending@);
        }
        if depth > 0 {
            let k0 = choose|k: int|
                0 <= k < out0.len() && #[trigger] out0[k].indentation + 1 == depth
                    && (forall|l: int| k < l < out0.len() ==> #[trigger] out0[l].indentation >= depth)
                    && pending@.contains(k)
                    && parent@ == graph.packages@[out0[k].package as int].id@
                    && exists|e: int|
                        0 <= e < graph.deps@[out0[k].package as int]@.len()
                            && #[trigger] graph.deps@[out0[k].package as int]@[e].target == pkg
                            && kinds@ == graph.deps@[out0[k].package as int]@[e].kinds@;
            assert(out@[k0] == out0[k0]);
            assert forall|l: int| k0 < l < m implies #[trigger] out@[l].indentation >= out@[m as int].indentation by {
                assert(out@[l] == out0[l]);
            }
            assert(is_parent(out@, k0, m as int));
            lemma_walks_exact_push(graph, out0, made, pending@, k0);
        } else {
            lemma_walks_exact_push(graph, out0, made, pending@, 0);
        }
        if duplicated {
            assert(visited0.update(pkg as int, true) =~= visited0);
        }
    }
    if !duplicated {
        proof {
            lemma_count_true_set(visited@, pkg as int);
            lemma_count_true_bound(visited@.update(pkg as int, true));
            lemma_dep_weight_set(graph, visited@, pkg as int);
        }
        visited.set(pkg, true);
        let edges = &graph.deps[pkg];
        let n = graph.packages.len();
        let ghost count1 = count_true(visited@);
        let ghost weight1 = dep_weight(graph, visited@);
        let mut i: usize = 0;
        while i < edges.len()
            invariant
                graph.wf(),
                latest_ok(graph, latest@),
                pkg < graph.packages@.len(),
                edges == &graph.deps@[pkg as int],
                i <= edges@.len(),
                build_inv(graph, latest@, visited@, out@),
                visited@.len() == graph.packages@.len(),
                walks_done(graph, out@, pending@.insert(m as int)),
                walks_exact(graph, out@, pending@.insert(m as int)),
                child_entries(out@, m as int, out@.len() as int) == edge_entries(graph, pkg as int).subrange(0, i as int),
                i == 0 ==> out@ == out0.push(made),
                forall|k: int| #[trigger] pending@.contains(k) ==> 0 <= k < m,
                forall|c: int| 0 <= c < i ==> #[trigger] child_for(graph, out@, m as int, c),
                out@.len() > m,
                out@.subrange(0, m as int) == out0,
                out@[m as int].package == pkg,
                out@[m as int].indentation == depth,
                out@[m as int].dep_kind@ == kind_label(kinds@),
                out@[m as int].parent_package@ == parent@,
                !out@[m as int].duplicated,
                i == 0 ==> out@.len() == m + 1,
                i > 0 ==> last_settled(graph, out@),
                forall|j: int| m < j < out@.len() ==> #[trigger] out@[j].indentation > depth,
                count1 == count_true(visited0) + 1,
                weight1 == dep_weight(graph, visited0) + graph.deps@[pkg as int]@.len(),
                out@.len() - (m + 1) <= i + dep_weight(graph, visited@) - weight1,
                count_true(visited@) >= count1,
                depth + 1 <= count1,
                count1 <= graph.packages@.len(),
                n == graph.packages@.len(),
            decreases edges@.len() - i,
        {
            let edge = &edges[i];
            assert(edge.target < graph.packages@.len());
            let ghost before = out@;
            let child_parent = info.id.clone();
            proof {
                lemma_count_true_bound(visited@);
                assert(out@[m as int].indentation + 1 == depth + 1);
                assert(graph.deps@[out@[m as int].package as int]@[i as int].target == edge.target);
            }
            proof {
                assert(pending@.insert(m as int).contains(m as int));
                assert forall|k: int| #[trigger] pending@.insert(m as int).contains(k) implies 0 <= k < out@.len() by {}
            }
            visit(graph, latest, edge.target, &edge.kinds, &child_parent, depth + 1, visited, out, Ghost(pending@.insert(m as int)));
            proof {
                let b = before.len() as int;
                assert(out@.subrange(0, before.len() as int)[m as int] == before[m as int]);
                assert forall|l: int| m < l < b implies #[trigger] out@[l].indentation >= out@[b].indentation by {
                    assert(out@.subrange(0, before.len() as int)[l] == before[l]);
                }
                assert(is_parent(out@, m as int, b));
                assert(child_for(graph, out@, m as int, i as int));
                assert(out@[m as int].indentation == depth);
                lemma_child_block(before, out@, m as int);
                assert(edge_entries(graph, pkg as int).subrange(0, i + 1) =~= edge_entries(graph, pkg as int).subrange(0, i as int).push(
                    (edge.target, kind_label(edge.kinds@)),
                ));
                assert forall|c: int| 0 <= c < i + 1 implies #[trigger] child_for(graph, out@, m as int, c) by {
                    if c < i {
                        assert(child_for(graph, before, m as int, c));
                        let j = choose|j: int|
                            #[trigger] is_parent(before, m as int, j) && graph.deps@[before[m as int].package as int]@[c].target == before[j].package
                                && before[j].dep_kind@ == kind_label(graph.deps@[before[m as int].package as int]@[c].kinds@);
                        lemma_parent_kept(before, out@, m as int, j);
                    }
                }
                assert forall|j: int| m < j < out@.len() implies #[trigger] out@[j].indentation > depth by {
                    if j < before.len() {
                        assert(out@.subrange(0, before.len() as int)[j] == before[j]);
                    }
                }
                assert(out@.subrange(0, m as int) =~= before.subrange(0, m as int));
                assert(out@[m as int] == before[m as int]) by {
                    assert(out@.subrange(0, before.len() as int)[m as int] == before[m as int]);
                }
            }
            i = i + 1;
        }
    }
    proof {
        if !duplicated && graph.deps@[pkg as int]@.len() > 0 {
            assert(edge_entries(graph, pkg as int).subrange(0, graph.deps@[pkg as int]@.len() as int) =~= edge_entries(graph, pkg as int));
            assert(children_exact(graph, out@, m as int));
            assert forall|k: int| 0 <= k < out@.len() && #[trigger] expands(graph, out@[k]) && !pending@.contains(k)
                implies children_exact(graph, out@, k) by {
                if k != m {
                    assert(!pending@.insert(m as int).contains(k));
                }
            }
        }
        if expands(graph, out@[m as int]) {
            assert(edges_covered(graph, out@, m as int));
            assert forall|k: int| 0 <= k < out@.len() && #[trigger] expands(graph, out@[k]) && !pending@.contains(k)
                implies edges_covered(graph, out@, k) by {
                if k != m {
                    assert(!pending@.insert(m as int).contains(k));
                }
            }
        }
        let head = out@.subrange(0, m + 1);
        let rest = out@.subrange(m + 1, out@.len() as int);
        assert(out@ =~= head + rest);
        assert(head.drop_last() =~= out0);
        assert(head.last() == out@[m as int]);
        assert forall|j: int| 0 <= j < rest.len() implies #[trigger] rest[j].indentation > 0 by {
            assert(rest[j] == out@[m + 1 + j]);
        }
        lemma_root_packages_deeper(head, rest);
    }
}

/// `a` is `b` with each `has_children` flag read from the shape of `b`.
pub open spec fn marked_from(a: Seq<DependencyNode>, b: Seq<DependencyNode>) -> bool {
    &&& a.len() == b.len()
    &&& forall|j: int|
        0 <= j < a.len() ==> {
            let x = #[trigger] a[j];
            let y = b[j];
            &&& x.has_children == has_child_at(b, j)
            &&& x.crate_name == y.crate_name
            &&& x.version == y.version
            &&& x.package == y.package
            &&& x.indentation == y.indentation
            &&& x.duplicated == y.duplicated
            &&& x.outdated == y.outdated
            &&& x.dep_kind == y.dep_kind
            &&& x.parent_package == y.parent_package
            &&& x.open == y.open
        }
}

/// Recomputes each node's `has_children` flag from the shape of the tree.
fn mark_children(nodes: &mut Vec<DependencyNode>)
    ensures
        marked_from(final(nodes)@, old(nodes)@),
{
    let ghost orig = nodes@;
    let n = nodes.len();
    let mut j: usize = 0;
    while j < n
        invariant
            n == nodes@.len(),
            n == orig.len(),
            j <= n,
            forall|k: int| j <= k < n ==> #[trigger] nodes@[k] == orig[k],
            forall|k: int|
                0 <= k < j ==> {
                    let a = #[trigger] nodes@[k];
                    let b = orig[k];
                    &&& a.has_children == has_child_at(orig, k)
                    &&& a.crate_name == b.crate_name
                    &&& a.version == b.version
                    &&& a.package == b.package
                    &&& a.indentation == b.indentation
                    &&& a.duplicated == b.duplicated
                    &&& a.outdated == b.outdated
                    &&& a.dep_kind == b.dep_kind
                    &&& a.parent_package == b.parent_package
                    &&& a.open == b.open
                },
        decreases n - j,
    {
        let has = j + 1 < n && nodes[j + 1].indentation > nodes[j].indentation
            && nodes[j + 1].indentation - 1 == nodes[j].indentation;
        nodes[j].has_children = has;
        j = j + 1;
    }
}

/// What the finished tree states, read from the state of the build.
proof fn lemma_marked(
    graph: &DepGraph,
    latest: Seq<Option<String>>,
    visited: Seq<bool>,
    built: Seq<DependencyNode>,
    out: Seq<DependencyNode>,
    roots: Seq<usize>,
)
    requires
        graph.wf(),
        build_inv(graph, latest, visited, built),
        last_settled(graph, built),
        root_packages(built) == roots.subrange(0, roots.len() as int),
        walks_done(graph, built, Set::<int>::empty()),
        walks_exact(graph, built, Set::<int>::empty()),
        built.len() <= roots.len() + dep_weight(graph, visited),
        forall|j: int|
            0 <= j < built.len() && #[trigger] built[j].indentation == 0
                ==> built[j].dep_kind@.len() == 0 && built[j].parent_package@.len() == 0,
        marked_from(out, built),
    ensures
        forest_shape(out),
        duplicates_marked(out),
        forall|j: int| 0 <= j < out.len() ==> node_of_package(graph, latest, #[trigger] out[j]),
        forall|j: int| 0 <= j < out.len() ==> (#[trigger] out[j].has_children <==> has_child_at(out, j)),
        forall|j: int| 0 <= j < out.len() ==> (#[trigger] out[j].has_children <==> expands(graph, out[j])),
        root_packages(out) == roots,
        edges_sound(graph, out),
        forall|k: int| 0 <= k < out.len() && #[trigger] expands(graph, out[k]) ==> edges_covered(graph, out, k),
        forall|k: int| 0 <= k < out.len() && #[trigger] expands(graph, out[k]) ==> children_exact(graph, out, k),
        out.len() <= roots.len() + dep_weight(graph, occurring(graph, out)),
        forall|j: int|
            0 <= j < out.len() && #[trigger] out[j].indentation == 0
                ==> out[j].dep_kind@.len() == 0 && out[j].parent_package@.len() == 0,
{
    reveal(build_inv);
    assert(roots.subrange(0, roots.len() as int) =~= roots);
    lemma_root_packages_same(out, built);
    assert forall|j: int| 0 <= j < out.len() && #[trigger] out[j].indentation > 0 implies exists|k: int|
        is_parent(out, k, j) && edge_node(graph, out[k], out[j]) by {
        assert(built[j].indentation > 0);
        let k = choose|k: int| is_parent(built, k, j) && edge_node(graph, built[k], built[j]);
        assert forall|l: int| k < l < j implies #[trigger] out[l].indentation >= out[j].indentation by {
            assert(built[l].indentation >= built[j].indentation);
        }
        assert(is_parent(out, k, j));
        let e = choose|e: int|
            0 <= e < graph.deps@[built[k].package as int]@.len()
                && #[trigger] graph.deps@[built[k].package as int]@[e].target == built[j].package
                && built[j].dep_kind@ == kind_label(graph.deps@[built[k].package as int]@[e].kinds@);
        assert(graph.deps@[out[k].package as int]@[e].target == out[j].package);
    }
    assert forall|j: int| 0 <= j < out.len() implies (#[trigger] out[j].has_children <==> expands(graph, out[j])) by {
        assert(out[j].has_children == has_child_at(built, j));
        if j < built.len() - 1 {
            assert(built[j + 1].indentation == built[j].indentation + 1 <==> expands(graph, built[j]));
        } else {
            assert(built[j] == built.last());
        }
    }
    assert forall|j: int| 0 <= j < out.len() implies node_of_package(graph, latest, #[trigger] out[j]) by {
        assert(node_of_package(graph, latest, built[j]));
    }
    assert forall|j: int| 0 <= j < out.len() - 1 implies #[trigger] out[j + 1].indentation <= out[j].indentation + 1 by {
        assert(built[j + 1].indentation <= built[j].indentation + 1);
    }
    assert forall|j: int| 0 <= j < out.len() - 1 && #[trigger] out[j].duplicated
        implies out[j + 1].indentation <= out[j].indentation by {
        assert(built[j].duplicated);
    }
    assert forall|j: int| 0 <= j < out.len() implies (#[trigger] out[j].duplicated <==> occurs_before(out, out[j].package as int, j)) by {
        assert(built[j].duplicated <==> occurs_before(built, built[j].package as int, j));
        let p = built[j].package as int;
        if occurs_before(built, p, j) {
            let k = choose|k: int| 0 <= k < j && #[trigger] built[k].package == p;
            assert(out[k].package == p);
        }
        if occurs_before(out, p, j) {
            let k = choose|k: int| 0 <= k < j && #[trigger] out[k].package == p;
            assert(built[k].package == p);
        }
    }
    assert forall|j: int| 0 <= j < out.len() && #[trigger] out[j].indentation == 0
        implies out[j].dep_kind@.len() == 0 && out[j].parent_package@.len() == 0 by {
        assert(built[j].indentation == 0);
    }
    
    assert forall|k: int| 0 <= k < out.len() && #[trigger] expands(graph, out[k]) implies edges_covered(graph, out, k) by {
        assert(expands(graph, built[k]));
        assert(edges_covered(graph, built, k));
        assert forall|c: int| 0 <= c < graph.deps@[out[k].package as int]@.len() implies #[trigger] child_for(graph, out, k, c) by {
            assert(child_for(graph, built, k, c));
            let j = choose|j: int|
                #[trigger] is_parent(built, k, j) && graph.deps@[built[k].package as int]@[c].target == built[j].package
                    && built[j].dep_kind@ == kind_label(graph.deps@[built[k].package as int]@[c].kinds@);
            assert forall|l: int| k < l < j implies #[trigger] out[l].indentation >= out[j].indentation by {
                assert(built[l].indentation >= built[j].indentation);
            }
            assert(is_parent(out, k, j));
        }
    }
    assert forall|k: int| 0 <= k < out.len() && #[trigger] expands(graph, out[k]) implies children_exact(graph, out, k) by {
        assert(expands(graph, built[k]));
        assert(children_exact(graph, built, k));
        lemma_child_entries_same(built, out, k, out.len() as int);
    }
    assert(occurring(graph, out) =~= visited) by {
        assert forall|p: int| 0 <= p < visited.len() implies occurring(graph, out)[p] == visited[p] by {
            if occurs_before(built, p, built.len() as int) {
                let k = choose|k: int| 0 <= k < built.len() && #[trigger] built[k].package == p;
                assert(out[k].package == p);
            }
            if occurs_before(out, p, out.len() as int) {
                let k = choose|k: int| 0 <= k < out.len() && #[trigger] out[k].package == p;
                assert(built[k].package == p);
            }
        }
    }
}

/// Builds the dependency tree below the given workspace members, in order.
/// A package met a second time in the walk is shown again, marked
/// duplicated, and its dependencies are not walked again: the walk ends on
/// every graph, cycles and shared dependencies included. Each node below a
/// root stands for an edge of its parent's package, and a node whose
/// dependencies are walked has exactly one child per edge, in edge order;
/// so the tree has at most one node per root plus one per edge of each
/// package in it.
pub fn build_dep_tree(graph: &DepGraph, latest: &Vec<Option<String>>, roots: &Vec<usize>) -> (r: Vec<DependencyNode>)
    requires
        graph.wf(),
        latest_ok(graph, latest@),
        forall|i: int| 0 <= i < roots@.len() ==> #[trigger] roots@[i] < graph.packages@.len(),
    ensures
        forest_shape(r@),
        duplicates_marked(r@),
        forall|j: int| 0 <= j < r@.len() ==> node_of_package(graph, latest@, #[trigger] r@[j]),
        forall|j: int| 0 <= j < r@.len() ==> (#[trigger] r@[j].has_children <==> has_child_at(r@, j)),
        forall|j: int| 0 <= j < r@.len() ==> (#[trigger] r@[j].has_children <==> expands(graph, r@[j])),
        root_packages(r@) == roots@,
        edges_sound(graph, r@),
        forall|k: int| 0 <= k < r@.len() && #[trigger] expands(graph, r@[k]) ==> edges_covered(graph, r@, k),
        forall|k: int| 0 <= k < r@.len() && #[trigger] expands(graph, r@[k]) ==> children_exact(graph, r@, k),
        r@.len() <= roots@.len() + dep_weight(graph, occurring(graph, r@)),
        forall|j: int|
            0 <= j < r@.len() && #[trigger] r@[j].indentation == 0
                ==> r@[j].dep_kind@.len() == 0 && r@[j].parent_package@.len() == 0,
        r@.len() >= roots@.len(),
{
    let n = graph.packages.len();
    let mut visited: Vec<bool> = Vec::new();
    let mut k: usize = 0;
    while k < n
        invariant
            k <= n,
            n == graph.packages@.len(),
            visited@.len() == k,
            forall|p: int| 0 <= p < k ==> !#[trigger] visited@[p],
        decreases n - k,
    {
        visited.push(false);
        k = k + 1;
    }
    proof {
        lemma_count_true_none(visited@);
        lemma_dep_weight_none(graph, visited@);
    }
    let mut out: Vec<DependencyNode> = Vec::new();
    proof {
        reveal(build_inv);
    }
    let no_kinds: Vec<DepKind> = Vec::new();
    let no_parent = String::new();
    let mut i: usize = 0;
    while i < roots.len()
        invariant
            graph.wf(),
            latest_ok(graph, latest@),
            forall|q: int| 0 <= q < roots@.len() ==> #[trigger] roots@[q] < graph.packages@.len(),
            i <= roots@.len(),
            build_inv(graph, latest@, visited@, out@),
            visited@.len() == graph.packages@.len(),
            walks_done(graph, out@, Set::<int>::empty()),
            walks_exact(graph, out@, Set::<int>::empty()),
            out@.len() >= i,
            out@.len() <= i + dep_weight(graph, visited@),
            no_kinds@.len() == 0,
            no_parent@.len() == 0,
            last_settled(graph, out@),
            root_packages(out@) == roots@.subrange(0, i as int),
            forall|j: int|
                0 <= j < out@.len() && #[trigger] out@[j].indentation == 0
                    ==> out@[j].dep_kind@.len() == 0 && out@[j].parent_package@.len() == 0,
        decreases roots@.len() - i,
    {
        let ghost before = out@;
        proof {
            assert(kind_label(no_kinds@) == Seq::<char>::empty());
        }
        proof {
            assert forall|k: int| #[trigger] Set::<int>::empty().contains(k) implies 0 <= k < out@.len() by {}
        }
        visit(graph, latest, roots[i], &no_kinds, &no_parent, 0, &mut visited, &mut out, Ghost(Set::<int>::empty()));
        proof {
            assert(roots@.subrange(0, i + 1) =~= roots@.subrange(0, i as int).push(roots@[i as int]));
            assert forall|j: int| 0 <= j < out@.len() && #[trigger] out@[j].indentation == 0
                implies out@[j].dep_kind@.len() == 0 && out@[j].parent_package@.len() == 0 by {
                if j < before.len() {
                    assert(out@.subrange(0, before.len() as int)[j] == before[j]);
                }
            }
        }
        i = i + 1;
    }
    let ghost built = out@;
    mark_children(&mut out);
    proof {
        lemma_marked(graph, latest@, visited@, built, out@, roots@);
    }
    out
}

} // verus!
