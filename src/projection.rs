//! The flattened view of the dependency tree: one row per node whose
//! ancestors are all open, in pre-order.

use vstd::prelude::*;
use crate::depgraph::{DependencyNode, forest_shape, has_child_at};

verus! {

/// The rows shown from node `i` on, given that nodes deeper than `below`
/// (when it is `Some`) lie under a closed node and are not shown.
pub open spec fn rows_from(nodes: Seq<DependencyNode>, i: int, below: Option<nat>) -> Seq<int>
    decreases nodes.len() - i,
{
    if i < 0 || i >= nodes.len() {
        Seq::empty()
    } else if below is Some && nodes[i].indentation > below->0 {
        rows_from(nodes, i + 1, below)
    } else {
        seq![i].add(rows_from(nodes, i + 1, if nodes[i].open { None } else { Some(nodes[i].indentation as nat) }))
    }
}

/// The visible rows of a tree: indices of its nodes in pre-order, skipping
/// the subtree of every closed node.
pub open spec fn visible_rows(nodes: Seq<DependencyNode>) -> Seq<int> {
    rows_from(nodes, 0, None)
}

/// The node with its `open` flag set to `open`.
pub open spec fn with_open(n: DependencyNode, open: bool) -> DependencyNode {
    DependencyNode {
        crate_name: n.crate_name,
        version: n.version,
        package: n.package,
        indentation: n.indentation,
        duplicated: n.duplicated,
        outdated: n.outdated,
        dep_kind: n.dep_kind,
        parent_package: n.parent_package,
        open: open,
        has_children: n.has_children,
    }
}

/// The tree after the node shown at `row` was opened or closed.
pub open spec fn after_set_open(nodes: Seq<DependencyNode>, row: int, open: bool) -> Seq<DependencyNode> {
    let x = visible_rows(nodes)[row];
    nodes.update(x, with_open(nodes[x], open))
}

/// The change a view must apply after a relayout: all `removed` rows from
/// the top were dropped, then `added` rows from the top were inserted.
#[derive(Clone, Copy, Debug, PartialEq, Eq, Structural)]
pub struct LayoutChange {
    pub removed: usize,
    pub added: usize,
}

/// The dependency tree with the cache of its visible rows.
pub struct DepGraphModel {
    tree: Vec<DependencyNode>,
    cache: Vec<usize>,
}

proof fn lemma_rows_range(nodes: Seq<DependencyNode>, i: int, below: Option<nat>)
    requires
        0 <= i,
    ensures
        forall|q: int|
            0 <= q < rows_from(nodes, i, below).len() ==> i <= #[trigger] rows_from(nodes, i, below)[q] < nodes.len(),
        forall|q: int|
            0 < q < rows_from(nodes, i, below).len() ==> rows_from(nodes, i, below)[q - 1] < #[trigger] rows_from(nodes, i, below)[q],
    decreases nodes.len() - i,
{
    let all = rows_from(nodes, i, below);
    if i < nodes.len() {
        if below is Some && nodes[i].indentation > below->0 {
            lemma_rows_range(nodes, i + 1, below);
            assert(all == rows_from(nodes, i + 1, below));
        } else {
            let h = if nodes[i].open { None } else { Some(nodes[i].indentation as nat) };
            lemma_rows_range(nodes, i + 1, h);
            let rest = rows_from(nodes, i + 1, h);
            assert(all == seq![i] + rest);
            assert forall|q: int| 0 <= q < all.len() implies i <= #[trigger] all[q] < nodes.len() by {
                if q > 0 {
                    assert(all[q] == rest[q - 1]);
                }
            }
            assert forall|q: int| 0 < q < all.len() implies all[q - 1] < #[trigger] all[q] by {
                assert(all[q] == rest[q - 1]);
                if q > 1 {
                    assert(all[q - 1] == rest[q - 2]);
                }
            }
        }
    } else {
        assert(all.len() == 0);
    }
}

/// Rows shown up to node `x` do not depend on whether `x` is open.
proof fn lemma_prefix_stable(
    nodes: Seq<DependencyNode>,
    other: Seq<DependencyNode>,
    x: int,
    i: int,
    below: Option<nat>,
)
    requires
        0 <= i,
        0 <= x < nodes.len(),
        other.len() == nodes.len(),
        forall|k: int| 0 <= k < nodes.len() && k != x ==> #[trigger] other[k] == nodes[k],
        other[x].indentation == nodes[x].indentation,
    ensures
        forall|q: int|
            0 <= q < rows_from(nodes, i, below).len() && #[trigger] rows_from(nodes, i, below)[q] <= x
                ==> q < rows_from(other, i, below).len() && rows_from(other, i, below)[q] == rows_from(nodes, i, below)[q],
    decreases nodes.len() - i,
{
    lemma_rows_range(nodes, i, below);
    let r1 = rows_from(nodes, i, below);
    let r2 = rows_from(other, i, below);
    if i < nodes.len() {
        if below is Some && nodes[i].indentation > below->0 {
            lemma_prefix_stable(nodes, other, x, i + 1, below);
            assert(r1 == rows_from(nodes, i + 1, below));
            assert(r2 == rows_from(other, i + 1, below));
        } else {
            let h1 = if nodes[i].open { None } else { Some(nodes[i].indentation as nat) };
            let h2 = if other[i].open { None } else { Some(other[i].indentation as nat) };
            assert(r1 == seq![i] + rows_from(nodes, i + 1, h1));
            assert(r2 == seq![i] + rows_from(other, i + 1, h2));
            if i == x {
                lemma_rows_range(nodes, i + 1, h1);
                assert forall|q: int| 0 <= q < r1.len() && #[trigger] r1[q] <= x implies q < r2.len() && r2[q] == r1[q] by {
                    if q > 0 {
                        assert(r1[q] == rows_from(nodes, i + 1, h1)[q - 1]);
                    }
                }
            } else {
                assert(other[i] == nodes[i]);
                lemma_prefix_stable(nodes, other, x, i + 1, h1);
                assert forall|q: int| 0 <= q < r1.len() && #[trigger] r1[q] <= x implies q < r2.len() && r2[q] == r1[q] by {
                    if q > 0 {
                        assert(r1[q] == rows_from(nodes, i + 1, h1)[q - 1]);
                        assert(rows_from(nodes, i + 1, h1)[q - 1] <= x);
                    }
                }
            }
        }
    }
}

proof fn lemma_rows_first(nodes: Seq<DependencyNode>, i: int, below: Option<nat>)
    requires
        0 <= i,
    ensures
        rows_from(nodes, i, below).len() > 0 && below is None ==> rows_from(nodes, i, below)[0] == i,
        rows_from(nodes, i, below).len() > 0 && below is Some
            ==> nodes[rows_from(nodes, i, below)[0]].indentation <= below->0,
    decreases nodes.len() - i,
{
    if i < nodes.len() {
        if below is Some && nodes[i].indentation > below->0 {
            lemma_rows_first(nodes, i + 1, below);
        }
    }
}

/// The depth steps between consecutive rows: one deeper into a child, or
/// back to the same or a smaller depth.
proof fn lemma_rows_steps(nodes: Seq<DependencyNode>, i: int, below: Option<nat>)
    requires
        0 <= i,
        forest_shape(nodes),
    ensures
        forall|q: int|
            0 < q < rows_from(nodes, i, below).len() ==> nodes[#[trigger] rows_from(nodes, i, below)[q]].indentation
                <= nodes[rows_from(nodes, i, below)[q - 1]].indentation + 1,
        forall|q: int|
            0 < q < rows_from(nodes, i, below).len() ==> (nodes[#[trigger] rows_from(nodes, i, below)[q]].indentation
                == nodes[rows_from(nodes, i, below)[q - 1]].indentation + 1 <==> rows_from(nodes, i, below)[q]
                == rows_from(nodes, i, below)[q - 1] + 1 && has_child_at(nodes, rows_from(nodes, i, below)[q - 1])),
    decreases nodes.len() - i,
{
    lemma_rows_range(nodes, i, below);
    if i < nodes.len() {
        if below is Some && nodes[i].indentation > below->0 {
            lemma_rows_steps(nodes, i + 1, below);
            assert(rows_from(nodes, i, below) == rows_from(nodes, i + 1, below));
        } else {
            let h = if nodes[i].open { None } else { Some(nodes[i].indentation as nat) };
            lemma_rows_steps(nodes, i + 1, h);
            lemma_rows_first(nodes, i + 1, h);
            let rest = rows_from(nodes, i + 1, h);
            let all = rows_from(nodes, i, below);
            assert(all == seq![i] + rest);
            assert forall|q: int| 0 < q < all.len()
                implies (nodes[#[trigger] all[q]].indentation == nodes[all[q - 1]].indentation + 1 <==> all[q]
                == all[q - 1] + 1 && has_child_at(nodes, all[q - 1])) by {
                assert(all[q] == rest[q - 1]);
                if q == 1 {
                    assert(all[0] == i);
                } else {
                    assert(all[q - 1] == rest[q - 2]);
                }
            }
            assert forall|q: int| 0 < q < all.len()
                implies nodes[#[trigger] all[q]].indentation <= nodes[all[q - 1]].indentation + 1 by {
                assert(all[q] == rest[q - 1]);
                if q == 1 {
                    assert(all[0] == i);
                    if nodes[i].open {
                        assert(nodes[i + 1].indentation <= nodes[i].indentation + 1);
                    }
                } else {
                    assert(all[q] == rest[q - 1]);
                    assert(nodes[rest[q - 1]].indentation <= nodes[rest[q - 2]].indentation + 1);
                }
            }
        }
    }
}

/// Whether an exec cache holds exactly the given rows.
pub open spec fn cache_holds(cache: Seq<usize>, rows: Seq<int>) -> bool {
    &&& cache.len() == rows.len()
    &&& forall|q: int| 0 <= q < rows.len() ==> #[trigger] cache[q] as int == rows[q]
}

spec fn hide_view(h: Option<usize>) -> Option<nat> {
    match h {
        Some(d) => Some(d as nat),
        None => None,
    }
}

/// Computes the visible rows of a tree by a pre-order walk that skips the
/// subtree of every closed node.
fn flatten(tree: &Vec<DependencyNode>) -> (r: Vec<usize>)
    ensures
        cache_holds(r@, visible_rows(tree@)),
{
    let mut cache: Vec<usize> = Vec::new();
    let mut below: Option<usize> = None;
    let mut i: usize = 0;
    let n = tree.len();
    while i < n
        invariant
            n == tree@.len(),
            i <= n,
            cache@.len() + rows_from(tree@, i as int, hide_view(below)).len() == visible_rows(tree@).len(),
            forall|q: int| 0 <= q < cache@.len() ==> #[trigger] cache@[q] as int == visible_rows(tree@)[q],
            forall|q: int|
                0 <= q < rows_from(tree@, i as int, hide_view(below)).len()
                    ==> #[trigger] rows_from(tree@, i as int, hide_view(below))[q] == visible_rows(tree@)[cache@.len() + q],
        decreases n - i,
    {
        let ghost rest = rows_from(tree@, i as int, hide_view(below));
        let hidden = match below {
            Some(d) => tree[i].indentation > d,
            None => false,
        };
        if hidden {
            assert(rest == rows_from(tree@, i + 1, hide_view(below)));
        } else {
            let ghost h = if tree@[i as int].open { None } else { Some(tree@[i as int].indentation as nat) };
            assert(rest == seq![i as int] + rows_from(tree@, i + 1, h));
            let ghost c0 = cache@;
            cache.push(i);
            if tree[i].open {
                below = None;
            } else {
                below = Some(tree[i].indentation);
            }
            assert(hide_view(below) == h);
            proof {
                assert(rest[0] == i);
                assert forall|q: int| 0 <= q < cache@.len() implies #[trigger] cache@[q] as int == visible_rows(tree@)[q] by {
                    if q < c0.len() {
                        assert(cache@[q] == c0[q]);
                    }
                }
                assert forall|q: int| 0 <= q < rows_from(tree@, i + 1, h).len()
                    implies #[trigger] rows_from(tree@, i + 1, h)[q] == visible_rows(tree@)[cache@.len() + q] by {
                    assert(rest[q + 1] == rows_from(tree@, i + 1, h)[q]);
                }
            }
        }
        i = i + 1;
    }
    assert(rows_from(tree@, i as int, hide_view(below)).len() == 0);
    cache
}

/// A copy of a node.
pub fn copy_node(n: &DependencyNode) -> (r: DependencyNode)
    ensures
        r == *n,
{
    DependencyNode {
        crate_name: n.crate_name.clone(),
        version: n.version.clone(),
        package: n.package,
        indentation: n.indentation,
        duplicated: n.duplicated,
        outdated: n.outdated,
        dep_kind: n.dep_kind.clone(),
        parent_package: n.parent_package.clone(),
        open: n.open,
        has_children: n.has_children,
    }
}

impl View for DepGraphModel {
    type V = Seq<DependencyNode>;

    closed spec fn view(&self) -> Seq<DependencyNode> {
        self.tree@
    }
}

impl DepGraphModel {
    /// The tree has the shape the builder makes and the cache holds its
    /// visible rows.
    pub closed spec fn wf(&self) -> bool {
        &&& forest_shape(self.tree@)
        &&& cache_holds(self.cache@, visible_rows(self.tree@))
    }

    /// Takes a tree and lays out its rows.
    pub fn from(tree: Vec<DependencyNode>) -> (r: Self)
        requires
            forest_shape(tree@),
        ensures
            r.wf(),
            r@ == tree@,
    {
        let cache = flatten(&tree);
        DepGraphModel { tree, cache }
    }

    /// Number of visible rows.
    pub fn row_count(&self) -> (r: usize)
        requires
            self.wf(),
        ensures
            r == visible_rows(self@).len(),
    {
        self.cache.len()
    }

    /// The node shown at `row`.
    pub fn row_data(&self, row: usize) -> (r: DependencyNode)
        requires
            self.wf(),
            row < visible_rows(self@).len(),
        ensures
            r == self@[visible_rows(self@)[row as int]],
    {
        proof {
            lemma_rows_range(self.tree@, 0, None);
        }
        let x = self.cache[row];
        copy_node(&self.tree[x])
    }

    /// Opens or closes the node shown at `row`, then lays the rows out
    /// again. The change reported drops all old rows and inserts all new ones.
    pub fn set_open(&mut self, row: usize, open: bool) -> (r: LayoutChange)
        requires
            old(self).wf(),
            row < visible_rows(old(self)@).len(),
        ensures
            final(self).wf(),
            final(self)@ == after_set_open(old(self)@, row as int, open),
            r.removed == visible_rows(old(self)@).len(),
            r.added == visible_rows(final(self)@).len(),
    {
        proof {
            lemma_rows_range(self.tree@, 0, None);
        }
        let ghost before = self.tree@;
        let x = self.cache[row];
        self.tree[x].open = open;
        assert(self.tree@ =~= before.update(x as int, with_open(before[x as int], open)));
        let removed = self.cache.len();
        self.cache = flatten(&self.tree);
        LayoutChange { removed, added: self.cache.len() }
    }

    /// Takes the row's new data from a view; only its `open` flag is used,
    /// the rest of a node is fixed when the tree is built.
    pub fn set_row_data(&mut self, row: usize, data: DependencyNode) -> (r: LayoutChange)
        requires
            old(self).wf(),
            row < visible_rows(old(self)@).len(),
        ensures
            final(self).wf(),
            final(self)@ == after_set_open(old(self)@, row as int, data.open),
            r.removed == visible_rows(old(self)@).len(),
            r.added == visible_rows(final(self)@).len(),
    {
        self.set_open(row, data.open)
    }
}

/// Setting a row's open state twice to the same value changes nothing the
/// second time: the row still shows the same node, and the tree is the same.
pub proof fn lemma_set_open_idempotent(nodes: Seq<DependencyNode>, row: int, open: bool)
    requires
        0 <= row < visible_rows(nodes).len(),
    ensures
        row < visible_rows(after_set_open(nodes, row, open)).len(),
        visible_rows(after_set_open(nodes, row, open))[row] == visible_rows(nodes)[row],
        after_set_open(after_set_open(nodes, row, open), row, open) == after_set_open(nodes, row, open),
{
    let x = visible_rows(nodes)[row];
    lemma_rows_range(nodes, 0, None);
    let once = after_set_open(nodes, row, open);
    lemma_prefix_stable(nodes, once, x, 0, None);
    assert(once.update(x, with_open(once[x], open)) =~= once);
}

/// Closing an open row and opening it again gives back the same tree, and
/// so the same number of rows.
pub proof fn lemma_close_then_reopen(nodes: Seq<DependencyNode>, row: int)
    requires
        0 <= row < visible_rows(nodes).len(),
        nodes[visible_rows(nodes)[row]].open,
    ensures
        after_set_open(after_set_open(nodes, row, false), row, true) == nodes,
        visible_rows(after_set_open(after_set_open(nodes, row, false), row, true)).len()
            == visible_rows(nodes).len(),
{
    let x = visible_rows(nodes)[row];
    lemma_rows_range(nodes, 0, None);
    let closed = after_set_open(nodes, row, false);
    lemma_prefix_stable(nodes, closed, x, 0, None);
    assert(closed.update(x, with_open(closed[x], true)) =~= nodes);
}

/// Rows from `i` on depend only on the nodes from `i` on.
proof fn lemma_rows_suffix(nodes: Seq<DependencyNode>, other: Seq<DependencyNode>, i: int, below: Option<nat>)
    requires
        0 <= i,
        other.len() == nodes.len(),
        forall|k: int| i <= k < nodes.len() ==> #[trigger] other[k] == nodes[k],
    ensures
        rows_from(other, i, below) == rows_from(nodes, i, below),
    decreases nodes.len() - i,
{
    if i < nodes.len() {
        assert(other[i] == nodes[i]);
        let h = if nodes[i].open { None } else { Some(nodes[i].indentation as nat) };
        lemma_rows_suffix(nodes, other, i + 1, below);
        lemma_rows_suffix(nodes, other, i + 1, h);
    }
}

/// Rows up to `x` are the same in two trees that differ only at `x`, when
/// the rows from `x` on are the same too.
proof fn lemma_rows_prefix_equal(nodes: Seq<DependencyNode>, other: Seq<DependencyNode>, x: int, i: int, below: Option<nat>)
    requires
        0 <= i <= x < nodes.len(),
        other.len() == nodes.len(),
        forall|k: int| 0 <= k < nodes.len() && k != x ==> #[trigger] other[k] == nodes[k],
        forall|h: Option<nat>| #[trigger] rows_from(other, x, h) == rows_from(nodes, x, h),
    ensures
        rows_from(other, i, below) == rows_from(nodes, i, below),
    decreases x - i,
{
    if i < x {
        assert(other[i] == nodes[i]);
        let h = if nodes[i].open { None } else { Some(nodes[i].indentation as nat) };
        lemma_rows_prefix_equal(nodes, other, x, i + 1, below);
        lemma_rows_prefix_equal(nodes, other, x, i + 1, h);
    }
}

/// Opening or closing a node that has no child changes no row.
pub proof fn lemma_leaf_toggle_keeps_rows(nodes: Seq<DependencyNode>, row: int, open: bool)
    requires
        forest_shape(nodes),
        0 <= row < visible_rows(nodes).len(),
        !crate::depgraph::has_child_at(nodes, visible_rows(nodes)[row]),
    ensures
        visible_rows(after_set_open(nodes, row, open)) == visible_rows(nodes),
{
    lemma_rows_range(nodes, 0, None);
    let x = visible_rows(nodes)[row];
    let other = after_set_open(nodes, row, open);
    assert forall|h: Option<nat>| #[trigger] rows_from(other, x, h) == rows_from(nodes, x, h) by {
        lemma_rows_suffix(nodes, other, x + 1, None);
        lemma_rows_suffix(nodes, other, x + 1, Some(nodes[x].indentation as nat));
        lemma_rows_suffix(nodes, other, x + 1, h);
        if x + 1 < nodes.len() {
            assert(nodes[x + 1].indentation <= nodes[x].indentation + 1);
            assert(nodes[x + 1].indentation <= nodes[x].indentation);
            let a = rows_from(nodes, x + 1, None);
            let b = rows_from(nodes, x + 1, Some(nodes[x].indentation as nat));
            let h2 = if nodes[x + 1].open { None } else { Some(nodes[x + 1].indentation as nat) };
            assert(a == seq![x + 1] + rows_from(nodes, x + 2, h2));
            assert(b == seq![x + 1] + rows_from(nodes, x + 2, h2));
        }
    }
    lemma_rows_prefix_equal(nodes, other, x, 0, None);
}

/// Nodes before the first row from `i` on are all hidden below `below`.
proof fn lemma_rows_skipped(nodes: Seq<DependencyNode>, i: int, below: Option<nat>, z: int)
    requires
        0 <= i <= z < nodes.len(),
        rows_from(nodes, i, below).len() == 0 || z < rows_from(nodes, i, below)[0],
    ensures
        below is Some && nodes[z].indentation > below->0,
    decreases nodes.len() - i,
{
    if !(below is Some && nodes[i].indentation > below->0) {
        assert(rows_from(nodes, i, below)[0] == i);
    } else if i < z {
        assert(rows_from(nodes, i, below) == rows_from(nodes, i + 1, below));
        lemma_rows_skipped(nodes, i + 1, below, z);
    }
}

/// Nodes between two consecutive rows lie deeper than the first of them.
proof fn lemma_rows_gaps(nodes: Seq<DependencyNode>, i: int, below: Option<nat>)
    requires
        0 <= i,
    ensures
        forall|q: int, z: int|
            #![trigger rows_from(nodes, i, below)[q], nodes[z]]
            0 < q < rows_from(nodes, i, below).len() && rows_from(nodes, i, below)[q - 1] < z < rows_from(nodes, i, below)[q]
                ==> nodes[z].indentation > nodes[rows_from(nodes, i, below)[q - 1]].indentation,
    decreases nodes.len() - i,
{
    lemma_rows_range(nodes, i, below);
    if i < nodes.len() {
        if below is Some && nodes[i].indentation > below->0 {
            lemma_rows_gaps(nodes, i + 1, below);
            assert(rows_from(nodes, i, below) == rows_from(nodes, i + 1, below));
        } else {
            let h = if nodes[i].open { None } else { Some(nodes[i].indentation as nat) };
            lemma_rows_gaps(nodes, i + 1, h);
            lemma_rows_range(nodes, i + 1, h);
            let rest = rows_from(nodes, i + 1, h);
            let all = rows_from(nodes, i, below);
            assert(all == seq![i] + rest);
            assert forall|q: int, z: int| #![trigger all[q], nodes[z]] 0 < q < all.len() && all[q - 1] < z < all[q]
                implies nodes[z].indentation > nodes[all[q - 1]].indentation by {
                assert(all[q] == rest[q - 1]);
                if q == 1 {
                    assert(all[0] == i);
                    lemma_rows_skipped(nodes, i + 1, h, z);
                } else {
                    assert(all[q - 1] == rest[q - 2]);
                    assert(rest[q - 2] < z < rest[q - 1]);
                }
            }
        }
    }
}

/// Node `y` lies in the subtree of node `x`.
pub open spec fn descends(nodes: Seq<DependencyNode>, x: int, y: int) -> bool {
    x < y && forall|z: int| x < z <= y ==> #[trigger] nodes[z].indentation > nodes[x].indentation
}

/// Between rows `j` and `k`, each node lies between two consecutive rows of
/// that range or is one of them.
proof fn lemma_row_bracket(rows: Seq<int>, j: int, k: int, z: int) -> (q: int)
    requires
        0 <= j < k < rows.len(),
        forall|a: int| 0 < a < rows.len() ==> rows[a - 1] < #[trigger] rows[a],
        rows[j] <= z < rows[k],
    ensures
        j <= q < k,
        rows[q] <= z < rows[q + 1],
    decreases k - j,
{
    if z < rows[j + 1] {
        j
    } else {
        lemma_row_bracket(rows, j + 1, k, z)
    }
}

proof fn lemma_leave(nodes: Seq<DependencyNode>, rows: Seq<int>, j: int, k: int)
    requires
        0 <= j < k < rows.len(),
        forall|a: int| 0 < a < rows.len() ==> rows[a - 1] < #[trigger] rows[a],
        forall|q: int, z: int|
            #![trigger rows[q], nodes[z]]
            0 < q < rows.len() && rows[q - 1] < z < rows[q] ==> nodes[z].indentation > nodes[rows[q - 1]].indentation,
        forall|q: int| j < q < k ==> descends(nodes, rows[j], #[trigger] rows[q]),
        !descends(nodes, rows[j], rows[k]),
    ensures
        nodes[rows[k]].indentation <= nodes[rows[j]].indentation,
{
    let x = rows[j];
    let y = rows[k];
    assert forall|z: int| x < z < y implies #[trigger] nodes[z].indentation > nodes[x].indentation by {
        let q = lemma_row_bracket(rows, j, k, z);
        if q > j {
            assert(descends(nodes, x, rows[q]));
            assert(nodes[rows[q]].indentation > nodes[x].indentation);
        }
        if rows[q] < z {
            assert(rows[q + 1] > z);
            assert(nodes[z].indentation > nodes[rows[q]].indentation);
        }
    }
    if nodes[y].indentation > nodes[x].indentation {
        assert forall|z: int| x < z <= y implies #[trigger] nodes[z].indentation > nodes[x].indentation by {}
        assert(descends(nodes, x, y));
    }
}

/// Leaving a subtree: when row `k` is the first row after row `j` that does
/// not lie in row `j`'s subtree, it is no deeper than row `j`.
pub proof fn lemma_rows_leave_subtree(nodes: Seq<DependencyNode>, j: int, k: int)
    requires
        0 <= j < k < visible_rows(nodes).len(),
        forall|q: int| j < q < k ==> descends(nodes, visible_rows(nodes)[j], #[trigger] visible_rows(nodes)[q]),
        !descends(nodes, visible_rows(nodes)[j], visible_rows(nodes)[k]),
    ensures
        nodes[visible_rows(nodes)[k]].indentation <= nodes[visible_rows(nodes)[j]].indentation,
{
    lemma_rows_range(nodes, 0, None);
    lemma_rows_gaps(nodes, 0, None);
    lemma_leave(nodes, visible_rows(nodes), j, k);
}

/// Every visible row names a node of the tree, the first row is a root, and
/// from one row to the next the depth grows by at most one: it grows by one
/// exactly when the next row is the first child of the row before, and
/// otherwise goes back to a depth no greater.
pub proof fn lemma_rows_resolve(nodes: Seq<DependencyNode>)
    requires
        forest_shape(nodes),
    ensures
        forall|q: int| 0 <= q < visible_rows(nodes).len() ==> 0 <= #[trigger] visible_rows(nodes)[q] < nodes.len(),
        visible_rows(nodes).len() > 0 ==> nodes[visible_rows(nodes)[0]].indentation == 0,
        forall|q: int|
            0 < q < visible_rows(nodes).len() ==> nodes[#[trigger] visible_rows(nodes)[q]].indentation
                <= nodes[visible_rows(nodes)[q - 1]].indentation + 1,
        forall|q: int|
            0 < q < visible_rows(nodes).len() ==> (nodes[#[trigger] visible_rows(nodes)[q]].indentation
                == nodes[visible_rows(nodes)[q - 1]].indentation + 1 <==> visible_rows(nodes)[q]
                == visible_rows(nodes)[q - 1] + 1 && has_child_at(nodes, visible_rows(nodes)[q - 1])),
{
    lemma_rows_range(nodes, 0, None);
    lemma_rows_first(nodes, 0, None);
    lemma_rows_steps(nodes, 0, None);
}

} // verus!
