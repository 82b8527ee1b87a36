use cargo_ui::depgraph::{build_dep_tree, dep_kind_from_str, dep_kind_label, DepEdge, DepGraph, DepKind, DependencyNode, PackageInfo};
use cargo_ui::projection::DepGraphModel;

fn package(id: &str, name: &str, version: &str) -> PackageInfo {
    PackageInfo { id: id.to_string(), name: name.to_string(), version: version.to_string() }
}

fn edge(target: usize, kinds: Vec<DepKind>) -> DepEdge {
    DepEdge { target, kinds }
}

/// app -> a, b; a -> c; b -> c (diamond); c -> a (cycle).
fn diamond_with_cycle() -> DepGraph {
    DepGraph {
        packages: vec![
            package("app 0.1.0", "app", "0.1.0"),
            package("a 1.0.0", "a", "1.0.0"),
            package("b 2.0.0", "b", "2.0.0"),
            package("c 0.3.0", "c", "0.3.0"),
        ],
        deps: vec![
            vec![edge(1, vec![DepKind::Normal]), edge(2, vec![DepKind::Development])],
            vec![edge(3, vec![DepKind::Normal])],
            vec![edge(3, vec![DepKind::Normal, DepKind::Build])],
            vec![edge(1, vec![DepKind::Normal])],
        ],
    }
}

fn shape(nodes: &[DependencyNode]) -> Vec<(String, usize, bool)> {
    nodes.iter().map(|n| (n.crate_name.clone(), n.indentation, n.duplicated)).collect()
}

#[test]
fn tree_marks_repeated_packages_and_stops_there() {
    let g = diamond_with_cycle();
    let latest = vec![None, Some("1.5.0".to_string()), Some("2.0.0".to_string()), None];
    let nodes = build_dep_tree(&g, &latest, &vec![0]);
    assert_eq!(
        shape(&nodes),
        vec![
            ("app".to_string(), 0, false),
            ("a".to_string(), 1, false),
            ("c".to_string(), 2, false),
            ("a".to_string(), 3, true),
            ("b".to_string(), 1, false),
            ("c".to_string(), 2, true),
        ]
    );
    // one root, plus one node per edge of app (2), a, b and c (1 each)
    assert!(nodes.len() <= 1 + 2 + 1 + 1 + 1);
    for (i, n) in nodes.iter().enumerate() {
        if n.duplicated && i + 1 < nodes.len() {
            assert!(nodes[i + 1].indentation <= n.indentation);
        }
    }
    assert!(nodes[0].has_children);
    assert!(!nodes[3].has_children);
    assert!(!nodes[5].has_children);
    assert!(nodes[1].outdated);
    assert!(!nodes[4].outdated);
    assert!(nodes.iter().all(|n| n.open));
    assert_eq!(nodes[4].dep_kind, "dev");
    assert_eq!(nodes[5].dep_kind, "normal build");
    assert_eq!(nodes[1].dep_kind, "");
    assert_eq!(nodes[1].parent_package, "app 0.1.0");
    assert_eq!(nodes[0].parent_package, "");
}

#[test]
fn tree_of_two_members_shares_nothing_twice() {
    let g = diamond_with_cycle();
    let latest = vec![None, None, None, None];
    let nodes = build_dep_tree(&g, &latest, &vec![1, 2]);
    assert_eq!(
        shape(&nodes),
        vec![
            ("a".to_string(), 0, false),
            ("c".to_string(), 1, false),
            ("a".to_string(), 2, true),
            ("b".to_string(), 0, false),
            ("c".to_string(), 1, true),
        ]
    );
}

#[test]
fn kind_labels() {
    assert_eq!(dep_kind_label(&vec![]), "");
    assert_eq!(dep_kind_label(&vec![DepKind::Normal, DepKind::Normal]), "");
    assert_eq!(dep_kind_label(&vec![DepKind::Build]), "build");
    assert_eq!(dep_kind_label(&vec![DepKind::Development, DepKind::Normal]), "dev normal");
    assert_eq!(dep_kind_from_str("dev"), DepKind::Development);
    assert_eq!(dep_kind_from_str("build"), DepKind::Build);
    assert_eq!(dep_kind_from_str("other"), DepKind::Normal);
}

fn model() -> DepGraphModel {
    let g = diamond_with_cycle();
    let nodes = build_dep_tree(&g, &vec![None, None, None, None], &vec![0]);
    DepGraphModel::from(nodes)
}

fn names(m: &DepGraphModel) -> Vec<String> {
    (0..m.row_count()).map(|i| m.row_data(i).crate_name).collect()
}

#[test]
fn projection_starts_fully_open() {
    let m = model();
    assert_eq!(names(&m), vec!["app", "a", "c", "a", "b", "c"]);
    assert_eq!(m.row_count(), 6);
}

#[test]
fn projection_hides_children_of_closed_nodes() {
    let mut m = model();
    m.set_open(1, false);
    assert_eq!(names(&m), vec!["app", "a", "b", "c"]);
}

#[test]
fn projection_close_twice_is_close_once() {
    let mut m = model();
    let change = m.set_open(1, false);
    assert_eq!(change.removed, 6);
    assert_eq!(change.added, 4);
    let change = m.set_open(1, false);
    assert_eq!(change.removed, 4);
    assert_eq!(change.added, 4);
    assert_eq!(names(&m), vec!["app", "a", "b", "c"]);
}

#[test]
fn projection_close_then_reopen_restores_rows() {
    let mut m = model();
    let before = m.row_count();
    m.set_open(0, false);
    assert_eq!(m.row_count(), 1);
    m.set_open(0, true);
    assert_eq!(m.row_count(), before);
    assert_eq!(names(&m), vec!["app", "a", "c", "a", "b", "c"]);
}

#[test]
fn projection_toggle_of_leaf_changes_no_rows() {
    let mut m = model();
    let before = names(&m);
    let leaf = m.row_data(3);
    assert!(!leaf.has_children);
    let change = m.set_open(3, false);
    assert_eq!(change.added, change.removed);
    assert_eq!(names(&m), before);
    assert!(!m.row_data(3).has_children);
}

#[test]
fn projection_rows_resolve_and_depths_step_by_one() {
    let m = model();
    let depths: Vec<usize> = (0..m.row_count()).map(|i| m.row_data(i).indentation).collect();
    assert_eq!(depths, vec![0, 1, 2, 3, 1, 2]);
    for w in depths.windows(2) {
        assert!(w[1] <= w[0] + 1);
    }
}

#[test]
fn projection_set_row_data_uses_open_flag() {
    let mut m = model();
    let mut row = m.row_data(1);
    row.open = false;
    row.crate_name = "ignored".to_string();
    m.set_row_data(1, row);
    assert_eq!(names(&m), vec!["app", "a", "b", "c"]);
}
