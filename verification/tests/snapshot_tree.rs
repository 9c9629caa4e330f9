use earl::browser::snapshot::{ax_forest_finishes, build_ax_forest, AXNode, AxNodeRecord};

fn rec(id: &str, parent: Option<&str>, ignored: bool, role: Option<&str>, name: Option<&str>, backend: Option<i64>, children: &[&str]) -> AxNodeRecord {
    AxNodeRecord {
        node_id: id.to_string(),
        parent_id: parent.map(|p| p.to_string()),
        ignored,
        role: role.map(|r| r.to_string()),
        name: name.map(|n| n.to_string()),
        backend_dom_node_id: backend,
        child_ids: children.iter().map(|c| c.to_string()).collect(),
    }
}

fn shape(n: &AXNode) -> String {
    let kids: Vec<String> = n.children.iter().map(shape).collect();
    format!("{}:{}:{}[{}]", n.role, n.name, n.backend_node_id, kids.join(","))
}

#[test]
fn tree_is_rebuilt_from_child_links() {
    let nodes = vec![
        rec("1", None, false, Some("RootWebArea"), Some("Example"), Some(5), &["2", "3"]),
        rec("2", Some("1"), false, Some("heading"), Some("Title"), Some(6), &[]),
        rec("3", Some("1"), false, None, None, None, &["4"]),
        rec("4", Some("3"), false, Some("link"), Some("More"), Some(8), &[]),
    ];
    assert!(ax_forest_finishes(&nodes));
    let forest = build_ax_forest(&nodes);
    assert_eq!(forest.len(), 1);
    assert_eq!(shape(&forest[0]), "RootWebArea:Example:5[heading:Title:6[],unknown::0[link:More:8[]]]");
}

#[test]
fn ignored_nodes_drop_their_subtrees() {
    let nodes = vec![
        rec("1", None, false, Some("main"), None, None, &["2", "3"]),
        rec("2", Some("1"), true, Some("generic"), None, None, &["4"]),
        rec("3", Some("1"), false, Some("button"), Some("OK"), None, &["missing"]),
        rec("4", Some("2"), false, Some("text"), Some("hidden"), None, &[]),
    ];
    let forest = build_ax_forest(&nodes);
    assert_eq!(forest.len(), 1);
    assert_eq!(shape(&forest[0]), "main::0[button:OK:0[]]");
}

#[test]
fn nodes_with_unknown_parents_are_roots() {
    let nodes = vec![
        rec("a", Some("gone"), false, Some("dialog"), None, None, &[]),
        rec("b", None, false, Some("main"), None, None, &[]),
        rec("c", Some("b"), false, Some("text"), None, None, &[]),
    ];
    let forest = build_ax_forest(&nodes);
    let shapes: Vec<String> = forest.iter().map(shape).collect();
    assert_eq!(shapes, vec!["dialog::0[]".to_string(), "main::0[]".to_string()]);
}

#[test]
fn later_records_win_for_the_same_id() {
    let nodes = vec![
        rec("1", None, false, Some("old"), None, None, &[]),
        rec("1", None, false, Some("new"), None, None, &[]),
    ];
    let forest = build_ax_forest(&nodes);
    let shapes: Vec<String> = forest.iter().map(shape).collect();
    assert_eq!(shapes, vec!["new::0[]".to_string(), "new::0[]".to_string()]);
}

#[test]
fn cycles_are_detected() {
    let nodes = vec![
        rec("1", None, false, Some("main"), None, None, &["2"]),
        rec("2", Some("1"), false, Some("group"), None, None, &["1"]),
    ];
    assert!(!ax_forest_finishes(&nodes));
    let empty: Vec<AxNodeRecord> = vec![];
    assert!(ax_forest_finishes(&empty));
    assert!(build_ax_forest(&empty).is_empty());
}
