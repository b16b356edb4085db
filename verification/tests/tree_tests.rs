use panda_note::model::{NavFilter, Notebook};
use panda_note::tree::{nav_row, notebook_tree_rows, toggle_collapsed};

fn nb(id: &str, parent: Option<&str>, name: &str, order: i32) -> Notebook {
    Notebook {
        id: id.to_string(),
        parent_id: parent.map(str::to_string),
        name: name.to_string(),
        slug: None,
        path: String::new(),
        depth: 0,
        sort_order: order,
        memo_count: 0,
        is_deleted: false,
        created_at: String::new(),
        updated_at: String::new(),
    }
}

fn sample() -> Vec<Notebook> {
    vec![
        nb("b", None, "Beta", 1),
        nb("a", None, "Alpha", 1),
        nb("c", Some("a"), "Child", 0),
        nb("z", None, "Zero", 0),
        nb("g", Some("c"), "Grandchild", 0),
    ]
}

#[test]
fn tree_rows_sort_by_order_then_name_and_nest() {
    let ns = sample();
    let rows = notebook_tree_rows(&ns, &vec![]).unwrap();
    let shown: Vec<(&str, i32)> = rows.iter().map(|(i, d)| (ns[*i].id.as_str(), *d)).collect();
    assert_eq!(shown, vec![("z", 0), ("a", 0), ("c", 1), ("g", 2), ("b", 0)]);
}

#[test]
fn tree_rows_hide_children_of_collapsed() {
    let ns = sample();
    let rows = notebook_tree_rows(&ns, &vec!["a".to_string()]).unwrap();
    let shown: Vec<&str> = rows.iter().map(|(i, _)| ns[*i].id.as_str()).collect();
    assert_eq!(shown, vec!["z", "a", "b"]);
}

#[test]
fn tree_rows_keep_list_order_on_ties() {
    let ns = vec![nb("x", None, "Same", 0), nb("y", None, "Same", 0)];
    let rows = notebook_tree_rows(&ns, &vec![]).unwrap();
    assert_eq!(rows, vec![(0, 0), (1, 0)]);
}

#[test]
fn tree_rows_skip_unreachable_circles() {
    let ns = vec![nb("p", Some("q"), "P", 0), nb("q", Some("p"), "Q", 0), nb("r", None, "R", 0)];
    assert_eq!(notebook_tree_rows(&ns, &vec![]), Some(vec![(2, 0)]));
    assert_eq!(notebook_tree_rows(&vec![], &vec![]), Some(vec![]));
}

#[test]
fn nav_row_reports_selection_children_and_inbox() {
    let mut ns = sample();
    ns[3].slug = Some("inbox".to_string());
    let row = nav_row(&ns, &vec!["a".to_string()], &NavFilter::Notebook("a".to_string()), &ns[1]);
    assert!(row.selected);
    assert!(row.has_children);
    assert!(!row.expanded);
    assert!(!row.is_inbox);
    let leaf = nav_row(&ns, &vec![], &NavFilter::All, &ns[4]);
    assert!(!leaf.selected && !leaf.has_children && leaf.expanded && !leaf.is_inbox);
    assert!(nav_row(&ns, &vec![], &NavFilter::All, &ns[3]).is_inbox);
}

#[test]
fn toggle_collapsed_twice_restores() {
    let mut collapsed = vec!["x".to_string()];
    toggle_collapsed(&mut collapsed, "a");
    assert_eq!(collapsed, vec!["x".to_string(), "a".to_string()]);
    toggle_collapsed(&mut collapsed, "a");
    assert_eq!(collapsed, vec!["x".to_string()]);
}

#[test]
fn tree_rows_refuse_a_notebook_nested_in_itself() {
    let ns = vec![nb("x", None, "Top", 0), nb("x", Some("x"), "Loop", 0)];
    assert_eq!(notebook_tree_rows(&ns, &vec![]), None);
    assert_eq!(notebook_tree_rows(&ns, &vec!["x".to_string()]), Some(vec![(0, 0)]));
}
