use panda_note::model::{MemoSummary, NavFilter, Notebook, SyncState};
use panda_note::notebooks::{
    delete_notebook_plan, find_child_notebook, find_titled, inbox_id, journal_folders, journal_plan, journal_plan_at,
    leave_deleted_notebook, new_memo_notebook, notebook_breadcrumb_path, reorder_plan, DeletePlan,
    ReorderPlan,
};

fn nb(id: &str, parent: Option<&str>, name: &str, order: i32) -> Notebook {
    Notebook {
        id: id.to_string(),
        parent_id: parent.map(str::to_string),
        name: name.to_string(),
        slug: None,
        path: String::new(),
        depth: 0,
        sort_order: order,
        memo_count: 0,
        is_deleted: false,
        created_at: String::new(),
        updated_at: String::new(),
    }
}

fn memo(id: &str, notebook: &str) -> MemoSummary {
    MemoSummary {
        id: id.to_string(),
        notebook_id: notebook.to_string(),
        title: None,
        excerpt: String::new(),
        tags: vec![],
        is_pinned: false,
        is_archived: false,
        is_deleted: false,
        revision: 1,
        content_hash: String::new(),
        etag: String::new(),
        created_at: String::new(),
        updated_at: String::new(),
        deleted_at: None,
    }
}

#[test]
fn inbox_is_the_inbox_slug_or_first() {
    let mut inbox = nb("i", None, "Inbox", 0);
    inbox.slug = Some("inbox".to_string());
    assert_eq!(inbox_id(&vec![nb("a", None, "A", 0), inbox.clone()]).as_deref(), Some("i"));
    assert_eq!(inbox_id(&vec![nb("a", None, "A", 0)]).as_deref(), Some("a"));
    assert_eq!(inbox_id(&vec![]), None);
}

#[test]
fn new_memo_goes_to_shown_or_first_notebook() {
    let ns = vec![nb("a", None, "A", 0)];
    assert_eq!(new_memo_notebook(&NavFilter::Notebook("z".to_string()), &ns).as_deref(), Some("z"));
    assert_eq!(new_memo_notebook(&NavFilter::All, &ns).as_deref(), Some("a"));
    assert_eq!(new_memo_notebook(&NavFilter::All, &vec![]), None);
}

#[test]
fn deleting_notebooks_is_guarded() {
    let mut inbox = nb("i", None, "Inbox", 0);
    inbox.slug = Some("inbox".to_string());
    let ns = vec![inbox, nb("p", None, "P", 1), nb("c", Some("p"), "C", 0)];
    let mut trashed = memo("m2", "c");
    trashed.is_deleted = true;
    let memos = vec![(memo("m1", "c"), SyncState::Synced), (trashed, SyncState::Synced)];
    assert!(matches!(delete_notebook_plan(&ns, &memos, "i"), DeletePlan::Inbox));
    assert!(matches!(delete_notebook_plan(&ns, &memos, "p"), DeletePlan::HasChildren));
    match delete_notebook_plan(&ns, &memos, "c") {
        DeletePlan::Proceed { memo_ids, move_to } => {
            assert_eq!(memo_ids, vec!["m1"]);
            assert_eq!(move_to.as_deref(), Some("i"));
        }
        other => panic!("unexpected {other:?}"),
    }
    assert!(matches!(delete_notebook_plan(&vec![], &memos, "c"), DeletePlan::NoInbox));
    let mut filter = NavFilter::Notebook("c".to_string());
    leave_deleted_notebook(&mut filter, "c");
    assert!(matches!(filter, NavFilter::All));
}

#[test]
fn breadcrumb_runs_from_top_down() {
    let ns = vec![nb("a", None, "Top", 0), nb("b", Some("a"), "Mid", 0), nb("c", Some("b"), "Leaf", 0)];
    assert_eq!(notebook_breadcrumb_path(&ns, "c").unwrap(), vec!["Top", "Mid", "Leaf"]);
    assert_eq!(notebook_breadcrumb_path(&ns, "zz").unwrap(), Vec::<String>::new());
    let looped = vec![nb("a", Some("b"), "A", 0), nb("b", Some("a"), "B", 0)];
    assert!(notebook_breadcrumb_path(&looped, "a").is_none());
}

#[test]
fn reorder_moves_dragged_to_target_place() {
    let ns = vec![
        nb("c", None, "C", 3),
        nb("a", None, "A", 1),
        nb("b", None, "B", 2),
        nb("x", Some("a"), "X", 0),
    ];
    match reorder_plan(&ns, "c", None, "a", None) {
        ReorderPlan::Reorder { parent_id, ids } => {
            assert_eq!(parent_id, None);
            assert_eq!(ids, vec!["c", "a", "b"]);
        }
        other => panic!("unexpected {other:?}"),
    }
    assert!(matches!(reorder_plan(&ns, "a", None, "a", None), ReorderPlan::Nothing));
    assert!(matches!(reorder_plan(&ns, "x", Some("a"), "b", None), ReorderPlan::OtherLevel));
    assert!(matches!(reorder_plan(&ns, "q", None, "b", None), ReorderPlan::Missing));
}

#[test]
fn journal_folders_are_parsed_from_setting() {
    assert_eq!(journal_folders(" Notes / ./Daily\\ .. // Log "), vec!["Notes", "Daily", "Log"]);
    assert!(journal_folders(" / . ").is_empty());
    assert!(journal_plan(Some("..".to_string())).is_none());
    let plan = journal_plan(None).unwrap();
    assert_eq!(plan.folders.len(), 3);
    assert_eq!(plan.folders[0], "Journal");
    assert_eq!(plan.title.len(), 8);
    assert!(plan.title.starts_with(&format!("{}{}", plan.folders[1], plan.folders[2])));
}

#[test]
fn journal_plan_puts_year_then_month_under_the_setting() {
    let s = |x: &str| x.to_string();
    let plan = journal_plan_at(Some(s("Notes/Daily")), s("20240307"), s("2024"), s("03")).unwrap();
    assert_eq!(plan.folders, vec!["Notes", "Daily", "2024", "03"]);
    assert_eq!(plan.title, "20240307");
    let plan = journal_plan_at(None, s("20991231"), s("2099"), s("12")).unwrap();
    assert_eq!(plan.folders, vec!["Journal", "2099", "12"]);
    assert_eq!(plan.title, "20991231");
    assert!(journal_plan_at(Some(s(" / ")), s("20240307"), s("2024"), s("03")).is_none());
}

#[test]
fn journal_reuses_existing_folder_and_memo() {
    let mut gone = nb("d", None, "Journal", 0);
    gone.is_deleted = true;
    let ns = vec![gone, nb("j", None, "Journal", 0), nb("y", Some("j"), "2024", 0)];
    assert_eq!(find_child_notebook(&ns, "Journal", None), Some(1));
    assert_eq!(find_child_notebook(&ns, "2024", Some("j")), Some(2));
    assert_eq!(find_child_notebook(&ns, "2024", None), None);
    let mut titled = memo("m", "y");
    titled.title = Some("20240510".to_string());
    assert_eq!(find_titled(&vec![memo("n", "y"), titled], "20240510").as_deref(), Some("m"));
    assert_eq!(find_titled(&vec![], "20240510"), None);
}
