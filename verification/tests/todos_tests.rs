use panda_note::model::{SyncState, Todo, TodoFilter, TodoOperation, TodoOperationKind, TodoStatus};
use panda_note::todos::{
    apply_local_todo, create_change, merge_todos, queue_todo_operation, save_change, todo_change,
    todo_change_now, visible_todos, TodoAction,
};

fn todo(id: &str) -> Todo {
    Todo {
        id: id.to_string(),
        title: format!("task {id}"),
        note: String::new(),
        status: TodoStatus::Open,
        due_date: None,
        priority: 0,
        linked_memo_id: None,
        is_deleted: false,
        revision: 0,
        etag: String::new(),
        created_at: "2024-01-01T00:00:00Z".to_string(),
        updated_at: "2024-01-01T00:00:00Z".to_string(),
        completed_at: None,
        deleted_at: None,
    }
}

fn op(id: &str, todo_id: &str, kind: TodoOperationKind, write_id: &str) -> TodoOperation {
    TodoOperation {
        operation_id: id.to_string(),
        todo_id: todo_id.to_string(),
        kind,
        payload_json: "{}".to_string(),
        base_revision: None,
        if_match_etag: None,
        write_id: write_id.to_string(),
        depends_on_write_id: None,
        attempts: 0,
        last_error: None,
    }
}

fn ids(items: &[(Todo, SyncState)]) -> Vec<String> {
    items.iter().map(|(t, _)| t.id.clone()).collect()
}

#[test]
fn views_split_tasks_by_status_and_due_date() {
    let mut inbox = todo("inbox");
    inbox.status = TodoStatus::Inbox;
    let mut today = todo("today");
    today.due_date = Some("2024-05-10".to_string());
    let mut later = todo("later");
    later.due_date = Some("2024-06-01".to_string());
    let mut past = todo("past");
    past.due_date = Some("2024-05-01".to_string());
    let mut done = todo("done");
    done.status = TodoStatus::Completed;
    let mut gone = todo("gone");
    gone.is_deleted = true;
    let items: Vec<(Todo, SyncState)> = vec![inbox, today, later, past, done, gone]
        .into_iter()
        .map(|t| (t, SyncState::Synced))
        .collect();
    let d = "2024-05-10";
    assert_eq!(ids(&visible_todos(&items, TodoFilter::Inbox, d)), vec!["inbox"]);
    assert_eq!(ids(&visible_todos(&items, TodoFilter::Today, d)), vec!["today"]);
    assert_eq!(ids(&visible_todos(&items, TodoFilter::Upcoming, d)), vec!["later"]);
    assert_eq!(ids(&visible_todos(&items, TodoFilter::Completed, d)), vec!["done"]);
    assert_eq!(ids(&visible_todos(&items, TodoFilter::Trash, d)), vec!["gone"]);
    assert_eq!(
        ids(&visible_todos(&items, TodoFilter::All, d)),
        vec!["inbox", "today", "later", "past", "done"]
    );
}

#[test]
fn views_list_each_task_once() {
    let items = vec![
        (todo("a"), SyncState::LocalModified),
        (todo("a"), SyncState::Synced),
        (todo("b"), SyncState::Synced),
    ];
    let shown = visible_todos(&items, TodoFilter::All, "2024-01-01");
    assert_eq!(ids(&shown), vec!["a", "b"]);
    assert_eq!(shown[0].1, SyncState::LocalModified);
}

#[test]
fn local_edit_replaces_first_entry_or_goes_first() {
    let mut items = vec![(todo("a"), SyncState::Synced), (todo("b"), SyncState::Synced)];
    let mut b = todo("b");
    b.title = "edited".to_string();
    apply_local_todo(&mut items, b, SyncState::LocalModified);
    assert_eq!(items[1].0.title, "edited");
    assert_eq!(items[1].1, SyncState::LocalModified);
    apply_local_todo(&mut items, todo("c"), SyncState::LocalCreated);
    assert_eq!(ids(&items), vec!["c", "a", "b"]);
}

#[test]
fn toggle_completes_then_reopens() {
    let mut t = todo("t");
    t.revision = 4;
    t.etag = "e4".to_string();
    let c = todo_change(&t, TodoAction::Toggle, "NOW".to_string());
    assert_eq!(c.next.status, TodoStatus::Completed);
    assert_eq!(c.next.completed_at.as_deref(), Some("NOW"));
    assert_eq!(c.next.updated_at, "NOW");
    assert_eq!(c.kind, TodoOperationKind::Complete);
    assert_eq!(c.base_revision, Some(4));
    assert_eq!(c.if_match_etag.as_deref(), Some("e4"));
    assert_eq!(c.state, SyncState::LocalModified);
    let back = todo_change(&c.next, TodoAction::Toggle, "LATER".to_string());
    assert_eq!(back.next.status, TodoStatus::Open);
    assert_eq!(back.next.completed_at, None);
}

#[test]
fn delete_then_restore_brings_task_back() {
    let t = todo("t");
    let d = todo_change(&t, TodoAction::Delete, "D".to_string());
    assert!(d.next.is_deleted);
    assert_eq!(d.next.deleted_at.as_deref(), Some("D"));
    assert_eq!(d.kind, TodoOperationKind::Delete);
    assert_eq!(d.state, SyncState::LocalDeleted);
    assert_eq!(d.base_revision, None);
    assert_eq!(d.if_match_etag, None);
    let r = todo_change(&d.next, TodoAction::Restore, "R".to_string());
    assert!(!r.next.is_deleted);
    assert_eq!(r.next.deleted_at, None);
    assert_eq!(r.next.status, TodoStatus::Open);
    assert_eq!(r.kind, TodoOperationKind::Restore);
    assert_eq!(r.next.title, t.title);
}

#[test]
fn change_now_stamps_the_clock() {
    let t = todo("t");
    let c = todo_change_now(&t, TodoAction::Delete);
    assert!(c.next.is_deleted);
    assert_eq!(c.next.deleted_at.as_deref(), Some(c.next.updated_at.as_str()));
    assert!(!c.next.updated_at.is_empty());
}

#[test]
fn new_task_is_created_locally() {
    let c = create_change("id-1", "T0");
    assert_eq!(c.next.id, "id-1");
    assert_eq!(c.next.title, "New task");
    assert_eq!(c.next.status, TodoStatus::Inbox);
    assert_eq!(c.next.created_at, "T0");
    assert_eq!(c.kind, TodoOperationKind::Create);
    assert_eq!(c.state, SyncState::LocalCreated);
}

#[test]
fn save_takes_fields_and_clamps_priority() {
    let mut t = todo("t");
    t.revision = 2;
    let c = save_change(&t, Some("Title"), Some("Note"), Some("  2024-07-01 "), Some(" 9 "), &vec![]);
    assert_eq!(c.next.title, "Title");
    assert_eq!(c.next.note, "Note");
    assert_eq!(c.next.due_date.as_deref(), Some("2024-07-01"));
    assert_eq!(c.next.priority, 3);
    assert_eq!(c.kind, TodoOperationKind::Update);
    assert_eq!(c.base_revision, Some(2));
    let c = save_change(&t, None, None, Some("   "), Some("-4"), &vec![]);
    assert_eq!(c.next.title, t.title);
    assert_eq!(c.next.due_date, None);
    assert_eq!(c.next.priority, 0);
    let c = save_change(&t, None, None, None, Some("high"), &vec![]);
    assert_eq!(c.next.priority, 0);
}

#[test]
fn unsynced_task_saves_as_create_unless_create_queued() {
    let t = todo("t");
    let c = save_change(&t, None, None, None, None, &vec![]);
    assert_eq!(c.kind, TodoOperationKind::Create);
    let queued = vec![op("o1", "t", TodoOperationKind::Create, "w1")];
    let c = save_change(&t, None, None, None, None, &queued);
    assert_eq!(c.kind, TodoOperationKind::Update);
}

#[test]
fn queued_operation_depends_on_last_write_of_same_task() {
    let pending = vec![
        op("o1", "t", TodoOperationKind::Create, ""),
        op("o2", "u", TodoOperationKind::Create, "w2"),
        op("o3", "t", TodoOperationKind::Update, "w3"),
    ];
    let change = todo_change(&todo("t"), TodoAction::Toggle, "N".to_string());
    let queued = queue_todo_operation(&pending, &change, "payload".to_string());
    assert_eq!(queued.depends_on_write_id.as_deref(), Some("w3"));
    assert_eq!(queued.write_id, queued.operation_id);
    assert_eq!(queued.operation_id.len(), 36);
    assert_eq!(queued.payload_json, "payload");
    assert_eq!(queued.kind, TodoOperationKind::Complete);
    let first = vec![op("o1", "t", TodoOperationKind::Create, "")];
    let queued = queue_todo_operation(&first, &change, "p".to_string());
    assert_eq!(queued.depends_on_write_id.as_deref(), Some("o1"));
    let none = queue_todo_operation(&vec![], &change, "p".to_string());
    assert_eq!(none.depends_on_write_id, None);
}

#[test]
fn merge_keeps_pending_local_tasks() {
    let mut remote_a = todo("a");
    remote_a.title = "server a".to_string();
    let mut remote_b = todo("b");
    remote_b.title = "server b".to_string();
    let mut local_a = todo("a");
    local_a.title = "mine".to_string();
    let mut local_b = todo("b");
    local_b.title = "old b".to_string();
    let local = vec![
        (local_a, SyncState::LocalModified),
        (local_b, SyncState::Synced),
        (todo("offline"), SyncState::LocalCreated),
    ];
    let merged = merge_todos(&vec![remote_a, remote_b], &local);
    assert_eq!(ids(&merged), vec!["a", "b", "offline"]);
    assert_eq!(merged[0].0.title, "mine");
    assert_eq!(merged[0].1, SyncState::LocalModified);
    assert_eq!(merged[1].0.title, "server b");
    assert_eq!(merged[1].1, SyncState::Synced);
    assert_eq!(merged[2].1, SyncState::LocalCreated);
}
