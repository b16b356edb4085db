use panda_note::api::{SyncChange, SyncPushItemResult};
use panda_note::model::{TodoOperation, TodoOperationKind};
use panda_note::sync::{
    operation_id, push_item, push_op_name, push_outcome, JournalPull, PushOutcome, RemoteTodoAction,
    SyncError, SyncReport, TodoReplay, PULL_PAGE_LIMIT,
};
use panda_note::model::SyncState;

fn op(id: &str, write_id: &str, depends: Option<&str>) -> TodoOperation {
    TodoOperation {
        operation_id: id.to_string(),
        todo_id: "t".to_string(),
        kind: TodoOperationKind::Update,
        payload_json: "{}".to_string(),
        base_revision: Some(3),
        if_match_etag: Some("e3".to_string()),
        write_id: write_id.to_string(),
        depends_on_write_id: depends.map(str::to_string),
        attempts: 0,
        last_error: None,
    }
}

fn result(id: &str, ok: bool, code: Option<&str>) -> SyncPushItemResult {
    SyncPushItemResult {
        client_op_id: id.to_string(),
        ok,
        error_code: code.map(str::to_string),
        todo: None,
    }
}

#[test]
fn write_id_falls_back_to_operation_id() {
    assert_eq!(operation_id(&op("o1", "", None)), "o1");
    assert_eq!(operation_id(&op("o1", "w1", None)), "w1");
    assert_eq!(push_op_name(TodoOperationKind::Restore), "todo.restore");
}

#[test]
fn dependent_push_carries_no_guards() {
    let t = panda_note::model::Todo {
        id: "t".to_string(),
        title: "x".to_string(),
        note: String::new(),
        status: panda_note::model::TodoStatus::Open,
        due_date: None,
        priority: 0,
        linked_memo_id: None,
        is_deleted: false,
        revision: 3,
        etag: "e3".to_string(),
        created_at: String::new(),
        updated_at: String::new(),
        completed_at: None,
        deleted_at: None,
    };
    let first = push_item(&op("o1", "w1", None), t.clone());
    assert_eq!(first.client_op_id, "w1");
    assert_eq!(first.op, "todo.update");
    let pushed = first.todo.unwrap();
    assert_eq!(pushed.base_revision, Some(3));
    assert_eq!(pushed.if_match_etag.as_deref(), Some("e3"));
    let second = push_item(&op("o2", "w2", Some("w1")), t);
    assert_eq!(second.depends_on_client_op_id.as_deref(), Some("w1"));
    let pushed = second.todo.unwrap();
    assert_eq!(pushed.base_revision, None);
    assert_eq!(pushed.if_match_etag, None);
}

#[test]
fn push_outcome_reads_first_result_for_the_write() {
    match push_outcome("w", vec![result("x", false, None), result("w", true, None), result("w", false, None)]) {
        Ok(PushOutcome::Accepted { todo }) => assert!(todo.is_none()),
        other => panic!("unexpected {other:?}"),
    }
    match push_outcome("w", vec![result("w", false, Some("revision_conflict"))]) {
        Ok(PushOutcome::Rejected { message, conflict }) => {
            assert_eq!(message, "revision_conflict");
            assert!(conflict);
        }
        other => panic!("unexpected {other:?}"),
    }
    match push_outcome("w", vec![result("w", false, None)]) {
        Ok(PushOutcome::Rejected { message, conflict }) => {
            assert_eq!(message, "remote operation failed");
            assert!(!conflict);
        }
        other => panic!("unexpected {other:?}"),
    }
    match push_outcome("w", vec![result("x", true, None)]) {
        Err(SyncError::MissingResult(w)) => assert_eq!(w, "w"),
        other => panic!("unexpected {other:?}"),
    }
}

#[test]
fn replay_stops_at_first_refusal() {
    let mut replay = TodoReplay::new(vec![op("o1", "w1", None), op("o2", "w2", Some("w1")), op("o3", "w3", None)]);
    assert_eq!(replay.next_operation().unwrap().operation_id, "o1");
    assert!(matches!(replay.record(vec![result("w1", true, None)]), Ok(PushOutcome::Accepted { .. })));
    assert_eq!(replay.next_operation().unwrap().operation_id, "o2");
    assert!(matches!(replay.record(vec![result("zz", true, None)]), Err(SyncError::MissingResult(_))));
    assert_eq!(replay.next_operation().unwrap().operation_id, "o2");
    assert!(matches!(
        replay.record(vec![result("w2", false, Some("conflict"))]),
        Ok(PushOutcome::Rejected { conflict: true, .. })
    ));
    assert!(replay.next_operation().is_none());
    assert_eq!(replay.report(), SyncReport { pushed: 1, pulled: 0, conflicts: 1 });
}

fn change(kind: &str, payload: Option<&str>) -> SyncChange {
    SyncChange {
        id: 1,
        entity_type: kind.to_string(),
        entity_id: "t".to_string(),
        operation: "update".to_string(),
        payload_kind: "full".to_string(),
        payload_json: payload.map(str::to_string),
        created_at: String::new(),
    }
}

#[test]
fn journal_pull_counts_and_moves_cursor_per_page() {
    let report = SyncReport { pushed: 2, pulled: 0, conflicts: 0 };
    let mut pull = JournalPull::new(vec!["busy".to_string()], Some("41".to_string()), report);
    assert_eq!(pull.cursor(), 41);
    assert_eq!(JournalPull::todo_payload(&change("todo", Some("{}"))).as_deref(), Some("{}"));
    assert_eq!(JournalPull::todo_payload(&change("memo", Some("{}"))), None);
    assert_eq!(JournalPull::todo_payload(&change("todo", None)), None);
    assert_eq!(pull.take_todo("busy"), RemoteTodoAction::MarkConflict);
    assert_eq!(pull.take_todo("free"), RemoteTodoAction::Apply);
    assert_eq!(pull.cursor(), 41);
    assert!(pull.finish_page(57, true));
    assert_eq!(pull.cursor(), 57);
    assert_eq!(pull.report(), SyncReport { pushed: 2, pulled: 1, conflicts: 1 });
    let fresh = JournalPull::new(vec![], Some("not a number".to_string()), SyncReport::default());
    assert_eq!(fresh.cursor(), 0);
    assert_eq!(JournalPull::new(vec![], None, SyncReport::default()).cursor(), 0);
}

#[test]
fn outcome_decides_the_todo_state() {
    let accepted = PushOutcome::Accepted { todo: None };
    assert_eq!(accepted.todo_state(), SyncState::Synced);
    let conflict = PushOutcome::Rejected { message: "revision_conflict".to_string(), conflict: true };
    assert_eq!(conflict.todo_state(), SyncState::Conflict);
    let failed = PushOutcome::Rejected { message: "boom".to_string(), conflict: false };
    assert_eq!(failed.todo_state(), SyncState::Failed);
    assert_eq!(PULL_PAGE_LIMIT, 200);
}
