use panda_note::api::{ApiError, MemoSaveAck};
use panda_note::model::{ActiveMemo, MemoSummary, NavFilter, SyncState};
use panda_note::workspace::{
    background_tick, pin_request, RefreshTick, ReloadDecision, RenameAction, RenameTarget, SaveOutcome, SaveSchedule, Workspace,
};

fn summary(id: &str, revision: u64) -> MemoSummary {
    MemoSummary {
        id: id.to_string(),
        notebook_id: "nb".to_string(),
        title: Some("Title".to_string()),
        excerpt: String::new(),
        tags: vec!["x".to_string()],
        is_pinned: false,
        is_archived: false,
        is_deleted: false,
        revision,
        content_hash: "h".to_string(),
        etag: "e".to_string(),
        created_at: String::new(),
        updated_at: "u0".to_string(),
        deleted_at: None,
    }
}

fn active(id: &str, revision: u64) -> ActiveMemo {
    ActiveMemo {
        id: id.to_string(),
        notebook_id: "nb".to_string(),
        title: Some("Title".to_string()),
        tags: vec!["x".to_string()],
        markdown: "body".to_string(),
        etag: "e".to_string(),
        revision,
        content_hash: "h".to_string(),
        lease_id: Some("lease".to_string()),
        sync_state: SyncState::Synced,
    }
}

fn workspace() -> Workspace {
    let mut w = Workspace::new();
    w.memos = vec![(summary("m", 3), SyncState::Synced), (summary("o", 1), SyncState::Synced)];
    w.active = Some(active("m", 3));
    w
}

fn ack(revision: u64) -> MemoSaveAck {
    MemoSaveAck {
        protocol_version: 1,
        revision,
        content_hash: "h2".to_string(),
        etag: "e2".to_string(),
        lease_id: None,
        saved_at: "t2".to_string(),
    }
}

fn conflict(code: &str) -> ApiError {
    ApiError::Http {
        status: 409,
        code: code.to_string(),
        message: "conflict".to_string(),
        current_etag: None,
    }
}

#[test]
fn edit_schedules_a_debounced_save() {
    let mut w = workspace();
    let r = w.schedule_save("m", "new text".to_string());
    assert_eq!(r, SaveSchedule::Scheduled { save_generation: 1, draft_generation: 1, notify: true });
    let a = w.active.as_ref().unwrap();
    assert_eq!(a.markdown, "new text");
    assert_eq!(a.sync_state, SyncState::LocalModified);
    assert_eq!(w.memos[0].1, SyncState::LocalModified);
    assert!(w.save_is_due(1));
    assert!(!w.save_is_due(0));
    assert!(w.draft_is_due(1, "m"));
    let r = w.schedule_save("m", "newer".to_string());
    assert_eq!(r, SaveSchedule::Scheduled { save_generation: 2, draft_generation: 2, notify: false });
    assert_eq!(w.schedule_save("other", "x".to_string()), SaveSchedule::Ignored);
}

#[test]
fn edit_during_save_is_saved_afterwards() {
    let mut w = workspace();
    let req = w.flush_save("m", false, Some("one".to_string())).unwrap();
    assert_eq!(req.markdown, "one");
    assert_eq!(req.revision, 3);
    assert_eq!(req.lease_id.as_deref(), Some("lease"));
    assert!(w.save_in_flight);
    let r = w.schedule_save("m", "two".to_string());
    assert!(matches!(r, SaveSchedule::Deferred { .. }));
    assert!(w.save_pending);
    assert!(w.flush_save("m", false, None).is_none());
    let out = w.save_finished("m", Ok(ack(4)), "one");
    assert_eq!(out, SaveOutcome::Saved { applied: true, flush_again: true });
    assert!(!w.save_in_flight);
    assert!(!w.save_pending);
}

#[test]
fn ack_is_taken_and_never_moves_back() {
    let mut w = workspace();
    assert!(w.apply_save_ack("m", &ack(5), "saved text"));
    let a = w.active.as_ref().unwrap();
    assert_eq!(a.revision, 5);
    assert_eq!(a.etag, "e2");
    assert_eq!(a.lease_id, None);
    assert_eq!(a.markdown, "saved text");
    assert_eq!(a.sync_state, SyncState::Synced);
    assert_eq!(w.memos[0].0.revision, 5);
    assert_eq!(w.memos[0].0.updated_at, "t2");
    assert_eq!(w.memos[0].0.excerpt, "saved text");
    assert!(!w.apply_save_ack("m", &ack(4), "stale"));
    assert_eq!(w.active.as_ref().unwrap().revision, 5);
    assert_eq!(w.active.as_ref().unwrap().markdown, "saved text");
}

#[test]
fn save_errors_mark_the_memo() {
    let mut w = workspace();
    w.flush_save("m", false, None);
    assert_eq!(w.save_finished("m", Err(conflict("lease_conflict")), "b"), SaveOutcome::LeaseExpired);
    assert_eq!(w.active.as_ref().unwrap().sync_state, SyncState::Failed);
    w.flush_save("m", false, None);
    assert_eq!(
        w.save_finished("m", Err(conflict("revision_conflict")), "b"),
        SaveOutcome::Conflict { revision: true }
    );
    assert_eq!(w.active.as_ref().unwrap().sync_state, SyncState::Conflict);
    w.flush_save("m", false, None);
    assert_eq!(w.save_finished("m", Err(conflict("other")), "b"), SaveOutcome::Conflict { revision: false });
    w.flush_save("m", false, None);
    w.save_pending = true;
    let out = w.save_finished("m", Err(ApiError::Other { message: "offline".to_string() }), "b");
    assert_eq!(out, SaveOutcome::Failed { retry: true });
    assert_eq!(w.active.as_ref().unwrap().sync_state, SyncState::Failed);
    assert!(!w.save_in_flight);
}

#[test]
fn title_commit_retitles_only_on_change() {
    let mut w = workspace();
    assert!(!w.commit_title("m", "  Title  "));
    assert!(w.commit_title("m", " New "));
    assert_eq!(w.active.as_ref().unwrap().title.as_deref(), Some("New"));
    assert_eq!(w.memos[0].0.title.as_deref(), Some("New"));
    assert!(w.commit_title("m", "   "));
    assert_eq!(w.active.as_ref().unwrap().title, None);
    assert!(!w.commit_title("o", "x"));
}

#[test]
fn rename_actions() {
    let mut w = workspace();
    assert!(matches!(w.confirm_rename(RenameTarget::Memo("m".to_string()), "  "), RenameAction::Nothing));
    match w.confirm_rename(RenameTarget::Notebook("nb".to_string()), " Work ") {
        RenameAction::RenameNotebook { id, name } => {
            assert_eq!(id, "nb");
            assert_eq!(name, "Work");
        }
        other => panic!("unexpected {other:?}"),
    }
    assert!(matches!(
        w.confirm_rename(RenameTarget::Memo("m".to_string()), "Open one"),
        RenameAction::ScheduleSave { .. }
    ));
    assert_eq!(w.active.as_ref().unwrap().title.as_deref(), Some("Open one"));
    match w.confirm_rename(RenameTarget::Memo("o".to_string()), "Closed") {
        RenameAction::SaveTitle { id, title } => {
            assert_eq!(id, "o");
            assert_eq!(title, "Closed");
        }
        other => panic!("unexpected {other:?}"),
    }
    assert_eq!(w.memos[1].0.title.as_deref(), Some("Closed"));
}

#[test]
fn tags_are_added_once_and_known_tags_sorted() {
    let mut w = workspace();
    w.available_tags = vec!["beta".to_string(), "Alpha".to_string()];
    assert!(!w.add_tag_to_active("  X "));
    assert!(!w.add_tag_to_active("   "));
    assert!(w.add_tag_to_active(" gamma "));
    assert_eq!(w.active.as_ref().unwrap().tags, vec!["x", "gamma"]);
    assert_eq!(w.memos[0].0.tags, vec!["x", "gamma"]);
    assert_eq!(w.available_tags, vec!["Alpha", "beta", "gamma"]);
    assert!(w.add_tag_to_active("ALPHA"));
    assert_eq!(w.available_tags, vec!["Alpha", "beta", "gamma"]);
    w.remove_tag("m", "gamma");
    assert_eq!(w.active.as_ref().unwrap().tags, vec!["x", "ALPHA"]);
    assert_eq!(w.memos[0].0.tags, vec!["x", "ALPHA"]);
}

#[test]
fn deleting_the_open_memo_closes_it() {
    let mut w = workspace();
    assert!(w.delete_succeeded("m"));
    assert!(w.active.is_none());
    assert_eq!(w.memos.len(), 1);
    assert!(!w.delete_succeeded("zzz"));
}

#[test]
fn created_memo_goes_first_and_is_selected() {
    let mut w = workspace();
    let mut created = active("new", 1);
    created.markdown = "# Hello\nworld".to_string();
    w.insert_created(&created);
    assert_eq!(w.memos[0].0.id, "new");
    assert_eq!(w.memos[0].0.excerpt, "Hello world");
    assert_eq!(w.selected_id.as_deref(), Some("new"));
    w.insert_created(&created);
    assert_eq!(w.memos.len(), 3);
}

#[test]
fn conflict_copy_title() {
    let w = workspace();
    let copy = w.conflict_copy();
    assert_eq!(copy.notebook_id, "nb");
    assert!(copy.title.starts_with("Title (Conflict "));
    assert!(copy.title.ends_with(')'));
    assert_eq!(copy.title.len(), "Title (Conflict ".len() + 8 + 1);
    let empty = Workspace::new().conflict_copy();
    assert!(empty.title.starts_with("Memo (Conflict "));
    assert_eq!(empty.notebook_id, "");
}

#[test]
fn opening_prefers_local_drafts_unless_reloading() {
    let mut w = Workspace::new();
    let mut draft = active("m", 2);
    draft.markdown = "draft".to_string();
    draft.sync_state = SyncState::LocalModified;
    let mut server = active("m", 3);
    server.sync_state = SyncState::Conflict;
    w.take_opened(server, false, Some(draft));
    let a = w.active.as_ref().unwrap();
    assert_eq!(a.markdown, "draft");
    assert_eq!(a.revision, 3);
    assert_eq!(a.sync_state, SyncState::LocalModified);
    assert_eq!(w.selected_id.as_deref(), Some("m"));
    let mut server = active("m", 3);
    server.sync_state = SyncState::Conflict;
    w.take_opened(server, true, None);
    assert_eq!(w.active.as_ref().unwrap().sync_state, SyncState::Synced);
    assert!(w.leaves_for("other"));
    assert!(!w.leaves_for("m"));
}

#[test]
fn refresh_decides_about_the_open_memo() {
    let mut w = workspace();
    assert_eq!(w.reload_decision(true), ReloadDecision::Keep);
    w.memos[0].0.revision = 9;
    assert_eq!(w.reload_decision(false), ReloadDecision::Reload { dirty: false });
    w.active.as_mut().unwrap().sync_state = SyncState::LocalModified;
    assert_eq!(w.reload_decision(false), ReloadDecision::RemoteMovedWhileEditing);
    assert_eq!(w.reload_decision(true), ReloadDecision::Reload { dirty: true });
}

#[test]
fn refreshed_list_keeps_local_states() {
    let mut w = workspace();
    let local = vec![
        (summary("o", 1), SyncState::Failed),
        (summary("m", 3), SyncState::LocalDeleted),
    ];
    w.take_refreshed_memos(vec![summary("m", 4), summary("o", 1)], &local);
    assert_eq!(w.memos[0].1, SyncState::Synced);
    assert_eq!(w.memos[1].1, SyncState::Failed);
    assert_eq!(w.memos[0].0.revision, 4);
}

#[test]
fn search_result_shows_its_notebook() {
    let mut w = workspace();
    w.show_search_result("m");
    assert!(matches!(&w.filter, NavFilter::Notebook(n) if n == "nb"));
    let mut w = workspace();
    w.show_search_result("none");
    assert!(matches!(w.filter, NavFilter::All));
}

#[test]
fn save_now_flushes_editor_text() {
    let mut w = workspace();
    let req = w.save_memo_now(Some("typed".to_string())).unwrap();
    assert_eq!(req.markdown, "typed");
    assert_eq!(w.save_generation, 1);
    assert_eq!(w.active.as_ref().unwrap().sync_state, SyncState::LocalModified);
    assert!(Workspace::new().save_memo_now(None).is_none());
}

#[test]
fn pin_request_flips_the_pin_of_the_listed_memo() {
    let mut memos = vec![(summary("m", 3), SyncState::Synced), (summary("o", 1), SyncState::Synced)];
    memos[1].0.is_pinned = true;
    memos[1].0.etag = "e1".to_string();
    let q = pin_request(&memos, "m").unwrap();
    assert!(q.pinned);
    assert_eq!((q.memo_id.as_str(), q.etag.as_str(), q.revision, q.content_hash.as_str()), ("m", "e", 3, "h"));
    let q = pin_request(&memos, "o").unwrap();
    assert!(!q.pinned);
    assert_eq!((q.etag.as_str(), q.revision), ("e1", 1));
    assert!(pin_request(&memos, "zz").is_none());
}

#[test]
fn conflict_copy_takes_the_first_eight_characters_of_the_uuid() {
    let w = workspace();
    let copy = w.conflict_copy_with("1b4e28ba-2fa1-11d2-883f-0016d3cca427");
    assert_eq!(copy.notebook_id, "nb");
    assert_eq!(copy.title, "Title (Conflict 1b4e28ba)");
    let empty = Workspace::new().conflict_copy_with("abcdefgh-rest");
    assert_eq!(empty.title, "Memo (Conflict abcdefgh)");
    assert_eq!(empty.notebook_id, "");
}

#[test]
fn background_refresh_waits_for_saves_and_stops_without_main_view() {
    let mut w = workspace();
    assert_eq!(background_tick(None), RefreshTick::Stop);
    assert_eq!(background_tick(Some(&w)), RefreshTick::Refresh);
    w.save_in_flight = true;
    assert_eq!(background_tick(Some(&w)), RefreshTick::Skip);
}
