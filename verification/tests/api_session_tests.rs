use panda_note::api::{
    http_error, memo_delete_path, memos_path, request_url, status_code_text, sync_pull_path,
    todo_delete_path, todos_path, trim_base_url, urlencoding_lite, ApiError, WireApiError,
};
use panda_note::excerpt::derive_excerpt;
use panda_note::model::{Instance, SyncState, TodoFilter, TodoStatus, Todo};
use panda_note::number::{parse_i64, parse_u64};
use panda_note::session::{InstancesFile, SessionStore};

fn instance(id: &str) -> Instance {
    Instance {
        id: id.to_string(),
        name: format!("server {id}"),
        api_url: "http://h/api/v1".to_string(),
        token: "tok".to_string(),
        device_id: format!("dev-{id}"),
    }
}

#[test]
fn paths_encode_their_queries() {
    assert_eq!(memos_path(None, false, None, 200), "/memos?limit=200&trash=false");
    assert_eq!(
        memos_path(Some("nb"), true, Some("a b/é"), 50),
        "/memos?limit=50&trash=true&notebook_id=nb&q=a%20b%2F%E9"
    );
    assert_eq!(todos_path("all", 999), "/todos?filter=all&limit=200");
    assert_eq!(todos_path("trash", -3), "/todos?filter=trash&limit=1");
    assert_eq!(sync_pull_path(7, 0, "d 1"), "/sync/pull?cursor=7&limit=1&device_id=d%201");
    assert_eq!(memo_delete_path("m", true), "/memos/m?permanent=true");
    assert_eq!(urlencoding_lite("A-z_0.~"), "A-z_0.~");
    assert_eq!(request_url("http://h/api/v1", "/todos"), "http://h/api/v1/todos");
    assert_eq!(trim_base_url("http://h/api/v1//"), "http://h/api/v1");
    assert_eq!(TodoFilter::Upcoming.as_api_value(), "upcoming");
}

#[test]
fn todo_delete_path_carries_guards() {
    let t = Todo {
        id: "t1".to_string(),
        title: String::new(),
        note: String::new(),
        status: TodoStatus::Open,
        due_date: None,
        priority: 0,
        linked_memo_id: None,
        is_deleted: true,
        revision: 12,
        etag: "abc".to_string(),
        created_at: String::new(),
        updated_at: String::new(),
        completed_at: None,
        deleted_at: None,
    };
    assert_eq!(
        todo_delete_path(&t, true),
        "/todos/t1?base_revision=12&if_match_etag=abc&permanent=true"
    );
}

#[test]
fn errors_classify_conflicts() {
    let e = http_error(409, Some(WireApiError {
        code: "revision_conflict".to_string(),
        message: "moved".to_string(),
        current_etag: Some("e9".to_string()),
    }), "409".to_string(), String::new());
    assert!(e.is_conflict() && e.is_revision_conflict() && !e.is_lease_conflict());
    assert_eq!(e.code(), Some("revision_conflict"));
    assert_eq!(e.current_etag(), Some("e9"));
    let e = http_error(500, None, status_code_text(500), "boom".to_string());
    assert!(!e.is_conflict());
    assert_eq!(e.code(), Some("500"));
    let e = http_error(409, None, "409".to_string(), String::new());
    assert!(e.is_conflict() && !e.is_content_conflict());
    let other = ApiError::Other { message: "offline".to_string() };
    assert_eq!(other.code(), None);
    assert!(!other.is_conflict());
}

#[test]
fn sync_state_names_round_trip() {
    for s in [
        SyncState::Synced,
        SyncState::LocalCreated,
        SyncState::LocalModified,
        SyncState::LocalDeleted,
        SyncState::Syncing,
        SyncState::Conflict,
        SyncState::Failed,
    ] {
        assert_eq!(SyncState::parse(s.as_str()), s);
    }
    assert_eq!(SyncState::parse("weird"), SyncState::Synced);
}

#[test]
fn excerpt_strips_markdown_and_caps_length() {
    assert_eq!(derive_excerpt("# Title\n\n> quoted\n- item\n```\ncode\n```", 240), "Title quoted item code");
    assert_eq!(derive_excerpt("abcdef", 3), "abc...");
    assert_eq!(derive_excerpt("   ", 10), "");
}

#[test]
fn numbers_parse_like_std() {
    assert_eq!(parse_u64("+42"), Some(42));
    assert_eq!(parse_u64("18446744073709551616"), None);
    assert_eq!(parse_i64("-9223372036854775808"), Some(i64::MIN));
    assert_eq!(parse_i64("12a"), None);
    assert_eq!(parse_i64(""), None);
}

#[test]
fn session_store_tracks_active_instance() {
    let mut s = SessionStore::new("/tmp/instances.json".to_string(), InstancesFile::default());
    s.upsert(instance("a"));
    s.upsert(instance("b"));
    assert!(s.set_active("b").is_ok());
    assert_eq!(s.active().unwrap().id, "b");
    assert!(s.set_active("zzz").is_err());
    let mut renamed = instance("a");
    renamed.name = "renamed".to_string();
    s.upsert(renamed);
    assert_eq!(s.instances().len(), 2);
    assert_eq!(s.instances()[0].name, "renamed");
    s.remove("b");
    assert_eq!(s.active().unwrap().id, "a");
    assert!(s.update_details("a", "n", "http://x").is_ok());
    assert_eq!(s.instances()[0].api_url, "http://x/api/v1");
    assert_eq!(s.device_id_for("a").as_deref(), Some("dev-a"));
    let added = s.add_via_token("new", " http://y/ ", " t ");
    assert_eq!(added.token, "t");
    assert_eq!(added.api_url, "http://y/api/v1");
    assert_eq!(added.id.len(), 36);
    assert_eq!(s.instances().len(), 2);
}

#[test]
fn login_reuses_the_device_id_of_a_known_instance() {
    let mut s = SessionStore::new("/tmp/instances.json".to_string(), InstancesFile::default());
    s.upsert(instance("a"));
    let req = s.login_request(Some("a"), "Work", " http://z/ ");
    assert_eq!(req.api_url, "http://z/api/v1");
    assert_eq!(req.device_id, "dev-a");
    assert_eq!(req.client_name, "panda-desktop-Work");
    let inst = s.finish_login(Some("a"), "Work", req, "pnda_tok".to_string());
    assert_eq!(inst.id, "a");
    assert_eq!(inst.token, "pnda_tok");
    assert_eq!(inst.device_id, "dev-a");
    assert_eq!(s.instances().len(), 1);
    assert_eq!(s.active().unwrap().name, "Work");

    let fresh = s.login_request(None, "Home", "http://h");
    assert_eq!(fresh.device_id.len(), 36);
    let device = fresh.device_id.clone();
    let added = s.finish_login(None, "Home", fresh, "t2".to_string());
    assert_eq!(added.id.len(), 36);
    assert_eq!(added.device_id, device);
    assert_eq!(s.instances().len(), 2);
    assert_eq!(s.login_request(Some("unknown"), "x", "").device_id.len(), 36);
}
