use panda_note::memos::{merge_search_results, search_memos_local, visible_memos};
use panda_note::model::{MemoSummary, NavFilter, SyncState};

fn memo(id: &str, notebook: &str, updated: &str) -> MemoSummary {
    MemoSummary {
        id: id.to_string(),
        notebook_id: notebook.to_string(),
        title: Some(format!("Memo {id}")),
        excerpt: String::new(),
        tags: vec![],
        is_pinned: false,
        is_archived: false,
        is_deleted: false,
        revision: 1,
        content_hash: String::new(),
        etag: String::new(),
        created_at: String::new(),
        updated_at: updated.to_string(),
        deleted_at: None,
    }
}

fn ids(items: &[(MemoSummary, SyncState)]) -> Vec<String> {
    items.iter().map(|(m, _)| m.id.clone()).collect()
}

#[test]
fn newest_first_then_by_id() {
    let list = vec![
        (memo("b", "n1", "2024-01-01"), SyncState::Synced),
        (memo("c", "n1", "2024-03-01"), SyncState::Synced),
        (memo("a", "n1", "2024-01-01"), SyncState::LocalModified),
    ];
    let shown = visible_memos(&list, &NavFilter::All);
    assert_eq!(ids(&shown), vec!["c", "a", "b"]);
    assert_eq!(shown[1].1, SyncState::LocalModified);
}

#[test]
fn filters_pick_their_memos() {
    let mut pinned = memo("p", "n1", "1");
    pinned.is_pinned = true;
    let mut trashed = memo("t", "n1", "2");
    trashed.is_deleted = true;
    let mut tagged = memo("g", "n2", "3");
    tagged.tags = vec!["Work".to_string()];
    let list: Vec<(MemoSummary, SyncState)> = vec![pinned, trashed, tagged]
        .into_iter()
        .map(|m| (m, SyncState::Synced))
        .collect();
    assert_eq!(ids(&visible_memos(&list, &NavFilter::Pinned)), vec!["p"]);
    assert_eq!(ids(&visible_memos(&list, &NavFilter::Trash)), vec!["t"]);
    assert_eq!(ids(&visible_memos(&list, &NavFilter::Tag("work".to_string()))), vec!["g"]);
    assert_eq!(ids(&visible_memos(&list, &NavFilter::Notebook("n1".to_string()))), vec!["p"]);
    assert_eq!(ids(&visible_memos(&list, &NavFilter::All)), vec!["g", "p"]);
}

#[test]
fn local_search_matches_title_excerpt_and_tags_ignoring_case() {
    let mut a = memo("a", "n", "1");
    a.title = Some("Grocery LIST".to_string());
    let mut b = memo("b", "n", "1");
    b.excerpt = "buy a list of things".to_string();
    let mut c = memo("c", "n", "1");
    c.tags = vec!["Listing".to_string()];
    let mut d = memo("d", "n", "1");
    d.title = Some("list in trash".to_string());
    d.is_deleted = true;
    let e = memo("e", "n", "1");
    let list: Vec<(MemoSummary, SyncState)> =
        vec![a, b, c, d, e].into_iter().map(|m| (m, SyncState::Synced)).collect();
    assert_eq!(ids(&search_memos_local(&list, "  List ")), vec!["a", "b", "c"]);
    assert!(search_memos_local(&list, "   ").is_empty());
}

#[test]
fn local_search_is_capped() {
    let list: Vec<(MemoSummary, SyncState)> = (0..250)
        .map(|i| (memo(&format!("m{i}"), "n", "1"), SyncState::Synced))
        .collect();
    let hits = search_memos_local(&list, "memo");
    assert_eq!(hits.len(), 200);
    assert_eq!(hits[199].0.id, "m199");
}

#[test]
fn merged_search_keeps_local_first_without_duplicates() {
    let local = vec![(memo("a", "n", "1"), SyncState::LocalModified)];
    let remote = vec![memo("b", "n", "1"), memo("a", "n", "1"), memo("b", "n", "1"), memo("c", "n", "1")];
    let merged = merge_search_results(local, remote);
    assert_eq!(ids(&merged), vec!["a", "b", "c"]);
    assert_eq!(merged[0].1, SyncState::LocalModified);
    assert_eq!(merged[1].1, SyncState::Synced);
}
