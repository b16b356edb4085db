//! Domain models of the notes service: notebooks, memos, todos, queued todo
//! operations and configured server instances.

use vstd::prelude::*;
use crate::text::str_eq;

verus! {

/// Where a locally cached memo or todo stands with respect to the server.
#[derive(Clone, Copy, PartialEq, Eq, Structural, Debug)]
pub enum SyncState {
    Synced,
    LocalCreated,
    LocalModified,
    LocalDeleted,
    Syncing,
    Conflict,
    Failed,
}

impl Default for SyncState {
    fn default() -> (r: Self)
        ensures
            r == SyncState::Synced,
    {
        SyncState::Synced
    }
}

/// The wire name of each sync state.
pub open spec fn sync_state_name(s: SyncState) -> Seq<char> {
    match s {
        SyncState::Synced => "synced"@,
        SyncState::LocalCreated => "local_created"@,
        SyncState::LocalModified => "local_modified"@,
        SyncState::LocalDeleted => "local_deleted"@,
        SyncState::Syncing => "syncing"@,
        SyncState::Conflict => "conflict"@,
        SyncState::Failed => "failed"@,
    }
}

/// The sync state a stored name stands for; unknown names read as `Synced`.
pub open spec fn sync_state_from_name(s: Seq<char>) -> SyncState {
    if s == "local_created"@ {
        SyncState::LocalCreated
    } else if s == "local_modified"@ {
        SyncState::LocalModified
    } else if s == "local_deleted"@ {
        SyncState::LocalDeleted
    } else if s == "syncing"@ {
        SyncState::Syncing
    } else if s == "conflict"@ {
        SyncState::Conflict
    } else if s == "failed"@ {
        SyncState::Failed
    } else {
        SyncState::Synced
    }
}

impl SyncState {
    pub fn as_str(self) -> (r: &'static str)
        ensures
            r@ == sync_state_name(self),
    {
        match self {
            SyncState::Synced => "synced",
            SyncState::LocalCreated => "local_created",
            SyncState::LocalModified => "local_modified",
            SyncState::LocalDeleted => "local_deleted",
            SyncState::Syncing => "syncing",
            SyncState::Conflict => "conflict",
            SyncState::Failed => "failed",
        }
    }

    pub fn parse(s: &str) -> (r: Self)
        ensures
            r == sync_state_from_name(s@),
    {
        if str_eq(s, "local_created") {
            SyncState::LocalCreated
        } else if str_eq(s, "local_modified") {
            SyncState::LocalModified
        } else if str_eq(s, "local_deleted") {
            SyncState::LocalDeleted
        } else if str_eq(s, "syncing") {
            SyncState::Syncing
        } else if str_eq(s, "conflict") {
            SyncState::Conflict
        } else if str_eq(s, "failed") {
            SyncState::Failed
        } else {
            SyncState::Synced
        }
    }

    /// Whether the local copy holds changes the server has not acknowledged
    /// (or could not accept), so a server snapshot must not replace it.
    pub open spec fn spec_is_local_pending(self) -> bool {
        matches!(
            self,
            SyncState::LocalModified | SyncState::LocalCreated | SyncState::LocalDeleted
                | SyncState::Failed | SyncState::Conflict
        )
    }

    /// Whether the local copy holds changes the server has not acknowledged.
    pub fn is_local_pending(self) -> (r: bool)
        ensures
            r == self.spec_is_local_pending(),
    {
        match self {
            SyncState::LocalModified | SyncState::LocalCreated | SyncState::LocalDeleted
            | SyncState::Failed | SyncState::Conflict => true,
            _ => false,
        }
    }
}

/// Reading back the name of a state gives the state.
pub proof fn lemma_sync_state_name_round_trip(s: SyncState)
    ensures
        sync_state_from_name(sync_state_name(s)) == s,
{
    reveal_strlit("synced");
    reveal_strlit("local_created");
    reveal_strlit("local_modified");
    reveal_strlit("local_deleted");
    reveal_strlit("syncing");
    reveal_strlit("conflict");
    reveal_strlit("failed");
    let names = seq![
        "local_created"@,
        "local_modified"@,
        "local_deleted"@,
        "syncing"@,
        "conflict"@,
        "failed"@,
        "synced"@,
    ];
    assert(names[0].len() == 13 && names[1].len() == 14 && names[2].len() == 13);
    assert(names[3].len() == 7 && names[4].len() == 8 && names[5].len() == 6);
    assert(names[6].len() == 6);
    assert(names[0][6] != names[2][6]);
    assert(names[5][0] != names[6][0]);
    assert(names[0] != names[2]);
    assert(names[5] != names[6]);
}

/// A folder of memos.
#[derive(Debug)]
pub struct Notebook {
    pub id: String,
    pub parent_id: Option<String>,
    pub name: String,
    pub slug: Option<String>,
    pub path: String,
    pub depth: i32,
    pub sort_order: i32,
    pub memo_count: i64,
    pub is_deleted: bool,
    pub created_at: String,
    pub updated_at: String,
}

impl Clone for Notebook {
    fn clone(&self) -> (r: Self)
        ensures
            r == *self,
    {
        Notebook {
            id: self.id.clone(),
            parent_id: self.parent_id.clone(),
            name: self.name.clone(),
            slug: self.slug.clone(),
            path: self.path.clone(),
            depth: self.depth,
            sort_order: self.sort_order,
            memo_count: self.memo_count,
            is_deleted: self.is_deleted,
            created_at: self.created_at.clone(),
            updated_at: self.updated_at.clone(),
        }
    }
}

/// Copies a list of strings.
pub fn clone_strings(v: &Vec<String>) -> (r: Vec<String>)
    ensures
        r@ == v@,
{
    let r = v.clone();
    assert(r@ =~= v@);
    r
}

/// A memo as listed (no body).
#[derive(Debug)]
pub struct MemoSummary {
    pub id: String,
    pub notebook_id: String,
    pub title: Option<String>,
    pub excerpt: String,
    pub tags: Vec<String>,
    pub is_pinned: bool,
    pub is_archived: bool,
    pub is_deleted: bool,
    pub revision: u64,
    pub content_hash: String,
    pub etag: String,
    pub created_at: String,
    pub updated_at: String,
    pub deleted_at: Option<String>,
}

impl MemoSummary {
    /// Equal field by field, the tag lists by their contents.
    pub open spec fn same_as(self, other: MemoSummary) -> bool {
        &&& self.id == other.id
        &&& self.notebook_id == other.notebook_id
        &&& self.title == other.title
        &&& self.excerpt == other.excerpt
        &&& self.tags@ == other.tags@
        &&& self.is_pinned == other.is_pinned
        &&& self.is_archived == other.is_archived
        &&& self.is_deleted == other.is_deleted
        &&& self.revision == other.revision
        &&& self.content_hash == other.content_hash
        &&& self.etag == other.etag
        &&& self.created_at == other.created_at
        &&& self.updated_at == other.updated_at
        &&& self.deleted_at == other.deleted_at
    }
}

impl Clone for MemoSummary {
    fn clone(&self) -> (r: Self)
        ensures
            r.same_as(*self),
    {
        MemoSummary {
            id: self.id.clone(),
            notebook_id: self.notebook_id.clone(),
            title: self.title.clone(),
            excerpt: self.excerpt.clone(),
            tags: clone_strings(&self.tags),
            is_pinned: self.is_pinned,
            is_archived: self.is_archived,
            is_deleted: self.is_deleted,
            revision: self.revision,
            content_hash: self.content_hash.clone(),
            etag: self.etag.clone(),
            created_at: self.created_at.clone(),
            updated_at: self.updated_at.clone(),
            deleted_at: self.deleted_at.clone(),
        }
    }
}

/// The title shown for a memo: its title, or "Untitled" when it has none or
/// an empty one.
pub open spec fn display_title_of(title: Option<String>) -> Seq<char> {
    match title {
        Some(t) => if t@.len() > 0 { t@ } else { "Untitled"@ },
        None => "Untitled"@,
    }
}

impl MemoSummary {
    pub fn display_title(&self) -> (r: &str)
        ensures
            r@ == display_title_of(self.title),
    {
        match &self.title {
            Some(t) => {
                if t.as_str().is_empty() {
                    "Untitled"
                } else {
                    t.as_str()
                }
            },
            None => "Untitled",
        }
    }
}

/// The memo open in the editor, with its full Markdown body.
#[derive(Debug)]
pub struct ActiveMemo {
    pub id: String,
    pub notebook_id: String,
    pub title: Option<String>,
    pub tags: Vec<String>,
    pub markdown: String,
    pub etag: String,
    pub revision: u64,
    pub content_hash: String,
    pub lease_id: Option<String>,
    pub sync_state: SyncState,
}

impl Clone for ActiveMemo {
    fn clone(&self) -> (r: Self)
        ensures
            r.same_as(*self),
    {
        ActiveMemo {
            id: self.id.clone(),
            notebook_id: self.notebook_id.clone(),
            title: self.title.clone(),
            tags: clone_strings(&self.tags),
            markdown: self.markdown.clone(),
            etag: self.etag.clone(),
            revision: self.revision,
            content_hash: self.content_hash.clone(),
            lease_id: self.lease_id.clone(),
            sync_state: self.sync_state,
        }
    }
}

impl ActiveMemo {
    /// Equal field by field, the tag lists by their contents.
    pub open spec fn same_as(self, other: ActiveMemo) -> bool {
        &&& self.id == other.id
        &&& self.notebook_id == other.notebook_id
        &&& self.title == other.title
        &&& self.tags@ == other.tags@
        &&& self.markdown == other.markdown
        &&& self.etag == other.etag
        &&& self.revision == other.revision
        &&& self.content_hash == other.content_hash
        &&& self.lease_id == other.lease_id
        &&& self.sync_state == other.sync_state
    }

    /// The title shown for the open memo (see [`MemoSummary::display_title`]).
    pub fn display_title(&self) -> (r: &str)
        ensures
            r@ == display_title_of(self.title),
    {
        match &self.title {
            Some(t) => {
                if t.as_str().is_empty() {
                    "Untitled"
                } else {
                    t.as_str()
                }
            },
            None => "Untitled",
        }
    }
}

/// What the memo list is filtered by.
#[derive(Debug)]
pub enum NavFilter {
    All,
    Pinned,
    Trash,
    Notebook(String),
    Tag(String),
}

impl Default for NavFilter {
    fn default() -> (r: Self)
        ensures
            r == NavFilter::All,
    {
        NavFilter::All
    }
}

impl Clone for NavFilter {
    fn clone(&self) -> (r: Self)
        ensures
            r == *self,
    {
        match self {
            NavFilter::All => NavFilter::All,
            NavFilter::Pinned => NavFilter::Pinned,
            NavFilter::Trash => NavFilter::Trash,
            NavFilter::Notebook(id) => NavFilter::Notebook(id.clone()),
            NavFilter::Tag(t) => NavFilter::Tag(t.clone()),
        }
    }
}

/// Where a todo is in its life.
#[derive(Clone, Copy, PartialEq, Eq, Structural, Debug)]
pub enum TodoStatus {
    Inbox,
    Open,
    Completed,
}

impl Default for TodoStatus {
    fn default() -> (r: Self)
        ensures
            r == TodoStatus::Inbox,
    {
        TodoStatus::Inbox
    }
}

/// A task.
#[derive(Debug)]
pub struct Todo {
    pub id: String,
    pub title: String,
    pub note: String,
    pub status: TodoStatus,
    pub due_date: Option<String>,
    pub priority: i64,
    pub linked_memo_id: Option<String>,
    pub is_deleted: bool,
    pub revision: u64,
    pub etag: String,
    pub created_at: String,
    pub updated_at: String,
    pub completed_at: Option<String>,
    pub deleted_at: Option<String>,
}

impl Clone for Todo {
    fn clone(&self) -> (r: Self)
        ensures
            r == *self,
    {
        Todo {
            id: self.id.clone(),
            title: self.title.clone(),
            note: self.note.clone(),
            status: self.status,
            due_date: self.due_date.clone(),
            priority: self.priority,
            linked_memo_id: self.linked_memo_id.clone(),
            is_deleted: self.is_deleted,
            revision: self.revision,
            etag: self.etag.clone(),
            created_at: self.created_at.clone(),
            updated_at: self.updated_at.clone(),
            completed_at: self.completed_at.clone(),
            deleted_at: self.deleted_at.clone(),
        }
    }
}

/// The todo list views.
#[derive(Clone, Copy, PartialEq, Eq, Structural, Debug)]
pub enum TodoFilter {
    All,
    Inbox,
    Today,
    Upcoming,
    Completed,
    Trash,
}

impl Default for TodoFilter {
    fn default() -> (r: Self)
        ensures
            r == TodoFilter::Inbox,
    {
        TodoFilter::Inbox
    }
}

/// The value of the `filter` query parameter for each view.
pub open spec fn todo_filter_api_value(f: TodoFilter) -> Seq<char> {
    match f {
        TodoFilter::All => "all"@,
        TodoFilter::Inbox => "inbox"@,
        TodoFilter::Today => "today"@,
        TodoFilter::Upcoming => "upcoming"@,
        TodoFilter::Completed => "completed"@,
        TodoFilter::Trash => "trash"@,
    }
}

impl TodoFilter {
    pub fn as_api_value(self) -> (r: &'static str)
        ensures
            r@ == todo_filter_api_value(self),
    {
        match self {
            TodoFilter::All => "all",
            TodoFilter::Inbox => "inbox",
            TodoFilter::Today => "today",
            TodoFilter::Upcoming => "upcoming",
            TodoFilter::Completed => "completed",
            TodoFilter::Trash => "trash",
        }
    }
}

/// What a queued todo operation does on the server.
#[derive(Clone, Copy, PartialEq, Eq, Structural, Debug)]
pub enum TodoOperationKind {
    Create,
    Update,
    Complete,
    Restore,
    Delete,
}

/// A todo write queued locally until the server acknowledges it.
#[derive(Debug)]
pub struct TodoOperation {
    pub operation_id: String,
    pub todo_id: String,
    pub kind: TodoOperationKind,
    /// The full todo state to write, as JSON.
    pub payload_json: String,
    pub base_revision: Option<u64>,
    pub if_match_etag: Option<String>,
    /// Id under which the server knows this write (empty: use `operation_id`).
    pub write_id: String,
    /// The write on the same todo that must be acknowledged first.
    pub depends_on_write_id: Option<String>,
    pub attempts: u32,
    pub last_error: Option<String>,
}

impl Clone for TodoOperation {
    fn clone(&self) -> (r: Self)
        ensures
            r == *self,
    {
        TodoOperation {
            operation_id: self.operation_id.clone(),
            todo_id: self.todo_id.clone(),
            kind: self.kind,
            payload_json: self.payload_json.clone(),
            base_revision: self.base_revision,
            if_match_etag: self.if_match_etag.clone(),
            write_id: self.write_id.clone(),
            depends_on_write_id: self.depends_on_write_id.clone(),
            attempts: self.attempts,
            last_error: self.last_error.clone(),
        }
    }
}

/// A configured server.
#[derive(Debug)]
pub struct Instance {
    pub id: String,
    pub name: String,
    pub api_url: String,
    pub token: String,
    pub device_id: String,
}

impl Clone for Instance {
    fn clone(&self) -> (r: Self)
        ensures
            r == *self,
    {
        Instance {
            id: self.id.clone(),
            name: self.name.clone(),
            api_url: self.api_url.clone(),
            token: self.token.clone(),
            device_id: self.device_id.clone(),
        }
    }
}

/// Whether two strings hold the same characters.
pub fn string_eq(a: &String, b: &String) -> (r: bool)
    ensures
        r == (a@ == b@),
{
    a.eq(b)
}

/// Placeholder for older stub links to the local store.
#[derive(Debug, Default)]
pub struct LocalStorePlaceholder;

} // verus!
