//! The memo workspace: the listed memos, the memo open in the editor and the
//! save cycle that carries its edits to the server.
//!
//! Edits are debounced: each edit bumps a generation, and only the save
//! timer of the latest generation flushes. One save is in flight at a time;
//! an edit made meanwhile marks a save as pending, and the answer to the
//! save in flight triggers it. The server's acknowledgement is taken in only
//! when it does not move a revision back. The caller runs the timers, the
//! requests and the cache writes, and hands the outcomes back.

use vstd::prelude::*;
use crate::api::{ApiError, MemoSaveAck};
use crate::excerpt::{derive_excerpt, excerpt_of};

use crate::model::{ActiveMemo, MemoSummary, NavFilter, SyncState, clone_strings, display_title_of};

use crate::session::new_uuid_string;
use crate::text::{ascii_lowercase, chars_of, concat, seq_ascii_lower, slice, str_eq, string_of, trim, trim_chars};
use crate::memos::{contains_tag_nocase, has_tag_nocase};
use crate::order::{insert_by_keys, sorted_by_keys, views};

verus! {

/// The state of the memo workspace.
#[derive(Debug)]
pub struct Workspace {
    /// The listed memos with their sync states.
    pub memos: Vec<(MemoSummary, SyncState)>,
    /// The memo open in the editor.
    pub active: Option<ActiveMemo>,
    /// The known tags, for suggestions.
    pub available_tags: Vec<String>,
    /// The memo selected in the list.
    pub selected_id: Option<String>,
    /// What the memo list shows.
    pub filter: NavFilter,
    /// Bumped by every edit; a save timer flushes only if it is still current.
    pub save_generation: u64,
    /// Bumped by every edit; a draft timer writes only if it is still current.
    pub draft_generation: u64,
    /// A save request is out.
    pub save_in_flight: bool,
    /// An edit arrived while a save was out.
    pub save_pending: bool,
}

/// `i` is the first listed memo `id`.
pub open spec fn first_memo_index(memos: Seq<(MemoSummary, SyncState)>, id: Seq<char>, i: int) -> bool {
    &&& 0 <= i < memos.len()
    &&& memos[i].0.id@ == id
    &&& forall|j: int| 0 <= j < i ==> (#[trigger] memos[j]).0.id@ != id
}

/// The memo `id` is listed.
pub open spec fn lists_memo(memos: Seq<(MemoSummary, SyncState)>, id: Seq<char>) -> bool {
    exists|i: int| 0 <= i < memos.len() && (#[trigger] memos[i]).0.id@ == id
}

/// The open memo is `id`.
pub open spec fn is_open(active: Option<ActiveMemo>, id: Seq<char>) -> bool {
    active matches Some(a) && a.id@ == id
}

/// The position of the first listed memo `id`.
pub fn find_memo(memos: &Vec<(MemoSummary, SyncState)>, id: &str) -> (r: Option<usize>)
    ensures
        match r {
            Some(i) => first_memo_index(memos@, id@, i as int),
            None => !lists_memo(memos@, id@),
        },
{
    let mut i: usize = 0;
    while i < memos.len()
        invariant
            i <= memos.len(),
            forall|j: int| 0 <= j < i ==> (#[trigger] memos@[j]).0.id@ != id@,
        decreases memos.len() - i,
    {
        if str_eq(memos[i].0.id.as_str(), id) {
            return Some(i);
        }
        i += 1;
    }
    None
}

/// What toggling a memo's pin sends: the new pin state, guarded by the
/// version of the memo it applies to.
#[derive(Debug)]
pub struct PinRequest {
    pub memo_id: String,
    pub pinned: bool,
    pub etag: String,
    pub revision: u64,
    pub content_hash: String,
}

/// `q` toggles the pin of the listed memo `m`.
pub open spec fn pins(q: PinRequest, m: MemoSummary) -> bool {
    &&& q.memo_id@ == m.id@
    &&& q.pinned == !m.is_pinned
    &&& q.etag@ == m.etag@
    &&& q.revision == m.revision
    &&& q.content_hash@ == m.content_hash@
}

/// The request that toggles the pin of the listed memo `memo_id`: the
/// opposite of its pin state, with its etag, revision and content hash;
/// none when the memo is not listed.
pub fn pin_request(memos: &Vec<(MemoSummary, SyncState)>, memo_id: &str) -> (r: Option<PinRequest>)
    ensures
        match r {
            Some(q) => exists|i: int| first_memo_index(memos@, memo_id@, i) && pins(q, #[trigger] memos@[i].0),
            None => !lists_memo(memos@, memo_id@),
        },
{
    match find_memo(memos, memo_id) {
        None => None,
        Some(i) => {
            let m = &memos[i].0;
            let q = PinRequest {
                memo_id: m.id.as_str().to_owned(),
                pinned: !m.is_pinned,
                etag: m.etag.as_str().to_owned(),
                revision: m.revision,
                content_hash: m.content_hash.as_str().to_owned(),
            };
            assert(pins(q, memos@[i as int].0));
            Some(q)
        },
    }
}

/// Whether the open memo is `id`.
pub fn open_is(active: &Option<ActiveMemo>, id: &str) -> (r: bool)
    ensures
        r == is_open(*active, id@),
{
    match active {
        Some(a) => str_eq(a.id.as_str(), id),
        None => false,
    }
}

/// A copy of an optional text.
pub fn clone_text(t: &Option<String>) -> (r: Option<String>)
    ensures
        r == *t,
{
    match t {
        Some(s) => Some(s.clone()),
        None => None,
    }
}

/// What an edit of the open memo sets off.
#[derive(Debug, Clone, Copy, PartialEq, Eq, Structural)]
pub enum SaveSchedule {
    /// The edit was not for the open memo: nothing changed.
    Ignored,
    /// A save is out: this edit is saved after it. Write the draft when the
    /// draft timer of `draft_generation` fires; `notify` when the memo's
    /// sync indicator changed.
    Deferred { draft_generation: u64, notify: bool },
    /// Start the save timer of `save_generation` and the draft timer of
    /// `draft_generation`.
    Scheduled { save_generation: u64, draft_generation: u64, notify: bool },
}

/// A save request for the open memo.
#[derive(Debug)]
pub struct SaveRequest {
    pub id: String,
    pub markdown: String,
    pub etag: String,
    pub revision: u64,
    pub content_hash: String,
    pub lease_id: Option<String>,
    pub title: Option<String>,
    pub tags: Vec<String>,
}

/// An edit of the memo `memo_id`, whose editor now holds `text`, taken into
/// `w0` gives `w1` and `r`. For the open memo: its text becomes `text` and it
/// is marked modified locally, as is its list entry (which also takes its
/// title); both generations move on. With a save out, a save is marked
/// pending; else the save timer is to be started. An edit of another memo
/// changes nothing.
pub open spec fn edit_taken(w0: Workspace, w1: Workspace, memo_id: Seq<char>, text: String, r: SaveSchedule) -> bool {
    if !is_open(w0.active, memo_id) {
        r == SaveSchedule::Ignored && w1 == w0
    } else {
        let a = w0.active->0;
        let notify = a.sync_state != SyncState::LocalModified;
        &&& w1.active == Some(ActiveMemo { markdown: text, sync_state: SyncState::LocalModified, ..a })
        &&& w1.save_generation == w0.save_generation + 1
        &&& w1.draft_generation == w0.draft_generation + 1
        &&& w1.save_in_flight == w0.save_in_flight
        &&& w1.save_pending == (w0.save_pending || w0.save_in_flight)
        &&& w1.available_tags == w0.available_tags
        &&& w1.selected_id == w0.selected_id
        &&& w1.filter == w0.filter
        &&& forall|i: int|
            first_memo_index(w0.memos@, memo_id, i) ==> w1.memos@ == w0.memos@.update(
                i,
                (MemoSummary { title: a.title, ..w0.memos@[i].0 }, SyncState::LocalModified),
            )
        &&& !lists_memo(w0.memos@, memo_id) ==> w1.memos == w0.memos
        &&& r == if w0.save_in_flight {
            SaveSchedule::Deferred { draft_generation: w1.draft_generation, notify }
        } else {
            SaveSchedule::Scheduled {
                save_generation: w1.save_generation,
                draft_generation: w1.draft_generation,
                notify,
            }
        }
    }
}

/// A flush of the memo `memo_id` takes `w0` to `w1` and gives `r`. With a
/// save out (and this no retry of it) a save is marked pending instead.
/// Else, for the open memo, the save request of its editor text
/// (`editor_text`, or its own text without an editor) with its etag,
/// revision, content hash, lease, title and tags goes out; for another memo
/// nothing happens.
pub open spec fn flushed(
    w0: Workspace,
    w1: Workspace,
    memo_id: Seq<char>,
    is_retry: bool,
    editor_text: Option<String>,
    r: Option<SaveRequest>,
) -> bool {
    if w0.save_in_flight && !is_retry {
        r is None && w1 == Workspace { save_pending: true, ..w0 }
    } else if !is_open(w0.active, memo_id) {
        r is None && w1 == w0
    } else {
        let a = w0.active->0;
        &&& w1 == Workspace { save_in_flight: true, save_pending: false, ..w0 }
        &&& r matches Some(req)
        &&& req.id == a.id
        &&& req.markdown == match editor_text {
            Some(t) => t,
            None => a.markdown,
        }
        &&& req.etag == a.etag
        &&& req.revision == a.revision
        &&& req.content_hash == a.content_hash
        &&& req.lease_id == a.lease_id
        &&& req.title == a.title
        &&& req.tags@ == a.tags@
    }
}

/// The acknowledgement `ack` is new for the open memo: it is `id` and the
/// acknowledged revision is not behind its own.
pub open spec fn ack_fits_open(active: Option<ActiveMemo>, id: Seq<char>, ack: MemoSaveAck) -> bool {
    active matches Some(a) && a.id@ == id && ack.revision >= a.revision
}

/// The acknowledgement `ack` is new for some listed memo `id`.
pub open spec fn ack_fits_listed(memos: Seq<(MemoSummary, SyncState)>, id: Seq<char>, ack: MemoSaveAck) -> bool {
    exists|i: int|
        0 <= i < memos.len() && (#[trigger] memos[i]).0.id@ == id && ack.revision >= memos[i].0.revision
}

/// The acknowledgement `ack` of the save of `markdown` as `id` takes `w0` to
/// `w1`; `r` tells whether it was taken (and the cache is to record the memo
/// as synced). An acknowledgement that is behind both the open memo and
/// every listed entry of `id` changes nothing. Else the open memo, when it
/// is `id` and not ahead of the acknowledgement, takes the acknowledged
/// etag, revision, content hash and lease and the saved text, and is synced;
/// the first listed entry of `id`, when not ahead, takes the acknowledged
/// etag, revision, content hash and save time, the excerpt of the saved
/// text and (when it is the open memo) the open memo's title, and is synced.
pub open spec fn ack_taken(w0: Workspace, w1: Workspace, id: Seq<char>, ack: MemoSaveAck, markdown: Seq<char>, r: bool) -> bool {
    if !ack_fits_open(w0.active, id, ack) && !ack_fits_listed(w0.memos@, id, ack) {
        !r && w1 == w0
    } else {
        &&& r
        &&& w1.available_tags == w0.available_tags
        &&& w1.selected_id == w0.selected_id
        &&& w1.filter == w0.filter
        &&& w1.save_generation == w0.save_generation
        &&& w1.draft_generation == w0.draft_generation
        &&& w1.save_in_flight == w0.save_in_flight
        &&& w1.save_pending == w0.save_pending
        &&& if ack_fits_open(w0.active, id, ack) {
            let a = w0.active->0;
            w1.active matches Some(b) && b.markdown@ == markdown && b == ActiveMemo {
                etag: ack.etag,
                revision: ack.revision,
                content_hash: ack.content_hash,
                lease_id: ack.lease_id,
                sync_state: SyncState::Synced,
                markdown: b.markdown,
                ..a
            }
        } else {
            w1.active == w0.active
        }
        &&& forall|i: int|
            first_memo_index(w0.memos@, id, i) ==> {
                let m = w0.memos@[i].0;
                if ack.revision >= m.revision {
                    w1.memos@.len() == w0.memos@.len() && (forall|j: int|
                        0 <= j < w0.memos@.len() && j != i ==> w1.memos@[j] == w0.memos@[j])
                        && w1.memos@[i].1 == SyncState::Synced && w1.memos@[i].0.excerpt@
                        == excerpt_of(markdown, 240) && w1.memos@[i].0 == MemoSummary {
                        etag: ack.etag,
                        revision: ack.revision,
                        content_hash: ack.content_hash,
                        updated_at: ack.saved_at,
                        excerpt: w1.memos@[i].0.excerpt,
                        title: if is_open(w1.active, id) {
                            w1.active->0.title
                        } else {
                            m.title
                        },
                        ..m
                    }
                } else {
                    w1.memos == w0.memos
                }
            }
        &&& !lists_memo(w0.memos@, id) ==> w1.memos == w0.memos
    }
}

/// The open memo marked `st` when it is `id`.
pub open spec fn open_marked(active: Option<ActiveMemo>, id: Seq<char>, st: SyncState) -> Option<ActiveMemo> {
    if is_open(active, id) {
        Some(ActiveMemo { sync_state: st, ..active->0 })
    } else {
        active
    }
}

/// What the answer to a save calls for.
#[derive(Debug, Clone, Copy, PartialEq, Eq, Structural)]
pub enum SaveOutcome {
    /// Acknowledged. `applied`: the acknowledgement was taken in (record the
    /// memo as synced in the cache). `flush_again`: another save of the memo
    /// must go out now.
    Saved { applied: bool, flush_again: bool },
    /// The edit lease expired: the memo is marked failed and must be reopened.
    LeaseExpired,
    /// The server holds another version: the memo is marked in conflict and
    /// its text is to be kept as a conflict copy. `revision`: the server
    /// reported a revision conflict.
    Conflict { revision: bool },
    /// The save failed: the text is to be stored as a failed draft. `retry`:
    /// a pending save must go out now.
    Failed { retry: bool },
}

/// The answer `result` to the save of `markdown` as `id` takes `w0` to `w1`
/// and calls for `r`. The save is no longer out. An acknowledgement is taken
/// in as [`ack_taken`] says, and a save follows when one was pending or the
/// open memo `id` is still not synced. A lease conflict marks the open memo
/// failed; a revision conflict, or any other conflict, marks it in conflict;
/// any other error marks it failed and lets a pending save go.
pub open spec fn save_answered(
    w0: Workspace,
    w1: Workspace,
    id: Seq<char>,
    result: Result<MemoSaveAck, ApiError>,
    markdown: Seq<char>,
    r: SaveOutcome,
) -> bool {
    let w = Workspace { save_in_flight: false, ..w0 };
    match result {
        Ok(ack) => exists|w2: Workspace, applied: bool|
            #[trigger] ack_taken(w, w2, id, ack, markdown, applied) && {
                let again = w2.save_pending || (is_open(w2.active, id) && w2.active->0.sync_state
                    != SyncState::Synced);
                &&& r == SaveOutcome::Saved { applied, flush_again: again }
                &&& w1 == if again {
                    Workspace { save_pending: false, ..w2 }
                } else {
                    w2
                }
            },
        Err(e) => if e.spec_is_conflict_code("lease_conflict"@) {
            r == SaveOutcome::LeaseExpired && w1 == Workspace {
                active: open_marked(w.active, id, SyncState::Failed),
                ..w
            }
        } else if e.spec_is_conflict_code("revision_conflict"@) || e.spec_is_conflict() {
            r == SaveOutcome::Conflict {
                revision: e.spec_is_conflict_code("revision_conflict"@),
            } && w1 == Workspace { active: open_marked(w.active, id, SyncState::Conflict), ..w }
        } else {
            r == SaveOutcome::Failed { retry: w0.save_pending } && w1 == Workspace {
                active: open_marked(w.active, id, SyncState::Failed),
                save_pending: false,
                ..w
            }
        },
    }
}

/// The view of an optional text.
pub open spec fn opt_view(o: Option<String>) -> Option<Seq<char>> {
    match o {
        Some(s) => Some(s@),
        None => None,
    }
}

/// The title a title field holds: the field trimmed, none when empty.
pub open spec fn title_from_field(text: Seq<char>) -> Option<Seq<char>> {
    if trim(text).len() == 0 {
        None
    } else {
        Some(trim(text))
    }
}

/// `w1` is `w0` with the memo `id` retitled `title` where it is open and
/// in its first list entry, and nothing else changed.
pub open spec fn retitled(w0: Workspace, w1: Workspace, id: Seq<char>, title: Option<String>) -> bool {
    &&& w1.active == if is_open(w0.active, id) {
        Some(ActiveMemo { title, ..w0.active->0 })
    } else {
        w0.active
    }
    &&& forall|i: int|
        first_memo_index(w0.memos@, id, i) ==> w1.memos@ == w0.memos@.update(
            i,
            (MemoSummary { title, ..w0.memos@[i].0 }, w0.memos@[i].1),
        )
    &&& !lists_memo(w0.memos@, id) ==> w1.memos == w0.memos
    &&& w1.available_tags == w0.available_tags
    &&& w1.selected_id == w0.selected_id
    &&& w1.filter == w0.filter
    &&& w1.save_generation == w0.save_generation
    &&& w1.draft_generation == w0.draft_generation
    &&& w1.save_in_flight == w0.save_in_flight
    &&& w1.save_pending == w0.save_pending
}

/// What is being renamed.
#[derive(Debug)]
pub enum RenameTarget {
    Memo(String),
    Notebook(String),
}

/// What a confirmed rename calls for.
#[derive(Debug)]
pub enum RenameAction {
    /// The new name is blank: nothing to do.
    Nothing,
    /// Ask the server to rename the notebook.
    RenameNotebook { id: String, name: String },
    /// The open memo was retitled: schedule its save.
    ScheduleSave { id: String },
    /// A memo that is not open was retitled: save its new title on the
    /// server.
    SaveTitle { id: String, title: String },
}

/// The tags of `tags` other than `tag`, in order.
pub open spec fn without_tag(tags: Seq<String>, tag: Seq<char>) -> Seq<String>
    decreases tags.len(),
{
    if tags.len() == 0 {
        tags
    } else {
        let rest = without_tag(tags.drop_last(), tag);
        if tags.last()@ != tag {
            rest.push(tags.last())
        } else {
            rest
        }
    }
}

/// The entries of `memos` other than those of the memo `id`, in order.
pub open spec fn without_memo(memos: Seq<(MemoSummary, SyncState)>, id: Seq<char>) -> Seq<(MemoSummary, SyncState)>
    decreases memos.len(),
{
    if memos.len() == 0 {
        memos
    } else {
        let rest = without_memo(memos.drop_last(), id);
        if memos.last().0.id@ != id {
            rest.push(memos.last())
        } else {
            rest
        }
    }
}

/// A rename of `target` to the text `text` takes `w0` to `w1` and calls
/// for `r`: see [`Workspace::confirm_rename`].
pub open spec fn rename_done(w0: Workspace, w1: Workspace, target: RenameTarget, text: Seq<char>, r: RenameAction) -> bool {
    if trim(text).len() == 0 {
        r is Nothing && w1 == w0
    } else {
        match target {
            RenameTarget::Notebook(id) => {
                &&& w1 == w0
                &&& r matches RenameAction::RenameNotebook { id: i, name }
                &&& i == id
                &&& name@ == trim(text)
            },
            RenameTarget::Memo(id) => {
                &&& exists|t: String| t@ == trim(text) && #[trigger] retitled(w0, w1, id@, Some(t))
                &&& if is_open(w0.active, id@) {
                    r matches RenameAction::ScheduleSave { id: i } && i == id
                } else {
                    &&& r matches RenameAction::SaveTitle { id: i, title }
                    &&& i == id
                    &&& title@ == trim(text)
                }
            },
        }
    }
}

/// The ASCII-lower-cased tags, by position.
pub open spec fn lower_keys(tags: Seq<String>) -> Seq<Seq<char>> {
    Seq::new(tags.len(), |i: int| seq_ascii_lower(tags[i]@))
}

/// `out` is `src` sorted by the tags' ASCII-lower-cased text, tags equal that
/// way keeping their order (a stable sort).
pub open spec fn is_tag_sort(src: Seq<String>, out: Seq<String>) -> bool {
    exists|idx: Seq<usize>|
        #[trigger] sorted_by_keys(lower_keys(src), lower_keys(src), false, idx) && idx.len() == src.len()
            && out.len() == src.len() && (forall|k: int| 0 <= k < idx.len() ==> (#[trigger] idx[k]) < src.len())
            && (forall|k: int| 0 <= k < idx.len() ==> #[trigger] out[k] == src[idx[k] as int])
}

/// Adding the tag field text `tag` to the open memo takes `w0` to `w1` and
/// answers `r`. The tag is the text trimmed. Nothing changes, and the answer
/// is `false`, when it is blank, no memo is open, or the memo already has
/// the tag (ignoring ASCII case). Else the tag is appended to the open
/// memo's tags, its first list entry takes those tags, a tag not yet known
/// (ignoring ASCII case) joins the known tags, which are then sorted by
/// their ASCII-lower-cased text; the answer is `true` (its save is to be
/// scheduled).
pub open spec fn tag_added(w0: Workspace, w1: Workspace, tag: Seq<char>, r: bool) -> bool {
    let t = trim(tag);
    if t.len() == 0 || w0.active is None || has_tag_nocase(w0.active->0.tags@, t) {
        !r && w1 == w0
    } else {
        let a = w0.active->0;
        &&& r
        &&& w1.active matches Some(b)
        &&& b.tags@.len() == a.tags@.len() + 1
        &&& b.tags@.drop_last() == a.tags@
        &&& b.tags@.last()@ == t
        &&& b == ActiveMemo { tags: b.tags, ..a }
        &&& forall|i: int|
            first_memo_index(w0.memos@, a.id@, i) ==> w1.memos@.len() == w0.memos@.len() && (forall|j: int|
                0 <= j < w0.memos@.len() && j != i ==> w1.memos@[j] == w0.memos@[j]) && w1.memos@[i].1
                == w0.memos@[i].1 && w1.memos@[i].0.tags@ == b.tags@ && w1.memos@[i].0 == MemoSummary {
                tags: w1.memos@[i].0.tags,
                ..w0.memos@[i].0
            }
        &&& !lists_memo(w0.memos@, a.id@) ==> w1.memos == w0.memos
        &&& if has_tag_nocase(w0.available_tags@, t) {
            w1.available_tags == w0.available_tags
        } else {
            exists|n: String| n@ == t && is_tag_sort(w0.available_tags@.push(n), w1.available_tags@)
        }
        &&& w1.selected_id == w0.selected_id
        &&& w1.filter == w0.filter
        &&& w1.save_generation == w0.save_generation
        &&& w1.draft_generation == w0.draft_generation
        &&& w1.save_in_flight == w0.save_in_flight
        &&& w1.save_pending == w0.save_pending
    }
}

/// The memo `id` is selected.
pub open spec fn is_selected(selected: Option<String>, id: Seq<char>) -> bool {
    selected matches Some(s) && s@ == id
}

/// `m` is the list entry of the just created memo `a`: its id, notebook,
/// title, tags, revision, content hash and etag, the excerpt of its text,
/// not pinned, archived or deleted, and no times yet.
pub open spec fn created_summary(a: ActiveMemo, m: MemoSummary) -> bool {
    &&& m.id == a.id
    &&& m.notebook_id == a.notebook_id
    &&& m.title == a.title
    &&& m.excerpt@ == excerpt_of(a.markdown@, 240)
    &&& m.tags@ == a.tags@
    &&& !m.is_pinned
    &&& !m.is_archived
    &&& !m.is_deleted
    &&& m.revision == a.revision
    &&& m.content_hash == a.content_hash
    &&& m.etag == a.etag
    &&& m.created_at@.len() == 0
    &&& m.updated_at@.len() == 0
    &&& m.deleted_at is None
}

/// The memo as opened: `opened` as the server sent it, except that a reload
/// preferring the server marks it synced, and otherwise a local draft that
/// is modified or failed keeps its text and state.
pub open spec fn resolved_memo(opened: ActiveMemo, prefer_remote: bool, local: Option<ActiveMemo>) -> ActiveMemo {
    if prefer_remote {
        ActiveMemo { sync_state: SyncState::Synced, ..opened }
    } else {
        match local {
            Some(l) => if l.sync_state == SyncState::LocalModified || l.sync_state == SyncState::Failed {
                ActiveMemo { markdown: l.markdown, sync_state: l.sync_state, ..opened }
            } else {
                opened
            },
            None => opened,
        }
    }
}

/// What a refresh means for the open memo.
#[derive(Debug, Clone, Copy, PartialEq, Eq, Structural)]
pub enum ReloadDecision {
    /// Nothing to do.
    Keep,
    /// The server moved on while the memo holds unsaved edits: tell the user,
    /// reload nothing.
    RemoteMovedWhileEditing,
    /// Reload the memo from the server; `dirty`: keep its local text as a
    /// conflict copy first.
    Reload { dirty: bool },
}

/// The listed entry `s` is ahead of the open memo `a`: a later revision,
/// another etag or another content hash.
pub open spec fn remote_newer(s: MemoSummary, a: ActiveMemo) -> bool {
    s.revision > a.revision || s.etag@ != a.etag@ || s.content_hash@ != a.content_hash@
}

/// The open memo holds edits not yet saved.
pub open spec fn is_dirty(a: ActiveMemo) -> bool {
    a.sync_state == SyncState::LocalModified || a.sync_state == SyncState::LocalCreated
}

/// What a refresh means for the open memo of `w`: nothing unless the first
/// listed entry of it is ahead of it. Then a memo with unsaved edits is left
/// alone on a quiet background refresh (`reconcile_dirty` false), and is
/// otherwise reloaded.
pub open spec fn reload_spec(w: Workspace, reconcile_dirty: bool) -> ReloadDecision {
    match w.active {
        None => ReloadDecision::Keep,
        Some(a) => if exists|i: int|
            #[trigger] first_memo_index(w.memos@, a.id@, i) && remote_newer(w.memos@[i].0, a) {
            if is_dirty(a) && !reconcile_dirty {
                ReloadDecision::RemoteMovedWhileEditing
            } else {
                ReloadDecision::Reload { dirty: is_dirty(a) }
            }
        } else {
            ReloadDecision::Keep
        },
    }
}

/// A local cache state that overrides the server's list state.
pub open spec fn overrides_list_state(st: SyncState) -> bool {
    st == SyncState::LocalModified || st == SyncState::LocalCreated || st == SyncState::Failed
        || st == SyncState::Conflict
}

/// The list `memos` after the first `n` cached entries of `local` are laid
/// over it: each cached entry whose state overrides the list state gives
/// that state to the first listed entry of its memo.
pub open spec fn overlay_prefix(
    memos: Seq<(MemoSummary, SyncState)>,
    local: Seq<(MemoSummary, SyncState)>,
    n: nat,
) -> Seq<(MemoSummary, SyncState)>
    decreases n,
{
    if n == 0 {
        memos
    } else {
        let prev = overlay_prefix(memos, local, (n - 1) as nat);
        let l = local[n - 1];
        if overrides_list_state(l.1) && exists|i: int| #[trigger] first_memo_index(prev, l.0.id@, i) {
            let i = choose|i: int| #[trigger] first_memo_index(prev, l.0.id@, i);
            prev.update(i, (prev[i].0, l.1))
        } else {
            prev
        }
    }
}

/// The server's list, every entry synced.
pub open spec fn all_synced(remote: Seq<MemoSummary>) -> Seq<(MemoSummary, SyncState)> {
    Seq::new(remote.len(), |i: int| (remote[i], SyncState::Synced))
}

/// The text of a conflict copy of the open memo `a` (or of "Memo" with no
/// memo open) with the random `suffix`.
pub open spec fn conflict_title(active: Option<ActiveMemo>, suffix: Seq<char>) -> Seq<char> {
    let base = match active {
        Some(a) => display_title_of(a.title),
        None => "Memo"@,
    };
    base + " (Conflict "@ + suffix + ")"@
}

/// Where and under what title the local text is kept as a conflict copy.
#[derive(Debug)]
pub struct ConflictCopy {
    pub notebook_id: String,
    pub title: String,
}

/// Removing the tag `tag` from the memo `id` takes `w0` to `w1`: the open
/// memo, when it is `id`, and the first list entry of `id` keep their other
/// tags in order; nothing else changes.
pub open spec fn tag_removed(w0: Workspace, w1: Workspace, id: Seq<char>, tag: Seq<char>) -> bool {
    &&& if is_open(w0.active, id) {
        &&& w1.active matches Some(b)
        &&& b.tags@ == without_tag(w0.active->0.tags@, tag)
        &&& b == ActiveMemo { tags: b.tags, ..w0.active->0 }
    } else {
        w1.active == w0.active
    }
    &&& forall|i: int|
        first_memo_index(w0.memos@, id, i) ==> {
            &&& w1.memos@.len() == w0.memos@.len()
            &&& w1.memos@[i].0.tags@ == without_tag(w0.memos@[i].0.tags@, tag)
            &&& w1.memos@[i].0 == MemoSummary { tags: w1.memos@[i].0.tags, ..w0.memos@[i].0 }
            &&& w1.memos@[i].1 == w0.memos@[i].1
            &&& forall|j: int| 0 <= j < w0.memos@.len() && j != i ==> w1.memos@[j] == w0.memos@[j]
        }
    &&& !lists_memo(w0.memos@, id) ==> w1.memos == w0.memos
    &&& w1.available_tags == w0.available_tags
    &&& w1.selected_id == w0.selected_id
    &&& w1.filter == w0.filter
    &&& w1.save_generation == w0.save_generation
    &&& w1.draft_generation == w0.draft_generation
    &&& w1.save_in_flight == w0.save_in_flight
    &&& w1.save_pending == w0.save_pending
}

/// `w0` once the open memo takes the editor text `editor_text` (when there
/// is an editor) as a local modification, with the save generation moved
/// on: the step before an immediate save.
pub open spec fn prepared_for_save(w0: Workspace, editor_text: Option<String>) -> Workspace {
    Workspace {
        active: match editor_text {
            Some(t) => Some(
                ActiveMemo { markdown: t, sync_state: SyncState::LocalModified, ..w0.active->0 },
            ),
            None => w0.active,
        },
        save_generation: (w0.save_generation + 1) as u64,
        ..w0
    }
}

/// What the periodic background refresh does on one tick.
#[derive(Debug, Clone, Copy, PartialEq, Eq, Structural)]
pub enum RefreshTick {
    /// The main view is gone: the timer stops.
    Stop,
    /// A save is out: this tick does nothing and the timer goes on.
    Skip,
    /// Refresh quietly (without reconciling local edits) and go on.
    Refresh,
}

/// The tick of the background refresh for the main view's workspace `main`
/// (none once the main view is gone): stop without one, skip while a save
/// is in flight, refresh otherwise.
pub fn background_tick(main: Option<&Workspace>) -> (r: RefreshTick)
    ensures
        r == match main {
            None => RefreshTick::Stop,
            Some(w) => if w.save_in_flight {
                RefreshTick::Skip
            } else {
                RefreshTick::Refresh
            },
        },
{
    match main {
        None => RefreshTick::Stop,
        Some(w) => if w.save_in_flight {
            RefreshTick::Skip
        } else {
            RefreshTick::Refresh
        },
    }
}

impl Workspace {
    /// A workspace with nothing listed or open, showing all memos.
    pub fn new() -> (r: Self)
        ensures
            r.memos@.len() == 0,
            r.active is None,
            r.available_tags@.len() == 0,
            r.selected_id is None,
            r.filter == NavFilter::All,
            r.save_generation == 0,
            r.draft_generation == 0,
            !r.save_in_flight,
            !r.save_pending,
    {
        Workspace {
            memos: Vec::new(),
            active: None,
            available_tags: Vec::new(),
            selected_id: None,
            filter: NavFilter::All,
            save_generation: 0,
            draft_generation: 0,
            save_in_flight: false,
            save_pending: false,
        }
    }

    /// Takes in an edit of the memo `memo_id` whose editor now holds `text`
    /// (see [`edit_taken`]).
    pub fn schedule_save(&mut self, memo_id: &str, text: String) -> (r: SaveSchedule)
        requires
            old(self).save_generation < u64::MAX,
            old(self).draft_generation < u64::MAX,
        ensures
            edit_taken(*old(self), *final(self), memo_id@, text, r),
    {
        if !open_is(&self.active, memo_id) {
            return SaveSchedule::Ignored;
        }
        let mut a = self.active.take().unwrap();
        let notify = a.sync_state != SyncState::LocalModified;
        a.markdown = text;
        a.sync_state = SyncState::LocalModified;
        let title = clone_text(&a.title);
        self.active = Some(a);
        match find_memo(&self.memos, memo_id) {
            Some(i) => {
                let ghost before = self.memos@;
                let (mut summary, _) = self.memos.remove(i);
                summary.title = title;
                self.memos.insert(i, (summary, SyncState::LocalModified));
                proof {
                    assert(self.memos@ =~= before.update(i as int, (summary, SyncState::LocalModified)));
                    assert forall|k: int| first_memo_index(before, memo_id@, k) implies k == i by {
                        if k < i {
                        } else if k > i {
                            assert(before[i as int].0.id@ == memo_id@);
                        }
                    }
                }
            },
            None => {},
        }
        self.save_generation = self.save_generation + 1;
        self.draft_generation = self.draft_generation + 1;
        if self.save_in_flight {
            self.save_pending = true;
            SaveSchedule::Deferred { draft_generation: self.draft_generation, notify }
        } else {
            SaveSchedule::Scheduled {
                save_generation: self.save_generation,
                draft_generation: self.draft_generation,
                notify,
            }
        }
    }

    /// Whether the save timer of `generation` is still the latest one.
    pub fn save_is_due(&self, generation: u64) -> (r: bool)
        ensures
            r == (self.save_generation == generation),
    {
        self.save_generation == generation
    }

    /// Whether the draft timer of `generation` for memo `id` is still the
    /// latest one and the memo still open.
    pub fn draft_is_due(&self, generation: u64, id: &str) -> (r: bool)
        ensures
            r == (self.draft_generation == generation && is_open(self.active, id@)),
    {
        self.draft_generation == generation && open_is(&self.active, id)
    }

    /// Flushes the open memo `memo_id` to the server (see [`flushed`]).
    pub fn flush_save(&mut self, memo_id: &str, is_retry: bool, editor_text: Option<String>) -> (r:
        Option<SaveRequest>)
        ensures
            flushed(*old(self), *final(self), memo_id@, is_retry, editor_text, r),
    {
        if self.save_in_flight && !is_retry {
            self.save_pending = true;
            return None;
        }
        let req = match &self.active {
            Some(a) => {
                if !str_eq(a.id.as_str(), memo_id) {
                    return None;
                }
                let markdown = match editor_text {
                    Some(t) => t,
                    None => a.markdown.clone(),
                };
                SaveRequest {
                    id: a.id.clone(),
                    markdown,
                    etag: a.etag.clone(),
                    revision: a.revision,
                    content_hash: a.content_hash.clone(),
                    lease_id: a.lease_id.clone(),
                    title: a.title.clone(),
                    tags: clone_strings(&a.tags),
                }
            },
            None => {
                return None;
            },
        };
        self.save_in_flight = true;
        self.save_pending = false;
        Some(req)
    }

    /// Takes in the acknowledgement of the save of `markdown` as the memo
    /// `id` (see [`ack_taken`]). An acknowledgement never moves a revision
    /// back.
    pub fn apply_save_ack(&mut self, id: &str, ack: &MemoSaveAck, markdown: &str) -> (r: bool)
        ensures
            ack_taken(*old(self), *final(self), id@, *ack, markdown@, r),
    {
        let fits_open = match &self.active {
            Some(a) => str_eq(a.id.as_str(), id) && ack.revision >= a.revision,
            None => false,
        };
        if !fits_open && !self.fits_listed(id, ack.revision) {
            return false;
        }
        if fits_open {
            let mut a = self.active.take().unwrap();
            a.etag = ack.etag.clone();
            a.revision = ack.revision;
            a.content_hash = ack.content_hash.clone();
            a.lease_id = clone_text(&ack.lease_id);
            a.sync_state = SyncState::Synced;
            a.markdown = string_of(&chars_of(markdown));
            self.active = Some(a);
        }
        match find_memo(&self.memos, id) {
            Some(i) => {
                if ack.revision >= self.memos[i].0.revision {
                    let ghost before = self.memos@;
                    let (mut summary, _) = self.memos.remove(i);
                    summary.etag = ack.etag.clone();
                    summary.revision = ack.revision;
                    summary.content_hash = ack.content_hash.clone();
                    summary.updated_at = ack.saved_at.clone();
                    summary.excerpt = derive_excerpt(markdown, 240);
                    match &self.active {
                        Some(a) => {
                            if str_eq(a.id.as_str(), id) {
                                summary.title = clone_text(&a.title);
                            }
                        },
                        None => {},
                    }
                    self.memos.insert(i, (summary, SyncState::Synced));
                    proof {
                        assert(self.memos@ =~= before.update(i as int, (summary, SyncState::Synced)));
                        assert forall|k: int| first_memo_index(before, id@, k) implies k == i by {
                            if k < i {
                            } else if k > i {
                                assert(before[i as int].0.id@ == id@);
                            }
                        }
                    }
                } else {
                    proof {
                        assert forall|k: int| first_memo_index(self.memos@, id@, k) implies k == i by {
                            if k < i {
                            } else if k > i {
                                assert(self.memos@[i as int].0.id@ == id@);
                            }
                        }
                    }
                }
            },
            None => {},
        }
        true
    }

    /// Whether some listed memo `id` is not ahead of `revision`.
    fn fits_listed(&self, id: &str, revision: u64) -> (r: bool)
        ensures
            r == exists|i: int|
                0 <= i < self.memos@.len() && (#[trigger] self.memos@[i]).0.id@ == id@ && revision
                    >= self.memos@[i].0.revision,
    {
        let mut i: usize = 0;
        while i < self.memos.len()
            invariant
                i <= self.memos.len(),
                forall|j: int|
                    0 <= j < i ==> !((#[trigger] self.memos@[j]).0.id@ == id@ && revision
                        >= self.memos@[j].0.revision),
            decreases self.memos.len() - i,
        {
            if str_eq(self.memos[i].0.id.as_str(), id) && revision >= self.memos[i].0.revision {
                return true;
            }
            i += 1;
        }
        false
    }

    /// Marks the open memo `st` when it is `id`.
    fn mark_open(&mut self, id: &str, st: SyncState)
        ensures
            *final(self) == (Workspace { active: open_marked(old(self).active, id@, st), ..*old(self) }),
    {
        if open_is(&self.active, id) {
            let mut a = self.active.take().unwrap();
            a.sync_state = st;
            self.active = Some(a);
        }
    }

    /// Takes in the answer `result` to the save of `markdown` as the memo `id`
    /// (see [`save_answered`]).
    pub fn save_finished(&mut self, id: &str, result: Result<MemoSaveAck, ApiError>, markdown: &str) -> (r:
        SaveOutcome)
        ensures
            save_answered(*old(self), *final(self), id@, result, markdown@, r),
    {
        self.save_in_flight = false;
        match result {
            Ok(ack) => {
                let applied = self.apply_save_ack(id, &ack, markdown);
                let ghost w2 = *self;
                let again = self.save_pending || match &self.active {
                    Some(a) => str_eq(a.id.as_str(), id) && a.sync_state != SyncState::Synced,
                    None => false,
                };
                if again {
                    self.save_pending = false;
                }
                assert(ack_taken(Workspace { save_in_flight: false, ..*old(self) }, w2, id@, ack, markdown@, applied));
                SaveOutcome::Saved { applied, flush_again: again }
            },
            Err(e) => {
                if e.is_lease_conflict() {
                    self.mark_open(id, SyncState::Failed);
                    SaveOutcome::LeaseExpired
                } else if e.is_revision_conflict() {
                    self.mark_open(id, SyncState::Conflict);
                    SaveOutcome::Conflict { revision: true }
                } else if e.is_conflict() {
                    self.mark_open(id, SyncState::Conflict);
                    SaveOutcome::Conflict { revision: false }
                } else {
                    self.mark_open(id, SyncState::Failed);
                    let retry = self.save_pending;
                    self.save_pending = false;
                    SaveOutcome::Failed { retry }
                }
            },
        }
    }

    /// Retitles the memo `id` where it is open and in its first list entry.
    fn retitle(&mut self, id: &str, title: Option<String>)
        ensures
            retitled(*old(self), *final(self), id@, title),
    {
        if open_is(&self.active, id) {
            let mut a = self.active.take().unwrap();
            a.title = clone_text(&title);
            self.active = Some(a);
        }
        match find_memo(&self.memos, id) {
            Some(i) => {
                let ghost before = self.memos@;
                let (mut summary, st) = self.memos.remove(i);
                summary.title = title;
                self.memos.insert(i, (summary, st));
                proof {
                    assert(self.memos@ =~= before.update(i as int, (summary, st)));
                    assert forall|k: int| first_memo_index(before, id@, k) implies k == i by {
                        if k < i {
                        } else if k > i {
                            assert(before[i as int].0.id@ == id@);
                        }
                    }
                }
            },
            None => {},
        }
    }

    /// Takes in the title field of the open memo `memo_id` when it loses
    /// focus: the trimmed text, or no title when blank. When that differs
    /// from the memo's title, the memo is retitled (open and listed) and the
    /// answer is `true`: its save is to be scheduled. Else nothing changes.
    pub fn commit_title(&mut self, memo_id: &str, text: &str) -> (r: bool)
        ensures
            r == (is_open(old(self).active, memo_id@) && opt_view(old(self).active->0.title)
                != title_from_field(text@)),
            !r ==> *final(self) == *old(self),
            r ==> exists|t: Option<String>|
                opt_view(t) == title_from_field(text@) && #[trigger] retitled(
                    *old(self),
                    *final(self),
                    memo_id@,
                    t,
                ),
    {
        let trimmed = trim_chars(&chars_of(text));
        let title = if trimmed.len() == 0 {
            None
        } else {
            Some(string_of(&trimmed))
        };
        let same = match &self.active {
            Some(a) => {
                if !str_eq(a.id.as_str(), memo_id) {
                    return false;
                }
                match (&a.title, &title) {
                    (Some(x), Some(y)) => str_eq(x.as_str(), y.as_str()),
                    (None, None) => true,
                    _ => false,
                }
            },
            None => {
                return false;
            },
        };
        if same {
            return false;
        }
        let ghost t = title;
        self.retitle(memo_id, title);
        assert(opt_view(t) == title_from_field(text@));
        assert(retitled(*old(self), *self, memo_id@, t));
        true
    }

    /// Confirms a rename with the text `text`, trimmed. A blank name does
    /// nothing. A notebook is renamed on the server. A memo is retitled
    /// where it is open and listed; the open memo's save is scheduled, a memo
    /// that is not open gets its title saved on the server.
    pub fn confirm_rename(&mut self, target: RenameTarget, text: &str) -> (r: RenameAction)
        ensures
            rename_done(*old(self), *final(self), target, text@, r),
    {
        let trimmed = trim_chars(&chars_of(text));
        if trimmed.len() == 0 {
            return RenameAction::Nothing;
        }
        let name = string_of(&trimmed);
        match target {
            RenameTarget::Notebook(id) => RenameAction::RenameNotebook { id, name },
            RenameTarget::Memo(id) => {
                let open = open_is(&self.active, id.as_str());
                let ghost t = name;
                self.retitle(id.as_str(), Some(name.clone()));
                if open {
                    RenameAction::ScheduleSave { id }
                } else {
                    RenameAction::SaveTitle { id, title: name }
                }
            },
        }
    }
}

/// The tags of `tags` other than `tag`.
pub fn tags_without(tags: &Vec<String>, tag: &str) -> (r: Vec<String>)
    ensures
        r@ == without_tag(tags@, tag@),
{
    let mut out: Vec<String> = Vec::new();
    let mut i: usize = 0;
    while i < tags.len()
        invariant
            i <= tags.len(),
            out@ == without_tag(tags@.take(i as int), tag@),
        decreases tags.len() - i,
    {
        assert(tags@.take(i + 1).drop_last() =~= tags@.take(i as int));
        if !str_eq(tags[i].as_str(), tag) {
            out.push(tags[i].clone());
        }
        i += 1;
    }
    assert(tags@.take(tags.len() as int) =~= tags@);
    out
}

impl Workspace {
    /// Adds the tag field text `tag` to the open memo (see [`tag_added`]).
    pub fn add_tag_to_active(&mut self, tag: &str) -> (r: bool)
        ensures
            tag_added(*old(self), *final(self), tag@, r),
    {
        let trimmed = trim_chars(&chars_of(tag));
        let t = string_of(&trimmed);
        if trimmed.len() == 0 {
            return false;
        }
        match &self.active {
            Some(a) => {
                if contains_tag_nocase(&a.tags, t.as_str()) {
                    return false;
                }
            },
            None => {
                return false;
            },
        }
        let mut a = self.active.take().unwrap();
        let ghost a0 = a;
        a.tags.push(t.clone());
        assert(a.tags@.drop_last() =~= a0.tags@);
        let tags = clone_strings(&a.tags);
        let id = a.id.clone();
        self.active = Some(a);
        match find_memo(&self.memos, id.as_str()) {
            Some(i) => {
                let ghost before = self.memos@;
                let (mut summary, st) = self.memos.remove(i);
                summary.tags = tags;
                self.memos.insert(i, (summary, st));
                proof {
                    assert(self.memos@ =~= before.update(i as int, (summary, st)));
                    assert forall|k: int| first_memo_index(before, id@, k) implies k == i by {
                        if k < i {
                        } else if k > i {
                            assert(before[i as int].0.id@ == id@);
                        }
                    }
                }
            },
            None => {},
        }
        if !contains_tag_nocase(&self.available_tags, t.as_str()) {
            let ghost n = t;
            let mut all = clone_strings(&self.available_tags);
            all.push(t);
            self.available_tags = sort_tags(&all);
            assert(is_tag_sort(old(self).available_tags@.push(n), self.available_tags@));
        }
        proof {
            let b = self.active->0;
            assert(b.tags@.drop_last() == a0.tags@);
            assert(b == ActiveMemo { tags: b.tags, ..a0 });
        }
        true
    }
}

/// `src` sorted by the tags' ASCII-lower-cased text, stably.
pub fn sort_tags(src: &Vec<String>) -> (r: Vec<String>)
    ensures
        is_tag_sort(src@, r@),
{
    let mut keys: Vec<Vec<char>> = Vec::new();
    let mut i: usize = 0;
    while i < src.len()
        invariant
            i <= src.len(),
            keys@.len() == i,
            views(keys@) =~= lower_keys(src@).take(i as int),
        decreases src.len() - i,
    {
        keys.push(ascii_lowercase(&chars_of(src[i].as_str())));
        i += 1;
    }
    assert(views(keys@) =~= lower_keys(src@));
    let mut idx: Vec<usize> = Vec::new();
    let mut i: usize = 0;
    while i < src.len()
        invariant
            i <= src.len(),
            keys@.len() == src@.len(),
            views(keys@) == lower_keys(src@),
            idx@.len() == i,
            sorted_by_keys(lower_keys(src@), lower_keys(src@), false, idx@),
            forall|k: int| 0 <= k < idx@.len() ==> (#[trigger] idx@[k]) < i,
        decreases src.len() - i,
    {
        let ghost prev = idx@;
        insert_by_keys(&keys, &keys, false, &mut idx, i);
        proof {
            assert forall|k: int| 0 <= k < idx@.len() implies (#[trigger] idx@[k]) < i + 1 by {
                assert(idx@.contains(idx@[k]));
                if idx@[k] != i {
                    let w = choose|w: int| 0 <= w < prev.len() && prev[w] == idx@[k];
                }
            }
        }
        i += 1;
    }
    let mut out: Vec<String> = Vec::new();
    let mut k: usize = 0;
    while k < idx.len()
        invariant
            k <= idx.len(),
            idx@.len() == src@.len(),
            out@.len() == k,
            forall|a: int| 0 <= a < idx@.len() ==> (#[trigger] idx@[a]) < src.len(),
            forall|a: int| 0 <= a < k ==> #[trigger] out@[a] == src@[idx@[a] as int],
        decreases idx.len() - k,
    {
        out.push(src[idx[k]].clone());
        k += 1;
    }
    assert(sorted_by_keys(lower_keys(src@), lower_keys(src@), false, idx@));
    out
}

impl Workspace {
    /// Removes the tag `tag` from the memo `memo_id`, where it is open and
    /// from its first list entry; its save is then to be scheduled.
    pub fn remove_tag(&mut self, memo_id: &str, tag: &str)
        ensures
            tag_removed(*old(self), *final(self), memo_id@, tag@),
    {
        if open_is(&self.active, memo_id) {
            let mut a = self.active.take().unwrap();
            a.tags = tags_without(&a.tags, tag);
            self.active = Some(a);
        }
        match find_memo(&self.memos, memo_id) {
            Some(i) => {
                let ghost before = self.memos@;
                let (mut summary, st) = self.memos.remove(i);
                summary.tags = tags_without(&summary.tags, tag);
                self.memos.insert(i, (summary, st));
                proof {
                    assert(self.memos@ =~= before.update(i as int, (summary, st)));
                    assert forall|k: int| first_memo_index(before, memo_id@, k) implies k == i by {
                        if k < i {
                        } else if k > i {
                            assert(before[i as int].0.id@ == memo_id@);
                        }
                    }
                }
            },
            None => {},
        }
    }

    /// Takes in the deletion of the memo `id` on the server: its entries
    /// leave the list; when it was open or selected, nothing is open or
    /// selected any more. The answer says whether it was.
    pub fn delete_succeeded(&mut self, id: &str) -> (r: bool)
        ensures
            r == (is_open(old(self).active, id@) || is_selected(old(self).selected_id, id@)),
            final(self).memos@ == without_memo(old(self).memos@, id@),
            r ==> final(self).active is None && final(self).selected_id is None,
            !r ==> final(self).active == old(self).active && final(self).selected_id == old(
                self,
            ).selected_id,
            final(self).available_tags == old(self).available_tags,
            final(self).filter == old(self).filter,
            final(self).save_generation == old(self).save_generation,
            final(self).draft_generation == old(self).draft_generation,
            final(self).save_in_flight == old(self).save_in_flight,
            final(self).save_pending == old(self).save_pending,
    {
        let was_open = open_is(&self.active, id) || match &self.selected_id {
            Some(s) => str_eq(s.as_str(), id),
            None => false,
        };
        let mut kept: Vec<(MemoSummary, SyncState)> = Vec::new();
        let mut memos = Vec::new();
        std::mem::swap(&mut memos, &mut self.memos);
        let ghost all = memos@;
        let mut rest = memos;
        let total: usize = rest.len();
        let mut k: usize = 0;
        while rest.len() > 0
            invariant
                all.len() == total,
                k <= total,
                rest@ == all.skip(k as int),
                kept@ == without_memo(all.take(k as int), id@),
            decreases rest.len(),
        {
            assert(k < total);
            let e = rest.remove(0);
            assert(e == all[k as int]);
            assert(all.take(k + 1).drop_last() =~= all.take(k as int));
            if !str_eq(e.0.id.as_str(), id) {
                kept.push(e);
            }
            assert(rest@ =~= all.skip(k + 1));
            k += 1;
        }
        assert(all.take(k as int) =~= all);
        self.memos = kept;
        if was_open {
            self.active = None;
            self.selected_id = None;
        }
        was_open
    }

    /// Takes in a memo just created on the server: unless it is listed
    /// already, its entry (see [`created_summary`]) goes first, synced. It
    /// becomes the selected memo.
    pub fn insert_created(&mut self, memo: &ActiveMemo)
        ensures
            lists_memo(old(self).memos@, memo.id@) ==> final(self).memos == old(self).memos,
            !lists_memo(old(self).memos@, memo.id@) ==> final(self).memos@.len() == old(self).memos@.len()
                + 1 && final(self).memos@.skip(1) == old(self).memos@ && created_summary(*memo, final(self).memos@[0].0)
                && final(self).memos@[0].1 == SyncState::Synced,
            final(self).selected_id matches Some(s) && s == memo.id,
            final(self).active == old(self).active,
            final(self).available_tags == old(self).available_tags,
            final(self).filter == old(self).filter,
            final(self).save_generation == old(self).save_generation,
            final(self).draft_generation == old(self).draft_generation,
            final(self).save_in_flight == old(self).save_in_flight,
            final(self).save_pending == old(self).save_pending,
    {
        if find_memo(&self.memos, memo.id.as_str()).is_none() {
            let summary = MemoSummary {
                id: memo.id.clone(),
                notebook_id: memo.notebook_id.clone(),
                title: clone_text(&memo.title),
                excerpt: derive_excerpt(memo.markdown.as_str(), 240),
                tags: clone_strings(&memo.tags),
                is_pinned: false,
                is_archived: false,
                is_deleted: false,
                revision: memo.revision,
                content_hash: memo.content_hash.clone(),
                etag: memo.etag.clone(),
                created_at: String::new(),
                updated_at: String::new(),
                deleted_at: None,
            };
            self.memos.insert(0, (summary, SyncState::Synced));
            assert(self.memos@.skip(1) =~= old(self).memos@);
        }
        self.selected_id = Some(memo.id.clone());
    }

    /// Where and under what title the local text is kept as a conflict copy,
    /// with the UUID text `uuid`: the open memo's notebook (none open: an
    /// empty id) and its shown title (none open: "Memo") followed by
    /// " (Conflict ", the first eight characters of `uuid` and ")".
    pub fn conflict_copy_with(&self, uuid: &str) -> (r: ConflictCopy)
        requires
            uuid@.len() >= 8,
        ensures
            r.notebook_id@ == match self.active {
                Some(a) => a.notebook_id@,
                None => Seq::<char>::empty(),
            },
            r.title@ == conflict_title(self.active, uuid@.take(8)),
    {
        let (notebook_id, base) = match &self.active {
            Some(a) => (a.notebook_id.clone(), chars_of(a.display_title())),
            None => (String::new(), chars_of("Memo")),
        };
        let u = chars_of(uuid);
        let suffix = slice(&u, 0, 8);
        let title = concat(&concat(&concat(&base, &chars_of(" (Conflict ")), &suffix), &chars_of(")"));
        ConflictCopy { notebook_id, title: string_of(&title) }
    }

    /// The conflict copy of [`Workspace::conflict_copy_with`] for a fresh
    /// UUID.
    pub fn conflict_copy(&self) -> (r: ConflictCopy)
        ensures
            r.notebook_id@ == match self.active {
                Some(a) => a.notebook_id@,
                None => Seq::<char>::empty(),
            },
            exists|uuid: Seq<char>| uuid.len() == 36 && r.title@ == conflict_title(self.active, #[trigger] uuid.take(8)),
    {
        let uuid = new_uuid_string();
        let r = self.conflict_copy_with(uuid.as_str());
        assert(r.title@ == conflict_title(self.active, uuid@.take(8)));
        r
    }

    /// Whether opening the memo `id` leaves another open memo, whose editor
    /// text is then to be kept as a modified draft.
    pub fn leaves_for(&self, id: &str) -> (r: bool)
        ensures
            r == (self.active is Some && !is_open(self.active, id@)),
    {
        match &self.active {
            Some(a) => !str_eq(a.id.as_str(), id),
            None => false,
        }
    }

    /// Takes in a memo opened from the server, with the local draft of it
    /// when the server's copy is not preferred: the memo as resolved (see
    /// [`resolved_memo`]) becomes the open and selected memo.
    pub fn take_opened(&mut self, opened: ActiveMemo, prefer_remote: bool, local: Option<ActiveMemo>)
        ensures
            final(self).active == Some(resolved_memo(opened, prefer_remote, local)),
            final(self).selected_id == Some(opened.id),
            final(self).memos == old(self).memos,
            final(self).available_tags == old(self).available_tags,
            final(self).filter == old(self).filter,
            final(self).save_generation == old(self).save_generation,
            final(self).draft_generation == old(self).draft_generation,
            final(self).save_in_flight == old(self).save_in_flight,
            final(self).save_pending == old(self).save_pending,
    {
        let mut memo = opened;
        if prefer_remote {
            memo.sync_state = SyncState::Synced;
        } else {
            match local {
                Some(l) => {
                    if l.sync_state == SyncState::LocalModified || l.sync_state == SyncState::Failed {
                        memo.markdown = l.markdown;
                        memo.sync_state = l.sync_state;
                    }
                },
                None => {},
            }
        }
        self.selected_id = Some(memo.id.clone());
        self.active = Some(memo);
    }

    /// What a refresh means for the open memo (see [`reload_spec`]).
    pub fn reload_decision(&self, reconcile_dirty: bool) -> (r: ReloadDecision)
        ensures
            r == reload_spec(*self, reconcile_dirty),
    {
        let a = match &self.active {
            Some(a) => a,
            None => {
                return ReloadDecision::Keep;
            },
        };
        let i = match find_memo(&self.memos, a.id.as_str()) {
            Some(i) => i,
            None => {
                return ReloadDecision::Keep;
            },
        };
        let s = &self.memos[i].0;
        let newer = s.revision > a.revision || !str_eq(s.etag.as_str(), a.etag.as_str()) || !str_eq(
            s.content_hash.as_str(),
            a.content_hash.as_str(),
        );
        proof {
            assert forall|k: int| first_memo_index(self.memos@, a.id@, k) implies k == i by {
                if k < i {
                } else if k > i {
                    assert(self.memos@[i as int].0.id@ == a.id@);
                }
            }
        }
        if !newer {
            return ReloadDecision::Keep;
        }
        let dirty = a.sync_state == SyncState::LocalModified || a.sync_state == SyncState::LocalCreated;
        if dirty && !reconcile_dirty {
            ReloadDecision::RemoteMovedWhileEditing
        } else {
            ReloadDecision::Reload { dirty }
        }
    }

    /// Takes in the server's memo list after a refresh: every entry synced,
    /// then the cached entries `local` laid over it (see [`overlay_prefix`]).
    pub fn take_refreshed_memos(&mut self, remote: Vec<MemoSummary>, local: &Vec<(MemoSummary, SyncState)>)
        ensures
            final(self).memos@ == overlay_prefix(all_synced(remote@), local@, local@.len()),
            final(self).active == old(self).active,
            final(self).selected_id == old(self).selected_id,
            final(self).available_tags == old(self).available_tags,
            final(self).filter == old(self).filter,
            final(self).save_generation == old(self).save_generation,
            final(self).draft_generation == old(self).draft_generation,
            final(self).save_in_flight == old(self).save_in_flight,
            final(self).save_pending == old(self).save_pending,
    {
        let ghost r0 = remote@;
        let mut memos: Vec<(MemoSummary, SyncState)> = Vec::new();
        let mut rest = remote;
        let total: usize = rest.len();
        let mut k: usize = 0;
        while rest.len() > 0
            invariant
                r0.len() == total,
                k <= total,
                rest@ == r0.skip(k as int),
                memos@ =~= all_synced(r0.take(k as int)),
            decreases rest.len(),
        {
            assert(k < total);
            let m = rest.remove(0);
            assert(m == r0[k as int]);
            memos.push((m, SyncState::Synced));
            assert(rest@ =~= r0.skip(k + 1));
            k += 1;
        }
        assert(r0.take(k as int) =~= r0);
        let mut i: usize = 0;
        while i < local.len()
            invariant
                i <= local.len(),
                memos@ == overlay_prefix(all_synced(r0), local@, i as nat),
            decreases local.len() - i,
        {
            let st = local[i].1;
            if st == SyncState::LocalModified || st == SyncState::LocalCreated || st == SyncState::Failed
                || st == SyncState::Conflict {
                match find_memo(&memos, local[i].0.id.as_str()) {
                    Some(p) => {
                        let ghost before = memos@;
                        let (summary, _) = memos.remove(p);
                        memos.insert(p, (summary, st));
                        proof {
                            assert(memos@ =~= before.update(p as int, (before[p as int].0, st)));
                            let c = choose|c: int| #[trigger] first_memo_index(before, local@[i as int].0.id@, c);
                            if c < p {
                            } else if c > p {
                                assert(before[p as int].0.id@ == local@[i as int].0.id@);
                            }
                        }
                    },
                    None => {},
                }
            }
            i += 1;
        }
        self.memos = memos;
    }

    /// Opens a search result: the list then shows the notebook of the first
    /// listed entry of the memo `id` (unless it is not listed).
    pub fn show_search_result(&mut self, id: &str)
        ensures
            forall|i: int|
                first_memo_index(old(self).memos@, id@, i) ==> final(self).filter == NavFilter::Notebook(
                    old(self).memos@[i].0.notebook_id,
                ),
            !lists_memo(old(self).memos@, id@) ==> final(self).filter == old(self).filter,
            final(self).memos == old(self).memos,
            final(self).active == old(self).active,
            final(self).selected_id == old(self).selected_id,
            final(self).available_tags == old(self).available_tags,
            final(self).save_generation == old(self).save_generation,
            final(self).draft_generation == old(self).draft_generation,
            final(self).save_in_flight == old(self).save_in_flight,
            final(self).save_pending == old(self).save_pending,
    {
        match find_memo(&self.memos, id) {
            Some(i) => {
                proof {
                    assert forall|k: int| first_memo_index(self.memos@, id@, k) implies k == i by {
                        if k < i {
                        } else if k > i {
                            assert(self.memos@[i as int].0.id@ == id@);
                        }
                    }
                }
                self.filter = NavFilter::Notebook(self.memos[i].0.notebook_id.clone());
            },
            None => {},
        }
    }

    /// Saves the open memo now, with its editor text `editor_text` (none:
    /// no editor): it takes the text as a local modification, the save
    /// generation moves on and the memo is flushed (see [`flushed`]). With
    /// no memo open nothing happens.
    pub fn save_memo_now(&mut self, editor_text: Option<String>) -> (r: Option<SaveRequest>)
        requires
            old(self).save_generation < u64::MAX,
        ensures
            old(self).active is None ==> r is None && *final(self) == *old(self),
            old(self).active is Some ==> flushed(
                prepared_for_save(*old(self), editor_text),
                *final(self),
                old(self).active->0.id@,
                false,
                editor_text,
                r,
            ),
    {
        let id = match &self.active {
            Some(a) => a.id.clone(),
            None => {
                return None;
            },
        };
        match &editor_text {
            Some(t) => {
                let mut a = self.active.take().unwrap();
                a.markdown = t.clone();
                a.sync_state = SyncState::LocalModified;
                self.active = Some(a);
            },
            None => {},
        }
        self.save_generation = self.save_generation + 1;
        assert(*self == prepared_for_save(*old(self), editor_text));
        self.flush_save(id.as_str(), false, editor_text)
    }
}

/// An acknowledgement never moves a revision back: after it is taken in,
/// the open memo (still the same memo) and every list entry are at least at
/// the revisions they had.
pub proof fn lemma_ack_never_lowers_revision(
    w0: Workspace,
    w1: Workspace,
    id: Seq<char>,
    ack: MemoSaveAck,
    markdown: Seq<char>,
    r: bool,
)
    requires
        ack_taken(w0, w1, id, ack, markdown, r),
    ensures
        w1.memos@.len() == w0.memos@.len(),
        forall|i: int| 0 <= i < w0.memos@.len() ==> w1.memos@[i].0.revision >= w0.memos@[i].0.revision,
        w0.active is Some ==> w1.active is Some && w1.active->0.id == w0.active->0.id
            && w1.active->0.revision >= w0.active->0.revision,
{
    if r {
        if lists_memo(w0.memos@, id) {
            let k = choose|k: int| 0 <= k < w0.memos@.len() && (#[trigger] w0.memos@[k]).0.id@ == id;
            let f = lemma_first_memo(w0.memos@, id, k);
            assert(first_memo_index(w0.memos@, id, f));
        }
    }
}

/// The first listed memo `id`, given some entry `k` of it.
proof fn lemma_first_memo(memos: Seq<(MemoSummary, SyncState)>, id: Seq<char>, k: int) -> (f: int)
    requires
        0 <= k < memos.len(),
        memos[k].0.id@ == id,
    ensures
        first_memo_index(memos, id, f),
    decreases k,
{
    if exists|j: int| 0 <= j < k && (#[trigger] memos[j]).0.id@ == id {
        let j = choose|j: int| 0 <= j < k && (#[trigger] memos[j]).0.id@ == id;
        lemma_first_memo(memos, id, j)
    } else {
        k
    }
}

/// No edit is lost to a save in flight: an edit of the open memo made while
/// a save is out marks a save pending, and the acknowledgement of the save
/// that was out then calls for another flush.
pub proof fn lemma_edit_during_save_is_flushed(
    w0: Workspace,
    w1: Workspace,
    w2: Workspace,
    memo_id: Seq<char>,
    text: String,
    s: SaveSchedule,
    id: Seq<char>,
    ack: MemoSaveAck,
    markdown: Seq<char>,
    r: SaveOutcome,
)
    requires
        w0.save_in_flight,
        is_open(w0.active, memo_id),
        edit_taken(w0, w1, memo_id, text, s),
        save_answered(w1, w2, id, Ok(ack), markdown, r),
    ensures
        w1.save_pending,
        s is Deferred,
        r matches SaveOutcome::Saved { flush_again, .. } && flush_again,
{
    let w = Workspace { save_in_flight: false, ..w1 };
    let (w3, applied) = choose|w3: Workspace, applied: bool| #[trigger] ack_taken(w, w3, id, ack, markdown, applied) && {
        let again = w3.save_pending || (is_open(w3.active, id) && w3.active->0.sync_state != SyncState::Synced);
        &&& r == SaveOutcome::Saved { applied, flush_again: again }
        &&& w2 == if again {
            Workspace { save_pending: false, ..w3 }
        } else {
            w3
        }
    };
    assert(w3.save_pending);
}

/// While a save is out, a flush that is no retry sends nothing: at most one
/// save is in flight.
pub proof fn lemma_one_save_in_flight(
    w0: Workspace,
    w1: Workspace,
    memo_id: Seq<char>,
    editor_text: Option<String>,
    r: Option<SaveRequest>,
)
    requires
        w0.save_in_flight,
        flushed(w0, w1, memo_id, false, editor_text, r),
    ensures
        r is None,
        w1.save_in_flight,
        w1.save_pending,
{
}

/// A conflict never silently overwrites: when the server answers a save
/// with a conflict (a revision conflict or any other), the open memo is
/// marked in conflict, not synced, and its text is to be kept as a
/// conflict copy.
pub proof fn lemma_conflict_keeps_local(
    w0: Workspace,
    w1: Workspace,
    id: Seq<char>,
    e: ApiError,
    markdown: Seq<char>,
    r: SaveOutcome,
)
    requires
        e.spec_is_conflict(),
        !e.spec_is_conflict_code("lease_conflict"@),
        save_answered(w0, w1, id, Err(e), markdown, r),
    ensures
        r is Conflict,
        is_open(w0.active, id) ==> w1.active is Some && w1.active->0.sync_state == SyncState::Conflict,
        w1.memos == w0.memos,
{
}

/// A failed save does not block editing: whatever the error, no save is in
/// flight afterwards, so the next flush goes out.
pub proof fn lemma_failure_does_not_block(
    w0: Workspace,
    w1: Workspace,
    id: Seq<char>,
    e: ApiError,
    markdown: Seq<char>,
    r: SaveOutcome,
    memo_id: Seq<char>,
    editor_text: Option<String>,
    w2: Workspace,
    req: Option<SaveRequest>,
)
    requires
        save_answered(w0, w1, id, Err(e), markdown, r),
        is_open(w1.active, memo_id),
        flushed(w1, w2, memo_id, false, editor_text, req),
    ensures
        !w1.save_in_flight,
        req is Some,
{
}

/// A quiet background refresh never replaces unsaved edits: when the open
/// memo holds edits not yet saved, the decision is never a reload.
pub proof fn lemma_background_refresh_keeps_edits(w: Workspace)
    requires
        w.active is Some,
        is_dirty(w.active->0),
    ensures
        !(reload_spec(w, false) is Reload),
{
}

} // verus!
