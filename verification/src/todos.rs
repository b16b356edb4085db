//! The local task list: which tasks each view shows, how a local edit lands
//! in the list, what each task action writes and queues, and how a server
//! snapshot is merged with tasks that still hold unsent local changes.

use vstd::prelude::*;
use crate::clock::{local_date_now, timestamp_now};
use crate::model::{SyncState, Todo, TodoFilter, TodoOperation, TodoOperationKind, TodoStatus};
use crate::number::{parse_i64, parse_signed};
use crate::session::new_uuid_string;
use crate::sync::{op_write_id, operation_id};
use crate::text::{chars_of, seq_lt, str_eq, str_lt, string_of, trim, trim_chars};

verus! {

/// `t` belongs in the view `filter` on the local date `today`. The trash
/// shows deleted tasks only, every other view live ones only.
pub open spec fn todo_in_view(t: Todo, filter: TodoFilter, today: Seq<char>) -> bool {
    &&& if filter == TodoFilter::Trash {
        t.is_deleted
    } else {
        !t.is_deleted
    }
    &&& match filter {
        TodoFilter::All => true,
        TodoFilter::Inbox => t.status != TodoStatus::Completed && t.due_date is None,
        TodoFilter::Today => t.status != TodoStatus::Completed && (t.due_date matches Some(d)
            && d@ == today),
        TodoFilter::Upcoming => t.status != TodoStatus::Completed && (t.due_date matches Some(d)
            && seq_lt(today, d@)),
        TodoFilter::Completed => t.status == TodoStatus::Completed,
        TodoFilter::Trash => true,
    }
}

/// Some entry of `items` is the task `id`.
pub open spec fn has_todo_id(items: Seq<(Todo, SyncState)>, id: Seq<char>) -> bool {
    exists|i: int| 0 <= i < items.len() && (#[trigger] items[i]).0.id@ == id
}

/// The view of the first `n` entries: those in the view, each task id once
/// (its first entry in the view wins), in list order.
pub open spec fn visible_prefix(
    items: Seq<(Todo, SyncState)>,
    filter: TodoFilter,
    today: Seq<char>,
    n: nat,
) -> Seq<(Todo, SyncState)>
    decreases n,
{
    if n == 0 {
        seq![]
    } else {
        let prev = visible_prefix(items, filter, today, (n - 1) as nat);
        let x = items[n - 1];
        if todo_in_view(x.0, filter, today) && !has_todo_id(prev, x.0.id@) {
            prev.push(x)
        } else {
            prev
        }
    }
}

/// The tasks the view `filter` shows on `today`.
pub open spec fn visible_todos_spec(
    items: Seq<(Todo, SyncState)>,
    filter: TodoFilter,
    today: Seq<char>,
) -> Seq<(Todo, SyncState)> {
    visible_prefix(items, filter, today, items.len())
}

/// Whether `t` belongs in the view `filter` on `today`.
pub fn todo_in_view_exec(t: &Todo, filter: TodoFilter, today: &str) -> (r: bool)
    ensures
        r == todo_in_view(*t, filter, today@),
{
    let live = if filter == TodoFilter::Trash {
        t.is_deleted
    } else {
        !t.is_deleted
    };
    if !live {
        return false;
    }
    let open = t.status != TodoStatus::Completed;
    match filter {
        TodoFilter::All => true,
        TodoFilter::Inbox => open && t.due_date.is_none(),
        TodoFilter::Today => open && match &t.due_date {
            Some(d) => str_eq(d.as_str(), today),
            None => false,
        },
        TodoFilter::Upcoming => open && match &t.due_date {
            Some(d) => str_lt(today, d.as_str()),
            None => false,
        },
        TodoFilter::Completed => !open,
        TodoFilter::Trash => true,
    }
}

/// Whether some entry of `items` is the task `id`.
pub fn contains_todo_id(items: &Vec<(Todo, SyncState)>, id: &str) -> (r: bool)
    ensures
        r == has_todo_id(items@, id@),
{
    let mut i: usize = 0;
    while i < items.len()
        invariant
            i <= items.len(),
            forall|j: int| 0 <= j < i ==> (#[trigger] items@[j]).0.id@ != id@,
        decreases items.len() - i,
    {
        if str_eq(items[i].0.id.as_str(), id) {
            return true;
        }
        i += 1;
    }
    false
}

/// The tasks the view `filter` shows when the local date is `today`: the
/// matching entries in list order, each task id once.
pub fn visible_todos(items: &Vec<(Todo, SyncState)>, filter: TodoFilter, today: &str) -> (r: Vec<
    (Todo, SyncState),
>)
    ensures
        r@ == visible_todos_spec(items@, filter, today@),
{
    let mut out: Vec<(Todo, SyncState)> = Vec::new();
    let mut i: usize = 0;
    while i < items.len()
        invariant
            i <= items.len(),
            out@ == visible_prefix(items@, filter, today@, i as nat),
        decreases items.len() - i,
    {
        let x = &items[i];
        if todo_in_view_exec(&x.0, filter, today) && !contains_todo_id(&out, x.0.id.as_str()) {
            out.push((x.0.clone(), x.1));
        }
        i += 1;
    }
    out
}

/// The tasks the view `filter` shows today, by the local clock.
pub fn visible_todos_today(items: &Vec<(Todo, SyncState)>, filter: TodoFilter) -> (r: Vec<
    (Todo, SyncState),
>)
    ensures
        exists|today: Seq<char>| r@ == visible_todos_spec(items@, filter, today),
{
    let today = local_date_now();
    visible_todos(items, filter, today.as_str())
}

/// `i` is the first entry of `items` for the task `id`.
pub open spec fn first_todo_index(items: Seq<(Todo, SyncState)>, id: Seq<char>, i: int) -> bool {
    &&& 0 <= i < items.len()
    &&& items[i].0.id@ == id
    &&& forall|j: int| 0 <= j < i ==> (#[trigger] items[j]).0.id@ != id
}

/// Puts a locally changed task into the list: it replaces the first entry
/// of the same task, or goes first when the task is new.
pub fn apply_local_todo(items: &mut Vec<(Todo, SyncState)>, todo: Todo, state: SyncState)
    ensures
        forall|i: int|
            first_todo_index(old(items)@, todo.id@, i) ==> final(items)@ == old(items)@.update(
                i,
                (todo, state),
            ),
        !has_todo_id(old(items)@, todo.id@) ==> final(items)@ == seq![(todo, state)] + old(
            items,
        )@,
{
    let mut i: usize = 0;
    while i < items.len()
        invariant
            i <= items.len(),
            items@ == old(items)@,
            forall|j: int| 0 <= j < i ==> (#[trigger] items@[j]).0.id@ != todo.id@,
        decreases items.len() - i,
    {
        if str_eq(items[i].0.id.as_str(), todo.id.as_str()) {
            proof {
                assert forall|k: int| first_todo_index(old(items)@, todo.id@, k) implies k
                    == i by {
                    if k < i {
                    } else if k > i {
                        assert(old(items)@[i as int].0.id@ == todo.id@);
                    }
                }
            }
            items.set(i, (todo, state));
            return;
        }
        i += 1;
    }
    proof {
        assert forall|k: int| !first_todo_index(old(items)@, todo.id@, k) by {}
    }
    items.insert(0, (todo, state));
    assert(items@ =~= seq![(todo, state)] + old(items)@);
}

/// A local change to one task: its new state, the operation to queue for the
/// server with the guards it carries, and the state the cache marks it with.
#[derive(Debug)]
pub struct TodoChange {
    pub next: Todo,
    pub kind: TodoOperationKind,
    pub base_revision: Option<u64>,
    pub if_match_etag: Option<String>,
    pub state: SyncState,
}

/// The revision a write on `t` is based on: none before the server has
/// assigned one.
pub open spec fn revision_guard(t: Todo) -> Option<u64> {
    if t.revision > 0 {
        Some(t.revision)
    } else {
        None
    }
}

/// The etag a write on `t` must match: none while it has no etag.
pub open spec fn etag_guard(t: Todo) -> Option<String> {
    if t.etag@.len() > 0 {
        Some(t.etag)
    } else {
        None
    }
}

/// The revision guard of a write on `todo`.
pub fn base_revision(todo: &Todo) -> (r: Option<u64>)
    ensures
        r == revision_guard(*todo),
{
    if todo.revision > 0 {
        Some(todo.revision)
    } else {
        None
    }
}

/// The etag guard of a write on `todo`.
pub fn base_etag(todo: &Todo) -> (r: Option<String>)
    ensures
        r == etag_guard(*todo),
{
    if todo.etag.as_str().is_empty() {
        None
    } else {
        Some(todo.etag.clone())
    }
}

/// The one-click task actions.
#[derive(Clone, Copy, PartialEq, Eq, Structural, Debug)]
pub enum TodoAction {
    /// Complete an open task, or reopen a completed one.
    Toggle,
    /// Move to the trash.
    Delete,
    /// Bring back from the trash as an open task.
    Restore,
}

/// The task after `action` at the instant `now`.
pub open spec fn acted_todo(t: Todo, action: TodoAction, now: String) -> Todo {
    match action {
        TodoAction::Toggle => {
            let completed = t.status != TodoStatus::Completed;
            Todo {
                status: if completed {
                    TodoStatus::Completed
                } else {
                    TodoStatus::Open
                },
                completed_at: if completed {
                    Some(now)
                } else {
                    None
                },
                updated_at: now,
                ..t
            }
        },
        TodoAction::Delete => Todo { is_deleted: true, deleted_at: Some(now), updated_at: now, ..t },
        TodoAction::Restore => Todo {
            is_deleted: false,
            deleted_at: None,
            status: TodoStatus::Open,
            updated_at: now,
            ..t
        },
    }
}

/// The change that `action` on `t` at `now` makes: the acted task, queued as
/// a completion, deletion or restore guarded by the task's own revision and
/// etag; a deleted task is marked as a local deletion, the others as local
/// modifications.
pub open spec fn action_change(t: Todo, action: TodoAction, now: String) -> TodoChange {
    TodoChange {
        next: acted_todo(t, action, now),
        kind: match action {
            TodoAction::Toggle => TodoOperationKind::Complete,
            TodoAction::Delete => TodoOperationKind::Delete,
            TodoAction::Restore => TodoOperationKind::Restore,
        },
        base_revision: revision_guard(t),
        if_match_etag: etag_guard(t),
        state: if action == TodoAction::Delete {
            SyncState::LocalDeleted
        } else {
            SyncState::LocalModified
        },
    }
}

/// The change that `action` on `todo` makes at the instant `now`.
pub fn todo_change(todo: &Todo, action: TodoAction, now: String) -> (r: TodoChange)
    ensures
        r == action_change(*todo, action, now),
{
    let mut next = todo.clone();
    let kind;
    let state;
    match action {
        TodoAction::Toggle => {
            let completed = todo.status != TodoStatus::Completed;
            next.status = if completed {
                TodoStatus::Completed
            } else {
                TodoStatus::Open
            };
            next.completed_at = if completed {
                Some(now.clone())
            } else {
                None
            };
            kind = TodoOperationKind::Complete;
            state = SyncState::LocalModified;
        },
        TodoAction::Delete => {
            next.is_deleted = true;
            next.deleted_at = Some(now.clone());
            kind = TodoOperationKind::Delete;
            state = SyncState::LocalDeleted;
        },
        TodoAction::Restore => {
            next.is_deleted = false;
            next.deleted_at = None;
            next.status = TodoStatus::Open;
            kind = TodoOperationKind::Restore;
            state = SyncState::LocalModified;
        },
    }
    next.updated_at = now;
    TodoChange {
        next,
        kind,
        base_revision: base_revision(todo),
        if_match_etag: base_etag(todo),
        state,
    }
}

/// The change that `action` on `todo` makes now, by the clock.
pub fn todo_change_now(todo: &Todo, action: TodoAction) -> (r: TodoChange)
    ensures
        exists|now: String| r == action_change(*todo, action, now),
{
    todo_change(todo, action, timestamp_now())
}

/// `t` is a new task `id` created at `now`: "New task", in the inbox, with
/// no due date, priority, revision or etag yet.
pub open spec fn is_created_todo(t: Todo, id: Seq<char>, now: Seq<char>) -> bool {
    &&& t.id@ == id
    &&& t.title@ == "New task"@
    &&& t.note@.len() == 0
    &&& t.status == TodoStatus::Inbox
    &&& t.due_date is None
    &&& t.priority == 0
    &&& t.linked_memo_id is None
    &&& !t.is_deleted
    &&& t.revision == 0
    &&& t.etag@.len() == 0
    &&& t.created_at@ == now
    &&& t.updated_at@ == now
    &&& t.completed_at is None
    &&& t.deleted_at is None
}

/// The creation of the task `id` at `now`: queued as a create with no
/// guards and marked as created locally.
pub fn create_change(id: &str, now: &str) -> (r: TodoChange)
    ensures
        is_created_todo(r.next, id@, now@),
        r.kind == TodoOperationKind::Create,
        r.base_revision is None,
        r.if_match_etag is None,
        r.state == SyncState::LocalCreated,
{
    let next = Todo {
        id: string_of(&chars_of(id)),
        title: string_of(&chars_of("New task")),
        note: String::new(),
        status: TodoStatus::Inbox,
        due_date: None,
        priority: 0,
        linked_memo_id: None,
        is_deleted: false,
        revision: 0,
        etag: String::new(),
        created_at: string_of(&chars_of(now)),
        updated_at: string_of(&chars_of(now)),
        completed_at: None,
        deleted_at: None,
    };
    TodoChange {
        next,
        kind: TodoOperationKind::Create,
        base_revision: None,
        if_match_etag: None,
        state: SyncState::LocalCreated,
    }
}

/// The creation of a new task with a fresh id, now.
pub fn create_change_now() -> (r: TodoChange)
    ensures
        exists|id: Seq<char>, now: Seq<char>| is_created_todo(r.next, id, now),
        r.kind == TodoOperationKind::Create,
        r.base_revision is None,
        r.if_match_etag is None,
        r.state == SyncState::LocalCreated,
{
    let id = new_uuid_string();
    let now = timestamp_now();
    create_change(id.as_str(), now.as_str())
}

/// The view of an optional text.
pub open spec fn opt_text(o: Option<&str>) -> Option<Seq<char>> {
    match o {
        Some(s) => Some(s@),
        None => None,
    }
}

/// The due date a date field holds: the field trimmed, none when empty.
pub open spec fn due_from_field(text: Seq<char>) -> Option<Seq<char>> {
    if trim(text).len() == 0 {
        None
    } else {
        Some(trim(text))
    }
}

/// A priority brought into `0..=3`.
pub open spec fn clamp_priority(n: int) -> int {
    if n < 0 {
        0
    } else if n > 3 {
        3
    } else {
        n
    }
}

/// `t` is `existing` with the edited fields taken in: a field's text
/// replaces the title or note as it stands; the due date field is trimmed
/// (empty: no due date); the priority field is read as an `i64` once trimmed
/// and clamped to `0..=3`, and left as it was when it does not read. A field
/// whose editor is absent (`None`) changes nothing.
pub open spec fn is_saved_todo(
    existing: Todo,
    title: Option<Seq<char>>,
    note: Option<Seq<char>>,
    due: Option<Seq<char>>,
    priority: Option<Seq<char>>,
    t: Todo,
) -> bool {
    &&& t.id == existing.id
    &&& t.title@ == match title {
        Some(x) => x,
        None => existing.title@,
    }
    &&& t.note@ == match note {
        Some(x) => x,
        None => existing.note@,
    }
    &&& match due {
        Some(d) => match due_from_field(d) {
            Some(x) => t.due_date matches Some(y) && y@ == x,
            None => t.due_date is None,
        },
        None => t.due_date == existing.due_date,
    }
    &&& t.priority == match priority {
        Some(p) => match parse_signed(trim(p), i64::MIN as int, i64::MAX as int) {
            Some(n) => clamp_priority(n),
            None => existing.priority as int,
        },
        None => existing.priority as int,
    }
    &&& t.status == existing.status
    &&& t.linked_memo_id == existing.linked_memo_id
    &&& t.is_deleted == existing.is_deleted
    &&& t.revision == existing.revision
    &&& t.etag == existing.etag
    &&& t.created_at == existing.created_at
    &&& t.updated_at == existing.updated_at
    &&& t.completed_at == existing.completed_at
    &&& t.deleted_at == existing.deleted_at
}

/// A create of the task `id` is still queued.
pub open spec fn has_pending_create(ops: Seq<TodoOperation>, id: Seq<char>) -> bool {
    exists|i: int|
        0 <= i < ops.len() && (#[trigger] ops[i]).todo_id@ == id && ops[i].kind
            == TodoOperationKind::Create
}

/// Whether a create of the task `id` is still queued.
pub fn pending_create(ops: &Vec<TodoOperation>, id: &str) -> (r: bool)
    ensures
        r == has_pending_create(ops@, id@),
{
    let mut i: usize = 0;
    while i < ops.len()
        invariant
            i <= ops.len(),
            forall|j: int|
                0 <= j < i ==> !((#[trigger] ops@[j]).todo_id@ == id@ && ops@[j].kind
                    == TodoOperationKind::Create),
        decreases ops.len() - i,
    {
        if ops[i].kind == TodoOperationKind::Create && str_eq(ops[i].todo_id.as_str(), id) {
            return true;
        }
        i += 1;
    }
    false
}

/// The due date a date field holds.
fn due_date_of(text: &str) -> (r: Option<String>)
    ensures
        match due_from_field(text@) {
            Some(x) => r matches Some(y) && y@ == x,
            None => r is None,
        },
{
    let t = trim_chars(&chars_of(text));
    if t.len() == 0 {
        None
    } else {
        Some(string_of(&t))
    }
}

/// The save of the task detail form: `existing` with the field texts taken
/// in (see [`is_saved_todo`]). It is queued as a create while the server
/// has never seen the task (no revision and no create queued), else as an
/// update, guarded by the task's revision and etag, and marked as modified
/// locally.
pub fn save_change(
    existing: &Todo,
    title: Option<&str>,
    note: Option<&str>,
    due: Option<&str>,
    priority: Option<&str>,
    pending: &Vec<TodoOperation>,
) -> (r: TodoChange)
    ensures
        is_saved_todo(
            *existing,
            opt_text(title),
            opt_text(note),
            opt_text(due),
            opt_text(priority),
            r.next,
        ),
        r.kind == if existing.revision == 0 && !has_pending_create(pending@, existing.id@) {
            TodoOperationKind::Create
        } else {
            TodoOperationKind::Update
        },
        r.base_revision == revision_guard(*existing),
        r.if_match_etag == etag_guard(*existing),
        r.state == SyncState::LocalModified,
{
    let mut next = existing.clone();
    if let Some(t) = title {
        next.title = string_of(&chars_of(t));
    }
    if let Some(n) = note {
        next.note = string_of(&chars_of(n));
    }
    if let Some(d) = due {
        next.due_date = due_date_of(d);
    }
    if let Some(p) = priority {
        let trimmed = string_of(&trim_chars(&chars_of(p)));
        if let Some(n) = parse_i64(trimmed.as_str()) {
            next.priority = if n < 0 {
                0
            } else if n > 3 {
                3
            } else {
                n
            };
        }
    }
    let kind = if existing.revision == 0 && !pending_create(pending, existing.id.as_str()) {
        TodoOperationKind::Create
    } else {
        TodoOperationKind::Update
    };
    TodoChange {
        next,
        kind,
        base_revision: base_revision(existing),
        if_match_etag: base_etag(existing),
        state: SyncState::LocalModified,
    }
}

/// The write id of the last queued operation on the task `id`, if any.
pub open spec fn last_write_for(ops: Seq<TodoOperation>, id: Seq<char>) -> Option<Seq<char>>
    decreases ops.len(),
{
    if ops.len() == 0 {
        None
    } else if ops.last().todo_id@ == id {
        Some(op_write_id(ops.last()))
    } else {
        last_write_for(ops.drop_last(), id)
    }
}

/// The write id of the last queued operation on the task `id`.
pub fn last_write_id(ops: &Vec<TodoOperation>, id: &str) -> (r: Option<String>)
    ensures
        match last_write_for(ops@, id@) {
            Some(w) => r matches Some(x) && x@ == w,
            None => r is None,
        },
{
    let mut n: usize = ops.len();
    assert(ops@.take(n as int) =~= ops@);
    while n > 0
        invariant
            n <= ops.len(),
            last_write_for(ops@, id@) == last_write_for(ops@.take(n as int), id@),
        decreases n,
    {
        let op = &ops[n - 1];
        assert(ops@.take(n as int).drop_last() =~= ops@.take(n - 1));
        if str_eq(op.todo_id.as_str(), id) {
            return Some(operation_id(op));
        }
        n -= 1;
    }
    None
}

/// The operation that queues `change` with the serialized task
/// `payload_json`: a fresh id that is also its write id, after the last
/// write still queued on the same task.
pub fn queue_todo_operation(
    pending: &Vec<TodoOperation>,
    change: &TodoChange,
    payload_json: String,
) -> (r: TodoOperation)
    ensures
        r.todo_id == change.next.id,
        r.kind == change.kind,
        r.payload_json == payload_json,
        r.base_revision == change.base_revision,
        r.if_match_etag == change.if_match_etag,
        r.write_id == r.operation_id,
        match last_write_for(pending@, change.next.id@) {
            Some(w) => r.depends_on_write_id matches Some(x) && x@ == w,
            None => r.depends_on_write_id is None,
        },
        r.attempts == 0,
        r.last_error is None,
{
    let depends_on_write_id = last_write_id(pending, change.next.id.as_str());
    let operation_id = new_uuid_string();
    TodoOperation {
        operation_id: operation_id.clone(),
        todo_id: change.next.id.clone(),
        kind: change.kind,
        payload_json,
        base_revision: change.base_revision,
        if_match_etag: change.if_match_etag.clone(),
        write_id: operation_id,
        depends_on_write_id,
        attempts: 0,
        last_error: None,
    }
}

/// The index of the last entry of `local` for the task `id`; -1 when there
/// is none. A server snapshot is matched against this entry.
pub open spec fn last_local_index(local: Seq<(Todo, SyncState)>, id: Seq<char>) -> int
    decreases local.len(),
{
    if local.len() == 0 {
        -1
    } else if local.last().0.id@ == id {
        local.len() - 1
    } else {
        last_local_index(local.drop_last(), id)
    }
}

/// What [`last_local_index`] finds.
pub proof fn lemma_last_local_index(local: Seq<(Todo, SyncState)>, id: Seq<char>)
    ensures
        -1 <= last_local_index(local, id) < local.len(),
        last_local_index(local, id) >= 0 ==> local[last_local_index(local, id)].0.id@ == id,
        forall|j: int|
            last_local_index(local, id) < j < local.len() ==> (#[trigger] local[j]).0.id@ != id,
    decreases local.len(),
{
    if local.len() > 0 && local.last().0.id@ != id {
        lemma_last_local_index(local.drop_last(), id);
        let li = last_local_index(local, id);
        assert forall|j: int| li < j < local.len() implies (#[trigger] local[j]).0.id@ != id by {
            if j < local.len() - 1 {
                assert(local.drop_last()[j] == local[j]);
            }
        }
    }
}

/// An earlier task of the snapshot has the id of `remote[k]`.
pub open spec fn remote_repeats(remote: Seq<Todo>, k: int) -> bool {
    exists|j: int| 0 <= j < k && (#[trigger] remote[j]).id@ == remote[k].id@
}

/// The snapshot holds the task `id`.
pub open spec fn has_remote_id(remote: Seq<Todo>, id: Seq<char>) -> bool {
    exists|j: int| 0 <= j < remote.len() && (#[trigger] remote[j]).id@ == id
}

/// The merged entry for the snapshot's task `k`: the local entry when the
/// task's latest local entry still holds unsent changes (and no earlier
/// snapshot entry took it), else the server's task as synced.
pub open spec fn merged_entry(remote: Seq<Todo>, local: Seq<(Todo, SyncState)>, k: int) -> (
    Todo,
    SyncState,
) {
    let li = last_local_index(local, remote[k].id@);
    if li >= 0 && !remote_repeats(remote, k) && local[li].1.spec_is_local_pending() {
        local[li]
    } else {
        (remote[k], SyncState::Synced)
    }
}

/// The local entries, among the first `n`, that the snapshot does not hold:
/// the latest entry of each such task, in list order.
pub open spec fn leftover_prefix(remote: Seq<Todo>, local: Seq<(Todo, SyncState)>, n: nat) -> Seq<
    (Todo, SyncState),
>
    decreases n,
{
    if n == 0 {
        seq![]
    } else {
        let prev = leftover_prefix(remote, local, (n - 1) as nat);
        let x = local[n - 1];
        if last_local_index(local, x.0.id@) == n - 1 && !has_remote_id(remote, x.0.id@) {
            prev.push(x)
        } else {
            prev
        }
    }
}

/// The task list after a refresh: one entry per snapshot task in snapshot
/// order, then the local tasks the snapshot lacks (created or deleted
/// offline and not yet acknowledged).
pub open spec fn merged_todos_spec(remote: Seq<Todo>, local: Seq<(Todo, SyncState)>) -> Seq<
    (Todo, SyncState),
> {
    Seq::new(remote.len(), |k: int| merged_entry(remote, local, k)) + leftover_prefix(
        remote,
        local,
        local.len(),
    )
}

/// The index of the last entry of `local` for the task `id`.
fn last_local(local: &Vec<(Todo, SyncState)>, id: &str) -> (r: Option<usize>)
    ensures
        match r {
            Some(i) => i == last_local_index(local@, id@),
            None => last_local_index(local@, id@) == -1,
        },
{
    let mut n: usize = local.len();
    assert(local@.take(n as int) =~= local@);
    while n > 0
        invariant
            n <= local.len(),
            last_local_index(local@, id@) == last_local_index(local@.take(n as int), id@),
        decreases n,
    {
        assert(local@.take(n as int).drop_last() =~= local@.take(n - 1));
        if str_eq(local[n - 1].0.id.as_str(), id) {
            return Some(n - 1);
        }
        n -= 1;
    }
    None
}

/// Whether the snapshot holds the task `id` among its first `k` tasks.
fn has_remote_before(remote: &Vec<Todo>, id: &str, k: usize) -> (r: bool)
    requires
        k <= remote.len(),
    ensures
        r == exists|j: int| 0 <= j < k && (#[trigger] remote@[j]).id@ == id@,
{
    let mut j: usize = 0;
    while j < k
        invariant
            j <= k <= remote.len(),
            forall|i: int| 0 <= i < j ==> (#[trigger] remote@[i]).id@ != id@,
        decreases k - j,
    {
        if str_eq(remote[j].id.as_str(), id) {
            return true;
        }
        j += 1;
    }
    false
}

/// Merges the server's snapshot `remote` with the cached tasks `local`
/// (see [`merged_todos_spec`]). The caller stores each of the first
/// `remote.len()` entries that is `Synced` as the new cached state.
pub fn merge_todos(remote: &Vec<Todo>, local: &Vec<(Todo, SyncState)>) -> (r: Vec<(Todo, SyncState)>)
    ensures
        r@ == merged_todos_spec(remote@, local@),
{
    let mut out: Vec<(Todo, SyncState)> = Vec::new();
    let mut k: usize = 0;
    while k < remote.len()
        invariant
            k <= remote.len(),
            out@ =~= Seq::new(k as nat, |j: int| merged_entry(remote@, local@, j)),
        decreases remote.len() - k,
    {
        let id = remote[k].id.as_str();
        let repeats = has_remote_before(remote, id, k);
        proof {
            lemma_last_local_index(local@, id@);
        }
        let entry = match last_local(local, id) {
            Some(li) => {
                if !repeats && local[li].1.is_local_pending() {
                    (local[li].0.clone(), local[li].1)
                } else {
                    (remote[k].clone(), SyncState::Synced)
                }
            },
            None => (remote[k].clone(), SyncState::Synced),
        };
        out.push(entry);
        k += 1;
    }
    let mut i: usize = 0;
    while i < local.len()
        invariant
            i <= local.len(),
            out@ =~= Seq::new(remote@.len(), |j: int| merged_entry(remote@, local@, j))
                + leftover_prefix(remote@, local@, i as nat),
        decreases local.len() - i,
    {
        let id = local[i].0.id.as_str();
        let latest = match last_local(local, id) {
            Some(li) => li == i,
            None => false,
        };
        if latest && !has_remote_before(remote, id, remote.len()) {
            out.push((local[i].0.clone(), local[i].1));
        }
        i += 1;
    }
    out
}

/// The first task of the snapshot with the id of `remote[k]`.
proof fn lemma_first_remote(remote: Seq<Todo>, k: int) -> (f: int)
    requires
        0 <= k < remote.len(),
    ensures
        0 <= f <= k,
        remote[f].id@ == remote[k].id@,
        !remote_repeats(remote, f),
    decreases k,
{
    if remote_repeats(remote, k) {
        let j = choose|j: int| 0 <= j < k && (#[trigger] remote[j]).id@ == remote[k].id@;
        lemma_first_remote(remote, j)
    } else {
        k
    }
}

/// The leftover entries hold the latest local entry of every task the
/// snapshot lacks.
proof fn lemma_leftover_contains(remote: Seq<Todo>, local: Seq<(Todo, SyncState)>, n: nat, i: int)
    requires
        0 <= i < n <= local.len(),
        last_local_index(local, local[i].0.id@) == i,
        !has_remote_id(remote, local[i].0.id@),
    ensures
        leftover_prefix(remote, local, n).contains(local[i]),
    decreases n,
{
    if i < n - 1 {
        lemma_leftover_contains(remote, local, (n - 1) as nat, i);
        let prev = leftover_prefix(remote, local, (n - 1) as nat);
        let w = choose|w: int| 0 <= w < prev.len() && prev[w] == local[i];
        assert(leftover_prefix(remote, local, n)[w] == local[i]);
    } else {
        let prev = leftover_prefix(remote, local, (n - 1) as nat);
        assert(leftover_prefix(remote, local, n)[prev.len() as int] == local[i]);
    }
}

/// A refresh never drops unsent local work: the latest cached entry of a
/// task that still holds local changes (created, modified or deleted
/// offline, failed or in conflict) is in the merged list as it was, whether
/// or not the server's snapshot holds the task.
pub proof fn lemma_merge_keeps_pending(remote: Seq<Todo>, local: Seq<(Todo, SyncState)>, i: int)
    requires
        0 <= i < local.len(),
        local[i].1 == SyncState::LocalCreated || local[i].1 == SyncState::LocalModified || local[i].1
            == SyncState::LocalDeleted || local[i].1 == SyncState::Failed || local[i].1 == SyncState::Conflict,
        last_local_index(local, local[i].0.id@) == i,
    ensures
        merged_todos_spec(remote, local).contains(local[i]),
{
    let id = local[i].0.id@;
    let m = merged_todos_spec(remote, local);
    if has_remote_id(remote, id) {
        let k = choose|j: int| 0 <= j < remote.len() && (#[trigger] remote[j]).id@ == id;
        let f = lemma_first_remote(remote, k);
        assert(m[f] == merged_entry(remote, local, f));
    } else {
        lemma_leftover_contains(remote, local, local.len(), i);
        let left = leftover_prefix(remote, local, local.len());
        let w = choose|w: int| 0 <= w < left.len() && left[w] == local[i];
        assert(m[remote.len() + w] == local[i]);
    }
}

/// A refresh takes the server's state of every task without unsent local
/// changes: the merged entry of such a snapshot task is that task, synced.
pub proof fn lemma_merge_takes_remote(remote: Seq<Todo>, local: Seq<(Todo, SyncState)>, k: int)
    requires
        0 <= k < remote.len(),
        last_local_index(local, remote[k].id@) >= 0 ==> (local[last_local_index(local, remote[k].id@)].1
            == SyncState::Synced || local[last_local_index(local, remote[k].id@)].1 == SyncState::Syncing),
    ensures
        merged_todos_spec(remote, local)[k] == (remote[k], SyncState::Synced),
{
}

/// A refresh keeps the latest cached entry of a snapshot task that holds
/// unsent local work, in the task's place: when that entry was created,
/// modified or deleted offline, failed or is in conflict, the merged entry
/// at the snapshot's (first) position of the task is that cached entry, not
/// the server's copy. An unsent deletion is thus not undone by the refresh.
pub proof fn lemma_merge_keeps_local_entry(remote: Seq<Todo>, local: Seq<(Todo, SyncState)>, k: int)
    requires
        0 <= k < remote.len(),
        forall|j: int| 0 <= j < k ==> (#[trigger] remote[j]).id@ != remote[k].id@,
        last_local_index(local, remote[k].id@) >= 0,
        ({
            let st = local[last_local_index(local, remote[k].id@)].1;
            st == SyncState::LocalCreated || st == SyncState::LocalModified || st == SyncState::LocalDeleted || st
                == SyncState::Failed || st == SyncState::Conflict
        }),
    ensures
        merged_todos_spec(remote, local)[k] == local[last_local_index(local, remote[k].id@)],
{
    assert(!remote_repeats(remote, k));
}

/// Restoring a deleted task brings it back: after a delete and a restore the
/// task is live, open and without a deletion time, stamped with the restore
/// time; its content, due date, priority, revision and etag are as before.
pub proof fn lemma_delete_then_restore(t: Todo, deleted_at: String, restored_at: String)
    ensures
        ({
            let r = acted_todo(acted_todo(t, TodoAction::Delete, deleted_at), TodoAction::Restore, restored_at);
            &&& !r.is_deleted
            &&& r.deleted_at is None
            &&& r.status == TodoStatus::Open
            &&& r.updated_at == restored_at
            &&& r == Todo {
                is_deleted: false,
                deleted_at: None,
                status: TodoStatus::Open,
                updated_at: restored_at,
                ..t
            }
        }),
{
}

/// Toggling an open or completed task twice gives back its status; the task
/// is otherwise as it was, but for its times.
pub proof fn lemma_toggle_twice(t: Todo, first: String, second: String)
    requires
        t.status != TodoStatus::Inbox,
    ensures
        ({
            let r = acted_todo(acted_todo(t, TodoAction::Toggle, first), TodoAction::Toggle, second);
            &&& r.status == t.status
            &&& r == Todo {
                completed_at: r.completed_at,
                updated_at: second,
                ..t
            }
        }),
{
}

/// A new task shows in the inbox and in the all-tasks view, and only there
/// among the live views.
pub proof fn lemma_new_todo_in_inbox(t: Todo, id: Seq<char>, now: Seq<char>, today: Seq<char>)
    requires
        is_created_todo(t, id, now),
    ensures
        todo_in_view(t, TodoFilter::Inbox, today),
        todo_in_view(t, TodoFilter::All, today),
        !todo_in_view(t, TodoFilter::Today, today),
        !todo_in_view(t, TodoFilter::Upcoming, today),
        !todo_in_view(t, TodoFilter::Completed, today),
        !todo_in_view(t, TodoFilter::Trash, today),
{
}

/// A view lists each task at most once, and only tasks that belong in it.
pub proof fn lemma_visible_todos_distinct(items: Seq<(Todo, SyncState)>, filter: TodoFilter, today: Seq<char>, n: nat)
    requires
        n <= items.len(),
    ensures
        forall|a: int, b: int|
            0 <= a < b < visible_prefix(items, filter, today, n).len() ==> (#[trigger] visible_prefix(items, filter, today, n)[a]).0.id@
                != (#[trigger] visible_prefix(items, filter, today, n)[b]).0.id@,
        forall|a: int|
            0 <= a < visible_prefix(items, filter, today, n).len() ==> todo_in_view(
                (#[trigger] visible_prefix(items, filter, today, n)[a]).0,
                filter,
                today,
            ),
    decreases n,
{
    if n > 0 {
        lemma_visible_todos_distinct(items, filter, today, (n - 1) as nat);
        let prev = visible_prefix(items, filter, today, (n - 1) as nat);
        let cur = visible_prefix(items, filter, today, n);
        let x = items[n - 1];
        if todo_in_view(x.0, filter, today) && !has_todo_id(prev, x.0.id@) {
            assert forall|a: int, b: int| 0 <= a < b < cur.len() implies (#[trigger] cur[a]).0.id@ != (#[trigger] cur[b]).0.id@ by {
                if b == cur.len() - 1 {
                    assert(cur[a] == prev[a]);
                    if cur[a].0.id@ == x.0.id@ {
                        assert(has_todo_id(prev, x.0.id@));
                    }
                } else {
                    assert(cur[a] == prev[a] && cur[b] == prev[b]);
                }
            }
            assert forall|a: int| 0 <= a < cur.len() implies todo_in_view((#[trigger] cur[a]).0, filter, today) by {
                if a < cur.len() - 1 {
                    assert(cur[a] == prev[a]);
                }
            }
        }
    }
}

} // verus!
