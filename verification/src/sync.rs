//! Todo synchronisation decisions: replaying the local outbox one operation
//! at a time in creation order, and applying the server's change journal page
//! by page. The network and database work around these decisions is done by
//! the caller, which feeds the outcomes back in.

use vstd::prelude::*;
use crate::api::{SyncChange, SyncPushItem, SyncPushItemResult, SyncTodoPush};
use crate::model::{SyncState, Todo, TodoOperation, TodoOperationKind};
use crate::number::{parse_u64, parse_unsigned};
use crate::text::{chars_eq, chars_of, contains_chars, contains_seq, has_string, holds_string, string_eq_str, string_of};

verus! {

/// Counts of one synchronisation run.
#[derive(Clone, Copy, PartialEq, Eq, Structural, Debug)]
pub struct SyncReport {
    pub pushed: usize,
    pub pulled: usize,
    pub conflicts: usize,
}

impl Default for SyncReport {
    fn default() -> (r: Self)
        ensures
            r == (SyncReport { pushed: 0, pulled: 0, conflicts: 0 }),
    {
        SyncReport { pushed: 0, pulled: 0, conflicts: 0 }
    }
}

/// Why a synchronisation run stopped with an error.
#[derive(Debug)]
pub enum SyncError {
    /// The push answer had no result for this operation id.
    MissingResult(String),
}

/// The id under which the server knows a queued write.
pub open spec fn op_write_id(op: TodoOperation) -> Seq<char> {
    if op.write_id@.len() == 0 {
        op.operation_id@
    } else {
        op.write_id@
    }
}

/// The write id of an operation: its `write_id`, or its `operation_id` when
/// that is empty.
pub fn operation_id(operation: &TodoOperation) -> (r: String)
    ensures
        r@ == op_write_id(*operation),
{
    if operation.write_id.as_str().is_empty() {
        operation.operation_id.clone()
    } else {
        operation.write_id.clone()
    }
}

/// The sync operation name of each kind.
pub open spec fn op_name(kind: TodoOperationKind) -> Seq<char> {
    match kind {
        TodoOperationKind::Create => "todo.create"@,
        TodoOperationKind::Update => "todo.update"@,
        TodoOperationKind::Complete => "todo.complete"@,
        TodoOperationKind::Restore => "todo.restore"@,
        TodoOperationKind::Delete => "todo.delete"@,
    }
}

pub fn push_op_name(kind: TodoOperationKind) -> (r: &'static str)
    ensures
        r@ == op_name(kind),
{
    match kind {
        TodoOperationKind::Create => "todo.create",
        TodoOperationKind::Update => "todo.update",
        TodoOperationKind::Complete => "todo.complete",
        TodoOperationKind::Restore => "todo.restore",
        TodoOperationKind::Delete => "todo.delete",
    }
}

/// The push of a queued operation carrying the full todo state. The
/// revision and etag guards go only with an operation that depends on no
/// earlier write: once its predecessor is acknowledged, the write is based on
/// that acknowledged state.
pub fn push_item(operation: &TodoOperation, todo: Todo) -> (r: SyncPushItem)
    ensures
        r.client_op_id@ == op_write_id(*operation),
        r.op@ == op_name(operation.kind),
        r.depends_on_client_op_id == operation.depends_on_write_id,
        r.todo matches Some(t) && t.todo == todo && if operation.depends_on_write_id is None {
            t.base_revision == operation.base_revision && t.if_match_etag == operation.if_match_etag
        } else {
            t.base_revision is None && t.if_match_etag is None
        },
{
    let independent = operation.depends_on_write_id.is_none();
    let base_revision = if independent {
        operation.base_revision
    } else {
        None
    };
    let if_match_etag = if independent {
        operation.if_match_etag.clone()
    } else {
        None
    };
    SyncPushItem {
        client_op_id: operation_id(operation),
        op: string_of(&chars_of(push_op_name(operation.kind))),
        todo: Some(SyncTodoPush { todo, base_revision, if_match_etag }),
        depends_on_client_op_id: operation.depends_on_write_id.clone(),
    }
}

/// What became of one pushed operation.
#[derive(Debug)]
pub enum PushOutcome {
    /// Accepted; the server's state of the todo, when it sent one.
    Accepted { todo: Option<Todo> },
    /// Refused with this message; `conflict` when the message speaks of a
    /// conflict.
    Rejected { message: String, conflict: bool },
}

impl PushOutcome {
    /// The sync state the todo of the pushed operation is left in: synced
    /// when accepted; when refused, in conflict if the refusal speaks of a
    /// conflict and failed otherwise.
    pub fn todo_state(&self) -> (r: SyncState)
        ensures
            r == match self {
                PushOutcome::Accepted { .. } => SyncState::Synced,
                PushOutcome::Rejected { conflict, .. } => if *conflict {
                    SyncState::Conflict
                } else {
                    SyncState::Failed
                },
            },
    {
        match self {
            PushOutcome::Accepted { .. } => SyncState::Synced,
            PushOutcome::Rejected { conflict, .. } => if *conflict {
                SyncState::Conflict
            } else {
                SyncState::Failed
            },
        }
    }
}

/// How many journal entries one pull of the server's journal asks for.
pub const PULL_PAGE_LIMIT: i64 = 200;

/// The first result for `write_id` among the push results.
pub open spec fn first_result_for(results: Seq<SyncPushItemResult>, write_id: Seq<char>, i: int) -> bool {
    &&& 0 <= i < results.len()
    &&& results[i].client_op_id@ == write_id
    &&& forall|j: int| 0 <= j < i ==> (#[trigger] results[j]).client_op_id@ != write_id
}

/// The message of a refused operation: the server's error code, or a generic
/// text.
pub open spec fn rejection_message(result: SyncPushItemResult) -> Seq<char> {
    match result.error_code {
        Some(c) => c@,
        None => "remote operation failed"@,
    }
}

/// What one push result makes of its operation.
pub open spec fn outcome_of(res: SyncPushItemResult, out: PushOutcome) -> bool {
    if res.ok {
        out == PushOutcome::Accepted { todo: res.todo }
    } else {
        out matches PushOutcome::Rejected { message, conflict } && message@ == rejection_message(res)
            && conflict == contains_seq(rejection_message(res), "conflict"@)
    }
}

/// The outcome that one push result stands for.
pub fn result_outcome(res: &SyncPushItemResult) -> (out: PushOutcome)
    ensures
        outcome_of(*res, out),
{
    if res.ok {
        let todo = match &res.todo {
            Some(t) => Some(t.clone()),
            None => None,
        };
        return PushOutcome::Accepted { todo };
    }
    let message = match &res.error_code {
        Some(c) => c.clone(),
        None => string_of(&chars_of("remote operation failed")),
    };
    let conflict = contains_chars(&chars_of(message.as_str()), &chars_of("conflict"));
    PushOutcome::Rejected { message, conflict }
}

/// What the push results say of the operation `write_id`: the first result
/// for it decides; no result at all is an error.
pub fn push_outcome(write_id: &str, results: Vec<SyncPushItemResult>) -> (r: Result<PushOutcome, SyncError>)
    ensures
        match r {
            Ok(out) => push_outcome_spec(write_id@, results@, out),
            Err(SyncError::MissingResult(w)) => w@ == write_id@ && forall|j: int|
                0 <= j < results@.len() ==> (#[trigger] results@[j]).client_op_id@ != write_id@,
        },
{
    let target = chars_of(write_id);
    let mut i: usize = 0;
    while i < results.len()
        invariant
            i <= results.len(),
            target@ == write_id@,
            forall|j: int| 0 <= j < i ==> (#[trigger] results@[j]).client_op_id@ != write_id@,
        decreases results.len() - i,
    {
        if chars_eq(&chars_of(results[i].client_op_id.as_str()), &target) {
            let out = result_outcome(&results[i]);
            assert(first_result_for(results@, write_id@, i as int));
            return Ok(out);
        }
        i += 1;
    }
    Err(SyncError::MissingResult(string_of(&target)))
}

/// The replay of the pending todo operations: one operation at a time, in
/// creation order, stopping at the first one the server refuses (a
/// dependent operation must not be sent with a stale revision).
pub struct TodoReplay {
    ops: Vec<TodoOperation>,
    next: usize,
    stopped: bool,
    report: SyncReport,
}

/// Taking in the push results `results` for the next operation of `r0`
/// gives `r1` and the answer `r`. Accepted: the replay moves on to the next
/// operation and counts a push. Refused: the replay stops, counting a
/// conflict when the refusal speaks of one. No result for the operation: an
/// error, and nothing changes. The answer is what the first result for the
/// operation's write id says (see [`push_outcome_spec`]).
pub open spec fn recorded(
    r0: TodoReplay,
    r1: TodoReplay,
    results: Seq<SyncPushItemResult>,
    r: Result<PushOutcome, SyncError>,
) -> bool {
    let w = op_write_id(r0.spec_ops()[r0.spec_next() as int]);
    &&& r1.spec_ops() == r0.spec_ops()
    &&& match r {
        Ok(PushOutcome::Accepted { .. }) => {
            &&& r1.spec_next() == r0.spec_next() + 1
            &&& !r1.spec_stopped()
            &&& r1.spec_report().pushed == saturating_inc(r0.spec_report().pushed)
            &&& r1.spec_report().conflicts == r0.spec_report().conflicts
            &&& r1.spec_report().pulled == r0.spec_report().pulled
        },
        Ok(PushOutcome::Rejected { conflict, .. }) => {
            &&& r1.spec_next() == r0.spec_next()
            &&& r1.spec_stopped()
            &&& r1.spec_report().pushed == r0.spec_report().pushed
            &&& r1.spec_report().pulled == r0.spec_report().pulled
            &&& r1.spec_report().conflicts == if conflict {
                saturating_inc(r0.spec_report().conflicts)
            } else {
                r0.spec_report().conflicts
            }
        },
        Err(_) => {
            &&& r1.spec_next() == r0.spec_next()
            &&& r1.spec_stopped() == r0.spec_stopped()
            &&& r1.spec_report() == r0.spec_report()
        },
    }
    &&& match r {
        Ok(out) => push_outcome_spec(w, results, out),
        Err(SyncError::MissingResult(m)) => m@ == w && forall|j: int|
            0 <= j < results.len() ==> (#[trigger] results[j]).client_op_id@ != w,
    }
}

/// The replay still has an operation to push.
pub open spec fn replay_has_next(r: TodoReplay) -> bool {
    !r.spec_stopped() && r.spec_next() < r.spec_ops().len()
}

/// A refused push ends the replay: no later operation is pushed, so none
/// goes out with a revision that the refused one would have moved.
pub proof fn lemma_refusal_ends_replay(
    r0: TodoReplay,
    r1: TodoReplay,
    results: Seq<SyncPushItemResult>,
    message: String,
    conflict: bool,
)
    requires
        recorded(r0, r1, results, Ok(PushOutcome::Rejected { message, conflict })),
    ensures
        !replay_has_next(r1),
{
}

/// Operations go out in creation order: the operation pushed after `k`
/// acceptances is the `k`-th queued one, and the acceptances so far are the
/// pushes counted.
pub proof fn lemma_replay_in_order(r0: TodoReplay, r1: TodoReplay, results: Seq<SyncPushItemResult>, todo: Option<Todo>)
    requires
        r0.wf(),
        r1.wf(),
        replay_has_next(r0),
        recorded(r0, r1, results, Ok(PushOutcome::Accepted { todo })),
    ensures
        r1.spec_next() == r0.spec_next() + 1,
        r1.spec_report().pushed == r1.spec_next(),
        r1.spec_ops() == r0.spec_ops(),
{
}

impl TodoReplay {
    pub closed spec fn spec_ops(self) -> Seq<TodoOperation> {
        self.ops@
    }

    /// How many operations have been accepted (they are the first ones).
    pub closed spec fn spec_next(self) -> nat {
        self.next as nat
    }

    /// A refusal ended the replay.
    pub closed spec fn spec_stopped(self) -> bool {
        self.stopped
    }

    pub closed spec fn spec_report(self) -> SyncReport {
        self.report
    }

    /// Accepted operations are counted as pushed and lie within the queue.
    pub closed spec fn wf(self) -> bool {
        &&& self.next <= self.ops@.len()
        &&& self.report.pushed == self.next
    }

    /// A replay of `ops` (the pending operations in creation order).
    pub fn new(ops: Vec<TodoOperation>) -> (r: Self)
        ensures
            r.wf(),
            r.spec_ops() == ops@,
            r.spec_next() == 0,
            !r.spec_stopped(),
            r.spec_report() == (SyncReport { pushed: 0, pulled: 0, conflicts: 0 }),
    {
        TodoReplay { ops, next: 0, stopped: false, report: SyncReport { pushed: 0, pulled: 0, conflicts: 0 } }
    }

    /// The operation to push next: none once the queue is done or a push
    /// was refused.
    pub fn next_operation(&self) -> (r: Option<&TodoOperation>)
        requires
            self.wf(),
        ensures
            match r {
                Some(op) => !self.spec_stopped() && self.spec_next() < self.spec_ops().len() && *op
                    == self.spec_ops()[self.spec_next() as int],
                None => self.spec_stopped() || self.spec_next() == self.spec_ops().len(),
            },
    {
        if !self.stopped && self.next < self.ops.len() {
            Some(&self.ops[self.next])
        } else {
            None
        }
    }

    /// Takes in the server's answer to the push of the next operation.
    /// Accepted: the replay moves on and counts it. Refused: the replay stops
    /// (a conflict is counted). No result for it: an error, nothing changes.
    pub fn record(&mut self, results: Vec<SyncPushItemResult>) -> (r: Result<PushOutcome, SyncError>)
        requires
            old(self).wf(),
            !old(self).spec_stopped(),
            old(self).spec_next() < old(self).spec_ops().len(),
        ensures
            final(self).wf(),
            recorded(*old(self), *final(self), results@, r),
    {
        let write_id = operation_id(&self.ops[self.next]);
        let out = push_outcome(write_id.as_str(), results);
        let len = self.ops.len();
        assert(self.next < len);
        match &out {
            Ok(PushOutcome::Accepted { .. }) => {
                self.next = self.next + 1;
                self.report.pushed = self.report.pushed + 1;
            },
            Ok(PushOutcome::Rejected { conflict, .. }) => {
                self.stopped = true;
                if *conflict {
                    self.report.conflicts = self.report.conflicts.saturating_add(1);
                }
            },
            Err(_) => {},
        }
        out
    }

    /// The counts so far.
    pub fn report(&self) -> (r: SyncReport)
        ensures
            r == self.spec_report(),
    {
        self.report
    }
}

/// `n + 1`, or `n` at the top of the range.
pub open spec fn saturating_inc(n: usize) -> usize {
    if n < usize::MAX {
        (n + 1) as usize
    } else {
        n
    }
}

/// `out` is what [`push_outcome`] makes of the results for `write_id`.
pub open spec fn push_outcome_spec(write_id: Seq<char>, results: Seq<SyncPushItemResult>, out: PushOutcome) -> bool {
    exists|i: int| #[trigger] first_result_for(results, write_id, i) && outcome_of(results[i], out)
}

/// What to do with a todo that the server's journal reports changed.
#[derive(Clone, Copy, PartialEq, Eq, Structural, Debug)]
pub enum RemoteTodoAction {
    /// A local operation on it is still pending: mark it in conflict.
    MarkConflict,
    /// Store the server's state as synced.
    Apply,
}

/// The application of the server's change journal, page by page. The cursor
/// moves only when a page has been applied completely.
pub struct JournalPull {
    pending_ids: Vec<String>,
    cursor: u64,
    report: SyncReport,
}

/// The stored cursor: the meta value read as a `u64`, or 0.
pub open spec fn stored_cursor(meta: Option<Seq<char>>) -> nat {
    match meta {
        Some(v) => match parse_unsigned(v, u64::MAX as nat) {
            Some(n) => n,
            None => 0,
        },
        None => 0,
    }
}

impl JournalPull {
    pub closed spec fn spec_pending_ids(self) -> Seq<String> {
        self.pending_ids@
    }

    pub closed spec fn spec_cursor(self) -> u64 {
        self.cursor
    }

    pub closed spec fn spec_report(self) -> SyncReport {
        self.report
    }

    /// A pull that continues `report`, with the ids of the todos that still
    /// have pending operations, from the stored cursor.
    pub fn new(pending_ids: Vec<String>, stored: Option<String>, report: SyncReport) -> (r: Self)
        ensures
            r.spec_pending_ids() == pending_ids@,
            r.spec_report() == report,
            r.spec_cursor() == stored_cursor(
                match stored {
                    Some(s) => Some(s@),
                    None => None,
                },
            ),
    {
        let cursor = match &stored {
            Some(s) => match parse_u64(s.as_str()) {
                Some(n) => n,
                None => 0,
            },
            None => 0,
        };
        JournalPull { pending_ids, cursor, report }
    }

    /// The cursor to pull after.
    pub fn cursor(&self) -> (r: u64)
        ensures
            r == self.spec_cursor(),
    {
        self.cursor
    }

    /// The counts so far.
    pub fn report(&self) -> (r: SyncReport)
        ensures
            r == self.spec_report(),
    {
        self.report
    }

    /// The todo payload of a journal entry: only todo entries that carry a
    /// payload are applied.
    pub fn todo_payload(change: &SyncChange) -> (r: Option<String>)
        ensures
            match r {
                Some(p) => change.entity_type@ == "todo"@ && change.payload_json == Some(p),
                None => change.entity_type@ != "todo"@ || change.payload_json is None,
            },
    {
        if !string_eq_str(&change.entity_type, "todo") {
            return None;
        }
        change.payload_json.clone()
    }

    /// Decides on a changed todo: in conflict when a local operation on it is
    /// pending, else applied. Counts it; the cursor does not move.
    pub fn take_todo(&mut self, todo_id: &str) -> (r: RemoteTodoAction)
        ensures
            final(self).spec_pending_ids() == old(self).spec_pending_ids(),
            final(self).spec_cursor() == old(self).spec_cursor(),
            final(self).spec_report().pushed == old(self).spec_report().pushed,
            holds_string(old(self).spec_pending_ids(), todo_id@) ==> r == RemoteTodoAction::MarkConflict
                && final(self).spec_report().conflicts == saturating_inc(old(self).spec_report().conflicts)
                && final(self).spec_report().pulled == old(self).spec_report().pulled,
            !holds_string(old(self).spec_pending_ids(), todo_id@) ==> r == RemoteTodoAction::Apply
                && final(self).spec_report().pulled == saturating_inc(old(self).spec_report().pulled)
                && final(self).spec_report().conflicts == old(self).spec_report().conflicts,
    {
        if has_string(&self.pending_ids, todo_id) {
            self.report.conflicts = self.report.conflicts.saturating_add(1);
            RemoteTodoAction::MarkConflict
        } else {
            self.report.pulled = self.report.pulled.saturating_add(1);
            RemoteTodoAction::Apply
        }
    }

    /// Ends a page whose changes are all applied: the cursor moves to the
    /// page's cursor; the answer says whether another page follows.
    pub fn finish_page(&mut self, page_cursor: u64, has_more: bool) -> (r: bool)
        ensures
            r == has_more,
            final(self).spec_cursor() == page_cursor,
            final(self).spec_pending_ids() == old(self).spec_pending_ids(),
            final(self).spec_report() == old(self).spec_report(),
    {
        self.cursor = page_cursor;
        has_more
    }
}

} // verus!
