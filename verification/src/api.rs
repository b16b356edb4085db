//! The notes server's JSON API: error classification, request paths, wire
//! records and the assembly of opened memos.

use vstd::prelude::*;
use crate::markdown::{decimal, decimal_chars};
use crate::model::{ActiveMemo, MemoSummary, SyncState, Todo};
use crate::text::{chars_of, extend, string_eq_str, string_of};

verus! {

/// Version of the save/open protocol the client speaks.
pub const PROTOCOL_VERSION: u32 = 1;

/// Where and as whom to talk to the server.
#[derive(Debug)]
pub struct ApiConfig {
    pub api_url: String,
    pub token: String,
}

impl Default for ApiConfig {
    fn default() -> (r: Self)
        ensures
            r.api_url@ == Seq::<char>::empty(),
            r.token@ == Seq::<char>::empty(),
    {
        ApiConfig { api_url: String::new(), token: String::new() }
    }
}

impl Clone for ApiConfig {
    fn clone(&self) -> (r: Self)
        ensures
            r == *self,
    {
        ApiConfig { api_url: self.api_url.clone(), token: self.token.clone() }
    }
}

/// A failed API call: an HTTP error answer of the server, or any other
/// failure (transport, decoding) with its message.
#[derive(Debug)]
pub enum ApiError {
    Http { status: u16, code: String, message: String, current_etag: Option<String> },
    Other { message: String },
}

impl ApiError {
    /// The server answered 409.
    pub open spec fn spec_is_conflict(self) -> bool {
        self matches ApiError::Http { status, .. } && status == 409
    }

    /// The server answered 409 with the given error code.
    pub open spec fn spec_is_conflict_code(self, c: Seq<char>) -> bool {
        self matches ApiError::Http { status, code, .. } && status == 409 && code@ == c
    }

    pub fn is_conflict(&self) -> (r: bool)
        ensures
            r == self.spec_is_conflict(),
    {
        match self {
            ApiError::Http { status, .. } => *status == 409,
            _ => false,
        }
    }

    /// A 409 `revision_conflict`: the memo moved on since the base revision.
    pub fn is_revision_conflict(&self) -> (r: bool)
        ensures
            r == self.spec_is_conflict_code("revision_conflict"@),
    {
        match self {
            ApiError::Http { status, code, .. } => *status == 409 && string_eq_str(code, "revision_conflict"),
            _ => false,
        }
    }

    /// A 409 `lease_conflict`: another editor holds the memo.
    pub fn is_lease_conflict(&self) -> (r: bool)
        ensures
            r == self.spec_is_conflict_code("lease_conflict"@),
    {
        match self {
            ApiError::Http { status, code, .. } => *status == 409 && string_eq_str(code, "lease_conflict"),
            _ => false,
        }
    }

    /// A 409 `content_conflict` (or a bare `conflict`).
    pub fn is_content_conflict(&self) -> (r: bool)
        ensures
            r == (self.spec_is_conflict_code("content_conflict"@) || self.spec_is_conflict_code(
                "conflict"@,
            )),
    {
        match self {
            ApiError::Http { status, code, .. } => *status == 409 && (string_eq_str(
                code,
                "content_conflict",
            ) || string_eq_str(code, "conflict")),
            _ => false,
        }
    }

    /// The server's error code, for HTTP errors.
    pub fn code(&self) -> (r: Option<&str>)
        ensures
            match *self {
                ApiError::Http { code, .. } => r matches Some(c) && c@ == code@,
                ApiError::Other { .. } => r is None,
            },
    {
        match self {
            ApiError::Http { code, .. } => Some(code.as_str()),
            _ => None,
        }
    }

    /// The memo's current etag that the server reported with the error.
    pub fn current_etag(&self) -> (r: Option<&str>)
        ensures
            match *self {
                ApiError::Http { current_etag, .. } => match current_etag {
                    Some(e) => r matches Some(x) && x@ == e@,
                    None => r is None,
                },
                ApiError::Other { .. } => r is None,
            },
    {
        match self {
            ApiError::Http { current_etag, .. } => match current_etag {
                Some(e) => Some(e.as_str()),
                None => None,
            },
            _ => None,
        }
    }
}

/// The error body the server sends with a failed request.
#[derive(Debug)]
pub struct WireApiError {
    pub code: String,
    pub message: String,
    pub current_etag: Option<String>,
}

/// The error for an unsuccessful HTTP answer: the server's code, message and
/// etag when its body was an error record, else `fallback_code` and the body
/// text.
pub fn http_error(
    status: u16,
    wire: Option<WireApiError>,
    fallback_code: String,
    body_text: String,
) -> (r: ApiError)
    ensures
        match wire {
            Some(w) => r == ApiError::Http {
                status,
                code: w.code,
                message: w.message,
                current_etag: w.current_etag,
            },
            None => r == ApiError::Http {
                status,
                code: fallback_code,
                message: body_text,
                current_etag: None,
            },
        },
{
    match wire {
        Some(w) => ApiError::Http {
            status,
            code: w.code,
            message: w.message,
            current_etag: w.current_etag,
        },
        None => ApiError::Http { status, code: fallback_code, message: body_text, current_etag: None },
    }
}

/// The decimal text of an HTTP status, the fallback error code of a request
/// whose error body could not be read.
pub fn status_code_text(status: u16) -> (r: String)
    ensures
        r@ == decimal(status as nat),
{
    string_of(&decimal_chars(status as u64))
}

// ---------------------------------------------------------------------------
// Query encoding
// ---------------------------------------------------------------------------

/// Characters that stand for themselves in a query value.
pub open spec fn is_unreserved(c: char) -> bool {
    ('A' <= c && c <= 'Z') || ('a' <= c && c <= 'z') || ('0' <= c && c <= '9') || c == '-' || c
        == '_' || c == '.' || c == '~'
}

/// Upper-case hexadecimal digit of `n` (0 to 15).
pub open spec fn hex_digit(n: nat) -> char {
    if n < 10 {
        crate::markdown::digit_char(n)
    } else if n == 10 {
        'A'
    } else if n == 11 {
        'B'
    } else if n == 12 {
        'C'
    } else if n == 13 {
        'D'
    } else if n == 14 {
        'E'
    } else {
        'F'
    }
}

/// How one character is written in a query: itself when unreserved, else
/// `%` and two hex digits of the low byte of its code point.
pub open spec fn encoded_char(c: char) -> Seq<char> {
    if is_unreserved(c) {
        seq![c]
    } else {
        let b = (c as u32 as nat) % 256;
        seq!['%', hex_digit(b / 16), hex_digit(b % 16)]
    }
}

/// A query value, encoded character by character.
pub open spec fn encoded(s: Seq<char>) -> Seq<char>
    decreases s.len(),
{
    if s.len() == 0 {
        seq![]
    } else {
        encoded(s.drop_last()) + encoded_char(s.last())
    }
}

fn hex(n: u32) -> (c: char)
    requires
        n < 16,
    ensures
        c == hex_digit(n as nat),
{
    if n < 10 {
        crate::markdown::decimal_chars(n as u64)[0]
    } else if n == 10 {
        'A'
    } else if n == 11 {
        'B'
    } else if n == 12 {
        'C'
    } else if n == 13 {
        'D'
    } else if n == 14 {
        'E'
    } else {
        'F'
    }
}

/// Minimal query-value encoding (see [`encoded`]).
pub fn urlencoding_lite(s: &str) -> (r: String)
    ensures
        r@ == encoded(s@),
{
    let v = chars_of(s);
    let mut out: Vec<char> = Vec::new();
    let mut i: usize = 0;
    while i < v.len()
        invariant
            i <= v.len(),
            out@ == encoded(v@.take(i as int)),
        decreases v.len() - i,
    {
        let c = v[i];
        let ghost before = out@;
        if ('A' <= c && c <= 'Z') || ('a' <= c && c <= 'z') || ('0' <= c && c <= '9') || c == '-'
            || c == '_' || c == '.' || c == '~' {
            out.push(c);
        } else {
            let b = (c as u32) % 256;
            out.push('%');
            out.push(hex(b / 16));
            out.push(hex(b % 16));
        }
        proof {
            assert(v@.take(i + 1).drop_last() =~= v@.take(i as int));
            assert(out@ =~= before + encoded_char(c));
        }
        i += 1;
    }
    assert(v@.take(v.len() as int) =~= v@);
    string_of(&out)
}

// ---------------------------------------------------------------------------
// Request paths
// ---------------------------------------------------------------------------

/// Decimal text of a signed number.
pub open spec fn signed_decimal(n: int) -> Seq<char> {
    if n < 0 {
        seq!['-'] + decimal((-n) as nat)
    } else {
        decimal(n as nat)
    }
}

fn signed_decimal_chars(n: i64) -> (r: Vec<char>)
    ensures
        r@ == signed_decimal(n as int),
{
    if n < 0 {
        let m: u64 = if n == i64::MIN {
            9223372036854775808u64
        } else {
            (-n) as u64
        };
        let mut r: Vec<char> = Vec::new();
        r.push('-');
        extend(&mut r, &decimal_chars(m));
        r
    } else {
        decimal_chars(n as u64)
    }
}

/// `true` or `false`.
pub open spec fn bool_text(b: bool) -> Seq<char> {
    if b {
        "true"@
    } else {
        "false"@
    }
}

fn bool_chars(b: bool) -> (r: Vec<char>)
    ensures
        r@ == bool_text(b),
{
    if b {
        chars_of("true")
    } else {
        chars_of("false")
    }
}

/// `n` clamped into `lo..=hi`.
pub open spec fn clamped(n: int, lo: int, hi: int) -> int {
    if n < lo {
        lo
    } else if n > hi {
        hi
    } else {
        n
    }
}

/// The memo list query: `limit` and `trash` always, the notebook id as given
/// when present, the search text encoded when present.
pub open spec fn memos_path_spec(notebook_id: Option<Seq<char>>, trash: bool, q: Option<Seq<char>>, limit: int) -> Seq<char> {
    let base = "/memos?limit="@ + signed_decimal(limit) + "&trash="@ + bool_text(trash);
    let with_nb = match notebook_id {
        Some(id) => base + "&notebook_id="@ + id,
        None => base,
    };
    match q {
        Some(q) => with_nb + "&q="@ + encoded(q),
        None => with_nb,
    }
}

pub fn memos_path(notebook_id: Option<&str>, trash: bool, q: Option<&str>, limit: i64) -> (r: String)
    ensures
        r@ == memos_path_spec(
            match notebook_id { Some(s) => Some(s@), None => None },
            trash,
            match q { Some(s) => Some(s@), None => None },
            limit as int,
        ),
{
    let mut p = chars_of("/memos?limit=");
    extend(&mut p, &signed_decimal_chars(limit));
    extend(&mut p, &chars_of("&trash="));
    extend(&mut p, &bool_chars(trash));
    if let Some(id) = notebook_id {
        extend(&mut p, &chars_of("&notebook_id="));
        extend(&mut p, &chars_of(id));
    }
    if let Some(q) = q {
        extend(&mut p, &chars_of("&q="));
        extend(&mut p, &chars_of(urlencoding_lite(q).as_str()));
    }
    string_of(&p)
}

/// The todo list query; the limit is clamped into 1..=200.
pub open spec fn todos_path_spec(filter: Seq<char>, limit: int) -> Seq<char> {
    "/todos?filter="@ + filter + "&limit="@ + signed_decimal(clamped(limit, 1, 200))
}

pub fn todos_path(filter: &str, limit: i64) -> (r: String)
    ensures
        r@ == todos_path_spec(filter@, limit as int),
{
    let l = if limit < 1 {
        1
    } else if limit > 200 {
        200
    } else {
        limit
    };
    let mut p = chars_of("/todos?filter=");
    extend(&mut p, &chars_of(filter));
    extend(&mut p, &chars_of("&limit="));
    extend(&mut p, &signed_decimal_chars(l));
    string_of(&p)
}

/// The path of a todo deletion, with its optimistic-concurrency guards.
pub open spec fn todo_delete_path_spec(id: Seq<char>, revision: nat, etag: Seq<char>, permanent: bool) -> Seq<char> {
    "/todos/"@ + id + "?base_revision="@ + decimal(revision) + "&if_match_etag="@ + etag
        + "&permanent="@ + bool_text(permanent)
}

pub fn todo_delete_path(todo: &Todo, permanent: bool) -> (r: String)
    ensures
        r@ == todo_delete_path_spec(todo.id@, todo.revision as nat, todo.etag@, permanent),
{
    let mut p = chars_of("/todos/");
    extend(&mut p, &chars_of(todo.id.as_str()));
    extend(&mut p, &chars_of("?base_revision="));
    extend(&mut p, &decimal_chars(todo.revision));
    extend(&mut p, &chars_of("&if_match_etag="));
    extend(&mut p, &chars_of(todo.etag.as_str()));
    extend(&mut p, &chars_of("&permanent="));
    extend(&mut p, &bool_chars(permanent));
    string_of(&p)
}

/// The path of a memo deletion.
pub open spec fn memo_delete_path_spec(id: Seq<char>, permanent: bool) -> Seq<char> {
    "/memos/"@ + id + "?permanent="@ + bool_text(permanent)
}

pub fn memo_delete_path(id: &str, permanent: bool) -> (r: String)
    ensures
        r@ == memo_delete_path_spec(id@, permanent),
{
    let mut p = chars_of("/memos/");
    extend(&mut p, &chars_of(id));
    extend(&mut p, &chars_of("?permanent="));
    extend(&mut p, &bool_chars(permanent));
    string_of(&p)
}

/// The sync journal query; the limit is clamped into 1..=500 and the device
/// id encoded.
pub open spec fn sync_pull_path_spec(cursor: nat, limit: int, device_id: Seq<char>) -> Seq<char> {
    "/sync/pull?cursor="@ + decimal(cursor) + "&limit="@ + signed_decimal(clamped(limit, 1, 500))
        + "&device_id="@ + encoded(device_id)
}

pub fn sync_pull_path(cursor: u64, limit: i64, device_id: &str) -> (r: String)
    ensures
        r@ == sync_pull_path_spec(cursor as nat, limit as int, device_id@),
{
    let l = if limit < 1 {
        1
    } else if limit > 500 {
        500
    } else {
        limit
    };
    let mut p = chars_of("/sync/pull?cursor=");
    extend(&mut p, &decimal_chars(cursor));
    extend(&mut p, &chars_of("&limit="));
    extend(&mut p, &signed_decimal_chars(l));
    extend(&mut p, &chars_of("&device_id="));
    extend(&mut p, &chars_of(urlencoding_lite(device_id).as_str()));
    string_of(&p)
}

/// `prefix`, the id and `suffix`: the path of one entity or of an action on
/// it (`/memos/{id}/open`, `/todos/{id}/complete`, ...).
pub fn entity_path(prefix: &str, id: &str, suffix: &str) -> (r: String)
    ensures
        r@ == prefix@ + id@ + suffix@,
{
    let mut p = chars_of(prefix);
    extend(&mut p, &chars_of(id));
    extend(&mut p, &chars_of(suffix));
    string_of(&p)
}

/// A base URL without trailing slashes, as the client keeps it.
pub fn trim_base_url(base_url: &str) -> (r: String)
    ensures
        r@ == crate::text::trim_end_char(base_url@, '/'),
{
    string_of(&crate::text::trim_end_char_chars(&chars_of(base_url), '/'))
}

/// The full URL of a request path.
pub fn request_url(base_url: &str, path: &str) -> (r: String)
    ensures
        r@ == base_url@ + path@,
{
    let mut p = chars_of(base_url);
    extend(&mut p, &chars_of(path));
    string_of(&p)
}

// ---------------------------------------------------------------------------
// Wire records
// ---------------------------------------------------------------------------

/// One page of the server's change journal.
#[derive(Debug)]
pub struct SyncPullResponse {
    pub protocol_version: u32,
    pub sync_epoch: u64,
    pub cursor: u64,
    pub changes: Vec<SyncChange>,
    pub has_more: bool,
}

/// One journal entry.
#[derive(Debug)]
pub struct SyncChange {
    pub id: u64,
    pub entity_type: String,
    pub entity_id: String,
    pub operation: String,
    pub payload_kind: String,
    pub payload_json: Option<String>,
    pub created_at: String,
}

/// A todo write sent through the sync endpoint.
#[derive(Debug)]
pub struct SyncTodoPush {
    pub todo: Todo,
    pub base_revision: Option<u64>,
    pub if_match_etag: Option<String>,
}

/// One operation of a sync push.
#[derive(Debug)]
pub struct SyncPushItem {
    pub client_op_id: String,
    pub op: String,
    pub todo: Option<SyncTodoPush>,
    pub depends_on_client_op_id: Option<String>,
}

/// The server's answer to a sync push.
#[derive(Debug)]
pub struct SyncPushResponse {
    pub results: Vec<SyncPushItemResult>,
}

/// The outcome of one pushed operation.
#[derive(Debug)]
pub struct SyncPushItemResult {
    pub client_op_id: String,
    pub ok: bool,
    pub error_code: Option<String>,
    pub todo: Option<Todo>,
}

/// A session created by a password login.
#[derive(Debug)]
pub struct LoginResponse {
    pub session_token: String,
    pub workspace_id: String,
    pub expires_at: String,
}

/// A minted API token (the plaintext only on creation).
#[derive(Debug)]
pub struct ApiTokenInfo {
    pub id: String,
    pub name: String,
    pub scopes: Vec<String>,
    pub token: Option<String>,
    pub expires_at: Option<String>,
    pub created_at: String,
}

/// The server's acknowledgement of a memo save.
#[derive(Debug)]
pub struct MemoSaveAck {
    pub protocol_version: u32,
    pub revision: u64,
    pub content_hash: String,
    pub etag: String,
    pub lease_id: Option<String>,
    pub saved_at: String,
}

/// The body of a memo as the server sends it: inline, or by content hash.
#[derive(Debug)]
pub enum MemoContentBody {
    Markdown(String),
    ContentRef(String),
}

/// Where the Markdown of a memo comes from.
#[derive(Debug)]
pub enum MemoBodySource {
    /// The text is at hand.
    Inline(String),
    /// The text must be fetched by this content hash.
    Fetch(String),
}

/// Inline Markdown is used as it is, a content reference is fetched, and no
/// body at all means `fallback`.
pub fn body_source(body: Option<MemoContentBody>, fallback: String) -> (r: MemoBodySource)
    ensures
        match body {
            Some(MemoContentBody::Markdown(s)) => r == MemoBodySource::Inline(s),
            Some(MemoContentBody::ContentRef(h)) => r == MemoBodySource::Fetch(h),
            None => r == MemoBodySource::Inline(fallback),
        },
{
    match body {
        Some(MemoContentBody::Markdown(s)) => MemoBodySource::Inline(s),
        Some(MemoContentBody::ContentRef(h)) => MemoBodySource::Fetch(h),
        None => MemoBodySource::Inline(fallback),
    }
}

/// The memo as opened for editing: the summary's fields, the body, the
/// etag and lease of the open (or of the summary on creation), and the
/// `Synced` state.
pub fn assemble_active_memo(
    summary: MemoSummary,
    markdown: String,
    etag: String,
    lease_id: Option<String>,
) -> (r: ActiveMemo)
    ensures
        r.id == summary.id,
        r.notebook_id == summary.notebook_id,
        r.title == summary.title,
        r.tags@ == summary.tags@,
        r.markdown == markdown,
        r.etag == etag,
        r.revision == summary.revision,
        r.content_hash == summary.content_hash,
        r.lease_id == lease_id,
        r.sync_state == SyncState::Synced,
{
    ActiveMemo {
        id: summary.id,
        notebook_id: summary.notebook_id,
        title: summary.title,
        tags: summary.tags,
        markdown,
        etag,
        revision: summary.revision,
        content_hash: summary.content_hash,
        lease_id,
        sync_state: SyncState::Synced,
    }
}

} // verus!
