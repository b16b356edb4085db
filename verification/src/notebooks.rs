//! Notebook (folder) decisions: the inbox, where a new memo goes, when a
//! folder may be deleted, the path shown above a memo, how siblings are
//! reordered and which folders the daily journal lives in.

use vstd::prelude::*;
use crate::clock::journal_date_now;
use crate::model::{MemoSummary, NavFilter, Notebook, SyncState};
use crate::text::{chars_of, str_eq, string_eq_str, string_of, trim, trim_chars};
use crate::order::{insert_by_nums, nums, sorted_by_nums, views};

verus! {

/// `n` is the inbox: its slug is `inbox`.
pub open spec fn is_inbox(n: Notebook) -> bool {
    n.slug matches Some(s) && s@ == "inbox"@
}

/// The inbox's id: the first notebook whose slug is `inbox`, else the first
/// notebook; none without notebooks.
pub open spec fn inbox_spec(ns: Seq<Notebook>) -> Option<Seq<char>> {
    if exists|i: int| 0 <= i < ns.len() && is_inbox(#[trigger] ns[i]) {
        let i = choose|i: int|
            0 <= i < ns.len() && is_inbox(#[trigger] ns[i]) && forall|j: int|
                0 <= j < i ==> !is_inbox(#[trigger] ns[j]);
        Some(ns[i].id@)
    } else if ns.len() > 0 {
        Some(ns[0].id@)
    } else {
        None
    }
}

/// Whether `n` is the inbox.
fn inbox_exec(n: &Notebook) -> (r: bool)
    ensures
        r == is_inbox(*n),
{
    match &n.slug {
        Some(s) => string_eq_str(s, "inbox"),
        None => false,
    }
}

/// The id of the inbox (see [`inbox_spec`]).
pub fn inbox_id(notebooks: &Vec<Notebook>) -> (r: Option<String>)
    ensures
        match inbox_spec(notebooks@) {
            Some(id) => r matches Some(x) && x@ == id,
            None => r is None,
        },
{
    let mut i: usize = 0;
    while i < notebooks.len()
        invariant
            i <= notebooks.len(),
            forall|j: int| 0 <= j < i ==> !is_inbox(#[trigger] notebooks@[j]),
        decreases notebooks.len() - i,
    {
        if inbox_exec(&notebooks[i]) {
            proof {
                let c = choose|c: int|
                    0 <= c < notebooks@.len() && is_inbox(#[trigger] notebooks@[c]) && forall|j: int|
                        0 <= j < c ==> !is_inbox(#[trigger] notebooks@[j]);
                if c < i {
                } else if c > i {
                    assert(is_inbox(notebooks@[i as int]));
                }
            }
            return Some(notebooks[i].id.clone());
        }
        i += 1;
    }
    if notebooks.len() > 0 {
        Some(notebooks[0].id.clone())
    } else {
        None
    }
}

/// The notebook a new memo goes into: the notebook the list shows, else the
/// first notebook; none when that id is empty (or there is no notebook).
pub open spec fn new_memo_notebook_spec(filter: NavFilter, ns: Seq<Notebook>) -> Option<Seq<char>> {
    let id = match filter {
        NavFilter::Notebook(id) => id@,
        _ => if ns.len() > 0 {
            ns[0].id@
        } else {
            Seq::<char>::empty()
        },
    };
    if id.len() == 0 {
        None
    } else {
        Some(id)
    }
}

/// The notebook a new memo goes into (see [`new_memo_notebook_spec`]).
pub fn new_memo_notebook(filter: &NavFilter, notebooks: &Vec<Notebook>) -> (r: Option<String>)
    ensures
        match new_memo_notebook_spec(*filter, notebooks@) {
            Some(id) => r matches Some(x) && x@ == id,
            None => r is None,
        },
{
    let id = match filter {
        NavFilter::Notebook(id) => id.clone(),
        _ => {
            if notebooks.len() > 0 {
                notebooks[0].id.clone()
            } else {
                String::new()
            }
        },
    };
    if id.as_str().is_empty() {
        None
    } else {
        Some(id)
    }
}

/// What deleting a notebook involves.
#[derive(Debug)]
pub enum DeletePlan {
    /// The inbox cannot be deleted.
    Inbox,
    /// Its child notebooks must be deleted first.
    HasChildren,
    /// Its memos would have to move to the inbox, and there is none.
    NoInbox,
    /// Move these memos to the inbox `move_to` (when there are any), then
    /// delete the notebook.
    Proceed { memo_ids: Vec<String>, move_to: Option<String> },
}

/// Some notebook is the inbox `id`.
pub open spec fn is_inbox_id(ns: Seq<Notebook>, id: Seq<char>) -> bool {
    exists|i: int| 0 <= i < ns.len() && is_inbox(#[trigger] ns[i]) && ns[i].id@ == id
}

/// The parent of `n` is `id`.
pub open spec fn child_of(n: Notebook, id: Seq<char>) -> bool {
    n.parent_id matches Some(p) && p@ == id
}

/// Some notebook has the parent `id`.
pub open spec fn has_child(ns: Seq<Notebook>, id: Seq<char>) -> bool {
    exists|i: int| 0 <= i < ns.len() && child_of(#[trigger] ns[i], id)
}

/// The ids of the live memos among the first `n` listed that are in the
/// notebook `id`, in order.
pub open spec fn memos_in(memos: Seq<(MemoSummary, SyncState)>, id: Seq<char>, n: nat) -> Seq<Seq<char>>
    decreases n,
{
    if n == 0 {
        seq![]
    } else {
        let prev = memos_in(memos, id, (n - 1) as nat);
        let m = memos[n - 1].0;
        if m.notebook_id@ == id && !m.is_deleted {
            prev.push(m.id@)
        } else {
            prev
        }
    }
}

/// The views of a list of texts.
pub open spec fn string_views(v: Seq<String>) -> Seq<Seq<char>> {
    Seq::new(v.len(), |i: int| v[i]@)
}

/// What deleting the notebook `id` involves: the inbox cannot go; a
/// notebook with children cannot go yet; else its live memos move to the
/// inbox first (see [`inbox_spec`]), which must then exist.
pub fn delete_notebook_plan(
    notebooks: &Vec<Notebook>,
    memos: &Vec<(MemoSummary, SyncState)>,
    notebook_id: &str,
) -> (r: DeletePlan)
    ensures
        is_inbox_id(notebooks@, notebook_id@) ==> r is Inbox,
        !is_inbox_id(notebooks@, notebook_id@) && has_child(notebooks@, notebook_id@) ==> r is HasChildren,
        !is_inbox_id(notebooks@, notebook_id@) && !has_child(notebooks@, notebook_id@) ==> {
            let ids = memos_in(memos@, notebook_id@, memos@.len());
            if ids.len() > 0 && inbox_spec(notebooks@) is None {
                r is NoInbox
            } else {
                &&& r matches DeletePlan::Proceed { memo_ids, move_to }
                &&& string_views(memo_ids@) == ids
                &&& match inbox_spec(notebooks@) {
                    Some(x) => move_to matches Some(y) && y@ == x,
                    None => move_to is None,
                }
            }
        },
{
    let mut i: usize = 0;
    while i < notebooks.len()
        invariant
            i <= notebooks.len(),
            forall|j: int|
                0 <= j < i ==> !(is_inbox(#[trigger] notebooks@[j]) && notebooks@[j].id@ == notebook_id@),
        decreases notebooks.len() - i,
    {
        if inbox_exec(&notebooks[i]) && str_eq(notebooks[i].id.as_str(), notebook_id) {
            return DeletePlan::Inbox;
        }
        i += 1;
    }
    let mut i: usize = 0;
    while i < notebooks.len()
        invariant
            i <= notebooks.len(),
            !is_inbox_id(notebooks@, notebook_id@),
            forall|j: int|
                0 <= j < i ==> !child_of(#[trigger] notebooks@[j], notebook_id@),
        decreases notebooks.len() - i,
    {
        match &notebooks[i].parent_id {
            Some(p) => {
                if str_eq(p.as_str(), notebook_id) {
                    return DeletePlan::HasChildren;
                }
            },
            None => {},
        }
        i += 1;
    }
    let mut ids: Vec<String> = Vec::new();
    let mut k: usize = 0;
    while k < memos.len()
        invariant
            k <= memos.len(),
            string_views(ids@) =~= memos_in(memos@, notebook_id@, k as nat),
        decreases memos.len() - k,
    {
        let m = &memos[k].0;
        if str_eq(m.notebook_id.as_str(), notebook_id) && !m.is_deleted {
            ids.push(m.id.clone());
        }
        k += 1;
    }
    let move_to = inbox_id(notebooks);
    if ids.len() > 0 && move_to.is_none() {
        return DeletePlan::NoInbox;
    }
    DeletePlan::Proceed { memo_ids: ids, move_to }
}

/// The list shows the notebook `id`.
pub open spec fn shows_notebook(f: NavFilter, id: Seq<char>) -> bool {
    f matches NavFilter::Notebook(n) && n@ == id
}

/// After the notebook `id` is deleted, a list showing it shows all memos.
pub fn leave_deleted_notebook(filter: &mut NavFilter, id: &str)
    ensures
        shows_notebook(*old(filter), id@) ==> *final(filter) == NavFilter::All,
        !shows_notebook(*old(filter), id@) ==> *final(filter) == *old(filter),
{
    let shown = match &*filter {
        NavFilter::Notebook(n) => str_eq(n.as_str(), id),
        _ => false,
    };
    if shown {
        *filter = NavFilter::All;
    }
}

/// The parent `p` is the parent `q` (both none, or the same id).
pub open spec fn same_parent(p: Option<String>, q: Option<Seq<char>>) -> bool {
    match (p, q) {
        (Some(a), Some(b)) => a@ == b,
        (None, None) => true,
        _ => false,
    }
}

/// Whether the parent `p` is the parent `q`.
pub fn parent_is(p: &Option<String>, q: Option<&str>) -> (r: bool)
    ensures
        r == same_parent(*p, match q {
            Some(s) => Some(s@),
            None => None,
        }),
{
    match (p, q) {
        (Some(a), Some(b)) => str_eq(a.as_str(), b),
        (None, None) => true,
        _ => false,
    }
}

/// `n` is a live notebook named `name` under the parent `parent`.
pub open spec fn is_child_named(n: Notebook, name: Seq<char>, parent: Option<Seq<char>>) -> bool {
    !n.is_deleted && n.name@ == name && same_parent(n.parent_id, parent)
}

/// The first live notebook named `name` under `parent`, if any: the journal
/// reuses it rather than creating a folder.
pub fn find_child_notebook(notebooks: &Vec<Notebook>, name: &str, parent: Option<&str>) -> (r: Option<usize>)
    ensures
        match r {
            Some(i) => i < notebooks@.len() && is_child_named(notebooks@[i as int], name@, match parent {
                Some(s) => Some(s@),
                None => None,
            }) && forall|j: int|
                0 <= j < i ==> !is_child_named(#[trigger] notebooks@[j], name@, match parent {
                    Some(s) => Some(s@),
                    None => None,
                }),
            None => forall|j: int|
                0 <= j < notebooks@.len() ==> !is_child_named(#[trigger] notebooks@[j], name@, match parent {
                    Some(s) => Some(s@),
                    None => None,
                }),
        },
{
    let ghost pv = match parent {
        Some(s) => Some(s@),
        None => None,
    };
    let mut i: usize = 0;
    while i < notebooks.len()
        invariant
            i <= notebooks.len(),
            pv == match parent {
                Some(s) => Some(s@),
                None => None::<Seq<char>>,
            },
            forall|j: int| 0 <= j < i ==> !is_child_named(#[trigger] notebooks@[j], name@, pv),
        decreases notebooks.len() - i,
    {
        let n = &notebooks[i];
        if !n.is_deleted && str_eq(n.name.as_str(), name) && parent_is(&n.parent_id, parent) {
            return Some(i);
        }
        i += 1;
    }
    None
}

/// A path separator of the journal folder setting: `/` or `\`.
pub open spec fn is_path_sep(c: char) -> bool {
    c == '/' || c == '\\'
}

/// `str::split` on the separators: the pieces between them, in order (an
/// empty text is one empty piece).
pub open spec fn split_path(s: Seq<char>) -> Seq<Seq<char>>
    decreases s.len(),
{
    if s.len() == 0 {
        seq![seq![]]
    } else {
        let prev = split_path(s.drop_last());
        if is_path_sep(s.last()) {
            prev.push(seq![])
        } else {
            prev.update(prev.len() - 1, prev.last().push(s.last()))
        }
    }
}

/// Splitting never gives an empty list of pieces.
proof fn lemma_split_path_len(s: Seq<char>)
    ensures
        split_path(s).len() >= 1,
    decreases s.len(),
{
    if s.len() > 0 {
        lemma_split_path_len(s.drop_last());
    }
}

/// A piece names a folder: not empty, `.` or `..` once trimmed.
pub open spec fn is_folder_name(p: Seq<char>) -> bool {
    trim(p).len() > 0 && trim(p) != "."@ && trim(p) != ".."@
}

/// The trimmed folder names among the first `n` pieces.
pub open spec fn folder_names(pieces: Seq<Seq<char>>, n: nat) -> Seq<Seq<char>>
    decreases n,
{
    if n == 0 {
        seq![]
    } else {
        let prev = folder_names(pieces, (n - 1) as nat);
        if is_folder_name(pieces[n - 1]) {
            prev.push(trim(pieces[n - 1]))
        } else {
            prev
        }
    }
}

/// The journal folders a setting names: its pieces between `/` and `\`,
/// trimmed, without empty, `.` and `..` pieces.
pub open spec fn journal_folders_spec(setting: Seq<char>) -> Seq<Seq<char>> {
    folder_names(split_path(setting), split_path(setting).len())
}

/// The pieces of `s` between separators.
fn split_path_exec(s: &Vec<char>) -> (r: Vec<Vec<char>>)
    ensures
        r@.len() == split_path(s@).len(),
        forall|k: int| 0 <= k < r@.len() ==> (#[trigger] r@[k])@ == split_path(s@)[k],
{
    let mut out: Vec<Vec<char>> = Vec::new();
    out.push(Vec::new());
    let mut i: usize = 0;
    assert(s@.take(0) =~= Seq::<char>::empty());
    while i < s.len()
        invariant
            i <= s.len(),
            out@.len() == split_path(s@.take(i as int)).len(),
            out@.len() >= 1,
            forall|k: int| 0 <= k < out@.len() ==> (#[trigger] out@[k])@ == split_path(s@.take(i as int))[k],
        decreases s.len() - i,
    {
        let c = s[i];
        assert(s@.take(i + 1).drop_last() =~= s@.take(i as int));
        assert(s@.take(i + 1).last() == c);
        let ghost prev = split_path(s@.take(i as int));
        if c == '/' || c == '\\' {
            out.push(Vec::new());
        } else {
            let last = out.len() - 1;
            let mut piece = out.remove(last);
            piece.push(c);
            out.push(piece);
            proof {
                let now = split_path(s@.take(i + 1));
                assert(now == prev.update(prev.len() - 1, prev.last().push(c)));
                assert forall|k: int| 0 <= k < out@.len() implies (#[trigger] out@[k])@ == now[k] by {
                    if k < last {
                    }
                }
            }
        }
        i += 1;
    }
    assert(s@.take(s.len() as int) =~= s@);
    out
}

/// The journal folders a setting names (see [`journal_folders_spec`]).
pub fn journal_folders(setting: &str) -> (r: Vec<String>)
    ensures
        string_views(r@) == journal_folders_spec(setting@),
{
    let pieces = split_path_exec(&chars_of(setting));
    let ghost pv = split_path(setting@);
    let mut out: Vec<String> = Vec::new();
    let mut k: usize = 0;
    while k < pieces.len()
        invariant
            k <= pieces.len(),
            pieces@.len() == pv.len(),
            pv == split_path(setting@),
            forall|j: int| 0 <= j < pieces@.len() ==> (#[trigger] pieces@[j])@ == pv[j],
            string_views(out@) =~= folder_names(pv, k as nat),
        decreases pieces.len() - k,
    {
        let t = trim_chars(&pieces[k]);
        let name = string_of(&t);
        if t.len() > 0 && !string_eq_str(&name, ".") && !string_eq_str(&name, "..") {
            out.push(name);
        }
        k += 1;
    }
    out
}

/// Where today's journal memo lives and what it is called.
#[derive(Debug)]
pub struct JournalPlan {
    /// The folder path from the top: the configured folders, then the year
    /// and the month.
    pub folders: Vec<String>,
    /// The memo title: the date as `YYYYMMDD`.
    pub title: String,
}

/// `p` puts the journal under `folders`, then a year and a month folder.
pub open spec fn plan_under(p: JournalPlan, folders: Seq<Seq<char>>) -> bool {
    exists|year: Seq<char>, month: Seq<char>|
        #[trigger] string_views(p.folders@) == folders.push(year).push(month)
}

/// The memo `m` is titled `t`.
pub open spec fn titled_as(m: MemoSummary, t: Seq<char>) -> bool {
    m.title matches Some(x) && x@ == t
}

/// The journal folder setting in effect: the stored one, else `Journal`.
pub open spec fn journal_setting(stored: Option<Seq<char>>) -> Seq<char> {
    match stored {
        Some(s) => s,
        None => "Journal"@,
    }
}

/// `r` is the journal plan for the stored folder setting `stored`, with the
/// date's title `title`, year `year` and month `month`: none when the setting
/// names no folder; else its folders followed by the year and then the month
/// folder, and the title.
pub open spec fn journal_plan_is(
    r: Option<JournalPlan>,
    stored: Option<Seq<char>>,
    title: Seq<char>,
    year: Seq<char>,
    month: Seq<char>,
) -> bool {
    let folders = journal_folders_spec(journal_setting(stored));
    &&& folders.len() == 0 ==> r is None
    &&& folders.len() > 0 ==> (r matches Some(p) && string_views(p.folders@) == folders.push(year).push(month)
        && p.title@ == title)
}

/// `title`, `year` and `month` are one date written as `YYYYMMDD`, `YYYY` and
/// `MM`: the title is the year, the two-character month, then two more
/// characters for the day.
pub open spec fn one_date(title: Seq<char>, year: Seq<char>, month: Seq<char>) -> bool {
    &&& month.len() == 2
    &&& title.len() == year.len() + 4
    &&& title.take(year.len() + 2int) == year + month
}

/// The journal plan for the stored folder setting `stored` on the date
/// written `title` (`YYYYMMDD`), `year` and `month` (see
/// [`journal_plan_is`]).
pub fn journal_plan_at(stored: Option<String>, title: String, year: String, month: String) -> (r: Option<
    JournalPlan,
>)
    ensures
        journal_plan_is(r, opt_string(stored), title@, year@, month@),
{
    let setting = match stored {
        Some(s) => s,
        None => string_of(&chars_of("Journal")),
    };
    let mut folders = journal_folders(setting.as_str());
    if folders.len() == 0 {
        return None;
    }
    let ghost before = folders@;
    folders.push(year);
    folders.push(month);
    assert(string_views(folders@) =~= string_views(before).push(year@).push(month@));
    Some(JournalPlan { folders, title })
}

/// Today's journal plan for the stored folder setting `stored`: the plan of
/// [`journal_plan_at`] on one reading of the clock's local date.
pub fn journal_plan(stored: Option<String>) -> (r: Option<JournalPlan>)
    ensures
        exists|title: Seq<char>, year: Seq<char>, month: Seq<char>|
            #[trigger] journal_plan_is(r, opt_string(stored), title, year, month) && one_date(title, year, month),
{
    let (title, year, month) = journal_date_now();
    let ghost (t, y, m) = (title@, year@, month@);
    let r = journal_plan_at(stored, title, year, month);
    assert(journal_plan_is(r, opt_string(stored), t, y, m) && one_date(t, y, m));
    r
}

/// The first memo titled `title`, if any: today's journal when it exists.
pub fn find_titled(memos: &Vec<MemoSummary>, title: &str) -> (r: Option<String>)
    ensures
        match r {
            Some(id) => exists|i: int|
                0 <= i < memos@.len() && titled_as(#[trigger] memos@[i], title@) && id == memos@[i].id,
            None => forall|i: int| 0 <= i < memos@.len() ==> !titled_as(#[trigger] memos@[i], title@),
        },
{
    let mut i: usize = 0;
    while i < memos.len()
        invariant
            i <= memos.len(),
            forall|j: int| 0 <= j < i ==> !titled_as(#[trigger] memos@[j], title@),
        decreases memos.len() - i,
    {
        let found = match &memos[i].title {
            Some(t) => str_eq(t.as_str(), title),
            None => false,
        };
        if found {
            return Some(memos[i].id.clone());
        }
        i += 1;
    }
    None
}

/// The position of the notebook `id` as a lookup by id finds it: the last
/// notebook with that id (a later entry replaces an earlier one), or -1.
pub open spec fn lookup_notebook(ns: Seq<Notebook>, id: Seq<char>) -> int
    decreases ns.len(),
{
    if ns.len() == 0 {
        -1
    } else if ns.last().id@ == id {
        ns.len() - 1
    } else {
        lookup_notebook(ns.drop_last(), id)
    }
}

/// What [`lookup_notebook`] finds.
proof fn lemma_lookup_notebook(ns: Seq<Notebook>, id: Seq<char>)
    ensures
        -1 <= lookup_notebook(ns, id) < ns.len(),
        lookup_notebook(ns, id) >= 0 ==> ns[lookup_notebook(ns, id)].id@ == id,
    decreases ns.len(),
{
    if ns.len() > 0 && ns.last().id@ != id {
        lemma_lookup_notebook(ns.drop_last(), id);
    }
}

/// The position of the notebook `id` (see [`lookup_notebook`]).
fn lookup_exec(ns: &Vec<Notebook>, id: &str) -> (r: Option<usize>)
    ensures
        match r {
            Some(i) => i == lookup_notebook(ns@, id@) && i < ns@.len(),
            None => lookup_notebook(ns@, id@) == -1,
        },
{
    proof {
        lemma_lookup_notebook(ns@, id@);
    }
    let mut n: usize = ns.len();
    assert(ns@.take(n as int) =~= ns@);
    while n > 0
        invariant
            n <= ns.len(),
            lookup_notebook(ns@, id@) == lookup_notebook(ns@.take(n as int), id@),
        decreases n,
    {
        assert(ns@.take(n as int).drop_last() =~= ns@.take(n - 1));
        if str_eq(ns[n - 1].id.as_str(), id) {
            return Some(n - 1);
        }
        n -= 1;
    }
    None
}

/// The names from the notebook `id` up through its parents, nearest first,
/// until a parent is missing or absent; `fuel` bounds the notebooks taken.
/// None when the parents run in a circle longer than `fuel`.
pub open spec fn chain_names(ns: Seq<Notebook>, id: Seq<char>, fuel: nat) -> Option<Seq<Seq<char>>>
    decreases fuel,
{
    let i = lookup_notebook(ns, id);
    if i < 0 {
        Some(seq![])
    } else if fuel == 0 {
        None
    } else {
        match ns[i].parent_id {
            None => Some(seq![ns[i].name@]),
            Some(p) => match chain_names(ns, p@, (fuel - 1) as nat) {
                Some(rest) => Some(seq![ns[i].name@] + rest),
                None => None,
            },
        }
    }
}

/// The path shown above a memo in the notebook `id`: the names from the top
/// notebook down to it. None when its parents run in a circle (the walk up
/// would never end).
pub open spec fn breadcrumb_spec(ns: Seq<Notebook>, id: Seq<char>) -> Option<Seq<Seq<char>>> {
    match chain_names(ns, id, ns.len()) {
        Some(names) => Some(names.reverse()),
        None => None,
    }
}

/// `names` followed by the chain `rest`, if there is one.
pub open spec fn prepend_chain(names: Seq<Seq<char>>, rest: Option<Seq<Seq<char>>>) -> Option<Seq<Seq<char>>> {
    match rest {
        Some(r) => Some(names + r),
        None => None,
    }
}

/// The path shown above a memo in the notebook `notebook_id` (see
/// [`breadcrumb_spec`]).
pub fn notebook_breadcrumb_path(notebooks: &Vec<Notebook>, notebook_id: &str) -> (r: Option<Vec<String>>)
    ensures
        match breadcrumb_spec(notebooks@, notebook_id@) {
            Some(names) => r matches Some(v) && string_views(v@) == names,
            None => r is None,
        },
{
    let ghost ns = notebooks@;
    let ghost whole = chain_names(ns, notebook_id@, ns.len());
    let mut segments: Vec<String> = Vec::new();
    let mut current = string_of(&chars_of(notebook_id));
    let mut fuel: usize = notebooks.len();
    loop
        invariant
            ns == notebooks@,
            fuel <= notebooks.len(),
            whole == chain_names(ns, notebook_id@, ns.len()),
            whole == prepend_chain(string_views(segments@), chain_names(ns, current@, fuel as nat)),
        ensures
            whole == Some(string_views(segments@)),
        decreases fuel,
    {
        let i = match lookup_exec(notebooks, current.as_str()) {
            Some(i) => i,
            None => {
                assert(whole == Some(string_views(segments@)));
                break;
            },
        };
        if fuel == 0 {
            return None;
        }
        let ghost segs = segments@;
        segments.push(notebooks[i].name.clone());
        assert(string_views(segments@) =~= string_views(segs) + seq![notebooks@[i as int].name@]);
        match &notebooks[i].parent_id {
            Some(p) => {
                let next = p.clone();
                current = next;
                fuel -= 1;
            },
            None => {
                assert(whole == Some(string_views(segments@)));
                return Some(reversed_strings(&segments));
            },
        }
    }
    Some(reversed_strings(&segments))
}

/// The texts of `v` in reverse order.
fn reversed_strings(v: &Vec<String>) -> (r: Vec<String>)
    ensures
        string_views(r@) == string_views(v@).reverse(),
{
    let mut out: Vec<String> = Vec::new();
    let mut k: usize = v.len();
    while k > 0
        invariant
            k <= v@.len(),
            out@.len() == v@.len() - k,
            forall|j: int| 0 <= j < out@.len() ==> (#[trigger] out@[j])@ == v@[v@.len() - 1 - j]@,
        decreases k,
    {
        out.push(v[k - 1].clone());
        k -= 1;
    }
    assert(string_views(out@) =~= string_views(v@).reverse());
    out
}

/// The sort order of the first notebook `id` (0 when there is none): the
/// key siblings are ordered by.
pub open spec fn first_sort_order(ns: Seq<Notebook>, id: Seq<char>) -> int
    decreases ns.len(),
{
    if ns.len() == 0 {
        0
    } else if ns[0].id@ == id {
        ns[0].sort_order as int
    } else {
        first_sort_order(ns.drop_first(), id)
    }
}

/// The sort order of the first notebook `id`.
fn first_sort_order_exec(ns: &Vec<Notebook>, id: &str) -> (r: i32)
    ensures
        r == first_sort_order(ns@, id@),
{
    let mut i: usize = 0;
    assert(ns@.skip(0) =~= ns@);
    while i < ns.len()
        invariant
            i <= ns.len(),
            first_sort_order(ns@, id@) == first_sort_order(ns@.skip(i as int), id@),
        decreases ns.len() - i,
    {
        assert(ns@.skip(i as int).drop_first() =~= ns@.skip(i + 1));
        if str_eq(ns[i].id.as_str(), id) {
            return ns[i].sort_order;
        }
        i += 1;
    }
    0
}

/// The ids of the live notebooks among the first `n` that sit under
/// `parent`, in list order.
pub open spec fn sibling_ids(ns: Seq<Notebook>, parent: Option<Seq<char>>, n: nat) -> Seq<Seq<char>>
    decreases n,
{
    if n == 0 {
        seq![]
    } else {
        let prev = sibling_ids(ns, parent, (n - 1) as nat);
        if !ns[n - 1].is_deleted && same_parent(ns[n - 1].parent_id, parent) {
            prev.push(ns[n - 1].id@)
        } else {
            prev
        }
    }
}

/// `sorted` is `ids` ordered by the sort order of their first notebooks,
/// ids with equal keys keeping their order (a stable sort).
pub open spec fn sorted_siblings(ns: Seq<Notebook>, ids: Seq<Seq<char>>, sorted: Seq<Seq<char>>) -> bool {
    let keys = Seq::new(ids.len(), |k: int| first_sort_order(ns, ids[k]));
    let blank = Seq::new(ids.len(), |k: int| Seq::<char>::empty());
    exists|idx: Seq<usize>|
        #[trigger] sorted_by_nums(keys, blank, idx) && idx.len() == ids.len() && sorted.len() == ids.len()
            && (forall|k: int| 0 <= k < idx.len() ==> (#[trigger] idx[k]) < ids.len())
            && (forall|k: int| 0 <= k < idx.len() ==> #[trigger] sorted[k] == ids[idx[k] as int])
}

/// The first position of `id` in `ids`, or -1.
pub open spec fn position_of(ids: Seq<Seq<char>>, id: Seq<char>) -> int
    decreases ids.len(),
{
    if ids.len() == 0 {
        -1
    } else if ids[0] == id {
        0
    } else {
        let p = position_of(ids.drop_first(), id);
        if p < 0 {
            -1
        } else {
            p + 1
        }
    }
}

/// What dropping a notebook onto another calls for.
#[derive(Debug)]
pub enum ReorderPlan {
    /// Dropped onto itself: nothing.
    Nothing,
    /// The two are not siblings: folders only reorder within one level.
    OtherLevel,
    /// One of them is not among the live siblings: nothing.
    Missing,
    /// Send the new order `ids` of the children of `parent_id`.
    Reorder { parent_id: Option<String>, ids: Vec<String> },
}

/// The view of an optional text.
pub open spec fn opt_str(o: Option<&str>) -> Option<Seq<char>> {
    match o {
        Some(s) => Some(s@),
        None => None,
    }
}

/// The view of an optional owned text.
pub open spec fn opt_string(o: Option<String>) -> Option<Seq<char>> {
    match o {
        Some(s) => Some(s@),
        None => None,
    }
}

/// Dropping the notebook `dragged_id` (under `dragged_parent`) onto the
/// notebook `target_id` (under `target_parent`): the live siblings under
/// the target's parent, ordered by sort order, with the dragged one moved
/// to the target's place.
pub fn reorder_plan(
    notebooks: &Vec<Notebook>,
    dragged_id: &str,
    dragged_parent: Option<&str>,
    target_id: &str,
    target_parent: Option<&str>,
) -> (r: ReorderPlan)
    ensures
        dragged_id@ == target_id@ ==> r is Nothing,
        dragged_id@ != target_id@ && opt_str(dragged_parent) != opt_str(target_parent) ==> r is OtherLevel,
        dragged_id@ != target_id@ && opt_str(dragged_parent) == opt_str(target_parent) ==> {
            let ids = sibling_ids(notebooks@, opt_str(target_parent), notebooks@.len());
            exists|sorted: Seq<Seq<char>>|
                #[trigger] sorted_siblings(notebooks@, ids, sorted) && {
                    let from = position_of(sorted, dragged_id@);
                    let to = position_of(sorted, target_id@);
                    if from < 0 || to < 0 {
                        r is Missing
                    } else {
                        &&& r matches ReorderPlan::Reorder { parent_id, ids: out }
                        &&& opt_string(parent_id) == opt_str(target_parent)
                        &&& string_views(out@) == sorted.remove(from).insert(to, sorted[from])
                    }
                }
        },
{
    if str_eq(dragged_id, target_id) {
        return ReorderPlan::Nothing;
    }
    let same = match (dragged_parent, target_parent) {
        (Some(a), Some(b)) => str_eq(a, b),
        (None, None) => true,
        _ => false,
    };
    if !same {
        return ReorderPlan::OtherLevel;
    }
    let ghost pv = opt_str(target_parent);
    let mut ids: Vec<String> = Vec::new();
    let mut i: usize = 0;
    while i < notebooks.len()
        invariant
            i <= notebooks.len(),
            pv == opt_str(target_parent),
            string_views(ids@) =~= sibling_ids(notebooks@, pv, i as nat),
        decreases notebooks.len() - i,
    {
        let n = &notebooks[i];
        if !n.is_deleted && parent_is(&n.parent_id, target_parent) {
            ids.push(n.id.clone());
        }
        i += 1;
    }
    let ghost idv = string_views(ids@);
    let mut keys: Vec<i32> = Vec::new();
    let mut blank: Vec<Vec<char>> = Vec::new();
    let mut k: usize = 0;
    while k < ids.len()
        invariant
            k <= ids.len(),
            idv == string_views(ids@),
            keys@.len() == k,
            blank@.len() == k,
            nums(keys@) =~= Seq::new(idv.len(), |j: int| first_sort_order(notebooks@, idv[j])).take(k as int),
            views(blank@) =~= Seq::new(idv.len(), |j: int| Seq::<char>::empty()).take(k as int),
        decreases ids.len() - k,
    {
        keys.push(first_sort_order_exec(notebooks, ids[k].as_str()));
        blank.push(Vec::new());
        k += 1;
    }
    let ghost kv = Seq::new(idv.len(), |j: int| first_sort_order(notebooks@, idv[j]));
    let ghost bv = Seq::new(idv.len(), |j: int| Seq::<char>::empty());
    assert(nums(keys@) =~= kv);
    assert(views(blank@) =~= bv);
    let mut idx: Vec<usize> = Vec::new();
    let mut k: usize = 0;
    while k < ids.len()
        invariant
            k <= ids.len(),
            keys@.len() == ids@.len(),
            blank@.len() == ids@.len(),
            nums(keys@) == kv,
            views(blank@) == bv,
            idx@.len() == k,
            sorted_by_nums(kv, bv, idx@),
            forall|a: int| 0 <= a < idx@.len() ==> (#[trigger] idx@[a]) < k,
        decreases ids.len() - k,
    {
        let ghost prev = idx@;
        insert_by_nums(&keys, &blank, &mut idx, k);
        proof {
            assert forall|a: int| 0 <= a < idx@.len() implies (#[trigger] idx@[a]) < k + 1 by {
                assert(idx@.contains(idx@[a]));
                if idx@[a] != k {
                    let w = choose|w: int| 0 <= w < prev.len() && prev[w] == idx@[a];
                }
            }
        }
        k += 1;
    }
    let mut sorted: Vec<String> = Vec::new();
    let mut k: usize = 0;
    while k < idx.len()
        invariant
            k <= idx.len(),
            idx@.len() == ids@.len(),
            sorted@.len() == k,
            forall|a: int| 0 <= a < idx@.len() ==> (#[trigger] idx@[a]) < ids@.len(),
            forall|a: int| 0 <= a < k ==> (#[trigger] sorted@[a])@ == ids@[idx@[a] as int]@,
        decreases idx.len() - k,
    {
        sorted.push(ids[idx[k]].clone());
        k += 1;
    }
    let ghost sv = string_views(sorted@);
    assert(sorted_siblings(notebooks@, idv, sv));
    let from = match position_exec(&sorted, dragged_id) {
        Some(p) => p,
        None => {
            return ReorderPlan::Missing;
        },
    };
    let to = match position_exec(&sorted, target_id) {
        Some(p) => p,
        None => {
            return ReorderPlan::Missing;
        },
    };
    let moved = sorted.remove(from);
    sorted.insert(to, moved);
    proof {
        assert(string_views(sorted@) =~= sv.remove(from as int).insert(to as int, sv[from as int]));
    }
    let parent_id = match target_parent {
        Some(p) => Some(string_of(&chars_of(p))),
        None => None,
    };
    ReorderPlan::Reorder { parent_id, ids: sorted }
}

/// The first position of `id` among `ids`.
fn position_exec(ids: &Vec<String>, id: &str) -> (r: Option<usize>)
    ensures
        match r {
            Some(p) => p == position_of(string_views(ids@), id@) && p < ids@.len(),
            None => position_of(string_views(ids@), id@) < 0,
        },
{
    let ghost v = string_views(ids@);
    let mut i: usize = 0;
    assert(v.skip(0) =~= v);
    while i < ids.len()
        invariant
            i <= ids.len(),
            v == string_views(ids@),
            position_of(v, id@) == if position_of(v.skip(i as int), id@) < 0 {
                -1
            } else {
                position_of(v.skip(i as int), id@) + i
            },
        decreases ids.len() - i,
    {
        assert(v.skip(i as int).drop_first() =~= v.skip(i + 1));
        assert(v.skip(i as int)[0] == ids@[i as int]@);
        if str_eq(ids[i].as_str(), id) {
            return Some(i);
        }
        i += 1;
    }
    None
}

} // verus!
