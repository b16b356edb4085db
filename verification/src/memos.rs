//! The memo list: which memos a navigation filter shows and in what order,
//! the local part of a memo search and how it merges with the server's
//! results, and the tag edits of the open memo.

use vstd::prelude::*;
use crate::model::{MemoSummary, NavFilter, SyncState, display_title_of};
use crate::order::{insert_by_keys, sorted_by_keys, views};
use crate::text::{chars_of, has_string, holds_string, contains_chars, contains_seq, eq_ascii_nocase, eq_ignore_ascii_case, str_eq, string_of, trim, trim_chars};

verus! {

/// Some tag of `tags` equals `tag` ignoring ASCII case.
pub open spec fn has_tag_nocase(tags: Seq<String>, tag: Seq<char>) -> bool {
    exists|k: int| 0 <= k < tags.len() && eq_ascii_nocase((#[trigger] tags[k])@, tag)
}

/// `m` is shown under the navigation filter `f`: the trash shows deleted
/// memos, every other view live ones; a tag view matches tags ignoring ASCII
/// case.
pub open spec fn memo_in_view(m: MemoSummary, f: NavFilter) -> bool {
    match f {
        NavFilter::All => !m.is_deleted,
        NavFilter::Pinned => m.is_pinned && !m.is_deleted,
        NavFilter::Trash => m.is_deleted,
        NavFilter::Notebook(id) => !m.is_deleted && m.notebook_id@ == id@,
        NavFilter::Tag(t) => !m.is_deleted && has_tag_nocase(m.tags@, t@),
    }
}

/// Whether some tag of `tags` equals `tag` ignoring ASCII case.
pub fn contains_tag_nocase(tags: &Vec<String>, tag: &str) -> (r: bool)
    ensures
        r == has_tag_nocase(tags@, tag@),
{
    let mut k: usize = 0;
    while k < tags.len()
        invariant
            k <= tags.len(),
            forall|j: int| 0 <= j < k ==> !eq_ascii_nocase((#[trigger] tags@[j])@, tag@),
        decreases tags.len() - k,
    {
        if eq_ignore_ascii_case(tags[k].as_str(), tag) {
            return true;
        }
        k += 1;
    }
    false
}

/// Whether `m` is shown under the navigation filter `f`.
pub fn memo_in_view_exec(m: &MemoSummary, f: &NavFilter) -> (r: bool)
    ensures
        r == memo_in_view(*m, *f),
{
    match f {
        NavFilter::All => !m.is_deleted,
        NavFilter::Pinned => m.is_pinned && !m.is_deleted,
        NavFilter::Trash => m.is_deleted,
        NavFilter::Notebook(id) => !m.is_deleted && str_eq(m.notebook_id.as_str(), id.as_str()),
        NavFilter::Tag(t) => !m.is_deleted && contains_tag_nocase(&m.tags, t.as_str()),
    }
}

/// The last-update times of the listed memos, by position.
pub open spec fn updated_keys(memos: Seq<(MemoSummary, SyncState)>) -> Seq<Seq<char>> {
    Seq::new(memos.len(), |i: int| memos[i].0.updated_at@)
}

/// The ids of the listed memos, by position.
pub open spec fn id_keys(memos: Seq<(MemoSummary, SyncState)>) -> Seq<Seq<char>> {
    Seq::new(memos.len(), |i: int| memos[i].0.id@)
}

/// `idx` lists the positions of the memos shown under `f`, most recently
/// updated first, then by id; equal memos keep their list order.
pub open spec fn is_memo_view(memos: Seq<(MemoSummary, SyncState)>, f: NavFilter, idx: Seq<usize>) -> bool {
    &&& sorted_by_keys(updated_keys(memos), id_keys(memos), true, idx)
    &&& forall|k: int|
        0 <= k < idx.len() ==> (#[trigger] idx[k]) < memos.len() && memo_in_view(
            memos[idx[k] as int].0,
            f,
        )
    &&& forall|i: int|
        0 <= i < memos.len() && memo_in_view(#[trigger] memos[i].0, f) ==> idx.contains(
            i as usize,
        )
}

/// The entry `r` copies the list entry `e`.
pub open spec fn copies_entry(r: (MemoSummary, SyncState), e: (MemoSummary, SyncState)) -> bool {
    r.0.same_as(e.0) && r.1 == e.1
}

/// The memos shown under the navigation filter `filter`, most recently
/// updated first, ties by id, then in list order.
pub fn visible_memos(memos: &Vec<(MemoSummary, SyncState)>, filter: &NavFilter) -> (r: Vec<
    (MemoSummary, SyncState),
>)
    ensures
        exists|idx: Seq<usize>|
            is_memo_view(memos@, *filter, idx) && r@.len() == idx.len() && forall|k: int|
                0 <= k < idx.len() ==> copies_entry(#[trigger] r@[k], memos@[idx[k] as int]),
{
    let mut updated: Vec<Vec<char>> = Vec::new();
    let mut ids: Vec<Vec<char>> = Vec::new();
    let mut i: usize = 0;
    while i < memos.len()
        invariant
            i <= memos.len(),
            updated@.len() == i,
            ids@.len() == i,
            views(updated@) =~= updated_keys(memos@).take(i as int),
            views(ids@) =~= id_keys(memos@).take(i as int),
        decreases memos.len() - i,
    {
        updated.push(chars_of(memos[i].0.updated_at.as_str()));
        ids.push(chars_of(memos[i].0.id.as_str()));
        i += 1;
    }
    assert(views(updated@) =~= updated_keys(memos@));
    assert(views(ids@) =~= id_keys(memos@));
    let mut idx: Vec<usize> = Vec::new();
    let mut i: usize = 0;
    while i < memos.len()
        invariant
            i <= memos.len(),
            updated@.len() == memos@.len(),
            ids@.len() == memos@.len(),
            views(updated@) == updated_keys(memos@),
            views(ids@) == id_keys(memos@),
            sorted_by_keys(updated_keys(memos@), id_keys(memos@), true, idx@),
            forall|k: int|
                0 <= k < idx@.len() ==> (#[trigger] idx@[k]) < i && memo_in_view(
                    memos@[idx@[k] as int].0,
                    *filter,
                ),
            forall|j: int|
                0 <= j < i && memo_in_view(#[trigger] memos@[j].0, *filter) ==> idx@.contains(
                    j as usize,
                ),
        decreases memos.len() - i,
    {
        if memo_in_view_exec(&memos[i].0, filter) {
            let ghost prev = idx@;
            insert_by_keys(&updated, &ids, true, &mut idx, i);
            proof {
                assert forall|k: int| 0 <= k < idx@.len() implies (#[trigger] idx@[k]) < i + 1
                    && memo_in_view(memos@[idx@[k] as int].0, *filter) by {
                    assert(idx@.contains(idx@[k]));
                    if idx@[k] != i {
                        let w = choose|w: int| 0 <= w < prev.len() && prev[w] == idx@[k];
                    }
                }
                assert forall|j: int|
                    0 <= j < i + 1 && memo_in_view(#[trigger] memos@[j].0, *filter) implies idx@.contains(
                    j as usize,
                ) by {
                    if j < i {
                        assert(prev.contains(j as usize));
                    }
                }
            }
        }
        i += 1;
    }
    let mut out: Vec<(MemoSummary, SyncState)> = Vec::new();
    let mut k: usize = 0;
    while k < idx.len()
        invariant
            k <= idx.len(),
            out@.len() == k,
            forall|a: int| 0 <= a < idx@.len() ==> (#[trigger] idx@[a]) < memos.len(),
            forall|a: int| 0 <= a < k ==> copies_entry(#[trigger] out@[a], memos@[idx@[a] as int]),
        decreases idx.len() - k,
    {
        let e = &memos[idx[k]];
        out.push((e.0.clone(), e.1));
        k += 1;
    }
    assert(is_memo_view(memos@, *filter, idx@));
    out
}

/// The Unicode lower-case mapping of a text, as `str::to_lowercase` gives it.
pub uninterp spec fn lowercase(s: Seq<char>) -> Seq<char>;

/// `str::to_lowercase`: the text with each character replaced by its Unicode
/// lower-case mapping. The mapping itself is not stated; the result is named
/// [`lowercase`] of the text.
#[verifier::external_body]
pub(crate) fn lower_text(s: &str) -> (r: String)
    ensures
        r@ == lowercase(s@),
{
    s.to_lowercase()
}

/// Some tag of `tags` holds `needle` once lower-cased.
pub open spec fn tag_hits(tags: Seq<String>, needle: Seq<char>) -> bool {
    exists|k: int| 0 <= k < tags.len() && contains_seq(lowercase((#[trigger] tags[k])@), needle)
}

/// `m` is a local search hit for the lower-cased query `needle`: a live memo
/// whose shown title, excerpt or some tag holds it once lower-cased.
pub open spec fn memo_hits(m: MemoSummary, needle: Seq<char>) -> bool {
    &&& !m.is_deleted
    &&& contains_seq(lowercase(display_title_of(m.title)), needle) || contains_seq(
        lowercase(m.excerpt@),
        needle,
    ) || tag_hits(m.tags@, needle)
}

/// The positions of the hits among the first `n` memos, in list order.
pub open spec fn hit_positions(memos: Seq<(MemoSummary, SyncState)>, needle: Seq<char>, n: nat) -> Seq<
    int,
>
    decreases n,
{
    if n == 0 {
        seq![]
    } else {
        let prev = hit_positions(memos, needle, (n - 1) as nat);
        if memo_hits(memos[n - 1].0, needle) {
            prev.push(n - 1)
        } else {
            prev
        }
    }
}

/// The most results a memo search lists.
pub const SEARCH_LIMIT: usize = 200;

/// Whether `text`, lower-cased, holds `needle`.
fn lower_contains(text: &str, needle: &Vec<char>) -> (r: bool)
    ensures
        r == contains_seq(lowercase(text@), needle@),
{
    contains_chars(&chars_of(lower_text(text).as_str()), needle)
}

/// Whether `m` is a local search hit for `needle`.
pub fn memo_hits_exec(m: &MemoSummary, needle: &Vec<char>) -> (r: bool)
    ensures
        r == memo_hits(*m, needle@),
{
    if m.is_deleted {
        return false;
    }
    if lower_contains(m.display_title(), needle) || lower_contains(m.excerpt.as_str(), needle) {
        return true;
    }
    let mut k: usize = 0;
    while k < m.tags.len()
        invariant
            k <= m.tags.len(),
            !m.is_deleted,
            forall|j: int| 0 <= j < k ==> !contains_seq(lowercase((#[trigger] m.tags@[j])@), needle@),
        decreases m.tags.len() - k,
    {
        if lower_contains(m.tags[k].as_str(), needle) {
            assert(contains_seq(lowercase(m.tags@[k as int]@), needle@));
            assert(tag_hits(m.tags@, needle@));
            return true;
        }
        k += 1;
    }
    false
}

/// The local part of a memo search: with `needle` the trimmed query
/// lower-cased, nothing for an empty needle, else copies of the hits in list
/// order, at most [`SEARCH_LIMIT`] of them.
pub fn search_memos_local(memos: &Vec<(MemoSummary, SyncState)>, query: &str) -> (r: Vec<
    (MemoSummary, SyncState),
>)
    ensures
        ({
            let needle = lowercase(trim(query@));
            let hits = hit_positions(memos@, needle, memos@.len());
            &&& needle.len() == 0 ==> r@.len() == 0
            &&& needle.len() > 0 ==> r@.len() == if hits.len() <= 200 {
                hits.len() as int
            } else {
                200
            }
            &&& needle.len() > 0 ==> forall|k: int|
                0 <= k < r@.len() ==> copies_entry(#[trigger] r@[k], memos@[hits[k]])
        }),
{
    let trimmed = string_of(&trim_chars(&chars_of(query)));
    let needle = chars_of(lower_text(trimmed.as_str()).as_str());
    let mut out: Vec<(MemoSummary, SyncState)> = Vec::new();
    if needle.len() == 0 {
        return out;
    }
    let ghost hits_all = hit_positions(memos@, needle@, memos@.len());
    let mut i: usize = 0;
    while i < memos.len() && out.len() < SEARCH_LIMIT
        invariant
            i <= memos.len(),
            out@.len() <= 200,
            ({
                let h = hit_positions(memos@, needle@, i as nat);
                &&& out@.len() == h.len()
                &&& forall|k: int| 0 <= k < h.len() ==> 0 <= #[trigger] h[k] < i
                &&& forall|k: int| 0 <= k < out@.len() ==> copies_entry(#[trigger] out@[k], memos@[h[k]])
            }),
        decreases memos.len() - i,
    {
        if memo_hits_exec(&memos[i].0, &needle) {
            out.push((memos[i].0.clone(), memos[i].1));
        }
        i += 1;
    }
    proof {
        lemma_hit_positions_prefix(memos@, needle@, i as nat, memos@.len());
    }
    out
}

/// The hits among a prefix are the first hits of a longer prefix.
proof fn lemma_hit_positions_prefix(memos: Seq<(MemoSummary, SyncState)>, needle: Seq<char>, m: nat, n: nat)
    requires
        m <= n,
    ensures
        hit_positions(memos, needle, m).len() <= hit_positions(memos, needle, n).len(),
        forall|k: int|
            0 <= k < hit_positions(memos, needle, m).len() ==> #[trigger] hit_positions(memos, needle, m)[k]
                == hit_positions(memos, needle, n)[k],
        forall|k: int|
            0 <= k < hit_positions(memos, needle, n).len() && k >= hit_positions(memos, needle, m).len()
                ==> #[trigger] hit_positions(memos, needle, n)[k] >= m,
    decreases n,
{
    if n > m {
        lemma_hit_positions_prefix(memos, needle, m, (n - 1) as nat);
        lemma_hit_positions_bound(memos, needle, (n - 1) as nat);
    }
}

/// The hits among the first `n` memos lie below `n`.
proof fn lemma_hit_positions_bound(memos: Seq<(MemoSummary, SyncState)>, needle: Seq<char>, n: nat)
    ensures
        forall|k: int|
            0 <= k < hit_positions(memos, needle, n).len() ==> 0 <= #[trigger] hit_positions(memos, needle, n)[k] < n,
        hit_positions(memos, needle, n).len() <= n,
    decreases n,
{
    if n > 0 {
        lemma_hit_positions_bound(memos, needle, (n - 1) as nat);
    }
}

/// The memo `id` is among the entries.
pub open spec fn has_memo_id(items: Seq<(MemoSummary, SyncState)>, id: Seq<char>) -> bool {
    exists|i: int| 0 <= i < items.len() && (#[trigger] items[i]).0.id@ == id
}

/// The server's search results among the first `n` that the local results
/// lack: each memo id once, first come first kept, marked synced.
pub open spec fn new_remote_results(
    local: Seq<(MemoSummary, SyncState)>,
    remote: Seq<MemoSummary>,
    n: nat,
) -> Seq<(MemoSummary, SyncState)>
    decreases n,
{
    if n == 0 {
        seq![]
    } else {
        let prev = new_remote_results(local, remote, (n - 1) as nat);
        let x = remote[n - 1];
        if !has_memo_id(local, x.id@) && !(exists|j: int|
            0 <= j < n - 1 && (#[trigger] remote[j]).id@ == x.id@) {
            prev.push((x, SyncState::Synced))
        } else {
            prev
        }
    }
}

/// The first `n` entries of `s`, or all of them when there are fewer.
pub open spec fn capped<T>(s: Seq<T>, n: int) -> Seq<T> {
    if s.len() <= n {
        s
    } else {
        s.take(n)
    }
}

/// The search results shown once the server has answered: the local results
/// first, then the server's results they lack, at most [`SEARCH_LIMIT`].
pub fn merge_search_results(local: Vec<(MemoSummary, SyncState)>, remote: Vec<MemoSummary>) -> (r: Vec<
    (MemoSummary, SyncState),
>)
    ensures
        r@ == capped(local@ + new_remote_results(local@, remote@, remote@.len()), 200),
{
    let ghost l0 = local@;
    let ghost r0 = remote@;
    let mut seen: Vec<String> = Vec::new();
    let mut i: usize = 0;
    while i < local.len()
        invariant
            i <= local.len(),
            seen@.len() == i,
            forall|j: int| 0 <= j < i ==> (#[trigger] seen@[j])@ == local@[j].0.id@,
        decreases local.len() - i,
    {
        seen.push(local[i].0.id.clone());
        i += 1;
    }
    let mut merged = local;
    let mut rest = remote;
    let total: usize = rest.len();
    let mut k: usize = 0;
    while rest.len() > 0
        invariant
            r0.len() == total,
            k <= r0.len(),
            rest@ == r0.skip(k as int),
            merged@ == l0 + new_remote_results(l0, r0, k as nat),
            seen@.len() == l0.len() + k,
            forall|j: int| 0 <= j < l0.len() ==> (#[trigger] seen@[j])@ == l0[j].0.id@,
            forall|j: int| 0 <= j < k ==> (#[trigger] seen@[l0.len() + j])@ == r0[j].id@,
        decreases rest.len(),
    {
        assert(k < r0.len());
        let summary = rest.remove(0);
        assert(summary == r0[k as int]);
        let fresh = !has_string(&seen, summary.id.as_str());
        proof {
            let x = r0[k as int];
            if holds_string(seen@, x.id@) {
                let w = choose|w: int| 0 <= w < seen@.len() && (#[trigger] seen@[w])@ == x.id@;
                if w < l0.len() {
                    assert(l0[w].0.id@ == x.id@);
                } else {
                    let j = w - l0.len();
                    assert(seen@[l0.len() + j]@ == r0[j].id@);
                }
            } else {
                assert forall|i: int| 0 <= i < l0.len() implies (#[trigger] l0[i]).0.id@ != x.id@ by {
                    assert(seen@[i]@ == l0[i].0.id@);
                }
                assert forall|j: int| 0 <= j < k implies (#[trigger] r0[j]).id@ != x.id@ by {
                    assert(seen@[l0.len() + j]@ == r0[j].id@);
                }
            }
        }
        seen.push(summary.id.clone());
        if fresh {
            merged.push((summary, SyncState::Synced));
        }
        assert(rest@ =~= r0.skip(k + 1));
        k += 1;
    }
    assert(r0.skip(k as int).len() == 0);
    merged.truncate(SEARCH_LIMIT);
    merged
}

/// No memo id occurs twice among the entries.
pub open spec fn distinct_ids(items: Seq<(MemoSummary, SyncState)>) -> bool {
    forall|i: int, j: int|
        0 <= i < items.len() && 0 <= j < items.len() && i != j ==> (#[trigger] items[i]).0.id@
            != (#[trigger] items[j]).0.id@
}

/// Every server result that the merge keeps comes from the first `n`, with
/// an id that the local results lack, and no two kept share an id.
proof fn lemma_new_remote_results(local: Seq<(MemoSummary, SyncState)>, remote: Seq<MemoSummary>, n: nat)
    requires
        n <= remote.len(),
    ensures
        distinct_ids(new_remote_results(local, remote, n)),
        forall|k: int|
            0 <= k < new_remote_results(local, remote, n).len() ==> !has_memo_id(
                local,
                (#[trigger] new_remote_results(local, remote, n)[k]).0.id@,
            ) && exists|j: int| 0 <= j < n && (#[trigger] remote[j]).id@ == new_remote_results(local, remote, n)[k].0.id@,
    decreases n,
{
    if n > 0 {
        let prev = new_remote_results(local, remote, (n - 1) as nat);
        lemma_new_remote_results(local, remote, (n - 1) as nat);
        let x = remote[n - 1];
        let cur = new_remote_results(local, remote, n);
        if !has_memo_id(local, x.id@) && !(exists|j: int| 0 <= j < n - 1 && (#[trigger] remote[j]).id@ == x.id@) {
            assert(cur == prev.push((x, SyncState::Synced)));
            assert forall|k: int| 0 <= k < cur.len() implies !has_memo_id(local, (#[trigger] cur[k]).0.id@) && exists|j: int|
                0 <= j < n && (#[trigger] remote[j]).id@ == cur[k].0.id@ by {
                if k < prev.len() {
                    assert(cur[k] == prev[k]);
                    let j = choose|j: int| 0 <= j < n - 1 && (#[trigger] remote[j]).id@ == prev[k].0.id@;
                    assert(0 <= j < n && remote[j].id@ == cur[k].0.id@);
                } else {
                    assert(remote[n - 1].id@ == cur[k].0.id@);
                }
            }
            assert forall|a: int, b: int|
                0 <= a < cur.len() && 0 <= b < cur.len() && a != b implies (#[trigger] cur[a]).0.id@
                    != (#[trigger] cur[b]).0.id@ by {
                if a < prev.len() && b < prev.len() {
                    assert(cur[a] == prev[a] && cur[b] == prev[b]);
                } else if a < prev.len() {
                    assert(cur[a] == prev[a]);
                    let j = choose|j: int| 0 <= j < n - 1 && (#[trigger] remote[j]).id@ == prev[a].0.id@;
                    assert(remote[j].id@ == x.id@ ==> false);
                } else if b < prev.len() {
                    assert(cur[b] == prev[b]);
                    let j = choose|j: int| 0 <= j < n - 1 && (#[trigger] remote[j]).id@ == prev[b].0.id@;
                    assert(remote[j].id@ == x.id@ ==> false);
                }
            }
        } else {
            assert forall|k: int| 0 <= k < cur.len() implies !has_memo_id(local, (#[trigger] cur[k]).0.id@) && exists|j: int|
                0 <= j < n && (#[trigger] remote[j]).id@ == cur[k].0.id@ by {
                let j = choose|j: int| 0 <= j < n - 1 && (#[trigger] remote[j]).id@ == prev[k].0.id@;
                assert(0 <= j < n && remote[j].id@ == cur[k].0.id@);
            }
        }
    }
}

/// Merging the server's search results into local ones that hold each memo
/// once gives a list that still holds each memo once.
pub proof fn lemma_merged_results_distinct(local: Seq<(MemoSummary, SyncState)>, remote: Seq<MemoSummary>)
    requires
        distinct_ids(local),
    ensures
        distinct_ids(capped(local + new_remote_results(local, remote, remote.len()), 200)),
{
    let extra = new_remote_results(local, remote, remote.len());
    lemma_new_remote_results(local, remote, remote.len());
    let all = local + extra;
    assert forall|a: int, b: int|
        0 <= a < all.len() && 0 <= b < all.len() && a != b implies (#[trigger] all[a]).0.id@ != (#[trigger] all[b]).0.id@ by {
        if a < local.len() && b < local.len() {
            assert(all[a] == local[a] && all[b] == local[b]);
        } else if a < local.len() {
            assert(all[a] == local[a] && all[b] == extra[b - local.len()]);
            assert(!has_memo_id(local, extra[b - local.len()].0.id@));
        } else if b < local.len() {
            assert(all[b] == local[b] && all[a] == extra[a - local.len()]);
            assert(!has_memo_id(local, extra[a - local.len()].0.id@));
        } else {
            assert(all[a] == extra[a - local.len()] && all[b] == extra[b - local.len()]);
        }
    }
    let c = capped(all, 200);
    assert forall|a: int, b: int|
        0 <= a < c.len() && 0 <= b < c.len() && a != b implies (#[trigger] c[a]).0.id@ != (#[trigger] c[b]).0.id@ by {
        assert(c[a] == all[a] && c[b] == all[b]);
    }
}

} // verus!
