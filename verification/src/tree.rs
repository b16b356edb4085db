//! The notebook tree of the navigation pane: which rows it shows, at what
//! depth, and what each row displays.

use vstd::prelude::*;
use crate::model::{NavFilter, Notebook};
use crate::notebooks::{is_inbox, parent_is, same_parent};
use crate::order::{nums, nums_before, num_before, views};
use crate::text::{chars_of, has_string, holds_string, str_eq};

verus! {

/// The sort orders of the notebooks, by position.
pub open spec fn order_keys(ns: Seq<Notebook>) -> Seq<int> {
    Seq::new(ns.len(), |i: int| ns[i].sort_order as int)
}

/// The names of the notebooks, by position.
pub open spec fn name_keys(ns: Seq<Notebook>) -> Seq<Seq<char>> {
    Seq::new(ns.len(), |i: int| ns[i].name@)
}

/// Notebook `i` goes before notebook `j` among siblings: a lower sort
/// order, then an earlier name; equal ones keep their list order.
pub open spec fn sibling_before(ns: Seq<Notebook>, i: int, j: int) -> bool {
    num_before(order_keys(ns), name_keys(ns), i, j)
}

/// Where `x` goes among the ordered siblings `s`: before the first one it
/// goes before.
pub open spec fn slot(ns: Seq<Notebook>, x: usize, s: Seq<usize>) -> nat
    decreases s.len(),
{
    if s.len() == 0 {
        0
    } else if sibling_before(ns, x as int, s[0] as int) {
        0
    } else {
        1 + slot(ns, x, s.drop_first())
    }
}

/// The children of `parent` among the first `n` notebooks, ordered by sort
/// order, then name, then list position.
pub open spec fn children_prefix(ns: Seq<Notebook>, parent: Option<Seq<char>>, n: nat) -> Seq<usize>
    decreases n,
{
    if n == 0 {
        seq![]
    } else {
        let prev = children_prefix(ns, parent, (n - 1) as nat);
        if same_parent(ns[n - 1].parent_id, parent) {
            let p = slot(ns, (n - 1) as usize, prev) as int;
            prev.take(p).push((n - 1) as usize) + prev.skip(p)
        } else {
            prev
        }
    }
}

/// The children of `parent`, in the order the tree shows them.
pub open spec fn children_of(ns: Seq<Notebook>, parent: Option<Seq<char>>) -> Seq<usize> {
    children_prefix(ns, parent, ns.len())
}

/// The rows of the tree under `parent` at `depth`: each child, then (unless
/// it is collapsed) its own rows one level deeper. `fuel` bounds the nesting:
/// none when a notebook that is not collapsed sits deeper than that.
pub open spec fn rows_under(
    ns: Seq<Notebook>,
    collapsed: Seq<String>,
    parent: Option<Seq<char>>,
    depth: i32,
    fuel: nat,
) -> Option<Seq<(usize, i32)>>
    decreases fuel, 1nat, 0nat,
{
    rows_of(ns, collapsed, children_of(ns, parent), depth, fuel)
}

/// The rows of the children `kids` at `depth` (see [`rows_under`]).
pub open spec fn rows_of(
    ns: Seq<Notebook>,
    collapsed: Seq<String>,
    kids: Seq<usize>,
    depth: i32,
    fuel: nat,
) -> Option<Seq<(usize, i32)>>
    decreases fuel, 0nat, kids.len(),
{
    if kids.len() == 0 {
        Some(seq![])
    } else {
        let c = kids[0];
        let sub = if 0 <= c < ns.len() && holds_string(collapsed, ns[c as int].id@) {
            Some(seq![])
        } else if fuel == 0 || !(0 <= c < ns.len()) {
            None
        } else {
            rows_under(ns, collapsed, Some(ns[c as int].id@), (depth + 1) as i32, (fuel - 1) as nat)
        };
        match (sub, rows_of(ns, collapsed, kids.drop_first(), depth, fuel)) {
            (Some(a), Some(b)) => Some(seq![(c, depth)] + a + b),
            _ => None,
        }
    }
}

/// The rows of the notebook tree: the top-level notebooks and, below each
/// one that is not collapsed, its children, by position and depth. The
/// nesting is bounded by the number of notebooks: none past that bound,
/// which a walk passes only by meeting the same notebook twice on one path
/// (two notebooks sharing an id), where it would never end.
pub open spec fn tree_rows_spec(ns: Seq<Notebook>, collapsed: Seq<String>) -> Option<Seq<(usize, i32)>> {
    rows_under(ns, collapsed, None, 0, ns.len())
}

/// The children of `parent`, in the order the tree shows them.
fn children_exec(ns: &Vec<Notebook>, keys: &Vec<i32>, names: &Vec<Vec<char>>, parent: Option<&str>) -> (r:
    Vec<usize>)
    requires
        keys@.len() == ns@.len(),
        names@.len() == ns@.len(),
        nums(keys@) == order_keys(ns@),
        views(names@) == name_keys(ns@),
    ensures
        r@ == children_of(ns@, match parent {
            Some(s) => Some(s@),
            None => None,
        }),
        forall|k: int| 0 <= k < r@.len() ==> (#[trigger] r@[k]) < ns@.len(),
{
    let ghost pv = match parent {
        Some(s) => Some(s@),
        None => None::<Seq<char>>,
    };
    let mut out: Vec<usize> = Vec::new();
    let mut i: usize = 0;
    while i < ns.len()
        invariant
            i <= ns.len(),
            keys@.len() == ns@.len(),
            names@.len() == ns@.len(),
            nums(keys@) == order_keys(ns@),
            views(names@) == name_keys(ns@),
            pv == match parent {
                Some(s) => Some(s@),
                None => None::<Seq<char>>,
            },
            out@ == children_prefix(ns@, pv, i as nat),
            forall|k: int| 0 <= k < out@.len() ==> (#[trigger] out@[k]) < i,
        decreases ns.len() - i,
    {
        if parent_is(&ns[i].parent_id, parent) {
            let ghost prev = out@;
            let mut p: usize = 0;
            let mut found = false;
            assert(prev.skip(0) =~= prev);
            while !found && p < out.len()
                invariant
                    p <= out.len(),
                    out@ == prev,
                    i < ns.len(),
                    keys@.len() == ns@.len(),
                    names@.len() == ns@.len(),
                    nums(keys@) == order_keys(ns@),
                    views(names@) == name_keys(ns@),
                    forall|k: int| 0 <= k < out@.len() ==> (#[trigger] out@[k]) < i,
                    found ==> p < out.len() && slot(ns@, i, prev.skip(p as int)) == 0 && sibling_before(
                        ns@,
                        i as int,
                        prev[p as int] as int,
                    ),
                    slot(ns@, i, prev) == p + slot(ns@, i, prev.skip(p as int)),
                decreases out.len() - p, if found {
                    0int
                } else {
                    1int
                },
            {
                assert(prev.skip(p as int)[0] == prev[p as int]);
                if nums_before(keys, names, i, out[p]) {
                    found = true;
                } else {
                    assert(prev.skip(p as int).drop_first() =~= prev.skip(p + 1));
                    p += 1;
                }
            }
            proof {
                if !found {
                    assert(prev.skip(p as int).len() == 0);
                }
            }
            out.insert(p, i);
            proof {
                assert(out@ =~= prev.take(p as int).push(i) + prev.skip(p as int));
                assert forall|k: int| 0 <= k < out@.len() implies (#[trigger] out@[k]) < i + 1 by {
                    if k < p {
                        assert(out@[k] == prev[k]);
                    } else if k > p {
                        assert(out@[k] == prev[k - 1]);
                    }
                }
            }
        }
        i += 1;
    }
    out
}

/// The rows under `parent` at `depth` (see [`rows_under`]).
fn rows_under_exec(
    ns: &Vec<Notebook>,
    collapsed: &Vec<String>,
    keys: &Vec<i32>,
    names: &Vec<Vec<char>>,
    parent: Option<&str>,
    depth: i32,
    fuel: usize,
) -> (r: Option<Vec<(usize, i32)>>)
    requires
        keys@.len() == ns@.len(),
        names@.len() == ns@.len(),
        nums(keys@) == order_keys(ns@),
        views(names@) == name_keys(ns@),
        0 <= depth,
        depth + fuel < i32::MAX,
    ensures
        match rows_under(ns@, collapsed@, match parent {
            Some(s) => Some(s@),
            None => None,
        }, depth, fuel as nat) {
            Some(rows) => r matches Some(v) && v@ == rows,
            None => r is None,
        },
    decreases fuel, 1nat, 0nat,
{
    let kids = children_exec(ns, keys, names, parent);
    assert(kids@.skip(0) =~= kids@);
    rows_of_exec(ns, collapsed, keys, names, &kids, 0, depth, fuel)
}

/// The rows of the children `kids[from..]` at `depth` (see [`rows_of`]).
fn rows_of_exec(
    ns: &Vec<Notebook>,
    collapsed: &Vec<String>,
    keys: &Vec<i32>,
    names: &Vec<Vec<char>>,
    kids: &Vec<usize>,
    from: usize,
    depth: i32,
    fuel: usize,
) -> (r: Option<Vec<(usize, i32)>>)
    requires
        keys@.len() == ns@.len(),
        names@.len() == ns@.len(),
        nums(keys@) == order_keys(ns@),
        views(names@) == name_keys(ns@),
        from <= kids@.len(),
        0 <= depth,
        depth + fuel < i32::MAX,
    ensures
        match rows_of(ns@, collapsed@, kids@.skip(from as int), depth, fuel as nat) {
            Some(rows) => r matches Some(v) && v@ == rows,
            None => r is None,
        },
    decreases fuel, 0nat, kids@.len() - from,
{
    let ghost rest = kids@.skip(from as int);
    if from == kids.len() {
        assert(rest.len() == 0);
        return Some(Vec::new());
    }
    let c = kids[from];
    assert(rest[0] == c);
    assert(rest.drop_first() =~= kids@.skip(from + 1));
    let in_range = c < ns.len();
    let sub: Option<Vec<(usize, i32)>> = if in_range && has_string(collapsed, ns[c].id.as_str()) {
        Some(Vec::new())
    } else if fuel == 0 || !in_range {
        None
    } else {
        rows_under_exec(ns, collapsed, keys, names, Some(ns[c].id.as_str()), depth + 1, fuel - 1)
    };
    let tail = rows_of_exec(ns, collapsed, keys, names, kids, from + 1, depth, fuel);
    match (sub, tail) {
        (Some(a), Some(b)) => {
            let mut out: Vec<(usize, i32)> = Vec::new();
            out.push((c, depth));
            let mut a = a;
            let mut b = b;
            let ghost av = a@;
            let ghost bv = b@;
            out.append(&mut a);
            out.append(&mut b);
            assert(out@ =~= seq![(c, depth)] + av + bv);
            Some(out)
        },
        _ => None,
    }
}

/// The rows of the notebook tree (see [`tree_rows_spec`]): positions in
/// `notebooks` with their depths; `collapsed` holds the ids of the collapsed
/// notebooks.
pub fn notebook_tree_rows(notebooks: &Vec<Notebook>, collapsed: &Vec<String>) -> (r: Option<Vec<(usize, i32)>>)
    requires
        notebooks@.len() < i32::MAX,
    ensures
        match tree_rows_spec(notebooks@, collapsed@) {
            Some(rows) => r matches Some(v) && v@ == rows,
            None => r is None,
        },
{
    let mut keys: Vec<i32> = Vec::new();
    let mut names: Vec<Vec<char>> = Vec::new();
    let mut i: usize = 0;
    while i < notebooks.len()
        invariant
            i <= notebooks.len(),
            keys@.len() == i,
            names@.len() == i,
            nums(keys@) =~= order_keys(notebooks@).take(i as int),
            views(names@) =~= name_keys(notebooks@).take(i as int),
        decreases notebooks.len() - i,
    {
        keys.push(notebooks[i].sort_order);
        names.push(chars_of(notebooks[i].name.as_str()));
        i += 1;
    }
    assert(nums(keys@) =~= order_keys(notebooks@));
    assert(views(names@) =~= name_keys(notebooks@));
    rows_under_exec(notebooks, collapsed, &keys, &names, None, 0, notebooks.len())
}

/// What a notebook row of the navigation pane shows.
#[derive(Debug, Clone, Copy, PartialEq, Eq, Structural)]
pub struct NavRow {
    /// The list shows this notebook.
    pub selected: bool,
    /// Some notebook has it as parent: it gets a disclosure toggle.
    pub has_children: bool,
    /// Its children are shown.
    pub expanded: bool,
    /// It is the inbox.
    pub is_inbox: bool,
}

/// Some notebook has the parent `id`.
pub open spec fn any_child(ns: Seq<Notebook>, id: Seq<char>) -> bool {
    exists|j: int| 0 <= j < ns.len() && same_parent(#[trigger] ns[j].parent_id, Some(id))
}

/// What the row of the notebook `n` shows.
pub fn nav_row(notebooks: &Vec<Notebook>, collapsed: &Vec<String>, filter: &NavFilter, n: &Notebook) -> (r: NavRow)
    ensures
        r.selected == (filter matches NavFilter::Notebook(x) && x@ == n.id@),
        r.has_children == any_child(notebooks@, n.id@),
        r.expanded == !holds_string(collapsed@, n.id@),
        r.is_inbox == is_inbox(*n),
{
    let selected = match filter {
        NavFilter::Notebook(x) => str_eq(x.as_str(), n.id.as_str()),
        _ => false,
    };
    let mut has_children = false;
    let mut j: usize = 0;
    while j < notebooks.len() && !has_children
        invariant
            j <= notebooks.len(),
            has_children ==> any_child(notebooks@, n.id@),
            !has_children ==> forall|k: int|
                0 <= k < j ==> !same_parent(#[trigger] notebooks@[k].parent_id, Some(n.id@)),
        decreases notebooks.len() - j,
    {
        if parent_is(&notebooks[j].parent_id, Some(n.id.as_str())) {
            has_children = true;
        }
        j += 1;
    }
    let is_inbox = match &n.slug {
        Some(s) => str_eq(s.as_str(), "inbox"),
        None => false,
    };
    NavRow { selected, has_children, expanded: !has_string(collapsed, n.id.as_str()), is_inbox }
}

/// `after` is `before` with the notebook `id` toggled: a collapsed one is no
/// longer collapsed and the others stay as they were; an expanded one is
/// added at the end.
pub open spec fn toggled(before: Seq<String>, after: Seq<String>, id: Seq<char>) -> bool {
    if holds_string(before, id) {
        &&& !holds_string(after, id)
        &&& forall|s: Seq<char>| s != id ==> (holds_string(after, s) == holds_string(before, s))
    } else {
        &&& after.len() == before.len() + 1
        &&& after.drop_last() == before
        &&& after.last()@ == id
    }
}

/// Collapses the notebook `id` when it is expanded, and expands it when it
/// is collapsed.
pub fn toggle_collapsed(collapsed: &mut Vec<String>, id: &str)
    ensures
        toggled(old(collapsed)@, final(collapsed)@, id@),
{
    if has_string(collapsed, id) {
        let mut kept: Vec<String> = Vec::new();
        let mut i: usize = 0;
        while i < collapsed.len()
            invariant
                i <= collapsed.len(),
                forall|k: int| 0 <= k < kept@.len() ==> (#[trigger] kept@[k])@ != id@,
                forall|s: Seq<char>|
                    s != id@ ==> (holds_string(kept@, s) == holds_string(collapsed@.take(i as int), s)),
            decreases collapsed.len() - i,
        {
            let ghost before = kept@;
            assert(forall|s: Seq<char>|
                s != id@ ==> (holds_string(before, s) == holds_string(collapsed@.take(i as int), s)));
            if !str_eq(collapsed[i].as_str(), id) {
                kept.push(collapsed[i].clone());
            }
            proof {
                assert forall|s: Seq<char>| s != id@ implies (holds_string(kept@, s) == holds_string(
                    collapsed@.take(i + 1),
                    s,
                )) by {
                    let t = collapsed@.take(i + 1);
                    assert(t.drop_last() =~= collapsed@.take(i as int));
                    if holds_string(t, s) {
                        let w = choose|w: int| 0 <= w < t.len() && (#[trigger] t[w])@ == s;
                        if w < i {
                            assert(collapsed@.take(i as int)[w] == t[w]);
                            assert(holds_string(collapsed@.take(i as int), s));
                            assert(holds_string(before, s));
                            let v = choose|v: int| 0 <= v < before.len() && (#[trigger] before[v])@ == s;
                            assert(kept@[v] == before[v]);
                        } else {
                            assert(kept@[kept@.len() - 1]@ == s);
                        }
                    }
                    if holds_string(kept@, s) {
                        let w = choose|w: int| 0 <= w < kept@.len() && (#[trigger] kept@[w])@ == s;
                        if w < before.len() {
                            assert(kept@[w] == before[w]);
                            assert(holds_string(before, s));
                            let v = choose|v: int|
                                0 <= v < i && (#[trigger] collapsed@.take(i as int)[v])@ == s;
                            assert(t[v] == collapsed@.take(i as int)[v]);
                        } else {
                            assert(t[i as int] == collapsed@[i as int]);
                        }
                    }
                }
            }
            i += 1;
        }
        assert(collapsed@.take(collapsed@.len() as int) =~= collapsed@);
        assert(!holds_string(kept@, id@));
        *collapsed = kept;
    } else {
        let ghost before = collapsed@;
        collapsed.push(id.to_owned());
        assert(collapsed@.drop_last() =~= before);
    }
}

/// Toggling a notebook twice leaves every notebook collapsed or expanded as
/// it was.
pub proof fn lemma_toggle_twice(a: Seq<String>, b: Seq<String>, c: Seq<String>, id: Seq<char>)
    requires
        toggled(a, b, id),
        toggled(b, c, id),
    ensures
        forall|s: Seq<char>| holds_string(c, s) == holds_string(a, s),
{
    if holds_string(a, id) {
        assert(c.drop_last() == b);
        assert forall|s: Seq<char>| holds_string(c, s) == holds_string(a, s) by {
            if s != id {
                if holds_string(b, s) {
                    let w = choose|w: int| 0 <= w < b.len() && (#[trigger] b[w])@ == s;
                    assert(c[w] == b[w]);
                }
                if holds_string(c, s) {
                    let w = choose|w: int| 0 <= w < c.len() && (#[trigger] c[w])@ == s;
                    assert(w < b.len());
                    assert(b[w] == c[w]);
                }
            } else {
                assert(c[c.len() - 1]@ == id);
            }
        }
    } else {
        assert(b.drop_last() == a);
        assert(b[b.len() - 1]@ == id);
        assert forall|s: Seq<char>| holds_string(c, s) == holds_string(a, s) by {
            if s != id {
                if holds_string(a, s) {
                    let w = choose|w: int| 0 <= w < a.len() && (#[trigger] a[w])@ == s;
                    assert(b[w] == a[w]);
                }
                if holds_string(b, s) {
                    let w = choose|w: int| 0 <= w < b.len() && (#[trigger] b[w])@ == s;
                    assert(w < a.len());
                    assert(a[w] == b[w]);
                }
            }
        }
    }
}

/// No two notebooks share an id.
pub open spec fn ids_unique(ns: Seq<Notebook>) -> bool {
    forall|i: int, j: int|
        0 <= i < ns.len() && 0 <= j < ns.len() && i != j ==> (#[trigger] ns[i]).id@ != (#[trigger] ns[j]).id@
}

/// `path` is a chain of distinct notebooks from the top level down: the
/// first has no parent and each next one has the previous one as parent.
pub open spec fn is_chain(ns: Seq<Notebook>, path: Seq<int>) -> bool {
    &&& forall|k: int| 0 <= k < path.len() ==> 0 <= #[trigger] path[k] < ns.len()
    &&& path.len() > 0 ==> ns[path[0]].parent_id is None
    &&& forall|k: int|
        0 < k < path.len() ==> same_parent(ns[#[trigger] path[k]].parent_id, Some(ns[path[k - 1]].id@))
    &&& path.no_duplicates()
}

/// The parent id under which a chain goes on: the id of its last notebook,
/// or the top level.
pub open spec fn chain_parent(ns: Seq<Notebook>, path: Seq<int>) -> Option<Seq<char>> {
    if path.len() == 0 {
        None
    } else {
        Some(ns[path.last()].id@)
    }
}

/// A slot among `s` is a position of `s` or its end.
proof fn lemma_slot_bound(ns: Seq<Notebook>, x: usize, s: Seq<usize>)
    ensures
        slot(ns, x, s) <= s.len(),
    decreases s.len(),
{
    if s.len() > 0 {
        lemma_slot_bound(ns, x, s.drop_first());
    }
}

/// The children of `parent` among the first `m` notebooks are positions
/// below `m` whose notebooks have `parent` as parent.
proof fn lemma_children_prefix(ns: Seq<Notebook>, parent: Option<Seq<char>>, m: nat)
    requires
        m <= usize::MAX,
    ensures
        forall|k: int|
            0 <= k < children_prefix(ns, parent, m).len() ==> (#[trigger] children_prefix(ns, parent, m)[k]) < m
                && same_parent(ns[children_prefix(ns, parent, m)[k] as int].parent_id, parent),
    decreases m,
{
    if m > 0 {
        let prev = children_prefix(ns, parent, (m - 1) as nat);
        lemma_children_prefix(ns, parent, (m - 1) as nat);
        if same_parent(ns[m - 1].parent_id, parent) {
            let p = slot(ns, (m - 1) as usize, prev) as int;
            lemma_slot_bound(ns, (m - 1) as usize, prev);
            let cur = children_prefix(ns, parent, m);
            assert(cur == prev.take(p).push((m - 1) as usize) + prev.skip(p));
            assert forall|k: int| 0 <= k < cur.len() implies (#[trigger] cur[k]) < m && same_parent(
                ns[cur[k] as int].parent_id,
                parent,
            ) by {
                if k < p {
                    assert(cur[k] == prev[k]);
                } else if k > p {
                    assert(cur[k] == prev[k - 1]);
                }
            }
        }
    }
}

/// Distinct positions below `n` are at most `n`.
proof fn lemma_distinct_bound(path: Seq<int>, n: int)
    requires
        0 <= n,
        path.no_duplicates(),
        forall|k: int| 0 <= k < path.len() ==> 0 <= #[trigger] path[k] < n,
    ensures
        path.len() <= n,
{
    path.unique_seq_to_set();
    vstd::set_lib::lemma_int_range(0, n);
    assert(path.to_set().subset_of(vstd::set_lib::set_int_range(0, n)));
    vstd::set_lib::lemma_len_subset(path.to_set(), vstd::set_lib::set_int_range(0, n));
}

/// Under a chain that leaves room for the rest of the notebooks, every
/// child's rows can be laid out.
proof fn lemma_rows_of_some(
    ns: Seq<Notebook>,
    collapsed: Seq<String>,
    path: Seq<int>,
    kids: Seq<usize>,
    depth: i32,
    fuel: nat,
)
    requires
        ids_unique(ns),
        is_chain(ns, path),
        path.len() + fuel >= ns.len(),
        ns.len() <= usize::MAX,
        forall|k: int|
            0 <= k < kids.len() ==> (#[trigger] kids[k]) < ns.len() && same_parent(
                ns[kids[k] as int].parent_id,
                chain_parent(ns, path),
            ),
    ensures
        rows_of(ns, collapsed, kids, depth, fuel) is Some,
    decreases fuel, 0nat, kids.len(),
{
    if kids.len() > 0 {
        let c = kids[0];
        if !holds_string(collapsed, ns[c as int].id@) {
            let p2 = path.push(c as int);
            assert forall|a: int| 0 <= a < path.len() implies path[a] != c as int by {
                if path[a] == c as int {
                    if a == 0 {
                        assert(ns[path[0]].parent_id is None);
                    } else {
                        assert(same_parent(ns[path[a]].parent_id, Some(ns[path[a - 1]].id@)));
                        assert(ns[path[a - 1]].id@ == ns[path.last()].id@);
                        assert(path[a - 1] == path[path.len() - 1]);
                    }
                }
            }
            assert(p2.no_duplicates()) by {
                assert forall|i: int, j: int| 0 <= i < p2.len() && 0 <= j < p2.len() && i != j implies p2[i] != p2[j] by {
                    if i < path.len() && j < path.len() {
                        assert(p2[i] == path[i] && p2[j] == path[j]);
                    } else if i < path.len() {
                        assert(p2[i] == path[i]);
                    } else if j < path.len() {
                        assert(p2[j] == path[j]);
                    }
                }
            }
            assert forall|k: int| 0 < k < p2.len() implies same_parent(ns[#[trigger] p2[k]].parent_id, Some(ns[p2[k - 1]].id@)) by {
                if k < path.len() {
                    assert(p2[k] == path[k] && p2[k - 1] == path[k - 1]);
                } else {
                    assert(p2[k - 1] == path.last());
                }
            }
            assert(is_chain(ns, p2));
            lemma_distinct_bound(p2, ns.len() as int);
            assert(chain_parent(ns, p2) == Some(ns[c as int].id@));
            lemma_rows_under_some(ns, collapsed, p2, (depth + 1) as i32, (fuel - 1) as nat);
        }
        lemma_rows_of_some(ns, collapsed, path, kids.drop_first(), depth, fuel);
    }
}

/// Under a chain that leaves room for the rest of the notebooks, the rows
/// can be laid out.
proof fn lemma_rows_under_some(ns: Seq<Notebook>, collapsed: Seq<String>, path: Seq<int>, depth: i32, fuel: nat)
    requires
        ids_unique(ns),
        is_chain(ns, path),
        path.len() + fuel >= ns.len(),
        ns.len() <= usize::MAX,
    ensures
        rows_under(ns, collapsed, chain_parent(ns, path), depth, fuel) is Some,
    decreases fuel, 1nat, 0nat,
{
    lemma_children_prefix(ns, chain_parent(ns, path), ns.len());
    lemma_rows_of_some(ns, collapsed, path, children_of(ns, chain_parent(ns, path)), depth, fuel);
}

/// When no two notebooks share an id, the tree always has its rows.
pub proof fn lemma_tree_rows_exist(ns: Seq<Notebook>, collapsed: Seq<String>)
    requires
        ids_unique(ns),
        ns.len() <= usize::MAX,
    ensures
        tree_rows_spec(ns, collapsed) is Some,
{
    let path = Seq::<int>::empty();
    assert(is_chain(ns, path));
    lemma_rows_under_some(ns, collapsed, path, 0, ns.len());
}

} // verus!
