//! Stable ordering of list positions by text keys.
//!
//! A list is sorted by a primary text key (ascending or descending) and a
//! secondary text key (ascending); positions whose keys are both equal keep
//! their original order, as a stable sort does. The order on positions this
//! gives is strict and total, so the sorted arrangement is unique.

use vstd::prelude::*;
use crate::text::{chars_eq, chars_lt, lemma_seq_lt_irreflexive, lemma_seq_lt_total, lemma_seq_lt_transitive, seq_lt};

verus! {

/// Position `i` comes before position `j` under the keys `primary` (in
/// descending order when `desc`) and `secondary`, with ties kept in
/// position order.
pub open spec fn key_before(
    primary: Seq<Seq<char>>,
    secondary: Seq<Seq<char>>,
    desc: bool,
    i: int,
    j: int,
) -> bool {
    let (a, b) = if desc {
        (primary[j], primary[i])
    } else {
        (primary[i], primary[j])
    };
    seq_lt(a, b) || (a == b && (seq_lt(secondary[i], secondary[j]) || (secondary[i]
        == secondary[j] && i < j)))
}

/// Two different positions are ordered one way or the other, never both.
pub proof fn lemma_key_before_total(
    primary: Seq<Seq<char>>,
    secondary: Seq<Seq<char>>,
    desc: bool,
    i: int,
    j: int,
)
    ensures
        i != j ==> key_before(primary, secondary, desc, i, j) || key_before(
            primary,
            secondary,
            desc,
            j,
            i,
        ),
        !(key_before(primary, secondary, desc, i, j) && key_before(
            primary,
            secondary,
            desc,
            j,
            i,
        )),
{
    lemma_seq_lt_total(primary[i], primary[j]);
    lemma_seq_lt_total(secondary[i], secondary[j]);
    lemma_seq_lt_irreflexive(primary[i]);
    lemma_seq_lt_irreflexive(secondary[i]);
}

/// The order on positions is transitive.
pub proof fn lemma_key_before_transitive(
    primary: Seq<Seq<char>>,
    secondary: Seq<Seq<char>>,
    desc: bool,
    i: int,
    j: int,
    k: int,
)
    requires
        key_before(primary, secondary, desc, i, j),
        key_before(primary, secondary, desc, j, k),
    ensures
        key_before(primary, secondary, desc, i, k),
{
    if desc {
        if seq_lt(primary[j], primary[i]) && seq_lt(primary[k], primary[j]) {
            lemma_seq_lt_transitive(primary[k], primary[j], primary[i]);
        }
    } else {
        if seq_lt(primary[i], primary[j]) && seq_lt(primary[j], primary[k]) {
            lemma_seq_lt_transitive(primary[i], primary[j], primary[k]);
        }
    }
    if seq_lt(secondary[i], secondary[j]) && seq_lt(secondary[j], secondary[k]) {
        lemma_seq_lt_transitive(secondary[i], secondary[j], secondary[k]);
    }
}

/// The positions `idx` are in strictly increasing key order.
pub open spec fn sorted_by_keys(
    primary: Seq<Seq<char>>,
    secondary: Seq<Seq<char>>,
    desc: bool,
    idx: Seq<usize>,
) -> bool {
    forall|a: int, b: int|
        0 <= a < b < idx.len() ==> key_before(
            primary,
            secondary,
            desc,
            #[trigger] idx[a] as int,
            #[trigger] idx[b] as int,
        )
}

/// The views of a list of character vectors.
pub open spec fn views(v: Seq<Vec<char>>) -> Seq<Seq<char>> {
    Seq::new(v.len(), |i: int| v[i]@)
}

/// Whether position `i` comes before position `j`.
pub fn keys_before(
    primary: &Vec<Vec<char>>,
    secondary: &Vec<Vec<char>>,
    desc: bool,
    i: usize,
    j: usize,
) -> (r: bool)
    requires
        i < primary.len(),
        j < primary.len(),
        primary.len() == secondary.len(),
    ensures
        r == key_before(views(primary@), views(secondary@), desc, i as int, j as int),
{
    let (a, b) = if desc {
        (&primary[j], &primary[i])
    } else {
        (&primary[i], &primary[j])
    };
    if chars_lt(a, b) {
        return true;
    }
    if !chars_eq(a, b) {
        return false;
    }
    if chars_lt(&secondary[i], &secondary[j]) {
        return true;
    }
    chars_eq(&secondary[i], &secondary[j]) && i < j
}

/// Inserts position `x` into the sorted positions `idx` where it belongs.
pub fn insert_by_keys(
    primary: &Vec<Vec<char>>,
    secondary: &Vec<Vec<char>>,
    desc: bool,
    idx: &mut Vec<usize>,
    x: usize,
)
    requires
        primary.len() == secondary.len(),
        x < primary.len(),
        forall|a: int| 0 <= a < old(idx)@.len() ==> (#[trigger] old(idx)@[a]) < primary.len(),
        forall|a: int| 0 <= a < old(idx)@.len() ==> (#[trigger] old(idx)@[a]) != x,
        sorted_by_keys(views(primary@), views(secondary@), desc, old(idx)@),
    ensures
        sorted_by_keys(views(primary@), views(secondary@), desc, final(idx)@),
        final(idx)@.len() == old(idx)@.len() + 1,
        forall|y: usize| final(idx)@.contains(y) <==> (old(idx)@.contains(y) || y == x),
{
    let ghost p1 = views(primary@);
    let ghost p2 = views(secondary@);
    let mut p: usize = 0;
    let mut found = false;
    while !found && p < idx.len()
        invariant
            p <= idx.len(),
            idx@ == old(idx)@,
            primary.len() == secondary.len(),
            x < primary.len(),
            p1 == views(primary@),
            p2 == views(secondary@),
            forall|a: int| 0 <= a < idx@.len() ==> (#[trigger] idx@[a]) < primary.len(),
            forall|a: int| 0 <= a < idx@.len() ==> (#[trigger] idx@[a]) != x,
            forall|a: int| 0 <= a < p ==> key_before(p1, p2, desc, #[trigger] idx@[a] as int, x as int),
            found ==> p < idx.len() && key_before(p1, p2, desc, x as int, idx@[p as int] as int),
        decreases idx.len() - p, if found { 0int } else { 1int },
    {
        if keys_before(primary, secondary, desc, x, idx[p]) {
            found = true;
        } else {
            proof {
                lemma_key_before_total(p1, p2, desc, x as int, idx@[p as int] as int);
            }
            p += 1;
        }
    }
    let ghost before = idx@;
    proof {
        if p < before.len() {
            assert forall|b: int| p <= b < before.len() implies key_before(
                p1,
                p2,
                desc,
                x as int,
                #[trigger] before[b] as int,
            ) by {
                if b > p {
                    lemma_key_before_transitive(p1, p2, desc, x as int, before[p as int] as int, before[b] as int);
                }
            }
        }
    }
    idx.insert(p, x);
    proof {
        let after = idx@;
        assert(after =~= before.subrange(0, p as int).push(x) + before.subrange(p as int, before.len() as int));
        assert forall|a: int, b: int| 0 <= a < b < after.len() implies key_before(
            p1,
            p2,
            desc,
            #[trigger] after[a] as int,
            #[trigger] after[b] as int,
        ) by {
            if b < p {
                assert(after[a] == before[a] && after[b] == before[b]);
            } else if b == p {
                assert(after[a] == before[a]);
            } else if a < p {
                assert(after[a] == before[a] && after[b] == before[b - 1]);
                if p < before.len() {
                    lemma_key_before_transitive(p1, p2, desc, before[a] as int, x as int, before[b - 1] as int);
                }
            } else if a == p {
                assert(after[b] == before[b - 1]);
            } else {
                assert(after[a] == before[a - 1] && after[b] == before[b - 1]);
            }
        }
        assert forall|y: usize| after.contains(y) <==> (before.contains(y) || y == x) by {
            if after.contains(y) {
                let w = choose|w: int| 0 <= w < after.len() && after[w] == y;
                if w < p {
                    assert(before[w] == y);
                } else if w > p {
                    assert(before[w - 1] == y);
                }
            }
            if before.contains(y) {
                let w = choose|w: int| 0 <= w < before.len() && before[w] == y;
                if w < p {
                    assert(after[w] == y);
                } else {
                    assert(after[w + 1] == y);
                }
            }
            if y == x {
                assert(after[p as int] == x);
            }
        }
    }
}

/// Position `i` comes before position `j` under the number keys `primary`
/// (ascending) and the text keys `secondary`, with ties kept in position
/// order.
pub open spec fn num_before(primary: Seq<int>, secondary: Seq<Seq<char>>, i: int, j: int) -> bool {
    primary[i] < primary[j] || (primary[i] == primary[j] && (seq_lt(secondary[i], secondary[j]) || (
    secondary[i] == secondary[j] && i < j)))
}

/// Two different positions are ordered one way or the other, never both.
pub proof fn lemma_num_before_total(
    primary: Seq<int>,
    secondary: Seq<Seq<char>>,
    i: int,
    j: int,
)
    ensures
        i != j ==> num_before(primary, secondary, i, j) || num_before(
            primary,
            secondary,
            j,
            i,
        ),
        !(num_before(primary, secondary, i, j) && num_before(
            primary,
            secondary,
            j,
            i,
        )),
{
    lemma_seq_lt_total(secondary[i], secondary[j]);
    lemma_seq_lt_irreflexive(secondary[i]);
}

/// The order on positions is transitive.
pub proof fn lemma_num_before_transitive(
    primary: Seq<int>,
    secondary: Seq<Seq<char>>,
    i: int,
    j: int,
    k: int,
)
    requires
        num_before(primary, secondary, i, j),
        num_before(primary, secondary, j, k),
    ensures
        num_before(primary, secondary, i, k),
{
    if seq_lt(secondary[i], secondary[j]) && seq_lt(secondary[j], secondary[k]) {
        lemma_seq_lt_transitive(secondary[i], secondary[j], secondary[k]);
    }
}

/// The positions `idx` are in strictly increasing key order.
pub open spec fn sorted_by_nums(
    primary: Seq<int>,
    secondary: Seq<Seq<char>>,
    idx: Seq<usize>,
) -> bool {
    forall|a: int, b: int|
        0 <= a < b < idx.len() ==> num_before(
            primary,
            secondary,
            #[trigger] idx[a] as int,
            #[trigger] idx[b] as int,
        )
}


/// The numbers of a list, as integers.
pub open spec fn nums(v: Seq<i32>) -> Seq<int> {
    Seq::new(v.len(), |i: int| v[i] as int)
}

/// Whether position `i` comes before position `j`.
pub fn nums_before(primary: &Vec<i32>, secondary: &Vec<Vec<char>>, i: usize, j: usize) -> (r: bool)
    requires
        i < primary.len(),
        j < primary.len(),
        primary.len() == secondary.len(),
    ensures
        r == num_before(nums(primary@), views(secondary@), i as int, j as int),
{
    if primary[i] < primary[j] {
        return true;
    }
    if primary[i] != primary[j] {
        return false;
    }
    if chars_lt(&secondary[i], &secondary[j]) {
        return true;
    }
    chars_eq(&secondary[i], &secondary[j]) && i < j
}

/// Inserts position `x` into the sorted positions `idx` where it belongs.
pub fn insert_by_nums(
    primary: &Vec<i32>,
    secondary: &Vec<Vec<char>>,
    idx: &mut Vec<usize>,
    x: usize,
)
    requires
        primary.len() == secondary.len(),
        x < primary.len(),
        forall|a: int| 0 <= a < old(idx)@.len() ==> (#[trigger] old(idx)@[a]) < primary.len(),
        forall|a: int| 0 <= a < old(idx)@.len() ==> (#[trigger] old(idx)@[a]) != x,
        sorted_by_nums(nums(primary@), views(secondary@), old(idx)@),
    ensures
        sorted_by_nums(nums(primary@), views(secondary@), final(idx)@),
        final(idx)@.len() == old(idx)@.len() + 1,
        forall|y: usize| final(idx)@.contains(y) <==> (old(idx)@.contains(y) || y == x),
{
    let ghost p1 = nums(primary@);
    let ghost p2 = views(secondary@);
    let mut p: usize = 0;
    let mut found = false;
    while !found && p < idx.len()
        invariant
            p <= idx.len(),
            idx@ == old(idx)@,
            primary.len() == secondary.len(),
            x < primary.len(),
            p1 == nums(primary@),
            p2 == views(secondary@),
            forall|a: int| 0 <= a < idx@.len() ==> (#[trigger] idx@[a]) < primary.len(),
            forall|a: int| 0 <= a < idx@.len() ==> (#[trigger] idx@[a]) != x,
            forall|a: int| 0 <= a < p ==> num_before(p1, p2, #[trigger] idx@[a] as int, x as int),
            found ==> p < idx.len() && num_before(p1, p2, x as int, idx@[p as int] as int),
        decreases idx.len() - p, if found { 0int } else { 1int },
    {
        if nums_before(primary, secondary, x, idx[p]) {
            found = true;
        } else {
            proof {
                lemma_num_before_total(p1, p2, x as int, idx@[p as int] as int);
            }
            p += 1;
        }
    }
    let ghost before = idx@;
    proof {
        if p < before.len() {
            assert forall|b: int| p <= b < before.len() implies num_before(
                p1,
                p2,
                x as int,
                #[trigger] before[b] as int,
            ) by {
                if b > p {
                    lemma_num_before_transitive(p1, p2, x as int, before[p as int] as int, before[b] as int);
                }
            }
        }
    }
    idx.insert(p, x);
    proof {
        let after = idx@;
        assert(after =~= before.subrange(0, p as int).push(x) + before.subrange(p as int, before.len() as int));
        assert forall|a: int, b: int| 0 <= a < b < after.len() implies num_before(
            p1,
            p2,
            #[trigger] after[a] as int,
            #[trigger] after[b] as int,
        ) by {
            if b < p {
                assert(after[a] == before[a] && after[b] == before[b]);
            } else if b == p {
                assert(after[a] == before[a]);
            } else if a < p {
                assert(after[a] == before[a] && after[b] == before[b - 1]);
                if p < before.len() {
                    lemma_num_before_transitive(p1, p2, before[a] as int, x as int, before[b - 1] as int);
                }
            } else if a == p {
                assert(after[b] == before[b - 1]);
            } else {
                assert(after[a] == before[a - 1] && after[b] == before[b - 1]);
            }
        }
        assert forall|y: usize| after.contains(y) <==> (before.contains(y) || y == x) by {
            if after.contains(y) {
                let w = choose|w: int| 0 <= w < after.len() && after[w] == y;
                if w < p {
                    assert(before[w] == y);
                } else if w > p {
                    assert(before[w - 1] == y);
                }
            }
            if before.contains(y) {
                let w = choose|w: int| 0 <= w < before.len() && before[w] == y;
                if w < p {
                    assert(after[w] == y);
                } else {
                    assert(after[w + 1] == y);
                }
            }
            if y == x {
                assert(after[p as int] == x);
            }
        }
    }
}

} // verus!
