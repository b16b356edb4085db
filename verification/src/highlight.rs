//! Search highlighting in memo cards: the byte offsets of the characters of
//! a text that a case-insensitive query matches.

use vstd::prelude::*;
use crate::cjk::{utf8_len, utf8_len_exec, utf8_len_of};
use crate::memos::{lower_text, lowercase};
use crate::text::{chars_of, has_prefix_at, starts_with, string_of, trim, trim_chars};

verus! {

/// The byte offset at which character `k` of `s` begins.
pub open spec fn byte_offset(s: Seq<char>, k: int) -> int {
    utf8_len_of(s.take(k)) as int
}

/// The char index, from `k` on, at which `s` has a character boundary at
/// byte `pos`; none when `pos` is not a boundary of `s`.
pub open spec fn char_at_byte(s: Seq<char>, pos: int, k: int) -> Option<int>
    decreases s.len() + 1 - k,
{
    if k < 0 || k > s.len() {
        None
    } else if byte_offset(s, k) == pos {
        Some(k)
    } else {
        char_at_byte(s, pos, k + 1)
    }
}

/// The char indices at which `needle` occurs in `hay` from `from` on, left
/// to right, each search going on after the end of the previous match.
pub open spec fn match_starts(hay: Seq<char>, needle: Seq<char>, from: int) -> Seq<int>
    decreases hay.len() - from,
{
    if needle.len() == 0 || from < 0 || from + needle.len() > hay.len() {
        seq![]
    } else if starts_with(hay.skip(from), needle) {
        seq![from] + match_starts(hay, needle, from + needle.len())
    } else {
        match_starts(hay, needle, from + 1)
    }
}

/// The byte offsets of the characters of `text` between the bytes `start`
/// and `end`; none unless both are character boundaries of `text`.
pub open spec fn piece(text: Seq<char>, start: int, end: int) -> Seq<int> {
    match (char_at_byte(text, start, 0), char_at_byte(text, end, 0)) {
        (Some(a), Some(b)) => if a <= b {
            Seq::new((b - a) as nat, |i: int| byte_offset(text, a + i))
        } else {
            seq![]
        },
        _ => seq![],
    }
}

/// For each match start in `starts` (char indices into `hay`), the offsets
/// in `text` of the bytes that the match covers in `hay`.
pub open spec fn pieces(text: Seq<char>, hay: Seq<char>, needle: Seq<char>, starts: Seq<int>) -> Seq<int>
    decreases starts.len(),
{
    if starts.len() == 0 {
        seq![]
    } else {
        let s = byte_offset(hay, starts[0]);
        piece(text, s, s + utf8_len_of(needle)) + pieces(text, hay, needle, starts.drop_first())
    }
}

/// The byte offsets of the characters of `text` to highlight for `query`:
/// the trimmed query is lower-cased and looked for in the lower-cased text;
/// each match whose bytes are also a run of whole characters of `text`
/// gives the offsets of those characters. An absent or blank query gives
/// none.
pub open spec fn highlight_spec(text: Seq<char>, query: Option<Seq<char>>) -> Seq<int> {
    match query {
        None => seq![],
        Some(q) => if trim(q).len() == 0 {
            seq![]
        } else {
            let hay = lowercase(text);
            let needle = lowercase(trim(q));
            pieces(text, hay, needle, match_starts(hay, needle, 0))
        },
    }
}

/// One more character adds its width.
pub proof fn lemma_offset_step(s: Seq<char>, k: int)
    requires
        0 <= k < s.len(),
    ensures
        byte_offset(s, k + 1) == byte_offset(s, k) + utf8_len(s[k]),
{
    assert(s.take(k + 1).drop_last() =~= s.take(k));
}

/// Offsets grow by at least one byte per character.
pub proof fn lemma_offset_grows(s: Seq<char>, j: int, k: int)
    requires
        0 <= j <= k <= s.len(),
    ensures
        byte_offset(s, j) + (k - j) <= byte_offset(s, k),
    decreases k - j,
{
    if j < k {
        lemma_offset_grows(s, j, k - 1);
        lemma_offset_step(s, k - 1);
    }
}

/// The offset past the last character is the byte length.
pub proof fn lemma_offset_end(s: Seq<char>)
    ensures
        byte_offset(s, s.len() as int) == utf8_len_of(s),
{
    assert(s.take(s.len() as int) =~= s);
}

/// The bytes up to `p + m` are those up to `p` and those of `s[p..p + m]`.
pub proof fn lemma_offset_split(s: Seq<char>, p: int, m: int)
    requires
        0 <= p,
        0 <= m,
        p + m <= s.len(),
    ensures
        byte_offset(s, p + m) == byte_offset(s, p) + utf8_len_of(s.subrange(p, p + m)),
    decreases m,
{
    if m == 0 {
        assert(s.subrange(p, p) =~= Seq::<char>::empty());
    } else {
        lemma_offset_split(s, p, m - 1);
        lemma_offset_step(s, p + m - 1);
        assert(s.subrange(p, p + m).drop_last() =~= s.subrange(p, p + m - 1));
    }
}

/// A boundary found from `k` on is a char index of `s` at or after `k`.
pub proof fn lemma_boundary_range(s: Seq<char>, pos: int, k: int)
    ensures
        char_at_byte(s, pos, k) is Some ==> k <= char_at_byte(s, pos, k)->0 <= s.len(),
    decreases s.len() + 1 - k,
{
    if 0 <= k <= s.len() && byte_offset(s, k) != pos {
        lemma_boundary_range(s, pos, k + 1);
    }
}

/// A byte past the end of `s` is no boundary of it.
pub proof fn lemma_no_boundary_past_end(s: Seq<char>, pos: int, k: int)
    requires
        pos > utf8_len_of(s),
    ensures
        char_at_byte(s, pos, k) is None,
    decreases s.len() + 1 - k,
{
    if 0 <= k <= s.len() {
        lemma_offset_grows(s, k, s.len() as int);
        lemma_offset_end(s);
        lemma_no_boundary_past_end(s, pos, k + 1);
    }
}

/// Every match start from `from` on is at least `from`.
pub proof fn lemma_starts_from(hay: Seq<char>, needle: Seq<char>, from: int)
    ensures
        forall|i: int| 0 <= i < match_starts(hay, needle, from).len() ==> #[trigger] match_starts(hay, needle, from)[i] >= from
            && match_starts(hay, needle, from)[i] + needle.len() <= hay.len(),
    decreases hay.len() - from,
{
    if needle.len() == 0 || from < 0 || from + needle.len() > hay.len() {
    } else if starts_with(hay.skip(from), needle) {
        lemma_starts_from(hay, needle, from + needle.len());
        let rest = match_starts(hay, needle, from + needle.len());
        assert forall|i: int| 0 <= i < match_starts(hay, needle, from).len() implies #[trigger] match_starts(hay, needle, from)[i] >= from
            && match_starts(hay, needle, from)[i] + needle.len() <= hay.len() by {
            if i > 0 {
                assert(match_starts(hay, needle, from)[i] == rest[i - 1]);
            }
        }
    } else {
        lemma_starts_from(hay, needle, from + 1);
        let rest = match_starts(hay, needle, from + 1);
        assert forall|i: int| 0 <= i < match_starts(hay, needle, from).len() implies #[trigger] match_starts(hay, needle, from)[i] >= from
            && match_starts(hay, needle, from)[i] + needle.len() <= hay.len() by {
            assert(match_starts(hay, needle, from)[i] == rest[i]);
        }
    }
}

/// Matches whose bytes end past the end of `text` give nothing.
pub proof fn lemma_pieces_past_end(text: Seq<char>, hay: Seq<char>, needle: Seq<char>, starts: Seq<int>)
    requires
        forall|i: int| 0 <= i < starts.len() ==> byte_offset(hay, #[trigger] starts[i]) + utf8_len_of(needle) > utf8_len_of(text),
    ensures
        pieces(text, hay, needle, starts) == Seq::<int>::empty(),
    decreases starts.len(),
{
    if starts.len() > 0 {
        let s = byte_offset(hay, starts[0]);
        lemma_no_boundary_past_end(text, s + utf8_len_of(needle), 0);
        assert(forall|i: int| 0 <= i < starts.drop_first().len() ==> #[trigger] starts.drop_first()[i] == starts[i + 1]);
        lemma_pieces_past_end(text, hay, needle, starts.drop_first());
        assert(piece(text, s, s + utf8_len_of(needle)) =~= Seq::<int>::empty());
        assert(pieces(text, hay, needle, starts) =~= Seq::<int>::empty());
    }
}

/// The values of `v` as integers.
pub open spec fn ints(v: Seq<usize>) -> Seq<int> {
    v.map_values(|x: usize| x as int)
}

/// The byte offset of each character of `t`, and of its end.
fn text_offsets(t: &Vec<char>) -> (offs: Vec<usize>)
    requires
        utf8_len_of(t@) <= usize::MAX,
    ensures
        offs@.len() == t@.len() + 1,
        forall|k: int| 0 <= k <= t@.len() ==> #[trigger] offs@[k] == byte_offset(t@, k),
{
    let mut offs: Vec<usize> = Vec::new();
    let mut at: usize = 0;
    let mut k: usize = 0;
    proof {
        lemma_offset_end(t@);
        assert(t@.take(0) =~= Seq::<char>::empty());
    }
    while k < t.len()
        invariant
            k <= t@.len(),
            utf8_len_of(t@) <= usize::MAX,
            byte_offset(t@, t@.len() as int) == utf8_len_of(t@),
            at == byte_offset(t@, k as int),
            offs@.len() == k,
            forall|j: int| 0 <= j < k ==> #[trigger] offs@[j] == byte_offset(t@, j),
        decreases t@.len() - k,
    {
        offs.push(at);
        proof {
            lemma_offset_step(t@, k as int);
            lemma_offset_grows(t@, k + 1, t@.len() as int);
        }
        at = at + utf8_len_exec(t[k]);
        k += 1;
    }
    offs.push(at);
    offs
}

/// The char index at which `text` has a boundary at byte `pos` (see
/// [`char_at_byte`]).
fn find_boundary(text: &Vec<char>, offs: &Vec<usize>, pos: usize) -> (r: Option<usize>)
    requires
        offs@.len() == text@.len() + 1,
        forall|k: int| 0 <= k <= text@.len() ==> #[trigger] offs@[k] == byte_offset(text@, k),
    ensures
        r is Some <==> char_at_byte(text@, pos as int, 0) is Some,
        r is Some ==> r->0 as int == char_at_byte(text@, pos as int, 0)->0 && r->0 <= text@.len(),
{
    proof {
        lemma_boundary_range(text@, pos as int, 0);
    }
    let mut k: usize = 0;
    while k < offs.len()
        invariant
            k <= offs@.len(),
            offs@.len() == text@.len() + 1,
            forall|j: int| 0 <= j <= text@.len() ==> #[trigger] offs@[j] == byte_offset(text@, j),
            char_at_byte(text@, pos as int, 0) == char_at_byte(text@, pos as int, k as int),
        decreases offs@.len() - k,
    {
        if offs[k] == pos {
            return Some(k);
        }
        k += 1;
    }
    None
}

/// The byte offsets of the characters of `text` that `query` matches when
/// both are lower-cased (see [`highlight_spec`]).
pub fn match_indices(text: &str, query: Option<&str>) -> (r: Vec<usize>)
    requires
        utf8_len_of(text@) <= usize::MAX,
    ensures
        ints(r@) == highlight_spec(
            text@,
            match query {
                Some(q) => Some(q@),
                None => None,
            },
        ),
{
    let q = match query {
        None => {
            let out: Vec<usize> = Vec::new();
            assert(ints(out@) =~= Seq::<int>::empty());
            return out;
        },
        Some(q) => q,
    };
    let qt = trim_chars(&chars_of(q));
    if qt.len() == 0 {
        let out: Vec<usize> = Vec::new();
        assert(ints(out@) =~= Seq::<int>::empty());
        return out;
    }
    let tv = chars_of(text);
    let hay_s = lower_text(text);
    let hay = chars_of(hay_s.as_str());
    let qs = string_of(&qt);
    let nd_s = lower_text(qs.as_str());
    let nd = chars_of(nd_s.as_str());
    let ghost full = highlight_spec(text@, Some(q@));
    assert(full == pieces(tv@, hay@, nd@, match_starts(hay@, nd@, 0)));
    let mut out: Vec<usize> = Vec::new();
    if nd.len() == 0 {
        assert(ints(out@) =~= Seq::<int>::empty());
        return out;
    }
    let offs = text_offsets(&tv);
    let total = offs[tv.len()];
    proof {
        lemma_offset_end(tv@);
    }
    // The byte length of the needle, unless it is longer than the text.
    let mut ndb: usize = 0;
    let mut j: usize = 0;
    let mut too_long = false;
    assert(nd@.take(0) =~= Seq::<char>::empty());
    while j < nd.len() && !too_long
        invariant
            j <= nd@.len(),
            ndb == byte_offset(nd@, j as int),
            ndb <= total,
            total == utf8_len_of(tv@),
            too_long ==> j < nd@.len() && byte_offset(nd@, j + 1) > total,
        decreases nd@.len() - j, if too_long { 0int } else { 1int },
    {
        let w = utf8_len_exec(nd[j]);
        proof {
            lemma_offset_step(nd@, j as int);
        }
        if w > total - ndb {
            too_long = true;
        } else {
            ndb = ndb + w;
            j += 1;
        }
    }
    if too_long {
        proof {
            lemma_offset_grows(nd@, j + 1, nd@.len() as int);
            lemma_offset_end(nd@);
            let st = match_starts(hay@, nd@, 0);
            assert(forall|i: int| 0 <= i < st.len() ==> byte_offset(hay@, #[trigger] st[i]) + utf8_len_of(nd@)
                > utf8_len_of(tv@));
            lemma_pieces_past_end(tv@, hay@, nd@, st);
        }
        assert(ints(out@) =~= Seq::<int>::empty());
        return out;
    }
    proof {
        lemma_offset_end(nd@);
    }
    let mut p: usize = 0;
    let mut hoff: usize = 0;
    let mut done = false;
    assert(hay@.take(0) =~= Seq::<char>::empty());
    assert(ints(out@) + pieces(tv@, hay@, nd@, match_starts(hay@, nd@, 0)) =~= full);
    while !done && nd.len() <= hay.len() - p
        invariant
            p <= hay@.len(),
            nd@.len() > 0,
            hoff == byte_offset(hay@, p as int),
            hoff <= total,
            total == utf8_len_of(tv@),
            ndb == utf8_len_of(nd@),
            ndb <= total,
            offs@.len() == tv@.len() + 1,
            forall|k: int| 0 <= k <= tv@.len() ==> #[trigger] offs@[k] == byte_offset(tv@, k),
            !done ==> ints(out@) + pieces(tv@, hay@, nd@, match_starts(hay@, nd@, p as int)) == full,
            done ==> ints(out@) == full,
        decreases hay@.len() - p, if done { 0int } else { 1int },
    {
        let ghost rest = match_starts(hay@, nd@, p as int);
        if has_prefix_at(&hay, p, &nd) {
            let ghost next = match_starts(hay@, nd@, p + nd@.len());
            assert(rest == seq![p as int] + next);
            assert(rest.drop_first() =~= next);
            proof {
                lemma_offset_split(hay@, p as int, nd@.len() as int);
                assert(hay@.subrange(p as int, p + nd@.len()) =~= hay@.skip(p as int).take(nd@.len() as int));
            }
            if ndb > total - hoff {
                proof {
                    lemma_no_boundary_past_end(tv@, hoff + ndb, 0);
                    lemma_starts_from(hay@, nd@, p + nd@.len());
                    assert forall|i: int| 0 <= i < next.len() implies byte_offset(hay@, #[trigger] next[i])
                        + utf8_len_of(nd@) > utf8_len_of(tv@) by {
                        lemma_offset_grows(hay@, p + nd@.len(), next[i]);
                    }
                    lemma_pieces_past_end(tv@, hay@, nd@, next);
                    assert(piece(tv@, hoff as int, hoff + ndb) =~= Seq::<int>::empty());
                    assert(ints(out@) =~= ints(out@) + pieces(tv@, hay@, nd@, rest));
                }
                done = true;
            } else {
                let end = hoff + ndb;
                let fa = find_boundary(&tv, &offs, hoff);
                let fb = find_boundary(&tv, &offs, end);
                let ghost before = ints(out@);
                if fa.is_some() && fb.is_some() {
                    let a = fa.unwrap();
                    let b = fb.unwrap();
                    if a <= b {
                        let mut k = a;
                        while k < b
                            invariant
                                a <= k <= b <= tv@.len(),
                                offs@.len() == tv@.len() + 1,
                                forall|x: int| 0 <= x <= tv@.len() ==> #[trigger] offs@[x] == byte_offset(tv@, x),
                                ints(out@) == before + Seq::new((k - a) as nat, |i: int| byte_offset(tv@, a + i)),
                            decreases b - k,
                        {
                            let ghost prev = out@;
                            let x = offs[k];
                            assert(x == byte_offset(tv@, k as int));
                            out.push(x);
                            assert(ints(out@) =~= ints(prev).push(x as int));
                            assert(ints(out@) =~= before + Seq::new((k + 1 - a) as nat, |i: int| byte_offset(tv@, a + i)));
                            k += 1;
                        }
                    }
                }
                assert(ints(out@) =~= before + piece(tv@, hoff as int, end as int));
                assert(ints(out@) + pieces(tv@, hay@, nd@, next) =~= full);
                p = p + nd.len();
                hoff = end;
            }
        } else {
            assert(!starts_with(hay@.skip(p as int), nd@));
            assert(rest == match_starts(hay@, nd@, p + 1));
            let w = utf8_len_exec(hay[p]);
            proof {
                lemma_offset_step(hay@, p as int);
            }
            if w > total - hoff {
                proof {
                    let next = match_starts(hay@, nd@, p + 1);
                    lemma_starts_from(hay@, nd@, p + 1);
                    assert forall|i: int| 0 <= i < next.len() implies byte_offset(hay@, #[trigger] next[i])
                        + utf8_len_of(nd@) > utf8_len_of(tv@) by {
                        lemma_offset_grows(hay@, p + 1, next[i]);
                    }
                    lemma_pieces_past_end(tv@, hay@, nd@, next);
                    assert(ints(out@) =~= ints(out@) + pieces(tv@, hay@, nd@, rest));
                }
                done = true;
            } else {
                hoff = hoff + w;
                p = p + 1;
            }
        }
    }
    proof {
        if !done {
            assert(match_starts(hay@, nd@, p as int) =~= Seq::<int>::empty());
            assert(ints(out@) =~= ints(out@) + pieces(tv@, hay@, nd@, match_starts(hay@, nd@, p as int)));
        }
    }
    out
}

} // verus!
