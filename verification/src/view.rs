//! Small presentation decisions: the memo display modes, task priority
//! labels, the go-to-line query, the stored navigation pane state, tag
//! suggestions and the command palette's filter.

use vstd::prelude::*;
use crate::number::{all_digits, parse_u32, parse_unsigned};
use crate::memos::has_tag_nocase;
use crate::memos::contains_tag_nocase;
use crate::text::{ascii_lowercase, chars_of, contains_chars, contains_seq, eq_ascii_nocase, eq_ignore_ascii_case, seq_ascii_lower, slice, string_of, trim, trim_chars, trim_start_char, trim_start_char_chars};

verus! {

/// How memo Markdown is presented. The text is the same in every mode; only
/// its projection on screen changes.
#[derive(Clone, Copy, PartialEq, Eq, Structural, Debug)]
pub enum MemoDisplayMode {
    /// The editor alone.
    Source,
    /// The editor beside a rendered preview.
    Live,
    /// The rendered view alone.
    Read,
}

impl Default for MemoDisplayMode {
    fn default() -> (r: Self)
        ensures
            r == MemoDisplayMode::Source,
    {
        MemoDisplayMode::Source
    }
}

impl MemoDisplayMode {
    /// Every mode but `Read` shows the editor.
    pub fn shows_editor(self) -> (r: bool)
        ensures
            r == (self != MemoDisplayMode::Read),
    {
        !matches!(self, MemoDisplayMode::Read)
    }

    /// `Live` and `Read` show the rendered preview.
    pub fn shows_preview(self) -> (r: bool)
        ensures
            r == (self == MemoDisplayMode::Live || self == MemoDisplayMode::Read),
    {
        matches!(self, MemoDisplayMode::Live | MemoDisplayMode::Read)
    }

    /// The next mode (see [`next_mode`]).
    pub fn cycle(self) -> (r: Self)
        ensures
            r == next_mode(self),
    {
        match self {
            MemoDisplayMode::Source => MemoDisplayMode::Live,
            MemoDisplayMode::Live => MemoDisplayMode::Read,
            MemoDisplayMode::Read => MemoDisplayMode::Source,
        }
    }
}

/// The mode after `m`: `Source`, `Live`, `Read`, then `Source` again.
pub open spec fn next_mode(m: MemoDisplayMode) -> MemoDisplayMode {
    match m {
        MemoDisplayMode::Source => MemoDisplayMode::Live,
        MemoDisplayMode::Live => MemoDisplayMode::Read,
        MemoDisplayMode::Read => MemoDisplayMode::Source,
    }
}

/// Switching the display mode three times comes back to the mode one
/// started from, passing through every mode on the way.
pub proof fn lemma_display_mode_cycle(m: MemoDisplayMode)
    ensures
        next_mode(next_mode(next_mode(m))) == m,
        next_mode(m) != m,
        next_mode(next_mode(m)) != m,
        next_mode(next_mode(m)) != next_mode(m),
{
}

/// The label of a task priority.
pub open spec fn priority_label_spec(priority: i64) -> Seq<char> {
    if priority == 1 {
        "Low"@
    } else if priority == 2 {
        "Medium"@
    } else if priority == 3 {
        "High"@
    } else {
        "No priority"@
    }
}

/// The label of a task priority: 1 to 3 are Low, Medium and High; any
/// other value is "No priority".
pub fn priority_label(priority: i64) -> (r: &'static str)
    ensures
        r@ == priority_label_spec(priority),
{
    match priority {
        1 => "Low",
        2 => "Medium",
        3 => "High",
        _ => "No priority",
    }
}

/// The badge shown beside a task in the list: its priority label, and no
/// badge without a priority.
pub fn priority_badge(priority: i64) -> (r: Option<&'static str>)
    ensures
        match r {
            Some(l) => 1 <= priority <= 3 && l@ == priority_label_spec(priority),
            None => !(1 <= priority <= 3),
        },
{
    if 1 <= priority && priority <= 3 {
        Some(priority_label(priority))
    } else {
        None
    }
}

/// A separator in a go-to-line query: `:`, `,` or a space.
pub open spec fn is_line_sep(c: char) -> bool {
    c == ':' || c == ',' || c == ' '
}

/// The text before the first separator (all of it without one).
pub open spec fn first_piece(s: Seq<char>) -> Seq<char>
    decreases s.len(),
{
    if s.len() == 0 {
        s
    } else if is_line_sep(s[0]) {
        seq![]
    } else {
        seq![s[0]] + first_piece(s.drop_first())
    }
}

/// The line a go-to-line query asks for: the query trimmed, leading colons
/// dropped and trimmed again; its part before the first `:`, `,` or space,
/// trimmed, must be all digits and a `u32` of at least 1. An empty query
/// asks for nothing.
pub open spec fn go_to_line_spec(raw: Seq<char>) -> Option<nat> {
    let t = trim(trim_start_char(trim(raw), ':'));
    if t.len() == 0 {
        None
    } else {
        let part = trim(first_piece(t));
        if !all_digits(part) {
            None
        } else {
            match parse_unsigned(part, u32::MAX as nat) {
                Some(n) => if n >= 1 {
                    Some(n)
                } else {
                    None
                },
                None => None,
            }
        }
    }
}

/// The text of `v` before its first separator.
fn first_piece_exec(v: &Vec<char>) -> (r: Vec<char>)
    ensures
        r@ == first_piece(v@),
{
    let mut i: usize = 0;
    assert(v@.skip(0) =~= v@);
    while i < v.len() && !(v[i] == ':' || v[i] == ',' || v[i] == ' ')
        invariant
            i <= v.len(),
            first_piece(v@) == v@.take(i as int) + first_piece(v@.skip(i as int)),
        decreases v.len() - i,
    {
        assert(v@.skip(i as int).drop_first() =~= v@.skip(i + 1));
        assert(v@.take(i + 1) =~= v@.take(i as int) + seq![v@[i as int]]);
        i += 1;
    }
    proof {
        if i < v.len() {
            assert(v@.skip(i as int)[0] == v@[i as int]);
        } else {
            assert(v@.skip(i as int).len() == 0);
        }
        assert(first_piece(v@) =~= v@.take(i as int));
    }
    slice(v, 0, i)
}

/// Whether every character of `v` is an ASCII digit.
fn all_digits_exec(v: &Vec<char>) -> (r: bool)
    ensures
        r == all_digits(v@),
{
    let mut i: usize = 0;
    while i < v.len()
        invariant
            i <= v.len(),
            forall|j: int| 0 <= j < i ==> '0' <= #[trigger] v@[j] && v@[j] <= '9',
        decreases v.len() - i,
    {
        if !('0' <= v[i] && v[i] <= '9') {
            return false;
        }
        i += 1;
    }
    true
}

/// The line a go-to-line query asks for (see [`go_to_line_spec`]).
pub fn parse_go_to_line_query(raw: &str) -> (r: Option<u32>)
    ensures
        match go_to_line_spec(raw@) {
            Some(n) => r matches Some(x) && x as nat == n,
            None => r is None,
        },
{
    let t = trim_chars(&trim_start_char_chars(&trim_chars(&chars_of(raw)), ':'));
    if t.len() == 0 {
        return None;
    }
    let part = trim_chars(&first_piece_exec(&t));
    if !all_digits_exec(&part) {
        return None;
    }
    match parse_u32(string_of(&part).as_str()) {
        Some(n) => {
            if n >= 1 {
                Some(n)
            } else {
                None
            }
        },
        None => None,
    }
}

/// Whether the stored navigation pane state says collapsed: `1`, or `true`
/// in any ASCII case. Nothing stored means expanded.
pub fn nav_collapsed_from_meta(stored: Option<&str>) -> (r: bool)
    ensures
        r == match stored {
            Some(s) => s@ == "1"@ || eq_ascii_nocase(s@, "true"@),
            None => false,
        },
{
    match stored {
        Some(s) => crate::text::str_eq(s, "1") || eq_ignore_ascii_case(s, "true"),
        None => false,
    }
}

/// The stored value of the navigation pane state: `1` collapsed, `0` not.
pub fn nav_collapsed_meta(collapsed: bool) -> (r: &'static str)
    ensures
        r@ == if collapsed {
            "1"@
        } else {
            "0"@
        },
{
    if collapsed {
        "1"
    } else {
        "0"
    }
}

/// `q` is a subsequence of `t`: its characters occur in `t` in order.
pub open spec fn is_subsequence(q: Seq<char>, t: Seq<char>) -> bool
    decreases t.len(),
{
    if q.len() == 0 {
        true
    } else if t.len() == 0 {
        false
    } else if t[0] == q[0] {
        is_subsequence(q.drop_first(), t.drop_first())
    } else {
        is_subsequence(q, t.drop_first())
    }
}

/// The loose match of tag suggestions: `query` occurs in `text`, or its
/// characters occur in `text` in order.
pub open spec fn fuzzy_match(text: Seq<char>, query: Seq<char>) -> bool {
    contains_seq(text, query) || is_subsequence(query, text)
}

/// Whether `text` loosely matches `query` (see [`fuzzy_match`]).
pub fn fuzzy_contains(text: &str, query: &str) -> (r: bool)
    ensures
        r == fuzzy_match(text@, query@),
{
    let t = chars_of(text);
    let q = chars_of(query);
    if contains_chars(&t, &q) {
        return true;
    }
    let mut qi: usize = 0;
    if q.len() == 0 {
        return true;
    }
    let mut i: usize = 0;
    assert(t@.skip(0) =~= t@);
    assert(q@.skip(0) =~= q@);
    while i < t.len()
        invariant
            i <= t.len(),
            qi < q.len(),
            is_subsequence(q@, t@) == is_subsequence(q@.skip(qi as int), t@.skip(i as int)),
            !contains_seq(t@, q@),
            t@ == text@,
            q@ == query@,
        decreases t.len() - i,
    {
        assert(t@.skip(i as int).drop_first() =~= t@.skip(i + 1));
        assert(t@.skip(i as int)[0] == t@[i as int]);
        assert(q@.skip(qi as int)[0] == q@[qi as int]);
        if t[i] == q[qi] {
            assert(q@.skip(qi as int).drop_first() =~= q@.skip(qi + 1));
            assert(is_subsequence(q@.skip(qi as int), t@.skip(i as int)) == is_subsequence(
                q@.skip(qi + 1),
                t@.skip(i + 1),
            ));
            qi += 1;
            if qi == q.len() {
                assert(q@.skip(qi as int).len() == 0);
                assert(is_subsequence(q@.skip(qi as int), t@.skip(i + 1)));
                return true;
            }
        }
        i += 1;
    }
    assert(t@.skip(i as int).len() == 0);
    false
}

/// The most tag suggestions shown.
pub const SUGGESTION_LIMIT: usize = 6;

/// `tag` is suggested for the lower-cased query `q` beside the memo's tags
/// `active`: the memo does not have it (ignoring ASCII case) and an empty
/// query or a loose match of its lower-cased text.
pub open spec fn suggests(tag: Seq<char>, active: Seq<String>, q: Seq<char>) -> bool {
    !has_tag_nocase(active, tag) && (q.len() == 0 || fuzzy_match(seq_ascii_lower(tag), q))
}

/// The suggested tags among the first `n` known tags, in order.
pub open spec fn suggested(available: Seq<String>, active: Seq<String>, q: Seq<char>, n: nat) -> Seq<String>
    decreases n,
{
    if n == 0 {
        seq![]
    } else {
        let prev = suggested(available, active, q, (n - 1) as nat);
        if suggests(available[n - 1]@, active, q) {
            prev.push(available[n - 1])
        } else {
            prev
        }
    }
}

/// The tag suggestions for the tag field text `query`: with `q` the text
/// trimmed and ASCII-lower-cased, the first six known tags the memo lacks
/// that match `q` loosely (any, for an empty `q`); when none match a
/// non-empty `q`, `q` itself.
pub fn filtered_tag_suggestions(available: &Vec<String>, active: &Vec<String>, query: &str) -> (r: Vec<String>)
    ensures
        ({
            let q = seq_ascii_lower(trim(query@));
            let all = suggested(available@, active@, q, available@.len());
            let first = if all.len() <= 6 {
                all
            } else {
                all.take(6)
            };
            if first.len() == 0 && q.len() > 0 {
                r@.len() == 1 && r@[0]@ == q
            } else {
                r@ == first
            }
        }),
{
    let qv = ascii_lowercase(&trim_chars(&chars_of(query)));
    let q = string_of(&qv);
    let mut out: Vec<String> = Vec::new();
    let mut i: usize = 0;
    while i < available.len() && out.len() < SUGGESTION_LIMIT
        invariant
            i <= available.len(),
            q@ == seq_ascii_lower(trim(query@)),
            qv@ == q@,
            out@ == suggested(available@, active@, q@, i as nat),
            out@.len() <= 6,
        decreases available.len() - i,
    {
        let tag = &available[i];
        let keep = !contains_tag_nocase(active, tag.as_str()) && (qv.len() == 0 || fuzzy_contains(
            string_of(&ascii_lowercase(&chars_of(tag.as_str()))).as_str(),
            q.as_str(),
        ));
        if keep {
            out.push(tag.clone());
        }
        i += 1;
    }
    proof {
        lemma_suggested_prefix(available@, active@, q@, i as nat, available@.len());
    }
    if out.len() == 0 && qv.len() > 0 {
        out.push(q);
    }
    out
}

/// The suggestions among a prefix are the first ones of a longer prefix.
proof fn lemma_suggested_prefix(available: Seq<String>, active: Seq<String>, q: Seq<char>, m: nat, n: nat)
    requires
        m <= n,
    ensures
        suggested(available, active, q, m).len() <= suggested(available, active, q, n).len(),
        suggested(available, active, q, m) == suggested(available, active, q, n).take(
            suggested(available, active, q, m).len() as int,
        ),
    decreases n,
{
    if n > m {
        lemma_suggested_prefix(available, active, q, m, (n - 1) as nat);
        let a = suggested(available, active, q, m);
        let b = suggested(available, active, q, (n - 1) as nat);
        let c = suggested(available, active, q, n);
        assert(c.take(a.len() as int) =~= b.take(a.len() as int));
    } else {
        let a = suggested(available, active, q, m);
        assert(a.take(a.len() as int) =~= a);
    }
}

/// A command palette entry is shown for the query `raw`: with `q` the query
/// trimmed and lower-cased, when `q` is empty or the entry's label or its
/// action name, lower-cased, holds `q`.
pub open spec fn palette_shows(label: Seq<char>, action: Seq<char>, raw: Seq<char>) -> bool {
    let q = crate::memos::lowercase(trim(raw));
    q.len() == 0 || contains_seq(crate::memos::lowercase(label), q) || contains_seq(
        crate::memos::lowercase(action),
        q,
    )
}

/// Whether a command palette entry is shown for the query `raw`.
pub fn palette_entry_matches(label: &str, action: &str, raw: &str) -> (r: bool)
    ensures
        r == palette_shows(label@, action@, raw@),
{
    let q = chars_of(crate::memos::lower_text(string_of(&trim_chars(&chars_of(raw))).as_str()).as_str());
    q.len() == 0 || contains_chars(&chars_of(crate::memos::lower_text(label).as_str()), &q)
        || contains_chars(&chars_of(crate::memos::lower_text(action).as_str()), &q)
}

/// The palette selection once the list has `len` entries: kept while in
/// range, else the last entry (0 for an empty list).
pub fn clamp_selection(selected: usize, len: usize) -> (r: usize)
    ensures
        selected < len ==> r == selected,
        selected >= len ==> r == if len == 0 {
            0
        } else {
            (len - 1) as usize
        },
{
    if selected >= len {
        len.saturating_sub(1)
    } else {
        selected
    }
}

} // verus!
