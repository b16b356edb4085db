//! Plain-text excerpts of Markdown for the memo list.

use vstd::prelude::*;
use crate::text::{chars_of, count_lead_at, extend, has_prefix, in_class, is_ws, lead, lemma_lead, lemma_lead_bound, lemma_trail, lemma_trail_bound, slice, starts_with, string_of, trail, trim, trim_chars, trim_end, trim_start, trim_start_chars, CharClass};

verus! {

/// A line without a final carriage return.
pub open spec fn strip_cr(l: Seq<char>) -> Seq<char> {
    if l.len() > 0 && l.last() == '\r' {
        l.drop_last()
    } else {
        l
    }
}

/// `str::lines`: the text split at `\n` (a `\r` before the `\n` dropped), with
/// no empty last line after a final `\n`.
pub open spec fn split_lines(s: Seq<char>) -> Seq<Seq<char>>
    decreases s.len(),
{
    if s.len() == 0 {
        seq![]
    } else {
        let k = lead(s, CharClass::Not('\n'));
        if k < s.len() {
            seq![strip_cr(s.take(k as int))] + split_lines(s.skip(k + 1 as int))
        } else {
            seq![s]
        }
    }
}

/// The line with its first Markdown block marker (heading, quote or bullet)
/// removed.
pub open spec fn strip_block_prefix(l: Seq<char>) -> Seq<char> {
    if starts_with(l, "# "@) {
        l.skip("# "@.len() as int)
    } else if starts_with(l, "## "@) {
        l.skip("## "@.len() as int)
    } else if starts_with(l, "### "@) {
        l.skip("### "@.len() as int)
    } else if starts_with(l, "#### "@) {
        l.skip("#### "@.len() as int)
    } else if starts_with(l, "##### "@) {
        l.skip("##### "@.len() as int)
    } else if starts_with(l, "###### "@) {
        l.skip("###### "@.len() as int)
    } else if starts_with(l, "> "@) {
        l.skip("> "@.len() as int)
    } else if starts_with(l, "- "@) {
        l.skip("- "@.len() as int)
    } else if starts_with(l, "* "@) {
        l.skip("* "@.len() as int)
    } else {
        l
    }
}

/// The plain text of `lines`: fence lines (starting with three backticks after
/// indentation) toggle code mode and are dropped; code lines are kept as they
/// are; other lines are trimmed and lose their block marker. Each kept line is
/// followed by a space.
pub open spec fn plain_text(lines: Seq<Seq<char>>, in_fence: bool) -> Seq<char>
    decreases lines.len(),
{
    if lines.len() == 0 {
        seq![]
    } else {
        let line = lines[0];
        let rest = lines.drop_first();
        if starts_with(trim_start(line), "```"@) {
            plain_text(rest, !in_fence)
        } else if in_fence {
            line + seq![' '] + plain_text(rest, true)
        } else {
            strip_block_prefix(trim(line)) + seq![' '] + plain_text(rest, false)
        }
    }
}

/// `str::split_whitespace`: the maximal runs of non-whitespace characters.
pub open spec fn words(s: Seq<char>) -> Seq<Seq<char>>
    decreases s.len(),
{
    let a = lead(s, CharClass::Whitespace);
    if a >= s.len() {
        seq![]
    } else {
        let t = s.skip(a as int);
        let w = lead(t, CharClass::NotWhitespace);
        if w == 0 {
            seq![]
        } else {
            proof {
                lemma_lead_bound(t, CharClass::NotWhitespace);
            }
            seq![t.take(w as int)] + words(t.skip(w as int))
        }
    }
}

/// The pieces of `ws` joined by single spaces.
pub open spec fn join_spaced(ws: Seq<Seq<char>>) -> Seq<char>
    decreases ws.len(),
{
    if ws.len() == 0 {
        seq![]
    } else if ws.len() == 1 {
        ws[0]
    } else {
        ws[0] + seq![' '] + join_spaced(ws.drop_first())
    }
}

/// The words of `s` separated by single spaces.
pub open spec fn collapse_ws(s: Seq<char>) -> Seq<char> {
    join_spaced(words(s))
}

/// The excerpt of `markdown`: its plain text with whitespace collapsed; when
/// that is longer than `max_chars` characters, its first `max_chars`
/// characters followed by `...`.
pub open spec fn excerpt_of(markdown: Seq<char>, max_chars: nat) -> Seq<char> {
    let collapsed = collapse_ws(plain_text(split_lines(markdown), false));
    if collapsed.len() <= max_chars {
        collapsed
    } else {
        collapsed.take(max_chars as int) + "..."@
    }
}

fn strip_block_prefix_chars(l: &Vec<char>) -> (r: Vec<char>)
    ensures
        r@ == strip_block_prefix(l@),
{
    let p1 = chars_of("# ");
    if has_prefix(l, &p1) {
        return slice(l, p1.len(), l.len());
    }
    let p2 = chars_of("## ");
    if has_prefix(l, &p2) {
        return slice(l, p2.len(), l.len());
    }
    let p3 = chars_of("### ");
    if has_prefix(l, &p3) {
        return slice(l, p3.len(), l.len());
    }
    let p4 = chars_of("#### ");
    if has_prefix(l, &p4) {
        return slice(l, p4.len(), l.len());
    }
    let p5 = chars_of("##### ");
    if has_prefix(l, &p5) {
        return slice(l, p5.len(), l.len());
    }
    let p6 = chars_of("###### ");
    if has_prefix(l, &p6) {
        return slice(l, p6.len(), l.len());
    }
    let q = chars_of("> ");
    if has_prefix(l, &q) {
        return slice(l, q.len(), l.len());
    }
    let d = chars_of("- ");
    if has_prefix(l, &d) {
        return slice(l, d.len(), l.len());
    }
    let st = chars_of("* ");
    if has_prefix(l, &st) {
        return slice(l, st.len(), l.len());
    }
    slice(l, 0, l.len())
}

proof fn lemma_split_lines_step(s: Seq<char>, k: int)
    requires
        0 <= k < s.len(),
        k == lead(s, CharClass::Not('\n')),
    ensures
        split_lines(s) == seq![strip_cr(s.take(k))] + split_lines(s.skip(k + 1)),
{
}

/// The plain text of the lines of `s` (see [`plain_text`]).
fn plain_of(s: &Vec<char>) -> (r: Vec<char>)
    ensures
        r@ == plain_text(split_lines(s@), false),
{
    let mut out: Vec<char> = Vec::new();
    let mut pos: usize = 0;
    let mut in_fence = false;
    let fence = chars_of("```");
    assert(s@.skip(0) =~= s@);
    while pos < s.len()
        invariant
            pos <= s.len(),
            fence@ == "```"@,
            out@ + plain_text(split_lines(s@.skip(pos as int)), in_fence) == plain_text(
                split_lines(s@),
                false,
            ),
        decreases s.len() - pos,
    {
        let ghost rest = s@.skip(pos as int);
        let k = count_lead_at(s, pos, CharClass::Not('\n'));
        proof {
            lemma_lead_bound(rest, CharClass::Not('\n'));
        }
        let mut line = slice(s, pos, pos + k);
        let next: usize;
        if pos + k < s.len() {
            assert(rest[k as int] == '\n');
            if line.len() > 0 && line[line.len() - 1] == '\r' {
                line.pop();
            }
            proof {
                assert(rest.take(k as int) =~= s@.subrange(pos as int, pos + k));
                assert(rest.skip(k + 1) =~= s@.skip(pos + k + 1));
                lemma_split_lines_step(rest, k as int);
            }
            next = pos + k + 1;
        } else {
            proof {
                assert(rest =~= s@.subrange(pos as int, pos + k));
                assert(split_lines(rest) == seq![rest]);
                assert(s@.skip(s.len() as int) =~= Seq::<char>::empty());
            }
            next = s.len();
        }
        let ghost lines = split_lines(rest);
        assert(lines[0] == line@);
        let ghost tail = lines.drop_first();
        assert(tail == split_lines(s@.skip(next as int))) by {
            if pos + k < s.len() {
                assert((seq![line@] + split_lines(s@.skip(next as int))).drop_first()
                    =~= split_lines(s@.skip(next as int)));
            } else {
                assert(lines.drop_first() =~= Seq::<Seq<char>>::empty());
            }
        }
        let ghost before = out@;
        let start_trimmed = trim_start_chars(&line);
        if has_prefix(&start_trimmed, &fence) {
            in_fence = !in_fence;
        } else if in_fence {
            extend(&mut out, &line);
            out.push(' ');
            assert(out@ + plain_text(tail, true) =~= before + (line@ + seq![' '] + plain_text(
                tail,
                true,
            )));
        } else {
            let trimmed = trim_chars(&line);
            let body = strip_block_prefix_chars(&trimmed);
            extend(&mut out, &body);
            out.push(' ');
            assert(out@ + plain_text(tail, false) =~= before + (body@ + seq![' '] + plain_text(
                tail,
                false,
            )));
        }
        pos = next;
    }
    proof {
        assert(s@.skip(pos as int) =~= Seq::<char>::empty());
        assert(out@ + Seq::<char>::empty() =~= out@);
    }
    out
}

proof fn lemma_words_step(s: Seq<char>)
    ensures
        ({
            let a = lead(s, CharClass::Whitespace);
            a < s.len() ==> {
                let t = s.skip(a as int);
                let w = lead(t, CharClass::NotWhitespace);
                &&& w >= 1
                &&& words(s) == seq![t.take(w as int)] + words(t.skip(w as int))
            }
        }),
{
    lemma_lead_bound(s, CharClass::Whitespace);
    let a = lead(s, CharClass::Whitespace);
    if a < s.len() {
        let t = s.skip(a as int);
        assert(t[0] == s[a as int]);
        assert(lead(t, CharClass::NotWhitespace) >= 1);
    }
}

/// The words of `s` joined by single spaces (see [`collapse_ws`]).
fn collapse(s: &Vec<char>) -> (r: Vec<char>)
    ensures
        r@ == collapse_ws(s@),
{
    let mut out: Vec<char> = Vec::new();
    let mut pos: usize = 0;
    let mut first = true;
    assert(s@.skip(0) =~= s@);
    while pos < s.len()
        invariant
            pos <= s.len(),
            first ==> out@.len() == 0,
            ({
                let rest = join_spaced(words(s@.skip(pos as int)));
                let whole = join_spaced(words(s@));
                if first {
                    rest == whole
                } else if words(s@.skip(pos as int)).len() == 0 {
                    out@ == whole
                } else {
                    out@ + seq![' '] + rest == whole
                }
            }),
        decreases s.len() - pos,
    {
        let ghost rest = s@.skip(pos as int);
        let a = count_lead_at(s, pos, CharClass::Whitespace);
        proof {
            lemma_words_step(rest);
            lemma_lead_bound(rest, CharClass::Whitespace);
        }
        if pos + a >= s.len() {
            proof {
                assert(words(rest) == Seq::<Seq<char>>::empty());
                assert(s@.skip(s.len() as int) =~= Seq::<char>::empty());
            }
            pos = s.len();
        } else {
            let ghost t = rest.skip(a as int);
            assert(t =~= s@.skip(pos + a));
            let w = count_lead_at(s, pos + a, CharClass::NotWhitespace);
            let word = slice(s, pos + a, pos + a + w);
            assert(word@ =~= t.take(w as int));
            assert(t.skip(w as int) =~= s@.skip(pos + a + w));
            let ghost ws_rest = words(s@.skip(pos + a + w));
            assert(words(rest) == seq![word@] + ws_rest);
            assert((seq![word@] + ws_rest).drop_first() =~= ws_rest);
            assert((seq![word@] + ws_rest)[0] == word@);
            let ghost before = out@;
            if !first {
                out.push(' ');
            }
            extend(&mut out, &word);
            proof {
                if first {
                    if ws_rest.len() > 0 {
                        assert(out@ + seq![' '] + join_spaced(ws_rest) =~= word@ + seq![' ']
                            + join_spaced(ws_rest));
                    }
                } else {
                    if ws_rest.len() > 0 {
                        assert(out@ + seq![' '] + join_spaced(ws_rest) =~= before + seq![' ']
                            + (word@ + seq![' '] + join_spaced(ws_rest)));
                    } else {
                        assert(out@ =~= before + seq![' '] + word@);
                    }
                }
            }
            first = false;
            pos = pos + a + w;
        }
    }
    proof {
        assert(s@.skip(pos as int) =~= Seq::<char>::empty());
        assert(words(Seq::<char>::empty()) == Seq::<Seq<char>>::empty());
    }
    out
}

/// Rough plain-text excerpt of a memo's Markdown for the memo list: headings,
/// quotes and bullets lose their markers, code fences are dropped, whitespace
/// collapses to single spaces, and text longer than `max_chars` characters is
/// cut there and ends with `...`.
pub fn derive_excerpt(markdown: &str, max_chars: usize) -> (r: String)
    ensures
        r@ == excerpt_of(markdown@, max_chars as nat),
        r@.len() <= max_chars + 3,
{
    let md = chars_of(markdown);
    let plain = plain_of(&md);
    let collapsed = collapse(&plain);
    if collapsed.len() <= max_chars {
        return string_of(&collapsed);
    }
    let mut cut = slice(&collapsed, 0, max_chars);
    let dots = chars_of("...");
    proof {
        reveal_strlit("...");
    }
    extend(&mut cut, &dots);
    string_of(&cut)
}

/// A heading marker of level `k`: `k` hashes and a space.
pub open spec fn hashes_marker(k: nat) -> Seq<char> {
    Seq::new(k, |j: int| '#') + seq![' ']
}

/// A text of one line (no `\n`) is its only line.
proof fn lemma_single_line(s: Seq<char>)
    requires
        s.len() > 0,
        forall|j: int| 0 <= j < s.len() ==> s[j] != '\n',
    ensures
        split_lines(s) == seq![s],
{
    lemma_lead(s, CharClass::Not('\n'), s.len() as int);
}

/// The plain text of one line outside a fence.
proof fn lemma_plain_one(l: Seq<char>)
    requires
        !starts_with(trim_start(l), "```"@),
    ensures
        plain_text(seq![l], false) == strip_block_prefix(trim(l)) + seq![' '],
{
    let rest = seq![l].drop_first();
    assert(rest =~= Seq::<Seq<char>>::empty());
    assert(seq![l][0] == l);
    assert(plain_text(rest, false) == Seq::<char>::empty());
    assert(strip_block_prefix(trim(l)) + seq![' '] + plain_text(rest, false) =~= strip_block_prefix(trim(l)) + seq![' ']);
}

/// A text whose first character is not whitespace is its own start-trim.
proof fn lemma_no_lead_ws(s: Seq<char>)
    requires
        s.len() > 0,
        !is_ws(s[0]),
    ensures
        trim_start(s) == s,
{
    lemma_lead(s, CharClass::Whitespace, 0);
    assert(s.skip(0) =~= s);
}

/// A non-blank text keeps its trailing whitespace count behind a prefix, so
/// trimming `h + t` trims only `t`.
proof fn lemma_trim_behind(h: Seq<char>, t: Seq<char>)
    requires
        h.len() > 0,
        !is_ws(h[0]),
        t.len() > 0,
        !is_ws(t[0]),
    ensures
        trim(h + t) == h + trim(t),
        trim(t).len() > 0,
        trim(t)[0] == t[0],
{
    let s = h + t;
    lemma_no_lead_ws(s);
    lemma_no_lead_ws(t);
    lemma_trail_bound(t, CharClass::Whitespace);
    let tr = trail(t, CharClass::Whitespace);
    if tr == t.len() {
        assert(in_class(CharClass::Whitespace, t[0]));
    }
    assert forall|j: int| s.len() - tr <= j < s.len() implies in_class(CharClass::Whitespace, #[trigger] s[j]) by {
        assert(s[j] == t[j - h.len()]);
    }
    assert(s[s.len() - 1 - tr] == t[t.len() - 1 - tr]);
    lemma_trail(s, CharClass::Whitespace, tr as int);
    assert(s.take(s.len() - tr) =~= h + t.take(t.len() - tr));
}

/// A heading line of level `k` (1 to 6) loses exactly its marker.
proof fn lemma_strip_heading(k: nat, x: Seq<char>)
    requires
        1 <= k <= 6,
    ensures
        strip_block_prefix(hashes_marker(k) + x) == x,
{
    reveal_strlit("# ");
    reveal_strlit("## ");
    reveal_strlit("### ");
    reveal_strlit("#### ");
    reveal_strlit("##### ");
    reveal_strlit("###### ");
    let s = hashes_marker(k) + x;
    assert("# "@ =~= hashes_marker(1));
    assert("## "@ =~= hashes_marker(2));
    assert("### "@ =~= hashes_marker(3));
    assert("#### "@ =~= hashes_marker(4));
    assert("##### "@ =~= hashes_marker(5));
    assert("###### "@ =~= hashes_marker(6));
    assert forall|m: nat| 1 <= m <= 6 implies (starts_with(s, #[trigger] hashes_marker(m)) <==> m == k) by {
        let p = hashes_marker(m);
        if m == k {
            assert(s.take(p.len() as int) =~= p);
        } else if m < k {
            if starts_with(s, p) {
                assert(s.take(p.len() as int)[m as int] == s[m as int]);
            }
        } else {
            if starts_with(s, p) {
                assert(s.take(p.len() as int)[k as int] == s[k as int]);
            }
        }
    }
    assert(s.skip(hashes_marker(k).len() as int) =~= x);
}

/// A text that starts with none of the marker characters keeps all of it.
proof fn lemma_strip_plain(x: Seq<char>)
    requires
        x.len() > 0,
        x[0] != '#' && x[0] != '>' && x[0] != '-' && x[0] != '*',
    ensures
        strip_block_prefix(x) == x,
{
    reveal_strlit("# ");
    reveal_strlit("## ");
    reveal_strlit("### ");
    reveal_strlit("#### ");
    reveal_strlit("##### ");
    reveal_strlit("###### ");
    reveal_strlit("> ");
    reveal_strlit("- ");
    reveal_strlit("* ");
    assert forall|p: Seq<char>| p.len() > 0 && p[0] != x[0] implies !starts_with(x, p) by {
        if starts_with(x, p) {
            assert(x.take(p.len() as int)[0] == x[0]);
        }
    }
    assert("# "@[0] == '#' && "## "@[0] == '#' && "### "@[0] == '#' && "#### "@[0] == '#');
    assert("##### "@[0] == '#' && "###### "@[0] == '#' && "> "@[0] == '>' && "- "@[0] == '-' && "* "@[0] == '*');
}

/// A heading loses its marker in the excerpt: for every level from 1 to 6,
/// the line of that many `#`, a space and a text `t` has the excerpt of `t`
/// alone. Here `t` is one line that starts with a character that is neither
/// whitespace nor a Markdown marker (`#`, `>`, `-`, `*`, or the backtick
/// of a fence).
pub proof fn lemma_heading_excerpt(k: nat, t: Seq<char>, n: nat)
    requires
        1 <= k <= 6,
        t.len() > 0,
        forall|j: int| 0 <= j < t.len() ==> t[j] != '\n',
        !is_ws(t[0]),
        t[0] != '#' && t[0] != '>' && t[0] != '-' && t[0] != '*' && t[0] != '`',
    ensures
        excerpt_of(hashes_marker(k) + t, n) == excerpt_of(t, n),
{
    reveal_strlit("```");
    let h = hashes_marker(k);
    let l = h + t;
    assert(h[0] == '#');
    assert forall|j: int| 0 <= j < l.len() implies l[j] != '\n' by {
        if j >= h.len() {
            assert(l[j] == t[j - h.len()]);
        }
    }
    lemma_single_line(l);
    lemma_single_line(t);
    lemma_no_lead_ws(l);
    lemma_no_lead_ws(t);
    if starts_with(l, "```"@) {
        assert(l.take(3)[0] == l[0]);
    }
    if starts_with(t, "```"@) {
        assert(t.take(3)[0] == t[0]);
    }
    lemma_plain_one(l);
    lemma_plain_one(t);
    lemma_trim_behind(h, t);
    let x = trim(t);
    lemma_strip_heading(k, x);
    lemma_strip_plain(x);
}

} // verus!
