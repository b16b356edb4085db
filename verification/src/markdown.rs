//! Markdown line and selection transforms behind the editor's formatting
//! actions: block quotes, headings, bullet, numbered and task lists, code
//! fences, and inline emphasis.

use vstd::prelude::*;
use crate::lines::{lemma_line_views_push, line_views};
use crate::text::{chars_of, concat, count_lead, has_prefix, in_class, is_ws, lead, lemma_lead, lemma_lead_bound, slice, starts_with, string_of, trim, trim_chars, trim_start, trim_start_char, trim_start_char_chars, trim_start_chars, CharClass};

verus! {

/// The blank indentation (spaces and tabs) that starts a line.
pub open spec fn indent_of(line: Seq<char>) -> Seq<char> {
    line.take(lead(line, CharClass::Blank) as int)
}

/// The line after its blank indentation.
pub open spec fn body_of(line: Seq<char>) -> Seq<char> {
    line.skip(lead(line, CharClass::Blank) as int)
}

/// A body without its leading `#` characters and one following space.
pub open spec fn heading_stripped(body: Seq<char>) -> Seq<char> {
    let t = trim_start_char(body, '#');
    if starts_with(t, " "@) {
        t.skip(1)
    } else {
        t
    }
}

/// The bullet or task marker that starts `body`, if any.
pub open spec fn bullet_prefix(body: Seq<char>) -> Option<Seq<char>> {
    if starts_with(body, "- [ ] "@) {
        Some("- [ ] "@)
    } else if starts_with(body, "- [x] "@) {
        Some("- [x] "@)
    } else if starts_with(body, "- [X] "@) {
        Some("- [X] "@)
    } else if starts_with(body, "- "@) {
        Some("- "@)
    } else if starts_with(body, "* "@) {
        Some("* "@)
    } else if starts_with(body, "+ "@) {
        Some("+ "@)
    } else {
        None
    }
}

/// The numbered-list marker (`digits`, `.`, space) that starts `body`, if any.
pub open spec fn number_prefix(body: Seq<char>) -> Option<Seq<char>> {
    let i = lead(body, CharClass::Digit);
    if i > 0 && i + 1 < body.len() && body[i as int] == '.' && body[i + 1 as int] == ' ' {
        Some(body.take(i + 2 as int))
    } else {
        None
    }
}

/// The first of `ps` that `s` starts with.
pub open spec fn first_match(s: Seq<char>, ps: Seq<Seq<char>>) -> Option<Seq<char>>
    decreases ps.len(),
{
    if ps.len() == 0 {
        None
    } else if starts_with(s, ps[0]) {
        Some(ps[0])
    } else {
        first_match(s, ps.drop_first())
    }
}

/// `s` without the given prefix, or `s` itself.
pub open spec fn without(s: Seq<char>, p: Option<Seq<char>>) -> Seq<char> {
    match p {
        Some(p) => s.skip(p.len() as int),
        None => s,
    }
}

// ---------------------------------------------------------------------------
// Helpers on single lines
// ---------------------------------------------------------------------------

/// Number of blank indentation characters of a line.
fn indent_len(v: &Vec<char>) -> (n: usize)
    ensures
        n == lead(v@, CharClass::Blank),
        n <= v.len(),
{
    proof {
        lemma_lead_bound(v@, CharClass::Blank);
    }
    count_lead(v, CharClass::Blank)
}

/// The spaces and tabs that start `line`.
pub fn leading_indent(line: &str) -> (r: String)
    ensures
        r@ == indent_of(line@),
{
    let v = chars_of(line);
    let n = indent_len(&v);
    string_of(&slice(&v, 0, n))
}

fn heading_stripped_chars(body: &Vec<char>) -> (r: Vec<char>)
    ensures
        r@ == heading_stripped(body@),
{
    let t = trim_start_char_chars(body, '#');
    let sp = chars_of(" ");
    proof {
        reveal_strlit(" ");
    }
    if has_prefix(&t, &sp) {
        slice(&t, 1, t.len())
    } else {
        t
    }
}

/// A heading body without its `#` marks and the space after them.
pub fn strip_heading_prefix(body: &str) -> (r: String)
    ensures
        r@ == heading_stripped(body@),
{
    string_of(&heading_stripped_chars(&chars_of(body)))
}

/// The bullet or task marker that starts `body`.
pub fn unordered_or_task_prefix(body: &str) -> (r: Option<&'static str>)
    ensures
        match r {
            Some(p) => bullet_prefix(body@) == Some(p@),
            None => bullet_prefix(body@) is None,
        },
{
    let v = chars_of(body);
    if has_prefix(&v, &chars_of("- [ ] ")) {
        Some("- [ ] ")
    } else if has_prefix(&v, &chars_of("- [x] ")) {
        Some("- [x] ")
    } else if has_prefix(&v, &chars_of("- [X] ")) {
        Some("- [X] ")
    } else if has_prefix(&v, &chars_of("- ")) {
        Some("- ")
    } else if has_prefix(&v, &chars_of("* ")) {
        Some("* ")
    } else if has_prefix(&v, &chars_of("+ ")) {
        Some("+ ")
    } else {
        None
    }
}

/// Length of the bullet or task marker that starts `v`.
fn bullet_prefix_len(v: &Vec<char>) -> (r: Option<usize>)
    ensures
        match r {
            Some(n) => bullet_prefix(v@) matches Some(p) && p.len() == n && n <= v.len(),
            None => bullet_prefix(v@) is None,
        },
{
    let p1 = chars_of("- [ ] ");
    let p2 = chars_of("- [x] ");
    let p3 = chars_of("- [X] ");
    let p4 = chars_of("- ");
    let p5 = chars_of("* ");
    let p6 = chars_of("+ ");
    if has_prefix(v, &p1) {
        Some(p1.len())
    } else if has_prefix(v, &p2) {
        Some(p2.len())
    } else if has_prefix(v, &p3) {
        Some(p3.len())
    } else if has_prefix(v, &p4) {
        Some(p4.len())
    } else if has_prefix(v, &p5) {
        Some(p5.len())
    } else if has_prefix(v, &p6) {
        Some(p6.len())
    } else {
        None
    }
}

/// Length of the numbered-list marker that starts `v`.
fn number_prefix_len(v: &Vec<char>) -> (r: Option<usize>)
    ensures
        match r {
            Some(n) => number_prefix(v@) == Some(v@.take(n as int)) && n <= v.len(),
            None => number_prefix(v@) is None,
        },
{
    let i = count_lead(v, CharClass::Digit);
    proof {
        lemma_lead_bound(v@, CharClass::Digit);
    }
    if i > 0 && i < v.len() && v.len() - i > 1 && v[i] == '.' && v[i + 1] == ' ' {
        Some(i + 2)
    } else {
        None
    }
}

/// The numbered-list marker (`12. `) that starts `body`.
pub fn ordered_list_prefix(body: &str) -> (r: Option<&str>)
    ensures
        match r {
            Some(p) => number_prefix(body@) == Some(p@),
            None => number_prefix(body@) is None,
        },
{
    let v = chars_of(body);
    match number_prefix_len(&v) {
        Some(n) => Some(body.substring_char(0, n)),
        None => None,
    }
}

/// The first of `ps` that `v` starts with, by index.
fn first_match_index(v: &Vec<char>, ps: &Vec<Vec<char>>) -> (r: Option<usize>)
    ensures
        match r {
            Some(i) => i < ps.len() && first_match(v@, line_views(ps@)) == Some(ps@[i as int]@),
            None => first_match(v@, line_views(ps@)) is None,
        },
{
    let ghost all = line_views(ps@);
    let mut i: usize = 0;
    assert(all.skip(0) =~= all);
    while i < ps.len()
        invariant
            i <= ps.len(),
            all == line_views(ps@),
            first_match(v@, all.skip(i as int)) == first_match(v@, all),
        decreases ps.len() - i,
    {
        let ghost rest = all.skip(i as int);
        assert(rest[0] == ps@[i as int]@);
        if has_prefix(v, &ps[i]) {
            return Some(i);
        }
        assert(rest.drop_first() =~= all.skip(i + 1));
        i += 1;
    }
    assert(all.skip(ps.len() as int) =~= Seq::<Seq<char>>::empty());
    None
}

// ---------------------------------------------------------------------------
// Line transforms
// ---------------------------------------------------------------------------

/// Every line, after its leading whitespace, starts with one of `ps`.
pub open spec fn all_start_with_one_of(lines: Seq<Seq<char>>, ps: Seq<Seq<char>>) -> bool {
    forall|i: int| 0 <= i < lines.len() ==> first_match(trim_start(#[trigger] lines[i]), ps) is Some
}

/// One line of a prefix toggle (block quote, bullet list).
pub open spec fn prefix_toggled(line: Seq<char>, add: Seq<char>, ps: Seq<Seq<char>>, all: bool) -> Seq<
    char,
> {
    let indent = indent_of(line);
    let body = body_of(line);
    let stripped = without(body, first_match(body, ps));
    if all {
        indent + stripped
    } else if trim(stripped).len() == 0 && trim(add) == ">"@ {
        indent + ">"@
    } else {
        indent + add + stripped
    }
}

/// Toggling a line prefix: when every line already has one of `ps`, it is
/// removed from each line; otherwise `add` is put after each line's indent
/// (replacing one of `ps` where present; an empty quote line gets a bare `>`).
pub open spec fn toggle_prefix_spec(lines: Seq<Seq<char>>, add: Seq<char>, ps: Seq<Seq<char>>) -> Seq<
    Seq<char>,
> {
    let all = all_start_with_one_of(lines, ps);
    Seq::new(lines.len(), |i: int| prefix_toggled(lines[i], add, ps, all))
}

fn all_lines_match(lines: &Vec<Vec<char>>, ps: &Vec<Vec<char>>) -> (r: bool)
    ensures
        r == all_start_with_one_of(line_views(lines@), line_views(ps@)),
{
    let mut i: usize = 0;
    while i < lines.len()
        invariant
            i <= lines.len(),
            forall|j: int|
                0 <= j < i ==> first_match(trim_start(#[trigger] line_views(lines@)[j]), line_views(ps@))
                    is Some,
        decreases lines.len() - i,
    {
        let t = trim_start_chars(&lines[i]);
        if first_match_index(&t, ps).is_none() {
            assert(line_views(lines@)[i as int] == lines@[i as int]@);
            return false;
        }
        i += 1;
    }
    true
}

/// Block-quote / bullet toggle of a set of lines (see [`toggle_prefix_spec`]).
pub fn toggle_prefix_lines(lines: &Vec<Vec<char>>, add: &Vec<char>, ps: &Vec<Vec<char>>) -> (r: Vec<
    Vec<char>,
>)
    ensures
        line_views(r@) == toggle_prefix_spec(line_views(lines@), add@, line_views(ps@)),
{
    let all = all_lines_match(lines, ps);
    let quote = chars_of(">");
    let add_trimmed = trim_chars(add);
    let mut out: Vec<Vec<char>> = Vec::new();
    let mut i: usize = 0;
    while i < lines.len()
        invariant
            i <= lines.len(),
            out@.len() == i,
            quote@ == ">"@,
            add_trimmed@ == trim(add@),
            all == all_start_with_one_of(line_views(lines@), line_views(ps@)),
            forall|j: int|
                0 <= j < i ==> #[trigger] out@[j]@ == prefix_toggled(
                    lines@[j]@,
                    add@,
                    line_views(ps@),
                    all,
                ),
        decreases lines.len() - i,
    {
        let line = &lines[i];
        let n = indent_len(line);
        let indent = slice(line, 0, n);
        let body = slice(line, n, line.len());
        let stripped = match first_match_index(&body, ps) {
            Some(k) => {
                proof {
                    assert(first_match(body@, line_views(ps@)) == Some(ps@[k as int]@));
                    lemma_first_match_starts(body@, line_views(ps@));
                }
                slice(&body, ps[k].len(), body.len())
            },
            None => body,
        };
        let new_line = if all {
            concat(&indent, &stripped)
        } else if trim_chars(&stripped).len() == 0 && crate::text::chars_eq(&add_trimmed, &quote) {
            concat(&indent, &quote)
        } else {
            concat(&concat(&indent, add), &stripped)
        };
        out.push(new_line);
        i += 1;
    }
    proof {
        assert(line_views(out@) =~= toggle_prefix_spec(line_views(lines@), add@, line_views(ps@)));
    }
    out
}

proof fn lemma_first_match_starts(s: Seq<char>, ps: Seq<Seq<char>>)
    ensures
        first_match(s, ps) matches Some(p) ==> starts_with(s, p),
    decreases ps.len(),
{
    if ps.len() > 0 && !starts_with(s, ps[0]) {
        lemma_first_match_starts(s, ps.drop_first());
    }
}


// ---------------------------------------------------------------------------
// Decimal numbers
// ---------------------------------------------------------------------------

/// The decimal digit for `d` (0 to 9).
pub open spec fn digit_char(d: nat) -> char {
    if d == 0 {
        '0'
    } else if d == 1 {
        '1'
    } else if d == 2 {
        '2'
    } else if d == 3 {
        '3'
    } else if d == 4 {
        '4'
    } else if d == 5 {
        '5'
    } else if d == 6 {
        '6'
    } else if d == 7 {
        '7'
    } else if d == 8 {
        '8'
    } else {
        '9'
    }
}

/// The decimal representation of `n`, without leading zeros.
pub open spec fn decimal(n: nat) -> Seq<char>
    decreases n,
{
    if n < 10 {
        seq![digit_char(n)]
    } else {
        decimal(n / 10).push(digit_char(n % 10))
    }
}

fn digit(d: u64) -> (c: char)
    requires
        d < 10,
    ensures
        c == digit_char(d as nat),
{
    if d == 0 {
        '0'
    } else if d == 1 {
        '1'
    } else if d == 2 {
        '2'
    } else if d == 3 {
        '3'
    } else if d == 4 {
        '4'
    } else if d == 5 {
        '5'
    } else if d == 6 {
        '6'
    } else if d == 7 {
        '7'
    } else if d == 8 {
        '8'
    } else {
        '9'
    }
}

/// The decimal digits of `n`.
pub fn decimal_chars(n: u64) -> (r: Vec<char>)
    ensures
        r@ == decimal(n as nat),
    decreases n,
{
    if n < 10 {
        let mut r: Vec<char> = Vec::new();
        r.push(digit(n));
        assert(r@ =~= seq![digit_char(n as nat)]);
        r
    } else {
        let mut r = decimal_chars(n / 10);
        r.push(digit(n % 10));
        r
    }
}

// ---------------------------------------------------------------------------
// Headings
// ---------------------------------------------------------------------------

/// `level` hashes and a space.
pub open spec fn heading_marker(level: nat) -> Seq<char> {
    Seq::new(level, |i: int| '#').push(' ')
}

/// Every line, after its leading whitespace, is already a heading of exactly
/// the marker `p`.
pub open spec fn all_headings(lines: Seq<Seq<char>>, p: Seq<char>) -> bool {
    forall|i: int|
        0 <= i < lines.len() ==> {
            let b = trim_start(#[trigger] lines[i]);
            starts_with(b, p) && !starts_with(b.skip(p.len() as int), "#"@)
        }
}

pub open spec fn heading_line(line: Seq<char>, p: Seq<char>, all: bool) -> Seq<char> {
    let rest = heading_stripped(body_of(line));
    if all {
        indent_of(line) + rest
    } else {
        indent_of(line) + p + rest
    }
}

/// Setting a heading level: when every line already has this heading it is
/// removed; otherwise each line's heading marks are replaced by `level`
/// hashes and a space.
pub open spec fn heading_spec(lines: Seq<Seq<char>>, level: nat) -> Seq<Seq<char>> {
    let p = heading_marker(level);
    let all = all_headings(lines, p);
    Seq::new(lines.len(), |i: int| heading_line(lines[i], p, all))
}

fn heading_marker_chars(level: u8) -> (r: Vec<char>)
    ensures
        r@ == heading_marker(level as nat),
{
    let mut r: Vec<char> = Vec::new();
    let mut i: u8 = 0;
    while i < level
        invariant
            i <= level,
            r@ == Seq::new(i as nat, |k: int| '#'),
        decreases level - i,
    {
        r.push('#');
        assert(r@ =~= Seq::new((i + 1) as nat, |k: int| '#'));
        i += 1;
    }
    r.push(' ');
    r
}

/// Heading toggle of a set of lines (see [`heading_spec`]).
pub fn heading_lines(lines: &Vec<Vec<char>>, level: u8) -> (r: Vec<Vec<char>>)
    ensures
        line_views(r@) == heading_spec(line_views(lines@), level as nat),
{
    let p = heading_marker_chars(level);
    let hash = chars_of("#");
    let mut all = true;
    let mut i: usize = 0;
    while i < lines.len()
        invariant
            i <= lines.len(),
            p@ == heading_marker(level as nat),
            hash@ == "#"@,
            all == (forall|j: int|
                0 <= j < i ==> {
                    let b = trim_start(#[trigger] line_views(lines@)[j]);
                    starts_with(b, p@) && !starts_with(b.skip(p@.len() as int), "#"@)
                }),
        decreases lines.len() - i,
    {
        let b = trim_start_chars(&lines[i]);
        assert(line_views(lines@)[i as int] == lines@[i as int]@);
        let ok = has_prefix(&b, &p) && !crate::text::has_prefix_at(&b, p.len(), &hash);
        all = all && ok;
        i += 1;
    }
    let mut out: Vec<Vec<char>> = Vec::new();
    let mut i: usize = 0;
    while i < lines.len()
        invariant
            i <= lines.len(),
            out@.len() == i,
            p@ == heading_marker(level as nat),
            all == all_headings(line_views(lines@), p@),
            forall|j: int|
                0 <= j < i ==> #[trigger] out@[j]@ == heading_line(lines@[j]@, p@, all),
        decreases lines.len() - i,
    {
        let line = &lines[i];
        let n = indent_len(line);
        let indent = slice(line, 0, n);
        let rest = heading_stripped_chars(&slice(line, n, line.len()));
        let new_line = if all {
            concat(&indent, &rest)
        } else {
            concat(&concat(&indent, &p), &rest)
        };
        out.push(new_line);
        i += 1;
    }
    proof {
        assert(line_views(out@) =~= heading_spec(line_views(lines@), level as nat));
    }
    out
}

// ---------------------------------------------------------------------------
// Numbered and task lists
// ---------------------------------------------------------------------------

/// A body without its numbered-list marker, or else its bullet marker.
pub open spec fn list_stripped(body: Seq<char>) -> Seq<char> {
    match number_prefix(body) {
        Some(p) => body.skip(p.len() as int),
        None => without(body, bullet_prefix(body)),
    }
}

/// Every line, after its leading whitespace, starts with a number marker.
pub open spec fn all_numbered(lines: Seq<Seq<char>>) -> bool {
    forall|i: int| 0 <= i < lines.len() ==> number_prefix(trim_start(#[trigger] lines[i])) is Some
}

pub open spec fn numbered_line(line: Seq<char>, ix: nat, all: bool) -> Seq<char> {
    let rest = list_stripped(body_of(line));
    if all {
        indent_of(line) + rest
    } else {
        indent_of(line) + decimal(ix + 1) + ". "@ + rest
    }
}

/// Numbered-list toggle: when every line is numbered the numbers are
/// removed; otherwise the lines are numbered from 1 (replacing any number or
/// bullet marker).
pub open spec fn numbered_spec(lines: Seq<Seq<char>>) -> Seq<Seq<char>> {
    let all = all_numbered(lines);
    Seq::new(lines.len(), |i: int| numbered_line(lines[i], i as nat, all))
}

fn list_stripped_chars(body: &Vec<char>) -> (r: Vec<char>)
    ensures
        r@ == list_stripped(body@),
{
    match number_prefix_len(body) {
        Some(n) => slice(body, n, body.len()),
        None => match bullet_prefix_len(body) {
            Some(n) => slice(body, n, body.len()),
            None => slice(body, 0, body.len()),
        },
    }
}

/// Numbered-list toggle of a set of lines (see [`numbered_spec`]).
pub fn numbered_lines(lines: &Vec<Vec<char>>) -> (r: Vec<Vec<char>>)
    ensures
        line_views(r@) == numbered_spec(line_views(lines@)),
{
    let mut all = true;
    let mut i: usize = 0;
    while i < lines.len()
        invariant
            i <= lines.len(),
            all == (forall|j: int|
                0 <= j < i ==> number_prefix(trim_start(#[trigger] line_views(lines@)[j])) is Some),
        decreases lines.len() - i,
    {
        let b = trim_start_chars(&lines[i]);
        assert(line_views(lines@)[i as int] == lines@[i as int]@);
        all = all && number_prefix_len(&b).is_some();
        i += 1;
    }
    let dot = chars_of(". ");
    let mut out: Vec<Vec<char>> = Vec::new();
    let mut i: usize = 0;
    while i < lines.len()
        invariant
            i <= lines.len(),
            out@.len() == i,
            dot@ == ". "@,
            all == all_numbered(line_views(lines@)),
            forall|j: int|
                0 <= j < i ==> #[trigger] out@[j]@ == numbered_line(lines@[j]@, j as nat, all),
        decreases lines.len() - i,
    {
        let line = &lines[i];
        let n = indent_len(line);
        let indent = slice(line, 0, n);
        let rest = list_stripped_chars(&slice(line, n, line.len()));
        let new_line = if all {
            concat(&indent, &rest)
        } else {
            let num = decimal_chars((i as u64) + 1);
            concat(&concat(&concat(&indent, &num), &dot), &rest)
        };
        out.push(new_line);
        i += 1;
    }
    proof {
        assert(line_views(out@) =~= numbered_spec(line_views(lines@)));
    }
    out
}

/// The task markers.
pub open spec fn task_markers() -> Seq<Seq<char>> {
    seq!["- [ ] "@, "- [x] "@, "- [X] "@]
}

/// A body without its task marker, or else its bullet or number marker.
pub open spec fn task_stripped(body: Seq<char>) -> Seq<char> {
    match first_match(body, task_markers()) {
        Some(p) => body.skip(p.len() as int),
        None => match bullet_prefix(body) {
            Some(p) => body.skip(p.len() as int),
            None => without(body, number_prefix(body)),
        },
    }
}

/// Every line, after its leading whitespace, is a task.
pub open spec fn all_tasks(lines: Seq<Seq<char>>) -> bool {
    forall|i: int|
        0 <= i < lines.len() ==> first_match(trim_start(#[trigger] lines[i]), task_markers()) is Some
}

pub open spec fn task_line(line: Seq<char>, all: bool) -> Seq<char> {
    let rest = task_stripped(body_of(line));
    if all {
        indent_of(line) + rest
    } else {
        indent_of(line) + "- [ ] "@ + rest
    }
}

/// Task-list toggle: when every line is a task the markers are removed;
/// otherwise every line becomes an open task (replacing any list marker).
pub open spec fn task_spec(lines: Seq<Seq<char>>) -> Seq<Seq<char>> {
    let all = all_tasks(lines);
    Seq::new(lines.len(), |i: int| task_line(lines[i], all))
}

fn task_marker_list() -> (r: Vec<Vec<char>>)
    ensures
        line_views(r@) == task_markers(),
{
    let mut r: Vec<Vec<char>> = Vec::new();
    r.push(chars_of("- [ ] "));
    r.push(chars_of("- [x] "));
    r.push(chars_of("- [X] "));
    assert(line_views(r@) =~= task_markers());
    r
}

fn task_stripped_chars(body: &Vec<char>, markers: &Vec<Vec<char>>) -> (r: Vec<char>)
    requires
        line_views(markers@) == task_markers(),
    ensures
        r@ == task_stripped(body@),
{
    match first_match_index(body, markers) {
        Some(k) => {
            proof {
                lemma_first_match_starts(body@, task_markers());
            }
            slice(body, markers[k].len(), body.len())
        },
        None => match bullet_prefix_len(body) {
            Some(n) => slice(body, n, body.len()),
            None => match number_prefix_len(body) {
                Some(n) => slice(body, n, body.len()),
                None => slice(body, 0, body.len()),
            },
        },
    }
}

/// Task-list toggle of a set of lines (see [`task_spec`]).
pub fn task_lines(lines: &Vec<Vec<char>>) -> (r: Vec<Vec<char>>)
    ensures
        line_views(r@) == task_spec(line_views(lines@)),
{
    let markers = task_marker_list();
    let all = all_lines_match(lines, &markers);
    let open_task = chars_of("- [ ] ");
    let mut out: Vec<Vec<char>> = Vec::new();
    let mut i: usize = 0;
    while i < lines.len()
        invariant
            i <= lines.len(),
            out@.len() == i,
            open_task@ == "- [ ] "@,
            line_views(markers@) == task_markers(),
            all == all_tasks(line_views(lines@)),
            forall|j: int| 0 <= j < i ==> #[trigger] out@[j]@ == task_line(lines@[j]@, all),
        decreases lines.len() - i,
    {
        let line = &lines[i];
        let n = indent_len(line);
        let indent = slice(line, 0, n);
        let rest = task_stripped_chars(&slice(line, n, line.len()), &markers);
        let new_line = if all {
            concat(&indent, &rest)
        } else {
            concat(&concat(&indent, &open_task), &rest)
        };
        out.push(new_line);
        i += 1;
    }
    proof {
        assert(line_views(out@) =~= task_spec(line_views(lines@)));
    }
    out
}

// ---------------------------------------------------------------------------
// Code fences
// ---------------------------------------------------------------------------

/// The lines form a fenced block: at least two lines, the first and the last
/// a bare fence.
pub open spec fn is_fenced(lines: Seq<Seq<char>>) -> bool {
    lines.len() >= 2 && trim(lines[0]) == "```"@ && trim(lines.last()) == "```"@
}

/// Code-fence toggle: a fenced block loses its fence lines; anything else is
/// wrapped in fence lines.
pub open spec fn code_block_spec(lines: Seq<Seq<char>>) -> Seq<Seq<char>> {
    if is_fenced(lines) {
        lines.subrange(1, lines.len() - 1)
    } else {
        seq!["```"@] + lines + seq!["```"@]
    }
}

/// Code-fence toggle of a set of lines (see [`code_block_spec`]).
pub fn code_block_lines(lines: &Vec<Vec<char>>) -> (r: Vec<Vec<char>>)
    ensures
        line_views(r@) == code_block_spec(line_views(lines@)),
{
    let fence = chars_of("```");
    let n = lines.len();
    let fenced = n >= 2 && crate::text::chars_eq(&trim_chars(&lines[0]), &fence)
        && crate::text::chars_eq(&trim_chars(&lines[n - 1]), &fence);
    let mut out: Vec<Vec<char>> = Vec::new();
    if fenced {
        let mut i: usize = 1;
        while i < n - 1
            invariant
                n == lines.len(),
                n >= 2,
                1 <= i <= n - 1,
                line_views(out@) == line_views(lines@).subrange(1, i as int),
            decreases n - 1 - i,
        {
            let ghost before = out@;
            let l = slice(&lines[i], 0, lines[i].len());
            out.push(l);
            proof {
                assert(l@ =~= lines@[i as int]@);
                assert(line_views(lines@)[i as int] == lines@[i as int]@);
                lemma_line_views_push(before, l);
                assert(line_views(out@) =~= line_views(lines@).subrange(1, i + 1));
            }
            i += 1;
        }
        assert(line_views(lines@)[0] == lines@[0]@);
        assert(line_views(lines@).last() == lines@[n - 1]@);
        out
    } else {
        out.push(chars_of("```"));
        let mut i: usize = 0;
        while i < n
            invariant
                n == lines.len(),
                fence@ == "```"@,
                i <= n,
                line_views(out@) == seq!["```"@] + line_views(lines@).take(i as int),
            decreases n - i,
        {
            let ghost before = out@;
            let l = slice(&lines[i], 0, lines[i].len());
            out.push(l);
            proof {
                assert(l@ =~= lines@[i as int]@);
                assert(line_views(lines@)[i as int] == lines@[i as int]@);
                lemma_line_views_push(before, l);
                assert(line_views(out@) =~= seq!["```"@] + line_views(lines@).take(i + 1));
            }
            i += 1;
        }
        out.push(fence);
        proof {
            assert(line_views(lines@).take(n as int) =~= line_views(lines@));
            if n >= 2 {
                assert(line_views(lines@)[0] == lines@[0]@);
                assert(line_views(lines@).last() == lines@[n - 1]@);
            }
            assert(line_views(out@) =~= seq!["```"@] + line_views(lines@) + seq!["```"@]);
        }
        out
    }
}

// ---------------------------------------------------------------------------
// Laws of the toggles
// ---------------------------------------------------------------------------

/// The run of `cls` at the start of `a + b`, when all of `a` is in `cls`.
proof fn lemma_lead_after(a: Seq<char>, b: Seq<char>, cls: CharClass)
    requires
        forall|j: int| 0 <= j < a.len() ==> in_class(cls, #[trigger] a[j]),
    ensures
        lead(a + b, cls) == a.len() + lead(b, cls),
{
    lemma_lead_bound(b, cls);
    let s = a + b;
    let n = a.len() + lead(b, cls);
    assert forall|j: int| 0 <= j < n implies in_class(cls, #[trigger] s[j]) by {
        if j >= a.len() {
            assert(s[j] == b[j - a.len()]);
        }
    }
    if n < s.len() {
        assert(s[n as int] == b[lead(b, cls) as int]);
    }
    lemma_lead(s, cls, n as int);
}

/// No run of `cls` starts a text whose first character is not in `cls`.
proof fn lemma_lead_none(s: Seq<char>, cls: CharClass)
    requires
        s.len() == 0 || !in_class(cls, s[0]),
    ensures
        lead(s, cls) == 0,
{
}

/// A line is its indentation followed by its body, and the indentation is
/// made of spaces and tabs, which are whitespace.
proof fn lemma_line_parts(line: Seq<char>)
    ensures
        line == indent_of(line) + body_of(line),
        forall|j: int| 0 <= j < indent_of(line).len() ==> in_class(CharClass::Blank, #[trigger] indent_of(line)[j]),
        forall|j: int| 0 <= j < indent_of(line).len() ==> is_ws(#[trigger] indent_of(line)[j]),
        body_of(line).len() == 0 || !in_class(CharClass::Blank, body_of(line)[0]),
{
    lemma_lead_bound(line, CharClass::Blank);
    assert(line =~= indent_of(line) + body_of(line));
    let n = lead(line, CharClass::Blank);
    if body_of(line).len() > 0 {
        assert(body_of(line)[0] == line[n as int]);
    }
}

/// A heading marker is hashes followed by one space.
proof fn lemma_marker_parts(level: nat)
    requires
        level >= 1,
    ensures
        heading_marker(level).len() == level + 1,
        heading_marker(level)[0] == '#',
        forall|j: int| 0 <= j < level ==> #[trigger] heading_marker(level)[j] == '#',
        heading_marker(level)[level as int] == ' ',
{
}

/// What the body, indent and heading-stripped text of a freshly marked line
/// are.
proof fn lemma_marked_line(indent: Seq<char>, level: nat, body: Seq<char>)
    requires
        level >= 1,
        forall|j: int| 0 <= j < indent.len() ==> in_class(CharClass::Blank, #[trigger] indent[j]),
        body.len() == 0 || (body[0] != '#' && body[0] != ' '),
    ensures
        body_of(indent + heading_marker(level) + body) == heading_marker(level) + body,
        indent_of(indent + heading_marker(level) + body) == indent,
        trim_start(indent + heading_marker(level) + body) == heading_marker(level) + body,
        heading_stripped(heading_marker(level) + body) == body,
        heading_stripped(body) == body,
{
    let p = heading_marker(level);
    lemma_marker_parts(level);
    let pb = p + body;
    let line = indent + pb;
    assert(line =~= indent + p + body);
    lemma_lead_none(pb, CharClass::Blank);
    lemma_lead_after(indent, pb, CharClass::Blank);
    assert(line.skip(indent.len() as int) =~= pb);
    assert(line.take(indent.len() as int) =~= indent);
    assert forall|j: int| 0 <= j < indent.len() implies in_class(CharClass::Whitespace, #[trigger] indent[j]) by {}
    lemma_lead_none(pb, CharClass::Whitespace);
    lemma_lead_after(indent, pb, CharClass::Whitespace);
    // the hashes
    let hashes = p.take(level as int);
    assert forall|j: int| 0 <= j < hashes.len() implies in_class(CharClass::Exactly('#'), #[trigger] hashes[j]) by {}
    let rest = seq![' '] + body;
    assert(pb =~= hashes + rest);
    lemma_lead_none(rest, CharClass::Exactly('#'));
    lemma_lead_after(hashes, rest, CharClass::Exactly('#'));
    assert(pb.skip(level as int) =~= rest);
    reveal_strlit(" ");
    assert(rest.take(1) =~= " "@);
    assert(starts_with(rest, " "@));
    assert(rest.skip(1) =~= body);
    lemma_lead_none(body, CharClass::Exactly('#'));
    assert(body.skip(0) =~= body);
    if body.len() > 0 {
        assert(!starts_with(body, " "@)) by {
            if starts_with(body, " "@) {
                assert(body.take(1)[0] == body[0]);
            }
        }
    }
}

/// Setting the same heading level twice gives back lines that are not
/// headings: a line whose text after its indentation does not start with
/// `#` first gains the marker, then loses it again.
pub proof fn lemma_heading_toggle_twice(lines: Seq<Seq<char>>, level: nat)
    requires
        1 <= level,
        forall|i: int|
            0 <= i < lines.len() ==> body_of(#[trigger] lines[i]).len() == 0 || body_of(lines[i])[0] != '#',
    ensures
        heading_spec(heading_spec(lines, level), level) == lines,
{
    let p = heading_marker(level);
    let once = heading_spec(lines, level);
    let all = all_headings(lines, p);
    assert forall|i: int| 0 <= i < lines.len() implies #[trigger] once[i] == if all {
        lines[i]
    } else {
        indent_of(lines[i]) + p + body_of(lines[i])
    } by {
        lemma_line_parts(lines[i]);
        lemma_marked_line(indent_of(lines[i]), level, body_of(lines[i]));
    }
    if all {
        assert(once =~= lines);
    } else {
        assert(all_headings(once, p)) by {
            assert forall|i: int| 0 <= i < once.len() implies {
                let b = trim_start(#[trigger] once[i]);
                starts_with(b, p) && !starts_with(b.skip(p.len() as int), "#"@)
            } by {
                lemma_line_parts(lines[i]);
                lemma_marked_line(indent_of(lines[i]), level, body_of(lines[i]));
                let body = body_of(lines[i]);
                assert((p + body).take(p.len() as int) =~= p);
                assert((p + body).skip(p.len() as int) =~= body);
                reveal_strlit("#");
                if body.len() > 0 {
                    if starts_with(body, "#"@) {
                        assert(body.take(1)[0] == body[0]);
                    }
                }
            }
        }
        let twice = heading_spec(once, level);
        assert forall|i: int| 0 <= i < lines.len() implies #[trigger] twice[i] == lines[i] by {
            lemma_line_parts(lines[i]);
            lemma_marked_line(indent_of(lines[i]), level, body_of(lines[i]));
        }
        assert(twice =~= lines);
    }
}

/// The trimmed text of a bare fence line is the fence.
proof fn lemma_fence_trim()
    ensures
        trim("```"@) == "```"@,
{
    reveal_strlit("```");
    let f = "```"@;
    lemma_lead_none(f, CharClass::Whitespace);
    assert(f.skip(0) =~= f);
    crate::text::lemma_trail(f, CharClass::Whitespace, 0);
    assert(f.take(3) =~= f);
}

/// Wrapping lines that are not a fenced block in a code fence and toggling
/// again gives the lines back.
pub proof fn lemma_code_block_toggle_twice(lines: Seq<Seq<char>>)
    requires
        !is_fenced(lines),
    ensures
        code_block_spec(code_block_spec(lines)) == lines,
{
    let w = seq!["```"@] + lines + seq!["```"@];
    lemma_fence_trim();
    assert(w[0] == "```"@);
    assert(w.last() == "```"@);
    assert(is_fenced(w));
    assert(w.subrange(1, w.len() - 1) =~= lines);
}

/// A line made of the indentation `indent` and a text `x` that starts with
/// neither a blank nor whitespace: its indentation, body and text after
/// leading whitespace.
proof fn lemma_indented(indent: Seq<char>, x: Seq<char>)
    requires
        forall|j: int| 0 <= j < indent.len() ==> in_class(CharClass::Blank, #[trigger] indent[j]),
        x.len() > 0,
        !is_ws(x[0]),
    ensures
        indent_of(indent + x) == indent,
        body_of(indent + x) == x,
        trim_start(indent + x) == x,
{
    let line = indent + x;
    lemma_lead_none(x, CharClass::Blank);
    lemma_lead_after(indent, x, CharClass::Blank);
    lemma_lead_none(x, CharClass::Whitespace);
    assert forall|j: int| 0 <= j < indent.len() implies in_class(CharClass::Whitespace, #[trigger] indent[j]) by {}
    lemma_lead_after(indent, x, CharClass::Whitespace);
    assert(line.skip(indent.len() as int) =~= x);
    assert(line.take(indent.len() as int) =~= indent);
}

/// A text that starts with the first of `ps` matches it first.
proof fn lemma_first_match_head(s: Seq<char>, ps: Seq<Seq<char>>)
    requires
        ps.len() > 0,
        starts_with(s, ps[0]),
    ensures
        first_match(s, ps) == Some(ps[0]),
{
}

/// Toggling the same line prefix twice gives back lines that carry none of
/// the recognised prefixes: the first toggle adds `add` after each line's
/// indentation, the second takes it off again. This holds for block quotes
/// (`> `) and bullet lists (`- `), whose first recognised prefix is the one
/// they add. For block quotes, where a blank line gets a bare `>`, the
/// blank lines must be empty.
pub proof fn lemma_prefix_toggle_twice(lines: Seq<Seq<char>>, add: Seq<char>, ps: Seq<Seq<char>>)
    requires
        add.len() > 0,
        !is_ws(add[0]),
        ps.len() > 0,
        ps[0] == add,
        forall|i: int| 0 <= i < lines.len() ==> first_match(body_of(#[trigger] lines[i]), ps) is None,
        trim(add) == ">"@ ==> first_match(">"@, ps) == Some(">"@),
        trim(add) == ">"@ ==> forall|i: int|
            0 <= i < lines.len() ==> body_of(#[trigger] lines[i]).len() == 0 || trim(body_of(lines[i])).len() > 0,
    ensures
        toggle_prefix_spec(toggle_prefix_spec(lines, add, ps), add, ps) == lines,
{
    let all = all_start_with_one_of(lines, ps);
    let once = toggle_prefix_spec(lines, add, ps);
    if all {
        assert forall|i: int| 0 <= i < lines.len() implies #[trigger] once[i] == lines[i] by {
            lemma_line_parts(lines[i]);
        }
        assert(once =~= lines);
    } else {
        reveal_strlit(">");
        assert forall|i: int| 0 <= i < lines.len() implies {
            &&& first_match(trim_start(#[trigger] once[i]), ps) is Some
            &&& prefix_toggled(once[i], add, ps, true) == lines[i]
        } by {
            let line = lines[i];
            lemma_line_parts(line);
            let indent = indent_of(line);
            let body = body_of(line);
            if trim(body).len() == 0 && trim(add) == ">"@ {
                assert(body.len() == 0);
                assert(once[i] == indent + ">"@);
                lemma_indented(indent, ">"@);
                assert(">"@.skip(1) =~= Seq::<char>::empty());
                assert(indent + Seq::<char>::empty() =~= indent);
                assert(line =~= indent);
            } else {
                assert(once[i] == indent + add + body);
                assert(indent + add + body =~= indent + (add + body));
                lemma_indented(indent, add + body);
                assert((add + body).take(add.len() as int) =~= add);
                lemma_first_match_head(add + body, ps);
                assert((add + body).skip(add.len() as int) =~= body);
            }
        }
        assert(all_start_with_one_of(once, ps));
        let twice = toggle_prefix_spec(once, add, ps);
        assert(twice =~= lines);
    }
}

/// Quoting lines and unquoting them again gives them back, for lines that
/// are not quoted yet and whose blank lines are empty.
pub proof fn lemma_block_quote_toggle_twice(lines: Seq<Seq<char>>)
    requires
        forall|i: int|
            0 <= i < lines.len() ==> first_match(body_of(#[trigger] lines[i]), seq!["> "@, ">"@]) is None,
        forall|i: int|
            0 <= i < lines.len() ==> body_of(#[trigger] lines[i]).len() == 0 || trim(body_of(lines[i])).len() > 0,
    ensures
        toggle_prefix_spec(toggle_prefix_spec(lines, "> "@, seq!["> "@, ">"@]), "> "@, seq!["> "@, ">"@])
            == lines,
{
    reveal_strlit("> ");
    reveal_strlit(">");
    let add = "> "@;
    let ps = seq!["> "@, ">"@];
    lemma_lead_none(add, CharClass::Whitespace);
    assert(add.skip(0) =~= add);
    crate::text::lemma_trail(add, CharClass::Whitespace, 1);
    assert(trim(add) =~= ">"@);
    assert(!starts_with(">"@, "> "@));
    assert(">"@.take(1) =~= ">"@);
    assert(first_match(">"@, ps.drop_first()) == Some(">"@));
    lemma_prefix_toggle_twice(lines, add, ps);
}

/// Bulleting lines and unbulleting them again gives them back, for lines
/// that carry no bullet yet.
pub proof fn lemma_bullet_toggle_twice(lines: Seq<Seq<char>>)
    requires
        forall|i: int|
            0 <= i < lines.len() ==> first_match(body_of(#[trigger] lines[i]), seq!["- "@, "* "@, "+ "@])
                is None,
    ensures
        toggle_prefix_spec(toggle_prefix_spec(lines, "- "@, seq!["- "@, "* "@, "+ "@]), "- "@, seq!["- "@, "* "@, "+ "@])
            == lines,
{
    reveal_strlit("- ");
    reveal_strlit("-");
    let add = "- "@;
    lemma_lead_none(add, CharClass::Whitespace);
    assert(add.skip(0) =~= add);
    crate::text::lemma_trail(add, CharClass::Whitespace, 1);
    assert(trim(add) =~= "-"@);
    assert(trim(add) != ">"@) by {
        reveal_strlit(">");
        assert(trim(add)[0] != ">"@[0]);
    }
    lemma_prefix_toggle_twice(lines, add, seq!["- "@, "* "@, "+ "@]);
}

/// A decimal numeral is one or more digits.
proof fn lemma_decimal_digits(n: nat)
    ensures
        decimal(n).len() >= 1,
        forall|j: int| 0 <= j < decimal(n).len() ==> in_class(CharClass::Digit, #[trigger] decimal(n)[j]),
    decreases n,
{
    if n >= 10 {
        lemma_decimal_digits(n / 10);
        let d = decimal(n / 10);
        assert forall|j: int| 0 <= j < decimal(n).len() implies in_class(CharClass::Digit, #[trigger] decimal(n)[j]) by {
            if j < d.len() {
                assert(decimal(n)[j] == d[j]);
            }
        }
    }
}

/// A freshly numbered body: its number marker, and what remains after it.
proof fn lemma_numbered_body(n: nat, body: Seq<char>)
    ensures
        ({
            let x = decimal(n) + ". "@ + body;
            &&& x.len() > 0
            &&& !is_ws(x[0])
            &&& number_prefix(x) == Some(x.take(decimal(n).len() + 2int))
            &&& list_stripped(x) == body
        }),
{
    reveal_strlit(". ");
    lemma_decimal_digits(n);
    let d = decimal(n);
    let rest = ". "@ + body;
    let x = d + ". "@ + body;
    assert(x =~= d + rest);
    lemma_lead_none(rest, CharClass::Digit);
    lemma_lead_after(d, rest, CharClass::Digit);
    assert(x[d.len() as int] == '.');
    assert(x[d.len() + 1int] == ' ');
    assert(x.skip(d.len() + 2int) =~= body);
    assert(x[0] == d[0]);
}

/// Numbering lines and toggling again gives them back, for lines that carry
/// neither a number nor a bullet yet: the first toggle numbers them from 1,
/// the second takes the numbers off.
pub proof fn lemma_numbered_toggle_twice(lines: Seq<Seq<char>>)
    requires
        forall|i: int|
            0 <= i < lines.len() ==> number_prefix(body_of(#[trigger] lines[i])) is None && bullet_prefix(
                body_of(lines[i]),
            ) is None,
    ensures
        numbered_spec(numbered_spec(lines)) == lines,
{
    let all = all_numbered(lines);
    let once = numbered_spec(lines);
    if all {
        assert forall|i: int| 0 <= i < lines.len() implies #[trigger] once[i] == lines[i] by {
            lemma_line_parts(lines[i]);
        }
        assert(once =~= lines);
    } else {
        assert forall|i: int| 0 <= i < lines.len() implies {
            &&& number_prefix(trim_start(#[trigger] once[i])) is Some
            &&& numbered_line(once[i], i as nat, true) == lines[i]
        } by {
            let line = lines[i];
            lemma_line_parts(line);
            let indent = indent_of(line);
            let body = body_of(line);
            let x = decimal((i + 1) as nat) + ". "@ + body;
            lemma_numbered_body((i + 1) as nat, body);
            assert(once[i] == indent + decimal((i + 1) as nat) + ". "@ + body);
            assert(once[i] =~= indent + x);
            lemma_indented(indent, x);
        }
        assert(all_numbered(once));
        let twice = numbered_spec(once);
        assert(twice =~= lines);
    }
}

/// Making lines tasks and toggling again gives them back, for lines that
/// carry no task, bullet or number marker yet.
pub proof fn lemma_task_toggle_twice(lines: Seq<Seq<char>>)
    requires
        forall|i: int|
            0 <= i < lines.len() ==> bullet_prefix(body_of(#[trigger] lines[i])) is None && number_prefix(
                body_of(lines[i]),
            ) is None,
    ensures
        task_spec(task_spec(lines)) == lines,
{
    reveal_strlit("- [ ] ");
    let all = all_tasks(lines);
    let once = task_spec(lines);
    let mark = "- [ ] "@;
    assert forall|i: int| 0 <= i < lines.len() implies task_stripped(body_of(#[trigger] lines[i])) == body_of(
        lines[i],
    ) by {
        let body = body_of(lines[i]);
        let ms = task_markers();
        assert(ms.drop_first() =~= seq!["- [x] "@, "- [X] "@]);
        assert(ms.drop_first().drop_first() =~= seq!["- [X] "@]);
        assert(ms.drop_first().drop_first().drop_first() =~= Seq::<Seq<char>>::empty());
        reveal_with_fuel(first_match, 4);
        if first_match(body, ms) is Some {
            assert(starts_with(body, "- [ ] "@) || starts_with(body, "- [x] "@) || starts_with(body, "- [X] "@));
            assert(bullet_prefix(body) is Some);
        }
    }
    if all {
        assert forall|i: int| 0 <= i < lines.len() implies #[trigger] once[i] == lines[i] by {
            lemma_line_parts(lines[i]);
        }
        assert(once =~= lines);
    } else {
        assert forall|i: int| 0 <= i < lines.len() implies {
            &&& first_match(trim_start(#[trigger] once[i]), task_markers()) is Some
            &&& task_line(once[i], true) == lines[i]
        } by {
            let line = lines[i];
            lemma_line_parts(line);
            let indent = indent_of(line);
            let body = body_of(line);
            let x = mark + body;
            assert(once[i] == indent + mark + body);
            assert(once[i] =~= indent + x);
            lemma_indented(indent, x);
            assert(x.take(6) =~= mark);
            lemma_first_match_head(x, task_markers());
            assert(x.skip(6) =~= body);
        }
        assert(all_tasks(once));
        let twice = task_spec(once);
        assert(twice =~= lines);
    }
}

/// A text starting with a digit starts with none of the list or task
/// markers.
proof fn lemma_digit_no_marker(body: Seq<char>)
    requires
        body.len() > 0,
        '0' <= body[0] <= '9',
    ensures
        bullet_prefix(body) is None,
        first_match(body, task_markers()) is None,
{
    reveal_strlit("- [ ] ");
    reveal_strlit("- [x] ");
    reveal_strlit("- [X] ");
    reveal_strlit("- ");
    reveal_strlit("* ");
    reveal_strlit("+ ");
    let ms = task_markers();
    assert(ms.drop_first() =~= seq!["- [x] "@, "- [X] "@]);
    assert(ms.drop_first().drop_first() =~= seq!["- [X] "@]);
    assert(ms.drop_first().drop_first().drop_first() =~= Seq::<Seq<char>>::empty());
    reveal_with_fuel(first_match, 4);
    assert forall|p: Seq<char>| p.len() > 0 && (p[0] == '-' || p[0] == '*' || p[0] == '+') implies !starts_with(
        body,
        p,
    ) by {
        if starts_with(body, p) {
            assert(body.take(p.len() as int)[0] == body[0]);
        }
    }
    assert("- [ ] "@[0] == '-' && "- [x] "@[0] == '-' && "- [X] "@[0] == '-');
    assert("- "@[0] == '-' && "* "@[0] == '*' && "+ "@[0] == '+');
}

/// Making lines tasks replaces a number marker: when not every line is a
/// task yet, a line whose text after its indentation starts with a number
/// marker (`12. `) becomes its indentation, an open task marker and the text
/// after the number marker.
pub proof fn lemma_task_replaces_number(lines: Seq<Seq<char>>, i: int)
    requires
        0 <= i < lines.len(),
        !all_tasks(lines),
        number_prefix(body_of(lines[i])) is Some,
    ensures
        task_spec(lines)[i] == indent_of(lines[i]) + "- [ ] "@ + body_of(lines[i]).skip(
            number_prefix(body_of(lines[i]))->0.len() as int,
        ),
{
    let body = body_of(lines[i]);
    lemma_lead_bound(body, CharClass::Digit);
    assert('0' <= body[0] <= '9');
    lemma_digit_no_marker(body);
}

} // verus!
