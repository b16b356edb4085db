//! Character-sequence helpers shared by the whole library.
//!
//! Text is modelled by its view, a `Seq<char>`. The helpers here move between
//! `&str`/`String` and `Vec<char>` and define the common spec vocabulary:
//! Unicode whitespace, prefixes and suffixes, and trimming.

use vstd::prelude::*;

verus! {

/// `String::push`: appends one character to the end of the string.
#[verifier::external_body]
fn push_char(s: &mut String, c: char)
    ensures
        final(s)@ == old(s)@.push(c),
{
    s.push(c);
}

/// Unicode `White_Space`, as `char::is_whitespace` decides it.
pub open spec fn is_ws(c: char) -> bool {
    ||| c == ' '
    ||| ('\t' <= c && c <= '\r')
    ||| c == '\u{85}'
    ||| c == '\u{a0}'
    ||| c == '\u{1680}'
    ||| ('\u{2000}' <= c && c <= '\u{200a}')
    ||| c == '\u{2028}'
    ||| c == '\u{2029}'
    ||| c == '\u{202f}'
    ||| c == '\u{205f}'
    ||| c == '\u{3000}'
}

/// `char::is_whitespace`.
pub fn is_whitespace(c: char) -> (b: bool)
    ensures
        b == is_ws(c),
{
    c == ' ' || ('\t' <= c && c <= '\r') || c == '\u{85}' || c == '\u{a0}' || c == '\u{1680}'
        || ('\u{2000}' <= c && c <= '\u{200a}') || c == '\u{2028}' || c == '\u{2029}'
        || c == '\u{202f}' || c == '\u{205f}' || c == '\u{3000}'
}

/// A class of characters that a run at either end of a sequence is made of.
#[derive(Clone, Copy, PartialEq, Eq, Structural, Debug)]
pub enum CharClass {
    /// Unicode whitespace.
    Whitespace,
    /// One given character.
    Exactly(char),
    /// A space or a tab (line indentation).
    Blank,
    /// `'0'..='9'`.
    Digit,
    /// Any character but the given one.
    Not(char),
    /// Any character that is not whitespace.
    NotWhitespace,
    /// A Han, Tangut or Yi character.
    Cjk,
}

pub open spec fn in_class(cls: CharClass, c: char) -> bool {
    match cls {
        CharClass::Whitespace => is_ws(c),
        CharClass::Exactly(x) => c == x,
        CharClass::Blank => c == ' ' || c == '\t',
        CharClass::Digit => '0' <= c && c <= '9',
        CharClass::Not(x) => c != x,
        CharClass::NotWhitespace => !is_ws(c),
        CharClass::Cjk => crate::script::is_cjk(c),
    }
}

pub fn char_in_class(cls: CharClass, c: char) -> (b: bool)
    ensures
        b == in_class(cls, c),
{
    match cls {
        CharClass::Whitespace => is_whitespace(c),
        CharClass::Exactly(x) => c == x,
        CharClass::Blank => c == ' ' || c == '\t',
        CharClass::Digit => '0' <= c && c <= '9',
        CharClass::Not(x) => c != x,
        CharClass::NotWhitespace => !is_whitespace(c),
        CharClass::Cjk => crate::script::is_cjk_word_char(c),
    }
}

/// Length of the longest prefix of `s` made of characters of `cls`.
pub open spec fn lead(s: Seq<char>, cls: CharClass) -> nat
    decreases s.len(),
{
    if s.len() > 0 && in_class(cls, s[0]) {
        1 + lead(s.drop_first(), cls)
    } else {
        0
    }
}

/// Length of the longest suffix of `s` made of characters of `cls`.
pub open spec fn trail(s: Seq<char>, cls: CharClass) -> nat
    decreases s.len(),
{
    if s.len() > 0 && in_class(cls, s.last()) {
        1 + trail(s.drop_last(), cls)
    } else {
        0
    }
}

pub proof fn lemma_lead(s: Seq<char>, cls: CharClass, i: int)
    requires
        0 <= i <= s.len(),
        forall|j: int| 0 <= j < i ==> in_class(cls, #[trigger] s[j]),
        i == s.len() || !in_class(cls, s[i]),
    ensures
        lead(s, cls) == i,
    decreases i,
{
    if i > 0 {
        let t = s.drop_first();
        assert forall|j: int| 0 <= j < i - 1 implies in_class(cls, #[trigger] t[j]) by {
            assert(t[j] == s[j + 1]);
        }
        if i - 1 < t.len() {
            assert(t[i - 1] == s[i]);
        }
        lemma_lead(t, cls, i - 1);
    }
}

pub proof fn lemma_lead_bound(s: Seq<char>, cls: CharClass)
    ensures
        lead(s, cls) <= s.len(),
        forall|j: int| 0 <= j < lead(s, cls) ==> in_class(cls, #[trigger] s[j]),
        lead(s, cls) == s.len() || !in_class(cls, s[lead(s, cls) as int]),
    decreases s.len(),
{
    if s.len() > 0 && in_class(cls, s[0]) {
        let t = s.drop_first();
        lemma_lead_bound(t, cls);
        assert forall|j: int| 0 <= j < lead(s, cls) implies in_class(cls, #[trigger] s[j]) by {
            if j > 0 {
                assert(s[j] == t[j - 1]);
            }
        }
        if lead(s, cls) < s.len() {
            assert(s[lead(s, cls) as int] == t[lead(t, cls) as int]);
        }
    }
}

pub proof fn lemma_trail(s: Seq<char>, cls: CharClass, i: int)
    requires
        0 <= i <= s.len(),
        forall|j: int| s.len() - i <= j < s.len() ==> in_class(cls, #[trigger] s[j]),
        i == s.len() || !in_class(cls, s[s.len() - 1 - i]),
    ensures
        trail(s, cls) == i,
    decreases i,
{
    if i > 0 {
        let t = s.drop_last();
        assert forall|j: int| t.len() - (i - 1) <= j < t.len() implies in_class(
            cls,
            #[trigger] t[j],
        ) by {
            assert(t[j] == s[j]);
        }
        if i - 1 < t.len() {
            assert(t[t.len() - 1 - (i - 1)] == s[s.len() - 1 - i]);
        }
        lemma_trail(t, cls, i - 1);
    }
}

pub proof fn lemma_trail_bound(s: Seq<char>, cls: CharClass)
    ensures
        trail(s, cls) <= s.len(),
        forall|j: int| s.len() - trail(s, cls) <= j < s.len() ==> in_class(cls, #[trigger] s[j]),
        trail(s, cls) == s.len() || !in_class(cls, s[s.len() - 1 - trail(s, cls)]),
    decreases s.len(),
{
    if s.len() > 0 && in_class(cls, s.last()) {
        let t = s.drop_last();
        lemma_trail_bound(t, cls);
        assert forall|j: int| s.len() - trail(s, cls) <= j < s.len() implies in_class(
            cls,
            #[trigger] s[j],
        ) by {
            if j < s.len() - 1 {
                assert(s[j] == t[j]);
            }
        }
        if trail(s, cls) < s.len() {
            assert(s[s.len() - 1 - trail(s, cls)] == t[t.len() - 1 - trail(t, cls)]);
        }
    }
}

/// `str::trim_start`.
pub open spec fn trim_start(s: Seq<char>) -> Seq<char> {
    s.skip(lead(s, CharClass::Whitespace) as int)
}

/// `str::trim_end`.
pub open spec fn trim_end(s: Seq<char>) -> Seq<char> {
    s.take(s.len() - trail(s, CharClass::Whitespace))
}

/// `str::trim`.
pub open spec fn trim(s: Seq<char>) -> Seq<char> {
    trim_end(trim_start(s))
}

/// `str::trim_end_matches(c)` for one character.
pub open spec fn trim_end_char(s: Seq<char>, c: char) -> Seq<char> {
    s.take(s.len() - trail(s, CharClass::Exactly(c)))
}

/// `str::trim_start_matches(c)` for one character.
pub open spec fn trim_start_char(s: Seq<char>, c: char) -> Seq<char> {
    s.skip(lead(s, CharClass::Exactly(c)) as int)
}

/// `s` begins with `p`.
pub open spec fn starts_with(s: Seq<char>, p: Seq<char>) -> bool {
    p.len() <= s.len() && s.take(p.len() as int) == p
}

/// `s` ends with `p`.
pub open spec fn ends_with(s: Seq<char>, p: Seq<char>) -> bool {
    p.len() <= s.len() && s.skip(s.len() - p.len()) == p
}

/// Number of leading characters of `v` in `cls`.
pub fn count_lead(v: &Vec<char>, cls: CharClass) -> (n: usize)
    ensures
        n == lead(v@, cls),
{
    let mut i: usize = 0;
    while i < v.len() && char_in_class(cls, v[i])
        invariant
            i <= v.len(),
            forall|j: int| 0 <= j < i ==> in_class(cls, #[trigger] v@[j]),
        decreases v.len() - i,
    {
        i += 1;
    }
    proof {
        lemma_lead(v@, cls, i as int);
    }
    i
}

/// Number of characters of `cls` in `v` from index `at` on.
pub fn count_lead_at(v: &Vec<char>, at: usize, cls: CharClass) -> (n: usize)
    requires
        at <= v.len(),
    ensures
        n == lead(v@.skip(at as int), cls),
        at + n <= v.len(),
{
    let ghost s = v@.skip(at as int);
    let mut i: usize = 0;
    while at + i < v.len() && char_in_class(cls, v[at + i])
        invariant
            at + i <= v.len(),
            s == v@.skip(at as int),
            forall|j: int| 0 <= j < i ==> in_class(cls, #[trigger] s[j]),
        decreases v.len() - at - i,
    {
        assert(s[i as int] == v@[at + i]);
        i += 1;
    }
    proof {
        if at + i < v.len() {
            assert(s[i as int] == v@[at + i]);
        }
        lemma_lead(s, cls, i as int);
    }
    i
}

/// Number of trailing characters of `v` in `cls`.
pub fn count_trail(v: &Vec<char>, cls: CharClass) -> (n: usize)
    ensures
        n == trail(v@, cls),
{
    let mut i: usize = 0;
    while i < v.len() && char_in_class(cls, v[v.len() - 1 - i])
        invariant
            i <= v.len(),
            forall|j: int| v.len() - i <= j < v.len() ==> in_class(cls, #[trigger] v@[j]),
        decreases v.len() - i,
    {
        i += 1;
    }
    proof {
        lemma_trail(v@, cls, i as int);
    }
    i
}

/// The characters of `s`, in order.
pub fn chars_of(s: &str) -> (v: Vec<char>)
    ensures
        v@ == s@,
{
    let mut v: Vec<char> = Vec::new();
    for c in it: s.chars()
        invariant
            v@ == it.seq().take(it.index()),
    {
        v.push(c);
    }
    v
}

/// A `String` holding exactly the characters of `v`.
pub fn string_of(v: &Vec<char>) -> (s: String)
    ensures
        s@ == v@,
{
    let mut s = String::new();
    let mut i: usize = 0;
    while i < v.len()
        invariant
            i <= v.len(),
            s@ == v@.take(i as int),
        decreases v.len() - i,
    {
        push_char(&mut s, v[i]);
        assert(v@.take(i + 1) =~= v@.take(i as int).push(v@[i as int]));
        i += 1;
    }
    assert(v@.take(v.len() as int) =~= v@);
    s
}

/// The characters `v[from..to]`.
pub fn slice(v: &Vec<char>, from: usize, to: usize) -> (r: Vec<char>)
    requires
        from <= to <= v.len(),
    ensures
        r@ == v@.subrange(from as int, to as int),
{
    let mut r: Vec<char> = Vec::new();
    let mut i = from;
    while i < to
        invariant
            from <= i <= to <= v.len(),
            r@ == v@.subrange(from as int, i as int),
        decreases to - i,
    {
        r.push(v[i]);
        assert(v@.subrange(from as int, i + 1) =~= v@.subrange(from as int, i as int).push(
            v@[i as int],
        ));
        i += 1;
    }
    r
}

/// `a` followed by `b`.
pub fn concat(a: &Vec<char>, b: &Vec<char>) -> (r: Vec<char>)
    ensures
        r@ == a@ + b@,
{
    let mut r = slice(a, 0, a.len());
    let mut i: usize = 0;
    while i < b.len()
        invariant
            i <= b.len(),
            r@ == a@ + b@.take(i as int),
        decreases b.len() - i,
    {
        r.push(b[i]);
        assert(a@ + b@.take(i + 1) =~= (a@ + b@.take(i as int)).push(b@[i as int]));
        i += 1;
    }
    assert(b@.take(b.len() as int) =~= b@);
    r
}

/// Appends `b` to `a`.
pub fn extend(a: &mut Vec<char>, b: &Vec<char>)
    ensures
        final(a)@ == old(a)@ + b@,
{
    let mut i: usize = 0;
    while i < b.len()
        invariant
            i <= b.len(),
            a@ == old(a)@ + b@.take(i as int),
        decreases b.len() - i,
    {
        a.push(b[i]);
        assert(old(a)@ + b@.take(i + 1) =~= (old(a)@ + b@.take(i as int)).push(b@[i as int]));
        i += 1;
    }
    assert(b@.take(b.len() as int) =~= b@);
}

/// Whether `a` and `b` hold the same characters.
pub fn chars_eq(a: &Vec<char>, b: &Vec<char>) -> (r: bool)
    ensures
        r == (a@ == b@),
{
    if a.len() != b.len() {
        return false;
    }
    let mut i: usize = 0;
    while i < a.len()
        invariant
            i <= a.len() == b.len(),
            forall|j: int| 0 <= j < i ==> a@[j] == b@[j],
        decreases a.len() - i,
    {
        if a[i] != b[i] {
            return false;
        }
        i += 1;
    }
    assert(a@ =~= b@);
    true
}

/// Whether two string slices hold the same characters.
pub fn str_eq(a: &str, b: &str) -> (r: bool)
    ensures
        r == (a@ == b@),
{
    chars_eq(&chars_of(a), &chars_of(b))
}

/// Whether `v[at..]` begins with `p`.
pub fn has_prefix_at(v: &Vec<char>, at: usize, p: &Vec<char>) -> (r: bool)
    requires
        at <= v.len(),
    ensures
        r == starts_with(v@.skip(at as int), p@),
{
    if p.len() > v.len() - at {
        return false;
    }
    let mut i: usize = 0;
    while i < p.len()
        invariant
            i <= p.len() <= v.len() - at,
            forall|j: int| 0 <= j < i ==> v@[at + j] == p@[j],
        decreases p.len() - i,
    {
        if v[at + i] != p[i] {
            assert(v@.skip(at as int).take(p.len() as int)[i as int] == v@[at + i]);
            return false;
        }
        i += 1;
    }
    assert(v@.skip(at as int).take(p.len() as int) =~= p@);
    true
}

/// Whether `v` begins with `p`.
pub fn has_prefix(v: &Vec<char>, p: &Vec<char>) -> (r: bool)
    ensures
        r == starts_with(v@, p@),
{
    assert(v@.skip(0) =~= v@);
    has_prefix_at(v, 0, p)
}

/// Whether `v` ends with `p`.
pub fn has_suffix(v: &Vec<char>, p: &Vec<char>) -> (r: bool)
    ensures
        r == ends_with(v@, p@),
{
    if p.len() > v.len() {
        return false;
    }
    let at = v.len() - p.len();
    let r = has_prefix_at(v, at, p);
    assert(v@.skip(at as int).take(p.len() as int) =~= v@.skip(at as int));
    r
}

/// `str::trim_start`.
pub fn trim_start_chars(v: &Vec<char>) -> (r: Vec<char>)
    ensures
        r@ == trim_start(v@),
{
    let n = count_lead(v, CharClass::Whitespace);
    proof {
        lemma_lead_bound(v@, CharClass::Whitespace);
    }
    slice(v, n, v.len())
}

/// `str::trim_end`.
pub fn trim_end_chars(v: &Vec<char>) -> (r: Vec<char>)
    ensures
        r@ == trim_end(v@),
{
    let n = count_trail(v, CharClass::Whitespace);
    proof {
        lemma_trail_bound(v@, CharClass::Whitespace);
    }
    slice(v, 0, v.len() - n)
}

/// `str::trim`.
pub fn trim_chars(v: &Vec<char>) -> (r: Vec<char>)
    ensures
        r@ == trim(v@),
{
    let t = trim_start_chars(v);
    trim_end_chars(&t)
}

/// `str::trim_end_matches(c)`.
pub fn trim_end_char_chars(v: &Vec<char>, c: char) -> (r: Vec<char>)
    ensures
        r@ == trim_end_char(v@, c),
{
    let n = count_trail(v, CharClass::Exactly(c));
    proof {
        lemma_trail_bound(v@, CharClass::Exactly(c));
    }
    slice(v, 0, v.len() - n)
}

/// `str::trim_start_matches(c)`.
pub fn trim_start_char_chars(v: &Vec<char>, c: char) -> (r: Vec<char>)
    ensures
        r@ == trim_start_char(v@, c),
{
    let n = count_lead(v, CharClass::Exactly(c));
    proof {
        lemma_lead_bound(v@, CharClass::Exactly(c));
    }
    slice(v, n, v.len())
}

/// Whether a string holds the same characters as a string slice.
pub fn string_eq_str(a: &String, b: &str) -> (r: bool)
    ensures
        r == (a@ == b@),
{
    chars_eq(&chars_of(a.as_str()), &chars_of(b))
}

/// `a` sorts strictly before `b`: the order of `str`'s `Ord`, byte by byte
/// in UTF-8, which is the order of the code points character by character.
pub open spec fn seq_lt(a: Seq<char>, b: Seq<char>) -> bool
    decreases a.len(),
{
    if b.len() == 0 {
        false
    } else if a.len() == 0 {
        true
    } else if a[0] != b[0] {
        (a[0] as int) < (b[0] as int)
    } else {
        seq_lt(a.drop_first(), b.drop_first())
    }
}

/// No text sorts before itself.
pub proof fn lemma_seq_lt_irreflexive(a: Seq<char>)
    ensures
        !seq_lt(a, a),
    decreases a.len(),
{
    if a.len() > 0 {
        lemma_seq_lt_irreflexive(a.drop_first());
    }
}

/// Two different texts are ordered one way or the other, never both.
pub proof fn lemma_seq_lt_total(a: Seq<char>, b: Seq<char>)
    ensures
        a != b ==> seq_lt(a, b) || seq_lt(b, a),
        !(seq_lt(a, b) && seq_lt(b, a)),
    decreases a.len(),
{
    if a.len() > 0 && b.len() > 0 && a[0] == b[0] {
        lemma_seq_lt_total(a.drop_first(), b.drop_first());
        if a != b {
            assert(a =~= seq![a[0]] + a.drop_first());
            assert(b =~= seq![b[0]] + b.drop_first());
        }
    } else if a.len() == 0 && b.len() == 0 {
        assert(a =~= b);
    }
}

/// The order is transitive.
pub proof fn lemma_seq_lt_transitive(a: Seq<char>, b: Seq<char>, c: Seq<char>)
    requires
        seq_lt(a, b),
        seq_lt(b, c),
    ensures
        seq_lt(a, c),
    decreases a.len(),
{
    if a.len() > 0 && a[0] == b[0] && b[0] == c[0] {
        lemma_seq_lt_transitive(a.drop_first(), b.drop_first(), c.drop_first());
    }
}

/// Whether `a` sorts strictly before `b`.
pub fn chars_lt(a: &Vec<char>, b: &Vec<char>) -> (r: bool)
    ensures
        r == seq_lt(a@, b@),
{
    let mut i: usize = 0;
    assert(a@.skip(0) =~= a@);
    assert(b@.skip(0) =~= b@);
    while i < a.len() && i < b.len()
        invariant
            i <= a.len(),
            i <= b.len(),
            seq_lt(a@, b@) == seq_lt(a@.skip(i as int), b@.skip(i as int)),
        decreases a.len() - i,
    {
        if a[i] != b[i] {
            assert(a@.skip(i as int)[0] == a@[i as int]);
            assert(b@.skip(i as int)[0] == b@[i as int]);
            return a[i] < b[i];
        }
        assert(a@.skip(i as int).drop_first() =~= a@.skip(i + 1));
        assert(b@.skip(i as int).drop_first() =~= b@.skip(i + 1));
        i += 1;
    }
    i < b.len()
}

/// Whether `a` sorts strictly before `b`.
pub fn str_lt(a: &str, b: &str) -> (r: bool)
    ensures
        r == seq_lt(a@, b@),
{
    chars_lt(&chars_of(a), &chars_of(b))
}

/// `char::to_ascii_lowercase`: `A`..`Z` become `a`..`z`, all else stays.
pub open spec fn ascii_lower(c: char) -> char {
    if 'A' <= c && c <= 'Z' {
        ((c as int) + 32) as char
    } else {
        c
    }
}

/// `str::to_ascii_lowercase`.
pub open spec fn seq_ascii_lower(s: Seq<char>) -> Seq<char> {
    Seq::new(s.len(), |i: int| ascii_lower(s[i]))
}

/// `str::eq_ignore_ascii_case`: equal once both are ASCII-lowercased.
pub open spec fn eq_ascii_nocase(a: Seq<char>, b: Seq<char>) -> bool {
    seq_ascii_lower(a) == seq_ascii_lower(b)
}

/// `c` in ASCII lower case.
pub fn ascii_lower_char(c: char) -> (r: char)
    ensures
        r == ascii_lower(c),
{
    if 'A' <= c && c <= 'Z' {
        let code: u8 = (c as u8) + 32;
        code as char
    } else {
        c
    }
}

/// `v` in ASCII lower case.
pub fn ascii_lowercase(v: &Vec<char>) -> (r: Vec<char>)
    ensures
        r@ == seq_ascii_lower(v@),
{
    let mut r: Vec<char> = Vec::new();
    let mut i: usize = 0;
    while i < v.len()
        invariant
            i <= v.len(),
            r@ =~= Seq::new(i as nat, |j: int| ascii_lower(v@[j])),
        decreases v.len() - i,
    {
        r.push(ascii_lower_char(v[i]));
        i += 1;
    }
    r
}

/// Whether `a` and `b` are equal ignoring ASCII case.
pub fn eq_ignore_ascii_case(a: &str, b: &str) -> (r: bool)
    ensures
        r == eq_ascii_nocase(a@, b@),
{
    chars_eq(&ascii_lowercase(&chars_of(a)), &ascii_lowercase(&chars_of(b)))
}

/// `p` occurs in `s`.
pub open spec fn contains_seq(s: Seq<char>, p: Seq<char>) -> bool {
    exists|i: int| 0 <= i <= s.len() - p.len() && #[trigger] s.subrange(i, i + p.len()) == p
}

/// Whether `p` occurs in `s`.
pub fn contains_chars(s: &Vec<char>, p: &Vec<char>) -> (r: bool)
    ensures
        r == contains_seq(s@, p@),
{
    if p.len() > s.len() {
        return false;
    }
    let last = s.len() - p.len();
    let mut i: usize = 0;
    while i < last
        invariant
            p.len() <= s.len(),
            last == s.len() - p.len(),
            i <= last,
            forall|j: int| 0 <= j < i ==> #[trigger] s@.subrange(j, j + p.len()) != p@,
        decreases last - i,
    {
        if chars_eq(&slice(s, i, i + p.len()), p) {
            assert(s@.subrange(i as int, i + p@.len()) == p@);
            return true;
        }
        i += 1;
    }
    let found = chars_eq(&slice(s, last, s.len()), p);
    proof {
        if found {
            assert(s@.subrange(last as int, last + p@.len()) == p@);
        } else {
            assert forall|j: int| 0 <= j <= s@.len() - p@.len() implies #[trigger] s@.subrange(
                j,
                j + p@.len(),
            ) != p@ by {
                if j < last {
                } else {
                    assert(j == last);
                }
            }
        }
    }
    found
}

/// `id` is one of `ids`.
pub open spec fn holds_string(ids: Seq<String>, id: Seq<char>) -> bool {
    exists|i: int| 0 <= i < ids.len() && (#[trigger] ids[i])@ == id
}

/// Whether `id` is one of `ids`.
pub fn has_string(ids: &Vec<String>, id: &str) -> (r: bool)
    ensures
        r == holds_string(ids@, id@),
{
    let idv = chars_of(id);
    let mut i: usize = 0;
    while i < ids.len()
        invariant
            i <= ids.len(),
            idv@ == id@,
            forall|j: int| 0 <= j < i ==> (#[trigger] ids@[j])@ != id@,
        decreases ids.len() - i,
    {
        if chars_eq(&chars_of(ids[i].as_str()), &idv) {
            return true;
        }
        i += 1;
    }
    false
}

} // verus!
