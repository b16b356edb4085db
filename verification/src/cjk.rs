//! Chinese word boundaries for Vim word motions: a run of Han (or Tangut, Yi)
//! characters is cut into dictionary words by jieba, and the motions stop at
//! those words instead of treating the whole run as one word.
//!
//! The buffer is modelled by its characters; positions are character
//! offsets.

use vstd::prelude::*;
use jieba_rs::{Jieba, TokenizeMode};
use crate::lines::line_views;
use crate::script::is_cjk;
use crate::text::{count_lead_at, count_trail, lead, lemma_lead_bound, lemma_trail_bound, slice, string_of, trail, CharClass};

verus! {

#[verifier::external_type_specification]
#[verifier::external_body]
pub struct ExJieba(Jieba);

/// `Jieba::new`: a segmenter loaded with jieba's built-in dictionary.
#[verifier::external_body]
fn default_jieba() -> Jieba {
    Jieba::new()
}

/// A word segmenter: a jieba instance, and whether it was made with jieba's
/// built-in dictionary, which the word boundaries below are stated for.
pub struct Segmenter {
    jieba: Jieba,
    builtin: Ghost<bool>,
}

impl Segmenter {
    /// The segmenter was made with jieba's built-in dictionary.
    pub closed spec fn uses_builtin_dictionary(&self) -> bool {
        self.builtin@
    }

    /// A segmenter with jieba's built-in dictionary.
    pub fn new() -> (r: Self)
        ensures
            r.uses_builtin_dictionary(),
    {
        Segmenter { jieba: default_jieba(), builtin: Ghost(true) }
    }
}

/// The words, in order, that jieba's default tokenisation (with HMM) with its
/// built-in dictionary cuts `text` into.
pub uninterp spec fn jieba_words(text: Seq<char>) -> Seq<Seq<char>>;

/// `Jieba::tokenize(text, TokenizeMode::Default, true)`, each token taken by
/// its word, on a segmenter made with the built-in dictionary. The contract
/// claims only that the words are then a function of the text.
#[verifier::external_body]
fn segment_words(seg: &Segmenter, text: &str) -> (r: Vec<Vec<char>>)
    requires
        seg.uses_builtin_dictionary(),
    ensures
        line_views(r@) == jieba_words(text@),
{
    seg.jieba.tokenize(text, TokenizeMode::Default, true).into_iter().map(|t| t.word.chars().collect()).collect()
}

/// Bytes the UTF-8 encoding of `c` takes.
pub open spec fn utf8_len(c: char) -> nat {
    let u = c as u32;
    if u < 0x80 {
        1
    } else if u < 0x800 {
        2
    } else if u < 0x10000 {
        3
    } else {
        4
    }
}

/// Bytes the UTF-8 encoding of `s` takes.
pub open spec fn utf8_len_of(s: Seq<char>) -> nat
    decreases s.len(),
{
    if s.len() == 0 {
        0
    } else {
        utf8_len_of(s.drop_last()) + utf8_len(s.last())
    }
}

/// The length of a word in characters, or in bytes.
pub open spec fn word_len(w: Seq<char>, bytes: bool) -> nat {
    if bytes {
        utf8_len_of(w)
    } else {
        w.len()
    }
}

/// Total length of the first `k` words.
pub open spec fn prefix_len(words: Seq<Seq<char>>, k: int, bytes: bool) -> nat
    decreases k,
{
    if k <= 0 {
        0
    } else {
        prefix_len(words, k - 1, bytes) + word_len(words[k - 1], bytes)
    }
}

/// How many of the words, from `k` on, end at an offset that fits in a
/// `usize`.
pub open spec fn fit_count(words: Seq<Seq<char>>, k: nat, bytes: bool) -> nat
    decreases words.len() - k,
{
    if k < words.len() && prefix_len(words, k + 1 as int, bytes) <= usize::MAX {
        fit_count(words, k + 1, bytes)
    } else {
        k
    }
}

/// The spans (start, exclusive end) of consecutive words laid end to end
/// from 0.
pub open spec fn spans_of(words: Seq<Seq<char>>, bytes: bool) -> Seq<(int, int)> {
    Seq::new(
        fit_count(words, 0, bytes),
        |k: int| (prefix_len(words, k, bytes) as int, prefix_len(words, k + 1, bytes) as int),
    )
}

/// A token's place in its run: byte offsets for [`tokenize_cjk`], character
/// offsets for [`CjkRun::tokens`].
#[derive(Clone, Copy, PartialEq, Eq, Structural, Debug)]
pub struct TokenSpan {
    /// Offset from the start of the run.
    pub start: usize,
    /// Exclusive offset from the start of the run.
    pub end: usize,
}

pub open spec fn span_views(v: Seq<TokenSpan>) -> Seq<(int, int)> {
    v.map_values(|t: TokenSpan| (t.start as int, t.end as int))
}

/// `char::len_utf8`.
pub(crate) fn utf8_len_exec(c: char) -> (n: usize)
    ensures
        n == utf8_len(c),
{
    let u = c as u32;
    if u < 0x80 {
        1
    } else if u < 0x800 {
        2
    } else if u < 0x10000 {
        3
    } else {
        4
    }
}

fn word_measure(w: &Vec<char>, bytes: bool) -> (r: Option<usize>)
    ensures
        match r {
            Some(n) => n == word_len(w@, bytes),
            None => word_len(w@, bytes) > usize::MAX,
        },
{
    if !bytes {
        return Some(w.len());
    }
    let mut total: usize = 0;
    let mut i: usize = 0;
    while i < w.len()
        invariant
            bytes,
            i <= w.len(),
            total == utf8_len_of(w@.take(i as int)),
        decreases w.len() - i,
    {
        assert(w@.take(i + 1).drop_last() =~= w@.take(i as int));
        assert(w@.take(i + 1).last() == w@[i as int]);
        let c = utf8_len_exec(w[i]);
        match total.checked_add(c) {
            Some(t) => {
                total = t;
            },
            None => {
                proof {
                    assert(utf8_len_of(w@.take(i + 1)) == total + c);
                    lemma_utf8_prefix_monotone(w@, i + 1);
                    assert(word_len(w@, bytes) == utf8_len_of(w@));
                }
                return None;
            },
        }
        i += 1;
    }
    assert(w@.take(w.len() as int) =~= w@);
    Some(total)
}

proof fn lemma_utf8_prefix_monotone(w: Seq<char>, k: int)
    requires
        0 <= k <= w.len(),
    ensures
        utf8_len_of(w.take(k)) <= utf8_len_of(w),
    decreases w.len() - k,
{
    if k < w.len() {
        lemma_utf8_prefix_monotone(w, k + 1);
        assert(w.take(k + 1).drop_last() =~= w.take(k));
    } else {
        assert(w.take(k) =~= w);
    }
}

proof fn lemma_fit_count_bound(words: Seq<Seq<char>>, k: nat, bytes: bool)
    requires
        k <= words.len(),
    ensures
        k <= fit_count(words, k, bytes) <= words.len(),
    decreases words.len() - k,
{
    if k < words.len() && prefix_len(words, k + 1 as int, bytes) <= usize::MAX {
        lemma_fit_count_bound(words, k + 1, bytes);
    }
}

/// Spans of the words laid end to end, as far as offsets fit in a `usize`.
fn compute_spans(words: &Vec<Vec<char>>, bytes: bool) -> (r: Vec<TokenSpan>)
    ensures
        span_views(r@) == spans_of(line_views(words@), bytes),
{
    let ghost ws = line_views(words@);
    let mut out: Vec<TokenSpan> = Vec::new();
    let mut pos: usize = 0;
    let mut k: usize = 0;
    let mut done = false;
    while k < words.len() && !done
        invariant
            k <= words.len(),
            ws == line_views(words@),
            out@.len() == k,
            pos == prefix_len(ws, k as int, bytes),
            done ==> fit_count(ws, k as nat, bytes) == k,
            fit_count(ws, 0, bytes) == fit_count(ws, k as nat, bytes),
            forall|j: int|
                0 <= j < k ==> (#[trigger] out@[j]).start == prefix_len(ws, j, bytes) && out@[j].end
                    == prefix_len(ws, j + 1, bytes),
        decreases words.len() - k, if done { 0int } else { 1int },
    {
        assert(ws[k as int] == words@[k as int]@);
        match word_measure(&words[k], bytes) {
            None => {
                done = true;
            },
            Some(w) => match pos.checked_add(w) {
                None => {
                    done = true;
                },
                Some(e) => {
                    out.push(TokenSpan { start: pos, end: e });
                    pos = e;
                    k += 1;
                },
            },
        }
    }
    proof {
        if !done {
            assert(fit_count(ws, k as nat, bytes) == k);
        }
        assert(span_views(out@) =~= spans_of(ws, bytes));
    }
    out
}

/// Byte spans of the jieba words of `text`, laid end to end from 0.
pub fn tokenize_cjk(seg: &Segmenter, text: &str) -> (r: Vec<TokenSpan>)
    requires
        seg.uses_builtin_dictionary(),
    ensures
        span_views(r@) == spans_of(jieba_words(text@), true),
{
    compute_spans(&segment_words(seg, text), true)
}

// ---------------------------------------------------------------------------
// Buffer model
// ---------------------------------------------------------------------------

/// A model of the editor's display snapshot: the buffer's characters.
pub struct DisplaySnapshot {
    pub text: Vec<char>,
}

/// A position in the buffer, as a character offset.
#[derive(Clone, Copy, PartialEq, Eq, Structural, Debug)]
pub struct DisplayPoint {
    pub offset: usize,
}

/// A maximal run of CJK word characters: where it starts and its text.
#[derive(Debug)]
pub struct CjkRun {
    pub start: usize,
    pub text: String,
}

/// An offset clipped to the buffer.
pub open spec fn clip(len: int, o: int) -> int {
    if o <= len {
        o
    } else {
        len
    }
}

/// The CJK run around `o`: when the character at `o` is a CJK word
/// character, the maximal run of such characters containing it.
pub open spec fn run_bounds(t: Seq<char>, o: int) -> Option<(int, int)> {
    if 0 <= o < t.len() && is_cjk(t[o]) {
        Some((o - trail(t.take(o), CharClass::Cjk), o + lead(t.skip(o), CharClass::Cjk)))
    } else {
        None
    }
}

impl CjkRun {
    /// The buffer offset of an offset within the run.
    pub fn absolute(&self, relative: usize) -> (r: usize)
        requires
            self.start + relative <= usize::MAX,
        ensures
            r == self.start + relative,
    {
        self.start + relative
    }

    /// Character spans of the jieba words of the run, from the run's start.
    pub fn tokens(&self, seg: &Segmenter) -> (r: Vec<TokenSpan>)
        requires
            seg.uses_builtin_dictionary(),
        ensures
            span_views(r@) == spans_of(jieba_words(self.text@), false),
    {
        compute_spans(&segment_words(seg, self.text.as_str()), false)
    }
}

/// The CJK run containing `offset` (see [`run_bounds`]).
pub fn cjk_run_containing(map: &DisplaySnapshot, offset: usize) -> (r: Option<CjkRun>)
    ensures
        match r {
            None => run_bounds(map.text@, offset as int) is None,
            Some(run) => run_bounds(map.text@, offset as int) == Some(
                (run.start as int, run.start + run.text@.len()),
            ) && run.text@ == map.text@.subrange(run.start as int, run.start + run.text@.len())
                && run.text@.len() > 0,
        },
{
    let t = &map.text;
    if offset >= t.len() || !crate::script::is_cjk_word_char(t[offset]) {
        return None;
    }
    let before = slice(t, 0, offset);
    let back = count_trail(&before, CharClass::Cjk);
    let fwd = count_lead_at(t, offset, CharClass::Cjk);
    proof {
        lemma_trail_bound(before@, CharClass::Cjk);
        lemma_lead_bound(t@.skip(offset as int), CharClass::Cjk);
        assert(before@ =~= t@.take(offset as int));
        assert(t@.skip(offset as int)[0] == t@[offset as int]);
    }
    let start = offset - back;
    let text = slice(t, start, offset + fwd);
    Some(CjkRun { start, text: string_of(&text) })
}

/// The character before an exclusive end (the end itself at 0).
pub open spec fn last_of(e: int) -> int {
    if e > 0 {
        e - 1
    } else {
        e
    }
}

/// The offset of the last character before `exclusive_end`.
pub fn last_char_offset(map: &DisplaySnapshot, exclusive_end: usize) -> (r: usize)
    ensures
        r == last_of(exclusive_end as int),
{
    if exclusive_end > 0 {
        exclusive_end - 1
    } else {
        exclusive_end
    }
}

/// The display point of an offset, clipped to the buffer.
pub fn offset_to_display(map: &DisplaySnapshot, offset: usize) -> (r: DisplayPoint)
    ensures
        r.offset == clip(map.text.len() as int, offset as int),
{
    if offset <= map.text.len() {
        DisplayPoint { offset }
    } else {
        DisplayPoint { offset: map.text.len() }
    }
}

/// The display point of an exclusive end offset, clipped to the buffer.
pub fn exclusive_end_to_display(map: &DisplaySnapshot, offset: usize) -> (r: DisplayPoint)
    ensures
        r.offset == clip(map.text.len() as int, offset as int),
{
    offset_to_display(map, offset)
}

// ---------------------------------------------------------------------------
// First and last index with a property
// ---------------------------------------------------------------------------

/// The least index below `n` with property `p`.
pub open spec fn first_index(n: int, p: spec_fn(int) -> bool) -> Option<int> {
    if exists|k: int| 0 <= k < n && #[trigger] p(k) {
        Some(choose|k: int| 0 <= k < n && #[trigger] p(k) && forall|j: int| 0 <= j < k ==> !#[trigger] p(j))
    } else {
        None
    }
}

/// The greatest index below `n` with property `p`.
pub open spec fn last_index(n: int, p: spec_fn(int) -> bool) -> Option<int> {
    if exists|k: int| 0 <= k < n && #[trigger] p(k) {
        Some(choose|k: int| 0 <= k < n && #[trigger] p(k) && forall|j: int| k < j < n ==> !#[trigger] p(j))
    } else {
        None
    }
}

pub proof fn lemma_first_index(n: int, p: spec_fn(int) -> bool, k: int)
    requires
        0 <= k < n,
        p(k),
        forall|j: int| 0 <= j < k ==> !#[trigger] p(j),
    ensures
        first_index(n, p) == Some(k),
{
    assert(exists|x: int| 0 <= x < n && #[trigger] p(x));
    assert(exists|x: int| 0 <= x < n && #[trigger] p(x) && forall|j: int| 0 <= j < x ==> !#[trigger] p(j));
    let c = choose|x: int| 0 <= x < n && #[trigger] p(x) && forall|j: int| 0 <= j < x ==> !#[trigger] p(j);
    if c < k {
        assert(!p(c));
    }
    if c > k {
        assert(!p(k));
    }
}

pub proof fn lemma_first_index_none(n: int, p: spec_fn(int) -> bool)
    requires
        forall|j: int| 0 <= j < n ==> !#[trigger] p(j),
    ensures
        first_index(n, p) is None,
{
}

pub proof fn lemma_last_index(n: int, p: spec_fn(int) -> bool, k: int)
    requires
        0 <= k < n,
        p(k),
        forall|j: int| k < j < n ==> !#[trigger] p(j),
    ensures
        last_index(n, p) == Some(k),
{
    assert(exists|x: int| 0 <= x < n && #[trigger] p(x));
    assert(exists|x: int| 0 <= x < n && #[trigger] p(x) && forall|j: int| x < j < n ==> !#[trigger] p(j));
    let c = choose|x: int| 0 <= x < n && #[trigger] p(x) && forall|j: int| x < j < n ==> !#[trigger] p(j);
    if c < k {
        assert(!p(k));
    }
    if c > k {
        assert(!p(c));
    }
}

// ---------------------------------------------------------------------------
// Motions
// ---------------------------------------------------------------------------

/// The character spans of the words of a run's text.
pub open spec fn run_spans(run_text: Seq<char>) -> Seq<(int, int)> {
    spans_of(jieba_words(run_text), false)
}

pub open spec fn starts_after(spans: Seq<(int, int)>, rel: int) -> spec_fn(int) -> bool {
    |k: int| spans[k].0 > rel
}

pub open spec fn starts_before(spans: Seq<(int, int)>, rel: int) -> spec_fn(int) -> bool {
    |k: int| spans[k].0 < rel
}

pub open spec fn ends_after(spans: Seq<(int, int)>, a: int, o: int) -> spec_fn(int) -> bool {
    |k: int| last_of(a + spans[k].1) > o
}

pub open spec fn ends_before(spans: Seq<(int, int)>, a: int, o: int) -> spec_fn(int) -> bool {
    |k: int| last_of(a + spans[k].1) < o
}

pub open spec fn covers(spans: Seq<(int, int)>, rel: int) -> spec_fn(int) -> bool {
    |k: int| spans[k].0 <= rel && rel < spans[k].1
}

/// The run around the clipped point, and its word spans.
pub open spec fn motion_context(t: Seq<char>, p: int) -> Option<(int, int, Seq<(int, int)>)> {
    let o = clip(t.len() as int, p);
    match run_bounds(t, o) {
        None => None,
        Some(ab) => Some((o, ab.0, run_spans(t.subrange(ab.0, ab.1)))),
    }
}

/// Start of the next word strictly after the point, within its CJK run.
pub open spec fn next_word_start_spec(t: Seq<char>, p: int) -> Option<int> {
    match motion_context(t, p) {
        None => None,
        Some((o, a, spans)) => match first_index(spans.len() as int, starts_after(spans, o - a)) {
            None => None,
            Some(k) => Some(clip(t.len() as int, a + spans[k].0)),
        },
    }
}

/// Start of the last word that starts strictly before the point.
pub open spec fn previous_word_start_spec(t: Seq<char>, p: int) -> Option<int> {
    match motion_context(t, p) {
        None => None,
        Some((o, a, spans)) => match last_index(spans.len() as int, starts_before(spans, o - a)) {
            None => None,
            Some(k) => Some(clip(t.len() as int, a + spans[k].0)),
        },
    }
}

/// Last character of the first word whose last character is after the point.
pub open spec fn next_word_end_spec(t: Seq<char>, p: int) -> Option<int> {
    match motion_context(t, p) {
        None => None,
        Some((o, a, spans)) => match first_index(spans.len() as int, ends_after(spans, a, o)) {
            None => None,
            Some(k) => Some(clip(t.len() as int, last_of(a + spans[k].1))),
        },
    }
}

/// Last character of the last word whose last character is before the point.
pub open spec fn previous_word_end_spec(t: Seq<char>, p: int) -> Option<int> {
    match motion_context(t, p) {
        None => None,
        Some((o, a, spans)) => match last_index(spans.len() as int, ends_before(spans, a, o)) {
            None => None,
            Some(k) => Some(clip(t.len() as int, last_of(a + spans[k].1))),
        },
    }
}

/// The word under the point and the `times - 1` words after it (at least
/// one word, at most to the end of the run), as a range.
pub open spec fn word_range_spec(t: Seq<char>, p: int, times: int) -> Option<(int, int)> {
    let times = if times < 1 {
        1
    } else {
        times
    };
    match motion_context(t, p) {
        None => None,
        Some((o, a, spans)) => match first_index(spans.len() as int, covers(spans, o - a)) {
            None => None,
            Some(idx) => {
                let last = if idx + times - 1 < spans.len() - 1 {
                    idx + times - 1
                } else {
                    spans.len() - 1
                };
                Some((clip(t.len() as int, a + spans[idx].0), clip(t.len() as int, a + spans[last].1)))
            },
        },
    }
}

/// The clipped point, the run around it and the run's word spans.
fn context(map: &DisplaySnapshot, seg: &Segmenter, point: DisplayPoint) -> (r: Option<(usize, usize, Vec<TokenSpan>)>)
    requires
        seg.uses_builtin_dictionary(),
    ensures
        match r {
            None => motion_context(map.text@, point.offset as int) is None,
            Some((o, a, spans)) => motion_context(map.text@, point.offset as int) == Some(
                (o as int, a as int, span_views(spans@)),
            ) && a <= o < map.text.len(),
        },
{
    let o = if point.offset <= map.text.len() {
        point.offset
    } else {
        map.text.len()
    };
    match cjk_run_containing(map, o) {
        None => None,
        Some(run) => {
            let spans = run.tokens(seg);
            Some((o, run.start, spans))
        },
    }
}

/// `a + s`, clipped to `len`.
fn abs_clip(a: usize, s: usize, len: usize) -> (r: usize)
    requires
        a <= len,
    ensures
        r == clip(len as int, a + s),
{
    if s <= len - a {
        a + s
    } else {
        len
    }
}

/// `last_of(a + e)`, clipped to `len`.
fn last_clip(a: usize, e: usize, len: usize) -> (r: usize)
    requires
        a <= len,
    ensures
        r == clip(len as int, last_of(a + e)),
{
    if a == 0 && e == 0 {
        0
    } else if e <= len - a {
        a + e - 1
    } else {
        len
    }
}

/// Whether `last_of(a + e) > o`.
fn last_after(a: usize, e: usize, o: usize) -> (r: bool)
    requires
        a <= o < usize::MAX,
    ensures
        r == (last_of(a + e) > o),
{
    if a == 0 && e == 0 {
        false
    } else {
        e > o + 1 - a
    }
}

/// Whether `last_of(a + e) < o`.
fn last_before(a: usize, e: usize, o: usize) -> (r: bool)
    requires
        a <= o,
    ensures
        r == (last_of(a + e) < o),
{
    if a == 0 && e == 0 {
        0 < o
    } else {
        e <= o - a
    }
}

/// Next jieba word start strictly after `point`, inside the same CJK run.
#[verifier::rlimit(40)]
pub fn next_word_start(map: &DisplaySnapshot, seg: &Segmenter, point: DisplayPoint) -> (r: Option<DisplayPoint>)
    requires
        seg.uses_builtin_dictionary(),
    ensures
        match r {
            Some(q) => next_word_start_spec(map.text@, point.offset as int) == Some(q.offset as int),
            None => next_word_start_spec(map.text@, point.offset as int) is None,
        },
{
    let (o, a, spans) = context(map, seg, point)?;
    let rel = o - a;
    let ghost sv = span_views(spans@);
    let mut k: usize = 0;
    while k < spans.len()
        invariant
            k <= spans.len(),
            sv == span_views(spans@),
            a <= o < map.text.len(),
            rel == o - a,
            motion_context(map.text@, point.offset as int) == Some((o as int, a as int, sv)),
            forall|j: int| 0 <= j < k ==> !#[trigger] starts_after(sv, rel as int)(j),
        decreases spans.len() - k,
    {
        if spans[k].start > rel {
            proof {
                lemma_first_index(sv.len() as int, starts_after(sv, rel as int), k as int);
            }
            return Some(DisplayPoint { offset: abs_clip(a, spans[k].start, map.text.len()) });
        }
        k += 1;
    }
    proof {
        lemma_first_index_none(sv.len() as int, starts_after(sv, rel as int));
    }
    None
}

/// Start of the last jieba word that starts strictly before `point`.
pub fn previous_word_start(map: &DisplaySnapshot, seg: &Segmenter, point: DisplayPoint) -> (r: Option<DisplayPoint>)
    requires
        seg.uses_builtin_dictionary(),
    ensures
        match r {
            Some(q) => previous_word_start_spec(map.text@, point.offset as int) == Some(q.offset as int),
            None => previous_word_start_spec(map.text@, point.offset as int) is None,
        },
{
    let (o, a, spans) = context(map, seg, point)?;
    let rel = o - a;
    let ghost sv = span_views(spans@);
    let mut k: usize = spans.len();
    while k > 0
        invariant
            k <= spans.len(),
            sv == span_views(spans@),
            a <= o < map.text.len(),
            rel == o - a,
            motion_context(map.text@, point.offset as int) == Some((o as int, a as int, sv)),
            forall|j: int| k <= j < sv.len() ==> !#[trigger] starts_before(sv, rel as int)(j),
        decreases k,
    {
        if spans[k - 1].start < rel {
            proof {
                lemma_last_index(sv.len() as int, starts_before(sv, rel as int), k - 1);
            }
            return Some(DisplayPoint { offset: abs_clip(a, spans[k - 1].start, map.text.len()) });
        }
        k -= 1;
    }
    None
}

/// Last character of the next jieba word that ends after `point`.
#[verifier::rlimit(40)]
pub fn next_word_end(map: &DisplaySnapshot, seg: &Segmenter, point: DisplayPoint) -> (r: Option<DisplayPoint>)
    requires
        seg.uses_builtin_dictionary(),
    ensures
        match r {
            Some(q) => next_word_end_spec(map.text@, point.offset as int) == Some(q.offset as int),
            None => next_word_end_spec(map.text@, point.offset as int) is None,
        },
{
    let (o, a, spans) = context(map, seg, point)?;
    let ghost sv = span_views(spans@);
    let mut k: usize = 0;
    while k < spans.len()
        invariant
            k <= spans.len(),
            a <= o < map.text.len(),
            sv == span_views(spans@),
            motion_context(map.text@, point.offset as int) == Some((o as int, a as int, sv)),
            forall|j: int| 0 <= j < k ==> !#[trigger] ends_after(sv, a as int, o as int)(j),
        decreases spans.len() - k,
    {
        if last_after(a, spans[k].end, o) {
            proof {
                lemma_first_index(sv.len() as int, ends_after(sv, a as int, o as int), k as int);
            }
            return Some(DisplayPoint { offset: last_clip(a, spans[k].end, map.text.len()) });
        }
        k += 1;
    }
    None
}

/// Last character of the previous jieba word, the last one whose last
/// character is before `point`.
pub fn previous_word_end(map: &DisplaySnapshot, seg: &Segmenter, point: DisplayPoint) -> (r: Option<DisplayPoint>)
    requires
        seg.uses_builtin_dictionary(),
    ensures
        match r {
            Some(q) => previous_word_end_spec(map.text@, point.offset as int) == Some(q.offset as int),
            None => previous_word_end_spec(map.text@, point.offset as int) is None,
        },
{
    let (o, a, spans) = context(map, seg, point)?;
    let ghost sv = span_views(spans@);
    let mut k: usize = spans.len();
    while k > 0
        invariant
            k <= spans.len(),
            a <= o < map.text.len(),
            sv == span_views(spans@),
            motion_context(map.text@, point.offset as int) == Some((o as int, a as int, sv)),
            forall|j: int| k <= j < sv.len() ==> !#[trigger] ends_before(sv, a as int, o as int)(j),
        decreases k,
    {
        if last_before(a, spans[k - 1].end, o) {
            proof {
                lemma_last_index(sv.len() as int, ends_before(sv, a as int, o as int), k - 1);
            }
            return Some(DisplayPoint { offset: last_clip(a, spans[k - 1].end, map.text.len()) });
        }
        k -= 1;
    }
    None
}

/// The first word span that covers `rel`.
fn find_covering(spans: &Vec<TokenSpan>, rel: usize) -> (r: Option<usize>)
    ensures
        match r {
            Some(k) => first_index(span_views(spans@).len() as int, covers(span_views(spans@), rel as int))
                == Some(k as int) && k < spans.len(),
            None => first_index(span_views(spans@).len() as int, covers(span_views(spans@), rel as int))
                is None,
        },
{
    let ghost sv = span_views(spans@);
    let mut k: usize = 0;
    while k < spans.len()
        invariant
            k <= spans.len(),
            sv == span_views(spans@),
            forall|j: int| 0 <= j < k ==> !#[trigger] covers(sv, rel as int)(j),
        decreases spans.len() - k,
    {
        if spans[k].start <= rel && rel < spans[k].end {
            proof {
                lemma_first_index(sv.len() as int, covers(sv, rel as int), k as int);
            }
            return Some(k);
        }
        k += 1;
    }
    None
}

/// The range of the jieba word under `point`, extended over `times - 1`
/// further words.
#[verifier::rlimit(80)]
pub fn word_range(map: &DisplaySnapshot, seg: &Segmenter, point: DisplayPoint, times: usize) -> (r: Option<(DisplayPoint, DisplayPoint)>)
    requires
        seg.uses_builtin_dictionary(),
    ensures
        match r {
            Some((s, e)) => word_range_spec(map.text@, point.offset as int, times as int) == Some(
                (s.offset as int, e.offset as int),
            ),
            None => word_range_spec(map.text@, point.offset as int, times as int) is None,
        },
{
    let times = if times < 1 {
        1
    } else {
        times
    };
    let (o, a, spans) = context(map, seg, point)?;
    let rel = o - a;
    let k = find_covering(&spans, rel)?;
    let n = spans.len();
    let last = if times - 1 < n - 1 - k {
        k + times - 1
    } else {
        n - 1
    };
    let s = abs_clip(a, spans[k].start, map.text.len());
    let e = abs_clip(a, spans[last].end, map.text.len());
    Some((DisplayPoint { offset: s }, DisplayPoint { offset: e }))
}

} // verus!
