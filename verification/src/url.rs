//! API base URL normalisation.

use vstd::prelude::*;
use crate::text::{
    chars_of, concat, ends_with, has_suffix, is_ws, lemma_lead, lemma_lead_bound, lemma_trail,
    lemma_trail_bound, string_of, trim, trim_chars, trim_end_char, trim_end_char_chars, trim_start,
    CharClass,
};

verus! {

/// The URL used when none is given.
pub open spec fn default_api_url() -> Seq<char> {
    "http://127.0.0.1:8787/api/v1"@
}

/// The path that an old client appended twice.
pub open spec fn double_suffix() -> Seq<char> {
    "/panda/api/v1/panda/v1"@
}

/// Whether `s` already ends with one of the known API roots.
pub open spec fn has_known_suffix(s: Seq<char>) -> bool {
    ||| ends_with(s, "/panda/api/v1"@)
    ||| ends_with(s, "/panda/v1"@)
    ||| ends_with(s, "/api/v1"@)
}

/// Drops `/panda/v1` while the URL ends with the doubled root.
pub open spec fn repair_double(s: Seq<char>) -> Seq<char>
    decreases s.len(),
{
    if s.len() >= 9 && ends_with(s, double_suffix()) {
        repair_double(s.take(s.len() - 9))
    } else {
        s
    }
}

/// The normalised API root of `raw`: trimmed, without trailing slashes and
/// without a doubled `/panda/v1`; empty input gives the default URL, and
/// `/api/v1` is appended unless a known root already ends it.
pub open spec fn normalized_api_url(raw: Seq<char>) -> Seq<char> {
    let t = repair_double(trim_end_char(trim(raw), '/'));
    if t.len() == 0 {
        default_api_url()
    } else if has_known_suffix(t) {
        t
    } else {
        t + "/api/v1"@
    }
}

proof fn lemma_repair_prefix(s: Seq<char>)
    ensures
        repair_double(s).len() <= s.len(),
        s.take(repair_double(s).len() as int) == repair_double(s),
        !ends_with(repair_double(s), double_suffix()),
    decreases s.len(),
{
    reveal_strlit("/panda/api/v1/panda/v1");
    if s.len() >= 9 && ends_with(s, double_suffix()) {
        let t = s.take(s.len() - 9);
        lemma_repair_prefix(t);
        assert(s.take(repair_double(s).len() as int) =~= t.take(repair_double(t).len() as int));
    } else {
        assert(s.take(s.len() as int) =~= s);
    }
}

/// Normalise an API base URL to a known API root without duplicating path
/// segments.
pub fn normalize_api_url(raw: &str) -> (r: String)
    ensures
        r@ == normalized_api_url(raw@),
{
    let raw_chars = chars_of(raw);
    let trimmed = trim_chars(&raw_chars);
    let mut t = trim_end_char_chars(&trimmed, '/');
    let double = chars_of("/panda/api/v1/panda/v1");
    proof {
        reveal_strlit("/panda/api/v1/panda/v1");
    }
    while has_suffix(&t, &double)
        invariant
            double@ == double_suffix(),
            double@.len() == 22,
            repair_double(t@) == repair_double(trim_end_char(trim(raw@), '/')),
        decreases t.len(),
    {
        let n = t.len() - 9;
        t.truncate(n);
    }
    if t.len() == 0 {
        return string_of(&chars_of("http://127.0.0.1:8787/api/v1"));
    }
    if has_suffix(&t, &chars_of("/panda/api/v1")) || has_suffix(&t, &chars_of("/panda/v1"))
        || has_suffix(&t, &chars_of("/api/v1")) {
        return string_of(&t);
    }
    string_of(&concat(&t, &chars_of("/api/v1")))
}

proof fn lemma_known_suffix_not_double(s: Seq<char>)
    requires
        ends_with(s, "/api/v1"@),
    ensures
        !ends_with(s, double_suffix()),
{
    reveal_strlit("/api/v1");
    reveal_strlit("/panda/api/v1/panda/v1");
    if ends_with(s, double_suffix()) {
        assert(s[s.len() - 7] == "/api/v1"@[0]);
        assert(s[s.len() - 7] == double_suffix()[15]);
    }
}

/// A normalised URL is a known API root: it is non-empty and already
/// trimmed, does not end with `/`, ends with `/panda/api/v1`, `/panda/v1` or
/// `/api/v1`, and never with the doubled `/panda/api/v1/panda/v1`.
pub proof fn lemma_normalized_shape(raw: Seq<char>)
    ensures
        ({
            let r = normalized_api_url(raw);
            &&& r.len() > 0
            &&& trim(r) == r
            &&& r.last() != '/'
            &&& has_known_suffix(r)
            &&& !ends_with(r, double_suffix())
        }),
{
    reveal_strlit("http://127.0.0.1:8787/api/v1");
    reveal_strlit("/panda/api/v1");
    reveal_strlit("/panda/v1");
    reveal_strlit("/api/v1");
    reveal_strlit("/panda/api/v1/panda/v1");
    let tr = trim(raw);
    let ts = trim_start(raw);
    lemma_lead_bound(raw, CharClass::Whitespace);
    lemma_trail_bound(ts, CharClass::Whitespace);
    let u = trim_end_char(tr, '/');
    lemma_trail_bound(tr, CharClass::Exactly('/'));
    let t = repair_double(u);
    lemma_repair_prefix(u);
    let r = normalized_api_url(raw);
    // r is non-empty, starts with a non-space and ends with '1'.
    if t.len() == 0 {
        assert(r == default_api_url());
    } else {
        assert(t[0] == u[0]);
        assert(u[0] == tr[0]);
        assert(tr[0] == ts[0]);
        assert(!is_ws(t[0]));
        if has_known_suffix(t) {
            assert(r == t);
        } else {
            assert(r == t + "/api/v1"@);
            assert(r[0] == t[0]);
            assert(ends_with(r, "/api/v1"@)) by {
                assert(r.skip(r.len() - 7) =~= "/api/v1"@);
            }
        }
    }
    assert(r.len() > 0);
    assert(!is_ws(r[0]));
    assert(r.last() == '1') by {
        if ends_with(r, "/api/v1"@) {
            assert(r.last() == r.skip(r.len() - 7)[6]);
        } else if ends_with(r, "/panda/v1"@) {
            assert(r.last() == r.skip(r.len() - 9)[8]);
        } else if ends_with(r, "/panda/api/v1"@) {
            assert(r.last() == r.skip(r.len() - 13)[12]);
        }
    }
    assert(has_known_suffix(r)) by {
        if t.len() == 0 {
            assert(r.skip(r.len() - 7) =~= "/api/v1"@);
        }
    }
    // trimming leaves r as it is
    lemma_lead(r, CharClass::Whitespace, 0);
    assert(trim_start(r) =~= r);
    lemma_trail(r, CharClass::Whitespace, 0);
    assert(trim(r) =~= r);
    // r does not end with the doubled root
    if ends_with(r, "/api/v1"@) {
        lemma_known_suffix_not_double(r);
    } else if ends_with(r, "/panda/v1"@) {
        if ends_with(r, double_suffix()) {
            assert(r == t);
        }
    } else {
        if ends_with(r, double_suffix()) {
            assert(r == t);
        }
    }
}

/// A normalised URL is already normalised: normalising twice changes nothing.
pub proof fn lemma_normalize_idempotent(raw: Seq<char>)
    ensures
        normalized_api_url(normalized_api_url(raw)) == normalized_api_url(raw),
{
    let r = normalized_api_url(raw);
    lemma_normalized_shape(raw);
    lemma_trail(r, CharClass::Exactly('/'), 0);
    assert(r.take(r.len() - 0) =~= r);
    assert(trim_end_char(trim(r), '/') == r);
    assert(repair_double(r) == r);
}

} // verus!
