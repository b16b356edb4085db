//! Parsing decimal integers as `str::parse` does for the integer types.

use vstd::prelude::*;
use crate::text::{chars_of, starts_with};

verus! {

/// Every character is an ASCII digit.
pub open spec fn all_digits(s: Seq<char>) -> bool {
    forall|i: int| 0 <= i < s.len() ==> '0' <= #[trigger] s[i] && s[i] <= '9'
}

/// The value of a digit.
pub open spec fn digit_value(c: char) -> nat {
    (c as u32 - '0' as u32) as nat
}

/// The value of a string of digits.
pub open spec fn digits_value(s: Seq<char>) -> nat
    decreases s.len(),
{
    if s.len() == 0 {
        0
    } else {
        digits_value(s.drop_last()) * 10 + digit_value(s.last())
    }
}

/// The magnitude part of a number: what follows an optional sign.
pub open spec fn unsigned_body(s: Seq<char>) -> Seq<char> {
    if starts_with(s, seq!['+']) {
        s.skip(1)
    } else {
        s
    }
}

/// `s` read as an unsigned integer no greater than `max`: an optional `+`,
/// then one or more digits.
pub open spec fn parse_unsigned(s: Seq<char>, max: nat) -> Option<nat> {
    let b = unsigned_body(s);
    if b.len() > 0 && all_digits(b) && digits_value(b) <= max {
        Some(digits_value(b))
    } else {
        None
    }
}

/// `s` read as a signed integer in `min..=max`: an optional `+` or `-`, then
/// one or more digits.
pub open spec fn parse_signed(s: Seq<char>, min: int, max: int) -> Option<int> {
    if starts_with(s, seq!['-']) {
        let b = s.skip(1);
        if b.len() > 0 && all_digits(b) && -(digits_value(b) as int) >= min {
            Some(-(digits_value(b) as int))
        } else {
            None
        }
    } else {
        let b = unsigned_body(s);
        if b.len() > 0 && all_digits(b) && digits_value(b) <= max {
            Some(digits_value(b) as int)
        } else {
            None
        }
    }
}

proof fn lemma_starts_with_char(s: Seq<char>, c: char)
    ensures
        starts_with(s, seq![c]) == (s.len() > 0 && s[0] == c),
{
    if s.len() > 0 {
        assert(s.take(1) =~= seq![s[0]]);
        if starts_with(s, seq![c]) {
            assert(s.take(1)[0] == seq![c][0]);
        }
    }
}

proof fn lemma_digits_monotone(s: Seq<char>, k: int)
    requires
        0 <= k <= s.len(),
        all_digits(s),
    ensures
        digits_value(s.take(k)) <= digits_value(s),
    decreases s.len() - k,
{
    if k < s.len() {
        lemma_digits_monotone(s, k + 1);
        assert(s.take(k + 1).drop_last() =~= s.take(k));
        assert(s.take(k + 1).last() == s[k]);
    } else {
        assert(s.take(k) =~= s);
    }
}

/// The value of the digits `v[from..]`, if they are all digits and the
/// value is at most `max`.
fn digits_upto(v: &Vec<char>, from: usize, max: u64) -> (r: Option<u64>)
    requires
        from <= v.len(),
    ensures
        match r {
            Some(n) => all_digits(v@.skip(from as int)) && n == digits_value(v@.skip(from as int))
                && n <= max,
            None => !(all_digits(v@.skip(from as int)) && digits_value(v@.skip(from as int)) <= max),
        },
{
    let ghost b = v@.skip(from as int);
    let mut acc: u64 = 0;
    let mut i = from;
    while i < v.len()
        invariant
            from <= i <= v.len(),
            b == v@.skip(from as int),
            all_digits(b.take(i - from)),
            acc == digits_value(b.take(i - from)),
            acc <= max,
        decreases v.len() - i,
    {
        let c = v[i];
        assert(b[i - from] == c);
        if !('0' <= c && c <= '9') {
            return None;
        }
        let d = (c as u32 - '0' as u32) as u64;
        assert(b.take(i - from + 1).drop_last() =~= b.take(i - from));
        assert(b.take(i - from + 1).last() == c);
        let next = match acc.checked_mul(10) {
            Some(m) => m.checked_add(d),
            None => None,
        };
        match next {
            Some(n) if n <= max => {
                acc = n;
            },
            _ => {
                proof {
                    if all_digits(b) {
                        lemma_digits_monotone(b, i - from + 1);
                    }
                }
                return None;
            },
        }
        i += 1;
    }
    assert(b.take(i - from) =~= b);
    Some(acc)
}

/// `str::parse::<u64>`.
pub fn parse_u64(s: &str) -> (r: Option<u64>)
    ensures
        match r {
            Some(n) => parse_unsigned(s@, u64::MAX as nat) == Some(n as nat),
            None => parse_unsigned(s@, u64::MAX as nat) is None,
        },
{
    let v = chars_of(s);
    let from: usize = if v.len() > 0 && v[0] == '+' {
        1
    } else {
        0
    };
    proof {
        lemma_starts_with_char(v@, '+');
        assert(v@.skip(0) =~= v@);
    }
    if from >= v.len() {
        return None;
    }
    digits_upto(&v, from, u64::MAX)
}

/// `str::parse::<u32>`.
pub fn parse_u32(s: &str) -> (r: Option<u32>)
    ensures
        match r {
            Some(n) => parse_unsigned(s@, u32::MAX as nat) == Some(n as nat),
            None => parse_unsigned(s@, u32::MAX as nat) is None,
        },
{
    let v = chars_of(s);
    let from: usize = if v.len() > 0 && v[0] == '+' {
        1
    } else {
        0
    };
    proof {
        lemma_starts_with_char(v@, '+');
        assert(v@.skip(0) =~= v@);
    }
    if from >= v.len() {
        return None;
    }
    match digits_upto(&v, from, u32::MAX as u64) {
        Some(n) => Some(n as u32),
        None => None,
    }
}

/// `str::parse::<i64>`.
pub fn parse_i64(s: &str) -> (r: Option<i64>)
    ensures
        match r {
            Some(n) => parse_signed(s@, i64::MIN as int, i64::MAX as int) == Some(n as int),
            None => parse_signed(s@, i64::MIN as int, i64::MAX as int) is None,
        },
{
    let v = chars_of(s);
    proof {
        lemma_starts_with_char(v@, '+');
        lemma_starts_with_char(v@, '-');
        assert(v@.skip(0) =~= v@);
    }
    if v.len() > 0 && v[0] == '-' {
        if v.len() == 1 {
            return None;
        }
        match digits_upto(&v, 1, 9223372036854775808u64) {
            Some(n) => {
                if n == 9223372036854775808u64 {
                    Some(i64::MIN)
                } else {
                    Some(-(n as i64))
                }
            },
            None => None,
        }
    } else {
        let from: usize = if v.len() > 0 && v[0] == '+' {
            1
        } else {
            0
        };
        if from >= v.len() {
            return None;
        }
        match digits_upto(&v, from, i64::MAX as u64) {
            Some(n) => Some(n as i64),
            None => None,
        }
    }
}

} // verus!
