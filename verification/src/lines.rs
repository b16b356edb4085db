//! Splitting text into lines at `\n` and joining lines back, exactly (no
//! carriage-return handling, empty lines kept).

use vstd::prelude::*;
use crate::text::{count_lead_at, extend, lead, lemma_lead_bound, slice, CharClass};

verus! {

/// The pieces of `s` between `\n` characters (`str::split('\n')`).
pub open spec fn split_nl(s: Seq<char>) -> Seq<Seq<char>>
    decreases s.len(),
{
    let k = lead(s, CharClass::Not('\n'));
    if k < s.len() {
        seq![s.take(k as int)] + split_nl(s.skip(k + 1 as int))
    } else {
        seq![s]
    }
}

/// The lines joined with `\n` between them.
pub open spec fn join_nl(ls: Seq<Seq<char>>) -> Seq<char>
    decreases ls.len(),
{
    if ls.len() == 0 {
        seq![]
    } else if ls.len() == 1 {
        ls[0]
    } else {
        ls[0] + seq!['\n'] + join_nl(ls.drop_first())
    }
}

/// The characters of each line.
pub open spec fn line_views(v: Seq<Vec<char>>) -> Seq<Seq<char>> {
    v.map_values(|l: Vec<char>| l@)
}

/// The line views after pushing a line.
pub proof fn lemma_line_views_push(v: Seq<Vec<char>>, x: Vec<char>)
    ensures
        line_views(v.push(x)) == line_views(v).push(x@),
{
    assert(line_views(v.push(x)) =~= line_views(v).push(x@));
}

/// Splitting and joining again gives the text back.
pub proof fn lemma_join_split(s: Seq<char>)
    ensures
        join_nl(split_nl(s)) == s,
        split_nl(s).len() >= 1,
    decreases s.len(),
{
    lemma_lead_bound(s, CharClass::Not('\n'));
    let k = lead(s, CharClass::Not('\n'));
    if k < s.len() {
        let rest = s.skip(k + 1 as int);
        lemma_join_split(rest);
        let ls = split_nl(s);
        assert(ls.drop_first() =~= split_nl(rest));
        assert(ls[0] == s.take(k as int));
        assert(s =~= s.take(k as int) + seq!['\n'] + rest);
    }
}

/// Joining a list with one more line at the end.
pub proof fn lemma_join_push(ls: Seq<Seq<char>>, l: Seq<char>)
    ensures
        join_nl(ls.push(l)) == if ls.len() == 0 {
            l
        } else {
            join_nl(ls) + seq!['\n'] + l
        },
    decreases ls.len(),
{
    if ls.len() > 0 {
        let t = ls.drop_first();
        lemma_join_push(t, l);
        assert(ls.push(l).drop_first() =~= t.push(l));
        if t.len() == 0 {
            assert(join_nl(ls) == ls[0]);
        }
    }
}

/// The lines of `s`, split at every `\n`.
pub fn split_lines_exact(s: &Vec<char>) -> (r: Vec<Vec<char>>)
    ensures
        line_views(r@) == split_nl(s@),
{
    let mut out: Vec<Vec<char>> = Vec::new();
    let mut pos: usize = 0;
    assert(s@.skip(0) =~= s@);
    loop
        invariant
            pos <= s.len(),
            line_views(out@) + split_nl(s@.skip(pos as int)) == split_nl(s@),
        decreases s.len() - pos,
    {
        let ghost rest = s@.skip(pos as int);
        let k = count_lead_at(s, pos, CharClass::Not('\n'));
        proof {
            lemma_lead_bound(rest, CharClass::Not('\n'));
        }
        let line = slice(s, pos, pos + k);
        let ghost before = line_views(out@);
        out.push(line);
        assert(line_views(out@) =~= before.push(line@));
        if pos + k < s.len() {
            assert(rest.take(k as int) =~= line@);
            assert(rest.skip(k + 1 as int) =~= s@.skip(pos + k + 1));
            assert(split_nl(rest) == seq![line@] + split_nl(s@.skip(pos + k + 1)));
            assert(before + split_nl(rest) =~= before.push(line@) + split_nl(s@.skip(pos + k + 1)));
            pos = pos + k + 1;
        } else {
            assert(rest =~= line@);
            assert(split_nl(rest) == seq![line@]);
            assert(line_views(out@) == split_nl(s@));
            return out;
        }
    }
}

/// The lines joined with `\n`.
pub fn join_lines(ls: &Vec<Vec<char>>) -> (r: Vec<char>)
    ensures
        r@ == join_nl(line_views(ls@)),
{
    let mut out: Vec<char> = Vec::new();
    let mut i: usize = 0;
    while i < ls.len()
        invariant
            i <= ls.len(),
            out@ == join_nl(line_views(ls@).take(i as int)),
        decreases ls.len() - i,
    {
        let ghost before = line_views(ls@).take(i as int);
        if i > 0 {
            out.push('\n');
        }
        extend(&mut out, &ls[i]);
        proof {
            assert(line_views(ls@).take(i + 1) =~= before.push(ls@[i as int]@));
            lemma_join_push(before, ls@[i as int]@);
        }
        i += 1;
    }
    assert(line_views(ls@).take(ls.len() as int) =~= line_views(ls@));
    out
}

} // verus!
