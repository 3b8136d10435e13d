//! Consonant-run detection: a crude gibberish signal that counts maximal runs
//! of five or more consecutive consonants, case-insensitively, skipping runs
//! that spell exactly `http` or `https` so that a URL scheme is never
//! miscounted.

use crate::text::chars_of;
use vstd::prelude::*;

verus! {

/// A consonant: an ASCII letter other than `a`, `e`, `i`, `o`, `u`, in
/// either case.
pub open spec fn is_consonant(c: char) -> bool {
    &&& (('a' as u32 <= c as u32 && c as u32 <= 'z' as u32) || ('A' as u32 <= c as u32 && c as u32
        <= 'Z' as u32))
    &&& c != 'a' && c != 'e' && c != 'i' && c != 'o' && c != 'u'
    &&& c != 'A' && c != 'E' && c != 'I' && c != 'O' && c != 'U'
}

pub fn is_consonant_exec(c: char) -> (r: bool)
    ensures
        r == is_consonant(c),
{
    let u = c as u32;
    (('a' as u32 <= u && u <= 'z' as u32) || ('A' as u32 <= u && u <= 'Z' as u32)) && c != 'a' && c
        != 'e' && c != 'i' && c != 'o' && c != 'u' && c != 'A' && c != 'E' && c != 'I' && c != 'O'
        && c != 'U'
}

/// Length of the consonant run that ends immediately before position `i`.
pub open spec fn run_before(s: Seq<char>, i: int) -> int
    decreases i,
{
    if 0 < i <= s.len() && is_consonant(s[i - 1]) {
        run_before(s, i - 1) + 1
    } else {
        0
    }
}

/// Run text that is never counted: the scheme words.
pub open spec fn excluded_run(t: Seq<char>) -> bool {
    t == "http"@ || t == "https"@
}

/// A maximal consonant run of length 5 or more, not spelling a scheme word,
/// ends immediately before position `i`.
pub open spec fn run_counted_at(s: Seq<char>, i: int) -> bool {
    &&& 0 <= i <= s.len()
    &&& (i == s.len() || !is_consonant(s[i]))
    &&& run_before(s, i) >= 5
    &&& !excluded_run(s.subrange(i - run_before(s, i), i))
}

/// Number of counted runs ending before position `i`.
pub open spec fn runs_to(s: Seq<char>, i: int) -> int
    decreases i,
{
    if i <= 0 {
        0
    } else {
        runs_to(s, i - 1) + if run_counted_at(s, i - 1) {
            1int
        } else {
            0
        }
    }
}

/// Count of maximal runs of 5 or more consecutive consonants in `s`, other
/// than runs spelling exactly `http` or `https`.
pub open spec fn consonant_runs(s: Seq<char>) -> int {
    runs_to(s, s.len() as int + 1)
}

pub proof fn lemma_runs_to_bound(s: Seq<char>, i: int)
    ensures
        0 <= runs_to(s, i),
        runs_to(s, i) <= if i >= 0 {
            i
        } else {
            0
        },
    decreases i,
{
    if i > 0 {
        lemma_runs_to_bound(s, i - 1);
    }
}

/// The run count never exceeds the length of the text plus one.
pub proof fn lemma_consonant_runs_bound(s: Seq<char>)
    ensures
        0 <= consonant_runs(s) <= s.len() + 1,
{
    lemma_runs_to_bound(s, s.len() as int + 1);
}

/// The consonant run of length `run` ending just before `end` spells a
/// scheme word.
fn run_is_scheme(v: &Vec<char>, end: usize, run: usize) -> (r: bool)
    requires
        5 <= run <= end <= v@.len(),
    ensures
        r == excluded_run(v@.subrange(end - run, end as int)),
{
    proof {
        reveal_strlit("http");
        reveal_strlit("https");
    }
    let ghost t = v@.subrange(end - run, end as int);
    if run == 5 {
        let m = v[end - 5] == 'h' && v[end - 4] == 't' && v[end - 3] == 't' && v[end - 2] == 'p'
            && v[end - 1] == 's';
        proof {
            assert(t.len() == 5);
            assert(t[0] == v@[end - 5] && t[1] == v@[end - 4] && t[2] == v@[end - 3] && t[3]
                == v@[end - 2] && t[4] == v@[end - 1]);
            if m {
                assert(t =~= "https"@);
            }
        }
        m
    } else {
        proof {
            assert(t.len() >= 6);
        }
        false
    }
}

/// Counted consonant runs of a character vector.
pub fn consonant_runs_vec(v: &Vec<char>) -> (r: usize)
    ensures
        r as int == consonant_runs(v@),
{
    let n = v.len();
    let mut count: usize = 0;
    let mut run: usize = 0;
    let mut i: usize = 0;
    while i < n
        invariant
            n == v@.len(),
            i <= n,
            run as int == run_before(v@, i as int),
            count as int == runs_to(v@, i as int),
            6 * (count as int) + run as int <= i as int,
        decreases n - i,
    {
        if is_consonant_exec(v[i]) {
            run = run + 1;
        } else {
            if run >= 5 && !run_is_scheme(v, i, run) {
                count = count + 1;
            }
            run = 0;
        }
        i = i + 1;
    }
    if run >= 5 && !run_is_scheme(v, n, run) {
        count = count + 1;
    }
    proof {
        assert(consonant_runs(v@) == runs_to(v@, n + 1));
    }
    count
}

/// Count of maximal runs of 5 or more consecutive consonants in `s`
/// (case-insensitively), except runs spelling exactly `http` or `https`.
pub fn count_consonant_collections(s: &str) -> (r: usize)
    ensures
        r as int == consonant_runs(s@),
{
    let v = chars_of(s);
    consonant_runs_vec(&v)
}

} // verus!
