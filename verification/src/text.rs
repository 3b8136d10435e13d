//! Plain-text primitives: character classes, ASCII lowercasing, substring
//! search, whitespace trimming, HTML tag stripping and first-word extraction.
//!
//! All text is handled as sequences of `char`s. Whitespace means ASCII
//! whitespace throughout (space, tab, line feed, carriage return, vertical
//! tab and form feed).

use vstd::prelude::*;
use vstd::string::StrSliceExecFns;

verus! {

/// ASCII whitespace.
pub open spec fn is_space_char(c: char) -> bool {
    c == ' ' || c == '\t' || c == '\n' || c == '\r' || c == '\u{b}' || c == '\u{c}'
}

pub fn is_space(c: char) -> (r: bool)
    ensures
        r == is_space_char(c),
{
    c == ' ' || c == '\t' || c == '\n' || c == '\r' || c == '\u{b}' || c == '\u{c}'
}

/// ASCII lowercasing of a single character; anything outside `A`..`Z` is kept.
pub open spec fn lower_char(c: char) -> char {
    if c == 'A' {
        'a'
    } else if c == 'B' {
        'b'
    } else if c == 'C' {
        'c'
    } else if c == 'D' {
        'd'
    } else if c == 'E' {
        'e'
    } else if c == 'F' {
        'f'
    } else if c == 'G' {
        'g'
    } else if c == 'H' {
        'h'
    } else if c == 'I' {
        'i'
    } else if c == 'J' {
        'j'
    } else if c == 'K' {
        'k'
    } else if c == 'L' {
        'l'
    } else if c == 'M' {
        'm'
    } else if c == 'N' {
        'n'
    } else if c == 'O' {
        'o'
    } else if c == 'P' {
        'p'
    } else if c == 'Q' {
        'q'
    } else if c == 'R' {
        'r'
    } else if c == 'S' {
        's'
    } else if c == 'T' {
        't'
    } else if c == 'U' {
        'u'
    } else if c == 'V' {
        'v'
    } else if c == 'W' {
        'w'
    } else if c == 'X' {
        'x'
    } else if c == 'Y' {
        'y'
    } else if c == 'Z' {
        'z'
    } else {
        c
    }
}

pub fn lower_char_exec(c: char) -> (r: char)
    ensures
        r == lower_char(c),
{
    if c == 'A' {
        'a'
    } else if c == 'B' {
        'b'
    } else if c == 'C' {
        'c'
    } else if c == 'D' {
        'd'
    } else if c == 'E' {
        'e'
    } else if c == 'F' {
        'f'
    } else if c == 'G' {
        'g'
    } else if c == 'H' {
        'h'
    } else if c == 'I' {
        'i'
    } else if c == 'J' {
        'j'
    } else if c == 'K' {
        'k'
    } else if c == 'L' {
        'l'
    } else if c == 'M' {
        'm'
    } else if c == 'N' {
        'n'
    } else if c == 'O' {
        'o'
    } else if c == 'P' {
        'p'
    } else if c == 'Q' {
        'q'
    } else if c == 'R' {
        'r'
    } else if c == 'S' {
        's'
    } else if c == 'T' {
        't'
    } else if c == 'U' {
        'u'
    } else if c == 'V' {
        'v'
    } else if c == 'W' {
        'w'
    } else if c == 'X' {
        'x'
    } else if c == 'Y' {
        'y'
    } else if c == 'Z' {
        'z'
    } else {
        c
    }
}

/// Pointwise ASCII lowercasing of a character sequence.
pub open spec fn lower(s: Seq<char>) -> Seq<char> {
    Seq::new(s.len(), |i: int| lower_char(s[i]))
}

/// The characters of a string, in order.
pub fn chars_of(s: &str) -> (r: Vec<char>)
    ensures
        r@ == s@,
{
    let n = s.unicode_len();
    let mut r: Vec<char> = Vec::new();
    let mut i: usize = 0;
    while i < n
        invariant
            n == s@.len(),
            i <= n,
            r@.len() == i,
            forall|j: int| 0 <= j < i ==> r@[j] == s@[j],
        decreases n - i,
    {
        r.push(s.get_char(i));
        i = i + 1;
    }
    proof {
        assert(r@ =~= s@);
    }
    r
}

pub fn lower_vec(v: &Vec<char>) -> (r: Vec<char>)
    ensures
        r@ == lower(v@),
{
    let mut r: Vec<char> = Vec::new();
    let mut i: usize = 0;
    while i < v.len()
        invariant
            i <= v@.len(),
            r@.len() == i,
            forall|j: int| 0 <= j < i ==> r@[j] == lower_char(v@[j]),
        decreases v@.len() - i,
    {
        r.push(lower_char_exec(v[i]));
        i = i + 1;
    }
    proof {
        assert(r@ =~= lower(v@));
    }
    r
}

/// `pat` occurs in `s` starting exactly at index `i`.
pub open spec fn matches_at(s: Seq<char>, i: int, pat: Seq<char>) -> bool {
    0 <= i && i + pat.len() <= s.len() && s.subrange(i, i + pat.len()) == pat
}

/// `pat` occurs somewhere in `s` as a contiguous substring.
pub open spec fn contains_seq(s: Seq<char>, pat: Seq<char>) -> bool {
    exists|i: int| matches_at(s, i, pat)
}

pub fn matches_prefix_at(s: &Vec<char>, i: usize, pat: &Vec<char>) -> (r: bool)
    ensures
        r == matches_at(s@, i as int, pat@),
{
    if pat.len() > s.len() || i > s.len() - pat.len() {
        return false;
    }
    let mut j: usize = 0;
    while j < pat.len()
        invariant
            s@.len() <= usize::MAX,
            i + pat@.len() <= s@.len(),
            j <= pat@.len(),
            forall|k: int| 0 <= k < j ==> s@[i + k] == pat@[k],
        decreases pat@.len() - j,
    {
        if s[i + j] != pat[j] {
            proof {
                assert(s@.subrange(i as int, i + pat@.len())[j as int] != pat@[j as int]);
            }
            return false;
        }
        j = j + 1;
    }
    proof {
        assert(s@.subrange(i as int, i + pat@.len()) =~= pat@);
    }
    true
}

pub fn contains_sub(s: &Vec<char>, pat: &Vec<char>) -> (r: bool)
    ensures
        r == contains_seq(s@, pat@),
{
    if pat.len() > s.len() {
        return false;
    }
    let limit = s.len() - pat.len();
    let mut i: usize = 0;
    while i < limit
        invariant
            s@.len() <= usize::MAX,
            pat@.len() <= s@.len(),
            limit == s@.len() - pat@.len(),
            i <= limit,
            forall|k: int| 0 <= k < i ==> !matches_at(s@, k, pat@),
        decreases limit - i,
    {
        if matches_prefix_at(s, i, pat) {
            return true;
        }
        i = i + 1;
    }
    if matches_prefix_at(s, limit, pat) {
        return true;
    }
    false
}

/// Element-for-element equality of two character vectors.
pub fn eq_chars(a: &Vec<char>, b: &Vec<char>) -> (r: bool)
    ensures
        r == (a@ == b@),
{
    if a.len() != b.len() {
        return false;
    }
    let mut i: usize = 0;
    while i < a.len()
        invariant
            a@.len() == b@.len(),
            i <= a@.len(),
            forall|j: int| 0 <= j < i ==> a@[j] == b@[j],
        decreases a@.len() - i,
    {
        if a[i] != b[i] {
            return false;
        }
        i = i + 1;
    }
    proof {
        assert(a@ =~= b@);
    }
    true
}

/// A copy of `v[a..b]`.
pub fn copy_range(v: &Vec<char>, a: usize, b: usize) -> (r: Vec<char>)
    requires
        a <= b <= v@.len(),
    ensures
        r@ == v@.subrange(a as int, b as int),
{
    let mut r: Vec<char> = Vec::new();
    let mut i: usize = a;
    while i < b
        invariant
            a <= i <= b <= v@.len(),
            r@.len() == i - a,
            forall|j: int| 0 <= j < i - a ==> r@[j] == v@[a + j],
        decreases b - i,
    {
        r.push(v[i]);
        i = i + 1;
    }
    proof {
        assert(r@ =~= v@.subrange(a as int, b as int));
    }
    r
}

/// Index of the first character at or after `i` that is not ASCII whitespace
/// (`s.len()` if there is none).
pub open spec fn skip_spaces(s: Seq<char>, i: int) -> int
    decreases s.len() - i,
{
    if 0 <= i < s.len() && is_space_char(s[i]) {
        skip_spaces(s, i + 1)
    } else {
        i
    }
}

/// One past the last character before `j` that is not ASCII whitespace
/// (`0` if there is none).
pub open spec fn trim_end_idx(s: Seq<char>, j: int) -> int
    decreases j,
{
    if 0 < j <= s.len() && is_space_char(s[j - 1]) {
        trim_end_idx(s, j - 1)
    } else {
        j
    }
}

/// `s` with leading and trailing ASCII whitespace removed.
pub open spec fn trim_spec(s: Seq<char>) -> Seq<char> {
    let a = skip_spaces(s, 0);
    let b = trim_end_idx(s, s.len() as int);
    if a <= b {
        s.subrange(a, b)
    } else {
        Seq::empty()
    }
}

pub fn trim_chars(v: &Vec<char>) -> (r: Vec<char>)
    ensures
        r@ == trim_spec(v@),
{
    let n = v.len();
    let mut a: usize = 0;
    while a < n && is_space(v[a])
        invariant
            n == v@.len(),
            a <= n,
            skip_spaces(v@, 0) == skip_spaces(v@, a as int),
        decreases n - a,
    {
        a = a + 1;
    }
    let mut b: usize = n;
    while b > 0 && is_space(v[b - 1])
        invariant
            n == v@.len(),
            b <= n,
            trim_end_idx(v@, n as int) == trim_end_idx(v@, b as int),
        decreases b,
    {
        b = b - 1;
    }
    if a <= b {
        copy_range(v, a, b)
    } else {
        let r: Vec<char> = Vec::new();
        proof {
            assert(r@ =~= trim_spec(v@));
        }
        r
    }
}

/// Index of the first `>` at or after `i`, or `-1` if there is none.
pub open spec fn find_gt(s: Seq<char>, i: int) -> int
    decreases s.len() - i,
{
    if !(0 <= i < s.len()) {
        -1
    } else if s[i] == '>' {
        i
    } else {
        find_gt(s, i + 1)
    }
}

pub proof fn lemma_find_gt(s: Seq<char>, i: int)
    requires
        0 <= i,
    ensures
        find_gt(s, i) == -1 || (i <= find_gt(s, i) < s.len() && s[find_gt(s, i)] == '>'),
        find_gt(s, i) == -1 ==> forall|k: int| i <= k < s.len() ==> s[k] != '>',
        forall|k: int| i <= k < find_gt(s, i) ==> s[k] != '>',
    decreases s.len() - i,
{
    if 0 <= i < s.len() && s[i] != '>' {
        lemma_find_gt(s, i + 1);
    }
}

/// `s` with every region from a `<` through the next `>` removed.
/// A `<` with no later `>` is kept as ordinary text.
pub open spec fn strip_from(s: Seq<char>, i: int) -> Seq<char>
    decreases s.len() - i,
    when 0 <= i
    via strip_from_decreases
{
    if !(0 <= i < s.len()) {
        Seq::empty()
    } else if s[i] == '<' && find_gt(s, i) >= 0 {
        strip_from(s, find_gt(s, i) + 1)
    } else {
        seq![s[i]] + strip_from(s, i + 1)
    }
}

#[via_fn]
proof fn strip_from_decreases(s: Seq<char>, i: int) {
    if 0 <= i < s.len() && s[i] == '<' && find_gt(s, i) >= 0 {
        lemma_find_gt(s, i);
    }
}

/// All HTML-tag regions of `v` removed.
pub fn strip_tags_vec(v: &Vec<char>) -> (r: Vec<char>)
    ensures
        r@ == strip_from(v@, 0),
{
    let n = v.len();
    let mut r: Vec<char> = Vec::new();
    let mut i: usize = 0;
    while i < n
        invariant
            n == v@.len(),
            i <= n,
            strip_from(v@, 0) == r@ + strip_from(v@, i as int),
        decreases n - i,
    {
        if v[i] == '<' {
            match find_gt_exec(v, i) {
                Some(g) => {
                    proof {
                        lemma_find_gt(v@, i as int);
                    }
                    i = g + 1;
                },
                None => {
                    r.push(v[i]);
                    proof {
                        assert(strip_from(v@, 0) =~= r@ + strip_from(v@, i + 1));
                    }
                    i = i + 1;
                },
            }
        } else {
            r.push(v[i]);
            proof {
                assert(strip_from(v@, 0) =~= r@ + strip_from(v@, i + 1));
            }
            i = i + 1;
        }
    }
    proof {
        assert(strip_from(v@, 0) =~= r@);
    }
    r
}

/// First `>` at or after `i`, if any.
pub fn find_gt_exec(v: &Vec<char>, i: usize) -> (r: Option<usize>)
    ensures
        match r {
            Some(g) => find_gt(v@, i as int) == g as int,
            None => find_gt(v@, i as int) == -1,
        },
{
    let n = v.len();
    let mut j: usize = i;
    while j < n
        invariant
            n == v@.len(),
            i <= j,
            find_gt(v@, i as int) == find_gt(v@, j as int),
        decreases n - j,
    {
        if v[j] == '>' {
            return Some(j);
        }
        j = j + 1;
    }
    None
}

/// In `t`, no `<` is ever followed by a `>` at a later position.
pub open spec fn no_gt_after_lt(t: Seq<char>) -> bool {
    forall|k1: int, k2: int|
        #![trigger t[k1], t[k2]]
        0 <= k1 < k2 < t.len() && t[k1] == '<' ==> t[k2] != '>'
}

/// Where no `>` remains, stripping changes nothing.
pub proof fn lemma_strip_no_gt(s: Seq<char>, j: int)
    requires
        0 <= j <= s.len(),
        forall|k: int| j <= k < s.len() ==> s[k] != '>',
    ensures
        strip_from(s, j) == s.subrange(j, s.len() as int),
    decreases s.len() - j,
{
    if j < s.len() {
        lemma_find_gt(s, j);
        if find_gt(s, j) >= 0 {
            assert(false);
        }
        lemma_strip_no_gt(s, j + 1);
        assert(seq![s[j]] + s.subrange(j + 1, s.len() as int) =~= s.subrange(j, s.len() as int));
    } else {
        assert(strip_from(s, j) =~= s.subrange(j, s.len() as int));
    }
}

/// After stripping, no remaining `<` is followed by a `>`: a kept `<` had
/// no `>` after it, and every `>` before one was consumed with its region.
pub proof fn lemma_strip_no_gt_after_lt(s: Seq<char>, j: int)
    requires
        0 <= j,
    ensures
        no_gt_after_lt(strip_from(s, j)),
    decreases s.len() - j,
{
    if 0 <= j < s.len() {
        if s[j] == '<' && find_gt(s, j) >= 0 {
            lemma_find_gt(s, j);
            lemma_strip_no_gt_after_lt(s, find_gt(s, j) + 1);
        } else if s[j] == '<' {
            lemma_find_gt(s, j);
            lemma_strip_no_gt(s, j + 1);
            let t = strip_from(s, j);
            assert forall|k1: int, k2: int|
                #![trigger t[k1], t[k2]]
                0 <= k1 < k2 < t.len() && t[k1] == '<' implies t[k2] != '>' by {
                assert(t[k2] == s[j + k2]);
            }
        } else {
            lemma_strip_no_gt_after_lt(s, j + 1);
            let t = strip_from(s, j);
            let rest = strip_from(s, j + 1);
            assert forall|k1: int, k2: int|
                #![trigger t[k1], t[k2]]
                0 <= k1 < k2 < t.len() && t[k1] == '<' implies t[k2] != '>' by {
                if k1 >= 1 {
                    assert(t[k1] == rest[k1 - 1]);
                    assert(t[k2] == rest[k2 - 1]);
                } else {
                    assert(t[0] == s[j]);
                }
            }
        }
    }
}

/// One past the end of the whitespace-free run starting at `i`.
pub open spec fn token_end(s: Seq<char>, i: int) -> int
    decreases s.len() - i,
{
    if 0 <= i < s.len() && !is_space_char(s[i]) {
        token_end(s, i + 1)
    } else {
        i
    }
}

/// The first whitespace-delimited word of `s` (empty if `s` is all
/// whitespace or empty).
pub open spec fn first_word(s: Seq<char>) -> Seq<char> {
    let a = skip_spaces(s, 0);
    s.subrange(a, token_end(s, a))
}

/// The first whitespace-delimited word of `v`.
pub fn first_word_vec(v: &Vec<char>) -> (r: Vec<char>)
    ensures
        r@ == first_word(v@),
{
    let n = v.len();
    let mut a: usize = 0;
    while a < n && is_space(v[a])
        invariant
            n == v@.len(),
            a <= n,
            skip_spaces(v@, 0) == skip_spaces(v@, a as int),
        decreases n - a,
    {
        a = a + 1;
    }
    let mut e: usize = a;
    while e < n && !is_space(v[e])
        invariant
            n == v@.len(),
            a <= e <= n,
            token_end(v@, a as int) == token_end(v@, e as int),
        decreases n - e,
    {
        e = e + 1;
    }
    copy_range(v, a, e)
}

} // verus!
