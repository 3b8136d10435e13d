//! Link extraction: a single URL grammar applied in two modes.
//!
//! The grammar recognises an optional `http://`/`https://` scheme, a
//! non-empty domain of letters, digits, dots and hyphens, a dot-separated
//! top-level domain of 2 to 10 ASCII letters (the longest domain wins, the
//! TLD is cut at 10 letters), an optional `/`, and a path/query that runs to
//! the first whitespace or quote character.
//!
//! *Anchor-scoped* extraction scans an HTML body for `<a` tags whose first
//! `href=` attribute before the closing `>` holds a quoted URL in this
//! grammar. *Bare* extraction applies the grammar directly to a standalone
//! string, at the leftmost position where it matches. Extraction is
//! best-effort: text outside the grammar simply yields no captures.

use crate::text::{chars_of, copy_range, is_space_char, matches_at, matches_prefix_at};
use vstd::prelude::*;

verus! {

/// Endpoints of one URL match inside a scanned character sequence:
/// `start..scheme_end` is the scheme (possibly empty), `scheme_end..dot` the
/// domain, `dot` the separating dot, `dot + 1..tld_end` the TLD, and
/// `path_start..end` the path/query (an optional `/` between `tld_end` and
/// `path_start` belongs to the full URL only).
pub struct UrlSpans {
    pub start: int,
    pub scheme_end: int,
    pub dot: int,
    pub tld_end: int,
    pub path_start: int,
    pub end: int,
}

/// Characters allowed in the domain part.
pub open spec fn is_domain_char(c: char) -> bool {
    ('0' as u32 <= c as u32 && c as u32 <= '9' as u32) || ('a' as u32 <= c as u32 && c as u32
        <= 'z' as u32) || ('A' as u32 <= c as u32 && c as u32 <= 'Z' as u32) || c == '.' || c == '-'
}

pub open spec fn is_ascii_letter(c: char) -> bool {
    ('a' as u32 <= c as u32 && c as u32 <= 'z' as u32) || ('A' as u32 <= c as u32 && c as u32
        <= 'Z' as u32)
}

pub open spec fn is_quote_char(c: char) -> bool {
    c == '"' || c == '\''
}

/// Characters allowed in the path/query part: anything but whitespace and
/// quotes.
pub open spec fn is_path_char(c: char) -> bool {
    !is_space_char(c) && !is_quote_char(c)
}

pub fn is_domain_char_exec(c: char) -> (r: bool)
    ensures
        r == is_domain_char(c),
{
    let u = c as u32;
    ('0' as u32 <= u && u <= '9' as u32) || ('a' as u32 <= u && u <= 'z' as u32) || ('A' as u32 <= u
        && u <= 'Z' as u32) || c == '.' || c == '-'
}

pub fn is_ascii_letter_exec(c: char) -> (r: bool)
    ensures
        r == is_ascii_letter(c),
{
    let u = c as u32;
    ('a' as u32 <= u && u <= 'z' as u32) || ('A' as u32 <= u && u <= 'Z' as u32)
}

pub fn is_quote_exec(c: char) -> (r: bool)
    ensures
        r == is_quote_char(c),
{
    c == '"' || c == '\''
}

pub fn is_path_char_exec(c: char) -> (r: bool)
    ensures
        r == is_path_char(c),
{
    !(c == ' ' || c == '\t' || c == '\n' || c == '\r' || c == '\u{b}' || c == '\u{c}') && c != '"'
        && c != '\''
}

/// End of the run of domain characters starting at `i`.
pub open spec fn domain_end(s: Seq<char>, i: int) -> int
    decreases s.len() - i,
{
    if 0 <= i < s.len() && is_domain_char(s[i]) {
        domain_end(s, i + 1)
    } else {
        i
    }
}

/// End of the run of ASCII letters starting at `i`.
pub open spec fn letters_end(s: Seq<char>, i: int) -> int
    decreases s.len() - i,
{
    if 0 <= i < s.len() && is_ascii_letter(s[i]) {
        letters_end(s, i + 1)
    } else {
        i
    }
}

/// End of the run of path characters starting at `i`.
pub open spec fn path_end(s: Seq<char>, i: int) -> int
    decreases s.len() - i,
{
    if 0 <= i < s.len() && is_path_char(s[i]) {
        path_end(s, i + 1)
    } else {
        i
    }
}

pub proof fn lemma_domain_end(s: Seq<char>, i: int)
    requires
        0 <= i <= s.len(),
    ensures
        i <= domain_end(s, i) <= s.len(),
        forall|k: int| i <= k < domain_end(s, i) ==> is_domain_char(s[k]),
        domain_end(s, i) < s.len() ==> !is_domain_char(s[domain_end(s, i)]),
    decreases s.len() - i,
{
    if 0 <= i < s.len() && is_domain_char(s[i]) {
        lemma_domain_end(s, i + 1);
    }
}

pub proof fn lemma_letters_end(s: Seq<char>, i: int)
    requires
        0 <= i <= s.len(),
    ensures
        i <= letters_end(s, i) <= s.len(),
        forall|k: int| i <= k < letters_end(s, i) ==> is_ascii_letter(s[k]),
        letters_end(s, i) < s.len() ==> !is_ascii_letter(s[letters_end(s, i)]),
    decreases s.len() - i,
{
    if 0 <= i < s.len() && is_ascii_letter(s[i]) {
        lemma_letters_end(s, i + 1);
    }
}

pub proof fn lemma_path_end(s: Seq<char>, i: int)
    requires
        0 <= i <= s.len(),
    ensures
        i <= path_end(s, i) <= s.len(),
        forall|k: int| i <= k < path_end(s, i) ==> is_path_char(s[k]),
        path_end(s, i) < s.len() ==> !is_path_char(s[path_end(s, i)]),
    decreases s.len() - i,
{
    if 0 <= i < s.len() && is_path_char(s[i]) {
        lemma_path_end(s, i + 1);
    }
}

/// Length of the scheme at position `p`: 8 for `https://`, 7 for `http://`,
/// otherwise 0.
pub open spec fn scheme_len_at(s: Seq<char>, p: int) -> int {
    if matches_at(s, p, "https://"@) {
        8
    } else if matches_at(s, p, "http://"@) {
        7
    } else {
        0
    }
}

/// Highest index `j` in `(d, hi]` such that `s[j]` is a dot followed by at
/// least two ASCII letters; `-1` if there is none.
pub open spec fn tld_dot(s: Seq<char>, d: int, j: int) -> int
    decreases j - d,
{
    if j <= d {
        -1
    } else if s[j] == '.' && letters_end(s, j + 1) - (j + 1) >= 2 {
        j
    } else {
        tld_dot(s, d, j - 1)
    }
}

pub proof fn lemma_tld_dot(s: Seq<char>, d: int, j: int)
    requires
        0 <= d,
        j < s.len(),
    ensures
        tld_dot(s, d, j) == -1 || (d < tld_dot(s, d, j) <= j && s[tld_dot(s, d, j)] == '.'
            && letters_end(s, tld_dot(s, d, j) + 1) >= tld_dot(s, d, j) + 3),
    decreases j - d,
{
    if j > d && !(s[j] == '.' && letters_end(s, j + 1) - (j + 1) >= 2) {
        lemma_tld_dot(s, d, j - 1);
    }
}

/// The URL match at position `p`, if the grammar matches there.
pub open spec fn url_at(s: Seq<char>, p: int) -> Option<UrlSpans> {
    let d = p + scheme_len_at(s, p);
    let de = domain_end(s, d);
    let k = tld_dot(s, d, de - 1);
    if k < 0 {
        None
    } else {
        let le = letters_end(s, k + 1);
        let tld_end = if le - (k + 1) > 10 {
            k + 11
        } else {
            le
        };
        let ps = if tld_end < s.len() && s[tld_end] == '/' {
            tld_end + 1
        } else {
            tld_end
        };
        Some(
            UrlSpans {
                start: p,
                scheme_end: d,
                dot: k,
                tld_end: tld_end,
                path_start: ps,
                end: path_end(s, ps),
            },
        )
    }
}

/// Shape of a successful URL match: ordered spans inside the text, a
/// non-empty domain of domain characters, a TLD of 2 to 10 letters after the
/// dot, and a path of path characters.
pub proof fn lemma_url_at(s: Seq<char>, p: int)
    requires
        0 <= p <= s.len(),
        url_at(s, p) is Some,
    ensures
        ({
            let u = url_at(s, p).unwrap();
            &&& u.start == p
            &&& u.scheme_end == p + scheme_len_at(s, p)
            &&& p <= u.scheme_end < u.dot < u.tld_end <= u.path_start <= u.end <= s.len()
            &&& u.dot + 3 <= u.tld_end <= u.dot + 11
            &&& u.path_start <= u.tld_end + 1
            &&& s[u.dot] == '.'
            &&& forall|k: int| u.scheme_end <= k < u.dot ==> is_domain_char(s[k])
            &&& forall|k: int| u.dot + 1 <= k < u.tld_end ==> is_ascii_letter(s[k])
            &&& forall|k: int| u.path_start <= k < u.end ==> is_path_char(s[k])
            &&& (u.path_start == u.tld_end + 1 ==> s[u.tld_end] == '/')
        }),
{
    let d = p + scheme_len_at(s, p);
    reveal_strlit("https://");
    reveal_strlit("http://");
    assert(d <= s.len());
    lemma_domain_end(s, d);
    let de = domain_end(s, d);
    if de == d {
        assert(tld_dot(s, d, de - 1) == -1);
    } else {
        lemma_tld_dot(s, d, de - 1);
    }
    let k = tld_dot(s, d, de - 1);
    if k >= 0 {
        lemma_letters_end(s, k + 1);
        let le = letters_end(s, k + 1);
        let tld_end = if le - (k + 1) > 10 {
            k + 11
        } else {
            le
        };
        let ps = if tld_end < s.len() && s[tld_end] == '/' {
            tld_end + 1
        } else {
            tld_end
        };
        lemma_path_end(s, ps);
    }
}

/// The grammar never matches starting at the very end of the text.
pub proof fn lemma_url_at_end(s: Seq<char>, p: int)
    requires
        p >= s.len(),
    ensures
        url_at(s, p) is None,
{
    reveal_strlit("https://");
    reveal_strlit("http://");
    assert(scheme_len_at(s, p) == 0);
    assert(domain_end(s, p) == p);
    assert(tld_dot(s, p, p - 1) == -1);
}

/// One extracted link: the full URL and its parts, as character vectors.
pub struct LinkCapture {
    /// The whole matched URL.
    pub full_url: Vec<char>,
    /// `http://`, `https://`, or empty.
    pub scheme: Vec<char>,
    /// The domain, without the final dot.
    pub domain: Vec<char>,
    /// The top-level domain: 2 to 10 letters.
    pub tld: Vec<char>,
    /// Whatever follows the TLD (and the optional `/`), up to the first
    /// whitespace or quote.
    pub path_and_query: Vec<char>,
}

/// `c` holds exactly the text that `u` spans within `s`.
pub open spec fn capture_wf(c: LinkCapture, s: Seq<char>, u: UrlSpans) -> bool {
    &&& c.full_url@ == s.subrange(u.start, u.end)
    &&& c.scheme@ == s.subrange(u.start, u.scheme_end)
    &&& c.domain@ == s.subrange(u.scheme_end, u.dot)
    &&& c.tld@ == s.subrange(u.dot + 1, u.tld_end)
    &&& c.path_and_query@ == s.subrange(u.path_start, u.end)
}

fn scheme_len_exec(v: &Vec<char>, p: usize) -> (r: usize)
    requires
        p <= v@.len(),
    ensures
        r as int == scheme_len_at(v@, p as int),
        p + r <= v@.len(),
{
    let pat8 = chars_of("https://");
    let pat7 = chars_of("http://");
    proof {
        reveal_strlit("https://");
        reveal_strlit("http://");
    }
    if matches_prefix_at(v, p, &pat8) {
        8
    } else if matches_prefix_at(v, p, &pat7) {
        7
    } else {
        0
    }
}

fn domain_end_exec(v: &Vec<char>, i: usize) -> (r: usize)
    requires
        i <= v@.len(),
    ensures
        r as int == domain_end(v@, i as int),
        i <= r <= v@.len(),
{
    let n = v.len();
    let mut j: usize = i;
    while j < n && is_domain_char_exec(v[j])
        invariant
            i <= j <= n,
            n == v@.len(),
            domain_end(v@, i as int) == domain_end(v@, j as int),
        decreases n - j,
    {
        j = j + 1;
    }
    j
}

fn letters_end_exec(v: &Vec<char>, i: usize) -> (r: usize)
    requires
        i <= v@.len(),
    ensures
        r as int == letters_end(v@, i as int),
        i <= r <= v@.len(),
{
    let n = v.len();
    let mut j: usize = i;
    while j < n && is_ascii_letter_exec(v[j])
        invariant
            i <= j <= n,
            n == v@.len(),
            letters_end(v@, i as int) == letters_end(v@, j as int),
        decreases n - j,
    {
        j = j + 1;
    }
    j
}

fn path_end_exec(v: &Vec<char>, i: usize) -> (r: usize)
    requires
        i <= v@.len(),
    ensures
        r as int == path_end(v@, i as int),
        i <= r <= v@.len(),
{
    let n = v.len();
    let mut j: usize = i;
    while j < n && is_path_char_exec(v[j])
        invariant
            i <= j <= n,
            n == v@.len(),
            path_end(v@, i as int) == path_end(v@, j as int),
        decreases n - j,
    {
        j = j + 1;
    }
    j
}

/// At least two ASCII letters start at position `i`.
fn has_two_letters(v: &Vec<char>, i: usize) -> (r: bool)
    requires
        i <= v@.len(),
    ensures
        r == (letters_end(v@, i as int) - i >= 2),
{
    proof {
        lemma_letters_end(v@, i as int);
        if i + 2 <= v@.len() {
            lemma_letters_end(v@, i + 2);
        }
    }
    let n = v.len();
    n - i >= 2 && is_ascii_letter_exec(v[i]) && is_ascii_letter_exec(v[i + 1])
}

fn tld_dot_exec(v: &Vec<char>, d: usize, hi: usize) -> (r: Option<usize>)
    requires
        d <= hi < v@.len(),
    ensures
        match r {
            Some(j) => tld_dot(v@, d as int, hi as int) == j as int && d < j <= hi,
            None => tld_dot(v@, d as int, hi as int) == -1,
        },
{
    let n = v.len();
    let mut j: usize = hi;
    while j > d
        invariant
            n == v@.len(),
            d <= j <= hi < n,
            tld_dot(v@, d as int, hi as int) == tld_dot(v@, d as int, j as int),
        decreases j,
    {
        if v[j] == '.' && has_two_letters(v, j + 1) {
            return Some(j);
        }
        j = j - 1;
    }
    None
}

/// Parse the URL grammar at position `p` of `v`; on success, return the
/// capture and the end position of the match.
fn parse_url_at(v: &Vec<char>, p: usize) -> (r: Option<(LinkCapture, usize)>)
    requires
        p <= v@.len(),
    ensures
        match url_at(v@, p as int) {
            None => r is None,
            Some(u) => r is Some && capture_wf(r.unwrap().0, v@, u) && r.unwrap().1 as int == u.end,
        },
{
    let n = v.len();
    let sl = scheme_len_exec(v, p);
    let d = p + sl;
    let de = domain_end_exec(v, d);
    if de == d {
        return None;
    }
    match tld_dot_exec(v, d, de - 1) {
        None => None,
        Some(k) => {
            proof {
                lemma_domain_end(v@, d as int);
                lemma_letters_end(v@, k + 1);
            }
            let le = letters_end_exec(v, k + 1);
            let tld_end: usize = if le - (k + 1) > 10 {
                k + 11
            } else {
                le
            };
            let ps: usize = if tld_end < v.len() && v[tld_end] == '/' {
                tld_end + 1
            } else {
                tld_end
            };
            let e = path_end_exec(v, ps);
            let cap = LinkCapture {
                full_url: copy_range(v, p, e),
                scheme: copy_range(v, p, d),
                domain: copy_range(v, d, k),
                tld: copy_range(v, k + 1, tld_end),
                path_and_query: copy_range(v, ps, e),
            };
            Some((cap, e))
        },
    }
}

/// The first position of `s` where the URL grammar matches, if any.
pub open spec fn bare_url_from(s: Seq<char>, i: int) -> Option<UrlSpans>
    decreases s.len() - i,
{
    if !(0 <= i <= s.len()) {
        None
    } else {
        match url_at(s, i) {
            Some(u) => Some(u),
            None => if i == s.len() {
                None
            } else {
                bare_url_from(s, i + 1)
            },
        }
    }
}

/// The leftmost URL match in `s`, if any.
pub open spec fn bare_url(s: Seq<char>) -> Option<UrlSpans> {
    bare_url_from(s, 0)
}

pub(crate) fn parse_bare_vec(v: &Vec<char>) -> (r: Option<LinkCapture>)
    ensures
        match bare_url(v@) {
            None => r is None,
            Some(u) => r is Some && capture_wf(r.unwrap(), v@, u),
        },
{
    let n = v.len();
    let mut i: usize = 0;
    while i < n
        invariant
            i <= n,
            n == v@.len(),
            bare_url(v@) == bare_url_from(v@, i as int),
        decreases n - i,
    {
        match parse_url_at(v, i) {
            Some((cap, _end)) => {
                return Some(cap);
            },
            None => {
                i = i + 1;
            },
        }
    }
    proof {
        lemma_url_at_end(v@, n as int);
    }
    None
}

/// Spans lie inside the text, in strictly increasing disjoint order.
pub open spec fn spans_ok(s: Seq<char>, us: Seq<UrlSpans>) -> bool {
    &&& forall|j: int|
        0 <= j < us.len() ==> 0 <= (#[trigger] us[j]).start <= us[j].end <= s.len()
    &&& forall|j: int, k: int|
        #![trigger us[j], us[k]]
        0 <= j < k < us.len() ==> us[j].end < us[k].start
}

/// A successful bare-URL match lies inside the text.
pub proof fn lemma_bare_url_from(s: Seq<char>, i: int)
    requires
        0 <= i,
        bare_url_from(s, i) is Some,
    ensures
        ({
            let u = bare_url_from(s, i).unwrap();
            &&& i <= u.start <= u.end <= s.len()
            &&& url_at(s, u.start) == Some(u)
        }),
    decreases s.len() - i,
{
    if i <= s.len() {
        if url_at(s, i) is Some {
            lemma_url_at(s, i);
        } else if i < s.len() {
            lemma_bare_url_from(s, i + 1);
        }
    }
}

/// The matches that the anchor scan yields from position `i` are ordered,
/// disjoint, within the text, start at or after `i + 3`, and there are at
/// most `s.len() - i` of them.
pub proof fn lemma_anchor_scan_spans(s: Seq<char>, i: int)
    requires
        0 <= i,
    ensures
        spans_ok(s, anchor_scan(s, i)),
        forall|j: int|
            0 <= j < anchor_scan(s, i).len() ==> (#[trigger] anchor_scan(s, i)[j]).start >= i + 3,
        forall|j: int|
            0 <= j < anchor_scan(s, i).len() ==> url_at(s, (#[trigger] anchor_scan(s, i)[j]).start)
                == Some(anchor_scan(s, i)[j]),
        anchor_scan(s, i).len() <= if i <= s.len() {
            s.len() - i
        } else {
            0
        },
    decreases s.len() - i,
{
    if 0 <= i < s.len() {
        match tag_at(s, i) {
            None => {
                lemma_anchor_scan_spans(s, i + 1);
                assert(anchor_scan(s, i) == anchor_scan(s, i + 1));
            },
            Some((u, nxt)) => {
                lemma_tag_at(s, i);
                lemma_anchor_scan_spans(s, nxt);
                let us = anchor_scan(s, i);
                let rest = anchor_scan(s, nxt);
                assert(us == seq![u] + rest);
                assert(us.len() == 1 + rest.len());
                assert(forall|j: int| 0 <= j < rest.len() ==> us[j + 1] == rest[j]);
                assert forall|j: int, k: int|
                    #![trigger us[j], us[k]]
                    0 <= j < k < us.len() implies us[j].end < us[k].start by {
                    if j == 0 {
                        assert(us[k] == rest[k - 1]);
                        assert(rest[k - 1].start >= nxt + 3);
                    } else {
                        assert(us[j] == rest[j - 1] && us[k] == rest[k - 1]);
                    }
                }
            },
        }
    }
}

/// First occurrence of `href=` at or after `j`, stopping at the first `>`;
/// `-1` if the tag closes (or the text ends) first.
pub open spec fn find_href(s: Seq<char>, j: int) -> int
    decreases s.len() - j,
{
    if !(0 <= j < s.len()) {
        -1
    } else if s[j] == '>' {
        -1
    } else if matches_at(s, j, "href="@) {
        j
    } else {
        find_href(s, j + 1)
    }
}

pub proof fn lemma_find_href(s: Seq<char>, j: int)
    requires
        0 <= j,
    ensures
        find_href(s, j) == -1 || (j <= find_href(s, j) && find_href(s, j) + 5 <= s.len()
            && matches_at(s, find_href(s, j), "href="@)),
    decreases s.len() - j,
{
    reveal_strlit("href=");
    if 0 <= j < s.len() && s[j] != '>' && !matches_at(s, j, "href="@) {
        lemma_find_href(s, j + 1);
    }
}

/// The anchor-tag match starting exactly at `i`: `<a`, then the first
/// `href=` before the tag's closing `>`, a quote, a URL in the grammar, a
/// closing quote, and finally the next `>`. On success, yields the URL spans
/// and the position right after that `>`.
pub open spec fn tag_at(s: Seq<char>, i: int) -> Option<(UrlSpans, int)> {
    if !(0 <= i && i + 2 <= s.len() && s[i] == '<' && s[i + 1] == 'a') {
        None
    } else {
        let h = find_href(s, i + 2);
        if h < 0 {
            None
        } else {
            let q = h + 5;
            if !(q < s.len() && is_quote_char(s[q])) {
                None
            } else {
                match url_at(s, q + 1) {
                    None => None,
                    Some(u) => {
                        if !(u.end < s.len() && is_quote_char(s[u.end])) {
                            None
                        } else {
                            let g = crate::text::find_gt(s, u.end + 1);
                            if g < 0 {
                                None
                            } else {
                                Some((u, g + 1))
                            }
                        }
                    },
                }
            }
        }
    }
}

/// Shape of a successful tag match: the URL lies inside the text, past `i`,
/// and scanning resumes after the URL and after `i`.
pub proof fn lemma_tag_at(s: Seq<char>, i: int)
    requires
        0 <= i,
        tag_at(s, i) is Some,
    ensures
        ({
            let (u, nxt) = tag_at(s, i).unwrap();
            &&& i + 3 <= u.start <= u.end < s.len()
            &&& is_quote_char(s[u.end])
            &&& u.end + 2 <= nxt <= s.len()
            &&& url_at(s, u.start) == Some(u)
        }),
{
    let h = find_href(s, i + 2);
    lemma_find_href(s, i + 2);
    let q = h + 5;
    let u = url_at(s, q + 1).unwrap();
    lemma_url_at(s, q + 1);
    crate::text::lemma_find_gt(s, u.end + 1);
}

/// All anchor-scoped URL matches of `s` from position `i` on, leftmost
/// first, each scan resuming after the previous match.
pub open spec fn anchor_scan(s: Seq<char>, i: int) -> Seq<UrlSpans>
    decreases s.len() - i,
    when 0 <= i
    via anchor_scan_decreases
{
    if !(0 <= i < s.len()) {
        Seq::empty()
    } else {
        match tag_at(s, i) {
            None => anchor_scan(s, i + 1),
            Some((u, nxt)) => seq![u] + anchor_scan(s, nxt),
        }
    }
}

#[via_fn]
proof fn anchor_scan_decreases(s: Seq<char>, i: int) {
    if 0 <= i < s.len() && tag_at(s, i) is Some {
        lemma_tag_at(s, i);
    }
}

/// First `href=` before the closing `>`, if any.
fn find_href_exec(v: &Vec<char>, j0: usize) -> (r: Option<usize>)
    requires
        j0 <= v@.len(),
    ensures
        match r {
            Some(h) => find_href(v@, j0 as int) == h as int,
            None => find_href(v@, j0 as int) == -1,
        },
{
    let pat = chars_of("href=");
    let n = v.len();
    let mut j: usize = j0;
    while j < n
        invariant
            j0 <= j <= n,
            n == v@.len(),
            pat@ == "href="@,
            find_href(v@, j0 as int) == find_href(v@, j as int),
        decreases n - j,
    {
        if v[j] == '>' {
            return None;
        }
        if matches_prefix_at(v, j, &pat) {
            return Some(j);
        }
        j = j + 1;
    }
    None
}

/// The anchor-tag match starting at `i`, if any: the capture and the
/// position where scanning resumes.
fn try_tag_at(v: &Vec<char>, i: usize) -> (r: Option<(LinkCapture, usize)>)
    requires
        i < v@.len(),
    ensures
        match tag_at(v@, i as int) {
            None => r is None,
            Some((u, nxt)) => r is Some && capture_wf(r.unwrap().0, v@, u) && r.unwrap().1 as int
                == nxt,
        },
{
    let n = v.len();
    if !(i + 1 < n && v[i] == '<' && v[i + 1] == 'a') {
        return None;
    }
    let h = match find_href_exec(v, i + 2) {
        None => {
            return None;
        },
        Some(h) => h,
    };
    proof {
        lemma_find_href(v@, i + 2);
    }
    let q = h + 5;
    if !(q < n && is_quote_exec(v[q])) {
        return None;
    }
    let (cap, e) = match parse_url_at(v, q + 1) {
        None => {
            return None;
        },
        Some(x) => x,
    };
    if !(e < n && is_quote_exec(v[e])) {
        return None;
    }
    match crate::text::find_gt_exec(v, e + 1) {
        None => None,
        Some(g) => {
            proof {
                crate::text::lemma_find_gt(v@, e + 1);
            }
            Some((cap, g + 1))
        },
    }
}

/// All anchor-scoped links of `v`, in document order.
pub(crate) fn extract_links_vec(v: &Vec<char>) -> (r: Vec<LinkCapture>)
    ensures
        r@.len() == anchor_scan(v@, 0).len(),
        forall|j: int|
            0 <= j < r@.len() ==> capture_wf(r@[j], v@, anchor_scan(v@, 0)[j]),
{
    let n = v.len();
    let mut r: Vec<LinkCapture> = Vec::new();
    let ghost mut gs: Seq<UrlSpans> = Seq::empty();
    let mut i: usize = 0;
    proof {
        assert(gs + anchor_scan(v@, 0) =~= anchor_scan(v@, 0));
    }
    while i < n
        invariant
            i <= n,
            n == v@.len(),
            anchor_scan(v@, 0) == gs + anchor_scan(v@, i as int),
            r@.len() == gs.len(),
            forall|j: int| 0 <= j < gs.len() ==> capture_wf(r@[j], v@, gs[j]),
        decreases n - i,
    {
        match try_tag_at(v, i) {
            None => {
                proof {
                    assert(anchor_scan(v@, i as int) == anchor_scan(v@, i + 1));
                }
                i = i + 1;
            },
            Some((cap, nxt)) => {
                proof {
                    lemma_tag_at(v@, i as int);
                }
                let ghost u = tag_at(v@, i as int).unwrap().0;
                proof {
                    assert(anchor_scan(v@, i as int) == seq![u] + anchor_scan(v@, nxt as int));
                    assert(gs + (seq![u] + anchor_scan(v@, nxt as int)) =~= gs.push(u)
                        + anchor_scan(v@, nxt as int));
                    gs = gs.push(u);
                }
                r.push(cap);
                i = nxt;
            },
        }
    }
    proof {
        assert(anchor_scan(v@, 0) =~= gs);
    }
    r
}

/// Extract every link in an HTML body that stands in an anchor tag's first
/// `href` attribute, in document order. Text outside the grammar yields no
/// captures; extraction never fails.
pub fn extract_links(body: &str) -> (r: Vec<LinkCapture>)
    ensures
        r@.len() == anchor_scan(body@, 0).len(),
        forall|j: int|
            0 <= j < r@.len() ==> capture_wf(r@[j], body@, anchor_scan(body@, 0)[j]),
{
    let v = chars_of(body);
    extract_links_vec(&v)
}

/// No character of a matched URL is a quote: the scheme, domain, dot, TLD
/// and slash characters are not quotes, and the path stops at the first one.
pub proof fn lemma_url_no_quotes(s: Seq<char>, p: int)
    requires
        0 <= p <= s.len(),
        url_at(s, p) is Some,
    ensures
        ({
            let u = url_at(s, p).unwrap();
            forall|k: int| u.start <= k < u.end ==> !is_quote_char(#[trigger] s[k])
        }),
{
    reveal_strlit("https://");
    reveal_strlit("http://");
    lemma_url_at(s, p);
    let u = url_at(s, p).unwrap();
    assert forall|k: int| u.start <= k < u.end implies !is_quote_char(#[trigger] s[k]) by {
        if k < u.scheme_end {
            if matches_at(s, p, "https://"@) {
                assert(s.subrange(p, p + 8)[k - p] == s[k]);
            } else {
                assert(matches_at(s, p, "http://"@));
                assert(s.subrange(p, p + 7)[k - p] == s[k]);
            }
        } else if k < u.dot {
            assert(is_domain_char(s[k]));
        } else if k == u.dot {
            assert(s[k] == '.');
        } else if k < u.tld_end {
            assert(is_ascii_letter(s[k]));
        } else if k < u.path_start {
            assert(s[k] == '/');
        } else {
            assert(is_path_char(s[k]));
        }
    }
}

/// Text without a quote character yields no anchor-scoped matches: every
/// anchor match requires a quoted `href` value.
pub proof fn lemma_no_quotes_no_anchor(t: Seq<char>, i: int)
    requires
        0 <= i,
        forall|k: int| 0 <= k < t.len() ==> !is_quote_char(#[trigger] t[k]),
    ensures
        anchor_scan(t, i) == Seq::<UrlSpans>::empty(),
    decreases t.len() - i,
{
    if 0 <= i < t.len() {
        if tag_at(t, i) is Some {
            lemma_find_href(t, i + 2);
            let h = find_href(t, i + 2);
            assert(is_quote_char(t[h + 5]));
            assert(false);
        }
        lemma_no_quotes_no_anchor(t, i + 1);
    }
}

/// Text where no `<` is followed by a later `>` yields no anchor matches:
/// every anchor match ends at a `>` that follows its opening `<`.
pub proof fn lemma_no_gt_no_anchor(t: Seq<char>, i: int)
    requires
        0 <= i,
        crate::text::no_gt_after_lt(t),
    ensures
        anchor_scan(t, i) == Seq::<UrlSpans>::empty(),
    decreases t.len() - i,
{
    if 0 <= i < t.len() {
        if tag_at(t, i) is Some {
            lemma_tag_at(t, i);
            let u = tag_at(t, i).unwrap().0;
            let g = crate::text::find_gt(t, u.end + 1);
            crate::text::lemma_find_gt(t, u.end + 1);
            assert(g >= 0);
            assert(t[g] == '>');
            assert(t[i] == '<');
            assert(false);
        }
        lemma_no_gt_no_anchor(t, i + 1);
    }
}

/// Apply the URL grammar to a standalone string, as used for a self-reported
/// URL field: the leftmost match wins. Text that never matches the grammar
/// yields `None`.
pub fn parse_url(s: &str) -> (r: Option<LinkCapture>)
    ensures
        match bare_url(s@) {
            None => r is None,
            Some(u) => r is Some && capture_wf(r.unwrap(), s@, u),
        },
{
    let v = chars_of(s);
    parse_bare_vec(&v)
}

} // verus!
