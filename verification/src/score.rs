//! The rule checks and the scorer/classifier.
//!
//! Each check is specified as a pure delta over the comment's text; the
//! executable methods add exactly that delta to the running score. The
//! driver `process_comment` runs the eight checks in a fixed order over an
//! accumulator started at zero and classifies the final sum.

use crate::consonants::{consonant_runs, consonant_runs_vec, lemma_consonant_runs_bound};
use crate::links::{
    anchor_scan, bare_url, capture_wf, extract_links_vec, lemma_anchor_scan_spans,
    lemma_bare_url_from, parse_bare_vec, spans_ok, LinkCapture, UrlSpans,
};
use crate::tables::{
    body_spam_first_word_list, body_spam_first_words, contained_count, count_contained,
    lemma_contained_count_bound, seq_list_member, spam_phrase_list, spam_phrases, spam_tld_list,
    spam_tlds, url_spam_word_list, url_spam_words,
};
use crate::text::{
    chars_of, contains_seq, contains_sub, eq_chars, first_word, first_word_vec, lower, lower_vec,
    strip_from, strip_tags_vec, trim_chars, trim_spec,
};
use vstd::prelude::*;

verus! {

/// The classification assigned to a comment: a pure function of its final
/// score (see `status_of`).
#[derive(Debug, PartialEq, Clone)]
pub enum Status {
    Valid,
    Moderate,
    Spam,
}

/// One submitted comment plus optional metadata about its submitter.
///
/// Only `body` is required. The evaluation is stateless: any history (prior
/// bodies, prior accepted/rejected counts for the same email address) must be
/// supplied by the caller.
#[derive(Debug, Clone)]
pub struct Comment {
    /// The name the submitter provided.
    pub author: Option<String>,
    /// A single URL the submitter self-reported, e.g. a homepage field.
    pub url: Option<String>,
    /// The comment text: raw, unescaped HTML.
    pub body: String,
    /// How many comments from this email address were previously accepted.
    pub previously_accepted_for_email: Option<isize>,
    /// How many comments from this email address were previously rejected.
    pub previously_rejected_for_email: Option<isize>,
    /// The bodies previously submitted from this email address.
    pub previous_comment_bodies: Option<Vec<String>>,
}

/// The views of a list of strings.
pub open spec fn string_views(ss: Seq<String>) -> Seq<Seq<char>> {
    Seq::new(ss.len(), |i: int| ss[i]@)
}

/// The mathematical content of a comment: every text as a character
/// sequence, every counter as an integer.
pub struct CommentView {
    pub author: Option<Seq<char>>,
    pub url: Option<Seq<char>>,
    pub body: Seq<char>,
    pub accepted: Option<int>,
    pub rejected: Option<int>,
    pub previous: Option<Seq<Seq<char>>>,
}

impl View for Comment {
    type V = CommentView;

    open spec fn view(&self) -> CommentView {
        CommentView {
            author: match self.author {
                Some(a) => Some(a@),
                None => None,
            },
            url: match self.url {
                Some(u) => Some(u@),
                None => None,
            },
            body: self.body@,
            accepted: match self.previously_accepted_for_email {
                Some(n) => Some(n as int),
                None => None,
            },
            rejected: match self.previously_rejected_for_email {
                Some(n) => Some(n as int),
                None => None,
            },
            previous: match self.previous_comment_bodies {
                Some(v) => Some(string_views(v@)),
                None => None,
            },
        }
    }
}

/// The evaluation state and final result: the running score, the status
/// derived from it, and the original comment.
#[derive(Debug, Clone)]
pub struct Snooker {
    /// The score the comment was given so far.
    pub score: i128,
    /// The status assigned from the final score: 1 or more is `Valid`,
    /// exactly 0 is `Moderate`, below 0 is `Spam`.
    pub status: Status,
    /// The comment under evaluation.
    pub comment: Comment,
}

/// Headroom within which the checks accept a running score. It lies far
/// beyond any sum the rules can produce from a score started at zero, and
/// far from the edge of `i128`, so every check is free of overflow.
pub const SCORE_HEADROOM: i128 = 0x1_0000_0000_0000_0000_0000_0000;

pub open spec fn score_in_range(s: int) -> bool {
    -(SCORE_HEADROOM as int) <= s <= SCORE_HEADROOM as int
}

/// Twice the headroom: what the single-link evaluator accepts, so that the
/// body-link loop may drift below the headroom by the weights already
/// applied.
pub open spec fn score_in_wide_range(s: int) -> bool {
    -2 * (SCORE_HEADROOM as int) <= s <= 2 * (SCORE_HEADROOM as int)
}

/// Weight of one TLD: `-1` if it stands in the denylist.
pub open spec fn tld_delta(tld: Seq<char>) -> int {
    if spam_tlds().contains(tld) {
        -1
    } else {
        0
    }
}

/// Weight of the URL keywords: one deduction per denylisted word contained
/// in the lowercased URL.
pub open spec fn keyword_delta(full: Seq<char>) -> int {
    -contained_count(lower(full), url_spam_words())
}

/// Weight of the URL length: `-1` beyond 30 characters.
pub open spec fn length_delta(full: Seq<char>) -> int {
    if full.len() > 30 {
        -1
    } else {
        0
    }
}

/// Weight of one link: TLD denylist, URL keywords, length, and consonant
/// runs, applied independently.
pub open spec fn link_weight(full: Seq<char>, tld: Seq<char>) -> int {
    tld_delta(tld) + keyword_delta(full) + length_delta(full) - consonant_runs(full)
}

/// Weight of the link spanned by `u` within `s`.
pub open spec fn link_weight_at(s: Seq<char>, u: UrlSpans) -> int {
    link_weight(s.subrange(u.start, u.end), s.subrange(u.dot + 1, u.tld_end))
}

/// Sum of the weights of a list of links.
pub open spec fn links_weight(s: Seq<char>, us: Seq<UrlSpans>) -> int
    decreases us.len(),
{
    if us.len() == 0 {
        0
    } else {
        link_weight_at(s, us[0]) + links_weight(s, us.drop_first())
    }
}

/// Weight of the link count `n`: `+2` below two links, `-n` otherwise.
pub open spec fn link_count_delta(n: int) -> int {
    if n < 2 {
        2
    } else {
        -n
    }
}

/// Rule 1, body links: every anchor-scoped link's weight, plus the link
/// count weight.
pub open spec fn body_links_delta(body: Seq<char>) -> int {
    links_weight(body, anchor_scan(body, 0)) + link_count_delta(
        anchor_scan(body, 0).len() as int,
    )
}

/// Rule 2, body length: with the HTML tags stripped and the rest trimmed,
/// more than 20 characters earn `+2` without links or `+1` with them;
/// anything shorter costs `-1`.
pub open spec fn body_length_delta(body: Seq<char>, link_count: int) -> int {
    let l = trim_spec(strip_from(body, 0)).len();
    if l > 20 && link_count == 0 {
        2
    } else if l > 20 {
        1
    } else {
        -1
    }
}

/// Rule 3, spam phrases: one deduction per denylisted phrase contained in
/// the lowercased body.
pub open spec fn spam_phrase_delta(body: Seq<char>) -> int {
    -contained_count(lower(body), spam_phrases())
}

/// Rule 4, first word: ten deducted per denylisted word contained in the
/// lowercased first word of the tag-stripped body. A body with no word
/// contains no denylisted word and so contributes nothing.
pub open spec fn first_word_delta(body: Seq<char>) -> int {
    -10 * contained_count(lower(first_word(strip_from(body, 0))), body_spam_first_words())
}

/// Number of entries of `prev` from index `k` on whose trimmed, lowercased
/// text equals `cur`.
pub open spec fn matching_previous_from(cur: Seq<char>, prev: Seq<Seq<char>>, k: int) -> int
    decreases prev.len() - k,
{
    if 0 <= k < prev.len() {
        (if lower(trim_spec(prev[k])) == cur {
            1int
        } else {
            0
        }) + matching_previous_from(cur, prev, k + 1)
    } else {
        0
    }
}

/// Rule 5, duplicate history: one deduction per prior body that equals the
/// current body after trimming and lowercasing both.
pub open spec fn previous_bodies_delta(body: Seq<char>, previous: Option<Seq<Seq<char>>>) -> int {
    match previous {
        None => 0,
        Some(ps) => -matching_previous_from(lower(trim_spec(body)), ps, 0),
    }
}

/// Rule 6, standalone URL: if the self-reported URL matches the bare-URL
/// grammar, the single-link weight of its leftmost match.
pub open spec fn url_delta(url: Option<Seq<char>>) -> int {
    match url {
        None => 0,
        Some(u) => match bare_url(u) {
            None => 0,
            Some(sp) => link_weight_at(u, sp),
        },
    }
}

/// Rule 7, author URL: `-2` once if the lowercased author field contains
/// `http://` or `https://`.
pub open spec fn author_delta(author: Option<Seq<char>>) -> int {
    match author {
        None => 0,
        Some(a) => if contains_seq(lower(a), "http://"@) || contains_seq(lower(a), "https://"@) {
            -2
        } else {
            0
        },
    }
}

/// Rule 8, prior email history: the accepted count added, the rejected
/// count subtracted.
pub open spec fn history_delta(accepted: Option<int>, rejected: Option<int>) -> int {
    (match accepted {
        Some(a) => a,
        None => 0int,
    }) - (match rejected {
        Some(r) => r,
        None => 0int,
    })
}

/// The total score of a comment: the sum of the eight rule deltas. Rule 2
/// reads the link count that rule 1 established.
pub open spec fn total_score(c: CommentView) -> int {
    body_links_delta(c.body) + body_length_delta(c.body, anchor_scan(c.body, 0).len() as int)
        + spam_phrase_delta(c.body) + first_word_delta(c.body) + previous_bodies_delta(
        c.body,
        c.previous,
    ) + url_delta(c.url) + author_delta(c.author) + history_delta(c.accepted, c.rejected)
}

/// The classification thresholds: 1 or more is `Valid`, exactly 0 is
/// `Moderate`, anything below 0 is `Spam`.
pub open spec fn status_of(score: int) -> Status {
    if score >= 1 {
        Status::Valid
    } else if score == 0 {
        Status::Moderate
    } else {
        Status::Spam
    }
}

/// A single link's weight is at most 0 and at least `-(len + 8)`.
pub proof fn lemma_link_weight_bound(full: Seq<char>, tld: Seq<char>)
    ensures
        -(full.len() as int) - 8 <= link_weight(full, tld) <= 0,
{
    lemma_contained_count_bound(lower(full), url_spam_words(), 0);
    lemma_consonant_runs_bound(full);
    assert(url_spam_words().len() == 5);
    assert(lower(full).len() == full.len());
}

/// Sum of link weights over ordered disjoint spans that all start at or
/// after `b`.
pub proof fn lemma_links_weight_bound(s: Seq<char>, us: Seq<UrlSpans>, b: int)
    requires
        spans_ok(s, us),
        0 <= b <= s.len(),
        forall|j: int| 0 <= j < us.len() ==> (#[trigger] us[j]).start >= b,
    ensures
        -9 * (s.len() - b) - 8 <= links_weight(s, us) <= 0,
    decreases us.len(),
{
    if us.len() > 0 {
        let u = us[0];
        let rest = us.drop_first();
        assert(forall|j: int| 0 <= j < rest.len() ==> rest[j] == us[j + 1]);
        lemma_link_weight_bound(s.subrange(u.start, u.end), s.subrange(u.dot + 1, u.tld_end));
        assert(s.subrange(u.start, u.end).len() == u.end - u.start);
        if rest.len() == 0 {
            assert(links_weight(s, rest) == 0);
        } else {
            assert(rest[0] == us[1]);
            assert(u.end < us[1].start);
            assert forall|j: int| 0 <= j < rest.len() implies (#[trigger] rest[j]).start >= u.end
                + 1 by {
                assert(rest[j] == us[j + 1]);
                assert(us[0].end < us[j + 1].start);
            }
            lemma_links_weight_bound(s, rest, u.end + 1);
        }
    }
}

/// Bound for rule 1 in terms of the body length.
pub proof fn lemma_body_links_delta_bound(body: Seq<char>)
    ensures
        -10 * (body.len() as int) - 8 <= body_links_delta(body) <= 2,
{
    lemma_anchor_scan_spans(body, 0);
    lemma_links_weight_bound(body, anchor_scan(body, 0), 0);
}

/// Bound for rule 6 in terms of the URL length.
pub proof fn lemma_url_delta_bound(url: Option<Seq<char>>)
    ensures
        match url {
            None => url_delta(url) == 0,
            Some(u) => -(u.len() as int) - 8 <= url_delta(url) <= 0,
        },
{
    match url {
        None => {},
        Some(u) => {
            match bare_url(u) {
                None => {},
                Some(sp) => {
                    lemma_bare_url_from(u, 0);
                    lemma_link_weight_bound(
                        u.subrange(sp.start, sp.end),
                        u.subrange(sp.dot + 1, sp.tld_end),
                    );
                },
            }
        },
    }
}

/// Bound for rule 3: never below minus the phrase table's length.
pub proof fn lemma_spam_phrase_delta_bound(body: Seq<char>)
    ensures
        -45 <= spam_phrase_delta(body) <= 0,
{
    lemma_contained_count_bound(lower(body), spam_phrases(), 0);
    assert(spam_phrases().len() == 45);
}

/// Bound for rule 4: never below minus ten times the first-word table's
/// length.
pub proof fn lemma_first_word_delta_bound(body: Seq<char>)
    ensures
        -40 <= first_word_delta(body) <= 0,
{
    lemma_contained_count_bound(
        lower(first_word(strip_from(body, 0))),
        body_spam_first_words(),
        0,
    );
    assert(body_spam_first_words().len() == 4);
}

/// Bound for rule 5 in terms of the history length.
pub proof fn lemma_matching_previous_bound(cur: Seq<char>, prev: Seq<Seq<char>>, k: int)
    ensures
        0 <= matching_previous_from(cur, prev, k),
        matching_previous_from(cur, prev, k) <= if 0 <= k <= prev.len() {
            prev.len() - k
        } else {
            0
        },
    decreases prev.len() - k,
{
    if 0 <= k < prev.len() {
        lemma_matching_previous_bound(cur, prev, k + 1);
    }
}

impl Snooker {
    /// A fresh evaluation state for `comment`: score 0, status `Moderate`.
    pub fn new(comment: Comment) -> (r: Snooker)
        ensures
            r.score == 0,
            r.status == Status::Moderate,
            r.comment == comment,
    {
        Snooker { score: 0, status: Status::Moderate, comment: comment }
    }

    /// Rule 1: extract the anchor-scoped links of the body, score each with
    /// the single-link evaluator, then score the link count; returns that
    /// count.
    pub fn check_body_links(&mut self) -> (link_count: usize)
        requires
            score_in_range(old(self).score as int),
        ensures
            final(self).score == old(self).score + body_links_delta(old(self).comment@.body),
            final(self).comment == old(self).comment,
            final(self).status == old(self).status,
            link_count as int == anchor_scan(old(self).comment@.body, 0).len(),
            old(self).comment@.body.len() <= usize::MAX,
    {
        let bv = chars_of(self.comment.body.as_str());
        let caps = extract_links_vec(&bv);
        let ghost body = old(self).comment@.body;
        let ghost us = anchor_scan(body, 0);
        proof {
            lemma_anchor_scan_spans(body, 0);
            assert(us.skip(0) =~= us);
        }
        let n = caps.len();
        let mut j: usize = 0;
        while j < n
            invariant
                n == us.len(),
                n == caps@.len(),
                j <= n,
                body == old(self).comment@.body,
                body.len() <= usize::MAX,
                us == anchor_scan(body, 0),
                spans_ok(body, us),
                forall|k: int| 0 <= k < n ==> capture_wf(caps@[k], body, us[k]),
                score_in_range(old(self).score as int),
                self.score == old(self).score + links_weight(body, us) - links_weight(
                    body,
                    us.skip(j as int),
                ),
                self.comment == old(self).comment,
                self.status == old(self).status,
            decreases n - j,
        {
            proof {
                lemma_links_weight_bound(body, us, 0);
                assert(spans_ok(body, us.skip(j as int))) by {
                    assert(forall|k: int|
                        0 <= k < us.skip(j as int).len() ==> us.skip(j as int)[k] == us[k + j]);
                }
                lemma_links_weight_bound(body, us.skip(j as int), 0);
                assert(us.skip(j as int)[0] == us[j as int]);
                assert(us.skip(j as int).drop_first() =~= us.skip(j as int + 1));
                assert(links_weight(body, us.skip(j as int)) == link_weight_at(body, us[j as int])
                    + links_weight(body, us.skip(j as int + 1)));
                lemma_links_weight_bound(body, us.skip(j as int + 1), 0);
            }
            process_single_link(&caps[j], self);
            j = j + 1;
        }
        proof {
            assert(us.skip(n as int) =~= Seq::<UrlSpans>::empty());
            lemma_links_weight_bound(body, us, 0);
        }
        if n < 2 {
            self.score = self.score + 2;
        } else {
            self.score = self.score - n as i128;
        }
        n
    }

    /// Rule 6: if a self-reported URL is present and matches the bare-URL
    /// grammar, score its leftmost match with the single-link evaluator.
    pub fn check_url(&mut self)
        requires
            score_in_range(old(self).score as int),
        ensures
            final(self).score == old(self).score + url_delta(old(self).comment@.url),
            final(self).comment == old(self).comment,
            final(self).status == old(self).status,
            match old(self).comment@.url {
                Some(u) => u.len() <= usize::MAX,
                None => true,
            },
    {
        let cap_opt = match &self.comment.url {
            Some(u) => {
                let uv = chars_of(u.as_str());
                parse_bare_vec(&uv)
            },
            None => None,
        };
        match cap_opt {
            Some(cap) => {
                proof {
                    let u = old(self).comment@.url.unwrap();
                    lemma_bare_url_from(u, 0);
                }
                process_single_link(&cap, self);
            },
            None => {},
        }
    }

    /// Rule 2: strip the HTML tags from the body, trim the rest, and score
    /// its character length against the link count from rule 1.
    pub fn check_body_length(&mut self, link_count: usize)
        requires
            score_in_range(old(self).score as int),
        ensures
            final(self).score == old(self).score + body_length_delta(
                old(self).comment@.body,
                link_count as int,
            ),
            final(self).comment == old(self).comment,
            final(self).status == old(self).status,
    {
        let bv = chars_of(self.comment.body.as_str());
        let stripped = strip_tags_vec(&bv);
        let trimmed = trim_chars(&stripped);
        let l = trimmed.len();
        if l > 20 && link_count == 0 {
            self.score = self.score + 2;
        } else if l > 20 {
            self.score = self.score + 1;
        } else {
            self.score = self.score - 1;
        }
    }

    /// Rule 3: one deduction per denylisted phrase contained in the
    /// lowercased body.
    pub fn check_body_for_spam_phrases(&mut self)
        requires
            score_in_range(old(self).score as int),
        ensures
            final(self).score == old(self).score + spam_phrase_delta(old(self).comment@.body),
            final(self).comment == old(self).comment,
            final(self).status == old(self).status,
    {
        let bv = chars_of(self.comment.body.as_str());
        let lb = lower_vec(&bv);
        let phrases = spam_phrase_list();
        let cnt = count_contained(&lb, &phrases);
        proof {
            assert(phrases@.len() == spam_phrases().len());
        }
        self.score = self.score - cnt as i128;
    }

    /// Rule 4: ten deducted per denylisted word contained in the lowercased
    /// first word of the tag-stripped body. A body that is empty after
    /// stripping has no first word and contributes nothing.
    pub fn check_body_first_word(&mut self)
        requires
            score_in_range(old(self).score as int),
        ensures
            final(self).score == old(self).score + first_word_delta(old(self).comment@.body),
            final(self).comment == old(self).comment,
            final(self).status == old(self).status,
    {
        let bv = chars_of(self.comment.body.as_str());
        let stripped = strip_tags_vec(&bv);
        let w = first_word_vec(&stripped);
        let lw = lower_vec(&w);
        let words = body_spam_first_word_list();
        let cnt = count_contained(&lw, &words);
        proof {
            assert(words@.len() == body_spam_first_words().len());
        }
        self.score = self.score - 10 * (cnt as i128);
    }

    /// Rule 5: one deduction per prior body whose trimmed, lowercased text
    /// equals the current body's.
    pub fn check_body_of_previous_for_matches(&mut self)
        requires
            score_in_range(old(self).score as int),
        ensures
            final(self).score == old(self).score + previous_bodies_delta(
                old(self).comment@.body,
                old(self).comment@.previous,
            ),
            final(self).comment == old(self).comment,
            final(self).status == old(self).status,
            match old(self).comment@.previous {
                Some(ps) => ps.len() <= usize::MAX,
                None => true,
            },
    {
        let cnt: usize;
        match &self.comment.previous_comment_bodies {
            None => {
                cnt = 0;
            },
            Some(prevs) => {
                let bv = chars_of(self.comment.body.as_str());
                let tb = trim_chars(&bv);
                let cur = lower_vec(&tb);
                let ghost ps = old(self).comment@.previous.unwrap();
                let ghost curs = lower(trim_spec(old(self).comment@.body));
                let n = prevs.len();
                let mut c: usize = 0;
                let mut k: usize = 0;
                while k < n
                    invariant
                        n == prevs@.len(),
                        ps == string_views(prevs@),
                        n == ps.len(),
                        k <= n,
                        c <= k,
                        cur@ == curs,
                        c as int + matching_previous_from(curs, ps, k as int)
                            == matching_previous_from(curs, ps, 0),
                    decreases n - k,
                {
                    let pv = chars_of(prevs[k].as_str());
                    let pt = trim_chars(&pv);
                    let pl = lower_vec(&pt);
                    if eq_chars(&pl, &cur) {
                        c = c + 1;
                    }
                    k = k + 1;
                }
                cnt = c;
            },
        }
        self.score = self.score - cnt as i128;
    }

    /// Rule 7: deduct 2 once if the lowercased author field contains
    /// `http://` or `https://`.
    pub fn check_author_for_http(&mut self)
        requires
            score_in_range(old(self).score as int),
        ensures
            final(self).score == old(self).score + author_delta(old(self).comment@.author),
            final(self).comment == old(self).comment,
            final(self).status == old(self).status,
    {
        let hit: bool;
        match &self.comment.author {
            None => {
                hit = false;
            },
            Some(a) => {
                let av = chars_of(a.as_str());
                let la = lower_vec(&av);
                let p1 = chars_of("http://");
                let p2 = chars_of("https://");
                hit = contains_sub(&la, &p1) || contains_sub(&la, &p2);
            },
        }
        if hit {
            self.score = self.score - 2;
        }
    }

    /// Rule 8: add the prior accepted count, subtract the prior rejected
    /// count.
    pub fn count_emails_previous_statuses(&mut self)
        requires
            score_in_range(old(self).score as int),
        ensures
            final(self).score == old(self).score + history_delta(
                old(self).comment@.accepted,
                old(self).comment@.rejected,
            ),
            final(self).comment == old(self).comment,
            final(self).status == old(self).status,
    {
        if let Some(c) = self.comment.previously_accepted_for_email {
            self.score = self.score + c as i128;
        }
        if let Some(c) = self.comment.previously_rejected_for_email {
            self.score = self.score - c as i128;
        }
    }
}

/// The single-link evaluator, shared verbatim by the body-link check and
/// the standalone-URL check: apply the TLD denylist, the URL keyword
/// denylist, the length check and the consonant-run count to one captured
/// link, each independently.
fn process_single_link(cap: &LinkCapture, snooker: &mut Snooker)
    requires
        score_in_wide_range(old(snooker).score as int),
    ensures
        final(snooker).score == old(snooker).score + link_weight(cap.full_url@, cap.tld@),
        final(snooker).comment == old(snooker).comment,
        final(snooker).status == old(snooker).status,
{
    let tlds = spam_tld_list();
    if seq_list_member(&cap.tld, &tlds) {
        snooker.score = snooker.score - 1;
    }
    let lf = lower_vec(&cap.full_url);
    let words = url_spam_word_list();
    let kw = count_contained(&lf, &words);
    proof {
        assert(words@.len() == url_spam_words().len());
    }
    snooker.score = snooker.score - kw as i128;
    if cap.full_url.len() > 30 {
        snooker.score = snooker.score - 1;
    }
    let cr = consonant_runs_vec(&cap.full_url);
    proof {
        lemma_consonant_runs_bound(cap.full_url@);
    }
    snooker.score = snooker.score - cr as i128;
}

/// The entry point: run the eight rule checks in their fixed order against
/// a fresh accumulator, then classify the final score.
pub fn process_comment(comment: Comment) -> (result: Snooker)
    ensures
        result.score == total_score(comment@),
        result.status == status_of(total_score(comment@)),
        result.comment == comment,
{
    let mut snooker = Snooker::new(comment);
    let ghost c = comment@;
    let link_count = snooker.check_body_links();
    proof {
        lemma_body_links_delta_bound(c.body);
    }
    snooker.check_body_length(link_count);
    snooker.check_body_for_spam_phrases();
    proof {
        lemma_spam_phrase_delta_bound(c.body);
    }
    snooker.check_body_first_word();
    proof {
        lemma_first_word_delta_bound(c.body);
    }
    snooker.check_body_of_previous_for_matches();
    proof {
        match c.previous {
            Some(ps) => lemma_matching_previous_bound(lower(trim_spec(c.body)), ps, 0),
            None => (),
        }
    }
    snooker.check_url();
    proof {
        lemma_url_delta_bound(c.url);
    }
    snooker.check_author_for_http();
    snooker.count_emails_previous_statuses();
    if snooker.score >= 1 {
        snooker.status = Status::Valid;
    } else if snooker.score == 0 {
        snooker.status = Status::Moderate;
    } else {
        snooker.status = Status::Spam;
    }
    snooker
}

} // verus!
