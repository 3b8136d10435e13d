//! Laws of the scorer, stated and proved over the same specifications that
//! the executable checks are verified against.

use crate::links::{
    anchor_scan, lemma_anchor_scan_spans, lemma_no_quotes_no_anchor, lemma_url_no_quotes, UrlSpans,
};
use crate::score::{
    author_delta, body_length_delta, body_links_delta, first_word_delta, history_delta,
    previous_bodies_delta, spam_phrase_delta, status_of, total_score, url_delta, CommentView,
    Status,
};
use vstd::prelude::*;

verus! {

/// Delta of rule check number `i`, 0 through 7 in the driver's order.
pub open spec fn check_delta(c: CommentView, i: int) -> int {
    if i == 0 {
        body_links_delta(c.body)
    } else if i == 1 {
        body_length_delta(c.body, anchor_scan(c.body, 0).len() as int)
    } else if i == 2 {
        spam_phrase_delta(c.body)
    } else if i == 3 {
        first_word_delta(c.body)
    } else if i == 4 {
        previous_bodies_delta(c.body, c.previous)
    } else if i == 5 {
        url_delta(c.url)
    } else if i == 6 {
        author_delta(c.author)
    } else if i == 7 {
        history_delta(c.accepted, c.rejected)
    } else {
        0
    }
}

/// Sum of the deltas of the checks listed in `order`.
pub open spec fn sum_deltas(c: CommentView, order: Seq<int>) -> int
    decreases order.len(),
{
    if order.len() == 0 {
        0
    } else {
        check_delta(c, order[0]) + sum_deltas(c, order.drop_first())
    }
}

/// The checks folded over an accumulator, in the order listed.
pub open spec fn fold_checks(c: CommentView, order: Seq<int>, acc: int) -> int
    decreases order.len(),
{
    if order.len() == 0 {
        acc
    } else {
        fold_checks(c, order.drop_first(), acc + check_delta(c, order[0]))
    }
}

proof fn lemma_fold_is_sum(c: CommentView, order: Seq<int>, acc: int)
    ensures
        fold_checks(c, order, acc) == acc + sum_deltas(c, order),
    decreases order.len(),
{
    if order.len() > 0 {
        lemma_fold_is_sum(c, order.drop_first(), acc + check_delta(c, order[0]));
    }
}

proof fn lemma_sum_remove(c: CommentView, order: Seq<int>, i: int)
    requires
        0 <= i < order.len(),
    ensures
        sum_deltas(c, order.remove(i)) == sum_deltas(c, order) - check_delta(c, order[i]),
    decreases order.len(),
{
    if i == 0 {
        assert(order.remove(0) =~= order.drop_first());
    } else {
        assert(order.remove(i).drop_first() =~= order.drop_first().remove(i - 1));
        assert(order.remove(i)[0] == order[0]);
        lemma_sum_remove(c, order.drop_first(), i - 1);
        assert(order.drop_first()[i - 1] == order[i]);
    }
}

proof fn lemma_sum_permuted(c: CommentView, a: Seq<int>, b: Seq<int>)
    requires
        a.to_multiset() == b.to_multiset(),
    ensures
        sum_deltas(c, a) == sum_deltas(c, b),
    decreases a.len(),
{
    a.to_multiset_ensures();
    b.to_multiset_ensures();
    if a.len() == 0 {
        assert(b.len() == 0);
    } else {
        let x = a[0];
        assert(a.contains(x));
        assert(b.to_multiset().count(x) > 0);
        assert(b.contains(x));
        let i = choose|i: int| 0 <= i < b.len() && b[i] == x;
        lemma_sum_remove(c, b, i);
        assert(a.drop_first() =~= a.remove(0));
        assert(a.remove(0).to_multiset() == a.to_multiset().remove(x));
        assert(b.remove(i).to_multiset() == b.to_multiset().remove(x));
        lemma_sum_permuted(c, a.drop_first(), b.remove(i));
    }
}

/// The driver's own order of the eight checks.
pub open spec fn standard_order() -> Seq<int> {
    seq![0int, 1, 2, 3, 4, 5, 6, 7]
}

/// Commutativity: folding the eight rule checks in any order over any
/// starting accumulator reaches the same final score; over an accumulator
/// of 0 it reaches the total score. Only the breakdown order could differ,
/// never the sum.
pub proof fn lemma_rule_order_immaterial(c: CommentView, order: Seq<int>, acc: int)
    requires
        order.to_multiset() == standard_order().to_multiset(),
    ensures
        fold_checks(c, order, acc) == acc + total_score(c),
        fold_checks(c, order, 0) == total_score(c),
{
    lemma_fold_is_sum(c, order, acc);
    lemma_fold_is_sum(c, order, 0);
    lemma_sum_permuted(c, order, standard_order());
    let s0 = standard_order();
    assert(s0.drop_first() =~= seq![1int, 2, 3, 4, 5, 6, 7]);
    assert(seq![1int, 2, 3, 4, 5, 6, 7].drop_first() =~= seq![2int, 3, 4, 5, 6, 7]);
    assert(seq![2int, 3, 4, 5, 6, 7].drop_first() =~= seq![3int, 4, 5, 6, 7]);
    assert(seq![3int, 4, 5, 6, 7].drop_first() =~= seq![4int, 5, 6, 7]);
    assert(seq![4int, 5, 6, 7].drop_first() =~= seq![5int, 6, 7]);
    assert(seq![5int, 6, 7].drop_first() =~= seq![6int, 7]);
    assert(seq![6int, 7].drop_first() =~= seq![7int]);
    assert(seq![7int].drop_first() =~= Seq::<int>::empty());
    assert(sum_deltas(c, Seq::<int>::empty()) == 0);
    assert(sum_deltas(c, seq![7int]) == check_delta(c, 7));
    assert(sum_deltas(c, seq![6int, 7]) == check_delta(c, 6) + check_delta(c, 7));
    assert(sum_deltas(c, seq![5int, 6, 7]) == check_delta(c, 5) + check_delta(c, 6) + check_delta(
        c,
        7,
    ));
    assert(sum_deltas(c, seq![4int, 5, 6, 7]) == check_delta(c, 4) + check_delta(c, 5)
        + check_delta(c, 6) + check_delta(c, 7));
    assert(sum_deltas(c, seq![3int, 4, 5, 6, 7]) == check_delta(c, 3) + check_delta(c, 4)
        + check_delta(c, 5) + check_delta(c, 6) + check_delta(c, 7));
    assert(sum_deltas(c, seq![2int, 3, 4, 5, 6, 7]) == check_delta(c, 2) + check_delta(c, 3)
        + check_delta(c, 4) + check_delta(c, 5) + check_delta(c, 6) + check_delta(c, 7));
    assert(sum_deltas(c, seq![1int, 2, 3, 4, 5, 6, 7]) == check_delta(c, 1) + check_delta(c, 2)
        + check_delta(c, 3) + check_delta(c, 4) + check_delta(c, 5) + check_delta(c, 6)
        + check_delta(c, 7));
    assert(sum_deltas(c, s0) == total_score(c));
}

/// Purity: the score and the status are functions of the comment's content
/// alone; two evaluations of equal comments agree in score and status.
pub proof fn lemma_evaluate_deterministic(a: CommentView, b: CommentView)
    requires
        a == b,
    ensures
        total_score(a) == total_score(b),
        status_of(total_score(a)) == status_of(total_score(b)),
{
}

/// Thresholds: a score of 1 or more is `Valid`, exactly 0 is `Moderate`,
/// anything below 0 is `Spam`, over every integer score.
pub proof fn lemma_status_thresholds(score: int)
    ensures
        score >= 1 ==> status_of(score) == Status::Valid,
        score == 0 ==> status_of(score) == Status::Moderate,
        score <= -1 ==> status_of(score) == Status::Spam,
{
}

/// Link-count branch: a body with fewer than two anchor links takes `+2`
/// from the count rule, one with `n >= 2` links takes `-n`.
pub proof fn lemma_link_count_branch(n: int)
    ensures
        0 <= n < 2 ==> crate::score::link_count_delta(n) == 2,
        n >= 2 ==> crate::score::link_count_delta(n) == -n,
{
}

/// Idempotence of extraction: a captured full URL carries no quote
/// character, so running the anchor-scoped extractor over the capture
/// itself (its tags already stripped away by capture) finds nothing more.
pub proof fn lemma_extraction_idempotent(s: Seq<char>, j: int)
    requires
        0 <= j < anchor_scan(s, 0).len(),
    ensures
        anchor_scan(s.subrange(anchor_scan(s, 0)[j].start, anchor_scan(s, 0)[j].end), 0)
            == Seq::<UrlSpans>::empty(),
{
    lemma_anchor_scan_spans(s, 0);
    let u = anchor_scan(s, 0)[j];
    lemma_url_no_quotes(s, u.start);
    let t = s.subrange(u.start, u.end);
    assert forall|k: int| 0 <= k < t.len() implies !crate::links::is_quote_char(
        #[trigger] t[k],
    ) by {
        assert(t[k] == s[u.start + k]);
    }
    lemma_no_quotes_no_anchor(t, 0);
}

/// Idempotence of extraction, for the whole body: once all tag regions are
/// stripped, the extractor finds nothing in what remains.
pub proof fn lemma_strip_tags_then_extract_empty(body: Seq<char>)
    ensures
        anchor_scan(crate::text::strip_from(body, 0), 0) == Seq::<UrlSpans>::empty(),
{
    crate::text::lemma_strip_no_gt_after_lt(body, 0);
    crate::links::lemma_no_gt_no_anchor(crate::text::strip_from(body, 0), 0);
}

} // verus!
