//! The denylists: static configuration shared by the rule checks, together
//! with counting and membership helpers over lists of words.

use crate::text::{chars_of, contains_seq, contains_sub, eq_chars};
use vstd::prelude::*;

verus! {

/// TLDs considered spammy, matched case-sensitively against the captured
/// token.
pub open spec fn spam_tlds() -> Seq<Seq<char>> {
    seq!["de"@, "pl"@, "cn"@]
}

/// Substrings flagged in a lowercased URL; one deduction per listed word
/// found.
pub open spec fn url_spam_words() -> Seq<Seq<char>> {
    seq![".html"@, ".info"@, "?"@, "&"@, "free"@]
}

/// Words flagged when the body's first word contains them.
pub open spec fn body_spam_first_words() -> Seq<Seq<char>> {
    seq!["interesting"@, "sorry"@, "nice"@, "cool"@]
}

/// Phrases flagged anywhere in the lowercased body.
pub open spec fn spam_phrases() -> Seq<Seq<char>> {
    seq![
        "100% free"@,
        "act now"@,
        "additional income"@,
        "all natural"@,
        "apply now"@,
        "be your own boss"@,
        "been turned down"@,
        "buy direct"@,
        "cash bonus"@,
        "casino"@,
        "click here"@,
        "earn extra cash"@,
        "extra income"@,
        "fast cash"@,
        "free access"@,
        "free gift"@,
        "free hosting"@,
        "free money"@,
        "free trial"@,
        "get out of debt"@,
        "get paid"@,
        "giving it away"@,
        "guaranteed"@,
        "increase sales"@,
        "increase traffic"@,
        "incredible deal"@,
        "limited time only"@,
        "lose weight"@,
        "money back"@,
        "no credit check"@,
        "no strings attached"@,
        "online pharmacy"@,
        "order now"@,
        "potential earnings"@,
        "pure profit"@,
        "risk free"@,
        "satisfaction guaranteed"@,
        "save big money"@,
        "serious cash"@,
        "special promotion"@,
        "viagra"@,
        "while supplies last"@,
        "why pay more"@,
        "winner"@,
        "work from home"@,
    ]
}

/// The views of a list of character vectors.
pub open spec fn views_of(ws: Seq<Vec<char>>) -> Seq<Seq<char>> {
    Seq::new(ws.len(), |i: int| ws[i]@)
}

/// How many of `words`, from list index `i` on, occur in `hay` as
/// substrings; each listed word counts at most once.
pub open spec fn contained_count_from(hay: Seq<char>, words: Seq<Seq<char>>, i: int) -> int
    decreases words.len() - i,
{
    if 0 <= i < words.len() {
        (if contains_seq(hay, words[i]) {
            1int
        } else {
            0
        }) + contained_count_from(hay, words, i + 1)
    } else {
        0
    }
}

/// How many words of the list occur in `hay` as substrings.
pub open spec fn contained_count(hay: Seq<char>, words: Seq<Seq<char>>) -> int {
    contained_count_from(hay, words, 0)
}

pub proof fn lemma_contained_count_bound(hay: Seq<char>, words: Seq<Seq<char>>, i: int)
    ensures
        0 <= contained_count_from(hay, words, i),
        contained_count_from(hay, words, i) <= if i <= words.len() && i >= 0 {
            words.len() - i
        } else {
            0
        },
    decreases words.len() - i,
{
    if 0 <= i < words.len() {
        lemma_contained_count_bound(hay, words, i + 1);
    }
}

/// Count how many of `words` occur in `hay` as substrings.
pub fn count_contained(hay: &Vec<char>, words: &Vec<Vec<char>>) -> (r: usize)
    ensures
        r as int == contained_count(hay@, views_of(words@)),
        r <= words@.len(),
{
    let n = words.len();
    let mut count: usize = 0;
    let mut i: usize = 0;
    while i < n
        invariant
            n == words@.len(),
            i <= n,
            count <= i,
            count as int + contained_count_from(hay@, views_of(words@), i as int)
                == contained_count(hay@, views_of(words@)),
        decreases n - i,
    {
        if contains_sub(hay, &words[i]) {
            count = count + 1;
        }
        i = i + 1;
    }
    count
}

/// Whether `x` equals some word of `list`.
pub fn seq_list_member(x: &Vec<char>, list: &Vec<Vec<char>>) -> (r: bool)
    ensures
        r == views_of(list@).contains(x@),
{
    let n = list.len();
    let mut i: usize = 0;
    while i < n
        invariant
            n == list@.len(),
            i <= n,
            forall|j: int| 0 <= j < i ==> views_of(list@)[j] != x@,
        decreases n - i,
    {
        if eq_chars(&list[i], x) {
            proof {
                assert(views_of(list@)[i as int] == x@);
            }
            return true;
        }
        i = i + 1;
    }
    proof {
        assert forall|j: int| 0 <= j < views_of(list@).len() implies views_of(list@)[j] != x@ by {}
    }
    false
}

/// The spam TLD table as character vectors.
pub fn spam_tld_list() -> (r: Vec<Vec<char>>)
    ensures
        views_of(r@) == spam_tlds(),
{
    let mut r: Vec<Vec<char>> = Vec::new();
    r.push(chars_of("de"));
    r.push(chars_of("pl"));
    r.push(chars_of("cn"));
    proof {
        assert(views_of(r@) =~= spam_tlds());
    }
    r
}

/// The URL keyword table as character vectors.
pub fn url_spam_word_list() -> (r: Vec<Vec<char>>)
    ensures
        views_of(r@) == url_spam_words(),
{
    let mut r: Vec<Vec<char>> = Vec::new();
    r.push(chars_of(".html"));
    r.push(chars_of(".info"));
    r.push(chars_of("?"));
    r.push(chars_of("&"));
    r.push(chars_of("free"));
    proof {
        assert(views_of(r@) =~= url_spam_words());
    }
    r
}

/// The first-word table as character vectors.
pub fn body_spam_first_word_list() -> (r: Vec<Vec<char>>)
    ensures
        views_of(r@) == body_spam_first_words(),
{
    let mut r: Vec<Vec<char>> = Vec::new();
    r.push(chars_of("interesting"));
    r.push(chars_of("sorry"));
    r.push(chars_of("nice"));
    r.push(chars_of("cool"));
    proof {
        assert(views_of(r@) =~= body_spam_first_words());
    }
    r
}

/// The spam phrase table as character vectors.
pub fn spam_phrase_list() -> (r: Vec<Vec<char>>)
    ensures
        views_of(r@) == spam_phrases(),
{
    let mut r: Vec<Vec<char>> = Vec::new();
    r.push(chars_of("100% free"));
    r.push(chars_of("act now"));
    r.push(chars_of("additional income"));
    r.push(chars_of("all natural"));
    r.push(chars_of("apply now"));
    r.push(chars_of("be your own boss"));
    r.push(chars_of("been turned down"));
    r.push(chars_of("buy direct"));
    r.push(chars_of("cash bonus"));
    r.push(chars_of("casino"));
    r.push(chars_of("click here"));
    r.push(chars_of("earn extra cash"));
    r.push(chars_of("extra income"));
    r.push(chars_of("fast cash"));
    r.push(chars_of("free access"));
    r.push(chars_of("free gift"));
    r.push(chars_of("free hosting"));
    r.push(chars_of("free money"));
    r.push(chars_of("free trial"));
    r.push(chars_of("get out of debt"));
    r.push(chars_of("get paid"));
    r.push(chars_of("giving it away"));
    r.push(chars_of("guaranteed"));
    r.push(chars_of("increase sales"));
    r.push(chars_of("increase traffic"));
    r.push(chars_of("incredible deal"));
    r.push(chars_of("limited time only"));
    r.push(chars_of("lose weight"));
    r.push(chars_of("money back"));
    r.push(chars_of("no credit check"));
    r.push(chars_of("no strings attached"));
    r.push(chars_of("online pharmacy"));
    r.push(chars_of("order now"));
    r.push(chars_of("potential earnings"));
    r.push(chars_of("pure profit"));
    r.push(chars_of("risk free"));
    r.push(chars_of("satisfaction guaranteed"));
    r.push(chars_of("save big money"));
    r.push(chars_of("serious cash"));
    r.push(chars_of("special promotion"));
    r.push(chars_of("viagra"));
    r.push(chars_of("while supplies last"));
    r.push(chars_of("why pay more"));
    r.push(chars_of("winner"));
    r.push(chars_of("work from home"));
    proof {
        assert(views_of(r@) =~= spam_phrases());
    }
    r
}

} // verus!
