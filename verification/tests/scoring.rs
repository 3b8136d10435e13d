use snooker::{process_comment, Comment, Status};

fn plain_comment(body: &str) -> Comment {
    Comment {
        author: None,
        url: None,
        body: String::from(body),
        previously_accepted_for_email: None,
        previously_rejected_for_email: None,
        previous_comment_bodies: None,
    }
}

#[test]
fn spam_1() {
    // Author contains "https://" → -2
    // Body contains 2 links → -2
    // Body is over 20 chars with 2 links → +1
    // Body starts with "Cool" → -10
    // One of the body URLs has a spammy TLD → -1
    //
    // Expected: -14

    let comment = Comment {
        author: Some("https://elliotekj.com".to_string()),
        url: None,
        body: String::from("
                <p>Cool, this <a href=\"https://elliotekj.com\">comment</a> has more <a\
                href=\"https://elliotekj.de\">than</a> 20 characters in it but contains\
                2 links.</p>
            "),
        previously_accepted_for_email: None,
        previously_rejected_for_email: None,
        previous_comment_bodies: None,
    };

    let snooker_result = process_comment(comment);
    assert_eq!(snooker_result.score, -14);
    assert_eq!(snooker_result.status, Status::Spam);
}

#[test]
fn spam_2() {
    // Body is over 20 chars and contains no links → +2
    // Body has less than 2 links → +2
    // Body contains 2 spam phrases → -2
    // URL has "free" and one param in it → -2
    // URL is over 30 characters → -1
    // 2 previous comments by this email address have the same body → -2
    //
    // Expected: -3

    let previous_comment_bodies = vec![
        String::from("
                <p>Have you been turned down? Get our special promotion</p>
            "),
        String::from("
                <p>Have you been turned down? Get our special promotion</p>
            "),
    ];

    let comment = Comment {
        author: Some("Elliot Jackson".to_string()),
        url: Some("http://someexample.com?getit=free".to_string()),
        body: String::from("
                <p>Have you been turned down? Get our special promotion</p>
            "),
        previously_accepted_for_email: None,
        previously_rejected_for_email: None,
        previous_comment_bodies: Some(previous_comment_bodies),
    };

    let snooker_result = process_comment(comment);
    assert_eq!(snooker_result.score, -3);
    assert_eq!(snooker_result.status, Status::Spam);
}

#[test]
fn scenario_two_links_and_author_url() {
    // Scenario: 2 links → -2; body over 20 chars with links → +1; first word
    // "Cool" → -10; TLD "de" → -1; author URL → -2. Total -14, Spam.
    let comment = Comment {
        author: Some("https://x.com".to_string()),
        url: None,
        body: String::from(
            "<p>Cool, this <a href=\"https://x.com\">c</a> has more <a href=\"https://x.de\">t</a> 20 chars but contains 2 links.</p>",
        ),
        previously_accepted_for_email: None,
        previously_rejected_for_email: None,
        previous_comment_bodies: None,
    };
    let result = process_comment(comment);
    assert_eq!(result.score, -14);
    assert_eq!(result.status, Status::Spam);
}

#[test]
fn scenario_spam_phrases_and_url_keywords() {
    // Scenario: no links → +2; long body, no links → +2; 2 spam phrases →
    // -2; URL keywords "?" and "free" → -2; URL is 23 chars, under the
    // length limit → 0. Total 0, Moderate, before any history.
    let comment = Comment {
        author: None,
        url: Some("http://a.com?getit=free".to_string()),
        body: String::from("Have you been turned down? Get our special promotion"),
        previously_accepted_for_email: None,
        previously_rejected_for_email: None,
        previous_comment_bodies: None,
    };
    let result = process_comment(comment);
    assert_eq!(result.score, 0);
    assert_eq!(result.status, Status::Moderate);
}

#[test]
fn scenario_spam_phrases_url_keywords_and_history() {
    // The same comment with 2 identical prior bodies → -2 more, Spam.
    let body = String::from("Have you been turned down? Get our special promotion");
    let comment = Comment {
        author: None,
        url: Some("http://a.com?getit=free".to_string()),
        body: body.clone(),
        previously_accepted_for_email: None,
        previously_rejected_for_email: None,
        previous_comment_bodies: Some(vec![body.clone(), body.clone()]),
    };
    let result = process_comment(comment);
    assert_eq!(result.score, -2);
    assert_eq!(result.status, Status::Spam);
}

#[test]
fn threshold_score_one_is_valid() {
    // No links → +2; long body → +2; 3 rejected before → -3. Score 1.
    let mut comment = plain_comment("This exact body sits well over twenty characters.");
    comment.previously_rejected_for_email = Some(3);
    let result = process_comment(comment);
    assert_eq!(result.score, 1);
    assert_eq!(result.status, Status::Valid);
}

#[test]
fn threshold_score_zero_is_moderate() {
    let mut comment = plain_comment("This exact body sits well over twenty characters.");
    comment.previously_rejected_for_email = Some(4);
    let result = process_comment(comment);
    assert_eq!(result.score, 0);
    assert_eq!(result.status, Status::Moderate);
}

#[test]
fn threshold_score_minus_one_is_spam() {
    let mut comment = plain_comment("This exact body sits well over twenty characters.");
    comment.previously_rejected_for_email = Some(5);
    let result = process_comment(comment);
    assert_eq!(result.score, -1);
    assert_eq!(result.status, Status::Spam);
}

#[test]
fn accepted_history_raises_the_score() {
    let mut comment = plain_comment("This exact body sits well over twenty characters.");
    comment.previously_accepted_for_email = Some(7);
    let result = process_comment(comment);
    assert_eq!(result.score, 11);
    assert_eq!(result.status, Status::Valid);
}

#[test]
fn zero_links_contribute_plus_two() {
    // +2 for fewer than two links, +2 for a long body without links.
    let result = process_comment(plain_comment(
        "these words make this body long enough to pass the length rule",
    ));
    assert_eq!(result.score, 4);
    assert_eq!(result.status, Status::Valid);
}

#[test]
fn one_link_contributes_plus_two() {
    // +2 for fewer than two links, +1 for a long body with a link; the link
    // itself is clean and weighs 0.
    let result = process_comment(plain_comment(
        "<p>these words make it long <a href=\"https://example.org\">x</a></p>",
    ));
    assert_eq!(result.score, 3);
    assert_eq!(result.status, Status::Valid);
}

#[test]
fn two_links_contribute_minus_two() {
    // -2 for two links, +1 for a long body with links.
    let result = process_comment(plain_comment(
        "<p>these words make it long <a href=\"https://example.org\">x</a> and <a href=\"https://example.org\">y</a></p>",
    ));
    assert_eq!(result.score, -1);
    assert_eq!(result.status, Status::Spam);
}

#[test]
fn five_links_contribute_minus_five() {
    // -5 for five links, +1 for a long body with links.
    let result = process_comment(plain_comment(
        "<p>these words make it long \
         <a href=\"https://example.org\">a</a> \
         <a href=\"https://example.org\">b</a> \
         <a href=\"https://example.org\">c</a> \
         <a href=\"https://example.org\">d</a> \
         <a href=\"https://example.org\">e</a></p>",
    ));
    assert_eq!(result.score, -4);
    assert_eq!(result.status, Status::Spam);
}

#[test]
fn short_body_costs_one() {
    // +2 for no links, -1 for a trimmed stripped length of 20 or less.
    let result = process_comment(plain_comment("<p>short text</p>"));
    assert_eq!(result.score, 1);
    assert_eq!(result.status, Status::Valid);
}

#[test]
fn empty_body_has_no_first_word() {
    // An empty (or all-whitespace, or all-tag) body has no first word, so
    // the first-word rule contributes nothing: +2 for no links, -1 for the
    // short body.
    let result = process_comment(plain_comment("  <p> \t </p>  "));
    assert_eq!(result.score, 1);
    assert_eq!(result.status, Status::Valid);

    let result = process_comment(plain_comment(""));
    assert_eq!(result.score, 1);
    assert_eq!(result.status, Status::Valid);
}

#[test]
fn first_word_denylist_costs_ten_each() {
    // First word "Interesting..." contains "interesting" → -10; long body,
    // no links → +4.
    let result = process_comment(plain_comment(
        "Interesting, though the rest of this body is perfectly ordinary text.",
    ));
    assert_eq!(result.score, -6);
    assert_eq!(result.status, Status::Spam);
}

#[test]
fn three_phrases_cost_three() {
    // "act now", "free gift" and "cash bonus" are all denylisted → -3;
    // +2 for no links, +2 for a long body.
    let result = process_comment(plain_comment(
        "Act now for a free gift and a cash bonus today okay",
    ));
    assert_eq!(result.score, 1);
    assert_eq!(result.status, Status::Valid);
}

#[test]
fn author_with_scheme_costs_two() {
    let mut comment = plain_comment("this body is long enough to gain the length points");
    comment.author = Some("see HTTPS://my.site for more".to_string());
    let result = process_comment(comment);
    assert_eq!(result.score, 2);

    let mut comment = plain_comment("this body is long enough to gain the length points");
    comment.author = Some("http://plain.example".to_string());
    let result = process_comment(comment);
    assert_eq!(result.score, 2);

    let mut comment = plain_comment("this body is long enough to gain the length points");
    comment.author = Some("Ordinary Name".to_string());
    let result = process_comment(comment);
    assert_eq!(result.score, 4);
}

#[test]
fn spam_tld_in_url_costs_one() {
    let mut comment = plain_comment("this body is long enough to gain the length points");
    comment.url = Some("http://x.cn".to_string());
    let result = process_comment(comment);
    assert_eq!(result.score, 3);
}

#[test]
fn long_url_costs_one() {
    // 38 characters, over the 30-character limit.
    let mut comment = plain_comment("this body is long enough to gain the length points");
    comment.url = Some("http://averyveryverylongdomainname.com".to_string());
    let result = process_comment(comment);
    assert_eq!(result.score, 3);
}

#[test]
fn consonant_run_in_url_costs_one() {
    let mut comment = plain_comment("this body is long enough to gain the length points");
    comment.url = Some("http://bcdfgh.com".to_string());
    let result = process_comment(comment);
    assert_eq!(result.score, 3);
}

#[test]
fn unparseable_url_contributes_nothing() {
    let mut comment = plain_comment("this body is long enough to gain the length points");
    comment.url = Some("not a url".to_string());
    let result = process_comment(comment);
    assert_eq!(result.score, 4);
}

#[test]
fn duplicate_history_matches_after_trim_and_case() {
    let mut comment = plain_comment("hello world this is a comment");
    comment.previous_comment_bodies = Some(vec![
        "  HELLO WORLD THIS IS A COMMENT  ".to_string(),
        "a different body".to_string(),
    ]);
    let result = process_comment(comment);
    // +2 links, +2 length, -1 matching prior body.
    assert_eq!(result.score, 3);
}

#[test]
fn check_order_does_not_change_the_score() {
    let make = || Comment {
        author: Some("https://elliotekj.com".to_string()),
        url: Some("http://someexample.com?getit=free".to_string()),
        body: String::from(
            "<p>Cool, a <a href=\"https://x.de\">link</a> and quite some more text</p>",
        ),
        previously_accepted_for_email: Some(4),
        previously_rejected_for_email: Some(1),
        previous_comment_bodies: Some(vec![
            "<p>Cool, a <a href=\"https://x.de\">link</a> and quite some more text</p>".to_string(),
        ]),
    };
    let reference = process_comment(make());

    let mut s = snooker::Snooker::new(make());
    s.check_author_for_http();
    s.count_emails_previous_statuses();
    s.check_url();
    s.check_body_of_previous_for_matches();
    s.check_body_first_word();
    s.check_body_for_spam_phrases();
    let n = s.check_body_links();
    s.check_body_length(n);
    assert_eq!(s.score, reference.score);
}

#[test]
fn evaluation_is_deterministic() {
    let make = || Comment {
        author: Some("https://elliotekj.com".to_string()),
        url: Some("http://someexample.com?getit=free".to_string()),
        body: String::from("<p>Cool, a <a href=\"https://x.de\">link</a> and some more text</p>"),
        previously_accepted_for_email: Some(2),
        previously_rejected_for_email: Some(3),
        previous_comment_bodies: Some(vec!["older".to_string()]),
    };
    let a = process_comment(make());
    let b = process_comment(make());
    assert_eq!(a.score, b.score);
    assert_eq!(a.status, b.status);
}
