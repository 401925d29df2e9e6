use fix_twitterlinks_bot::get_all_urls;
use fix_twitterlinks_bot::pipeline::retain_reachable;
use fix_twitterlinks_bot::pipeline::should_process;
use fix_twitterlinks_bot::pipeline::should_send;
use fix_twitterlinks_bot::replace_all_urls;

#[test]
fn link_in_text_is_rewritten() {
    let message = "Check out this link: https://twitter.com/example";
    let block = replace_all_urls(get_all_urls(message));
    assert_eq!(block, "https://fxtwitter.com/example\n");
}

#[test]
fn two_recognized_urls_among_others() {
    let message = "https://twitter.com/example and https://x.com/test \
        but not https://invalid-url.com nor https://something.com////";
    let urls = get_all_urls(message);
    assert_eq!(urls, vec!["https://twitter.com/example", "https://x.com/test"]);
    let block = replace_all_urls(urls);
    assert_eq!(block, "https://fxtwitter.com/example\nhttps://fixvx.com/test\n");
}

#[test]
fn no_recognized_substring_no_urls() {
    let message = "hello world https://example.com nothing to see";
    assert_eq!(get_all_urls(message), Vec::<String>::new());
}

#[test]
fn empty_message_extracts_nothing() {
    assert_eq!(get_all_urls(""), Vec::<String>::new());
    assert_eq!(replace_all_urls(Vec::new()), "");
}

#[test]
fn whole_message_single_token() {
    let urls = get_all_urls("https://x.com/abc");
    assert_eq!(urls, vec!["https://x.com/abc"]);
}

#[test]
fn trailing_punctuation_kept() {
    let message = "look https://twitter.com/a, now";
    let urls = get_all_urls(message);
    assert_eq!(urls, vec!["https://twitter.com/a,"]);
    assert_eq!(replace_all_urls(urls), "https://fxtwitter.com/a,\n");
}

#[test]
fn twitter_rule_takes_priority() {
    let urls = vec!["https://x.com/twitter.com".to_string()];
    assert_eq!(replace_all_urls(urls), "https://x.com/fxtwitter.com\n");
}

#[test]
fn every_occurrence_is_replaced() {
    let urls = vec!["https://twitter.com/twitter.com".to_string()];
    assert_eq!(replace_all_urls(urls), "https://fxtwitter.com/fxtwitter.com\n");
}

#[test]
fn substring_match_is_not_host_aware() {
    let message = "https://foo.x.com.evil.net xyz.comedy";
    assert_eq!(get_all_urls(message), vec!["https://foo.x.com.evil.net"]);
}

#[test]
fn already_rewritten_links_ignored() {
    assert_eq!(get_all_urls("https://fxtwitter.com/example"), Vec::<String>::new());
    assert_eq!(get_all_urls("https://fixvx.com/example"), Vec::<String>::new());
    assert_eq!(get_all_urls("see https://fxtwitter.com/a and https://twitter.com/b"), vec![
        "https://twitter.com/b"
    ]);
}

#[test]
fn duplicate_links_kept() {
    let message = "https://x.com/a https://x.com/a";
    let urls = get_all_urls(message);
    assert_eq!(urls, vec!["https://x.com/a", "https://x.com/a"]);
    assert_eq!(replace_all_urls(urls), "https://fixvx.com/a\nhttps://fixvx.com/a\n");
}

#[test]
fn rerunning_pipeline_is_stable() {
    let message = "mixed https://twitter.com/one text https://x.com/two here";
    let first = replace_all_urls(get_all_urls(message));
    let second = replace_all_urls(get_all_urls(message));
    assert_eq!(first, second);
}

#[test]
fn prefilter_skips_bots_and_plain_text() {
    assert!(!should_process("https://twitter.com/example", true));
    assert!(!should_process("twitter.com without scheme", false));
    assert!(!should_process("https://example.com only", false));
    assert!(should_process("https://twitter.com/example", false));
    assert!(should_process("see https://x.com/thing", false));
}

#[test]
fn reachability_filter_keeps_order() {
    let urls = vec![
        "https://twitter.com/a".to_string(),
        "https://x.com/b".to_string(),
        "https://twitter.com/c".to_string(),
    ];
    let keep = vec![true, false, true];
    let kept = retain_reachable(&urls, &keep);
    assert_eq!(kept, vec!["https://twitter.com/a", "https://twitter.com/c"]);
}

#[test]
fn all_unreachable_yields_empty_block() {
    let urls = get_all_urls("https://twitter.com/a https://x.com/b");
    let keep = vec![false; urls.len()];
    let kept = retain_reachable(&urls, &keep);
    let block = replace_all_urls(kept);
    assert_eq!(block, "");
    assert!(!should_send(&block));
}

#[test]
fn nonempty_block_is_sent() {
    let block = replace_all_urls(get_all_urls("https://x.com/post"));
    assert!(should_send(&block));
}
