use fix_twitterlinks_bot::get_all_urls;
use fix_twitterlinks_bot::replace_all_urls;

#[test]
fn separate_url_from_text() {
    let message = "Check out this link: https://twitter.com/example";
    let urls = get_all_urls(message);
    assert_eq!(urls, vec!["https://twitter.com/example"]);
}

#[test]
fn separate_multiple_urls_from_text() {
    let message = "Check out these links: https://twitter.com/example https://x.com/test they\
    are so cool omg https://invalid-url.com so woah https://something.com//// know what I mean?";
    let urls = get_all_urls(message);
    assert_eq!(
        urls,
        vec!["https://twitter.com/example", "https://x.com/test"]
    );
}

#[test]
fn replace_twitter_urls() {
    let urls = vec!["https://twitter.com/example".to_string()];
    let modified_urls = replace_all_urls(urls);
    assert_eq!(modified_urls, "https://fxtwitter.com/example\n");
}

#[test]
fn replace_x_urls() {
    let urls = vec!["https://x.com/test".to_string()];
    let modified_urls = replace_all_urls(urls);
    assert_eq!(modified_urls, "https://fixvx.com/test\n");
}

#[test]
fn ignore_invalid_urls() {
    let urls = vec!["https://invalid-url.com".to_string()];
    let modified_urls = replace_all_urls(urls);
    assert_eq!(modified_urls, "");
}

#[test]
fn ignores_fx_urls() {
    let urls = "https://fxtwitter.com/example";
    let invalid_urls = get_all_urls(urls);
    let replaced_urls = replace_all_urls(invalid_urls);
    assert_eq!(replaced_urls, "");
}

#[test]
fn ignores_fixvx_urls() {
    let urls = "https://fixvx.com/example";
    let invalid_urls = get_all_urls(urls);
    let replaced_urls = replace_all_urls(invalid_urls);
    assert_eq!(replaced_urls, "");
}
