use mail_forge::config::WebhookConfig;
use mail_forge::router::get_webhook_for_recipient;

fn entry(url: &str, key: &str) -> WebhookConfig {
    WebhookConfig { url: String::from(url), api_key: String::from(key) }
}

fn table() -> Vec<(String, WebhookConfig)> {
    vec![
        (String::from("known@served.tld"), entry("https://hook.example/exact", "k1")),
        (String::from("*@served.tld"), entry("https://hook.example/wild", "k2")),
        (String::from("*@example.com"), entry("https://hook.example/ex", "k3")),
    ]
}

#[test]
fn test_exact_match_resolves() {
    let t = table();
    let w = get_webhook_for_recipient("known@served.tld", &t).unwrap();
    assert_eq!(w.url, "https://hook.example/exact");
    assert_eq!(w.api_key, "k1");
}

#[test]
fn test_exact_match_wins_over_wildcard() {
    // known@served.tld also ends in served.tld, but the exact entry wins.
    let t = table();
    let w = get_webhook_for_recipient("known@served.tld", &t).unwrap();
    assert_eq!(w.url, "https://hook.example/exact");
}

#[test]
fn test_wildcard_match_resolves() {
    let t = table();
    let w = get_webhook_for_recipient("anyone@served.tld", &t).unwrap();
    assert_eq!(w.url, "https://hook.example/wild");
}

#[test]
fn test_unknown_recipient_does_not_resolve() {
    let t = table();
    assert!(get_webhook_for_recipient("stranger@other", &t).is_none());
}

#[test]
fn test_wildcard_is_a_plain_suffix_match() {
    // The domain is compared as a byte suffix, not at an @ boundary:
    // x@notexample.com ends in "example.com" and therefore matches.
    let t = table();
    let w = get_webhook_for_recipient("x@notexample.com", &t).unwrap();
    assert_eq!(w.url, "https://hook.example/ex");
}

#[test]
fn test_exact_match_is_case_sensitive() {
    let t = vec![(String::from("known@served.tld"), entry("https://hook.example/exact", "k1"))];
    assert!(get_webhook_for_recipient("Known@served.tld", &t).is_none());
}

#[test]
fn test_empty_table_resolves_nothing() {
    let t: Vec<(String, WebhookConfig)> = Vec::new();
    assert!(get_webhook_for_recipient("a@b", &t).is_none());
}
