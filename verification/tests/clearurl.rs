use brztek::clearurl::{
    clear_url, cleaned_message, process_url, process_url_with_depth, CleanError, Entry, Provider, ProviderEntry,
};

fn provider(name: &str, pattern: &str) -> Provider {
    Provider {
        name: name.to_string(),
        url_pattern: pattern.to_string(),
        complete_provider: false,
        malformed: false,
        redirections: vec![],
        rules_malformed: false,
        rules: vec![],
        raw_rules: vec![],
    }
}

fn providers() -> Vec<Provider> {
    let mut twitter = provider("twitter", "^https?:\\/\\/(?:[a-z0-9-]+\\.)*?twitter.com");
    twitter.rules = vec!["(?:ref_?)?src".to_string(), "^s$".to_string(), "^t$".to_string()];
    let mut ads = provider("doubleclick", "^https?://(?:[a-z0-9-]+[.])*?doubleclick[.]net");
    ads.complete_provider = true;
    let mut redirect = provider("redirector", "^https?://r[.]example/go/");
    redirect.redirections = vec![Some("^https?://r[.]example/go/(https?://.*)$".to_string())];
    let mut amazon = provider("amazon", "^https?://(?:[a-z0-9-]+[.])*?amazon[.]com");
    amazon.rules = vec!["^tag$".to_string()];
    amazon.raw_rules = vec!["\\/ref=[^\\/?]*".to_string()];
    vec![twitter, ads, redirect, amazon]
}

#[test]
fn query_parameters_matching_a_rule_are_removed() {
    let url = "https://twitter.com/CiloRanko/status/1478401918792011776?s=20&t=AVPOmNLtaozrA0Ccp6DyAw";
    assert_eq!(process_url(url, &providers()).unwrap(), "https://twitter.com/CiloRanko/status/1478401918792011776");
    let kept = "https://twitter.com/a?lang=fr&s=1";
    assert_eq!(process_url(kept, &providers()).unwrap(), "https://twitter.com/a?lang=fr");
}

#[test]
fn rule_keys_are_compared_in_lower_case() {
    let url = "https://twitter.com/a?S=1&REF_SRC=2&x=3";
    assert_eq!(process_url(url, &providers()).unwrap(), "https://twitter.com/a?x=3");
}

#[test]
fn a_complete_provider_blocks_the_url() {
    assert_eq!(process_url("https://ad.doubleclick.net/x?y=1", &providers()).unwrap(), "");
}

#[test]
fn redirections_are_followed_and_cleaned() {
    let url = "https://r.example/go/https://twitter.com/b?s=3/";
    assert_eq!(process_url(url, &providers()).unwrap(), "https://twitter.com/b");
}

#[test]
fn raw_rules_remove_their_first_match() {
    let url = "https://www.amazon.com/dp/B0/ref=sr_1_1?keywords=x&tag=abc";
    assert_eq!(process_url(url, &providers()).unwrap(), "https://www.amazon.com/dp/B0?keywords=x");
}

#[test]
fn other_urls_only_lose_trailing_marks() {
    assert_eq!(process_url("https://example.org/a/?", &providers()).unwrap(), "https://example.org/a");
    assert_eq!(process_url("https://example.org/a?/", &providers()).unwrap(), "https://example.org/a?");
    assert_eq!(process_url("https://example.org/a", &vec![]).unwrap(), "https://example.org/a");
}

#[test]
fn invalid_patterns_and_urls_are_errors() {
    let bad = vec![provider("bad", "(")];
    assert!(matches!(process_url("https://x", &bad), Err(CleanError::InvalidPattern(p)) if p == "("));
    let any = vec![provider("any", "^not")];
    assert!(matches!(process_url("not a url", &any), Err(CleanError::InvalidUrl(u)) if u == "not a url"));
    let mut broken = provider("broken", "^https");
    broken.rules = vec!["(".to_string()];
    assert!(matches!(process_url("https://x.org", &vec![broken]), Err(CleanError::MalformedRules)));
    let mut groupless = provider("groupless", "^https");
    groupless.redirections = vec![Some("^https://x[.]org".to_string())];
    assert!(matches!(process_url("https://x.org", &vec![groupless]), Err(CleanError::MalformedRules)));
    let mut bad_redirection = provider("bad_redirection", "^https");
    bad_redirection.redirections = vec![Some("(".to_string())];
    assert!(matches!(process_url("https://x.org", &vec![bad_redirection]), Err(CleanError::InvalidPattern(p)) if p == "("));
}

#[test]
fn a_malformed_provider_fails_only_on_urls_it_matches() {
    let mut broken = provider("broken", "^https://broken[.]example/");
    broken.malformed = true;
    let ps = vec![broken];
    assert!(matches!(process_url("https://broken.example/a", &ps), Err(CleanError::MalformedRules)));
    assert_eq!(process_url("https://fine.example/a", &ps).unwrap(), "https://fine.example/a");
}

#[test]
fn a_complete_provider_blocks_whatever_else_it_holds() {
    let mut blocker = provider("blocker", "^https://ads[.]example/");
    blocker.complete_provider = true;
    blocker.malformed = true;
    blocker.rules_malformed = true;
    assert_eq!(process_url("https://ads.example/x", &vec![blocker]).unwrap(), "");
}

#[test]
fn malformed_rules_come_after_the_url_is_parsed() {
    let mut broken = provider("broken", "^not");
    broken.rules_malformed = true;
    let ps = vec![broken];
    assert!(matches!(process_url("not a url", &ps), Err(CleanError::InvalidUrl(u)) if u == "not a url"));
    assert!(matches!(process_url("not://a.url", &ps), Err(CleanError::MalformedRules)));
}

#[test]
fn a_redirection_that_is_not_a_string_fails_when_reached() {
    let mut redirect = provider("r", "^https://r[.]example/");
    redirect.redirections = vec![Some("(".to_string()), None];
    let ps = vec![redirect];
    assert!(matches!(process_url("https://r.example/a", &ps), Err(CleanError::InvalidPattern(p)) if p == "("));
    let mut later = provider("r", "^https://r[.]example/");
    later.redirections = vec![Some("^https://r[.]example/go/(.+)$".to_string()), None];
    assert!(matches!(process_url("https://r.example/a", &vec![later]), Err(CleanError::MalformedRules)));
}

fn strings(items: &[&str]) -> Entry<Vec<Option<String>>> {
    Entry::Present(items.iter().map(|s| Some(s.to_string())).collect())
}

#[test]
fn providers_come_from_rules_file_entries() {
    let p = Provider::from_entry(ProviderEntry {
        name: "shop".to_string(),
        url_pattern: "^https://shop".to_string(),
        complete_provider: Entry::Absent,
        redirections: strings(&["^https://shop/r/(.*)$"]),
        rules: strings(&["utm_source", "ref"]),
        referral_marketing: strings(&["tag"]),
        raw_rules: Entry::Absent,
    });
    assert_eq!(p.name, "shop");
    assert!(!p.complete_provider && !p.malformed && !p.rules_malformed);
    assert_eq!(p.redirections, vec![Some("^https://shop/r/(.*)$".to_string())]);
    assert_eq!(p.rules, vec!["utm_source".to_string(), "ref".to_string(), "tag".to_string()]);
    assert!(p.raw_rules.is_empty());

    let q = Provider::from_entry(ProviderEntry {
        name: "odd".to_string(),
        url_pattern: "^https://odd".to_string(),
        complete_provider: Entry::WrongKind,
        redirections: Entry::Absent,
        rules: Entry::Present(vec![Some("a".to_string()), None]),
        referral_marketing: Entry::Absent,
        raw_rules: Entry::WrongKind,
    });
    assert!(!q.complete_provider && q.malformed && q.rules_malformed);
    assert_eq!(q.rules, vec!["a".to_string()]);

    let r = Provider::from_entry(ProviderEntry {
        name: "ads".to_string(),
        url_pattern: "^https://ads".to_string(),
        complete_provider: Entry::Present(true),
        redirections: Entry::WrongKind,
        rules: Entry::Absent,
        referral_marketing: Entry::Absent,
        raw_rules: Entry::Absent,
    });
    assert!(r.complete_provider && r.malformed && !r.rules_malformed);
    assert_eq!(process_url("https://ads.example", &vec![r]).unwrap(), "");
}

#[test]
fn a_redirection_gives_its_capture_group() {
    let mut redirect = provider("r", "^https://r.example/");
    redirect.redirections = vec![Some("^https://r.example/go/(https://.+)$".to_string())];
    let url = "https://r.example/go/https://dest.example/x";
    assert_eq!(process_url(url, &vec![redirect]).unwrap(), "https://dest.example/x");
}

#[test]
fn escaped_patterns_lose_their_backslashes() {
    let mut redirect = provider("r", "^https:\\/\\/r\\.example\\/");
    redirect.redirections = vec![Some("^https:\\/\\/r\\.example\\/go\\/(https:\\/\\/.+)$".to_string())];
    let url = "https://r.example/go/https://dest.example/x";
    assert_eq!(process_url(url, &vec![redirect]).unwrap(), "https://dest.example/x");
}

#[test]
fn redirection_depth_is_bounded() {
    let mut looping = provider("loop", "^https://l[.]example/");
    looping.redirections = vec![Some("^(https://l[.]example/.*)$".to_string())];
    let ps = vec![looping];
    assert!(matches!(process_url_with_depth("https://l.example/a", &ps, 3), Err(CleanError::TooManyRedirects)));
}

#[test]
fn clear_url_reports_only_changes() {
    let ps = providers();
    assert_eq!(clear_url("https://twitter.com/a?s=1", &ps).unwrap(), Some("https://twitter.com/a".to_string()));
    assert_eq!(clear_url("https://example.org/a", &ps).unwrap(), None);
    assert_eq!(cleaned_message("https://x"), "Cleaned that shit for you\nhttps://x");
}
