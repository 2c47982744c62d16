use arka::autofill::{filter_for_origin, host_matches, lowered_host_matches, needles_of_key};
use arka::vault::DecryptedPasswordEntry;

fn entry(title: &str, username: &str, website_url: &str) -> DecryptedPasswordEntry {
    DecryptedPasswordEntry {
        id: 1,
        title: title.into(),
        username: username.into(),
        category: String::new(),
        password: "secret".into(),
        website_url: website_url.into(),
        note: String::new(),
        created_at: 1,
        updated_at: 1,
    }
}

#[test]
fn matches_package_segment() {
    let entries = vec![entry("Twitter", "user@x.com", "")];
    let matched = filter_for_origin(entries, "com.twitter.android");
    assert_eq!(matched.len(), 1);
}

#[test]
fn matches_web_host_via_website_url() {
    let entries = vec![entry("Proton", "dev", "account.proton.me")];
    let matched = filter_for_origin(entries, "account.proton.me");
    assert_eq!(matched.len(), 1);
}

#[test]
fn matches_web_host_subdomain() {
    let entries = vec![entry("Proton", "dev", "proton.me")];
    let matched = filter_for_origin(entries, "account.proton.me");
    assert_eq!(matched.len(), 1);
}

#[test]
fn matches_legacy_title_host() {
    let entries = vec![entry("github.com", "dev", "")];
    let matched = filter_for_origin(entries, "github.com");
    assert_eq!(matched.len(), 1);
}

#[test]
fn browser_fallback_returns_web_credentials() {
    let entries = vec![
        entry("Bank", "user", ""),
        entry("Proton", "dev", "account.proton.me"),
    ];
    let matched = filter_for_origin(entries, "com.android.chrome");
    assert_eq!(matched.len(), 1);
    assert_eq!(matched[0].website_url, "account.proton.me");
}

#[test]
fn empty_title_does_not_match_package_needle() {
    let entries = vec![entry("", "user@x.com", "")];
    let matched = filter_for_origin(entries, "com.twitter.android");
    assert!(matched.is_empty());
}

#[test]
fn phishing_domain_does_not_match_legitimate_host() {
    assert!(!host_matches("amazon.com", "evil-amazon.com"));
    assert!(!host_matches("amazon", "evil-amazon.com"));
}

#[test]
fn legitimate_subdomain_and_parent_matches() {
    assert!(host_matches("account.proton.me", "proton.me"));
    assert!(host_matches("amazon.com", "login.amazon.com"));
}

#[test]
fn blank_origin_keeps_every_entry() {
    let entries = vec![entry("A", "a", ""), entry("B", "b", "b.com")];
    let matched = filter_for_origin(entries.clone(), "   ");
    assert_eq!(matched, entries);
}

#[test]
fn host_normalisation_strips_scheme_path_port_and_www() {
    assert!(host_matches("https://www.example.com/login", "example.com:443"));
    assert!(host_matches("HTTP://Example.COM", " www.example.com "));
    assert!(!host_matches("", "example.com"));
    assert!(!host_matches("example.com", "https://"));
}

#[test]
fn single_label_matches_whole_part_only() {
    assert!(host_matches("amazon", "www.amazon.co.uk"));
    assert!(!host_matches("amaz", "amazon.com"));
}

#[test]
fn generic_package_segments_are_ignored() {
    let entries = vec![entry("Android settings", "x", "")];
    let matched = filter_for_origin(entries, "com.example.android");
    assert!(matched.is_empty());
}

#[test]
fn matching_keeps_order_and_drops_others() {
    let entries = vec![
        entry("Proton Mail", "a", ""),
        entry("Bank", "b", ""),
        entry("Other", "proton-user", ""),
    ];
    let matched = filter_for_origin(entries, "ch.protonmail.android");
    assert_eq!(matched.len(), 0);
    let entries = vec![
        entry("Proton Mail", "a", ""),
        entry("Bank", "b", ""),
        entry("Other", "me@protonmail", ""),
    ];
    let matched = filter_for_origin(entries, "ch.protonmail.android");
    assert_eq!(matched.len(), 1);
    assert_eq!(matched[0].title, "Other");
}

#[test]
fn web_origin_with_www_matches_bare_host() {
    let entries = vec![entry("Site", "u", "github.com"), entry("x", "y", "gitlab.com")];
    let matched = filter_for_origin(entries, "www.github.com");
    assert_eq!(matched.len(), 1);
    assert_eq!(matched[0].website_url, "github.com");
}

#[test]
fn non_browser_without_match_returns_nothing() {
    let entries = vec![entry("Proton", "dev", "account.proton.me")];
    let matched = filter_for_origin(entries, "com.unknown.app");
    assert!(matched.is_empty());
}

#[test]
fn uppercase_origin_and_title_match() {
    let entries = vec![entry("TWITTER", "u", "")];
    let matched = filter_for_origin(entries, "  COM.Twitter.Android ");
    assert_eq!(matched.len(), 1);
}

fn chars(s: &str) -> Vec<char> {
    s.chars().collect()
}

fn needle_strings(key: &str) -> Vec<String> {
    needles_of_key(&chars(key)).into_iter().map(|n| n.into_iter().collect()).collect()
}

#[test]
fn package_key_needles_skip_generic_segments() {
    assert_eq!(needle_strings("com.twitter.android"), vec!["com.twitter.android", "twitter"]);
    assert_eq!(needle_strings("ch.protonmail.app"), vec!["ch.protonmail.app", "protonmail"]);
    assert!(needles_of_key(&chars("")).is_empty());
    // Sorted and without duplicates, as `str`'s order ranks them.
    assert_eq!(needle_strings("twitter.twitter.app"), vec!["twitter", "twitter.twitter.app"]);
    assert_eq!(needle_strings("zeta.alpha.mid"), vec!["alpha", "mid", "zeta", "zeta.alpha.mid"]);
}

#[test]
fn host_key_needles_drop_www() {
    // A dotted key without `/` reads as a package name, so its segments are needles.
    assert_eq!(needle_strings("www.github.com"), vec!["github", "www", "www.github.com"]);
    assert_eq!(needle_strings("www.github.com/login"), vec!["github.com/login", "www.github.com/login"]);
    assert_eq!(needle_strings("example.com/login"), vec!["example.com/login"]);
    assert_eq!(needle_strings("localhost"), vec!["localhost"]);
}

#[test]
fn lowered_hosts_compare_host_parts() {
    assert!(lowered_host_matches("proton.me", "https://account.proton.me/login"));
    assert!(lowered_host_matches("account.proton.me", "proton.me:443"));
    assert!(!lowered_host_matches("amazon.com", "evil-amazon.com"));
    assert!(lowered_host_matches("amazon", "www.amazon.com"));
    assert!(!lowered_host_matches("amazon", "evil-amazon.com"));
    assert!(!lowered_host_matches("", "amazon.com"));
    // Not lowercased here: case differences are not folded.
    assert!(!lowered_host_matches("Amazon.com", "amazon.com"));
    assert!(host_matches("Amazon.com", "amazon.com"));
}
