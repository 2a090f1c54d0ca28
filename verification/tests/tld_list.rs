use rdap_storm::tlds::trim_ascii;
use rdap_storm::{expand_tlds, parse_tld_list, TldError};

#[test]
fn parse_drops_comments_blanks_and_punycode() {
    let body = "# Version 2025\nCOM\nNET\nXN--P1AI\n\nIO\n";
    let tlds = parse_tld_list(body);
    assert_eq!(tlds, vec!["com".to_string(), "net".to_string(), "io".to_string()]);
}

#[test]
fn parse_handles_crlf_lines() {
    let body = "COM\r\nORG\r\n";
    assert_eq!(parse_tld_list(body), vec!["com".to_string(), "org".to_string()]);
}

#[test]
fn parse_entries_are_clean() {
    let body = "# c\nCOM\n  \nxn--foo\nDev\nAPP";
    let tlds = parse_tld_list(body);
    assert_eq!(tlds, vec!["com".to_string(), "dev".to_string(), "app".to_string()]);
    for t in &tlds {
        assert!(!t.is_empty());
        assert!(!t.starts_with('#'));
        assert!(!t.starts_with("xn--"));
        assert_eq!(t, &t.to_lowercase());
    }
}

#[test]
fn parse_empty_body_gives_empty_list() {
    assert_eq!(parse_tld_list(""), Vec::<String>::new());
}

#[test]
fn trim_ascii_strips_blanks() {
    assert_eq!(trim_ascii("  com\r"), "com");
    assert_eq!(trim_ascii("\tnet "), "net");
    assert_eq!(trim_ascii("   "), "");
    assert_eq!(trim_ascii("org"), "org");
}

#[test]
fn expand_pairs_name_with_every_tld() {
    let tlds = vec!["com".to_string(), "net".to_string(), "org".to_string()];
    let domains = expand_tlds("acme", &tlds);
    assert_eq!(
        domains,
        vec!["acme.com".to_string(), "acme.net".to_string(), "acme.org".to_string()]
    );
}

#[test]
fn expand_empty_list_is_empty() {
    assert_eq!(expand_tlds("acme", &Vec::new()), Vec::<String>::new());
}

#[test]
fn tld_error_message() {
    let e = TldError::FetchError("dns failure".to_string());
    assert_eq!(e.message(), "Failed to fetch TLD list: dns failure");
    assert_eq!(e, TldError::FetchError("dns failure".to_string()));
}
