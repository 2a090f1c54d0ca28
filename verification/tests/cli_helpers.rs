use rdap_storm::query::{
    apply_config_to_tlds, get_builtin_tlds, get_default_config_toml, parse_domain_query,
    prioritize_tld, sort_tlds_with_priority, status_order, DomainStatus, FilterMode,
};

fn strings(v: &[&str]) -> Vec<String> {
    v.iter().map(|s| s.to_string()).collect()
}

#[test]
fn filter_mode_cycles() {
    assert_eq!(FilterMode::All.next(), FilterMode::Available);
    assert_eq!(FilterMode::Available.next(), FilterMode::Taken);
    assert_eq!(FilterMode::Taken.next(), FilterMode::All);
}

#[test]
fn status_order_ranks() {
    assert_eq!(status_order(&DomainStatus::Available), 0);
    assert_eq!(status_order(&DomainStatus::Checking), 1);
    assert_eq!(status_order(&DomainStatus::Pending), 2);
    assert_eq!(status_order(&DomainStatus::Taken), 3);
    assert_eq!(status_order(&DomainStatus::Error("x".to_string())), 4);
}

#[test]
fn parse_query_with_tld() {
    assert_eq!(parse_domain_query("acme.dev"), ("acme".to_string(), Some("dev".to_string())));
    assert_eq!(parse_domain_query("acme.DEV"), ("acme".to_string(), Some("dev".to_string())));
}

#[test]
fn parse_query_without_tld() {
    assert_eq!(parse_domain_query("acme"), ("acme".to_string(), None));
}

#[test]
fn parse_query_rejects_bad_tld_parts() {
    assert_eq!(parse_domain_query(".dev"), (".dev".to_string(), None));
    assert_eq!(parse_domain_query("acme."), ("acme.".to_string(), None));
    assert_eq!(parse_domain_query("acme.d3v"), ("acme.d3v".to_string(), None));
    let long = format!("acme.{}", "a".repeat(21));
    assert_eq!(parse_domain_query(&long), (long.clone(), None));
}

#[test]
fn prioritize_moves_first_match_to_front() {
    let tlds = strings(&["com", "net", "DEV", "org"]);
    assert_eq!(prioritize_tld(tlds, "dev"), strings(&["DEV", "com", "net", "org"]));
}

#[test]
fn prioritize_without_match_keeps_order() {
    let tlds = strings(&["com", "net"]);
    assert_eq!(prioritize_tld(tlds, "zz"), strings(&["com", "net"]));
}

#[test]
fn apply_config_removes_never_and_prepends_always() {
    let tlds = strings(&["com", "xxx", "net"]);
    let always = strings(&["dev", "ai"]);
    let never = strings(&["XXX"]);
    let out = apply_config_to_tlds(tlds, &always, &never);
    assert_eq!(out, strings(&["dev", "ai", "com", "net"]));
}

#[test]
fn apply_config_skips_already_present_always() {
    let tlds = strings(&["com", "net"]);
    let always = strings(&["COM", "dev"]);
    let never = Vec::new();
    let out = apply_config_to_tlds(tlds, &always, &never);
    assert_eq!(out, strings(&["dev", "com", "net"]));
}

#[test]
fn builtin_tlds_start_with_priorities() {
    let b = get_builtin_tlds();
    assert_eq!(b.len(), 27);
    assert_eq!(b[0], "com");
    assert_eq!(b[1], "net");
    assert_eq!(b[26], "solutions");
}

#[test]
fn sort_puts_priorities_first_then_alphabetical() {
    let tlds = strings(&["zebra", "net", "alpha", "com", "dev"]);
    let out = sort_tlds_with_priority(tlds);
    assert_eq!(out, strings(&["com", "net", "dev", "alpha", "zebra"]));
}

#[test]
fn sort_is_a_permutation() {
    let tlds = strings(&["b", "a", "b", "com"]);
    let out = sort_tlds_with_priority(tlds);
    assert_eq!(out, strings(&["com", "a", "b", "b"]));
}

#[test]
fn default_config_toml_text() {
    let t = get_default_config_toml();
    assert!(t.starts_with("# Domain Query (dq) Configuration\n"));
    assert!(t.contains("[tlds]"));
    assert!(t.contains("always = []"));
    assert!(t.contains("never = []"));
}
