use rdap_storm::endpoint::{strip_trailing_slashes, RdapService};
use rdap_storm::{extract_tld, EndpointError, EndpointRegistry};

fn service(tlds: &[&str], urls: &[&str]) -> RdapService {
    RdapService {
        tlds: tlds.iter().map(|t| t.to_string()).collect(),
        urls: urls.iter().map(|u| u.to_string()).collect(),
    }
}

#[test]
fn extract_tld_multi_label() {
    assert_eq!(extract_tld("a.b.c"), Ok("c".to_string()));
}

#[test]
fn extract_tld_no_dot_is_invalid() {
    assert_eq!(extract_tld("x"), Err(EndpointError::InvalidDomain("x".to_string())));
}

#[test]
fn extract_tld_empty_label_is_invalid() {
    assert_eq!(extract_tld("x."), Err(EndpointError::InvalidDomain("x.".to_string())));
}

#[test]
fn extract_tld_empty_is_invalid() {
    assert!(extract_tld("").is_err());
}

#[test]
fn extract_tld_lowercases() {
    assert_eq!(extract_tld("ACME.COM"), Ok("com".to_string()));
}

#[test]
fn endpoint_error_messages() {
    assert_eq!(
        EndpointError::FetchError("boom".to_string()).message(),
        "Failed to fetch IANA bootstrap: boom"
    );
    assert_eq!(
        EndpointError::NoEndpoint("zz".to_string()).message(),
        "No RDAP endpoint found for TLD: zz"
    );
    assert_eq!(
        EndpointError::InvalidDomain("x".to_string()).message(),
        "Invalid domain format: x"
    );
}

#[test]
fn strip_trailing_slashes_all() {
    assert_eq!(strip_trailing_slashes("https://r.example/"), "https://r.example");
    assert_eq!(strip_trailing_slashes("https://r.example///"), "https://r.example");
    assert_eq!(strip_trailing_slashes("https://r.example"), "https://r.example");
    assert_eq!(strip_trailing_slashes(""), "");
}

#[test]
fn registry_starts_empty() {
    let reg = EndpointRegistry::new();
    assert!(!reg.is_bootstrapped());
    assert_eq!(reg.get_endpoint("com"), None);
    let d = EndpointRegistry::default();
    assert!(!d.is_bootstrapped());
    assert_eq!(d.get_endpoint("com"), None);
}

#[test]
fn registry_populates_from_services() {
    let mut reg = EndpointRegistry::new();
    let services = vec![
        service(&["COM", "net"], &["https://rdap.verisign.com/com/v1/", "https://alt.example/"]),
        service(&["org"], &["https://rdap.pir.org/"]),
    ];
    reg.bootstrap_services(&services);
    assert!(reg.is_bootstrapped());
    assert_eq!(reg.get_endpoint("com"), Some("https://rdap.verisign.com/com/v1".to_string()));
    assert_eq!(reg.get_endpoint("net"), Some("https://rdap.verisign.com/com/v1".to_string()));
    assert_eq!(reg.get_endpoint("org"), Some("https://rdap.pir.org".to_string()));
    assert_eq!(reg.get_endpoint("zz"), None);
}

#[test]
fn registry_lookup_is_case_insensitive() {
    let mut reg = EndpointRegistry::new();
    reg.bootstrap_services(&vec![service(&["CoM"], &["https://rdap.example"])]);
    assert_eq!(reg.get_endpoint("COM"), reg.get_endpoint("com"));
    assert_eq!(reg.get_endpoint("CoM"), Some("https://rdap.example".to_string()));
}

#[test]
fn registry_later_service_overwrites() {
    let mut reg = EndpointRegistry::new();
    let services = vec![
        service(&["com"], &["https://old.example"]),
        service(&["com"], &["https://new.example"]),
    ];
    reg.bootstrap_services(&services);
    assert_eq!(reg.get_endpoint("com"), Some("https://new.example".to_string()));
}

#[test]
fn registry_service_without_urls_is_skipped() {
    let mut reg = EndpointRegistry::new();
    reg.bootstrap_services(&vec![service(&["com"], &[])]);
    assert_eq!(reg.get_endpoint("com"), None);
    assert!(reg.is_bootstrapped());
}

#[test]
fn registry_second_bootstrap_is_a_no_op() {
    let mut reg = EndpointRegistry::new();
    reg.bootstrap_services(&vec![service(&["com"], &["https://first.example"])]);
    reg.bootstrap_services(&vec![service(&["com"], &["https://second.example"])]);
    assert_eq!(reg.get_endpoint("com"), Some("https://first.example".to_string()));
    assert!(reg.is_bootstrapped());
}
