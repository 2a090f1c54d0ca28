use rdap_storm::rdap::{availability_from_rdap, availability_from_status, rdap_url, RdapOutcome};
use rdap_storm::whois::{
    availability_from_whois, classify_whois_response, no_whois_server_reason, whois_query_line,
    whois_server_for, whois_tld, WhoisOutcome,
};
use rdap_storm::Availability;

fn unknown_reason(a: Availability) -> String {
    match a {
        Availability::Unknown { reason } => reason,
        other => panic!("expected Unknown, got {:?}", other),
    }
}

#[test]
fn availability_predicates() {
    assert!(Availability::Available.is_available());
    assert!(!Availability::Available.is_taken());
    assert!(!Availability::Available.is_unknown());
    assert!(Availability::Taken.is_taken());
    let u = Availability::Unknown { reason: "x".to_string() };
    assert!(u.is_unknown());
    assert!(!u.is_available());
}

#[test]
fn availability_equality_considers_reason() {
    let a = Availability::Unknown { reason: "a".to_string() };
    let b = Availability::Unknown { reason: "b".to_string() };
    let a2 = Availability::Unknown { reason: "a".to_string() };
    assert_ne!(a, b);
    assert_eq!(a, a2);
    assert_eq!(Availability::Available, Availability::Available);
    assert_ne!(Availability::Available, Availability::Taken);
}

#[test]
fn rdap_status_404_is_available() {
    assert_eq!(availability_from_status(404), Availability::Available);
}

#[test]
fn rdap_status_200_is_taken() {
    assert_eq!(availability_from_status(200), Availability::Taken);
}

#[test]
fn rdap_status_429_is_rate_limited() {
    let a = availability_from_status(429);
    assert_eq!(unknown_reason(a), "Rate limited");
}

#[test]
fn rdap_status_other_is_http_code() {
    assert_eq!(unknown_reason(availability_from_status(500)), "HTTP 500");
    assert_eq!(unknown_reason(availability_from_status(503)), "HTTP 503");
    assert_eq!(unknown_reason(availability_from_status(301)), "HTTP 301");
    assert_eq!(unknown_reason(availability_from_status(7)), "HTTP 7");
}

#[test]
fn rdap_timeout_is_timeout() {
    let a = availability_from_rdap(RdapOutcome::TimedOut);
    assert_eq!(unknown_reason(a), "Timeout");
}

#[test]
fn rdap_transport_error_reason() {
    let a = availability_from_rdap(RdapOutcome::TransportError("connection refused".to_string()));
    assert_eq!(unknown_reason(a), "Request failed: connection refused");
}

#[test]
fn rdap_url_shape() {
    assert_eq!(
        rdap_url("https://rdap.verisign.com/com/v1", "acme.com"),
        "https://rdap.verisign.com/com/v1/domain/acme.com"
    );
}

#[test]
fn whois_classify_no_match_is_available() {
    let a = classify_whois_response("No match for ACME.COM");
    assert_eq!(a, Availability::Available);
}

#[test]
fn whois_classify_is_case_insensitive() {
    assert_eq!(classify_whois_response("NOT FOUND"), Availability::Available);
    assert_eq!(classify_whois_response("no data found\r\n"), Availability::Available);
    assert_eq!(classify_whois_response("No Entries Found"), Availability::Available);
}

#[test]
fn whois_classify_record_is_taken() {
    let a = classify_whois_response("Domain Name: ACME.COM\nRegistrar: Example Inc.");
    assert_eq!(a, Availability::Taken);
}

#[test]
fn whois_classify_available_wins_over_taken() {
    let a = classify_whois_response("No match for domain name: acme.com");
    assert_eq!(a, Availability::Available);
}

#[test]
fn whois_classify_ambiguous() {
    let a = classify_whois_response("quota exceeded, try later");
    assert_eq!(unknown_reason(a), "Ambiguous WHOIS response");
}

#[test]
fn whois_server_table() {
    assert_eq!(whois_server_for("com"), Some("whois.verisign-grs.com"));
    assert_eq!(whois_server_for("net"), Some("whois.verisign-grs.com"));
    assert_eq!(whois_server_for("org"), Some("whois.pir.org"));
    assert_eq!(whois_server_for("io"), Some("whois.nic.io"));
    assert_eq!(whois_server_for("dev"), Some("whois.nic.google"));
    assert_eq!(whois_server_for("app"), Some("whois.nic.google"));
    assert_eq!(whois_server_for("ai"), Some("whois.nic.ai"));
    assert_eq!(whois_server_for("co"), Some("whois.nic.co"));
    assert_eq!(whois_server_for("me"), Some("whois.nic.me"));
    assert_eq!(whois_server_for("zzzzz"), None);
    assert_eq!(whois_server_for("COM"), None);
}

#[test]
fn whois_tld_takes_last_label_lowercased() {
    assert_eq!(whois_tld("acme.COM"), "com");
    assert_eq!(whois_tld("a.b.ORG"), "org");
    assert_eq!(whois_tld("nodot"), "nodot");
}

#[test]
fn whois_no_server_reason_text() {
    assert_eq!(no_whois_server_reason("zzzzz"), "No WHOIS server for .zzzzz");
}

#[test]
fn whois_outcome_errors() {
    let a = availability_from_whois(WhoisOutcome::IoError("broken pipe".to_string()));
    assert_eq!(unknown_reason(a), "WHOIS error: broken pipe");
    let b = availability_from_whois(WhoisOutcome::TimedOut);
    assert_eq!(unknown_reason(b), "WHOIS timeout");
}

#[test]
fn whois_query_line_has_crlf() {
    assert_eq!(whois_query_line("acme.com"), "acme.com\r\n");
}
