use rdap_storm::endpoint::RdapService;
use rdap_storm::prober::stream_window;
use rdap_storm::{
    probe_start, probe_step, Availability, EndpointRegistry, ProbeConfig, ProbeEvent, ProbeStep,
    RdapOutcome, WhoisOutcome,
};

fn config(fallback: bool) -> ProbeConfig {
    ProbeConfig { whois_fallback: fallback, ..ProbeConfig::default() }
}

fn registry_with_com() -> EndpointRegistry {
    let mut reg = EndpointRegistry::new();
    reg.bootstrap_services(&vec![RdapService {
        tlds: vec!["com".to_string()],
        urls: vec!["https://rdap.verisign.com/com/v1".to_string()],
    }]);
    reg
}

fn done_reason(step: ProbeStep) -> String {
    match step {
        ProbeStep::Done { availability: Availability::Unknown { reason } } => reason,
        other => panic!("expected Done/Unknown, got {:?}", other),
    }
}

#[test]
fn config_defaults() {
    let c = ProbeConfig::default();
    assert_eq!(c.timeout_ms, 5000);
    assert!(c.whois_fallback);
    assert_eq!(c.max_rate_per_endpoint, 20);
    assert_eq!(c.max_concurrent_per_endpoint, 10);
}

#[test]
fn probe_starts_with_bootstrap() {
    assert!(matches!(probe_start(), ProbeStep::NeedBootstrap));
}

#[test]
fn bootstrap_failure_finishes_probe() {
    let reg = EndpointRegistry::new();
    let next = probe_step(
        probe_start(),
        ProbeEvent::BootstrapFailed { message: "Failed to fetch IANA bootstrap: boom".to_string() },
        &reg,
        &config(true),
        "acme.com",
    );
    assert_eq!(done_reason(next), "Bootstrap failed: Failed to fetch IANA bootstrap: boom");
}

#[test]
fn invalid_domain_finishes_probe() {
    let reg = registry_with_com();
    let next = probe_step(probe_start(), ProbeEvent::BootstrapOk, &reg, &config(true), "x");
    assert_eq!(done_reason(next), "Invalid domain format: x");
}

#[test]
fn endpoint_hit_moves_to_rdap() {
    let reg = registry_with_com();
    let next = probe_step(probe_start(), ProbeEvent::BootstrapOk, &reg, &config(true), "acme.com");
    match next {
        ProbeStep::NeedRdap { endpoint } => {
            assert_eq!(endpoint, "https://rdap.verisign.com/com/v1");
        },
        other => panic!("expected NeedRdap, got {:?}", other),
    }
}

#[test]
fn endpoint_miss_without_fallback_finishes() {
    let reg = registry_with_com();
    let next = probe_step(
        probe_start(),
        ProbeEvent::BootstrapOk,
        &reg,
        &config(false),
        "acme.zzzzz",
    );
    assert_eq!(done_reason(next), "No RDAP endpoint for .zzzzz");
}

#[test]
fn endpoint_miss_with_fallback_consults_whois() {
    let mut reg = EndpointRegistry::new();
    reg.bootstrap_services(&Vec::new());
    let next = probe_step(probe_start(), ProbeEvent::BootstrapOk, &reg, &config(true), "acme.com");
    match next {
        ProbeStep::NeedWhois { server } => assert_eq!(server, "whois.verisign-grs.com"),
        other => panic!("expected NeedWhois, got {:?}", other),
    }
}

#[test]
fn endpoint_miss_with_fallback_but_no_whois_server() {
    let mut reg = EndpointRegistry::new();
    reg.bootstrap_services(&Vec::new());
    let next = probe_step(
        probe_start(),
        ProbeEvent::BootstrapOk,
        &reg,
        &config(true),
        "acme.zzzzz",
    );
    assert_eq!(done_reason(next), "No WHOIS server for .zzzzz");
}

#[test]
fn rdap_404_finishes_available() {
    let reg = registry_with_com();
    let step = ProbeStep::NeedRdap { endpoint: "https://rdap.example".to_string() };
    let next = probe_step(
        step,
        ProbeEvent::RdapDone { outcome: RdapOutcome::Status(404) },
        &reg,
        &config(true),
        "acme.com",
    );
    assert!(matches!(next, ProbeStep::Done { availability: Availability::Available }));
}

#[test]
fn rdap_200_finishes_taken() {
    let reg = registry_with_com();
    let step = ProbeStep::NeedRdap { endpoint: "https://rdap.example".to_string() };
    let next = probe_step(
        step,
        ProbeEvent::RdapDone { outcome: RdapOutcome::Status(200) },
        &reg,
        &config(true),
        "acme.com",
    );
    assert!(matches!(next, ProbeStep::Done { availability: Availability::Taken }));
}

#[test]
fn rdap_500_without_fallback_reports_http_500() {
    let reg = registry_with_com();
    let step = ProbeStep::NeedRdap { endpoint: "https://rdap.example".to_string() };
    let next = probe_step(
        step,
        ProbeEvent::RdapDone { outcome: RdapOutcome::Status(500) },
        &reg,
        &config(false),
        "acme.com",
    );
    assert_eq!(done_reason(next), "HTTP 500");
}

#[test]
fn rdap_500_with_fallback_then_whois_no_match_is_available() {
    let reg = registry_with_com();
    let step = ProbeStep::NeedRdap { endpoint: "https://rdap.example".to_string() };
    let mid = probe_step(
        step,
        ProbeEvent::RdapDone { outcome: RdapOutcome::Status(500) },
        &reg,
        &config(true),
        "acme.com",
    );
    let server = match &mid {
        ProbeStep::NeedWhois { server } => server.clone(),
        other => panic!("expected NeedWhois, got {:?}", other),
    };
    assert_eq!(server, "whois.verisign-grs.com");
    let next = probe_step(
        mid,
        ProbeEvent::WhoisDone {
            outcome: WhoisOutcome::Response("No match for ACME.COM".to_string()),
        },
        &reg,
        &config(true),
        "acme.com",
    );
    assert!(matches!(next, ProbeStep::Done { availability: Availability::Available }));
}

#[test]
fn rdap_429_without_fallback_reports_rate_limited() {
    let reg = registry_with_com();
    let step = ProbeStep::NeedRdap { endpoint: "https://rdap.example".to_string() };
    let next = probe_step(
        step,
        ProbeEvent::RdapDone { outcome: RdapOutcome::Status(429) },
        &reg,
        &config(false),
        "acme.com",
    );
    assert_eq!(done_reason(next), "Rate limited");
}

#[test]
fn rdap_timeout_without_fallback_reports_timeout() {
    let reg = registry_with_com();
    let step = ProbeStep::NeedRdap { endpoint: "https://rdap.example".to_string() };
    let next = probe_step(
        step,
        ProbeEvent::RdapDone { outcome: RdapOutcome::TimedOut },
        &reg,
        &config(false),
        "acme.com",
    );
    assert_eq!(done_reason(next), "Timeout");
}

#[test]
fn whois_ambiguous_response_finishes_unknown() {
    let reg = registry_with_com();
    let step = ProbeStep::NeedWhois { server: "whois.verisign-grs.com".to_string() };
    let next = probe_step(
        step,
        ProbeEvent::WhoisDone { outcome: WhoisOutcome::Response("hello".to_string()) },
        &reg,
        &config(true),
        "acme.com",
    );
    assert_eq!(done_reason(next), "Ambiguous WHOIS response");
}

#[test]
fn whois_error_and_timeout_finish_unknown() {
    let reg = registry_with_com();
    let step = ProbeStep::NeedWhois { server: "whois.verisign-grs.com".to_string() };
    let next = probe_step(
        step,
        ProbeEvent::WhoisDone { outcome: WhoisOutcome::TimedOut },
        &reg,
        &config(true),
        "acme.com",
    );
    assert_eq!(done_reason(next), "WHOIS timeout");
}

#[test]
fn stream_window_is_ten_times_concurrency() {
    let c = ProbeConfig { max_concurrent_per_endpoint: 10, ..ProbeConfig::default() };
    assert_eq!(stream_window(&c), 100);
    let c2 = ProbeConfig { max_concurrent_per_endpoint: 3, ..ProbeConfig::default() };
    assert_eq!(stream_window(&c2), 30);
}

#[test]
fn probe_result_echoes_domain() {
    let r = rdap_storm::ProbeResult {
        domain: "acme.com".to_string(),
        availability: Availability::Available,
        duration_ms: 12,
    };
    assert_eq!(r.domain, "acme.com");
    assert!(r.availability.is_available());
    assert_eq!(r.duration_ms, 12);
    let c = r.clone();
    assert_eq!(c.domain, r.domain);
}

#[test]
fn probe_terminates_within_three_steps() {
    let reg = registry_with_com();
    let cfg = config(true);
    let mut step = probe_start();
    let mut transitions = 0;
    loop {
        step = match step {
            ProbeStep::NeedBootstrap => {
                probe_step(step, ProbeEvent::BootstrapOk, &reg, &cfg, "acme.com")
            },
            ProbeStep::NeedRdap { endpoint } => probe_step(
                ProbeStep::NeedRdap { endpoint },
                ProbeEvent::RdapDone { outcome: RdapOutcome::Status(503) },
                &reg,
                &cfg,
                "acme.com",
            ),
            ProbeStep::NeedWhois { server } => probe_step(
                ProbeStep::NeedWhois { server },
                ProbeEvent::WhoisDone { outcome: WhoisOutcome::TimedOut },
                &reg,
                &cfg,
                "acme.com",
            ),
            ProbeStep::Done { .. } => break,
        };
        transitions += 1;
        assert!(transitions <= 3);
    }
    assert_eq!(transitions, 3);
}
