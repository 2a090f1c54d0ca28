//! The per-probe state machine.
//!
//! Probing one domain is a short dialogue with the network: bootstrap
//! the endpoint registry, query RDAP, and possibly fall back to WHOIS.
//! The machine below holds every decision of that dialogue; the caller
//! only performs the network operation the current step asks for and
//! feeds the observed outcome back as an event. Each transition
//! strictly decreases a step measure, so a probe consumes at most three
//! events before it is done.

use vstd::prelude::*;
use crate::endpoint::{extract_tld, last_dot, spec_extract_tld, EndpointRegistry};
use crate::rdap::{availability_from_rdap, RdapOutcome};
use crate::text::{dec_str, lemma_lower_seq_idempotent};
use crate::types::{Availability, ProbeConfig};
use crate::whois::{
    availability_from_whois, no_whois_server_reason, spec_whois_server, spec_whois_tld,
    spec_whois_verdict, whois_server_for, whois_tld, WhoisOutcome,
};

verus! {

/// Where a probe stands: the network operation it waits for, or its
/// final verdict.
#[derive(Debug, Clone)]
pub enum ProbeStep {
    /// The endpoint registry must be bootstrapped.
    NeedBootstrap,
    /// An RDAP query must be sent to `endpoint`.
    NeedRdap { endpoint: String },
    /// A WHOIS query must be sent to `server`.
    NeedWhois { server: String },
    /// The probe is finished.
    Done { availability: Availability },
}

/// What the network operation of the current step produced.
#[derive(Debug, Clone)]
pub enum ProbeEvent {
    BootstrapOk,
    /// Bootstrap failed; carries the error text.
    BootstrapFailed { message: String },
    RdapDone { outcome: RdapOutcome },
    WhoisDone { outcome: WhoisOutcome },
}

/// The event answers the operation the step asked for.
pub open spec fn step_accepts(step: ProbeStep, event: ProbeEvent) -> bool {
    match (step, event) {
        (ProbeStep::NeedBootstrap, ProbeEvent::BootstrapOk) => true,
        (ProbeStep::NeedBootstrap, ProbeEvent::BootstrapFailed { .. }) => true,
        (ProbeStep::NeedRdap { .. }, ProbeEvent::RdapDone { .. }) => true,
        (ProbeStep::NeedWhois { .. }, ProbeEvent::WhoisDone { .. }) => true,
        _ => false,
    }
}

/// How many transitions a probe in this step can still take.
pub open spec fn step_measure(step: ProbeStep) -> int {
    match step {
        ProbeStep::NeedBootstrap => 3,
        ProbeStep::NeedRdap { .. } => 2,
        ProbeStep::NeedWhois { .. } => 1,
        ProbeStep::Done { .. } => 0,
    }
}

/// The step is final with verdict `Unknown` and exactly the reason
/// `msg`.
pub open spec fn spec_done_unknown(step: ProbeStep, msg: Seq<char>) -> bool {
    match step {
        ProbeStep::Done { availability } => availability.spec_is_unknown_with(msg),
        _ => false,
    }
}

/// The step the machine takes when it decides to consult WHOIS for
/// `domain`: wait for the mapped server, or finish with reason
/// `No WHOIS server for .<tld>` when the table maps none.
pub open spec fn spec_whois_continuation(step: ProbeStep, domain: Seq<char>) -> bool {
    match spec_whois_server(spec_whois_tld(domain)) {
        Some(srv) => match step {
            ProbeStep::NeedWhois { server } => server@ == srv,
            _ => false,
        },
        None => spec_done_unknown(step, "No WHOIS server for ."@ + spec_whois_tld(domain)),
    }
}

/// The first step of every probe.
pub fn probe_start() -> (s: ProbeStep)
    ensures
        s == ProbeStep::NeedBootstrap,
{
    ProbeStep::NeedBootstrap
}

fn whois_continue(domain: &str) -> (next: ProbeStep)
    ensures
        spec_whois_continuation(next, domain@),
        step_measure(next) <= 1,
{
    let tld = whois_tld(domain);
    match whois_server_for(tld.as_str()) {
        Some(srv) => ProbeStep::NeedWhois { server: srv.to_owned() },
        None => ProbeStep::Done {
            availability: Availability::Unknown { reason: no_whois_server_reason(tld.as_str()) },
        },
    }
}

/// One transition of the probe state machine.
///
/// From `NeedBootstrap`: a failure finishes with `Bootstrap failed:
/// <err>`; on success the TLD is extracted (an invalid domain finishes
/// with `Invalid domain format: <domain>`) and looked up in the
/// registry — a hit proceeds to RDAP, a miss consults WHOIS when the
/// fallback is enabled and otherwise finishes with `No RDAP endpoint
/// for .<tld>`. From `NeedRdap`: 404 finishes `Available`, 200
/// finishes `Taken`; every other outcome is unknown and consults WHOIS
/// when the fallback is enabled, else finishes with the exact RDAP
/// reason. From `NeedWhois`: the outcome's verdict finishes the probe.
pub fn probe_step(
    step: ProbeStep,
    event: ProbeEvent,
    registry: &EndpointRegistry,
    config: &ProbeConfig,
    domain: &str,
) -> (next: ProbeStep)
    requires
        step_accepts(step, event),
    ensures
        step_measure(next) < step_measure(step),
        match (step, event) {
            (ProbeStep::NeedBootstrap, ProbeEvent::BootstrapFailed { message }) => spec_done_unknown(
                next,
                "Bootstrap failed: "@ + message@,
            ),
            (ProbeStep::NeedBootstrap, ProbeEvent::BootstrapOk) => match spec_extract_tld(
                domain@,
            ) {
                None => spec_done_unknown(next, "Invalid domain format: "@ + domain@),
                Some(t) => match registry.spec_get(t) {
                    Some(u) => match next {
                        ProbeStep::NeedRdap { endpoint } => endpoint@ == u,
                        _ => false,
                    },
                    None => if config.whois_fallback {
                        spec_whois_continuation(next, domain@)
                    } else {
                        spec_done_unknown(next, "No RDAP endpoint for ."@ + t)
                    },
                },
            },
            (ProbeStep::NeedRdap { .. }, ProbeEvent::RdapDone { outcome }) => match outcome {
                RdapOutcome::Status(s) => if s == 404 {
                    next == (ProbeStep::Done { availability: Availability::Available })
                } else if s == 200 {
                    next == (ProbeStep::Done { availability: Availability::Taken })
                } else if config.whois_fallback {
                    spec_whois_continuation(next, domain@)
                } else if s == 429 {
                    spec_done_unknown(next, "Rate limited"@)
                } else {
                    spec_done_unknown(next, "HTTP "@ + dec_str(s as int))
                },
                RdapOutcome::TransportError(e) => if config.whois_fallback {
                    spec_whois_continuation(next, domain@)
                } else {
                    spec_done_unknown(next, "Request failed: "@ + e@)
                },
                RdapOutcome::TimedOut => if config.whois_fallback {
                    spec_whois_continuation(next, domain@)
                } else {
                    spec_done_unknown(next, "Timeout"@)
                },
            },
            (ProbeStep::NeedWhois { .. }, ProbeEvent::WhoisDone { outcome }) => match next {
                ProbeStep::Done { availability } => spec_whois_verdict(availability, outcome),
                _ => false,
            },
            _ => true,
        },
{
    match (step, event) {
        (ProbeStep::NeedBootstrap, ProbeEvent::BootstrapFailed { message }) => {
            let mut m = String::from_str("Bootstrap failed: ");
            m.append(message.as_str());
            ProbeStep::Done { availability: Availability::Unknown { reason: m } }
        },
        (ProbeStep::NeedBootstrap, ProbeEvent::BootstrapOk) => match extract_tld(domain) {
            Err(e) => ProbeStep::Done {
                availability: Availability::Unknown { reason: e.message() },
            },
            Ok(tld) => {
                proof {
                    lemma_lower_seq_idempotent(
                        domain@.subrange(last_dot(domain@) + 1, domain@.len() as int),
                    );
                }
                match registry.get_endpoint(tld.as_str()) {
                    Some(endpoint) => ProbeStep::NeedRdap { endpoint },
                    None => {
                        if config.whois_fallback {
                            whois_continue(domain)
                        } else {
                            let mut m = String::from_str("No RDAP endpoint for .");
                            m.append(tld.as_str());
                            ProbeStep::Done {
                                availability: Availability::Unknown { reason: m },
                            }
                        }
                    },
                }
            },
        },
        (ProbeStep::NeedRdap { .. }, ProbeEvent::RdapDone { outcome }) => {
            let a = availability_from_rdap(outcome);
            if a.is_unknown() && config.whois_fallback {
                whois_continue(domain)
            } else {
                ProbeStep::Done { availability: a }
            }
        },
        (ProbeStep::NeedWhois { .. }, ProbeEvent::WhoisDone { outcome }) => ProbeStep::Done {
            availability: availability_from_whois(outcome),
        },
        _ => ProbeStep::Done {
            availability: Availability::Unknown { reason: String::new() },
        },
    }
}

/// The width of the unordered concurrency window that a stream of
/// probes uses: `max_concurrent_per_endpoint × 10`.
pub fn stream_window(config: &ProbeConfig) -> (w: u64)
    ensures
        w == config.max_concurrent_per_endpoint as int * 10,
{
    (config.max_concurrent_per_endpoint as u64) * 10
}

} // verus!
