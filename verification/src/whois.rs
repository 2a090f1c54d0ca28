//! WHOIS client logic: server selection for a fixed table of TLDs and
//! the textual heuristics that classify a WHOIS response. The TCP
//! exchange itself is performed by the caller, which reports one
//! `WhoisOutcome` back.

use vstd::prelude::*;
use crate::endpoint::{last_dot, last_dot_index};
use crate::text::{has_substring, lower_seq, str_contains, str_eq, to_lower};
use crate::types::Availability;

verus! {

/// What a single WHOIS exchange produced: the full response text, an
/// I/O error (with its error text), or no answer within the configured
/// timeout.
#[derive(Debug, Clone)]
pub enum WhoisOutcome {
    Response(String),
    IoError(String),
    TimedOut,
}

/// The TLD as the WHOIS client sees it: the text after the last dot —
/// the whole domain when there is no dot — lowercased.
pub open spec fn spec_whois_tld(domain: Seq<char>) -> Seq<char> {
    lower_seq(domain.subrange(last_dot(domain) + 1, domain.len() as int))
}

/// The WHOIS host serving `tld`, for the fixed table of supported TLDs.
pub open spec fn spec_whois_server(tld: Seq<char>) -> Option<Seq<char>> {
    if tld == "com"@ || tld == "net"@ {
        Some("whois.verisign-grs.com"@)
    } else if tld == "org"@ {
        Some("whois.pir.org"@)
    } else if tld == "io"@ {
        Some("whois.nic.io"@)
    } else if tld == "dev"@ || tld == "app"@ {
        Some("whois.nic.google"@)
    } else if tld == "ai"@ {
        Some("whois.nic.ai"@)
    } else if tld == "co"@ {
        Some("whois.nic.co"@)
    } else if tld == "me"@ {
        Some("whois.nic.me"@)
    } else {
        None
    }
}

/// The lowercased last label of `domain`.
pub fn whois_tld(domain: &str) -> (t: String)
    ensures
        t@ == spec_whois_tld(domain@),
{
    let n = domain.unicode_len();
    let start: usize = match last_dot_index(domain) {
        Some(d) => d + 1,
        None => 0,
    };
    to_lower(domain.substring_char(start, n))
}

/// The WHOIS host for `tld` (already lowercase), per the fixed table.
pub fn whois_server_for(tld: &str) -> (r: Option<&'static str>)
    ensures
        match r {
            Some(s) => spec_whois_server(tld@) == Some(s@),
            None => spec_whois_server(tld@) is None,
        },
{
    if str_eq(tld, "com") || str_eq(tld, "net") {
        Some("whois.verisign-grs.com")
    } else if str_eq(tld, "org") {
        Some("whois.pir.org")
    } else if str_eq(tld, "io") {
        Some("whois.nic.io")
    } else if str_eq(tld, "dev") || str_eq(tld, "app") {
        Some("whois.nic.google")
    } else if str_eq(tld, "ai") {
        Some("whois.nic.ai")
    } else if str_eq(tld, "co") {
        Some("whois.nic.co")
    } else if str_eq(tld, "me") {
        Some("whois.nic.me")
    } else {
        None
    }
}

/// The `Unknown` reason used when no WHOIS server is known for the
/// domain's TLD: `No WHOIS server for .<tld>`.
pub fn no_whois_server_reason(tld: &str) -> (m: String)
    ensures
        m@ == "No WHOIS server for ."@ + tld@,
{
    let mut m = String::from_str("No WHOIS server for .");
    m.append(tld);
    m
}

/// The response marks the domain as unregistered: it contains one of
/// the availability trigger phrases, case-insensitively.
pub open spec fn whois_available_signal(resp: Seq<char>) -> bool {
    ||| has_substring(lower_seq(resp), "no match"@)
    ||| has_substring(lower_seq(resp), "not found"@)
    ||| has_substring(lower_seq(resp), "no data found"@)
    ||| has_substring(lower_seq(resp), "no entries found"@)
}

/// The response shows a registration record, case-insensitively.
pub open spec fn whois_taken_signal(resp: Seq<char>) -> bool {
    ||| has_substring(lower_seq(resp), "domain name:"@)
    ||| has_substring(lower_seq(resp), "registrar:"@)
}

/// Classify a WHOIS response by case-insensitive substring search:
/// an availability phrase wins, then a registration phrase; a response
/// with neither is unknown with reason `Ambiguous WHOIS response`.
pub fn classify_whois_response(resp: &str) -> (a: Availability)
    ensures
        whois_available_signal(resp@) ==> a == Availability::Available,
        !whois_available_signal(resp@) && whois_taken_signal(resp@) ==> a == Availability::Taken,
        !whois_available_signal(resp@) && !whois_taken_signal(resp@) ==> a.spec_is_unknown_with(
            "Ambiguous WHOIS response"@,
        ),
{
    let low = to_lower(resp);
    if str_contains(low.as_str(), "no match") || str_contains(low.as_str(), "not found")
        || str_contains(low.as_str(), "no data found") || str_contains(
        low.as_str(),
        "no entries found",
    ) {
        Availability::Available
    } else if str_contains(low.as_str(), "domain name:") || str_contains(
        low.as_str(),
        "registrar:",
    ) {
        Availability::Taken
    } else {
        Availability::Unknown { reason: String::from_str("Ambiguous WHOIS response") }
    }
}

/// The verdict a WHOIS exchange with outcome `outcome` must produce:
/// a response is classified by its text; an I/O error gives reason
/// `WHOIS error: <err>`; a timeout gives reason `WHOIS timeout`.
pub open spec fn spec_whois_verdict(a: Availability, outcome: WhoisOutcome) -> bool {
    match outcome {
        WhoisOutcome::Response(r) => {
            &&& whois_available_signal(r@) ==> a == Availability::Available
            &&& !whois_available_signal(r@) && whois_taken_signal(r@) ==> a == Availability::Taken
            &&& !whois_available_signal(r@) && !whois_taken_signal(r@) ==> a.spec_is_unknown_with(
                "Ambiguous WHOIS response"@,
            )
        },
        WhoisOutcome::IoError(e) => a.spec_is_unknown_with("WHOIS error: "@ + e@),
        WhoisOutcome::TimedOut => a.spec_is_unknown_with("WHOIS timeout"@),
    }
}

/// Verdict for a whole WHOIS exchange, per `spec_whois_verdict`.
pub fn availability_from_whois(outcome: WhoisOutcome) -> (a: Availability)
    ensures
        spec_whois_verdict(a, outcome),
{
    match outcome {
        WhoisOutcome::Response(r) => classify_whois_response(r.as_str()),
        WhoisOutcome::IoError(e) => {
            let mut m = String::from_str("WHOIS error: ");
            m.append(e.as_str());
            Availability::Unknown { reason: m }
        },
        WhoisOutcome::TimedOut => Availability::Unknown {
            reason: String::from_str("WHOIS timeout"),
        },
    }
}

/// The query line sent over the WHOIS TCP connection.
pub fn whois_query_line(domain: &str) -> (q: String)
    ensures
        q@ == domain@ + "\r\n"@,
{
    let mut q = String::from_str(domain);
    q.append("\r\n");
    q
}

} // verus!
