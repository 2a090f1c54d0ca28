//! RDAP client logic: the query URL and the mapping from what the HTTP
//! exchange produced to an availability verdict. The exchange itself is
//! performed by the caller, which reports one `RdapOutcome` back.

use vstd::prelude::*;
use crate::text::{dec_str, u16_to_string};
use crate::types::Availability;

verus! {

/// What a single RDAP HTTP exchange produced: a status line, a
/// transport error (with its error text), or no answer within the
/// configured timeout.
#[derive(Debug, Clone)]
pub enum RdapOutcome {
    Status(u16),
    TransportError(String),
    TimedOut,
}

/// The RDAP query URL for `domain` at `endpoint`:
/// `{endpoint}/domain/{domain}`.
pub fn rdap_url(endpoint: &str, domain: &str) -> (r: String)
    ensures
        r@ == endpoint@ + "/domain/"@ + domain@,
{
    let mut u = String::from_str(endpoint);
    u.append("/domain/");
    u.append(domain);
    u
}

/// The verdict for an RDAP HTTP status: 404 is available, 200 is
/// taken, and anything else is unknown; 429 carries reason
/// `Rate limited`, any other status carries reason `HTTP <code>`.
pub fn availability_from_status(status: u16) -> (a: Availability)
    ensures
        a.spec_is_available() <==> status == 404,
        a.spec_is_taken() <==> status == 200,
        a.spec_is_unknown() <==> (status != 404 && status != 200),
        status == 429 ==> a.spec_is_unknown_with("Rate limited"@),
        status != 404 && status != 200 && status != 429 ==> a.spec_is_unknown_with(
            "HTTP "@ + dec_str(status as int),
        ),
{
    if status == 404 {
        Availability::Available
    } else if status == 200 {
        Availability::Taken
    } else if status == 429 {
        Availability::Unknown { reason: String::from_str("Rate limited") }
    } else {
        let mut m = String::from_str("HTTP ");
        m.append(u16_to_string(status).as_str());
        Availability::Unknown { reason: m }
    }
}

/// Verdict for a whole RDAP exchange: status codes map as in
/// `availability_from_status`; a transport error gives reason
/// `Request failed: <err>`; a timeout gives reason `Timeout`.
pub fn availability_from_rdap(outcome: RdapOutcome) -> (a: Availability)
    ensures
        match outcome {
            RdapOutcome::Status(s) => {
                &&& a.spec_is_available() <==> s == 404
                &&& a.spec_is_taken() <==> s == 200
                &&& a.spec_is_unknown() <==> (s != 404 && s != 200)
                &&& s == 429 ==> a.spec_is_unknown_with("Rate limited"@)
                &&& s != 404 && s != 200 && s != 429 ==> a.spec_is_unknown_with(
                    "HTTP "@ + dec_str(s as int),
                )
            },
            RdapOutcome::TransportError(e) => a.spec_is_unknown_with("Request failed: "@ + e@),
            RdapOutcome::TimedOut => a.spec_is_unknown_with("Timeout"@),
        },
{
    match outcome {
        RdapOutcome::Status(s) => availability_from_status(s),
        RdapOutcome::TransportError(e) => {
            let mut m = String::from_str("Request failed: ");
            m.append(e.as_str());
            Availability::Unknown { reason: m }
        },
        RdapOutcome::TimedOut => Availability::Unknown { reason: String::from_str("Timeout") },
    }
}

} // verus!
