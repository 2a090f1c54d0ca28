//! Value types shared by every component of the prober.

use vstd::prelude::*;

verus! {

/// Verdict for a single domain: registered, free, or indeterminate.
///
/// `Unknown` carries a short human-readable reason; callers must treat
/// the reason as opaque.
#[derive(Debug, Clone, Eq)]
pub enum Availability {
    Available,
    Taken,
    Unknown { reason: String },
}

impl Availability {
    /// Mathematical equality of two verdicts: same variant, and for
    /// `Unknown` the same reason text.
    pub open spec fn spec_eq(&self, other: &Availability) -> bool {
        match (self, other) {
            (Availability::Available, Availability::Available) => true,
            (Availability::Taken, Availability::Taken) => true,
            (Availability::Unknown { reason: a }, Availability::Unknown { reason: b }) => a@ == b@,
            _ => false,
        }
    }

    pub open spec fn spec_is_available(&self) -> bool {
        matches!(self, Availability::Available)
    }

    pub open spec fn spec_is_taken(&self) -> bool {
        matches!(self, Availability::Taken)
    }

    pub open spec fn spec_is_unknown(&self) -> bool {
        matches!(self, Availability::Unknown { .. })
    }

    /// The verdict is `Unknown` with exactly the reason text `msg`.
    pub open spec fn spec_is_unknown_with(&self, msg: Seq<char>) -> bool {
        match self {
            Availability::Unknown { reason } => reason@ == msg,
            _ => false,
        }
    }

    pub fn is_available(&self) -> (r: bool)
        ensures
            r == self.spec_is_available(),
    {
        matches!(self, Availability::Available)
    }

    pub fn is_taken(&self) -> (r: bool)
        ensures
            r == self.spec_is_taken(),
    {
        matches!(self, Availability::Taken)
    }

    pub fn is_unknown(&self) -> (r: bool)
        ensures
            r == self.spec_is_unknown(),
    {
        matches!(self, Availability::Unknown { .. })
    }
}

impl PartialEq for Availability {
    fn eq(&self, other: &Availability) -> (r: bool) {
        match (self, other) {
            (Availability::Available, Availability::Available) => true,
            (Availability::Taken, Availability::Taken) => true,
            (Availability::Unknown { reason: a }, Availability::Unknown { reason: b }) => a.eq(b),
            _ => false,
        }
    }
}

impl vstd::std_specs::cmp::PartialEqSpecImpl for Availability {
    open spec fn obeys_eq_spec() -> bool {
        true
    }

    open spec fn eq_spec(&self, other: &Availability) -> bool {
        self.spec_eq(other)
    }
}

/// Outcome of probing one domain. `domain` echoes the input verbatim;
/// `duration_ms` is the total elapsed wall time in milliseconds,
/// including any rate-limit wait and fallback query.
#[derive(Debug, Clone)]
pub struct ProbeResult {
    pub domain: String,
    pub availability: Availability,
    pub duration_ms: u64,
}

/// Immutable configuration consumed when a prober is constructed.
///
/// `timeout_ms` applies independently to each network operation
/// (bootstrap fetch, RDAP request, WHOIS exchange).
#[derive(Debug, Clone)]
pub struct ProbeConfig {
    pub timeout_ms: u64,
    pub whois_fallback: bool,
    pub max_rate_per_endpoint: u32,
    pub max_concurrent_per_endpoint: u32,
}

impl Default for ProbeConfig {
    /// Defaults: 5 s timeout, WHOIS fallback on, 20 requests/s per
    /// endpoint, concurrency window factor 10.
    fn default() -> (c: ProbeConfig)
        ensures
            c.timeout_ms == 5000,
            c.whois_fallback == true,
            c.max_rate_per_endpoint == 20,
            c.max_concurrent_per_endpoint == 10,
    {
        ProbeConfig {
            timeout_ms: 5000,
            whois_fallback: true,
            max_rate_per_endpoint: 20,
            max_concurrent_per_endpoint: 10,
        }
    }
}

} // verus!
