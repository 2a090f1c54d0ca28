//! Core of a bulk domain-availability prober.
//!
//! The library holds the decision logic of the probe pipeline: TLD
//! extraction, the RDAP endpoint registry, status and WHOIS response
//! classification, per-endpoint token-bucket pacing, and the per-probe
//! state machine. All network I/O is performed by the surrounding
//! application, which feeds observed outcomes back into the machine.

pub mod endpoint;
pub mod prober;
pub mod query;
pub mod ratelimit;
pub mod rdap;
pub mod text;
pub mod tlds;
pub mod types;
pub mod whois;

pub use endpoint::extract_tld;
pub use endpoint::EndpointError;
pub use endpoint::EndpointRegistry;
pub use prober::probe_start;
pub use prober::probe_step;
pub use prober::ProbeEvent;
pub use prober::ProbeStep;
pub use ratelimit::EndpointRateLimiters;
pub use rdap::RdapOutcome;
pub use tlds::expand_tlds;
pub use tlds::parse_tld_list;
pub use tlds::TldError;
pub use types::Availability;
pub use types::ProbeConfig;
pub use types::ProbeResult;
pub use whois::WhoisOutcome;
