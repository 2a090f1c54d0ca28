//! RDAP endpoint registry: maps a lowercased TLD to the base URL of its
//! authoritative RDAP service, as published by the IANA bootstrap
//! document, and extracts the TLD from a domain name.

use vstd::prelude::*;
use crate::text::{lower_seq, is_lower_seq, to_lower, lemma_lower_seq_idempotent};

verus! {

/// Structural errors of endpoint discovery.
#[derive(Debug, Clone, Eq)]
pub enum EndpointError {
    /// The IANA bootstrap document could not be fetched or decoded;
    /// carries the underlying error text.
    FetchError(String),
    /// No RDAP endpoint is known for the given TLD.
    NoEndpoint(String),
    /// The domain has no TLD: empty, no dot, or an empty last label.
    InvalidDomain(String),
}

impl EndpointError {
    pub open spec fn spec_eq(&self, other: &EndpointError) -> bool {
        match (self, other) {
            (EndpointError::FetchError(a), EndpointError::FetchError(b)) => a@ == b@,
            (EndpointError::NoEndpoint(a), EndpointError::NoEndpoint(b)) => a@ == b@,
            (EndpointError::InvalidDomain(a), EndpointError::InvalidDomain(b)) => a@ == b@,
            _ => false,
        }
    }

    /// Human-readable error text.
    pub fn message(&self) -> (r: String)
        ensures
            match self {
                EndpointError::FetchError(e) => r@ == "Failed to fetch IANA bootstrap: "@ + e@,
                EndpointError::NoEndpoint(t) => r@ == "No RDAP endpoint found for TLD: "@ + t@,
                EndpointError::InvalidDomain(d) => r@ == "Invalid domain format: "@ + d@,
            },
    {
        match self {
            EndpointError::FetchError(e) => {
                let mut m = String::from_str("Failed to fetch IANA bootstrap: ");
                m.append(e.as_str());
                m
            },
            EndpointError::NoEndpoint(t) => {
                let mut m = String::from_str("No RDAP endpoint found for TLD: ");
                m.append(t.as_str());
                m
            },
            EndpointError::InvalidDomain(d) => {
                let mut m = String::from_str("Invalid domain format: ");
                m.append(d.as_str());
                m
            },
        }
    }
}

impl PartialEq for EndpointError {
    fn eq(&self, other: &EndpointError) -> (r: bool) {
        match (self, other) {
            (EndpointError::FetchError(a), EndpointError::FetchError(b)) => a.eq(b),
            (EndpointError::NoEndpoint(a), EndpointError::NoEndpoint(b)) => a.eq(b),
            (EndpointError::InvalidDomain(a), EndpointError::InvalidDomain(b)) => a.eq(b),
            _ => false,
        }
    }
}

impl vstd::std_specs::cmp::PartialEqSpecImpl for EndpointError {
    open spec fn obeys_eq_spec() -> bool {
        true
    }

    open spec fn eq_spec(&self, other: &EndpointError) -> bool {
        self.spec_eq(other)
    }
}

/// Index of the last `.` in `s`, or `-1` when there is none.
pub open spec fn last_dot(s: Seq<char>) -> int
    decreases s.len(),
{
    if s.len() == 0 {
        -1
    } else if s[s.len() - 1] == '.' {
        s.len() - 1
    } else {
        last_dot(s.drop_last())
    }
}

/// The lowercased TLD of a domain: the text after the last dot.
/// `None` when the domain has no dot or the last label is empty.
pub open spec fn spec_extract_tld(s: Seq<char>) -> Option<Seq<char>> {
    let d = last_dot(s);
    if 0 <= d && d + 1 < s.len() {
        Some(lower_seq(s.subrange(d + 1, s.len() as int)))
    } else {
        None
    }
}

pub(crate) fn last_dot_index(s: &str) -> (r: Option<usize>)
    ensures
        match r {
            Some(i) => last_dot(s@) == i as int && (i as int) < s@.len(),
            None => last_dot(s@) == -1,
        },
{
    let n = s.unicode_len();
    proof {
        assert(s@.subrange(0, n as int) =~= s@);
    }
    let mut i: usize = n;
    while i > 0
        invariant
            n == s@.len(),
            i <= n,
            last_dot(s@) == last_dot(s@.subrange(0, i as int)),
        decreases i,
    {
        let c = s.get_char(i - 1);
        proof {
            assert(s@.subrange(0, i as int).last() == s@[i as int - 1]);
        }
        if c == '.' {
            return Some(i - 1);
        }
        proof {
            assert(s@.subrange(0, i as int).drop_last() =~= s@.subrange(0, i as int - 1));
        }
        i = i - 1;
    }
    None
}

/// Extract the TLD of `domain`: the substring after the last dot,
/// lowercased. Fails when the domain has no dot or an empty last label.
pub fn extract_tld(domain: &str) -> (r: Result<String, EndpointError>)
    ensures
        match r {
            Ok(t) => spec_extract_tld(domain@) == Some(t@),
            Err(e) => spec_extract_tld(domain@) is None && (e matches EndpointError::InvalidDomain(
                d,
            ) && d@ == domain@),
        },
{
    let n = domain.unicode_len();
    if let Some(d) = last_dot_index(domain) {
        if d + 1 < n {
            let label = domain.substring_char(d + 1, n);
            return Ok(to_lower(label));
        }
    }
    Err(EndpointError::InvalidDomain(domain.to_owned()))
}

/// One binding of the registry: a lowercased TLD and its base URL.
struct EndpointEntry {
    tld: String,
    url: String,
}

/// One service of the IANA bootstrap document, as plain values: a list
/// of TLDs bound to a list of candidate base URLs.
pub struct RdapService {
    pub tlds: Vec<String>,
    pub urls: Vec<String>,
}

/// `u` with every trailing `/` removed.
pub open spec fn strip_slashes(u: Seq<char>) -> Seq<char>
    decreases u.len(),
{
    if u.len() > 0 && u.last() == '/' {
        strip_slashes(u.drop_last())
    } else {
        u
    }
}

pub proof fn lemma_strip_slashes_clean(u: Seq<char>)
    ensures
        strip_slashes(u).len() == 0 || strip_slashes(u).last() != '/',
    decreases u.len(),
{
    if u.len() > 0 && u.last() == '/' {
        lemma_strip_slashes_clean(u.drop_last());
    }
}

/// `u` with every trailing `/` removed.
pub fn strip_trailing_slashes(u: &str) -> (r: String)
    ensures
        r@ == strip_slashes(u@),
{
    let n = u.unicode_len();
    proof {
        assert(u@.subrange(0, n as int) =~= u@);
    }
    let mut e: usize = n;
    while e > 0 && u.get_char(e - 1) == '/'
        invariant
            n == u@.len(),
            e <= n,
            strip_slashes(u@) == strip_slashes(u@.subrange(0, e as int)),
        decreases e,
    {
        proof {
            assert(u@.subrange(0, e as int).last() == u@[e as int - 1]);
            assert(u@.subrange(0, e as int).drop_last() =~= u@.subrange(0, e as int - 1));
        }
        e = e - 1;
    }
    proof {
        if e > 0 {
            assert(u@.subrange(0, e as int).last() == u@[e as int - 1]);
        }
        assert(strip_slashes(u@.subrange(0, e as int)) == u@.subrange(0, e as int));
    }
    String::from_str(u.substring_char(0, e))
}

/// The value a single bootstrap service assigns to key `k`: its first
/// URL, stripped of trailing slashes, when `k` is one of its lowercased
/// TLDs.
pub open spec fn service_value(svc: RdapService, k: Seq<char>) -> Option<Seq<char>> {
    if svc.urls@.len() > 0 && (exists|j: int|
        0 <= j < svc.tlds@.len() && lower_seq(#[trigger] svc.tlds@[j]@) == k) {
        Some(strip_slashes(svc.urls@[0]@))
    } else {
        None
    }
}

/// The value the whole service list assigns to key `k`; a later service
/// overwrites an earlier one.
pub open spec fn services_value(svcs: Seq<RdapService>, k: Seq<char>) -> Option<Seq<char>>
    decreases svcs.len(),
{
    if svcs.len() == 0 {
        None
    } else {
        match service_value(svcs.last(), k) {
            Some(u) => Some(u),
            None => services_value(svcs.drop_last(), k),
        }
    }
}

/// Registry of RDAP endpoints: a map from lowercased TLD to the base
/// URL (without trailing slash) of the authoritative RDAP service,
/// and an idempotence flag for the bootstrap population.
pub struct EndpointRegistry {
    entries: Vec<EndpointEntry>,
    bootstrapped: bool,
}

impl EndpointRegistry {
    /// First binding of `k` among `entries`; newer bindings stand in
    /// front and shadow older ones.
    spec fn lookup(entries: Seq<EndpointEntry>, k: Seq<char>) -> Option<Seq<char>>
        decreases entries.len(),
    {
        if entries.len() == 0 {
            None
        } else if entries[0].tld@ == k {
            Some(entries[0].url@)
        } else {
            Self::lookup(entries.drop_first(), k)
        }
    }

    /// The mapping the registry currently holds.
    pub closed spec fn spec_get(&self, k: Seq<char>) -> Option<Seq<char>> {
        Self::lookup(self.entries@, k)
    }

    pub closed spec fn spec_bootstrapped(&self) -> bool {
        self.bootstrapped
    }

    /// Every key is lowercase and no value ends in `/`.
    pub closed spec fn wf(&self) -> bool {
        forall|i: int|
            0 <= i < self.entries@.len() ==> is_lower_seq(#[trigger] self.entries@[i].tld@) && (
            self.entries@[i].url@.len() == 0 || self.entries@[i].url@.last() != '/')
    }

    /// A fresh registry: empty and not bootstrapped.
    pub fn new() -> (r: EndpointRegistry)
        ensures
            r.wf(),
            !r.spec_bootstrapped(),
            forall|k: Seq<char>| r.spec_get(k) is None,
    {
        EndpointRegistry { entries: Vec::new(), bootstrapped: false }
    }

    pub fn is_bootstrapped(&self) -> (r: bool)
        ensures
            r == self.spec_bootstrapped(),
    {
        self.bootstrapped
    }

    /// Bind `key` (already lowercase) to `url`, shadowing any older
    /// binding.
    fn insert_lower(&mut self, key: String, url: String)
        requires
            old(self).wf(),
            is_lower_seq(key@),
            url@.len() == 0 || url@.last() != '/',
        ensures
            final(self).wf(),
            final(self).spec_bootstrapped() == old(self).spec_bootstrapped(),
            forall|k: Seq<char>|
                final(self).spec_get(k) == if k == key@ {
                    Some(url@)
                } else {
                    old(self).spec_get(k)
                },
    {
        let ghost entries0 = self.entries@;
        self.entries.insert(0, EndpointEntry { tld: key, url });
        proof {
            assert(self.entries@.drop_first() =~= entries0);
            assert forall|i: int| 0 <= i < self.entries@.len() implies is_lower_seq(
                #[trigger] self.entries@[i].tld@,
            ) && (self.entries@[i].url@.len() == 0 || self.entries@[i].url@.last() != '/') by {
                if i > 0 {
                    assert(self.entries@[i] == entries0[i - 1]);
                }
            }
        }
    }

    /// Look up an exact (already lowercase) key.
    fn get_exact(&self, key: &String) -> (r: Option<String>)
        ensures
            match r {
                Some(u) => self.spec_get(key@) == Some(u@),
                None => self.spec_get(key@) is None,
            },
    {
        let n = self.entries.len();
        proof {
            assert(self.entries@.subrange(0, n as int) =~= self.entries@);
        }
        let mut i: usize = 0;
        while i < n
            invariant
                n == self.entries@.len(),
                i <= n,
                Self::lookup(self.entries@.subrange(i as int, n as int), key@) == self.spec_get(
                    key@,
                ),
            decreases n - i,
        {
            proof {
                assert(self.entries@.subrange(i as int, n as int).drop_first() =~= self.entries@
                    .subrange(i as int + 1, n as int));
            }
            let e = &self.entries[i];
            if e.tld.eq(key) {
                return Some(e.url.clone());
            }
            i = i + 1;
        }
        None
    }

    /// Resolve a TLD to its RDAP base URL; the lookup key is the
    /// lowercased TLD, so the lookup is case-insensitive.
    pub fn get_endpoint(&self, tld: &str) -> (r: Option<String>)
        ensures
            match r {
                Some(u) => self.spec_get(lower_seq(tld@)) == Some(u@),
                None => self.spec_get(lower_seq(tld@)) is None,
            },
    {
        let key = to_lower(tld);
        self.get_exact(&key)
    }

    /// Two TLDs that agree up to ASCII case resolve to the same
    /// endpoint; in particular a TLD and its lowercase form do.
    pub proof fn lemma_get_endpoint_case_insensitive(&self, a: Seq<char>, b: Seq<char>)
        requires
            lower_seq(a) == lower_seq(b),
        ensures
            self.spec_get(lower_seq(a)) == self.spec_get(lower_seq(b)),
            self.spec_get(lower_seq(lower_seq(a))) == self.spec_get(lower_seq(a)),
    {
        lemma_lower_seq_idempotent(a);
    }

    /// Populate the registry from the services of the IANA bootstrap
    /// document, then set the bootstrapped flag. A registry that is
    /// already bootstrapped is left entirely unchanged, so a second
    /// call has no effect on the mapping.
    pub fn bootstrap_services(&mut self, services: &Vec<RdapService>)
        requires
            old(self).wf(),
        ensures
            final(self).wf(),
            final(self).spec_bootstrapped(),
            old(self).spec_bootstrapped() ==> *final(self) == *old(self),
            !old(self).spec_bootstrapped() ==> forall|k: Seq<char>|
                final(self).spec_get(k) == match services_value(services@, k) {
                    Some(u) => Some(u),
                    None => old(self).spec_get(k),
                },
    {
        if self.bootstrapped {
            return;
        }
        let ghost m0 = *self;
        let n = services.len();
        let mut i: usize = 0;
        while i < n
            invariant
                n == services@.len(),
                i <= n,
                self.wf(),
                !self.spec_bootstrapped(),
                forall|k: Seq<char>|
                    self.spec_get(k) == match services_value(services@.subrange(0, i as int), k) {
                        Some(u) => Some(u),
                        None => m0.spec_get(k),
                    },
            decreases n - i,
        {
            let svc = &services[i];
            proof {
                assert(services@.subrange(0, i as int + 1).drop_last() =~= services@.subrange(
                    0,
                    i as int,
                ));
                assert(services@.subrange(0, i as int + 1).last() == services@[i as int]);
            }
            if svc.urls.len() > 0 {
                let base = strip_trailing_slashes(svc.urls[0].as_str());
                proof {
                    lemma_strip_slashes_clean(svc.urls@[0]@);
                }
                let ghost before_svc = *self;
                let m = svc.tlds.len();
                let mut j: usize = 0;
                while j < m
                    invariant
                        m == svc.tlds@.len(),
                        j <= m,
                        svc.urls@.len() > 0,
                        base@ == strip_slashes(svc.urls@[0]@),
                        self.wf(),
                        !self.spec_bootstrapped(),
                        forall|k: Seq<char>|
                            self.spec_get(k) == if (exists|t: int|
                                0 <= t < j && lower_seq(#[trigger] svc.tlds@[t]@) == k) {
                                Some(base@)
                            } else {
                                before_svc.spec_get(k)
                            },
                    decreases m - j,
                {
                    let key = to_lower(svc.tlds[j].as_str());
                    proof {
                        lemma_lower_seq_idempotent(svc.tlds@[j as int]@);
                        lemma_strip_slashes_clean(svc.urls@[0]@);
                    }
                    self.insert_lower(key, base.clone());
                    j = j + 1;
                }
            }
            i = i + 1;
            proof {
                assert(services@.subrange(0, n as int) =~= services@);
            }
        }
        proof {
            assert(services@.subrange(0, n as int) =~= services@);
        }
        let ghost before_flag = *self;
        self.bootstrapped = true;
        proof {
            assert(self.entries@ == before_flag.entries@);
            assert forall|k: Seq<char>| #[trigger] self.spec_get(k) == before_flag.spec_get(k) by {
            }
        }
    }
}

impl Default for EndpointRegistry {
    /// A fresh registry, as `EndpointRegistry::new` builds it.
    fn default() -> (r: EndpointRegistry)
        ensures
            r.wf(),
            !r.spec_bootstrapped(),
            forall|k: Seq<char>| r.spec_get(k) is None,
    {
        EndpointRegistry::new()
    }
}

} // verus!
