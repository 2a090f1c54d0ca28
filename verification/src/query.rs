//! Pure helpers of the interactive front end: query parsing, TLD list
//! shaping (user configuration, priorities), and result ordering.

use vstd::prelude::*;
use crate::endpoint::{last_dot, last_dot_index};
use crate::text::{lower_seq, str_eq, to_lower};
use crate::tlds::views_of;

verus! {

/// Which results the interactive list shows.
#[derive(Debug, Clone, Copy, PartialEq, Eq, Structural)]
pub enum FilterMode {
    All,
    Available,
    Taken,
}

impl FilterMode {
    /// The next mode in the cycle All → Available → Taken → All.
    pub fn next(self) -> (r: FilterMode)
        ensures
            r == match self {
                FilterMode::All => FilterMode::Available,
                FilterMode::Available => FilterMode::Taken,
                FilterMode::Taken => FilterMode::All,
            },
    {
        match self {
            FilterMode::All => FilterMode::Available,
            FilterMode::Available => FilterMode::Taken,
            FilterMode::Taken => FilterMode::All,
        }
    }
}

/// Display state of one domain check.
#[derive(Debug, Clone, Eq)]
pub enum DomainStatus {
    Pending,
    Checking,
    Available,
    Taken,
    Error(String),
}

impl DomainStatus {
    pub open spec fn spec_eq(&self, other: &DomainStatus) -> bool {
        match (self, other) {
            (DomainStatus::Pending, DomainStatus::Pending) => true,
            (DomainStatus::Checking, DomainStatus::Checking) => true,
            (DomainStatus::Available, DomainStatus::Available) => true,
            (DomainStatus::Taken, DomainStatus::Taken) => true,
            (DomainStatus::Error(a), DomainStatus::Error(b)) => a@ == b@,
            _ => false,
        }
    }
}

impl PartialEq for DomainStatus {
    fn eq(&self, other: &DomainStatus) -> (r: bool) {
        match (self, other) {
            (DomainStatus::Pending, DomainStatus::Pending) => true,
            (DomainStatus::Checking, DomainStatus::Checking) => true,
            (DomainStatus::Available, DomainStatus::Available) => true,
            (DomainStatus::Taken, DomainStatus::Taken) => true,
            (DomainStatus::Error(a), DomainStatus::Error(b)) => a.eq(b),
            _ => false,
        }
    }
}

impl vstd::std_specs::cmp::PartialEqSpecImpl for DomainStatus {
    open spec fn obeys_eq_spec() -> bool {
        true
    }

    open spec fn eq_spec(&self, other: &DomainStatus) -> bool {
        self.spec_eq(other)
    }
}

/// Sort rank of a status in the result list: available first, then
/// in-flight, pending, taken, failed.
pub fn status_order(status: &DomainStatus) -> (r: u8)
    ensures
        r == match status {
            DomainStatus::Available => 0u8,
            DomainStatus::Checking => 1u8,
            DomainStatus::Pending => 2u8,
            DomainStatus::Taken => 3u8,
            DomainStatus::Error(_) => 4u8,
        },
{
    match status {
        DomainStatus::Available => 0,
        DomainStatus::Checking => 1,
        DomainStatus::Pending => 2,
        DomainStatus::Taken => 3,
        DomainStatus::Error(_) => 4,
    }
}

/// An ASCII letter.
pub open spec fn is_alpha(c: char) -> bool {
    ('a' <= c && c <= 'z') || ('A' <= c && c <= 'Z')
}

/// The query names an explicit TLD: it has a dot with a non-empty
/// base before it and an ASCII-alphabetic label of at most 20
/// characters after it.
pub open spec fn query_has_tld(q: Seq<char>) -> bool {
    let d = last_dot(q);
    &&& d >= 1
    &&& 1 <= q.len() - (d + 1) <= 20
    &&& forall|t: int| d + 1 <= t < q.len() ==> is_alpha(#[trigger] q[t])
}

/// Split a search query into a base name and an optional explicit
/// TLD: `acme.dev` gives `("acme", Some("dev"))`, `acme` gives
/// `("acme", None)`. The TLD is returned lowercased.
pub fn parse_domain_query(query: &str) -> (r: (String, Option<String>))
    ensures
        query_has_tld(query@) ==> {
            &&& r.0@ == query@.subrange(0, last_dot(query@))
            &&& match r.1 {
                Some(t) => t@ == lower_seq(query@.subrange(last_dot(query@) + 1, query@.len() as int)),
                None => false,
            }
        },
        !query_has_tld(query@) ==> r.0@ == query@ && r.1 is None,
{
    let n = query.unicode_len();
    if let Some(d) = last_dot_index(query) {
        if d >= 1 && d + 1 < n && n - (d + 1) <= 20 {
            let mut ok = true;
            let mut t: usize = d + 1;
            while t < n
                invariant
                    n == query@.len(),
                    d + 1 <= t <= n,
                    ok == forall|u: int| d + 1 <= u < t ==> is_alpha(#[trigger] query@[u]),
                decreases n - t,
            {
                let c = query.get_char(t);
                let a = ('a' <= c && c <= 'z') || ('A' <= c && c <= 'Z');
                proof {
                    assert(a == is_alpha(query@[t as int]));
                }
                ok = ok && a;
                t = t + 1;
            }
            if ok {
                let base = String::from_str(query.substring_char(0, d));
                let tld = to_lower(query.substring_char(d + 1, n));
                return (base, Some(tld));
            }
        }
    }
    proof {
        assert(!query_has_tld(query@));
    }
    (query.to_owned(), None)
}

/// `t` occurs in `ss` up to ASCII case.
pub open spec fn contains_ci(ss: Seq<Seq<char>>, t: Seq<char>) -> bool {
    exists|i: int| 0 <= i < ss.len() && lower_seq(#[trigger] ss[i]) == lower_seq(t)
}

fn contains_ci_exec(ss: &Vec<String>, t: &str) -> (r: bool)
    ensures
        r == contains_ci(views_of(ss@), t@),
{
    let lt = to_lower(t);
    let n = ss.len();
    let mut i: usize = 0;
    while i < n
        invariant
            n == ss@.len(),
            i <= n,
            lt@ == lower_seq(t@),
            forall|u: int| 0 <= u < i ==> lower_seq(#[trigger] ss@[u]@) != lower_seq(t@),
        decreases n - i,
    {
        let ls = to_lower(ss[i].as_str());
        if str_eq(ls.as_str(), lt.as_str()) {
            proof {
                assert(lower_seq(views_of(ss@)[i as int]) == lower_seq(t@));
            }
            return true;
        }
        i = i + 1;
    }
    proof {
        assert forall|u: int| 0 <= u < ss@.len() implies lower_seq(#[trigger] views_of(ss@)[u])
            != lower_seq(t@) by {
            assert(views_of(ss@)[u] == ss@[u]@);
        }
    }
    false
}

/// First index of a case-insensitive occurrence of `t` in `ss`, or
/// `ss.len()` when there is none.
pub open spec fn ci_index(ss: Seq<Seq<char>>, t: Seq<char>) -> int
    decreases ss.len(),
{
    if ss.len() == 0 {
        0
    } else if lower_seq(ss[0]) == lower_seq(t) {
        0
    } else {
        1 + ci_index(ss.drop_first(), t)
    }
}

/// Move the first case-insensitive occurrence of `priority_tld` to
/// the front of the list; a list without it is returned unchanged.
pub fn prioritize_tld(tlds: Vec<String>, priority_tld: &str) -> (r: Vec<String>)
    ensures
        ({
            let i = ci_index(views_of(tlds@), priority_tld@);
            if i < tlds@.len() {
                r@ == seq![tlds@[i]] + tlds@.remove(i)
            } else {
                r@ == tlds@
            }
        }),
{
    let lt = to_lower(priority_tld);
    let n = tlds.len();
    let ghost vs = views_of(tlds@);
    proof {
        assert(vs.subrange(0, n as int) =~= vs);
    }
    let mut i: usize = 0;
    while i < n
        invariant
            n == tlds@.len(),
            i <= n,
            vs == views_of(tlds@),
            lt@ == lower_seq(priority_tld@),
            ci_index(vs.subrange(i as int, n as int), priority_tld@) + i == ci_index(
                vs,
                priority_tld@,
            ),
            forall|u: int| 0 <= u < i ==> lower_seq(#[trigger] vs[u]) != lower_seq(priority_tld@),
        decreases n - i,
    {
        proof {
            assert(vs.subrange(i as int, n as int)[0] == vs[i as int]);
            assert(vs.subrange(i as int, n as int).drop_first() =~= vs.subrange(
                i as int + 1,
                n as int,
            ));
        }
        let ls = to_lower(tlds[i].as_str());
        if str_eq(ls.as_str(), lt.as_str()) {
            proof {
                assert(ci_index(vs, priority_tld@) == i as int);
            }
            let mut out = tlds;
            let x = out.remove(i);
            out.insert(0, x);
            proof {
                assert(out@ =~= seq![tlds@[i as int]] + tlds@.remove(i as int));
            }
            return out;
        }
        i = i + 1;
    }
    proof {
        assert(vs.subrange(n as int, n as int) =~= Seq::<Seq<char>>::empty());
        assert(ci_index(vs, priority_tld@) == n as int);
    }
    tlds
}

/// Filter out the TLDs the user never wants: keep an entry only when
/// it does not occur (case-insensitively) in `never`.
pub open spec fn filtered_tlds(tlds: Seq<Seq<char>>, never: Seq<Seq<char>>) -> Seq<Seq<char>> {
    tlds.filter(|t: Seq<char>| !contains_ci(never, t))
}

/// Prepend the TLDs the user always wants, lowercased, frontmost
/// first, skipping those already present up to case.
pub open spec fn with_always_tlds(tlds: Seq<Seq<char>>, always: Seq<Seq<char>>) -> Seq<Seq<char>>
    decreases always.len(),
{
    if always.len() == 0 {
        tlds
    } else {
        let rest = with_always_tlds(tlds, always.drop_first());
        if contains_ci(rest, always[0]) {
            rest
        } else {
            seq![lower_seq(always[0])] + rest
        }
    }
}

/// Apply the user configuration to a TLD list: drop every entry of
/// `never`, then put the entries of `always` first.
pub fn apply_config_to_tlds(tlds: Vec<String>, always: &Vec<String>, never: &Vec<String>) -> (r:
    Vec<String>)
    ensures
        views_of(r@) == with_always_tlds(
            filtered_tlds(views_of(tlds@), views_of(never@)),
            views_of(always@),
        ),
{
    let n = tlds.len();
    let mut kept: Vec<String> = Vec::new();
    let mut i: usize = 0;
    proof {
        assert(views_of(tlds@).take(0) =~= Seq::<Seq<char>>::empty());
        assert(views_of(kept@) =~= Seq::<Seq<char>>::empty());
        assert(Seq::<Seq<char>>::empty().filter(
            |t: Seq<char>| !contains_ci(views_of(never@), t),
        ) =~= Seq::<Seq<char>>::empty()) by {
            reveal(Seq::filter);
        }
    }
    while i < n
        invariant
            n == tlds@.len(),
            i <= n,
            views_of(kept@) == filtered_tlds(views_of(tlds@).take(i as int), views_of(never@)),
        decreases n - i,
    {
        let keep = !contains_ci_exec(never, tlds[i].as_str());
        let ghost kept0 = kept@;
        if keep {
            kept.push(tlds[i].clone());
        }
        proof {
            reveal(Seq::filter);
            let vt = views_of(tlds@);
            assert(vt.take(i as int + 1).drop_last() =~= vt.take(i as int));
            assert(vt.take(i as int + 1).last() == tlds@[i as int]@);
            if keep {
                assert(views_of(kept@) =~= views_of(kept0).push(tlds@[i as int]@));
            } else {
                assert(views_of(kept@) =~= views_of(kept0));
            }
        }
        i = i + 1;
    }
    proof {
        assert(views_of(tlds@).take(n as int) =~= views_of(tlds@));
    }
    let m = always.len();
    let mut out = kept;
    let mut j: usize = m;
    proof {
        assert(views_of(always@).subrange(m as int, m as int) =~= Seq::<Seq<char>>::empty());
    }
    while j > 0
        invariant
            m == always@.len(),
            j <= m,
            views_of(out@) == with_always_tlds(
                filtered_tlds(views_of(tlds@), views_of(never@)),
                views_of(always@).subrange(j as int, m as int),
            ),
        decreases j,
    {
        let ghost va = views_of(always@);
        proof {
            assert(va.subrange(j as int - 1, m as int)[0] == always@[j as int - 1]@);
            assert(va.subrange(j as int - 1, m as int).drop_first() =~= va.subrange(
                j as int,
                m as int,
            ));
        }
        let present = contains_ci_exec(&out, always[j - 1].as_str());
        if !present {
            let low = to_lower(always[j - 1].as_str());
            let ghost out0 = out@;
            out.insert(0, low);
            proof {
                assert(views_of(out@) =~= seq![lower_seq(always@[j as int - 1]@)] + views_of(
                    out0,
                ));
            }
        }
        j = j - 1;
    }
    proof {
        assert(views_of(always@).subrange(0, m as int) =~= views_of(always@));
    }
    out
}

/// Lexicographic order on character sequences, by code point.
pub open spec fn lex_le(a: Seq<char>, b: Seq<char>) -> bool
    decreases a.len(),
{
    if a.len() == 0 {
        true
    } else if b.len() == 0 {
        false
    } else if (a[0] as u32) == (b[0] as u32) {
        lex_le(a.drop_first(), b.drop_first())
    } else {
        (a[0] as u32) < (b[0] as u32)
    }
}

pub proof fn lemma_lex_le_total(a: Seq<char>, b: Seq<char>)
    ensures
        lex_le(a, b) || lex_le(b, a),
    decreases a.len(),
{
    if a.len() > 0 && b.len() > 0 && (a[0] as u32) == (b[0] as u32) {
        lemma_lex_le_total(a.drop_first(), b.drop_first());
    }
}

pub proof fn lemma_lex_le_trans(a: Seq<char>, b: Seq<char>, c: Seq<char>)
    requires
        lex_le(a, b),
        lex_le(b, c),
    ensures
        lex_le(a, c),
    decreases a.len(),
{
    if a.len() > 0 && b.len() > 0 && c.len() > 0 && (a[0] as u32) == (b[0] as u32) && (b[0] as u32)
        == (c[0] as u32) {
        lemma_lex_le_trans(a.drop_first(), b.drop_first(), c.drop_first());
    }
}

fn lex_le_exec(a: &str, b: &str) -> (r: bool)
    ensures
        r == lex_le(a@, b@),
{
    let na = a.unicode_len();
    let nb = b.unicode_len();
    proof {
        assert(a@.skip(0) =~= a@);
        assert(b@.skip(0) =~= b@);
    }
    let mut i: usize = 0;
    while i < na && i < nb
        invariant
            na == a@.len(),
            nb == b@.len(),
            i <= na,
            i <= nb,
            lex_le(a@, b@) == lex_le(a@.skip(i as int), b@.skip(i as int)),
        decreases na - i,
    {
        let ca = a.get_char(i);
        let cb = b.get_char(i);
        proof {
            assert(a@.skip(i as int)[0] == a@[i as int]);
            assert(b@.skip(i as int)[0] == b@[i as int]);
            assert(a@.skip(i as int).drop_first() =~= a@.skip(i as int + 1));
            assert(b@.skip(i as int).drop_first() =~= b@.skip(i as int + 1));
        }
        if (ca as u32) != (cb as u32) {
            return (ca as u32) < (cb as u32);
        }
        i = i + 1;
    }
    proof {
        if i >= na {
            assert(a@.skip(i as int) =~= Seq::<char>::empty());
        } else {
            assert(b@.skip(i as int) =~= Seq::<char>::empty());
            assert(a@.skip(i as int).len() > 0);
        }
    }
    na <= nb
}

/// The TLDs shown first, in their fixed order.
pub open spec fn priority_tlds() -> Seq<Seq<char>> {
    seq![
        "com"@, "net"@, "org"@, "io"@, "ai"@, "dev"@, "app"@, "co"@, "me"@, "tech"@, "xyz"@,
        "online"@, "site"@, "store"@, "shop"@, "blog"@, "cloud"@, "digital"@, "eu"@, "us"@,
        "info"@, "email"@, "pro"@, "live"@, "zone"@, "team"@, "solutions"@,
    ]
}

/// First index of `t` in `list`, or `list.len()` when absent.
pub open spec fn first_index(list: Seq<Seq<char>>, t: Seq<char>) -> int
    decreases list.len(),
{
    if list.len() == 0 {
        0
    } else if list[0] == t {
        0
    } else {
        1 + first_index(list.drop_first(), t)
    }
}

proof fn lemma_first_index_bounds(list: Seq<Seq<char>>, t: Seq<char>)
    ensures
        0 <= first_index(list, t) <= list.len(),
        first_index(list, t) < list.len() ==> list[first_index(list, t)] == t,
    decreases list.len(),
{
    if list.len() > 0 && list[0] != t {
        lemma_first_index_bounds(list.drop_first(), t);
    }
}

/// Sort rank of a TLD: its place in the priority list, or the length
/// of that list when it is not a priority TLD.
pub open spec fn priority_rank(t: Seq<char>) -> int {
    first_index(priority_tlds(), t)
}

/// The order of the result list: priority TLDs first, in priority
/// order, then the rest alphabetically.
pub open spec fn tld_le(a: Seq<char>, b: Seq<char>) -> bool {
    let ra = priority_rank(a);
    let rb = priority_rank(b);
    if ra != rb {
        ra < rb
    } else if ra < priority_tlds().len() {
        true
    } else {
        lex_le(a, b)
    }
}

pub proof fn lemma_tld_le_total(a: Seq<char>, b: Seq<char>)
    ensures
        tld_le(a, b) || tld_le(b, a),
{
    lemma_lex_le_total(a, b);
}

pub proof fn lemma_tld_le_trans(a: Seq<char>, b: Seq<char>, c: Seq<char>)
    requires
        tld_le(a, b),
        tld_le(b, c),
    ensures
        tld_le(a, c),
{
    lemma_first_index_bounds(priority_tlds(), a);
    lemma_first_index_bounds(priority_tlds(), b);
    lemma_first_index_bounds(priority_tlds(), c);
    if priority_rank(a) == priority_rank(b) && priority_rank(b) == priority_rank(c)
        && priority_rank(a) >= priority_tlds().len() {
        lemma_lex_le_trans(a, b, c);
    }
}

/// The built-in TLD list: exactly the priority TLDs, in order.
pub fn get_builtin_tlds() -> (r: Vec<String>)
    ensures
        views_of(r@) == priority_tlds(),
{
    let out: Vec<String> = vec![
        String::from_str("com"), String::from_str("net"), String::from_str("org"),
        String::from_str("io"), String::from_str("ai"), String::from_str("dev"),
        String::from_str("app"), String::from_str("co"), String::from_str("me"),
        String::from_str("tech"), String::from_str("xyz"), String::from_str("online"),
        String::from_str("site"), String::from_str("store"), String::from_str("shop"),
        String::from_str("blog"), String::from_str("cloud"), String::from_str("digital"),
        String::from_str("eu"), String::from_str("us"), String::from_str("info"),
        String::from_str("email"), String::from_str("pro"), String::from_str("live"),
        String::from_str("zone"), String::from_str("team"), String::from_str("solutions"),
    ];
    proof {
        assert(views_of(out@) =~= priority_tlds());
    }
    out
}

fn priority_rank_exec(t: &str) -> (r: usize)
    ensures
        r as int == priority_rank(t@),
{
    let list = get_builtin_tlds();
    let ghost vs = views_of(list@);
    let n = list.len();
    proof {
        assert(vs.subrange(0, n as int) =~= vs);
    }
    let mut i: usize = 0;
    while i < n
        invariant
            n == list@.len(),
            i <= n,
            vs == views_of(list@),
            vs == priority_tlds(),
            first_index(vs.subrange(i as int, n as int), t@) + i == first_index(vs, t@),
            forall|u: int| 0 <= u < i ==> vs[u] != t@,
        decreases n - i,
    {
        proof {
            assert(vs.subrange(i as int, n as int)[0] == vs[i as int]);
            assert(vs.subrange(i as int, n as int).drop_first() =~= vs.subrange(
                i as int + 1,
                n as int,
            ));
        }
        if str_eq(list[i].as_str(), t) {
            proof {
                assert(vs[i as int] == t@);
                assert(first_index(vs, t@) == i as int);
            }
            return i;
        }
        i = i + 1;
    }
    proof {
        assert(vs.subrange(n as int, n as int) =~= Seq::<Seq<char>>::empty());
        assert(first_index(vs, t@) == n as int);
    }
    n
}

fn tld_le_exec(a: &str, b: &str) -> (r: bool)
    ensures
        r == tld_le(a@, b@),
{
    let ra = priority_rank_exec(a);
    let rb = priority_rank_exec(b);
    if ra != rb {
        ra < rb
    } else if ra < 27 {
        proof {
            assert(priority_tlds().len() == 27);
        }
        true
    } else {
        proof {
            assert(priority_tlds().len() == 27);
        }
        lex_le_exec(a, b)
    }
}

/// Sort a TLD list: priority TLDs first in priority order, the rest
/// alphabetically. The result is a permutation of the input.
pub fn sort_tlds_with_priority(tlds: Vec<String>) -> (r: Vec<String>)
    ensures
        r@.len() == tlds@.len(),
        forall|i: int, j: int| 0 <= i < j < r@.len() ==> tld_le(#[trigger] r@[i]@, #[trigger] r@[j]@),
        views_of(r@).to_multiset() == views_of(tlds@).to_multiset(),
{
    let n = tlds.len();
    let mut out: Vec<String> = Vec::new();
    let mut i: usize = 0;
    proof {
        assert(views_of(tlds@).take(0) =~= Seq::<Seq<char>>::empty());
        assert(views_of(out@) =~= Seq::<Seq<char>>::empty());
        assert(views_of(out@).to_multiset() =~= views_of(tlds@).take(0).to_multiset());
    }
    while i < n
        invariant
            n == tlds@.len(),
            i <= n,
            out@.len() == i,
            forall|s: int, t: int|
                0 <= s < t < out@.len() ==> tld_le(#[trigger] out@[s]@, #[trigger] out@[t]@),
            views_of(out@).to_multiset() == views_of(tlds@).take(i as int).to_multiset(),
        decreases n - i,
    {
        let x = tlds[i].clone();
        let m = out.len();
        let mut p: usize = 0;
        while p < m && tld_le_exec(out[p].as_str(), x.as_str())
            invariant
                m == out@.len(),
                p <= m,
                x@ == tlds@[i as int]@,
                forall|u: int| 0 <= u < p ==> tld_le(#[trigger] out@[u]@, x@),
            decreases m - p,
        {
            p = p + 1;
        }
        proof {
            if p < m {
                lemma_tld_le_total(out@[p as int]@, x@);
            }
        }
        let ghost out0 = out@;
        out.insert(p, x);
        proof {
            broadcast use vstd::seq_lib::group_seq_properties;

            assert forall|s: int, t: int| 0 <= s < t < out@.len() implies tld_le(
                #[trigger] out@[s]@,
                #[trigger] out@[t]@,
            ) by {
                if s < p && t > p {
                    assert(out@[s] == out0[s]);
                    assert(out@[t] == out0[t - 1]);
                } else if s == p && t > p {
                    assert(out@[t] == out0[t - 1]);
                    if t - 1 > p {
                        lemma_tld_le_trans(x@, out0[p as int]@, out0[t - 1]@);
                    }
                } else if s < p && t == p {
                    assert(out@[s] == out0[s]);
                } else if t < p {
                    assert(out@[s] == out0[s]);
                    assert(out@[t] == out0[t]);
                } else if s > p {
                    assert(out@[s] == out0[s - 1]);
                    assert(out@[t] == out0[t - 1]);
                }
            }
            assert(out@.remove(p as int) =~= out0);
            lemma_views_multiset_insert(out0, p as int, out@[p as int]);
            assert(views_of(tlds@).take(i as int + 1).drop_last() =~= views_of(tlds@).take(
                i as int,
            ));
            assert(views_of(tlds@).take(i as int + 1) =~= views_of(tlds@).take(i as int).push(
                tlds@[i as int]@,
            ));
            views_of(tlds@).take(i as int).to_multiset_ensures();
        }
        i = i + 1;
    }
    proof {
        assert(views_of(tlds@).take(n as int) =~= views_of(tlds@));
    }
    out
}

proof fn lemma_views_multiset_insert(s: Seq<String>, p: int, x: String)
    requires
        0 <= p <= s.len(),
    ensures
        views_of(s.insert(p, x)).to_multiset() == views_of(s).to_multiset().insert(x@),
{
    broadcast use vstd::seq_lib::group_seq_properties;

    let t = s.insert(p, x);
    let vt = views_of(t);
    let vs = views_of(s);
    assert(vt =~= vs.take(p).push(x@) + vs.skip(p));
    assert(vs =~= vs.take(p) + vs.skip(p));
    vstd::seq_lib::lemma_multiset_commutative(vs.take(p).push(x@), vs.skip(p));
    vstd::seq_lib::lemma_multiset_commutative(vs.take(p), vs.skip(p));
    vs.take(p).to_multiset_ensures();
    assert(vs.take(p).push(x@).to_multiset() =~= vs.take(p).to_multiset().insert(x@));
    assert(vt.to_multiset() =~= vs.to_multiset().insert(x@));
}

/// Verbatim text of the default user configuration file.
pub fn get_default_config_toml() -> (r: String)
    ensures
        r@
            == "# Domain Query (dq) Configuration\n\n[tlds]\n# TLDs to always include in results, regardless of IANA list\n# always = [\"com\", \"net\", \"org\", \"io\", \"dev\", \"rs\", \"no\", \"pm\"]\nalways = []\n\n# TLDs to never include/hide from results\n# never = [\"adult\", \"xxx\", \"reklame\"]\nnever = []\n"@,
{
    String::from_str(
        "# Domain Query (dq) Configuration\n\n[tlds]\n# TLDs to always include in results, regardless of IANA list\n# always = [\"com\", \"net\", \"org\", \"io\", \"dev\", \"rs\", \"no\", \"pm\"]\nalways = []\n\n# TLDs to never include/hide from results\n# never = [\"adult\", \"xxx\", \"reklame\"]\nnever = []\n",
    )
}

} // verus!
