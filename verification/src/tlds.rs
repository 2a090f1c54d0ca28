//! The IANA TLD list: parsing of the plain-text list (one TLD per
//! line, `#` comments) into clean lowercase entries, and expansion of
//! a base name across a list of TLDs.

use vstd::prelude::*;
use crate::text::{
    has_prefix, is_lower_seq, lemma_lower_seq_idempotent, lower_seq, str_has_prefix, to_lower,
};

verus! {

/// Failure of the TLD list download.
#[derive(Debug, Clone, Eq)]
pub enum TldError {
    /// Carries the underlying error text.
    FetchError(String),
}

impl TldError {
    pub open spec fn spec_eq(&self, other: &TldError) -> bool {
        match (self, other) {
            (TldError::FetchError(a), TldError::FetchError(b)) => a@ == b@,
        }
    }

    /// Human-readable error text.
    pub fn message(&self) -> (r: String)
        ensures
            match self {
                TldError::FetchError(e) => r@ == "Failed to fetch TLD list: "@ + e@,
            },
    {
        match self {
            TldError::FetchError(e) => {
                let mut m = String::from_str("Failed to fetch TLD list: ");
                m.append(e.as_str());
                m
            },
        }
    }
}

impl PartialEq for TldError {
    fn eq(&self, other: &TldError) -> (r: bool) {
        match (self, other) {
            (TldError::FetchError(a), TldError::FetchError(b)) => a.eq(b),
        }
    }
}

impl vstd::std_specs::cmp::PartialEqSpecImpl for TldError {
    open spec fn obeys_eq_spec() -> bool {
        true
    }

    open spec fn eq_spec(&self, other: &TldError) -> bool {
        self.spec_eq(other)
    }
}

/// Blank characters trimmed from a list line.
pub open spec fn is_space(c: char) -> bool {
    c == ' ' || c == '\t' || c == '\r'
}

pub open spec fn trim_front(s: Seq<char>) -> Seq<char>
    decreases s.len(),
{
    if s.len() > 0 && is_space(s[0]) {
        trim_front(s.drop_first())
    } else {
        s
    }
}

pub open spec fn trim_back(s: Seq<char>) -> Seq<char>
    decreases s.len(),
{
    if s.len() > 0 && is_space(s.last()) {
        trim_back(s.drop_last())
    } else {
        s
    }
}

/// `s` without leading and trailing blanks.
pub open spec fn trim_spec(s: Seq<char>) -> Seq<char> {
    trim_back(trim_front(s))
}

fn is_space_exec(c: char) -> (b: bool)
    ensures
        b == is_space(c),
{
    c == ' ' || c == '\t' || c == '\r'
}

/// Strip leading and trailing blanks from one line.
pub fn trim_ascii(s: &str) -> (r: String)
    ensures
        r@ == trim_spec(s@),
{
    let n = s.unicode_len();
    proof {
        assert(s@.subrange(0, n as int) =~= s@);
    }
    let mut lo: usize = 0;
    while lo < n && is_space_exec(s.get_char(lo))
        invariant
            n == s@.len(),
            lo <= n,
            trim_front(s@) == trim_front(s@.subrange(lo as int, n as int)),
        decreases n - lo,
    {
        proof {
            assert(s@.subrange(lo as int, n as int)[0] == s@[lo as int]);
            assert(s@.subrange(lo as int, n as int).drop_first() =~= s@.subrange(
                lo as int + 1,
                n as int,
            ));
        }
        lo = lo + 1;
    }
    proof {
        if lo < n {
            assert(s@.subrange(lo as int, n as int)[0] == s@[lo as int]);
        }
        assert(trim_front(s@) == s@.subrange(lo as int, n as int));
    }
    let mut hi: usize = n;
    while hi > lo && is_space_exec(s.get_char(hi - 1))
        invariant
            n == s@.len(),
            lo <= hi <= n,
            trim_front(s@) == s@.subrange(lo as int, n as int),
            trim_back(s@.subrange(lo as int, n as int)) == trim_back(
                s@.subrange(lo as int, hi as int),
            ),
        decreases hi,
    {
        proof {
            assert(s@.subrange(lo as int, hi as int).last() == s@[hi as int - 1]);
            assert(s@.subrange(lo as int, hi as int).drop_last() =~= s@.subrange(
                lo as int,
                hi as int - 1,
            ));
        }
        hi = hi - 1;
    }
    proof {
        if hi > lo {
            assert(s@.subrange(lo as int, hi as int).last() == s@[hi as int - 1]);
        }
        assert(trim_back(s@.subrange(lo as int, hi as int)) == s@.subrange(
            lo as int,
            hi as int,
        ));
    }
    String::from_str(s.substring_char(lo, hi))
}

/// Index of the first line break at or after `i`, or the end of `s`.
pub open spec fn next_newline(s: Seq<char>, i: int) -> int
    decreases s.len() - i,
{
    if i < 0 || i >= s.len() {
        s.len() as int
    } else if s[i] == '\n' {
        i
    } else {
        next_newline(s, i + 1)
    }
}

pub proof fn lemma_next_newline_bounds(s: Seq<char>, i: int)
    requires
        0 <= i <= s.len(),
    ensures
        i <= next_newline(s, i) <= s.len(),
    decreases s.len() - i,
{
    if i < s.len() && s[i] != '\n' {
        lemma_next_newline_bounds(s, i + 1);
    }
}

/// The list entry a line yields: trimmed and lowercased.
pub open spec fn line_entry(line: Seq<char>) -> Seq<char> {
    lower_seq(trim_spec(line))
}

/// A line survives the filter when its entry is non-empty, is not a
/// comment, and is not a punycode TLD.
pub open spec fn keep_line(line: Seq<char>) -> bool {
    let e = line_entry(line);
    e.len() > 0 && e[0] != '#' && !has_prefix(e, "xn--"@)
}

/// The clean TLD entries of the text from position `i` on.
pub open spec fn tld_list_from(s: Seq<char>, i: int) -> Seq<Seq<char>>
    decreases s.len() - i,
{
    if i < 0 || i >= s.len() {
        Seq::empty()
    } else {
        let jn = next_newline(s, i);
        let j = if jn < i {
            i
        } else if jn > s.len() {
            s.len() as int
        } else {
            jn
        };
        let line = s.subrange(i, j);
        let rest = if j >= s.len() {
            Seq::<Seq<char>>::empty()
        } else {
            tld_list_from(s, j + 1)
        };
        if keep_line(line) {
            seq![line_entry(line)] + rest
        } else {
            rest
        }
    }
}

/// The views of a vector of strings.
pub open spec fn views_of(ss: Seq<String>) -> Seq<Seq<char>> {
    ss.map_values(|x: String| x@)
}

/// Every entry of the list is non-empty, lowercase, no comment, and
/// not punycode.
pub proof fn lemma_tld_list_clean(s: Seq<char>, i: int)
    requires
        0 <= i,
    ensures
        forall|t: int|
            0 <= t < tld_list_from(s, i).len() ==> {
                let e = #[trigger] tld_list_from(s, i)[t];
                e.len() > 0 && is_lower_seq(e) && e[0] != '#' && !has_prefix(e, "xn--"@)
            },
    decreases s.len() - i,
{
    if i < s.len() {
        let jn = next_newline(s, i);
        lemma_next_newline_bounds(s, i);
        let line = s.subrange(i, jn);
        lemma_lower_seq_idempotent(trim_spec(line));
        if jn < s.len() {
            lemma_tld_list_clean(s, jn + 1);
        }
        assert forall|t: int| 0 <= t < tld_list_from(s, i).len() implies {
            let e = #[trigger] tld_list_from(s, i)[t];
            e.len() > 0 && is_lower_seq(e) && e[0] != '#' && !has_prefix(e, "xn--"@)
        } by {
            if keep_line(line) {
                if t > 0 {
                    assert(tld_list_from(s, i)[t] == tld_list_from(s, jn + 1)[t - 1]);
                }
            } else {
                assert(tld_list_from(s, i)[t] == tld_list_from(s, jn + 1)[t]);
            }
        }
    }
}

/// Parse the IANA TLD list: split on line breaks, trim and lowercase
/// each line, and drop blank lines, `#` comments and punycode
/// (`xn--`) entries. Every returned entry is non-empty and lowercase.
pub fn parse_tld_list(body: &str) -> (r: Vec<String>)
    ensures
        views_of(r@) == tld_list_from(body@, 0),
        forall|t: int|
            0 <= t < r@.len() ==> {
                let e = (#[trigger] r@[t])@;
                e.len() > 0 && is_lower_seq(e) && e[0] != '#' && !has_prefix(e, "xn--"@)
            },
{
    let n = body.unicode_len();
    let mut out: Vec<String> = Vec::new();
    let mut i: usize = 0;
    proof {
        assert(views_of(out@) =~= Seq::<Seq<char>>::empty());
    }
    while i < n
        invariant
            n == body@.len(),
            i <= n,
            tld_list_from(body@, 0) == views_of(out@) + tld_list_from(body@, i as int),
        decreases n - i,
    {
        let ghost s = body@;
        let mut j: usize = i;
        while j < n && body.get_char(j) != '\n'
            invariant
                n == s.len(),
                s == body@,
                i <= j <= n,
                next_newline(s, i as int) == next_newline(s, j as int),
            decreases n - j,
        {
            proof {
                assert(next_newline(s, j as int) == next_newline(s, j as int + 1));
            }
            j = j + 1;
        }
        proof {
            assert(next_newline(s, j as int) == j as int);
            lemma_next_newline_bounds(s, i as int);
        }
        let line = body.substring_char(i, j);
        let trimmed = trim_ascii(line);
        let entry = to_lower(trimmed.as_str());
        proof {
            assert(entry@ == line_entry(s.subrange(i as int, j as int)));
        }
        let keep = entry.as_str().unicode_len() > 0 && entry.as_str().get_char(0) != '#'
            && !str_has_prefix(entry.as_str(), "xn--");
        let ghost out0 = out@;
        if keep {
            out.push(entry);
        }
        proof {
            if keep {
                assert(views_of(out@) =~= views_of(out0).push(
                    line_entry(s.subrange(i as int, j as int)),
                ));
                assert(views_of(out0) + tld_list_from(s, i as int) =~= views_of(out@)
                    + tld_list_from(s, j as int + 1));
            } else {
                assert(views_of(out0) + tld_list_from(s, i as int) =~= views_of(out@)
                    + tld_list_from(s, j as int + 1));
            }
        }
        if j < n {
            i = j + 1;
        } else {
            proof {
                assert(tld_list_from(s, j as int + 1) =~= Seq::<Seq<char>>::empty());
                assert(tld_list_from(s, n as int) =~= Seq::<Seq<char>>::empty());
            }
            i = n;
        }
    }
    proof {
        assert(tld_list_from(body@, i as int) =~= Seq::<Seq<char>>::empty());
        assert(views_of(out@) + tld_list_from(body@, i as int) =~= views_of(out@));
        lemma_tld_list_clean(body@, 0);
        assert forall|t: int| 0 <= t < out@.len() implies {
            let e = (#[trigger] out@[t])@;
            e.len() > 0 && is_lower_seq(e) && e[0] != '#' && !has_prefix(e, "xn--"@)
        } by {
            assert(views_of(out@)[t] == out@[t]@);
            assert(tld_list_from(body@, 0)[t] == out@[t]@);
        }
    }
    out
}

/// Pair `name` with every TLD of `tlds`: entry `i` of the result is
/// `{name}.{tlds[i]}`.
pub fn expand_tlds(name: &str, tlds: &Vec<String>) -> (r: Vec<String>)
    ensures
        r@.len() == tlds@.len(),
        forall|i: int| 0 <= i < r@.len() ==> (#[trigger] r@[i])@ == name@ + "."@ + tlds@[i]@,
{
    let n = tlds.len();
    let mut out: Vec<String> = Vec::new();
    let mut i: usize = 0;
    while i < n
        invariant
            n == tlds@.len(),
            i <= n,
            out@.len() == i,
            forall|t: int| 0 <= t < i ==> (#[trigger] out@[t])@ == name@ + "."@ + tlds@[t]@,
        decreases n - i,
    {
        let mut d = String::from_str(name);
        d.append(".");
        d.append(tlds[i].as_str());
        out.push(d);
        i = i + 1;
    }
    out
}

} // verus!
