//! Verified ASCII text helpers: case folding, substring search, prefix
//! tests, trimming, and decimal formatting, used throughout the probe
//! pipeline.

use vstd::prelude::*;

verus! {

/// ASCII lowercase of one character; other characters are unchanged.
pub open spec fn lower_char(c: char) -> char {
    if 'A' <= c && c <= 'Z' {
        ((c as u32) + 32) as char
    } else {
        c
    }
}

/// ASCII lowercase of a character sequence.
pub open spec fn lower_seq(s: Seq<char>) -> Seq<char> {
    Seq::new(s.len(), |i: int| lower_char(s[i]))
}

/// A sequence is ASCII-lowercase when folding changes nothing.
pub open spec fn is_lower_seq(s: Seq<char>) -> bool {
    lower_seq(s) == s
}

/// Folding is idempotent: a folded sequence is already lowercase.
pub proof fn lemma_lower_seq_idempotent(s: Seq<char>)
    ensures
        lower_seq(lower_seq(s)) == lower_seq(s),
{
    assert(lower_seq(lower_seq(s)) =~= lower_seq(s));
}

pub fn lower_char_exec(c: char) -> (r: char)
    ensures
        r == lower_char(c),
{
    if 'A' <= c && c <= 'Z' {
        (((c as u32) + 32) as u8) as char
    } else {
        c
    }
}

/// The one-character string slice for an ASCII lowercase letter.
fn lower_letter_str(c: char) -> (r: &'static str)
    requires
        'A' <= c && c <= 'Z',
    ensures
        r@ =~= seq![lower_char(c)],
{
    proof {
        reveal_strlit("a");
        reveal_strlit("b");
        reveal_strlit("c");
        reveal_strlit("d");
        reveal_strlit("e");
        reveal_strlit("f");
        reveal_strlit("g");
        reveal_strlit("h");
        reveal_strlit("i");
        reveal_strlit("j");
        reveal_strlit("k");
        reveal_strlit("l");
        reveal_strlit("m");
        reveal_strlit("n");
        reveal_strlit("o");
        reveal_strlit("p");
        reveal_strlit("q");
        reveal_strlit("r");
        reveal_strlit("s");
        reveal_strlit("t");
        reveal_strlit("u");
        reveal_strlit("v");
        reveal_strlit("w");
        reveal_strlit("x");
        reveal_strlit("y");
        reveal_strlit("z");
    }
    match c {
        'A' => "a",
        'B' => "b",
        'C' => "c",
        'D' => "d",
        'E' => "e",
        'F' => "f",
        'G' => "g",
        'H' => "h",
        'I' => "i",
        'J' => "j",
        'K' => "k",
        'L' => "l",
        'M' => "m",
        'N' => "n",
        'O' => "o",
        'P' => "p",
        'Q' => "q",
        'R' => "r",
        'S' => "s",
        'T' => "t",
        'U' => "u",
        'V' => "v",
        'W' => "w",
        'X' => "x",
        'Y' => "y",
        _ => "z",
    }
}

/// ASCII-lowercase a string. Characters outside `A`-`Z` pass through.
pub fn to_lower(s: &str) -> (r: String)
    ensures
        r@ == lower_seq(s@),
{
    let n = s.unicode_len();
    let mut out = String::new();
    let mut i: usize = 0;
    while i < n
        invariant
            n == s@.len(),
            i <= n,
            out@ =~= lower_seq(s@).subrange(0, i as int),
        decreases n - i,
    {
        let c = s.get_char(i);
        if 'A' <= c && c <= 'Z' {
            out.append(lower_letter_str(c));
        } else {
            out.append(s.substring_char(i, i + 1));
            proof {
                assert(s@.subrange(i as int, i as int + 1) =~= seq![s@[i as int]]);
            }
        }
        i = i + 1;
        proof {
            assert(out@ =~= lower_seq(s@).subrange(0, i as int));
        }
    }
    proof {
        assert(lower_seq(s@).subrange(0, n as int) =~= lower_seq(s@));
    }
    out
}

/// `p` occurs in `s` starting at index `i`.
pub open spec fn matches_at(s: Seq<char>, p: Seq<char>, i: int) -> bool {
    0 <= i && i + p.len() <= s.len() && s.subrange(i, i + p.len()) == p
}

/// `p` is a contiguous subsequence of `s`.
pub open spec fn has_substring(s: Seq<char>, p: Seq<char>) -> bool {
    exists|i: int| matches_at(s, p, i)
}

/// `p` is a prefix of `s`.
pub open spec fn has_prefix(s: Seq<char>, p: Seq<char>) -> bool {
    p.len() <= s.len() && s.subrange(0, p.len() as int) == p
}

fn match_at_exec(s: &str, p: &str, i: usize) -> (r: bool)
    requires
        i + p@.len() <= s@.len(),
    ensures
        r == matches_at(s@, p@, i as int),
{
    let n = s.unicode_len();
    let m = p.unicode_len();
    let mut j: usize = 0;
    while j < m
        invariant
            n == s@.len(),
            m == p@.len(),
            i + m <= n,
            j <= m,
            forall|k: int| 0 <= k < j ==> s@[i + k] == p@[k],
        decreases m - j,
    {
        if s.get_char(i + j) != p.get_char(j) {
            proof {
                assert(s@.subrange(i as int, i + p@.len()) != p@) by {
                    assert(s@.subrange(i as int, i + p@.len())[j as int] == s@[i + j]);
                }
            }
            return false;
        }
        j = j + 1;
    }
    proof {
        assert(s@.subrange(i as int, i + p@.len()) =~= p@);
    }
    true
}

/// Substring search: does `p` occur anywhere in `s`?
pub fn str_contains(s: &str, p: &str) -> (r: bool)
    ensures
        r == has_substring(s@, p@),
{
    let n = s.unicode_len();
    let m = p.unicode_len();
    if m > n {
        proof {
            assert(forall|i: int| !matches_at(s@, p@, i));
        }
        return false;
    }
    if m == 0 {
        proof {
            assert(s@.subrange(0, 0) =~= p@);
            assert(matches_at(s@, p@, 0));
        }
        return true;
    }
    let mut i: usize = 0;
    while i <= n - m
        invariant
            n == s@.len(),
            m == p@.len(),
            0 < m <= n,
            i <= n - m + 1,
            forall|k: int| 0 <= k < i ==> !matches_at(s@, p@, k),
        decreases n - i,
    {
        if match_at_exec(s, p, i) {
            return true;
        }
        i = i + 1;
    }
    proof {
        assert(forall|k: int| matches_at(s@, p@, k) ==> 0 <= k <= n - m);
    }
    false
}

/// Character-for-character equality of two string slices.
pub fn str_eq(a: &str, b: &str) -> (r: bool)
    ensures
        r == (a@ == b@),
{
    let n = a.unicode_len();
    let m = b.unicode_len();
    if n != m {
        return false;
    }
    let r = match_at_exec(a, b, 0);
    proof {
        assert(a@.subrange(0, m as int) =~= a@);
    }
    r
}

/// Does `s` start with `p`?
pub fn str_has_prefix(s: &str, p: &str) -> (r: bool)
    ensures
        r == has_prefix(s@, p@),
{
    let n = s.unicode_len();
    let m = p.unicode_len();
    if m > n {
        return false;
    }
    match_at_exec(s, p, 0)
}

/// The decimal digit character for `d` in `0..10`.
pub open spec fn digit_char(d: int) -> char {
    (0x30 + d) as char
}

/// Decimal notation of a natural number, most significant digit first.
pub open spec fn dec_str(n: int) -> Seq<char>
    decreases n,
{
    if n < 10 {
        seq![digit_char(if n < 0 { 0 } else { n })]
    } else {
        dec_str(n / 10).push(digit_char(n % 10))
    }
}

fn digit_str(d: u16) -> (r: &'static str)
    requires
        d < 10,
    ensures
        r@ =~= seq![digit_char(d as int)],
{
    proof {
        reveal_strlit("0");
        reveal_strlit("1");
        reveal_strlit("2");
        reveal_strlit("3");
        reveal_strlit("4");
        reveal_strlit("5");
        reveal_strlit("6");
        reveal_strlit("7");
        reveal_strlit("8");
        reveal_strlit("9");
    }
    match d {
        0 => "0",
        1 => "1",
        2 => "2",
        3 => "3",
        4 => "4",
        5 => "5",
        6 => "6",
        7 => "7",
        8 => "8",
        _ => "9",
    }
}

/// Format a number in decimal.
pub fn u16_to_string(n: u16) -> (r: String)
    ensures
        r@ == dec_str(n as int),
    decreases n,
{
    if n < 10 {
        let r = String::from_str(digit_str(n));
        proof {
            assert(r@ =~= dec_str(n as int));
        }
        r
    } else {
        let mut r = u16_to_string(n / 10);
        r.append(digit_str(n % 10));
        proof {
            assert(r@ =~= dec_str(n as int));
        }
        r
    }
}

} // verus!
