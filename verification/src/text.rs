//! Character-level text utilities: conversion between strings and
//! character vectors, case-insensitive containment, lexicographic order
//! and decimal rendering.

use vstd::prelude::*;

verus! {

/// The characters of `s`, in order.
pub fn chars_of(s: &str) -> (v: Vec<char>)
    ensures
        v@ == s@,
{
    let len = s.unicode_len();
    let mut v: Vec<char> = Vec::new();
    let mut i: usize = 0;
    while i < len
        invariant
            i <= len,
            len == s@.len(),
            v@ == s@.take(i as int),
        decreases len - i,
    {
        v.push(s.get_char(i));
        i = i + 1;
        proof {
            assert(v@ =~= s@.take(i as int));
        }
    }
    proof {
        assert(s@.take(len as int) =~= s@);
    }
    v
}

/// Relies on `String: FromIterator<char>`: collecting characters yields
/// the string of exactly those characters in order.
#[verifier::external_body]
pub fn string_from_chars(v: &Vec<char>) -> (s: String)
    ensures
        s@ == v@,
{
    v.iter().collect()
}

/// The code point of `c` with ASCII upper-case letters folded to lower
/// case.
pub open spec fn lower_code(c: char) -> u32 {
    if 65 <= c as u32 && c as u32 <= 90 {
        (c as u32 + 32) as u32
    } else {
        c as u32
    }
}

/// Case-insensitive equality of two characters (ASCII folding).
pub open spec fn ci_eq(a: char, b: char) -> bool {
    lower_code(a) == lower_code(b)
}

/// The needle `n` occurs in the haystack `h` at position `i`, compared
/// case-insensitively.
pub open spec fn ci_matches_at(h: Seq<char>, n: Seq<char>, i: int) -> bool {
    &&& 0 <= i
    &&& i + n.len() <= h.len()
    &&& forall|k: int| 0 <= k < n.len() ==> ci_eq(h[i + k], #[trigger] n[k])
}

/// The needle `n` occurs somewhere in the haystack `h`, compared
/// case-insensitively. An empty needle occurs in every haystack.
pub open spec fn ci_contains(h: Seq<char>, n: Seq<char>) -> bool {
    exists|i: int| ci_matches_at(h, n, i)
}

/// The haystack `h` starts with the needle `n`, compared
/// case-insensitively.
pub open spec fn ci_starts_with(h: Seq<char>, n: Seq<char>) -> bool {
    ci_matches_at(h, n, 0)
}

fn lower_code_x(c: char) -> (r: u32)
    ensures
        r == lower_code(c),
{
    let u = c as u32;
    if 65 <= u && u <= 90 {
        u + 32
    } else {
        u
    }
}

fn ci_match_at(h: &Vec<char>, n: &Vec<char>, i: usize) -> (r: bool)
    requires
        i + n@.len() <= h@.len(),
    ensures
        r == ci_matches_at(h@, n@, i as int),
{
    let hl = h.len();
    let nl = n.len();
    let mut k: usize = 0;
    while k < nl
        invariant
            k <= nl,
            nl == n@.len(),
            hl == h@.len(),
            i + nl <= hl,
            forall|j: int| 0 <= j < k ==> ci_eq(h@[i + j], #[trigger] n@[j]),
        decreases nl - k,
    {
        if lower_code_x(h[i + k]) != lower_code_x(n[k]) {
            return false;
        }
        k = k + 1;
    }
    true
}

/// Whether `n` occurs in `h`, compared case-insensitively.
pub fn ci_contains_x(h: &Vec<char>, n: &Vec<char>) -> (r: bool)
    ensures
        r == ci_contains(h@, n@),
{
    if n.len() > h.len() {
        return false;
    }
    let bound = h.len() - n.len();
    let mut i: usize = 0;
    loop
        invariant
            bound == h@.len() - n@.len(),
            i <= bound,
            forall|j: int| 0 <= j < i ==> !ci_matches_at(h@, n@, j),
        decreases bound - i,
    {
        if ci_match_at(h, n, i) {
            return true;
        }
        if i == bound {
            return false;
        }
        i = i + 1;
    }
}

/// Whether `h` starts with `n`, compared case-insensitively.
pub fn ci_starts_with_x(h: &Vec<char>, n: &Vec<char>) -> (r: bool)
    ensures
        r == ci_starts_with(h@, n@),
{
    if n.len() > h.len() {
        return false;
    }
    ci_match_at(h, n, 0)
}

/// Strict lexicographic order on character sequences by code point,
/// starting the comparison at position `i`.
pub open spec fn lex_lt_from(a: Seq<char>, b: Seq<char>, i: int) -> bool
    decreases a.len() - i,
{
    if i >= a.len() {
        i < b.len()
    } else if i >= b.len() {
        false
    } else if a[i] != b[i] {
        a[i] < b[i]
    } else {
        lex_lt_from(a, b, i + 1)
    }
}

/// Strict lexicographic order on character sequences by code point.
pub open spec fn lex_lt(a: Seq<char>, b: Seq<char>) -> bool {
    lex_lt_from(a, b, 0)
}

/// Whether `a@` is strictly before `b@` in lexicographic order.
pub fn str_lex_lt(a: &str, b: &str) -> (r: bool)
    ensures
        r == lex_lt(a@, b@),
{
    let alen = a.unicode_len();
    let blen = b.unicode_len();
    let mut i: usize = 0;
    loop
        invariant
            i <= alen,
            alen == a@.len(),
            blen == b@.len(),
            lex_lt(a@, b@) == lex_lt_from(a@, b@, i as int),
        decreases alen - i,
    {
        if i >= alen {
            return i < blen;
        }
        if i >= blen {
            return false;
        }
        let ca = a.get_char(i);
        let cb = b.get_char(i);
        if ca != cb {
            return ca < cb;
        }
        i = i + 1;
    }
}

/// Whether the two strings hold the same characters.
pub fn str_eq(a: &str, b: &str) -> (r: bool)
    ensures
        r == (a@ == b@),
{
    let alen = a.unicode_len();
    let blen = b.unicode_len();
    if alen != blen {
        return false;
    }
    let mut i: usize = 0;
    while i < alen
        invariant
            i <= alen,
            alen == a@.len(),
            alen == b@.len(),
            forall|j: int| 0 <= j < i ==> a@[j] == b@[j],
        decreases alen - i,
    {
        if a.get_char(i) != b.get_char(i) {
            return false;
        }
        i = i + 1;
    }
    proof {
        assert(a@ =~= b@);
    }
    true
}

/// A short excerpt of a text: the text itself when it has at most 100
/// characters, else its first 100 characters followed by an ellipsis.
pub open spec fn excerpt_of(c: Seq<char>) -> Seq<char> {
    if c.len() > 100 {
        c.take(100) + ("...")@
    } else {
        c
    }
}

/// Renders the excerpt of `content`.
pub fn make_excerpt(content: &str) -> (r: String)
    ensures
        r@ == excerpt_of(content@),
{
    if content.unicode_len() > 100 {
        let head = content.substring_char(0, 100);
        let mut out = String::from_str(head);
        out.append("...");
        proof {
            assert(out@ =~= excerpt_of(content@));
        }
        out
    } else {
        String::from_str(content)
    }
}

/// The decimal digits of `n`, most significant first.
pub closed spec fn dec_digits(n: nat) -> Seq<char>
    decreases n,
{
    if n < 10 {
        seq![digit_char(n)]
    } else {
        dec_digits(n / 10).push(digit_char(n % 10))
    }
}

/// The character for a single decimal digit.
pub closed spec fn digit_char(d: nat) -> char {
    if d == 0 { '0' }
    else if d == 1 { '1' }
    else if d == 2 { '2' }
    else if d == 3 { '3' }
    else if d == 4 { '4' }
    else if d == 5 { '5' }
    else if d == 6 { '6' }
    else if d == 7 { '7' }
    else if d == 8 { '8' }
    else { '9' }
}

pub proof fn lemma_dec_digits_are_digits(n: nat)
    ensures
        dec_digits(n).len() > 0,
        forall|i: int| 0 <= i < dec_digits(n).len()
            ==> '0' <= #[trigger] dec_digits(n)[i] && dec_digits(n)[i] <= '9',
    decreases n,
{
    if n >= 10 {
        lemma_dec_digits_are_digits(n / 10);
    }
}

/// The single-digit string for `d`.
fn digit_str(d: u64) -> (r: &'static str)
    requires
        d < 10,
    ensures
        r@ =~= seq![digit_char(d as nat)],
{
    proof {
        reveal_strlit("0");
        reveal_strlit("1");
        reveal_strlit("2");
        reveal_strlit("3");
        reveal_strlit("4");
        reveal_strlit("5");
        reveal_strlit("6");
        reveal_strlit("7");
        reveal_strlit("8");
        reveal_strlit("9");
    }
    if d == 0 { "0" }
    else if d == 1 { "1" }
    else if d == 2 { "2" }
    else if d == 3 { "3" }
    else if d == 4 { "4" }
    else if d == 5 { "5" }
    else if d == 6 { "6" }
    else if d == 7 { "7" }
    else if d == 8 { "8" }
    else { "9" }
}

/// Renders `n` in decimal.
pub fn decimal_string_u64(n: u64) -> (r: String)
    ensures
        r@ == dec_digits(n as nat),
        r@.len() > 0,
        forall|i: int| 0 <= i < r@.len() ==> '0' <= #[trigger] r@[i] && r@[i] <= '9',
    decreases n,
{
    let mut out = String::new();
    if n >= 10 {
        let high = decimal_string_u64(n / 10);
        out.append(high.as_str());
    }
    out.append(digit_str(n % 10));
    proof {
        lemma_dec_digits_are_digits(n as nat);
        assert(out@ =~= dec_digits(n as nat));
    }
    out
}

/// The decimal rendering of a signed number: a minus sign before the
/// digits of its magnitude when negative.
pub open spec fn int_digits(n: int) -> Seq<char> {
    if n < 0 {
        seq!['-'] + dec_digits((-n) as nat)
    } else {
        dec_digits(n as nat)
    }
}

/// Renders `n` in decimal, with a leading minus sign when negative.
pub fn decimal_string_i32(n: i32) -> (r: String)
    ensures
        r@ == int_digits(n as int),
{
    if n < 0 {
        let mag: u64 = (-(n as i64)) as u64;
        let mut out = String::from_str("-");
        let digits = decimal_string_u64(mag);
        out.append(digits.as_str());
        proof {
            reveal_strlit("-");
            assert(("-")@ =~= seq!['-']);
            assert(out@ =~= int_digits(n as int));
        }
        out
    } else {
        let r = decimal_string_u64(n as u64);
        r
    }
}

} // verus!
