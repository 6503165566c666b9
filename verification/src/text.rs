//! Text rendering of numbers: decimal and lower-case hexadecimal digits.

use vstd::prelude::*;
use vstd::string::StrSliceExecFns;

verus! {

/// Appends one character to a string.
pub assume_specification[ std::string::String::push ](s: &mut std::string::String, ch: char)
    ensures
        final(s)@ == old(s)@.push(ch),
;

/// The character of a digit value in base 16 or below (lower-case letters).
pub open spec fn digit_char(d: nat) -> char {
    if d == 0 { '0' }
    else if d == 1 { '1' }
    else if d == 2 { '2' }
    else if d == 3 { '3' }
    else if d == 4 { '4' }
    else if d == 5 { '5' }
    else if d == 6 { '6' }
    else if d == 7 { '7' }
    else if d == 8 { '8' }
    else if d == 9 { '9' }
    else if d == 10 { 'a' }
    else if d == 11 { 'b' }
    else if d == 12 { 'c' }
    else if d == 13 { 'd' }
    else if d == 14 { 'e' }
    else { 'f' }
}

/// Digits of `n` in base `base`, most significant first, without leading zeros
/// ("0" for zero).
pub open spec fn digits(n: nat, base: nat) -> Seq<char>
    recommends
        2 <= base <= 16,
    decreases n,
{
    if base < 2 || n < base {
        seq![digit_char(n % 16)]
    } else {
        proof {
            assert(n / base < n) by (nonlinear_arith)
                requires
                    base >= 2,
                    n >= base,
            ;
        }
        digits(n / base, base).push(digit_char(n % base))
    }
}

/// Decimal text of a natural number.
pub open spec fn decimal(n: nat) -> Seq<char> {
    digits(n, 10)
}

/// Lower-case hexadecimal text of a natural number.
pub open spec fn hex_lower(n: nat) -> Seq<char> {
    digits(n, 16)
}

fn digit_to_char(d: u64) -> (c: char)
    requires
        d < 16,
    ensures
        c == digit_char(d as nat),
{
    if d == 0 { '0' }
    else if d == 1 { '1' }
    else if d == 2 { '2' }
    else if d == 3 { '3' }
    else if d == 4 { '4' }
    else if d == 5 { '5' }
    else if d == 6 { '6' }
    else if d == 7 { '7' }
    else if d == 8 { '8' }
    else if d == 9 { '9' }
    else if d == 10 { 'a' }
    else if d == 11 { 'b' }
    else if d == 12 { 'c' }
    else if d == 13 { 'd' }
    else if d == 14 { 'e' }
    else { 'f' }
}

fn push_digits(s: &mut String, n: u64, base: u64)
    requires
        2 <= base <= 16,
    ensures
        final(s)@ == old(s)@ + digits(n as nat, base as nat),
    decreases n,
{
    let ghost start = s@;
    if n >= base {
        assert(n / base < n) by (nonlinear_arith)
            requires
                base >= 2,
                n >= base,
        ;
        push_digits(s, n / base, base);
    } else {
        assert(n % 16 == n % base) by (nonlinear_arith)
            requires
                n < base,
                base <= 16,
        ;
    }
    let d = n % base;
    s.push(digit_to_char(d));
    assert(s@ =~= start + digits(n as nat, base as nat));
}

/// Appends the decimal text of `n`.
pub fn push_decimal(s: &mut String, n: u64)
    ensures
        final(s)@ == old(s)@ + decimal(n as nat),
{
    push_digits(s, n, 10);
}

/// Appends the lower-case hexadecimal text of `n`.
pub fn push_hex(s: &mut String, n: u64)
    ensures
        final(s)@ == old(s)@ + hex_lower(n as nat),
{
    push_digits(s, n, 16);
}

/// Appends a string slice.
pub fn push_str(s: &mut String, t: &str)
    ensures
        final(s)@ == old(s)@ + t@,
{
    s.append(t);
}

/// Decimal text of an unsigned integer.
pub fn decimal_string(n: u64) -> (s: String)
    ensures
        s@ == decimal(n as nat),
{
    let mut s = String::new();
    push_decimal(&mut s, n);
    assert(s@ =~= decimal(n as nat));
    s
}

/// Whether two string slices hold the same characters.
pub fn str_equal(a: &str, b: &str) -> (r: bool)
    ensures
        r == (a@ == b@),
{
    let n = a.unicode_len();
    if n != b.unicode_len() {
        return false;
    }
    let mut i: usize = 0;
    while i < n
        invariant
            n == a@.len(),
            n == b@.len(),
            i <= n,
            forall|j: int| 0 <= j < i ==> a@[j] == b@[j],
        decreases n - i,
    {
        if a.get_char(i) != b.get_char(i) {
            return false;
        }
        i = i + 1;
    }
    assert(a@ =~= b@);
    true
}

/// `s` with every leading repetition of `p` removed (nothing removed when `p`
/// is empty).
pub open spec fn strip_all_prefixes(s: Seq<char>, p: Seq<char>) -> Seq<char>
    decreases s.len(),
{
    if p.len() > 0 && p.len() <= s.len() && s.take(p.len() as int) == p {
        strip_all_prefixes(s.skip(p.len() as int), p)
    } else {
        s
    }
}

/// Whether `s` holds `p` at position `at`.
fn holds_at(s: &str, n: usize, p: &str, m: usize, at: usize) -> (r: bool)
    requires
        n == s@.len(),
        m == p@.len(),
        at <= n,
    ensures
        r == (m <= n - at && s@.skip(at as int).take(m as int) == p@),
{
    if m > n - at {
        return false;
    }
    let mut j: usize = 0;
    while j < m
        invariant
            n == s@.len(),
            m == p@.len(),
            at + m <= n,
            j <= m,
            forall|i: int| 0 <= i < j ==> s@[at + i] == p@[i],
        decreases m - j,
    {
        if s.get_char(at + j) != p.get_char(j) {
            assert(s@.skip(at as int).take(m as int)[j as int] != p@[j as int]);
            return false;
        }
        j = j + 1;
    }
    assert(s@.skip(at as int).take(m as int) =~= p@);
    true
}

/// `s` with every leading repetition of `p` removed, as `str::trim_start_matches`
/// does for a string pattern.
pub fn trim_start_matches<'a>(s: &'a str, p: &str) -> (r: &'a str)
    ensures
        r@ == strip_all_prefixes(s@, p@),
{
    let n = s.unicode_len();
    let m = p.unicode_len();
    if m == 0 {
        return s;
    }
    let mut at: usize = 0;
    assert(s@.skip(0) =~= s@);
    while holds_at(s, n, p, m, at)
        invariant
            n == s@.len(),
            m == p@.len(),
            m > 0,
            at <= n,
            strip_all_prefixes(s@, p@) == strip_all_prefixes(s@.skip(at as int), p@),
        decreases n - at,
    {
        assert(s@.skip(at as int).skip(m as int) =~= s@.skip(at + m));
        at = at + m;
    }
    s.substring_char(at, n)
}

/// Whether `s` holds the character `c`.
pub fn has_char(s: &str, c: char) -> (r: bool)
    ensures
        r == s@.contains(c),
{
    let n = s.unicode_len();
    let mut i: usize = 0;
    while i < n
        invariant
            n == s@.len(),
            i <= n,
            forall|j: int| 0 <= j < i ==> s@[j] != c,
        decreases n - i,
    {
        if s.get_char(i) == c {
            assert(s@[i as int] == c);
            return true;
        }
        i = i + 1;
    }
    false
}

/// A string made of `a` followed by `b`.
pub fn concat_str(a: &str, b: &str) -> (r: String)
    ensures
        r@ == a@ + b@,
{
    let mut r = a.to_owned();
    r.append(b);
    r
}

} // verus!
