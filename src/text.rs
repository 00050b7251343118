//! Plain-text helpers: decimal digits, prefixes and short number labels.

use vstd::prelude::*;
use vstd::string::*;

verus! {

/// The character of a decimal digit.
pub open spec fn digit_char(d: nat) -> char {
    if d == 0 { '0' }
    else if d == 1 { '1' }
    else if d == 2 { '2' }
    else if d == 3 { '3' }
    else if d == 4 { '4' }
    else if d == 5 { '5' }
    else if d == 6 { '6' }
    else if d == 7 { '7' }
    else if d == 8 { '8' }
    else { '9' }
}

/// The decimal notation of `n`, without leading zeros.
pub open spec fn decimal(n: nat) -> Seq<char>
    decreases n,
{
    if n < 10 {
        seq![digit_char(n)]
    } else {
        decimal(n / 10) + seq![digit_char(n % 10)]
    }
}

/// Whether `p` is a prefix of `s`.
pub open spec fn has_prefix(s: Seq<char>, p: Seq<char>) -> bool {
    p.len() <= s.len() && s.subrange(0, p.len() as int) =~= p
}

fn digit_text(d: usize) -> (r: &'static str)
    requires
        d < 10,
    ensures
        r@ == seq![digit_char(d as nat)],
{
    proof {
        reveal_strlit("0");
        reveal_strlit("1");
        reveal_strlit("2");
        reveal_strlit("3");
        reveal_strlit("4");
        reveal_strlit("5");
        reveal_strlit("6");
        reveal_strlit("7");
        reveal_strlit("8");
        reveal_strlit("9");
    }
    let r = if d == 0 { "0" }
    else if d == 1 { "1" }
    else if d == 2 { "2" }
    else if d == 3 { "3" }
    else if d == 4 { "4" }
    else if d == 5 { "5" }
    else if d == 6 { "6" }
    else if d == 7 { "7" }
    else if d == 8 { "8" }
    else { "9" };
    assert(r@ =~= seq![digit_char(d as nat)]);
    r
}

/// Appends the decimal notation of `n` to `s`.
pub fn push_decimal(s: &mut String, n: usize)
    ensures
        final(s)@ == old(s)@ + decimal(n as nat),
    decreases n,
{
    if n < 10 {
        s.append(digit_text(n));
    } else {
        push_decimal(s, n / 10);
        s.append(digit_text(n % 10));
        assert(final(s)@ =~= old(s)@ + decimal(n as nat));
    }
}

/// The decimal notation of `n`.
pub fn decimal_text(n: usize) -> (r: String)
    ensures
        r@ == decimal(n as nat),
{
    let mut s = String::new();
    push_decimal(&mut s, n);
    assert(s@ =~= decimal(n as nat));
    s
}

/// Whether the text `s` starts with the text `p`.
pub fn starts_with(s: &str, p: &str) -> (r: bool)
    ensures
        r == has_prefix(s@, p@),
{
    let n = s.unicode_len();
    let m = p.unicode_len();
    if m > n {
        return false;
    }
    let mut i: usize = 0;
    while i < m
        invariant
            m == p@.len(),
            n == s@.len(),
            m <= n,
            i <= m,
            forall|j: int| 0 <= j < i ==> s@[j] == p@[j],
        decreases m - i,
    {
        if s.get_char(i) != p.get_char(i) {
            assert(s@.subrange(0, m as int)[i as int] != p@[i as int]);
            return false;
        }
        i = i + 1;
    }
    assert(s@.subrange(0, m as int) =~= p@);
    true
}

/// `n / unit`, rounded to the nearest integer, halves rounded up.
pub open spec fn rounded_quotient(n: nat, unit: nat) -> nat
    recommends
        unit > 0,
{
    n / unit + if n % unit >= unit / 2 { 1nat } else { 0nat }
}

/// A count of tenths written with one decimal place, followed by `suffix`.
pub open spec fn tenths_label(tenths: nat, suffix: char) -> Seq<char> {
    decimal(tenths / 10) + seq!['.', digit_char(tenths % 10), suffix]
}

/// The short label of a count: below a thousand its plain decimal notation;
/// above, the count in thousands (`K`), millions (`M`) or billions (`G`) with
/// one decimal place, rounded to the nearest tenth, halves up.
pub open spec fn number_label(n: nat) -> Seq<char> {
    if n >= 1_000_000_000 {
        tenths_label(rounded_quotient(n, 100_000_000), 'G')
    } else if n >= 1_000_000 {
        tenths_label(rounded_quotient(n, 100_000), 'M')
    } else if n >= 1_000 {
        tenths_label(rounded_quotient(n, 100), 'K')
    } else {
        decimal(n)
    }
}

fn tenths_text(n: usize, unit: usize, suffix: &str) -> (r: String)
    requires
        unit >= 2,
        suffix@.len() == 1,
    ensures
        r@ == tenths_label(rounded_quotient(n as nat, unit as nat), suffix@[0]),
{
    let q = n / unit;
    proof {
        vstd::arithmetic::div_mod::lemma_div_is_ordered_by_denominator(n as int, 2, unit as int);
    }
    let t: usize = if n % unit >= unit / 2 { q + 1 } else { q };
    assert(t as nat == rounded_quotient(n as nat, unit as nat));
    let mut s = decimal_text(t / 10);
    proof {
        reveal_strlit(".");
    }
    s.append(".");
    s.append(digit_text(t % 10));
    s.append(suffix);
    assert(s@ =~= tenths_label(t as nat, suffix@[0]));
    s
}

/// The short label of a count, used in progress reports.
pub fn format_number(n: usize) -> (r: String)
    ensures
        r@ == number_label(n as nat),
{
    proof {
        reveal_strlit("G");
        reveal_strlit("M");
        reveal_strlit("K");
    }
    if n >= 1_000_000_000 {
        tenths_text(n, 100_000_000, "G")
    } else if n >= 1_000_000 {
        tenths_text(n, 100_000, "M")
    } else if n >= 1_000 {
        tenths_text(n, 100, "K")
    } else {
        decimal_text(n)
    }
}

} // verus!
