use vstd::prelude::*;
use vstd::string::StrSliceExecFns;

verus! {

/// The decimal digits of `n`, most significant first, with no sign and no
/// leading zero (`0` is written as a single `'0'`).
pub open spec fn decimal(n: nat) -> Seq<char>
    decreases n,
{
    if n < 10 {
        seq![digit_char(n)]
    } else {
        decimal(n / 10).push(digit_char(n % 10))
    }
}

/// The ASCII digit for a value below ten.
pub open spec fn digit_char(d: nat) -> char {
    if d == 0 { '0' } else if d == 1 { '1' } else if d == 2 { '2' } else if d == 3 { '3' }
    else if d == 4 { '4' } else if d == 5 { '5' } else if d == 6 { '6' } else if d == 7 { '7' }
    else if d == 8 { '8' } else { '9' }
}

fn digit_of(d: usize) -> (c: char)
    requires
        d < 10,
    ensures
        c == digit_char(d as nat),
{
    if d == 0 { '0' } else if d == 1 { '1' } else if d == 2 { '2' } else if d == 3 { '3' }
    else if d == 4 { '4' } else if d == 5 { '5' } else if d == 6 { '6' } else if d == 7 { '7' }
    else if d == 8 { '8' } else { '9' }
}

/// `String::push`: appends one character at the end.
#[verifier::external_body]
pub(crate) fn push_char(s: &mut String, c: char)
    ensures
        final(s)@ == old(s)@.push(c),
{
    s.push(c);
}

/// Writes `n` in decimal.
pub fn usize_to_decimal(n: usize) -> (s: String)
    ensures
        s@ == decimal(n as nat),
{
    u64_to_decimal(n as u64)
}

/// Writes `n` in decimal.
pub fn u64_to_decimal(n: u64) -> (s: String)
    ensures
        s@ == decimal(n as nat),
{
    let mut digits: Vec<char> = Vec::new();
    let mut m: u64 = n;
    while m >= 10
        invariant
            decimal(n as nat) == decimal(m as nat) + digits@.reverse(),
        decreases m,
    {
        let ghost old_digits = digits@;
        digits.push(digit_of((m % 10) as usize));
        proof {
            assert(decimal(m as nat) == decimal((m / 10) as nat).push(digit_char((m % 10) as nat)));
            assert(digits@.reverse() =~= seq![digit_char((m % 10) as nat)] + old_digits.reverse());
            assert(decimal(m as nat) + old_digits.reverse() =~= decimal((m / 10) as nat)
                + digits@.reverse());
        }
        m = m / 10;
    }
    let mut s = String::new();
    push_char(&mut s, digit_of(m as usize));
    let mut i: usize = digits.len();
    while i > 0
        invariant
            i <= digits.len(),
            decimal(n as nat) == decimal(m as nat) + digits@.reverse(),
            m < 10,
            s@ == seq![digit_char(m as nat)] + digits@.subrange(i as int, digits.len() as int).reverse(),
        decreases i,
    {
        i = i - 1;
        let ghost before = s@;
        push_char(&mut s, digits[i]);
        proof {
            assert(digits@.subrange(i as int, digits.len() as int).reverse() =~=
                digits@.subrange(i + 1, digits.len() as int).reverse().push(digits@[i as int]));
        }
    }
    proof {
        assert(digits@.subrange(0, digits.len() as int) =~= digits@);
    }
    s
}

} // verus!

verus! {

/// Whether `char::is_alphabetic` holds of `c` (the Unicode `Alphabetic`
/// property).
pub uninterp spec fn alphabetic(c: char) -> bool;

/// Whether `char::is_numeric` holds of `c` (the Unicode general categories
/// for numbers).
pub uninterp spec fn numeric(c: char) -> bool;

/// `char::is_alphabetic`: whether `c` has the Unicode `Alphabetic`
/// property, which no blank (space, tab, carriage return, line break) has.
#[verifier::external_body]
pub(crate) fn is_alphabetic(c: char) -> (b: bool)
    ensures
        b == alphabetic(c),
        (c == ' ' || c == '\t' || c == '\r' || c == '\n') ==> !b,
{
    c.is_alphabetic()
}

/// `char::is_numeric`: whether `c` is in a Unicode number category, which
/// no blank (space, tab, carriage return, line break) is.
#[verifier::external_body]
pub(crate) fn is_numeric(c: char) -> (b: bool)
    ensures
        b == numeric(c),
        (c == ' ' || c == '\t' || c == '\r' || c == '\n') ==> !b,
{
    c.is_numeric()
}

/// `char::is_alphanumeric`, which its documentation defines as
/// `is_alphabetic() || is_numeric()`.
#[verifier::external_body]
pub(crate) fn is_alphanumeric(c: char) -> (b: bool)
    ensures
        b == (alphabetic(c) || numeric(c)),
{
    c.is_alphanumeric()
}

/// The characters `src[start..end]` as a string.
pub fn collect_text(src: &Vec<char>, start: usize, end: usize) -> (s: String)
    requires
        start <= end <= src@.len(),
    ensures
        s@ == src@.subrange(start as int, end as int),
{
    let mut s = String::new();
    let mut i = start;
    while i < end
        invariant
            start <= i <= end <= src@.len(),
            s@ == src@.subrange(start as int, i as int),
        decreases end - i,
    {
        push_char(&mut s, src[i]);
        i = i + 1;
        assert(s@ =~= src@.subrange(start as int, i as int));
    }
    s
}

/// Whether `src[start..end]` spells `w`.
pub fn spells(src: &Vec<char>, start: usize, end: usize, w: &str) -> (b: bool)
    requires
        start <= end <= src@.len(),
    ensures
        b == (src@.subrange(start as int, end as int) == w@),
{
    let n = w.unicode_len();
    if end - start != n {
        return false;
    }
    let mut i: usize = 0;
    while i < n
        invariant
            n == w@.len(),
            end - start == n,
            start <= end <= src@.len(),
            i <= n,
            forall|j: int| 0 <= j < i ==> src@[start + j] == w@[j],
        decreases n - i,
    {
        if src[start + i] != w.get_char(i) {
            assert(src@.subrange(start as int, end as int)[i as int] != w@[i as int]);
            return false;
        }
        i = i + 1;
    }
    assert(src@.subrange(start as int, end as int) =~= w@);
    true
}

} // verus!

verus! {

/// Whether the string `s` is the text `w`.
pub fn is_text(s: &String, w: &str) -> (b: bool)
    ensures
        b == (s@ == w@),
{
    let t = w.to_owned();
    *s == t
}

/// Whether `s` is the single character `c`.
pub fn is_single(s: &String, c: char) -> (b: bool)
    ensures
        b == (s@ == seq![c]),
{
    let t = s.as_str();
    if t.unicode_len() != 1 {
        return false;
    }
    let first = t.get_char(0);
    if first == c {
        assert(t@ =~= seq![c]);
        true
    } else {
        false
    }
}

} // verus!
