//! Fixed-point prices and rates.
//!
//! Every fractional quantity in the data model (strikes, rates, the spot
//! price, years to expiry) is held as a whole number of ten-thousandths,
//! so that the generator and the wire format can be reasoned about
//! exactly. A value of `95432` stands for `9.5432`.

use vstd::prelude::*;
use vstd::string::StringExecFns;

verus! {

/// Number of units in 1.0: four decimal places.
pub const SCALE: u64 = 10000;

/// The decimal digit character for `d` (meaningful for `0 <= d <= 9`).
pub open spec fn digit_char(d: int) -> char {
    if d == 0 {
        '0'
    } else if d == 1 {
        '1'
    } else if d == 2 {
        '2'
    } else if d == 3 {
        '3'
    } else if d == 4 {
        '4'
    } else if d == 5 {
        '5'
    } else if d == 6 {
        '6'
    } else if d == 7 {
        '7'
    } else if d == 8 {
        '8'
    } else {
        '9'
    }
}

/// The numeric value of a decimal digit character; 10 for any other character.
pub open spec fn digit_val(c: char) -> int {
    if c == '0' {
        0
    } else if c == '1' {
        1
    } else if c == '2' {
        2
    } else if c == '3' {
        3
    } else if c == '4' {
        4
    } else if c == '5' {
        5
    } else if c == '6' {
        6
    } else if c == '7' {
        7
    } else if c == '8' {
        8
    } else if c == '9' {
        9
    } else {
        10
    }
}

pub open spec fn is_digit(c: char) -> bool {
    digit_val(c) < 10
}

pub open spec fn all_digits(s: Seq<char>) -> bool {
    forall|i: int| 0 <= i < s.len() ==> is_digit(#[trigger] s[i])
}

/// The ordinary decimal rendering of `n`, without leading zeros
/// (a single `'0'` for zero).
pub open spec fn dec_digits(n: nat) -> Seq<char>
    decreases n,
{
    if n < 10 {
        seq![digit_char(n as int)]
    } else {
        dec_digits(n / 10) + seq![digit_char((n % 10) as int)]
    }
}

/// The value of a sequence of decimal digit characters.
pub open spec fn parse_dec(s: Seq<char>) -> int
    decreases s.len(),
{
    if s.len() == 0 {
        0
    } else {
        parse_dec(s.drop_last()) * 10 + digit_val(s.last())
    }
}

pub proof fn lemma_dec_digits_are_digits(n: nat)
    ensures
        dec_digits(n).len() >= 1,
        all_digits(dec_digits(n)),
    decreases n,
{
    if n >= 10 {
        lemma_dec_digits_are_digits(n / 10);
        assert forall|i: int| 0 <= i < dec_digits(n).len() implies is_digit(
            #[trigger] dec_digits(n)[i],
        ) by {
            if i < dec_digits(n / 10).len() {
                assert(dec_digits(n)[i] == dec_digits(n / 10)[i]);
            }
        }
    }
}

/// Reading the decimal rendering of `n` back gives `n`.
pub proof fn lemma_parse_dec_digits(n: nat)
    ensures
        parse_dec(dec_digits(n)) == n,
    decreases n,
{
    if n < 10 {
        let s = dec_digits(n);
        assert(s.drop_last() =~= Seq::<char>::empty());
        assert(s.last() == digit_char(n as int));
        assert(digit_val(digit_char(n as int)) == n);
        assert(parse_dec(s) == parse_dec(s.drop_last()) * 10 + digit_val(s.last()));
    } else {
        lemma_parse_dec_digits(n / 10);
        let s = dec_digits(n);
        let hi = dec_digits(n / 10);
        assert(s.drop_last() =~= hi);
        assert(s.last() == digit_char((n % 10) as int));
        assert(parse_dec(s) == (n / 10) * 10 + n % 10);
    }
}

/// The four-digit, zero-padded rendering of the fractional part `r`
/// (meaningful for `r < 10000`).
pub open spec fn frac4_chars(r: int) -> Seq<char> {
    seq![
        digit_char(r / 1000),
        digit_char((r / 100) % 10),
        digit_char((r / 10) % 10),
        digit_char(r % 10),
    ]
}

/// The decimal rendering of a fixed-point value: integer part, a dot,
/// then exactly four fractional digits.
pub open spec fn fixed_chars(units: u64) -> Seq<char> {
    dec_digits(units as nat / SCALE as nat) + seq!['.'] + frac4_chars((units % SCALE) as int)
}

/// Index of the first occurrence of `c` in `s` (the length of `s` if
/// none occurs).
pub open spec fn char_index(s: Seq<char>, c: char) -> int
    decreases s.len(),
{
    if s.len() == 0 {
        0
    } else if s[0] == c {
        0
    } else {
        1 + char_index(s.drop_first(), c)
    }
}

/// Scanning for a character that the prefix `a` lacks and `b` starts
/// with finds exactly the seam between the two.
pub proof fn lemma_char_index_of_concat(a: Seq<char>, b: Seq<char>, c: char)
    requires
        forall|i: int| 0 <= i < a.len() ==> a[i] != c,
        b.len() > 0,
        b[0] == c,
    ensures
        char_index(a + b, c) == a.len(),
    decreases a.len(),
{
    if a.len() == 0 {
        assert(a + b =~= b);
    } else {
        assert((a + b)[0] == a[0]);
        assert((a + b).drop_first() =~= a.drop_first() + b);
        lemma_char_index_of_concat(a.drop_first(), b, c);
    }
}

/// The fixed-point value a rendering stands for: digits, a dot, exactly
/// four fractional digits; `None` for any other shape or a value that
/// does not fit.
pub open spec fn parse_fixed_chars(s: Seq<char>) -> Option<u64> {
    let i = char_index(s, '.');
    if 1 <= i < s.len() && all_digits(s.take(i)) && s.len() == i + 5 && all_digits(
        s.skip(i + 1),
    ) {
        let v = parse_dec(s.take(i)) * (SCALE as int) + parse_dec(s.skip(i + 1));
        if v <= u64::MAX {
            Some(v as u64)
        } else {
            None
        }
    } else {
        None
    }
}

proof fn lemma_digit_val_char(d: int)
    requires
        0 <= d <= 9,
    ensures
        digit_val(digit_char(d)) == d,
{
}

proof fn lemma_parse_frac4(r: int)
    requires
        0 <= r < SCALE,
    ensures
        all_digits(frac4_chars(r)),
        parse_dec(frac4_chars(r)) == r,
{
    let s = frac4_chars(r);
    let s3 = s.drop_last();
    let s2 = s3.drop_last();
    let s1 = s2.drop_last();
    assert(s3 =~= seq![digit_char(r / 1000), digit_char((r / 100) % 10), digit_char((r / 10) % 10)]);
    assert(s2 =~= seq![digit_char(r / 1000), digit_char((r / 100) % 10)]);
    assert(s1 =~= seq![digit_char(r / 1000)]);
    assert(s1.drop_last() =~= Seq::<char>::empty());
    assert(0 <= r < 10000);
    lemma_digit_val_char(r / 1000);
    lemma_digit_val_char((r / 100) % 10);
    lemma_digit_val_char((r / 10) % 10);
    lemma_digit_val_char(r % 10);
    assert(parse_dec(s1.drop_last()) == 0);
    assert(s1.last() == digit_char(r / 1000));
    assert(parse_dec(s1) == r / 1000);
    assert(parse_dec(s2) == (r / 1000) * 10 + (r / 100) % 10);
    assert((r / 1000) * 10 + (r / 100) % 10 == r / 100) by {
        assert(r / 1000 == (r / 100) / 10);
    }
    assert(parse_dec(s3) == (r / 100) * 10 + (r / 10) % 10);
    assert((r / 100) * 10 + (r / 10) % 10 == r / 10) by {
        assert(r / 100 == (r / 10) / 10);
    }
    assert(parse_dec(s) == (r / 10) * 10 + r % 10);
}

/// Every character of `s` is a decimal digit or the dot.
pub open spec fn fixed_shaped(s: Seq<char>) -> bool {
    forall|i: int| 0 <= i < s.len() ==> is_digit(#[trigger] s[i]) || s[i] == '.'
}

/// A fixed-point rendering is not empty and consists of digits and dots
/// only, so a scan for any other character runs past it.
pub proof fn lemma_fixed_chars_shape(units: u64)
    ensures
        fixed_chars(units).len() >= 6,
        fixed_shaped(fixed_chars(units)),
{
    let q = units as nat / SCALE as nat;
    let a = dec_digits(q);
    let s = fixed_chars(units);
    lemma_dec_digits_are_digits(q);
    assert forall|i: int| 0 <= i < s.len() implies is_digit(#[trigger] s[i]) || s[i] == '.' by {
        if i < a.len() {
            assert(s[i] == a[i]);
            assert(is_digit(a[i]));
        }
    }
}

/// Reading a fixed-point rendering back gives the value that was
/// rendered: the rendering loses nothing.
pub proof fn lemma_fixed_round_trip(units: u64)
    ensures
        parse_fixed_chars(fixed_chars(units)) == Some(units),
{
    let q = units as nat / SCALE as nat;
    let r = (units % SCALE) as int;
    let a = dec_digits(q);
    let tail = seq!['.'] + frac4_chars(r);
    let s = fixed_chars(units);
    lemma_dec_digits_are_digits(q);
    lemma_parse_dec_digits(q);
    lemma_parse_frac4(r);
    assert(s =~= a + tail);
    assert forall|j: int| 0 <= j < a.len() implies a[j] != '.' by {
        assert(is_digit(a[j]));
    }
    lemma_char_index_of_concat(a, tail, '.');
    let i = char_index(s, '.');
    assert(i == a.len());
    assert(s.take(i) =~= a);
    assert(s.skip(i + 1) =~= frac4_chars(r));
    assert(parse_dec(a) * (SCALE as int) + parse_dec(s.skip(i + 1)) == (q as int) * (
    SCALE as int) + r);
    assert((q as int) * (SCALE as int) + r == units);
}

/// The one-character string for decimal digit `d`.
fn digit_str(d: u64) -> (s: &'static str)
    requires
        d < 10,
    ensures
        s@ =~= seq![digit_char(d as int)],
{
    proof {
        reveal_strlit("0");
        reveal_strlit("1");
        reveal_strlit("2");
        reveal_strlit("3");
        reveal_strlit("4");
        reveal_strlit("5");
        reveal_strlit("6");
        reveal_strlit("7");
        reveal_strlit("8");
        reveal_strlit("9");
    }
    if d == 0 {
        "0"
    } else if d == 1 {
        "1"
    } else if d == 2 {
        "2"
    } else if d == 3 {
        "3"
    } else if d == 4 {
        "4"
    } else if d == 5 {
        "5"
    } else if d == 6 {
        "6"
    } else if d == 7 {
        "7"
    } else if d == 8 {
        "8"
    } else {
        "9"
    }
}

/// Append the decimal rendering of `n` to `out`.
pub fn push_decimal(out: &mut String, n: u64)
    ensures
        final(out)@ == old(out)@ + dec_digits(n as nat),
    decreases n,
{
    if n < 10 {
        out.append(digit_str(n));
        assert(out@ =~= old(out)@ + dec_digits(n as nat));
    } else {
        push_decimal(out, n / 10);
        out.append(digit_str(n % 10));
        assert(out@ =~= old(out)@ + dec_digits(n as nat));
    }
}

/// Append the fixed-point rendering of `units` to `out`.
pub fn push_fixed(out: &mut String, units: u64)
    ensures
        final(out)@ == old(out)@ + fixed_chars(units),
{
    push_decimal(out, units / SCALE);
    proof {
        reveal_strlit(".");
    }
    out.append(".");
    let r = units % SCALE;
    out.append(digit_str(r / 1000));
    out.append(digit_str((r / 100) % 10));
    out.append(digit_str((r / 10) % 10));
    out.append(digit_str(r % 10));
    assert(out@ =~= old(out)@ + fixed_chars(units));
}

} // verus!
