//! Decimal and octal renderings of unsigned integers, and reading them back
//! the way std parses unsigned numbers.

use vstd::prelude::*;

verus! {

/// Dividing by a base of at least 2 makes a number of at least that base smaller.
pub proof fn lemma_div_smaller(n: nat, base: nat)
    requires
        2 <= base <= n,
    ensures
        n / base < n,
        n % base < base,
{
    assert(n / base < n) by (nonlinear_arith)
        requires
            2 <= base <= n,
    ;
}

/// The digit character for `d` (0 to 9).
pub open spec fn digit_char(d: nat) -> char {
    seq!['0', '1', '2', '3', '4', '5', '6', '7', '8', '9'][d as int]
}

/// The digits of `n` in `base` (2 to 10), most significant first, without
/// leading zeros ("0" for zero): what `format!("{}")` / `format!("{:o}")` print.
pub open spec fn digits(n: nat, base: nat) -> Seq<char>
    decreases n,
{
    if base < 2 || n < base {
        seq![digit_char(n)]
    } else {
        proof {
            lemma_div_smaller(n, base);
        }
        digits(n / base, base) + seq![digit_char(n % base)]
    }
}

/// The character of digit `d`.
fn digit(d: u64) -> (c: char)
    requires
        d < 10,
    ensures
        c == digit_char(d as nat),
{
    if d == 0 { '0' } else if d == 1 { '1' } else if d == 2 { '2' } else if d == 3 { '3' }
    else if d == 4 { '4' } else if d == 5 { '5' } else if d == 6 { '6' } else if d == 7 { '7' }
    else if d == 8 { '8' } else { '9' }
}

/// The digits of `n` in `base`.
fn digits_of(n: u64, base: u64) -> (res: Vec<char>)
    requires
        2 <= base <= 10,
    ensures
        res@ == digits(n as nat, base as nat),
    decreases n,
{
    if n < base {
        let mut v: Vec<char> = Vec::new();
        v.push(digit(n));
        assert(v@ =~= digits(n as nat, base as nat));
        v
    } else {
        proof {
            lemma_div_smaller(n as nat, base as nat);
        }
        let mut v = digits_of(n / base, base);
        v.push(digit(n % base));
        assert(v@ =~= digits(n as nat, base as nat));
        v
    }
}

/// `n` in decimal (`format!("{}", n)`).
pub fn decimal(n: u64) -> (s: String)
    ensures
        s@ == digits(n as nat, 10),
{
    crate::text::string_of(digits_of(n, 10).as_slice())
}

/// `n` in octal, without prefix (`format!("{:o}", n)`).
pub fn octal(n: u32) -> (s: String)
    ensures
        s@ == digits(n as nat, 8),
{
    crate::text::string_of(digits_of(n as u64, 8).as_slice())
}

/// An ASCII digit of `base` (at most 10): `0` up to `base - 1`.
pub open spec fn is_digit_in(c: char, base: nat) -> bool {
    48 <= (c as u32) && (c as u32) - 48 < base
}

/// The value of a digit character.
pub open spec fn digit_value(c: char) -> nat {
    ((c as u32) - 48) as nat
}

/// The value of a string of digits in `base`.
pub open spec fn digits_value(d: Seq<char>, base: nat) -> nat
    decreases d.len(),
{
    if d.len() == 0 {
        0
    } else {
        digits_value(d.drop_last(), base) * base + digit_value(d.last())
    }
}

/// `s` without one leading `+`.
pub open spec fn without_plus(s: Seq<char>) -> Seq<char> {
    if s.len() > 0 && s[0] == '+' { s.drop_first() } else { s }
}

/// Every character is a digit of `base`.
pub open spec fn all_digits_in(d: Seq<char>, base: nat) -> bool {
    forall|i: int| 0 <= i < d.len() ==> is_digit_in(#[trigger] d[i], base)
}

/// The number that std's unsigned `from_str_radix` reads from `s` before
/// checking its range: an optional `+`, then one or more digits of `base`.
pub open spec fn spec_parse_digits(s: Seq<char>, base: nat) -> Option<nat> {
    let d = without_plus(s);
    if d.len() == 0 || !all_digits_in(d, base) {
        None
    } else {
        Some(digits_value(d, base))
    }
}

/// What std's unsigned `from_str_radix(s, base)` returns for a type whose
/// largest value is `max`: the number read, when it is at most `max`.
pub open spec fn spec_parse_unsigned(s: Seq<char>, base: nat, max: nat) -> Option<nat> {
    match spec_parse_digits(s, base) {
        Some(v) => if v <= max { Some(v) } else { None },
        None => None,
    }
}

/// What std's `str::parse::<u64>` returns (decimal, at most `u64::MAX`).
pub open spec fn spec_parse_u64(s: Seq<char>) -> Option<u64> {
    match spec_parse_unsigned(s, 10, u64::MAX as nat) {
        Some(v) => Some(v as u64),
        None => None,
    }
}

/// What std's `u32::from_str_radix(s, 8)` returns.
pub open spec fn spec_parse_octal_u32(s: Seq<char>) -> Option<u32> {
    match spec_parse_unsigned(s, 8, u32::MAX as nat) {
        Some(v) => Some(v as u32),
        None => None,
    }
}

/// More digits never make the value smaller.
pub proof fn lemma_digits_value_mono(d: Seq<char>, base: nat, i: int)
    requires
        0 <= i <= d.len(),
        base >= 1,
    ensures
        digits_value(d.take(i), base) <= digits_value(d, base),
    decreases d.len() - i,
{
    if i < d.len() {
        lemma_digits_value_mono(d, base, i + 1);
        assert(d.take(i + 1).drop_last() =~= d.take(i));
        let x = digits_value(d.take(i), base);
        assert(x <= x * base) by (nonlinear_arith)
            requires
                base >= 1,
        ;
    } else {
        assert(d.take(i) =~= d);
    }
}

/// Reads an unsigned number in `base` the way std's `from_str_radix` does
/// for a type whose largest value is `max`.
fn parse_unsigned(s: &str, base: u32, max: u64) -> (r: Option<u64>)
    requires
        2 <= base <= 10,
    ensures
        match r {
            Some(v) => spec_parse_unsigned(s@, base as nat, max as nat) == Some(v as nat),
            None => spec_parse_unsigned(s@, base as nat, max as nat) is None,
        },
{
    let cs = crate::text::chars_of(s);
    let start: usize = if cs.len() > 0 && cs[0] == '+' { 1 } else { 0 };
    let ghost d = without_plus(s@);
    assert(d =~= cs@.skip(start as int));
    if start == cs.len() {
        return None;
    }
    let mut acc: u128 = 0;
    let mut i: usize = start;
    while i < cs.len()
        invariant
            cs@ == s@,
            2 <= base <= 10,
            start <= i <= cs@.len(),
            d == cs@.skip(start as int),
            d == without_plus(s@),
            acc == digits_value(d.take(i - start), base as nat),
            acc <= max,
            forall|k: int| 0 <= k < i - start ==> is_digit_in(#[trigger] d[k], base as nat),
        decreases cs@.len() - i,
    {
        let c = cs[i];
        assert(d[i - start] == c);
        let cv = c as u32;
        if !(48 <= cv && cv - 48 < base) {
            assert(!is_digit_in(d[i - start], base as nat));
            return None;
        }
        assert(d.take(i - start + 1).drop_last() =~= d.take(i - start));
        let dv = (cv - 48) as u128;
        assert(acc * (base as u128) <= 0xffff_ffff_ffff_ffffu128 * 10) by (nonlinear_arith)
            requires
                acc <= 0xffff_ffff_ffff_ffffu128,
                base <= 10,
        ;
        acc = acc * (base as u128) + dv;
        assert(acc == digits_value(d.take(i - start + 1), base as nat));
        if acc > max as u128 {
            proof {
                lemma_digits_value_mono(d, base as nat, i - start + 1);
            }
            return None;
        }
        i += 1;
    }
    assert(d.take(d.len() as int) =~= d);
    Some(acc as u64)
}

/// Parses a decimal `u64` the way std's `str::parse` does.
pub fn parse_u64(s: &str) -> (r: Option<u64>)
    ensures
        r == spec_parse_u64(s@),
{
    parse_unsigned(s, 10, u64::MAX)
}

/// Parses an octal `u32` the way std's `u32::from_str_radix(s, 8)` does.
pub fn parse_octal_u32(s: &str) -> (r: Option<u32>)
    ensures
        r == spec_parse_octal_u32(s@),
{
    match parse_unsigned(s, 8, u32::MAX as u64) {
        Some(v) => Some(v as u32),
        None => None,
    }
}

/// A digit character has the value it stands for.
pub proof fn lemma_digit_char(d: nat, base: nat)
    requires
        d < base <= 10,
    ensures
        is_digit_in(digit_char(d), base),
        digit_value(digit_char(d)) == d,
{
    let ds = seq!['0', '1', '2', '3', '4', '5', '6', '7', '8', '9'];
    assert(digit_char(d) == ds[d as int]);
    assert(('0' as u32) == 48);
    if d == 0 { assert(ds[0] == '0'); } else if d == 1 { assert(ds[1] == '1'); }
    else if d == 2 { assert(ds[2] == '2'); } else if d == 3 { assert(ds[3] == '3'); }
    else if d == 4 { assert(ds[4] == '4'); } else if d == 5 { assert(ds[5] == '5'); }
    else if d == 6 { assert(ds[6] == '6'); } else if d == 7 { assert(ds[7] == '7'); }
    else if d == 8 { assert(ds[8] == '8'); } else { assert(ds[9] == '9'); }
}

/// The digits of `n` are digits of the base, and have value `n`.
pub proof fn lemma_digits_value(n: nat, base: nat)
    requires
        2 <= base <= 10,
    ensures
        digits(n, base).len() > 0,
        all_digits_in(digits(n, base), base),
        digits_value(digits(n, base), base) == n,
    decreases n,
{
    let ds = digits(n, base);
    if n < base {
        lemma_digit_char(n, base);
        assert(ds.drop_last() =~= Seq::<char>::empty());
        assert(digits_value(Seq::<char>::empty(), base) == 0);
        assert(digits_value(ds.drop_last(), base) * base == 0) by (nonlinear_arith)
            requires
                digits_value(ds.drop_last(), base) == 0,
        ;
    } else {
        lemma_div_smaller(n, base);
        let q = n / base;
        let r = n % base;
        lemma_digits_value(q, base);
        lemma_digit_char(r, base);
        let qs = digits(q, base);
        assert(ds == qs + seq![digit_char(r)]);
        assert(ds.drop_last() =~= qs);
        assert(ds.last() == digit_char(r));
        assert forall|i: int| 0 <= i < ds.len() implies is_digit_in(#[trigger] ds[i], base) by {
            if i < qs.len() {
                assert(ds[i] == qs[i]);
            }
        }
        assert(digits_value(ds, base) == digits_value(qs, base) * base + digit_value(digit_char(r)));
        assert(n == q * base + r) by (nonlinear_arith)
            requires
                q == n / base,
                r == n % base,
                base >= 2,
        ;
    }
}

/// Reading back a number written in octal gives the number.
pub proof fn lemma_octal_round_trip(n: u32)
    ensures
        spec_parse_octal_u32(digits(n as nat, 8)) == Some(n),
{
    let ds = digits(n as nat, 8);
    lemma_digits_value(n as nat, 8);
    assert(without_plus(ds) == ds) by {
        if ds.len() > 0 && ds[0] == '+' {
            assert(is_digit_in(ds[0], 8));
            assert(('+' as u32) == 43);
        }
    }
}

/// Reading back a number written in decimal gives the number.
pub proof fn lemma_decimal_round_trip(n: u64)
    ensures
        spec_parse_u64(digits(n as nat, 10)) == Some(n),
{
    let ds = digits(n as nat, 10);
    lemma_digits_value(n as nat, 10);
    assert(without_plus(ds) == ds) by {
        if ds.len() > 0 && ds[0] == '+' {
            assert(is_digit_in(ds[0], 10));
            assert(('+' as u32) == 43);
        }
    }
}

} // verus!
