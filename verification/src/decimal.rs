//! Decimal numerals and the fixed-point values they stand for. A value is
//! counted in millionths: `1_500_000` is one and a half.

use crate::text::{
    in_class, is_digit, lemma_span_bounds, lemma_span_found, span, span_from, CharClass,
};
use vstd::prelude::*;

verus! {

/// How many millionths make one.
pub const MICROS_PER_UNIT: u64 = 1_000_000;

/// How many digits behind the point a value in millionths keeps.
pub const FRACTION_DIGITS: usize = 6;

/// Ten to the power `n`.
pub open spec fn pow10(n: nat) -> nat
    decreases n,
{
    if n == 0 {
        1
    } else {
        10 * pow10((n - 1) as nat)
    }
}

/// The number that the digit `c` stands for.
pub open spec fn digit_value(c: char) -> nat {
    (c as u32 - '0' as u32) as nat
}

/// The digit that stands for `d`, a number below ten.
pub open spec fn digit_char(d: nat) -> char {
    ('0' as u32 + d) as char
}

/// The number that a run of digits stands for, read in base ten; the empty
/// run stands for zero.
pub open spec fn digits_value(digits: Seq<char>) -> nat
    decreases digits.len(),
{
    if digits.len() == 0 {
        0
    } else {
        digits_value(digits.drop_last()) * 10 + digit_value(digits.last())
    }
}

/// The digits of a numeral before its point.
pub open spec fn whole_part(text: Seq<char>) -> Seq<char> {
    text.take(span(text, CharClass::Digit) as int)
}

/// What follows the point of a numeral; empty where it has no point.
pub open spec fn fraction_part(text: Seq<char>) -> Seq<char> {
    if span(text, CharClass::Digit) < text.len() {
        text.skip(span(text, CharClass::Digit) as int + 1)
    } else {
        Seq::empty()
    }
}

/// Whether `text` is a decimal numeral: digits, then optionally a point and
/// more digits, with at least one digit in all. No sign, no exponent.
pub open spec fn is_decimal(text: Seq<char>) -> bool {
    let whole = span(text, CharClass::Digit);
    if whole == text.len() {
        whole > 0
    } else {
        &&& text[whole as int] == '.'
        &&& text.len() >= 2
        &&& span(fraction_part(text), CharClass::Digit) == fraction_part(text).len()
    }
}

/// The first six digits behind a point; zeros stand in for digits that are
/// not there.
pub open spec fn first_six(fraction: Seq<char>) -> Seq<char> {
    Seq::new(
        6,
        |i: int|
            if i < fraction.len() {
                fraction[i]
            } else {
                '0'
            },
    )
}

/// The millionths that the digits behind a point stand for. Digits past the
/// sixth are cut off.
pub open spec fn fraction_micros(fraction: Seq<char>) -> nat {
    digits_value(first_six(fraction))
}

/// The value of a decimal numeral in millionths, rounded down.
pub open spec fn decimal_micros(text: Seq<char>) -> nat {
    digits_value(whole_part(text)) * 1_000_000 + fraction_micros(fraction_part(text))
}

/// What parsing `text` gives: the value in millionths of a decimal numeral
/// that fits in 64 bits, and nothing for any other text.
pub open spec fn parsed_micros(text: Seq<char>) -> Option<u64> {
    if is_decimal(text) && decimal_micros(text) <= u64::MAX {
        Some(decimal_micros(text) as u64)
    } else {
        None
    }
}

/// The decimal numeral of `n`, without leading zeros.
pub open spec fn nat_text(n: nat) -> Seq<char>
    decreases n,
{
    if n < 10 {
        seq![digit_char(n)]
    } else {
        nat_text(n / 10).push(digit_char(n % 10))
    }
}

/// The digits behind the point for `f` parts in `pow10(width)`, without
/// trailing zeros.
pub open spec fn fraction_text(f: nat, width: nat) -> Seq<char>
    decreases width,
{
    if f == 0 || width == 0 {
        Seq::empty()
    } else {
        let unit = pow10((width - 1) as nat);
        seq![digit_char(f / unit)] + fraction_text(f % unit, (width - 1) as nat)
    }
}

/// The shortest decimal numeral of a value in millionths: no point where the
/// value is whole, no trailing zeros behind the point.
pub open spec fn micros_text(micros: nat) -> Seq<char> {
    let whole = nat_text(micros / 1_000_000);
    let fraction = micros % 1_000_000;
    if fraction == 0 {
        whole
    } else {
        whole + seq!['.'] + fraction_text(fraction, 6)
    }
}

/// A run of digits stands for at least what any of its prefixes stands for.
pub proof fn lemma_digits_value_prefix(digits: Seq<char>, n: int)
    requires
        0 <= n <= digits.len(),
    ensures
        digits_value(digits.take(n)) <= digits_value(digits),
    decreases digits.len() - n,
{
    if n == digits.len() {
        assert(digits.take(n) == digits);
    } else {
        lemma_digits_value_prefix(digits.drop_last(), n);
        assert(digits.drop_last().take(n) == digits.take(n));
    }
}

/// The number that the digits of `text` from `from` up to `to` stand for, if it
/// fits in 64 bits.
fn digits_to_u64(text: &Vec<char>, from: usize, to: usize) -> (value: Option<u64>)
    requires
        from <= to <= text.len(),
        forall|i: int| from <= i < to ==> is_digit(#[trigger] text@[i]),
    ensures
        value == if digits_value(text@.subrange(from as int, to as int)) <= u64::MAX {
            Some(digits_value(text@.subrange(from as int, to as int)) as u64)
        } else {
            None
        },
{
    let mut acc: u64 = 0;
    let mut i: usize = from;
    let ghost all = text@.subrange(from as int, to as int);
    while i < to
        invariant
            from <= i <= to <= text.len(),
            all == text@.subrange(from as int, to as int),
            forall|k: int| from <= k < to ==> is_digit(#[trigger] text@[k]),
            acc == digits_value(text@.subrange(from as int, i as int)),
        decreases to - i,
    {
        let c = text[i];
        let d: u64 = (c as u32 - '0' as u32) as u64;
        proof {
            let next = text@.subrange(from as int, i + 1);
            assert(next.drop_last() == text@.subrange(from as int, i as int));
            assert(next.last() == c);
            assert(digits_value(next) == acc * 10 + d);
            assert(all.take(i + 1 - from) == next);
            lemma_digits_value_prefix(all, i + 1 - from);
        }
        if acc > (u64::MAX - d) / 10 {
            return None;
        }
        acc = acc * 10 + d;
        i += 1;
    }
    proof {
        assert(text@.subrange(from as int, i as int) == all);
    }
    Some(acc)
}

/// The millionths that the digits of `text` from `from` to its end stand for,
/// taken as the digits behind a point.
fn fraction_to_u64(text: &Vec<char>, from: usize) -> (value: u64)
    requires
        from <= text.len(),
        forall|i: int| from <= i < text.len() ==> is_digit(#[trigger] text@[i]),
    ensures
        value == fraction_micros(text@.skip(from as int)),
        value < 1_000_000,
{
    let ghost six = first_six(text@.skip(from as int));
    let mut acc: u64 = 0;
    let mut i: usize = 0;
    while i < 6
        invariant
            i <= 6,
            from <= text.len(),
            six == first_six(text@.skip(from as int)),
            forall|k: int| from <= k < text.len() ==> is_digit(#[trigger] text@[k]),
            acc == digits_value(six.take(i as int)),
            acc < pow10(i as nat),
            pow10(i as nat) <= 1_000_000,
        decreases 6 - i,
    {
        let d: u64 = if i < text.len() - from {
            (text[from + i] as u32 - '0' as u32) as u64
        } else {
            0
        };
        proof {
            let next = six.take(i + 1);
            assert(next.drop_last() == six.take(i as int));
            assert(digit_value(next.last()) == d);
            reveal_with_fuel(pow10, 7);
        }
        acc = acc * 10 + d;
        i += 1;
    }
    proof {
        assert(six.take(6) == six);
        reveal_with_fuel(pow10, 7);
    }
    acc
}

/// Parses a decimal numeral into millionths.
pub fn parse_decimal(text: &Vec<char>) -> (value: Option<u64>)
    ensures
        value == parsed_micros(text@),
{
    let n = text.len();
    let whole_end = span_from(text, 0, CharClass::Digit);
    proof {
        assert(text@.skip(0) == text@);
        lemma_span_bounds(text@, CharClass::Digit);
        assert(whole_part(text@) == text@.subrange(0, whole_end as int));
    }
    let whole = digits_to_u64(text, 0, whole_end);
    let fraction: u64 = if whole_end == n {
        if n == 0 {
            return None;
        }
        proof {
            assert(first_six(fraction_part(text@)) == first_six(text@.skip(n as int)));
        }
        fraction_to_u64(text, n)
    } else {
        if text[whole_end] != '.' || n < 2 {
            return None;
        }
        let fraction_end = span_from(text, whole_end + 1, CharClass::Digit);
        if fraction_end != n {
            return None;
        }
        proof {
            let part = text@.skip(whole_end + 1);
            lemma_span_bounds(part, CharClass::Digit);
            assert forall|i: int| whole_end + 1 <= i < n implies is_digit(#[trigger] text@[i]) by {
                assert(text@[i] == part[i - whole_end - 1]);
            }
        }
        fraction_to_u64(text, whole_end + 1)
    };
    match whole {
        Some(w) => {
            if w > (u64::MAX - fraction) / MICROS_PER_UNIT {
                None
            } else {
                Some(w * MICROS_PER_UNIT + fraction)
            }
        },
        None => None,
    }
}

/// The digit that stands for `d`.
fn digit_of(d: u64) -> (c: char)
    requires
        d < 10,
    ensures
        c == digit_char(d as nat),
{
    // 48 is the code of the digit `0`; the other digits follow it in order.
    (48u8 + d as u8) as char
}

/// Appends the decimal numeral of `n` to `out`.
fn push_nat(out: &mut Vec<char>, n: u64)
    ensures
        final(out)@ == old(out)@ + nat_text(n as nat),
    decreases n,
{
    if n >= 10 {
        push_nat(out, n / 10);
    }
    out.push(digit_of(n % 10));
}

/// The power of ten with exponent `n`.
fn pow10_u64(n: usize) -> (p: u64)
    requires
        n <= 6,
    ensures
        p == pow10(n as nat),
{
    proof {
        reveal_with_fuel(pow10, 7);
    }
    let mut p: u64 = 1;
    let mut i: usize = 0;
    while i < n
        invariant
            i <= n <= 6,
            p == pow10(i as nat),
            p <= 1_000_000,
        decreases n - i,
    {
        proof {
            reveal_with_fuel(pow10, 7);
        }
        p = p * 10;
        i += 1;
    }
    p
}

/// Appends to `out` the digits behind the point for `f` parts in
/// `pow10(width)`.
fn push_fraction(out: &mut Vec<char>, f: u64, width: usize)
    requires
        width <= 6,
        f < pow10(width as nat),
    ensures
        final(out)@ == old(out)@ + fraction_text(f as nat, width as nat),
    decreases width,
{
    if f == 0 || width == 0 {
        return ;
    }
    let unit = pow10_u64(width - 1);
    proof {
        assert(f / unit < 10) by (nonlinear_arith)
            requires
                f < 10 * unit,
                unit > 0,
        ;
        assert(f % unit < unit) by (nonlinear_arith)
            requires
                unit > 0,
        ;
    }
    out.push(digit_of(f / unit));
    push_fraction(out, f % unit, width - 1);
}

/// The shortest decimal numeral of a value in millionths.
pub fn format_micros(micros: u64) -> (text: Vec<char>)
    ensures
        text@ == micros_text(micros as nat),
{
    let mut text: Vec<char> = Vec::new();
    push_nat(&mut text, micros / MICROS_PER_UNIT);
    let fraction = micros % MICROS_PER_UNIT;
    if fraction != 0 {
        text.push('.');
        proof {
            reveal_with_fuel(pow10, 7);
        }
        push_fraction(&mut text, fraction, FRACTION_DIGITS);
    }
    text
}

/// A digit's character is a digit and stands for it.
proof fn lemma_digit_char(d: nat)
    requires
        d < 10,
    ensures
        is_digit(digit_char(d)),
        digit_value(digit_char(d)) == d,
{
}

/// Powers of ten multiply by adding their exponents.
proof fn lemma_pow10_add(a: nat, b: nat)
    ensures
        pow10(a) * pow10(b) == pow10(a + b),
        pow10(a) > 0,
    decreases a,
{
    if a > 0 {
        lemma_pow10_add((a - 1) as nat, b);
        let low = pow10((a - 1) as nat);
        assert(pow10(a) == 10 * low);
        assert(pow10(a + b) == 10 * pow10((a - 1 + b) as nat));
        assert((10 * low) * pow10(b) == 10 * (low * pow10(b))) by (nonlinear_arith);
    } else {
        assert(pow10(a) == 1);
        assert(1 * pow10(b) == pow10(b)) by (nonlinear_arith);
    }
}

/// One digit in front of a run of digits counts for as many tens as the run
/// is long.
proof fn lemma_digits_value_prepend(c: char, digits: Seq<char>)
    ensures
        digits_value(seq![c] + digits) == digit_value(c) * pow10(digits.len()) + digits_value(
            digits,
        ),
    decreases digits.len(),
{
    let all = seq![c] + digits;
    if digits.len() == 0 {
        assert(all.drop_last() == Seq::<char>::empty());
        assert(all.last() == c);
        assert(digits_value(all.drop_last()) == 0);
        assert(digits_value(all) == digit_value(c));
        assert(pow10(0) == 1);
        assert(digit_value(c) * 1 == digit_value(c)) by (nonlinear_arith);
    } else {
        lemma_digits_value_prepend(c, digits.drop_last());
        assert(all.drop_last() == seq![c] + digits.drop_last());
        assert(all.last() == digits.last());
        let head = digit_value(c) as int;
        let unit = pow10((digits.len() - 1) as nat) as int;
        let low = digits_value(digits.drop_last()) as int;
        assert(pow10(digits.len()) == 10 * unit);
        assert(digits_value(all) == (head * unit + low) * 10 + digit_value(digits.last()));
        assert((head * unit + low) * 10 == head * (10 * unit) + low * 10) by (nonlinear_arith);
    }
}

/// The numeral of a number is made of digits and stands for the number.
pub proof fn lemma_nat_text(n: nat)
    ensures
        nat_text(n).len() >= 1,
        forall|i: int| 0 <= i < nat_text(n).len() ==> is_digit(#[trigger] nat_text(n)[i]),
        digits_value(nat_text(n)) == n,
    decreases n,
{
    lemma_digit_char(n % 10);
    let text = nat_text(n);
    if n < 10 {
        assert(text.drop_last() == Seq::<char>::empty());
        assert(text.last() == digit_char(n));
        assert(digits_value(text.drop_last()) == 0);
    } else {
        lemma_nat_text(n / 10);
        assert(text.drop_last() == nat_text(n / 10));
        assert(text.last() == digit_char(n % 10));
        assert forall|i: int| 0 <= i < text.len() implies is_digit(#[trigger] text[i]) by {
            if i < text.len() - 1 {
                assert(text[i] == nat_text(n / 10)[i]);
            }
        }
    }
}

/// The digits behind the point are digits, no more than the width, and stand
/// for the parts they were made from.
proof fn lemma_fraction_text(f: nat, width: nat)
    requires
        f < pow10(width),
    ensures
        fraction_text(f, width).len() <= width,
        f > 0 ==> fraction_text(f, width).len() >= 1,
        forall|i: int|
            0 <= i < fraction_text(f, width).len() ==> is_digit(#[trigger] fraction_text(f, width)[i]),
        digits_value(fraction_text(f, width)) * pow10(
            (width - fraction_text(f, width).len()) as nat,
        ) == f,
    decreases width,
{
    let text = fraction_text(f, width);
    if f == 0 || width == 0 {
        assert(digits_value(text) * pow10(width) == 0) by (nonlinear_arith)
            requires
                digits_value(text) == 0,
        ;
    } else {
        let unit = pow10((width - 1) as nat);
        lemma_pow10_add((width - 1) as nat, 0);
        let d = f / unit;
        let low = f % unit;
        assert(d < 10 && low < unit && d * unit + low == f) by (nonlinear_arith)
            requires
                f < 10 * unit,
                unit > 0,
                d == f / unit,
                low == f % unit,
        ;
        let rest = fraction_text(low, (width - 1) as nat);
        lemma_fraction_text(low, (width - 1) as nat);
        lemma_digit_char(d);
        lemma_digits_value_prepend(digit_char(d), rest);
        let gap = (width - 1 - rest.len()) as nat;
        lemma_pow10_add(rest.len(), gap);
        assert forall|i: int| 0 <= i < text.len() implies is_digit(#[trigger] text[i]) by {
            if i > 0 {
                assert(text[i] == rest[i - 1]);
            }
        }
        assert((d * pow10(rest.len()) + digits_value(rest)) * pow10(gap) == d * (pow10(rest.len())
            * pow10(gap)) + digits_value(rest) * pow10(gap)) by (nonlinear_arith);
    }
}

/// Zeros behind a run of digits multiply what it stands for by ten each.
proof fn lemma_first_six(fraction: Seq<char>, kept: nat)
    requires
        fraction.len() <= kept <= 6,
    ensures
        digits_value(first_six(fraction).take(kept as int)) == digits_value(fraction) * pow10(
            (kept - fraction.len()) as nat,
        ),
    decreases kept - fraction.len(),
{
    let six = first_six(fraction);
    if kept == fraction.len() {
        assert(six.take(kept as int) == fraction);
        assert(pow10(0) == 1);
        assert(digits_value(fraction) * 1 == digits_value(fraction)) by (nonlinear_arith);
    } else {
        lemma_first_six(fraction, (kept - 1) as nat);
        let next = six.take(kept as int);
        assert(next.drop_last() == six.take(kept - 1));
        assert(next.last() == '0');
        let low = digits_value(fraction) as int;
        let unit = pow10((kept - 1 - fraction.len()) as nat) as int;
        assert(pow10((kept - fraction.len()) as nat) == 10 * unit);
        assert(digits_value(next) == low * unit * 10 + digit_value('0'));
        assert(low * unit * 10 == low * (10 * unit)) by (nonlinear_arith);
    }
}

/// The shortest numeral of a value reads back as that value: what a report
/// shows of a sample is the sample.
pub proof fn lemma_text_parses_back(micros: u64)
    ensures
        is_decimal(micros_text(micros as nat)),
        decimal_micros(micros_text(micros as nat)) == micros,
        parsed_micros(micros_text(micros as nat)) == Some(micros),
{
    let whole = nat_text(micros as nat / 1_000_000);
    let f = micros as nat % 1_000_000;
    let text = micros_text(micros as nat);
    lemma_nat_text(micros as nat / 1_000_000);
    reveal_with_fuel(pow10, 7);
    lemma_fraction_text(f, 6);
    let fraction = fraction_text(f, 6);
    assert forall|i: int| 0 <= i < whole.len() implies in_class(
        #[trigger] text[i],
        CharClass::Digit,
    ) by {
        assert(text[i] == whole[i]);
    }
    if f != 0 {
        assert(text[whole.len() as int] == '.');
    }
    lemma_span_found(text, CharClass::Digit, whole.len());
    assert(whole_part(text) == whole);
    if f == 0 {
        assert(fraction_part(text) == Seq::<char>::empty());
        lemma_first_six(Seq::empty(), 6);
        assert(first_six(Seq::empty()).take(6) == first_six(Seq::empty()));
        assert(digits_value(Seq::<char>::empty()) == 0);
    } else {
        assert(fraction_part(text) == fraction);
        assert forall|i: int| 0 <= i < fraction.len() implies in_class(
            #[trigger] fraction[i],
            CharClass::Digit,
        ) by {}
        lemma_span_found(fraction, CharClass::Digit, fraction.len());
        lemma_first_six(fraction, 6);
        assert(first_six(fraction).take(6) == first_six(fraction));
    }
}

} // verus!
