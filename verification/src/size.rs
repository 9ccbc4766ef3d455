//! Sizes as text: reading a size such as `1.5MB` into a byte count, and
//! showing a byte count in units of 1024.

use vstd::prelude::*;
use vstd::arithmetic::div_mod::{
    lemma_div_multiples_vanish_quotient, lemma_fundamental_div_mod,
    lemma_fundamental_div_mod_converse,
};
use crate::text::{chars_of, decimal_digits, digit_char, push_decimal, sub_vec};

verus! {

/// The error of a size text that cannot be read.
#[derive(Debug, Clone, Copy, PartialEq, Eq, Structural)]
pub struct InvalidSize;

/// `c` is one of the letters `a` to `z` or `A` to `Z`.
pub open spec fn is_letter(c: char) -> bool {
    ('a' <= c && c <= 'z') || ('A' <= c && c <= 'Z')
}

/// `c` is one of the digits `0` to `9`.
pub open spec fn is_digit(c: char) -> bool {
    '0' <= c && c <= '9'
}

/// The number that a digit stands for; 0 for any other character.
pub open spec fn digit_value(c: char) -> nat {
    if is_digit(c) {
        (c as u32 - '0' as u32) as nat
    } else {
        0
    }
}

/// Every character of `s` is a digit.
pub open spec fn all_digits(s: Seq<char>) -> bool {
    forall|i: int| 0 <= i < s.len() ==> is_digit(#[trigger] s[i])
}

/// The number that a decimal numeral stands for.
pub open spec fn digits_value(s: Seq<char>) -> nat
    decreases s.len(),
{
    if s.len() == 0 {
        0
    } else {
        digits_value(s.drop_last()) * 10 + digit_value(s.last())
    }
}

/// Ten to the power `k`.
pub open spec fn pow10(k: nat) -> nat
    decreases k,
{
    if k == 0 {
        1
    } else {
        10 * pow10((k - 1) as nat)
    }
}

/// The position of the first letter of `s` at or after `i`, or the length of
/// `s` where there is none.
pub open spec fn letter_from(s: Seq<char>, i: int) -> int
    decreases s.len() - i,
{
    if i < 0 || i >= s.len() {
        s.len() as int
    } else if is_letter(s[i]) {
        i
    } else {
        letter_from(s, i + 1)
    }
}

/// The position of the first dot of `s` at or after `i`, or the length of `s`
/// where there is none.
pub open spec fn dot_from(s: Seq<char>, i: int) -> int
    decreases s.len() - i,
{
    if i < 0 || i >= s.len() {
        s.len() as int
    } else if s[i] == '.' {
        i
    } else {
        dot_from(s, i + 1)
    }
}

/// `c` is the upper-case letter `upper` or its lower-case form.
pub open spec fn is_unit_letter(c: char, upper: char) -> bool {
    c == upper || (c as u32) == (upper as u32) + 32
}

/// The power of 1024 that a unit stands for, without regard to case: none or
/// `B` for bytes, then `K`, `M`, `G` and `T`, each with or without a `B`
/// after it.
pub open spec fn unit_exponent(unit: Seq<char>) -> Option<nat> {
    if unit.len() == 0 {
        Some(0)
    } else if unit.len() == 1 && is_unit_letter(unit[0], 'B') {
        Some(0)
    } else if unit.len() == 1 || (unit.len() == 2 && is_unit_letter(unit[1], 'B')) {
        if is_unit_letter(unit[0], 'K') {
            Some(1)
        } else if is_unit_letter(unit[0], 'M') {
            Some(2)
        } else if is_unit_letter(unit[0], 'G') {
            Some(3)
        } else if is_unit_letter(unit[0], 'T') {
            Some(4)
        } else {
            None
        }
    } else {
        None
    }
}

/// 1024 to the power `exponent`, for the exponents up to 4.
pub open spec fn unit_bytes(exponent: nat) -> nat {
    if exponent == 0 {
        1
    } else if exponent == 1 {
        1024
    } else if exponent == 2 {
        1048576
    } else if exponent == 3 {
        1073741824
    } else {
        1099511627776
    }
}

/// The digits before the dot of a number.
pub open spec fn whole_part(number: Seq<char>) -> Seq<char> {
    number.subrange(0, dot_from(number, 0))
}

/// The digits after the dot of a number; none where it has no dot.
pub open spec fn fraction_part(number: Seq<char>) -> Seq<char> {
    let dot = dot_from(number, 0);
    if dot < number.len() {
        number.subrange(dot + 1, number.len() as int)
    } else {
        Seq::<char>::empty()
    }
}

/// A number is well formed when it consists of digits with at most one dot
/// among them, and has at least one digit.
pub open spec fn well_formed_number(number: Seq<char>) -> bool {
    &&& all_digits(whole_part(number))
    &&& all_digits(fraction_part(number))
    &&& whole_part(number).len() + fraction_part(number).len() > 0
}

/// The number of bytes that a size text stands for: the number before the
/// first letter, times the unit that begins there, rounded down. `None`
/// where the number is not well formed or the unit is not known.
pub open spec fn size_of_text(s: Seq<char>) -> Option<nat> {
    let split = letter_from(s, 0);
    let number = s.subrange(0, split);
    let unit = s.subrange(split, s.len() as int);
    if well_formed_number(number) && unit_exponent(unit) is Some {
        let digits = whole_part(number) + fraction_part(number);
        Some(
            (digits_value(digits) * unit_bytes(unit_exponent(unit).unwrap())) / pow10(
                fraction_part(number).len(),
            ),
        )
    } else {
        None
    }
}

/// The byte count that `parse_size` gives for a size of `v` bytes: `v`
/// itself where it fits, else the largest count there is.
pub open spec fn clamp_size(v: nat) -> u64 {
    if v > u64::MAX {
        u64::MAX
    } else {
        v as u64
    }
}

/// The first `i` digits of a fraction as a number, with zeros standing for
/// the digits past its end.
pub open spec fn scaled_prefix(frac: Seq<char>, i: nat) -> nat
    decreases i,
{
    if i == 0 {
        0
    } else {
        scaled_prefix(frac, (i - 1) as nat) * 10 + if i - 1 < frac.len() {
            digit_value(frac[i - 1])
        } else {
            0
        }
    }
}

/// Five to the power `10 * exponent`, for the exponents up to 4.
pub open spec fn unit_divisor(exponent: nat) -> nat {
    if exponent == 0 {
        1
    } else if exponent == 1 {
        9765625
    } else if exponent == 2 {
        95367431640625
    } else if exponent == 3 {
        931322574615478515625
    } else {
        9094947017729282379150390625
    }
}

proof fn lemma_pow10_positive(k: nat)
    ensures
        pow10(k) > 0,
    decreases k,
{
    if k > 0 {
        lemma_pow10_positive((k - 1) as nat);
    }
}

proof fn lemma_pow10_add(a: nat, b: nat)
    ensures
        pow10(a + b) == pow10(a) * pow10(b),
    decreases b,
{
    if b == 0 {
        assert(pow10(a) * 1 == pow10(a));
    } else {
        lemma_pow10_add(a, (b - 1) as nat);
        assert(pow10(a + b) == 10 * pow10((a + b - 1) as nat));
        assert(10 * (pow10(a) * pow10((b - 1) as nat)) == pow10(a) * (10 * pow10((b - 1) as nat)))
            by (nonlinear_arith);
    }
}

proof fn lemma_pow10_monotonic(a: nat, b: nat)
    requires
        a <= b,
    ensures
        pow10(a) <= pow10(b),
    decreases b,
{
    if a < b {
        lemma_pow10_monotonic(a, (b - 1) as nat);
    }
}

proof fn lemma_unit_scale(exponent: nat)
    requires
        exponent <= 4,
    ensures
        unit_bytes(exponent) * unit_divisor(exponent) == pow10(10 * exponent),
{
    assert(pow10(10) == 10000000000) by {
        reveal_with_fuel(pow10, 11);
    }
    lemma_pow10_add(10, 10);
    lemma_pow10_add(20, 10);
    lemma_pow10_add(30, 10);
    assert(pow10(20) == 100000000000000000000);
    assert(pow10(30) == 1000000000000000000000000000000);
    assert(pow10(40) == 10000000000000000000000000000000000000000);
}

proof fn lemma_digits_value_bound(s: Seq<char>)
    ensures
        digits_value(s) < pow10(s.len()),
    decreases s.len(),
{
    if s.len() > 0 {
        lemma_digits_value_bound(s.drop_last());
    }
}

proof fn lemma_digits_value_concat(a: Seq<char>, b: Seq<char>)
    ensures
        digits_value(a + b) == digits_value(a) * pow10(b.len()) + digits_value(b),
    decreases b.len(),
{
    if b.len() == 0 {
        assert(a + b =~= a);
        assert(digits_value(a) * 1 == digits_value(a));
    } else {
        lemma_digits_value_concat(a, b.drop_last());
        assert((a + b).drop_last() =~= a + b.drop_last());
        assert((a + b).last() == b.last());
        let x = digits_value(a) as int;
        let p = pow10((b.len() - 1) as nat) as int;
        let y = digits_value(b.drop_last()) as int;
        assert((x * p + y) * 10 == x * (10 * p) + y * 10) by (nonlinear_arith);
        assert(digits_value(a + b) == (x * p + y) * 10 + digit_value(b.last()));
        assert(pow10(b.len()) == 10 * p);
    }
}

proof fn lemma_scaled_prefix_inside(frac: Seq<char>, i: nat)
    requires
        i <= frac.len(),
    ensures
        scaled_prefix(frac, i) == digits_value(frac.take(i as int)),
    decreases i,
{
    if i > 0 {
        lemma_scaled_prefix_inside(frac, (i - 1) as nat);
        assert(frac.take(i as int).drop_last() =~= frac.take(i - 1));
    }
}

proof fn lemma_scaled_prefix_beyond(frac: Seq<char>, i: nat)
    requires
        i >= frac.len(),
    ensures
        scaled_prefix(frac, i) == digits_value(frac) * pow10((i - frac.len()) as nat),
    decreases i,
{
    if i == frac.len() {
        lemma_scaled_prefix_inside(frac, i);
        assert(frac.take(i as int) =~= frac);
        assert(digits_value(frac) * 1 == digits_value(frac));
    } else {
        lemma_scaled_prefix_beyond(frac, (i - 1) as nat);
        let f = digits_value(frac) as int;
        let p = pow10((i - 1 - frac.len()) as nat) as int;
        assert((f * p) * 10 == f * (10 * p)) by (nonlinear_arith);
    }
}

proof fn lemma_scaled_prefix_bound(frac: Seq<char>, i: nat)
    ensures
        scaled_prefix(frac, i) < pow10(i),
    decreases i,
{
    if i > 0 {
        lemma_scaled_prefix_bound(frac, (i - 1) as nat);
    }
}

/// The whole bytes of a fraction of a unit are found from the first
/// `10 * exponent` digits of the fraction: later digits never add up to
/// another byte.
proof fn lemma_fraction_floor(frac: Seq<char>, exponent: nat)
    requires
        exponent <= 4,
    ensures
        (digits_value(frac) * unit_bytes(exponent)) / pow10(frac.len()) == scaled_prefix(
            frac,
            10 * exponent,
        ) / unit_divisor(exponent),
{
    let n: nat = 10 * exponent;
    let k: nat = frac.len();
    let m = unit_bytes(exponent) as int;
    let d = unit_divisor(exponent) as int;
    let f = digits_value(frac) as int;
    let a = scaled_prefix(frac, n) as int;
    lemma_unit_scale(exponent);
    lemma_pow10_positive(k);
    if n >= k {
        let c = pow10((n - k) as nat) as int;
        lemma_pow10_positive((n - k) as nat);
        lemma_scaled_prefix_beyond(frac, n);
        lemma_pow10_add(k, (n - k) as nat);
        let pk = pow10(k) as int;
        assert(f * m >= 0) by (nonlinear_arith)
            requires
                f >= 0,
                m > 0,
        ;
        lemma_div_multiples_vanish_quotient(c, f * m, pk);
        assert(c * (f * m) == m * a) by (nonlinear_arith)
            requires
                a == f * c,
        ;
        assert(c * pk == m * d) by (nonlinear_arith)
            requires
                m * d == pk * c,
        ;
        lemma_div_multiples_vanish_quotient(m, a, d);
    } else {
        let c = pow10((k - n) as nat) as int;
        lemma_pow10_positive((k - n) as nat);
        lemma_scaled_prefix_inside(frac, n);
        let head = frac.take(n as int);
        let tail = frac.skip(n as int);
        assert(head + tail =~= frac);
        lemma_digits_value_concat(head, tail);
        lemma_digits_value_bound(tail);
        let b = digits_value(tail) as int;
        lemma_pow10_add(n, (k - n) as nat);
        let pk = pow10(k) as int;
        let q = a / d;
        let r = a % d;
        lemma_fundamental_div_mod(a, d);
        assert(0 <= r < d);
        let rest = r * c * m + b * m;
        let cm = c * m;
        assert(f * m == a * cm + b * m) by (nonlinear_arith)
            requires
                f == a * c + b,
                cm == c * m,
        ;
        assert(a * cm == q * (d * cm) + r * cm) by (nonlinear_arith)
            requires
                a == d * q + r,
        ;
        assert(d * cm == pk) by (nonlinear_arith)
            requires
                pk == (m * d) * c,
                cm == c * m,
        ;
        assert(r * cm == r * c * m) by (nonlinear_arith)
            requires
                cm == c * m,
        ;
        assert(f * m == q * pk + rest);
        assert(0 <= r * cm <= (d - 1) * cm) by (nonlinear_arith)
            requires
                0 <= r <= d - 1,
                cm >= 0,
        ;
        assert(cm > 0) by (nonlinear_arith)
            requires
                cm == c * m,
                c > 0,
                m > 0,
        ;
        assert(0 <= b * m <= cm - m) by (nonlinear_arith)
            requires
                0 <= b <= c - 1,
                m > 0,
                cm == c * m,
        ;
        assert((d - 1) * cm == pk - cm) by (nonlinear_arith)
            requires
                d * cm == pk,
        ;
        assert(0 <= rest < pk);
        lemma_fundamental_div_mod_converse(f * m, pk, q, rest);
    }
}

/// The bytes of a number with a fraction are the bytes of its whole part
/// and the whole bytes of its fraction.
proof fn lemma_split_number(whole: Seq<char>, frac: Seq<char>, exponent: nat)
    requires
        exponent <= 4,
    ensures
        (digits_value(whole + frac) * unit_bytes(exponent)) / pow10(frac.len()) == digits_value(
            whole,
        ) * unit_bytes(exponent) + scaled_prefix(frac, 10 * exponent) / unit_divisor(exponent),
{
    let m = unit_bytes(exponent) as int;
    let w = digits_value(whole) as int;
    let f = digits_value(frac) as int;
    let pk = pow10(frac.len()) as int;
    lemma_pow10_positive(frac.len());
    lemma_digits_value_concat(whole, frac);
    lemma_fraction_floor(frac, exponent);
    let q = (f * m) / pk;
    let r = (f * m) % pk;
    lemma_fundamental_div_mod(f * m, pk);
    assert((w * pk + f) * m == (w * m + q) * pk + r) by (nonlinear_arith)
        requires
            f * m == pk * q + r,
    ;
    lemma_fundamental_div_mod_converse((w * pk + f) * m, pk, w * m + q, r);
}

fn is_letter_char(c: char) -> (out: bool)
    ensures
        out == is_letter(c),
{
    ('a' <= c && c <= 'z') || ('A' <= c && c <= 'Z')
}

fn digit_of_char(c: char) -> (out: Option<u8>)
    ensures
        match out {
            Some(d) => is_digit(c) && d as nat == digit_value(c),
            None => !is_digit(c),
        },
{
    if '0' <= c && c <= '9' {
        Some((c as u32 - '0' as u32) as u8)
    } else {
        None
    }
}

fn is_unit_letter_char(c: char, upper: char) -> (out: bool)
    requires
        upper as u32 <= 127,
    ensures
        out == is_unit_letter(c, upper),
{
    c == upper || c as u32 == upper as u32 + 32
}

fn find_letter(chars: &Vec<char>) -> (out: usize)
    ensures
        out == letter_from(chars@, 0),
        out <= chars.len(),
{
    let mut i: usize = 0;
    while i < chars.len() && !is_letter_char(chars[i])
        invariant
            i <= chars.len(),
            letter_from(chars@, 0) == letter_from(chars@, i as int),
        decreases chars.len() - i,
    {
        i += 1;
    }
    i
}

fn find_dot(chars: &Vec<char>) -> (out: usize)
    ensures
        out == dot_from(chars@, 0),
        out <= chars.len(),
{
    let mut i: usize = 0;
    while i < chars.len() && chars[i] != '.'
        invariant
            i <= chars.len(),
            dot_from(chars@, 0) == dot_from(chars@, i as int),
        decreases chars.len() - i,
    {
        i += 1;
    }
    i
}

fn read_unit(unit: &Vec<char>) -> (out: Option<u8>)
    ensures
        match out {
            Some(e) => unit_exponent(unit@) == Some(e as nat) && e <= 4,
            None => unit_exponent(unit@) is None,
        },
{
    if unit.len() == 0 {
        Some(0)
    } else if unit.len() == 1 && is_unit_letter_char(unit[0], 'B') {
        Some(0)
    } else if unit.len() == 1 || (unit.len() == 2 && is_unit_letter_char(unit[1], 'B')) {
        if is_unit_letter_char(unit[0], 'K') {
            Some(1)
        } else if is_unit_letter_char(unit[0], 'M') {
            Some(2)
        } else if is_unit_letter_char(unit[0], 'G') {
            Some(3)
        } else if is_unit_letter_char(unit[0], 'T') {
            Some(4)
        } else {
            None
        }
    } else {
        None
    }
}

fn unit_scale(exponent: u8) -> (out: (u64, u128))
    requires
        exponent <= 4,
    ensures
        out.0 == unit_bytes(exponent as nat),
        out.1 == unit_divisor(exponent as nat),
{
    if exponent == 0 {
        (1, 1)
    } else if exponent == 1 {
        (1024, 9765625)
    } else if exponent == 2 {
        (1048576, 95367431640625)
    } else if exponent == 3 {
        (1073741824, 931322574615478515625)
    } else {
        (1099511627776, 9094947017729282379150390625)
    }
}

/// Reads the digits before the dot: `None` where a character is no digit,
/// else the number, or `None` in its place where it is past the largest
/// byte count.
fn read_whole(digits: &Vec<char>) -> (out: Option<Option<u64>>)
    ensures
        match out {
            None => !all_digits(digits@),
            Some(Some(w)) => all_digits(digits@) && w == digits_value(digits@),
            Some(None) => all_digits(digits@) && digits_value(digits@) > u64::MAX,
        },
{
    let mut value: u64 = 0;
    let mut big: bool = false;
    let mut i: usize = 0;
    while i < digits.len()
        invariant
            i <= digits.len(),
            all_digits(digits@.take(i as int)),
            !big ==> value == digits_value(digits@.take(i as int)),
            big ==> digits_value(digits@.take(i as int)) > u64::MAX,
        decreases digits.len() - i,
    {
        let d = match digit_of_char(digits[i]) {
            Some(d) => d,
            None => {
                return None;
            },
        };
        proof {
            assert(digits@.take(i + 1).drop_last() =~= digits@.take(i as int));
            assert(digits@.take(i + 1).last() == digits@[i as int]);
            assert forall|k: int| 0 <= k < i + 1 implies is_digit(
                #[trigger] digits@.take(i + 1)[k],
            ) by {
                if k < i {
                    assert(digits@.take(i as int)[k] == digits@[k]);
                }
            }
        }
        if !big {
            let next: u128 = value as u128 * 10 + d as u128;
            if next > u64::MAX as u128 {
                big = true;
            } else {
                value = next as u64;
            }
        }
        i += 1;
    }
    assert(digits@.take(digits@.len() as int) =~= digits@);
    if big {
        Some(None)
    } else {
        Some(Some(value))
    }
}

/// Reads the digits after the dot: `None` where a character is no digit,
/// else the whole bytes that the fraction adds in the given unit.
fn read_fraction(frac: &Vec<char>, exponent: u8) -> (out: Option<u64>)
    requires
        exponent <= 4,
    ensures
        match out {
            None => !all_digits(frac@),
            Some(q) => all_digits(frac@) && q == scaled_prefix(frac@, 10 * exponent as nat)
                / unit_divisor(exponent as nat) && q < unit_bytes(exponent as nat),
        },
{
    let mut k: usize = 0;
    while k < frac.len()
        invariant
            k <= frac.len(),
            forall|j: int| 0 <= j < k ==> is_digit(#[trigger] frac@[j]),
        decreases frac.len() - k,
    {
        if digit_of_char(frac[k]).is_none() {
            return None;
        }
        k += 1;
    }
    let (unit, divisor) = unit_scale(exponent);
    let places: usize = 10 * (exponent as usize);
    let mut quotient: u128 = 0;
    let mut rest: u128 = 0;
    let mut i: usize = 0;
    proof {
        lemma_unit_scale(exponent as nat);
    }
    while i < places
        invariant
            i <= places,
            places == 10 * exponent as nat,
            exponent <= 4,
            all_digits(frac@),
            unit == unit_bytes(exponent as nat),
            divisor == unit_divisor(exponent as nat),
            unit * divisor == pow10(places as nat),
            quotient * divisor + rest == scaled_prefix(frac@, i as nat),
            rest < divisor,
            quotient < unit || i == 0,
            quotient == 0 || i > 0,
        decreases places - i,
    {
        let digit: u128 = if i < frac.len() {
            match digit_of_char(frac[i]) {
                Some(d) => d as u128,
                None => 0,
            }
        } else {
            0
        };
        let current: u128 = rest * 10 + digit;
        let step: u128 = current / divisor;
        let next_rest: u128 = current % divisor;
        proof {
            lemma_fundamental_div_mod(current as int, divisor as int);
            assert(step < 10) by (nonlinear_arith)
                requires
                    current == divisor * step + next_rest,
                    current < 10 * divisor,
                    next_rest >= 0,
                    divisor > 0,
            ;
            let q = quotient as int;
            let dv = divisor as int;
            assert((q * dv + rest) * 10 + digit == (q * 10 + step) * dv + next_rest)
                by (nonlinear_arith)
                requires
                    rest * 10 + digit == dv * step + next_rest,
            ;
            lemma_scaled_prefix_bound(frac@, (i + 1) as nat);
            lemma_pow10_monotonic((i + 1) as nat, places as nat);
            assert(q * 10 + step < unit) by (nonlinear_arith)
                requires
                    (q * 10 + step) * dv + next_rest < unit * dv,
                    next_rest >= 0,
                    dv > 0,
            ;
        }
        quotient = quotient * 10 + step;
        rest = next_rest;
        i += 1;
    }
    proof {
        lemma_fundamental_div_mod_converse(
            scaled_prefix(frac@, places as nat) as int,
            divisor as int,
            quotient as int,
            rest as int,
        );
    }
    Some(quotient as u64)
}

/// Reads a size such as `100`, `1KB` or `1.5MB` into a number of bytes.
///
/// The text is split at its first letter into a number and a unit. The
/// number is made of digits with at most one dot among them and has at least
/// one digit. The unit is read without regard to case: none or `B` for bytes,
/// and `K`, `M`, `G`, `T`, each with or without a `B` after it, for the powers
/// of 1024. The result is the product rounded down; a product past the
/// largest byte count gives that count.
pub fn parse_size(s: &str) -> (out: Result<u64, InvalidSize>)
    ensures
        match size_of_text(s@) {
            Some(v) => out == Ok::<u64, InvalidSize>(clamp_size(v)),
            None => out is Err,
        },
{
    let chars = chars_of(s);
    let split = find_letter(&chars);
    let number = sub_vec(&chars, 0, split);
    let unit = sub_vec(&chars, split, chars.len());
    let exponent = match read_unit(&unit) {
        Some(e) => e,
        None => {
            return Err(InvalidSize);
        },
    };
    let dot = find_dot(&number);
    let whole = sub_vec(&number, 0, dot);
    let frac = if dot < number.len() {
        sub_vec(&number, dot + 1, number.len())
    } else {
        Vec::new()
    };
    if whole.len() == 0 && frac.len() == 0 {
        return Err(InvalidSize);
    }
    let whole_value = match read_whole(&whole) {
        Some(w) => w,
        None => {
            return Err(InvalidSize);
        },
    };
    let fraction_bytes = match read_fraction(&frac, exponent) {
        Some(q) => q,
        None => {
            return Err(InvalidSize);
        },
    };
    let (unit_size, _) = unit_scale(exponent);
    proof {
        lemma_split_number(whole@, frac@, exponent as nat);
        assert(digits_value(whole@) * unit_bytes(exponent as nat) >= digits_value(whole@))
            by (nonlinear_arith)
            requires
                unit_bytes(exponent as nat) >= 1,
        ;
    }
    match whole_value {
        None => Ok(u64::MAX),
        Some(w) => {
            assert(w * unit_size <= 0xffff_ffff_ffff_ffff * 1099511627776) by (nonlinear_arith)
                requires
                    w <= 0xffff_ffff_ffff_ffff,
                    unit_size <= 1099511627776,
            ;
            let total: u128 = w as u128 * unit_size as u128 + fraction_bytes as u128;
            if total > u64::MAX as u128 {
                Ok(u64::MAX)
            } else {
                Ok(total as u64)
            }
        },
    }
}

/// The unit in which a byte count is shown: the largest power of 1024, up
/// to the fourth, that is not above the count.
pub open spec fn size_unit(n: nat) -> nat {
    if n < 1024 {
        0
    } else if n < 1048576 {
        1
    } else if n < 1073741824 {
        2
    } else if n < 1099511627776 {
        3
    } else {
        4
    }
}

/// The suffix of a unit: `B`, `KB`, `MB`, `GB`, `TB`.
pub open spec fn unit_suffix(exponent: nat) -> Seq<char> {
    if exponent == 0 {
        seq!['B']
    } else if exponent == 1 {
        seq!['K', 'B']
    } else if exponent == 2 {
        seq!['M', 'B']
    } else if exponent == 3 {
        seq!['G', 'B']
    } else {
        seq!['T', 'B']
    }
}

/// A byte count in tenths of its unit, rounded to the nearest tenth, a half
/// upwards.
pub open spec fn size_tenths(n: nat) -> nat {
    let unit = unit_bytes(size_unit(n));
    (n * 10 + unit / 2) / unit
}

/// A byte count as shown to a reader: below 1024 the count and `B`, else the
/// count in its unit with one decimal place, and the unit's suffix.
pub open spec fn human_size_text(n: nat) -> Seq<char> {
    let exponent = size_unit(n);
    if exponent == 0 {
        decimal_digits(n) + seq![' ', 'B']
    } else {
        let tenths = size_tenths(n);
        decimal_digits(tenths / 10) + seq!['.', digit_char(tenths % 10), ' '] + unit_suffix(
            exponent,
        )
    }
}

/// What is shown of a byte count is the count itself below 1024, and else
/// differs from it by at most half a tenth of the unit, which is the largest
/// power of 1024 (up to the fourth) that the count reaches.
pub proof fn lemma_human_size_scales(n: nat)
    ensures
        size_unit(n) <= 4,
        size_unit(n) == 0 <==> n < 1024,
        unit_bytes(size_unit(n)) <= n || n == 0,
        size_unit(n) < 4 ==> n < 1024 * unit_bytes(size_unit(n)),
        2 * (size_tenths(n) * unit_bytes(size_unit(n)) - 10 * n) <= unit_bytes(size_unit(n)),
        2 * (10 * n - size_tenths(n) * unit_bytes(size_unit(n))) < unit_bytes(size_unit(n)),
{
    let unit = unit_bytes(size_unit(n)) as int;
    let x = n * 10 + unit / 2;
    lemma_fundamental_div_mod(x, unit);
    let t = size_tenths(n) as int;
    assert(unit * t == t * unit) by (nonlinear_arith);
}

fn push_unit_suffix(out: &mut String, exponent: u8)
    ensures
        final(out)@ == old(out)@ + unit_suffix(exponent as nat),
{
    if exponent == 0 {
        out.push('B');
    } else {
        if exponent == 1 {
            out.push('K');
        } else if exponent == 2 {
            out.push('M');
        } else if exponent == 3 {
            out.push('G');
        } else {
            out.push('T');
        }
        out.push('B');
    }
    assert(out@ =~= old(out)@ + unit_suffix(exponent as nat));
}

/// Shows a byte count in units of 1024: `512 B`, `1.5 KB`, `2.0 MB`.
pub fn human_size(n: u64) -> (out: String)
    ensures
        out@ == human_size_text(n as nat),
{
    let exponent: u8 = if n < 1024 {
        0
    } else if n < 1048576 {
        1
    } else if n < 1073741824 {
        2
    } else if n < 1099511627776 {
        3
    } else {
        4
    };
    let mut out = String::new();
    if exponent == 0 {
        push_decimal(&mut out, n);
        out.push(' ');
        out.push('B');
        assert(out@ =~= human_size_text(n as nat));
    } else {
        let (unit, _) = unit_scale(exponent);
        let tenths: u128 = (n as u128 * 10 + (unit / 2) as u128) / (unit as u128);
        proof {
            let x = n as int * 10 + unit as int / 2;
            lemma_fundamental_div_mod(x, unit as int);
            assert(tenths as int <= x) by (nonlinear_arith)
                requires
                    x == unit as int * (tenths as int) + x % (unit as int),
                    x % (unit as int) >= 0,
                    tenths >= 0,
                    unit >= 1,
            ;
            assert(tenths == size_tenths(n as nat));
        }
        push_decimal(&mut out, (tenths / 10) as u64);
        out.push('.');
        let ghost before = out@;
        push_decimal(&mut out, (tenths % 10) as u64);
        assert(decimal_digits((tenths % 10) as nat) =~= seq![digit_char((tenths % 10) as nat)]);
        out.push(' ');
        push_unit_suffix(&mut out, exponent);
        assert(out@ =~= human_size_text(n as nat));
    }
    out
}

} // verus!
