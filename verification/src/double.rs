//! Decimal numerals as IEEE 754 binary64 numbers.
//!
//! Durations and bitrates are read as doubles. This module computes what that
//! gives, exactly: the double nearest to the number that the digits write,
//! however many there are, ties to the even mantissa. A double that is finite
//! and not negative is a mantissa of at most 53 bits times a power of two.

use vstd::arithmetic::div_mod::*;
use vstd::arithmetic::mul::*;
use vstd::arithmetic::power2::*;
use vstd::prelude::*;

use crate::binary64;
use crate::binary64::{TWO_52, TWO_53};
use crate::numeral;
use crate::text;

verus! {

/// Two to the power of 64: the double nearest to the largest 64-bit number.
pub const TWO_64: u128 = 0x1_0000_0000_0000_0000;

/// No point of a numeral lies farther out than this.
pub const POINT_LIMIT: i128 = 0x1_0000_0000_0000_0000_0000;

// ---------------------------------------------------------------------------
// Meaning
// ---------------------------------------------------------------------------

/// Ten to the power of `k`.
pub open spec fn ten(k: nat) -> nat
    decreases k,
{
    if k == 0 {
        1
    } else {
        10 * ten((k - 1) as nat)
    }
}

/// A number as a fraction: all of its digits, over a power of ten.
pub open spec fn fraction(digits: Seq<char>, point: int) -> (nat, nat) {
    let n = if point > digits.len() {
        point
    } else {
        digits.len() as int
    };
    (numeral::leading_value(digits, n as nat), ten((n - point) as nat))
}

/// How often `num / den` is doubled until it reaches 53 bits, but no more than
/// `limit` times.
pub open spec fn doublings(num: nat, den: nat, limit: nat) -> nat
    decreases limit,
{
    if limit == 0 || num >= den * TWO_52 {
        0
    } else {
        1 + doublings(2 * num, den, (limit - 1) as nat)
    }
}

/// The mantissa and the exponent of the double nearest to `num / den`.
///
/// A mantissa has 53 bits, unless the number is so small that the exponent,
/// which is no less than -1074, leaves fewer. A mantissa that is rounded up to
/// 54 bits is halved, and the exponent raised.
pub open spec fn nearest(num: nat, den: nat) -> (nat, int) {
    if num >= den * TWO_53 {
        let e = binary64::excess_bits(num / den);
        normal(binary64::round_half_even(num, den * pow2(e)), e as int)
    } else {
        let k = doublings(num, den, 1074);
        normal(binary64::round_half_even(num * pow2(k), den), -k)
    }
}

/// A mantissa and an exponent, with a mantissa of 54 bits halved.
pub open spec fn normal(mantissa: nat, exponent: int) -> (nat, int) {
    if mantissa == TWO_53 {
        (TWO_52 as nat, exponent + 1)
    } else {
        (mantissa, exponent)
    }
}

/// Whether a double is finite: a number with a larger exponent is rounded to
/// infinity.
pub open spec fn is_finite(d: (nat, int)) -> bool {
    d.1 <= 971
}

/// The double nearest to a number, as a mantissa and an exponent.
pub open spec fn double_of(digits: Seq<char>, point: int) -> (nat, int) {
    let (num, den) = fraction(digits, point);
    nearest(num, den)
}

/// A mantissa and an exponent rounded to a whole number, ties up.
pub open spec fn rounded(mantissa: nat, exponent: int) -> nat {
    if exponent >= 0 {
        mantissa * pow2(exponent as nat)
    } else {
        binary64::round_half_up(mantissa, pow2((-exponent) as nat))
    }
}

/// The product of the double `d` and `factor` as a double, rounded to a whole
/// number, ties up.
pub open spec fn rounded_product(d: (nat, int), factor: nat) -> nat {
    rounded(binary64::nearest_whole(d.0 * factor), d.1)
}

/// A whole number in 64 bits: a larger one is cut off.
pub open spec fn cut_off(n: nat) -> u64 {
    if n <= u64::MAX {
        n as u64
    } else {
        u64::MAX
    }
}

/// The number that `n` digits write, of which the first stands at index
/// `from`. Zeros stand before the first digit and behind the last.
pub open spec fn span_value(digits: Seq<char>, from: int, n: nat) -> nat
    decreases n,
{
    if n == 0 {
        0
    } else {
        10 * span_value(digits, from, (n - 1) as nat) + numeral::digit_at(digits, from + n - 1)
    }
}

/// The number that decimal digits write.
pub open spec fn value(f: Seq<u8>) -> nat
    decreases f.len(),
{
    if f.len() == 0 {
        0
    } else {
        10 * value(f.drop_last()) + f.last() as nat
    }
}

/// Whether every one of `f` is a decimal digit.
pub open spec fn decimal_digits(f: Seq<u8>) -> bool {
    forall|i: int| 0 <= i < f.len() ==> #[trigger] f[i] <= 9
}

// ---------------------------------------------------------------------------
// Facts about digits
// ---------------------------------------------------------------------------

/// Powers of ten are positive, and powers of two are no larger.
proof fn lemma_ten(k: nat)
    ensures
        0 < pow2(k) <= ten(k),
    decreases k,
{
    lemma_pow2_pos(k);
    if k > 0 {
        lemma_ten((k - 1) as nat);
        lemma_pow2_unfold(k);
    } else {
        lemma2_to64();
    }
}

/// A span is the span of its first digits, moved to the left, and the rest.
proof fn lemma_span_splits(digits: Seq<char>, from: int, a: nat, b: nat)
    ensures
        span_value(digits, from, a + b) == span_value(digits, from, a) * ten(b) + span_value(
            digits,
            from + a,
            b,
        ),
    decreases b,
{
    let head = span_value(digits, from, a);
    if b > 0 {
        lemma_span_splits(digits, from, a, (b - 1) as nat);
        let ten_less = ten((b - 1) as nat);
        assert(10 * (head * ten_less) == head * (10 * ten_less)) by (nonlinear_arith);
        assert((a + b - 1) as nat == a + (b - 1) as nat);
    } else {
        assert(head * 1 == head);
    }
}

/// The leading digits are a span from the first.
proof fn lemma_leading_is_span(digits: Seq<char>, n: nat)
    ensures
        numeral::leading_value(digits, n) == span_value(digits, 0, n),
    decreases n,
{
    if n > 0 {
        lemma_leading_is_span(digits, (n - 1) as nat);
    }
}

/// A span before the first digit is zero.
proof fn lemma_span_before(digits: Seq<char>, from: int, n: nat)
    requires
        forall|i: int| from <= i < from + n ==> numeral::digit_at(digits, i) == 0,
    ensures
        span_value(digits, from, n) == 0,
    decreases n,
{
    if n > 0 {
        assert(numeral::digit_at(digits, from + n - 1) == 0);
        lemma_span_before(digits, from, (n - 1) as nat);
    }
}

/// Digits write the span that they are taken from.
proof fn lemma_value_is_span(digits: Seq<char>, from: int, f: Seq<u8>)
    requires
        forall|j: int|
            0 <= j < f.len() ==> #[trigger] f[j] == numeral::digit_at(digits, from + j),
    ensures
        value(f) == span_value(digits, from, f.len()),
    decreases f.len(),
{
    if f.len() > 0 {
        assert forall|j: int| 0 <= j < f.drop_last().len() implies #[trigger] f.drop_last()[j]
            == numeral::digit_at(digits, from + j) by {
            assert(f.drop_last()[j] == f[j]);
        }
        lemma_value_is_span(digits, from, f.drop_last());
    }
}

/// The first digit counts most.
proof fn lemma_value_first(f: Seq<u8>)
    requires
        f.len() > 0,
    ensures
        value(f) == f[0] * ten((f.len() - 1) as nat) + value(f.skip(1)),
    decreases f.len(),
{
    if f.len() > 1 {
        lemma_value_first(f.drop_last());
        assert(f.skip(1).drop_last() =~= f.drop_last().skip(1));
        assert(f.skip(1).last() == f.last());
        let less = ten((f.len() - 2) as nat);
        assert(10 * (f[0] * less) == f[0] * (10 * less)) by (nonlinear_arith);
    } else {
        assert(f.drop_last() =~= Seq::<u8>::empty());
        assert(f.skip(1) =~= Seq::<u8>::empty());
        assert(ten(0) == 1);
        assert(f[0] * 1 == f[0]);
    }
}

/// Digits write less than the power of ten with as many zeros.
proof fn lemma_value_bound(f: Seq<u8>)
    requires
        decimal_digits(f),
    ensures
        value(f) < ten(f.len()),
    decreases f.len(),
{
    if f.len() > 0 {
        assert(decimal_digits(f.drop_last())) by {
            assert forall|i: int| 0 <= i < f.drop_last().len() implies #[trigger] f.drop_last()[i]
                <= 9 by {
                assert(f.drop_last()[i] == f[i]);
            }
        }
        lemma_value_bound(f.drop_last());
        assert(f[f.len() - 1] <= 9);
    }
}

/// A fraction is the whole part and the digits behind the point.
proof fn lemma_fraction_splits(digits: Seq<char>, point: int, f: Seq<u8>)
    requires
        f.len() == if point > digits.len() {
            0
        } else {
            digits.len() - point
        },
        forall|j: int|
            0 <= j < f.len() ==> #[trigger] f[j] == numeral::digit_at(digits, point + j),
    ensures
        fraction(digits, point) == (
            numeral::whole_part(digits, point) * ten(f.len()) + value(f),
            ten(f.len()),
        ),
{
    let n = fraction_len(digits, point);
    lemma_value_is_span(digits, point, f);
    lemma_leading_is_span(digits, n);
    if point > 0 {
        lemma_leading_is_span(digits, point as nat);
        lemma_span_splits(digits, 0, point as nat, f.len());
    } else {
        lemma_span_before(digits, point, (-point) as nat);
        lemma_span_splits(digits, point, (-point) as nat, digits.len());
        assert(0 * ten(digits.len()) == 0);
        assert(0 * ten(f.len()) == 0);
    }
}

/// How many digits the numerator of a fraction has.
spec fn fraction_len(digits: Seq<char>, point: int) -> nat {
    if point > digits.len() {
        point as nat
    } else {
        digits.len()
    }
}

// ---------------------------------------------------------------------------
// Arithmetic on digits
// ---------------------------------------------------------------------------

/// The `n` digits from index `from` on. Zeros stand around the digits.
fn span(digits: &Vec<char>, from: i128, n: i128) -> (r: Vec<u8>)
    requires
        text::all_digits(digits@),
        -POINT_LIMIT <= from <= POINT_LIMIT,
        0 <= n <= POINT_LIMIT,
    ensures
        r@.len() == n,
        decimal_digits(r@),
        forall|j: int|
            0 <= j < n ==> #[trigger] r@[j] == numeral::digit_at(digits@, from + j),
{
    let mut r: Vec<u8> = Vec::new();
    let mut i: i128 = from;
    while i < from + n
        invariant
            text::all_digits(digits@),
            -POINT_LIMIT <= from <= POINT_LIMIT,
            0 <= n <= POINT_LIMIT,
            from <= i <= from + n,
            r@.len() == i - from,
            decimal_digits(r@),
            forall|j: int|
                0 <= j < i - from ==> #[trigger] r@[j] == numeral::digit_at(digits@, from + j),
        decreases from + n - i,
    {
        let d: u8 = if 0 <= i && i < digits.len() as i128 {
            proof {
                assert(text::is_digit(digits@[i as int]));
            }
            digits[i as usize] as u8 - 48
        } else {
            0
        };
        r.push(d);
        i = i + 1;
    }
    r
}

/// Whether digits write zero.
fn writes_zero(f: &Vec<u8>) -> (r: bool)
    requires
        decimal_digits(f@),
    ensures
        r == (value(f@) == 0),
{
    assert(f@.take(0) =~= Seq::<u8>::empty());
    for i in 0..f.len()
        invariant
            value(f@.take(i as int)) == 0,
    {
        proof {
            assert(f@.take(i + 1).drop_last() =~= f@.take(i as int));
            lemma_value_grows(f@, i + 1);
        }
        if f[i] != 0 {
            return false;
        }
    }
    assert(f@.take(f@.len() as int) =~= f@);
    true
}

/// More digits write no smaller number.
proof fn lemma_value_grows(f: Seq<u8>, n: int)
    requires
        0 <= n <= f.len(),
    ensures
        value(f.take(n)) <= value(f),
    decreases f.len() - n,
{
    if n < f.len() {
        lemma_value_grows(f, n + 1);
        assert(f.take(n + 1).drop_last() =~= f.take(n));
    } else {
        assert(f.take(n) =~= f);
    }
}

/// Double the number that digits write. What no longer fits is handed back.
fn double(f: &mut Vec<u8>) -> (carry: u8)
    requires
        decimal_digits(old(f)@),
    ensures
        final(f).len() == old(f).len(),
        decimal_digits(final(f)@),
        carry <= 1,
        2 * value(old(f)@) == carry * ten(old(f)@.len()) + value(final(f)@),
{
    let ghost before = f@;
    let n = f.len();
    let mut i: usize = n;
    let mut carry: u8 = 0;
    proof {
        assert(f@.skip(n as int) =~= Seq::<u8>::empty());
        assert(0 * ten(0) == 0);
    }
    while i > 0
        invariant
            n == f.len() == before.len(),
            i <= n,
            carry <= 1,
            decimal_digits(before),
            decimal_digits(f@),
            f@.take(i as int) == before.take(i as int),
            2 * value(before.skip(i as int)) == carry * ten((n - i) as nat) + value(
                f@.skip(i as int),
            ),
        decreases i,
    {
        let ghost last = f@;
        let ghost was = carry;
        i = i - 1;
        proof {
            assert(last.take(i + 1)[i as int] == before.take(i + 1)[i as int]);
            assert(before[i as int] <= 9);
        }
        let d = 2 * f[i] + carry;
        f.set(i, d % 10);
        carry = d / 10;
        proof {
            let size = ten((n - i - 1) as nat);
            lemma_value_first(before.skip(i as int));
            lemma_value_first(f@.skip(i as int));
            assert(before.skip(i as int).skip(1) =~= before.skip(i + 1));
            assert(f@.skip(i as int).skip(1) =~= last.skip(i + 1));
            assert(f@.take(i as int) =~= before.take(i as int)) by {
                assert forall|j: int| 0 <= j < i implies f@[j] == before[j] by {
                    assert(last.take(i + 1)[j] == before.take(i + 1)[j]);
                }
            }
            let b = before[i as int];
            let q = carry;
            let r = f@[i as int];
            assert(2 * (b * size) + was * size == q * (10 * size) + r * size) by (nonlinear_arith)
                requires
                    2 * b + was == 10 * q + r,
            ;
        }
    }
    proof {
        assert(f@.skip(0) =~= f@);
        assert(before.skip(0) =~= before);
    }
    carry
}

/// Halve the number that digits write. What is left over is handed back.
fn halve(f: &mut Vec<u8>) -> (rest: u8)
    requires
        decimal_digits(old(f)@),
    ensures
        final(f).len() == old(f).len(),
        decimal_digits(final(f)@),
        rest <= 1,
        value(old(f)@) == 2 * value(final(f)@) + rest,
{
    let ghost before = f@;
    let n = f.len();
    let mut i: usize = 0;
    let mut rest: u8 = 0;
    proof {
        assert(f@.take(0) =~= Seq::<u8>::empty());
    }
    while i < n
        invariant
            n == f.len() == before.len(),
            i <= n,
            rest <= 1,
            decimal_digits(before),
            decimal_digits(f@),
            f@.skip(i as int) == before.skip(i as int),
            value(before.take(i as int)) == 2 * value(f@.take(i as int)) + rest,
        decreases n - i,
    {
        let ghost last = f@;
        proof {
            assert(last.skip(i as int)[0] == before.skip(i as int)[0]);
            assert(before[i as int] <= 9);
        }
        let d = 10 * rest + f[i];
        f.set(i, d / 2);
        rest = d % 2;
        proof {
            assert(before.take(i + 1).drop_last() =~= before.take(i as int));
            assert(f@.take(i + 1).drop_last() =~= last.take(i as int));
            assert(f@.skip(i + 1) =~= before.skip(i + 1)) by {
                assert forall|j: int| i < j < n implies f@[j] == before[j] by {
                    assert(last.skip(i as int)[j - i] == before.skip(i as int)[j - i]);
                }
            }
        }
        i = i + 1;
    }
    proof {
        assert(f@.take(n as int) =~= f@);
        assert(before.take(n as int) =~= before);
    }
    rest
}

// ---------------------------------------------------------------------------
// Rounding
// ---------------------------------------------------------------------------

/// A number lies between its whole part and one more.
proof fn lemma_fraction_bounds(digits: Seq<char>, point: int)
    requires
        text::all_digits(digits),
    ensures
        fraction(digits, point).1 > 0,
        numeral::whole_part(digits, point) * fraction(digits, point).1 <= fraction(
            digits,
            point,
        ).0 < numeral::whole_part(digits, point) * fraction(digits, point).1 + fraction(
            digits,
            point,
        ).1,
{
    let n = if point > digits.len() {
        0
    } else {
        (digits.len() - point) as nat
    };
    let f = Seq::<u8>::new(n, |j: int| numeral::digit_at(digits, point + j) as u8);
    assert forall|j: int| 0 <= j < n implies #[trigger] f[j] == numeral::digit_at(
        digits,
        point + j,
    ) && f[j] <= 9 by {
        lemma_digit_bound(digits, point + j);
    }
    lemma_fraction_splits(digits, point, f);
    lemma_value_bound(f);
    lemma_ten(n);
}

/// A digit is less than ten.
proof fn lemma_digit_bound(digits: Seq<char>, i: int)
    requires
        text::all_digits(digits),
    ensures
        numeral::digit_at(digits, i) <= 9,
{
    if 0 <= i < digits.len() {
        assert(text::is_digit(digits[i]));
    }
}

/// A number with `k` zeros behind the point is less than a power of ten with
/// as many.
proof fn lemma_fraction_below(digits: Seq<char>, point: int, k: nat)
    requires
        text::all_digits(digits),
        point <= -k,
    ensures
        fraction(digits, point).0 * ten(k) < fraction(digits, point).1,
{
    let n = digits.len();
    let f = Seq::<u8>::new(n, |j: int| numeral::digit_at(digits, j) as u8);
    assert forall|j: int| 0 <= j < n implies #[trigger] f[j] == numeral::digit_at(digits, 0 + j)
        && f[j] <= 9 by {
        lemma_digit_bound(digits, j);
    }
    lemma_value_is_span(digits, 0, f);
    lemma_leading_is_span(digits, n);
    lemma_value_bound(f);
    lemma_ten(k);
    lemma_ten_adds(n, k);
    lemma_ten_grows(n + k, (n - point) as nat);
    assert(value(f) * ten(k) < ten(n) * ten(k)) by (nonlinear_arith)
        requires
            value(f) < ten(n),
            ten(k) > 0,
    ;
}

/// Zeros add up.
proof fn lemma_ten_adds(a: nat, b: nat)
    ensures
        ten(a + b) == ten(a) * ten(b),
    decreases b,
{
    if b > 0 {
        lemma_ten_adds(a, (b - 1) as nat);
        let x = ten(a);
        let y = ten((b - 1) as nat);
        assert(10 * (x * y) == x * (10 * y)) by (nonlinear_arith);
        assert((a + b - 1) as nat == a + (b - 1) as nat);
    } else {
        assert(ten(a) * 1 == ten(a));
    }
}

/// More zeros make a larger number.
proof fn lemma_ten_grows(a: nat, b: nat)
    requires
        a <= b,
    ensures
        ten(a) <= ten(b),
    decreases b,
{
    if a < b {
        lemma_ten_grows(a, (b - 1) as nat);
        lemma_ten((b - 1) as nat);
    }
}

/// The digits behind the point.
fn behind_point(digits: &Vec<char>, point: i128) -> (r: Vec<u8>)
    requires
        text::all_digits(digits@),
        -POINT_LIMIT / 2 <= point <= POINT_LIMIT,
    ensures
        decimal_digits(r@),
        value(r@) < ten(r@.len()),
        fraction(digits@, point as int) == (
            numeral::whole_part(digits@, point as int) * ten(r@.len()) + value(r@),
            ten(r@.len()),
        ),
{
    let n: i128 = if point > digits.len() as i128 {
        0
    } else {
        digits.len() as i128 - point
    };
    let f = span(digits, point, n);
    proof {
        lemma_fraction_splits(digits@, point as int, f@);
        lemma_value_bound(f@);
    }
    f
}

// ---------------------------------------------------------------------------
// Reading
// ---------------------------------------------------------------------------

/// Whether digits write `limit` or more.
fn reaches(f: &Vec<u8>, limit: u128) -> (r: bool)
    requires
        decimal_digits(f@),
        limit <= TWO_64,
    ensures
        r == (value(f@) >= limit),
{
    let mut n: u128 = 0;
    assert(f@.take(0) =~= Seq::<u8>::empty());
    for i in 0..f.len()
        invariant
            decimal_digits(f@),
            limit <= TWO_64,
            n == value(f@.take(i as int)),
            n <= 10 * TWO_64 + 9,
    {
        proof {
            assert(f@.take(i + 1).drop_last() =~= f@.take(i as int));
            lemma_value_grows(f@, i as int);
        }
        if n >= limit {
            return true;
        }
        n = 10 * n + f[i] as u128;
    }
    assert(f@.take(f@.len() as int) =~= f@);
    n >= limit
}

/// The number that digits write.
fn number(f: &Vec<u8>) -> (r: u64)
    requires
        decimal_digits(f@),
        value(f@) < TWO_53,
    ensures
        r == value(f@),
{
    let mut n: u64 = 0;
    assert(f@.take(0) =~= Seq::<u8>::empty());
    for i in 0..f.len()
        invariant
            decimal_digits(f@),
            value(f@) < TWO_53,
            n == value(f@.take(i as int)),
    {
        proof {
            assert(f@.take(i + 1).drop_last() =~= f@.take(i as int));
            lemma_value_grows(f@, i + 1);
        }
        n = 10 * n + f[i] as u64;
    }
    assert(f@.take(f@.len() as int) =~= f@);
    n
}

/// A mantissa and an exponent, with a mantissa of 54 bits halved.
fn normalize(mantissa: u64, exponent: i32) -> (r: Option<(u64, i32)>)
    requires
        mantissa <= TWO_53,
        -1074 <= exponent <= 971,
        mantissa >= TWO_52 || exponent == -1074,
    ensures
        is_read(r, normal(mantissa as nat, exponent as int)),
{
    if mantissa as u128 == TWO_53 {
        if exponent == 971 {
            None
        } else {
            Some((0x10_0000_0000_0000, exponent + 1))
        }
    } else {
        Some((mantissa, exponent))
    }
}

/// Whether `r` is the double `d`, or nothing in place of infinity.
pub open spec fn is_read(r: Option<(u64, i32)>, d: (nat, int)) -> bool {
    match r {
        Some((mantissa, exponent)) => {
            &&& is_finite(d)
            &&& mantissa == d.0
            &&& exponent == d.1
            &&& mantissa < TWO_53
            &&& -1074 <= exponent
            &&& mantissa >= TWO_52 || exponent == -1074
        },
        None => !is_finite(d),
    }
}

/// A number that is less than half of the smallest double is rounded to zero.
proof fn lemma_vanishes(num: nat, den: nat)
    requires
        num * pow2(1075) < den,
    ensures
        nearest(num, den) == (0nat, -1074int),
{
    lemma2_to64();
    lemma_pow2_unfold(1075);
    let small = pow2(1074);
    lemma_pow2_pos(1074);
    assert(2 * (num * small) < den && num <= num * small) by (nonlinear_arith)
        requires
            num * (2 * small) < den,
            small >= 1,
            num >= 0,
    ;
    assert(den <= den * TWO_52);
    assert(den <= den * TWO_53);
    lemma_all_doublings(num, den, 1074);
    lemma_small_mod(num * small, den);
    lemma_basic_div((num * small) as int, den as int);
}

/// A number that is still small after all doublings is doubled that often.
proof fn lemma_all_doublings(num: nat, den: nat, limit: nat)
    requires
        num * pow2(limit) < den * TWO_52,
    ensures
        doublings(num, den, limit) == limit,
    decreases limit,
{
    if limit > 0 {
        lemma_pow2_unfold(limit);
        let less = pow2((limit - 1) as nat);
        lemma_pow2_pos((limit - 1) as nat);
        assert((2 * num) * less == num * (2 * less)) by (nonlinear_arith);
        assert(num <= num * (2 * less)) by (nonlinear_arith)
            requires
                less >= 1,
                num >= 0,
        ;
        lemma_all_doublings(2 * num, den, (limit - 1) as nat);
    }
}

/// A number of two to the power of 1024 or more is rounded to infinity.
proof fn lemma_exceeds(num: nat, den: nat)
    requires
        den > 0,
        num >= den * pow2(1024),
    ensures
        !is_finite(nearest(num, den)),
{
    lemma2_to64();
    lemma2_to64_rest();
    let w = num / den;
    lemma_div_is_ordered((den * pow2(1024)) as int, num as int, den as int);
    lemma_div_multiples_vanish(pow2(1024) as int, den as int);
    lemma_pow2_strictly_increases(53, 1024);
    assert(num >= den * TWO_53) by (nonlinear_arith)
        requires
            num >= den * pow2(1024),
            pow2(1024) >= TWO_53,
    ;
    binary64::lemma_excess(w);
    let e = binary64::excess_bits(w);
    if e <= 971 {
        lemma_pow2_adds(971, 53);
        lemma_pow2_adds(e, (971 - e) as nat);
        lemma_pow2_pos((971 - e) as nat);
        lemma_pow2_pos(e);
        assert(pow2(e) * TWO_53 <= pow2(971) * TWO_53) by (nonlinear_arith)
            requires
                pow2(971) == pow2(e) * pow2((971 - e) as nat),
                pow2((971 - e) as nat) >= 1,
                pow2(e) >= 0,
        ;
    }
}

/// A bit counts in full or not at all.
proof fn lemma_bit(bit: u8, p: nat)
    requires
        bit <= 1,
    ensures
        bit == 0 ==> bit * p == 0,
        bit == 1 ==> bit * p == p,
{
    if bit == 0 {
        assert(0 * p == 0);
    } else {
        assert(1 * p == p);
    }
}

/// The double nearest to a number from two to the power of 53 on. Its whole
/// part is what `f` writes, and `exact` says whether that is all of it.
fn read_large(f: Vec<u8>, exact: bool, num: Ghost<nat>, den: Ghost<nat>) -> (r: Option<(u64, i32)>)
    requires
        decimal_digits(f@),
        value(f@) >= TWO_53,
        den@ > 0,
        value(f@) * den@ <= num@ < value(f@) * den@ + den@,
        exact == (num@ == value(f@) * den@),
    ensures
        is_read(r, nearest(num@, den@)),
{
    let ghost whole = value(f@);
    let ghost d = den@;
    let ghost behind = (num@ - whole * d) as nat;
    let mut f = f;
    let mut e: i32 = 0;
    // The last bit that was shifted out, and whether nothing lies below it.
    let mut bit: u8 = 0;
    let mut clean = exact;
    let ghost mut low: nat = 0;
    let ghost mut lower: nat = 0;
    proof {
        lemma2_to64();
        lemma_fundamental_div_mod_converse(num@ as int, d as int, whole as int, behind as int);
        assert(whole * 1 == whole);
        assert(num@ >= d * TWO_53) by (nonlinear_arith)
            requires
                num@ >= whole * d,
                whole >= TWO_53,
                d > 0,
        ;
    }
    while reaches(&f, TWO_53)
        invariant
            decimal_digits(f@),
            0 <= e <= 971,
            whole >= TWO_53,
            whole == num@ / d,
            num@ >= d * TWO_53,
            d == den@,
            bit <= 1,
            value(f@) >= TWO_52,
            whole == value(f@) * pow2(e as nat) + low,
            low < pow2(e as nat),
            clean == (lower == 0 && behind == 0),
            e == 0 ==> value(f@) == whole && bit == 0 && low == 0 && lower == 0,
            e > 0 ==> low == bit * pow2((e - 1) as nat) + lower && lower < pow2((e - 1) as nat),
            binary64::excess_bits(whole) == e + binary64::excess_bits(value(f@)),
        decreases value(f@),
    {
        if e == 971 {
            assert(binary64::excess_bits(value(f@)) >= 1);
            return None;
        }
        let ghost last = value(f@);
        let ghost was = bit;
        clean = clean && bit == 0;
        bit = halve(&mut f);
        proof {
            lemma_pow2_unfold((e + 1) as nat);
            let p = pow2(e as nat);
            lemma_pow2_pos(e as nat);
            let v = value(f@);
            assert(last * p == v * (2 * p) + bit * p) by (nonlinear_arith)
                requires
                    last == 2 * v + bit,
            ;
            if e > 0 {
                let half = pow2((e - 1) as nat);
                lemma_pow2_pos((e - 1) as nat);
                lemma_bit(was, half);
            }
            lemma_bit(bit, p);
            lower = low;
            low = (bit * p + low) as nat;
            assert(last / 2 == v);
        }
        e = e + 1;
    }
    let q = number(&f);
    proof {
        assert(e > 0);
        let p = pow2(e as nat);
        let half = pow2((e - 1) as nat);
        lemma_pow2_unfold(e as nat);
        lemma_pow2_pos((e - 1) as nat);
        let unit = d * p;
        let rest = low * d + behind;
        assert(num@ == unit * q + rest && 0 <= rest < unit) by (nonlinear_arith)
            requires
                num@ == whole * d + behind,
                whole == q * p + low,
                0 <= behind < d,
                0 <= low < p,
                unit == d * p,
                rest == low * d + behind,
        ;
        lemma_fundamental_div_mod_converse(num@ as int, unit as int, q as int, rest as int);
        lemma_bit(bit, half);
        assert((bit == 0 ==> 2 * rest < unit) && (bit == 1 ==> 2 * rest == unit + 2 * (lower * d
            + behind))) by (nonlinear_arith)
            requires
                unit == d * p,
                p == 2 * half,
                rest == low * d + behind,
                0 <= behind < d,
                bit == 0 ==> low == lower,
                bit == 1 ==> low == half + lower,
                0 <= lower < half,
        {
            if bit == 0 {
                assert((low + 1) * d <= half * d);
            }
        }
        assert(lower * d == 0 <==> lower == 0) by (nonlinear_arith)
            requires
                d > 0,
                lower >= 0,
        ;
    }
    let m = if bit == 0 || (clean && q % 2 == 0) {
        q
    } else {
        q + 1
    };
    normalize(m, e)
}

/// The double nearest to a number below two to the power of 53. Its whole
/// part is `whole`, and `f` is what stands behind the point.
fn read_small(whole: u128, f: Vec<u8>, num: Ghost<nat>, den: Ghost<nat>) -> (r: Option<(u64, i32)>)
    requires
        whole < TWO_53,
        decimal_digits(f@),
        den@ == ten(f@.len()),
        num@ == whole * den@ + value(f@),
    ensures
        is_read(r, nearest(num@, den@)),
{
    let ghost (num, den) = (num@, den@);
    let mut f = f;
    let mut n = whole;
    let mut shift: i32 = 0;
    proof {
        lemma2_to64();
        lemma_value_bound(f@);
        assert(num * 1 == num);
        assert(num < den * TWO_53) by (nonlinear_arith)
            requires
                num < whole * den + den,
                whole + 1 <= TWO_53,
        ;
    }
    while n < TWO_52 && shift < 1074
        invariant
            n < TWO_53,
            0 <= shift <= 1074,
            decimal_digits(f@),
            den == ten(f@.len()),
            value(f@) < den,
            num * pow2(shift as nat) == n * den + value(f@),
            doublings(num, den, 1074) == shift + doublings(
                num * pow2(shift as nat),
                den,
                (1074 - shift) as nat,
            ),
        decreases 1074 - shift,
    {
        let ghost last = value(f@);
        let ghost was = n;
        let ghost scaled = num * pow2(shift as nat);
        let carry = double(&mut f);
        n = 2 * n + carry as u128;
        shift = shift + 1;
        proof {
            lemma_value_bound(f@);
            lemma_pow2_unfold(shift as nat);
            let less = pow2((shift - 1) as nat);
            assert(num * (2 * less) == 2 * (num * less)) by (nonlinear_arith);
            assert(n * den == 2 * (was * den) + carry * den) by (nonlinear_arith)
                requires
                    n == 2 * was + carry,
            ;
            assert(scaled < den * TWO_52) by (nonlinear_arith)
                requires
                    scaled == was * den + last,
                    last < den,
                    was + 1 <= TWO_52,
            ;
        }
    }
    let ghost rest = value(f@);
    let ghost scaled = num * pow2(shift as nat);
    proof {
        lemma_fundamental_div_mod_converse(scaled as int, den as int, n as int, rest as int);
        if n >= TWO_52 {
            assert(scaled >= den * TWO_52) by (nonlinear_arith)
                requires
                    scaled >= n * den,
                    n >= TWO_52,
                    den > 0,
            ;
        }
    }
    let carry = double(&mut f);
    let exact = writes_zero(&f);
    proof {
        lemma_value_bound(f@);
        assert(0 * den == 0 && 1 * den == den);
    }
    let m: u128 = if carry == 0 || (exact && n % 2 == 0) {
        n
    } else {
        n + 1
    };
    proof {
        assert(m == binary64::round_half_even(scaled, den));
    }
    normalize(m as u64, -shift)
}

/// The double nearest to a number, as a mantissa and an exponent, unless it
/// is infinite.
pub fn read(digits: &Vec<char>, point: i128) -> (r: Option<(u64, i32)>)
    requires
        text::all_digits(digits@),
        -POINT_LIMIT / 2 <= point <= POINT_LIMIT,
    ensures
        is_read(r, double_of(digits@, point as int)),
{
    let ghost num = fraction(digits@, point as int).0;
    let ghost den = fraction(digits@, point as int).1;
    let ghost whole = numeral::whole_part(digits@, point as int);
    proof {
        lemma_fraction_bounds(digits@, point as int);
    }
    if point < -1075 {
        proof {
            lemma_fraction_below(digits@, point as int, 1075);
            lemma_ten(1075);
            assert(num * pow2(1075) <= num * ten(1075)) by (nonlinear_arith)
                requires
                    pow2(1075) <= ten(1075),
            ;
            lemma_vanishes(num, den);
        }
        return Some((0, -1074));
    }
    if let Some(whole) = numeral::short_whole(digits, point) {
        let f = behind_point(digits, point);
        return read_small(whole, f, Ghost(num), Ghost(den));
    }
    let mut zeros: usize = 0;
    while zeros < digits.len() && digits[zeros] == '0'
        invariant
            zeros <= digits.len(),
            forall|i: int| 0 <= i < zeros ==> digits@[i] == '0',
        decreases digits.len() - zeros,
    {
        zeros = zeros + 1;
    }
    proof {
        lemma_leading_zeros(digits@, point as int, zeros as nat);
    }
    let n = point - zeros as i128;
    if n > 1024 {
        proof {
            lemma_many_digits(digits@, zeros as int, n as nat);
            assert(num >= den * pow2(1024)) by (nonlinear_arith)
                requires
                    num >= whole * den,
                    whole >= pow2(1024),
                    den > 0,
            ;
            lemma_exceeds(num, den);
        }
        return None;
    }
    let f = span(digits, zeros as i128, n);
    let behind = behind_point(digits, point);
    let exact = writes_zero(&behind);
    proof {
        lemma_value_is_span(digits@, zeros as int, f@);
    }
    read_large(f, exact, Ghost(num), Ghost(den))
}

/// Zeros before the first digit of a whole part count for nothing. A whole
/// part that is not zero has digits behind them.
proof fn lemma_leading_zeros(digits: Seq<char>, point: int, zeros: nat)
    requires
        text::all_digits(digits),
        zeros <= digits.len(),
        forall|i: int| 0 <= i < zeros ==> digits[i] == '0',
        numeral::whole_part(digits, point) > 0,
    ensures
        zeros < point,
        zeros < digits.len(),
        numeral::whole_part(digits, point) == span_value(
            digits,
            zeros as int,
            (point - zeros) as nat,
        ),
{
    assert forall|i: int| 0 <= i < zeros implies numeral::digit_at(digits, i) == 0 by {
        assert(digits[i] == '0');
    }
    lemma_leading_is_span(digits, point as nat);
    if point <= zeros {
        lemma_span_before(digits, 0, point as nat);
    } else {
        let n = (point - zeros) as nat;
        lemma_span_before(digits, 0, zeros);
        lemma_span_splits(digits, 0, zeros, n);
        assert(0 * ten(n) == 0);
        if zeros == digits.len() {
            lemma_span_before(digits, zeros as int, n);
        }
    }
}

/// More than 1024 digits write two to the power of 1024 or more, if the first
/// is not zero.
proof fn lemma_many_digits(digits: Seq<char>, from: int, n: nat)
    requires
        text::all_digits(digits),
        0 <= from < digits.len(),
        digits[from] != '0',
        n > 1024,
    ensures
        span_value(digits, from, n) >= pow2(1024),
{
    let k = (n - 1) as nat;
    lemma_span_splits(digits, from, 1, k);
    assert(span_value(digits, from, 0) == 0);
    assert(text::is_digit(digits[from]));
    let first = span_value(digits, from, 1);
    assert(first >= 1);
    assert(first * ten(k) >= ten(k)) by (nonlinear_arith)
        requires
            first >= 1,
            ten(k) >= 0,
    ;
    lemma_ten(1024);
    lemma_ten_grows(1024, k);
}

// ---------------------------------------------------------------------------
// Whole numbers
// ---------------------------------------------------------------------------

/// A double rounded to a whole number, ties up, and cut off at 64 bits.
pub fn whole(mantissa: u64, exponent: i32) -> (r: u64)
    ensures
        r == cut_off(rounded(mantissa as nat, exponent as int)),
{
    proof {
        lemma2_to64();
    }
    if exponent >= 64 {
        if mantissa == 0 {
            assert(0 * pow2(exponent as nat) == 0);
            return 0;
        }
        proof {
            if exponent > 64 {
                lemma_pow2_strictly_increases(64, exponent as nat);
            }
            assert(mantissa * pow2(exponent as nat) >= pow2(exponent as nat)) by (nonlinear_arith)
                requires
                    mantissa >= 1,
            ;
        }
        return u64::MAX;
    }
    if exponent >= 0 {
        let p = binary64::power_of_two(exponent as u32);
        proof {
            if exponent < 64 {
                lemma_pow2_strictly_increases(exponent as nat, 64);
            }
            assert(mantissa * p <= u64::MAX * 0x1_0000_0000_0000_0000) by (nonlinear_arith)
                requires
                    mantissa <= u64::MAX,
                    p <= 0x1_0000_0000_0000_0000,
            ;
        }
        let n = mantissa as u128 * p;
        return if n > u64::MAX as u128 {
            u64::MAX
        } else {
            n as u64
        };
    }
    if exponent <= -66 {
        proof {
            lemma_pow2_adds(64, 2);
            let p = pow2((-exponent) as nat);
            if exponent < -66 {
                lemma_pow2_strictly_increases(66, (-exponent) as nat);
            }
            lemma_small_mod(mantissa as nat, p);
            lemma_basic_div(mantissa as int, p as int);
        }
        return 0;
    }
    let p = binary64::power_of_two((-exponent) as u32);
    let n = binary64::half_up(mantissa as u128, p);
    proof {
        lemma_pow2_pos((-exponent) as nat);
        lemma_pow2_unfold((-exponent) as nat);
        assert(p >= 2) by {
            lemma_pow2_pos((-exponent - 1) as nat);
        }
        lemma_div_is_ordered_by_denominator(mantissa as int, 2, p as int);
    }
    n as u64
}

/// Multiply a double by `factor`, and round the product to a whole number,
/// unless it exceeds two to the power of 64.
pub fn product(mantissa: u64, exponent: i32, factor: u64) -> (r: Option<u64>)
    requires
        mantissa < TWO_53,
        mantissa >= TWO_52 || exponent < 0,
        -2000 <= exponent,
        1 <= factor <= 1_000_000_000,
    ensures
        ({
            let n = rounded_product((mantissa as nat, exponent as int), factor as nat);
            match r {
                Some(bits) => n <= TWO_64 && bits == cut_off(n),
                None => n > TWO_64,
            }
        }),
{
    proof {
        lemma2_to64();
        assert(mantissa <= mantissa * factor <= TWO_53 * 1_000_000_000) by (nonlinear_arith)
            requires
                mantissa <= TWO_53,
                1 <= factor <= 1_000_000_000,
        ;
        binary64::lemma_nearest_whole_bounds((mantissa * factor) as nat);
    }
    let p = binary64::nearest_whole_double(mantissa as u128 * factor as u128);
    if exponent >= 14 {
        proof {
            let unit = pow2(exponent as nat);
            if exponent > 14 {
                lemma_pow2_strictly_increases(14, exponent as nat);
            }
            assert(p == binary64::nearest_whole(mantissa as nat * factor as nat));
            let exact = mantissa as nat * factor as nat;
            assert(p >= TWO_52 - 1) by (nonlinear_arith)
                requires
                    (TWO_52 - 1) * exact <= TWO_52 * p,
                    exact >= TWO_52,
                    TWO_52 == 0x10_0000_0000_0000,
            ;
            assert(p * unit >= p * 0x4000) by (nonlinear_arith)
                requires
                    unit >= 0x4000,
            ;
        }
        return None;
    }
    let n: u128 = if exponent >= 0 {
        let unit = binary64::power_of_two(exponent as u32);
        proof {
            lemma_pow2_strictly_increases(exponent as nat, 14);
            assert(p * unit <= p * 0x4000) by (nonlinear_arith)
                requires
                    unit <= 0x4000,
            ;
        }
        p * unit
    } else if exponent >= -90 {
        binary64::half_up(p, binary64::power_of_two((-exponent) as u32))
    } else {
        proof {
            lemma_pow2_adds(64, 26);
            let unit = pow2((-exponent) as nat);
            lemma_pow2_strictly_increases(90, (-exponent) as nat);
            lemma_small_mod(p as nat, unit);
            lemma_basic_div(p as int, unit as int);
        }
        0
    };
    if n > TWO_64 {
        None
    } else if n == TWO_64 {
        Some(u64::MAX)
    } else {
        Some(n as u64)
    }
}

// ---------------------------------------------------------------------------
// Laws
// ---------------------------------------------------------------------------

/// A whole number of 53 bits is doubled exactly as often as it has room.
proof fn lemma_doublings_fit(num: nat, limit: nat)
    requires
        num < TWO_53,
    ensures
        num * pow2(doublings(num, 1, limit)) < TWO_53,
        doublings(num, 1, limit) <= limit,
    decreases limit,
{
    if limit == 0 || num >= TWO_52 {
        lemma2_to64();
        assert(num * 1 == num);
    } else {
        lemma_doublings_fit(2 * num, (limit - 1) as nat);
        let k = doublings(num, 1, limit);
        lemma_pow2_unfold(k);
        let less = pow2((k - 1) as nat);
        assert((2 * num) * less == num * (2 * less)) by (nonlinear_arith);
    }
}

/// A whole number is multiplied exactly as long as the product fits into the
/// mantissa of a double.
pub proof fn law_short_products_are_exact(digits: Seq<char>, factor: nat)
    requires
        factor >= 1,
        numeral::leading_value(digits, digits.len()) * factor < TWO_53,
    ensures
        is_finite(double_of(digits, digits.len() as int)),
        double_of(digits, digits.len() as int).0 < TWO_53,
        -1074 <= double_of(digits, digits.len() as int).1 <= 0,
        numeral::leading_value(digits, digits.len()) > 0 ==> double_of(
            digits,
            digits.len() as int,
        ).0 > 0,
        rounded_product(double_of(digits, digits.len() as int), factor) == numeral::leading_value(
            digits,
            digits.len(),
        ) * factor,
{
    let n = numeral::leading_value(digits, digits.len());
    assert(n <= n * factor) by (nonlinear_arith)
        requires
            factor >= 1,
            n >= 0,
    ;
    assert(fraction(digits, digits.len() as int) == (n, 1nat)) by {
        assert(ten(0) == 1);
    }
    lemma_doublings_fit(n, 1074);
    let k = doublings(n, 1, 1074);
    let p = pow2(k);
    lemma_pow2_pos(k);
    let m = n * p;
    assert(m % 1 == 0 && m / 1 == m);
    assert(n > 0 ==> m > 0) by (nonlinear_arith)
        requires
            m == n * p,
            p > 0,
    ;
    assert(double_of(digits, digits.len() as int) == (m, -k));
    assert((n * p) * factor == (n * factor) * p) by (nonlinear_arith);
    binary64::lemma_short_is_kept(n * factor, k);
    lemma_div_multiples_vanish((n * factor) as int, p as int);
    lemma_mod_multiples_basic((n * factor) as int, p as int);
    lemma_mul_is_commutative((n * factor) as int, p as int);
    if k == 0 {
        lemma2_to64();
        assert((n * factor) * 1 == n * factor);
    }
}

/// The double that a number is read as is at most half of a unit of its
/// mantissa's last place away from it.
pub proof fn law_reading_is_nearest(num: nat, den: nat)
    requires
        den > 0,
    ensures
        ({
            let (m, e) = nearest(num, den);
            let unit = if e >= 0 {
                den * pow2(e as nat)
            } else {
                den
            };
            let exact = if e >= 0 {
                num
            } else {
                num * pow2((-e) as nat)
            };
            -(unit as int) <= 2 * (m * unit - exact) <= unit
        }),
{
    lemma2_to64();
    if num >= den * TWO_53 {
        let e = binary64::excess_bits(num / den);
        let unit = den * pow2(e);
        lemma_pow2_pos(e);
        assert(unit > 0) by (nonlinear_arith)
            requires
                unit == den * pow2(e),
                den > 0,
                pow2(e) > 0,
        ;
        lemma_half_even_is_close(num, unit);
        let m = binary64::round_half_even(num, unit);
        if m == TWO_53 {
            lemma_pow2_unfold(e + 1);
            assert(TWO_52 * (den * (2 * pow2(e))) == TWO_53 * unit) by (nonlinear_arith)
                requires
                    unit == den * pow2(e),
                    TWO_53 == 2 * TWO_52,
            ;
            assert(den * (2 * pow2(e)) == 2 * unit) by (nonlinear_arith)
                requires
                    unit == den * pow2(e),
            ;
        }
    } else {
        let k = doublings(num, den, 1074);
        let scaled = num * pow2(k);
        lemma_half_even_is_close(scaled, den);
        let m = binary64::round_half_even(scaled, den);
        if k == 0 {
            assert(num * 1 == num);
            assert(den * 1 == den);
        }
        if m == TWO_53 {
            if k == 0 {
                lemma_pow2_unfold(1);
                assert(TWO_52 * (den * 2) == TWO_53 * den) by (nonlinear_arith)
                    requires
                        TWO_53 == 2 * TWO_52,
                ;
            } else {
                lemma_pow2_unfold(k);
                let less = pow2((k - 1) as nat);
                assert(num * (2 * less) == 2 * (num * less)) by (nonlinear_arith);
                assert(2 * (TWO_52 * den) == TWO_53 * den) by (nonlinear_arith)
                    requires
                        TWO_53 == 2 * TWO_52,
                ;
                if k == 1 {
                    assert(num * 1 == num);
                    assert(den * 1 == den);
                }
            }
        }
    }
}

/// Rounding moves a quotient by no more than a half.
proof fn lemma_half_even_is_close(num: nat, den: nat)
    requires
        den > 0,
    ensures
        -(den as int) <= 2 * (binary64::round_half_even(num, den) * den - num) <= den,
{
    lemma_fundamental_div_mod(num as int, den as int);
    let q = num / den;
    let m = binary64::round_half_even(num, den);
    lemma_mul_is_commutative(q as int, den as int);
    assert((q + 1) * den == q * den + den) by (nonlinear_arith);
}

} // verus!
