//! IEEE 754 binary64 arithmetic on non-negative numbers, in whole numbers.
//!
//! Frame rates, aspect ratios, sizes and bitrates are shown as decimals that
//! come out of one or two double-precision operations. This module computes
//! what those operations give, exactly: a finite double is a mantissa of at
//! most 53 bits over a power of two, and every operation rounds its exact
//! result to the nearest such number, ties to the even mantissa.

use vstd::arithmetic::power2::*;
use vstd::arithmetic::div_mod::*;
use vstd::arithmetic::mul::*;
use vstd::prelude::*;

use crate::text;

verus! {

/// Two to the power of 52: the smallest mantissa of a normalized double.
pub const TWO_52: u128 = 0x10_0000_0000_0000;

/// Two to the power of 53: one past the largest mantissa.
pub const TWO_53: u128 = 0x20_0000_0000_0000;

/// The double nearest to 0.000001 is this over two to the power of 72.
pub const MILLIONTH_MANTISSA: u128 = 4722366482869645;

/// The double nearest to 0.025 is this over two to the power of 58.
pub const FORTIETH_MANTISSA: u128 = 7205759403792794;

// ---------------------------------------------------------------------------
// Rounding
// ---------------------------------------------------------------------------

/// `num / den` rounded to a whole number, ties to even.
pub open spec fn round_half_even(num: nat, den: nat) -> nat {
    let q = num / den;
    let twice = 2 * (num % den);
    if twice < den || (twice == den && q % 2 == 0) {
        q
    } else {
        q + 1
    }
}

/// `num / den` rounded to a whole number, ties up.
pub open spec fn round_half_up(num: nat, den: nat) -> nat {
    if 2 * (num % den) < den {
        num / den
    } else {
        num / den + 1
    }
}

/// The double nearest to `num / den`, as a mantissa and the power of two to
/// divide it by, given that `shift` doublings of the numerator were made.
///
/// The numerator is doubled until the quotient reaches 53 bits, which is what
/// a double holds. Meant for quotients below two to the power of 53.
pub open spec fn nearest_shifted(num: nat, den: nat, shift: nat) -> (nat, nat)
    decreases
            if num < den * TWO_52 {
                den * TWO_52 - num
            } else {
                0
            },
{
    if num == 0 || num >= den * TWO_52 {
        (round_half_even(num, den), shift)
    } else {
        nearest_shifted(2 * num, den, shift + 1)
    }
}

/// The double nearest to `num / den`.
pub open spec fn nearest_quotient(num: nat, den: nat) -> (nat, nat) {
    nearest_shifted(num, den, 0)
}

/// How many low bits of `n` a 53-bit mantissa has no room for.
pub open spec fn excess_bits(n: nat) -> nat
    decreases n,
{
    if n < TWO_53 {
        0
    } else {
        1 + excess_bits(n / 2)
    }
}

/// The double nearest to the whole number `n`.
pub open spec fn nearest_whole(n: nat) -> nat {
    round_half_even(n, pow2(excess_bits(n))) * pow2(excess_bits(n))
}

/// What is cut off leaves between 52 and 53 bits.
pub(crate) proof fn lemma_excess(n: nat)
    requires
        n >= TWO_53,
    ensures
        pow2(excess_bits(n)) * TWO_52 <= n < pow2(excess_bits(n)) * TWO_53,
    decreases n,
{
    let e = excess_bits(n);
    lemma_pow2_unfold(e);
    if n / 2 >= TWO_53 {
        lemma_excess(n / 2);
    } else {
        assert(excess_bits(n / 2) == 0);
        lemma2_to64();
    }
}

/// Rounding moves a whole number by no more than its 52nd binary place.
pub(crate) proof fn lemma_nearest_whole_bounds(n: nat)
    ensures
        (TWO_52 - 1) * n <= TWO_52 * nearest_whole(n) <= (TWO_52 + 1) * n,
        n < TWO_53 ==> nearest_whole(n) == n,
{
    let p = pow2(excess_bits(n));
    lemma_pow2_pos(excess_bits(n));
    lemma_rounding_bounds(n, p);
    let m = round_half_even(n, p);
    lemma_fundamental_div_mod(n as int, p as int);
    if n < TWO_53 {
        lemma2_to64();
        assert(n % 1 == 0 && n / 1 == n);
        assert(n * 1 == n);
    } else {
        lemma_excess(n);
        assert(m * p <= n + p && n < m * p + p) by (nonlinear_arith)
            requires
                n / p <= m <= n / p + 1,
                n == p * (n / p) + n % p,
                0 <= n % p < p,
        ;
    }
}

/// A number of 53 bits with zeros behind it is a double.
pub(crate) proof fn lemma_short_is_kept(n: nat, k: nat)
    requires
        n < TWO_53,
    ensures
        nearest_whole(n * pow2(k)) == n * pow2(k),
{
    lemma_excess_is_zeros(n, k);
    let e = excess_bits(n * pow2(k));
    let p = pow2(e);
    let c = n * pow2((k - e) as nat);
    lemma_pow2_pos(e);
    lemma_pow2_adds((k - e) as nat, e);
    lemma_mul_is_associative(n as int, pow2((k - e) as nat) as int, p as int);
    lemma_div_multiples_vanish(c as int, p as int);
    lemma_mod_multiples_basic(c as int, p as int);
    lemma_mul_is_commutative(c as int, p as int);
}

/// Only zeros are cut off of a number of 53 bits with zeros behind it.
proof fn lemma_excess_is_zeros(n: nat, k: nat)
    requires
        n < TWO_53,
    ensures
        excess_bits(n * pow2(k)) <= k,
    decreases k,
{
    if k == 0 {
        lemma2_to64();
        assert(n * 1 == n);
    } else {
        lemma_excess_is_zeros(n, (k - 1) as nat);
        lemma_pow2_unfold(k);
        let less = pow2((k - 1) as nat);
        assert(n * (2 * less) == 2 * (n * less)) by (nonlinear_arith);
    }
}

/// Rounding gives the quotient or one more.
pub(crate) proof fn lemma_rounding_bounds(num: nat, den: nat)
    ensures
        num / den <= round_half_even(num, den) <= num / den + 1,
{
}

/// `num / den` rounded to a whole number, ties to even.
pub fn half_even(num: u128, den: u128) -> (r: u128)
    requires
        0 < den <= u128::MAX / 2,
        num < u128::MAX,
    ensures
        r == round_half_even(num as nat, den as nat),
        r <= num / den + 1,
{
    let q = num / den;
    let rest = num % den;
    proof {
        assert(q <= num) by {
            lemma_div_nonincreasing(num as int, den as int);
        }
    }
    let twice = 2 * rest;
    if twice < den || (twice == den && q % 2 == 0) {
        q
    } else {
        q + 1
    }
}

/// `num / den` rounded to a whole number, ties up.
pub fn half_up(num: u128, den: u128) -> (r: u128)
    requires
        0 < den <= u128::MAX / 2,
        num < u128::MAX,
    ensures
        r == round_half_up(num as nat, den as nat),
{
    let q = num / den;
    let rest = num % den;
    proof {
        assert(q <= num) by {
            lemma_div_nonincreasing(num as int, den as int);
        }
    }
    if 2 * rest < den {
        q
    } else {
        q + 1
    }
}

proof fn lemma_powers()
    ensures
        pow2(0) == 1,
        pow2(13) == 0x2000,
        pow2(27) == 0x800_0000,
        pow2(52) == TWO_52,
        pow2(53) == TWO_53,
        pow2(72) == 0x100_0000_0000_0000_0000,
        pow2(85) == 0x20_0000_0000_0000_0000_0000,
        pow2(117) == 0x20_0000_0000_0000_0000_0000_0000_0000,
{
    lemma2_to64();
    lemma2_to64_rest();
    lemma_pow2_adds(64, 8);
    lemma_pow2_adds(64, 21);
    lemma_pow2_adds(85, 32);
}

/// Powers of two grow with their exponents.
proof fn lemma_pow2_le(a: nat, b: nat)
    requires
        a <= b,
    ensures
        0 < pow2(a) <= pow2(b),
{
    lemma_pow2_pos(a);
    if a < b {
        lemma_pow2_strictly_increases(a, b);
    }
}

/// Two to the power of `k`.
pub fn power_of_two(k: u32) -> (r: u128)
    requires
        k <= 120,
    ensures
        r == pow2(k as nat),
        0 < r <= u128::MAX / 2,
{
    let mut r: u128 = 1;
    proof {
        lemma_powers();
        lemma2_to64();
        lemma_pow2_adds(64, 32);
        lemma_pow2_adds(96, 24);
    }
    for i in 0..k
        invariant
            k <= 120,
            r == pow2(i as nat),
            pow2(120) == 0x100_0000_0000_0000_0000_0000_0000_0000,
    {
        proof {
            lemma_pow2_unfold((i + 1) as nat);
            lemma_pow2_le((i + 1) as nat, 120);
        }
        r = r * 2;
    }
    proof {
        lemma_pow2_le(k as nat, 120);
    }
    r
}

// ---------------------------------------------------------------------------
// Doubles
// ---------------------------------------------------------------------------

/// A finite, non-negative double: `mantissa / 2^shift`.
#[derive(Debug, Clone, Copy, PartialEq, Eq)]
pub struct Double {
    pub mantissa: u64,
    pub shift: u32,
}

impl Double {
    /// The mantissa and the exponent of the power of two below it.
    pub open spec fn parts(self) -> (nat, nat) {
        (self.mantissa as nat, self.shift as nat)
    }

    /// The bounds of what [`nearest_double`] gives.
    pub open spec fn wf(self) -> bool {
        self.mantissa <= TWO_53 && self.shift <= 85
    }
}

/// The double nearest to `num / den`.
pub fn nearest_double(num: u128, den: u128) -> (r: Double)
    requires
        0 < den <= 0x1_0000_0000,
        num < den * TWO_53,
    ensures
        r.parts() == nearest_quotient(num as nat, den as nat),
        r.wf(),
        r.mantissa == 0 <==> num == 0,
        num > 0 ==> r.mantissa >= TWO_52,
        r.mantissa <= num * pow2(r.shift as nat) + 1,
{
    let mut n: u128 = num;
    let mut shift: u32 = 0;
    proof {
        lemma_powers();
        lemma_pow2_pos(0);
        assert(num * 1 == num);
    }
    let limit: u128 = den * TWO_52;
    while n != 0 && n < limit
        invariant
            0 < den <= 0x1_0000_0000,
            limit == den * TWO_52,
            n < den * TWO_53,
            n == num * pow2(shift as nat),
            pow2(85) == 0x20_0000_0000_0000_0000_0000,
            shift <= 85,
            n == 0 ==> num == 0,
            nearest_shifted(n as nat, den as nat, shift as nat) == nearest_quotient(
                num as nat,
                den as nat,
            ),
        decreases
            if n < limit {
                limit - n
            } else {
                0
            },
    {
        proof {
            lemma_pow2_unfold((shift + 1) as nat);
            lemma_mul_is_associative(num as int, pow2(shift as nat) as int, 2);
            assert(num >= 1) by {
                if num == 0 {
                    assert(0 * pow2(shift as nat) == 0);
                }
            }
            assert(pow2(shift as nat) <= n) by (nonlinear_arith)
                requires
                    n == num * pow2(shift as nat),
                    num >= 1,
            ;
            if shift >= 85 {
                lemma_pow2_le(85, shift as nat);
            }
        }
        n = n * 2;
        shift = shift + 1;
    }
    proof {
        if num == 0 {
            assert(0 * pow2(shift as nat) == 0);
        }
        lemma_fundamental_div_mod(n as int, den as int);
        assert(n / den < TWO_53) by {
            lemma_multiply_divide_lt(n as int, den as int, TWO_53 as int);
        }
        if n > 0 {
            assert(n / den >= TWO_52) by {
                lemma_div_is_ordered(den * TWO_52, n as int, den as int);
                lemma_div_multiples_vanish(TWO_52 as int, den as int);
            }
        }
    }
    let m = half_even(n, den);
    proof {
        lemma_div_nonincreasing(n as int, den as int);
    }
    Double { mantissa: m as u64, shift }
}

/// The double nearest to the whole number `n`.
pub fn nearest_whole_double(n: u128) -> (r: u128)
    requires
        n <= 0x20_0000_0000_0000_0000_0000_0000_0000,
    ensures
        r == nearest_whole(n as nat),
        r <= 2 * n,
{
    let mut p: u128 = 1;
    let ghost mut e: nat = 0;
    proof {
        lemma_powers();
    }
    while n / p >= TWO_53
        invariant
            n <= 0x20_0000_0000_0000_0000_0000_0000_0000,
            0 < p <= u128::MAX / 4,
            p == pow2(e),
            p <= n || p == 1,
            excess_bits(n as nat) == e + excess_bits((n / p) as nat),
        decreases n / p,
    {
        proof {
            lemma_fundamental_div_mod(n as int, p as int);
            lemma_div_denominator(n as int, p as int, 2);
            lemma_pow2_unfold(e + 1);
            assert(p * TWO_53 <= n) by (nonlinear_arith)
                requires
                    n == p * (n / p) + n % p,
                    n / p >= TWO_53,
                    n % p >= 0,
                    p > 0,
            ;
            e = e + 1;
        }
        p = p * 2;
    }
    let q = half_even(n, p);
    proof {
        lemma_fundamental_div_mod(n as int, p as int);
        assert(q * p <= n + p) by (nonlinear_arith)
            requires
                q <= n / p + 1,
                n == p * (n / p) + n % p,
                n % p >= 0,
                p > 0,
        ;
        if n == 0 {
            assert(p == 1 && q == 0);
            assert(q * p == 0) by (nonlinear_arith)
                requires
                    q == 0,
            ;
        }
    }
    q * p
}

// ---------------------------------------------------------------------------
// Decimals
// ---------------------------------------------------------------------------

/// The double `d`, in units of one `scale`th, rounded to a whole number.
///
/// A decimal with a fixed number of places shows this number, ties to even.
pub open spec fn in_units(d: (nat, nat), scale: nat) -> nat {
    round_half_even(d.0 * scale, pow2(d.1))
}

/// A number of tenths, with one decimal place.
pub open spec fn tenths_text(n: nat) -> Seq<char> {
    text::decimal(n / 10).push('.').push(text::digit(n % 10))
}

/// A number of thousandths, with three decimal places.
pub open spec fn thousandths_text(n: nat) -> Seq<char> {
    text::decimal(n / 1000).push('.') + text::three_digits(n % 1000)
}

/// The double `d`, in units of one `scale`th, rounded to a whole number.
pub fn units(d: Double, scale: u64) -> (r: u64)
    requires
        d.wf(),
        0 < scale <= 1000,
    ensures
        r == in_units(d.parts(), scale as nat),
{
    let p = power_of_two(d.shift);
    proof {
        assert(d.mantissa * scale <= 0x20_0000_0000_0000 * 1000) by (nonlinear_arith)
            requires
                d.mantissa <= 0x20_0000_0000_0000,
                scale <= 1000,
        ;
    }
    let scaled = d.mantissa as u128 * scale as u128;
    proof {
        lemma_div_nonincreasing(scaled as int, p as int);
    }
    half_even(scaled, p) as u64
}

/// Append `n` tenths with one decimal place.
pub fn push_tenths(out: &mut String, n: u64)
    ensures
        final(out)@ == old(out)@ + tenths_text(n as nat),
{
    proof {
        reveal_strlit(".");
    }
    text::push_decimal(out, n / 10);
    out.append(".");
    text::push_digit(out, (n % 10) as u8);
    assert(out@ =~= old(out)@ + tenths_text(n as nat));
}

/// Append `n` thousandths with three decimal places.
pub fn push_thousandths(out: &mut String, n: u64)
    ensures
        final(out)@ == old(out)@ + thousandths_text(n as nat),
{
    proof {
        reveal_strlit(".");
    }
    text::push_decimal(out, n / 1000);
    out.append(".");
    text::push_three_digits(out, n % 1000);
    assert(out@ =~= old(out)@ + thousandths_text(n as nat));
}

// ---------------------------------------------------------------------------
// Ratios of 32-bit numbers
// ---------------------------------------------------------------------------

/// A ratio with zero below it has no finite value.
pub open spec fn not_finite_text(num: u32) -> Seq<char> {
    if num == 0 {
        "NaN"@
    } else {
        "inf"@
    }
}

/// `num / den` with three decimal places.
pub open spec fn ratio_fixed(num: u32, den: u32) -> Seq<char> {
    if den == 0 {
        not_finite_text(num)
    } else {
        thousandths_text(in_units(nearest_quotient(num as nat, den as nat), 1000))
    }
}

/// Whether the double `d` is less than a millionth away from `n`.
pub open spec fn almost(d: (nat, nat), n: nat) -> bool {
    let whole = n * pow2(d.1);
    let distance = if d.0 < whole {
        whole - d.0
    } else {
        d.0 - whole
    };
    distance * pow2(72) < MILLIONTH_MANTISSA * pow2(d.1)
}

/// `num / den` as a whole number when it is one to within a millionth, else
/// with three decimal places.
pub open spec fn ratio_text(num: u32, den: u32) -> Seq<char> {
    if den == 0 {
        not_finite_text(num)
    } else {
        let d = nearest_quotient(num as nat, den as nat);
        let whole = round_half_up(d.0, pow2(d.1));
        if almost(d, whole) {
            text::decimal(whole)
        } else {
            ratio_fixed(num, den)
        }
    }
}

/// The double nearest to the ratio of two 32-bit numbers.
pub fn ratio(num: u32, den: u32) -> (r: Double)
    requires
        den > 0,
    ensures
        r.parts() == nearest_quotient(num as nat, den as nat),
        r.wf(),
        r.mantissa <= 0xffff_ffff * pow2(r.shift as nat) + 1,
{
    assert(num < den * TWO_53) by (nonlinear_arith)
        requires
            den >= 1,
            num < 0x20_0000_0000_0000,
            TWO_53 == 0x20_0000_0000_0000,
    ;
    let r = nearest_double(num as u128, den as u128);
    assert(num * pow2(r.shift as nat) <= 0xffff_ffff * pow2(r.shift as nat)) by (nonlinear_arith)
        requires
            num <= 0xffff_ffff,
    ;
    r
}

/// Append `num / den` with three decimal places.
pub fn push_ratio_fixed(out: &mut String, num: u32, den: u32)
    ensures
        final(out)@ == old(out)@ + ratio_fixed(num, den),
{
    if den == 0 {
        if num == 0 {
            out.append("NaN");
        } else {
            out.append("inf");
        }
    } else {
        let n = units(ratio(num, den), 1000);
        push_thousandths(out, n);
    }
}

/// Whether the double `d` is less than a millionth away from `n`.
fn is_almost(d: Double, n: u128) -> (r: bool)
    requires
        d.wf(),
        n == round_half_up(d.mantissa as nat, pow2(d.shift as nat)),
    ensures
        r == almost(d.parts(), n as nat),
{
    let p = power_of_two(d.shift);
    let m = d.mantissa as u128;
    proof {
        lemma_powers();
        lemma_pow2_le(d.shift as nat, 85);
        lemma_fundamental_div_mod(m as int, p as int);
        assert(n * p <= m + p) by (nonlinear_arith)
            requires
                n <= m / p + 1,
                m == p * (m / p) + m % p,
                m % p >= 0,
                p > 0,
        ;
    }
    let whole = n * p;
    let distance: u128 = if m < whole {
        whole - m
    } else {
        m - whole
    };
    proof {
        assert(distance <= p) by (nonlinear_arith)
            requires
                m == p * (m / p) + m % p,
                0 <= m % p < p,
                whole == n * p,
                n == m / p || n == m / p + 1,
                distance == (if m < whole {
                    whole - m
                } else {
                    m - whole
                }),
        ;
    }
    if d.shift >= 72 {
        let q = power_of_two(d.shift - 72);
        proof {
            lemma_pow2_adds(72, (d.shift - 72) as nat);
            lemma_pow2_le((d.shift - 72) as nat, 13);
            assert(MILLIONTH_MANTISSA * q <= MILLIONTH_MANTISSA * 0x2000) by (nonlinear_arith)
                requires
                    q <= 0x2000,
            ;
            lemma_mul_is_associative(MILLIONTH_MANTISSA as int, q as int, pow2(72) as int);
            lemma_mul_is_commutative(q as int, pow2(72) as int);
            lemma_mul_inequality_iff(distance as int, MILLIONTH_MANTISSA * q, pow2(72) as int);
        }
        distance < MILLIONTH_MANTISSA * q
    } else {
        let q = power_of_two(72 - d.shift);
        proof {
            lemma_pow2_adds(d.shift as nat, (72 - d.shift) as nat);
            assert(distance * q <= p * q) by (nonlinear_arith)
                requires
                    distance <= p,
                    q >= 0,
            ;
            lemma_mul_is_associative(distance as int, q as int, p as int);
            lemma_mul_is_commutative(q as int, p as int);
            lemma_mul_inequality_iff(distance * q, MILLIONTH_MANTISSA as int, p as int);
        }
        distance * q < MILLIONTH_MANTISSA
    }
}

proof fn lemma_mul_inequality_iff(a: int, b: int, c: int)
    requires
        c > 0,
    ensures
        a * c < b * c <==> a < b,
{
    assert(a * c < b * c <==> a < b) by (nonlinear_arith)
        requires
            c > 0,
    ;
}

/// Append `num / den` as a whole number when it is one to within a
/// millionth, else with three decimal places.
pub fn push_ratio(out: &mut String, num: u32, den: u32)
    ensures
        final(out)@ == old(out)@ + ratio_text(num, den),
{
    if den == 0 {
        push_ratio_fixed(out, num, den);
    } else {
        let d = ratio(num, den);
        let p = power_of_two(d.shift);
        let whole = half_up(d.mantissa as u128, p);
        proof {
            lemma_div_nonincreasing(d.mantissa as int, p as int);
        }
        if is_almost(d, whole) {
            text::push_decimal(out, whole as u64);
        } else {
            push_ratio_fixed(out, num, den);
        }
    }
}

/// `width` times the ratio `num / den`, rounded to a whole number, ties up,
/// and cut off at the largest 32-bit number.
pub open spec fn stretched(width: u32, num: u32, den: u32) -> u32 {
    if den == 0 {
        if width == 0 || num == 0 {
            0
        } else {
            u32::MAX
        }
    } else {
        let d = nearest_quotient(num as nat, den as nat);
        let w = round_half_up(nearest_whole(width as nat * d.0), pow2(d.1));
        if w <= u32::MAX {
            w as u32
        } else {
            u32::MAX
        }
    }
}

/// `width` times the ratio `num / den`, as a 32-bit number.
pub fn stretch(width: u32, num: u32, den: u32) -> (r: u32)
    ensures
        r == stretched(width, num, den),
{
    if den == 0 {
        if width == 0 || num == 0 {
            0
        } else {
            0xffff_ffff
        }
    } else {
        let d = ratio(num, den);
        let p = power_of_two(d.shift);
        proof {
            assert(width * d.mantissa <= 0x1_0000_0000 * 0x20_0000_0000_0000) by (nonlinear_arith)
                requires
                    width <= 0x1_0000_0000,
                    d.mantissa <= 0x20_0000_0000_0000,
            ;
        }
        let product = nearest_whole_double(width as u128 * d.mantissa as u128);
        let w = half_up(product, p);
        if w <= 0xffff_ffff {
            w as u32
        } else {
            0xffff_ffff
        }
    }
}

/// The double `d` in units of two to the power of -85.
pub open spec fn scaled(d: (nat, nat)) -> nat {
    d.0 * pow2((85 - d.1) as nat)
}

/// Whether two ratios are more than a fortieth apart.
///
/// A ratio with zero below and a number above it is infinite, and more than a
/// fortieth away from every finite one; zero over zero is not a number and
/// compares as neither.
pub open spec fn ratios_apart(a_num: u32, a_den: u32, b_num: u32, b_den: u32) -> bool {
    if a_den == 0 || b_den == 0 {
        ||| a_den == 0 && a_num != 0 && b_den != 0
        ||| b_den == 0 && b_num != 0 && a_den != 0
    } else {
        let a = scaled(nearest_quotient(a_num as nat, a_den as nat));
        let b = scaled(nearest_quotient(b_num as nat, b_den as nat));
        let distance = if a < b {
            (b - a) as nat
        } else {
            (a - b) as nat
        };
        nearest_whole(distance) > FORTIETH_MANTISSA * pow2(27)
    }
}

/// The double `d` in units of two to the power of -85.
fn scale_up(d: Double) -> (r: u128)
    requires
        d.wf(),
        d.mantissa <= 0xffff_ffff * pow2(d.shift as nat) + 1,
    ensures
        r == scaled(d.parts()),
        r <= 0x20_0000_0000_0000_0000_0000_0000_0000,
{
    let p = power_of_two(85 - d.shift);
    proof {
        lemma_powers();
        lemma_pow2_le((85 - d.shift) as nat, 85);
        lemma_pow2_adds(d.shift as nat, (85 - d.shift) as nat);
        let whole = pow2(d.shift as nat);
        assert(d.mantissa * p <= 0xffff_ffff * (whole * p) + p) by (nonlinear_arith)
            requires
                d.mantissa <= 0xffff_ffff * whole + 1,
                p >= 0,
        ;
    }
    d.mantissa as u128 * p
}

/// Whether two ratios are more than a fortieth apart.
pub fn apart(a_num: u32, a_den: u32, b_num: u32, b_den: u32) -> (r: bool)
    ensures
        r == ratios_apart(a_num, a_den, b_num, b_den),
{
    if a_den == 0 || b_den == 0 {
        (a_den == 0 && a_num != 0 && b_den != 0) || (b_den == 0 && b_num != 0 && a_den != 0)
    } else {
        let a = scale_up(ratio(a_num, a_den));
        let b = scale_up(ratio(b_num, b_den));
        let distance: u128 = if a < b {
            b - a
        } else {
            a - b
        };
        proof {
            lemma_powers();
        }
        nearest_whole_double(distance) > FORTIETH_MANTISSA * 0x800_0000
    }
}

/// A ratio in units of two to the power of -85 is within a millionth of what
/// it stands for.
proof fn lemma_scaled_is_close(num: nat, den: nat)
    requires
        0 < den <= u32::MAX,
        num <= u32::MAX,
    ensures
        ({
            let s = scaled(nearest_quotient(num, den)) * den - num * pow2(85);
            -(den * pow2(65)) <= s <= den * pow2(65)
        }),
{
    lemma_powers();
    lemma2_to64_rest();
    let (m, k) = nearest_quotient(num, den);
    if num == 0 {
        lemma_div_of0(den as int);
        lemma_small_mod(0, den);
        assert(m == 0);
        assert(0 * pow2((85 - k) as nat) == 0);
        assert(0 * den == 0 && 0 * pow2(85) == 0);
    } else {
        lemma_nearest_is_close(num, den, 0);
        let p = pow2(k);
        lemma_pow2_pos(k);
        assert(m * den <= num * p + den && num * p <= m * den + den);
        assert(m >= TWO_52);
        // The ratio has at most 32 bits, so that twenty doublings were made.
        assert(p >= 0x10_0000 - 1) by (nonlinear_arith)
            requires
                m * den <= num * p + den,
                m >= TWO_52,
                TWO_52 == 0x10_0000_0000_0000,
                num <= 0xffff_ffff,
                den >= 1,
                p > 0,
        {
            assert(m * den >= TWO_52 * den);
            assert((TWO_52 - 1) * den >= TWO_52 - 1);
            assert(num * p <= 0xffff_ffff * p);
        }
        if k < 20 {
            lemma2_to64();
            lemma_pow2_le(k, 19);
        }
        assert(k <= 85) by {
            if k > 85 {
                lemma_pow2_le(86, k);
                lemma_pow2_adds(85, 1);
                assert(num * p >= p) by (nonlinear_arith)
                    requires
                        num >= 1,
                        p > 0,
                ;
                assert(m * den <= TWO_53 * u32::MAX) by (nonlinear_arith)
                    requires
                        m <= TWO_53,
                        den <= u32::MAX,
                ;
            }
        }
        let q = pow2((85 - k) as nat);
        lemma_pow2_adds(k, (85 - k) as nat);
        lemma_pow2_le((85 - k) as nat, 65);
        assert(m * q * den - num * (p * q) == (m * den - num * p) * q) by (nonlinear_arith);
        assert(-(den * q) <= (m * den - num * p) * q <= den * q) by (nonlinear_arith)
            requires
                -den <= m * den - num * p <= den,
                q > 0,
        ;
        assert(den * q <= den * pow2(65)) by (nonlinear_arith)
            requires
                q <= pow2(65),
        ;
    }
}

/// The mantissa of a nearest double is within one of the quotient.
pub(crate) proof fn lemma_nearest_is_close(num: nat, den: nat, shift: nat)
    requires
        den > 0,
        0 < num < den * TWO_53,
    ensures
        ({
            let (m, k) = nearest_shifted(num, den, shift);
            let n = num * pow2((k - shift) as nat);
            &&& k >= shift
            &&& TWO_52 <= m <= TWO_53
            &&& m * den <= n + den
            &&& n <= m * den + den
        }),
    decreases
            if num < den * TWO_52 {
                den * TWO_52 - num
            } else {
                0
            },
{
    let (m, k) = nearest_shifted(num, den, shift);
    if num >= den * TWO_52 {
        lemma2_to64();
        assert(num * 1 == num);
        lemma_rounding_bounds(num, den);
        lemma_fundamental_div_mod(num as int, den as int);
        lemma_multiply_divide_lt(num as int, den as int, TWO_53 as int);
        lemma_div_is_ordered(den * TWO_52, num as int, den as int);
        lemma_div_multiples_vanish(TWO_52 as int, den as int);
        let q = num / den;
        assert(m * den <= num + den && num <= m * den + den) by (nonlinear_arith)
            requires
                q <= m <= q + 1,
                num == den * q + num % den,
                0 <= num % den < den,
        ;
    } else {
        lemma_nearest_is_close(2 * num, den, shift + 1);
        let less = pow2((k - shift - 1) as nat);
        lemma_pow2_unfold((k - shift) as nat);
        assert((2 * num) * less == num * (2 * less)) by (nonlinear_arith);
    }
}

/// What rounding leaves of a distance: ratios are apart when they are at least
/// 0.02501 away from each other, and are not when they are at most 0.02499
/// away.
pub proof fn law_apart_follows_the_distance(a_num: u32, a_den: u32, b_num: u32, b_den: u32)
    requires
        0 < a_den,
        0 < b_den,
    ensures
        ({
            let gap = a_num * b_den - b_num * a_den;
            let unit = a_den * b_den;
            &&& 1_000_000 * gap >= 25_010 * unit || -1_000_000 * gap >= 25_010 * unit ==> ratios_apart(
                a_num,
                a_den,
                b_num,
                b_den,
            )
            &&& -24_990 * unit <= 1_000_000 * gap <= 24_990 * unit ==> !ratios_apart(
                a_num,
                a_den,
                b_num,
                b_den,
            )
        }),
{
    lemma_powers();
    lemma2_to64_rest();
    lemma_scaled_is_close(a_num as nat, a_den as nat);
    lemma_scaled_is_close(b_num as nat, b_den as nat);
    let a = scaled(nearest_quotient(a_num as nat, a_den as nat)) as int;
    let b = scaled(nearest_quotient(b_num as nat, b_den as nat)) as int;
    let (an, ad, bn, bd) = (a_num as int, a_den as int, b_num as int, b_den as int);
    let unit = ad * bd;
    let gap = an * bd - bn * ad;
    let all = pow2(85) as int;
    let slack = pow2(65) as int;
    lemma_pow2_adds(64, 1);
    lemma2_to64();
    // The exact distance, as a fraction of `unit`.
    let x = a * ad - an * all;
    let y = b * bd - bn * all;
    assert((a - b) * unit == gap * all + x * bd - y * ad) by {
        lemma_mul_is_distributive_sub_other_way(unit, a, b);
        lemma_mul_is_associative(a, ad, bd);
        lemma_mul_is_commutative(ad, bd);
        lemma_mul_is_associative(b, bd, ad);
        lemma_mul_is_distributive_sub_other_way(bd, a * ad, an * all);
        lemma_mul_is_distributive_sub_other_way(ad, b * bd, bn * all);
        lemma_mul_is_distributive_sub_other_way(all, an * bd, bn * ad);
        assert((an * bd) * all == (an * all) * bd) by (nonlinear_arith);
        assert((bn * ad) * all == (bn * all) * ad) by (nonlinear_arith);
    }
    assert(-(unit * slack) <= x * bd <= unit * slack) by (nonlinear_arith)
        requires
            -(ad * slack) <= x <= ad * slack,
            unit == ad * bd,
            bd > 0,
    ;
    assert(-(unit * slack) <= y * ad <= unit * slack) by (nonlinear_arith)
        requires
            -(bd * slack) <= y <= bd * slack,
            unit == ad * bd,
            ad > 0,
    ;
    lemma_mul_is_commutative(unit, slack);
    assert((1_000_000 * gap) * all == 1_000_000 * (gap * all)) by (nonlinear_arith);
    assert((-1_000_000 * gap) * all == -(1_000_000 * (gap * all))) by (nonlinear_arith);
    assert((25_010 * unit) * all == 25_010 * (unit * all)) by (nonlinear_arith);
    assert((24_990 * unit) * all == 24_990 * (unit * all)) by (nonlinear_arith);
    assert((-24_990 * unit) * all == -(24_990 * (unit * all))) by (nonlinear_arith);
    assert(2 * slack * unit == 2 * (slack * unit)) by (nonlinear_arith);
    assert(unit > 0) by (nonlinear_arith)
        requires
            ad > 0,
            bd > 0,
            unit == ad * bd,
    ;
    let distance = if a < b {
        (b - a) as nat
    } else {
        (a - b) as nat
    };
    lemma_nearest_whole_bounds(distance);
    let limit = FORTIETH_MANTISSA * pow2(27);
    let far = 25_010 * all - 2_000_000 * slack;
    let near = 24_990 * all + 2_000_000 * slack;
    assert(far * unit == 25_010 * (unit * all) - 2_000_000 * (slack * unit)) by (nonlinear_arith)
        requires
            far == 25_010 * all - 2_000_000 * slack,
    ;
    assert(near * unit == 24_990 * (unit * all) + 2_000_000 * (slack * unit)) by (nonlinear_arith)
        requires
            near == 24_990 * all + 2_000_000 * slack,
    ;
    assert((1_000_000 * (a - b)) * unit == 1_000_000 * ((a - b) * unit)) by (nonlinear_arith);
    assert((1_000_000 * (b - a)) * unit == -(1_000_000 * ((a - b) * unit))) by (nonlinear_arith);
    if 1_000_000 * gap >= 25_010 * unit {
        lemma_mul_inequality(25_010 * unit, 1_000_000 * gap, all);
        lemma_mul_inequality_converse(far, 1_000_000 * (a - b), unit);
        assert(nearest_whole(distance) > limit);
    }
    if -1_000_000 * gap >= 25_010 * unit {
        lemma_mul_inequality(25_010 * unit, -1_000_000 * gap, all);
        lemma_mul_inequality_converse(far, 1_000_000 * (b - a), unit);
        assert(nearest_whole(distance) > limit);
    }
    if -24_990 * unit <= 1_000_000 * gap <= 24_990 * unit {
        lemma_mul_inequality(1_000_000 * gap, 24_990 * unit, all);
        lemma_mul_inequality(-24_990 * unit, 1_000_000 * gap, all);
        lemma_mul_inequality_converse(1_000_000 * (a - b), near, unit);
        lemma_mul_inequality_converse(1_000_000 * (b - a), near, unit);
        assert(nearest_whole(distance) <= limit);
    }
}

/// No ratio is apart from itself, and the order of the two does not matter.
pub proof fn law_apart_is_symmetric(a_num: u32, a_den: u32, b_num: u32, b_den: u32)
    ensures
        !ratios_apart(a_num, a_den, a_num, a_den),
        ratios_apart(a_num, a_den, b_num, b_den) == ratios_apart(b_num, b_den, a_num, a_den),
{
    lemma_pow2_pos(0);
    lemma2_to64();
    assert(excess_bits(0) == 0);
    assert(nearest_whole(0) == 0);
    lemma_pow2_pos(27);
}

} // verus!
