//! How close the numbers that are shown and used come to the true ones.

use vstd::prelude::*;

use vstd::arithmetic::power2::{lemma_pow2_pos, pow2};

use crate::binary64;
use crate::model::VideoInfo;
use crate::numeral;
use crate::numeral::NumeralView;
use crate::promises::texts;
use crate::text;

verus! {

/// A quotient that was rounded to a double and then to whole units is as near
/// as if it had been rounded once, as long as it is well below the precision
/// of a double.
proof fn lemma_units(num: nat, den: nat, scale: nat)
    requires
        den > 0,
        num > 0,
        scale == 1 || scale == 10 || scale == 1_000,
        num < 0x8000_0000_0000,
        scale == 1_000 ==> num < 0x1_0000_0000,
    ensures
        texts::is_nearest(
            binary64::in_units(binary64::nearest_quotient(num, den), scale),
            scale * num,
            den,
        ),
{
    assert(num < den * binary64::TWO_53) by (nonlinear_arith)
        requires
            den > 0,
            num < 0x8000_0000_0000,
            binary64::TWO_53 == 0x20_0000_0000_0000,
    ;
    binary64::lemma_nearest_is_close(num, den, 0);
    let (m, k) = binary64::nearest_shifted(num, den, 0);
    let p = pow2(k) as int;
    lemma_pow2_pos(k);
    let r = binary64::round_half_even(m * scale, pow2(k)) as int;
    texts::lemma_round(m * scale, pow2(k));
    let (m, n, d, s) = (m as int, num as int, den as int, scale as int);
    assert(0x10_0000_0000_0000 * d <= m * d) by (nonlinear_arith)
        requires
            0x10_0000_0000_0000 <= m,
            0 < d,
    ;
    assert(2 * s * n < 0xf_ffff_ffff_ffff) by (nonlinear_arith)
        requires
            s == 1 || s == 10 || s == 1_000,
            0 < n < 0x8000_0000_0000,
            s == 1_000 ==> n < 0x1_0000_0000,
    ;
    assert(2 * s * d < p) by {
        if p <= 2 * s * d {
            assert(n * p <= n * (2 * s * d)) by (nonlinear_arith)
                requires
                    0 < n,
                    p <= 2 * s * d,
            ;
            assert(n * (2 * s * d) == (2 * s * n) * d) by (nonlinear_arith);
            assert((2 * s * n) * d < 0xf_ffff_ffff_ffff * d) by (nonlinear_arith)
                requires
                    2 * s * n < 0xf_ffff_ffff_ffff,
                    0 < d,
            ;
        }
    }
    let x = 2 * (r * d - s * n);
    let e = 2 * (r * p - m * s);
    let f = m * d - n * p;
    assert(p * x == d * e + 2 * (s * f)) by {
        lemma_twice(p, r * d, s * n);
        lemma_twice(d, r * p, m * s);
        lemma_twice(s, m * d, n * p);
        assert(p * (r * d) == d * (r * p)) by (nonlinear_arith);
        assert(d * (m * s) == s * (m * d)) by (nonlinear_arith);
        assert(p * (s * n) == s * (n * p)) by (nonlinear_arith);
        assert(s * (2 * f) == 2 * (s * f)) by (nonlinear_arith);
    }
    let rest = 2 * (s * f);
    assert(-(2 * s * d) <= rest <= 2 * s * d) by (nonlinear_arith)
        requires
            rest == 2 * (s * f),
            -d <= f <= d,
            0 < s,
    ;
    lemma_bounded(p, d, e, rest, x);
}

/// Multiplying out.
proof fn lemma_twice(a: int, b: int, c: int)
    ensures
        a * (2 * (b - c)) == 2 * (a * b) - 2 * (a * c),
{
    assert(a * (2 * (b - c)) == 2 * (a * b) - 2 * (a * c)) by (nonlinear_arith);
}

/// A bitrate is shown in bits, in whole kilobits from a thousand on, and in
/// tenths of megabits from a million on, to the nearest.
pub proof fn law_bitrates(bps: u64)
    requires
        bps < 0x8000_0000_0000,
    ensures
        bps < 1_000 ==> crate::format::bitrate_text(bps) == text::decimal(bps as nat) + " bps"@,
        1_000 <= bps < 1_000_000 ==> texts::shows_whole(
            crate::format::bitrate_text(bps),
            bps as nat,
            1_000,
            " kbps"@,
        ),
        1_000_000 <= bps ==> texts::shows_tenths(
            crate::format::bitrate_text(bps),
            bps as nat,
            1_000_000,
            " Mbps"@,
        ),
{
    binary64::lemma_nearest_whole_bounds(bps as nat);
    if 1_000 <= bps {
        lemma_units(bps as nat, 1_000, 1);
        lemma_units(bps as nat, 1_000_000, 10);
        let n = binary64::in_units(binary64::nearest_quotient(bps as nat, 1_000), 1);
        let tenths = binary64::in_units(binary64::nearest_quotient(bps as nat, 1_000_000), 10);
        if bps < 1_000_000 {
            assert(crate::format::bitrate_text(bps) == text::decimal(n) + " kbps"@);
        } else {
            assert(crate::format::bitrate_text(bps) == texts::tenths_shown(tenths) + " Mbps"@);
        }
    }
}

/// A sample rate is shown in kilohertz, to the nearest tenth where it is no
/// whole number of them.
pub proof fn law_sample_rates(hz: u32)
    ensures
        hz % 1_000 == 0 ==> crate::format::khz_text(hz) == text::decimal((hz / 1_000) as nat),
        hz % 1_000 != 0 ==> texts::shows_tenths(
            crate::format::khz_text(hz),
            hz as nat,
            1_000,
            Seq::empty(),
        ),
{
    if hz % 1_000 != 0 {
        lemma_units(hz as nat, 1_000, 10);
        let tenths = binary64::in_units(binary64::nearest_quotient(hz as nat, 1_000), 10);
        assert(crate::format::khz_text(hz) =~= texts::tenths_shown(tenths) + Seq::<char>::empty());
    }
}

/// A frame rate with a fraction is shown to the nearest thousandth.
pub proof fn law_fixed_ratios(num: u32, den: u32)
    requires
        num > 0,
        den > 0,
    ensures
        exists|n: nat|
            binary64::ratio_fixed(num, den) == #[trigger] thousandths_shown(n)
                && texts::is_nearest(n, 1_000 * num as nat, den as nat),
{
    lemma_units(num as nat, den as nat, 1_000);
    let n = binary64::in_units(binary64::nearest_quotient(num as nat, den as nat), 1_000);
    lemma_thousandths(n);
    assert(binary64::ratio_fixed(num, den) == binary64::thousandths_text(n));
}

/// The digits of a number of thousandths.
proof fn lemma_thousandths(n: nat)
    ensures
        binary64::thousandths_text(n) == thousandths_shown(n),
{
    lemma_last_digits(n);
    let k = n % 1_000;
    let whole = text::decimal(n / 1_000);
    let (a, b, c) = (text::digit(k / 100 % 10), text::digit(k / 10 % 10), text::digit(k % 10));
    assert(whole.push('.') + seq![a, b, c] =~= whole + seq!['.', a, b, c]);
}

/// The last three digits of a number.
proof fn lemma_last_digits(n: nat)
    ensures
        n % 1_000 / 100 % 10 == n / 100 % 10,
        n % 1_000 / 10 % 10 == n / 10 % 10,
        n % 1_000 % 10 == n % 10,
{
    let q = n / 1_000;
    let k = n % 1_000;
    assert(n / 100 == 10 * q + k / 100);
    assert(n / 10 == 100 * q + k / 10);
}

/// Thousandths, with three decimal places.
pub open spec fn thousandths_shown(n: nat) -> Seq<char> {
    text::decimal(n / 1_000) + seq![
        '.',
        text::digit(n / 100 % 10),
        text::digit(n / 10 % 10),
        text::digit(n % 10),
    ]
}

/// A picture is shown as wide as it is stored where its pixels are square,
/// and else at the whole number of pixels nearest to its width stretched by
/// the sample aspect ratio.
pub proof fn law_display_width(video: VideoInfo)
    requires
        video.sar matches Some(sar) ==> sar.den > 0 && video.width * sar.num < 0x2_0000_0000_0000
            && video.width * sar.num < sar.den * 0xffff_ffff,
    ensures
        video.sar is None ==> video.display_width() == video.width,
        video.sar matches Some(sar) ==> if sar.num == sar.den {
            video.display_width() == video.width
        } else {
            texts::is_nearest(
                video.display_width() as nat,
                (video.width * sar.num) as nat,
                sar.den as nat,
            )
        },
{
    if let Some(sar) = video.sar {
        if sar.num != sar.den {
            lemma_stretched(video.width as nat, sar.num as nat, sar.den as nat);
            let d = binary64::nearest_quotient(sar.num as nat, sar.den as nat);
            let w = binary64::round_half_up(
                binary64::nearest_whole(video.width as nat * d.0),
                pow2(d.1),
            ) as int;
            let den = sar.den as int;
            let product = video.width as int * sar.num as int;
            assert(w <= 0xffff_ffff) by (nonlinear_arith)
                requires
                    2 * (w * den - product) <= den,
                    product < den * 0xffff_ffff,
                    0 < den,
            ;
        }
    }
}

/// The stretched width is a nearest whole number.
proof fn lemma_stretched(width: nat, num: nat, den: nat)
    requires
        0 < den,
        num < 0x1_0000_0000,
        width * num < 0x2_0000_0000_0000,
    ensures
        ({
            let d = binary64::nearest_quotient(num, den);
            let w = binary64::round_half_up(binary64::nearest_whole(width * d.0), pow2(d.1));
            texts::is_nearest(w, width * num, den)
        }),
{
    let (m, k) = binary64::nearest_quotient(num, den);
    let x = width * m;
    let nw = binary64::nearest_whole(x);
    let w = binary64::round_half_up(nw, pow2(k));
    lemma_pow2_pos(k);
    texts::lemma_round(nw, pow2(k));
    binary64::lemma_nearest_whole_bounds(x);
    if width == 0 || num == 0 {
        assert(x == 0) by {
            if num == 0 {
                assert(m == 0);
            }
            assert(width * m == 0) by (nonlinear_arith)
                requires
                    width == 0 || m == 0,
            ;
        }
        assert(nw == 0);
        assert(w == 0) by {
            let p = pow2(k) as int;
            assert(w == 0) by (nonlinear_arith)
                requires
                    2 * (w * p - 0) <= p,
                    0 < p,
                    0 <= w,
            ;
        }
        assert(width * num == 0) by (nonlinear_arith)
            requires
                width == 0 || num == 0,
        ;
        assert(w * den == 0) by (nonlinear_arith)
            requires
                w == 0,
        ;
    } else {
        assert(num < den * binary64::TWO_53) by (nonlinear_arith)
            requires
                den > 0,
                num < 0x1_0000_0000,
                binary64::TWO_53 == 0x20_0000_0000_0000,
        ;
        binary64::lemma_nearest_is_close(num, den, 0);
        let p = pow2(k) as int;
        let (m, n, d, v) = (m as int, num as int, den as int, width as int);
        let (nw, w, x) = (nw as int, w as int, x as int);
        assert(0x10_0000_0000_0000 * d <= m * d) by (nonlinear_arith)
            requires
                0x10_0000_0000_0000 <= m,
                0 < d,
        ;
        assert(-(2 * v) <= nw - x <= 2 * v) by (nonlinear_arith)
            requires
                x == v * m,
                0 <= v,
                0 <= m <= 0x20_0000_0000_0000,
                0xf_ffff_ffff_ffff * x <= 0x10_0000_0000_0000 * nw <= 0x10_0000_0000_0001 * x,
        ;
        assert(6 * v * d < p) by {
            if p <= 6 * v * d {
                assert(n * p <= n * (6 * v * d)) by (nonlinear_arith)
                    requires
                        0 < n,
                        p <= 6 * v * d,
                ;
                assert(n * (6 * v * d) == (6 * (v * n)) * d) by (nonlinear_arith);
                assert((6 * (v * n)) * d < 0xf_ffff_ffff_ffff * d) by (nonlinear_arith)
                    requires
                        v * n < 0x2_0000_0000_0000,
                        0 < d,
                ;
            }
        }
        let y = 2 * (w * d - v * n);
        let e = 2 * (w * p - nw);
        let g = nw - x;
        let f = m * d - n * p;
        let rest = 2 * (d * g) + 2 * (v * f);
        assert(p * y == d * e + rest) by {
            lemma_twice(p, w * d, v * n);
            lemma_twice(d, w * p, nw);
            lemma_twice(d, nw, x);
            lemma_twice(v, m * d, n * p);
            assert(p * (w * d) == d * (w * p)) by (nonlinear_arith);
            assert(d * (v * m) == v * (m * d)) by (nonlinear_arith);
            assert(p * (v * n) == v * (n * p)) by (nonlinear_arith);
            assert(d * (2 * g) == 2 * (d * g)) by (nonlinear_arith);
            assert(v * (2 * f) == 2 * (v * f)) by (nonlinear_arith);
        }
        assert(-(2 * v * d) <= d * g <= 2 * v * d) by (nonlinear_arith)
            requires
                -(2 * v) <= g <= 2 * v,
                0 < d,
        ;
        assert(-(v * d) <= v * f <= v * d) by (nonlinear_arith)
            requires
                -d <= f <= d,
                0 < v,
        ;
        assert(6 * v * d == 2 * (2 * v * d) + 2 * (v * d)) by (nonlinear_arith);
        lemma_bounded(p, d, e, rest, y);
    }
}

/// A whole number that is less than one off a bound keeps the bound.
proof fn lemma_bounded(p: int, d: int, e: int, rest: int, x: int)
    requires
        0 < p,
        0 < d,
        -p <= e <= p,
        -p < rest < p,
        p * x == d * e + rest,
    ensures
        -d <= x <= d,
{
    assert(-(d * p) <= d * e <= d * p) by (nonlinear_arith)
        requires
            0 < d,
            -p <= e <= p,
    ;
    assert(p * (d + 1) == d * p + p) by (nonlinear_arith);
    assert(p * (-d - 1) == -(d * p) - p) by (nonlinear_arith);
    if x > d {
        assert(p * x >= p * (d + 1)) by (nonlinear_arith)
            requires
                x >= d + 1,
                0 < p,
        ;
    }
    if x < -d {
        assert(p * x <= p * (-d - 1)) by (nonlinear_arith)
            requires
                x <= -d - 1,
                0 < p,
        ;
    }
}

/// Digits are read as the number that they write, with or without a plus sign
/// before them, as long as it is within the limit; anything else is not read
/// as a number.
pub proof fn law_whole_numbers(n: nat, max: nat, s: Seq<char>)
    ensures
        text::parse_unsigned(text::decimal(n), max) == (if n <= max {
            Some(n)
        } else {
            None
        }),
        text::parse_unsigned(seq!['+'] + text::decimal(n), max) == (if n <= max {
            Some(n)
        } else {
            None
        }),
        text::parse_unsigned(Seq::empty(), max) is None,
        (exists|i: int| 1 <= i < s.len() && !('0' <= #[trigger] s[i] <= '9'))
            ==> text::parse_unsigned(s, max) is None,
        s.len() > 0 && !('0' <= s[0] <= '9') && s[0] != '+' ==> text::parse_unsigned(s, max) is None,
{
    let digits = text::decimal(n);
    text::law_decimal_reads_back(n);
    assert(text::is_digit(digits[0]));
    assert((seq!['+'] + digits).drop_first() =~= digits);
    if exists|i: int| 1 <= i < s.len() && !('0' <= #[trigger] s[i] <= '9') {
        let i = choose|i: int| 1 <= i < s.len() && !('0' <= #[trigger] s[i] <= '9');
        assert(!text::is_digit(s[i]));
        assert(s.drop_first()[i - 1] == s[i]);
    }
    if s.len() > 0 && !('0' <= s[0] <= '9') {
        assert(!text::is_digit(s[0]));
    }
}

/// A frame rate that is a whole number is shown as one.
pub proof fn law_whole_ratios(rate: u32, num: u32, den: u32)
    requires
        den > 0,
        0 < rate < 0x10_0000,
        num == rate * den,
    ensures
        binary64::ratio_text(num, den) == text::decimal(rate as nat),
{
    let (m, k) = binary64::nearest_quotient(num as nat, den as nat);
    lemma_pow2_pos(k);
    let (n, d, q) = (num as int, den as int, rate as int);
    assert(n > 0) by (nonlinear_arith)
        requires
            n == q * d,
            q > 0,
            d > 0,
    ;
    assert(num < den * binary64::TWO_53) by (nonlinear_arith)
        requires
            den > 0,
            num < 0x1_0000_0000,
            binary64::TWO_53 == 0x20_0000_0000_0000,
    ;
    binary64::lemma_nearest_is_close(num as nat, den as nat, 0);
    let whole = binary64::round_half_up(m, pow2(k));
    texts::lemma_round(m, pow2(k));
    let (m, p, w) = (m as int, pow2(k) as int, whole as int);
    assert(n * p == (q * p) * d) by (nonlinear_arith)
        requires
            n == q * d,
    ;
    assert(-1 <= m - q * p <= 1) by (nonlinear_arith)
        requires
            m * d <= (q * p) * d + d,
            (q * p) * d <= m * d + d,
            0 < d,
    ;
    assert(p > 0x1000_0000) by (nonlinear_arith)
        requires
            0x10_0000_0000_0000 <= m,
            m <= q * p + 1,
            0 < q < 0x10_0000,
            0 < p,
    ;
    assert(w == q) by (nonlinear_arith)
        requires
            -p <= 2 * (w * p - m) <= p,
            -1 <= m - q * p <= 1,
            p > 0x1000_0000,
    ;
    vstd::arithmetic::power2::lemma2_to64();
    vstd::arithmetic::power2::lemma2_to64_rest();
    vstd::arithmetic::power2::lemma_pow2_adds(64, 8);
    let distance = if m < w * p {
        w * p - m
    } else {
        m - w * p
    };
    assert(distance <= 1);
    assert(distance * pow2(72) < binary64::MILLIONTH_MANTISSA * p) by (nonlinear_arith)
        requires
            0 <= distance <= 1,
            pow2(72) == 0x100_0000_0000_0000_0000,
            binary64::MILLIONTH_MANTISSA >= 0x10_0000_0000_0000,
            p > 0x1000_0000,
    ;
}

/// Digits with a point among them are read digit by digit, the point telling
/// how many stand before it. An exponent moves the point by as much as it
/// says, to the right or, with a minus sign, to the left; and a minus sign
/// before it all makes the number negative.
pub proof fn law_numerals(a: Seq<char>, b: Seq<char>, k: nat)
    requires
        text::all_digits(a),
        text::all_digits(b),
        a.len() > 0,
        k <= 1_000_000_000,
    ensures
        numeral::numeral(a + seq!['.'] + b) == Some(
            NumeralView::Finite { negative: false, digits: a + b, point: a.len() as int },
        ),
        numeral::numeral(seq!['-'] + (a + seq!['.'] + b)) == Some(
            NumeralView::Finite { negative: true, digits: a + b, point: a.len() as int },
        ),
        numeral::numeral(a + seq!['.'] + b + seq!['e'] + text::decimal(k)) == Some(
            NumeralView::Finite { negative: false, digits: a + b, point: a.len() as int + k },
        ),
        numeral::numeral(a + seq!['.'] + b + seq!['E', '-'] + text::decimal(k)) == Some(
            NumeralView::Finite { negative: false, digits: a + b, point: a.len() - k },
        ),
{
    let body = a + seq!['.'] + b;
    let digits = text::decimal(k);
    text::law_decimal_reads_back(k);
    lemma_point(a, b);
    lemma_body(a, b, Seq::empty());
    assert(body + Seq::<char>::empty() =~= body);
    assert(body.take(body.len() as int) =~= body);
    assert((seq!['-'] + body).drop_first() =~= body);
    let right = seq!['e'] + digits;
    lemma_body(a, b, right);
    assert(body + seq!['e'] + digits =~= body + right);
    assert((body + right).take(body.len() as int) =~= body);
    assert((body + right).skip(body.len() + 1int) =~= digits);
    assert(text::is_digit(digits[0]));
    let left = seq!['E', '-'] + digits;
    lemma_body(a, b, left);
    assert(body + seq!['E', '-'] + digits =~= body + left);
    assert((body + left).take(body.len() as int) =~= body);
    assert((body + left).skip(body.len() + 1int) =~= seq!['-'] + digits);
    assert((seq!['-'] + digits).drop_first() =~= digits);
}

/// Where the point of a numeral is, and what its digits are.
proof fn lemma_point(a: Seq<char>, b: Seq<char>)
    requires
        text::all_digits(a),
        text::all_digits(b),
        a.len() > 0,
    ensures
        numeral::mantissa(a + seq!['.'] + b) == Some((a + b, a.len() as int)),
{
    let body = a + seq!['.'] + b;
    lemma_first_point(a, b);
    assert(body.take(a.len() as int) =~= a);
    assert(body.skip(a.len() + 1int) =~= b);
    assert forall|i: int| 0 <= i < (a + b).len() implies text::is_digit(#[trigger] (a + b)[i]) by {
        if i < a.len() {
            assert(text::is_digit(a[i]));
        } else {
            assert(text::is_digit(b[i - a.len()]));
        }
    }
}

/// The first point is behind the first digits.
proof fn lemma_first_point(a: Seq<char>, b: Seq<char>)
    requires
        text::all_digits(a),
    ensures
        text::first_index(a + seq!['.'] + b, '.') == a.len(),
    decreases a.len(),
{
    let body = a + seq!['.'] + b;
    if a.len() > 0 {
        let rest = a.drop_first();
        assert(text::is_digit(a[0]));
        assert(body[0] == a[0]);
        assert(body.drop_first() =~= rest + seq!['.'] + b);
        assert forall|i: int| 0 <= i < rest.len() implies text::is_digit(#[trigger] rest[i]) by {
            assert(text::is_digit(a[i + 1]));
        }
        lemma_first_point(rest, b);
    } else {
        assert(body[0] == '.');
    }
}

/// Digits and a point are a numeral's body, up to its exponent.
proof fn lemma_body(a: Seq<char>, b: Seq<char>, rest: Seq<char>)
    requires
        text::all_digits(a),
        text::all_digits(b),
        a.len() > 0,
        rest.len() > 0 ==> rest[0] == 'e' || rest[0] == 'E',
    ensures
        ({
            let body = a + seq!['.'] + b;
            &&& numeral::exponent_index(body + rest) == body.len()
            &&& !numeral::is_not_finite(body + rest)
            &&& numeral::unsigned_part(body + rest) == body + rest
            &&& !numeral::has_minus(body + rest)
        }),
{
    let body = a + seq!['.'] + b;
    assert forall|i: int| 0 <= i < body.len() implies #[trigger] body[i] != 'e' && body[i]
        != 'E' by {
        if i < a.len() {
            assert(text::is_digit(a[i]));
        } else if i > a.len() {
            assert(text::is_digit(b[i - a.len() - 1]));
        }
    }
    lemma_exponent_index(body, rest);
    reveal_strlit("inf");
    reveal_strlit("infinity");
    reveal_strlit("nan");
    assert("inf"@[0] == 'i' && "infinity"@[0] == 'i' && "nan"@[0] == 'n');
    assert(text::is_digit(a[0]));
    assert((body + rest)[0] == a[0]);
    assert(text::ascii_lowercase(body + rest)[0] == a[0]);
}

/// The exponent starts where the first `e` is.
proof fn lemma_exponent_index(body: Seq<char>, rest: Seq<char>)
    requires
        forall|i: int| 0 <= i < body.len() ==> #[trigger] body[i] != 'e' && body[i] != 'E',
        rest.len() > 0 ==> rest[0] == 'e' || rest[0] == 'E',
    ensures
        numeral::exponent_index(body + rest) == body.len(),
    decreases body.len(),
{
    let whole = body + rest;
    if body.len() > 0 {
        let less = body.drop_first();
        assert(whole[0] == body[0]);
        assert(whole.drop_first() =~= less + rest);
        assert forall|i: int| 0 <= i < less.len() implies #[trigger] less[i] != 'e' && less[i]
            != 'E' by {
            assert(less[i] == body[i + 1]);
        }
        lemma_exponent_index(less, rest);
    } else {
        assert(whole =~= rest);
    }
}

} // verus!
