//! Decimal numerals: texts such as `5520.360000`, `1.5` or `2e6`.
//!
//! The grammar is that of floating-point numbers in Rust: an optional sign,
//! digits with an optional point among them, and an optional exponent; or a
//! word for infinity or for no number at all. The value is kept as digits and
//! the place of the point, so that nothing is lost to rounding.

use vstd::prelude::*;

use crate::binary64::TWO_53;
use crate::text;

verus! {

/// The largest exponent that is told apart. A number with a larger one is
/// rounded to zero or to infinity either way.
pub const EXPONENT_LIMIT: i128 = 1_000_000_000;

/// What a numeral says.
pub enum NumeralView {
    /// The digits, of which the first `point` stand before the decimal point.
    /// A point behind the last digit stands for more zeros, and one before
    /// the first digit for zeros behind the point.
    Finite { negative: bool, digits: Seq<char>, point: int },
    /// Infinity or not a number.
    NotFinite,
}

/// What a numeral says.
#[derive(Debug)]
pub enum Numeral {
    Finite { negative: bool, digits: Vec<char>, point: i128 },
    NotFinite,
}

impl View for Numeral {
    type V = NumeralView;

    open spec fn view(&self) -> NumeralView {
        match *self {
            Numeral::Finite { negative, digits, point } => NumeralView::Finite {
                negative,
                digits: digits@,
                point: point as int,
            },
            Numeral::NotFinite => NumeralView::NotFinite,
        }
    }
}

// ---------------------------------------------------------------------------
// Meaning
// ---------------------------------------------------------------------------

/// `s` without a leading sign.
pub open spec fn unsigned_part(s: Seq<char>) -> Seq<char> {
    if s.len() > 0 && (s[0] == '+' || s[0] == '-') {
        s.drop_first()
    } else {
        s
    }
}

/// Whether `s` starts with a minus sign.
pub open spec fn has_minus(s: Seq<char>) -> bool {
    s.len() > 0 && s[0] == '-'
}

/// The smaller of the number that digits write and [`EXPONENT_LIMIT`].
pub open spec fn limited_value(s: Seq<char>) -> int {
    if text::digits_value(s) <= EXPONENT_LIMIT {
        text::digits_value(s) as int
    } else {
        EXPONENT_LIMIT as int
    }
}

/// The exponent that `s` writes: digits with an optional sign.
pub open spec fn exponent(s: Seq<char>) -> Option<int> {
    let digits = unsigned_part(s);
    if digits.len() == 0 || !text::all_digits(digits) {
        None
    } else if has_minus(s) {
        Some(-limited_value(digits))
    } else {
        Some(limited_value(digits))
    }
}

/// The mantissa that `s` writes, digits with an optional point, as its digits
/// and how many of them stand before the point.
pub open spec fn mantissa(s: Seq<char>) -> Option<(Seq<char>, int)> {
    let dot = text::first_index(s, '.');
    let digits = if dot < s.len() {
        s.take(dot) + s.skip(dot + 1)
    } else {
        s
    };
    if digits.len() == 0 || !text::all_digits(digits) {
        None
    } else {
        Some((digits, dot))
    }
}

/// Where the exponent's letter stands in `s`, or the length of `s`.
pub open spec fn exponent_index(s: Seq<char>) -> int
    decreases s.len(),
{
    if s.len() == 0 || s[0] == 'e' || s[0] == 'E' {
        0
    } else {
        1 + exponent_index(s.drop_first())
    }
}

/// Whether `s` is, in any case, a word for infinity or for no number.
pub open spec fn is_not_finite(s: Seq<char>) -> bool {
    let lowered = text::ascii_lowercase(s);
    lowered == "inf"@ || lowered == "infinity"@ || lowered == "nan"@
}

/// What `s` says as a numeral.
pub open spec fn numeral(s: Seq<char>) -> Option<NumeralView> {
    let body = unsigned_part(s);
    let at = exponent_index(body);
    if is_not_finite(body) {
        Some(NumeralView::NotFinite)
    } else {
        let shift = if at < body.len() {
            exponent(body.skip(at + 1))
        } else {
            Some(0)
        };
        match (mantissa(body.take(at)), shift) {
            (Some((digits, before)), Some(shift)) => Some(
                NumeralView::Finite { negative: has_minus(s), digits, point: before + shift },
            ),
            _ => None,
        }
    }
}

/// The digit at index `i`; zeros stand behind the last one.
pub open spec fn digit_at(digits: Seq<char>, i: int) -> nat {
    if 0 <= i < digits.len() {
        text::digit_value(digits[i])
    } else {
        0
    }
}

/// The number that the first `n` digits write, with zeros behind the last.
pub open spec fn leading_value(digits: Seq<char>, n: nat) -> nat
    decreases n,
{
    if n == 0 {
        0
    } else {
        10 * leading_value(digits, (n - 1) as nat) + digit_at(digits, n - 1)
    }
}

/// The whole part of a number.
pub open spec fn whole_part(digits: Seq<char>, point: int) -> nat {
    if point <= 0 {
        0
    } else {
        leading_value(digits, point as nat)
    }
}

// ---------------------------------------------------------------------------
// Facts
// ---------------------------------------------------------------------------

/// More digits write no smaller number.
proof fn lemma_leading_value_grows(digits: Seq<char>, a: nat, b: nat)
    requires
        a <= b,
    ensures
        leading_value(digits, a) <= leading_value(digits, b),
    decreases b,
{
    if a < b {
        lemma_leading_value_grows(digits, a, (b - 1) as nat);
    }
}

/// A zero stays zero however many zeros are written behind it.
proof fn lemma_leading_zero(digits: Seq<char>, n: nat, m: nat)
    requires
        digits.len() <= n <= m,
        leading_value(digits, n) == 0,
    ensures
        leading_value(digits, m) == 0,
    decreases m,
{
    if n < m {
        lemma_leading_zero(digits, n, (m - 1) as nat);
    }
}

// ---------------------------------------------------------------------------
// Reading
// ---------------------------------------------------------------------------

/// Whether every one of `v` is a digit.
fn only_digits(v: &Vec<char>) -> (r: bool)
    ensures
        r == text::all_digits(v@),
{
    for i in 0..v.len()
        invariant
            forall|j: int| 0 <= j < i ==> text::is_digit(#[trigger] v@[j]),
    {
        if !('0' <= v[i] && v[i] <= '9') {
            return false;
        }
    }
    true
}

/// The digits of an exponent, as a number.
fn limited(v: &Vec<char>) -> (r: i128)
    requires
        text::all_digits(v@),
    ensures
        r == limited_value(v@),
{
    let mut n: i128 = 0;
    assert(v@.take(0) == Seq::<char>::empty());
    for i in 0..v.len()
        invariant
            text::all_digits(v@),
            0 <= n <= EXPONENT_LIMIT,
            n == limited_value(v@.take(i as int)),
    {
        proof {
            assert(v@.take(i + 1).drop_last() == v@.take(i as int));
            assert(v@.take(i + 1).last() == v@[i as int]);
            assert(text::is_digit(v@[i as int]));
        }
        let d = (v[i] as u8 - 48) as i128;
        n = 10 * n + d;
        if n > EXPONENT_LIMIT {
            n = EXPONENT_LIMIT;
        }
    }
    assert(v@.take(v@.len() as int) == v@);
    n
}

/// The characters of `v` from `from` up to `to`.
fn part(v: &Vec<char>, from: usize, to: usize) -> (r: Vec<char>)
    requires
        from <= to <= v.len(),
    ensures
        r@ == v@.subrange(from as int, to as int),
{
    let mut r: Vec<char> = Vec::new();
    for i in from..to
        invariant
            from <= to <= v.len(),
            r@ == v@.subrange(from as int, i as int),
    {
        r.push(v[i]);
        assert(r@ =~= v@.subrange(from as int, i + 1));
    }
    r
}

/// How many characters of sign `v` starts with.
fn sign_len(v: &Vec<char>) -> (r: usize)
    ensures
        r <= v.len(),
        v@.skip(r as int) == unsigned_part(v@),
{
    assert(v@.skip(0) == v@);
    if v.len() > 0 && (v[0] == '+' || v[0] == '-') {
        1
    } else {
        0
    }
}

/// The exponent that `v` writes.
fn read_exponent(v: &Vec<char>) -> (r: Option<i128>)
    ensures
        match (r, exponent(v@)) {
            (Some(a), Some(b)) => a == b && -EXPONENT_LIMIT <= a <= EXPONENT_LIMIT,
            (None, None) => true,
            _ => false,
        },
{
    let from = sign_len(v);
    let digits = part(v, from, v.len());
    assert(digits@ =~= unsigned_part(v@));
    if digits.len() == 0 || !only_digits(&digits) {
        return None;
    }
    let n = limited(&digits);
    if v[0] == '-' {
        Some(-n)
    } else {
        Some(n)
    }
}

/// The digits of the mantissa that `v` writes, and how many of them stand
/// before the point.
fn read_mantissa(v: &Vec<char>) -> (r: Option<(Vec<char>, usize)>)
    ensures
        match (r, mantissa(v@)) {
            (Some((digits, before)), Some((d, b))) => digits@ == d && before == b,
            (None, None) => true,
            _ => false,
        },
{
    let dot = text::find_first(v, '.');
    let mut digits = part(v, 0, dot);
    if dot < v.len() {
        let mut behind = part(v, dot + 1, v.len());
        digits.append(&mut behind);
        assert(digits@ =~= v@.take(dot as int) + v@.skip(dot + 1));
    } else {
        assert(digits@ =~= v@);
    }
    if digits.len() == 0 || !only_digits(&digits) {
        return None;
    }
    Some((digits, dot))
}

/// Where the exponent's letter stands in `v`, or the length of `v`.
fn find_exponent(v: &Vec<char>) -> (r: usize)
    ensures
        r == exponent_index(v@),
        r <= v.len(),
{
    let mut i: usize = 0;
    assert(v@.skip(0) == v@);
    while i < v.len() && v[i] != 'e' && v[i] != 'E'
        invariant
            i <= v.len(),
            exponent_index(v@) == i + exponent_index(v@.skip(i as int)),
        decreases v.len() - i,
    {
        assert(v@.skip(i as int).drop_first() == v@.skip(i + 1));
        i = i + 1;
    }
    i
}

/// Read a numeral.
pub fn read(s: &str) -> (r: Option<Numeral>)
    ensures
        match (r, numeral(s@)) {
            (Some(a), Some(b)) => a@ == b,
            (None, None) => true,
            _ => false,
        },
        r matches Some(Numeral::Finite { point, .. }) ==> -EXPONENT_LIMIT <= point
            <= EXPONENT_LIMIT + usize::MAX,
{
    let v = text::chars_of(s);
    let from = sign_len(&v);
    let body_text = s.substring_char(from, v.len());
    let body = part(&v, from, v.len());
    assert(body@ =~= unsigned_part(s@));
    assert(body_text@ =~= unsigned_part(s@));
    if text::eq_lowered(body_text, "inf") || text::eq_lowered(body_text, "infinity")
        || text::eq_lowered(body_text, "nan") {
        return Some(Numeral::NotFinite);
    }
    let at = find_exponent(&body);
    let shift = if at < body.len() {
        let tail = part(&body, at + 1, body.len());
        assert(tail@ =~= body@.skip(at + 1));
        read_exponent(&tail)
    } else {
        Some(0i128)
    };
    let head = part(&body, 0, at);
    assert(head@ =~= body@.take(at as int));
    let negative = v.len() > 0 && v[0] == '-';
    match (read_mantissa(&head), shift) {
        (Some((digits, before)), Some(shift)) => {
            let point = before as i128 + shift;
            Some(Numeral::Finite { negative, digits, point })
        },
        _ => None,
    }
}

/// The whole part of a number, unless it has more than 53 bits.
pub fn short_whole(digits: &Vec<char>, point: i128) -> (r: Option<u128>)
    requires
        text::all_digits(digits@),
    ensures
        match r {
            Some(n) => n == whole_part(digits@, point as int) && n < TWO_53,
            None => whole_part(digits@, point as int) >= TWO_53,
        },
{
    if point <= 0 {
        return Some(0);
    }
    let mut n: u128 = 0;
    let mut i: i128 = 0;
    while i < point
        invariant
            text::all_digits(digits@),
            0 <= i <= point,
            n == leading_value(digits@, i as nat),
            n < TWO_53,
        decreases point - i,
    {
        let d: u128 = if i < digits.len() as i128 {
            proof {
                assert(text::is_digit(digits@[i as int]));
            }
            (digits[i as usize] as u8 - 48) as u128
        } else {
            0
        };
        if i >= digits.len() as i128 && n == 0 {
            proof {
                lemma_leading_zero(digits@, i as nat, point as nat);
            }
            return Some(0);
        }
        proof {
            lemma_leading_value_grows(digits@, (i + 1) as nat, point as nat);
        }
        n = n * 10 + d;
        if n >= TWO_53 {
            return None;
        }
        i = i + 1;
    }
    Some(n)
}

} // verus!
