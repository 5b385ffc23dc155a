//! Text primitives: comparing, trimming, splitting and rendering strings.
//!
//! Every function is specified over `Seq<char>`, the view of `&str` and
//! `String`.

use vstd::prelude::*;

verus! {

// ---------------------------------------------------------------------------
// Characters
// ---------------------------------------------------------------------------

/// The Unicode `White_Space` property.
pub open spec fn is_whitespace(c: char) -> bool {
    ||| '\u{9}' <= c <= '\u{d}'
    ||| c == ' '
    ||| c == '\u{85}'
    ||| c == '\u{a0}'
    ||| c == '\u{1680}'
    ||| '\u{2000}' <= c <= '\u{200a}'
    ||| c == '\u{2028}'
    ||| c == '\u{2029}'
    ||| c == '\u{202f}'
    ||| c == '\u{205f}'
    ||| c == '\u{3000}'
}

/// Whether `c` has the Unicode `White_Space` property.
pub fn whitespace(c: char) -> (r: bool)
    ensures
        r == is_whitespace(c),
{
    ('\u{9}' <= c && c <= '\u{d}') || c == ' ' || c == '\u{85}' || c == '\u{a0}' || c == '\u{1680}'
        || ('\u{2000}' <= c && c <= '\u{200a}') || c == '\u{2028}' || c == '\u{2029}' || c
        == '\u{202f}' || c == '\u{205f}' || c == '\u{3000}'
}

/// `c` with an ASCII upper-case letter mapped to lower case.
pub open spec fn lower(c: char) -> char {
    if 'A' <= c <= 'Z' {
        (c as u32 + 32) as char
    } else {
        c
    }
}

/// ASCII lower case of a whole text; other characters are unchanged.
pub open spec fn ascii_lowercase(s: Seq<char>) -> Seq<char> {
    s.map_values(|c: char| lower(c))
}

pub open spec fn is_digit(c: char) -> bool {
    '0' <= c <= '9'
}

/// The value of a decimal digit.
pub open spec fn digit_value(c: char) -> nat {
    (c as u32 - '0' as u32) as nat
}

/// The decimal digit of value `d`.
pub open spec fn digit(d: nat) -> char {
    ('0' as u32 + d) as char
}

// ---------------------------------------------------------------------------
// Whole texts
// ---------------------------------------------------------------------------

/// The texts of a sequence of strings.
pub open spec fn texts(s: Seq<String>) -> Seq<Seq<char>> {
    s.map_values(|t: String| t@)
}

/// The text of an optional string.
pub open spec fn opt_text(s: Option<String>) -> Option<Seq<char>> {
    match s {
        Some(t) => Some(t@),
        None => None,
    }
}

/// Whether two strings have the same characters.
pub fn str_eq(a: &str, b: &str) -> (r: bool)
    ensures
        r == (a@ == b@),
{
    a.to_owned() == b.to_owned()
}

/// Copies of the first `n` of `v`.
pub fn first_copies(v: &Vec<String>, n: usize) -> (r: Vec<String>)
    requires
        n <= v.len(),
    ensures
        r@ == v@.take(n as int),
{
    let mut r: Vec<String> = Vec::new();
    for i in 0..n
        invariant
            n <= v.len(),
            r@ == v@.take(i as int),
    {
        r.push(v[i].clone());
        assert(r@ =~= v@.take(i + 1));
    }
    r
}

/// The characters of `s`.
pub fn chars_of(s: &str) -> (v: Vec<char>)
    ensures
        v@ == s@,
{
    let mut v: Vec<char> = Vec::new();
    for c in it: s.chars()
        invariant
            it.seq() == s@,
            v@ == s@.take(it.index()),
    {
        v.push(c);
        assert(v@ == s@.take(it.index() + 1));
    }
    assert(s@.take(s@.len() as int) == s@);
    v
}

/// Whether `s`, with ASCII letters lowered, is `word`.
pub fn eq_lowered(s: &str, word: &str) -> (r: bool)
    ensures
        r == (ascii_lowercase(s@) == word@),
{
    let a = chars_of(s);
    let b = chars_of(word);
    if a.len() != b.len() {
        assert(ascii_lowercase(s@).len() == s@.len());
        return false;
    }
    for i in 0..a.len()
        invariant
            a@ == s@,
            b@ == word@,
            a.len() == b.len(),
            forall|j: int| 0 <= j < i ==> lower(#[trigger] s@[j]) == word@[j],
    {
        let c = a[i];
        let l = if 'A' <= c && c <= 'Z' {
            ((c as u8) + 32) as char
        } else {
            c
        };
        assert(l == lower(c));
        if l != b[i] {
            assert(ascii_lowercase(s@)[i as int] == lower(s@[i as int]));
            return false;
        }
    }
    assert(ascii_lowercase(s@) =~= word@);
    true
}

/// Whether `s` begins with `prefix`.
pub open spec fn starts_with(s: Seq<char>, prefix: Seq<char>) -> bool {
    prefix.len() <= s.len() && s.take(prefix.len() as int) == prefix
}

/// Whether `s` begins with `prefix`.
pub fn has_prefix(s: &str, prefix: &str) -> (r: bool)
    ensures
        r == starts_with(s@, prefix@),
{
    let a = chars_of(s);
    let b = chars_of(prefix);
    if a.len() < b.len() {
        return false;
    }
    for i in 0..b.len()
        invariant
            a@ == s@,
            b@ == prefix@,
            b.len() <= a.len(),
            forall|j: int| 0 <= j < i ==> #[trigger] s@[j] == prefix@[j],
    {
        if a[i] != b[i] {
            assert(s@.take(prefix@.len() as int)[i as int] != prefix@[i as int]);
            return false;
        }
    }
    assert(s@.take(prefix@.len() as int) =~= prefix@);
    true
}

// ---------------------------------------------------------------------------
// Trimming and splitting
// ---------------------------------------------------------------------------

/// `s` without its leading whitespace.
pub open spec fn trim_start(s: Seq<char>) -> Seq<char>
    decreases s.len(),
{
    if s.len() > 0 && is_whitespace(s[0]) {
        trim_start(s.drop_first())
    } else {
        s
    }
}

/// `s` without its trailing whitespace.
pub open spec fn trim_end(s: Seq<char>) -> Seq<char>
    decreases s.len(),
{
    if s.len() > 0 && is_whitespace(s.last()) {
        trim_end(s.drop_last())
    } else {
        s
    }
}

/// `s` without leading and trailing whitespace.
pub open spec fn trim(s: Seq<char>) -> Seq<char> {
    trim_end(trim_start(s))
}

/// `s` without leading and trailing whitespace.
pub fn trimmed(s: &str) -> (r: &str)
    ensures
        r@ == trim(s@),
{
    let v = chars_of(s);
    let mut from: usize = 0;
    assert(s@.skip(0) == s@);
    while from < v.len() && whitespace(v[from])
        invariant
            v@ == s@,
            from <= v.len(),
            trim_start(s@) == trim_start(s@.skip(from as int)),
        decreases v.len() - from,
    {
        assert(s@.skip(from as int).drop_first() == s@.skip(from + 1));
        from = from + 1;
    }
    assert(trim_start(s@) == s@.skip(from as int));
    let mut to: usize = v.len();
    assert(s@.subrange(from as int, to as int) == s@.skip(from as int));
    while from < to && whitespace(v[to - 1])
        invariant
            v@ == s@,
            from <= to <= v.len(),
            trim(s@) == trim_end(s@.subrange(from as int, to as int)),
        decreases to,
    {
        assert(s@.subrange(from as int, to as int).drop_last() == s@.subrange(
            from as int,
            to - 1,
        ));
        to = to - 1;
    }
    s.substring_char(from, to)
}

/// The pieces of `s` between occurrences of `sep`.
pub open spec fn split(s: Seq<char>, sep: char) -> Seq<Seq<char>>
    decreases s.len(),
{
    if s.len() == 0 {
        seq![Seq::empty()]
    } else {
        let pieces = split(s.drop_last(), sep);
        if s.last() == sep {
            pieces.push(Seq::empty())
        } else {
            pieces.drop_last().push(pieces.last().push(s.last()))
        }
    }
}

/// Whether one of the comma-separated pieces of `s`, trimmed, is `word`.
pub open spec fn lists(s: Seq<char>, word: Seq<char>) -> bool {
    exists|i: int|
        0 <= i < split(s, ',').len() && trim(#[trigger] split(s, ',')[i]) == word
}

/// The pieces of `s` between occurrences of `sep`.
pub fn pieces(s: &str, sep: char) -> (r: Vec<String>)
    ensures
        texts(r@) == split(s@, sep),
{
    let v = chars_of(s);
    let mut r: Vec<String> = Vec::new();
    let mut from: usize = 0;
    let ghost mut done: Seq<Seq<char>> = Seq::empty();
    assert(s@.subrange(0, 0) == Seq::<char>::empty());
    assert(split(s@.take(0), sep) =~= done.push(Seq::empty()));
    for i in 0..v.len()
        invariant
            v@ == s@,
            from <= i <= v.len(),
            texts(r@) == done,
            split(s@.take(i as int), sep) == done.push(s@.subrange(from as int, i as int)),
    {
        proof {
            assert(s@.take(i + 1).drop_last() == s@.take(i as int));
            assert(s@.take(i + 1).last() == s@[i as int]);
            let open_piece = s@.subrange(from as int, i as int);
            assert(done.push(open_piece).drop_last() == done);
            assert(open_piece.push(s@[i as int]) == s@.subrange(from as int, i + 1));
        }
        if v[i] == sep {
            let piece = s.substring_char(from, i).to_owned();
            r.push(piece);
            from = i + 1;
            proof {
                done = done.push(piece@);
                assert(texts(r@) =~= done);
                assert(s@.subrange(i + 1, i + 1) == Seq::<char>::empty());
            }
        }
    }
    let piece = s.substring_char(from, v.len()).to_owned();
    r.push(piece);
    assert(s@.take(s@.len() as int) == s@);
    assert(texts(r@) =~= done.push(piece@));
    r
}

/// Whether one of the comma-separated pieces of `s`, trimmed, is `word`.
pub fn lists_word(s: &str, word: &str) -> (r: bool)
    ensures
        r == lists(s@, word@),
{
    let parts = pieces(s, ',');
    assert(forall|j: int| 0 <= j < parts@.len() ==> #[trigger] texts(parts@)[j] == parts@[j]@);
    for i in 0..parts.len()
        invariant
            texts(parts@) == split(s@, ','),
            forall|j: int|
                0 <= j < parts@.len() ==> #[trigger] texts(parts@)[j] == parts@[j]@,
            forall|j: int| 0 <= j < i ==> trim(#[trigger] split(s@, ',')[j]) != word@,
    {
        assert(split(s@, ',')[i as int] == parts@[i as int]@);
        if str_eq(trimmed(parts[i].as_str()), word) {
            return true;
        }
    }
    false
}

/// Index of the first `c` in `s`, or the length of `s`.
pub open spec fn first_index(s: Seq<char>, c: char) -> int
    decreases s.len(),
{
    if s.len() == 0 || s[0] == c {
        0
    } else {
        1 + first_index(s.drop_first(), c)
    }
}

/// Index of the last `c` in `s`, or -1.
pub open spec fn last_index(s: Seq<char>, c: char) -> int
    decreases s.len(),
{
    if s.len() == 0 {
        -1
    } else if s.last() == c {
        s.len() - 1
    } else {
        last_index(s.drop_last(), c)
    }
}

/// Index of the first `c` among `v`, or the length of `v`.
pub fn find_first(v: &Vec<char>, c: char) -> (r: usize)
    ensures
        r == first_index(v@, c),
        r <= v.len(),
        r < v.len() ==> v@[r as int] == c,
{
    let mut i: usize = 0;
    assert(v@.skip(0) == v@);
    while i < v.len() && v[i] != c
        invariant
            i <= v.len(),
            first_index(v@, c) == i + first_index(v@.skip(i as int), c),
        decreases v.len() - i,
    {
        assert(v@.skip(i as int).drop_first() == v@.skip(i + 1));
        i = i + 1;
    }
    i
}

/// One past the index of the last `c` among the first `n` of `v`, or 0.
pub fn find_last(v: &Vec<char>, n: usize, c: char) -> (r: usize)
    requires
        n <= v.len(),
    ensures
        r == last_index(v@.take(n as int), c) + 1,
        r <= n,
        r > 0 ==> v@[r - 1] == c,
{
    let mut i: usize = n;
    while i > 0 && v[i - 1] != c
        invariant
            i <= n <= v.len(),
            last_index(v@.take(n as int), c) == last_index(v@.take(i as int), c),
        decreases i,
    {
        assert(v@.take(i as int).drop_last() == v@.take(i - 1));
        i = i - 1;
    }
    assert(i > 0 ==> v@.take(i as int).last() == v@[i - 1]);
    i
}

/// What [`last_index`] finds: no `c` stands behind it.
pub proof fn lemma_last_index(s: Seq<char>, c: char)
    ensures
        -1 <= last_index(s, c) < s.len(),
        last_index(s, c) >= 0 ==> s[last_index(s, c)] == c,
        forall|i: int| last_index(s, c) < i < s.len() ==> s[i] != c,
    decreases s.len(),
{
    if s.len() > 0 && s.last() != c {
        lemma_last_index(s.drop_last(), c);
        assert forall|i: int| last_index(s, c) < i < s.len() implies s[i] != c by {
            if i < s.len() - 1 {
                assert(s.drop_last()[i] != c);
            }
        }
    }
}

// ---------------------------------------------------------------------------
// Whole numbers
// ---------------------------------------------------------------------------

/// `n` in decimal, without leading zeros.
pub open spec fn decimal(n: nat) -> Seq<char>
    decreases n,
{
    if n < 10 {
        seq![digit(n)]
    } else {
        decimal(n / 10).push(digit(n % 10))
    }
}

/// `n` in decimal, with a minus sign before a negative number.
pub open spec fn signed(n: int) -> Seq<char> {
    if n < 0 {
        seq!['-'] + decimal((-n) as nat)
    } else {
        decimal(n as nat)
    }
}

/// `n` in decimal, filled up with zeros to at least two digits.
pub open spec fn two_digits(n: nat) -> Seq<char> {
    if n < 10 {
        seq!['0', digit(n)]
    } else {
        decimal(n)
    }
}

/// The last three decimal digits of `n`.
pub open spec fn three_digits(n: nat) -> Seq<char> {
    seq![digit(n / 100 % 10), digit(n / 10 % 10), digit(n % 10)]
}

pub open spec fn all_digits(s: Seq<char>) -> bool {
    forall|i: int| 0 <= i < s.len() ==> is_digit(#[trigger] s[i])
}

/// The number that the decimal digits of `s` write.
pub open spec fn digits_value(s: Seq<char>) -> nat
    decreases s.len(),
{
    if s.len() == 0 {
        0
    } else {
        10 * digits_value(s.drop_last()) + digit_value(s.last())
    }
}

/// The number in `s`: decimal digits, with an optional `+` before them, of a
/// value up to `max`.
pub open spec fn parse_unsigned(s: Seq<char>, max: nat) -> Option<nat> {
    let body = if s.len() > 0 && s[0] == '+' {
        s.drop_first()
    } else {
        s
    };
    if body.len() > 0 && all_digits(body) && digits_value(body) <= max {
        Some(digits_value(body))
    } else {
        None
    }
}

/// Append the digit of value `d`.
pub fn push_digit(out: &mut String, d: u8)
    requires
        d < 10,
    ensures
        final(out)@ == old(out)@.push(digit(d as nat)),
{
    proof {
        reveal_strlit("0");
        reveal_strlit("1");
        reveal_strlit("2");
        reveal_strlit("3");
        reveal_strlit("4");
        reveal_strlit("5");
        reveal_strlit("6");
        reveal_strlit("7");
        reveal_strlit("8");
        reveal_strlit("9");
    }
    if d == 0 {
        out.append("0");
    } else if d == 1 {
        out.append("1");
    } else if d == 2 {
        out.append("2");
    } else if d == 3 {
        out.append("3");
    } else if d == 4 {
        out.append("4");
    } else if d == 5 {
        out.append("5");
    } else if d == 6 {
        out.append("6");
    } else if d == 7 {
        out.append("7");
    } else if d == 8 {
        out.append("8");
    } else {
        out.append("9");
    }
    assert(out@ =~= old(out)@.push(digit(d as nat)));
}

/// Append `n` in decimal.
pub fn push_decimal(out: &mut String, n: u64)
    ensures
        final(out)@ == old(out)@ + decimal(n as nat),
    decreases n,
{
    if n < 10 {
        push_digit(out, n as u8);
    } else {
        push_decimal(out, n / 10);
        push_digit(out, (n % 10) as u8);
    }
    assert(out@ =~= old(out)@ + decimal(n as nat));
}

/// Append `n` in decimal, with a minus sign before a negative number.
pub fn push_signed(out: &mut String, n: i32)
    ensures
        final(out)@ == old(out)@ + signed(n as int),
{
    let wide = n as i64;
    if wide < 0 {
        proof {
            reveal_strlit("-");
        }
        out.append("-");
        push_decimal(out, (-wide) as u64);
        assert(out@ =~= old(out)@ + signed(n as int));
    } else {
        push_decimal(out, wide as u64);
    }
}

/// Append `n` in decimal, filled up with zeros to at least two digits.
pub fn push_two_digits(out: &mut String, n: u64)
    ensures
        final(out)@ == old(out)@ + two_digits(n as nat),
{
    if n < 10 {
        push_digit(out, 0);
        push_digit(out, n as u8);
        assert(out@ =~= old(out)@ + two_digits(n as nat));
    } else {
        push_decimal(out, n);
    }
}

/// Append the last three decimal digits of `n`.
pub fn push_three_digits(out: &mut String, n: u64)
    ensures
        final(out)@ == old(out)@ + three_digits(n as nat),
{
    push_digit(out, (n / 100 % 10) as u8);
    push_digit(out, (n / 10 % 10) as u8);
    push_digit(out, (n % 10) as u8);
    assert(out@ =~= old(out)@ + three_digits(n as nat));
}

/// `n` in decimal.
pub fn decimal_text(n: u64) -> (r: String)
    ensures
        r@ == decimal(n as nat),
{
    let mut out = String::new();
    push_decimal(&mut out, n);
    assert(out@ =~= decimal(n as nat));
    out
}

/// A prefix of a digit string writes no larger number.
proof fn lemma_digits_value_prefix(s: Seq<char>, n: int)
    requires
        0 <= n <= s.len(),
    ensures
        digits_value(s.take(n)) <= digits_value(s),
    decreases s.len() - n,
{
    if n < s.len() {
        lemma_digits_value_prefix(s, n + 1);
        assert(s.take(n + 1).drop_last() == s.take(n));
    } else {
        assert(s.take(n) == s);
    }
}

/// Parse an unsigned 64-bit number.
pub fn parse_u64(s: &str) -> (r: Option<u64>)
    ensures
        r == (match parse_unsigned(s@, u64::MAX as nat) {
            Some(n) => Some(n as u64),
            None => None,
        }),
{
    let v = chars_of(s);
    let from: usize = if v.len() > 0 && v[0] == '+' {
        1
    } else {
        0
    };
    let ghost body = if s@.len() > 0 && s@[0] == '+' {
        s@.drop_first()
    } else {
        s@
    };
    assert(body == s@.skip(from as int));
    if v.len() == from {
        return None;
    }
    let mut n: u64 = 0;
    assert(body.take(0) == Seq::<char>::empty());
    for i in from..v.len()
        invariant
            v@ == s@,
            from <= 1,
            from < v.len(),
            body == s@.skip(from as int),
            n == digits_value(body.take(i - from)),
            forall|j: int| 0 <= j < i - from ==> is_digit(#[trigger] body[j]),
            parse_unsigned(s@, u64::MAX as nat) == (if all_digits(body) && digits_value(body)
                <= u64::MAX {
                Some(digits_value(body))
            } else {
                None
            }),
    {
        let c = v[i];
        assert(body[i - from] == c);
        if !('0' <= c && c <= '9') {
            return None;
        }
        let d = (c as u8 - 48) as u64;
        proof {
            assert(body.take(i - from + 1).drop_last() == body.take(i - from));
            assert(body.take(i - from + 1).last() == c);
            lemma_digits_value_prefix(body, i - from + 1);
        }
        if n > (u64::MAX - d) / 10 {
            return None;
        }
        n = n * 10 + d;
    }
    assert(body.take(body.len() as int) == body);
    Some(n)
}

/// Parse an unsigned 32-bit number.
pub fn parse_u32(s: &str) -> (r: Option<u32>)
    ensures
        r == (match parse_unsigned(s@, u32::MAX as nat) {
            Some(n) => Some(n as u32),
            None => None,
        }),
{
    match parse_u64(s) {
        Some(n) => if n <= 0xffff_ffff {
            Some(n as u32)
        } else {
            None
        },
        None => None,
    }
}

/// Reading back what was written in decimal gives the number again.
pub proof fn law_decimal_reads_back(n: nat)
    ensures
        digits_value(decimal(n)) == n,
        all_digits(decimal(n)),
        decimal(n).len() > 0,
    decreases n,
{
    if n < 10 {
        assert(decimal(n).drop_last() == Seq::<char>::empty());
        assert(digits_value(Seq::<char>::empty()) == 0);
    } else {
        law_decimal_reads_back(n / 10);
        assert(decimal(n).drop_last() == decimal(n / 10));
        assert forall|i: int| 0 <= i < decimal(n).len() implies is_digit(
            #[trigger] decimal(n)[i],
        ) by {
            if i < decimal(n).len() - 1 {
                assert(is_digit(decimal(n / 10)[i]));
            }
        }
    }
}

} // verus!
