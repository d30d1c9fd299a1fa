//! Numerals: decimal integers as the song format writes them, and the
//! literals that stand for the tempo and the gaps.

use crate::text::chars_of;
use crate::text::digit;
use crate::text::is_digit;
use crate::text::lemma_run_is;
use crate::text::run;
use crate::text::skip_run;
use crate::text::Class;
use vstd::prelude::*;

verus! {

/// Every character of `s` is a decimal digit.
pub open spec fn all_digits(s: Seq<char>) -> bool {
    forall|i: int| 0 <= i < s.len() ==> is_digit(#[trigger] s[i])
}

/// The value of one decimal digit.
pub open spec fn digit_value(c: char) -> nat {
    (c as int - '0' as int) as nat
}

/// The digit that stands for `d`, for `d` below ten.
pub open spec fn digit_char(d: nat) -> char {
    ('0' as int + d) as char
}

/// The number that a sequence of decimal digits stands for.
pub open spec fn value_of(digits: Seq<char>) -> nat
    decreases digits.len(),
{
    if digits.len() == 0 {
        0
    } else {
        value_of(digits.drop_last()) * 10 + digit_value(digits.last())
    }
}

/// The decimal digits of `n`, without leading zeros.
pub open spec fn decimal(n: nat) -> Seq<char>
    decreases n,
{
    if n < 10 {
        seq![digit_char(n)]
    } else {
        decimal(n / 10).push(digit_char(n % 10))
    }
}

/// The decimal form of an integer: a minus sign for a negative one, then the
/// digits of its magnitude.
pub open spec fn signed_decimal(v: int) -> Seq<char> {
    if v < 0 {
        seq!['-'] + decimal((-v) as nat)
    } else {
        decimal(v as nat)
    }
}

/// `s` without the sign that may begin it. A plus sign counts only where
/// `plus` is set, a minus sign only where `minus` is.
pub open spec fn unsigned_part(s: Seq<char>, plus: bool, minus: bool) -> Seq<char> {
    if s.len() > 0 && ((plus && s[0] == '+') || (minus && s[0] == '-')) {
        s.skip(1)
    } else {
        s
    }
}

/// What a text stands for as a signed integer: an optional sign, then one or
/// more decimal digits and nothing else.
pub open spec fn integer_of(s: Seq<char>) -> Option<int> {
    let digits = unsigned_part(s, true, true);
    if digits.len() > 0 && all_digits(digits) {
        if s[0] == '-' {
            Some(-(value_of(digits) as int))
        } else {
            Some(value_of(digits) as int)
        }
    } else {
        None
    }
}

/// The `i32` that a text stands for: none where the text is no integer or the
/// integer does not fit.
pub open spec fn i32_of(s: Seq<char>) -> Option<i32> {
    match integer_of(s) {
        Some(v) => if i32::MIN <= v <= i32::MAX {
            Some(v as i32)
        } else {
            None
        },
        None => None,
    }
}

/// The `u32` that a text stands for: an optional plus sign and digits; none
/// where the text has another form or the number does not fit.
pub open spec fn u32_of(s: Seq<char>) -> Option<u32> {
    let digits = unsigned_part(s, true, false);
    if digits.len() > 0 && all_digits(digits) && value_of(digits) <= u32::MAX {
        Some(value_of(digits) as u32)
    } else {
        None
    }
}

/// Appending a digit multiplies the value by ten and adds the digit.
proof fn lemma_value_push(digits: Seq<char>, c: char)
    ensures
        value_of(digits.push(c)) == value_of(digits) * 10 + digit_value(c),
{
    assert(digits.push(c).drop_last() =~= digits);
}

/// The digits of `n` are digits, at least one of them, and stand for `n`.
pub proof fn lemma_decimal(n: nat)
    ensures
        decimal(n).len() >= 1,
        all_digits(decimal(n)),
        value_of(decimal(n)) == n,
    decreases n,
{
    if n < 10 {
        assert(decimal(n) =~= Seq::<char>::empty().push(digit_char(n)));
        lemma_value_push(Seq::<char>::empty(), digit_char(n));
    } else {
        lemma_decimal(n / 10);
        lemma_value_push(decimal(n / 10), digit_char(n % 10));
    }
}

/// The value of the digits `chars[from..to]`, as far as it stays within
/// `limit`: none where it goes beyond.
fn bounded_value(chars: &[char], from: usize, to: usize, limit: u64) -> (r: Option<u64>)
    requires
        from <= to <= chars.len(),
        all_digits(chars@.subrange(from as int, to as int)),
        limit <= u32::MAX + 1,
    ensures
        r == (if value_of(chars@.subrange(from as int, to as int)) <= limit {
            Some(value_of(chars@.subrange(from as int, to as int)) as u64)
        } else {
            None
        }),
{
    let mut acc: u64 = 0;
    let mut beyond = false;
    let mut i: usize = from;
    assert(chars@.subrange(from as int, from as int) =~= Seq::<char>::empty());
    while i < to
        invariant
            from <= i <= to <= chars.len(),
            all_digits(chars@.subrange(from as int, to as int)),
            limit <= u32::MAX + 1,
            !beyond ==> acc == value_of(chars@.subrange(from as int, i as int)) && acc <= limit,
            beyond ==> value_of(chars@.subrange(from as int, i as int)) > limit,
        decreases to - i,
    {
        let c = chars[i];
        proof {
            let prefix = chars@.subrange(from as int, i as int);
            assert(chars@.subrange(from as int, i + 1) =~= prefix.push(c));
            lemma_value_push(prefix, c);
            assert(chars@.subrange(from as int, to as int)[i - from] == c);
        }
        if !beyond {
            let d = (c as u32 - '0' as u32) as u64;
            acc = acc * 10 + d;
            if acc > limit {
                beyond = true;
            }
        }
        i += 1;
    }
    if beyond {
        None
    } else {
        Some(acc)
    }
}

/// Whether `chars[from..to]` holds decimal digits only.
fn digits_only(chars: &[char], from: usize, to: usize) -> (b: bool)
    requires
        from <= to <= chars.len(),
    ensures
        b == all_digits(chars@.subrange(from as int, to as int)),
{
    let mut i: usize = from;
    while i < to
        invariant
            from <= i <= to <= chars.len(),
            forall|k: int| from <= k < i ==> is_digit(chars@[k]),
        decreases to - i,
    {
        if !digit(chars[i]) {
            assert(chars@.subrange(from as int, to as int)[i - from] == chars@[i as int]);
            return false;
        }
        i += 1;
    }
    true
}

/// Reads a signed decimal integer: an optional sign, then digits.
pub fn parse_i32(chars: &[char]) -> (r: Option<i32>)
    ensures
        r == i32_of(chars@),
{
    let n = chars.len();
    let signed = n > 0 && (chars[0] == '+' || chars[0] == '-');
    let from: usize = if signed {
        1
    } else {
        0
    };
    proof {
        assert(chars@.subrange(from as int, n as int) =~= unsigned_part(chars@, true, true));
    }
    if from == n || !digits_only(chars, from, n) {
        return None;
    }
    let negative = chars[0] == '-';
    match bounded_value(chars, from, n, 0x8000_0000) {
        None => None,
        Some(m) => {
            if negative {
                let v: i64 = -(m as i64);
                Some(v as i32)
            } else if m <= 0x7fff_ffff {
                Some(m as i32)
            } else {
                None
            }
        },
    }
}

/// Reads an unsigned decimal integer: an optional plus sign, then digits.
pub fn parse_u32(chars: &[char]) -> (r: Option<u32>)
    ensures
        r == u32_of(chars@),
{
    let n = chars.len();
    let from: usize = if n > 0 && chars[0] == '+' {
        1
    } else {
        0
    };
    proof {
        assert(chars@.subrange(from as int, n as int) =~= unsigned_part(chars@, true, false));
    }
    if from == n || !digits_only(chars, from, n) {
        return None;
    }
    match bounded_value(chars, from, n, 0xffff_ffff) {
        None => None,
        Some(m) => Some(m as u32),
    }
}

/// Appends the decimal digits of `n`.
pub fn push_decimal(out: &mut Vec<char>, n: u64)
    ensures
        final(out)@ == old(out)@ + decimal(n as nat),
    decreases n,
{
    if n >= 10 {
        push_decimal(out, n / 10);
    }
    let d = (n % 10) as u8;
    let c = (d + 48) as char;
    out.push(c);
    proof {
        assert(c == digit_char((n % 10) as nat));
        if n >= 10 {
            assert(out@ =~= old(out)@ + decimal((n / 10) as nat).push(c));
        } else {
            assert(out@ =~= old(out)@ + seq![c]);
        }
    }
}

/// Appends the decimal form of `v`.
pub fn push_signed(out: &mut Vec<char>, v: i32)
    ensures
        final(out)@ == old(out)@ + signed_decimal(v as int),
{
    if v < 0 {
        out.push('-');
        let m: i64 = -(v as i64);
        push_decimal(out, m as u64);
        assert(out@ =~= old(out)@ + (seq!['-'] + decimal((-v) as nat)));
    } else {
        push_decimal(out, v as u64);
    }
}

/// The small letter for a capital ASCII letter; any other character itself.
pub open spec fn lower(c: char) -> char {
    if 'A' <= c && c <= 'Z' {
        (c as int + 32) as char
    } else {
        c
    }
}

/// `s` is `word`, capital and small ASCII letters taken as the same.
pub open spec fn spells(s: Seq<char>, word: Seq<char>) -> bool {
    s.len() == word.len() && forall|i: int| 0 <= i < s.len() ==> lower(#[trigger] s[i]) == word[i]
}

/// An exponent: the letter `e`, an optional sign, and one or more digits.
pub open spec fn is_exponent(s: Seq<char>) -> bool {
    let digits = unsigned_part(s.skip(1), true, true);
    s.len() > 0 && (s[0] == 'e' || s[0] == 'E') && digits.len() > 0 && all_digits(digits)
}

/// A number in decimal notation: digits with an optional decimal point among
/// them, before them or after them, then an optional exponent.
pub open spec fn is_decimal_number(s: Seq<char>) -> bool {
    let whole = run(s, Class::Digit);
    let rest = s.skip(whole as int);
    let dotted = rest.len() > 0 && rest[0] == '.';
    let fraction = if dotted {
        run(rest.skip(1), Class::Digit)
    } else {
        0
    };
    let tail = if dotted {
        rest.skip(1 + fraction as int)
    } else {
        rest
    };
    whole + fraction >= 1 && (tail.len() == 0 || is_exponent(tail))
}

/// The literals that stand for a floating-point number: an optional sign,
/// then `inf`, `infinity` or `nan` in any mix of capital and small letters, or
/// a number in decimal notation.
pub open spec fn is_float_literal(s: Seq<char>) -> bool {
    let body = unsigned_part(s, true, true);
    spells(body, "inf"@) || spells(body, "infinity"@) || spells(body, "nan"@) || is_decimal_number(
        body,
    )
}

/// The small letter for a capital ASCII letter.
fn to_lower(c: char) -> (r: char)
    ensures
        r == lower(c),
{
    if 'A' <= c && c <= 'Z' {
        ((c as u8) + 32) as char
    } else {
        c
    }
}

/// Whether `chars[from..]` spells `word`.
pub fn spells_word(chars: &[char], from: usize, word: &str) -> (b: bool)
    requires
        from <= chars.len(),
    ensures
        b == spells(chars@.skip(from as int), word@),
{
    let w = chars_of(word);
    if chars.len() - from != w.len() {
        return false;
    }
    let ghost rest = chars@.skip(from as int);
    let mut i: usize = 0;
    while i < w.len()
        invariant
            from <= chars.len(),
            chars.len() - from == w.len(),
            i <= w.len(),
            w@ == word@,
            rest == chars@.skip(from as int),
            forall|k: int| 0 <= k < i ==> lower(#[trigger] rest[k]) == w@[k],
        decreases w.len() - i,
    {
        if to_lower(chars[from + i]) != w[i] {
            assert(rest[i as int] == chars@[from + i]);
            return false;
        }
        assert(rest[i as int] == chars@[from + i]);
        i += 1;
    }
    true
}

/// Whether `chars[from..]` is an exponent.
fn exponent(chars: &[char], from: usize) -> (b: bool)
    requires
        from <= chars.len(),
    ensures
        b == is_exponent(chars@.skip(from as int)),
{
    let n = chars.len();
    let ghost tail = chars@.skip(from as int);
    if from == n {
        return false;
    }
    assert(tail[0] == chars@[from as int]);
    if chars[from] != 'e' && chars[from] != 'E' {
        return false;
    }
    let sign_at = from + 1;
    let digits_at: usize = if sign_at < n && (chars[sign_at] == '+' || chars[sign_at] == '-') {
        sign_at + 1
    } else {
        sign_at
    };
    proof {
        let after = tail.skip(1);
        assert(after =~= chars@.skip(sign_at as int));
        if sign_at < n {
            assert(after[0] == chars@[sign_at as int]);
        }
        assert(unsigned_part(after, true, true) =~= chars@.subrange(digits_at as int, n as int));
    }
    digits_at < n && digits_only(chars, digits_at, n)
}

/// Whether `chars[from..]` is a number in decimal notation.
fn decimal_number(chars: &[char], from: usize) -> (b: bool)
    requires
        from <= chars.len(),
    ensures
        b == is_decimal_number(chars@.skip(from as int)),
{
    let n = chars.len();
    let ghost body = chars@.skip(from as int);
    let whole_end = skip_run(chars, from, Class::Digit);
    let ghost rest = body.skip(whole_end - from);
    proof {
        assert(rest =~= chars@.skip(whole_end as int));
        if whole_end < n {
            assert(rest[0] == chars@[whole_end as int]);
        }
    }
    if whole_end < n && chars[whole_end] == '.' {
        proof {
            assert(rest.skip(1) =~= chars@.skip(whole_end + 1));
        }
        let tail_start = skip_run(chars, whole_end + 1, Class::Digit);
        proof {
            assert(rest.skip(1 + (tail_start - whole_end - 1)) =~= chars@.skip(tail_start as int));
        }
        tail_start - from > 1 && (tail_start == n || exponent(chars, tail_start))
    } else {
        whole_end > from && (whole_end == n || exponent(chars, whole_end))
    }
}

/// Whether `chars` is a literal for a floating-point number.
pub fn float_literal(chars: &[char]) -> (b: bool)
    ensures
        b == is_float_literal(chars@),
{
    let n = chars.len();
    let from: usize = if n > 0 && (chars[0] == '+' || chars[0] == '-') {
        1
    } else {
        0
    };
    proof {
        assert(chars@.skip(from as int) =~= unsigned_part(chars@, true, true));
    }
    spells_word(chars, from, "inf") || spells_word(chars, from, "infinity") || spells_word(
        chars,
        from,
        "nan",
    ) || decimal_number(chars, from)
}

/// The decimal form of a number reads back as the number.
pub proof fn lemma_decimal_reads(n: nat)
    ensures
        integer_of(decimal(n)) == Some(n as int),
        n <= u32::MAX ==> u32_of(decimal(n)) == Some(n as u32),
        is_digit(decimal(n)[0]),
{
    lemma_decimal(n);
    let s = decimal(n);
    assert(is_digit(s[0]));
    assert(unsigned_part(s, true, true) == s);
    assert(unsigned_part(s, true, false) == s);
}

/// The decimal form of an integer reads back as the integer, and begins with
/// a digit or, for a negative one, with a minus sign before a digit.
pub proof fn lemma_signed_decimal_reads(v: int)
    ensures
        integer_of(signed_decimal(v)) == Some(v),
        i32::MIN <= v <= i32::MAX ==> i32_of(signed_decimal(v)) == Some(v as i32),
        signed_decimal(v).len() >= 1,
        v >= 0 ==> signed_decimal(v) == decimal(v as nat),
        v < 0 ==> signed_decimal(v)[0] == '-' && signed_decimal(v).skip(1) == decimal((-v) as nat),
{
    if v < 0 {
        let m = (-v) as nat;
        lemma_decimal(m);
        let s = signed_decimal(v);
        assert(s.skip(1) =~= decimal(m));
        assert(unsigned_part(s, true, true) == s.skip(1));
    } else {
        lemma_decimal_reads(v as nat);
    }
}

/// A literal of a floating-point number is not empty and holds no comma, no
/// line feed and no carriage return.
pub proof fn lemma_float_literal_chars(s: Seq<char>)
    requires
        is_float_literal(s),
    ensures
        s.len() > 0,
        forall|i: int| 0 <= i < s.len() ==> #[trigger] s[i] != ',' && s[i] != '\n' && s[i] != '\r',
{
    reveal_strlit("inf");
    reveal_strlit("infinity");
    reveal_strlit("nan");
    let body = unsigned_part(s, true, true);
    let shift = s.len() - body.len();
    assert forall|i: int| 0 <= i < body.len() implies #[trigger] body[i] != ',' && body[i] != '\n'
        && body[i] != '\r' && body.len() > 0 by {
        if spells(body, "inf"@) || spells(body, "infinity"@) || spells(body, "nan"@) {
            assert(lower(body[i]) != ',' && lower(body[i]) != '\n' && lower(body[i]) != '\r');
        } else {
            lemma_decimal_number_chars(body, i);
        }
    }
    if spells(body, "inf"@) || spells(body, "infinity"@) || spells(body, "nan"@) {
    } else {
        let whole = run(body, Class::Digit);
        lemma_run_is(body, Class::Digit);
        let rest = body.skip(whole as int);
        if rest.len() > 0 && rest[0] == '.' {
            lemma_run_is(rest.skip(1), Class::Digit);
        }
    }
    assert forall|i: int| 0 <= i < s.len() implies #[trigger] s[i] != ',' && s[i] != '\n' && s[i]
        != '\r' by {
        if i >= shift {
            assert(s[i] == body[i - shift]);
        }
    }
}

/// A character of a number in decimal notation is no comma, no line feed and
/// no carriage return.
proof fn lemma_decimal_number_chars(s: Seq<char>, i: int)
    requires
        is_decimal_number(s),
        0 <= i < s.len(),
    ensures
        s[i] != ',' && s[i] != '\n' && s[i] != '\r',
{
    let whole = run(s, Class::Digit);
    lemma_run_is(s, Class::Digit);
    let rest = s.skip(whole as int);
    let dotted = rest.len() > 0 && rest[0] == '.';
    if i < whole {
        assert(is_digit(s[i]));
    } else {
        assert(s[i] == rest[i - whole]);
        if dotted {
            let after = rest.skip(1);
            lemma_run_is(after, Class::Digit);
            let fraction = run(after, Class::Digit);
            let tail = rest.skip(1 + fraction as int);
            if i - whole == 0 {
            } else if i - whole - 1 < fraction {
                assert(rest[i - whole] == after[i - whole - 1]);
                assert(is_digit(after[i - whole - 1]));
            } else {
                assert(rest[i - whole] == tail[i - whole - 1 - fraction]);
                lemma_exponent_chars(tail, i - whole - 1 - fraction);
            }
        } else {
            lemma_exponent_chars(rest, i - whole);
        }
    }
}

/// A character of an exponent is no comma, no line feed and no carriage
/// return.
proof fn lemma_exponent_chars(s: Seq<char>, i: int)
    requires
        is_exponent(s),
        0 <= i < s.len(),
    ensures
        s[i] != ',' && s[i] != '\n' && s[i] != '\r',
{
    let after = s.skip(1);
    let digits = unsigned_part(after, true, true);
    if i > 0 {
        assert(s[i] == after[i - 1]);
        let shift = after.len() - digits.len();
        if i - 1 >= shift {
            assert(after[i - 1] == digits[i - 1 - shift]);
            assert(is_digit(digits[i - 1 - shift]));
        }
    }
}

} // verus!
