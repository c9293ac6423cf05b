//! Whole numbers in text: writing them in decimal, and reading them back.
use vstd::prelude::*;

use crate::text::{chars_of, Text};

verus! {

/// The value of an optional number.
pub open spec fn opt_int(t: Option<i64>) -> Option<int> {
    match t {
        Some(v) => Some(v as int),
        None => None,
    }
}

/// The character of a decimal digit.
pub open spec fn digit_char(d: int) -> char {
    (48 + d) as char
}

/// `n` in decimal, without leading zeros.
pub open spec fn decimal(n: nat) -> Text
    decreases n,
{
    if n < 10 {
        seq![digit_char(n as int)]
    } else {
        decimal(n / 10).push(digit_char((n % 10) as int))
    }
}

/// `n` in decimal, with a minus sign where it is negative.
pub open spec fn int_text(n: int) -> Text {
    if n < 0 {
        seq!['-'] + decimal((-n) as nat)
    } else {
        decimal(n as nat)
    }
}

/// The same character, `n` times.
pub open spec fn repeated(c: char, n: int) -> Text {
    Seq::new(if n > 0 { n as nat } else { 0 }, |i: int| c)
}

/// `n` in decimal, filled up with zeros behind the sign to at least `width` characters.
pub open spec fn zero_padded(n: int, width: int) -> Text {
    if n < 0 {
        seq!['-'] + repeated('0', width - 1 - decimal((-n) as nat).len()) + decimal((-n) as nat)
    } else {
        repeated('0', width - decimal(n as nat).len()) + decimal(n as nat)
    }
}

/// Adds `n` in decimal to the end of `out`.
pub fn push_decimal(out: &mut String, n: u128)
    ensures
        final(out)@ == old(out)@ + decimal(n as nat),
    decreases n,
{
    if n >= 10 {
        push_decimal(out, n / 10);
    }
    let d: u8 = (n % 10) as u8;
    out.push((48 + d) as char);
    proof {
        assert(out@ =~= old(out)@ + decimal(n as nat));
    }
}

/// Adds `c` to the end of `out`, `n` times.
pub fn push_repeated(out: &mut String, c: char, n: usize)
    ensures
        final(out)@ == old(out)@ + repeated(c, n as int),
{
    let ghost start = out@;
    let mut i: usize = 0;
    proof {
        assert(start + repeated(c, 0) =~= start);
    }
    while i < n
        invariant
            0 <= i <= n,
            out@ == start + repeated(c, i as int),
        decreases n - i,
    {
        out.push(c);
        proof {
            assert(start + repeated(c, i + 1) =~= (start + repeated(c, i as int)).push(c));
        }
        i += 1;
    }
}

/// The size of a number without its sign.
fn magnitude(n: i64) -> (r: u128)
    ensures
        r == (if n < 0 { -n } else { n as int }),
{
    let wide: i128 = n as i128;
    if wide < 0 {
        (-wide) as u128
    } else {
        wide as u128
    }
}

/// `n` in decimal.
pub fn i64_text(n: i64) -> (r: String)
    ensures
        r@ == int_text(n as int),
{
    let mut out = String::new();
    if n < 0 {
        out.push('-');
    }
    push_decimal(&mut out, magnitude(n));
    proof {
        assert(out@ =~= int_text(n as int));
    }
    out
}

/// `n` in decimal.
pub fn usize_text(n: usize) -> (r: String)
    ensures
        r@ == decimal(n as nat),
{
    let mut out = String::new();
    push_decimal(&mut out, n as u128);
    proof {
        assert(out@ =~= decimal(n as nat));
    }
    out
}

/// Adds `n` to the end of `out`, filled up with zeros to at least `width` characters.
pub fn push_padded(out: &mut String, n: i64, width: usize)
    ensures
        final(out)@ == old(out)@ + zero_padded(n as int, width as int),
{
    let ghost start = out@;
    let m: u128 = magnitude(n);
    let mut digits = String::new();
    push_decimal(&mut digits, m);
    proof {
        assert(digits@ =~= decimal(m as nat));
    }
    let digit_count: usize = chars_of(digits.as_str()).len();
    let mut used: usize = digit_count;
    if n < 0 {
        out.push('-');
        if used < width {
            used += 1;
        }
    }
    if used < width {
        push_repeated(out, '0', width - used);
    }
    out.append(digits.as_str());
    proof {
        assert(out@ =~= start + zero_padded(n as int, width as int));
    }
}

/// Why a text is not a number of the wanted range.
#[derive(Debug, Clone, Copy, PartialEq, Eq, Structural)]
pub enum IntError {
    Empty,
    InvalidDigit,
    TooLarge,
    TooSmall,
}

impl IntError {
    /// What the error is called in messages.
    pub open spec fn spec_text(self) -> Text {
        match self {
            IntError::Empty => "cannot parse integer from empty string"@,
            IntError::InvalidDigit => "invalid digit found in string"@,
            IntError::TooLarge => "number too large to fit in target type"@,
            IntError::TooSmall => "number too small to fit in target type"@,
        }
    }

    /// What the error is called in messages.
    pub fn text(self) -> (r: &'static str)
        ensures
            r@ == self.spec_text(),
    {
        match self {
            IntError::Empty => "cannot parse integer from empty string",
            IntError::InvalidDigit => "invalid digit found in string",
            IntError::TooLarge => "number too large to fit in target type",
            IntError::TooSmall => "number too small to fit in target type",
        }
    }
}

/// `c` is one of the ten decimal digits.
pub open spec fn is_digit(c: char) -> bool {
    '0' <= c <= '9'
}

/// The number that decimal digits stand for, read from the left: the first character that is no
/// digit, or the first digit that leads out of the range, decides the error.
pub open spec fn digits_value(s: Text, negative: bool, min: int, max: int) -> Result<int, IntError>
    decreases s.len(),
{
    if s.len() == 0 {
        Ok(0)
    } else {
        match digits_value(s.drop_last(), negative, min, max) {
            Err(e) => Err(e),
            Ok(v) => {
                let d = s.last() as int - 48;
                let w = if negative { v * 10 - d } else { v * 10 + d };
                if !is_digit(s.last()) {
                    Err(IntError::InvalidDigit)
                } else if w > max {
                    Err(IntError::TooLarge)
                } else if w < min {
                    Err(IntError::TooSmall)
                } else {
                    Ok(w)
                }
            },
        }
    }
}

/// The number that `s` stands for: digits behind an optional sign, where a minus sign counts as
/// one only for a signed number.
pub open spec fn int_value(s: Text, signed: bool, min: int, max: int) -> Result<int, IntError> {
    if s.len() == 0 {
        Err(IntError::Empty)
    } else if s.len() == 1 && (s[0] == '+' || s[0] == '-') {
        Err(IntError::InvalidDigit)
    } else if s[0] == '+' {
        digits_value(s.skip(1), false, min, max)
    } else if s[0] == '-' && signed {
        digits_value(s.skip(1), true, min, max)
    } else {
        digits_value(s, false, min, max)
    }
}

/// An error at some place of the digits stays the error of all of them.
proof fn lemma_digits_error(s: Text, k: int, negative: bool, min: int, max: int)
    requires
        0 <= k <= s.len(),
        digits_value(s.take(k), negative, min, max) is Err,
    ensures
        digits_value(s, negative, min, max) == digits_value(s.take(k), negative, min, max),
    decreases s.len() - k,
{
    if k == s.len() {
        assert(s.take(k) =~= s);
    } else {
        assert(s.take(k + 1).drop_last() =~= s.take(k));
        lemma_digits_error(s, k + 1, negative, min, max);
    }
}

/// Reads the digits `from..` of `s`.
fn read_digits(s: &[char], from: usize, negative: bool, min: i128, max: i128) -> (r: Result<
    i128,
    IntError,
>)
    requires
        from <= s@.len(),
        -0x1_0000_0000_0000_0000 <= min <= 0 <= max <= 0x1_0000_0000_0000_0000,
    ensures
        match r {
            Ok(v) => digits_value(s@.skip(from as int), negative, min as int, max as int)
                == Ok::<int, IntError>(v as int),
            Err(e) => digits_value(s@.skip(from as int), negative, min as int, max as int)
                == Err::<int, IntError>(e),
        },
{
    let ghost t = s@.skip(from as int);
    let mut value: i128 = 0;
    let mut i: usize = from;
    while i < s.len()
        invariant
            from <= i <= s@.len(),
            t == s@.skip(from as int),
            -0x1_0000_0000_0000_0000 <= min <= value <= max <= 0x1_0000_0000_0000_0000,
            digits_value(t.take(i - from), negative, min as int, max as int) == Ok::<int, IntError>(
                value as int,
            ),
        decreases s@.len() - i,
    {
        let c: char = s[i];
        proof {
            assert(t.take(i - from + 1).drop_last() =~= t.take(i - from));
            assert(t.take(i - from + 1).last() == c);
        }
        if !('0' <= c && c <= '9') {
            proof {
                lemma_digits_error(t, i - from + 1, negative, min as int, max as int);
            }
            return Err(IntError::InvalidDigit);
        }
        let d: i128 = c as i128 - 48;
        let next: i128 = if negative { value * 10 - d } else { value * 10 + d };
        if next > max {
            proof {
                lemma_digits_error(t, i - from + 1, negative, min as int, max as int);
            }
            return Err(IntError::TooLarge);
        }
        if next < min {
            proof {
                lemma_digits_error(t, i - from + 1, negative, min as int, max as int);
            }
            return Err(IntError::TooSmall);
        }
        value = next;
        i += 1;
    }
    proof {
        assert(t.take(t.len() as int) =~= t);
    }
    Ok(value)
}

/// The number that the characters stand for.
pub fn read_int(s: &[char], signed: bool, min: i128, max: i128) -> (r: Result<i128, IntError>)
    requires
        -0x1_0000_0000_0000_0000 <= min <= 0 <= max <= 0x1_0000_0000_0000_0000,
    ensures
        match r {
            Ok(v) => int_value(s@, signed, min as int, max as int) == Ok::<int, IntError>(
                v as int,
            ) && min <= v <= max,
            Err(e) => int_value(s@, signed, min as int, max as int) == Err::<int, IntError>(e),
        },
{
    if s.len() == 0 {
        return Err(IntError::Empty);
    }
    let first: char = s[0];
    if s.len() == 1 && (first == '+' || first == '-') {
        return Err(IntError::InvalidDigit);
    }
    proof {
        assert(s@.skip(0) =~= s@);
        lemma_digits_range(s@, false, min as int, max as int);
        lemma_digits_range(s@.skip(1), false, min as int, max as int);
        lemma_digits_range(s@.skip(1), true, min as int, max as int);
    }
    if first == '+' {
        read_digits(s, 1, false, min, max)
    } else if first == '-' && signed {
        read_digits(s, 1, true, min, max)
    } else {
        read_digits(s, 0, false, min, max)
    }
}

/// A number that was read lies in the range.
pub proof fn lemma_digits_range(s: Text, negative: bool, min: int, max: int)
    requires
        min <= 0 <= max,
    ensures
        digits_value(s, negative, min, max) matches Ok(v) ==> min <= v <= max,
    decreases s.len(),
{
    if s.len() > 0 {
        lemma_digits_range(s.drop_last(), negative, min, max);
    }
}

/// The signed 64-bit number that `s` stands for.
pub fn parse_i64(s: &str) -> (r: Result<i64, IntError>)
    ensures
        match r {
            Ok(v) => int_value(s@, true, i64::MIN as int, i64::MAX as int) == Ok::<int, IntError>(
                v as int,
            ),
            Err(e) => int_value(s@, true, i64::MIN as int, i64::MAX as int) == Err::<
                int,
                IntError,
            >(e),
        },
{
    let chars = chars_of(s);
    match read_int(&chars, true, i64::MIN as i128, i64::MAX as i128) {
        Ok(v) => Ok(v as i64),
        Err(e) => Err(e),
    }
}

/// The machine-size number that `s` stands for.
pub fn parse_count(s: &str) -> (r: Result<usize, IntError>)
    ensures
        match r {
            Ok(v) => int_value(s@, false, 0, usize::MAX as int) == Ok::<int, IntError>(v as int),
            Err(e) => int_value(s@, false, 0, usize::MAX as int) == Err::<int, IntError>(e),
        },
{
    let chars = chars_of(s);
    match read_int(&chars, false, 0, usize::MAX as i128) {
        Ok(v) => Ok(v as usize),
        Err(e) => Err(e),
    }
}

/// No decimal text is empty, and all its characters are digits.
pub proof fn lemma_decimal_digits(n: nat)
    ensures
        decimal(n).len() > 0,
        forall|i: int| 0 <= i < decimal(n).len() ==> is_digit(#[trigger] decimal(n)[i]),
    decreases n,
{
    if n >= 10 {
        lemma_decimal_digits(n / 10);
    }
}

/// The digits of a number in range stand for that number.
pub proof fn lemma_decimal_value(n: nat, negative: bool, min: int, max: int)
    requires
        min <= 0 <= max,
        if negative { min <= -n } else { n <= max },
    ensures
        digits_value(decimal(n), negative, min, max) == Ok::<int, IntError>(
            if negative { -n } else { n as int },
        ),
    decreases n,
{
    reveal_with_fuel(digits_value, 2);
    if n >= 10 {
        lemma_decimal_value(n / 10, negative, min, max);
        assert(decimal(n).drop_last() =~= decimal(n / 10));
    } else {
        assert(decimal(n).drop_last() =~= Seq::<char>::empty());
    }
}

/// A number that is written in decimal is read back unchanged.
pub proof fn law_written_number_reads_back(n: int, min: int, max: int)
    requires
        min <= n <= max,
        min <= 0 <= max,
    ensures
        int_value(int_text(n), true, min, max) == Ok::<int, IntError>(n),
{
    if n < 0 {
        lemma_decimal_digits((-n) as nat);
        lemma_decimal_value((-n) as nat, true, min, max);
        assert(int_text(n).skip(1) =~= decimal((-n) as nat));
    } else {
        lemma_decimal_digits(n as nat);
        lemma_decimal_value(n as nat, false, min, max);
        assert(is_digit(decimal(n as nat)[0]));
    }
}

/// Zeros before the digits of a number do not change it.
pub proof fn lemma_leading_zeros(k: nat, digits: Text, min: int, max: int)
    requires
        min <= 0 <= max,
    ensures
        digits_value(repeated('0', k as int) + digits, false, min, max) == digits_value(
            digits,
            false,
            min,
            max,
        ),
    decreases k + digits.len(),
{
    let all = repeated('0', k as int) + digits;
    if digits.len() > 0 {
        lemma_leading_zeros(k, digits.drop_last(), min, max);
        assert(all.drop_last() =~= repeated('0', k as int) + digits.drop_last());
        assert(all.last() == digits.last());
    } else if k > 0 {
        lemma_leading_zeros((k - 1) as nat, digits, min, max);
        assert(all.drop_last() =~= repeated('0', k - 1) + digits);
        assert(all.last() == '0');
    } else {
        assert(all =~= digits);
    }
}

/// A number that is filled up with zeros is read back unchanged.
pub proof fn law_padded_number_reads_back(n: int, width: int, signed: bool, max: int)
    requires
        0 <= n <= max,
    ensures
        int_value(zero_padded(n, width), signed, 0, max) == Ok::<int, IntError>(n),
        forall|i: int|
            0 <= i < zero_padded(n, width).len() ==> is_digit(#[trigger] zero_padded(n, width)[i]),
        zero_padded(n, width).len() >= width,
        decimal(n as nat).len() <= width ==> zero_padded(n, width).len() == width,
{
    let digits = decimal(n as nat);
    let k = width - digits.len();
    lemma_decimal_digits(n as nat);
    lemma_decimal_value(n as nat, false, 0, max);
    let s = zero_padded(n, width);
    assert forall|i: int| 0 <= i < s.len() implies is_digit(#[trigger] s[i]) by {
        let zeros = repeated('0', k);
        if i < zeros.len() {
            assert(s[i] == '0');
        } else {
            assert(s[i] == digits[i - zeros.len()]);
        }
    }
    if k > 0 {
        lemma_leading_zeros(k as nat, digits, 0, max);
    } else {
        assert(s =~= digits);
    }
    assert(is_digit(s[0]));
}

/// The digits of a number below a power of ten are no more than its exponent says.
pub proof fn lemma_decimal_len(n: nat)
    ensures
        n < 10 ==> decimal(n).len() == 1,
        n < 100 ==> decimal(n).len() <= 2,
        n < 10_000 ==> decimal(n).len() <= 4,
{
    reveal_with_fuel(decimal, 5);
}

/// A text with a character that is neither a digit nor a sign stands for no number.
pub proof fn lemma_no_number(s: Text, i: int, signed: bool, min: int, max: int)
    requires
        0 < i < s.len(),
        !is_digit(s[i]),
        min <= 0 <= max,
    ensures
        int_value(s, signed, min, max) is Err,
{
    lemma_no_digits(s, i, false, min, max);
    assert(s.skip(1)[i - 1] == s[i]);
    lemma_no_digits(s.skip(1), i - 1, false, min, max);
    lemma_no_digits(s.skip(1), i - 1, true, min, max);
}

proof fn lemma_no_digits(s: Text, i: int, negative: bool, min: int, max: int)
    requires
        0 <= i < s.len(),
        !is_digit(s[i]),
    ensures
        digits_value(s, negative, min, max) is Err,
    decreases s.len(),
{
    if i < s.len() - 1 {
        lemma_no_digits(s.drop_last(), i, negative, min, max);
    }
}

} // verus!
