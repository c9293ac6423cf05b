//! Points in time as milliseconds since 1970-01-01 00:00:00 UTC: reading them, naming their
//! parts, and writing them.
use vstd::prelude::*;
use vstd::utf8::encode_utf8;

use crate::calendar::{
    civil_from_days, date_of, day_number, days_before_month, days_before_year, days_from_civil,
    law_date_round_trip, law_every_day_has_a_date, law_years_follow_each_other,
    lemma_day_within_year, valid_date, Date,
};
use crate::number::{
    decimal, digits_value, int_text, int_value, is_digit, law_padded_number_reads_back,
    law_written_number_reads_back, lemma_decimal_digits, lemma_decimal_len, lemma_decimal_value,
    lemma_leading_zeros, lemma_no_number, opt_int, parse_i64, push_padded, read_int, zero_padded, IntError,
};
use crate::text::{opt_str, opt_text, Text};

verus! {

/// A second of a day.
pub struct UtcTime {
    pub date: Date,
    pub hour: int,
    pub minute: int,
    pub second: int,
}

/// The second that the point in time lies in.
pub open spec fn utc_time(ts: int) -> UtcTime {
    let seconds = ts / 1000;
    let second_of_day = seconds % 86_400;
    UtcTime {
        date: date_of(seconds / 86_400),
        hour: second_of_day / 3600,
        minute: second_of_day % 3600 / 60,
        second: second_of_day % 60,
    }
}

/// The point in time at which the second begins.
pub open spec fn millis_of(t: UtcTime) -> int {
    (((day_number(t.date) * 24 + t.hour) * 60 + t.minute) * 60 + t.second) * 1000
}

/// The date exists, and the second is one of the day.
pub open spec fn valid_time(t: UtcTime) -> bool {
    &&& valid_date(t.date)
    &&& 0 <= t.hour < 24
    &&& 0 <= t.minute < 60
    &&& 0 <= t.second < 60
}

/// A point in time lies in the second that it is named by: less than 1000 milliseconds after the
/// beginning of it.
pub proof fn law_time_of_point(ts: i64)
    ensures
        valid_time(utc_time(ts as int)),
        millis_of(utc_time(ts as int)) == ts - ts as int % 1000,
{
    lemma_date_of_days(ts as int / 1000 / 86_400);
}

/// A point in time from 1970 on lies in a year from 1970 on.
pub proof fn law_years_from_1970_on(ts: i64)
    requires
        ts >= 0,
    ensures
        utc_time(ts as int).date.year >= 1970,
{
    let days = ts as int / 1000 / 86_400;
    lemma_date_of_days(days);
    let d = date_of(days);
    lemma_day_within_year(d);
    law_years_follow_each_other(d.year);
    assert(days_before_year(d.year + 1) > 0);
}

/// The second that begins at a point in time is the one that this point is named by.
pub proof fn law_point_of_time(t: UtcTime)
    requires
        valid_time(t),
    ensures
        utc_time(millis_of(t)) == t,
{
    let days = day_number(t.date);
    let within = (t.hour * 60 + t.minute) * 60 + t.second;
    assert(millis_of(t) / 1000 == days * 86_400 + within);
    assert((days * 86_400 + within) / 86_400 == days);
    assert((days * 86_400 + within) % 86_400 == within);
    assert(within / 3600 == t.hour);
    assert(within % 3600 == t.minute * 60 + t.second);
    assert((t.minute * 60 + t.second) / 60 == t.minute);
    assert(within % 60 == t.second);
    law_date_round_trip(t.date);
}

/// Every day number in reach of a point in time has a date, whose year fits in 32 bits.
proof fn lemma_date_of_days(days: int)
    requires
        -110_000_000_000 <= days <= 110_000_000_000,
    ensures
        valid_date(date_of(days)),
        day_number(date_of(days)) == days,
        -400_000_000 <= date_of(days).year <= 400_000_000,
{
    law_every_day_has_a_date(days);
    let d = date_of(days);
    lemma_day_within_year(d);
}

/// Year, month, day and hour of a point in time.
pub fn utc_parts(ts: i64) -> (r: (i32, u32, u32, u32))
    ensures
        ({
            let t = utc_time(ts as int);
            &&& r.0 == t.date.year
            &&& r.1 == t.date.month
            &&& r.2 == t.date.day
            &&& r.3 == t.hour
        }),
{
    let total_seconds: i64 = floor_thousandth(ts);
    let days: i64 = (if total_seconds >= 0 { total_seconds } else { total_seconds - 86_399 })
        / 86_400;
    proof {
        assert(days == total_seconds as int / 86_400);
        lemma_date_of_days(days as int);
    }
    let second_of_day: i64 = total_seconds - days * 86_400;
    let (year, month, day) = civil_from_days(days);
    let hour: u32 = (second_of_day / 3600) as u32;
    (year, month, day, hour)
}

/// `ts / 1000`, rounded down.
fn floor_thousandth(ts: i64) -> (r: i64)
    ensures
        r == ts as int / 1000,
{
    if ts >= 0 {
        ts / 1000
    } else {
        -1 - (-(ts + 1)) / 1000
    }
}

/// A point in time as it is shown: `2024-03-09 16:00:00 UTC`.
pub open spec fn stamp(ts: int) -> Text {
    let t = utc_time(ts);
    zero_padded(t.date.year, 4) + "-"@ + zero_padded(t.date.month, 2) + "-"@ + zero_padded(
        t.date.day,
        2,
    ) + " "@ + zero_padded(t.hour, 2) + ":"@ + zero_padded(t.minute, 2) + ":"@ + zero_padded(
        t.second,
        2,
    ) + " UTC"@
}

/// A point in time as it is shown.
pub fn format_utc_millis(ts: i64) -> (r: String)
    ensures
        r@ == stamp(ts as int),
{
    let (year, month, day, hour) = utc_parts(ts);
    let total_seconds: i64 = floor_thousandth(ts);
    let days: i64 = (if total_seconds >= 0 { total_seconds } else { total_seconds - 86_399 })
        / 86_400;
    let second_of_day: i64 = total_seconds - days * 86_400;
    proof {
        assert(second_of_day == total_seconds as int % 86_400);
    }
    let minute: i64 = (second_of_day % 3600) / 60;
    let second: i64 = second_of_day % 60;
    let mut out = String::new();
    push_padded(&mut out, year as i64, 4);
    out.append("-");
    push_padded(&mut out, month as i64, 2);
    out.append("-");
    push_padded(&mut out, day as i64, 2);
    out.append(" ");
    push_padded(&mut out, hour as i64, 2);
    out.append(":");
    push_padded(&mut out, minute, 2);
    out.append(":");
    push_padded(&mut out, second, 2);
    out.append(" UTC");
    proof {
        assert(out@ =~= stamp(ts as int));
    }
    out
}

/// A point in time as it is shown, or nothing where there is none.
pub fn fmt_ts(ts: Option<i64>) -> (r: String)
    ensures
        r@ == (match ts {
            Some(t) => stamp(t as int),
            None => Seq::empty(),
        }),
{
    match ts {
        Some(t) => format_utc_millis(t),
        None => String::new(),
    }
}

/// Year, month, day and hour of a point in time, each absent where there is no point.
pub open spec fn named_parts(ts: Option<int>) -> (Option<int>, Option<int>, Option<int>, Option<int>) {
    match ts {
        Some(t) => {
            let u = utc_time(t);
            (Some(u.date.year), Some(u.date.month), Some(u.date.day), Some(u.hour))
        },
        None => (None, None, None, None),
    }
}

/// The parts of a point in time are those of an hour that it lies in: less than an hour passes
/// between the beginning of that hour and the point.
pub proof fn law_parts_name_the_hour(ts: i64)
    ensures
        named_parts(None) == (None::<int>, None::<int>, None::<int>, None::<int>),
        ({
            let (year, month, day, hour) = named_parts(Some(ts as int));
            &&& year is Some && month is Some && day is Some && hour is Some
            &&& 0 <= hour->0 < 24
            &&& valid_date(Date { year: year->0, month: month->0, day: day->0 })
            &&& 0 <= ts - (day_number(Date { year: year->0, month: month->0, day: day->0 }) * 24
                + hour->0) * 3_600_000 < 3_600_000
        }),
{
    law_time_of_point(ts);
    let t = utc_time(ts as int);
    assert(t.date == Date { year: t.date.year, month: t.date.month, day: t.date.day });
}

/// Year, month, day and hour of a point in time, each absent where there is no point.
pub fn time_parts(ts: Option<i64>) -> (r: (Option<i64>, Option<i64>, Option<i64>, Option<i64>))
    ensures
        (opt_int(r.0), opt_int(r.1), opt_int(r.2), opt_int(r.3)) == named_parts(opt_int(ts)),
        match ts {
            Some(t) => {
                let u = utc_time(t as int);
                &&& r.0 is Some && r.0->0 == u.date.year
                &&& r.1 is Some && r.1->0 == u.date.month
                &&& r.2 is Some && r.2->0 == u.date.day
                &&& r.3 is Some && r.3->0 == u.hour
            },
            None => r == (None::<i64>, None::<i64>, None::<i64>, None::<i64>),
        },
{
    match ts {
        Some(t) => {
            let (year, month, day, hour) = utc_parts(t);
            (Some(year as i64), Some(month as i64), Some(day as i64), Some(hour as i64))
        },
        None => (None, None, None, None),
    }
}

/// How far down a point in time is named.
#[derive(Debug, Clone, Copy, PartialEq, Eq, Structural)]
pub enum TimeDepth {
    Month,
    Hour,
}

/// The path of a point in time among the categories: `time/2024/03` or `time/2024/03/09/16`.
pub open spec fn time_path_text(ts: int, depth: TimeDepth) -> Text {
    let t = utc_time(ts);
    let month = "time/"@ + zero_padded(t.date.year, 4) + "/"@ + zero_padded(t.date.month, 2);
    match depth {
        TimeDepth::Month => month,
        TimeDepth::Hour => month + "/"@ + zero_padded(t.date.day, 2) + "/"@ + zero_padded(t.hour, 2),
    }
}

/// The path of a point in time among the categories; times before 1970 have none.
pub fn time_path(ts: i64, depth: TimeDepth) -> (r: Option<String>)
    ensures
        opt_text(r) == (if ts < 0 {
            None
        } else {
            Some(time_path_text(ts as int, depth))
        }),
{
    if ts < 0 {
        return None;
    }
    let (year, month, day, hour) = utc_parts(ts);
    let mut out = String::new();
    out.append("time/");
    push_padded(&mut out, year as i64, 4);
    out.append("/");
    push_padded(&mut out, month as i64, 2);
    match depth {
        TimeDepth::Month => {},
        TimeDepth::Hour => {
            out.append("/");
            push_padded(&mut out, day as i64, 2);
            out.append("/");
            push_padded(&mut out, hour as i64, 2);
        },
    }
    proof {
        assert(out@ =~= time_path_text(ts as int, depth));
    }
    Some(out)
}

/// The characters that bytes stand for one by one.
pub open spec fn byte_chars(bytes: Seq<u8>) -> Text {
    bytes.map_values(|b: u8| b as char)
}

/// The number in the bytes `from..to`.
pub open spec fn field(bytes: Seq<u8>, from: int, to: int, signed: bool) -> Option<int> {
    let range = if signed {
        (i32::MIN as int, i32::MAX as int)
    } else {
        (0int, u32::MAX as int)
    };
    match int_value(byte_chars(bytes.subrange(from, to)), signed, range.0, range.1) {
        Ok(v) => Some(v),
        Err(_) => None,
    }
}

/// The point in time that is written as `2024-03-09T16:00:00Z`, given in UTF-8. Only the places of
/// the numbers and the final `Z` count, not what stands between them; fractions of a second are
/// passed over; hour, minute and second may exceed what a day has.
pub open spec fn rfc3339_millis(bytes: Seq<u8>) -> Option<int> {
    if bytes.len() < 20 || bytes.last() != 90 {
        None
    } else {
        match (
            field(bytes, 0, 4, true),
            field(bytes, 5, 7, false),
            field(bytes, 8, 10, false),
            field(bytes, 11, 13, false),
            field(bytes, 14, 16, false),
            field(bytes, 17, 19, false),
        ) {
            (
                Some(year),
                Some(month),
                Some(day),
                Some(hour),
                Some(minute),
                Some(second),
            ) => if 1 <= month <= 12 && 1 <= day <= 31 {
                Some(millis_of(UtcTime { date: Date { year, month, day }, hour, minute, second }))
            } else {
                None
            },
            _ => None,
        }
    }
}

/// Ten to the power of `n`.
pub open spec fn power_of_ten(n: nat) -> int
    decreases n,
{
    if n == 0 {
        1
    } else {
        10 * power_of_ten((n - 1) as nat)
    }
}

/// A number has no more digits than it was read from.
proof fn lemma_digits_bound(s: Text, negative: bool, min: int, max: int)
    requires
        min <= 0 <= max,
    ensures
        digits_value(s, negative, min, max) matches Ok(v) ==> -power_of_ten(s.len()) < v
            < power_of_ten(s.len()) && (if negative {
            v <= 0
        } else {
            v >= 0
        }),
    decreases s.len(),
{
    if s.len() > 0 {
        lemma_digits_bound(s.drop_last(), negative, min, max);
    }
}

/// A number has no more digits than its text has characters.
proof fn lemma_value_bound(s: Text, signed: bool, min: int, max: int, n: nat)
    requires
        min <= 0 <= max,
        s.len() <= n,
    ensures
        int_value(s, signed, min, max) matches Ok(v) ==> -power_of_ten(n) < v < power_of_ten(n),
{
    lemma_digits_bound(s, false, min, max);
    lemma_power_ascends(s.len(), n);
    if s.len() > 0 {
        lemma_digits_bound(s.skip(1), false, min, max);
        lemma_digits_bound(s.skip(1), true, min, max);
        lemma_power_ascends((s.len() - 1) as nat, n);
    }
}

proof fn lemma_power_ascends(a: nat, b: nat)
    requires
        a <= b,
    ensures
        1 <= power_of_ten(a) <= power_of_ten(b),
    decreases b,
{
    if b > 0 {
        if a < b {
            lemma_power_ascends(a, (b - 1) as nat);
        } else {
            lemma_power_ascends((a - 1) as nat, (b - 1) as nat);
        }
    }
}

/// The number in the bytes `from..to`.
fn read_field(bytes: &[u8], from: usize, to: usize, signed: bool) -> (r: Option<i64>)
    requires
        from <= to <= bytes@.len(),
        to - from <= 4,
    ensures
        match r {
            Some(v) => field(bytes@, from as int, to as int, signed) == Some(v as int) && -10_000
                < v < 10_000 && (signed || v >= 0),
            None => field(bytes@, from as int, to as int, signed) is None,
        },
{
    let mut chars: Vec<char> = Vec::new();
    let ghost wanted = byte_chars(bytes@.subrange(from as int, to as int));
    let mut i: usize = from;
    while i < to
        invariant
            from <= i <= to <= bytes@.len(),
            wanted == byte_chars(bytes@.subrange(from as int, to as int)),
            chars@ == wanted.take(i - from),
        decreases to - i,
    {
        chars.push(bytes[i] as char);
        proof {
            assert(wanted.take(i + 1 - from) =~= wanted.take(i - from).push(
                wanted[i - from],
            ));
        }
        i += 1;
    }
    proof {
        assert(wanted.take(to - from) =~= wanted);
        lemma_value_bound(wanted, true, i32::MIN as int, i32::MAX as int, 4);
        lemma_value_bound(wanted, false, 0, u32::MAX as int, 4);
        reveal_with_fuel(power_of_ten, 5);
    }
    let value = if signed {
        read_int(&chars, true, i32::MIN as i128, i32::MAX as i128)
    } else {
        read_int(&chars, false, 0, u32::MAX as i128)
    };
    match value {
        Ok(v) => Some(v as i64),
        Err(_) => None,
    }
}

/// The point in time that is written as `2024-03-09T16:00:00Z`.
pub fn parse_rfc3339_utc_millis(raw: &str) -> (r: Option<i64>)
    ensures
        match r {
            Some(v) => rfc3339_millis(encode_utf8(raw@)) == Some(v as int),
            None => rfc3339_millis(encode_utf8(raw@)) is None,
        },
{
    let bytes = raw.as_bytes();
    if bytes.len() < 20 || bytes[bytes.len() - 1] != 90 {
        return None;
    }
    let year = match read_field(bytes, 0, 4, true) {
        Some(v) => v,
        None => return None,
    };
    let month = match read_field(bytes, 5, 7, false) {
        Some(v) => v,
        None => return None,
    };
    let day = match read_field(bytes, 8, 10, false) {
        Some(v) => v,
        None => return None,
    };
    let hour = match read_field(bytes, 11, 13, false) {
        Some(v) => v,
        None => return None,
    };
    let minute = match read_field(bytes, 14, 16, false) {
        Some(v) => v,
        None => return None,
    };
    let second = match read_field(bytes, 17, 19, false) {
        Some(v) => v,
        None => return None,
    };
    let days = match days_from_civil(year as i32, month as u32, day as u32) {
        Some(v) => v,
        None => return None,
    };
    proof {
        reveal_with_fuel(days_before_month, 13);
        assert(-5_000_000 <= days <= 5_000_000);
    }
    Some((((days * 24 + hour) * 60 + minute) * 60 + second) * 1000)
}

/// The point in time that a text stands for: a number of milliseconds, which is taken as seconds
/// where the text has at most ten bytes, or else a date and time.
pub open spec fn ts_millis(s: Text) -> Option<int> {
    match int_value(s, true, i64::MIN as int, i64::MAX as int) {
        Ok(v) => Some(
            if encode_utf8(s).len() <= 10 {
                v * 1000
            } else {
                v
            },
        ),
        Err(_) => rfc3339_millis(encode_utf8(s)),
    }
}

/// The point in time that an optional text stands for.
pub open spec fn opt_ts_millis(s: Option<Text>) -> Option<int> {
    match s {
        Some(t) => ts_millis(t),
        None => None,
    }
}

/// A text has at least as many bytes as characters.
pub proof fn lemma_bytes_at_least_chars(s: Text)
    ensures
        s.len() <= encode_utf8(s).len(),
    decreases s.len(),
{
    if s.len() > 0 {
        lemma_bytes_at_least_chars(s.drop_first());
    }
}

/// The point in time that an optional text stands for.
pub fn parse_ts_millis(raw: Option<&str>) -> (r: Option<i64>)
    ensures
        match r {
            Some(v) => opt_ts_millis(opt_str(raw)) == Some(v as int),
            None => opt_ts_millis(opt_str(raw)) is None,
        },
{
    let raw = match raw {
        Some(s) => s,
        None => return None,
    };
    if let Ok(v) = parse_i64(raw) {
        let seconds: bool = raw.as_bytes().len() <= 10;
        proof {
            lemma_bytes_at_least_chars(raw@);
            if seconds {
                lemma_value_bound(raw@, true, i64::MIN as int, i64::MAX as int, 10);
                reveal_with_fuel(power_of_ten, 11);
            }
        }
        return Some(if seconds { v * 1000 } else { v });
    }
    parse_rfc3339_utc_millis(raw)
}

/// A time of the Chromium cookie store, in microseconds since 1601, as milliseconds since 1970;
/// zero and below stand for no time.
pub fn chromium_time_to_ms(chrome_time: i64) -> (r: Option<i64>)
    ensures
        chrome_time <= 0 ==> r is None,
        chrome_time > 0 ==> r is Some && r->0 == chrome_time as int / 1000 - 11_644_473_600_000,
{
    if chrome_time <= 0 {
        return None;
    }
    Some(chrome_time / 1000 - 11_644_473_600_000)
}

/// A text of digits has as many bytes as characters.
proof fn lemma_ascii_bytes(s: Text)
    requires
        vstd::utf8::is_ascii_chars(s),
    ensures
        encode_utf8(s).len() == s.len(),
        forall|i: int| 0 <= i < s.len() ==> (#[trigger] encode_utf8(s)[i]) as int == s[i] as int,
{
    vstd::utf8::is_ascii_chars_encode_utf8(s);
    assert forall|i: int| 0 <= i < s.len() implies (#[trigger] encode_utf8(s)[i]) as int
        == s[i] as int by {
        assert(s[i] as u8 == encode_utf8(s)[i]);
        assert('\0' <= s[i] <= '\u{7f}');
    }
}

/// A number of at most ten digits stands for seconds, a longer one for milliseconds.
pub proof fn law_short_numbers_are_seconds(n: int)
    requires
        i64::MIN <= n <= i64::MAX,
    ensures
        int_text(n).len() <= 10 ==> ts_millis(int_text(n)) == Some(n * 1000),
        int_text(n).len() > 10 ==> ts_millis(int_text(n)) == Some(n),
{
    law_written_number_reads_back(n, i64::MIN as int, i64::MAX as int);
    let s = int_text(n);
    let digits = if n < 0 {
        decimal((-n) as nat)
    } else {
        decimal(n as nat)
    };
    lemma_decimal_digits(
        if n < 0 {
            (-n) as nat
        } else {
            n as nat
        },
    );
    assert forall|i: int| 0 <= i < s.len() implies '\0' <= #[trigger] s[i] <= '\u{7f}' by {
        if n < 0 {
            if i > 0 {
                assert(s[i] == digits[i - 1]);
            }
        } else {
            assert(s[i] == digits[i]);
        }
    }
    lemma_ascii_bytes(s);
}

/// The fields of a date and time stand at their places.
proof fn lemma_field_reads(s: Text, from: int, to: int, n: int, signed: bool)
    requires
        0 <= from <= to <= s.len(),
        vstd::utf8::is_ascii_chars(s),
        s.subrange(from, to) == zero_padded(n, to - from),
        0 <= n <= 9999,
    ensures
        field(encode_utf8(s), from, to, signed) == Some(n),
{
    lemma_ascii_bytes(s);
    let part = s.subrange(from, to);
    let bytes = encode_utf8(s).subrange(from, to);
    assert(byte_chars(bytes) =~= part) by {
        assert forall|i: int| 0 <= i < part.len() implies byte_chars(bytes)[i] == part[i] by {
            assert(bytes[i] == encode_utf8(s)[from + i]);
            assert(bytes[i] as int == s[from + i] as int);
            assert(byte_chars(bytes)[i] == bytes[i] as char);
            assert(part[i] == s[from + i]);
        }
    }
    lemma_padded_value(n, to - from, signed);
}

proof fn lemma_padded_value(n: int, width: int, signed: bool)
    requires
        0 <= n <= 9999,
    ensures
        int_value(zero_padded(n, width), true, i32::MIN as int, i32::MAX as int) == Ok::<
            int,
            IntError,
        >(n),
        int_value(zero_padded(n, width), false, 0, u32::MAX as int) == Ok::<int, IntError>(n),
{
    let digits = decimal(n as nat);
    let s = zero_padded(n, width);
    law_padded_number_reads_back(n, width, signed, u32::MAX as int);
    lemma_decimal_digits(n as nat);
    lemma_decimal_value(n as nat, false, i32::MIN as int, i32::MAX as int);
    lemma_decimal_value(n as nat, false, 0, u32::MAX as int);
    let k = width - digits.len();
    if k > 0 {
        lemma_leading_zeros(k as nat, digits, i32::MIN as int, i32::MAX as int);
        lemma_leading_zeros(k as nat, digits, 0, u32::MAX as int);
    } else {
        assert(s =~= digits);
    }
    assert(is_digit(s[0]));
}

/// The text of a date and time, with the given characters between the numbers.
pub open spec fn written_time(t: UtcTime, between: char) -> Text {
    zero_padded(t.date.year, 4) + "-"@ + zero_padded(t.date.month, 2) + "-"@ + zero_padded(
        t.date.day,
        2,
    ) + seq![between] + zero_padded(t.hour, 2) + ":"@ + zero_padded(t.minute, 2) + ":"@
        + zero_padded(t.second, 2)
}

/// A date and time that is written as `2024-03-09T16:00:00Z` stands for the point in time at which
/// that second begins.
pub proof fn law_written_time_reads_back(t: UtcTime, between: char)
    requires
        valid_time(t),
        0 <= t.date.year <= 9999,
        between <= '\u{7f}',
    ensures
        rfc3339_millis(encode_utf8(written_time(t, between) + "Z"@)) == Some(millis_of(t)),
        ts_millis(written_time(t, between) + "Z"@) == Some(millis_of(t)),
        written_time(t, between).len() == 19,
{
    reveal_strlit("-");
    reveal_strlit(":");
    reveal_strlit("Z");
    lemma_decimal_len(t.date.year as nat);
    lemma_decimal_len(t.date.month as nat);
    lemma_decimal_len(t.date.day as nat);
    lemma_decimal_len(t.hour as nat);
    lemma_decimal_len(t.minute as nat);
    lemma_decimal_len(t.second as nat);
    let y = zero_padded(t.date.year, 4);
    let mo = zero_padded(t.date.month, 2);
    let d = zero_padded(t.date.day, 2);
    let h = zero_padded(t.hour, 2);
    let mi = zero_padded(t.minute, 2);
    let se = zero_padded(t.second, 2);
    law_padded_number_reads_back(t.date.year, 4, false, 9999);
    law_padded_number_reads_back(t.date.month, 2, false, 9999);
    law_padded_number_reads_back(t.date.day, 2, false, 9999);
    law_padded_number_reads_back(t.hour, 2, false, 9999);
    law_padded_number_reads_back(t.minute, 2, false, 9999);
    law_padded_number_reads_back(t.second, 2, false, 9999);
    let s = written_time(t, between) + "Z"@;
    assert(s.len() == 20);
    assert(s.subrange(0, 4) =~= y);
    assert(s.subrange(5, 7) =~= mo);
    assert(s.subrange(8, 10) =~= d);
    assert(s.subrange(11, 13) =~= h);
    assert(s.subrange(14, 16) =~= mi);
    assert(s.subrange(17, 19) =~= se);
    assert(s[4] == '-' && s[7] == '-' && s[10] == between && s[13] == ':' && s[16] == ':' && s[19]
        == 'Z');
    assert forall|i: int| 0 <= i < s.len() implies '\0' <= #[trigger] s[i] <= '\u{7f}' by {
        if i < 4 {
            assert(s[i] == s.subrange(0, 4)[i]);
            assert(is_digit(y[i]));
        } else if 5 <= i < 7 {
            assert(s[i] == s.subrange(5, 7)[i - 5]);
            assert(is_digit(mo[i - 5]));
        } else if 8 <= i < 10 {
            assert(s[i] == s.subrange(8, 10)[i - 8]);
            assert(is_digit(d[i - 8]));
        } else if 11 <= i < 13 {
            assert(s[i] == s.subrange(11, 13)[i - 11]);
            assert(is_digit(h[i - 11]));
        } else if 14 <= i < 16 {
            assert(s[i] == s.subrange(14, 16)[i - 14]);
            assert(is_digit(mi[i - 14]));
        } else if 17 <= i < 19 {
            assert(s[i] == s.subrange(17, 19)[i - 17]);
            assert(is_digit(se[i - 17]));
        }
    }
    lemma_field_reads(s, 0, 4, t.date.year, true);
    lemma_field_reads(s, 5, 7, t.date.month, false);
    lemma_field_reads(s, 8, 10, t.date.day, false);
    lemma_field_reads(s, 11, 13, t.hour, false);
    lemma_field_reads(s, 14, 16, t.minute, false);
    lemma_field_reads(s, 17, 19, t.second, false);
    lemma_ascii_bytes(s);
    assert(encode_utf8(s)[19] == 90);
    let again = Date { year: t.date.year, month: t.date.month, day: t.date.day };
    assert(again == t.date);
    lemma_no_number(s, 4, true, i64::MIN as int, i64::MAX as int);
}

/// A point in time is shown as the second that it lies in: what is shown, read as a date and time,
/// is the point at which that second begins.
pub proof fn law_shown_time_reads_back(ts: i64)
    requires
        0 <= utc_time(ts as int).date.year <= 9999,
    ensures
        stamp(ts as int).len() == 23,
        stamp(ts as int).skip(19) == " UTC"@,
        rfc3339_millis(encode_utf8(stamp(ts as int).take(19) + "Z"@)) == Some(
            ts - ts as int % 1000,
        ),
{
    let t = utc_time(ts as int);
    law_time_of_point(ts);
    law_written_time_reads_back(t, ' ');
    reveal_strlit(" ");
    reveal_strlit(" UTC");
    assert(" "@ =~= seq![' ']);
    let s = stamp(ts as int);
    assert(s =~= written_time(t, ' ') + " UTC"@);
    assert(s.take(19) =~= written_time(t, ' '));
    assert(s.skip(19) =~= " UTC"@);
}

} // verus!
