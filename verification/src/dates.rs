//! PDF dates (`D:YYYYMMDDhhmmss`) as seconds since the Unix epoch.
use vstd::prelude::*;

use crate::decimal;
use crate::text;

verus! {

/// A leap year of the Gregorian calendar.
pub open spec fn is_leap_year(year: int) -> bool {
    year % 4 == 0 && year % 100 != 0 || year % 400 == 0
}

/// How many days a month has.
pub open spec fn days_in_month(year: int, month: int) -> int {
    if month == 2 {
        if is_leap_year(year) {
            29
        } else {
            28
        }
    } else if month == 4 || month == 6 || month == 9 || month == 11 {
        30
    } else {
        31
    }
}

/// How many days of a year lie before one of its months.
pub open spec fn days_before_month(year: int, month: int) -> int
    decreases month,
{
    if month <= 1 {
        0
    } else {
        days_before_month(year, month - 1) + days_in_month(year, month - 1)
    }
}

/// How many days lie between 0001-01-01 and the start of a year, before it where negative.
pub open spec fn days_before_year(year: int) -> int {
    365 * (year - 1) + (year - 1) / 4 - (year - 1) / 100 + (year - 1) / 400
}

/// A day that the Gregorian calendar has.
pub open spec fn is_date(year: int, month: int, day: int) -> bool {
    1 <= month <= 12 && 1 <= day <= days_in_month(year, month)
}

/// A time of day.
pub open spec fn is_time(hour: int, minute: int, second: int) -> bool {
    0 <= hour < 24 && 0 <= minute < 60 && 0 <= second < 60
}

/// Seconds from 1970-01-01 00:00:00 UTC, without leap seconds.
pub open spec fn unix_seconds(
    year: int,
    month: int,
    day: int,
    hour: int,
    minute: int,
    second: int,
) -> int {
    (days_before_year(year) - days_before_year(1970) + days_before_month(year, month) + day - 1)
        * 86400 + hour * 3600 + minute * 60 + second
}

/// The Unix timestamp of a day and a time of day, where both exist.
pub open spec fn civil_timestamp(
    year: int,
    month: int,
    day: int,
    hour: int,
    minute: int,
    second: int,
) -> Option<i64> {
    if is_date(year, month, day) && is_time(hour, minute, second) {
        Some(unix_seconds(year, month, day, hour, minute, second) as i64)
    } else {
        None
    }
}

/// `chrono::NaiveDate::from_ymd_opt`, `chrono::NaiveTime::from_hms_opt` and the `timestamp` of
/// the two together in UTC: nothing for a day or a time of day that does not exist, else the Unix
/// timestamp. Stated for years of up to four digits; chrono takes more.
#[verifier::external_body]
fn utc_timestamp(
    year: i32,
    month: u32,
    day: u32,
    hour: u32,
    minute: u32,
    second: u32,
) -> (timestamp: Option<i64>)
    requires
        -9999 <= year <= 9999,
    ensures
        timestamp == civil_timestamp(year as int, month as int, day as int, hour as int, minute as int, second as int),
{
    let date = chrono::NaiveDate::from_ymd_opt(year, month, day)?;
    let time = chrono::NaiveTime::from_hms_opt(hour, minute, second)?;
    Some(chrono::NaiveDateTime::new(date, time).and_utc().timestamp())
}

/// The bytes of `s` from `from` to `to`, each taken as a character.
pub open spec fn field(s: Seq<u8>, from: int, to: int) -> Seq<char> {
    s.subrange(from, to).map_values(|b: u8| b as char)
}

/// The year that the first four bytes give.
pub open spec fn year_field(s: Seq<u8>) -> Option<int> {
    decimal::signed_value(field(s, 0, 4))
}

/// The number that the two bytes from `from` on give.
pub open spec fn pair_field(s: Seq<u8>, from: int) -> Option<nat> {
    decimal::unsigned_value(field(s, from, from + 2))
}

/// The time that fourteen bytes `YYYYMMDDhhmmss` give, in seconds since the Unix epoch.
pub open spec fn date_value(s: Seq<u8>) -> Option<i64> {
    match (
        year_field(s),
        pair_field(s, 4),
        pair_field(s, 6),
        pair_field(s, 8),
        pair_field(s, 10),
        pair_field(s, 12),
    ) {
        (
            Some(year),
            Some(month),
            Some(day),
            Some(hour),
            Some(minute),
            Some(second),
        ) => civil_timestamp(
            year,
            month as int,
            day as int,
            hour as int,
            minute as int,
            second as int,
        ),
        _ => None,
    }
}

/// A signed number of seconds in the 64 bits of an unsigned one.
pub open spec fn in_u64(seconds: i64) -> u64 {
    if seconds < 0 {
        (seconds + 0x1_0000_0000_0000_0000) as u64
    } else {
        seconds as u64
    }
}

/// The timestamp that a date of at least fourteen bytes gives.
pub open spec fn timestamp_of(s: Seq<u8>) -> Option<u64> {
    if s.len() < 14 {
        None
    } else {
        match date_value(s) {
            Some(seconds) => Some(in_u64(seconds)),
            None => None,
        }
    }
}

/// `s` starts with `D:`.
pub open spec fn is_marked(s: Seq<u8>) -> bool {
    s.len() >= 2 && s[0] == 'D' as u8 && s[1] == ':' as u8
}

/// `s` without one `D:` before it.
pub open spec fn unmarked(s: Seq<u8>) -> Seq<u8> {
    if is_marked(s) {
        s.skip(2)
    } else {
        s
    }
}

/// `s` without any number of `D:` before it.
pub open spec fn fully_unmarked(s: Seq<u8>) -> Seq<u8>
    decreases s.len(),
{
    if is_marked(s) {
        fully_unmarked(s.skip(2))
    } else {
        s
    }
}

/// A character starts at position `at` of the UTF-8 text `s`, or the text ends there.
pub open spec fn on_boundary(s: Seq<u8>, at: int) -> bool {
    at == s.len() || !vstd::utf8::is_continuation_byte(s[at])
}

/// The `k`-th of the six fields of a date is a number.
pub open spec fn field_is_number(s: Seq<u8>, k: int) -> bool {
    if k == 0 {
        year_field(s) is Some
    } else {
        pair_field(s, 2 * k + 2) is Some
    }
}

/// No field of the date ends inside the encoding of a character, up to and with the first field
/// that is not a number.
pub open spec fn fields_end_on_characters(s: Seq<u8>) -> bool {
    forall|k: int|
        0 <= k < 6 && (forall|j: int| 0 <= j < k ==> field_is_number(s, j)) ==> #[trigger] on_boundary(
            s,
            2 * k + 4,
        )
}

/// A date in UTF-8 text that can be cut into its fields between characters.
pub open spec fn is_cuttable(s: Seq<u8>) -> bool {
    vstd::utf8::valid_utf8(s) && fully_unmarked(s).len() >= 14 ==> fields_end_on_characters(
        fully_unmarked(s),
    )
}

/// The timestamp of a date as a text: nothing where it is not UTF-8.
pub open spec fn text_timestamp(s: Seq<u8>) -> Option<u64> {
    if vstd::utf8::valid_utf8(s) {
        timestamp_of(fully_unmarked(s))
    } else {
        None
    }
}

/// Reads the field of `s` from `from` to `to` as characters.
fn read_field(s: &[u8], from: usize, to: usize) -> (chars: Vec<char>)
    requires
        from <= to <= s@.len(),
    ensures
        chars@ == field(s@, from as int, to as int),
{
    let mut chars: Vec<char> = Vec::new();
    let mut i: usize = from;
    while i < to
        invariant
            from <= i <= to <= s@.len(),
            chars@ == field(s@, from as int, i as int),
        decreases to - i,
    {
        chars.push(s[i] as char);
        assert(field(s@, from as int, i + 1) =~= field(s@, from as int, i as int).push(
            s@[i as int] as char,
        ));
        i = i + 1;
    }
    chars
}

/// Reads the year.
fn read_year(s: &[u8]) -> (year: Option<i32>)
    requires
        s@.len() >= 4,
    ensures
        year is Some <==> year_field(s@) is Some,
        year matches Some(y) ==> year_field(s@) == Some(y as int) && -9999 <= y <= 9999,
{
    let chars: Vec<char> = read_field(s, 0, 4);
    if chars[0] == '-' {
        let digits: &[char] = &chars.as_slice()[1..4];
        assert(digits@ =~= chars@.skip(1));
        proof {
            if decimal::all_digits(digits@) {
                decimal::lemma_decimal_bound(digits@);
            }
        }
        match decimal::parse_digits(digits) {
            Some(n) => Some(0 - n as i32),
            None => None,
        }
    } else {
        proof {
            let signed = chars@.skip(1);
            if decimal::all_digits(chars@) {
                decimal::lemma_decimal_bound(chars@);
            }
            if decimal::all_digits(signed) {
                decimal::lemma_decimal_bound(signed);
            }
        }
        match decimal::parse_unsigned(chars.as_slice()) {
            Some(n) => Some(n as i32),
            None => None,
        }
    }
}

/// Reads a field of two bytes.
fn read_pair(s: &[u8], from: usize) -> (value: Option<u32>)
    requires
        from + 2 <= s@.len(),
        from <= 12,
    ensures
        value is Some <==> pair_field(s@, from as int) is Some,
        value matches Some(v) ==> pair_field(s@, from as int) == Some(v as nat),
{
    let chars: Vec<char> = read_field(s, from, from + 2);
    proof {
        let signed = chars@.skip(1);
        if decimal::all_digits(chars@) {
            decimal::lemma_decimal_bound(chars@);
        }
        if decimal::all_digits(signed) {
            decimal::lemma_decimal_bound(signed);
        }
    }
    match decimal::parse_unsigned(chars.as_slice()) {
        Some(n) => Some(n as u32),
        None => None,
    }
}

/// A signed number of seconds in the 64 bits of an unsigned one.
fn to_u64(seconds: i64) -> (bits: u64)
    ensures
        bits == in_u64(seconds),
{
    if seconds < 0 {
        // i64::MIN has no positive counterpart, but its neighbour does.
        u64::MAX - (-(seconds + 1)) as u64
    } else {
        seconds as u64
    }
}

/// Reads a date of at least fourteen bytes, without `D:` before it.
pub fn read_timestamp(s: &[u8]) -> (timestamp: Option<u64>)
    ensures
        timestamp == timestamp_of(s@),
{
    if s.len() < 14 {
        return None;
    }
    match (
        read_year(s),
        read_pair(s, 4),
        read_pair(s, 6),
        read_pair(s, 8),
        read_pair(s, 10),
        read_pair(s, 12),
    ) {
        (Some(year), Some(month), Some(day), Some(hour), Some(minute), Some(second)) => {
            match utc_timestamp(year, month, day, hour, minute, second) {
                Some(t) => Some(to_u64(t)),
                None => None,
            }
        },
        _ => None,
    }
}

/// The rest of `s` after any number of `D:`.
fn skip_marks(s: &[u8]) -> (rest: &[u8])
    ensures
        rest@ == fully_unmarked(s@),
{
    let total: usize = s.len();
    let mut from: usize = 0;
    assert(s@.skip(0) =~= s@);
    while total - from >= 2 && s[from] == 'D' as u8 && s[from + 1] == ':' as u8
        invariant
            from <= total,
            total == s@.len(),
            fully_unmarked(s@) == fully_unmarked(s@.skip(from as int)),
        decreases total - from,
    {
        assert(s@.skip(from as int).skip(2) =~= s@.skip(from + 2));
        from = from + 2;
    }
    assert(s@.subrange(from as int, total as int) =~= s@.skip(from as int));
    &s[from..total]
}

/// Reads a PDF date as text, with any number of `D:` before it.
pub fn parse_pdf_date(s: &[u8]) -> (timestamp: Option<u64>)
    requires
        is_cuttable(s@),
    ensures
        timestamp == text_timestamp(s@),
{
    match text::utf8_text(s) {
        Some(_) => read_timestamp(skip_marks(s)),
        None => None,
    }
}

/// Whether a date can be cut into its fields between characters.
pub fn can_cut(s: &[u8]) -> (yes: bool)
    ensures
        yes == is_cuttable(s@),
{
    if text::utf8_text(s).is_none() {
        return true;
    }
    let rest: &[u8] = skip_marks(s);
    if rest.len() < 14 {
        return true;
    }
    let mut k: usize = 0;
    while k < 6
        invariant
            k <= 6,
            rest@.len() >= 14,
            vstd::utf8::valid_utf8(s@),
            rest@ == fully_unmarked(s@),
            forall|j: int| 0 <= j < k ==> #[trigger] field_is_number(rest@, j),
            forall|j: int| 0 <= j < k ==> #[trigger] on_boundary(rest@, 2 * j + 4),
        decreases 6 - k,
    {
        let at: usize = 2 * k + 4;
        if at < rest.len() && rest[at] >= 0x80 && rest[at] < 0xc0 {
            assert(vstd::utf8::is_continuation_byte(rest@[at as int]));
            assert(!on_boundary(rest@, 2 * k + 4));
            return false;
        }
        assert(on_boundary(rest@, 2 * k + 4));
        let number: bool = if k == 0 {
            read_year(rest).is_some()
        } else {
            read_pair(rest, 2 * k + 2).is_some()
        };
        if !number {
            assert(!field_is_number(rest@, k as int));
            return true;
        }
        assert(field_is_number(rest@, k as int));
        k = k + 1;
    }
    true
}

/// The day after a day of the calendar.
pub open spec fn next_day(year: int, month: int, day: int) -> (int, int, int) {
    if day < days_in_month(year, month) {
        (year, month, day + 1)
    } else if month < 12 {
        (year, month + 1, 1)
    } else {
        (year + 1, 1, 1)
    }
}

proof fn lemma_year_length(year: int)
    ensures
        days_before_month(year, 12) + 31 == if is_leap_year(year) {
            366int
        } else {
            365
        },
        days_before_year(year + 1) - days_before_year(year) == if is_leap_year(year) {
            366int
        } else {
            365
        },
{
    reveal_with_fuel(days_before_month, 12);
}

/// Timestamps follow the calendar: each day begins where the day before it ends, over the ends of
/// months and years, too.
pub proof fn law_days_follow_each_other(
    year: int,
    month: int,
    day: int,
    hour: int,
    minute: int,
    second: int,
)
    requires
        is_date(year, month, day),
    ensures
        ({
            let (y, m, d) = next_day(year, month, day);
            &&& is_date(y, m, d)
            &&& unix_seconds(y, m, d, hour, minute, second) == unix_seconds(
                year,
                month,
                day,
                hour,
                minute,
                second,
            ) + 24 * 60 * 60
        }),
{
    if day == days_in_month(year, month) && month == 12 {
        lemma_year_length(year);
    }
}

/// The epoch is the first of January 1970.
pub proof fn law_epoch()
    ensures
        civil_timestamp(1970, 1, 1, 0, 0, 0) == Some(0i64),
{
}

} // verus!
