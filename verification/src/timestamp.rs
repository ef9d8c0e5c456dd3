use vstd::prelude::*;

use crate::error::{Error, ErrorKind};

verus! {

/// A local-naive date and time, stored exactly as the remote service
/// reports it: no timezone, no fractional seconds.
#[derive(Clone, Copy, PartialEq, Eq, Structural, Debug)]
pub struct Timestamp {
    pub year: u16,
    pub month: u8,
    pub day: u8,
    pub hour: u8,
    pub minute: u8,
    pub second: u8,
}

/// Whether `y` is a leap year of the proleptic Gregorian calendar.
pub open spec fn spec_is_leap_year(y: int) -> bool {
    y % 4 == 0 && (y % 100 != 0 || y % 400 == 0)
}

/// How many days month `m` of year `y` has.
pub open spec fn spec_days_in_month(y: int, m: int) -> int {
    if m == 2 {
        if spec_is_leap_year(y) {
            29
        } else {
            28
        }
    } else if m == 4 || m == 6 || m == 9 || m == 11 {
        30
    } else {
        31
    }
}

/// A well-formed timestamp: every field within its calendar range.
/// The year is limited to four digits by the wire format.
pub open spec fn timestamp_wf(t: Timestamp) -> bool {
    &&& t.year <= 9999
    &&& 1 <= t.month <= 12
    &&& 1 <= t.day <= spec_days_in_month(t.year as int, t.month as int)
    &&& t.hour <= 23
    &&& t.minute <= 59
    &&& t.second <= 59
}

/// Whether `c` is an ASCII decimal digit.
pub open spec fn spec_is_digit(c: char) -> bool {
    '0' <= c && c <= '9'
}

/// The numeric value of the ASCII digit `c`.
pub open spec fn spec_digit_val(c: char) -> int {
    c as int - '0' as int
}

/// Whether `s` has the exact shape `YYYY-MM-DD HH:MM:SS`: nineteen
/// characters, digits and separators at fixed positions.
pub open spec fn timestamp_shape_ok(s: Seq<char>) -> bool {
    &&& s.len() == 19
    &&& spec_is_digit(s[0]) && spec_is_digit(s[1]) && spec_is_digit(s[2]) && spec_is_digit(s[3])
    &&& s[4] == '-'
    &&& spec_is_digit(s[5]) && spec_is_digit(s[6])
    &&& s[7] == '-'
    &&& spec_is_digit(s[8]) && spec_is_digit(s[9])
    &&& s[10] == ' '
    &&& spec_is_digit(s[11]) && spec_is_digit(s[12])
    &&& s[13] == ':'
    &&& spec_is_digit(s[14]) && spec_is_digit(s[15])
    &&& s[16] == ':'
    &&& spec_is_digit(s[17]) && spec_is_digit(s[18])
}

/// The timestamp spelled by a string of the right shape, before any
/// range check.
pub open spec fn spec_timestamp_fields(s: Seq<char>) -> Timestamp {
    Timestamp {
        year: (spec_digit_val(s[0]) * 1000 + spec_digit_val(s[1]) * 100 + spec_digit_val(s[2])
            * 10 + spec_digit_val(s[3])) as u16,
        month: (spec_digit_val(s[5]) * 10 + spec_digit_val(s[6])) as u8,
        day: (spec_digit_val(s[8]) * 10 + spec_digit_val(s[9])) as u8,
        hour: (spec_digit_val(s[11]) * 10 + spec_digit_val(s[12])) as u8,
        minute: (spec_digit_val(s[14]) * 10 + spec_digit_val(s[15])) as u8,
        second: (spec_digit_val(s[17]) * 10 + spec_digit_val(s[18])) as u8,
    }
}

/// What parsing a date string yields: the spelled timestamp when the
/// shape is exact and every field is in range, nothing otherwise.
pub open spec fn spec_parse_timestamp(s: Seq<char>) -> Option<Timestamp> {
    if timestamp_shape_ok(s) && timestamp_wf(spec_timestamp_fields(s)) {
        Some(spec_timestamp_fields(s))
    } else {
        None
    }
}

/// Reads one ASCII digit out of `s` at position `i`.
fn read_digit(s: &str, i: usize) -> (r: Option<u16>)
    requires
        i < s@.len(),
    ensures
        match r {
            Some(v) => spec_is_digit(s@[i as int]) && v == spec_digit_val(s@[i as int]),
            None => !spec_is_digit(s@[i as int]),
        },
{
    let c = s.get_char(i);
    if '0' <= c && c <= '9' {
        Some(c as u16 - '0' as u16)
    } else {
        None
    }
}

/// Checks that `s` holds the separator `sep` at position `i`.
fn check_sep(s: &str, i: usize, sep: char) -> (r: bool)
    requires
        i < s@.len(),
    ensures
        r == (s@[i as int] == sep),
{
    s.get_char(i) == sep
}

/// Reads the two-digit field at positions `i`, `i + 1`.
fn read_two(s: &str, i: usize) -> (r: Option<u8>)
    requires
        i + 1 < s@.len(),
        i + 1 < usize::MAX,
    ensures
        match r {
            Some(v) => spec_is_digit(s@[i as int]) && spec_is_digit(s@[i + 1]) && v
                == spec_digit_val(s@[i as int]) * 10 + spec_digit_val(s@[i + 1]),
            None => !(spec_is_digit(s@[i as int]) && spec_is_digit(s@[i + 1])),
        },
{
    match (read_digit(s, i), read_digit(s, i + 1)) {
        (Some(a), Some(b)) => Some((a * 10 + b) as u8),
        _ => None,
    }
}

/// How many days the given month has, executably.
pub fn days_in_month(year: u16, month: u8) -> (r: u8)
    ensures
        r == spec_days_in_month(year as int, month as int),
{
    if month == 2 {
        if year % 4 == 0 && (year % 100 != 0 || year % 400 == 0) {
            29
        } else {
            28
        }
    } else if month == 4 || month == 6 || month == 9 || month == 11 {
        30
    } else {
        31
    }
}

/// The error every malformed date string is reported with.
fn malformed() -> (e: Error)
    ensures
        e.spec_kind() == ErrorKind::MalformedTimestamp,
{
    Error::new(ErrorKind::MalformedTimestamp, "date string deviates from YYYY-MM-DD HH:MM:SS")
}

/// Parses a date string of the exact format `YYYY-MM-DD HH:MM:SS`.
///
/// Succeeds exactly on the strings `spec_parse_timestamp` accepts, and
/// then returns the spelled timestamp; any deviation in shape or any
/// out-of-range field is `MalformedTimestamp`.
pub fn parse_timestamp(s: &str) -> (r: Result<Timestamp, Error>)
    ensures
        match r {
            Ok(t) => spec_parse_timestamp(s@) == Some(t) && timestamp_wf(t),
            Err(e) => spec_parse_timestamp(s@) is None && e.spec_kind()
                == ErrorKind::MalformedTimestamp,
        },
{
    let n = s.unicode_len();
    if n != 19 {
        return Err(malformed());
    }
    let y0 = read_digit(s, 0);
    let y1 = read_digit(s, 1);
    let y2 = read_digit(s, 2);
    let y3 = read_digit(s, 3);
    let (y0, y1, y2, y3) = match (y0, y1, y2, y3) {
        (Some(a), Some(b), Some(c), Some(d)) => (a, b, c, d),
        _ => { return Err(malformed()); },
    };
    if !(check_sep(s, 4, '-') && check_sep(s, 7, '-') && check_sep(s, 10, ' ') && check_sep(
        s,
        13,
        ':',
    ) && check_sep(s, 16, ':')) {
        return Err(malformed());
    }
    let month = match read_two(s, 5) {
        Some(v) => v,
        None => { return Err(malformed()); },
    };
    let day = match read_two(s, 8) {
        Some(v) => v,
        None => { return Err(malformed()); },
    };
    let hour = match read_two(s, 11) {
        Some(v) => v,
        None => { return Err(malformed()); },
    };
    let minute = match read_two(s, 14) {
        Some(v) => v,
        None => { return Err(malformed()); },
    };
    let second = match read_two(s, 17) {
        Some(v) => v,
        None => { return Err(malformed()); },
    };
    let year = y0 * 1000 + y1 * 100 + y2 * 10 + y3;
    let t = Timestamp { year, month, day, hour, minute, second };
    assert(timestamp_shape_ok(s@));
    assert(t == spec_timestamp_fields(s@));
    if month < 1 || month > 12 {
        return Err(malformed());
    }
    if day < 1 || day > days_in_month(year, month) {
        return Err(malformed());
    }
    if hour > 23 || minute > 59 || second > 59 {
        return Err(malformed());
    }
    Ok(t)
}

} // verus!
