use chrono::{Datelike, NaiveDate, NaiveDateTime, Offset, Timelike};
use chrono_tz::Europe::Stockholm;
use vstd::prelude::*;
use vstd::string::StrSliceExecFns;

verus! {

/// Whether `year` is a leap year of the proleptic Gregorian calendar.
pub open spec fn is_leap_year(year: int) -> bool {
    (year % 4 == 0 && year % 100 != 0) || year % 400 == 0
}

/// The number of days in `month` (1 to 12) of `year`.
pub open spec fn days_in_month(year: int, month: int) -> int {
    if month == 2 {
        if is_leap_year(year) {
            29
        } else {
            28
        }
    } else if month == 4 || month == 6 || month == 9 || month == 11 {
        30
    } else {
        31
    }
}

/// Whether `(year, month, day)` names a day of the calendar.
pub open spec fn valid_date(year: int, month: int, day: int) -> bool {
    1 <= month <= 12 && 1 <= day <= days_in_month(year, month)
}

/// A day of the calendar, without a time of day or a time zone.
#[derive(Clone, Copy, Debug, PartialEq, Eq, Structural)]
pub struct CalendarDate {
    pub year: i32,
    pub month: u32,
    pub day: u32,
}

impl CalendarDate {
    pub open spec fn wf(self) -> bool {
        valid_date(self.year as int, self.month as int, self.day as int)
    }
}

/// A wall-clock date and time with no UTC offset attached, to the second.
#[derive(Clone, Copy, Debug, PartialEq, Eq, Structural)]
pub struct LocalDateTime {
    pub year: i32,
    pub month: u32,
    pub day: u32,
    pub hour: u32,
    pub minute: u32,
    pub second: u32,
}

impl LocalDateTime {
    pub open spec fn wf(self) -> bool {
        &&& valid_date(self.year as int, self.month as int, self.day as int)
        &&& self.hour < 24
        &&& self.minute < 60
        &&& self.second < 60
    }
}

/// The value of the decimal digit `c`.
pub open spec fn digit_value(c: char) -> int {
    c as int - '0' as int
}

pub open spec fn is_digit(c: char) -> bool {
    '0' <= c <= '9'
}

/// The character of the decimal digit `d` (0 to 9).
pub open spec fn digit_char(d: int) -> char {
    (d + '0' as int) as char
}

/// The number written by the decimal digits `s[from..from + n]`.
pub open spec fn number_at(s: Seq<char>, from: int, n: nat) -> int
    decreases n,
{
    if n == 0 {
        0
    } else {
        10 * number_at(s, from, (n - 1) as nat) + digit_value(s[from + n - 1])
    }
}

/// Whether `s[from..from + n]` are all decimal digits.
pub open spec fn digits_at(s: Seq<char>, from: int, n: int) -> bool {
    forall|i: int| from <= i < from + n ==> is_digit(#[trigger] s[i])
}

/// Whether `s` has the shape `YYYY-MM-DDTHH:MM:SS`, digits and separators in place.
pub open spec fn date_time_shape(s: Seq<char>) -> bool {
    &&& s.len() == 19
    &&& digits_at(s, 0, 4) && s[4] == '-' && digits_at(s, 5, 2) && s[7] == '-'
    &&& digits_at(s, 8, 2) && s[10] == 'T' && digits_at(s, 11, 2) && s[13] == ':'
    &&& digits_at(s, 14, 2) && s[16] == ':' && digits_at(s, 17, 2)
}

/// The fields that the text `YYYY-MM-DDTHH:MM:SS` writes.
pub open spec fn date_time_fields(s: Seq<char>) -> LocalDateTime {
    LocalDateTime {
        year: number_at(s, 0, 4) as i32,
        month: number_at(s, 5, 2) as u32,
        day: number_at(s, 8, 2) as u32,
        hour: number_at(s, 11, 2) as u32,
        minute: number_at(s, 14, 2) as u32,
        second: number_at(s, 17, 2) as u32,
    }
}

/// Whether `s` is the text `YYYY-MM-DDTHH:MM:SS` of a valid date and time.
pub open spec fn canonical_date_time(s: Seq<char>) -> bool {
    date_time_shape(s) && date_time_fields(s).wf()
}

/// Reads the naive local timestamp `YYYY-MM-DDTHH:MM:SS` of a quote.
///
/// Relies on chrono's `NaiveDateTime::parse_from_str` with the format
/// `%Y-%m-%dT%H:%M:%S`: a canonical text of a valid date and time is read as
/// written, and anything it returns is a valid date and time.
#[verifier::external_body]
pub(crate) fn parse_naive_date_time(s: &str) -> (r: Option<LocalDateTime>)
    ensures
        r matches Some(t) ==> t.wf(),
        canonical_date_time(s@) ==> r == Some(date_time_fields(s@)),
{
    let t = NaiveDateTime::parse_from_str(s, "%Y-%m-%dT%H:%M:%S").ok()?;
    Some(LocalDateTime {
        year: t.year(),
        month: t.month(),
        day: t.day(),
        hour: t.hour(),
        minute: t.minute(),
        second: t.second(),
    })
}

} // verus!

verus! {

/// The UTC offset, in seconds, of the single instant at which the Stockholm wall
/// clock shows the given date and time; `None` where that wall-clock time is
/// skipped or repeated by a daylight-saving change, or cannot be represented.
pub uninterp spec fn stockholm_offset(
    year: int,
    month: int,
    day: int,
    hour: int,
    minute: int,
    second: int,
) -> Option<int>;

/// Whether chrono can represent a date of `year`.
pub open spec fn chrono_year(year: int) -> bool {
    -262_143 <= year <= 262_142
}

/// The number of days from 1970-01-01 to a date of the proleptic Gregorian
/// calendar.
pub open spec fn days_from_civil(year: int, month: int, day: int) -> int {
    let y = if month <= 2 {
        year - 1
    } else {
        year
    };
    let mp = (month + 9) % 12;
    365 * y + y / 4 - y / 100 + y / 400 + (153 * mp + 2) / 5 + day - 1 - 719_468
}

/// The day of the week of a date, counted from Monday as 0 (1970-01-01 was a
/// Thursday).
pub open spec fn weekday_of(year: int, month: int, day: int) -> int {
    (days_from_civil(year, month, day) + 3) % 7
}

/// The offset that `stockholm_offset` gives for `t`.
pub open spec fn offset_of(t: LocalDateTime) -> Option<int> {
    stockholm_offset(
        t.year as int,
        t.month as int,
        t.day as int,
        t.hour as int,
        t.minute as int,
        t.second as int,
    )
}

/// Relies on chrono's `NaiveDateTime::and_local_timezone` with chrono-tz's
/// `Europe::Stockholm` and on `MappedLocalTime::single`: the offset of the one
/// instant that the wall-clock time maps to, or `None` in a gap or a fold.
#[verifier::external_body]
fn stockholm_utc_offset(t: &LocalDateTime) -> (r: Option<i32>)
    ensures
        match r {
            Some(o) => stockholm_offset(
                t.year as int,
                t.month as int,
                t.day as int,
                t.hour as int,
                t.minute as int,
                t.second as int,
            ) == Some(o as int),
            None => stockholm_offset(
                t.year as int,
                t.month as int,
                t.day as int,
                t.hour as int,
                t.minute as int,
                t.second as int,
            ) is None,
        },
{
    let date = NaiveDate::from_ymd_opt(t.year, t.month, t.day)?;
    let naive = date.and_hms_opt(t.hour, t.minute, t.second)?;
    let zoned = naive.and_local_timezone(Stockholm).single()?;
    Some(zoned.offset().fix().local_minus_utc())
}

/// Relies on chrono's `NaiveDate::from_ymd_opt`, which gives a date for a valid
/// day of a year in its range, and on `Datelike::weekday` with
/// `Weekday::num_days_from_monday`, which counts Monday as 0 and Sunday as 6.
#[verifier::external_body]
fn weekday_index(year: i32, month: u32, day: u32) -> (r: Option<u32>)
    ensures
        match r {
            Some(w) => valid_date(year as int, month as int, day as int) && chrono_year(
                year as int,
            ) && w == weekday_of(year as int, month as int, day as int),
            None => !(valid_date(year as int, month as int, day as int) && chrono_year(
                year as int,
            )),
        },
{
    let date = NaiveDate::from_ymd_opt(year, month, day)?;
    Some(date.weekday().num_days_from_monday())
}

/// A wall-clock time resolved to a single instant in the Stockholm time zone.
#[derive(Clone, Copy, Debug, PartialEq, Eq, Structural)]
pub struct ZonedTime {
    /// The wall-clock date and time in Stockholm.
    pub local: LocalDateTime,
    /// Seconds east of UTC at that instant.
    pub utc_offset_seconds: i32,
    /// The day of the week of the local date, Monday being 0 and Sunday 6.
    pub weekday: u32,
}

impl ZonedTime {
    pub open spec fn wf(self) -> bool {
        &&& self.local.wf()
        &&& self.weekday == weekday_of(
            self.local.year as int,
            self.local.month as int,
            self.local.day as int,
        )
    }

    /// What resolving the wall-clock time `t` in Stockholm gives.
    pub open spec fn spec_resolve(t: LocalDateTime) -> Option<ZonedTime> {
        match offset_of(t) {
            Some(o) => if chrono_year(t.year as int) {
                Some(
                    ZonedTime {
                        local: t,
                        utc_offset_seconds: o as i32,
                        weekday: weekday_of(t.year as int, t.month as int, t.day as int) as u32,
                    },
                )
            } else {
                None
            },
            None => None,
        }
    }

    /// Resolves the wall-clock time `t` in Stockholm; `None` where it is skipped or
    /// repeated by a daylight-saving change, so that no single instant is meant.
    pub fn resolve(t: LocalDateTime) -> (r: Option<ZonedTime>)
        requires
            t.wf(),
        ensures
            r == ZonedTime::spec_resolve(t),
            r matches Some(z) ==> z.wf(),
    {
        let offset = stockholm_utc_offset(&t);
        match offset {
            None => None,
            Some(o) => match weekday_index(t.year, t.month, t.day) {
                None => None,
                Some(w) => Some(ZonedTime { local: t, utc_offset_seconds: o, weekday: w }),
            },
        }
    }

    /// The hour of the wall-clock time.
    pub fn hour(&self) -> (r: u32)
        ensures
            r == self.local.hour,
    {
        self.local.hour
    }
}

/// The two-digit text of `n` (0 to 99).
pub open spec fn two_digits(n: int) -> Seq<char> {
    seq![digit_char(n / 10), digit_char(n % 10)]
}

/// The four-digit text of `n` (0 to 9999).
pub open spec fn four_digits(n: int) -> Seq<char> {
    two_digits(n / 100) + two_digits(n % 100)
}

/// The text `DD-MM-YYYY` of a date.
pub open spec fn day_month_year(d: CalendarDate) -> Seq<char> {
    two_digits(d.day as int) + seq!['-'] + two_digits(d.month as int) + seq!['-']
        + four_digits(d.year as int)
}

/// Relies on chrono's `NaiveDate::format` with `%d-%m-%Y`: two-digit day and
/// month, and the year zero-padded to four digits where it lies in 0 to 9999.
#[verifier::external_body]
pub(crate) fn format_day_month_year(d: &CalendarDate) -> (r: String)
    ensures
        d.wf() && 0 <= d.year <= 9999 ==> r@ == day_month_year(*d),
{
    NaiveDate::from_ymd_opt(d.year, d.month, d.day)
        .map(|date| date.format("%d-%m-%Y").to_string())
        .unwrap_or_default()
}

/// What the text `YYYY-MM-DDTHH:MM:SS` holds at position `k`: a separator or a digit.
pub open spec fn shape_char_ok(s: Seq<char>, k: int) -> bool {
    if k == 4 || k == 7 {
        s[k] == '-'
    } else if k == 10 {
        s[k] == 'T'
    } else if k == 13 || k == 16 {
        s[k] == ':'
    } else {
        is_digit(s[k])
    }
}

/// The number written by the digits `s[from..from + n]`.
fn read_number(s: &str, from: usize, n: usize) -> (r: u32)
    requires
        n <= 4,
        from + n <= s@.len() <= 19,
        digits_at(s@, from as int, n as int),
    ensures
        r == number_at(s@, from as int, n as nat),
{
    let mut r: u32 = 0;
    let mut i: usize = 0;
    while i < n
        invariant
            i <= n <= 4,
            from + n <= s@.len() <= 19,
            digits_at(s@, from as int, n as int),
            r == number_at(s@, from as int, i as nat),
            r < 10_000,
        decreases n - i,
    {
        let c = s.get_char(from + i);
        assert(is_digit(s@[from + i]));
        proof {
            assert(number_at(s@, from as int, (i + 1) as nat) == 10 * number_at(
                s@,
                from as int,
                i as nat,
            ) + digit_value(s@[from + i]));
        }
        assert(r < 1000) by {
            lemma_number_small(s@, from as int, i as nat);
        }
        r = 10 * r + (c as u32 - '0' as u32);
        i = i + 1;
    }
    r
}

proof fn lemma_number_small(s: Seq<char>, from: int, n: nat)
    requires
        n <= 3,
        digits_at(s, from, n as int),
    ensures
        0 <= number_at(s, from, n),
        n == 0 ==> number_at(s, from, n) == 0,
        n == 1 ==> number_at(s, from, n) < 10,
        n == 2 ==> number_at(s, from, n) < 100,
        n == 3 ==> number_at(s, from, n) < 1000,
    decreases n,
{
    if n > 0 {
        lemma_number_small(s, from, (n - 1) as nat);
        assert(is_digit(s[from + n - 1]));
    }
}

/// The number of days in `month` (1 to 12) of `year`.
fn month_length(year: i32, month: u32) -> (r: u32)
    requires
        1 <= month <= 12,
    ensures
        r == days_in_month(year as int, month as int),
{
    if month == 2 {
        if (year % 4 == 0 && year % 100 != 0) || year % 400 == 0 {
            29
        } else {
            28
        }
    } else if month == 4 || month == 6 || month == 9 || month == 11 {
        30
    } else {
        31
    }
}

/// Whether `s` is exactly `YYYY-MM-DDTHH:MM:SS`, zero-padded, of a valid date and
/// time, with nothing before or after it.
pub fn is_canonical_date_time(s: &str) -> (r: bool)
    ensures
        r == canonical_date_time(s@),
{
    let n = s.unicode_len();
    if n != 19 {
        return false;
    }
    let mut k: usize = 0;
    while k < 19
        invariant
            k <= 19 == n == s@.len(),
            forall|j: int| 0 <= j < k ==> shape_char_ok(s@, j),
        decreases 19 - k,
    {
        let c = s.get_char(k);
        let ok = if k == 4 || k == 7 {
            c == '-'
        } else if k == 10 {
            c == 'T'
        } else if k == 13 || k == 16 {
            c == ':'
        } else {
            '0' <= c && c <= '9'
        };
        if !ok {
            assert(!shape_char_ok(s@, k as int));
            assert(!date_time_shape(s@)) by {
                if date_time_shape(s@) {
                    assert(shape_char_ok(s@, k as int));
                }
            }
            return false;
        }
        k = k + 1;
    }
    assert(date_time_shape(s@)) by {
        assert(shape_char_ok(s@, 4) && shape_char_ok(s@, 7) && shape_char_ok(s@, 10));
        assert(shape_char_ok(s@, 13) && shape_char_ok(s@, 16));
        assert forall|i: int| 0 <= i < 4 implies is_digit(#[trigger] s@[i]) by {
            assert(shape_char_ok(s@, i));
        }
        assert forall|i: int| 5 <= i < 7 implies is_digit(#[trigger] s@[i]) by {
            assert(shape_char_ok(s@, i));
        }
        assert forall|i: int| 8 <= i < 10 implies is_digit(#[trigger] s@[i]) by {
            assert(shape_char_ok(s@, i));
        }
        assert forall|i: int| 11 <= i < 13 implies is_digit(#[trigger] s@[i]) by {
            assert(shape_char_ok(s@, i));
        }
        assert forall|i: int| 14 <= i < 16 implies is_digit(#[trigger] s@[i]) by {
            assert(shape_char_ok(s@, i));
        }
        assert forall|i: int| 17 <= i < 19 implies is_digit(#[trigger] s@[i]) by {
            assert(shape_char_ok(s@, i));
        }
    }
    let year = read_number(s, 0, 4);
    let month = read_number(s, 5, 2);
    let day = read_number(s, 8, 2);
    let hour = read_number(s, 11, 2);
    let minute = read_number(s, 14, 2);
    let second = read_number(s, 17, 2);
    if month < 1 || month > 12 || hour >= 24 || minute >= 60 || second >= 60 {
        return false;
    }
    let y = year as i32;
    day >= 1 && day <= month_length(y, month)
}

} // verus!
