//! Points in time, and how they are written.

use crate::text::digit;
use crate::escape::is_plain;
use vstd::prelude::*;

verus! {

/// How a date and time of day are written, in the notation of `strftime`.
pub const DATE_AND_TIME: &'static str = "%Y-%m-%d %H:%M:%S";

/// How a date and time of day are written with their time zone.
pub const DATE_AND_TIME_UTC: &'static str = "%Y-%m-%d %H:%M:%S UTC";

/// A point in time, by its distance from the Unix epoch.
#[derive(Clone, Copy, Debug)]
pub enum Timestamp {
    /// The epoch itself, or a point after it.
    Since { seconds: u64, nanos: u32 },
    /// A point before the epoch.
    Before { seconds: u64, nanos: u32 },
}

fn span(seconds: u64, nanos: u32) -> (n: i128)
    ensures
        n == seconds * 1_000_000_000 + nanos,
{
    seconds as i128 * 1_000_000_000 + nanos as i128
}

impl Timestamp {
    /// The nanoseconds from the epoch to this point; negative before the epoch.
    pub open spec fn nanos(self) -> int {
        match self {
            Timestamp::Since { seconds, nanos } => seconds * 1_000_000_000 + nanos,
            Timestamp::Before { seconds, nanos } => -(seconds * 1_000_000_000 + nanos),
        }
    }

    fn signed_nanos(&self) -> (n: i128)
        ensures
            n == self.nanos(),
    {
        match *self {
            Timestamp::Since { seconds, nanos } => span(seconds, nanos),
            Timestamp::Before { seconds, nanos } => -span(seconds, nanos),
        }
    }

    /// Whether this point comes before `other`.
    pub fn is_before(&self, other: &Timestamp) -> (yes: bool)
        ensures
            yes == (self.nanos() < other.nanos()),
            match (*self, *other) {
                (
                    Timestamp::Since { seconds: s, nanos: n },
                    Timestamp::Since { seconds: t, nanos: m },
                ) => n < 1_000_000_000 && m < 1_000_000_000 ==> yes == (s < t || (s == t && n < m)),
                _ => true,
            },
    {
        self.signed_nanos() < other.signed_nanos()
    }
}

/// Whether the year `y` of the Gregorian calendar has 366 days.
pub open spec fn is_leap_year(y: int) -> bool {
    y % 4 == 0 && (y % 100 != 0 || y % 400 == 0)
}

/// The days of the month `m` in the year `y`.
pub open spec fn days_in_month(y: int, m: int) -> int {
    if m == 2 {
        if is_leap_year(y) {
            29
        } else {
            28
        }
    } else if m == 4 || m == 6 || m == 9 || m == 11 {
        30
    } else {
        31
    }
}

/// The days from 1970-01-01 to the first day of the month `m` in the year `y`.
pub open spec fn days_to_month(y: int, m: int) -> int
    decreases y, m,
{
    if m > 1 {
        days_to_month(y, m - 1) + days_in_month(y, m - 1)
    } else if y > 1970 {
        days_to_month(y - 1, 12) + 31
    } else {
        0
    }
}

/// A number below one hundred as two numerals.
pub open spec fn two_digits(n: int) -> Seq<char> {
    seq![digit(n / 10), digit(n % 10)]
}

/// Whether the day and time of day that `text` gives as `YYYY-MM-DD hh:mm:ss` is the one
/// which begins `seconds` seconds after 1970-01-01 00:00:00.
pub open spec fn is_date_and_time(seconds: int, text: Seq<char>) -> bool {
    exists|y: int, m: int, d: int, hour: int, minute: int, second: int|
        {
            &&& 1970 <= y <= 9999
            &&& 1 <= m <= 12
            &&& 1 <= d <= days_in_month(y, m)
            &&& 0 <= hour < 24
            &&& 0 <= minute < 60
            &&& 0 <= second < 60
            &&& seconds == (((days_to_month(y, m) + d - 1) * 24 + hour) * 60 + minute) * 60 + second
            &&& text == #[trigger] date_and_time_text(y, m, d, hour, minute, second)
        }
}

/// A day and time of day, written out.
pub open spec fn date_and_time_text(
    y: int,
    m: int,
    d: int,
    hour: int,
    minute: int,
    second: int,
) -> Seq<char> {
    two_digits(y / 100) + two_digits(y % 100) + seq!['-'] + two_digits(m) + seq!['-'] + two_digits(
        d,
    ) + seq![' '] + two_digits(hour) + seq![':'] + two_digits(minute) + seq![':'] + two_digits(
        second,
    )
}

/// Whether `text` gives, in that way and followed by the time zone, the day and time of day
/// which begins `seconds` seconds after 1970-01-01 00:00:00.
pub open spec fn is_date_and_time_utc(seconds: int, text: Seq<char>) -> bool {
    exists|day: Seq<char>| #[trigger] is_date_and_time(seconds, day) && text == day + " UTC"@
}

/// The point `seconds` seconds after the epoch, written in UTC as `format` says.
pub uninterp spec fn utc_text(seconds: i64, format: Seq<char>) -> Seq<char>;

/// The first second of the year 10000.
pub const YEAR_10000: i64 = 253_402_300_800;

/// The first second that the calendar covers.
pub const FIRST_SECOND: i64 = -8_334_601_228_800;

/// The last second that the calendar covers.
pub const LAST_SECOND: i64 = 8_210_266_876_799;

/// `chrono::DateTime::from_timestamp` and `DateTime::format`: the point in time as text,
/// where the calendar covers it. For the years 1970 to 9999 this is the day and time of day
/// in the Gregorian calendar, followed by the time zone where the format ends with it.
/// Either format holds only specifiers that `format` knows, so that the text can be written.
/// Digits, signs, colons, spaces and the letters of the time zone make up the text, so it
/// holds no character that is reserved in HTML.
#[verifier::external_body]
pub(crate) fn utc_date_and_time(seconds: i64, format: &str) -> (res: Option<String>)
    requires
        format@ == DATE_AND_TIME@ || format@ == DATE_AND_TIME_UTC@,
    ensures
        res is Some <==> FIRST_SECOND <= seconds <= LAST_SECOND,
        match res {
            Some(text) => {
                &&& text@ == utc_text(seconds, format@)
                &&& is_plain(text@)
                &&& 0 <= seconds < YEAR_10000 && format@ == DATE_AND_TIME@ ==> is_date_and_time(
                    seconds as int,
                    text@,
                )
                &&& format@ == DATE_AND_TIME_UTC@ ==> text@ == utc_text(seconds, DATE_AND_TIME@)
                    + " UTC"@
                &&& 0 <= seconds < YEAR_10000 && format@ == DATE_AND_TIME_UTC@
                    ==> is_date_and_time_utc(seconds as int, text@)
            },
            None => true,
        },
{
    Some(chrono::DateTime::from_timestamp(seconds, 0)?.format(format).to_string())
}

/// The point `seconds` seconds after the epoch where the calendar covers it, else the epoch.
pub open spec fn covered(seconds: i64) -> i64 {
    if FIRST_SECOND <= seconds <= LAST_SECOND {
        seconds
    } else {
        0
    }
}

fn covered_text(seconds: i64, format: &str) -> (text: String)
    requires
        format@ == DATE_AND_TIME@ || format@ == DATE_AND_TIME_UTC@,
    ensures
        text@ == utc_text(covered(seconds), format@),
        is_plain(text@),
        0 <= seconds < YEAR_10000 && format@ == DATE_AND_TIME@ ==> is_date_and_time(
            seconds as int,
            text@,
        ),
        format@ == DATE_AND_TIME_UTC@ ==> text@ == utc_text(covered(seconds), DATE_AND_TIME@)
            + " UTC"@,
        0 <= seconds < YEAR_10000 && format@ == DATE_AND_TIME_UTC@ ==> is_date_and_time_utc(
            seconds as int,
            text@,
        ),
{
    match utc_date_and_time(seconds, format) {
        Some(text) => text,
        None => utc_date_and_time(0, format).unwrap(),
    }
}

impl Timestamp {
    /// The point as it is shown: its date and time of day in UTC. A point outside the calendar
    /// is shown as the epoch, and a point before the epoch is not shown.
    pub open spec fn shown(self) -> Option<Seq<char>> {
        match self {
            Timestamp::Since { seconds, .. } => Some(
                utc_text(covered(seconds as i64), DATE_AND_TIME@),
            ),
            Timestamp::Before { .. } => None,
        }
    }

    /// Whether the point, if it lies in the years 1970 to 9999, is shown as its date and time
    /// of day in the calendar.
    pub open spec fn is_shown_by_its_date(self) -> bool {
        match self {
            Timestamp::Since { seconds, .. } => seconds < YEAR_10000 ==> is_date_and_time(
                seconds as int,
                self.shown()->0,
            ),
            Timestamp::Before { .. } => true,
        }
    }

    /// The point as it is shown: its date and time of day in UTC. A point outside the calendar
    /// is shown as the epoch, and a point before the epoch is not shown.
    pub fn shown_text(&self) -> (res: Option<String>)
        ensures
            match res {
                Some(text) => self.shown() == Some(text@) && is_plain(text@),
                None => self.shown() is None,
            },
            self.is_shown_by_its_date(),
    {
        match *self {
            Timestamp::Since { seconds, .. } => Some(
                covered_text(#[verifier::truncate] (seconds as i64), DATE_AND_TIME),
            ),
            Timestamp::Before { .. } => None,
        }
    }
}

/// The point `seconds` seconds after the epoch, with its time zone. A point outside the
/// calendar is shown as the epoch.
pub fn shown_with_zone(seconds: i64) -> (text: String)
    ensures
        text@ == utc_text(covered(seconds), DATE_AND_TIME@) + " UTC"@,
        is_plain(text@),
        0 <= seconds < YEAR_10000 ==> is_date_and_time_utc(seconds as int, text@),
{
    covered_text(seconds, DATE_AND_TIME_UTC)
}

/// Of two points in time since the epoch, the one with fewer whole seconds comes first,
/// whatever the numbers are; at equal seconds, the one with fewer nanoseconds. Before the
/// epoch it is the other way round, and every point before the epoch comes before those since.
pub proof fn law_order_of_times(a: Timestamp, b: Timestamp)
    requires
        a matches Timestamp::Since { nanos, .. } ==> nanos < 1_000_000_000,
        a matches Timestamp::Before { nanos, .. } ==> nanos < 1_000_000_000,
        b matches Timestamp::Since { nanos, .. } ==> nanos < 1_000_000_000,
        b matches Timestamp::Before { nanos, .. } ==> nanos < 1_000_000_000,
    ensures
        match (a, b) {
            (
                Timestamp::Since { seconds: s, nanos: n },
                Timestamp::Since { seconds: t, nanos: m },
            ) => a.nanos() < b.nanos() <==> s < t || (s == t && n < m),
            (
                Timestamp::Before { seconds: s, nanos: n },
                Timestamp::Before { seconds: t, nanos: m },
            ) => a.nanos() < b.nanos() <==> s > t || (s == t && n > m),
            (
                Timestamp::Before { seconds: s, nanos: n },
                Timestamp::Since { seconds: t, nanos: m },
            ) => a.nanos() < b.nanos() <==> s + n + t + m > 0,
            (Timestamp::Since { .. }, Timestamp::Before { .. }) => b.nanos() <= a.nanos(),
        },
{
}

/// A point since the epoch that the calendar covers is shown as its own second in UTC,
/// whatever its nanoseconds are; a later point is shown as the epoch; and a point before the
/// epoch is not shown.
pub proof fn law_time_is_shown_to_the_second(seconds: u64, nanos: u32)
    ensures
        seconds <= 8_210_266_876_799 ==> (Timestamp::Since { seconds, nanos }).shown() == Some(
            utc_text(seconds as i64, "%Y-%m-%d %H:%M:%S"@),
        ),
        8_210_266_876_799 < seconds <= i64::MAX ==> (Timestamp::Since { seconds, nanos }).shown()
            == Some(utc_text(0, "%Y-%m-%d %H:%M:%S"@)),
        (Timestamp::Before { seconds, nanos }).shown() is None,
{
}

/// A second that the calendar covers stands for itself, and any other for the epoch.
pub proof fn law_covered_seconds(seconds: i64)
    ensures
        -8_334_601_228_800 <= seconds <= 8_210_266_876_799 ==> covered(seconds) == seconds,
        seconds < -8_334_601_228_800 || 8_210_266_876_799 < seconds ==> covered(seconds) == 0,
{
}

/// The calendar begins on the first day of 1970. A year has 366 days if its number is a
/// multiple of 4, unless it is a multiple of 100 and not of 400, and 365 days otherwise.
pub proof fn law_days_of_the_years(y: int)
    requires
        y >= 1970,
    ensures
        days_to_month(1970, 1) == 0,
        y % 400 == 0 || (y % 4 == 0 && y % 100 != 0) ==> days_to_month(y + 1, 1) == days_to_month(
            y,
            1,
        ) + 366,
        y % 4 != 0 || (y % 100 == 0 && y % 400 != 0) ==> days_to_month(y + 1, 1) == days_to_month(
            y,
            1,
        ) + 365,
{
    reveal_with_fuel(days_to_month, 14);
}

/// From one month to the next there are the days of the month: 31, but 30 from April, June,
/// September and November, and 28 or 29 from February.
pub proof fn law_days_of_the_months(y: int)
    requires
        y >= 1970,
    ensures
        forall|m: int|
            1 <= m < 12 ==> #[trigger] days_to_month(y, m + 1) == days_to_month(y, m)
                + days_in_month(y, m),
        forall|m: int|
            m == 1 || m == 3 || m == 5 || m == 7 || m == 8 || m == 10 || m == 12 ==> #[trigger]
            days_in_month(y, m) == 31,
        forall|m: int|
            m == 4 || m == 6 || m == 9 || m == 11 ==> #[trigger] days_in_month(y, m) == 30,
        y % 400 == 0 || (y % 4 == 0 && y % 100 != 0) ==> days_in_month(y, 2) == 29,
        y % 4 != 0 || (y % 100 == 0 && y % 400 != 0) ==> days_in_month(y, 2) == 28,
{
}

/// A point in the years 1970 to 9999 is shown by its date.
pub proof fn law_shown_by_its_date(seconds: u64, nanos: u32)
    requires
        (Timestamp::Since { seconds, nanos }).is_shown_by_its_date(),
        seconds < 253_402_300_800,
    ensures
        is_date_and_time(seconds as int, (Timestamp::Since { seconds, nanos }).shown()->0),
{
}

proof fn lemma_two_digits(n: int)
    requires
        0 <= n < 100,
    ensures
        two_digits(n).len() == 2,
        10 * (two_digits(n)[0] as int - 48) + (two_digits(n)[1] as int - 48) == n,
{
}

proof fn lemma_units_of_time(days: int, hour: int, minute: int, second: int)
    requires
        0 <= hour < 24,
        0 <= minute < 60,
        0 <= second < 60,
    ensures
        ({
            let seconds = ((days * 24 + hour) * 60 + minute) * 60 + second;
            &&& seconds / 86400 == days
            &&& seconds / 3600 % 24 == hour
            &&& seconds / 60 % 60 == minute
            &&& seconds % 60 == second
        }),
{
}

proof fn lemma_places_of_the_text(y: int, m: int, d: int, hour: int, minute: int, second: int)
    ensures
        ({
            let text = date_and_time_text(y, m, d, hour, minute, second);
            &&& text.len() == 19
            &&& text[0] == two_digits(y / 100)[0] && text[1] == two_digits(y / 100)[1]
            &&& text[2] == two_digits(y % 100)[0] && text[3] == two_digits(y % 100)[1]
            &&& text[4] == '-'
            &&& text[5] == two_digits(m)[0] && text[6] == two_digits(m)[1]
            &&& text[7] == '-'
            &&& text[8] == two_digits(d)[0] && text[9] == two_digits(d)[1]
            &&& text[10] == ' '
            &&& text[11] == two_digits(hour)[0] && text[12] == two_digits(hour)[1]
            &&& text[13] == ':'
            &&& text[14] == two_digits(minute)[0] && text[15] == two_digits(minute)[1]
            &&& text[16] == ':'
            &&& text[17] == two_digits(second)[0] && text[18] == two_digits(second)[1]
        }),
{
}

/// The text of a date and time of day has nineteen characters. Its first ten give the year, the
/// month and the day, and its last eight the hour, the minute and the second of the day.
pub proof fn law_date_and_time_are_read_back(seconds: int, text: Seq<char>)
    requires
        is_date_and_time(seconds, text),
    ensures
        text.len() == 19,
        text[4] == '-' && text[7] == '-' && text[10] == ' ' && text[13] == ':' && text[16] == ':',
        ({
            let year = 1000 * (text[0] as int - 48) + 100 * (text[1] as int - 48) + 10 * (text[2]
                as int - 48) + (text[3] as int - 48);
            let month = 10 * (text[5] as int - 48) + (text[6] as int - 48);
            let day = 10 * (text[8] as int - 48) + (text[9] as int - 48);
            &&& 1 <= month <= 12
            &&& 1 <= day <= days_in_month(year, month)
            &&& seconds / 86400 == days_to_month(year, month) + day - 1
        }),
        10 * (text[11] as int - 48) + (text[12] as int - 48) == seconds / 3600 % 24,
        10 * (text[14] as int - 48) + (text[15] as int - 48) == seconds / 60 % 60,
        10 * (text[17] as int - 48) + (text[18] as int - 48) == seconds % 60,
{
    let (y, m, d, hour, minute, second) = choose|
        y: int,
        m: int,
        d: int,
        hour: int,
        minute: int,
        second: int,
    |
        {
            &&& 1970 <= y <= 9999
            &&& 1 <= m <= 12
            &&& 1 <= d <= days_in_month(y, m)
            &&& 0 <= hour < 24
            &&& 0 <= minute < 60
            &&& 0 <= second < 60
            &&& seconds == (((days_to_month(y, m) + d - 1) * 24 + hour) * 60 + minute) * 60 + second
            &&& text == #[trigger] date_and_time_text(y, m, d, hour, minute, second)
        };
    lemma_places_of_the_text(y, m, d, hour, minute, second);
    lemma_units_of_time(days_to_month(y, m) + d - 1, hour, minute, second);
    lemma_two_digits(y / 100);
    lemma_two_digits(y % 100);
    lemma_two_digits(m);
    lemma_two_digits(d);
    lemma_two_digits(hour);
    lemma_two_digits(minute);
    lemma_two_digits(second);
}

/// A text with its time zone is that of the date and time of day followed by ` UTC`.
pub proof fn law_time_zone_follows_the_time(seconds: int, text: Seq<char>)
    ensures
        is_date_and_time(seconds, text) ==> is_date_and_time_utc(seconds, text + " UTC"@),
        is_date_and_time_utc(seconds, text) ==> text.len() == 23 && is_date_and_time(
            seconds,
            text.take(19),
        ) && text.skip(19) == " UTC"@,
{
    reveal_strlit(" UTC");
    if is_date_and_time_utc(seconds, text) {
        let day = choose|day: Seq<char>| #[trigger]
            is_date_and_time(seconds, day) && text == day + " UTC"@;
        law_date_and_time_are_read_back(seconds, day);
        assert(text.take(19) =~= day);
        assert(text.skip(19) =~= " UTC"@);
    }
}

} // verus!
