//! Points in time, in UTC.

use vstd::prelude::*;

use crate::order::SortKey;
use crate::text::decimal;

verus! {

/// The first second that a timestamp can hold.
pub const MIN_SECS: i64 = -8_334_601_228_800;

/// The last second that a timestamp can hold.
pub const MAX_SECS: i64 = 8_210_266_876_799;

/// A point in time: whole seconds since the start of 1970 in UTC, and
/// nanoseconds within the second. A leap second is written as the second
/// before it with a thousand million nanoseconds or more.
#[derive(Clone, Copy, Debug, PartialEq, Eq, Hash, Structural)]
pub struct Timestamp {
    secs: i64,
    nanos: u32,
}

/// Whether there is a timestamp of these seconds and nanoseconds.
pub open spec fn is_time(secs: int, nanos: int) -> bool {
    &&& MIN_SECS <= secs <= MAX_SECS
    &&& 0 <= nanos < 2_000_000_000
    &&& nanos >= 1_000_000_000 ==> secs % 60 == 59
}

/// Whether the first point in time is earlier than the second.
pub open spec fn earlier(a: (int, int), b: (int, int)) -> bool {
    a.0 < b.0 || (a.0 == b.0 && a.1 < b.1)
}

impl View for Timestamp {
    type V = (int, int);

    closed spec fn view(&self) -> (int, int) {
        (self.secs as int, self.nanos as int)
    }
}

impl Timestamp {
    #[verifier::type_invariant]
    closed spec fn valid(self) -> bool {
        is_time(self.secs as int, self.nanos as int)
    }

    /// The point in time of these seconds and nanoseconds, where there is one.
    pub fn new(secs: i64, nanos: u32) -> (r: Option<Timestamp>)
        ensures
            match r {
                Some(t) => is_time(secs as int, nanos as int) && t@ == (secs as int, nanos as int),
                None => !is_time(secs as int, nanos as int),
            },
    {
        if secs < MIN_SECS || secs > MAX_SECS || nanos >= 2_000_000_000 {
            return None;
        }
        if nanos >= 1_000_000_000 {
            let r: i64 = secs % 60;
            let m: i64 = if r < 0 {
                r + 60
            } else {
                r
            };
            if m != 59 {
                return None;
            }
        }
        Some(Timestamp { secs, nanos })
    }

    /// The whole seconds since the start of 1970.
    pub fn secs(&self) -> (r: i64)
        ensures
            r == self@.0,
    {
        self.secs
    }

    /// The nanoseconds within the second.
    pub fn nanos(&self) -> (r: u32)
        ensures
            r == self@.1,
    {
        self.nanos
    }
}

/// Two timestamps of the same point in time are equal.
pub proof fn same_time_is_equal(a: Timestamp, b: Timestamp)
    requires
        a@ == b@,
    ensures
        a == b,
{
}

impl SortKey for Timestamp {
    open spec fn before(&self, other: &Self) -> bool {
        earlier(self@, other@)
    }

    proof fn before_is_irreflexive(&self) {
    }

    proof fn before_is_transitive(&self, b: &Self, c: &Self) {
    }

    proof fn not_before_is_transitive(&self, b: &Self, c: &Self) {
    }

    fn is_before(&self, other: &Self) -> bool {
        self.secs < other.secs || (self.secs == other.secs && self.nanos < other.nanos)
    }
}

// ---------------------------------------------------------------------------
// The calendar
// ---------------------------------------------------------------------------

/// The number of leap years from year 1 to year `y`.
pub open spec fn leap_years(y: int) -> int {
    y / 4 - y / 100 + y / 400
}

/// Whether `y` is a leap year.
pub open spec fn is_leap(y: int) -> bool {
    y % 4 == 0 && (y % 100 != 0 || y % 400 == 0)
}

/// The day on which the year `y` begins, where day 0 is the first of 1970.
pub open spec fn year_start(y: int) -> int {
    365 * (y - 1970) + leap_years(y - 1) - leap_years(1969)
}

/// The days of a year, not a leap year, that are before the month `m`, where
/// month 13 is the first month of the next year.
pub open spec fn days_before_month(m: int) -> int {
    if m <= 1 {
        0
    } else if m == 2 {
        31
    } else if m == 3 {
        59
    } else if m == 4 {
        90
    } else if m == 5 {
        120
    } else if m == 6 {
        151
    } else if m == 7 {
        181
    } else if m == 8 {
        212
    } else if m == 9 {
        243
    } else if m == 10 {
        273
    } else if m == 11 {
        304
    } else if m == 12 {
        334
    } else {
        365
    }
}

/// The day on which the month `m` of the year `y` begins.
pub open spec fn month_start(y: int, m: int) -> int {
    year_start(y) + days_before_month(m) + if m > 2 && is_leap(y) {
        1int
    } else {
        0
    }
}

/// Whether the second `secs` falls in the month `m` of the year `y`.
pub open spec fn in_month(secs: int, y: int, m: int) -> bool {
    1 <= m <= 12 && month_start(y, m) <= secs / 86400 < month_start(y, m + 1)
}

/// Whether the second `secs` falls on the day `d` of the month `m` of the year
/// `y`.
pub open spec fn on_day(secs: int, y: int, m: int, d: int) -> bool {
    in_month(secs, y, m) && d == secs / 86400 - month_start(y, m) + 1
}

/// A number with a zero before it where it has one digit.
pub open spec fn two_digits(n: nat) -> Seq<char> {
    if n < 10 {
        seq!['0'] + decimal(n)
    } else {
        decimal(n)
    }
}

/// A number with zeros before it where it has fewer than four digits.
pub open spec fn four_digits(n: nat) -> Seq<char> {
    two_digits(n / 100) + two_digits(n % 100)
}

/// A date as `YYYY-MM-DD`.
pub open spec fn date_text(y: nat, m: nat, d: nat) -> Seq<char> {
    four_digits(y) + seq!['-'] + two_digits(m) + seq!['-'] + two_digits(d)
}

/// What `DateTime::to_rfc3339` writes for a point in time.
pub uninterp spec fn rfc3339(t: (int, int)) -> Seq<char>;

/// The point in time that parsing a text as a `DateTime<Utc>` gives, if any.
pub uninterp spec fn parsed_time(s: Seq<char>) -> Option<(int, int)>;

/// What `DateTime::format` writes for a point in time and a pattern.
pub uninterp spec fn time_formatted(t: (int, int), pattern: Seq<char>) -> Seq<char>;

/// `DateTime::year` and `DateTime::month` of chrono: the year of the Gregorian
/// calendar and the month, from 1 to 12, in which the point in time falls.
#[verifier::external_body]
pub(crate) fn year_and_month(t: &Timestamp) -> (r: (i32, u32))
    ensures
        in_month(t@.0, r.0 as int, r.1 as int),
{
    let d = chrono::DateTime::<chrono::Utc>::from_timestamp(t.secs, t.nanos).unwrap();
    (chrono::Datelike::year(&d), chrono::Datelike::month(&d))
}

/// `DateTime::to_rfc3339` of chrono: the point in time as RFC 3339 has it, with
/// the date first. In the years from 0 to 9999 the date is `YYYY-MM-DD` and
/// parsing the text gives the point in time back, unless it is in a leap
/// second.
#[verifier::external_body]
pub(crate) fn to_rfc3339(t: &Timestamp) -> (r: String)
    ensures
        r@ == rfc3339(t@),
        -62_167_219_200 <= t@.0 < 253_402_300_800 && t@.1 < 1_000_000_000 ==> parsed_time(r@)
            == Some(t@),
        forall|y: nat, m: nat, d: nat|
            y <= 9999 && #[trigger] on_day(t@.0, y as int, m as int, d as int) ==> date_text(y, m, d)
                .is_prefix_of(r@),
{
    chrono::DateTime::<chrono::Utc>::from_timestamp(t.secs, t.nanos).unwrap().to_rfc3339()
}

/// `FromStr` of chrono's `DateTime<Utc>`: reads RFC 3339 with some freedom, and
/// fails on other texts. What it gives depends on the text alone.
#[verifier::external_body]
pub(crate) fn parse_time(s: &str) -> (r: Option<Timestamp>)
    ensures
        match r {
            Some(t) => parsed_time(s@) == Some(t@),
            None => parsed_time(s@) is None,
        },
{
    match s.parse::<chrono::DateTime<chrono::Utc>>() {
        Ok(d) => Some(Timestamp { secs: d.timestamp(), nanos: d.timestamp_subsec_nanos() }),
        Err(_) => None,
    }
}

/// `DateTime::format` of chrono, with the pattern of a date or of a date with
/// hours and minutes. In the years from 0 to 9999 a date is `YYYY-MM-DD`.
#[verifier::external_body]
pub(crate) fn format_time(t: &Timestamp, pattern: &str) -> (r: String)
    requires
        pattern@ == "%Y-%m-%d"@ || pattern@ == "%Y-%m-%d %H:%M"@,
    ensures
        r@ == time_formatted(t@, pattern@),
        forall|y: nat, m: nat, d: nat|
            pattern@ == "%Y-%m-%d"@ && y <= 9999 && #[trigger] on_day(
                t@.0,
                y as int,
                m as int,
                d as int,
            ) ==> r@ == date_text(y, m, d),
{
    let d = chrono::DateTime::<chrono::Utc>::from_timestamp(t.secs, t.nanos).unwrap();
    d.format(pattern).to_string()
}

/// `Utc::now` of chrono: the machine's clock. Nothing is said of what it shows.
#[verifier::external_body]
pub(crate) fn now() -> (t: Timestamp) {
    let d = chrono::Utc::now();
    Timestamp { secs: d.timestamp(), nanos: d.timestamp_subsec_nanos() }
}

/// A point in time falls in one month only.
pub proof fn month_is_unique(secs: int, y1: int, m1: int, y2: int, m2: int)
    requires
        in_month(secs, y1, m1),
        in_month(secs, y2, m2),
    ensures
        y1 == y2,
        m1 == m2,
{
    assert(year_start(y1) <= secs / 86400 < year_start(y1 + 1)) by {
        year_has_its_months(y1);
    }
    assert(year_start(y2) <= secs / 86400 < year_start(y2 + 1)) by {
        year_has_its_months(y2);
    }
    if y1 < y2 {
        years_follow(y1 + 1, y2);
    } else if y2 < y1 {
        years_follow(y2 + 1, y1);
    }
}

proof fn year_has_its_months(y: int)
    ensures
        month_start(y, 13) == year_start(y + 1),
        forall|m: int| 1 <= m <= 12 ==> year_start(y) <= #[trigger] month_start(y, m) && month_start(y, m + 1)
            <= year_start(y + 1),
{
    leap_step(y);
}

pub(crate) proof fn leap_step(y: int)
    ensures
        leap_years(y) == leap_years(y - 1) + if is_leap(y) {
            1int
        } else {
            0
        },
{
    let q = y / 400;
    let r = y % 400;
    assert(y == 400 * q + r);
    assert(y / 4 == 100 * q + r / 4 && y % 4 == r % 4);
    assert(y / 100 == 4 * q + r / 100 && y % 100 == r % 100);
    assert((y - 1) / 4 == 100 * q + (r - 1) / 4);
    assert((y - 1) / 100 == 4 * q + (r - 1) / 100);
    assert((y - 1) / 400 == q + (r - 1) / 400);
    assert(r / 4 - (r - 1) / 4 == if r % 4 == 0 { 1int } else { 0 });
    assert(r / 100 - (r - 1) / 100 == if r % 100 == 0 { 1int } else { 0 });
    assert((r - 1) / 400 == if r == 0 { -1int } else { 0 });
    assert(r % 100 == 0 ==> r % 4 == 0);
}

proof fn years_follow(a: int, b: int)
    requires
        a <= b,
    ensures
        year_start(a) <= year_start(b),
    decreases b - a,
{
    if a < b {
        years_follow(a, b - 1);
        year_has_its_months(b - 1);
    }
}

} // verus!
