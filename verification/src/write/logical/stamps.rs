//! What a filesystem says of an entry: times, mode, and why it would not say.

use vstd::prelude::*;

use crate::error::optional_text;
use crate::text;

verus! {

/// What one look at a filesystem entry yielded.
///
/// Platforms differ in what they have; what is absent is recorded as absent.
#[derive(Debug)]
pub struct FsMetadata {
    /// When the entry came to be.
    pub birth: Option<String>,
    /// When its content last changed.
    pub written: Option<String>,
    /// When its content was last read.
    pub accessed: Option<String>,
    /// When its metadata last changed.
    pub changed: Option<String>,
    /// The Unix file mode.
    pub mode: Option<u32>,
}

/// What [`FsMetadata`] says, as plain values.
#[verifier::ext_equal]
pub struct StampsView {
    /// When the entry came to be.
    pub birth: Option<Seq<char>>,
    /// When its content last changed.
    pub written: Option<Seq<char>>,
    /// When its content was last read.
    pub accessed: Option<Seq<char>>,
    /// When its metadata last changed.
    pub changed: Option<Seq<char>>,
    /// The Unix file mode.
    pub mode: Option<u32>,
}

impl View for FsMetadata {
    type V = StampsView;

    open spec fn view(&self) -> StampsView {
        StampsView {
            birth: optional_text(self.birth),
            written: optional_text(self.written),
            accessed: optional_text(self.accessed),
            changed: optional_text(self.changed),
            mode: self.mode,
        }
    }
}

/// Nothing known.
pub open spec fn no_stamps() -> StampsView {
    StampsView { birth: None, written: None, accessed: None, changed: None, mode: None }
}

impl Default for FsMetadata {
    /// Nothing known.
    fn default() -> (r: Self)
        ensures
            r@ == no_stamps(),
    {
        FsMetadata { birth: None, written: None, accessed: None, changed: None, mode: None }
    }
}

/// Whether a year of the Gregorian calendar has a leap day.
pub open spec fn is_leap(year: int) -> bool {
    year % 4 == 0 && (year % 100 != 0 || year % 400 == 0)
}

/// How many days a year has.
pub open spec fn year_length(year: int) -> int {
    if is_leap(year) {
        366
    } else {
        365
    }
}

/// How many days a month has, January being the first.
pub open spec fn month_length(year: int, month: int) -> int {
    if month == 2 {
        if is_leap(year) {
            29
        } else {
            28
        }
    } else if month == 4 || month == 6 || month == 9 || month == 11 {
        30
    } else {
        31
    }
}

/// How many days there are from the beginning of 1970 to that of a year.
pub open spec fn days_before_year(year: int) -> int
    decreases year,
{
    if year <= 1970 {
        0
    } else {
        days_before_year(year - 1) + year_length(year - 1)
    }
}

/// How many days of a year are before a month.
pub open spec fn days_before_month(year: int, month: int) -> int
    decreases month,
{
    if month <= 1 {
        0
    } else {
        days_before_month(year, month - 1) + month_length(year, month - 1)
    }
}

/// Whether there is such a date, from 1970 on.
pub open spec fn is_date(year: int, month: int, day: int) -> bool {
    1970 <= year && 1 <= month <= 12 && 1 <= day <= month_length(year, month)
}

/// How many days after the first of January 1970 a date is.
pub open spec fn day_number(year: int, month: int, day: int) -> int {
    days_before_year(year) + days_before_month(year, month) + (day - 1)
}

/// A date and a time of day as text.
pub open spec fn stamp_text(year: int, month: int, day: int, second: int) -> Seq<char> {
    text::zero_padded(text::decimal(year as nat), 4) + "-"@ + text::zero_padded(
        text::decimal(month as nat),
        2,
    ) + "-"@ + text::zero_padded(text::decimal(day as nat), 2) + "T"@ + (text::zero_padded(
        text::decimal((second / 3600) as nat),
        2,
    ) + ":"@ + text::zero_padded(text::decimal((second % 3600 / 60) as nat), 2) + ":"@
        + text::zero_padded(text::decimal((second % 60) as nat), 2) + "Z"@)
}

/// How many leap years there are up to a year, from year 1 on.
spec fn leap_years(year: int) -> int {
    year / 4 - year / 100 + year / 400
}

/// The days before a year, in one formula.
proof fn days_before_year_formula(year: int)
    requires
        year >= 1970,
    ensures
        days_before_year(year) == 365 * (year - 1970) + leap_years(year - 1) - leap_years(1969),
    decreases year,
{
    if year > 1970 {
        days_before_year_formula(year - 1);
        let last = year - 1;
        assert(leap_years(last) == leap_years(last - 1) + (if is_leap(last) {
            1int
        } else {
            0int
        }));
    }
}

/// Four hundred years have as many days wherever they begin.
proof fn cycles(year: int, n: nat)
    requires
        year >= 1970,
    ensures
        days_before_year(year + 400 * n) == days_before_year(year) + 146097 * n,
{
    days_before_year_formula(year);
    days_before_year_formula(year + 400 * n);
    let y = year - 1;
    assert((y + 400 * n) / 4 == y / 4 + 100 * n);
    assert((y + 400 * n) / 100 == y / 100 + 4 * n);
    assert((y + 400 * n) / 400 == y / 400 + n);
}

/// Later years begin later.
proof fn years_ascend(a: int, b: int)
    requires
        a <= b,
    ensures
        days_before_year(a) <= days_before_year(b),
        1970 <= a < b ==> days_before_year(a) + year_length(a) <= days_before_year(b),
    decreases b - a,
{
    if a < b {
        years_ascend(a, b - 1);
    }
}

/// Later months begin later, and all fit the year.
proof fn months_ascend(year: int, a: int, b: int)
    requires
        1 <= a <= b <= 13,
    ensures
        days_before_month(year, a) <= days_before_month(year, b),
        a < b ==> days_before_month(year, a) + month_length(year, a) <= days_before_month(year, b),
    decreases b - a,
{
    if a < b {
        months_ascend(year, a, b - 1);
    }
}

/// The months of a year make up the year.
proof fn months_fill_the_year(year: int)
    ensures
        days_before_month(year, 13) == year_length(year),
{
    reveal_with_fuel(days_before_month, 14);
}

/// A day is one date: no two dates have the same number.
pub proof fn dates_are_unique(y1: int, m1: int, d1: int, y2: int, m2: int, d2: int)
    requires
        is_date(y1, m1, d1),
        is_date(y2, m2, d2),
        day_number(y1, m1, d1) == day_number(y2, m2, d2),
    ensures
        y1 == y2 && m1 == m2 && d1 == d2,
{
    date_fits(y1, m1, d1);
    date_fits(y2, m2, d2);
    if y1 < y2 {
        years_ascend(y1, y2);
    } else if y2 < y1 {
        years_ascend(y2, y1);
    } else if m1 < m2 {
        months_ascend(y1, m1, m2);
    } else if m2 < m1 {
        months_ascend(y1, m2, m1);
    }
}

/// A date is within its year.
proof fn date_fits(year: int, month: int, day: int)
    requires
        is_date(year, month, day),
    ensures
        0 <= days_before_month(year, month),
        days_before_month(year, month) + day <= year_length(year),
{
    months_ascend(year, 1, month);
    months_ascend(year, month, 13);
    months_fill_the_year(year);
}

/// Whether a year has a leap day.
fn leap(year: u64) -> (r: bool)
    ensures
        r == is_leap(year as int),
{
    year % 4 == 0 && (year % 100 != 0 || year % 400 == 0)
}

/// How many days a year has.
fn length_of_year(year: u64) -> (r: u64)
    ensures
        r == year_length(year as int),
{
    if leap(year) {
        366
    } else {
        365
    }
}

/// How many days a month has.
fn length_of_month(year: u64, month: u64) -> (r: u64)
    ensures
        r == month_length(year as int, month as int),
{
    if month == 2 {
        if leap(year) {
            29
        } else {
            28
        }
    } else if month == 4 || month == 6 || month == 9 || month == 11 {
        30
    } else {
        31
    }
}

/// A number with zeros before it up to a width.
fn padded(n: u64, width: usize) -> (r: String)
    ensures
        r@ == text::zero_padded(text::decimal(n as nat), width as nat),
{
    text::pad_zeros(text::dec(n).as_str(), width)
}

/// Seconds since the beginning of 1970, in universal time, as RFC 3339 writes them.
pub fn format_rfc3339_utc(secs: u64) -> (r: String)
    ensures
        exists|year: int, month: int, day: int|
            is_date(year, month, day) && day_number(year, month, day) == secs as int / 86400
                && r@ == #[trigger] stamp_text(year, month, day, secs as int % 86400),
{
    let days: u64 = secs / 86400;
    let second: u64 = secs % 86400;
    let cycle: u64 = days / 146097;
    let mut rest: u64 = days % 146097;
    let mut year: u64 = 1970 + 400 * cycle;
    proof {
        cycles(1970, cycle as nat);
        cycles(1970, (cycle + 1) as nat);
    }
    let ghost last = 1970 + 400 * (cycle + 1);
    while rest >= length_of_year(year)
        invariant
            1970 <= year <= last,
            last == 1970 + 400 * (cycle + 1),
            cycle <= 2_000_000_000,
            days_before_year(year as int) + rest == days,
            days < days_before_year(last),
        decreases rest,
    {
        proof {
            if year == last {
                assert(false);
            }
        }
        rest = rest - length_of_year(year);
        year = year + 1;
    }
    let mut month: u64 = 1;
    let ghost start = rest;
    proof {
        months_fill_the_year(year as int);
    }
    while rest >= length_of_month(year, month)
        invariant
            1 <= month <= 12,
            days_before_month(year as int, month as int) + rest == start,
            start < year_length(year as int),
            days_before_month(year as int, 13) == year_length(year as int),
        decreases rest,
    {
        rest = rest - length_of_month(year, month);
        month = month + 1;
    }
    let day: u64 = rest + 1;
    let date = text::cat6(
        padded(year, 4).as_str(),
        "-",
        padded(month, 2).as_str(),
        "-",
        padded(day, 2).as_str(),
        "T",
    );
    let time = text::cat6(
        padded(second / 3600, 2).as_str(),
        ":",
        padded(second % 3600 / 60, 2).as_str(),
        ":",
        padded(second % 60, 2).as_str(),
        "Z",
    );
    let r = text::cat2(date.as_str(), time.as_str());
    proof {
        assert(is_date(year as int, month as int, day as int));
        assert(day_number(year as int, month as int, day as int) == secs as int / 86400);
        assert(r@ == stamp_text(year as int, month as int, day as int, secs as int % 86400));
    }
    r
}

/// What follows the system's words where macOS keeps a path from an application.
pub const PRIVACY_NOTE: &'static str =
    " — macOS denied access to this path regardless of user. This is TCC (privacy protection), not file permissions, so `sudo` does not help: grant Full Disk Access to the terminal or tool running the acquisition (System Settings > Privacy & Security > Full Disk Access), then acquire again";

/// Why a path could not be read, in terms that an examiner can act on, from the
/// system's words and its number for the failure.
///
/// On macOS, "not permitted" on a readable path means that the calling application
/// lacks a grant, which no change of user supplies.
pub fn explain_io_error(error: &str, code: Option<i32>, macos: bool) -> (r: String)
    ensures
        r@ == if macos && code == Some(1i32) {
            error@ + PRIVACY_NOTE@
        } else {
            error@
        },
{
    match code {
        Some(n) => if macos && n == 1 {
            text::cat2(error, PRIVACY_NOTE)
        } else {
            text::owned(error)
        },
        None => text::owned(error),
    }
}

/// A number of few digits fills its places.
proof fn numbers_fill_their_places(n: nat)
    ensures
        n < 100 ==> text::zero_padded(text::decimal(n), 2).len() == 2,
        n < 10000 ==> text::zero_padded(text::decimal(n), 4).len() == 4,
{
    reveal_with_fuel(text::decimal, 5);
    if n < 10000 {
        assert(n / 10 < 1000 && n / 10 / 10 < 100 && n / 10 / 10 / 10 < 10);
        assert(text::decimal(n).len() <= 4);
    }
    if n < 100 {
        assert(n / 10 < 10);
        assert(text::decimal(n).len() <= 2);
    }
}

/// What a moment is written as says which it is: four digits for the year, two each for the
/// month, the day, the hour, the minute and the second, and hour, minute and second make up
/// the second of the day.
pub proof fn stamps_are_read_back(year: int, month: int, day: int, second: int)
    requires
        is_date(year, month, day),
        year < 10000,
        0 <= second < 86400,
    ensures
        ({
            let s = stamp_text(year, month, day, second);
            let hours = text::digits_value(s.subrange(11, 13));
            let minutes = text::digits_value(s.subrange(14, 16));
            let seconds = text::digits_value(s.subrange(17, 19));
            &&& s.len() == 20
            &&& s[4] == '-' && s[7] == '-' && s[10] == 'T' && s[13] == ':' && s[16] == ':'
                && s[19] == 'Z'
            &&& text::digits_value(s.subrange(0, 4)) == year
            &&& text::digits_value(s.subrange(5, 7)) == month
            &&& text::digits_value(s.subrange(8, 10)) == day
            &&& hours < 24 && minutes < 60 && seconds < 60
            &&& hours * 3600 + minutes * 60 + seconds == second
        }),
{
    let s = stamp_text(year, month, day, second);
    let hour = (second / 3600) as nat;
    let minute = (second % 3600 / 60) as nat;
    let last = (second % 60) as nat;
    numbers_fill_their_places(year as nat);
    numbers_fill_their_places(month as nat);
    numbers_fill_their_places(day as nat);
    numbers_fill_their_places(hour);
    numbers_fill_their_places(minute);
    numbers_fill_their_places(last);
    text::padded_is_its_number(year as nat, 4);
    text::padded_is_its_number(month as nat, 2);
    text::padded_is_its_number(day as nat, 2);
    text::padded_is_its_number(hour, 2);
    text::padded_is_its_number(minute, 2);
    text::padded_is_its_number(last, 2);
    reveal_strlit("-");
    reveal_strlit("T");
    reveal_strlit(":");
    reveal_strlit("Z");
    let y = text::zero_padded(text::decimal(year as nat), 4);
    let m = text::zero_padded(text::decimal(month as nat), 2);
    let d = text::zero_padded(text::decimal(day as nat), 2);
    let h = text::zero_padded(text::decimal(hour), 2);
    let i = text::zero_padded(text::decimal(minute), 2);
    let l = text::zero_padded(text::decimal(last), 2);
    assert(s.subrange(0, 4) =~= y);
    assert(s.subrange(5, 7) =~= m);
    assert(s.subrange(8, 10) =~= d);
    assert(s.subrange(11, 13) =~= h);
    assert(s.subrange(14, 16) =~= i);
    assert(s.subrange(17, 19) =~= l);
}

} // verus!
