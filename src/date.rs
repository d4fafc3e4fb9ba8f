//! Calendar dates, and the date arithmetic and formatting that chrono does.
use chrono::Datelike;
use vstd::prelude::*;

verus! {

/// Earliest year that chrono's `NaiveDate` holds.
pub const MIN_YEAR: i32 = -262143;

/// Latest year that chrono's `NaiveDate` holds.
pub const MAX_YEAR: i32 = 262142;

/// A day of the proleptic Gregorian calendar.
#[derive(Clone, Copy, Debug, PartialEq, Eq, Structural)]
pub struct Date {
    pub year: i32,
    pub month: u32,
    pub day: u32,
}

pub open spec fn is_leap_year(year: int) -> bool {
    (year % 4 == 0 && year % 100 != 0) || year % 400 == 0
}

pub open spec fn days_in_month(year: int, month: int) -> int {
    if month == 2 {
        if is_leap_year(year) {
            29
        } else {
            28
        }
    } else if month == 4 || month == 6 || month == 9 || month == 11 {
        30
    } else {
        31
    }
}

/// The text chrono's `NaiveDate::format` gives for a date and a pattern.
pub uninterp spec fn date_text_of(year: int, month: int, day: int, pattern: Seq<char>) -> Seq<char>;

/// The whole weeks chrono counts from one date to another (negative where
/// `to` comes first).
pub uninterp spec fn weeks_between_of(
    from_year: int,
    from_month: int,
    from_day: int,
    to_year: int,
    to_month: int,
    to_day: int,
) -> i64;

/// The patterns this library formats dates with: month and year
/// (`"Jan 2020"`), and day, month and year (`"05 Jan 2020"`).
pub open spec fn known_pattern(pattern: Seq<char>) -> bool {
    pattern == "%b %Y"@ || pattern == "%d %b %Y"@
}

impl Date {
    /// A day that exists in the calendar, within chrono's range of years.
    pub open spec fn wf(self) -> bool {
        MIN_YEAR <= self.year <= MAX_YEAR && 1 <= self.month <= 12 && 1 <= self.day
            <= days_in_month(self.year as int, self.month as int)
    }

    /// Whether `self` comes strictly before `other`.
    pub open spec fn before(self, other: Date) -> bool {
        self.year < other.year || (self.year == other.year && (self.month < other.month || (
        self.month == other.month && self.day < other.day)))
    }

    /// Whether the date is a day of the calendar within chrono's years.
    pub fn is_valid(&self) -> (r: bool)
        ensures
            r == self.wf(),
    {
        if self.year < MIN_YEAR || self.year > MAX_YEAR || self.month < 1 || self.month > 12 || self.day < 1 {
            return false;
        }
        let leap = (self.year % 4 == 0 && self.year % 100 != 0) || self.year % 400 == 0;
        let last: u32 = if self.month == 2 {
            if leap {
                29
            } else {
                28
            }
        } else if self.month == 4 || self.month == 6 || self.month == 9 || self.month == 11 {
            30
        } else {
            31
        };
        self.day <= last
    }

    pub fn is_before(&self, other: &Date) -> (r: bool)
        ensures
            r == self.before(*other),
    {
        self.year < other.year || (self.year == other.year && (self.month < other.month || (
        self.month == other.month && self.day < other.day)))
    }
}

pub proof fn lemma_before_transitive(a: Date, b: Date, c: Date)
    requires
        a.before(b),
        b.before(c),
    ensures
        a.before(c),
{
}

/// Relies on chrono's `NaiveDate::from_ymd_opt`, which accepts every day of
/// the calendar within its range of years, and on `NaiveDate::format` with
/// a pattern made of valid specifiers.
#[verifier::external_body]
pub(crate) fn format_date(d: Date, pattern: &str) -> (r: String)
    requires
        d.wf(),
        known_pattern(pattern@),
    ensures
        r@ == date_text_of(d.year as int, d.month as int, d.day as int, pattern@),
{
    chrono::NaiveDate::from_ymd_opt(d.year, d.month, d.day).unwrap().format(pattern).to_string()
}

/// Relies on chrono's `NaiveDate::signed_duration_since` and
/// `TimeDelta::num_weeks`: whole weeks from `from` to `to`.
#[verifier::external_body]
pub(crate) fn weeks_between(from: Date, to: Date) -> (r: i64)
    requires
        from.wf(),
        to.wf(),
    ensures
        r == weeks_between_of(
            from.year as int,
            from.month as int,
            from.day as int,
            to.year as int,
            to.month as int,
            to.day as int,
        ),
{
    let from = chrono::NaiveDate::from_ymd_opt(from.year, from.month, from.day).unwrap();
    let to = chrono::NaiveDate::from_ymd_opt(to.year, to.month, to.day).unwrap();
    to.signed_duration_since(from).num_weeks()
}

/// Relies on `SystemTime::now` and chrono's `DateTime::from_timestamp`:
/// today's date in UTC, a day of the calendar; `None` where the clock reads
/// before 1970 or beyond chrono's range.
#[verifier::external_body]
pub(crate) fn today() -> (r: Option<Date>)
    ensures
        r matches Some(d) ==> d.wf(),
{
    let since = std::time::SystemTime::now().duration_since(std::time::UNIX_EPOCH).ok()?;
    let secs = i64::try_from(since.as_secs()).ok()?;
    let now = chrono::DateTime::from_timestamp(secs, 0)?.date_naive();
    Some(Date { year: now.year(), month: now.month(), day: now.day() })
}

/// Whole years from whole weeks, at 52 weeks a year, rounded toward zero.
pub open spec fn age_of_weeks(weeks: i64) -> i64 {
    if weeks >= 0 {
        (weeks / 52) as i64
    } else {
        (-((-weeks) / 52)) as i64
    }
}

/// Age in years on `today` of someone born on `birthday`, as whole weeks
/// divided by 52.
pub fn age(birthday: Date, today: Date) -> (r: i64)
    requires
        birthday.wf(),
        today.wf(),
    ensures
        r == age_of_weeks(
            weeks_between_of(
                birthday.year as int,
                birthday.month as int,
                birthday.day as int,
                today.year as int,
                today.month as int,
                today.day as int,
            ),
        ),
{
    let weeks = weeks_between(birthday, today);
    years_of_weeks(weeks)
}

/// Whole years in `weeks`, at 52 weeks a year, rounded toward zero.
pub fn years_of_weeks(weeks: i64) -> (r: i64)
    ensures
        r == age_of_weeks(weeks),
{
    if weeks >= 0 {
        weeks / 52
    } else if weeks == i64::MIN {
        -((i64::MAX / 52) as i64)
    } else {
        -((-weeks) / 52)
    }
}

} // verus!
