//! Calendar dates and times of day as plain numbers, and their text forms.
//!
//! Whether a date exists, and how a date or a time is written, is asked of
//! `chrono`; the contracts of those calls state the proleptic Gregorian rules
//! that this module spells out.

use chrono::Datelike;
use vstd::prelude::*;

verus! {

/// The first year that a date can lie in.
pub const MIN_YEAR: i32 = -262143;

/// The last year that a date can lie in.
pub const MAX_YEAR: i32 = 262142;

pub open spec fn is_leap_year(year: int) -> bool {
    year % 4 == 0 && (year % 100 != 0 || year % 400 == 0)
}

pub open spec fn days_in_month(year: int, month: int) -> int {
    if month == 2 {
        if is_leap_year(year) {
            29
        } else {
            28
        }
    } else if month == 4 || month == 6 || month == 9 || month == 11 {
        30
    } else {
        31
    }
}

/// Whether the calendar has the day `year`-`month`-`day`.
pub open spec fn is_calendar_date(year: int, month: int, day: int) -> bool {
    &&& MIN_YEAR <= year <= MAX_YEAR
    &&& 1 <= month <= 12
    &&& 1 <= day <= days_in_month(year, month)
}

/// Whether `hour`:`minute`:`second` is a time of day.
pub open spec fn is_time_of_day(hour: int, minute: int, second: int) -> bool {
    0 <= hour < 24 && 0 <= minute < 60 && 0 <= second < 60
}

/// The digit that stands for `d`, for `d` from 0 to 9.
pub open spec fn digit_char(d: int) -> char {
    ((48 + d) as u8) as char
}

/// `n` written with two digits, for `n` below 100.
pub open spec fn two_digits(n: int) -> Seq<char> {
    seq![digit_char(n / 10), digit_char(n % 10)]
}

/// `n` in decimal, without a sign or leading zeros.
pub open spec fn decimal(n: nat) -> Seq<char>
    decreases n,
{
    if n < 10 {
        seq![digit_char(n as int)]
    } else {
        decimal(n / 10).push(digit_char((n % 10) as int))
    }
}

/// `n` in decimal, with zeros in front until it has four digits.
pub open spec fn four_or_more_digits(n: nat) -> Seq<char> {
    if n < 10 {
        seq!['0', '0', '0'] + decimal(n)
    } else if n < 100 {
        seq!['0', '0'] + decimal(n)
    } else if n < 1000 {
        seq!['0'] + decimal(n)
    } else {
        decimal(n)
    }
}

/// A year as a date shows it: four digits from 0 to 9999, and a sign in
/// front of at least four digits outside that range.
pub open spec fn year_text(year: int) -> Seq<char> {
    if 0 <= year <= 9999 {
        four_or_more_digits(year as nat)
    } else if year < 0 {
        seq!['-'] + four_or_more_digits((-year) as nat)
    } else {
        seq!['+'] + four_or_more_digits(year as nat)
    }
}

/// A date as `YYYY-MM-DD`.
pub open spec fn date_text(year: int, month: int, day: int) -> Seq<char> {
    year_text(year) + seq!['-'] + two_digits(month) + seq!['-'] + two_digits(day)
}

/// A time of day as `HH:MM`.
pub open spec fn time_text(hour: int, minute: int) -> Seq<char> {
    two_digits(hour) + seq![':'] + two_digits(minute)
}

/// Calls `chrono::NaiveDate::from_ymd_opt` and reports whether it made a
/// date. It makes one exactly for the days of the proleptic Gregorian
/// calendar whose year `chrono` can hold.
#[verifier::external_body]
fn chrono_has_date(year: i32, month: u32, day: u32) -> (b: bool)
    ensures
        b == is_calendar_date(year as int, month as int, day as int),
{
    chrono::NaiveDate::from_ymd_opt(year, month, day).is_some()
}

/// Calls `chrono::NaiveTime::from_hms_opt` and reports whether it made a
/// time. It makes one exactly when hour, minute and second are in range.
#[verifier::external_body]
fn chrono_has_time(hour: u32, minute: u32, second: u32) -> (b: bool)
    ensures
        b == is_time_of_day(hour as int, minute as int, second as int),
{
    chrono::NaiveTime::from_hms_opt(hour, minute, second).is_some()
}

/// Calls `chrono::NaiveDate::format` with `%Y-%m-%d` on the date that
/// `from_ymd_opt` makes: the year, then month and day with two digits each.
/// The year has four digits from 0 to 9999, and otherwise a sign and at least
/// four digits.
#[verifier::external_body]
fn chrono_date_text(year: i32, month: u32, day: u32) -> (r: String)
    requires
        is_calendar_date(year as int, month as int, day as int),
    ensures
        r@ == date_text(year as int, month as int, day as int),
{
    match chrono::NaiveDate::from_ymd_opt(year, month, day) {
        Some(date) => date.format("%Y-%m-%d").to_string(),
        None => String::new(),
    }
}

/// Calls `chrono::NaiveTime::format` with `%H:%M` on the time that
/// `from_hms_opt` makes: hour and minute with two digits each.
#[verifier::external_body]
fn chrono_time_text(hour: u32, minute: u32, second: u32) -> (r: String)
    requires
        is_time_of_day(hour as int, minute as int, second as int),
    ensures
        r@ == time_text(hour as int, minute as int),
{
    match chrono::NaiveTime::from_hms_opt(hour, minute, second) {
        Some(time) => time.format("%H:%M").to_string(),
        None => String::new(),
    }
}

/// A calendar date.
#[derive(Debug, Clone, Copy, PartialEq, Eq, Structural, PartialOrd, Ord, Hash)]
pub struct Date {
    pub year: i32,
    pub month: u32,
    pub day: u32,
}

impl Date {
    /// Whether the calendar has this day.
    pub open spec fn valid(&self) -> bool {
        is_calendar_date(self.year as int, self.month as int, self.day as int)
    }

    /// The date `year`-`month`-`day`, if the calendar has that day.
    pub fn from_ymd(year: i32, month: u32, day: u32) -> (r: Option<Date>)
        ensures
            r is Some <==> is_calendar_date(year as int, month as int, day as int),
            r matches Some(d) ==> d.year == year && d.month == month && d.day == day,
    {
        if chrono_has_date(year, month, day) {
            Some(Date { year, month, day })
        } else {
            None
        }
    }

    /// Whether the calendar has this day.
    pub fn is_valid(&self) -> (b: bool)
        ensures
            b == self.valid(),
    {
        chrono_has_date(self.year, self.month, self.day)
    }

    /// The date as text.
    pub open spec fn text(&self) -> Seq<char> {
        date_text(self.year as int, self.month as int, self.day as int)
    }

    /// Writes the date as `YYYY-MM-DD`.
    pub fn render(&self) -> (r: String)
        requires
            self.valid(),
        ensures
            r@ == self.text(),
    {
        chrono_date_text(self.year, self.month, self.day)
    }

    /// Whether this date lies before `other`.
    pub open spec fn before(&self, other: &Date) -> bool {
        self.year < other.year || (self.year == other.year && (self.month < other.month || (
        self.month == other.month && self.day < other.day)))
    }

    /// Whether this date lies before `other`.
    pub fn is_before(&self, other: &Date) -> (b: bool)
        ensures
            b == self.before(other),
    {
        self.year < other.year || (self.year == other.year && (self.month < other.month || (
        self.month == other.month && self.day < other.day)))
    }
}

/// A time of day.
#[derive(Debug, Clone, Copy, PartialEq, Eq, Structural, PartialOrd, Ord, Hash)]
pub struct Time {
    pub hour: u32,
    pub minute: u32,
    pub second: u32,
}

impl Time {
    /// Whether this is a time of day.
    pub open spec fn valid(&self) -> bool {
        is_time_of_day(self.hour as int, self.minute as int, self.second as int)
    }

    /// The time `hour`:`minute`:`second`, if that is a time of day.
    pub fn from_hms(hour: u32, minute: u32, second: u32) -> (r: Option<Time>)
        ensures
            r is Some <==> is_time_of_day(hour as int, minute as int, second as int),
            r matches Some(t) ==> t.hour == hour && t.minute == minute && t.second == second,
    {
        if chrono_has_time(hour, minute, second) {
            Some(Time { hour, minute, second })
        } else {
            None
        }
    }

    /// Whether this is a time of day.
    pub fn is_valid(&self) -> (b: bool)
        ensures
            b == self.valid(),
    {
        chrono_has_time(self.hour, self.minute, self.second)
    }

    /// The time as text.
    pub open spec fn text(&self) -> Seq<char> {
        time_text(self.hour as int, self.minute as int)
    }

    /// Writes the time as `HH:MM`.
    pub fn render(&self) -> (r: String)
        requires
            self.valid(),
        ensures
            r@ == self.text(),
    {
        chrono_time_text(self.hour, self.minute, self.second)
    }
}

/// `n` in decimal.
pub fn decimal_string(n: u64) -> (r: String)
    ensures
        r@ == decimal(n as nat),
{
    let mut digits: Vec<char> = Vec::new();
    let mut rest: u64 = n;
    // The digits come out lowest first.
    while rest >= 10
        invariant
            decimal(n as nat) == decimal(rest as nat) + digits@.reverse(),
        decreases rest,
    {
        let d: u8 = (rest % 10) as u8;
        let c: char = (48 + d) as char;
        let ghost before = digits@;
        digits.push(c);
        proof {
            assert(c == digit_char((rest % 10) as int));
            assert(decimal(rest as nat) == decimal((rest / 10) as nat).push(c));
            assert(digits@.reverse() =~= seq![c] + before.reverse());
            assert(decimal((rest / 10) as nat).push(c) + before.reverse() =~= decimal(
                (rest / 10) as nat,
            ) + digits@.reverse());
        }
        rest = rest / 10;
    }
    let first: char = (48 + (rest as u8)) as char;
    let mut r = String::new();
    crate::text::push_char(&mut r, first);
    assert(r@ =~= decimal(rest as nat));
    let mut k: usize = digits.len();
    while k > 0
        invariant
            k <= digits@.len(),
            r@ == decimal(rest as nat) + digits@.reverse().subrange(0, digits@.len() - k),
        decreases k,
    {
        k = k - 1;
        crate::text::push_char(&mut r, digits[k]);
        assert(r@ =~= decimal(rest as nat) + digits@.reverse().subrange(0, digits@.len() - k));
    }
    assert(digits@.reverse().subrange(0, digits@.len() as int) =~= digits@.reverse());
    r
}

/// A date and a time of day.
#[derive(Debug, Clone, Copy, PartialEq, Eq, Structural, PartialOrd, Ord, Hash)]
pub struct DateTime {
    pub date: Date,
    pub time: Time,
}

/// The time at which a day starts.
pub open spec fn midnight() -> Time {
    Time { hour: 0, minute: 0, second: 0 }
}

/// The first day that a date can be.
pub open spec fn first_date() -> Date {
    Date { year: MIN_YEAR, month: 1, day: 1 }
}

/* ------------------------------ Counting days ------------------------------ */

/// The number of days that `year` has.
pub open spec fn year_length(year: int) -> int {
    if is_leap_year(year) {
        366
    } else {
        365
    }
}

/// The number of days from the start of the year 1 to the start of `year`;
/// it is negative for the years before the year 1.
pub open spec fn days_before_year(year: int) -> int {
    let y = year - 1;
    365 * y + y / 4 - y / 100 + y / 400
}

/// The number of days of `year` that lie before the start of `month`.
pub open spec fn days_before_month(year: int, month: int) -> int
    decreases month,
{
    if month <= 1 {
        0
    } else {
        days_before_month(year, month - 1) + days_in_month(year, month - 1)
    }
}

/// The number of a day, counted on from 1 January of the year 1, which is
/// day 1.
pub open spec fn day_number(year: int, month: int, day: int) -> int {
    days_before_year(year) + days_before_month(year, month) + day
}

impl Date {
    /// The number of the day, counted on from 1 January of the year 1.
    pub open spec fn number(&self) -> int {
        day_number(self.year as int, self.month as int, self.day as int)
    }
}

/// The number of days from `from` to `to`.
pub open spec fn days_between(from: Date, to: Date) -> int {
    to.number() - from.number()
}

/// Whether `later` is a day of the calendar and comes `days` days after
/// `date`.
pub open spec fn is_days_after(date: Date, days: int, later: Date) -> bool {
    later.valid() && later.number() == date.number() + days
}

/// The day that comes `days` days after `date`, if the calendar has it.
pub open spec fn date_plus_days(date: Date, days: int) -> Option<Date> {
    if exists|later: Date| is_days_after(date, days, later) {
        Some(choose|later: Date| is_days_after(date, days, later))
    } else {
        None
    }
}

/// The next year starts as many days later as the year has days.
proof fn lemma_next_year(year: int)
    ensures
        days_before_year(year + 1) == days_before_year(year) + year_length(year),
{
}

/// A later year starts at least a year's length later.
proof fn lemma_years_ascend(a: int, b: int)
    requires
        a < b,
    ensures
        days_before_year(b) >= days_before_year(a) + year_length(a),
    decreases b - a,
{
    lemma_next_year(b - 1);
    if a < b - 1 {
        lemma_years_ascend(a, b - 1);
    }
}

/// A later month starts at least a month's length later.
proof fn lemma_months_ascend(year: int, a: int, b: int)
    requires
        1 <= a < b,
    ensures
        days_before_month(year, b) >= days_before_month(year, a) + days_in_month(year, a),
    decreases b - a,
{
    if a < b - 1 {
        lemma_months_ascend(year, a, b - 1);
    }
}

/// The months of a year have as many days as the year.
proof fn lemma_months_fill_year(year: int)
    ensures
        days_before_month(year, 13) == year_length(year),
{
    reveal_with_fuel(days_before_month, 14);
}

/// Two days of the calendar with the same number are the same day.
pub proof fn lemma_number_tells_days_apart(a: Date, b: Date)
    requires
        a.valid(),
        b.valid(),
        a.number() == b.number(),
    ensures
        a == b,
{
    let (ya, ma, da) = (a.year as int, a.month as int, a.day as int);
    let (yb, mb, db) = (b.year as int, b.month as int, b.day as int);
    lemma_months_fill_year(ya);
    lemma_months_fill_year(yb);
    lemma_months_ascend(ya, ma, 13);
    lemma_months_ascend(yb, mb, 13);
    assert(days_before_month(ya, ma) >= 0) by {
        if ma > 1 {
            lemma_months_ascend(ya, 1, ma);
        }
    }
    assert(days_before_month(yb, mb) >= 0) by {
        if mb > 1 {
            lemma_months_ascend(yb, 1, mb);
        }
    }
    if ya < yb {
        lemma_years_ascend(ya, yb);
    } else if yb < ya {
        lemma_years_ascend(yb, ya);
    } else if ma < mb {
        lemma_months_ascend(ya, ma, mb);
    } else if mb < ma {
        lemma_months_ascend(ya, mb, ma);
    }
}

/// Calls `chrono::NaiveDate::signed_duration_since` on the two dates and
/// `TimeDelta::num_days` on what it gives: the whole days from `from` to
/// `to`, which is the difference of their numbers.
#[verifier::external_body]
fn chrono_days_between(from: Date, to: Date) -> (r: i64)
    requires
        from.valid(),
        to.valid(),
    ensures
        r == to.number() - from.number(),
{
    let a = chrono::NaiveDate::from_ymd_opt(from.year, from.month, from.day);
    let b = chrono::NaiveDate::from_ymd_opt(to.year, to.month, to.day);
    match (a, b) {
        (Some(a), Some(b)) => b.signed_duration_since(a).num_days(),
        _ => 0,
    }
}

/// Calls `chrono::NaiveDate::checked_add_signed` with a `TimeDelta` of
/// `days` days: the day of the calendar that comes that many days later,
/// or nothing where the calendar has no such day.
#[verifier::external_body]
fn chrono_date_plus_days(date: Date, days: i64) -> (r: Option<Date>)
    requires
        date.valid(),
    ensures
        match r {
            Some(later) => is_days_after(date, days as int, later),
            None => forall|later: Date| !is_days_after(date, days as int, later),
        },
{
    let base = chrono::NaiveDate::from_ymd_opt(date.year, date.month, date.day)?;
    let moved = base.checked_add_signed(chrono::TimeDelta::try_days(days)?)?;
    Some(Date { year: moved.year(), month: moved.month(), day: moved.day() })
}

impl Date {
    /// The number of days from this date to `other`.
    pub fn days_until(&self, other: &Date) -> (r: i64)
        requires
            self.valid(),
            other.valid(),
        ensures
            r == days_between(*self, *other),
    {
        chrono_days_between(*self, *other)
    }

    /// The day that comes `days` days after this one, if there is one.
    pub fn plus_days(&self, days: i64) -> (r: Option<Date>)
        requires
            self.valid(),
        ensures
            r == date_plus_days(*self, days as int),
            r matches Some(d) ==> d.valid(),
    {
        let r = chrono_date_plus_days(*self, days);
        proof {
            match r {
                Some(later) => {
                    let chosen = choose|d: Date| is_days_after(*self, days as int, d);
                    lemma_number_tells_days_apart(later, chosen);
                },
                None => {},
            }
        }
        r
    }
}

} // verus!
