//! Timestamps, planning lines and clock lines.
//!
//! A timestamp whose text has the shape of a date or of a time, but whose
//! numbers name no day of the calendar or no time of day, is not passed
//! over: it stops the parse.

use crate::calendar::{is_calendar_date, is_time_of_day, Date, Time};
use crate::model::{ClockEntry, ClockEntryView, Planning, Timestamp};
use crate::parser::lines::{eol_at, eol_len, line_end, line_ok, next_line, till_eol};
use crate::text::{
    has_at, is_blank, is_pair_at, lemma_skip_class_run, pair_at, skip, skip_class, starts_with_at,
    CharClass,
};
use vstd::prelude::*;
use vstd::string::*;

verus! {

/// What a recognizer finds at a place: a value and the place after it;
/// nothing; or text that has the right shape and cannot be accepted, with
/// the place where it stands.
pub enum Scan<T> {
    Found(T, int),
    Absent,
    Broken(int),
}

/// What a recognizer has read: a value and the place after it; nothing; or
/// text that has the right shape and cannot be accepted, with the place
/// where it stands.
pub enum Parsed<T> {
    Found(T, usize),
    Absent,
    Broken(usize),
}

/// The number that a digit stands for.
pub open spec fn digit_of(c: char) -> int {
    c as u8 - 48
}

/// The number that the two digits at `pos` stand for.
pub open spec fn number2(s: Seq<char>, pos: int) -> int {
    digit_of(s[pos]) * 10 + digit_of(s[pos + 1])
}

/// The number that the four digits at `pos` stand for.
pub open spec fn number4(s: Seq<char>, pos: int) -> int {
    number2(s, pos) * 100 + number2(s, pos + 2)
}

/// The number that the digits `s[pos..end]` stand for.
pub open spec fn digits_value(s: Seq<char>, pos: int, end: int) -> int
    decreases end - pos,
{
    if pos >= end {
        0
    } else {
        digits_value(s, pos, end - 1) * 10 + digit_of(s[end - 1])
    }
}

/// `YYYY-MM-DD` at `pos`, with runs of exactly four, two and two digits:
/// year, month, day and the place after them.
pub open spec fn date_shape(s: Seq<char>, pos: int, end: int) -> Option<(int, int, int, int)> {
    let y = skip_class(s, pos, end, CharClass::Digit);
    let m = skip_class(s, y + 1, end, CharClass::Digit);
    let d = skip_class(s, m + 1, end, CharClass::Digit);
    if y == pos + 4 && y < end && s[y] == '-' && m == y + 3 && m < end && s[m] == '-' && d == m
        + 3 {
        Some((number4(s, pos), number2(s, y + 1), number2(s, m + 1), d))
    } else {
        None
    }
}

/// `H:MM` or `HH:MM` at `pos`, with runs of one or two and of exactly two
/// digits: hour, minute and the place after them.
pub open spec fn time_shape(s: Seq<char>, pos: int, end: int) -> Option<(int, int, int)> {
    let h = skip_class(s, pos, end, CharClass::Digit);
    let m = skip_class(s, h + 1, end, CharClass::Digit);
    if pos < h <= pos + 2 && h < end && s[h] == ':' && m == h + 3 {
        Some((digits_value(s, pos, h), number2(s, h + 1), m))
    } else {
        None
    }
}

/// The timestamp with the given parts and nothing else.
pub open spec fn plain_timestamp(active: bool, date: Date, time: Option<Time>) -> Timestamp {
    Timestamp { active, date, time, tz: None, end: None, repeater: None, delay: None }
}

/// What follows the date of a timestamp: optionally blanks and a time,
/// optionally blanks and the letters of a day's name, and the closing
/// bracket.
pub open spec fn timestamp_rest(s: Seq<char>, after: int, end: int, active: bool, date: Date) -> Scan<
    Timestamp,
> {
    let t = skip_class(s, after, end, CharClass::Blank);
    match (if after < t {
        time_shape(s, t, end)
    } else {
        None
    }) {
        Some((hour, minute, next)) => {
            if is_time_of_day(hour, minute, 0) {
                timestamp_close(
                    s,
                    next,
                    end,
                    active,
                    date,
                    Some(Time { hour: hour as u32, minute: minute as u32, second: 0 }),
                )
            } else {
                Scan::Broken(t)
            }
        },
        None => timestamp_close(s, after, end, active, date, None),
    }
}

/// The end of a timestamp: optionally blanks and the letters of a day's
/// name, and the closing bracket.
pub open spec fn timestamp_close(
    s: Seq<char>,
    after: int,
    end: int,
    active: bool,
    date: Date,
    time: Option<Time>,
) -> Scan<Timestamp> {
    let b = skip_class(s, after, end, CharClass::Blank);
    let l = skip_class(s, b, end, CharClass::Letter);
    let close = if after < b && b < l {
        l
    } else {
        after
    };
    if close < end && (s[close] == '>' || s[close] == ']') {
        Scan::Found(plain_timestamp(active, date, time), close + 1)
    } else {
        Scan::Absent
    }
}

/// A timestamp at `pos`: `<` or `[`, a date, optionally a time, optionally
/// the name of a day, and `>` or `]`. It is active if `<` opens it.
pub open spec fn timestamp_at(s: Seq<char>, pos: int, end: int) -> Scan<Timestamp> {
    if pos < end && (s[pos] == '<' || s[pos] == '[') {
        match date_shape(s, pos + 1, end) {
            Some((year, month, day, after)) => {
                if is_calendar_date(year, month, day) {
                    timestamp_rest(
                        s,
                        after,
                        end,
                        s[pos] == '<',
                        Date { year: year as i32, month: month as u32, day: day as u32 },
                    )
                } else {
                    Scan::Broken(pos + 1)
                }
            },
            None => Scan::Absent,
        }
    } else {
        Scan::Absent
    }
}

/// The number that the digit at `i` stands for.
fn digit_at(text: &Vec<char>, i: usize) -> (d: u32)
    requires
        i < text@.len(),
        CharClass::Digit.has(text@[i as int]),
    ensures
        d == digit_of(text@[i as int]),
        d <= 9,
{
    let c = text[i];
    ((c as u8) - 48) as u32
}

/// The number that the two digits at `pos` stand for.
fn read2(text: &Vec<char>, pos: usize) -> (r: u32)
    requires
        pos + 2 <= text.len(),
        CharClass::Digit.has(text@[pos as int]),
        CharClass::Digit.has(text@[pos + 1]),
    ensures
        r == number2(text@, pos as int),
        r <= 99,
{
    digit_at(text, pos) * 10 + digit_at(text, pos + 1)
}

/// Reads the shape of a date at `pos`.
fn read_date_shape(text: &Vec<char>, pos: usize, end: usize) -> (r: Option<(u32, u32, u32, usize)>)
    requires
        pos <= end <= text@.len(),
    ensures
        match r {
            Some((y, m, d, next)) => date_shape(text@, pos as int, end as int) == Some(
                (y as int, m as int, d as int, next as int),
            ) && y <= 9999 && m <= 99 && d <= 99 && pos < next <= end,
            None => date_shape(text@, pos as int, end as int) is None,
        },
{
    let y = skip(text, pos, end, CharClass::Digit);
    if !(y - pos == 4 && y < end && text[y] == '-') {
        return None;
    }
    let m = skip(text, y + 1, end, CharClass::Digit);
    if !(m - y == 3 && m < end && text[m] == '-') {
        return None;
    }
    let d = skip(text, m + 1, end, CharClass::Digit);
    if d - m != 3 {
        return None;
    }
    proof {
        let s = text@;
        lemma_skip_class_run(s, pos as int, end as int, CharClass::Digit, pos as int);
        lemma_skip_class_run(s, pos as int, end as int, CharClass::Digit, pos + 1);
        lemma_skip_class_run(s, pos as int, end as int, CharClass::Digit, pos + 2);
        lemma_skip_class_run(s, pos as int, end as int, CharClass::Digit, pos + 3);
        lemma_skip_class_run(s, y + 1, end as int, CharClass::Digit, y + 1);
        lemma_skip_class_run(s, y + 1, end as int, CharClass::Digit, y + 2);
        lemma_skip_class_run(s, m + 1, end as int, CharClass::Digit, m + 1);
        lemma_skip_class_run(s, m + 1, end as int, CharClass::Digit, m + 2);
    }
    let year = read2(text, pos) * 100 + read2(text, pos + 2);
    let month = read2(text, y + 1);
    let day = read2(text, m + 1);
    Some((year, month, day, d))
}

/// Reads the shape of a time at `pos`.
fn read_time_shape(text: &Vec<char>, pos: usize, end: usize) -> (r: Option<(u32, u32, usize)>)
    requires
        pos <= end <= text@.len(),
    ensures
        match r {
            Some((h, m, next)) => time_shape(text@, pos as int, end as int) == Some(
                (h as int, m as int, next as int),
            ) && h <= 99 && m <= 99 && pos < next <= end,
            None => time_shape(text@, pos as int, end as int) is None,
        },
{
    let h = skip(text, pos, end, CharClass::Digit);
    if !(pos < h && h - pos <= 2 && h < end && text[h] == ':') {
        return None;
    }
    let m = skip(text, h + 1, end, CharClass::Digit);
    if m - h != 3 {
        return None;
    }
    proof {
        let s = text@;
        lemma_skip_class_run(s, pos as int, end as int, CharClass::Digit, pos as int);
        if h == pos + 2 {
            lemma_skip_class_run(s, pos as int, end as int, CharClass::Digit, pos + 1);
        }
        lemma_skip_class_run(s, h + 1, end as int, CharClass::Digit, h + 1);
        lemma_skip_class_run(s, h + 1, end as int, CharClass::Digit, h + 2);
        reveal_with_fuel(digits_value, 3);
    }
    let hour = if h - pos == 1 {
        digit_at(text, pos)
    } else {
        read2(text, pos)
    };
    let minute = read2(text, h + 1);
    Some((hour, minute, m))
}

/// Reads the end of a timestamp.
fn read_timestamp_close(
    text: &Vec<char>,
    after: usize,
    end: usize,
    active: bool,
    date: Date,
    time: Option<Time>,
) -> (r: Parsed<Timestamp>)
    requires
        after <= end <= text@.len(),
    ensures
        match r {
            Parsed::Found(ts, next) => timestamp_close(
                text@,
                after as int,
                end as int,
                active,
                date,
                time,
            ) == Scan::Found(ts, next as int) && after < next <= end && ts == plain_timestamp(
                active,
                date,
                time,
            ),
            Parsed::Absent => timestamp_close(text@, after as int, end as int, active, date, time)
                == Scan::<Timestamp>::Absent,
            Parsed::Broken(at) => false,
        },
{
    let b = skip(text, after, end, CharClass::Blank);
    let l = skip(text, b, end, CharClass::Letter);
    let close = if after < b && b < l {
        l
    } else {
        after
    };
    if close < end && (text[close] == '>' || text[close] == ']') {
        Parsed::Found(
            Timestamp { active, date, time, tz: None, end: None, repeater: None, delay: None },
            close + 1,
        )
    } else {
        Parsed::Absent
    }
}

/// Reads a timestamp at `pos`.
pub fn parse_timestamp(text: &Vec<char>, pos: usize, end: usize) -> (r: Parsed<Timestamp>)
    requires
        pos <= end <= text@.len(),
    ensures
        match r {
            Parsed::Found(ts, next) => timestamp_at(text@, pos as int, end as int) == Scan::Found(
                ts,
                next as int,
            ) && pos < next <= end && ts.valid(),
            Parsed::Absent => timestamp_at(text@, pos as int, end as int) == Scan::<
                Timestamp,
            >::Absent,
            Parsed::Broken(at) => timestamp_at(text@, pos as int, end as int) == Scan::<
                Timestamp,
            >::Broken(at as int) && pos <= at <= end,
        },
{
    if !(pos < end && (text[pos] == '<' || text[pos] == '[')) {
        return Parsed::Absent;
    }
    let active = text[pos] == '<';
    let (year, month, day, after) = match read_date_shape(text, pos + 1, end) {
        Some(parts) => parts,
        None => { return Parsed::Absent; },
    };
    let date = match Date::from_ymd(year as i32, month, day) {
        Some(date) => date,
        None => { return Parsed::Broken(pos + 1); },
    };
    let t = skip(text, after, end, CharClass::Blank);
    let shape = if after < t {
        read_time_shape(text, t, end)
    } else {
        None
    };
    match shape {
        Some((hour, minute, next)) => {
            match Time::from_hms(hour, minute, 0) {
                Some(time) => read_timestamp_close(text, next, end, active, date, Some(time)),
                None => Parsed::Broken(t),
            }
        },
        None => read_timestamp_close(text, after, end, active, date, None),
    }
}

/* ----------------------------- Planning lines ----------------------------- */

/// One field of a planning line at `p`: blanks, the keyword, blanks and a
/// timestamp.
pub open spec fn planning_field(s: Seq<char>, p: int, e: int, keyword: Seq<char>) -> Scan<Timestamp> {
    let q = skip_class(s, p, e, CharClass::Blank);
    if has_at(s, q, e, keyword) {
        timestamp_at(s, skip_class(s, q + keyword.len(), e, CharClass::Blank), e)
    } else {
        Scan::Absent
    }
}

/// The fields of a planning line from `p` to the end `e` of the line's
/// content. A field that comes later replaces an earlier one of the same
/// keyword. Anything but fields and white space makes the line no planning
/// line, and so does a line without a field.
pub open spec fn planning_fields(s: Seq<char>, p: int, e: int, acc: Planning, matched: bool) -> Scan<
    Planning,
>
    decreases e - p,
{
    if is_blank(s, p, e) {
        if matched {
            Scan::Found(acc, e)
        } else {
            Scan::Absent
        }
    } else {
        match planning_field(s, p, e, "SCHEDULED:"@) {
            Scan::Found(ts, r) => if p < r <= e {
                planning_fields(s, r, e, Planning { scheduled: Some(ts), ..acc }, true)
            } else {
                Scan::Absent
            },
            Scan::Broken(at) => Scan::Broken(at),
            Scan::Absent => match planning_field(s, p, e, "DEADLINE:"@) {
                Scan::Found(ts, r) => if p < r <= e {
                    planning_fields(s, r, e, Planning { deadline: Some(ts), ..acc }, true)
                } else {
                    Scan::Absent
                },
                Scan::Broken(at) => Scan::Broken(at),
                Scan::Absent => match planning_field(s, p, e, "CLOSED:"@) {
                    Scan::Found(ts, r) => if p < r <= e {
                        planning_fields(s, r, e, Planning { closed: Some(ts), ..acc }, true)
                    } else {
                        Scan::Absent
                    },
                    Scan::Broken(at) => Scan::Broken(at),
                    Scan::Absent => Scan::Absent,
                },
            },
        }
    }
}

/// The planning without timestamps.
pub open spec fn no_planning() -> Planning {
    Planning { scheduled: None, deadline: None, closed: None }
}

/// A planning line at `pos`, and the start of the line after it.
pub open spec fn planning_at(s: Seq<char>, pos: int) -> Scan<Planning> {
    if line_ok(s, pos) {
        match planning_fields(s, pos, line_end(s, pos), no_planning(), false) {
            Scan::Found(p, _) => Scan::Found(p, next_line(s, pos)),
            Scan::Broken(at) => Scan::Broken(at),
            Scan::Absent => Scan::Absent,
        }
    } else {
        Scan::Absent
    }
}

/// Reads one field of a planning line.
fn parse_planning_field(text: &Vec<char>, p: usize, e: usize, keyword: &str) -> (r: Parsed<
    Timestamp,
>)
    requires
        p <= e <= text@.len(),
    ensures
        match r {
            Parsed::Found(ts, next) => planning_field(text@, p as int, e as int, keyword@)
                == Scan::Found(ts, next as int) && p < next <= e && ts.valid(),
            Parsed::Absent => planning_field(text@, p as int, e as int, keyword@) == Scan::<
                Timestamp,
            >::Absent,
            Parsed::Broken(at) => planning_field(text@, p as int, e as int, keyword@) == Scan::<
                Timestamp,
            >::Broken(at as int) && p <= at <= e,
        },
{
    let q = skip(text, p, e, CharClass::Blank);
    if starts_with_at(text, q, e, keyword) {
        let n = keyword.unicode_len();
        let t = skip(text, q + n, e, CharClass::Blank);
        parse_timestamp(text, t, e)
    } else {
        Parsed::Absent
    }
}

/// Reads a planning line at `pos`.
pub fn parse_planning_line(text: &Vec<char>, pos: usize) -> (r: Parsed<Planning>)
    requires
        pos <= text@.len(),
    ensures
        match r {
            Parsed::Found(p, next) => planning_at(text@, pos as int) == Scan::Found(
                p,
                next as int,
            ) && pos < next <= text@.len() && p.valid() && next == next_line(text@, pos as int),
            Parsed::Absent => planning_at(text@, pos as int) == Scan::<Planning>::Absent,
            Parsed::Broken(at) => planning_at(text@, pos as int) == Scan::<Planning>::Broken(
                at as int,
            ) && pos <= at <= text@.len(),
        },
{
    let line = match till_eol(text, pos) {
        Some(line) => line,
        None => { return Parsed::Absent; },
    };
    let e = line.end;
    let mut acc = Planning { scheduled: None, deadline: None, closed: None };
    let mut matched = false;
    let mut p: usize = pos;
    loop
        invariant
            pos <= p <= e <= text@.len(),
            line_ok(text@, pos as int),
            e == line_end(text@, pos as int),
            e <= line.next <= text@.len(),
            line.next == next_line(text@, pos as int),
            acc.valid(),
            matched ==> pos < p,
            planning_fields(text@, pos as int, e as int, no_planning(), false) == planning_fields(
                text@,
                p as int,
                e as int,
                acc,
                matched,
            ),
        decreases e - p,
    {
        if skip(text, p, e, CharClass::White) == e {
            if matched {
                return Parsed::Found(acc, line.next);
            } else {
                return Parsed::Absent;
            }
        }
        match parse_planning_field(text, p, e, "SCHEDULED:") {
            Parsed::Found(ts, r) => {
                acc.scheduled = Some(ts);
                matched = true;
                p = r;
                continue ;
            },
            Parsed::Broken(at) => { return Parsed::Broken(at); },
            Parsed::Absent => {},
        }
        match parse_planning_field(text, p, e, "DEADLINE:") {
            Parsed::Found(ts, r) => {
                acc.deadline = Some(ts);
                matched = true;
                p = r;
                continue ;
            },
            Parsed::Broken(at) => { return Parsed::Broken(at); },
            Parsed::Absent => {},
        }
        match parse_planning_field(text, p, e, "CLOSED:") {
            Parsed::Found(ts, r) => {
                acc.closed = Some(ts);
                matched = true;
                p = r;
                continue ;
            },
            Parsed::Broken(at) => { return Parsed::Broken(at); },
            Parsed::Absent => { return Parsed::Absent; },
        }
    }
}

/* ------------------------------- Clock lines ------------------------------- */

/// The largest number of minutes that a clock entry holds.
pub const MAX_MINUTES: u64 = 9223372036854775807;

/// The duration of a clock line at `pos`: blanks, `=>`, blanks, hours, `:`
/// and minutes, as minutes. Nothing where the minutes do not fit 64 bits.
pub open spec fn minutes_at(s: Seq<char>, pos: int, end: int) -> Option<(i64, int)> {
    let a = skip_class(s, pos, end, CharClass::Blank);
    let b = skip_class(s, a + 2, end, CharClass::Blank);
    let h = skip_class(s, b, end, CharClass::Digit);
    let m = skip_class(s, h + 1, end, CharClass::Digit);
    let hours = digits_value(s, b, h);
    let minutes = digits_value(s, h + 1, m);
    if pair_at(s, a, end, '=', '>') && b < h && h < end && s[h] == ':' && h + 1 < m && hours
        <= MAX_MINUTES && minutes <= MAX_MINUTES && hours * 60 + minutes <= MAX_MINUTES {
        Some(((hours * 60 + minutes) as i64, m))
    } else {
        None
    }
}

/// A clock line at `pos`: blanks, `CLOCK:`, blanks, a timestamp, `--`,
/// optionally a second timestamp, optionally a duration, and the line
/// ending if one follows.
pub open spec fn clock_at(s: Seq<char>, pos: int) -> Scan<ClockEntryView> {
    let n = s.len() as int;
    let a = skip_class(s, pos, n, CharClass::Blank);
    let b0 = a + "CLOCK:"@.len();
    let b = skip_class(s, b0, n, CharClass::Blank);
    if has_at(s, a, n, "CLOCK:"@) && b0 < b {
        match timestamp_at(s, b, n) {
            Scan::Found(start, c) => {
                let c1 = skip_class(s, c, n, CharClass::Blank);
                let d = skip_class(s, c1 + 2, n, CharClass::Blank);
                if pair_at(s, c1, n, '-', '-') {
                    match timestamp_at(s, d, n) {
                        Scan::Broken(at) => Scan::Broken(at),
                        Scan::Found(end, e) => clock_tail(s, start, Some(end), e),
                        Scan::Absent => clock_tail(s, start, None, d),
                    }
                } else {
                    Scan::Absent
                }
            },
            Scan::Broken(at) => Scan::Broken(at),
            Scan::Absent => Scan::Absent,
        }
    } else {
        Scan::Absent
    }
}

/// The end of a clock line: optionally a duration, and the line ending if
/// one follows.
pub open spec fn clock_tail(s: Seq<char>, start: Timestamp, end: Option<Timestamp>, e: int) -> Scan<
    ClockEntryView,
> {
    let n = s.len() as int;
    match minutes_at(s, e, n) {
        Some((minutes, f)) => Scan::Found(
            ClockEntryView { start, end, minutes: Some(minutes), raw: None },
            f + eol_len(s, f),
        ),
        None => Scan::Found(
            ClockEntryView { start, end, minutes: None, raw: None },
            e + eol_len(s, e),
        ),
    }
}

/// The value of a run of digits grows with the run.
proof fn lemma_digits_value_grows(s: Seq<char>, pos: int, k: int, end: int)
    requires
        pos <= k <= end,
        forall|i: int| pos <= i < end ==> CharClass::Digit.has(#[trigger] s[i]),
    ensures
        0 <= digits_value(s, pos, k) <= digits_value(s, pos, end),
    decreases end - k,
{
    lemma_digits_value_nonnegative(s, pos, k);
    if k < end {
        lemma_digits_value_grows(s, pos, k, end - 1);
        lemma_digits_value_nonnegative(s, pos, end - 1);
        assert(CharClass::Digit.has(s[end - 1]));
    }
}

proof fn lemma_digits_value_nonnegative(s: Seq<char>, pos: int, end: int)
    requires
        forall|i: int| pos <= i < end ==> CharClass::Digit.has(#[trigger] s[i]),
    ensures
        0 <= digits_value(s, pos, end),
    decreases end - pos,
{
    if pos < end {
        lemma_digits_value_nonnegative(s, pos, end - 1);
        assert(CharClass::Digit.has(s[end - 1]));
    }
}

/// The number that the digits `text[pos..end]` stand for, if it is at most
/// `MAX_MINUTES`.
fn read_number(text: &Vec<char>, pos: usize, end: usize) -> (r: Option<u64>)
    requires
        pos <= end <= text@.len(),
        forall|i: int| pos <= i < end ==> CharClass::Digit.has(#[trigger] text@[i]),
    ensures
        match r {
            Some(v) => v == digits_value(text@, pos as int, end as int) && v <= MAX_MINUTES,
            None => digits_value(text@, pos as int, end as int) > MAX_MINUTES,
        },
{
    let mut acc: u64 = 0;
    let mut i: usize = pos;
    while i < end
        invariant
            pos <= i <= end <= text@.len(),
            forall|k: int| pos <= k < end ==> CharClass::Digit.has(#[trigger] text@[k]),
            acc == digits_value(text@, pos as int, i as int),
            acc <= MAX_MINUTES,
        decreases end - i,
    {
        assert(CharClass::Digit.has(text@[i as int]));
        let d = digit_at(text, i) as u64;
        if acc > (MAX_MINUTES - d) / 10 {
            proof {
                lemma_digits_value_grows(text@, pos as int, i + 1, end as int);
            }
            return None;
        }
        acc = acc * 10 + d;
        i = i + 1;
    }
    Some(acc)
}

/// Reads the duration of a clock line at `pos`.
pub fn parse_clock_minutes(text: &Vec<char>, pos: usize) -> (r: Option<(i64, usize)>)
    requires
        pos <= text@.len(),
    ensures
        match r {
            Some((v, next)) => minutes_at(text@, pos as int, text@.len() as int) == Some(
                (v, next as int),
            ) && pos < next <= text@.len(),
            None => minutes_at(text@, pos as int, text@.len() as int) is None,
        },
{
    let end = text.len();
    let a = skip(text, pos, end, CharClass::Blank);
    if !is_pair_at(text, a, end, '=', '>') {
        return None;
    }
    let b = skip(text, a + 2, end, CharClass::Blank);
    let h = skip(text, b, end, CharClass::Digit);
    if !(b < h && h < end && text[h] == ':') {
        return None;
    }
    let m = skip(text, h + 1, end, CharClass::Digit);
    if !(h + 1 < m) {
        return None;
    }
    proof {
        assert forall|i: int| b <= i < h implies CharClass::Digit.has(#[trigger] text@[i]) by {
            lemma_skip_class_run(text@, b as int, end as int, CharClass::Digit, i);
        }
        assert forall|i: int| h + 1 <= i < m implies CharClass::Digit.has(#[trigger] text@[i]) by {
            lemma_skip_class_run(text@, h + 1, end as int, CharClass::Digit, i);
        }
    }
    let hours = match read_number(text, b, h) {
        Some(v) => v,
        None => { return None; },
    };
    let minutes = match read_number(text, h + 1, m) {
        Some(v) => v,
        None => { return None; },
    };
    if hours > (MAX_MINUTES - minutes) / 60 {
        return None;
    }
    let total: u64 = hours * 60 + minutes;
    Some((total as i64, m))
}

/// Reads a clock line at `pos`.
pub fn parse_clock_line(text: &Vec<char>, pos: usize) -> (r: Parsed<ClockEntry>)
    requires
        pos <= text@.len(),
    ensures
        match r {
            Parsed::Found(entry, next) => clock_at(text@, pos as int) == Scan::Found(
                entry@,
                next as int,
            ) && pos < next <= text@.len() && entry.start.valid() && (entry.end matches Some(t)
                ==> t.valid()),
            Parsed::Absent => clock_at(text@, pos as int) == Scan::<ClockEntryView>::Absent,
            Parsed::Broken(at) => clock_at(text@, pos as int) == Scan::<ClockEntryView>::Broken(
                at as int,
            ) && pos <= at <= text@.len(),
        },
{
    let n = text.len();
    let a = skip(text, pos, n, CharClass::Blank);
    if !starts_with_at(text, a, n, "CLOCK:") {
        return Parsed::Absent;
    }
    let b0 = a + "CLOCK:".unicode_len();
    let b = skip(text, b0, n, CharClass::Blank);
    if !(b0 < b) {
        return Parsed::Absent;
    }
    let (start, c) = match parse_timestamp(text, b, n) {
        Parsed::Found(ts, c) => (ts, c),
        Parsed::Broken(at) => { return Parsed::Broken(at); },
        Parsed::Absent => { return Parsed::Absent; },
    };
    let c1 = skip(text, c, n, CharClass::Blank);
    if !is_pair_at(text, c1, n, '-', '-') {
        return Parsed::Absent;
    }
    let d = skip(text, c1 + 2, n, CharClass::Blank);
    let (end, e) = match parse_timestamp(text, d, n) {
        Parsed::Found(ts, e) => (Some(ts), e),
        Parsed::Broken(at) => { return Parsed::Broken(at); },
        Parsed::Absent => (None, d),
    };
    let (minutes, f) = match parse_clock_minutes(text, e) {
        Some((v, f)) => (Some(v), f),
        None => (None, e),
    };
    let next = f + eol_at(text, f);
    Parsed::Found(ClockEntry { start, end, minutes, raw: None }, next)
}

} // verus!
