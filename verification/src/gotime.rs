//! Reference-layout time formatting: a layout is written as the reference instant
//! `Mon Jan 2 15:04:05 MST 2006` would be shown, and every piece of it that reads like a part of
//! that instant is replaced by the same part of the instant being formatted.
//!
//! The scanner's surprises matter, because `-snmplog` file names run through it: `Month` and
//! `Janx` stay literal, `_2006` is an underscore plus the year, `.0001` is the literal `.00`
//! followed by the zero-padded month, and a file called `snmp-pm.log` is written as
//! `snmp-am.log` before noon.
use chrono::{Datelike, Offset, Timelike};
use vstd::prelude::*;
use vstd::string::*;

use vstd::slice::slice_subrange;

pub mod layout;
pub mod shown;

use crate::text::{chars_of, decimal, decimal_text, push_char, push_slice};

verus! {

// ---------------------------------------------------------------------------------------
// The calendar
// ---------------------------------------------------------------------------------------
/// Whether `y` is a leap year of the proleptic Gregorian calendar.
pub open spec fn is_leap(y: int) -> bool {
    y % 4 == 0 && (y % 100 != 0 || y % 400 == 0)
}

/// The number of days in month `m` of year `y`.
pub open spec fn days_in_month(y: int, m: int) -> int {
    if m == 2 {
        if is_leap(y) {
            29
        } else {
            28
        }
    } else if m == 4 || m == 6 || m == 9 || m == 11 {
        30
    } else {
        31
    }
}

/// The number of days of year `y` before month `m` begins.
pub open spec fn days_before_month(y: int, m: int) -> int
    decreases m,
{
    if m <= 1 {
        0
    } else {
        days_before_month(y, m - 1) + days_in_month(y, m - 1)
    }
}

/// The number of days from 1970-01-01 to the first day of year `y`.
pub open spec fn days_before_year(y: int) -> int {
    365 * (y - 1) + (y - 1) / 4 - (y - 1) / 100 + (y - 1) / 400 - 719162
}

/// The number of days from 1970-01-01 to the given date.
pub open spec fn epoch_day(y: int, m: int, d: int) -> int {
    days_before_year(y) + days_before_month(y, m) + d - 1
}

/// The first year of the supported calendar.
pub const MIN_YEAR: i32 = -262143;

/// The last year of the supported calendar.
pub const MAX_YEAR: i32 = 262142;

/// The broken-down wall clock of an instant.
#[derive(Debug, Clone, Copy, PartialEq, Eq)]
pub struct Fields {
    pub year: i32,
    /// `1..=12`
    pub month: u32,
    /// `1..=31`
    pub day: u32,
    /// The day of the year, `1..=366`.
    pub yday: u32,
    pub hour: u32,
    pub minute: u32,
    pub second: u32,
    /// `0` is Sunday.
    pub weekday: u32,
}

impl Fields {
    /// The fields are those of the instant `secs` seconds after the start of 1970.
    pub open spec fn is_of(self, secs: int) -> bool {
        let day = epoch_day(self.year as int, self.month as int, self.day as int);
        &&& MIN_YEAR <= self.year <= MAX_YEAR
        &&& 1 <= self.month <= 12
        &&& 1 <= self.day <= days_in_month(self.year as int, self.month as int)
        &&& self.hour < 24
        &&& self.minute < 60
        &&& self.second < 60
        &&& secs == 86400 * day + 3600 * self.hour + 60 * self.minute + self.second
        &&& self.yday == days_before_month(self.year as int, self.month as int) + self.day
        &&& self.weekday == (day + 4) % 7
    }
}

/// Whether the instant lies in a year that the calendar supports.
pub open spec fn in_calendar(secs: int) -> bool {
    86400 * days_before_year(MIN_YEAR as int) <= secs < 86400 * days_before_year(MAX_YEAR + 1)
}

/// `chrono::DateTime::from_timestamp`, read out field by field in UTC: the date and the time of
/// day of an instant of the proleptic Gregorian calendar, or nothing when its year is outside
/// the range that `chrono` can hold.
#[verifier::external_body]
fn calendar(secs: i64) -> (f: Option<Fields>)
    ensures
        f is Some <==> in_calendar(secs as int),
        f is Some ==> f->0.is_of(secs as int),
{
    let t = chrono::DateTime::from_timestamp(secs, 0)?.naive_utc();
    Some(
        Fields {
            year: t.year(),
            month: t.month(),
            day: t.day(),
            yday: t.ordinal(),
            hour: t.hour(),
            minute: t.minute(),
            second: t.second(),
            weekday: t.weekday().num_days_from_sunday(),
        },
    )
}

/// `chrono::Local::now`: the seconds and nanoseconds of the machine's clock and the offset of
/// its zone. Nothing can be promised of the clock; the nanoseconds may run past one second
/// while a leap second lasts, and an offset is always less than a day. (A machine that is set to a
/// zone further away than that makes `chrono` panic; there is no such zone.)
#[verifier::external_body]
pub(crate) fn local_now() -> (r: (i64, u32, i32))
    ensures
        r.1 < 2_000_000_000,
        -86400 < r.2 < 86400,
{
    let now = chrono::Local::now();
    (now.timestamp(), now.timestamp_subsec_nanos(), now.offset().fix().local_minus_utc())
}

// ---------------------------------------------------------------------------------------
// The instant that is formatted
// ---------------------------------------------------------------------------------------
/// An instant, the offset of the zone that it is shown in, and the zone's abbreviation.
#[derive(Debug, Clone, PartialEq, Eq)]
pub struct Time {
    /// Seconds since the unix epoch.
    pub unix_secs: i64,
    /// Nanoseconds within the second, `0..1_000_000_000`.
    pub nanos: u32,
    /// Seconds the zone is ahead of UTC at this instant.
    pub offset_secs: i32,
    /// The zone's abbreviation (`UTC`, `CEST`), as the `MST` token prints it. When it is empty,
    /// `MST` falls back to the numeric form.
    pub zone_name: String,
}

/// The wall clock of an instant in its zone, in seconds, held to what an `i64` can count.
pub open spec fn wall_secs(unix_secs: int, offset_secs: int) -> int {
    if unix_secs + offset_secs > i64::MAX {
        i64::MAX as int
    } else if unix_secs + offset_secs < i64::MIN {
        i64::MIN as int
    } else {
        unix_secs + offset_secs
    }
}

/// The instant whose calendar fields are shown for a wall clock: the wall clock itself, or the
/// epoch when its year is outside the calendar.
pub open spec fn shown_secs(wall: int) -> int {
    if in_calendar(wall) {
        wall
    } else {
        0
    }
}

impl Time {
    /// An instant in a zone given by its offset and abbreviation.
    pub fn new(unix_secs: i64, nanos: u32, offset_secs: i32, zone_name: &str) -> (t: Time)
        ensures
            t.unix_secs == unix_secs,
            t.nanos == nanos,
            t.offset_secs == offset_secs,
            t.zone_name@ == zone_name@,
    {
        Time { unix_secs, nanos, offset_secs, zone_name: zone_name.to_owned() }
    }

    /// The current instant in the machine's local zone.
    ///
    /// The zone's abbreviation is left empty, because the clock does not tell it: a layout that
    /// holds `MST` shows the numeric offset.
    pub fn now() -> (t: Time)
        ensures
            t.nanos < 2_000_000_000,
            -86400 < t.offset_secs < 86400,
            t.zone_name@.len() == 0,
    {
        let (unix_secs, nanos, offset_secs) = local_now();
        Time { unix_secs, nanos, offset_secs, zone_name: String::new() }
    }

    /// The broken-down wall clock of this instant in its own zone.
    pub fn fields(&self) -> (f: Fields)
        ensures
            f.is_of(shown_secs(wall_secs(self.unix_secs as int, self.offset_secs as int))),
    {
        calendar_or_epoch(wall_clock(self.unix_secs, self.offset_secs))
    }
}

/// The calendar fields of an instant, or those of the epoch when it is outside the calendar.
pub(crate) fn calendar_or_epoch(secs: i64) -> (f: Fields)
    ensures
        f.is_of(shown_secs(secs as int)),
{
    match calendar(secs) {
        Some(f) => f,
        None => {
            proof {
                reveal_with_fuel(days_before_month, 2);
            }
            Fields {
                year: 1970,
                month: 1,
                day: 1,
                yday: 1,
                hour: 0,
                minute: 0,
                second: 0,
                weekday: 4,
            }
        },
    }
}

/// The sum of an instant and an offset, held to the range of `i64`.
pub(crate) fn wall_clock(unix_secs: i64, offset_secs: i32) -> (secs: i64)
    ensures
        secs == wall_secs(unix_secs as int, offset_secs as int),
{
    match unix_secs.checked_add(offset_secs as i64) {
        Some(s) => s,
        None => if offset_secs > 0 {
            i64::MAX
        } else {
            i64::MIN
        },
    }
}

// ---------------------------------------------------------------------------------------
// The layout scanner
// ---------------------------------------------------------------------------------------
/// One reference-layout token.
#[derive(Debug, Clone, Copy, PartialEq, Eq)]
pub enum Std {
    /// `January`
    LongMonth,
    /// `Jan`
    Month,
    /// `1`
    NumMonth,
    /// `01`
    ZeroMonth,
    /// `Monday`
    LongWeekDay,
    /// `Mon`
    WeekDay,
    /// `2`
    Day,
    /// `_2`
    UnderDay,
    /// `02`
    ZeroDay,
    /// `__2`
    UnderYearDay,
    /// `002`
    ZeroYearDay,
    /// `15`
    Hour,
    /// `3`
    Hour12,
    /// `03`
    ZeroHour12,
    /// `4`
    Minute,
    /// `04`
    ZeroMinute,
    /// `5`
    Second,
    /// `05`
    ZeroSecond,
    /// `2006`
    LongYear,
    /// `06`
    Year,
    /// `PM` (`upper`) and `pm`
    Pm {
        /// `PM`/`AM` rather than `pm`/`am`.
        upper: bool,
    },
    /// `MST`
    Tz,
    /// The ten numeric zone tokens, `-07...` and `Z07...`.
    NumTz {
        /// A `Z...` token: prints `Z` when the offset is zero.
        iso: bool,
        /// `...07:00...`: the parts are separated by colons.
        colon: bool,
        /// `-07` / `Z07`: hours only.
        short: bool,
        /// `...0000` / `...00:00`: the offset's seconds are printed too.
        seconds: bool,
    },
    /// `.0...`, `,0...` (`trim` unset) and `.9...`, `,9...` (`trim` set).
    FracSecond {
        /// Drop trailing zeros and, if nothing is left, the separator.
        trim: bool,
        /// How many digits the layout asked for, modulo 4096.
        digits: usize,
        /// The separator is `,` rather than `.`.
        comma: bool,
    },
}

/// Whether `pat` stands in `s` at position `i`.
pub open spec fn stands_at(s: Seq<char>, i: int, pat: Seq<char>) -> bool {
    i + pat.len() <= s.len() && s.subrange(i, i + pat.len()) == pat
}

/// Whether a lower-case ASCII letter stands in `s` at position `i`.
pub open spec fn lower_at(s: Seq<char>, i: int) -> bool {
    i < s.len() && 'a' <= s[i] <= 'z'
}

/// Whether a decimal digit stands in `s` at position `i`.
pub open spec fn digit_at(s: Seq<char>, i: int) -> bool {
    i < s.len() && '0' <= s[i] <= '9'
}

/// The end of the run of characters `c` that begins at position `i`.
pub open spec fn run_end(s: Seq<char>, i: int, c: char) -> int
    decreases s.len() - i,
{
    if 0 <= i < s.len() && s[i] == c {
        run_end(s, i + 1, c)
    } else {
        i
    }
}

/// Whether a fractional-second token begins at position `i`: a separator, then a run of zeros or
/// of nines that no other digit follows.
pub open spec fn fraction_at(s: Seq<char>, i: int) -> bool {
    &&& i + 1 < s.len()
    &&& s[i] == '.' || s[i] == ','
    &&& s[i + 1] == '0' || s[i + 1] == '9'
    &&& !digit_at(s, run_end(s, i + 1, s[i + 1]))
}

/// A token that a layout holds at some position: how many characters of literal text stand before
/// it, and how many characters it takes.
#[derive(Debug, Clone, Copy, PartialEq, Eq)]
pub struct Token {
    pub lead: usize,
    pub std: Std,
    pub len: usize,
}

/// A token that begins where it was found.
pub open spec fn tok(std: Std, len: int) -> Option<Token> {
    Some(Token { lead: 0, std, len: len as usize })
}

/// A numeric zone token.
pub open spec fn zone_tok(iso: bool, colon: bool, short: bool, seconds: bool, len: int) -> Option<
    Token,
> {
    tok(Std::NumTz { iso, colon, short, seconds }, len)
}

/// The numeric zone token after its first character.
pub open spec fn zone_at(s: Seq<char>, i: int, iso: bool) -> Option<Token> {
    if stands_at(s, i + 1, "070000"@) {
        zone_tok(iso, false, false, true, 7)
    } else if stands_at(s, i + 1, "07:00:00"@) {
        zone_tok(iso, true, false, true, 9)
    } else if stands_at(s, i + 1, "0700"@) {
        zone_tok(iso, false, false, false, 5)
    } else if stands_at(s, i + 1, "07:00"@) {
        zone_tok(iso, true, false, false, 6)
    } else if stands_at(s, i + 1, "07"@) {
        zone_tok(iso, false, true, false, 3)
    } else {
        None
    }
}

/// The tokens `01` to `06` and `002`.
pub open spec fn zero_at(s: Seq<char>, i: int) -> Option<Token> {
    if stands_at(s, i, "01"@) {
        tok(Std::ZeroMonth, 2)
    } else if stands_at(s, i, "02"@) {
        tok(Std::ZeroDay, 2)
    } else if stands_at(s, i, "03"@) {
        tok(Std::ZeroHour12, 2)
    } else if stands_at(s, i, "04"@) {
        tok(Std::ZeroMinute, 2)
    } else if stands_at(s, i, "05"@) {
        tok(Std::ZeroSecond, 2)
    } else if stands_at(s, i, "06"@) {
        tok(Std::Year, 2)
    } else if stands_at(s, i, "002"@) {
        tok(Std::ZeroYearDay, 3)
    } else {
        None
    }
}

/// The tokens that begin with a letter other than `Z`.
pub open spec fn word_at(s: Seq<char>, i: int) -> Option<Token> {
    if stands_at(s, i, "January"@) {
        tok(Std::LongMonth, 7)
    } else if stands_at(s, i, "Jan"@) && !lower_at(s, i + 3) {
        tok(Std::Month, 3)
    } else if stands_at(s, i, "Monday"@) {
        tok(Std::LongWeekDay, 6)
    } else if stands_at(s, i, "Mon"@) && !lower_at(s, i + 3) {
        tok(Std::WeekDay, 3)
    } else if stands_at(s, i, "MST"@) {
        tok(Std::Tz, 3)
    } else if stands_at(s, i, "PM"@) {
        tok(Std::Pm { upper: true }, 2)
    } else if stands_at(s, i, "pm"@) {
        tok(Std::Pm { upper: false }, 2)
    } else {
        None
    }
}

/// The tokens that begin with a digit other than zero, or with an underscore.
pub open spec fn number_at(s: Seq<char>, i: int) -> Option<Token> {
    if stands_at(s, i, "15"@) {
        tok(Std::Hour, 2)
    } else if stands_at(s, i, "1"@) {
        tok(Std::NumMonth, 1)
    } else if stands_at(s, i, "2006"@) {
        tok(Std::LongYear, 4)
    } else if stands_at(s, i, "2"@) {
        tok(Std::Day, 1)
    } else if stands_at(s, i, "_2006"@) {
        Some(Token { lead: 1, std: Std::LongYear, len: 4 })
    } else if stands_at(s, i, "_2"@) {
        tok(Std::UnderDay, 2)
    } else if stands_at(s, i, "__2"@) {
        tok(Std::UnderYearDay, 3)
    } else if stands_at(s, i, "3"@) {
        tok(Std::Hour12, 1)
    } else if stands_at(s, i, "4"@) {
        tok(Std::Minute, 1)
    } else if stands_at(s, i, "5"@) {
        tok(Std::Second, 1)
    } else {
        None
    }
}

/// The token that begins at position `i`, if one does.
pub open spec fn token_at(s: Seq<char>, i: int) -> Option<Token> {
    if word_at(s, i) is Some {
        word_at(s, i)
    } else if zero_at(s, i) is Some {
        zero_at(s, i)
    } else if number_at(s, i) is Some {
        number_at(s, i)
    } else if stands_at(s, i, "-"@) {
        zone_at(s, i, false)
    } else if stands_at(s, i, "Z"@) {
        zone_at(s, i, true)
    } else if fraction_at(s, i) {
        let end = run_end(s, i + 1, s[i + 1]);
        tok(
            Std::FracSecond {
                trim: s[i + 1] == '9',
                digits: ((end - (i + 1)) % 4096) as usize,
                comma: s[i] == ',',
            },
            end - i,
        )
    } else {
        None
    }
}

/// The first position from `i` on at which a token begins; the layout's length when none does.
pub open spec fn token_pos(s: Seq<char>, i: int) -> int
    decreases s.len() - i,
{
    if i >= s.len() || token_at(s, i) is Some {
        i
    } else {
        token_pos(s, i + 1)
    }
}

// ---------------------------------------------------------------------------------------
// What a token shows
// ---------------------------------------------------------------------------------------
/// A sequence of `n` times the character `c`.
pub open spec fn fill(c: char, n: int) -> Seq<char> {
    Seq::new(if n < 0 { 0 } else { n as nat }, |i: int| c)
}

/// `x` in decimal, zero-padded to at least `width` digits, the sign not counted.
#[verifier::opaque]
pub open spec fn int_text(x: int, width: int) -> Seq<char> {
    let d = decimal((if x < 0 { -x } else { x }) as nat);
    let padded = fill('0', width - d.len()) + d;
    if x < 0 {
        seq!['-'] + padded
    } else {
        padded
    }
}

/// `s` without its trailing zeros.
pub open spec fn without_trailing_zeros(s: Seq<char>) -> Seq<char>
    decreases s.len(),
{
    if s.len() > 0 && s.last() == '0' {
        without_trailing_zeros(s.drop_last())
    } else {
        s
    }
}

/// The fraction of a second: the separator followed by `digits` digits of `nanos`, with the
/// trailing zeros, and then the separator, removed when `trim` is set.
pub open spec fn nano_text(nanos: int, trim: bool, digits: int, comma: bool) -> Seq<char> {
    let all = int_text(nanos, 9);
    let cut = if digits < 9 {
        all.take(digits)
    } else {
        all
    };
    let frac = if trim {
        without_trailing_zeros(cut)
    } else {
        cut
    };
    if trim && frac.len() == 0 {
        Seq::empty()
    } else {
        seq![if comma { ',' } else { '.' }] + frac
    }
}

/// The English name of a month, 1 being January.
pub open spec fn month_name(m: int) -> Seq<char> {
    if m == 1 {
        "January"@
    } else if m == 2 {
        "February"@
    } else if m == 3 {
        "March"@
    } else if m == 4 {
        "April"@
    } else if m == 5 {
        "May"@
    } else if m == 6 {
        "June"@
    } else if m == 7 {
        "July"@
    } else if m == 8 {
        "August"@
    } else if m == 9 {
        "September"@
    } else if m == 10 {
        "October"@
    } else if m == 11 {
        "November"@
    } else {
        "December"@
    }
}

/// The English name of a weekday, 0 being Sunday.
pub open spec fn day_name(d: int) -> Seq<char> {
    if d == 0 {
        "Sunday"@
    } else if d == 1 {
        "Monday"@
    } else if d == 2 {
        "Tuesday"@
    } else if d == 3 {
        "Wednesday"@
    } else if d == 4 {
        "Thursday"@
    } else if d == 5 {
        "Friday"@
    } else {
        "Saturday"@
    }
}

/// The hour on a twelve-hour clock: noon and midnight are 12.
pub open spec fn hour12_of(hour: int) -> int {
    if hour % 12 == 0 {
        12
    } else {
        hour % 12
    }
}

/// The sign, hours and minutes of an offset: an offset of less than a minute counts as none.
pub open spec fn zone_sign(offset: int) -> Seq<char> {
    if offset <= -60 {
        seq!['-']
    } else {
        seq!['+']
    }
}

/// The whole minutes of an offset, without its sign.
pub open spec fn zone_minutes(offset: int) -> int {
    if offset < 0 {
        -offset / 60
    } else {
        offset / 60
    }
}

/// The seconds that a zone token with seconds shows. An offset of less than a minute below zero
/// shows them with the sign, since the sign before the hours is then a plus.
pub open spec fn zone_seconds(offset: int) -> int {
    if offset <= -60 {
        -offset % 60
    } else if offset < 0 {
        offset
    } else {
        offset % 60
    }
}

/// What a numeric zone token shows.
pub open spec fn zone_text(
    offset: int,
    iso: bool,
    colon: bool,
    short: bool,
    seconds: bool,
) -> Seq<char> {
    let sep = if colon {
        seq![':']
    } else {
        Seq::empty()
    };
    if offset == 0 && iso {
        seq!['Z']
    } else {
        zone_sign(offset) + int_text(zone_minutes(offset) / 60, 2) + sep + (if short {
            Seq::empty()
        } else {
            int_text(zone_minutes(offset) % 60, 2)
        }) + (if seconds {
            sep + int_text(zone_seconds(offset), 2)
        } else {
            Seq::empty()
        })
    }
}

/// What a token shows for an instant with the given calendar fields.
pub open spec fn token_text(std: Std, f: Fields, t: Time) -> Seq<char> {
    match std {
        Std::Year => int_text((if f.year < 0 { -(f.year as int) } else { f.year as int }) % 100, 2),
        Std::LongYear => int_text(f.year as int, 4),
        Std::Month => month_name(f.month as int).take(3),
        Std::LongMonth => month_name(f.month as int),
        Std::NumMonth => int_text(f.month as int, 0),
        Std::ZeroMonth => int_text(f.month as int, 2),
        Std::WeekDay => day_name(f.weekday as int).take(3),
        Std::LongWeekDay => day_name(f.weekday as int),
        Std::Day => int_text(f.day as int, 0),
        Std::UnderDay => (if f.day < 10 { seq![' '] } else { Seq::empty() }) + int_text(
            f.day as int,
            0,
        ),
        Std::ZeroDay => int_text(f.day as int, 2),
        Std::UnderYearDay => (if f.yday < 10 {
            seq![' ', ' ']
        } else if f.yday < 100 {
            seq![' ']
        } else {
            Seq::empty()
        }) + int_text(f.yday as int, 0),
        Std::ZeroYearDay => int_text(f.yday as int, 3),
        Std::Hour => int_text(f.hour as int, 2),
        Std::Hour12 => int_text(hour12_of(f.hour as int), 0),
        Std::ZeroHour12 => int_text(hour12_of(f.hour as int), 2),
        Std::Minute => int_text(f.minute as int, 0),
        Std::ZeroMinute => int_text(f.minute as int, 2),
        Std::Second => int_text(f.second as int, 0),
        Std::ZeroSecond => int_text(f.second as int, 2),
        Std::Pm { upper } => if f.hour >= 12 {
            if upper {
                "PM"@
            } else {
                "pm"@
            }
        } else {
            if upper {
                "AM"@
            } else {
                "am"@
            }
        },
        Std::NumTz { iso, colon, short, seconds } => zone_text(
            t.offset_secs as int,
            iso,
            colon,
            short,
            seconds,
        ),
        Std::Tz => if t.zone_name@.len() > 0 {
            t.zone_name@
        } else {
            zone_text(t.offset_secs as int, false, false, false, false)
        },
        Std::FracSecond { trim, digits, comma } => nano_text(
            t.nanos as int,
            trim,
            digits as int,
            comma,
        ),
    }
}

/// The layout `s` with every token, from left to right, replaced by what it shows.
pub open spec fn rendered(s: Seq<char>, f: Fields, t: Time) -> Seq<char>
    decreases s.len(),
{
    let i = token_pos(s, 0);
    if 0 <= i < s.len() && token_at(s, i) is Some {
        let k = token_at(s, i)->0;
        if k.len > 0 && i + k.lead + k.len <= s.len() {
            s.take(i + k.lead) + token_text(k.std, f, t) + rendered(
                s.skip(i + k.lead + k.len),
                f,
                t,
            )
        } else {
            s
        }
    } else {
        s
    }
}

// ---------------------------------------------------------------------------------------
// Scanning and rendering
// ---------------------------------------------------------------------------------------
/// Whether `pat` stands in `s` at position `i`.
fn has_at(s: &[char], i: usize, pat: &str) -> (r: bool)
    requires
        i <= s.len(),
    ensures
        r == stands_at(s@, i as int, pat@),
{
    let p = chars_of(pat);
    if s.len() - i < p.len() {
        return false;
    }
    let mut k: usize = 0;
    while k < p.len()
        invariant
            p@ == pat@,
            i + p.len() <= s.len(),
            k <= p.len(),
            forall|j: int| 0 <= j < k ==> s@[i + j] == p@[j],
        decreases p.len() - k,
    {
        if s[i + k] != p[k] {
            assert(s@.subrange(i as int, i + p.len())[k as int] != p@[k as int]);
            return false;
        }
        k = k + 1;
    }
    assert(s@.subrange(i as int, i + p.len()) =~= p@);
    true
}

/// Whether `s` has a lower-case letter at position `i`. Prevents matching `Month` when looking
/// for `Mon`.
fn starts_with_lower_case(s: &[char], i: usize) -> (r: bool)
    ensures
        r == lower_at(s@, i as int),
{
    i < s.len() && 'a' <= s[i] && s[i] <= 'z'
}

/// Whether character `i` of `s` is a decimal digit (false past the end).
fn is_digit(s: &[char], i: usize) -> (r: bool)
    ensures
        r == digit_at(s@, i as int),
{
    i < s.len() && '0' <= s[i] && s[i] <= '9'
}

/// A token that begins where it was found.
fn token(std: Std, len: usize) -> (t: Option<Token>)
    ensures
        t == tok(std, len as int),
{
    Some(Token { lead: 0, std, len })
}

/// The numeric zone token after its first character.
fn scan_zone(s: &[char], i: usize, iso: bool) -> (t: Option<Token>)
    requires
        i < s.len(),
    ensures
        t == zone_at(s@, i as int, iso),
{
    let j: usize = i + 1;
    if has_at(s, j, "070000") {
        token(Std::NumTz { iso, colon: false, short: false, seconds: true }, 7)
    } else if has_at(s, j, "07:00:00") {
        token(Std::NumTz { iso, colon: true, short: false, seconds: true }, 9)
    } else if has_at(s, j, "0700") {
        token(Std::NumTz { iso, colon: false, short: false, seconds: false }, 5)
    } else if has_at(s, j, "07:00") {
        token(Std::NumTz { iso, colon: true, short: false, seconds: false }, 6)
    } else if has_at(s, j, "07") {
        token(Std::NumTz { iso, colon: false, short: true, seconds: false }, 3)
    } else {
        None
    }
}

/// The tokens `01` to `06` and `002`.
fn scan_zero(s: &[char], i: usize) -> (t: Option<Token>)
    requires
        i < s.len(),
    ensures
        t == zero_at(s@, i as int),
{
    if has_at(s, i, "01") {
        token(Std::ZeroMonth, 2)
    } else if has_at(s, i, "02") {
        token(Std::ZeroDay, 2)
    } else if has_at(s, i, "03") {
        token(Std::ZeroHour12, 2)
    } else if has_at(s, i, "04") {
        token(Std::ZeroMinute, 2)
    } else if has_at(s, i, "05") {
        token(Std::ZeroSecond, 2)
    } else if has_at(s, i, "06") {
        token(Std::Year, 2)
    } else if has_at(s, i, "002") {
        token(Std::ZeroYearDay, 3)
    } else {
        None
    }
}

/// The tokens that begin with a letter other than `Z`.
fn scan_word(s: &[char], i: usize) -> (t: Option<Token>)
    requires
        i < s.len(),
    ensures
        t == word_at(s@, i as int),
{
    proof {
        reveal_strlit("Jan");
        reveal_strlit("Mon");
    }
    if has_at(s, i, "January") {
        token(Std::LongMonth, 7)
    } else if has_at(s, i, "Jan") && !starts_with_lower_case(s, i + 3) {
        token(Std::Month, 3)
    } else if has_at(s, i, "Monday") {
        token(Std::LongWeekDay, 6)
    } else if has_at(s, i, "Mon") && !starts_with_lower_case(s, i + 3) {
        token(Std::WeekDay, 3)
    } else if has_at(s, i, "MST") {
        token(Std::Tz, 3)
    } else if has_at(s, i, "PM") {
        token(Std::Pm { upper: true }, 2)
    } else if has_at(s, i, "pm") {
        token(Std::Pm { upper: false }, 2)
    } else {
        None
    }
}

/// The tokens that begin with a digit other than zero, or with an underscore.
fn scan_number(s: &[char], i: usize) -> (t: Option<Token>)
    requires
        i < s.len(),
    ensures
        t == number_at(s@, i as int),
{
    if has_at(s, i, "15") {
        token(Std::Hour, 2)
    } else if has_at(s, i, "1") {
        token(Std::NumMonth, 1)
    } else if has_at(s, i, "2006") {
        token(Std::LongYear, 4)
    } else if has_at(s, i, "2") {
        token(Std::Day, 1)
    } else if has_at(s, i, "_2006") {
        Some(Token { lead: 1, std: Std::LongYear, len: 4 })
    } else if has_at(s, i, "_2") {
        token(Std::UnderDay, 2)
    } else if has_at(s, i, "__2") {
        token(Std::UnderYearDay, 3)
    } else if has_at(s, i, "3") {
        token(Std::Hour12, 1)
    } else if has_at(s, i, "4") {
        token(Std::Minute, 1)
    } else if has_at(s, i, "5") {
        token(Std::Second, 1)
    } else {
        None
    }
}

/// The end of the run of characters `c` that begins at position `i`.
fn scan_run(s: &[char], i: usize, c: char) -> (end: usize)
    requires
        i <= s.len(),
    ensures
        end == run_end(s@, i as int, c),
        i <= end <= s.len(),
{
    let mut j: usize = i;
    while j < s.len() && s[j] == c
        invariant
            i <= j <= s.len(),
            run_end(s@, j as int, c) == run_end(s@, i as int, c),
        decreases s.len() - j,
    {
        j = j + 1;
    }
    j
}

/// The token that begins at position `i`, if one does.
fn scan_token(s: &[char], i: usize) -> (t: Option<Token>)
    requires
        i < s.len(),
    ensures
        t == token_at(s@, i as int),
{
    let word = scan_word(s, i);
    if word.is_some() {
        return word;
    }
    let zero = scan_zero(s, i);
    if zero.is_some() {
        return zero;
    }
    let number = scan_number(s, i);
    if number.is_some() {
        return number;
    }
    if has_at(s, i, "-") {
        return scan_zone(s, i, false);
    }
    if has_at(s, i, "Z") {
        return scan_zone(s, i, true);
    }
    if s.len() - i > 1 && (s[i] == '.' || s[i] == ',') && (s[i + 1] == '0' || s[i + 1] == '9') {
        let c = s[i + 1];
        let end = scan_run(s, i + 1, c);
        // Only a fractional second is all digits: the run must end here.
        if !is_digit(s, end) {
            return token(
                Std::FracSecond {
                    trim: c == '9',
                    digits: (end - (i + 1)) % 4096,
                    comma: s[i] == ',',
                },
                end - i,
            );
        }
    }
    None
}

/// A token takes at least one character, and stands inside the layout.
proof fn lemma_token_fits(s: Seq<char>, i: int)
    requires
        0 <= i < s.len(),
        s.len() <= usize::MAX,
        token_at(s, i) is Some,
    ensures
        token_at(s, i)->0.len > 0,
        i + token_at(s, i)->0.lead + token_at(s, i)->0.len <= s.len(),
{
    reveal_strlit("January");
    reveal_strlit("Jan");
    reveal_strlit("Monday");
    reveal_strlit("Mon");
    reveal_strlit("MST");
    reveal_strlit("PM");
    reveal_strlit("pm");
    reveal_strlit("01");
    reveal_strlit("02");
    reveal_strlit("03");
    reveal_strlit("04");
    reveal_strlit("05");
    reveal_strlit("06");
    reveal_strlit("002");
    reveal_strlit("15");
    reveal_strlit("1");
    reveal_strlit("2006");
    reveal_strlit("2");
    reveal_strlit("_2006");
    reveal_strlit("_2");
    reveal_strlit("__2");
    reveal_strlit("3");
    reveal_strlit("4");
    reveal_strlit("5");
    reveal_strlit("070000");
    reveal_strlit("07:00:00");
    reveal_strlit("0700");
    reveal_strlit("07:00");
    reveal_strlit("07");
    if fraction_at(s, i) {
        lemma_run_end(s, i + 1, s[i + 1]);
    }
}

/// A run ends inside the sequence, and holds nothing but its character.
proof fn lemma_run_end(s: Seq<char>, i: int, c: char)
    requires
        0 <= i <= s.len(),
    ensures
        i <= run_end(s, i, c) <= s.len(),
        i < s.len() && s[i] == c ==> i < run_end(s, i, c),
        forall|j: int| i <= j < run_end(s, i, c) ==> s[j] == c,
    decreases s.len() - i,
{
    if i < s.len() && s[i] == c {
        lemma_run_end(s, i + 1, c);
    }
}

/// Finds the first token of a layout: the length of the literal text before it, the token, and
/// the position at which the rest of the layout begins. Without a token, the literal text is the
/// whole layout.
fn next_std_chunk(layout: &[char]) -> (r: (usize, Option<Std>, usize))
    ensures
        r.0 <= r.2 <= layout.len(),
        ({
            let i = token_pos(layout@, 0);
            if i < layout.len() {
                let k = token_at(layout@, i)->0;
                &&& 0 <= i
                &&& token_at(layout@, i) is Some
                &&& r.0 == i + k.lead
                &&& r.1 == Some(k.std)
                &&& r.2 == i + k.lead + k.len
                &&& k.len > 0
            } else {
                r.0 == layout.len() && r.1 is None && r.2 == layout.len()
            }
        }),
{
    let mut i: usize = 0;
    while i < layout.len()
        invariant
            i <= layout.len(),
            token_pos(layout@, i as int) == token_pos(layout@, 0),
        decreases layout.len() - i,
    {
        if let Some(k) = scan_token(layout, i) {
            proof {
                lemma_token_fits(layout@, i as int);
            }
            return (i + k.lead, Some(k.std), i + k.lead + k.len);
        }
        i = i + 1;
    }
    (layout.len(), None, layout.len())
}

/// The hour on a twelve-hour clock: noon is 12PM, midnight is 12AM.
fn hour12(hour: u32) -> (h: u32)
    ensures
        h == hour12_of(hour as int),
        1 <= h <= 12,
{
    let hr: u32 = hour % 12;
    if hr == 0 {
        12
    } else {
        hr
    }
}

/// Appends `n` times the character `c`.
fn append_fill(out: &mut String, c: char, n: usize)
    ensures
        final(out)@ == old(out)@ + fill(c, n as int),
{
    let mut i: usize = 0;
    while i < n
        invariant
            i <= n,
            out@ == old(out)@ + fill(c, i as int),
        decreases n - i,
    {
        push_char(out, c);
        i = i + 1;
        assert(out@ =~= old(out)@ + fill(c, i as int));
    }
    assert(n == 0 ==> out@ =~= old(out)@ + fill(c, 0));
}

/// Appends `x` in decimal, zero-padded to at least `width` digits.
pub(crate) fn append_int(out: &mut String, x: i64, width: usize)
    ensures
        final(out)@ == old(out)@ + int_text(x as int, width as int),
{
    reveal(int_text);
    let u: u64 = if x < 0 {
        push_char(out, '-');
        if x == i64::MIN {
            9223372036854775808
        } else {
            (-x) as u64
        }
    } else {
        x as u64
    };
    let text = decimal_text(u);
    if text.len() < width {
        append_fill(out, '0', width - text.len());
    }
    push_slice(out, text.as_slice(), 0, text.len());
    assert(text@.subrange(0, text@.len() as int) =~= text@);
    assert(out@ =~= old(out)@ + int_text(x as int, width as int));
}

/// Appends the fraction of a second: the separator followed by `digits` digits of `nanosec`, with
/// trailing zeros (and then the separator) removed when `trim` is set.
fn append_nano(out: &mut String, nanosec: u32, trim: bool, digits: usize, comma: bool)
    ensures
        final(out)@ == old(out)@ + nano_text(nanosec as int, trim, digits as int, comma),
{
    reveal(int_text);
    let mut text: Vec<char> = Vec::new();
    let number = decimal_text(nanosec as u64);
    let mut i: usize = number.len();
    while i < 9
        invariant
            number.len() <= i,
            i <= 9 || i == number.len(),
            text@ == fill('0', i - number.len()),
        decreases 9 - i,
    {
        text.push('0');
        i = i + 1;
        assert(text@ =~= fill('0', i - number.len()));
    }
    let mut k: usize = 0;
    let ghost zeros = text@;
    while k < number.len()
        invariant
            k <= number.len(),
            text@ == zeros + number@.take(k as int),
        decreases number.len() - k,
    {
        text.push(number[k]);
        k = k + 1;
        assert(text@ =~= zeros + number@.take(k as int));
    }
    assert(number@.take(k as int) =~= number@);
    assert(text@ == int_text(nanosec as int, 9));
    let mut end: usize = if digits < 9 {
        digits
    } else {
        text.len()
    };
    let ghost cut = text@.take(end as int);
    assert(digits >= 9 ==> cut =~= text@);
    if trim {
        while end > 0 && text[end - 1] == '0'
            invariant
                end <= text.len(),
                without_trailing_zeros(text@.take(end as int)) == without_trailing_zeros(cut),
            decreases end,
        {
            assert(text@.take(end as int).drop_last() =~= text@.take(end - 1));
            end = end - 1;
        }
        assert(without_trailing_zeros(cut) == text@.take(end as int));
        if end == 0 {
            assert(out@ =~= old(out)@ + nano_text(nanosec as int, trim, digits as int, comma));
            return;
        }
    }
    push_char(
        out,
        if comma {
            ','
        } else {
            '.'
        },
    );
    push_slice(out, text.as_slice(), 0, end);
    assert(text@.subrange(0, end as int) =~= text@.take(end as int));
    assert(out@ =~= old(out)@ + nano_text(nanosec as int, trim, digits as int, comma));
}

/// The English name of a month, 1 being January.
fn long_month_name(m: u32) -> (name: &'static str)
    requires
        1 <= m <= 12,
    ensures
        name@ == month_name(m as int),
{
    match m {
        1 => "January",
        2 => "February",
        3 => "March",
        4 => "April",
        5 => "May",
        6 => "June",
        7 => "July",
        8 => "August",
        9 => "September",
        10 => "October",
        11 => "November",
        _ => "December",
    }
}

/// The English name of a weekday, 0 being Sunday.
fn long_day_name(d: u32) -> (name: &'static str)
    requires
        d < 7,
    ensures
        name@ == day_name(d as int),
{
    match d {
        0 => "Sunday",
        1 => "Monday",
        2 => "Tuesday",
        3 => "Wednesday",
        4 => "Thursday",
        5 => "Friday",
        _ => "Saturday",
    }
}

/// Appends the first three letters of a name.
fn append_short(out: &mut String, name: &str)
    requires
        name@.len() >= 3,
    ensures
        final(out)@ == old(out)@ + name@.take(3),
{
    let v = chars_of(name);
    push_slice(out, v.as_slice(), 0, 3);
    assert(v@.subrange(0, 3) =~= v@.take(3));
}

/// Every month and weekday has a name of at least three letters.
proof fn lemma_names()
    ensures
        forall|m: int| 1 <= m <= 12 ==> (#[trigger] month_name(m)).len() >= 3,
        forall|d: int| 0 <= d < 7 ==> (#[trigger] day_name(d)).len() >= 3,
{
    reveal_strlit("January");
    reveal_strlit("February");
    reveal_strlit("March");
    reveal_strlit("April");
    reveal_strlit("May");
    reveal_strlit("June");
    reveal_strlit("July");
    reveal_strlit("August");
    reveal_strlit("September");
    reveal_strlit("October");
    reveal_strlit("November");
    reveal_strlit("December");
    reveal_strlit("Sunday");
    reveal_strlit("Monday");
    reveal_strlit("Tuesday");
    reveal_strlit("Wednesday");
    reveal_strlit("Thursday");
    reveal_strlit("Friday");
    reveal_strlit("Saturday");
}

/// Appends a numeric zone offset.
fn append_zone(out: &mut String, offset: i32, iso: bool, colon: bool, short: bool, seconds: bool)
    ensures
        final(out)@ == old(out)@ + zone_text(offset as int, iso, colon, short, seconds),
{
    if offset == 0 && iso {
        push_char(out, 'Z');
        assert(out@ =~= old(out)@ + zone_text(offset as int, iso, colon, short, seconds));
        return;
    }
    let wide: i64 = offset as i64;
    let magnitude: i64 = if wide < 0 {
        -wide
    } else {
        wide
    };
    let minutes: i64 = magnitude / 60;
    let secs: i64 = if wide <= -60 || wide >= 0 {
        magnitude % 60
    } else {
        wide
    };
    let ghost sep: Seq<char> = if colon {
        seq![':']
    } else {
        Seq::empty()
    };
    let ghost mins: Seq<char> = if short {
        Seq::empty()
    } else {
        int_text(zone_minutes(offset as int) % 60, 2)
    };
    let ghost start = out@;
    push_char(
        out,
        if wide <= -60 {
            '-'
        } else {
            '+'
        },
    );
    assert(out@ =~= start + zone_sign(offset as int));
    append_int(out, minutes / 60, 2);
    let ghost hours = zone_sign(offset as int) + int_text(zone_minutes(offset as int) / 60, 2);
    assert(out@ =~= start + hours);
    if colon {
        push_char(out, ':');
    }
    assert(out@ =~= start + (hours + sep));
    if !short {
        append_int(out, minutes % 60, 2);
    }
    assert(out@ =~= start + (hours + sep + mins));
    let ghost part = out@;
    if seconds {
        if colon {
            push_char(out, ':');
        }
        assert(out@ =~= part + sep);
        append_int(out, secs, 2);
        assert(out@ =~= part + (sep + int_text(zone_seconds(offset as int), 2)));
        assert(out@ =~= start + (hours + sep + mins + (sep + int_text(
            zone_seconds(offset as int),
            2,
        ))));
    } else {
        assert(out@ =~= start + (hours + sep + mins + Seq::<char>::empty()));
    }
}

/// Appends what a token shows.
fn append_token(out: &mut String, std: Std, f: &Fields, t: &Time)
    requires
        exists|secs: int| f.is_of(secs),
    ensures
        final(out)@ == old(out)@ + token_text(std, *f, *t),
{
    proof {
        lemma_names();
    }
    match std {
        Std::Year => {
            let y: i64 = if f.year < 0 {
                -(f.year as i64)
            } else {
                f.year as i64
            };
            append_int(out, y % 100, 2);
        },
        Std::LongYear => append_int(out, f.year as i64, 4),
        Std::Month => append_short(out, long_month_name(f.month)),
        Std::LongMonth => out.append(long_month_name(f.month)),
        Std::NumMonth => append_int(out, f.month as i64, 0),
        Std::ZeroMonth => append_int(out, f.month as i64, 2),
        Std::WeekDay => append_short(out, long_day_name(f.weekday)),
        Std::LongWeekDay => out.append(long_day_name(f.weekday)),
        Std::Day => append_int(out, f.day as i64, 0),
        Std::UnderDay => {
            if f.day < 10 {
                push_char(out, ' ');
            }
            append_int(out, f.day as i64, 0);
        },
        Std::ZeroDay => append_int(out, f.day as i64, 2),
        Std::UnderYearDay => {
            if f.yday < 100 {
                push_char(out, ' ');
                if f.yday < 10 {
                    push_char(out, ' ');
                }
            }
            append_int(out, f.yday as i64, 0);
        },
        Std::ZeroYearDay => append_int(out, f.yday as i64, 3),
        Std::Hour => append_int(out, f.hour as i64, 2),
        Std::Hour12 => append_int(out, hour12(f.hour) as i64, 0),
        Std::ZeroHour12 => append_int(out, hour12(f.hour) as i64, 2),
        Std::Minute => append_int(out, f.minute as i64, 0),
        Std::ZeroMinute => append_int(out, f.minute as i64, 2),
        Std::Second => append_int(out, f.second as i64, 0),
        Std::ZeroSecond => append_int(out, f.second as i64, 2),
        Std::Pm { upper } => {
            if f.hour >= 12 {
                out.append(
                    if upper {
                        "PM"
                    } else {
                        "pm"
                    },
                )
            } else {
                out.append(
                    if upper {
                        "AM"
                    } else {
                        "am"
                    },
                )
            }
        },
        Std::NumTz { iso, colon, short, seconds } => {
            append_zone(out, t.offset_secs, iso, colon, short, seconds)
        },
        Std::Tz => {
            if !t.zone_name.as_str().is_empty() {
                out.append(t.zone_name.as_str());
            } else {
                append_zone(out, t.offset_secs, false, false, false, false);
            }
        },
        Std::FracSecond { trim, digits, comma } => append_nano(out, t.nanos, trim, digits, comma),
    }
    assert(out@ =~= old(out)@ + token_text(std, *f, *t));
}

/// Renders `t` in the reference layout `layout`.
pub fn format(layout: &str, t: &Time) -> (out: String)
    ensures
        exists|f: Fields| #[trigger]
            f.is_of(shown_secs(wall_secs(t.unix_secs as int, t.offset_secs as int))) && out@
                == rendered(layout@, f, *t),
{
    let f = t.fields();
    let all = chars_of(layout);
    let mut out = String::new();
    let mut start: usize = 0;
    assert(all@.skip(0) =~= all@);
    while start < all.len()
        invariant
            all@ == layout@,
            start <= all.len(),
            f.is_of(shown_secs(wall_secs(t.unix_secs as int, t.offset_secs as int))),
            out@ + rendered(all@.skip(start as int), f, *t) == rendered(layout@, f, *t),
        decreases all.len() - start,
    {
        let rest = slice_subrange(all.as_slice(), start, all.len());
        let ghost before = out@;
        assert(rest@ =~= all@.skip(start as int));
        let (prefix, std, next) = next_std_chunk(rest);
        push_slice(&mut out, rest, 0, prefix);
        assert(rest@.subrange(0, prefix as int) =~= rest@.take(prefix as int));
        match std {
            None => {
                assert(rest@.take(prefix as int) =~= rest@);
                assert(out@ =~= before + rendered(rest@, f, *t));
                return out;
            },
            Some(std) => {
                append_token(&mut out, std, &f, t);
                assert(rest@.skip(next as int) =~= all@.skip(start + next));
                assert(out@ + rendered(all@.skip(start + next), f, *t) =~= before + rendered(
                    rest@,
                    f,
                    *t,
                ));
                start = start + next;
            },
        }
    }
    assert(out@ =~= out@ + rendered(all@.skip(start as int), f, *t));
    out
}

// ---------------------------------------------------------------------------------------
// Laws
// ---------------------------------------------------------------------------------------
/// A year has 365 or 366 days, and its months fill it.
proof fn lemma_year_length(y: int)
    ensures
        days_before_year(y + 1) == days_before_year(y) + (if is_leap(y) { 366int } else { 365 }),
        days_before_month(y, 13) == (if is_leap(y) { 366int } else { 365 }),
{
    lemma_quotients(y - 1);
    lemma_months_fill(y);
}

/// How the leap days are counted from one year to the next.
proof fn lemma_quotients(p: int)
    ensures
        (p + 1) / 4 == p / 4 + (if (p + 1) % 4 == 0 { 1int } else { 0 }),
        (p + 1) / 100 == p / 100 + (if (p + 1) % 100 == 0 { 1int } else { 0 }),
        (p + 1) / 400 == p / 400 + (if (p + 1) % 400 == 0 { 1int } else { 0 }),
        (p + 1) % 100 == 0 ==> (p + 1) % 4 == 0,
        (p + 1) % 400 == 0 ==> (p + 1) % 100 == 0,
{
}

/// The months of a year fill it.
proof fn lemma_months_fill(y: int)
    ensures
        days_before_month(y, 13) == (if is_leap(y) { 366int } else { 365 }),
{
    assert(days_before_month(y, 4) == (if is_leap(y) { 91int } else { 90 })) by {
        reveal_with_fuel(days_before_month, 5);
    }
    assert(days_before_month(y, 7) == days_before_month(y, 4) + 91) by {
        reveal_with_fuel(days_before_month, 4);
    }
    assert(days_before_month(y, 10) == days_before_month(y, 7) + 92) by {
        reveal_with_fuel(days_before_month, 4);
    }
    assert(days_before_month(y, 13) == days_before_month(y, 10) + 92) by {
        reveal_with_fuel(days_before_month, 4);
    }
}

/// A month ends before the next one begins.
proof fn lemma_month_order(y: int, m: int, n: int)
    requires
        1 <= m < n,
    ensures
        days_before_month(y, m) + days_in_month(y, m) <= days_before_month(y, n),
    decreases n,
{
    if m < n - 1 {
        lemma_month_order(y, m, n - 1);
    }
}

/// A year ends before the next one begins.
proof fn lemma_year_order(y: int, z: int)
    requires
        y < z,
    ensures
        days_before_year(y + 1) <= days_before_year(z),
{
}

/// Two days of the calendar with the same number are the same day.
proof fn lemma_day_unique(f: Fields, g: Fields, s: int, t: int)
    requires
        f.is_of(s),
        g.is_of(t),
        epoch_day(f.year as int, f.month as int, f.day as int) == epoch_day(
            g.year as int,
            g.month as int,
            g.day as int,
        ),
    ensures
        f.year == g.year,
        f.month == g.month,
        f.day == g.day,
{
    lemma_year_length(f.year as int);
    lemma_year_length(g.year as int);
    lemma_month_order(f.year as int, f.month as int, 13);
    lemma_month_order(g.year as int, g.month as int, 13);
    lemma_month_nonneg(f.year as int, f.month as int);
    lemma_month_nonneg(g.year as int, g.month as int);
    if f.year < g.year {
        lemma_year_order(f.year as int, g.year as int);
    } else if g.year < f.year {
        lemma_year_order(g.year as int, f.year as int);
    } else if f.month < g.month {
        lemma_month_order(f.year as int, f.month as int, g.month as int);
    } else if g.month < f.month {
        lemma_month_order(f.year as int, g.month as int, f.month as int);
    }
}

/// No month begins before its year.
proof fn lemma_month_nonneg(y: int, m: int)
    ensures
        days_before_month(y, m) >= 0,
    decreases m,
{
    if m > 1 {
        lemma_month_nonneg(y, m - 1);
    }
}

/// An instant has one wall clock: the fields that [`format`] shows are determined by the instant.
pub proof fn fields_are_unique(f: Fields, g: Fields, secs: int)
    requires
        f.is_of(secs),
        g.is_of(secs),
    ensures
        f == g,
{
    lemma_day_unique(f, g, secs, secs);
}

/// A layout that holds no token is copied through.
pub proof fn a_layout_without_tokens_is_copied(s: Seq<char>, f: Fields, t: Time)
    requires
        forall|i: int| 0 <= i < s.len() ==> token_at(s, i) is None,
    ensures
        rendered(s, f, t) == s,
{
    lemma_token_pos(s, 0);
}

/// What is found as the first token is one.
proof fn lemma_token_pos(s: Seq<char>, i: int)
    requires
        0 <= i <= s.len(),
    ensures
        i <= token_pos(s, i) <= s.len(),
        token_pos(s, i) < s.len() ==> token_at(s, token_pos(s, i)) is Some,
    decreases s.len() - i,
{
    if i < s.len() && token_at(s, i) is None {
        lemma_token_pos(s, i + 1);
    }
}

/// Whether a character lies outside ASCII.
pub open spec fn is_wide(c: char) -> bool {
    c as u32 >= 128
}

/// The characters of `s` outside ASCII, in order.
pub open spec fn wide(s: Seq<char>) -> Seq<char> {
    s.filter(|c: char| is_wide(c))
}

/// Whether all of `s` is ASCII.
pub open spec fn narrow(s: Seq<char>) -> bool {
    forall|i: int| 0 <= i < s.len() ==> !is_wide(#[trigger] s[i])
}

proof fn lemma_wide_narrow(s: Seq<char>)
    requires
        narrow(s),
    ensures
        wide(s) == Seq::<char>::empty(),
    decreases s.len(),
{
    reveal(Seq::filter);
    if s.len() > 0 {
        assert(narrow(s.drop_last()));
        lemma_wide_narrow(s.drop_last());
        assert(!is_wide(s[s.len() - 1]));
    }
}

proof fn lemma_wide_add(a: Seq<char>, b: Seq<char>)
    ensures
        wide(a + b) == wide(a) + wide(b),
    decreases b.len(),
{
    reveal(Seq::filter);
    if b.len() == 0 {
        assert(a + b =~= a);
        assert(wide(a) + wide(b) =~= wide(a));
    } else {
        lemma_wide_add(a, b.drop_last());
        assert((a + b).drop_last() =~= a + b.drop_last());
        assert((a + b).last() == b.last());
        assert(wide(a + b) =~= wide(a) + wide(b));
    }
}

proof fn lemma_decimal_narrow(n: nat)
    ensures
        narrow(decimal(n)),
        decimal(n).len() > 0,
    decreases n,
{
    if n >= 10 {
        lemma_decimal_narrow(n / 10);
    }
}

proof fn lemma_int_text_narrow(x: int, width: int)
    ensures
        narrow(int_text(x, width)),
{
    reveal(int_text);
    lemma_decimal_narrow((if x < 0 { -x } else { x }) as nat);
}

proof fn lemma_trimmed_narrow(s: Seq<char>)
    requires
        narrow(s),
    ensures
        narrow(without_trailing_zeros(s)),
    decreases s.len(),
{
    if s.len() > 0 && s.last() == '0' {
        lemma_trimmed_narrow(s.drop_last());
    }
}

proof fn lemma_names_narrow()
    ensures
        forall|m: int| narrow(#[trigger] month_name(m)),
        forall|d: int| narrow(#[trigger] day_name(d)),
        narrow("PM"@),
        narrow("pm"@),
        narrow("AM"@),
        narrow("am"@),
{
    reveal_strlit("January");
    reveal_strlit("February");
    reveal_strlit("March");
    reveal_strlit("April");
    reveal_strlit("May");
    reveal_strlit("June");
    reveal_strlit("July");
    reveal_strlit("August");
    reveal_strlit("September");
    reveal_strlit("October");
    reveal_strlit("November");
    reveal_strlit("December");
    reveal_strlit("Sunday");
    reveal_strlit("Monday");
    reveal_strlit("Tuesday");
    reveal_strlit("Wednesday");
    reveal_strlit("Thursday");
    reveal_strlit("Friday");
    reveal_strlit("Saturday");
    reveal_strlit("PM");
    reveal_strlit("pm");
    reveal_strlit("AM");
    reveal_strlit("am");
}

proof fn lemma_token_text_narrow(std: Std, f: Fields, t: Time)
    requires
        narrow(t.zone_name@),
    ensures
        narrow(token_text(std, f, t)),
{
    assert forall|x: int, w: int| narrow(#[trigger] int_text(x, w)) by {
        lemma_int_text_narrow(x, w);
    }
    lemma_names_narrow();
    lemma_names();
    match std {
        Std::FracSecond { trim, digits, comma } => {
            reveal(int_text);
            lemma_decimal_narrow(t.nanos as nat);
            let all = int_text(t.nanos as int, 9);
            assert(all.len() >= 9);
            assert(narrow(all));
            let cut = if digits < 9 {
                all.take(digits as int)
            } else {
                all
            };
            assert(narrow(cut));
            lemma_trimmed_narrow(cut);
        },
        Std::WeekDay => {
            assert(day_name(f.weekday as int).len() >= 3) by {
                reveal_strlit("Saturday");
            }
        },
        Std::Month => {
            assert(month_name(f.month as int).len() >= 3) by {
                reveal_strlit("December");
            }
        },
        _ => {},
    }
}

/// A token is made of ASCII characters.
proof fn lemma_token_narrow(s: Seq<char>, i: int)
    requires
        0 <= i < s.len(),
        s.len() <= usize::MAX,
        token_at(s, i) is Some,
    ensures
        ({
            let k = token_at(s, i)->0;
            narrow(s.subrange(i + k.lead, i + k.lead + k.len))
        }),
{
    lemma_token_fits(s, i);
    let k = token_at(s, i)->0;
    let t = s.subrange(i + k.lead, i + k.lead + k.len);
    if word_at(s, i) is Some {
        lemma_word_narrow(s, i);
    } else if zero_at(s, i) is Some {
        lemma_zero_narrow(s, i);
    } else if number_at(s, i) is Some {
        lemma_number_narrow(s, i);
    } else if stands_at(s, i, "-"@) || stands_at(s, i, "Z"@) {
        reveal_strlit("-");
        reveal_strlit("Z");
        lemma_zone_narrow(s, i, !stands_at(s, i, "-"@));
        assert(s.subrange(i, i + 1)[0] == s[i]);
        assert forall|j: int| 0 <= j < t.len() implies !is_wide(#[trigger] t[j]) by {
            if j > 0 {
                assert(t[j] == s.subrange(i + 1, i + k.len)[j - 1]);
            }
        }
    } else {
        lemma_run_end(s, i + 1, s[i + 1]);
    }
}

/// The tokens that begin with a letter are ASCII.
proof fn lemma_word_narrow(s: Seq<char>, i: int)
    requires
        0 <= i <= s.len(),
        word_at(s, i) is Some,
    ensures
        word_at(s, i)->0.lead == 0,
        narrow(s.subrange(i, i + word_at(s, i)->0.len)),
{
    reveal_strlit("January");
    reveal_strlit("Jan");
    reveal_strlit("Monday");
    reveal_strlit("Mon");
    reveal_strlit("MST");
    reveal_strlit("PM");
    reveal_strlit("pm");
}

/// The tokens that begin with a zero are ASCII.
proof fn lemma_zero_narrow(s: Seq<char>, i: int)
    requires
        0 <= i <= s.len(),
        zero_at(s, i) is Some,
    ensures
        zero_at(s, i)->0.lead == 0,
        narrow(s.subrange(i, i + zero_at(s, i)->0.len)),
{
    reveal_strlit("01");
    reveal_strlit("02");
    reveal_strlit("03");
    reveal_strlit("04");
    reveal_strlit("05");
    reveal_strlit("06");
    reveal_strlit("002");
}

/// The tokens that begin with another digit or an underscore are ASCII.
proof fn lemma_number_narrow(s: Seq<char>, i: int)
    requires
        0 <= i <= s.len(),
        number_at(s, i) is Some,
    ensures
        ({
            let k = number_at(s, i)->0;
            narrow(s.subrange(i + k.lead, i + k.lead + k.len))
        }),
{
    reveal_strlit("15");
    reveal_strlit("1");
    reveal_strlit("2006");
    reveal_strlit("2");
    reveal_strlit("_2006");
    reveal_strlit("_2");
    reveal_strlit("__2");
    reveal_strlit("3");
    reveal_strlit("4");
    reveal_strlit("5");
    if stands_at(s, i, "_2006"@) {
        assert(s.subrange(i + 1, i + 5) =~= s.subrange(i, i + 5).skip(1));
    }
}

/// What follows the first character of a zone token is ASCII.
proof fn lemma_zone_narrow(s: Seq<char>, i: int, iso: bool)
    requires
        0 <= i < s.len(),
        zone_at(s, i, iso) is Some,
    ensures
        zone_at(s, i, iso)->0.lead == 0,
        narrow(s.subrange(i + 1, i + zone_at(s, i, iso)->0.len)),
{
    reveal_strlit("070000");
    reveal_strlit("07:00:00");
    reveal_strlit("0700");
    reveal_strlit("07:00");
    reveal_strlit("07");
}

/// The characters of a layout outside ASCII are never part of a token: they come out as they went
/// in, in the same order, and nothing else outside ASCII does unless the zone's abbreviation
/// holds it.
pub proof fn wide_characters_survive(s: Seq<char>, f: Fields, t: Time)
    requires
        s.len() <= usize::MAX,
        narrow(t.zone_name@),
    ensures
        wide(rendered(s, f, t)) == wide(s),
    decreases s.len(),
{
    lemma_token_pos(s, 0);
    let i = token_pos(s, 0);
    if i < s.len() {
        lemma_token_fits(s, i);
        lemma_token_narrow(s, i);
        let k = token_at(s, i)->0;
        let head = s.take(i + k.lead);
        let body = s.subrange(i + k.lead, i + k.lead + k.len);
        let tail = s.skip(i + k.lead + k.len);
        let text = token_text(k.std, f, t);
        lemma_token_text_narrow(k.std, f, t);
        wide_characters_survive(tail, f, t);
        lemma_wide_narrow(text);
        lemma_wide_narrow(body);
        lemma_wide_add(head + text, rendered(tail, f, t));
        lemma_wide_add(head, text);
        lemma_wide_add(head + body, tail);
        lemma_wide_add(head, body);
        assert(s =~= head + body + tail);
    }
}

} // verus!
