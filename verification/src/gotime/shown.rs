//! What the parts of an instant look like when they are shown.
use vstd::prelude::*;

use crate::gotime::{
    days_before_year, days_in_month, epoch_day, fill, int_text, nano_text, token_text,
    without_trailing_zeros, zone_text, Fields, Std, Time,
};
use crate::text::{decimal, digit_char, digits_value};

verus! {

/// A number is shown in so many digits, and in more only if it has more.
pub open spec fn shows(s: Seq<char>, width: int, x: int) -> bool {
    &&& digits_value(s) == Some(x as nat)
    &&& s.len() >= width
    &&& s.len() > width ==> s.len() == 1 || s[0] != '0'
}

proof fn lemma_decimal(n: nat)
    ensures
        decimal(n).len() >= 1,
        decimal(n)[0] != '+' && decimal(n)[0] != '-',
        n > 0 ==> decimal(n)[0] != '0',
        n < 10 ==> decimal(n).len() == 1,
        n < 100 ==> decimal(n).len() <= 2,
        n < 1000 ==> decimal(n).len() <= 3,
        n < 10000 ==> decimal(n).len() <= 4,
        n < 100000 ==> decimal(n).len() <= 5,
        n < 1000000 ==> decimal(n).len() <= 6,
        n < 10000000 ==> decimal(n).len() <= 7,
        n < 100000000 ==> decimal(n).len() <= 8,
        n < 1000000000 ==> decimal(n).len() <= 9,
        digits_value(decimal(n)) == Some(n),
    decreases n,
{
    reveal_with_fuel(digits_value, 2);
    if n >= 10 {
        lemma_decimal(n / 10);
        assert(decimal(n).drop_last() =~= decimal(n / 10));
    } else {
        assert(decimal(n).drop_last() =~= Seq::<char>::empty());
    }
}

proof fn lemma_filled(n: int, s: Seq<char>)
    requires
        digits_value(s) is Some,
    ensures
        digits_value(fill('0', n) + s) == digits_value(s),
    decreases s.len(), n,
{
    let t = fill('0', n) + s;
    if s.len() == 0 {
        if n > 0 {
            assert(t.drop_last() =~= fill('0', n - 1) + s);
            lemma_filled(n - 1, s);
        } else {
            assert(t =~= s);
        }
    } else {
        assert(t.drop_last() =~= fill('0', n) + s.drop_last());
        assert(t.last() == s.last());
        lemma_filled(n, s.drop_last());
    }
}

/// A number is shown with zeros in front up to the width that is asked for, and reads back.
pub proof fn a_shown_number_reads_back(x: int, width: int)
    requires
        x >= 0,
    ensures
        shows(int_text(x, width), width, x),
        x < 10 && width <= 1 ==> int_text(x, width).len() == 1,
        x < 100 && width == 2 ==> int_text(x, width).len() == 2,
        x < 1000 && width == 3 ==> int_text(x, width).len() == 3,
        x < 10000 && width == 4 ==> int_text(x, width).len() == 4,
        x < 1000000 && width == 6 ==> int_text(x, width).len() == 6,
        x < 1000000000 && width == 9 ==> int_text(x, width).len() == 9,
{
    reveal(int_text);
    let d = decimal(x as nat);
    lemma_decimal(x as nat);
    lemma_filled(width - d.len(), d);
    if width <= d.len() {
        assert(fill('0', width - d.len()) + d =~= d);
    }
}

proof fn lemma_yday(f: Fields, secs: int)
    requires
        f.is_of(secs),
    ensures
        1 <= f.yday <= 366,
{
    let y = f.year as int;
    let m = f.month as int;
    crate::gotime::lemma_month_nonneg(y, m);
    crate::gotime::lemma_year_length(y);
    if m < 13 {
        crate::gotime::lemma_month_order(y, m, 13);
    }
}

/// The parts of a date and of a time are shown as they are: the month, the day, the day of the year,
/// the hour, the minute and the second in as many digits as their token has, the year in four, and the
/// year of its century in two.
pub proof fn a_number_token_shows_its_part(f: Fields, t: Time, secs: int)
    requires
        f.is_of(secs),
    ensures
        shows(token_text(Std::NumMonth, f, t), 1, f.month as int),
        shows(token_text(Std::ZeroMonth, f, t), 2, f.month as int),
        token_text(Std::ZeroMonth, f, t).len() == 2,
        shows(token_text(Std::Day, f, t), 1, f.day as int),
        shows(token_text(Std::ZeroDay, f, t), 2, f.day as int),
        token_text(Std::ZeroDay, f, t).len() == 2,
        shows(token_text(Std::ZeroYearDay, f, t), 3, f.yday as int),
        token_text(Std::ZeroYearDay, f, t).len() == 3,
        shows(token_text(Std::Hour, f, t), 2, f.hour as int),
        token_text(Std::Hour, f, t).len() == 2,
        shows(token_text(Std::Minute, f, t), 1, f.minute as int),
        shows(token_text(Std::ZeroMinute, f, t), 2, f.minute as int),
        token_text(Std::ZeroMinute, f, t).len() == 2,
        shows(token_text(Std::Second, f, t), 1, f.second as int),
        shows(token_text(Std::ZeroSecond, f, t), 2, f.second as int),
        token_text(Std::ZeroSecond, f, t).len() == 2,
        0 <= f.year ==> shows(token_text(Std::LongYear, f, t), 4, f.year as int),
        0 <= f.year <= 9999 ==> token_text(Std::LongYear, f, t).len() == 4,
        0 <= f.year ==> shows(token_text(Std::Year, f, t), 2, f.year as int % 100),
        token_text(Std::Year, f, t).len() == 2,
        f.year < 0 ==> token_text(Std::LongYear, f, t)[0] == '-' && shows(
            token_text(Std::LongYear, f, t).skip(1),
            4,
            -(f.year as int),
        ),
{
    lemma_yday(f, secs);
    a_shown_number_reads_back(f.month as int, 0);
    a_shown_number_reads_back(f.month as int, 2);
    a_shown_number_reads_back(f.day as int, 0);
    a_shown_number_reads_back(f.day as int, 2);
    a_shown_number_reads_back(f.yday as int, 3);
    a_shown_number_reads_back(f.hour as int, 2);
    a_shown_number_reads_back(f.minute as int, 0);
    a_shown_number_reads_back(f.minute as int, 2);
    a_shown_number_reads_back(f.second as int, 0);
    a_shown_number_reads_back(f.second as int, 2);
    let year = if f.year < 0 {
        -(f.year as int)
    } else {
        f.year as int
    };
    a_shown_number_reads_back(year, 4);
    a_shown_number_reads_back(year % 100, 2);
    reveal(int_text);
    lemma_decimal(f.month as nat);
    lemma_decimal(f.day as nat);
    lemma_decimal(f.minute as nat);
    lemma_decimal(f.second as nat);
    if f.year < 0 {
        assert(int_text(f.year as int, 4).skip(1) =~= int_text(-(f.year as int), 4));
    }
}

/// A day is shown two characters wide with a blank in front, and a day of the year three.
pub proof fn a_padded_day_keeps_its_column(f: Fields, t: Time, secs: int)
    requires
        f.is_of(secs),
    ensures
        ({
            let day = token_text(Std::UnderDay, f, t);
            let yday = token_text(Std::UnderYearDay, f, t);
            &&& day.len() == 2
            &&& f.day <= 9 ==> day[0] == ' ' && digits_value(day.skip(1)) == Some(f.day as nat)
            &&& f.day >= 10 ==> digits_value(day) == Some(f.day as nat)
            &&& yday.len() == 3
            &&& f.yday <= 9 ==> yday[0] == ' ' && yday[1] == ' ' && digits_value(yday.skip(2))
                == Some(f.yday as nat)
            &&& 10 <= f.yday <= 99 ==> yday[0] == ' ' && digits_value(yday.skip(1)) == Some(
                f.yday as nat,
            )
            &&& f.yday >= 100 ==> digits_value(yday) == Some(f.yday as nat)
        }),
{
    lemma_yday(f, secs);
    reveal(int_text);
    lemma_decimal(f.day as nat);
    lemma_decimal(f.yday as nat);
    let d = int_text(f.day as int, 0);
    let y = int_text(f.yday as int, 0);
    assert(d =~= decimal(f.day as nat));
    assert(y =~= decimal(f.yday as nat));
    lemma_long(f.day as nat);
    lemma_long(f.yday as nat);
    assert((seq![' '] + d).skip(1) =~= d);
    assert((seq![' ', ' '] + y).skip(2) =~= y);
    assert((seq![' '] + y).skip(1) =~= y);
    assert(Seq::<char>::empty() + d =~= d);
    assert(Seq::<char>::empty() + y =~= y);
}

proof fn lemma_long(n: nat)
    ensures
        n >= 10 ==> decimal(n).len() >= 2,
        n >= 100 ==> decimal(n).len() >= 3,
{
    if n >= 10 {
        lemma_decimal(n / 10);
        if n >= 100 {
            lemma_decimal(n / 100);
            assert(n / 10 >= 10);
            assert(decimal(n / 10) == decimal((n / 10) / 10).push(digit_char((n / 10) % 10)));
            lemma_decimal((n / 10) / 10);
        }
    }
}

/// The hour of a twelve-hour clock and whether it is before or after noon make up the hour.
pub proof fn the_twelve_hour_clock_tells_the_hour(f: Fields, t: Time, upper: bool)
    requires
        f.hour < 24,
    ensures
        ({
            let short = token_text(Std::Hour12, f, t);
            let long = token_text(Std::ZeroHour12, f, t);
            let half = token_text(Std::Pm { upper }, f, t);
            &&& digits_value(short) == digits_value(long)
            &&& long.len() == 2
            &&& 1 <= digits_value(long)->0 <= 12
            &&& half == (if upper {
                seq!['A', 'M']
            } else {
                seq!['a', 'm']
            }) ==> f.hour == digits_value(long)->0 % 12
            &&& half == (if upper {
                seq!['P', 'M']
            } else {
                seq!['p', 'm']
            }) <==> f.hour >= 12
            &&& f.hour >= 12 ==> f.hour == digits_value(long)->0 % 12 + 12
            &&& f.hour < 12 ==> half == (if upper {
                seq!['A', 'M']
            } else {
                seq!['a', 'm']
            })
        }),
{
    reveal_strlit("AM");
    reveal_strlit("PM");
    reveal_strlit("am");
    reveal_strlit("pm");
    assert("AM"@ =~= seq!['A', 'M']);
    assert("PM"@ =~= seq!['P', 'M']);
    assert("am"@ =~= seq!['a', 'm']);
    assert("pm"@ =~= seq!['p', 'm']);
    let h = crate::gotime::hour12_of(f.hour as int);
    a_shown_number_reads_back(h, 0);
    a_shown_number_reads_back(h, 2);
    assert(seq!['A', 'M'][0] != seq!['P', 'M'][0]);
    assert(seq!['a', 'm'][0] != seq!['p', 'm'][0]);
}

/// The names of the months and of the weekdays, and their first three letters.
pub proof fn every_name_is_the_english_one(f: Fields, t: Time)
    ensures
        f.month == 1 ==> token_text(Std::LongMonth, f, t) == seq!['J', 'a', 'n', 'u', 'a', 'r', 'y'] && token_text(
            Std::Month,
            f,
            t,
        ) == seq!['J', 'a', 'n'],
        f.month == 2 ==> token_text(Std::LongMonth, f, t) == seq!['F', 'e', 'b', 'r', 'u', 'a', 'r', 'y'] && token_text(
            Std::Month,
            f,
            t,
        ) == seq!['F', 'e', 'b'],
        f.month == 3 ==> token_text(Std::LongMonth, f, t) == seq!['M', 'a', 'r', 'c', 'h'] && token_text(
            Std::Month,
            f,
            t,
        ) == seq!['M', 'a', 'r'],
        f.month == 4 ==> token_text(Std::LongMonth, f, t) == seq!['A', 'p', 'r', 'i', 'l'] && token_text(
            Std::Month,
            f,
            t,
        ) == seq!['A', 'p', 'r'],
        f.month == 5 ==> token_text(Std::LongMonth, f, t) == seq!['M', 'a', 'y'] && token_text(
            Std::Month,
            f,
            t,
        ) == seq!['M', 'a', 'y'],
        f.month == 6 ==> token_text(Std::LongMonth, f, t) == seq!['J', 'u', 'n', 'e'] && token_text(
            Std::Month,
            f,
            t,
        ) == seq!['J', 'u', 'n'],
        f.month == 7 ==> token_text(Std::LongMonth, f, t) == seq!['J', 'u', 'l', 'y'] && token_text(
            Std::Month,
            f,
            t,
        ) == seq!['J', 'u', 'l'],
        f.month == 8 ==> token_text(Std::LongMonth, f, t) == seq!['A', 'u', 'g', 'u', 's', 't'] && token_text(
            Std::Month,
            f,
            t,
        ) == seq!['A', 'u', 'g'],
        f.month == 9 ==> token_text(Std::LongMonth, f, t) == seq!['S', 'e', 'p', 't', 'e', 'm', 'b', 'e', 'r'] && token_text(
            Std::Month,
            f,
            t,
        ) == seq!['S', 'e', 'p'],
        f.month == 10 ==> token_text(Std::LongMonth, f, t) == seq!['O', 'c', 't', 'o', 'b', 'e', 'r'] && token_text(
            Std::Month,
            f,
            t,
        ) == seq!['O', 'c', 't'],
        f.month == 11 ==> token_text(Std::LongMonth, f, t) == seq!['N', 'o', 'v', 'e', 'm', 'b', 'e', 'r'] && token_text(
            Std::Month,
            f,
            t,
        ) == seq!['N', 'o', 'v'],
        f.month == 12 ==> token_text(Std::LongMonth, f, t) == seq!['D', 'e', 'c', 'e', 'm', 'b', 'e', 'r'] && token_text(
            Std::Month,
            f,
            t,
        ) == seq!['D', 'e', 'c'],
        f.weekday == 0 ==> token_text(Std::LongWeekDay, f, t) == seq!['S', 'u', 'n', 'd', 'a', 'y'] && token_text(
            Std::WeekDay,
            f,
            t,
        ) == seq!['S', 'u', 'n'],
        f.weekday == 1 ==> token_text(Std::LongWeekDay, f, t) == seq!['M', 'o', 'n', 'd', 'a', 'y'] && token_text(
            Std::WeekDay,
            f,
            t,
        ) == seq!['M', 'o', 'n'],
        f.weekday == 2 ==> token_text(Std::LongWeekDay, f, t) == seq!['T', 'u', 'e', 's', 'd', 'a', 'y'] && token_text(
            Std::WeekDay,
            f,
            t,
        ) == seq!['T', 'u', 'e'],
        f.weekday == 3 ==> token_text(Std::LongWeekDay, f, t) == seq!['W', 'e', 'd', 'n', 'e', 's', 'd', 'a', 'y'] && token_text(
            Std::WeekDay,
            f,
            t,
        ) == seq!['W', 'e', 'd'],
        f.weekday == 4 ==> token_text(Std::LongWeekDay, f, t) == seq!['T', 'h', 'u', 'r', 's', 'd', 'a', 'y'] && token_text(
            Std::WeekDay,
            f,
            t,
        ) == seq!['T', 'h', 'u'],
        f.weekday == 5 ==> token_text(Std::LongWeekDay, f, t) == seq!['F', 'r', 'i', 'd', 'a', 'y'] && token_text(
            Std::WeekDay,
            f,
            t,
        ) == seq!['F', 'r', 'i'],
        f.weekday == 6 ==> token_text(Std::LongWeekDay, f, t) == seq!['S', 'a', 't', 'u', 'r', 'd', 'a', 'y'] && token_text(
            Std::WeekDay,
            f,
            t,
        ) == seq!['S', 'a', 't'],
{
    if f.month == 1 {
        reveal_strlit("January");
        assert("January"@ =~= seq!['J', 'a', 'n', 'u', 'a', 'r', 'y']);
        assert("January"@.take(3) =~= seq!['J', 'a', 'n']);
    }
    if f.month == 2 {
        reveal_strlit("February");
        assert("February"@ =~= seq!['F', 'e', 'b', 'r', 'u', 'a', 'r', 'y']);
        assert("February"@.take(3) =~= seq!['F', 'e', 'b']);
    }
    if f.month == 3 {
        reveal_strlit("March");
        assert("March"@ =~= seq!['M', 'a', 'r', 'c', 'h']);
        assert("March"@.take(3) =~= seq!['M', 'a', 'r']);
    }
    if f.month == 4 {
        reveal_strlit("April");
        assert("April"@ =~= seq!['A', 'p', 'r', 'i', 'l']);
        assert("April"@.take(3) =~= seq!['A', 'p', 'r']);
    }
    if f.month == 5 {
        reveal_strlit("May");
        assert("May"@ =~= seq!['M', 'a', 'y']);
        assert("May"@.take(3) =~= seq!['M', 'a', 'y']);
    }
    if f.month == 6 {
        reveal_strlit("June");
        assert("June"@ =~= seq!['J', 'u', 'n', 'e']);
        assert("June"@.take(3) =~= seq!['J', 'u', 'n']);
    }
    if f.month == 7 {
        reveal_strlit("July");
        assert("July"@ =~= seq!['J', 'u', 'l', 'y']);
        assert("July"@.take(3) =~= seq!['J', 'u', 'l']);
    }
    if f.month == 8 {
        reveal_strlit("August");
        assert("August"@ =~= seq!['A', 'u', 'g', 'u', 's', 't']);
        assert("August"@.take(3) =~= seq!['A', 'u', 'g']);
    }
    if f.month == 9 {
        reveal_strlit("September");
        assert("September"@ =~= seq!['S', 'e', 'p', 't', 'e', 'm', 'b', 'e', 'r']);
        assert("September"@.take(3) =~= seq!['S', 'e', 'p']);
    }
    if f.month == 10 {
        reveal_strlit("October");
        assert("October"@ =~= seq!['O', 'c', 't', 'o', 'b', 'e', 'r']);
        assert("October"@.take(3) =~= seq!['O', 'c', 't']);
    }
    if f.month == 11 {
        reveal_strlit("November");
        assert("November"@ =~= seq!['N', 'o', 'v', 'e', 'm', 'b', 'e', 'r']);
        assert("November"@.take(3) =~= seq!['N', 'o', 'v']);
    }
    if f.month == 12 {
        reveal_strlit("December");
        assert("December"@ =~= seq!['D', 'e', 'c', 'e', 'm', 'b', 'e', 'r']);
        assert("December"@.take(3) =~= seq!['D', 'e', 'c']);
    }
    if f.weekday == 0 {
        reveal_strlit("Sunday");
        assert("Sunday"@ =~= seq!['S', 'u', 'n', 'd', 'a', 'y']);
        assert("Sunday"@.take(3) =~= seq!['S', 'u', 'n']);
    }
    if f.weekday == 1 {
        reveal_strlit("Monday");
        assert("Monday"@ =~= seq!['M', 'o', 'n', 'd', 'a', 'y']);
        assert("Monday"@.take(3) =~= seq!['M', 'o', 'n']);
    }
    if f.weekday == 2 {
        reveal_strlit("Tuesday");
        assert("Tuesday"@ =~= seq!['T', 'u', 'e', 's', 'd', 'a', 'y']);
        assert("Tuesday"@.take(3) =~= seq!['T', 'u', 'e']);
    }
    if f.weekday == 3 {
        reveal_strlit("Wednesday");
        assert("Wednesday"@ =~= seq!['W', 'e', 'd', 'n', 'e', 's', 'd', 'a', 'y']);
        assert("Wednesday"@.take(3) =~= seq!['W', 'e', 'd']);
    }
    if f.weekday == 4 {
        reveal_strlit("Thursday");
        assert("Thursday"@ =~= seq!['T', 'h', 'u', 'r', 's', 'd', 'a', 'y']);
        assert("Thursday"@.take(3) =~= seq!['T', 'h', 'u']);
    }
    if f.weekday == 5 {
        reveal_strlit("Friday");
        assert("Friday"@ =~= seq!['F', 'r', 'i', 'd', 'a', 'y']);
        assert("Friday"@.take(3) =~= seq!['F', 'r', 'i']);
    }
    if f.weekday == 6 {
        reveal_strlit("Saturday");
        assert("Saturday"@ =~= seq!['S', 'a', 't', 'u', 'r', 'd', 'a', 'y']);
        assert("Saturday"@.take(3) =~= seq!['S', 'a', 't']);
    }
}

/// A numeric zone reads back: a sign, two digits of hours, two of minutes and two of seconds, with
/// colons between them or without, make up an offset of a minute or more. The forms without minutes or
/// without seconds leave the rest out. A token that shows `Z` does so for no offset at all, and for no
/// other.
pub proof fn a_shown_zone_reads_back(offset: int, iso: bool, colon: bool)
    requires
        -360000 < offset < 360000,
        offset >= 60 || offset <= -60,
    ensures
        ({
            let size = if offset < 0 {
                -offset
            } else {
                offset
            };
            let sep = if colon {
                1int
            } else {
                0int
            };
            let full = zone_text(offset, iso, colon, false, true);
            let usual = zone_text(offset, iso, colon, false, false);
            let hours = zone_text(offset, iso, false, true, false);
            let h = digits_value(full.subrange(1, 3));
            let m = digits_value(full.subrange(3 + sep, 5 + sep));
            let s = digits_value(full.subrange(5 + 2 * sep, 7 + 2 * sep));
            &&& full.len() == 7 + 2 * sep
            &&& full[0] == (if offset < 0 {
                '-'
            } else {
                '+'
            })
            &&& colon ==> full[3] == ':' && full[6] == ':'
            &&& h is Some && m is Some && s is Some
            &&& m->0 < 60 && s->0 < 60
            &&& 3600 * h->0 + 60 * m->0 + s->0 == size
            &&& usual == full.take(5 + sep)
            &&& hours == full.take(3)
        }),
{
    let size = if offset < 0 {
        -offset
    } else {
        offset
    };
    let mins = crate::gotime::zone_minutes(offset);
    let secs = crate::gotime::zone_seconds(offset);
    assert(mins == size / 60);
    assert(secs == size % 60);
    a_shown_number_reads_back(mins / 60, 2);
    a_shown_number_reads_back(mins % 60, 2);
    a_shown_number_reads_back(secs, 2);
    let sep = if colon {
        1int
    } else {
        0int
    };
    let full = zone_text(offset, iso, colon, false, true);
    assert(full.subrange(1, 3) =~= int_text(mins / 60, 2));
    assert(full.subrange(3 + sep, 5 + sep) =~= int_text(mins % 60, 2));
    assert(full.subrange(5 + 2 * sep, 7 + 2 * sep) =~= int_text(secs, 2));
    assert(zone_text(offset, iso, colon, false, false) =~= full.take(5 + sep));
    assert(zone_text(offset, iso, false, true, false) =~= full.take(3));
}

/// An instant in a zone without an offset is shown with `Z` where the token begins with one.
pub proof fn a_zone_without_an_offset(colon: bool, short: bool, seconds: bool)
    ensures
        zone_text(0, true, colon, short, seconds) == seq!['Z'],
        zone_text(0, false, colon, short, seconds)[0] == '+',
        zone_text(0, false, false, false, false) == seq!['+', '0', '0', '0', '0'],
{
    a_shown_number_reads_back(0, 2);
    lemma_two_zeros();
    assert(zone_text(0, false, false, false, false) =~= seq!['+', '0', '0', '0', '0']);
}

proof fn lemma_two_zeros()
    ensures
        int_text(0, 2) == seq!['0', '0'],
{
    reveal(int_text);
    assert(decimal(0) == seq!['0']);
    assert(int_text(0, 2) =~= seq!['0', '0']);
}

/// Ten to some power.
pub open spec fn power_of_ten(k: nat) -> int
    decreases k,
{
    if k == 0 {
        1
    } else {
        10 * power_of_ten((k - 1) as nat)
    }
}

proof fn lemma_digits_cut(s: Seq<char>, k: nat)
    requires
        digits_value(s) is Some,
        k <= s.len(),
    ensures
        digits_value(s.take(s.len() - k)) is Some,
        digits_value(s.take(s.len() - k))->0 == digits_value(s)->0 as int / power_of_ten(k),
        power_of_ten(k) > 0,
    decreases k,
{
    if k == 0 {
        assert(s.take(s.len() as int) =~= s);
    } else {
        let t = s.drop_last();
        lemma_digits_cut(t, (k - 1) as nat);
        assert(t.take(t.len() - (k - 1)) =~= s.take(s.len() - k));
        let n = digits_value(s)->0 as int;
        let m = digits_value(t)->0 as int;
        assert(n / 10 == m);
        let p = power_of_ten((k - 1) as nat);
        vstd::arithmetic::div_mod::lemma_div_denominator(n, 10, p);
        assert(n / (10 * p) == m / p);
    }
}

/// A fraction of a second shows as many digits as are asked for, up to nine, and they are the leading
/// digits of the nanoseconds.
pub proof fn a_fraction_shows_the_leading_digits(nanos: int, digits: int, comma: bool)
    requires
        0 <= nanos < 1_000_000_000,
        1 <= digits,
    ensures
        ({
            let s = nano_text(nanos, false, digits, comma);
            let n = if digits < 9 {
                digits
            } else {
                9
            };
            &&& s.len() == 1 + n
            &&& s[0] == (if comma {
                ','
            } else {
                '.'
            })
            &&& digits_value(s.skip(1)) is Some
            &&& digits_value(s.skip(1))->0 == nanos / power_of_ten((9 - n) as nat)
        }),
{
    a_shown_number_reads_back(nanos, 9);
    let all = int_text(nanos, 9);
    let n = if digits < 9 {
        digits
    } else {
        9
    };
    lemma_digits_cut(all, (9 - n) as nat);
    let s = nano_text(nanos, false, digits, comma);
    assert(all.take(9) =~= all);
    assert(s.skip(1) =~= all.take(n));
}

/// A fraction without its trailing zeros is the fraction cut where only zeros follow; nothing is left
/// of one that is all zeros, not even the separator.
pub proof fn a_trimmed_fraction_leaves_out_zeros(nanos: int, digits: int, comma: bool)
    requires
        0 <= nanos < 1_000_000_000,
        1 <= digits,
    ensures
        ({
            let full = nano_text(nanos, false, digits, comma);
            let s = nano_text(nanos, true, digits, comma);
            &&& s.len() <= full.len()
            &&& s == full.take(s.len() as int)
            &&& s.len() != 1
            &&& s.len() > 0 ==> s.last() != '0'
            &&& forall|i: int|
                (s.len() > 0 || i > 0) && s.len() <= i < full.len() ==> #[trigger] full[i] == '0'
        }),
{
    a_shown_number_reads_back(nanos, 9);
    let full = nano_text(nanos, false, digits, comma);
    let s = nano_text(nanos, true, digits, comma);
    let cut = full.skip(1);
    let all = int_text(nanos, 9);
    let plain = if digits < 9 {
        all.take(digits)
    } else {
        all
    };
    assert(cut =~= plain);
    lemma_trimmed(plain);
    let left = without_trailing_zeros(plain);
    if left.len() > 0 {
        assert(s =~= full.take(s.len() as int)) by {
            assert forall|i: int| 0 <= i < s.len() implies #[trigger] s[i] == full[i] by {
                if i > 0 {
                    assert(s[i] == left[i - 1]);
                    assert(left[i - 1] == plain[i - 1]);
                    assert(full[i] == plain[i - 1]);
                }
            }
        }
        assert(s.last() == left.last());
    } else {
        assert(s =~= full.take(0));
    }
    assert forall|i: int|
        (s.len() > 0 || i > 0) && s.len() <= i < full.len() implies #[trigger] full[i] == '0' by {
        assert(full[i] == plain[i - 1]);
    }
}

proof fn lemma_trimmed(s: Seq<char>)
    ensures
        without_trailing_zeros(s).len() <= s.len(),
        without_trailing_zeros(s) == s.take(without_trailing_zeros(s).len() as int),
        without_trailing_zeros(s).len() > 0 ==> without_trailing_zeros(s).last() != '0',
        forall|i: int| without_trailing_zeros(s).len() <= i < s.len() ==> #[trigger] s[i] == '0',
    decreases s.len(),
{
    if s.len() > 0 && s.last() == '0' {
        let t = s.drop_last();
        lemma_trimmed(t);
        let left = without_trailing_zeros(t);
        assert(t.take(left.len() as int) =~= s.take(left.len() as int));
        assert forall|i: int| left.len() <= i < s.len() implies #[trigger] s[i] == '0' by {
            if i < s.len() - 1 {
                assert(t[i] == '0');
            }
        }
    } else {
        assert(s.take(s.len() as int) =~= s);
    }
}

/// A year has 365 days, and one more when it can be divided by four, but not when it can be divided by
/// a hundred, unless by four hundred; and the calendar repeats after 146097 days, which are whole
/// weeks.
pub proof fn a_year_has_its_days(y: int, m: int, d: int)
    ensures
        days_before_year(y + 1) - days_before_year(y) == (if y % 400 == 0 || (y % 4 == 0 && y % 100
            != 0) {
            366int
        } else {
            365int
        }),
        epoch_day(y + 400, m, d) - epoch_day(y, m, d) == 146097,
        epoch_day(1970, 1, 1) == 0,
        days_before_year(1970) == 0,
{
    crate::gotime::lemma_year_length(y);
    lemma_months_repeat(y, m);
    lemma_years_repeat(y - 1);
    assert(crate::gotime::days_before_month(1970, 1) == 0);
}

proof fn lemma_years_repeat(p: int)
    ensures
        (p + 400) / 4 == p / 4 + 100,
        (p + 400) / 100 == p / 100 + 4,
        (p + 400) / 400 == p / 400 + 1,
{
}

proof fn lemma_months_repeat(y: int, m: int)
    ensures
        crate::gotime::days_before_month(y + 400, m) == crate::gotime::days_before_month(y, m),
    decreases m,
{
    if m > 1 {
        lemma_months_repeat(y, m - 1);
        assert(days_in_month(y + 400, m - 1) == days_in_month(y, m - 1));
    }
}

} // verus!
