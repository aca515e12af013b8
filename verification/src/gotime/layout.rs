//! Which parts of a layout are replaced, and by what.
use vstd::prelude::*;

use crate::gotime::{
    digit_at, fraction_at, lower_at, number_at, rendered, run_end, stands_at, token_at, token_pos,
    token_text, word_at, zero_at, zone_at, Fields, Std, Time, Token,
};

verus! {

// ---------------------------------------------------------------------------------------
// A layout is replaced from left to right
// ---------------------------------------------------------------------------------------
proof fn lemma_shift_stands(s: Seq<char>, i: int, pat: Seq<char>)
    requires
        0 <= i,
        s.len() > 0,
    ensures
        stands_at(s, i + 1, pat) == stands_at(s.skip(1), i, pat),
{
    let t = s.skip(1);
    if i + 1 + pat.len() <= s.len() {
        assert(s.subrange(i + 1, i + 1 + pat.len()) =~= t.subrange(i, i + pat.len()));
    }
}

proof fn lemma_shift_run(s: Seq<char>, i: int, c: char)
    requires
        0 <= i,
        s.len() > 0,
    ensures
        run_end(s, i + 1, c) == 1 + run_end(s.skip(1), i, c),
    decreases s.len() - i,
{
    if i < s.skip(1).len() && s.skip(1)[i] == c {
        assert(s[i + 1] == c);
        lemma_shift_run(s, i + 1, c);
    }
}

proof fn lemma_shift_word(s: Seq<char>, i: int)
    requires
        0 <= i,
        s.len() > 0,
    ensures
        word_at(s, i + 1) == word_at(s.skip(1), i),
{
    assert(lower_at(s, i + 4) == lower_at(s.skip(1), i + 3));
    lemma_shift_stands(s, i, "January"@);
    lemma_shift_stands(s, i, "Jan"@);
    lemma_shift_stands(s, i, "Monday"@);
    lemma_shift_stands(s, i, "Mon"@);
    lemma_shift_stands(s, i, "MST"@);
    lemma_shift_stands(s, i, "PM"@);
    lemma_shift_stands(s, i, "pm"@);
}

proof fn lemma_shift_digits(s: Seq<char>, i: int)
    requires
        0 <= i,
        s.len() > 0,
    ensures
        zero_at(s, i + 1) == zero_at(s.skip(1), i),
        number_at(s, i + 1) == number_at(s.skip(1), i),
{
    lemma_shift_stands(s, i, "01"@);
    lemma_shift_stands(s, i, "02"@);
    lemma_shift_stands(s, i, "03"@);
    lemma_shift_stands(s, i, "04"@);
    lemma_shift_stands(s, i, "05"@);
    lemma_shift_stands(s, i, "06"@);
    lemma_shift_stands(s, i, "002"@);
    lemma_shift_stands(s, i, "15"@);
    lemma_shift_stands(s, i, "1"@);
    lemma_shift_stands(s, i, "2006"@);
    lemma_shift_stands(s, i, "2"@);
    lemma_shift_stands(s, i, "_2006"@);
    lemma_shift_stands(s, i, "_2"@);
    lemma_shift_stands(s, i, "__2"@);
    lemma_shift_stands(s, i, "3"@);
    lemma_shift_stands(s, i, "4"@);
    lemma_shift_stands(s, i, "5"@);
}

proof fn lemma_shift_zone(s: Seq<char>, i: int, iso: bool)
    requires
        0 <= i,
        s.len() > 0,
    ensures
        zone_at(s, i + 1, iso) == zone_at(s.skip(1), i, iso),
{
    lemma_shift_stands(s, i + 1, "070000"@);
    lemma_shift_stands(s, i + 1, "07:00:00"@);
    lemma_shift_stands(s, i + 1, "0700"@);
    lemma_shift_stands(s, i + 1, "07:00"@);
    lemma_shift_stands(s, i + 1, "07"@);
}

/// What begins at a position does not depend on what comes before it.
proof fn lemma_shift_token(s: Seq<char>, i: int)
    requires
        0 <= i,
        s.len() > 0,
    ensures
        token_at(s, i + 1) == token_at(s.skip(1), i),
{
    let t = s.skip(1);
    lemma_shift_word(s, i);
    lemma_shift_digits(s, i);
    lemma_shift_zone(s, i, false);
    lemma_shift_zone(s, i, true);
    lemma_shift_stands(s, i, "-"@);
    lemma_shift_stands(s, i, "Z"@);
    if i + 1 < t.len() {
        assert(t[i] == s[i + 1] && t[i + 1] == s[i + 2]);
        lemma_shift_run(s, i + 1, s[i + 2]);
        let end = run_end(t, i + 1, t[i + 1]);
        lemma_run_forward(t, i + 1, t[i + 1]);
        assert(digit_at(s, end + 1) == digit_at(t, end));
    }
}

proof fn lemma_run_forward(s: Seq<char>, i: int, c: char)
    requires
        0 <= i,
    ensures
        run_end(s, i, c) >= i,
    decreases s.len() - i,
{
    if i < s.len() && s[i] == c {
        lemma_run_forward(s, i + 1, c);
    }
}

proof fn lemma_shift_pos(s: Seq<char>, i: int)
    requires
        0 <= i,
        s.len() > 0,
    ensures
        token_pos(s, i + 1) == 1 + token_pos(s.skip(1), i),
        token_pos(s.skip(1), i) >= i,
    decreases s.len() - i,
{
    if i + 1 < s.len() {
        lemma_shift_token(s, i);
        if token_at(s, i + 1) is None {
            lemma_shift_pos(s, i + 1);
        }
    }
}

/// A character at which nothing begins is copied.
proof fn lemma_copied(s: Seq<char>, f: Fields, t: Time)
    requires
        s.len() > 0,
        token_at(s, 0) is None,
    ensures
        rendered(s, f, t) == seq![s[0]] + rendered(s.skip(1), f, t),
{
    let u = s.skip(1);
    lemma_shift_pos(s, 0);
    let j = token_pos(u, 0);
    let i = token_pos(s, 0);
    assert(i == j + 1);
    if j < u.len() {
        lemma_shift_token(s, j);
        if let Some(k) = token_at(s, i) {
            if k.len > 0 && i + k.lead + k.len <= s.len() {
                assert(s.take(i + k.lead) =~= seq![s[0]] + u.take(j + k.lead));
                assert(s.skip(i + k.lead + k.len) =~= u.skip(j + k.lead + k.len));
                assert(rendered(s, f, t) =~= seq![s[0]] + rendered(u, f, t));
            } else {
                assert(s =~= seq![s[0]] + u);
            }
        } else {
            assert(s =~= seq![s[0]] + u);
        }
    } else {
        assert(s =~= seq![s[0]] + u);
    }
}

/// A part that a token takes is replaced.
proof fn lemma_replaced(p: Seq<char>, b: Seq<char>, std: Std, f: Fields, t: Time)
    requires
        0 < p.len() <= usize::MAX,
        token_at(p + b, 0) == Some(Token { lead: 0, std, len: p.len() as usize }),
    ensures
        rendered(p + b, f, t) == token_text(std, f, t) + rendered(b, f, t),
{
    let s = p + b;
    assert(token_pos(s, 0) == 0);
    assert(s.skip(p.len() as int) =~= b);
    assert(s.take(0) + token_text(std, f, t) =~= token_text(std, f, t));
}

// ---------------------------------------------------------------------------------------
// What begins where
// ---------------------------------------------------------------------------------------
proof fn lemma_begins(p: Seq<char>, b: Seq<char>)
    ensures
        stands_at(p + b, 0, p),
        forall|k: int| 0 <= k < p.len() ==> (p + b)[k] == #[trigger] p[k],
        forall|k: int| p.len() <= k < p.len() + b.len() ==> #[trigger] (p + b)[k] == b[k - p.len()],
{
    assert((p + b).subrange(0, p.len() as int) =~= p);
}

proof fn lemma_differs(s: Seq<char>, i: int, pat: Seq<char>, k: int)
    requires
        0 <= i,
        0 <= k < pat.len(),
        i + k >= s.len() || s[i + k] != pat[k],
    ensures
        !stands_at(s, i, pat),
{
    if stands_at(s, i, pat) {
        assert(s.subrange(i, i + pat.len())[k] == pat[k]);
    }
}

/// A layout that goes on like a year.
pub open spec fn goes_on_as_year(b: Seq<char>) -> bool {
    b.len() >= 3 && b[0] == '0' && b[1] == '0' && b[2] == '6'
}

/// Nothing begins with another character.
proof fn lemma_no_word(s: Seq<char>)
    requires
        s.len() > 0,
        s[0] != 'J' && s[0] != 'M' && s[0] != 'P' && s[0] != 'p',
    ensures
        word_at(s, 0) is None,
{
    reveal_strlit("January");
    reveal_strlit("Jan");
    reveal_strlit("Monday");
    reveal_strlit("Mon");
    reveal_strlit("MST");
    reveal_strlit("PM");
    reveal_strlit("pm");
    lemma_differs(s, 0, "January"@, 0);
    lemma_differs(s, 0, "Jan"@, 0);
    lemma_differs(s, 0, "Monday"@, 0);
    lemma_differs(s, 0, "Mon"@, 0);
    lemma_differs(s, 0, "MST"@, 0);
    lemma_differs(s, 0, "PM"@, 0);
    lemma_differs(s, 0, "pm"@, 0);
}

proof fn lemma_no_zero(s: Seq<char>)
    requires
        s.len() > 0,
        s[0] != '0',
    ensures
        zero_at(s, 0) is None,
{
    reveal_strlit("01");
    reveal_strlit("02");
    reveal_strlit("03");
    reveal_strlit("04");
    reveal_strlit("05");
    reveal_strlit("06");
    reveal_strlit("002");
    lemma_differs(s, 0, "01"@, 0);
    lemma_differs(s, 0, "02"@, 0);
    lemma_differs(s, 0, "03"@, 0);
    lemma_differs(s, 0, "04"@, 0);
    lemma_differs(s, 0, "05"@, 0);
    lemma_differs(s, 0, "06"@, 0);
    lemma_differs(s, 0, "002"@, 0);
}

proof fn lemma_no_number(s: Seq<char>)
    requires
        s.len() > 0,
        s[0] < '1' || s[0] > '5',
        s[0] != '_',
    ensures
        number_at(s, 0) is None,
{
    reveal_strlit("15");
    reveal_strlit("1");
    reveal_strlit("2006");
    reveal_strlit("2");
    reveal_strlit("_2006");
    reveal_strlit("_2");
    reveal_strlit("__2");
    reveal_strlit("3");
    reveal_strlit("4");
    reveal_strlit("5");
    lemma_differs(s, 0, "15"@, 0);
    lemma_differs(s, 0, "1"@, 0);
    lemma_differs(s, 0, "2006"@, 0);
    lemma_differs(s, 0, "2"@, 0);
    lemma_differs(s, 0, "_2006"@, 0);
    lemma_differs(s, 0, "_2"@, 0);
    lemma_differs(s, 0, "__2"@, 0);
    lemma_differs(s, 0, "3"@, 0);
    lemma_differs(s, 0, "4"@, 0);
    lemma_differs(s, 0, "5"@, 0);
}

proof fn lemma_january(b: Seq<char>, f: Fields, t: Time)
    ensures
        rendered("January"@ + b, f, t) == token_text(Std::LongMonth, f, t) + rendered(b, f, t),
{
    reveal_strlit("January");
    let s = "January"@ + b;
    lemma_begins("January"@, b);
    lemma_replaced("January"@, b, Std::LongMonth, f, t);
}

proof fn lemma_jan(b: Seq<char>, f: Fields, t: Time)
    requires
        b.len() == 0 || b[0] < 'a' || b[0] > 'z',
    ensures
        rendered("Jan"@ + b, f, t) == token_text(Std::Month, f, t) + rendered(b, f, t),
{
    reveal_strlit("Jan");
    reveal_strlit("January");
    let s = "Jan"@ + b;
    lemma_begins("Jan"@, b);
    lemma_differs(s, 0, "January"@, 3);
    lemma_replaced("Jan"@, b, Std::Month, f, t);
}

proof fn lemma_monday(b: Seq<char>, f: Fields, t: Time)
    ensures
        rendered("Monday"@ + b, f, t) == token_text(Std::LongWeekDay, f, t) + rendered(b, f, t),
{
    reveal_strlit("Jan");
    reveal_strlit("January");
    reveal_strlit("Monday");
    let s = "Monday"@ + b;
    lemma_begins("Monday"@, b);
    lemma_differs(s, 0, "January"@, 0);
    lemma_differs(s, 0, "Jan"@, 0);
    lemma_replaced("Monday"@, b, Std::LongWeekDay, f, t);
}

proof fn lemma_mon(b: Seq<char>, f: Fields, t: Time)
    requires
        b.len() == 0 || b[0] < 'a' || b[0] > 'z',
    ensures
        rendered("Mon"@ + b, f, t) == token_text(Std::WeekDay, f, t) + rendered(b, f, t),
{
    reveal_strlit("Jan");
    reveal_strlit("January");
    reveal_strlit("Mon");
    reveal_strlit("Monday");
    let s = "Mon"@ + b;
    lemma_begins("Mon"@, b);
    lemma_differs(s, 0, "January"@, 0);
    lemma_differs(s, 0, "Jan"@, 0);
    lemma_differs(s, 0, "Monday"@, 3);
    lemma_replaced("Mon"@, b, Std::WeekDay, f, t);
}

proof fn lemma_mst(b: Seq<char>, f: Fields, t: Time)
    ensures
        rendered("MST"@ + b, f, t) == token_text(Std::Tz, f, t) + rendered(b, f, t),
{
    reveal_strlit("Jan");
    reveal_strlit("January");
    reveal_strlit("MST");
    reveal_strlit("Mon");
    reveal_strlit("Monday");
    let s = "MST"@ + b;
    lemma_begins("MST"@, b);
    lemma_differs(s, 0, "January"@, 0);
    lemma_differs(s, 0, "Jan"@, 0);
    lemma_differs(s, 0, "Monday"@, 1);
    lemma_differs(s, 0, "Mon"@, 1);
    lemma_replaced("MST"@, b, Std::Tz, f, t);
}

proof fn lemma_upm(b: Seq<char>, f: Fields, t: Time)
    ensures
        rendered("PM"@ + b, f, t) == token_text(Std::Pm { upper: true }, f, t) + rendered(b, f, t),
{
    reveal_strlit("Jan");
    reveal_strlit("January");
    reveal_strlit("MST");
    reveal_strlit("Mon");
    reveal_strlit("Monday");
    reveal_strlit("PM");
    let s = "PM"@ + b;
    lemma_begins("PM"@, b);
    lemma_differs(s, 0, "January"@, 0);
    lemma_differs(s, 0, "Jan"@, 0);
    lemma_differs(s, 0, "Monday"@, 0);
    lemma_differs(s, 0, "Mon"@, 0);
    lemma_differs(s, 0, "MST"@, 0);
    lemma_replaced("PM"@, b, Std::Pm { upper: true }, f, t);
}

proof fn lemma_lpm(b: Seq<char>, f: Fields, t: Time)
    ensures
        rendered("pm"@ + b, f, t) == token_text(Std::Pm { upper: false }, f, t) + rendered(b, f, t),
{
    reveal_strlit("Jan");
    reveal_strlit("January");
    reveal_strlit("MST");
    reveal_strlit("Mon");
    reveal_strlit("Monday");
    reveal_strlit("PM");
    reveal_strlit("pm");
    let s = "pm"@ + b;
    lemma_begins("pm"@, b);
    lemma_differs(s, 0, "January"@, 0);
    lemma_differs(s, 0, "Jan"@, 0);
    lemma_differs(s, 0, "Monday"@, 0);
    lemma_differs(s, 0, "Mon"@, 0);
    lemma_differs(s, 0, "MST"@, 0);
    lemma_differs(s, 0, "PM"@, 0);
    lemma_replaced("pm"@, b, Std::Pm { upper: false }, f, t);
}

proof fn lemma_zeroone(b: Seq<char>, f: Fields, t: Time)
    ensures
        rendered("01"@ + b, f, t) == token_text(Std::ZeroMonth, f, t) + rendered(b, f, t),
{
    reveal_strlit("01");
    let s = "01"@ + b;
    lemma_begins("01"@, b);
    lemma_no_word(s);
    lemma_replaced("01"@, b, Std::ZeroMonth, f, t);
}

proof fn lemma_zerotwo(b: Seq<char>, f: Fields, t: Time)
    ensures
        rendered("02"@ + b, f, t) == token_text(Std::ZeroDay, f, t) + rendered(b, f, t),
{
    reveal_strlit("01");
    reveal_strlit("02");
    let s = "02"@ + b;
    lemma_begins("02"@, b);
    lemma_no_word(s);
    lemma_differs(s, 0, "01"@, 1);
    lemma_replaced("02"@, b, Std::ZeroDay, f, t);
}

proof fn lemma_zerothree(b: Seq<char>, f: Fields, t: Time)
    ensures
        rendered("03"@ + b, f, t) == token_text(Std::ZeroHour12, f, t) + rendered(b, f, t),
{
    reveal_strlit("01");
    reveal_strlit("02");
    reveal_strlit("03");
    let s = "03"@ + b;
    lemma_begins("03"@, b);
    lemma_no_word(s);
    lemma_differs(s, 0, "01"@, 1);
    lemma_differs(s, 0, "02"@, 1);
    lemma_replaced("03"@, b, Std::ZeroHour12, f, t);
}

proof fn lemma_zerofour(b: Seq<char>, f: Fields, t: Time)
    ensures
        rendered("04"@ + b, f, t) == token_text(Std::ZeroMinute, f, t) + rendered(b, f, t),
{
    reveal_strlit("01");
    reveal_strlit("02");
    reveal_strlit("03");
    reveal_strlit("04");
    let s = "04"@ + b;
    lemma_begins("04"@, b);
    lemma_no_word(s);
    lemma_differs(s, 0, "01"@, 1);
    lemma_differs(s, 0, "02"@, 1);
    lemma_differs(s, 0, "03"@, 1);
    lemma_replaced("04"@, b, Std::ZeroMinute, f, t);
}

proof fn lemma_zerofive(b: Seq<char>, f: Fields, t: Time)
    ensures
        rendered("05"@ + b, f, t) == token_text(Std::ZeroSecond, f, t) + rendered(b, f, t),
{
    reveal_strlit("01");
    reveal_strlit("02");
    reveal_strlit("03");
    reveal_strlit("04");
    reveal_strlit("05");
    let s = "05"@ + b;
    lemma_begins("05"@, b);
    lemma_no_word(s);
    lemma_differs(s, 0, "01"@, 1);
    lemma_differs(s, 0, "02"@, 1);
    lemma_differs(s, 0, "03"@, 1);
    lemma_differs(s, 0, "04"@, 1);
    lemma_replaced("05"@, b, Std::ZeroSecond, f, t);
}

proof fn lemma_zerosix(b: Seq<char>, f: Fields, t: Time)
    ensures
        rendered("06"@ + b, f, t) == token_text(Std::Year, f, t) + rendered(b, f, t),
{
    reveal_strlit("01");
    reveal_strlit("02");
    reveal_strlit("03");
    reveal_strlit("04");
    reveal_strlit("05");
    reveal_strlit("06");
    let s = "06"@ + b;
    lemma_begins("06"@, b);
    lemma_no_word(s);
    lemma_differs(s, 0, "01"@, 1);
    lemma_differs(s, 0, "02"@, 1);
    lemma_differs(s, 0, "03"@, 1);
    lemma_differs(s, 0, "04"@, 1);
    lemma_differs(s, 0, "05"@, 1);
    lemma_replaced("06"@, b, Std::Year, f, t);
}

proof fn lemma_zerozerotwo(b: Seq<char>, f: Fields, t: Time)
    ensures
        rendered("002"@ + b, f, t) == token_text(Std::ZeroYearDay, f, t) + rendered(b, f, t),
{
    reveal_strlit("002");
    reveal_strlit("01");
    reveal_strlit("02");
    reveal_strlit("03");
    reveal_strlit("04");
    reveal_strlit("05");
    reveal_strlit("06");
    let s = "002"@ + b;
    lemma_begins("002"@, b);
    lemma_no_word(s);
    lemma_differs(s, 0, "01"@, 1);
    lemma_differs(s, 0, "02"@, 1);
    lemma_differs(s, 0, "03"@, 1);
    lemma_differs(s, 0, "04"@, 1);
    lemma_differs(s, 0, "05"@, 1);
    lemma_differs(s, 0, "06"@, 1);
    lemma_replaced("002"@, b, Std::ZeroYearDay, f, t);
}

proof fn lemma_onefive(b: Seq<char>, f: Fields, t: Time)
    ensures
        rendered("15"@ + b, f, t) == token_text(Std::Hour, f, t) + rendered(b, f, t),
{
    reveal_strlit("15");
    let s = "15"@ + b;
    lemma_begins("15"@, b);
    lemma_no_word(s);
    lemma_no_zero(s);
    lemma_replaced("15"@, b, Std::Hour, f, t);
}

proof fn lemma_one(b: Seq<char>, f: Fields, t: Time)
    requires
        b.len() == 0 || b[0] != '5',
    ensures
        rendered("1"@ + b, f, t) == token_text(Std::NumMonth, f, t) + rendered(b, f, t),
{
    reveal_strlit("1");
    reveal_strlit("15");
    let s = "1"@ + b;
    lemma_begins("1"@, b);
    lemma_no_word(s);
    lemma_no_zero(s);
    lemma_differs(s, 0, "15"@, 1);
    lemma_replaced("1"@, b, Std::NumMonth, f, t);
}

proof fn lemma_twozerozerosix(b: Seq<char>, f: Fields, t: Time)
    ensures
        rendered("2006"@ + b, f, t) == token_text(Std::LongYear, f, t) + rendered(b, f, t),
{
    reveal_strlit("1");
    reveal_strlit("15");
    reveal_strlit("2006");
    let s = "2006"@ + b;
    lemma_begins("2006"@, b);
    lemma_no_word(s);
    lemma_no_zero(s);
    lemma_differs(s, 0, "15"@, 0);
    lemma_differs(s, 0, "1"@, 0);
    lemma_replaced("2006"@, b, Std::LongYear, f, t);
}

proof fn lemma_two(b: Seq<char>, f: Fields, t: Time)
    requires
        !goes_on_as_year(b),
    ensures
        rendered("2"@ + b, f, t) == token_text(Std::Day, f, t) + rendered(b, f, t),
{
    reveal_strlit("1");
    reveal_strlit("15");
    reveal_strlit("2");
    reveal_strlit("2006");
    let s = "2"@ + b;
    lemma_begins("2"@, b);
    lemma_no_word(s);
    lemma_no_zero(s);
    lemma_differs(s, 0, "15"@, 0);
    lemma_differs(s, 0, "1"@, 0);
    if b.len() == 0 || b[0] != '0' {
        lemma_differs(s, 0, "2006"@, 1);
    } else if b.len() == 1 || b[1] != '0' {
        lemma_differs(s, 0, "2006"@, 2);
    } else {
        lemma_differs(s, 0, "2006"@, 3);
    }
    lemma_replaced("2"@, b, Std::Day, f, t);
}

proof fn lemma_undertwo(b: Seq<char>, f: Fields, t: Time)
    requires
        !goes_on_as_year(b),
    ensures
        rendered("_2"@ + b, f, t) == token_text(Std::UnderDay, f, t) + rendered(b, f, t),
{
    reveal_strlit("1");
    reveal_strlit("15");
    reveal_strlit("2");
    reveal_strlit("2006");
    reveal_strlit("_2");
    reveal_strlit("_2006");
    let s = "_2"@ + b;
    lemma_begins("_2"@, b);
    lemma_no_word(s);
    lemma_no_zero(s);
    lemma_differs(s, 0, "15"@, 0);
    lemma_differs(s, 0, "1"@, 0);
    lemma_differs(s, 0, "2006"@, 0);
    lemma_differs(s, 0, "2"@, 0);
    if b.len() == 0 || b[0] != '0' {
        lemma_differs(s, 0, "_2006"@, 2);
    } else if b.len() == 1 || b[1] != '0' {
        lemma_differs(s, 0, "_2006"@, 3);
    } else {
        lemma_differs(s, 0, "_2006"@, 4);
    }
    lemma_replaced("_2"@, b, Std::UnderDay, f, t);
}

proof fn lemma_underundertwo(b: Seq<char>, f: Fields, t: Time)
    ensures
        rendered("__2"@ + b, f, t) == token_text(Std::UnderYearDay, f, t) + rendered(b, f, t),
{
    reveal_strlit("1");
    reveal_strlit("15");
    reveal_strlit("2");
    reveal_strlit("2006");
    reveal_strlit("_2");
    reveal_strlit("_2006");
    reveal_strlit("__2");
    let s = "__2"@ + b;
    lemma_begins("__2"@, b);
    lemma_no_word(s);
    lemma_no_zero(s);
    lemma_differs(s, 0, "15"@, 0);
    lemma_differs(s, 0, "1"@, 0);
    lemma_differs(s, 0, "2006"@, 0);
    lemma_differs(s, 0, "2"@, 0);
    lemma_differs(s, 0, "_2006"@, 1);
    lemma_differs(s, 0, "_2"@, 1);
    lemma_replaced("__2"@, b, Std::UnderYearDay, f, t);
}

proof fn lemma_three(b: Seq<char>, f: Fields, t: Time)
    ensures
        rendered("3"@ + b, f, t) == token_text(Std::Hour12, f, t) + rendered(b, f, t),
{
    reveal_strlit("1");
    reveal_strlit("15");
    reveal_strlit("2");
    reveal_strlit("2006");
    reveal_strlit("3");
    reveal_strlit("_2");
    reveal_strlit("_2006");
    reveal_strlit("__2");
    let s = "3"@ + b;
    lemma_begins("3"@, b);
    lemma_no_word(s);
    lemma_no_zero(s);
    lemma_differs(s, 0, "15"@, 0);
    lemma_differs(s, 0, "1"@, 0);
    lemma_differs(s, 0, "2006"@, 0);
    lemma_differs(s, 0, "2"@, 0);
    lemma_differs(s, 0, "_2006"@, 0);
    lemma_differs(s, 0, "_2"@, 0);
    lemma_differs(s, 0, "__2"@, 0);
    lemma_replaced("3"@, b, Std::Hour12, f, t);
}

proof fn lemma_four(b: Seq<char>, f: Fields, t: Time)
    ensures
        rendered("4"@ + b, f, t) == token_text(Std::Minute, f, t) + rendered(b, f, t),
{
    reveal_strlit("1");
    reveal_strlit("15");
    reveal_strlit("2");
    reveal_strlit("2006");
    reveal_strlit("3");
    reveal_strlit("4");
    reveal_strlit("_2");
    reveal_strlit("_2006");
    reveal_strlit("__2");
    let s = "4"@ + b;
    lemma_begins("4"@, b);
    lemma_no_word(s);
    lemma_no_zero(s);
    lemma_differs(s, 0, "15"@, 0);
    lemma_differs(s, 0, "1"@, 0);
    lemma_differs(s, 0, "2006"@, 0);
    lemma_differs(s, 0, "2"@, 0);
    lemma_differs(s, 0, "_2006"@, 0);
    lemma_differs(s, 0, "_2"@, 0);
    lemma_differs(s, 0, "__2"@, 0);
    lemma_differs(s, 0, "3"@, 0);
    lemma_replaced("4"@, b, Std::Minute, f, t);
}

proof fn lemma_five(b: Seq<char>, f: Fields, t: Time)
    ensures
        rendered("5"@ + b, f, t) == token_text(Std::Second, f, t) + rendered(b, f, t),
{
    reveal_strlit("1");
    reveal_strlit("15");
    reveal_strlit("2");
    reveal_strlit("2006");
    reveal_strlit("3");
    reveal_strlit("4");
    reveal_strlit("5");
    reveal_strlit("_2");
    reveal_strlit("_2006");
    reveal_strlit("__2");
    let s = "5"@ + b;
    lemma_begins("5"@, b);
    lemma_no_word(s);
    lemma_no_zero(s);
    lemma_differs(s, 0, "15"@, 0);
    lemma_differs(s, 0, "1"@, 0);
    lemma_differs(s, 0, "2006"@, 0);
    lemma_differs(s, 0, "2"@, 0);
    lemma_differs(s, 0, "_2006"@, 0);
    lemma_differs(s, 0, "_2"@, 0);
    lemma_differs(s, 0, "__2"@, 0);
    lemma_differs(s, 0, "3"@, 0);
    lemma_differs(s, 0, "4"@, 0);
    lemma_replaced("5"@, b, Std::Second, f, t);
}

/// Whether a part of a layout reads like a part of the reference instant, with `b` behind it: `Jan` and
/// `Mon` do unless a small letter follows, `1` unless it is an hour, and `2` unless it is a year.
pub open spec fn reads_like(p: Seq<char>, std: Std, b: Seq<char>) -> bool {
    ||| p == seq!['J', 'a', 'n', 'u', 'a', 'r', 'y'] && std == (Std::LongMonth)
    ||| p == seq!['J', 'a', 'n'] && std == (Std::Month) && (b.len() == 0 || b[0] < 'a' || b[0] > 'z')
    ||| p == seq!['M', 'o', 'n', 'd', 'a', 'y'] && std == (Std::LongWeekDay)
    ||| p == seq!['M', 'o', 'n'] && std == (Std::WeekDay) && (b.len() == 0 || b[0] < 'a' || b[0] > 'z')
    ||| p == seq!['M', 'S', 'T'] && std == (Std::Tz)
    ||| p == seq!['P', 'M'] && std == (Std::Pm { upper: true })
    ||| p == seq!['p', 'm'] && std == (Std::Pm { upper: false })
    ||| p == seq!['0', '1'] && std == (Std::ZeroMonth)
    ||| p == seq!['0', '2'] && std == (Std::ZeroDay)
    ||| p == seq!['0', '3'] && std == (Std::ZeroHour12)
    ||| p == seq!['0', '4'] && std == (Std::ZeroMinute)
    ||| p == seq!['0', '5'] && std == (Std::ZeroSecond)
    ||| p == seq!['0', '6'] && std == (Std::Year)
    ||| p == seq!['0', '0', '2'] && std == (Std::ZeroYearDay)
    ||| p == seq!['1', '5'] && std == (Std::Hour)
    ||| p == seq!['1'] && std == (Std::NumMonth) && (b.len() == 0 || b[0] != '5')
    ||| p == seq!['2', '0', '0', '6'] && std == (Std::LongYear)
    ||| p == seq!['2'] && std == (Std::Day) && (!goes_on_as_year(b))
    ||| p == seq!['_', '2'] && std == (Std::UnderDay) && (!goes_on_as_year(b))
    ||| p == seq!['_', '_', '2'] && std == (Std::UnderYearDay)
    ||| p == seq!['3'] && std == (Std::Hour12)
    ||| p == seq!['4'] && std == (Std::Minute)
    ||| p == seq!['5'] && std == (Std::Second)
}

/// Every part of a layout that reads like a part of the reference instant is replaced by the same part
/// of the instant that is shown, and the rest of the layout is shown after it.
pub proof fn every_reference_part_is_replaced(
    p: Seq<char>,
    std: Std,
    b: Seq<char>,
    f: Fields,
    t: Time,
)
    requires
        reads_like(p, std, b),
    ensures
        rendered(p + b, f, t) == token_text(std, f, t) + rendered(b, f, t),
{
    if p == seq!['J', 'a', 'n', 'u', 'a', 'r', 'y'] && std == (Std::LongMonth) {
        assert(p =~= "January"@) by {
            reveal_strlit("January");
        }
        lemma_january(b, f, t);
    } else if p == seq!['J', 'a', 'n'] && std == (Std::Month) {
        assert(p =~= "Jan"@) by {
            reveal_strlit("Jan");
        }
        lemma_jan(b, f, t);
    } else if p == seq!['M', 'o', 'n', 'd', 'a', 'y'] && std == (Std::LongWeekDay) {
        assert(p =~= "Monday"@) by {
            reveal_strlit("Monday");
        }
        lemma_monday(b, f, t);
    } else if p == seq!['M', 'o', 'n'] && std == (Std::WeekDay) {
        assert(p =~= "Mon"@) by {
            reveal_strlit("Mon");
        }
        lemma_mon(b, f, t);
    } else if p == seq!['M', 'S', 'T'] && std == (Std::Tz) {
        assert(p =~= "MST"@) by {
            reveal_strlit("MST");
        }
        lemma_mst(b, f, t);
    } else if p == seq!['P', 'M'] && std == (Std::Pm { upper: true }) {
        assert(p =~= "PM"@) by {
            reveal_strlit("PM");
        }
        lemma_upm(b, f, t);
    } else if p == seq!['p', 'm'] && std == (Std::Pm { upper: false }) {
        assert(p =~= "pm"@) by {
            reveal_strlit("pm");
        }
        lemma_lpm(b, f, t);
    } else if p == seq!['0', '1'] && std == (Std::ZeroMonth) {
        assert(p =~= "01"@) by {
            reveal_strlit("01");
        }
        lemma_zeroone(b, f, t);
    } else if p == seq!['0', '2'] && std == (Std::ZeroDay) {
        assert(p =~= "02"@) by {
            reveal_strlit("02");
        }
        lemma_zerotwo(b, f, t);
    } else if p == seq!['0', '3'] && std == (Std::ZeroHour12) {
        assert(p =~= "03"@) by {
            reveal_strlit("03");
        }
        lemma_zerothree(b, f, t);
    } else if p == seq!['0', '4'] && std == (Std::ZeroMinute) {
        assert(p =~= "04"@) by {
            reveal_strlit("04");
        }
        lemma_zerofour(b, f, t);
    } else if p == seq!['0', '5'] && std == (Std::ZeroSecond) {
        assert(p =~= "05"@) by {
            reveal_strlit("05");
        }
        lemma_zerofive(b, f, t);
    } else if p == seq!['0', '6'] && std == (Std::Year) {
        assert(p =~= "06"@) by {
            reveal_strlit("06");
        }
        lemma_zerosix(b, f, t);
    } else if p == seq!['0', '0', '2'] && std == (Std::ZeroYearDay) {
        assert(p =~= "002"@) by {
            reveal_strlit("002");
        }
        lemma_zerozerotwo(b, f, t);
    } else if p == seq!['1', '5'] && std == (Std::Hour) {
        assert(p =~= "15"@) by {
            reveal_strlit("15");
        }
        lemma_onefive(b, f, t);
    } else if p == seq!['1'] && std == (Std::NumMonth) {
        assert(p =~= "1"@) by {
            reveal_strlit("1");
        }
        lemma_one(b, f, t);
    } else if p == seq!['2', '0', '0', '6'] && std == (Std::LongYear) {
        assert(p =~= "2006"@) by {
            reveal_strlit("2006");
        }
        lemma_twozerozerosix(b, f, t);
    } else if p == seq!['2'] && std == (Std::Day) {
        assert(p =~= "2"@) by {
            reveal_strlit("2");
        }
        lemma_two(b, f, t);
    } else if p == seq!['_', '2'] && std == (Std::UnderDay) {
        assert(p =~= "_2"@) by {
            reveal_strlit("_2");
        }
        lemma_undertwo(b, f, t);
    } else if p == seq!['_', '_', '2'] && std == (Std::UnderYearDay) {
        assert(p =~= "__2"@) by {
            reveal_strlit("__2");
        }
        lemma_underundertwo(b, f, t);
    } else if p == seq!['3'] && std == (Std::Hour12) {
        assert(p =~= "3"@) by {
            reveal_strlit("3");
        }
        lemma_three(b, f, t);
    } else if p == seq!['4'] && std == (Std::Minute) {
        assert(p =~= "4"@) by {
            reveal_strlit("4");
        }
        lemma_four(b, f, t);
    } else if p == seq!['5'] && std == (Std::Second) {
        assert(p =~= "5"@) by {
            reveal_strlit("5");
        }
        lemma_five(b, f, t);
    }
}

/// An underscore in front of a year is copied, and the year replaced.
pub proof fn an_underscore_before_a_year_is_copied(b: Seq<char>, f: Fields, t: Time)
    ensures
        rendered(seq!['_', '2', '0', '0', '6'] + b, f, t) == seq!['_'] + token_text(
            Std::LongYear,
            f,
            t,
        ) + rendered(b, f, t),
{
    let p = seq!['_', '2', '0', '0', '6'];
    let s = p + b;
    lemma_begins(p, b);
    assert(s[0] == p[0]);
    lemma_no_word(s);
    lemma_no_zero(s);
    reveal_strlit("15");
    reveal_strlit("1");
    reveal_strlit("2006");
    reveal_strlit("2");
    reveal_strlit("_2006");
    lemma_differs(s, 0, "15"@, 0);
    lemma_differs(s, 0, "1"@, 0);
    lemma_differs(s, 0, "2006"@, 0);
    lemma_differs(s, 0, "2"@, 0);
    assert("_2006"@ =~= p);
    assert(token_pos(s, 0) == 0);
    assert(s.skip(5) =~= b);
    assert(s.take(1) =~= seq!['_']);
}

/// A character that begins no part of the reference instant is copied.
pub proof fn every_other_character_is_copied(c: char, b: Seq<char>, f: Fields, t: Time)
    requires
        c < '0' || c > '5',
        c != 'J' && c != 'M' && c != 'P' && c != 'p' && c != 'Z',
        c != '_' && c != '-' && c != '.' && c != ',',
    ensures
        rendered(seq![c] + b, f, t) == seq![c] + rendered(b, f, t),
{
    let s = seq![c] + b;
    assert(s[0] == c);
    lemma_no_word(s);
    lemma_no_zero(s);
    lemma_no_number(s);
    reveal_strlit("-");
    reveal_strlit("Z");
    lemma_differs(s, 0, "-"@, 0);
    lemma_differs(s, 0, "Z"@, 0);
    assert(s.skip(1) =~= b);
    lemma_copied(s, f, t);
}

/// A numeric zone is replaced: behind a minus, or behind a `Z`, hours, minutes and seconds, with colons
/// or without, as far as the layout has them.
pub proof fn every_zone_is_replaced(
    p: Seq<char>,
    b: Seq<char>,
    iso: bool,
    colon: bool,
    short: bool,
    seconds: bool,
    f: Fields,
    t: Time,
)
    requires
        ({
            let zeros = b.len() >= 2 && b[0] == '0' && b[1] == '0';
            let colons = b.len() >= 3 && b[0] == ':' && b[1] == '0' && b[2] == '0';
            ||| p == seq!['0', '7', '0', '0', '0', '0'] && !colon && !short && seconds
            ||| p == seq!['0', '7', ':', '0', '0', ':', '0', '0'] && colon && !short && seconds
            ||| p == seq!['0', '7', '0', '0'] && !colon && !short && !seconds && !zeros
            ||| p == seq!['0', '7', ':', '0', '0'] && colon && !short && !seconds && !colons
            ||| p == seq!['0', '7'] && !colon && short && !seconds && !zeros && !colons
        }),
    ensures
        rendered(seq![if iso { 'Z' } else { '-' }] + p + b, f, t) == token_text(
            Std::NumTz { iso, colon, short, seconds },
            f,
            t,
        ) + rendered(b, f, t),
{
    let z = seq![if iso { 'Z' } else { '-' }];
    let s = z + p + b;
    assert(s[0] == z[0]);
    assert(s.skip(1) =~= p + b);
    lemma_no_word(s);
    lemma_no_zero(s);
    lemma_no_number(s);
    reveal_strlit("-");
    reveal_strlit("Z");
    if iso {
        lemma_differs(s, 0, "-"@, 0);
        assert(s.subrange(0, 1) =~= "Z"@);
    } else {
        assert(s.subrange(0, 1) =~= "-"@);
    }
    lemma_zone_at(s, p, b, iso, colon, short, seconds);
    lemma_replaced(z + p, b, Std::NumTz { iso, colon, short, seconds }, f, t);
}

proof fn lemma_zone_at(
    s: Seq<char>,
    p: Seq<char>,
    b: Seq<char>,
    iso: bool,
    colon: bool,
    short: bool,
    seconds: bool,
)
    requires
        s.len() == 1 + p.len() + b.len(),
        s.skip(1) == p + b,
        ({
            let zeros = b.len() >= 2 && b[0] == '0' && b[1] == '0';
            let colons = b.len() >= 3 && b[0] == ':' && b[1] == '0' && b[2] == '0';
            ||| p == seq!['0', '7', '0', '0', '0', '0'] && !colon && !short && seconds
            ||| p == seq!['0', '7', ':', '0', '0', ':', '0', '0'] && colon && !short && seconds
            ||| p == seq!['0', '7', '0', '0'] && !colon && !short && !seconds && !zeros
            ||| p == seq!['0', '7', ':', '0', '0'] && colon && !short && !seconds && !colons
            ||| p == seq!['0', '7'] && !colon && short && !seconds && !zeros && !colons
        }),
    ensures
        zone_at(s, 0, iso) == Some(
            Token {
                lead: 0,
                std: Std::NumTz { iso, colon, short, seconds },
                len: (1 + p.len()) as usize,
            },
        ),
{
    reveal_strlit("070000");
    reveal_strlit("07:00:00");
    reveal_strlit("0700");
    reveal_strlit("07:00");
    reveal_strlit("07");
    let u = p + b;
    assert forall|k: int| 0 <= k < u.len() implies s[1 + k] == #[trigger] u[k] by {
        assert(s.skip(1)[k] == s[1 + k]);
    }
    assert forall|k: int| 0 <= k < b.len() implies s[1 + p.len() + k] == #[trigger] b[k] by {
        assert(u[p.len() + k] == b[k]);
    }
    assert(s[1] == u[0] && s[2] == u[1]);
    if p.len() >= 4 {
        assert(s[3] == u[2] && s[4] == u[3]);
    }
    let here = s.subrange(1, 1int + p.len());
    assert(here =~= p) by {
        assert forall|k: int| 0 <= k < p.len() implies here[k] == p[k] by {
            assert(u[k] == p[k]);
        }
    }
    if seconds && !colon {
        assert("070000"@ =~= p);
    } else if seconds {
        assert("07:00:00"@ =~= p);
        lemma_differs(s, 1, "070000"@, 2);
    } else if !short && !colon {
        assert("0700"@ =~= p);
        lemma_differs(s, 1, "07:00:00"@, 2);
        if b.len() >= 1 && b[0] == '0' {
            assert(s[5] == b[0]);
            assert(b.len() >= 2 ==> s[6] == b[1]);
            lemma_differs(s, 1, "070000"@, 5);
        } else {
            assert(b.len() >= 1 ==> s[5] == b[0]);
            lemma_differs(s, 1, "070000"@, 4);
        }
    } else if !short {
        assert("07:00"@ =~= p);
        lemma_differs(s, 1, "070000"@, 2);
        lemma_differs(s, 1, "0700"@, 2);
        assert(b.len() >= 1 ==> s[6] == b[0]);
        assert(b.len() >= 2 ==> s[7] == b[1]);
        assert(b.len() >= 3 ==> s[8] == b[2]);
        if b.len() == 0 || b[0] != ':' {
            lemma_differs(s, 1, "07:00:00"@, 5);
        } else if b.len() == 1 || b[1] != '0' {
            lemma_differs(s, 1, "07:00:00"@, 6);
        } else {
            lemma_differs(s, 1, "07:00:00"@, 7);
        }
    } else {
        assert("07"@ =~= p);
        assert(b.len() >= 1 ==> s[3] == b[0]);
        assert(b.len() >= 2 ==> s[4] == b[1]);
        assert(b.len() >= 3 ==> s[5] == b[2]);
        if b.len() == 0 || b[0] != '0' {
            lemma_differs(s, 1, "070000"@, 2);
            lemma_differs(s, 1, "0700"@, 2);
        } else {
            lemma_differs(s, 1, "070000"@, 3);
            lemma_differs(s, 1, "0700"@, 3);
        }
        if b.len() == 0 || b[0] != ':' {
            lemma_differs(s, 1, "07:00:00"@, 2);
            lemma_differs(s, 1, "07:00"@, 2);
        } else if b.len() == 1 || b[1] != '0' {
            lemma_differs(s, 1, "07:00:00"@, 3);
            lemma_differs(s, 1, "07:00"@, 3);
        } else {
            lemma_differs(s, 1, "07:00:00"@, 4);
            lemma_differs(s, 1, "07:00"@, 4);
        }
    }
}

/// A point or a comma and a run of zeros or of nines that no other digit follows show the fraction of
/// the second in as many digits, without its trailing zeros for nines.
pub proof fn every_fraction_is_replaced(
    n: nat,
    nines: bool,
    comma: bool,
    b: Seq<char>,
    f: Fields,
    t: Time,
)
    requires
        0 < n < 4096,
        b.len() == 0 || b[0] < '0' || b[0] > '9',
    ensures
        rendered(
            seq![if comma { ',' } else { '.' }] + Seq::new(n, |i: int| if nines { '9' } else { '0' })
                + b,
            f,
            t,
        ) == token_text(Std::FracSecond { trim: nines, digits: n as usize, comma }, f, t) + rendered(
            b,
            f,
            t,
        ),
{
    let c = if nines {
        '9'
    } else {
        '0'
    };
    let p = seq![if comma { ',' } else { '.' }] + Seq::new(n, |i: int| if nines { '9' } else { '0' });
    let s = p + b;
    lemma_no_word(s);
    lemma_no_zero(s);
    lemma_no_number(s);
    reveal_strlit("-");
    reveal_strlit("Z");
    lemma_differs(s, 0, "-"@, 0);
    lemma_differs(s, 0, "Z"@, 0);
    lemma_run(s, 1, n, c);
    lemma_replaced(p, b, Std::FracSecond { trim: nines, digits: n as usize, comma }, f, t);
}

proof fn lemma_run(s: Seq<char>, i: int, n: nat, c: char)
    requires
        0 <= i,
        i + n <= s.len(),
        forall|k: int| i <= k < i + n ==> #[trigger] s[k] == c,
        i + n < s.len() ==> s[i + n] != c,
    ensures
        run_end(s, i, c) == i + n,
    decreases n,
{
    if n > 0 {
        assert(s[i] == c);
        lemma_run(s, i + 1, (n - 1) as nat, c);
    }
}

} // verus!
