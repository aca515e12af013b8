//! Layouts of dates and times.
use kcptun_std::gotime::Time;

/// 2026-09-22T15:04:05.123456789Z, an instant in UTC.
fn t0() -> Time {
    Time::new(1_790_089_445, 123_456_789, 0, "UTC")
}

#[test]
fn snmplog_file_names() {
    // What -snmplog is actually used for.
    let t = Time::new(1_790_089_445, 0, -7 * 3600, "MST");
    assert_eq!(
        kcptun_std::gotime::format("kcptun-snmp-20060102.log", &t),
        "kcptun-snmp-20260922.log"
    );
    assert_eq!(
        kcptun_std::gotime::format("/var/log/kcptun/2006/01/02/snmp.log", &t),
        "/var/log/kcptun/2026/09/22/snmp.log"
    );
    // A name with no token at all is copied through.
    assert_eq!(kcptun_std::gotime::format("snmp.log", &t), "snmp.log");
    // ... but "pm" in a file name is a token, so this one rotates between two names a day.
    assert_eq!(kcptun_std::gotime::format("snmp-pm.log", &t), "snmp-am.log");
}

#[test]
fn scanner_quirks() {
    let t = t0();
    // "Mon"/"Jan" followed by a lower-case letter are literals; "January" is not.
    assert_eq!(kcptun_std::gotime::format("Month", &t), "Month");
    assert_eq!(kcptun_std::gotime::format("Janx", &t), "Janx");
    assert_eq!(kcptun_std::gotime::format("Januaryx", &t), "Septemberx");
    // "_2006" is a literal underscore plus the year, not the space-padded day.
    assert_eq!(kcptun_std::gotime::format("_2006", &t), "_2026");
    // A digit right after the zeros means the run is not a fraction: ".00" is literal and "01"
    // is the zero-padded month.
    assert_eq!(kcptun_std::gotime::format(".0001", &t), ".0009");
    // Only the leftmost "-0700" matches.
    assert_eq!(kcptun_std::gotime::format("--0700", &t), "-+0000");
    // An unknown layout is copied verbatim, and an empty one stays empty.
    assert_eq!(kcptun_std::gotime::format("kcptun", &t), "kcptun");
    assert_eq!(kcptun_std::gotime::format("", &t), "");
}

#[test]
fn twelve_hour_clock_and_am_pm() {
    let midnight = Time::new(1_767_225_600, 0, 0, "UTC"); // 2026-01-01T00:00:00Z
    assert_eq!(kcptun_std::gotime::format("3:04:05PM", &midnight), "12:00:00AM");
    assert_eq!(kcptun_std::gotime::format("03pm", &midnight), "12am");
    let noon = Time::new(1_767_268_800, 0, 0, "UTC"); // 2026-01-01T12:00:00Z
    assert_eq!(kcptun_std::gotime::format("3:04:05PM", &noon), "12:00:00PM");
    assert_eq!(kcptun_std::gotime::format("15", &noon), "12");
}

#[test]
fn fractional_seconds() {
    let t = t0();
    // ".0" keeps the zeros, ".9" drops them.
    assert_eq!(kcptun_std::gotime::format(".000000000", &t), ".123456789");
    assert_eq!(kcptun_std::gotime::format(".999999999", &t), ".123456789");
    // The comma separator is a token of its own.
    assert_eq!(kcptun_std::gotime::format(",000", &t), ",123");
    // A zero nanosecond leaves nothing at all behind for ".9", including the separator.
    let whole = Time::new(1_790_089_445, 0, 0, "UTC");
    assert_eq!(kcptun_std::gotime::format("05.999", &whole), "05");
    assert_eq!(kcptun_std::gotime::format("05.000", &whole), "05.000");
    // Trailing zeros inside the requested width are trimmed, the separator survives.
    let tenth = Time::new(1_790_089_445, 120_000_000, 0, "UTC");
    assert_eq!(kcptun_std::gotime::format("05.999", &tenth), "05.12");
    assert_eq!(kcptun_std::gotime::format("05.000", &tenth), "05.120");
    // Fewer than nine digits truncate rather than round.
    assert_eq!(kcptun_std::gotime::format(".00", &t), ".12");
    // A nanosecond that only shows up beyond the requested width trims away entirely.
    let one_nano = Time::new(1_790_089_445, 1, 0, "UTC");
    assert_eq!(kcptun_std::gotime::format("05.9", &one_nano), "05");
    assert_eq!(kcptun_std::gotime::format("05.999999999", &one_nano), "05.000000001");
}

#[test]
fn zone_tokens() {
    let utc = t0();
    // The Z-forms print "Z" at offset zero, the numeric forms never do.
    assert_eq!(kcptun_std::gotime::format("Z0700", &utc), "Z");
    assert_eq!(kcptun_std::gotime::format("Z07:00", &utc), "Z");
    assert_eq!(kcptun_std::gotime::format("-0700", &utc), "+0000");
    assert_eq!(kcptun_std::gotime::format("MST", &utc), "UTC");

    let mst = Time::new(1_790_089_445, 0, -7 * 3600, "MST");
    assert_eq!(kcptun_std::gotime::format("Z0700", &mst), "-0700");
    assert_eq!(kcptun_std::gotime::format("-07:00", &mst), "-07:00");
    assert_eq!(kcptun_std::gotime::format("-07", &mst), "-07");
    assert_eq!(kcptun_std::gotime::format("MST", &mst), "MST");

    // An offset that is not a whole number of minutes: only the …0000 forms show the seconds.
    let lmt = Time::new(1_790_089_445, 0, 3781, "LMT");
    assert_eq!(kcptun_std::gotime::format("-070000", &lmt), "+010301");
    assert_eq!(kcptun_std::gotime::format("-07:00:00", &lmt), "+01:03:01");
    assert_eq!(kcptun_std::gotime::format("-0700", &lmt), "+0103");

    // Without a zone name, "MST" falls back to the numeric form - which is what Time::now()
    // produces, since the clock does not tell the zone's abbreviation.
    let unnamed = Time::new(1_790_089_445, 0, 5 * 3600 + 1800, "");
    assert_eq!(kcptun_std::gotime::format("MST", &unnamed), "+0530");
    assert_eq!(kcptun_std::gotime::format("MST", &Time::new(0, 0, -150 * 60, "")), "-0230");
}

#[test]
fn padding_and_widths() {
    // 2006-01-02T03:04:05Z, the reference instant: every field is single-digit.
    let t = Time::new(1_136_171_045, 0, 0, "UTC");
    assert_eq!(kcptun_std::gotime::format("1 2 3 4 5", &t), "1 2 3 4 5");
    assert_eq!(kcptun_std::gotime::format("01 02 03 04 05", &t), "01 02 03 04 05");
    assert_eq!(kcptun_std::gotime::format("_2|__2|002", &t), " 2|  2|002");
    assert_eq!(
        kcptun_std::gotime::format("Monday Mon January Jan", &t),
        "Monday Mon January Jan"
    );
    // A year below 1000 is padded to four digits, "06" shows the last two.
    let year6 = Time::new(-61_972_387_200, 0, 0, "UTC");
    assert_eq!(kcptun_std::gotime::format("2006-01-02 06", &year6), "0006-03-05 06");
}

#[test]
fn year_day_widths() {
    // 2026-12-31: the last day of a common year.
    let t = Time::new(1_798_761_599, 0, 0, "UTC");
    assert_eq!(kcptun_std::gotime::format("__2 002", &t), "365 365");
    // 2024-02-29: a leap day.
    let leap = Time::new(1_709_208_000, 0, 0, "UTC");
    assert_eq!(kcptun_std::gotime::format("Jan _2 002", &leap), "Feb 29 060");
}

#[test]
fn out_of_range_instants_do_not_panic() {
    // The calendar stops at year ±262143; beyond it the epoch is shown.
    for secs in [
        i64::MIN,
        i64::MAX,
        -100_000_000_000_000,
        100_000_000_000_000,
    ] {
        let t = Time::new(secs, 0, 3600, "X");
        assert!(!kcptun_std::gotime::format("2006-01-02T15:04:05", &t).is_empty());
    }
}

#[test]
fn now_has_the_local_offset_and_no_zone_name() {
    let before = chrono::Local::now().format("%Y-%m-%d").to_string();
    let now = Time::now();
    let after = chrono::Local::now().format("%Y-%m-%d").to_string();
    assert!(now.zone_name.is_empty(), "see Time::now's documentation");
    // Some plausible wall clock (2020-01-01 .. 2100-01-01) and a real zone offset.
    assert!((1_577_836_800..4_102_444_800).contains(&now.unix_secs));
    assert!(now.offset_secs.abs() <= 26 * 3600);
    assert!(now.nanos < 1_000_000_000);
    // The date it renders is the local one. Bracketed, so a run across local midnight cannot
    // make the comparison flaky.
    let got = kcptun_std::gotime::format("2006-01-02", &now);
    assert!(
        got == before || got == after,
        "{got} not in {before}..{after}"
    );
}

#[test]
fn multi_byte_characters_never_split_a_token() {
    // Every byte that can start a token, combined with every ASCII byte and a two-, three- and
    // four-byte character.
    let t = t0();
    let wide = ["é", "€", "🦀"];
    for start in b"JM0123_45PpZ-.,".iter().map(|&c| c as char) {
        for tail in 0u8..=127 {
            let tail = tail as char;
            for w in wide {
                for layout in [
                    format!("{start}{tail}{w}"),
                    format!("{w}{start}{tail}"),
                    format!("{start}{w}{tail}"),
                    format!("{w}{start}{w}{tail}{w}"),
                ] {
                    let out = kcptun_std::gotime::format(&layout, &t);
                    assert!(out.len() >= wide_bytes(&layout), "layout {layout:?}");
                }
            }
        }
    }
}

/// How many bytes of `layout` belong to characters the scanner can never consume (anything
/// outside ASCII), and which therefore have to survive into the output.
fn wide_bytes(layout: &str) -> usize {
    layout
        .chars()
        .filter(|c| !c.is_ascii())
        .map(char::len_utf8)
        .sum()
}

#[test]
fn a_layout_without_a_token_is_copied() {
    for layout in ["", "kcptun", "snmp.log", "αβγ", "Month of Janx"] {
        assert_eq!(kcptun_std::gotime::format(layout, &t0()), layout);
    }
}

#[test]
fn an_instant_outside_the_calendar_is_shown_as_the_epoch() {
    for secs in [i64::MIN, i64::MAX] {
        let t = Time::new(secs, 0, 3600, "X");
        assert_eq!(
            kcptun_std::gotime::format("2006-01-02T15:04:05", &t),
            "1970-01-01T00:00:00"
        );
    }
}

#[test]
fn the_fields_are_those_of_the_calendar() {
    // 2024-02-29T12:34:56Z was a Thursday, the sixtieth day of its year.
    let f = Time::new(1_709_210_096, 0, 0, "UTC").fields();
    assert_eq!((f.year, f.month, f.day, f.yday), (2024, 2, 29, 60));
    assert_eq!((f.hour, f.minute, f.second, f.weekday), (12, 34, 56, 4));
    // One second before the epoch, and the same instant an hour further east.
    let f = Time::new(-1, 0, 0, "UTC").fields();
    assert_eq!((f.year, f.month, f.day, f.hour, f.second), (1969, 12, 31, 23, 59));
    let f = Time::new(-1, 0, 3600, "").fields();
    assert_eq!((f.year, f.month, f.day, f.hour, f.second), (1970, 1, 1, 0, 59));
}
