//! Log lines.
use kcptun_std::log::{
    check_error_message, color_red_bytes, default_flags, format_header, itoa, no_color_from,
    println_message, short_file, LogFileError, Logger, Time, EXIT_CHECK_ERROR, EXIT_FATAL, LDATE,
    LLONGFILE, LMICROSECONDS, LMSGPREFIX, LSHORTFILE, LSTD_FLAGS, LTIME, LUTC,
};

/// 2026-03-23T12:00:00.123456789Z, seen from a zone one hour ahead of UTC, so the local time is
/// 13:00:00.
const INSTANT: Time = Time {
    unix_secs: 1_774_267_200,
    nanos: 123_456_789,
    offset_secs: 3600,
};

/// A logger without file and line.
fn plain() -> Logger {
    let mut logger = Logger::default();
    logger.set_flags(LSTD_FLAGS);
    logger
}

/// Every flag combination.
#[test]
fn test_format_header_golden() {
    // (flags, prefix, file, line, message, expected line)
    let cases: &[(u32, &str, &str, u32, &str, &str)] = &[
        (
            LSTD_FLAGS,
            "",
            "main.go",
            30,
            "version: SELFBUILD\n",
            "2026/03/23 13:00:00 version: SELFBUILD\n",
        ),
        (
            LSTD_FLAGS | LSHORTFILE,
            "",
            "crates/std/src/log.rs",
            30,
            "version: SELFBUILD\n",
            "2026/03/23 13:00:00 log.rs:30: version: SELFBUILD\n",
        ),
        (
            LSTD_FLAGS | LLONGFILE,
            "",
            "crates/std/src/log.rs",
            40,
            "longfile\n",
            "2026/03/23 13:00:00 crates/std/src/log.rs:40: longfile\n",
        ),
        (
            LSTD_FLAGS | LMICROSECONDS | LSHORTFILE,
            "",
            "crates/std/src/log.rs",
            42,
            "micro\n",
            "2026/03/23 13:00:00.123456 log.rs:42: micro\n",
        ),
        (
            LTIME,
            "",
            "log.rs",
            44,
            "time only\n",
            "13:00:00 time only\n",
        ),
        (
            LDATE,
            "",
            "log.rs",
            46,
            "date only\n",
            "2026/03/23 date only\n",
        ),
        (0, "", "log.rs", 48, "no flags\n", "no flags\n"),
        (
            LSTD_FLAGS | LSHORTFILE,
            "pfx: ",
            "log.rs",
            51,
            "with prefix\n",
            "pfx: 2026/03/23 13:00:00 log.rs:51: with prefix\n",
        ),
        (
            LSTD_FLAGS | LSHORTFILE | LMSGPREFIX,
            "pfx: ",
            "log.rs",
            53,
            "with msgprefix\n",
            "2026/03/23 13:00:00 log.rs:53: pfx: with msgprefix\n",
        ),
        (
            LSTD_FLAGS | LUTC,
            "",
            "log.rs",
            55,
            "utc\n",
            "2026/03/23 12:00:00 utc\n",
        ),
        // The newline is appended only when the assembled buffer lacks one, so a prefix that
        // already ends in a newline plus an empty message stays a single line.
        (0, "pfx\n", "log.rs", 57, "", "pfx\n"),
    ];

    for &(flag, prefix, file, line, msg, want) in cases {
        let mut logger = Logger::default();
        logger.set_flags(flag);
        logger.set_prefix(prefix);
        let got = logger.output(INSTANT, file, line, msg);
        assert_eq!(got, want, "flags {flag:#x} prefix {prefix:?}");
    }
}

/// A year is padded to four digits, microseconds to six, and a line number not at all.
#[test]
fn test_itoa_padding() {
    let mut buf = String::new();
    itoa(&mut buf, 7, 4);
    buf.push(' ');
    itoa(&mut buf, 12345, 2);
    buf.push(' ');
    itoa(&mut buf, 42, -1);
    buf.push(' ');
    itoa(&mut buf, 0, 6);
    assert_eq!(buf, "0007 12345 42 000000");
}

/// A path that is just `/name` keeps its slash.
#[test]
fn test_short_file() {
    assert_eq!(short_file("crates/std/src/log.rs"), "log.rs");
    assert_eq!(short_file("log.rs"), "log.rs");
    assert_eq!(short_file("/main.go"), "/main.go");
    assert_eq!(short_file("a/b"), "b");
    assert_eq!(short_file("trailing/"), "");
    assert_eq!(short_file(""), "");
}

/// The file and line are shown only by a build without a version number.
#[test]
fn test_default_flags_follow_version() {
    let want = if kcptun_std::VERSION == "SELFBUILD" {
        LSTD_FLAGS | LSHORTFILE
    } else {
        LSTD_FLAGS
    };
    assert_eq!(default_flags(), want);
    assert_eq!(LSTD_FLAGS, 3);
    assert_eq!(LSHORTFILE, 16);
}

/// Single spaces between all operands, one trailing newline.
#[test]
fn test_println_semantics() {
    const TS: &str = "2026/03/23 13:00:00 ";
    let println = |operands: &[&str]| {
        let operands: Vec<String> = operands.iter().map(|s| s.to_string()).collect();
        plain().output(INSTANT, "", 0, &println_message(&operands))
    };
    assert_eq!(
        println(&["sndwnd:", &128.to_string(), "rcvwnd:", &512.to_string()]),
        format!("{TS}sndwnd: 128 rcvwnd: 512\n")
    );
    assert_eq!(
        println(&["compression:", &true.to_string()]),
        format!("{TS}compression: true\n")
    );
    assert_eq!(
        println(&["nodelay parameters:", "1", "10", "2", "1"]),
        format!("{TS}nodelay parameters: 1 10 2 1\n")
    );
    // Without operands the line is just the header.
    assert_eq!(println(&[]), format!("{TS}\n"));
    assert_eq!(println(&[""]), format!("{TS}\n"));
    // Operands that already contain spaces are not touched.
    assert_eq!(println(&["a b", "c"]), format!("{TS}a b c\n"));
}

/// A newline is appended only when the message has none.
#[test]
fn test_printf_semantics() {
    const TS: &str = "2026/03/23 13:00:00 ";
    let printf = |msg: String| plain().output(INSTANT, "", 0, &msg);
    assert_eq!(
        printf(format!("Listening on: {}/tcp", "127.0.0.1:4000")),
        format!("{TS}Listening on: 127.0.0.1:4000/tcp\n")
    );
    assert_eq!(
        printf(check_error_message("open /nope: no such file or directory")),
        format!("{TS}open /nope: no such file or directory\n")
    );
    assert_eq!(
        printf(format!("ratelimit {} is negative, falling back to 0", -5)),
        format!("{TS}ratelimit -5 is negative, falling back to 0\n")
    );
    assert_eq!(printf("plain".to_string()), format!("{TS}plain\n"));
    assert_eq!(printf(String::new()), format!("{TS}\n"));
}

/// The file and the line of the call are shown.
#[test]
fn test_macros_report_call_site() {
    let mut logger = Logger::default();
    logger.set_flags(LSTD_FLAGS | LSHORTFILE);
    for line_no in [7, 4_294_967_295] {
        assert_eq!(
            logger.output(INSTANT, "crates/std/src/log_tests.rs", line_no, "call site"),
            format!("2026/03/23 13:00:00 log_tests.rs:{line_no}: call site\n")
        );
    }
}

/// The error for a log file that cannot be opened.
#[test]
fn test_log_file_open_error() {
    let err = LogFileError {
        path: "/no-such-dir/kcptun.log".to_string(),
        err: "no such file or directory".to_string(),
    };
    assert_eq!(
        err.message(),
        "open /no-such-dir/kcptun.log: no such file or directory"
    );
}

/// Colour is off with `NO_COLOR` set to anything non-empty, `TERM=dumb`, or standard
/// output not being a terminal.
#[test]
fn test_no_color_rules() {
    // (NO_COLOR, TERM, stdout is a tty) -> colour is off
    let cases: &[(Option<&str>, Option<&str>, bool, bool)] = &[
        (None, Some("xterm-256color"), true, false),
        (None, None, true, false),
        (Some(""), Some("xterm"), true, false),
        (Some("1"), Some("xterm"), true, true),
        (Some("0"), Some("xterm"), true, true),
        (None, Some("dumb"), true, true),
        (None, Some("xterm"), false, true),
        (None, None, false, true),
    ];
    for &(no_color, term, tty, want) in cases {
        assert_eq!(
            no_color_from(no_color, term, tty),
            want,
            "{no_color:?} {term:?} tty={tty}"
        );
    }
}

/// The newline is appended before the colour wraps the
/// message, so the reset comes after it. Without colour the message is printed plainly.
#[test]
fn test_color_red_bytes() {
    assert_eq!(
        color_red_bytes("QPP requires more pads", false),
        "\x1b[31mQPP requires more pads\n\x1b[0m"
    );
    assert_eq!(
        color_red_bytes("QPP requires more pads", true),
        "QPP requires more pads\n"
    );
    // A message that already ends in a newline gets no second one.
    assert_eq!(
        color_red_bytes("warning\n", false),
        "\x1b[31mwarning\n\x1b[0m"
    );
    assert_eq!(color_red_bytes("warning\n", true), "warning\n");
    assert_eq!(color_red_bytes("", true), "\n");
}

#[test]
fn the_exit_statuses() {
    assert_eq!((EXIT_FATAL, EXIT_CHECK_ERROR), (1, 255));
}

#[test]
fn the_settings_are_kept_apart() {
    let mut logger = Logger::default();
    assert_eq!(logger.flags(), default_flags());
    assert_eq!(logger.prefix(), "");
    logger.set_prefix("pfx: ");
    assert_eq!(logger.flags(), default_flags());
    logger.set_flags(0);
    assert_eq!((logger.flags(), logger.prefix()), (0, "pfx: ".to_string()));
    assert_eq!(logger.output(INSTANT, "f", 1, "m"), "pfx: m\n");
}

// ---------------------------------------------------------------------------------------
// Local time
// ---------------------------------------------------------------------------------------

/// Instants: the epoch, the two sides of the 2025 daylight-saving switches, a leap day, and far
/// future dates.
const EPOCHS: &[i64] = &[
    0,
    1,
    1_234_567_890,
    1_609_459_199,
    1_741_503_599,
    1_741_503_600,
    1_762_063_199,
    1_762_063_200,
    951_782_400,
    4_102_444_800,
    1_774_267_200,
];

/// The same instants in several zones.
const LOCAL_TIMES: &[(&str, &[&str])] = &[
    (
        "UTC",
        &[
            "1970/01/01 00:00:00",
            "1970/01/01 00:00:01",
            "2009/02/13 23:31:30",
            "2020/12/31 23:59:59",
            "2025/03/09 06:59:59",
            "2025/03/09 07:00:00",
            "2025/11/02 05:59:59",
            "2025/11/02 06:00:00",
            "2000/02/29 00:00:00",
            "2100/01/01 00:00:00",
            "2026/03/23 12:00:00",
        ],
    ),
    (
        "Asia/Kolkata",
        &[
            "1970/01/01 05:30:00",
            "1970/01/01 05:30:01",
            "2009/02/14 05:01:30",
            "2021/01/01 05:29:59",
            "2025/03/09 12:29:59",
            "2025/03/09 12:30:00",
            "2025/11/02 11:29:59",
            "2025/11/02 11:30:00",
            "2000/02/29 05:30:00",
            "2100/01/01 05:30:00",
            "2026/03/23 17:30:00",
        ],
    ),
    (
        "America/New_York",
        &[
            "1969/12/31 19:00:00",
            "1969/12/31 19:00:01",
            "2009/02/13 18:31:30",
            "2020/12/31 18:59:59",
            "2025/03/09 01:59:59",
            "2025/03/09 03:00:00",
            "2025/11/02 01:59:59",
            "2025/11/02 01:00:00",
            "2000/02/28 19:00:00",
            "2099/12/31 19:00:00",
            "2026/03/23 08:00:00",
        ],
    ),
    (
        "Europe/Berlin",
        &[
            "1970/01/01 01:00:00",
            "1970/01/01 01:00:01",
            "2009/02/14 00:31:30",
            "2021/01/01 00:59:59",
            "2025/03/09 07:59:59",
            "2025/03/09 08:00:00",
            "2025/11/02 06:59:59",
            "2025/11/02 07:00:00",
            "2000/02/29 01:00:00",
            "2100/01/01 01:00:00",
            "2026/03/23 13:00:00",
        ],
    ),
    (
        "Australia/Lord_Howe",
        &[
            "1970/01/01 10:00:00",
            "1970/01/01 10:00:01",
            "2009/02/14 10:31:30",
            "2021/01/01 10:59:59",
            "2025/03/09 17:59:59",
            "2025/03/09 18:00:00",
            "2025/11/02 16:59:59",
            "2025/11/02 17:00:00",
            "2000/02/29 11:00:00",
            "2100/01/01 11:00:00",
            "2026/03/23 23:00:00",
        ],
    ),
    (
        "Asia/Kathmandu",
        &[
            "1970/01/01 05:30:00",
            "1970/01/01 05:30:01",
            "2009/02/14 05:16:30",
            "2021/01/01 05:44:59",
            "2025/03/09 12:44:59",
            "2025/03/09 12:45:00",
            "2025/11/02 11:44:59",
            "2025/11/02 11:45:00",
            "2000/02/29 05:45:00",
            "2100/01/01 05:45:00",
            "2026/03/23 17:45:00",
        ],
    ),
];

/// The header of an instant whose zone is so many seconds ahead of UTC.
fn stamp(unix_secs: i64, offset_secs: i32, flag: u32) -> String {
    let mut buf = String::new();
    let t = Time { unix_secs, nanos: 123_456_789, offset_secs };
    format_header(&mut buf, t, "", flag, "", 0);
    buf.trim_end().to_string()
}

/// Every instant is shown in its zone, with the offset that the zone has at that very instant.
#[test]
fn test_local_time_matches_go() {
    const EST: i32 = -18_000;
    const EDT: i32 = -14_400;
    for &(zone, expected) in LOCAL_TIMES {
        let offsets: [i32; 11] = match zone {
            "UTC" => [0; 11],
            "Asia/Kolkata" => [19_800; 11],
            // The clocks go forward between the fifth instant and the sixth, and back between the
            // seventh and the eighth.
            "America/New_York" => [EST, EST, EST, EST, EST, EDT, EDT, EST, EST, EST, EDT],
            "Europe/Berlin" => [3_600; 11],
            "Australia/Lord_Howe" => [
                36_000, 36_000, 39_600, 39_600, 39_600, 39_600, 39_600, 39_600, 39_600, 39_600, 39_600,
            ],
            "Asia/Kathmandu" => [
                19_800, 19_800, 20_700, 20_700, 20_700, 20_700, 20_700, 20_700, 20_700, 20_700, 20_700,
            ],
            other => panic!("{other}"),
        };
        assert_eq!((EPOCHS.len(), expected.len()), (11, 11));
        for ((&epoch, &want), offset) in EPOCHS.iter().zip(expected).zip(offsets) {
            assert_eq!(stamp(epoch, offset, LSTD_FLAGS), want, "{zone} {epoch}");
            assert_eq!(
                stamp(epoch, offset, LSTD_FLAGS | LMICROSECONDS),
                format!("{want}.123456"),
                "{zone} {epoch}"
            );
            // In UTC the offset does not count.
            assert_eq!(
                stamp(epoch, offset, LSTD_FLAGS | LUTC),
                stamp(epoch, 0, LSTD_FLAGS)
            );
        }
    }
}

/// An instant keeps its seconds and takes the machine's offset; one outside the calendar has none.
#[test]
fn an_instant_takes_the_local_offset() {
    let t = Time::at_local(1_774_267_200, 5);
    assert_eq!((t.unix_secs, t.nanos), (1_774_267_200, 5));
    assert!(t.offset_secs.abs() < 86_400);
    assert_eq!(Time::at_local(i64::MAX, 0).offset_secs, 0);
    let now = Time::now();
    assert!((1_577_836_800..4_102_444_800).contains(&now.unix_secs));
    assert!(now.offset_secs.abs() < 86_400);
}
