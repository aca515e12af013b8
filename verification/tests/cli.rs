//! The command line: flag syntax, values, aliases, the environment, help and version.
use kcptun_std::cli::{
    each_name, filepath_base, go_is_print, go_quote, parse_bool, parse_int_base0, parse_uint_base0,
    stringify_flag, underscore_ok, App, Context, FlagSpec, NumError, Run, RunOutcome,
    NO_HELP_TOPIC_EXIT_CODE, USAGE_ERROR_EXIT_CODE,
};

fn test_flags() -> Vec<FlagSpec<'static>> {
    vec![
    FlagSpec::str_flag("localaddr,l", ":12948", "local listen address"),
    FlagSpec::str_flag("key", "it's a secrect", "pre-shared secret").env("KCPTUN_KEY"),
    FlagSpec::str_flag(
        "log",
        "",
        "specify a log file to output, default goes to stderr",
    ),
    FlagSpec::int_flag("mtu", 1350, "set maximum transmission unit for UDP packets"),
    FlagSpec::int_flag(
        "datashard,ds",
        10,
        "set reed-solomon erasure coding - datashard",
    ),
    FlagSpec::bool_flag("nocomp", "disable compression"),
    FlagSpec::int_flag("nodelay", 0, "").hidden(),
    FlagSpec::str_flag("c", "", "config from json file"),
    ]
}

fn test_app() -> App<'static> {
    App::new(
        "kcptun",
        "PROGRAM",
        "client(with SMUX)",
        "SELFBUILD",
        test_flags(),
    )
}

/// Runs the test app with `argv` (without the program name) and an empty environment.
fn run(args: &[&str]) -> Run {
    run_env(args, &[])
}

fn run_env(args: &[&str], env: &[(&str, &str)]) -> Run {
    let mut argv = vec!["PROGRAM".to_string()];
    argv.extend(args.iter().map(|a| (*a).to_string()));
    let env: Vec<(String, String)> = env
        .iter()
        .map(|(k, v)| ((*k).to_string(), (*v).to_string()))
        .collect();
    test_app().run(&argv, &env)
}

/// Runs the test app and returns the context, failing if it did not reach the action.
fn ctx(args: &[&str]) -> Context {
    match run(args).outcome {
        RunOutcome::Action(c) => c,
        RunOutcome::Exit(code) => panic!("expected the action to run, exited {code}"),
    }
}

/// Runs the test app and returns the `Incorrect Usage.` line, failing if it succeeded.
fn usage_error(args: &[&str]) -> String {
    let r = run(args);
    match r.outcome {
        RunOutcome::Exit(code) => assert_eq!(code, USAGE_ERROR_EXIT_CODE),
        RunOutcome::Action(_) => panic!("expected a usage error, the action ran"),
    }
    let line = r.stdout.lines().next().unwrap_or_default().to_string();
    assert!(
        r.stdout.contains("\nNAME:\n"),
        "the full help must follow the error"
    );
    line
}

// ---------------------------------------------------------------------------------------
// Flag syntax
// ---------------------------------------------------------------------------------------

#[test]
fn single_and_double_dash_and_equals_are_equivalent() {
    for args in [
        ["-mtu", "1300"].as_slice(),
        ["--mtu", "1300"].as_slice(),
        ["-mtu=1300"].as_slice(),
        ["--mtu=1300"].as_slice(),
    ] {
        assert_eq!(ctx(args).integer("mtu"), 1300, "{args:?}");
    }
}

#[test]
fn value_may_look_like_a_flag() {
    assert_eq!(ctx(&["-key", "-mtu"]).string("key"), "-mtu");
}

#[test]
fn string_flag_accepts_an_empty_value() {
    let c = ctx(&["-key="]);
    assert_eq!(c.string("key"), "");
    assert!(c.is_set("key"));
}

#[test]
fn bad_flag_syntax() {
    assert_eq!(
        usage_error(&["---mtu"]),
        "Incorrect Usage. bad flag syntax: ---mtu"
    );
    assert_eq!(
        usage_error(&["-=1"]),
        "Incorrect Usage. bad flag syntax: -=1"
    );
}

#[test]
fn flag_names_are_case_sensitive() {
    assert_eq!(
        usage_error(&["-MTU", "1"]),
        "Incorrect Usage. flag provided but not defined: -MTU"
    );
}

#[test]
fn unknown_flag_stops_at_the_first_one() {
    // The second, invalid, flag is never reached.
    assert_eq!(
        usage_error(&["-bad", "-mtu", "abc"]),
        "Incorrect Usage. flag provided but not defined: -bad"
    );
}

#[test]
fn missing_value() {
    assert_eq!(
        usage_error(&["-mtu"]),
        "Incorrect Usage. flag needs an argument: -mtu"
    );
    assert_eq!(
        usage_error(&["--key"]),
        "Incorrect Usage. flag needs an argument: -key"
    );
    assert_eq!(
        usage_error(&["-datashard=4", "-mtu"]),
        "Incorrect Usage. flag needs an argument: -mtu"
    );
}

// ---------------------------------------------------------------------------------------
// Integers: strconv.ParseInt(s, 0, 64)
// ---------------------------------------------------------------------------------------

#[test]
fn int_values_use_base_zero() {
    for (arg, want) in [
        ("1350", 1350),
        ("01350", 744), // leading zero: octal
        ("0o17", 15),   // explicit octal prefix
        ("0x100", 256), // hex
        ("0XfF", 255),  // hex, either case
        ("0b1010", 10), // binary
        ("0", 0),
        ("1_350", 1350), // underscores are allowed in base 0
        ("0x_10", 16),   // ... including right after the base prefix
        ("+42", 42),
        ("-16", -16),
        ("-0x10", -16),
        ("9223372036854775807", i64::MAX),
        ("-9223372036854775808", i64::MIN),
    ] {
        assert_eq!(ctx(&["-mtu", arg]).integer("mtu"), want, "-mtu {arg}");
    }
}

#[test]
fn int_parse_errors() {
    for arg in [
        "abc", "", "0x", "09", "13.5", " 1350", "_1350", "1350_", "1__350", "1350abc",
    ] {
        assert_eq!(
            usage_error(&[&format!("-mtu={arg}")]),
            format!(
                "Incorrect Usage. invalid value {} for flag -mtu: parse error",
                go_quote(arg)
            ),
            "-mtu={arg}"
        );
    }
}

#[test]
fn int_range_errors() {
    for arg in [
        "9223372036854775808",
        "99999999999999999999",
        "-9223372036854775809",
    ] {
        assert_eq!(
            usage_error(&["-mtu", arg]),
            format!(
                "Incorrect Usage. invalid value {} for flag -mtu: value out of range",
                go_quote(arg)
            ),
            "-mtu {arg}"
        );
    }
}

#[test]
fn parse_int_matches_go() {
    assert_eq!(parse_int_base0("0xFFFFFFFFFFFFFFFF"), Err(NumError::Range));
    assert_eq!(parse_int_base0("-"), Err(NumError::Syntax));
    assert_eq!(parse_int_base0("+"), Err(NumError::Syntax));
    assert_eq!(parse_int_base0("00"), Ok(0));
    assert_eq!(parse_int_base0("0_0"), Ok(0));
    assert_eq!(parse_int_base0("0b_1"), Ok(1));
    assert_eq!(parse_int_base0("_0b1"), Err(NumError::Syntax));
    assert_eq!(parse_int_base0("0x1p2"), Err(NumError::Syntax));
    assert_eq!(parse_int_base0("١٢٣"), Err(NumError::Syntax)); // non-ASCII digits
}

// ---------------------------------------------------------------------------------------
// Booleans: strconv.ParseBool
// ---------------------------------------------------------------------------------------

#[test]
fn bool_without_a_value_is_true() {
    assert!(ctx(&["-nocomp"]).bool("nocomp"));
    assert!(!ctx(&[]).bool("nocomp"));
}

#[test]
fn bool_parse_bool_forms() {
    for v in ["1", "t", "T", "true", "TRUE", "True"] {
        assert!(
            ctx(&[&format!("-nocomp={v}")]).bool("nocomp"),
            "-nocomp={v}"
        );
    }
    for v in ["0", "f", "F", "false", "FALSE", "False"] {
        assert!(
            !ctx(&[&format!("-nocomp={v}")]).bool("nocomp"),
            "-nocomp={v}"
        );
    }
}

#[test]
fn bool_invalid_value() {
    for v in ["yes", "", "TrUe", "2"] {
        assert_eq!(
            usage_error(&[&format!("-nocomp={v}")]),
            format!(
                "Incorrect Usage. invalid boolean value {} for -nocomp: parse error",
                go_quote(v)
            ),
            "-nocomp={v}"
        );
    }
}

#[test]
fn bool_with_a_separate_word_stops_parsing() {
    // The kcptun trap: "-nocomp false -mtu 1234" enables compression's opposite and leaves
    // everything after it as positional arguments.
    let c = ctx(&["-nocomp", "false", "-mtu", "1234"]);
    assert!(c.bool("nocomp"));
    assert_eq!(c.integer("mtu"), 1350);
    assert_eq!(c.args(), ["false", "-mtu", "1234"]);
}

// ---------------------------------------------------------------------------------------
// Where parsing stops
// ---------------------------------------------------------------------------------------

#[test]
fn parsing_stops_at_the_first_non_flag() {
    let c = ctx(&["extra", "-mtu", "999"]);
    assert_eq!(c.integer("mtu"), 1350);
    assert_eq!(c.args(), ["extra", "-mtu", "999"]);

    let c = ctx(&["-mtu", "1400", "extra", "-datashard", "7"]);
    assert_eq!(c.integer("mtu"), 1400);
    assert_eq!(c.integer("datashard"), 10);
    assert_eq!(c.args(), ["extra", "-datashard", "7"]);
}

#[test]
fn a_lone_dash_and_an_empty_argument_are_positional() {
    assert_eq!(ctx(&["-", "-mtu", "999"]).args(), ["-", "-mtu", "999"]);
    assert_eq!(ctx(&["", "-mtu", "999"]).args(), ["", "-mtu", "999"]);
}

#[test]
fn double_dash_terminates_the_flags() {
    let c = ctx(&["-mtu", "1400", "--", "-mtu", "999"]);
    assert_eq!(c.integer("mtu"), 1400);
    // "--" itself is consumed.
    assert_eq!(c.args(), ["-mtu", "999"]);
    assert_eq!(ctx(&["--", "-mtu", "999"]).integer("mtu"), 1350);
}

// ---------------------------------------------------------------------------------------
// Aliases
// ---------------------------------------------------------------------------------------

#[test]
fn aliases_share_a_value() {
    let c = ctx(&["-l", "host:1", "-ds", "4"]);
    assert_eq!(c.string("localaddr"), "host:1");
    assert_eq!(c.string("l"), "host:1");
    assert_eq!(c.integer("datashard"), 4);
    assert_eq!(c.integer("ds"), 4);
    assert!(c.is_set("localaddr") && c.is_set("l") && c.is_set("ds") && c.is_set("datashard"));
}

#[test]
fn repeating_one_alias_keeps_the_last_value() {
    assert_eq!(ctx(&["-l", "a", "-l", "b"]).string("localaddr"), "b");
}

#[test]
fn two_forms_of_the_same_flag_are_rejected() {
    let r = run(&["-l", "x", "-localaddr", "y"]);
    assert!(matches!(r.outcome, RunOutcome::Exit(USAGE_ERROR_EXIT_CODE)));
    // Note: no "Incorrect Usage." prefix and no blank line, unlike a parse error.
    assert!(
        r.stdout
            .starts_with("Cannot use two forms of the same flag: l localaddr\nNAME:\n"),
        "unexpected output: {:?}",
        &r.stdout[..80.min(r.stdout.len())]
    );
}

#[test]
fn the_normalize_error_wins_over_a_parse_error() {
    let r = run(&["-l", "x", "-localaddr", "y", "-nosuchflag"]);
    assert!(
        r.stdout
            .starts_with("Cannot use two forms of the same flag: ")
    );
}

// ---------------------------------------------------------------------------------------
// Environment
// ---------------------------------------------------------------------------------------

#[test]
fn env_var_provides_the_default_and_the_flag_overrides_it() {
    let c = match run_env(&[], &[("KCPTUN_KEY", "from-env")]).outcome {
        RunOutcome::Action(c) => c,
        RunOutcome::Exit(code) => panic!("exited {code}"),
    };
    assert_eq!(c.string("key"), "from-env");
    // A value from the environment counts as set.
    assert!(c.is_set("key"));

    let c = match run_env(&["-key", "from-flag"], &[("KCPTUN_KEY", "from-env")]).outcome {
        RunOutcome::Action(c) => c,
        RunOutcome::Exit(code) => panic!("exited {code}"),
    };
    assert_eq!(c.string("key"), "from-flag");
}

#[test]
fn an_empty_env_var_still_counts_as_set() {
    let c = match run_env(&[], &[("KCPTUN_KEY", "")]).outcome {
        RunOutcome::Action(c) => c,
        RunOutcome::Exit(code) => panic!("exited {code}"),
    };
    assert_eq!(c.string("key"), "");
    assert!(c.is_set("key"));
}

#[test]
fn without_the_env_var_the_declared_default_applies() {
    let c = ctx(&[]);
    assert_eq!(c.string("key"), "it's a secrect");
    assert!(!c.is_set("key"));
}

// ---------------------------------------------------------------------------------------
// Hidden flags
// ---------------------------------------------------------------------------------------

#[test]
fn hidden_flags_parse_but_are_not_listed() {
    assert_eq!(ctx(&["-nodelay", "1"]).integer("nodelay"), 1);
    assert!(!test_app().render_help().contains("nodelay"));
}

// ---------------------------------------------------------------------------------------
// Help and version
// ---------------------------------------------------------------------------------------

#[test]
fn help_flags_and_command() {
    let help = test_app().render_help();
    for args in [
        ["-h"].as_slice(),
        ["--help"].as_slice(),
        ["help"].as_slice(),
        ["h"].as_slice(),
        ["-h", "extra"].as_slice(),
        ["-mtu", "1400", "-h"].as_slice(),
    ] {
        let r = run(args);
        assert!(matches!(r.outcome, RunOutcome::Exit(0)), "{args:?}");
        assert_eq!(r.stdout, help, "{args:?}");
    }
    // An explicit false is not a help request.
    assert!(matches!(
        run(&["--help=false"]).outcome,
        RunOutcome::Action(_)
    ));
}

#[test]
fn help_command_with_a_topic() {
    let r = run(&["help", "help"]);
    assert!(matches!(r.outcome, RunOutcome::Exit(0)));
    assert_eq!(
        r.stdout,
        "NAME:\n    - Shows a list of commands or help for one command\n\nUSAGE:\n    [command]\n"
    );

    let r = run(&["help", "foo"]);
    assert!(matches!(
        r.outcome,
        RunOutcome::Exit(NO_HELP_TOPIC_EXIT_CODE)
    ));
    assert_eq!(r.stderr, "No help topic for 'foo'\n");
    assert_eq!(r.stdout, "");
}

#[test]
fn version_flags() {
    for args in [["-v"].as_slice(), ["--version"].as_slice()] {
        let r = run(args);
        assert!(matches!(r.outcome, RunOutcome::Exit(0)));
        assert_eq!(r.stdout, "kcptun version SELFBUILD\n");
    }
    // Help is checked before the version.
    assert_eq!(run(&["-v", "-h"]).stdout, test_app().render_help());
}

#[test]
fn help_layout() {
    assert_eq!(
        test_app().render_help(),
        [
            "NAME:\n",
            "   kcptun - client(with SMUX)\n",
            "\n",
            "USAGE:\n",
            "   PROGRAM [global options] command [command options] [arguments...]\n",
            "\n",
            "VERSION:\n",
            "   SELFBUILD\n",
            "\n",
            "COMMANDS:\n",
            "   help, h  Shows a list of commands or help for one command\n",
            "\n",
            "GLOBAL OPTIONS:\n",
            "   --localaddr value, -l value    local listen address (default: \":12948\")\n",
            "   --key value                    pre-shared secret (default: \"it's a secrect\") \
             [$KCPTUN_KEY]\n",
            "   --log value                    specify a log file to output, default goes to \
             stderr\n",
            "   --mtu value                    set maximum transmission unit for UDP packets \
             (default: 1350)\n",
            "   --datashard value, --ds value  set reed-solomon erasure coding - datashard \
             (default: 10)\n",
            "   --nocomp                       disable compression\n",
            "   -c value                       config from json file\n",
            "   --help, -h                     show help\n",
            "   --version, -v                  print the version\n",
        ]
        .concat()
    );
}

// ---------------------------------------------------------------------------------------
// Helpers
// ---------------------------------------------------------------------------------------

#[test]
fn stringify_flag_shapes() {
    let cases = [
        (
            FlagSpec::str_flag("localaddr,l", ":12948", "local listen address"),
            "--localaddr value, -l value\tlocal listen address (default: \":12948\")",
        ),
        (
            FlagSpec::str_flag("remoteaddr, r", "vps:29900", "kcp server address"),
            "--remoteaddr value, -r value\tkcp server address (default: \"vps:29900\")",
        ),
        (
            FlagSpec::str_flag("log", "", "specify a log file"),
            "--log value\tspecify a log file",
        ),
        (
            FlagSpec::int_flag("dscp", 0, "set DSCP(6bit)"),
            "--dscp value\tset DSCP(6bit) (default: 0)",
        ),
        (
            FlagSpec::bool_flag("nocomp", "disable compression"),
            "--nocomp\tdisable compression",
        ),
        (
            FlagSpec::str_flag("c", "", "config from json file"),
            "-c value\tconfig from json file",
        ),
        (
            FlagSpec::str_flag("key", "k", "secret").env("KCPTUN_KEY"),
            "--key value\tsecret (default: \"k\") [$KCPTUN_KEY]",
        ),
        (
            FlagSpec::str_flag("key", "k", "secret").env("A,B"),
            "--key value\tsecret (default: \"k\") [$A, $B]",
        ),
        // A back-quoted word in the usage becomes the placeholder.
        (
            FlagSpec::str_flag("addr", "", "listen on `host:port`"),
            "--addr host:port\tlisten on host:port",
        ),
        (FlagSpec::bool_flag("QPP", ""), "--QPP\t"),
    ];
    for (flag, want) in cases {
        assert_eq!(stringify_flag(&flag), want, "{}", flag.name);
    }
}

#[test]
fn each_name_trims_spaces() {
    assert_eq!(
        each_name("remoteaddr, r"),
        ["remoteaddr", "r"]
    );
    assert_eq!(
        each_name("localaddr,l"),
        ["localaddr", "l"]
    );
    assert_eq!(each_name("key"), ["key"]);
}

#[test]
fn go_quote_matches_strconv() {
    assert_eq!(go_quote("abc"), "\"abc\"");
    assert_eq!(go_quote("it's a secrect"), "\"it's a secrect\"");
    assert_eq!(go_quote("a\tb"), "\"a\\tb\"");
    assert_eq!(go_quote("a\"b\\c"), "\"a\\\"b\\\\c\"");
    assert_eq!(go_quote("\x00\x1f\x7f"), "\"\\x00\\x1f\\x7f\"");
    assert_eq!(go_quote("é\u{a0}x"), "\"é\\u00a0x\"");
    assert_eq!(go_quote("\u{1f600}"), "\"\u{1f600}\"");
}

#[test]
fn filepath_base_matches_go() {
    for (path, want) in [
        ("", "."),
        ("/", "/"),
        ("///", "/"),
        ("client_darwin_arm64", "client_darwin_arm64"),
        ("/usr/local/bin/kcptun-client", "kcptun-client"),
        ("./kcptun-client", "kcptun-client"),
        ("dir/", "dir"),
    ] {
        assert_eq!(filepath_base(path), want, "{path}");
    }
}

#[test]
fn tabwriter_aligns_column_blocks() {
    // One block: the longest cell (5) plus the padding (2) sets the width.
    assert_eq!(
        kcptun_std::cli::tabwriter::format("ab\t1\ncdefg\t2\n"),
        "ab     1\ncdefg  2\n"
    );
    // A line without a tab breaks the block, so the two groups align independently.
    assert_eq!(
        kcptun_std::cli::tabwriter::format("ab\t1\nhead\ncdefg\t2\n"),
        "ab  1\nhead\ncdefg  2\n"
    );
    // The last cell of a line is never padded.
    assert_eq!(kcptun_std::cli::tabwriter::format("a\tb\n"), "a  b\n");
    // Cell widths count characters, not bytes.
    assert_eq!(kcptun_std::cli::tabwriter::format("éé\t1\nab\t2\n"), "éé  1\nab  2\n");
    // Three columns.
    assert_eq!(
        kcptun_std::cli::tabwriter::format("a\tbb\tc\nxxx\td\te\n"),
        "a    bb  c\nxxx  d   e\n"
    );
}

// ---------------------------------------------------------------------------------------
// The whole help text
// ---------------------------------------------------------------------------------------

/// The help of the client.
const CLIENT_HELP: &[&str] = &[
    "NAME:\n",
    "   kcptun - client(with SMUX)\n",
    "\n",
    "USAGE:\n",
    "   kcptun-client [global options] command [command options] [arguments...]\n",
    "\n",
    "VERSION:\n",
    "   SELFBUILD\n",
    "\n",
    "COMMANDS:\n",
    "   help, h  Shows a list of commands or help for one command\n",
    "\n",
    "GLOBAL OPTIONS:\n",
    "   --localaddr value, -l value      local listen address (default: \":12948\")\n",
    "   --remoteaddr value, -r value     kcp server address, eg: \"IP:29900\" a for single port, \"IP:minport-maxport\" for port range (default: \"vps:29900\")\n",
    "   --key value                      pre-shared secret between client and server (default: \"it's a secrect\") [$KCPTUN_KEY]\n",
    "   --crypt value                    aes, aes-128, aes-128-gcm, aes-192, salsa20, blowfish, twofish, cast5, 3des, tea, xtea, xor, sm4, none, null (default: \"aes\")\n",
    "   --mode value                     profiles: fast3, fast2, fast, normal, manual (default: \"fast\")\n",
    "   --QPP                            enable Quantum Permutation Pads(QPP)\n",
    "   --QPPCount value                 the prime number of pads to use for QPP: The more pads you use, the more secure the encryption. Each pad requires 256 bytes. (default: 61)\n",
    "   --conn value                     set num of UDP connections to server (default: 1)\n",
    "   --autoexpire value               set auto expiration time(in seconds) for a single UDP connection, 0 to disable (default: 0)\n",
    "   --scavengettl value              set how long an expired connection can live (in seconds) (default: 600)\n",
    "   --mtu value                      set maximum transmission unit for UDP packets (default: 1350)\n",
    "   --ratelimit value                set maximum outgoing speed (in bytes per second) for a single KCP connection, 0 to disable. Also known as packet pacing (default: 0)\n",
    "   --sndwnd value                   set send window size(num of packets) (default: 128)\n",
    "   --rcvwnd value                   set receive window size(num of packets) (default: 512)\n",
    "   --datashard value, --ds value    set reed-solomon erasure coding - datashard (default: 10)\n",
    "   --parityshard value, --ps value  set reed-solomon erasure coding - parityshard (default: 3)\n",
    "   --dscp value                     set DSCP(6bit) (default: 0)\n",
    "   --nocomp                         disable compression\n",
    "   --sockbuf value                  per-socket buffer in bytes (default: 4194304)\n",
    "   --smuxver value                  specify smux version, available 1,2 (default: 2)\n",
    "   --smuxbuf value                  the overall de-mux buffer in bytes (default: 4194304)\n",
    "   --framesize value                smux max frame size (default: 8192)\n",
    "   --streambuf value                per stream receive buffer in bytes, smux v2+ (default: 2097152)\n",
    "   --keepalive value                seconds between heartbeats (default: 10)\n",
    "   --closewait value                the seconds to wait before tearing down a connection (default: 0)\n",
    "   --snmplog value                  collect snmp to file, aware of timeformat in golang, like: ./snmp-20060102.log\n",
    "   --snmpperiod value               snmp collect period, in seconds (default: 60)\n",
    "   --log value                      specify a log file to output, default goes to stderr\n",
    "   --quiet                          to suppress the 'stream open/close' messages\n",
    "   --tcp                            to emulate a TCP connection(linux)\n",
    "   -c value                         config from json file, which will override the command from shell\n",
    "   --pprof                          start profiling server on :6060\n",
    "   --help, -h                       show help\n",
    "   --version, -v                    print the version\n",
];

/// The help of the server.
const SERVER_HELP: &[&str] = &[
    "NAME:\n",
    "   kcptun - server(with SMUX)\n",
    "\n",
    "USAGE:\n",
    "   kcptun-server [global options] command [command options] [arguments...]\n",
    "\n",
    "VERSION:\n",
    "   SELFBUILD\n",
    "\n",
    "COMMANDS:\n",
    "   help, h  Shows a list of commands or help for one command\n",
    "\n",
    "GLOBAL OPTIONS:\n",
    "   --listen value, -l value         kcp server listen address, eg: \"IP:29900\" for a single port, \"IP:minport-maxport\" for port range (default: \":29900\")\n",
    "   --target value, -t value         target server address, or path/to/unix_socket (default: \"127.0.0.1:12948\")\n",
    "   --key value                      pre-shared secret between client and server (default: \"it's a secrect\") [$KCPTUN_KEY]\n",
    "   --crypt value                    aes, aes-128, aes-128-gcm, aes-192, salsa20, blowfish, twofish, cast5, 3des, tea, xtea, xor, sm4, none, null (default: \"aes\")\n",
    "   --QPP                            enable Quantum Permutation Pads(QPP)\n",
    "   --QPPCount value                 the prime number of pads to use for QPP: The more pads you use, the more secure the encryption. Each pad requires 256 bytes. (default: 61)\n",
    "   --mode value                     profiles: fast3, fast2, fast, normal, manual (default: \"fast\")\n",
    "   --mtu value                      set maximum transmission unit for UDP packets (default: 1350)\n",
    "   --ratelimit value                set maximum outgoing speed (in bytes per second) for a single KCP connection, 0 to disable. Also known as packet pacing. (default: 0)\n",
    "   --sndwnd value                   set send window size(num of packets) (default: 1024)\n",
    "   --rcvwnd value                   set receive window size(num of packets) (default: 1024)\n",
    "   --datashard value, --ds value    set reed-solomon erasure coding - datashard (default: 10)\n",
    "   --parityshard value, --ps value  set reed-solomon erasure coding - parityshard (default: 3)\n",
    "   --dscp value                     set DSCP(6bit) (default: 0)\n",
    "   --nocomp                         disable compression\n",
    "   --sockbuf value                  per-socket buffer in bytes (default: 4194304)\n",
    "   --smuxver value                  specify smux version, available 1,2 (default: 2)\n",
    "   --smuxbuf value                  the overall de-mux buffer in bytes (default: 4194304)\n",
    "   --framesize value                smux max frame size (default: 8192)\n",
    "   --streambuf value                per stream receive buffer in bytes, smux v2+ (default: 2097152)\n",
    "   --keepalive value                seconds between heartbeats (default: 10)\n",
    "   --closewait value                the seconds to wait before tearing down a connection (default: 30)\n",
    "   --snmplog value                  collect snmp to file, aware of timeformat in golang, like: ./snmp-20060102.log\n",
    "   --snmpperiod value               snmp collect period, in seconds (default: 60)\n",
    "   --pprof                          start profiling server on :6060\n",
    "   --log value                      specify a log file to output, default goes to stderr\n",
    "   --quiet                          to suppress the 'stream open/close' messages\n",
    "   --tcp                            to emulate a TCP connection(linux)\n",
    "   -c value                         config from json file, which will override the command from shell\n",
    "   --help, -h                       show help\n",
    "   --version, -v                    print the version\n",
];

fn client_help() -> String {
    CLIENT_HELP.concat()
}

fn server_help() -> String {
    SERVER_HELP.concat()
}

/// Splits one aligned help line back into its two tab-separated cells, at the padding
/// the column writer inserted; `None` for a line that was never part of a column block.
fn untabbed(line: &str) -> Option<String> {
    let body = line.strip_prefix("   ")?;
    if body.starts_with(' ') {
        return None;
    }
    // The first cell never contains two spaces in a row, so the first run of them is the
    // padding that was added.
    let i = body.find("  ")?;
    Some(format!("   {}\t{}", &body[..i], body[i..].trim_start()))
}

/// The column widths of the client's and the server's help are those that the column writer gives:
/// taking the text apart at the padding and running the cells back through it returns it unchanged.
#[test]
fn golden_go_help_layout_is_reproduced() {
    for (name, text) in [("client", client_help()), ("server", server_help())] {
        assert!(
            text.ends_with('\n'),
            "{name}: help text must end with a newline"
        );
        let mut source = String::new();
        for line in text.split('\n') {
            match untabbed(line) {
                Some(cells) => source.push_str(&cells),
                None => source.push_str(line),
            }
            source.push('\n');
        }
        source.pop(); // split('\n') already accounted for the trailing newline
        assert_eq!(kcptun_std::cli::tabwriter::format(&source), text, "{name}");
    }
}

/// The sections of the help, in order.
#[test]
fn golden_go_help_sections() {
    for (name, text) in [("client", client_help()), ("server", server_help())] {
        let headings: Vec<&str> = text
            .lines()
            .filter(|l| l.ends_with(':') && !l.starts_with(' '))
            .collect();
        assert_eq!(
            headings,
            [
                "NAME:",
                "USAGE:",
                "VERSION:",
                "COMMANDS:",
                "GLOBAL OPTIONS:"
            ],
            "{name}"
        );
        assert!(text.contains("   help, h  Shows a list of commands or help for one command\n"));
        assert!(
            text.contains("\n   --help, -h  "),
            "{name}: help flag is listed"
        );
        assert!(
            text.contains("\n   --version, -v  "),
            "{name}: version flag is listed"
        );
        // Hidden flags never appear.
        for hidden in [
            "--acknodelay",
            "--nodelay",
            "--interval",
            "--resend",
            "--nc ",
        ] {
            assert!(!text.contains(hidden), "{name}: {hidden} must be hidden");
        }
    }
    // One-letter names get a single dash, and the environment variable is shown.
    assert!(client_help().contains("\n   -c value  "));
    assert!(client_help().contains(" [$KCPTUN_KEY]\n"));

    // The three shapes of a line: a default with an environment variable, a pair of names, and a
    // one-letter name with no default.
    for (spec, line) in [
        (
            FlagSpec::str_flag(
                "key",
                "it's a secrect",
                "pre-shared secret between client and server",
            )
            .env("KCPTUN_KEY"),
            "   --key value                      pre-shared secret between client and server \
             (default: \"it's a secrect\") [$KCPTUN_KEY]",
        ),
        (
            FlagSpec::int_flag(
                "parityshard, ps",
                3,
                "set reed-solomon erasure coding - parityshard",
            ),
            "   --parityshard value, --ps value  set reed-solomon erasure coding - parityshard \
             (default: 3)",
        ),
        (
            FlagSpec::str_flag(
                "c",
                "",
                "config from json file, which will override the command from shell",
            ),
            "   -c value                         config from json file, which will override the \
             command from shell",
        ),
    ] {
        assert!(
            client_help().contains(&format!("\n{line}\n")),
            "not in the help: {line}"
        );
        let rendered = stringify_flag(&spec);
        let (names, usage) = rendered.split_once('\t').expect("names\\tusage cells");
        assert!(line.starts_with(&format!("   {names} ")), "names: {names}");
        assert!(line.ends_with(usage), "usage: {usage}");
    }

    assert!(
        test_app()
            .render_help()
            .contains("COMMANDS:\n   help, h  Shows a list of commands or help for one command\n")
    );
}

// ---------------------------------------------------------------------------------------
// Further cases
// ---------------------------------------------------------------------------------------

#[test]
fn a_printed_number_is_read_back() {
    for n in [0, 7, 1350, -1350, i64::MAX, i64::MIN] {
        assert_eq!(parse_int_base0(&n.to_string()), Ok(n));
    }
    assert_eq!(parse_uint_base0("18446744073709551615"), Ok(u64::MAX));
    assert_eq!(parse_uint_base0("18446744073709551616"), Err(NumError::Range));
    assert_eq!(parse_uint_base0(""), Err(NumError::Syntax));
    assert_eq!(parse_bool("true"), Ok(true));
    assert_eq!(parse_bool("false"), Ok(false));
    assert_eq!(parse_bool("yes"), Err(NumError::Syntax));
    assert!(underscore_ok("0x_1f") && underscore_ok("1_000"));
    assert!(!underscore_ok("_1") && !underscore_ok("1_") && !underscore_ok("1__0"));
}

#[test]
fn quoted_text_is_printable_text() {
    let odd = "a\u{7f}\u{a0}\u{200b}\u{e000}\n\"\\é";
    assert!(go_quote(odd).chars().all(go_is_print));
    assert!(!go_is_print('\u{200b}') && !go_is_print('\n') && go_is_print('é'));
}

#[test]
fn text_without_tabs_keeps_its_form() {
    for text in ["", "plain", "two\nlines\n", "  spaces  "] {
        assert_eq!(kcptun_std::cli::tabwriter::format(text), text);
    }
}

#[test]
fn a_number_error_has_two_texts() {
    assert_eq!(NumError::Syntax.flag_text(), "parse error");
    assert_eq!(NumError::Range.flag_text(), "value out of range");
}

/// A variable that does not fit the type of its flag.
#[test]
fn a_variable_of_the_wrong_type_is_refused() {
    let app = App::new(
        "kcptun",
        "PROGRAM",
        "usage",
        "1.0",
        vec![
            FlagSpec::int_flag("mtu", 1350, "").env("MTU,OTHER"),
            FlagSpec::bool_flag("quiet", "").env("QUIET"),
        ],
    );
    let argv = vec!["PROGRAM".to_string()];
    let run = |env: &[(&str, &str)]| {
        let env: Vec<(String, String)> = env
            .iter()
            .map(|(k, v)| ((*k).to_string(), (*v).to_string()))
            .collect();
        app.run(&argv, &env)
    };
    let r = run(&[("MTU", "abc")]);
    assert!(matches!(r.outcome, RunOutcome::Exit(USAGE_ERROR_EXIT_CODE)));
    assert_eq!(
        r.stderr,
        "could not parse abc as int value for flag mtu: strconv.ParseInt: parsing \"abc\": invalid \
         syntax\n"
    );
    let r = run(&[("QUIET", "maybe")]);
    assert_eq!(
        r.stderr,
        "could not parse maybe as bool value for flag quiet: strconv.ParseBool: parsing \
         \"maybe\": invalid syntax\n"
    );
    let r = run(&[("OTHER", "0x10"), ("QUIET", "")]);
    match r.outcome {
        RunOutcome::Action(c) => {
            assert_eq!(c.integer("mtu"), 16);
            assert!(!c.bool("quiet"));
            assert!(c.is_set("mtu") && c.is_set("quiet"));
        }
        RunOutcome::Exit(code) => panic!("exited {code}"),
    }
}

/// In every run the names of a flag share the last value given, or the variable's, or the default,
/// and a name that was never declared has none.
#[test]
fn every_name_of_a_flag_has_its_value() {
    let app = App::new(
        "kcptun",
        "PROGRAM",
        "usage",
        "1.0",
        vec![
            FlagSpec::str_flag("addr, a", "default", "").env("FIRST,SECOND"),
            FlagSpec::int_flag("num,n", 7, ""),
        ],
    );
    let value = |args: &[&str], env: &[(&str, &str)]| {
        let mut argv = vec!["PROGRAM".to_string()];
        argv.extend(args.iter().map(|a| (*a).to_string()));
        let env: Vec<(String, String)> = env
            .iter()
            .map(|(k, v)| ((*k).to_string(), (*v).to_string()))
            .collect();
        match app.run(&argv, &env).outcome {
            RunOutcome::Action(c) => {
                assert_eq!(c.string("addr"), c.string("a"));
                assert_eq!(c.is_set("addr"), c.is_set("a"));
                assert_eq!(c.integer("num"), c.integer("n"));
                assert_eq!(c.is_set("num"), c.is_set("n"));
                assert_eq!(c.string("nosuch"), "");
                assert!(!c.is_set("nosuch"));
                (c.string("a"), c.is_set("a"), c.integer("num"), c.is_set("num"))
            }
            RunOutcome::Exit(code) => panic!("exited {code}"),
        }
    };
    let env = [("SECOND", "two")];
    assert_eq!(value(&[], &[]), ("default".to_string(), false, 7, false));
    assert_eq!(value(&[], &env), ("two".to_string(), true, 7, false));
    assert_eq!(
        value(&["-a", "x", "-n=1", "--a=y", "-n", "0x10"], &env),
        ("y".to_string(), true, 16, true)
    );
    assert_eq!(
        value(&["-addr=x"], &[("FIRST", "one"), ("SECOND", "two")]),
        ("x".to_string(), true, 7, false)
    );
    assert_eq!(
        value(&[], &[("FIRST", "one"), ("SECOND", "two")]),
        ("one".to_string(), true, 7, false)
    );
}
