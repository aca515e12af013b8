//! The configuration: flag tables, defaults, mode presets, checks and the JSON overlay.
use kcptun_std::cli::RunOutcome;
use kcptun_std::config::{
    client_app, client_flags, client_keys, next_chunk, parse_json_bytes, predefined_mode, reads_on,
    server_app, server_flags, server_keys, BaseConfig, ClientConfig, ConfigFileError, ModeParams,
    ServerConfig,
};
use kcptun_std::gojson::{parse, Kind, Leaf, SyntaxError, UnmarshalError, MAX_NESTING_DEPTH};

// ---------------------------------------------------------------------------------------
// The whole help text
// ---------------------------------------------------------------------------------------

/// The help of the client.
const CLIENT_HELP: &[&str] = &[
    "NAME:\n",
    "   kcptun - client(with SMUX)\n",
    "\n",
    "USAGE:\n",
    "   kcptun-client [global options] command [command options] [arguments...]\n",
    "\n",
    "VERSION:\n",
    "   SELFBUILD\n",
    "\n",
    "COMMANDS:\n",
    "   help, h  Shows a list of commands or help for one command\n",
    "\n",
    "GLOBAL OPTIONS:\n",
    "   --localaddr value, -l value      local listen address (default: \":12948\")\n",
    "   --remoteaddr value, -r value     kcp server address, eg: \"IP:29900\" a for single port, \"IP:minport-maxport\" for port range (default: \"vps:29900\")\n",
    "   --key value                      pre-shared secret between client and server (default: \"it's a secrect\") [$KCPTUN_KEY]\n",
    "   --crypt value                    aes, aes-128, aes-128-gcm, aes-192, salsa20, blowfish, twofish, cast5, 3des, tea, xtea, xor, sm4, none, null (default: \"aes\")\n",
    "   --mode value                     profiles: fast3, fast2, fast, normal, manual (default: \"fast\")\n",
    "   --QPP                            enable Quantum Permutation Pads(QPP)\n",
    "   --QPPCount value                 the prime number of pads to use for QPP: The more pads you use, the more secure the encryption. Each pad requires 256 bytes. (default: 61)\n",
    "   --conn value                     set num of UDP connections to server (default: 1)\n",
    "   --autoexpire value               set auto expiration time(in seconds) for a single UDP connection, 0 to disable (default: 0)\n",
    "   --scavengettl value              set how long an expired connection can live (in seconds) (default: 600)\n",
    "   --mtu value                      set maximum transmission unit for UDP packets (default: 1350)\n",
    "   --ratelimit value                set maximum outgoing speed (in bytes per second) for a single KCP connection, 0 to disable. Also known as packet pacing (default: 0)\n",
    "   --sndwnd value                   set send window size(num of packets) (default: 128)\n",
    "   --rcvwnd value                   set receive window size(num of packets) (default: 512)\n",
    "   --datashard value, --ds value    set reed-solomon erasure coding - datashard (default: 10)\n",
    "   --parityshard value, --ps value  set reed-solomon erasure coding - parityshard (default: 3)\n",
    "   --dscp value                     set DSCP(6bit) (default: 0)\n",
    "   --nocomp                         disable compression\n",
    "   --sockbuf value                  per-socket buffer in bytes (default: 4194304)\n",
    "   --smuxver value                  specify smux version, available 1,2 (default: 2)\n",
    "   --smuxbuf value                  the overall de-mux buffer in bytes (default: 4194304)\n",
    "   --framesize value                smux max frame size (default: 8192)\n",
    "   --streambuf value                per stream receive buffer in bytes, smux v2+ (default: 2097152)\n",
    "   --keepalive value                seconds between heartbeats (default: 10)\n",
    "   --closewait value                the seconds to wait before tearing down a connection (default: 0)\n",
    "   --snmplog value                  collect snmp to file, aware of timeformat in golang, like: ./snmp-20060102.log\n",
    "   --snmpperiod value               snmp collect period, in seconds (default: 60)\n",
    "   --log value                      specify a log file to output, default goes to stderr\n",
    "   --quiet                          to suppress the 'stream open/close' messages\n",
    "   --tcp                            to emulate a TCP connection(linux)\n",
    "   -c value                         config from json file, which will override the command from shell\n",
    "   --pprof                          start profiling server on :6060\n",
    "   --help, -h                       show help\n",
    "   --version, -v                    print the version\n",
];

/// The help of the server.
const SERVER_HELP: &[&str] = &[
    "NAME:\n",
    "   kcptun - server(with SMUX)\n",
    "\n",
    "USAGE:\n",
    "   kcptun-server [global options] command [command options] [arguments...]\n",
    "\n",
    "VERSION:\n",
    "   SELFBUILD\n",
    "\n",
    "COMMANDS:\n",
    "   help, h  Shows a list of commands or help for one command\n",
    "\n",
    "GLOBAL OPTIONS:\n",
    "   --listen value, -l value         kcp server listen address, eg: \"IP:29900\" for a single port, \"IP:minport-maxport\" for port range (default: \":29900\")\n",
    "   --target value, -t value         target server address, or path/to/unix_socket (default: \"127.0.0.1:12948\")\n",
    "   --key value                      pre-shared secret between client and server (default: \"it's a secrect\") [$KCPTUN_KEY]\n",
    "   --crypt value                    aes, aes-128, aes-128-gcm, aes-192, salsa20, blowfish, twofish, cast5, 3des, tea, xtea, xor, sm4, none, null (default: \"aes\")\n",
    "   --QPP                            enable Quantum Permutation Pads(QPP)\n",
    "   --QPPCount value                 the prime number of pads to use for QPP: The more pads you use, the more secure the encryption. Each pad requires 256 bytes. (default: 61)\n",
    "   --mode value                     profiles: fast3, fast2, fast, normal, manual (default: \"fast\")\n",
    "   --mtu value                      set maximum transmission unit for UDP packets (default: 1350)\n",
    "   --ratelimit value                set maximum outgoing speed (in bytes per second) for a single KCP connection, 0 to disable. Also known as packet pacing. (default: 0)\n",
    "   --sndwnd value                   set send window size(num of packets) (default: 1024)\n",
    "   --rcvwnd value                   set receive window size(num of packets) (default: 1024)\n",
    "   --datashard value, --ds value    set reed-solomon erasure coding - datashard (default: 10)\n",
    "   --parityshard value, --ps value  set reed-solomon erasure coding - parityshard (default: 3)\n",
    "   --dscp value                     set DSCP(6bit) (default: 0)\n",
    "   --nocomp                         disable compression\n",
    "   --sockbuf value                  per-socket buffer in bytes (default: 4194304)\n",
    "   --smuxver value                  specify smux version, available 1,2 (default: 2)\n",
    "   --smuxbuf value                  the overall de-mux buffer in bytes (default: 4194304)\n",
    "   --framesize value                smux max frame size (default: 8192)\n",
    "   --streambuf value                per stream receive buffer in bytes, smux v2+ (default: 2097152)\n",
    "   --keepalive value                seconds between heartbeats (default: 10)\n",
    "   --closewait value                the seconds to wait before tearing down a connection (default: 30)\n",
    "   --snmplog value                  collect snmp to file, aware of timeformat in golang, like: ./snmp-20060102.log\n",
    "   --snmpperiod value               snmp collect period, in seconds (default: 60)\n",
    "   --pprof                          start profiling server on :6060\n",
    "   --log value                      specify a log file to output, default goes to stderr\n",
    "   --quiet                          to suppress the 'stream open/close' messages\n",
    "   --tcp                            to emulate a TCP connection(linux)\n",
    "   -c value                         config from json file, which will override the command from shell\n",
    "   --help, -h                       show help\n",
    "   --version, -v                    print the version\n",
];

fn client_help() -> String {
    CLIENT_HELP.concat()
}

fn server_help() -> String {
    SERVER_HELP.concat()
}

#[test]
fn client_help_matches_go() {
    assert_eq!(client_app("kcptun-client").render_help(), client_help());
}

#[test]
fn server_help_matches_go() {
    assert_eq!(server_app("kcptun-server").render_help(), server_help());
}

#[test]
fn vectors_config_defaults_match_flag_tables() {
    let base = BaseConfig {
        key: "it's a secrect".to_string(),
        crypt: "aes".to_string(),
        mode: "fast".to_string(),
        mtu: 1350,
        rate_limit: 0,
        snd_wnd: 128,
        rcv_wnd: 512,
        data_shard: 10,
        parity_shard: 3,
        dscp: 0,
        no_comp: false,
        ack_nodelay: false,
        no_delay: 0,
        interval: 50,
        resend: 0,
        no_congestion: 0,
        sock_buf: 4194304,
        smux_ver: 2,
        smux_buf: 4194304,
        frame_size: 8192,
        stream_buf: 2097152,
        keep_alive: 10,
        log: String::new(),
        snmp_log: String::new(),
        snmp_period: 60,
        quiet: false,
        tcp: false,
        pprof: false,
        qpp: false,
        qpp_count: 61,
        close_wait: 0,
    };
    assert_eq!(
        ClientConfig::defaults(),
        ClientConfig {
            base: base.clone(),
            local_addr: ":12948".to_string(),
            remote_addr: "vps:29900".to_string(),
            conn: 1,
            auto_expire: 0,
            scavenge_ttl: 600,
        }
    );
    assert_eq!(
        ServerConfig::defaults(),
        ServerConfig {
            base: BaseConfig {
                snd_wnd: 1024,
                rcv_wnd: 1024,
                close_wait: 30,
                ..base
            },
            listen: ":29900".to_string(),
            target: "127.0.0.1:12948".to_string(),
        }
    );
}

#[test]
fn hidden_flags_are_the_kcp_knobs() {
    for flags in [client_flags(), server_flags()] {
        let hidden: Vec<&str> = flags.iter().filter(|f| f.hidden).map(|f| f.name).collect();
        assert_eq!(
            hidden,
            ["acknodelay", "nodelay", "interval", "resend", "nc"]
        );
    }
}

#[test]
fn key_flag_reads_the_env() {
    let env: Vec<(String, String)> = vec![("KCPTUN_KEY".to_string(), "from-env".to_string())];
    let app = client_app("kcptun-client");

    let run = app.run(&["kcptun".to_string()], &env);
    let RunOutcome::Action(ctx) = run.outcome else {
        panic!("empty command line should run the action")
    };
    assert_eq!(ClientConfig::from_context(&ctx).base.key, "from-env");

    // The flag still wins over the environment.
    let argv = ["kcptun", "-key", "from-flag"].map(String::from);
    let run = app.run(&argv, &env);
    let RunOutcome::Action(ctx) = run.outcome else {
        panic!("-key should run the action")
    };
    assert_eq!(ClientConfig::from_context(&ctx).base.key, "from-flag");
}

#[test]
fn from_context_reads_every_flag() {
    let argv = [
        "kcptun",
        "-localaddr",
        ":9000",
        "-r",
        "example:4000-4010",
        "-crypt",
        "salsa20",
        "-mode",
        "manual",
        "-QPP",
        "-QPPCount",
        "127",
        "-conn",
        "4",
        "-autoexpire",
        "3600",
        "-scavengettl",
        "120",
        "-mtu",
        "1200",
        "-ratelimit",
        "1048576",
        "-sndwnd",
        "256",
        "-rcvwnd",
        "2048",
        "-ds",
        "20",
        "-ps",
        "5",
        "-dscp",
        "46",
        "-nocomp",
        "-acknodelay",
        "-nodelay",
        "1",
        "-interval",
        "20",
        "-resend",
        "2",
        "-nc",
        "1",
        "-sockbuf",
        "8388608",
        "-smuxver",
        "1",
        "-smuxbuf",
        "8388608",
        "-framesize",
        "4096",
        "-streambuf",
        "1048576",
        "-keepalive",
        "15",
        "-closewait",
        "5",
        "-snmplog",
        "./snmp-20060102.log",
        "-snmpperiod",
        "30",
        "-log",
        "/var/log/kcptun.log",
        "-quiet",
        "-tcp",
        "-pprof",
    ]
    .map(String::from);

    let run = client_app("kcptun-client").run(&argv, &());
    let RunOutcome::Action(ctx) = run.outcome else {
        panic!("the command line should parse: {}", run.stdout)
    };
    let config = ClientConfig::from_context(&ctx);
    assert_eq!(
        config,
        ClientConfig {
            base: BaseConfig {
                key: "it's a secrect".to_string(),
                crypt: "salsa20".to_string(),
                mode: "manual".to_string(),
                mtu: 1200,
                rate_limit: 1048576,
                snd_wnd: 256,
                rcv_wnd: 2048,
                data_shard: 20,
                parity_shard: 5,
                dscp: 46,
                no_comp: true,
                ack_nodelay: true,
                no_delay: 1,
                interval: 20,
                resend: 2,
                no_congestion: 1,
                sock_buf: 8388608,
                smux_ver: 1,
                smux_buf: 8388608,
                frame_size: 4096,
                stream_buf: 1048576,
                keep_alive: 15,
                log: "/var/log/kcptun.log".to_string(),
                snmp_log: "./snmp-20060102.log".to_string(),
                snmp_period: 30,
                quiet: true,
                tcp: true,
                pprof: true,
                qpp: true,
                qpp_count: 127,
                close_wait: 5,
            },
            local_addr: ":9000".to_string(),
            remote_addr: "example:4000-4010".to_string(),
            conn: 4,
            auto_expire: 3600,
            scavenge_ttl: 120,
        }
    );
}

#[test]
fn server_from_context_reads_its_own_flags() {
    let argv = [
        "kcptun",
        "-l",
        ":4100",
        "-t",
        "127.0.0.1:8080",
        "-closewait",
        "7",
    ]
    .map(String::from);
    let run = server_app("kcptun-server").run(&argv, &());
    let RunOutcome::Action(ctx) = run.outcome else {
        panic!("the command line should parse: {}", run.stdout)
    };
    let config = ServerConfig::from_context(&ctx);
    assert_eq!(config.listen, ":4100");
    assert_eq!(config.target, "127.0.0.1:8080");
    assert_eq!(config.base.close_wait, 7);
    // Untouched flags keep the server's own defaults.
    assert_eq!(config.base.snd_wnd, 1024);
    assert_eq!(config.base.rcv_wnd, 1024);
}

// ---------------------------------------------------------------------------------------
// Mode presets
// ---------------------------------------------------------------------------------------

#[test]
fn apply_mode_presets() {
    let cases = [
        ("normal", Some((0, 40, 2, 1))),
        ("fast", Some((0, 30, 2, 1))),
        ("fast2", Some((1, 20, 2, 1))),
        ("fast3", Some((1, 10, 2, 1))),
        ("manual", None),
        ("", None),
        ("Fast3", None),
        (" fast3", None),
    ];
    for (mode, want) in cases {
        let mut config = BaseConfig {
            mode: mode.to_string(),
            no_delay: 9,
            interval: 99,
            resend: 9,
            no_congestion: 9,
            ..BaseConfig::default()
        };
        let applied = config.apply_mode();
        match want {
            Some((nd, iv, rs, nc)) => {
                assert!(applied, "mode {mode:?}");
                assert_eq!(
                    (
                        config.no_delay,
                        config.interval,
                        config.resend,
                        config.no_congestion
                    ),
                    (nd, iv, rs, nc),
                    "mode {mode:?}"
                );
            }
            None => {
                assert!(!applied, "mode {mode:?}");
                assert_eq!(
                    (
                        config.no_delay,
                        config.interval,
                        config.resend,
                        config.no_congestion
                    ),
                    (9, 99, 9, 9),
                    "mode {mode:?} must keep the manual values"
                );
            }
        }
    }
}

// ---------------------------------------------------------------------------------------
// JSON overlay
// ---------------------------------------------------------------------------------------

#[test]
fn json_file_overrides_the_command_line() {
    let argv = ["kcptun", "-mtu", "1400", "-mode", "fast3"].map(String::from);
    let run = client_app("kcptun-client").run(&argv, &());
    let RunOutcome::Action(ctx) = run.outcome else {
        panic!("the command line should parse")
    };
    let mut config = ClientConfig::from_context(&ctx);
    parse_json_bytes(&mut config, br#"{"MTU":1200,"Mode":"fast2","SndWnd":77}"#)
        .expect("the file decodes");
    config.base.apply_mode();

    assert_eq!(config.base.mtu, 1200, "the file wins over -mtu");
    assert_eq!(config.base.snd_wnd, 77);
    assert_eq!(config.base.mode, "fast2");
    // fast2 = {1, 20, 2, 1}: the preset runs after the file.
    assert_eq!(
        (
            config.base.no_delay,
            config.base.interval,
            config.base.resend,
            config.base.no_congestion
        ),
        (1, 20, 2, 1)
    );
}

/// Decoding stops at the end of the first value, so the rest of the file is never read.
#[test]
fn decoding_stops_after_the_first_value() {
    let mut bytes = br#"{"mtu":1200}"#.to_vec();
    // 4 MiB of junk that would be a syntax error if the decoder kept reading.
    bytes.extend(std::iter::repeat_n(b'}', 4 << 20));

    let mut config = ClientConfig::defaults();
    parse_json_bytes(&mut config, &bytes).expect("the first value decodes");
    assert_eq!(config.base.mtu, 1200);
}

/// The first invalid byte is reported, however much follows it.
#[test]
fn endless_source_reports_the_first_invalid_byte() {
    let mut config = ClientConfig::defaults();
    let err = parse_json_bytes(&mut config, &[0; 512]).expect_err("NUL is not JSON");
    assert_eq!(
        err.message(),
        r"invalid character '\x00' looking for beginning of value"
    );
    assert!(!reads_on(&err, 512));
    assert_eq!(config, ClientConfig::defaults(), "nothing was changed");
}

#[test]
fn missing_file_reports_gos_message() {
    let err = ConfigFileError::Open {
        path: "/tmp/nope.json".to_string(),
        err: "no such file or directory".to_string(),
    };
    assert_eq!(err.message(), "open /tmp/nope.json: no such file or directory");
}

#[test]
fn directory_reports_a_read_error() {
    let err = ConfigFileError::Read {
        path: "/tmp".to_string(),
        err: "is a directory".to_string(),
    };
    assert_eq!(err.message(), "read /tmp: is a directory");
}

#[test]
fn type_errors_keep_going() {
    let mut config = ClientConfig::defaults();
    let err = parse_json_bytes(&mut config, br#"{"mtu":"x","sndwnd":99,"conn":3}"#)
        .expect_err("mtu is a string");
    assert_eq!(
        err,
        ConfigFileError::Unmarshal(UnmarshalError::Field {
            value: "string".to_string(),
            struct_name: "Config",
            field: "mtu".to_string(),
            go_type: "int",
        })
    );
    assert_eq!(config.base.mtu, 1350, "the bad field is left alone");
    assert_eq!(config.base.snd_wnd, 99, "later fields are still applied");
    assert_eq!(config.conn, 3);
}

/// A key that matches a name only without regard to case is reported as the file spells it.
#[test]
fn type_error_names_the_document_key() {
    for (body, want) in [
        (&br#"{"MTU":"x"}"#[..], "Config.MTU"),
        (&br#"{"QPP-Count":"x"}"#[..], "Config.QPP-Count"),
        ("{\"\u{17f}ndwnd\":true}".as_bytes(), "Config.\u{17f}ndwnd"),
        // The key is unescaped before it reaches the field stack.
        (&br#"{"\u004DTU":"x"}"#[..], "Config.MTU"),
        (&br#"{"MTU":1.5}"#[..], "Config.MTU"),
    ] {
        let mut config = ClientConfig::defaults();
        let err = parse_json_bytes(&mut config, body).expect_err("wrong type for mtu");
        let text = err.message();
        assert!(
            text.contains(want),
            "{}: {text} should name {want}",
            String::from_utf8_lossy(body)
        );
    }
}

#[test]
fn syntax_errors_change_nothing() {
    let mut config = ClientConfig::defaults();
    let err = parse_json_bytes(&mut config, br#"{"mtu":1200,}"#).expect_err("trailing comma");
    assert_eq!(
        err,
        ConfigFileError::Syntax(SyntaxError::Invalid(
            "invalid character '}' looking for beginning of object key string".to_string()
        ))
    );
    assert_eq!(config, ClientConfig::defaults());
}

#[test]
fn empty_file_is_eof() {
    let mut config = ServerConfig::defaults();
    assert_eq!(
        parse_json_bytes(&mut config, b"").expect_err("empty"),
        ConfigFileError::Syntax(SyntaxError::Eof)
    );
    assert_eq!(
        parse_json_bytes(&mut config, b"  \n").expect_err("blank"),
        ConfigFileError::Syntax(SyntaxError::Eof)
    );
}

/// Nesting is followed down to a limit, and no deeper document can exhaust the stack.
#[test]
fn deep_nesting_hits_gos_max_depth() {
    let mut config = ClientConfig::defaults();

    // Exactly at the limit the arrays are accepted and only the input runs out.
    let at_cap = "[".repeat(MAX_NESTING_DEPTH).into_bytes();
    assert_eq!(
        parse_json_bytes(&mut config, &at_cap).expect_err("truncated"),
        ConfigFileError::Syntax(SyntaxError::UnexpectedEof)
    );

    // One more container, and a wildly deeper document, are refused rather than fatal.
    for depth in [MAX_NESTING_DEPTH, 100_000] {
        let deep = format!(r#"{{"unknown":{}"#, "[".repeat(depth)).into_bytes();
        assert_eq!(
            parse_json_bytes(&mut config, &deep).expect_err("too deep"),
            ConfigFileError::Syntax(SyntaxError::MaxDepth),
            "object plus {depth} arrays"
        );
    }

    // A well-formed document at the cap decodes (and is dropped) without overflowing either.
    let closed = format!(
        "{}{}",
        "[".repeat(MAX_NESTING_DEPTH),
        "]".repeat(MAX_NESTING_DEPTH)
    );
    assert_eq!(
        parse_json_bytes(&mut config, closed.as_bytes()).expect_err("an array is not an object"),
        ConfigFileError::Unmarshal(UnmarshalError::TopLevel {
            value: "array".to_string(),
            go_type: "main.Config",
        })
    );
}

/// Each byte that is not UTF-8 counts as U+FFFD, so a key in another encoding always derives the
/// same session key.
#[test]
fn invalid_utf8_yields_one_replacement_per_byte() {
    for (body, want) in [
        (
            b"{\"key\":\"\xe3\xba\xc3\"}".as_slice(),
            "\u{fffd}".repeat(3),
        ),
        (b"{\"key\":\"\xc4\xe3\xba\xc3\"}", "\u{fffd}".repeat(4)),
        (b"{\"key\":\"\xff\"}", "\u{fffd}".to_string()),
        (b"{\"key\":\"\xe3\xba\"}", "\u{fffd}".repeat(2)),
    ] {
        let mut config = ClientConfig::defaults();
        parse_json_bytes(&mut config, body).expect("invalid UTF-8 is replaced, not rejected");
        assert_eq!(config.base.key, want, "{body:?}");
    }
}

/// Keys match without regard to case, and U+017F folds onto `s`.
#[test]
fn folded_keys_follow_equalfold() {
    let mut config = ClientConfig::defaults();
    parse_json_bytes(&mut config, "{\"\u{17f}ndwnd\":77}".as_bytes()).expect("folds onto sndwnd");
    assert_eq!(config.base.snd_wnd, 77);

    parse_json_bytes(&mut config, br#"{"Key":"a"}"#).expect("folds onto key");
    assert_eq!(config.base.key, "a");

    // U+212A KELVIN SIGN folds onto `k`.
    parse_json_bytes(&mut config, "{\"\u{212a}ey\":\"b\"}".as_bytes()).expect("folds onto key");
    assert_eq!(config.base.key, "b");

    // A rune whose fold set holds no ASCII letter matches nothing.
    parse_json_bytes(&mut config, "{\"\u{444}ey\":\"c\"}".as_bytes()).expect("unknown key");
    assert_eq!(config.base.key, "b");
}

/// Whatever a user puts in the file, the parser returns.
#[test]
fn parser_survives_arbitrary_input() {
    let seeds: &[&[u8]] = &[
        b"",
        b"{",
        b"[[[[[[[[[[",
        b"{\"a\":{\"b\":{\"c\":{}}}}",
        b"\"\\ud800\\ud800\\udc00\"",
        b"{\"mtu\":-}",
        b"\xff\xfe\xfd",
        b"{\"key\":\"\\u",
        b"1e999999999999999999",
        b"{\"mtu\":00000000000000000000000000}",
    ];
    let mut rng: u64 = 0x9e3779b97f4a7c15;
    for seed in seeds {
        let mut config = ClientConfig::defaults();
        let _ = parse_json_bytes(&mut config, seed);
        // Truncations and single-byte mutations of the same input.
        for cut in 0..seed.len() {
            let _ = parse_json_bytes(&mut config, &seed[..cut]);
        }
        for _ in 0..64 {
            rng = rng
                .wrapping_mul(6364136223846793005)
                .wrapping_add(1442695040888963407);
            let mut data = seed.to_vec();
            if data.is_empty() {
                continue;
            }
            let i = (rng >> 33) as usize % data.len();
            data[i] = (rng >> 11) as u8;
            let _ = parse_json_bytes(&mut config, &data);
        }
    }
}

// ---------------------------------------------------------------------------------------
// Validation
// ---------------------------------------------------------------------------------------

#[test]
fn conn_must_be_positive() {
    let mut config = ClientConfig::defaults();
    assert_eq!(config.check_conn(), Ok(()));
    for conn in [0, -1] {
        config.conn = conn;
        assert_eq!(
            config.check_conn(),
            Err("conn must be greater than 0".to_string())
        );
    }
}

#[test]
fn negative_ratelimit_falls_back_to_zero() {
    let mut config = BaseConfig::default();
    assert_eq!(config.normalize_rate_limit(), None);

    config.rate_limit = -1500;
    assert_eq!(
        config.normalize_rate_limit(),
        Some("ratelimit -1500 is negative, falling back to 0".to_string())
    );
    assert_eq!(config.rate_limit, 0);
    assert_eq!(config.normalize_rate_limit(), None);
}

#[test]
fn smuxver_above_two_is_fatal() {
    let mut config = BaseConfig::default();
    for ver in [-1, 0, 1, 2] {
        config.smux_ver = ver;
        assert_eq!(config.check_smux_ver(), Ok(()), "smuxver {ver}");
    }
    config.smux_ver = 3;
    // No space stands before the number.
    assert_eq!(
        config.check_smux_ver(),
        Err("unsupported smux version:3".to_string())
    );
}

/// More than 256 shards would need a codec that no peer can decode.
#[test]
fn fec_shards_above_256_are_rejected() {
    let mut config = BaseConfig::default();
    for (ds, ps) in [(10, 3), (128, 128), (256, 0), (0, 0)] {
        config.data_shard = ds;
        config.parity_shard = ps;
        assert_eq!(config.check_fec(), Ok(()), "({ds}, {ps})");
    }
    config.data_shard = 200;
    config.parity_shard = 57;
    assert_eq!(
        config.check_fec(),
        Err(
            "datashard 200 + parityshard 57 exceeds 256: cannot create Encoder with more \
             than 256 data+parity shards"
                .to_string()
        )
    );
    // No overflow panic on absurd values.
    config.data_shard = i64::MAX;
    config.parity_shard = i64::MAX;
    assert!(config.check_fec().is_err());
}

// ---------------------------------------------------------------------------------------
// The example configurations
// ---------------------------------------------------------------------------------------

/// An example of the client's configuration file.
const LOCAL_EXAMPLE: &str = r#"{
    "localaddr": ":3000",
    "remoteaddr": "127.0.0.1:29900-29999",
    "key": "PASSWORD",
    "crypt": "aes-128",
    "mode": "fast3",
    "mtu": 1400,
    "ratelimit": 1048576,
    "sndwnd": 128,
    "rcvwnd": 1024,
    "datashard": 10,
    "parityshard": 3,
    "dscp": 46,
    "nocomp": true,
    "acknodelay": false,
    "nodelay": 1,
    "interval": 40,
    "resend": 2,
    "nc": 1,
    "sockbuf": 16777217,
    "smuxver": 2,
    "smuxbuf": 16777217,
    "streambuf": 2097152,
    "keepalive": 10,
    "autoexpire": 300,
    "quiet": false,
    "tcp": false,
    "qpp": true,
    "qpp-count": 61
}
"#;

/// An example of the server's configuration file.
const SERVER_EXAMPLE: &str = r#"{
    "listen": ":29900-29999",
    "target": "127.0.0.1:2000",
    "key": "PASSWORD",
    "crypt": "aes-128",
    "mode": "fast3",
    "mtu": 1400,
    "ratelimit": 104857600,
    "sndwnd": 2048,
    "rcvwnd": 2048,
    "datashard": 10,
    "parityshard": 3,
    "dscp": 46,
    "nocomp": true,
    "acknodelay": false,
    "nodelay": 1,
    "interval": 40,
    "resend": 2,
    "nc": 1,
    "sockbuf": 16777217,
    "smuxver": 2,
    "smuxbuf": 16777217,
    "streambuf": 2097152,
    "keepalive": 10,
    "pprof": false,
    "quiet": false,
    "tcp": false,
    "qpp": true,
    "qpp-count": 61
}
"#;

/// The keys of a JSON object.
fn json_keys(text: &str) -> Vec<String> {
    let doc = parse(text.as_bytes()).expect("the example file is valid");
    assert_eq!(doc.kind, Kind::Object);
    doc.members.into_iter().map(|m| m.key).collect()
}

#[test]
fn dist_local_example_uses_known_keys_only() {
    let known = client_keys();
    for key in json_keys(LOCAL_EXAMPLE) {
        assert!(
            known.contains(&key.as_str()),
            "the client's example sets \"{key}\", which the client's JSON fields do not \
             cover - the parser would ignore it",
        );
    }
}

#[test]
fn dist_server_example_uses_known_keys_only() {
    let known = server_keys();
    for key in json_keys(SERVER_EXAMPLE) {
        assert!(
            known.contains(&key.as_str()),
            "the server's example sets \"{key}\", which the server's JSON fields do not \
             cover - the parser would ignore it",
        );
    }
}

/// Every value in the file must reach its field. Overlaying onto `Default` rather than onto the
/// flag defaults makes the assertion show exactly which fields the file sets: everything else
/// is still zero.
#[test]
fn dist_local_example_overlays_every_value() {
    let mut config = ClientConfig::default();
    parse_json_bytes(&mut config, LOCAL_EXAMPLE.as_bytes()).expect("valid example");
    assert_eq!(
        config,
        ClientConfig {
            base: BaseConfig {
                key: "PASSWORD".to_string(),
                crypt: "aes-128".to_string(),
                mode: "fast3".to_string(),
                mtu: 1400,
                rate_limit: 1048576,
                snd_wnd: 128,
                rcv_wnd: 1024,
                data_shard: 10,
                parity_shard: 3,
                dscp: 46,
                no_comp: true,
                ack_nodelay: false,
                no_delay: 1,
                interval: 40,
                resend: 2,
                no_congestion: 1,
                sock_buf: 16777217,
                smux_ver: 2,
                smux_buf: 16777217,
                stream_buf: 2097152,
                keep_alive: 10,
                quiet: false,
                tcp: false,
                qpp: true,
                qpp_count: 61,
                // Not set by the file: framesize, log, snmplog, snmpperiod, pprof, closewait.
                ..BaseConfig::default()
            },
            local_addr: ":3000".to_string(),
            remote_addr: "127.0.0.1:29900-29999".to_string(),
            auto_expire: 300,
            // Not set by the file: conn, scavengettl.
            ..ClientConfig::default()
        }
    );
}

#[test]
fn dist_server_example_overlays_every_value() {
    let mut config = ServerConfig::default();
    parse_json_bytes(&mut config, SERVER_EXAMPLE.as_bytes()).expect("valid example");
    assert_eq!(
        config,
        ServerConfig {
            base: BaseConfig {
                key: "PASSWORD".to_string(),
                crypt: "aes-128".to_string(),
                mode: "fast3".to_string(),
                mtu: 1400,
                rate_limit: 104857600,
                snd_wnd: 2048,
                rcv_wnd: 2048,
                data_shard: 10,
                parity_shard: 3,
                dscp: 46,
                no_comp: true,
                ack_nodelay: false,
                no_delay: 1,
                interval: 40,
                resend: 2,
                no_congestion: 1,
                sock_buf: 16777217,
                smux_ver: 2,
                smux_buf: 16777217,
                stream_buf: 2097152,
                keep_alive: 10,
                pprof: false,
                quiet: false,
                tcp: false,
                qpp: true,
                qpp_count: 61,
                // Not set by the file: framesize, log, snmplog, snmpperiod, closewait.
                ..BaseConfig::default()
            },
            listen: ":29900-29999".to_string(),
            target: "127.0.0.1:2000".to_string(),
        }
    );
}

/// What a user actually gets from `-c <file>`: the flag defaults, overlaid with the file,
/// then the checks `main` runs, then the `-mode` preset. `fast3` overrides the file's own
/// nodelay/interval/resend/nc, which is why its `"interval": 40` does not survive.
#[test]
fn dist_examples_are_valid_configurations() {
    let defaults = ClientConfig::defaults();
    let mut client = ClientConfig::defaults();
    parse_json_bytes(&mut client, LOCAL_EXAMPLE.as_bytes()).expect("valid example");
    assert_eq!(client.check_conn(), Ok(()), "conn keeps its flag default");
    assert_eq!(client.conn, defaults.conn);
    assert_eq!(client.scavenge_ttl, defaults.scavenge_ttl);
    assert_eq!(client.base.frame_size, defaults.base.frame_size);
    assert_eq!(client.base.normalize_rate_limit(), None);
    assert_eq!(client.base.check_smux_ver(), Ok(()));
    assert_eq!(client.base.check_fec(), Ok(()));
    assert!(client.base.apply_mode(), "\"fast3\" is a predefined mode");
    assert_eq!(
        ModeParams {
            no_delay: client.base.no_delay,
            interval: client.base.interval,
            resend: client.base.resend,
            no_congestion: client.base.no_congestion,
        },
        predefined_mode("fast3").expect("fast3")
    );

    let server_defaults = ServerConfig::defaults();
    let mut server = ServerConfig::defaults();
    parse_json_bytes(&mut server, SERVER_EXAMPLE.as_bytes()).expect("valid example");
    assert_eq!(server.base.frame_size, server_defaults.base.frame_size);
    assert_eq!(server.base.normalize_rate_limit(), None);
    assert_eq!(server.base.check_smux_ver(), Ok(()));
    assert_eq!(server.base.check_fec(), Ok(()));
    assert!(server.base.apply_mode(), "\"fast3\" is a predefined mode");
}

// ---------------------------------------------------------------------------------------
// The reader of documents
// ---------------------------------------------------------------------------------------

/// The error text for a document.
fn refused(text: &str) -> String {
    parse(text.as_bytes()).expect_err("not a document").message()
}

#[test]
fn every_place_has_its_message() {
    for (text, want) in [
        ("x", "invalid character 'x' looking for beginning of value"),
        ("[1,]", "invalid character ']' looking for beginning of value"),
        ("{1}", "invalid character '1' looking for beginning of object key string"),
        ("{\"a\"1}", "invalid character '1' after object key"),
        ("{\"a\":1 2}", "invalid character '2' after object key:value pair"),
        ("[1 2]", "invalid character '2' after array element"),
        ("\"a\nb\"", "invalid character '\\n' in string literal"),
        ("\"\\x\"", "invalid character 'x' in string escape code"),
        ("\"\\u12g4\"", "invalid character 'g' in \\u hexadecimal character escape"),
        ("-x", "invalid character 'x' in numeric literal"),
        ("1.x", "invalid character 'x' after decimal point in numeric literal"),
        ("1ex", "invalid character 'x' in exponent of numeric literal"),
        ("1e+x", "invalid character 'x' in exponent of numeric literal"),
        ("tru3", "invalid character '3' in literal true (expecting 'e')"),
        ("falze", "invalid character 'z' in literal false (expecting 's')"),
        ("nul'", "invalid character '\\'' in literal null (expecting 'l')"),
        ("[\"]", "unexpected end of JSON input"),
        ("", "EOF"),
        (" \n", "EOF"),
        ("[1,2", "unexpected end of JSON input"),
        ("tr", "unexpected end of JSON input"),
        ("-", "unexpected end of JSON input"),
        ("{\"a\"\"", "invalid character '\"' after object key"),
    ] {
        assert_eq!(refused(text), want, "{text}");
    }
}

#[test]
fn members_are_read_in_order() {
    let doc = parse(
        br#" {"a":null , "b":true,"c":false, "d":-1.5e+3,"e":"x\ty","f":[1,{"z":2}],"g":{"a":3} } tail"#,
    )
    .expect("a document");
    assert_eq!(doc.kind, Kind::Object);
    let got: Vec<(&str, &Leaf)> = doc.members.iter().map(|m| (m.key.as_str(), &m.leaf)).collect();
    assert_eq!(
        got,
        vec![
            ("a", &Leaf::Null),
            ("b", &Leaf::Bool(true)),
            ("c", &Leaf::Bool(false)),
            ("d", &Leaf::Number("-1.5e+3".to_string())),
            ("e", &Leaf::Text("x\ty".to_string())),
            ("f", &Leaf::Array),
            ("g", &Leaf::Object),
        ]
    );
    for (text, kind) in [
        ("null", Kind::Null),
        (" 12", Kind::Number),
        ("\"x\"", Kind::Text),
        ("true", Kind::Bool),
        ("[]", Kind::Array),
        ("{}", Kind::Object),
    ] {
        let doc = parse(text.as_bytes()).expect("a document");
        assert_eq!(doc.kind, kind, "{text}");
        assert!(doc.members.is_empty());
    }
}

#[test]
fn strings_are_unescaped() {
    for (text, want) in [
        (r#"{"key":"\"\\\/\b\f\n\r\t"}"#, "\"\\/\u{8}\u{c}\n\r\t"),
        (r#"{"key":"\u0041\u00e9\u20ac"}"#, "Aé€"),
        // A pair, and halves without their other half.
        (r#"{"key":"\ud83d\ude00"}"#, "\u{1f600}"),
        (r#"{"key":"\ud83d"}"#, "\u{fffd}"),
        (r#"{"key":"\ude00"}"#, "\u{fffd}"),
        (r#"{"key":"\ud83d\u0041"}"#, "\u{fffd}A"),
        (r#"{"key":"aé€\u{1f600}"}"#, "aé€"),
    ] {
        let text = text.replace("\\u{1f600}", "");
        let mut config = ClientConfig::defaults();
        parse_json_bytes(&mut config, text.as_bytes()).expect("a document");
        assert_eq!(config.base.key, want, "{text}");
    }
    let mut config = ClientConfig::defaults();
    parse_json_bytes(&mut config, "{\"key\":\"é€\u{1f600}\"}".as_bytes()).expect("a document");
    assert_eq!(config.base.key, "é€\u{1f600}");
}

#[test]
fn every_misfit_is_described() {
    for (text, want) in [
        (
            r#"{"mtu":1.5}"#,
            "json: cannot unmarshal number 1.5 into Go struct field Config.mtu of type int",
        ),
        (
            r#"{"mtu":9223372036854775808}"#,
            "json: cannot unmarshal number 9223372036854775808 into Go struct field Config.mtu of \
             type int",
        ),
        (
            r#"{"mtu":true}"#,
            "json: cannot unmarshal bool into Go struct field Config.mtu of type int",
        ),
        (
            r#"{"key":1}"#,
            "json: cannot unmarshal number into Go struct field Config.key of type string",
        ),
        (
            r#"{"key":[]}"#,
            "json: cannot unmarshal array into Go struct field Config.key of type string",
        ),
        (
            r#"{"nocomp":{}}"#,
            "json: cannot unmarshal object into Go struct field Config.nocomp of type bool",
        ),
        (
            r#"{"nocomp":"x","mtu":"y"}"#,
            "json: cannot unmarshal string into Go struct field Config.nocomp of type bool",
        ),
        ("[]", "json: cannot unmarshal array into Go value of type main.Config"),
        ("1", "json: cannot unmarshal number into Go value of type main.Config"),
        ("true", "json: cannot unmarshal bool into Go value of type main.Config"),
        ("\"x\"", "json: cannot unmarshal string into Go value of type main.Config"),
    ] {
        let mut config = ClientConfig::defaults();
        let err = parse_json_bytes(&mut config, text.as_bytes()).expect_err("it does not fit");
        assert_eq!(err.message(), want);
        assert_eq!(config, ClientConfig::defaults(), "{text}");
    }
}

#[test]
fn null_and_unknown_keys_change_nothing_and_the_last_value_counts() {
    let mut config = ServerConfig::defaults();
    for text in [r#"{"mtu":null,"unknown":[1,2,{"mtu":3}],"localaddr":"x"}"#, "null"] {
        assert_eq!(parse_json_bytes(&mut config, text.as_bytes()), Ok(()));
        assert_eq!(config, ServerConfig::defaults());
    }
    parse_json_bytes(&mut config, br#"{"mtu":1,"MTU":2,"mtu":"x","Mtu":null}"#)
        .expect_err("one value does not fit");
    assert_eq!(config.base.mtu, 2);
    parse_json_bytes(&mut config, br#"{"mtu":-9223372036854775808}"#).expect("it fits");
    assert_eq!(config.base.mtu, i64::MIN);
}

#[test]
fn every_key_reaches_its_field() {
    let names = client_keys();
    assert_eq!(names.len(), 36);
    for name in names {
        // Of a text, a number and a flag exactly one fits.
        let fits = ["\"7\"", "7", "true"]
            .iter()
            .filter(|value| {
                let mut config = ClientConfig::default();
                let text = format!("{{\"{name}\":{value}}}");
                let r = parse_json_bytes(&mut config, text.as_bytes());
                assert_eq!(r.is_ok(), config != ClientConfig::default(), "{text}");
                r.is_ok()
            })
            .count();
        assert_eq!(fits, 1, "{name}");
    }
    assert_eq!(server_keys().len(), 33);
    assert!(server_keys().contains(&"listen") && !server_keys().contains(&"conn"));
}

#[test]
fn reading_goes_on_only_while_the_value_is_incomplete() {
    assert_eq!(next_chunk(512), 1024);
    assert_eq!(next_chunk(524288), 1048576);
    assert_eq!(next_chunk(524289), 1048576);
    assert_eq!(next_chunk(1048576), 1048576);
    let mut config = ClientConfig::defaults();
    let cut = parse_json_bytes(&mut config, b"{\"mtu\":12").expect_err("cut off");
    assert!(reads_on(&cut, 10));
    assert!(!reads_on(&cut, 0));
    let empty = parse_json_bytes(&mut config, b"").expect_err("empty");
    assert!(reads_on(&empty, 1));
    let bad = parse_json_bytes(&mut config, b"}").expect_err("bad");
    assert!(!reads_on(&bad, 1));
}

/// The shared defaults of the two sides differ in three settings.
#[test]
fn the_two_sides_differ_in_three_defaults() {
    assert_eq!(
        ServerConfig::defaults(),
        ServerConfig {
            listen: ":29900".to_string(),
            target: "127.0.0.1:12948".to_string(),
            base: BaseConfig {
                snd_wnd: 1024,
                rcv_wnd: 1024,
                close_wait: 30,
                ..ClientConfig::defaults().base
            },
        }
    );
}

/// A file that is read in pieces gives what the whole gives.
#[test]
fn a_file_in_pieces_gives_the_same() {
    let text = br#" {"mtu":1200,"key":"\u00e9","x":[1,{"y":2}]} }"#;
    let mut whole = ClientConfig::defaults();
    assert_eq!(parse_json_bytes(&mut whole, text), Ok(()));
    for size in 1..text.len() {
        let mut config = ClientConfig::defaults();
        let mut end = 0;
        let r = loop {
            let n = size.min(text.len() - end);
            end += n;
            match parse_json_bytes(&mut config, &text[..end]) {
                Err(e) if reads_on(&e, n) => {}
                done => break done,
            }
        };
        assert_eq!(r, Ok(()));
        assert_eq!(config, whole, "pieces of {size}");
    }
}
