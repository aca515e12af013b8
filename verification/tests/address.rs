//! Addresses: a host with a port, and a host with a range of ports.
use kcptun_std::goaddr::{is_host_port, split_host_port};
use kcptun_std::multiport::{parse, MultiPort};

#[test]
fn parses_the_shapes_the_flag_tables_default_to() {
    // The server's default -listen and the client's default -remoteaddr.
    assert_eq!(
        parse(":29900"),
        Ok(MultiPort {
            host: String::new(),
            min_port: 29900,
            max_port: 29900,
        })
    );
    assert_eq!(
        parse("vps:29900"),
        Ok(MultiPort {
            host: "vps".to_string(),
            min_port: 29900,
            max_port: 29900,
        })
    );
    assert_eq!(
        parse("1.2.3.4:3000-4000"),
        Ok(MultiPort {
            host: "1.2.3.4".to_string(),
            min_port: 3000,
            max_port: 4000,
        })
    );
}

#[test]
fn greedy_host_takes_everything_before_the_last_colon() {
    // (.*) is greedy, so an IPv6 address without brackets still parses, with the last group of
    // digits as the port.
    assert_eq!(
        parse("2001:db8::1:443").map(|m| m.host),
        Ok("2001:db8::1".to_string())
    );
    assert_eq!(parse("host:80:90").map(|m| m.min_port), Ok(90));
    // Unanchored on both sides: junk before the host is part of it, junk after the ports is
    // ignored.
    assert_eq!(
        parse("junk a:1-2").map(|m| m.host),
        Ok("junk a".to_string())
    );
    assert_eq!(
        parse("a:1-2junk").map(|m| (m.min_port, m.max_port)),
        Ok((1, 2))
    );
}

#[test]
fn at_most_five_digits_per_port() {
    // "123456" is 12345 followed by 6, which then fails the range check.
    assert_eq!(
        parse("host:123456").unwrap_err().message(),
        "invalid port range specified: minport:12345 -> maxport 6"
    );
    // The dash is outside the third group, so a trailing dash leaves a single port.
    assert_eq!(parse("a:1-").map(|m| (m.min_port, m.max_port)), Ok((1, 1)));
    // A leading zero is not octal.
    assert_eq!(parse("a:012").map(|m| m.min_port), Ok(12));
}

#[test]
fn range_check_rejects_zero_reversed_and_too_large() {
    for (addr, text) in [
        (
            "a:0",
            "invalid port range specified: minport:0 -> maxport 0",
        ),
        (
            "a:5-3",
            "invalid port range specified: minport:5 -> maxport 3",
        ),
        (
            "x:65536",
            "invalid port range specified: minport:65536 -> maxport 65536",
        ),
        (
            "a:1-0",
            "invalid port range specified: minport:1 -> maxport 0",
        ),
    ] {
        assert_eq!(parse(addr).unwrap_err().message(), text, "{addr}");
    }
}

#[test]
fn addresses_without_a_port_are_malformed() {
    for addr in [
        "nocolon",
        "",
        ":",
        "a:",
        "/tmp/kcptun.sock",
        "unix:/tmp/x.sock",
    ] {
        assert_eq!(
            parse(addr).unwrap_err().message(),
            format!("malformed address:{addr}"),
            "{addr}"
        );
    }
}

#[test]
fn dot_does_not_match_a_newline() {
    // `.` stops at '\n', so the match starts after it.
    assert_eq!(parse("a\nb:80").map(|m| m.host), Ok("b".to_string()));
}

#[test]
fn odd_input_never_panics() {
    // Addresses come from the command line or a file, so any string is possible.
    let wide = ["é", "€", "🦀"];
    for w in wide {
        for b in 0u8..=127 {
            let c = b as char;
            for addr in [
                format!("{w}{c}"),
                format!("{c}{w}"),
                format!("{w}:{c}8{w}"),
                format!("[{w}]:{c}"),
                format!("{w}:8{c}0-{w}9"),
                format!(":{w}{c}"),
            ] {
                let _ = parse(&addr);
                let _ = split_host_port(&addr);
            }
        }
    }
    for addr in ["[", "]", "[]", "::", ":::", "[:]", "\u{0}:80", "a:\u{0}"] {
        let _ = parse(addr);
        let _ = split_host_port(addr);
    }
}

#[test]
fn unix_paths_are_rejected_and_addresses_are_accepted() {
    for addr in [
        "/tmp/kcptun.sock",
        "./kcptun.sock",
        "@abstract",
        "nocolon",
        "",
    ] {
        assert!(!is_host_port(addr), "{addr:?} should look like a unix path");
    }
    for addr in [
        ":29900",
        "127.0.0.1:12948",
        "[::1]:80",
        "vps:29900",
        "host:",
    ] {
        assert!(is_host_port(addr), "{addr:?} should look like host:port");
    }
}

#[test]
fn error_text_omits_an_empty_address() {
    assert_eq!(
        split_host_port("").unwrap_err().message(),
        "missing port in address"
    );
    assert_eq!(
        split_host_port("x").unwrap_err().message(),
        "address x: missing port in address"
    );
}

#[test]
fn borrowed_results() {
    let addr = String::from("[::1]:80");
    let (host, port) = split_host_port(&addr).expect("valid address");
    assert_eq!((host, port), ("::1", "80"));
}

#[test]
fn every_address_error_has_its_text() {
    for (addr, want) in [
        ("a", "address a: missing port in address"),
        ("a:b:c", "address a:b:c: too many colons in address"),
        ("[a]b:c", "address [a]b:c: missing port in address"),
        ("[a]", "address [a]: missing port in address"),
        ("[a:80", "address [a:80: missing ']' in address"),
        ("a[b:80", "address a[b:80: unexpected '[' in address"),
        ("a]b:80", "address a]b:80: unexpected ']' in address"),
    ] {
        assert_eq!(split_host_port(addr).unwrap_err().message(), want);
    }
}

#[test]
fn a_split_address_joins_to_itself() {
    for addr in ["vps:29900", ":80", "host:", "127.0.0.1:12948"] {
        let (host, port) = split_host_port(addr).expect("valid address");
        assert_eq!(format!("{host}:{port}"), addr);
    }
    for addr in ["[::1]:80", "[fe80::1%eth0]:http"] {
        let (host, port) = split_host_port(addr).expect("valid address");
        assert_eq!(format!("[{host}]:{port}"), addr);
    }
}
