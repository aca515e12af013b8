//! The profiling endpoint.
use kcptun_std::pprof::{
    error_headers, find_line_end, go_duration, is_temporary, next_delay, parse_seconds,
    profile_error_body, profile_headers, request_line, response_head, retry_message, route,
    AcceptFailure, Head, Header, Route, ADDR, DEFAULT_SECONDS, FREQUENCY, INDEX_BODY, MAX_HEAD,
    MAX_SECONDS, NOT_AVAILABLE, NOT_FOUND_BODY, PORT, PROFILE_PATH,
};

#[test]
fn test_parse_seconds() {
    assert_eq!(parse_seconds("seconds=5"), 5);
    assert_eq!(parse_seconds("seconds=+5"), 5);
    assert_eq!(parse_seconds("seconds=0005"), 5);
    assert_eq!(parse_seconds("debug=1&seconds=5"), 5);
    assert_eq!(parse_seconds("seconds=3600"), 3600);
    // Above the cap: still parsed, clamped by the caller.
    assert_eq!(parse_seconds("seconds=99999"), 99999);
    assert_eq!(parse_seconds("seconds=9223372036854775807"), i64::MAX);

    // The first value counts.
    assert_eq!(parse_seconds("seconds=5&seconds=9"), 5);

    // Absent, empty, unparseable, out of range, not positive.
    for query in [
        "",
        "debug=1",
        "seconds=",
        "seconds=x",
        "seconds=5x",
        "seconds=5.0",
        "seconds= 5",
        "seconds=0x5",
        "seconds=0",
        "seconds=-1",
        "seconds=-9223372036854775808",
        "seconds=9223372036854775808",
    ] {
        assert_eq!(parse_seconds(query), DEFAULT_SECONDS, "{query:?}");
    }
}

#[test]
fn test_max_seconds_cap() {
    assert_eq!(MAX_SECONDS, 3600);
    assert_eq!(parse_seconds("seconds=7200").min(MAX_SECONDS), MAX_SECONDS);
    assert_eq!(parse_seconds("seconds=60").min(MAX_SECONDS), 60);
}

/// The request-line scanner handles both line endings and a bare path.
#[test]
fn test_find_line_end() {
    assert_eq!(
        find_line_end(b"GET / HTTP/1.1\r\nHost: x\r\n\r\n"),
        Some(14)
    );
    assert_eq!(find_line_end(b"GET / HTTP/1.1\nHost: x\n"), Some(14));
    assert_eq!(find_line_end(b"GET / HTTP/1.1"), None);
    assert_eq!(find_line_end(b"\n"), Some(0));
    assert_eq!(find_line_end(b""), None);
}

/// The failures after which accepting is tried again.
#[test]
fn test_is_temporary_accept_errors() {
    for failure in [
        AcceptFailure::Interrupted,
        AcceptFailure::WouldBlock,
        AcceptFailure::TimedOut,
        AcceptFailure::ConnectionAborted,
    ] {
        assert!(is_temporary(failure), "{failure:?}");
    }
    assert!(is_temporary(AcceptFailure::Other(Some(24))));
    assert!(is_temporary(AcceptFailure::Other(Some(23))));

    // The listener really is gone.
    assert!(!is_temporary(AcceptFailure::Other(None)));
    assert!(!is_temporary(AcceptFailure::Other(Some(13))));
    assert!(!is_temporary(AcceptFailure::Other(Some(9))));
}

/// The delays that are shown while accepting fails.
#[test]
fn test_go_duration() {
    assert_eq!(go_duration(5), "5ms");
    assert_eq!(go_duration(10), "10ms");
    assert_eq!(go_duration(640), "640ms");
    assert_eq!(go_duration(1000), "1s");
}

/// The constants that the programs and the docs quote.
#[test]
fn test_constants() {
    assert_eq!(ADDR, ":6060");
    assert_eq!(PORT, 6060);
    assert_eq!(PROFILE_PATH, "/debug/pprof/profile");
    assert_eq!(NOT_AVAILABLE, "pprof: not available in this build");
    assert_eq!(FREQUENCY, 100);
}

#[test]
fn the_delay_doubles_up_to_a_second() {
    let mut delay = 0;
    let mut seen = Vec::new();
    for _ in 0..10 {
        delay = next_delay(delay);
        seen.push(delay);
    }
    assert_eq!(seen, [5, 10, 20, 40, 80, 160, 320, 640, 1000, 1000]);
    assert_eq!(
        retry_message("too many open files", 5),
        "http: Accept error: too many open files; retrying in 5ms"
    );
}

/// Anything but the profile and the index is not found.
#[test]
fn the_target_decides_the_route() {
    for (line, want) in [
        ("GET /debug/pprof/ HTTP/1.1", Route::Index),
        ("GET /debug/pprof HTTP/1.1", Route::Index),
        ("GET / HTTP/1.1", Route::Index),
        ("GET", Route::Index),
        ("", Route::Index),
        ("GET /debug/pprof/profile HTTP/1.1", Route::Profile(30)),
        ("POST /debug/pprof/profile?seconds=1 HTTP/1.1", Route::Profile(1)),
        ("GET /debug/pprof/profile?seconds=7200", Route::Profile(3600)),
        ("GET /debug/pprof/heap HTTP/1.1", Route::NotFound),
        ("GET /nope HTTP/1.1", Route::NotFound),
        ("GET /debug/pprof/profilex HTTP/1.1", Route::NotFound),
    ] {
        assert_eq!(route(line), want, "{line}");
    }
}

/// A head that is too large, or not text, is dropped; an unfinished one waits.
#[test]
fn a_request_line_is_found_or_dropped() {
    assert_eq!(request_line(b""), Head::More);
    assert_eq!(request_line(b"GET / HT"), Head::More);
    assert_eq!(
        request_line("GET /é HTTP/1.1\r\nHost".as_bytes()),
        Head::Line("GET /é HTTP/1.1".to_string())
    );
    assert_eq!(request_line(b"GET /\xff\n"), Head::Drop);
    assert_eq!(request_line(&vec![b'x'; MAX_HEAD]), Head::More);
    assert_eq!(request_line(&vec![b'x'; MAX_HEAD + 1]), Head::Drop);
}

#[test]
fn the_head_of_an_answer() {
    assert_eq!(
        response_head("404 Not Found", &Vec::new(), NOT_FOUND_BODY.len()),
        "HTTP/1.1 404 Not Found\r\nContent-Length: 19\r\nConnection: close\r\n\
         X-Content-Type-Options: nosniff\r\nContent-Type: text/plain; charset=utf-8\r\n\r\n"
    );
    assert_eq!(
        response_head("200 OK", &profile_headers(), 7),
        "HTTP/1.1 200 OK\r\nContent-Length: 7\r\nConnection: close\r\n\
         X-Content-Type-Options: nosniff\r\nContent-Type: application/octet-stream\r\n\
         Content-Disposition: attachment; filename=\"profile\"\r\n\r\n"
    );
    assert_eq!(
        error_headers(),
        vec![
            Header { name: "Content-Type", value: "text/plain; charset=utf-8" },
            Header { name: "X-Go-Pprof", value: "1" },
        ]
    );
    assert_eq!(profile_error_body("busy"), "Could not enable CPU profiling: busy\n");
    assert!(INDEX_BODY.contains("/debug/pprof/profile?seconds=N"));
}
