//! What both programs do at startup and when a socket operation fails.
use kcptun_std::config::{ClientConfig, ServerConfig};
use kcptun_std::mainutil::{
    check_qpp, check_qpp_in, op_error, qpp_count_u16, qpp_pad, qpp_pad_in, setsockopt_error, GoAddr,
    QppPad, QPP_NOT_AVAILABLE,
};
use kcptun_std::qpp::validate_qpp_params;

#[test]
fn op_errors_read_like_gos_net_operror() {
    let in_use = "address already in use";
    assert_eq!(
        op_error("listen", "udp", Some("127.0.0.1:29900"), "bind", in_use),
        "listen udp 127.0.0.1:29900: bind: address already in use"
    );
    // A wildcard address has an empty host.
    assert_eq!(
        op_error("listen", "tcp", Some(":29900"), "bind", in_use),
        "listen tcp :29900: bind: address already in use"
    );
    // A missing address is left out altogether, and so is a missing system call.
    assert_eq!(
        op_error("dial", "tcp", None, "", "connection refused"),
        "dial tcp: connection refused"
    );
    assert_eq!(op_error("close", "", None, "", "x"), "close: x");
}

#[test]
fn setsockopt_errors_name_the_socket() {
    let einval = "invalid argument";
    assert_eq!(
        setsockopt_error("udp", Some("[::]:29900"), einval, true),
        "set udp [::]:29900: setsockopt: invalid argument"
    );
    assert_eq!(
        setsockopt_error("udp4", Some("0.0.0.0:56625"), einval, true),
        "set udp4 0.0.0.0:56625: setsockopt: invalid argument"
    );
    assert_eq!(
        setsockopt_error("udp", None, einval, true),
        "set udp: setsockopt: invalid argument"
    );
    // An error that is not one of the system is logged bare.
    assert_eq!(
        setsockopt_error("udp", None, "invalid operation", false),
        "invalid operation"
    );
}

#[test]
fn qpp_count_beyond_uint16_is_rejected_at_startup() {
    // Everything that can be used passes through unchanged.
    assert_eq!(qpp_count_u16(1), Ok(1));
    assert_eq!(qpp_count_u16(61), Ok(61));
    assert_eq!(qpp_count_u16(65535), Ok(65535));

    assert_eq!(
        qpp_count_u16(65536),
        Err("QPPCount 65536 does not fit in uint16: kcptun would truncate it to 0".to_string())
    );
    assert_eq!(
        qpp_count_u16(131_072),
        Err("QPPCount 131072 does not fit in uint16: kcptun would truncate it to 0".to_string())
    );
    assert_eq!(
        qpp_count_u16(65537),
        Err("QPPCount 65537 does not fit in uint16: kcptun would truncate it to 1".to_string())
    );
    for count in [-1, -65536, i64::MIN, i64::MAX] {
        assert_eq!(
            qpp_count_u16(count),
            Err(format!(
                "QPPCount {count} does not fit in uint16: kcptun would truncate it to {}",
                count as u16
            ))
        );
    }

    // The other checks let both of them through, one of them without a warning.
    assert!(validate_qpp_params(65536, &"k".repeat(211)).is_ok());
    assert_eq!(validate_qpp_params(65537, &"k".repeat(211)), Ok(Vec::new()));
}

#[test]
fn the_uint16_guard_runs_where_gos_cast_does() {
    // The raw count is handed on untouched, and rejected where the pad is built.
    let mut base = ServerConfig::defaults().base;
    base.qpp = true;
    base.qpp_count = 65536;
    base.key = "k".repeat(211);
    let (count, warnings) = check_qpp(&base).expect("the count is positive");
    assert_eq!(count, Some(65536));
    assert_eq!(
        warnings,
        ["QPP Warning: QPPCount 65536, choose a prime number for security"]
    );
    assert!(qpp_pad(&base, count).is_err());
}

#[test]
fn the_pad_is_built_exactly_when_qpp_is_on() {
    let mut base = ClientConfig::defaults().base;
    base.key = "it's a secrect".to_string();
    assert!(qpp_pad(&base, None).expect("no pad").is_none());
    assert_eq!(
        qpp_pad(&base, Some(7)).expect("a pad"),
        Some(QppPad { seed: b"it's a secrect".to_vec(), count: 7 })
    );
    assert_eq!(check_qpp(&base), Ok((None, Vec::new())));
    base.qpp = true;
    base.qpp_count = 0;
    assert_eq!(
        check_qpp(&base),
        Err("QPPCount must be greater than 0 when QPP is enabled".to_string())
    );
}

#[test]
fn a_missing_address_prints_as_gos_nil() {
    assert_eq!(GoAddr(None).text(), "<nil>");
    assert_eq!(GoAddr(Some("127.0.0.1:1".to_string())).text(), "127.0.0.1:1");
}

#[test]
fn a_build_without_qpp_refuses_it() {
    assert_eq!(QPP_NOT_AVAILABLE, "QPP: not available in this build");
    let mut base = ClientConfig::defaults().base;
    assert_eq!(check_qpp_in(&base, false), Ok((None, Vec::new())));
    base.qpp = true;
    for count in [61, 0, -1] {
        base.qpp_count = count;
        assert_eq!(
            check_qpp_in(&base, false),
            Err("QPP: not available in this build".to_string())
        );
        assert_eq!(check_qpp_in(&base, true), check_qpp(&base));
    }
    assert_eq!(qpp_pad_in(&base, Some(61), false), Ok(None));
    assert_eq!(qpp_pad_in(&base, Some(65536), false), Ok(None));
    assert_eq!(qpp_pad_in(&base, Some(61), true), qpp_pad(&base, Some(61)));
}
