//! The smux configuration.
use kcptun_std::smuxcfg::{build_smux_config, SmuxConfig, SmuxConfigError as E};
use std::time::Duration;

#[test]
fn defaults_match_go() {
    let cfg = SmuxConfig::default();
    assert_eq!(cfg.version, 1);
    assert_eq!(cfg.keep_alive_interval, Duration::from_secs(10).as_nanos());
    assert_eq!(cfg.keep_alive_timeout, Duration::from_secs(30).as_nanos());
    assert_eq!(cfg.max_frame_size, 32768);
    assert_eq!(cfg.max_receive_buffer, 4194304);
    assert_eq!(cfg.max_stream_buffer, 65536);
    cfg.verify().expect("smux's own defaults verify");
}

#[test]
fn build_uses_kcptun_defaults() {
    let cfg = build_smux_config(2, 4194304, 2097152, 8192, 10).expect("kcptun defaults");
    assert_eq!(
        cfg,
        SmuxConfig {
            version: 2,
            keep_alive_disabled: false,
            keep_alive_interval: Duration::from_secs(10).as_nanos(),
            keep_alive_timeout: Duration::from_secs(30).as_nanos(),
            max_frame_size: 8192,
            max_receive_buffer: 4194304,
            max_stream_buffer: 2097152,
        }
    );
}

#[test]
fn verify_errors_in_go_order() {
    let cases: &[(i64, i64, i64, i64, i64, E)] = &[
        (0, 4194304, 2097152, 8192, 10, E::UnsupportedProtocolVersion),
        (3, 4194304, 2097152, 8192, 10, E::UnsupportedProtocolVersion),
        (
            2,
            4194304,
            2097152,
            8192,
            0,
            E::KeepAliveIntervalNotPositive,
        ),
        (
            2,
            4194304,
            2097152,
            8192,
            -1,
            E::KeepAliveIntervalNotPositive,
        ),
        (2, 4194304, 2097152, 8192, 31, E::KeepAliveTimeoutTooSmall),
        (2, 4194304, 2097152, 0, 10, E::MaxFrameSizeNotPositive),
        (2, 4194304, 2097152, 65536, 10, E::MaxFrameSizeTooLarge),
        (2, 0, 2097152, 8192, 10, E::MaxReceiveBufferNotPositive),
        (
            2,
            2147483648,
            2097152,
            8192,
            10,
            E::MaxReceiveBufferTooLarge,
        ),
        (2, 4194304, 0, 8192, 10, E::MaxStreamBufferNotPositive),
        (
            2,
            4194304,
            8388608,
            8192,
            10,
            E::MaxStreamBufferLargerThanReceiveBuffer,
        ),
    ];
    for &(ver, rbuf, sbuf, frame, keep, want) in cases {
        assert_eq!(
            build_smux_config(ver, rbuf, sbuf, frame, keep),
            Err(want),
            "({ver}, {rbuf}, {sbuf}, {frame}, {keep})"
        );
    }
}

#[test]
fn keepalive_30_is_exactly_the_timeout() {
    // KeepAliveTimeout == KeepAliveInterval is accepted (the check is `<`).
    assert!(build_smux_config(2, 4194304, 2097152, 8192, 30).is_ok());
}

#[test]
fn a_disabled_keepalive_is_not_checked() {
    let cfg = SmuxConfig {
        keep_alive_disabled: true,
        keep_alive_interval: 0,
        keep_alive_timeout: 0,
        ..SmuxConfig::default()
    };
    assert_eq!(cfg.verify(), Ok(()));
    let cfg = SmuxConfig {
        max_receive_buffer: i64::from(i32::MAX),
        max_stream_buffer: i64::from(i32::MAX),
        ..SmuxConfig::default()
    };
    assert_eq!(cfg.verify(), Ok(()));
}

#[test]
fn every_configuration_error_has_its_text() {
    for (e, want) in [
        (E::UnsupportedProtocolVersion, "unsupported protocol version"),
        (E::KeepAliveIntervalNotPositive, "keep-alive interval must be positive"),
        (
            E::KeepAliveTimeoutTooSmall,
            "keep-alive timeout must be larger than keep-alive interval",
        ),
        (E::MaxFrameSizeNotPositive, "max frame size must be positive"),
        (E::MaxFrameSizeTooLarge, "max frame size must not be larger than 65535"),
        (E::MaxReceiveBufferNotPositive, "max receive buffer must be positive"),
        (
            E::MaxReceiveBufferTooLarge,
            "max receive buffer cannot be larger than 2147483647",
        ),
        (E::MaxStreamBufferNotPositive, "max stream buffer must be positive"),
        (
            E::MaxStreamBufferLargerThanReceiveBuffer,
            "max stream buffer must not be larger than max receive buffer",
        ),
        (
            E::MaxStreamBufferTooLarge,
            "max stream buffer cannot be larger than 2147483647",
        ),
    ] {
        assert_eq!(e.message(), want);
    }
}
