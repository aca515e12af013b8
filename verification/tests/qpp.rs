//! The parameters of the permutation pads, and the staging of a stream's ciphertext.
use kcptun_std::qpp::{
    drains_first, finish_result, goes_on_after_failed_drain, validate_qpp_params, Finish, Staging,
    WriteStep, QPP_POWER,
};

const KEY: &str = "it's a secrect";

/// A 211-byte key, the shortest one `validate_qpp_params` does not warn about.
fn long_key() -> String {
    "k".repeat(211)
}

#[test]
fn validate_rejects_a_non_positive_count() {
    const FATAL: &str = "QPPCount must be greater than 0 when QPP is enabled";
    for count in [0i64, -1, i64::MIN] {
        assert_eq!(validate_qpp_params(count, &long_key()), Err(FATAL.into()));
    }
}

#[test]
fn validate_accepts_a_prime_count_and_a_long_key_without_warnings() {
    assert_eq!(validate_qpp_params(61, &long_key()), Ok(Vec::new()));
    assert_eq!(validate_qpp_params(7, &long_key()), Ok(Vec::new()));
}

#[test]
fn validate_warns_about_a_short_key() {
    assert_eq!(
        validate_qpp_params(61, KEY),
        Ok(vec![
            "QPP Warning: 'key' has size of 14 bytes, required 211 bytes at least".to_string()
        ])
    );
    // 210 bytes still warns, 211 does not: the boundary is `len(key) < minSeedLength`.
    assert_eq!(
        validate_qpp_params(61, &"k".repeat(210)),
        Ok(vec![
            "QPP Warning: 'key' has size of 210 bytes, required 211 bytes at least".to_string()
        ])
    );
}

#[test]
fn validate_counts_key_bytes_not_characters() {
    let key = "é".repeat(200); // 400 bytes, 200 characters
    assert_eq!(validate_qpp_params(61, &key), Ok(Vec::new()));
}

#[test]
fn validate_warns_about_too_few_pads() {
    assert_eq!(
        validate_qpp_params(5, &long_key()),
        Ok(vec![
            "QPP Warning: QPPCount 5, required 7 at least".to_string()
        ])
    );
}

#[test]
fn validate_warns_when_the_count_shares_a_factor_with_eight() {
    assert_eq!(
        validate_qpp_params(64, &long_key()),
        Ok(vec![
            "QPP Warning: QPPCount 64, choose a prime number for security".to_string()
        ])
    );
    assert_eq!(
        validate_qpp_params(2, &long_key()),
        Ok(vec![
            "QPP Warning: QPPCount 2, required 7 at least".to_string(),
            "QPP Warning: QPPCount 2, choose a prime number for security".to_string(),
        ])
    );
}

#[test]
fn validate_returns_all_three_warnings_in_go_order() {
    assert_eq!(
        validate_qpp_params(4, KEY),
        Ok(vec![
            "QPP Warning: 'key' has size of 14 bytes, required 211 bytes at least".to_string(),
            "QPP Warning: QPPCount 4, required 7 at least".to_string(),
            "QPP Warning: QPPCount 4, choose a prime number for security".to_string(),
        ])
    );
}

#[test]
fn validate_accepts_counts_beyond_what_kcptun_can_use() {
    assert_eq!(validate_qpp_params(65537, &long_key()), Ok(Vec::new()));
    assert_eq!(
        validate_qpp_params(65536, &long_key())
            .expect("valid")
            .len(),
        1
    );
}

/// A connection that takes at most `max` bytes at a time, and stalls as often as it is told to.
struct Sink {
    out: Vec<u8>,
    max: usize,
    stalls: usize,
}

/// Writes `data`, "encrypting" it by adding one to each byte; none when the connection stalls.
fn write(stage: &mut Staging, sink: &mut Sink, data: &[u8]) -> Option<usize> {
    loop {
        match stage.write_step(data.len()) {
            WriteStep::Drain(from) => {
                if sink.stalls > 0 {
                    sink.stalls -= 1;
                    return None;
                }
                let n = stage.pending().len().min(sink.max);
                assert!(from + stage.pending().len() <= 4096);
                sink.out.extend_from_slice(&stage.pending()[..n]);
                assert!(stage.on_written(n));
            }
            WriteStep::Encrypt => stage.stage(data.iter().map(|b| b.wrapping_add(1)).collect()),
            WriteStep::Report(n) => {
                stage.on_reported();
                return Some(n);
            }
        }
    }
}

/// However the connection takes it, the ciphertext is made once and arrives whole and in order.
#[test]
fn a_short_or_stalling_connection_gets_the_ciphertext_once() {
    let data: Vec<u8> = (0..1000u32).map(|i| (i % 251) as u8).collect();
    let want: Vec<u8> = data.iter().map(|b| b.wrapping_add(1)).collect();
    for (max, stalls) in [(usize::MAX, 0), (1, 0), (7, 3), (333, 1)] {
        let mut stage = Staging::new();
        let mut sink = Sink { out: Vec::new(), max, stalls };
        for part in data.chunks(100) {
            let mut done = write(&mut stage, &mut sink, part);
            while done.is_none() {
                done = write(&mut stage, &mut sink, part);
            }
            assert_eq!(done, Some(part.len()));
        }
        assert_eq!(sink.out, want, "max {max}");
    }
}

#[test]
fn an_empty_write_makes_no_ciphertext() {
    let mut stage = Staging::new();
    let mut sink = Sink { out: Vec::new(), max: 1, stalls: 0 };
    assert_eq!(write(&mut stage, &mut sink, b""), Some(0));
    assert!(sink.out.is_empty());
    assert_eq!(stage.write_step(3), WriteStep::Encrypt);
}

/// A write that was cut short by a failure is not encrypted again: the same bytes are offered.
#[test]
fn a_failed_write_keeps_its_ciphertext() {
    let mut stage = Staging::new();
    stage.stage(vec![1, 2, 3]);
    assert!(stage.on_written(1));
    assert!(!stage.on_written(0));
    assert_eq!(stage.write_step(3), WriteStep::Drain(1));
    assert_eq!(stage.pending(), [2, 3]);
    assert!(stage.on_written(2));
    assert_eq!(stage.write_step(3), WriteStep::Report(3));
}

#[test]
fn a_stream_that_fails_to_drain_still_ends() {
    assert_eq!(QPP_POWER, 8);
    assert!(drains_first(Finish::Flush) && drains_first(Finish::Shutdown));
    assert!(drains_first(Finish::CloseWrite) && !drains_first(Finish::Close));
    assert!(goes_on_after_failed_drain(Finish::Shutdown));
    assert!(goes_on_after_failed_drain(Finish::CloseWrite));
    assert!(!goes_on_after_failed_drain(Finish::Flush));
    assert_eq!(finish_result::<&str>(Ok(()), Ok(())), Ok(()));
    assert_eq!(finish_result(Err("drain"), Ok(())), Err("drain"));
    assert_eq!(finish_result(Err("drain"), Err("shutdown")), Err("shutdown"));
}
