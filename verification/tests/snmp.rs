//! The counter log.
use kcptun_std::gotime::Time;
use kcptun_std::snmp::{
    filepath_split, filepath_split_at, record_path, record_path_at, record_text, snmp_period,
    write_csv_record, SnmpLogError,
};

/// 2026-03-23T12:00:00Z.
const T0: i64 = 1_774_267_200;

/// A UTC instant, so the file names below do not depend on the machine's zone.
fn utc(unix_secs: i64) -> Time {
    Time::new(unix_secs, 0, 0, "UTC")
}

/// The header line.
const HEADER: &str = "Unix,BytesSent,BytesReceived,MaxConn,ActiveOpens,PassiveOpens,CurrEstab,\
InErrs,InCsumErrors,KCPInErrors,InPkts,OutPkts,InSegs,OutSegs,InBytes,OutBytes,RetransSegs,\
FastRetransSegs,EarlyRetransSegs,LostSegs,RepeatSegs,FECFullShards,FECParityShards,FECErrs,\
FECRecovered,FECShardSet,FECShardMin,RingBufferSndQueue,RingBufferRcvQueue,RingBufferSndBuffer,\
OOBPackets";

/// The names of the columns behind the first.
fn names() -> Vec<String> {
    HEADER.split(',').skip(1).map(str::to_string).collect()
}

/// Counters with a few distinguishable values.
fn counters() -> Vec<String> {
    let mut row = vec!["0".to_string(); names().len()];
    row[0] = "11".to_string();
    row[1] = "22".to_string();
    let last = row.len() - 1;
    row[last] = "33".to_string();
    row
}

#[test]
fn test_write_snmp_record_shape() {
    let text = record_text(true, &names(), T0, &counters());
    let lines: Vec<&str> = text.split_inclusive('\n').collect();
    assert_eq!(lines.len(), 2, "header and one row: {text:?}");
    assert_eq!(lines[0], format!("{HEADER}\n"));
    assert_eq!(lines[1].split(',').count(), 1 + names().len());
    let want_row = format!("{T0},{}\n", counters().join(","));
    assert_eq!(lines[1], want_row);
    assert!(want_row.starts_with(&format!("{T0},11,22,")), "{want_row}");
    assert!(want_row.ends_with(",33\n"), "{want_row}");
}

#[test]
fn test_write_snmp_record_writes_the_header_once() {
    let mut file = String::new();
    for secs in [T0, T0 + 1, T0 + 2] {
        let text = record_text(file.is_empty(), &names(), secs, &counters());
        file.push_str(&text);
    }
    let lines: Vec<&str> = file.lines().collect();
    assert_eq!(lines.len(), 4);
    assert!(lines[0].starts_with("Unix,BytesSent,"));
    assert_eq!(lines[1].split(',').next(), Some(T0.to_string().as_str()));
    assert_eq!(
        lines[2].split(',').next(),
        Some((T0 + 1).to_string().as_str())
    );
    assert_eq!(
        lines[3].split(',').next(),
        Some((T0 + 2).to_string().as_str())
    );
}

/// Only the file part of the path is a layout.
#[test]
fn test_write_snmp_record_rotates_by_file_name() {
    // The directory name contains `01`, a layout token: it must be left alone.
    let path = "/tmp/01-logs/snmp-2006-01-02.log";
    let day1 = "/tmp/01-logs/snmp-2026-03-23.log";
    let day2 = "/tmp/01-logs/snmp-2026-03-24.log";
    assert_eq!(record_path(path, &utc(T0)), day1);
    assert_eq!(record_path(path, &utc(T0 + 3600)), day1);
    assert_eq!(record_path(path, &utc(T0 + 86_400)), day2);
}

#[test]
fn test_write_snmp_record_open_error_text() {
    let path = "/tmp/nowhere/snmp.log".to_string();
    let err = "no such file or directory".to_string();
    assert_eq!(
        SnmpLogError::Open { path: path.clone(), err }.message(),
        "open /tmp/nowhere/snmp.log: no such file or directory"
    );
    let err = "no space left on device".to_string();
    assert_eq!(
        SnmpLogError::Write { path, err }.message(),
        "write /tmp/nowhere/snmp.log: no space left on device"
    );
}

#[test]
fn test_filepath_split() {
    let split = |path: &str| {
        let (dir, file) = filepath_split(path);
        assert_eq!(format!("{dir}{file}"), path);
        vec![dir, file]
    };
    assert_eq!(split("/var/log/snmp.log"), ["/var/log/", "snmp.log"]);
    assert_eq!(split("snmp.log"), ["", "snmp.log"]);
    assert_eq!(split("/snmp.log"), ["/", "snmp.log"]);
    assert_eq!(split("dir/"), ["dir/", ""]);
    assert_eq!(split(""), ["", ""]);
}

/// The quoting rules.
#[test]
fn test_write_csv_record_quoting() {
    let record = |fields: &[&str]| {
        let mut out = String::new();
        write_csv_record(
            &mut out,
            &fields.iter().map(|s| (*s).to_string()).collect::<Vec<_>>(),
        );
        out
    };

    assert_eq!(record(&["Unix", "BytesSent"]), "Unix,BytesSent\n");
    assert_eq!(record(&[]), "\n");
    assert_eq!(record(&["", ""]), ",\n");
    assert_eq!(record(&["a,b"]), "\"a,b\"\n");
    assert_eq!(record(&["say \"hi\""]), "\"say \"\"hi\"\"\"\n");
    assert_eq!(record(&["two\nlines"]), "\"two\nlines\"\n");
    assert_eq!(record(&["cr\rlf"]), "\"cr\rlf\"\n");
    assert_eq!(record(&[" leading"]), "\" leading\"\n");
    assert_eq!(record(&["trailing "]), "trailing \n");
    assert_eq!(record(&["\\."]), "\"\\.\"\n");
}

/// Nothing is logged without a path or a positive period.
#[test]
fn test_snmp_logger_is_a_noop_when_disabled() {
    assert_eq!(snmp_period("", 60), None);
    assert_eq!(snmp_period("snmp.log", 0), None);
    assert_eq!(snmp_period("snmp.log", -1), None);
    assert_eq!(snmp_period("snmp.log", 60), Some(60));
}

/// The backslash separates only where it is said to.
#[test]
fn a_backslash_separates_where_it_is_said_to() {
    let parts = |dir: &str, file: &str| (dir.to_string(), file.to_string());
    let path = "C:\\logs/a\\snmp-2006.log";
    assert_eq!(filepath_split_at(path, true), parts("C:\\logs/a\\", "snmp-2006.log"));
    assert_eq!(filepath_split_at(path, false), parts("C:\\logs/", "a\\snmp-2006.log"));
    assert_eq!(filepath_split(path), filepath_split_at(path, false));
    assert_eq!(filepath_split_at("a\\b/c", true), parts("a\\b/", "c"));
    assert_eq!(filepath_split_at("\\", true), parts("\\", ""));
    let path = "logs-2006\\snmp-2006.log";
    assert_eq!(record_path_at(path, &utc(T0), true), "logs-2006\\snmp-2026.log");
    assert_eq!(record_path_at(path, &utc(T0), false), "logs-2026\\snmp-2026.log");
    assert_eq!(record_path(path, &utc(T0)), "logs-2026\\snmp-2026.log");
}
