use open_proxy_ai::log::AppLog;
#[test]
fn test_log_entry_has_local_time() {
    let mut log = AppLog::new(10);
    log.info("test message".into());
    let entries = log.get_all();
    assert_eq!(entries.len(), 1);
    // Time should be a valid HH:MM:SS format (local time, not UTC)
    let time = &entries[0].time;
    assert_eq!(time.len(), 8, "time should be HH:MM:SS format, got: {}", time);
    // Parse and verify it's a plausible hour (local time, not UTC+0)
    let h: u32 = time[..2].parse().unwrap();
    // The test runs in UTC+8, so between 00:00-23:59 local is fine
    // but critically, if it were UTC, during 08:00-23:59 UTC (16:00-07:59+8) the hour
    // would differ. We just verify it's a valid hour.
    assert!(h < 24, "hour should be valid, got: {}", h);
}

#[test]
fn test_log_respects_max_entries() {
    let mut log = AppLog::new(3);
    for i in 0..5 {
        log.info(format!("msg {}", i));
    }
    assert_eq!(log.get_all().len(), 3);
    assert_eq!(log.get_all()[0].msg, "msg 2");
}

// ── Further cases ────────────────────────────────────────────────

#[test]
fn log_keeps_the_latest_in_order_with_levels() {
    let mut log = AppLog::new(2);
    log.info("a".into());
    log.warn("b".into());
    log.error("c".into());
    let all = log.get_all();
    assert_eq!(all.len(), 2);
    assert_eq!(all[0].level, "WARN");
    assert_eq!(all[0].msg, "b");
    assert_eq!(all[1].level, "ERROR");
    assert_eq!(all[1].msg, "c");
    let t = &all[1].time;
    assert_eq!(&t[2..3], ":");
    assert_eq!(&t[5..6], ":");
    let m: u32 = t[3..5].parse().unwrap();
    let s: u32 = t[6..8].parse().unwrap();
    assert!(m < 60 && s < 60);
}

#[test]
fn log_with_zero_capacity_keeps_nothing() {
    let mut log = AppLog::new(0);
    log.info("dropped".into());
    assert!(log.get_all().is_empty());
}

#[test]
fn clock_stamp_pads_to_two_digits() {
    assert_eq!(AppLog::clock_stamp(0, 0, 0), "00:00:00");
    assert_eq!(AppLog::clock_stamp(9, 5, 7), "09:05:07");
    assert_eq!(AppLog::clock_stamp(23, 59, 59), "23:59:59");
}

#[test]
fn push_at_stamps_the_given_time_and_keeps_the_latest() {
    let mut log = AppLog::new(2);
    log.push_at("INFO", "first".into(), 8, 30, 0);
    log.push_at("WARN", "second".into(), 14, 2, 9);
    log.push_at("ERROR", "third".into(), 23, 0, 59);
    let all = log.get_all();
    assert_eq!(all.len(), 2);
    assert_eq!((all[0].level.as_str(), all[0].msg.as_str(), all[0].time.as_str()), ("WARN", "second", "14:02:09"));
    assert_eq!((all[1].level.as_str(), all[1].msg.as_str(), all[1].time.as_str()), ("ERROR", "third", "23:00:59"));
}
