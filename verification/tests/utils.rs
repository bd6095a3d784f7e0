use intentiq::utils::parse_timestamp;

#[test]
fn syslog_timestamps_are_in_2026() {
    let t = parse_timestamp("May  6 09:16:01").unwrap();
    assert_eq!(t.secs, 1778058961);
    assert_eq!(t.nanos, 0);
    let t = parse_timestamp("May 16 09:16:01").unwrap();
    assert_eq!(t.secs, 1778058961 + 10 * 86400);
}

#[test]
fn access_log_timestamps() {
    let t = parse_timestamp("06/May/2026:09:10:01 +0000").unwrap();
    assert_eq!(t.secs, 1778058601);
    let t = parse_timestamp("06/May/2026:09:10:01 +0200").unwrap();
    assert_eq!(t.secs, 1778058601);
}

#[test]
fn unreadable_timestamps() {
    assert!(parse_timestamp("").is_none());
    assert!(parse_timestamp("yesterday").is_none());
    assert!(parse_timestamp("Foo  6 09:16:01").is_none());
}
