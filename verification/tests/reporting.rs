use sint::control::{RunState, ThreadControlMessage};
use sint::logger::Logger;
use sint::output::{hit_line, ipv4_string};
use sint::stats::Stats;

#[test]
fn format_time_seconds_only() {
    assert_eq!(Logger::format_time(0), "0s");
    assert_eq!(Logger::format_time(59), "59s");
}

#[test]
fn format_time_carries_units() {
    assert_eq!(Logger::format_time(61), "1m 1s");
    assert_eq!(Logger::format_time(3600), "1h 0m 0s");
    assert_eq!(Logger::format_time(90061), "1d 1h 1m 1s");
    assert_eq!(Logger::format_time(86400), "1d 0h 0m 0s");
}

#[test]
fn eta_formula() {
    // 10 * (2^32 - 999) / 1000
    assert_eq!(Logger::eta_seconds(10, 999), 42949662);
    assert_eq!(Logger::eta_seconds(0, 12345), 0);
    assert_eq!(Logger::eta_seconds(100, 0x1_0000_0000), 0);
    // A scan that has sent nothing after an hour still has everything
    // ahead of it.
    assert_eq!(Logger::eta_seconds(3600, 0), 3600u64 * 0x1_0000_0000);
}

#[test]
fn logger_interval_is_one_second() {
    assert_eq!(Logger::new().interval_secs, 1);
}

#[test]
fn counters_start_at_zero_and_only_climb() {
    let mut s = Stats::new();
    assert_eq!(s.sent, 0);
    assert_eq!(s.received, 0);
    s.record_sent();
    s.record_sent();
    s.record_received();
    assert_eq!(s.sent, 2);
    assert_eq!(s.received, 1);
}

#[test]
fn run_state_toggles() {
    let mut rs = RunState::new();
    assert!(!rs.paused);
    assert!(!rs.act_state());
    rs.toogle();
    assert!(rs.paused);
    assert!(rs.act_state());
    rs.toogle();
    assert!(!rs.act_state());
}

#[test]
fn control_message_is_die() {
    let msg = ThreadControlMessage::Die;
    assert!(matches!(msg, ThreadControlMessage::Die));
}

#[test]
fn dotted_quad_rendering() {
    assert_eq!(ipv4_string(0xCB007105), "203.0.113.5");
    assert_eq!(ipv4_string(0), "0.0.0.0");
    assert_eq!(ipv4_string(0xFFFFFFFF), "255.255.255.255");
    assert_eq!(hit_line(0xC0A80101), b"192.168.1.1\n".to_vec());
}
