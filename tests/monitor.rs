use logpulse::parser::MIN_LINE_LEN;
use logpulse::{
    next_window, parse_log, parse_log_with_instant, share, shares, AdaptiveScheduler, Log, LogManager,
    ParseError, Timestamp, TypeOfLog, Window,
};

fn entry(message: &str, log_type: TypeOfLog, secs: i64) -> Log {
    Log::new(message.to_string(), log_type, Timestamp { secs, nanos: 0 })
}

#[test]
fn error_line_gives_category_and_message() {
    let log = parse_log("[2024-01-01T00:00:00Z] ERROR - disk full".to_string()).unwrap();
    assert_eq!(log.log_type, TypeOfLog::Error);
    assert_eq!(log.message, "disk full");
    assert_eq!(log.timestamp, Timestamp { secs: 1704067200, nanos: 0 });
}

#[test]
fn labels_match_in_any_case() {
    let d = parse_log("[2024-01-01T00:00:00Z] dEbUg - cache miss".to_string()).unwrap();
    assert_eq!(d.log_type, TypeOfLog::Debug);
    assert_eq!(d.message, "cache miss");
    let i = parse_log("[2024-01-01T00:00:00Z] Info - started".to_string()).unwrap();
    assert_eq!(i.log_type, TypeOfLog::Info);
    assert_eq!(i.message, "started");
}

#[test]
fn unknown_label_keeps_whole_line() {
    let line = "[2024-01-01T00:00:00Z] WARN - low memory";
    let log = parse_log(line.to_string()).unwrap();
    assert_eq!(log.log_type, TypeOfLog::Uncategorized);
    assert_eq!(log.message, line);
}

#[test]
fn short_line_is_malformed() {
    assert!(matches!(parse_log("[2024-01-01] ERROR".to_string()), Err(ParseError::MalformedLine)));
    assert!(matches!(parse_log(String::new()), Err(ParseError::MalformedLine)));
    let just_short = "x".repeat(MIN_LINE_LEN - 1);
    assert!(matches!(parse_log(just_short), Err(ParseError::MalformedLine)));
}

#[test]
fn bad_timestamp_falls_back_to_epoch() {
    let log = parse_log("[not-a-timestamp-wxyz] ERROR - boom".to_string()).unwrap();
    assert_eq!(log.timestamp, Timestamp { secs: 0, nanos: 0 });
    assert_eq!(log.message, "boom");
}

#[test]
fn given_instant_is_used() {
    let line = "[whatever-timestamp!!] INFO - up";
    let log = parse_log_with_instant(line, Some((42, 7))).unwrap();
    assert_eq!(log.timestamp, Timestamp { secs: 42, nanos: 7 });
    assert_eq!(log.log_type, TypeOfLog::Info);
    assert_eq!(log.message, "up");
    let log = parse_log_with_instant(line, None).unwrap();
    assert_eq!(log.timestamp, Timestamp { secs: 0, nanos: 0 });
}

#[test]
fn label_without_body_gives_empty_message() {
    let log = parse_log("[2024-01-01T00:00:00Z] ERROR".to_string()).unwrap();
    assert_eq!(log.log_type, TypeOfLog::Error);
    assert_eq!(log.message, "");
}

#[test]
fn from_label_names_categories() {
    assert_eq!(TypeOfLog::from_label("error"), TypeOfLog::Error);
    assert_eq!(TypeOfLog::from_label("DEBUG"), TypeOfLog::Debug);
    assert_eq!(TypeOfLog::from_label("info"), TypeOfLog::Info);
    assert_eq!(TypeOfLog::from_label("warn"), TypeOfLog::Uncategorized);
}

#[test]
fn from_str_matches_exactly() {
    assert_eq!("error".parse::<TypeOfLog>(), Ok(TypeOfLog::Error));
    assert_eq!("debug".parse::<TypeOfLog>(), Ok(TypeOfLog::Debug));
    assert_eq!("info".parse::<TypeOfLog>(), Ok(TypeOfLog::Info));
    assert_eq!("Error".parse::<TypeOfLog>(), Ok(TypeOfLog::Uncategorized));
    assert_eq!("warn".parse::<TypeOfLog>(), Ok(TypeOfLog::Uncategorized));
    assert_eq!("".parse::<TypeOfLog>(), Ok(TypeOfLog::Uncategorized));
}

#[test]
fn duplicate_ingest_raises_weight() {
    let mut m = LogManager::new();
    m.push(entry("heartbeat", TypeOfLog::Info, 10));
    assert_eq!(m.entires_processed(), 1);
    assert_eq!(m.weight("heartbeat"), 0);
    m.push(entry("heartbeat", TypeOfLog::Info, 10));
    assert_eq!(m.entires_processed(), 1);
    assert_eq!(m.weight("heartbeat"), 1);
    m.push(entry("heartbeat", TypeOfLog::Info, 10));
    assert_eq!(m.entires_processed(), 1);
    assert_eq!(m.weight("heartbeat"), 2);
    assert_eq!(m.weight("other"), 0);
}

#[test]
fn different_timestamps_are_both_stored() {
    let mut m = LogManager::new();
    m.push(entry("tick", TypeOfLog::Debug, 1));
    m.push(entry("tick", TypeOfLog::Debug, 2));
    assert_eq!(m.entires_processed(), 2);
    assert_eq!(m.weight("tick"), 0);
}

#[test]
fn sampled_rate_counts_new_entries() {
    let mut m = LogManager::new();
    m.push(entry("before", TypeOfLog::Info, 0));
    let prev = m.entires_processed();
    for k in 0..7 {
        m.push(entry("during", TypeOfLog::Info, k + 1));
    }
    m.push(entry("during", TypeOfLog::Info, 1));
    assert_eq!(m.get_curr_rate_per_second(prev), 7);
    assert_eq!(m.last_curr_rate(), 7);
    assert_eq!(m.detect_burst(), None);
}

#[test]
fn burst_is_reported_once() {
    let mut m = LogManager::new();
    let prev = m.entires_processed();
    for k in 0..5001 {
        m.push(entry("load", TypeOfLog::Debug, k));
    }
    assert_eq!(m.get_curr_rate_per_second(prev), 5001);
    assert_eq!(m.detect_burst(), Some(5001));
    assert_eq!(m.detect_burst(), None);
    let prev = m.entires_processed();
    m.push(entry("calm", TypeOfLog::Info, 0));
    assert_eq!(m.get_curr_rate_per_second(prev), 1);
    assert_eq!(m.detect_burst(), None);
}

#[test]
fn rate_at_threshold_is_no_burst() {
    let mut m = LogManager::new();
    for k in 0..5000 {
        m.push(entry("load", TypeOfLog::Debug, k));
    }
    assert_eq!(m.get_curr_rate_per_second(0), 5000);
    assert_eq!(m.detect_burst(), None);
}

#[test]
fn window_transitions() {
    assert_eq!(next_window(Window::Normal, 2501), Window::Fast);
    assert_eq!(next_window(Window::Normal, 599), Window::Slow);
    assert_eq!(next_window(Window::Normal, 600), Window::Normal);
    assert_eq!(next_window(Window::Normal, 2500), Window::Normal);
    assert_eq!(next_window(Window::Fast, 1000), Window::Fast);
    assert_eq!(next_window(Window::Slow, 1000), Window::Slow);
    assert_eq!(next_window(Window::Slow, 3000), Window::Fast);
    assert_eq!(Window::Fast.seconds(), 30);
    assert_eq!(Window::Normal.seconds(), 60);
    assert_eq!(Window::Slow.seconds(), 120);
}

#[test]
fn scheduler_tracks_peak_and_rearms() {
    let mut s = AdaptiveScheduler::new();
    assert_eq!(s.window(), Window::Normal);
    assert!(!s.tick(1000));
    assert_eq!(s.window(), Window::Normal);
    assert_eq!(s.peak_rate(), 1000);
    assert!(s.tick(3000));
    assert_eq!(s.window(), Window::Fast);
    assert!(!s.tick(2600));
    assert_eq!(s.peak_rate(), 3000);
    assert!(s.tick(10));
    assert_eq!(s.window(), Window::Slow);
    assert_eq!(s.peak_rate(), 3000);
}

#[test]
fn shares_with_no_entries_are_zero() {
    let mut m = LogManager::new();
    let st = m.print_statistics(60, 0);
    assert_eq!(st.entries_processed, 0);
    assert_eq!((st.error_share, st.debug_share, st.info_share), (0, 0, 0));
    assert!(!st.high_error_rate);
    assert_eq!(st.burst, None);
}

#[test]
fn shares_add_up() {
    let mut m = LogManager::new();
    m.push(entry("a", TypeOfLog::Error, 1));
    m.push(entry("b", TypeOfLog::Debug, 2));
    m.push(entry("c", TypeOfLog::Info, 3));
    let st = m.print_statistics(30, 9);
    assert_eq!((st.error_share, st.debug_share, st.info_share), (3334, 3333, 3333));
    let sum = (st.error_share + st.debug_share + st.info_share) as f64 / 100.0;
    assert!((sum - 100.0).abs() < 1e-9);
    assert_eq!(st.peak_rate, 9);
    assert_eq!(st.window_secs, 30);
    assert!(!st.high_error_rate);
}

#[test]
fn statistics_report_counts_and_error_alert() {
    let mut m = LogManager::new();
    m.push(entry("a", TypeOfLog::Error, 1));
    m.push(entry("b", TypeOfLog::Error, 2));
    m.push(entry("c", TypeOfLog::Info, 3));
    m.push(entry("d", TypeOfLog::Uncategorized, 4));
    assert_eq!(m.pattern_analysis(), (0, 2, 1));
    let c = m.category_breakdown();
    assert_eq!((c.error, c.debug, c.info, c.uncategorized), (2, 0, 1, 1));
    let st = m.print_statistics(120, 0);
    assert_eq!(st.entries_processed, 4);
    assert_eq!(st.error_share, 5000);
    assert_eq!(st.info_share, 2500);
    assert_eq!(st.debug_share, 0);
    assert!(st.high_error_rate);
}

#[test]
fn share_values() {
    assert_eq!(share(0, 0), 0);
    assert_eq!(share(1, 3), 3333);
    assert_eq!(share(2, 3), 6666);
    assert_eq!(share(5, 5), 10000);
}

#[test]
fn shares_round_by_largest_remainder() {
    assert_eq!(shares(0, 0, 0, 0), (0, 0, 0));
    assert_eq!(shares(1, 1, 1, 3), (3334, 3333, 3333));
    assert_eq!(shares(2, 1, 0, 3), (6667, 3333, 0));
    assert_eq!(shares(1, 2, 0, 3), (3333, 6667, 0));
    assert_eq!(shares(1, 1, 4, 6), (1667, 1667, 6666));
    assert_eq!(shares(2, 0, 1, 4), (5000, 0, 2500));
    let (e, d, i) = shares(1, 1, 1, 7);
    assert_eq!(e + d + i, 4285);
}
