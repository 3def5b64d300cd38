use drone_network::logger::{filter_logs, level_named, InMemoryLogger, LogLevel};

fn sample() -> InMemoryLogger {
    let mut l = InMemoryLogger::new();
    l.log(LogLevel::Error, "e".to_string());
    l.log(LogLevel::Info, "i".to_string());
    l.log(LogLevel::Trace, "t".to_string());
    l.log(LogLevel::Warn, "w".to_string());
    l
}

#[test]
fn log_reads_back_in_order() {
    let l = sample();
    let logs = l.get_logs();
    let got: Vec<(LogLevel, &str)> = logs.iter().map(|e| (e.level, e.message.as_str())).collect();
    assert_eq!(
        got,
        vec![(LogLevel::Error, "e"), (LogLevel::Info, "i"), (LogLevel::Trace, "t"), (LogLevel::Warn, "w")]
    );
    assert!(InMemoryLogger::new().get_logs().is_empty());
}

#[test]
fn filter_keeps_at_least_as_severe() {
    let logs = sample().get_logs();
    let msgs = |v: Vec<drone_network::logger::LogEntry>| v.into_iter().map(|e| e.message).collect::<Vec<_>>();
    assert_eq!(msgs(filter_logs(&logs, None)), vec!["e", "i", "t", "w"]);
    assert_eq!(msgs(filter_logs(&logs, Some("info"))), vec!["e", "i", "w"]);
    assert_eq!(msgs(filter_logs(&logs, Some("WARN"))), vec!["e", "w"]);
    assert_eq!(msgs(filter_logs(&logs, Some("Error"))), vec!["e"]);
    assert_eq!(msgs(filter_logs(&logs, Some("trace"))), vec!["e", "i", "t", "w"]);
    assert!(filter_logs(&logs, Some("verbose")).is_empty());
}

#[test]
fn level_names() {
    assert_eq!(level_named("DeBuG"), Some(LogLevel::Debug));
    assert_eq!(level_named("debugs"), None);
    assert_eq!(LogLevel::Warn.as_str(), "WARN");
    assert_eq!(LogLevel::Trace.as_str(), "TRACE");
}

#[test]
fn default_logger_is_empty() {
    let l = InMemoryLogger::default();
    assert!(l.get_logs().is_empty());
}
