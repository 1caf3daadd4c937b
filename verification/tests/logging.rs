use synthia::logs::{clear_marker_line, collect_logs, entry_id, is_valid_log_level, parse_log_line};

#[test]
fn test_parse_bracketed_format() {
    let line = "[2024-02-04][12:34:56][INFO][synthia] Application started";
    let entry = parse_log_line(line, 0).unwrap();

    assert_eq!(entry.id, "L-0001");
    assert_eq!(entry.level, "INFO");
    assert_eq!(entry.source, "synthia");
    assert!(entry.message.contains("Application started"));
}

#[test]
fn test_parse_empty_line() {
    let entry = parse_log_line("", 0);
    assert!(entry.is_none());
}

#[test]
fn test_parse_whitespace_line() {
    let entry = parse_log_line("   ", 0);
    assert!(entry.is_none());
}

#[test]
fn test_parse_fallback_format() {
    let line = "Some random log message";
    let entry = parse_log_line(line, 5).unwrap();

    assert_eq!(entry.id, "L-0006");
    assert_eq!(entry.level, "INFO");
    assert_eq!(entry.source, "app");
    assert_eq!(entry.message, "Some random log message");
}

#[test]
fn test_parse_bracketed_timestamp_and_message() {
    let line = "[2024-02-04][12:34:56][warn][core] disk almost full";
    let entry = parse_log_line(line, 2).unwrap();

    assert_eq!(entry.id, "L-0003");
    assert_eq!(entry.ts, "2024-02-04T12:34:56");
    assert_eq!(entry.level, "WARN");
    assert_eq!(entry.source, "core");
    assert_eq!(entry.message, "disk almost full");
    assert!(entry.meta.is_none());
}

#[test]
fn test_parse_space_format_with_source() {
    let line = "2024-02-04 12:34:56 info [core] started up fine";
    let entry = parse_log_line(line, 0).unwrap();

    assert_eq!(entry.ts, "2024-02-04T12:34:56");
    assert_eq!(entry.level, "INFO");
    assert_eq!(entry.source, "core");
    assert_eq!(entry.message, "started up fine");
}

#[test]
fn test_parse_space_format_without_source() {
    let line = "2024-02-04 12:34:56 ERROR everything";
    let entry = parse_log_line(line, 0).unwrap();

    assert_eq!(entry.level, "ERROR");
    assert_eq!(entry.source, "app");
    assert_eq!(entry.message, "everything");
}

#[test]
fn test_parse_space_format_invalid_level_falls_back() {
    let line = "alpha beta gamma delta epsilon";
    let entry = parse_log_line(line, 0).unwrap();

    assert_eq!(entry.level, "INFO");
    assert_eq!(entry.source, "app");
    assert_eq!(entry.message, "alpha beta gamma delta epsilon");
}

#[test]
fn test_is_valid_log_level_cases() {
    assert!(is_valid_log_level("info"));
    assert!(is_valid_log_level("WARNING"));
    assert!(is_valid_log_level("Trace"));
    assert!(is_valid_log_level("fatal"));
    assert!(!is_valid_log_level("notice"));
    assert!(!is_valid_log_level(""));
}

#[test]
fn test_entry_id_padding() {
    assert_eq!(entry_id(0), "L-0001");
    assert_eq!(entry_id(41), "L-0042");
    assert_eq!(entry_id(9998), "L-9999");
    assert_eq!(entry_id(9999), "L-10000");
}

#[test]
fn test_collect_logs_most_recent_first() {
    let lines = vec![
        String::from("first message"),
        String::from("   "),
        String::from("third message"),
        String::from("fourth message"),
    ];
    let result = collect_logs(lines, None, None);

    assert!(result.success);
    assert_eq!(result.count, 3);
    assert_eq!(result.logs[0].id, "L-0004");
    assert_eq!(result.logs[1].id, "L-0003");
    assert_eq!(result.logs[2].id, "L-0001");
}

#[test]
fn test_collect_logs_limit_and_offset() {
    let lines = vec![
        String::from("first message"),
        String::from("second message"),
        String::from("third message"),
    ];
    let limited = collect_logs(lines.clone(), Some(2), Some(0));
    assert_eq!(limited.count, 2);
    assert_eq!(limited.logs[0].id, "L-0003");
    assert_eq!(limited.logs[1].id, "L-0002");

    let offset = collect_logs(lines.clone(), Some(10), Some(1));
    assert_eq!(offset.count, 2);
    assert_eq!(offset.logs[0].id, "L-0002");
    assert_eq!(offset.logs[1].id, "L-0001");

    let beyond = collect_logs(lines, Some(10), Some(5));
    assert!(beyond.success);
    assert_eq!(beyond.count, 0);
    assert!(beyond.logs.is_empty());
}

#[test]
fn test_clear_marker_line_format() {
    let line = clear_marker_line("2024-02-04", "12:34:56");
    assert_eq!(line, "[2024-02-04][12:34:56][INFO][synthia] Log file cleared");
}
