use polybot::json::parse_json;
use polybot::json::read_number;
use polybot::json::write_json;
use polybot::json::JsonValue;
use polybot::logger::console_line;
use polybot::logger::csv_escape;
use polybot::logger::file_names;
use polybot::logger::log_directory;
use polybot::logger::make_session_id;
use polybot::logger::outdated;
use polybot::logger::redact_assignment;
use polybot::logger::sanitize_message;
use polybot::logger::scoring_header;
use polybot::logger::scoring_row;
use polybot::logger::session_id;
use polybot::logger::LogLevel;
use polybot::logger::Logger;
use polybot::logger::LoggerConfig;
use polybot::logger::ScoringLogRecord;
use polybot::logger::Source;

fn logger(level: LogLevel) -> Logger {
    Logger {
        config: LoggerConfig {
            directory: "logs".to_string(),
            minimum_level: level,
            console_enabled: true,
            json_enabled: false,
            flush_each_write: true,
            retention_days: 14,
        },
        session_id: "S-1".to_string(),
        date: "2026-08-10".to_string(),
    }
}

#[test]
fn levels_are_read_and_written() {
    for (text, level) in [
        ("DEBUG", LogLevel::Debug),
        (" info", LogLevel::Info),
        ("Warn", LogLevel::Warn),
        ("WARNING", LogLevel::Warn),
        ("error\n", LogLevel::Error),
    ] {
        assert!(LogLevel::from_str(text) == Some(level));
    }
    assert!(LogLevel::from_str("trace").is_none());
    for level in [LogLevel::Debug, LogLevel::Info, LogLevel::Warn, LogLevel::Error] {
        assert!(LogLevel::from_str(level.as_str()) == Some(level));
    }
    assert!(LogLevel::Debug.severity() < LogLevel::Info.severity());
    assert!(LogLevel::Warn.is_alarming() && LogLevel::Error.is_alarming());
    assert!(!LogLevel::Info.is_alarming());
}

#[test]
fn private_keys_are_hidden() {
    assert_eq!(
        sanitize_message("a POLYMARKET_PRIVATE_KEY=0xabc, b"),
        "a POLYMARKET_PRIVATE_KEY=***REDACTED***, b"
    );
    assert_eq!(sanitize_message("POLYMARKET_PRIVATE_KEY=0xabc"), "POLYMARKET_PRIVATE_KEY=***REDACTED***");
    assert_eq!(sanitize_message("POLYMARKET_PRIVATE_KEY="), "POLYMARKET_PRIVATE_KEY=***REDACTED***");
    assert_eq!(sanitize_message("POLYMARKET_PRIVATE_KEY 0x"), "POLYMARKET_PRIVATE_KEY 0x");
    assert_eq!(redact_assignment("x=1;x=2", "x"), "x=***REDACTED***;x=***REDACTED***");
    assert_eq!(
        sanitize_message("POLYMARKET_PRIVATE_KEY=a1 POLYMARKET_PRIVATE_KEY=b2"),
        "POLYMARKET_PRIVATE_KEY=***REDACTED*** POLYMARKET_PRIVATE_KEY=***REDACTED***"
    );
    assert_eq!(redact_assignment("x=x=1 x=", "x"), "x=***REDACTED*** x=***REDACTED***");
    assert_eq!(redact_assignment("x=1\u{2003}y", "x"), "x=***REDACTED***\u{2003}y");
    assert_eq!(redact_assignment("ıx=é", "x"), "ıx=***REDACTED***");
    let once = sanitize_message("a POLYMARKET_PRIVATE_KEY=0xabc, POLYMARKET_PRIVATE_KEY=");
    assert_eq!(sanitize_message(&once), once);
}

#[test]
fn csv_cells_are_quoted_where_needed() {
    assert_eq!(csv_escape("plain text"), "plain text");
    assert_eq!(csv_escape("a,b"), "\"a,b\"");
    assert_eq!(csv_escape("say \"x\""), "\"say \"\"x\"\"\"");
    assert_eq!(csv_escape("a\nb"), "\"a\nb\"");
    assert_eq!(csv_escape("a\rb"), "\"a\rb\"");
    assert_eq!(csv_escape(""), "");
}

#[test]
fn scoring_rows_follow_their_header() {
    assert_eq!(
        scoring_header(),
        "timestamp,session_id,order_id,token_id,market_slug,check_number,order_age_ms,request_latency_ms,state,in_grace,consecutive_false,consecutive_errors\n"
    );
    let record = ScoringLogRecord {
        order_id: "o,1",
        token_id: "t",
        market_slug: "m\"s",
        check_number: 7,
        order_age_ms: 340282366920938463463374607431768211455,
        request_latency_ms: 12,
        state: "NOT_SCORING",
        in_grace: true,
        consecutive_false: 0,
        consecutive_errors: 4294967295,
    };
    assert_eq!(
        scoring_row("2026-08-10T00:00:00.000Z", "S-1", &record),
        "2026-08-10T00:00:00.000Z,S-1,\"o,1\",t,\"m\"\"s\",7,340282366920938463463374607431768211455,12,NOT_SCORING,true,0,4294967295\n"
    );
}

#[test]
fn records_go_where_their_level_sends_them() {
    let log = logger(LogLevel::Info);
    assert!(!log.enabled(LogLevel::Debug));
    assert!(log.enabled(LogLevel::Info));
    let source = Source { file: "src/main.rs", line: 13 };
    assert!(log.write("T", LogLevel::Debug, 42, "main", "c", "e", "m", source, JsonValue::Null).is_none());
    let source = Source { file: "src/main.rs", line: 13 };
    let plan = log.write("T", LogLevel::Info, 42, "main", "c", "e", "two\nlines", source, JsonValue::Null).unwrap();
    assert_eq!(plan.message, "two\nlines");
    assert_eq!(plan.console.as_deref(), Some("[T] [INFO] [c:e] two\nlines"));
    assert_eq!(plan.text_line, "T\tINFO\tS-1\t42\tmain\tc\te\tsrc/main.rs:13\ttwo\\nlines\n");
    assert!(!plan.to_error_stream && !plan.to_json && !plan.to_errors && plan.flush);
    let source = Source { file: "f", line: 0 };
    let plan = log.write("T", LogLevel::Warn, 42, "main", "c", "e", "POLYMARKET_PRIVATE_KEY=x y", source, JsonValue::Null).unwrap();
    assert_eq!(plan.text_line, "T\tWARN\tS-1\t42\tmain\tc\te\tf:0\tPOLYMARKET_PRIVATE_KEY=***REDACTED*** y\n");
    assert!(plan.to_error_stream && plan.to_errors);
    let mut quiet = logger(LogLevel::Debug);
    quiet.config.console_enabled = false;
    quiet.config.json_enabled = true;
    quiet.config.flush_each_write = false;
    let source = Source { file: "f", line: 1 };
    let plan = quiet.write("T", LogLevel::Debug, 42, "main", "c", "e", "m", source, JsonValue::Null).unwrap();
    assert!(plan.console.is_none() && plan.to_json && !plan.flush);
    assert_eq!(console_line("T", LogLevel::Error, "c", "e", "m"), "[T] [ERROR] [c:e] m");
}

#[test]
fn files_change_with_the_date() {
    let mut log = logger(LogLevel::Info);
    assert!(!log.rotate_if_needed("2026-08-10"));
    assert!(log.rotate_if_needed("2026-08-11"));
    assert!(!log.rotate_if_needed("2026-08-11"));
    assert_eq!(log.date, "2026-08-11");
    let names = file_names("2026-08-11");
    assert_eq!(names.text, "polybot-2026-08-11.log");
    assert_eq!(names.json, "polybot-2026-08-11.jsonl");
    assert_eq!(names.errors, "polybot-errors-2026-08-11.jsonl");
    assert_eq!(names.scoring, "polybot-scoring-2026-08-11.csv");
}

#[test]
fn sessions_are_named_after_time_and_process() {
    let name = make_session_id("20260810T000000.123Z", 42);
    assert_eq!(name, "20260810T000000.123Z-pid42");
    let log = logger(LogLevel::Info);
    assert_eq!(session_id(Some(&log)).as_deref(), Some("S-1"));
    assert_eq!(session_id(None), None);
    assert_eq!(log_directory(Some(&log)).as_deref(), Some("logs"));
    assert_eq!(log_directory(None), None);
}

#[test]
fn old_files_of_the_logger_are_removed() {
    let day: u128 = 86_400_000_000_000;
    assert!(outdated("polybot-2026-01-01.log", true, 14 * day + 1, 14));
    assert!(!outdated("polybot-2026-01-01.log", true, 14 * day, 14));
    assert!(!outdated("polybot-2026-01-01.log", false, 15 * day, 14));
    assert!(!outdated("other.log", true, 15 * day, 14));
    assert!(!outdated("polybot-2026-01-01.log", true, u128::MAX, 0));
    assert!(outdated("polybot-x", true, u128::MAX, u64::MAX));
    assert!(!outdated("polybot-x", true, u64::MAX as u128 * 1_000_000_000, u64::MAX));
}

#[test]
fn records_are_lines_of_json_that_read_back() {
    let log = logger(LogLevel::Info);
    let fields = parse_json("{\"b\":[1,-2,0.5,null],\"a\":\"x\\ny\"}").unwrap();
    let source = Source { file: "src/main.rs", line: 13 };
    let plan = log.write("T", LogLevel::Info, 42, "main", "c", "e\"q", "two\nlines", source, fields).unwrap();
    let line = plan.json_line.unwrap();
    assert_eq!(
        line,
        "{\"component\":\"c\",\"event\":\"e\\\"q\",\"fields\":{\"a\":\"x\\ny\",\"b\":[1,-2,0.5,null]},\"level\":\"INFO\",\
         \"message\":\"two\\nlines\",\"pid\":42,\"session_id\":\"S-1\",\"source\":{\"file\":\"src/main.rs\",\"line\":13},\
         \"thread\":\"main\",\"timestamp\":\"T\"}"
    );
    assert!(!line.contains('\n'));
    let value = parse_json(&line).unwrap();
    assert!(matches!(value.get("message"), Some(JsonValue::Text(text)) if text == "two\nlines"));
    assert!(matches!(value.get("pid"), Some(JsonValue::Number(text)) if text == "42"));
    let place = value.get("source").unwrap();
    assert!(matches!(place.get("line"), Some(JsonValue::Number(text)) if text == "13"));
    assert!(matches!(value.get("fields").unwrap().get("a"), Some(JsonValue::Text(text)) if text == "x\ny"));
    assert_eq!(write_json(&value).unwrap(), line);
    assert!(write_json(&JsonValue::Number("1x".to_string())).is_none());
    assert!(read_number("1x").is_none());
}
