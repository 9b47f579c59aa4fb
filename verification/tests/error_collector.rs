use std::collections::hash_map::DefaultHasher;
use std::hash::{Hash, Hasher};

use agent::error_collector::{
    message_key, tool_error_key, ErrorCollector, ErrorRecord, Row,
};
use agent::json::{Json, MAX_DEPTH};

fn record(
    collector: &mut ErrorCollector,
    message: &str,
    source: &str,
    file: Option<&str>,
    line: Option<u32>,
    column: Option<u32>,
) {
    collector.record(
        message.to_string(),
        source.to_string(),
        file.map(|f| f.to_string()),
        line,
        column,
    );
}

fn record_at(collector: &mut ErrorCollector, message: &str, now: u64) {
    collector.record_at(message.to_string(), "src".to_string(), None, None, None, now);
}

#[test]
fn test_record_and_query() {
    let mut collector = ErrorCollector::new();
    record(
        &mut collector,
        "undefined variable x",
        "rust_analyzer",
        Some("src/main.rs"),
        Some(42),
        Some(10),
    );

    let errors = collector.query();
    assert_eq!(errors.len(), 1);
    assert_eq!(errors[0].message, "undefined variable x");
    assert_eq!(errors[0].count, 1);
}

#[test]
fn test_dedup_same_error() {
    let mut collector = ErrorCollector::new();
    record(&mut collector, "x", "src", Some("a.rs"), Some(1), None);
    record(&mut collector, "x", "src", Some("a.rs"), Some(1), None);

    let errors = collector.query();
    assert_eq!(errors.len(), 1);
    assert_eq!(errors[0].count, 2);
}

#[test]
fn test_different_errors() {
    let mut collector = ErrorCollector::new();
    record(&mut collector, "a", "t", Some("a.rs"), Some(1), None);
    record(&mut collector, "b", "t", Some("b.rs"), Some(2), None);

    assert_eq!(collector.query().len(), 2);
}

#[test]
fn test_clear() {
    let mut collector = ErrorCollector::new();
    record(&mut collector, "t", "t", None, None, None);
    collector.clear();
    assert!(collector.query().is_empty());
}

#[test]
fn record_takes_the_time_of_the_call() {
    let before = std::time::SystemTime::now()
        .duration_since(std::time::UNIX_EPOCH)
        .unwrap()
        .as_secs();
    let mut collector = ErrorCollector::new();
    record(&mut collector, "t", "t", None, None, None);
    let after = std::time::SystemTime::now()
        .duration_since(std::time::UNIX_EPOCH)
        .unwrap()
        .as_secs();
    let errors = collector.query();
    assert!(before <= errors[0].first_seen && errors[0].first_seen <= after);
    assert_eq!(errors[0].first_seen, errors[0].last_seen);
}

#[test]
fn the_key_is_the_hash_of_source_file_line_and_message() {
    let mut hasher = DefaultHasher::new();
    "src".hash(&mut hasher);
    Some("a.rs").hash(&mut hasher);
    Some(7u32).hash(&mut hasher);
    "message".hash(&mut hasher);
    assert_eq!(
        message_key("message", "src", Some("a.rs"), Some(7)),
        format!("{:016x}", hasher.finish())
    );

    let mut hasher = DefaultHasher::new();
    "src".hash(&mut hasher);
    None::<&str>.hash(&mut hasher);
    None::<u32>.hash(&mut hasher);
    "message".hash(&mut hasher);
    assert_eq!(
        message_key("message", "src", None, None),
        format!("{:016x}", hasher.finish())
    );
}

#[test]
fn each_part_of_an_error_tells_it_apart() {
    let key = message_key("m", "s", Some("f"), Some(1));
    assert_ne!(key, message_key("n", "s", Some("f"), Some(1)));
    assert_ne!(key, message_key("m", "t", Some("f"), Some(1)));
    assert_ne!(key, message_key("m", "s", Some("g"), Some(1)));
    assert_ne!(key, message_key("m", "s", None, Some(1)));
    assert_ne!(key, message_key("m", "s", Some("f"), Some(2)));
    assert_ne!(key, message_key("m", "s", Some("f"), None));
    assert_eq!(key.len(), 16);
}

#[test]
fn a_tool_error_is_told_apart_by_the_first_two_hundred_characters() {
    for c in ["a", "é"] {
        let long = c.repeat(200);
        let longer = c.repeat(201);
        let other = format!("{}b", c.repeat(199));
        assert_eq!(tool_error_key("tool", &long), tool_error_key("tool", &longer));
        assert_ne!(tool_error_key("tool", &long), tool_error_key("tool", &other));
        assert_ne!(tool_error_key("tool", &long), tool_error_key("tool", &c.repeat(199)));
        assert_ne!(tool_error_key("tool", &long), tool_error_key("tools", &long));

        let mut hasher = DefaultHasher::new();
        "tool".hash(&mut hasher);
        long.hash(&mut hasher);
        assert_eq!(
            tool_error_key("tool", &longer),
            format!("tool:{:016x}", hasher.finish())
        );
    }
}

#[test]
fn a_tool_error_with_wide_characters_is_recorded_whole() {
    let mut collector = ErrorCollector::new();
    let message = format!("{}é", "a".repeat(199));
    collector.record_tool_error(message.clone(), "grep".into(), None, None);
    let errors = collector.query();
    assert_eq!(errors.len(), 1);
    assert_eq!(errors[0].message, message);
    assert_eq!(errors[0].count, 1);
}

#[test]
fn tool_errors_that_differ_within_two_hundred_characters_are_two() {
    let mut collector = ErrorCollector::new();
    for end in ["x", "y"] {
        let message = format!("{}{}", "é".repeat(100), end);
        collector.record_tool_error(message, "grep".into(), None, None);
    }
    let counts: Vec<u64> = collector.query().iter().map(|r| r.count).collect();
    assert_eq!(counts, vec![1, 1]);
}

#[test]
fn tool_errors_that_differ_later_are_one() {
    let mut collector = ErrorCollector::new();
    for end in ["x", "y"] {
        let message = format!("{}{}", "é".repeat(200), end);
        collector.record_tool_error(message, "grep".into(), None, None);
    }
    let errors = collector.query();
    assert_eq!(errors.len(), 1);
    assert_eq!(errors[0].count, 2);
    assert_eq!(errors[0].message, format!("{}x", "é".repeat(200)));
}

#[test]
fn a_repeated_error_keeps_its_first_observation() {
    let mut collector = ErrorCollector::new();
    collector.record_at("x".into(), "src".into(), Some("a.rs".into()), Some(1), Some(3), 10);
    collector.record_at("x".into(), "src".into(), Some("a.rs".into()), Some(1), Some(9), 25);

    let errors = collector.query();
    assert_eq!(errors.len(), 1);
    assert_eq!(errors[0].first_seen, 10);
    assert_eq!(errors[0].last_seen, 25);
    assert_eq!(errors[0].column, Some(3));
    assert_eq!(errors[0].count, 2);
}

#[test]
fn a_query_gives_the_error_seen_last_first() {
    let mut collector = ErrorCollector::new();
    record_at(&mut collector, "a", 1);
    record_at(&mut collector, "b", 2);
    record_at(&mut collector, "c", 3);
    record_at(&mut collector, "a", 4);

    let errors = collector.query();
    let messages: Vec<&str> = errors.iter().map(|e| e.message.as_str()).collect();
    assert_eq!(messages, vec!["a", "c", "b"]);
    let times: Vec<u64> = errors.iter().map(|e| e.last_seen).collect();
    assert_eq!(times, vec![4, 3, 2]);
}

#[test]
fn a_tool_error_keeps_the_latest_input_and_output() {
    let mut collector = ErrorCollector::new();
    collector.record_tool_error_at(
        "failed".into(),
        "terminal".into(),
        Some(Json::UInt(1)),
        Some(Json::Str("one".into())),
        5,
    );
    collector.record_tool_error_at(
        "failed".into(),
        "terminal".into(),
        None,
        Some(Json::Str("two".into())),
        6,
    );

    let errors = collector.query();
    assert_eq!(errors.len(), 1);
    assert_eq!(errors[0].source, "tool_error");
    assert_eq!(errors[0].tool, Some("terminal".to_string()));
    assert_eq!(errors[0].count, 2);
    assert_eq!(errors[0].tool_input, Some(Json::UInt(1)));
    assert_eq!(errors[0].tool_output, Some(Json::Str("two".into())));
    assert_eq!(errors[0].file, None);
    assert_eq!((errors[0].first_seen, errors[0].last_seen), (5, 6));
}

#[test]
fn a_tool_error_is_recorded_now() {
    let mut collector = ErrorCollector::new();
    collector.record_tool_error("failed".into(), "terminal".into(), None, None);
    collector.record_tool_error("failed".into(), "terminal".into(), Some(Json::Null), None);
    let errors = collector.query();
    assert_eq!(errors.len(), 1);
    assert_eq!(errors[0].count, 2);
    assert_eq!(errors[0].tool_input, None);
}

#[test]
fn rows_that_hold_no_record_are_skipped_and_overwritten() {
    let key = message_key("x", "src", None, None);
    let mut collector = ErrorCollector::from_rows(vec![
        Row { key: "other".into(), record: None },
        Row { key: key.clone(), record: None },
    ]);
    assert!(collector.query().is_empty());
    record_at(&mut collector, "x", 8);
    let errors = collector.query();
    assert_eq!(errors.len(), 1);
    assert_eq!(errors[0].count, 1);
    assert_eq!(collector.rows().len(), 2);
    assert_eq!(collector.rows()[1].key, key);
}

#[test]
fn a_row_replaces_the_row_of_its_key() {
    let record = |count: u64| {
        let mut r = ErrorRecord::first("m".into(), "s".into(), None, None, None, 1);
        r.count = count;
        Some(r)
    };
    let collector = ErrorCollector::from_rows(vec![
        Row { key: "k".into(), record: record(1) },
        Row { key: "l".into(), record: record(2) },
        Row { key: "k".into(), record: record(3) },
    ]);
    let counts: Vec<u64> = collector.query().iter().map(|r| r.count).collect();
    assert_eq!(counts, vec![3, 2]);
    assert_eq!(collector.rows().len(), 2);
}

#[test]
fn an_error_that_cannot_be_counted_again_is_left() {
    let full = |key: String| {
        let mut record = ErrorRecord::first("m".into(), "s".into(), None, None, None, 1);
        record.count = u64::MAX;
        Row { key, record: Some(record) }
    };
    let mut collector = ErrorCollector::from_rows(vec![
        full(message_key("m", "s", None, None)),
        full(tool_error_key("tool", "m")),
    ]);
    assert!(!collector.try_record("m".into(), "s".into(), None, None, None));
    assert!(!collector.try_record_tool_error("m".into(), "tool".into(), None, None));
    assert!(collector.query().iter().all(|r| r.count == u64::MAX && r.last_seen == 1));
    assert!(collector.try_record("n".into(), "s".into(), None, None, None));
    assert!(collector.try_record("n".into(), "s".into(), None, None, None));
    assert!(collector.try_record_tool_error("n".into(), "tool".into(), None, None));
    let counts: Vec<u64> = collector.query().iter().map(|r| r.count).collect();
    assert_eq!(counts, vec![1, 2, u64::MAX, u64::MAX]);
}

#[test]
fn a_query_is_sorted_even_where_the_clock_ran_backwards() {
    let mut collector = ErrorCollector::new();
    record_at(&mut collector, "a", 5);
    record_at(&mut collector, "b", 9);
    record_at(&mut collector, "c", 5);
    record_at(&mut collector, "d", 1);
    record_at(&mut collector, "e", 9);
    let errors = collector.query();
    let messages: Vec<&str> = errors.iter().map(|e| e.message.as_str()).collect();
    assert_eq!(messages, vec!["e", "b", "c", "a", "d"]);
}

#[test]
fn every_observation_is_counted_once() {
    let mut collector = ErrorCollector::new();
    for (n, message) in ["a", "b", "a", "c", "b", "a"].into_iter().enumerate() {
        record_at(&mut collector, message, n as u64);
        collector.record_tool_error_at("failed".into(), message.into(), None, None, n as u64);
        let counted: u64 = collector.query().iter().map(|r| r.count).sum();
        assert_eq!(counted, 2 * (n as u64 + 1));
    }
    assert_eq!(collector.rows().len(), 6);
}

fn tool_error(collector: &mut ErrorCollector, input: Option<Json>, now: u64) {
    collector.record_tool_error_at("failed".into(), "grep".into(), input, None, now);
}

#[test]
fn a_null_input_takes_the_place_of_the_one_before_and_is_read_as_none() {
    let mut collector = ErrorCollector::new();
    tool_error(&mut collector, Some(Json::Null), 1);
    assert_eq!(collector.query()[0].tool_input, None);
    tool_error(&mut collector, Some(Json::UInt(7)), 2);
    tool_error(&mut collector, None, 3);
    assert_eq!(collector.query()[0].tool_input, Some(Json::UInt(7)));
    tool_error(&mut collector, Some(Json::Null), 4);
    assert_eq!(collector.query()[0].tool_input, None);
    assert_eq!(collector.query()[0].count, 4);

    let (key, record) = collector.tool_error_to_write(
        "failed".into(),
        "grep".into(),
        Some(Json::Null),
        None,
        5,
    );
    assert_eq!(key, tool_error_key("grep", "failed"));
    assert_eq!(record.tool_input, Some(Json::Null));
    assert_eq!(record.count, 5);
}

#[test]
fn a_record_that_is_nested_too_deep_is_not_read() {
    let nested = |depth: u64| {
        let mut value = Json::UInt(1);
        for _ in 0..depth {
            value = Json::array(vec![value]);
        }
        value
    };
    let mut collector = ErrorCollector::new();
    tool_error(&mut collector, Some(nested(MAX_DEPTH - 1)), 1);
    assert_eq!(collector.query()[0].tool_input, Some(nested(MAX_DEPTH - 1)));
    tool_error(&mut collector, Some(nested(MAX_DEPTH)), 2);
    assert!(collector.query().is_empty());
    assert_eq!(collector.rows().len(), 1);
    tool_error(&mut collector, None, 3);
    assert_eq!(collector.query()[0].count, 1);
    assert_eq!(collector.query()[0].first_seen, 3);
}

#[test]
fn a_float_is_what_its_text_is_read_as() {
    let float = Json::parse("[0.1, -1e-7, 123456.789]").unwrap();
    let mut collector = ErrorCollector::new();
    tool_error(&mut collector, Some(float.clone()), 1);
    let expected: serde_json::Value = serde_json::from_str(&float.to_text()).unwrap();
    assert_eq!(collector.query()[0].tool_input, Some(Json::from_value(expected)));
}

#[test]
fn keys_are_hexadecimal_digits_and_never_shared() {
    let is_digits = |text: &str| {
        text.len() == 16 && text.chars().all(|c| "0123456789abcdef".contains(c))
    };
    for message in ["", "a", "é", "a longer message"] {
        let error = message_key(message, "tool", None, None);
        let tool = tool_error_key("tool", message);
        assert!(is_digits(&error));
        assert!(is_digits(tool.strip_prefix("tool:").unwrap()));
        assert_ne!(error, tool);
    }
}

#[test]
fn the_record_of_an_error_is_the_one_to_write() {
    let mut collector = ErrorCollector::new();
    record_at(&mut collector, "a", 5);
    let key = message_key("a", "src", None, None);
    assert!(collector.can_count(&key) && collector.can_count("other"));
    let (written_key, record) =
        collector.error_to_write("a".into(), "src".into(), None, None, Some(4), 9);
    assert_eq!(written_key, key);
    assert_eq!((record.count, record.first_seen, record.last_seen), (2, 5, 9));
    assert_eq!(record.column, None);
    assert_eq!(collector.query()[0].count, 1);
}
