use agent::error_collector::{ErrorCollector, ErrorRecord};
use agent::json::Json;
use agent::tools::read_errors_tool::{
    format_age, format_timestamp, query_errors, render_report, ReadErrorsTool, ReadErrorsToolInput,
};
use agent::tools::ToolKind;

fn seed_errors(collector: &mut ErrorCollector) {
    collector.record(
        "undefined variable `x`".into(),
        "rust_analyzer".into(),
        Some("src/main.rs".into()),
        Some(42),
        Some(10),
    );
    collector.record(
        "missing semicolon".into(),
        "rust_analyzer".into(),
        Some("src/main.rs".into()),
        Some(15),
        None,
    );
    collector.record(
        "unused import `std::collections`".into(),
        "rust_analyzer".into(),
        Some("src/lib.rs".into()),
        Some(3),
        None,
    );
    collector.record("file not found".into(), "tool_error".into(), None, None, None);
}

#[test]
fn test_query_no_filters() {
    let mut collector = ErrorCollector::new();
    seed_errors(&mut collector);

    let input = ReadErrorsToolInput { path: None, source: None, limit: None };
    let result = query_errors(&input, &collector);
    assert!(result.contains("4 recorded error(s)"));
    assert!(result.contains("undefined variable"));
    assert!(result.contains("missing semicolon"));
    assert!(result.contains("file not found"));
}

#[test]
fn test_query_filter_by_path() {
    let mut collector = ErrorCollector::new();
    seed_errors(&mut collector);

    let input = ReadErrorsToolInput {
        path: Some("src/main.rs".into()),
        source: None,
        limit: None,
    };
    let result = query_errors(&input, &collector);
    assert!(result.contains("2 recorded error(s)"));
}

#[test]
fn test_query_filter_by_source() {
    let mut collector = ErrorCollector::new();
    seed_errors(&mut collector);

    let input = ReadErrorsToolInput {
        path: None,
        source: Some("tool_error".into()),
        limit: None,
    };
    let result = query_errors(&input, &collector);
    assert!(result.contains("1 recorded error(s)"));
    assert!(result.contains("file not found"));
}

#[test]
fn test_query_limit() {
    let mut collector = ErrorCollector::new();
    seed_errors(&mut collector);

    let input = ReadErrorsToolInput { path: None, source: None, limit: Some(2) };
    let result = query_errors(&input, &collector);
    assert!(result.contains("2 recorded error(s)"));
}

#[test]
fn test_query_empty() {
    let collector = ErrorCollector::new();

    let input = ReadErrorsToolInput { path: None, source: None, limit: None };
    let result = query_errors(&input, &collector);
    assert_eq!(result, "No recorded errors found.");
}

#[test]
fn the_default_limit_is_twenty() {
    let mut collector = ErrorCollector::new();
    for i in 0..25 {
        collector.record_at(format!("error {i}"), "t".into(), None, None, None, i);
    }
    let input = ReadErrorsToolInput { path: None, source: None, limit: None };
    let shown = input.select(collector.query());
    assert_eq!(shown.len(), 20);
    assert_eq!(shown[0].message, "error 24");
    assert_eq!(shown[19].message, "error 5");
    let none = ReadErrorsToolInput { path: None, source: None, limit: Some(0) };
    assert_eq!(query_errors(&none, &collector), "No recorded errors found.");
}

#[test]
fn both_filters_hold_together() {
    let mut collector = ErrorCollector::new();
    seed_errors(&mut collector);
    let input = ReadErrorsToolInput {
        path: Some("lib".into()),
        source: Some("analyzer".into()),
        limit: None,
    };
    let shown = input.select(collector.query());
    assert_eq!(shown.len(), 1);
    assert_eq!(shown[0].file, Some("src/lib.rs".to_string()));
    let nothing = ReadErrorsToolInput {
        path: Some("lib".into()),
        source: Some("tool_error".into()),
        limit: None,
    };
    assert!(nothing.select(collector.query()).is_empty());
}

#[test]
fn ages_are_told_in_their_largest_unit() {
    assert_eq!(format_age(100, 100), "0s ago");
    assert_eq!(format_age(100, 200), "0s ago");
    assert_eq!(format_age(159, 100), "59s ago");
    assert_eq!(format_age(160, 100), "1m ago");
    assert_eq!(format_age(3599, 0), "59m ago");
    assert_eq!(format_age(3600, 0), "1h ago");
    assert_eq!(format_age(86399, 0), "23h ago");
    assert_eq!(format_age(86400, 0), "1d ago");
    assert_eq!(format_age(u64::MAX, 0), "213503982334601d ago");
}

#[test]
fn a_timestamp_is_told_from_now() {
    let text = format_timestamp(0);
    let days: u64 = text.strip_suffix("d ago").unwrap().parse().unwrap();
    assert!(days > 18_000);
    assert_eq!(format_timestamp(u64::MAX), "0s ago");
}

#[test]
fn the_report_lays_out_each_record() {
    let mut first = ErrorRecord::first(
        "missing semicolon".into(),
        "rust_analyzer".into(),
        Some("src/main.rs".into()),
        Some(15),
        None,
        7,
    );
    first.count = 12;
    let second = ErrorRecord::first("odd".into(), "t".into(), Some("a".into()), None, None, 7);
    let third = ErrorRecord::first("file".into(), "tool_error".into(), None, Some(9), None, 7);
    let age = |a: &str, b: &str| (a.to_string(), b.to_string());
    let report = render_report(
        &vec![first, second, third],
        &vec![age("2h ago", "5s ago"), age("1d ago", "1d ago"), age("3m ago", "0s ago")],
    );
    assert_eq!(
        report,
        "Found 3 recorded error(s):\n\n\
         1. **missing semicolon** (occurred 12 time(s)) in `src/main.rs`:15\n   \
         Source: rust_analyzer | First seen: 2h ago | Last seen: 5s ago\n\n\
         2. **odd** (occurred 1 time(s)) in `a`\n   \
         Source: t | First seen: 1d ago | Last seen: 1d ago\n\n\
         3. **file** (occurred 1 time(s))\n   \
         Source: tool_error | First seen: 3m ago | Last seen: 0s ago\n\n"
    );
}

#[test]
fn the_tool_describes_itself() {
    let tool = ReadErrorsTool::new(());
    assert_eq!(ReadErrorsTool::NAME, "read_errors");
    assert_eq!(ReadErrorsTool::kind(), ToolKind::Read);
    let with_path = ReadErrorsToolInput { path: Some("a".into()), source: None, limit: None };
    assert_eq!(tool.initial_title(&Ok(with_path), "`a`"), "Check recorded errors for `a`");
    let without = ReadErrorsToolInput { path: None, source: None, limit: None };
    assert_eq!(tool.initial_title(&Ok(without), ""), "Check recorded errors");
    assert_eq!(tool.initial_title(&Err(Json::Null), ""), "Check recorded errors");
    assert_eq!(
        ReadErrorsTool::receive_failure("closed"),
        "Failed to receive tool input: closed"
    );
}
