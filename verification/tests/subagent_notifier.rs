use agent::json::Json;
use agent::subagent_notifier::{
    is_notification_file, notifications_dir, select_batch, NativeNotification, Notification,
    NotificationFile, PollCycle, SubagentNotification, MAX_NOTIFICATIONS_PER_CYCLE,
};

const TAIL: &str = "*(Use `check_subagent_status` with the session_id for full details)*";

fn claw(report: Option<&str>, duration_ms: Option<u64>, error: Option<&str>) -> SubagentNotification {
    SubagentNotification {
        session_id: "s1".into(),
        status: "done".into(),
        duration_ms,
        completed_at_ms: Some(u128::MAX),
        report: report.map(|text| Json::parse(text).unwrap()),
        error: error.map(|e| e.to_string()),
    }
}

fn names(list: &[&str]) -> Vec<String> {
    list.iter().map(|n| n.to_string()).collect()
}

#[test]
fn the_directory_lies_in_the_home() {
    let tail = names(&[".claw", "sessions", "notifications"]);
    let dir = |base: &str| [vec![base.to_string()], tail.clone()].concat();
    assert_eq!(notifications_dir(Some("/home/a".into()), Some("C:\\a".into())), dir("/home/a"));
    assert_eq!(notifications_dir(None, Some("C:\\a".into())), dir("C:\\a"));
    assert_eq!(notifications_dir(None, None), dir("."));
}

#[test]
fn notification_files_are_told_by_their_suffix() {
    assert!(is_notification_file("1.notification.json"));
    assert!(is_notification_file("s1.native.json"));
    assert!(is_notification_file(".native.json"));
    assert!(!is_notification_file("s1.json"));
    assert!(!is_notification_file("s1.native.json.tmp"));
}

#[test]
fn a_batch_is_the_first_notifications_by_name() {
    let batch = select_batch(names(&[
        "4.native.json",
        "2.notification.json",
        "0.txt",
        "3.native.json",
        "1.json",
        "1.native.json",
    ]));
    assert_eq!(batch, names(&["1.native.json", "2.notification.json", "3.native.json"]));
    assert_eq!(batch.len(), MAX_NOTIFICATIONS_PER_CYCLE);
    assert_eq!(
        select_batch(names(&["b.native.json", "a.native.json"])),
        names(&["a.native.json", "b.native.json"])
    );
    assert!(select_batch(names(&["a.txt"])).is_empty());
    assert!(select_batch(Vec::new()).is_empty());
}

#[test]
fn a_claw_notification_without_report_names_its_session() {
    assert_eq!(
        claw(None, None, None).format_as_agent_message(),
        format!("## Subagent Task Completed\n\n**Session**: `s1`\n**Status**: `done`\n\n{TAIL}")
    );
    assert_eq!(
        claw(None, Some(2500), Some("boom")).format_as_agent_message(),
        format!(
            "## Subagent Task Completed\n\n**Session**: `s1`\n**Status**: `done`\n\
             **Duration**: 2.5s\n**Error**: boom\n\n{TAIL}"
        )
    );
}

#[test]
fn a_claw_notification_with_report_tells_its_parts() {
    let report = "{\"task\": \"T\", \"summary\": \"S\", \"key_findings\": \"K\", \"raw_output\": \"R\"}";
    assert_eq!(
        claw(Some(report), Some(1000), Some("")).format_as_agent_message(),
        format!(
            "## Subagent Task Completed\n\n**Task**: T\n\n**Summary**: S\n\n\
             **Key Findings**: K\n\n**Raw Output**:\n```\nR\n```\n\n**Duration**: 1s\n\n{TAIL}"
        )
    );
    assert_eq!(
        claw(Some("{\"task\": 1, \"raw_output\": \"\"}"), None, None).format_as_agent_message(),
        format!("## Subagent Task Completed\n\n\n{TAIL}")
    );
}

#[test]
fn the_duration_can_be_given_as_text() {
    let ms: u64 = 12_345_678_901_234_567_890;
    let text = format!("{}", ms as f64 / 1000.0);
    assert!(claw(None, Some(ms), None)
        .format_with_seconds(&text)
        .contains(&format!("**Duration**: {text}s\n")));
    assert!(!claw(None, None, None).format_with_seconds("7").contains("Duration"));
}

#[test]
fn a_native_notification_tells_what_its_file_holds() {
    let json = Json::parse(
        "{\"session_id\": \"s2\", \"status\": \"completed\", \"duration_ms\": 1234, \
         \"source\": \"zed_native\", \"output\": \"hi\", \"error\": null}",
    )
    .unwrap();
    assert_eq!(
        NativeNotification::from_json(&json).format_as_agent_message(),
        format!(
            "## zed_native Subagent Completed\n\n**Session**: `s2`\n**Status**: `completed`\n\
             **Duration**: 1.234s\n\n**Output**:\n```\nhi\n```\n\n{TAIL}"
        )
    );
    assert_eq!(
        NativeNotification::from_json(&Json::parse("{\"error\": \"e\", \"output\": \"\"}").unwrap())
            .format_as_agent_message(),
        format!(
            "## unknown Subagent Completed\n\n**Session**: `unknown`\n**Status**: `unknown`\n\
             **Duration**: 0s\n\n**Error**: e\n\n{TAIL}"
        )
    );
}

#[test]
fn a_file_with_an_output_is_a_native_notification() {
    let text = "{\"source\": \"claw\", \"output\": null, \"duration_ms\": 10}";
    let taken = Notification::take_up(Some(text), Some(claw(None, None, None))).unwrap();
    assert_eq!(taken.duration_ms(), Some(10));
    assert!(taken.format_as_agent_message().starts_with("## claw Subagent Completed"));

    let text = "{\"source\": \"other\"}";
    let taken = Notification::take_up(Some(text), None).unwrap();
    assert!(taken.format_as_agent_message().starts_with("## other Subagent Completed"));
}

#[test]
fn a_file_without_output_is_a_claw_notification() {
    let text = "{\"session_id\":\"s1\",\"status\":\"completed\",\"report\":{\"summary\":\"done\"}}";
    let read = claw(Some("{\"summary\":\"done\"}"), None, None);
    let taken = Notification::take_up(Some(text), Some(read)).unwrap();
    assert_eq!(
        taken.format_as_agent_message(),
        format!("## Subagent Task Completed\n\n**Summary**: done\n\n\n{TAIL}")
    );

    let fallback = Notification::take_up(Some("{"), Some(claw(None, Some(3), None))).unwrap();
    assert_eq!(fallback.duration_ms(), Some(3));
    assert!(fallback.format_as_agent_message().starts_with("## Subagent Task Completed"));
    assert!(fallback.format_with_seconds("9").contains("**Duration**: 9s"));

    assert!(Notification::take_up(Some("{"), None).is_none());
    assert!(Notification::take_up(None, Some(claw(None, None, None))).is_none());
}

#[test]
fn a_cycle_takes_up_what_can_be_read() {
    let file = |name: &str, content: Option<&str>| NotificationFile {
        name: name.into(),
        content: content.map(|c| c.into()),
        claw: None,
    };
    let cycle = PollCycle::of(vec![
        file("1.native.json", Some("{\"source\": \"a\"}")),
        file("2.native.json", None),
        file("3.native.json", Some("{\"source\": \"b\"}")),
    ]);
    let taken: Vec<&str> = cycle.taken.iter().map(|t| t.0.as_str()).collect();
    assert_eq!(taken, vec!["1.native.json", "3.native.json"]);
    assert!(cycle.taken[1].1.format_as_agent_message().starts_with("## b Subagent Completed"));
    assert!(cycle.notify);

    let cycle = PollCycle::of(vec![file("1.native.json", Some("{"))]);
    assert!(cycle.taken.is_empty() && !cycle.notify);
    assert!(!PollCycle::of(Vec::new()).notify);
}

#[test]
fn what_a_cycle_leaves_comes_in_the_next() {
    let mut files: Vec<String> = (0..8).rev().map(|i| format!("{i}.native.json")).collect();
    files.push("other.json".into());
    let mut taken: Vec<String> = Vec::new();
    for expected in [3, 3, 2, 0] {
        let batch = select_batch(files.clone());
        assert_eq!(batch.len(), expected);
        for name in batch {
            files.retain(|f| *f != name);
            taken.push(name);
        }
    }
    let expected: Vec<String> = (0..8).map(|i| format!("{i}.native.json")).collect();
    assert_eq!(taken, expected);
    assert_eq!(files, vec!["other.json".to_string()]);
}
