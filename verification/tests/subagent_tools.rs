use agent::json::Json;
use agent::subagent_notifier::{is_notification_file, Notification};
use agent::tools::check_subagent_status_tool::{
    is_json_file, take_up_scanned, CheckSubagentStatusTool, CheckSubagentStatusToolInput,
    CheckSubagentStatusToolOutput, StatusEvent, StatusStep,
};
use agent::tools::spawn_agent_tool::{
    completion_text, SessionRequest, SpawnAgentTool, SpawnAgentToolInput, SpawnAgentToolOutput,
    SubagentSessionInfo,
};
use agent::tools::{native_file_name, ToolKind};

fn status_input(session_id: &str) -> CheckSubagentStatusToolInput {
    CheckSubagentStatusToolInput { session_id: session_id.into(), cd: "/work".into() }
}

fn succeeded(step: StatusStep) -> CheckSubagentStatusToolOutput {
    match step {
        StatusStep::Succeed(output) => output,
        other => panic!("unexpected step: {other:?}"),
    }
}

#[test]
fn a_check_of_all_scans_the_directory() {
    let input = status_input("check_all");
    assert!(matches!(input.advance(StatusEvent::Received), StatusStep::Scan));

    let mut found = Vec::new();
    assert!(take_up_scanned(&mut found, "{\"a\": 1}"));
    assert!(!take_up_scanned(&mut found, "not json"));
    assert!(take_up_scanned(&mut found, "[]"));
    let output = succeeded(input.advance(StatusEvent::Scanned(found)));
    assert_eq!(output.session_id, "check_all");
    assert_eq!(output.status, "notifications_found");
    assert_eq!(
        output.all_notifications,
        Some(vec![Json::parse("{\"a\": 1}").unwrap(), Json::array(vec![])])
    );

    let output = succeeded(input.advance(StatusEvent::Scanned(Vec::new())));
    assert_eq!(output.status, "no_notifications");
    assert_eq!(output.all_notifications, Some(vec![]));
}

#[test]
fn files_with_the_extension_are_scanned() {
    assert!(is_json_file("a.json"));
    assert!(is_json_file("a.native.json"));
    assert!(is_json_file("..json"));
    assert!(!is_json_file(".json"));
    assert!(!is_json_file("json"));
    assert!(!is_json_file("a.json5"));
    for name in ["a.json", "a.b.json", ".json", "..json", "json", "a.", "a.JSON", "ajson", "é.json"] {
        let expected = std::path::Path::new(name).extension().and_then(|e| e.to_str()) == Some("json");
        assert_eq!(is_json_file(name), expected);
    }
}

#[test]
fn a_notification_file_answers_before_claw_is_asked() {
    let input = status_input("s1");
    match input.advance(StatusEvent::Received) {
        StatusStep::ReadFile(name) => assert_eq!(name, "s1.native.json"),
        other => panic!("unexpected step: {other:?}"),
    }
    let content = "{\"status\": \"completed\", \"output\": \"o\", \"duration_ms\": 3, \"report\": {}}";
    let output = succeeded(input.advance(StatusEvent::FileRead(Some(content.into()))));
    assert_eq!(output.session_id, "s1");
    assert_eq!(output.status, "completed");
    assert_eq!(output.output, Some("o".into()));
    assert_eq!(output.error, None);
    assert_eq!(output.duration_ms, Some(3));
    assert_eq!(output.report, None);
    assert_eq!(output.all_notifications, None);
    let output = succeeded(input.advance(StatusEvent::FileRead(Some("{}".into()))));
    assert_eq!(output.status, "unknown");
}

#[test]
fn claw_is_asked_where_no_file_answers() {
    for event in [StatusEvent::FileRead(None), StatusEvent::FileRead(Some("{".into()))] {
        match status_input("s1").advance(event) {
            StatusStep::RunCommand { command, cd, output_byte_limit } => {
                assert_eq!(command, "claw subagent status s1 --output-format json");
                assert_eq!(cd, "/work");
                assert_eq!(output_byte_limit, 16 * 1024);
            }
            other => panic!("unexpected step: {other:?}"),
        }
    }
}

#[test]
fn the_output_of_claw_is_read_as_json_or_kept_as_text() {
    let input = status_input("s1");
    let text = "\n {\"status\": \"running\", \"report\": {\"task\": \"T\"}, \"error\": \"e\"} \n";
    let output = succeeded(input.advance(StatusEvent::CommandOutput(text.into())));
    assert_eq!(output.status, "running");
    assert_eq!(output.error, Some("e".into()));
    assert_eq!(output.output, None);
    assert_eq!(output.report, Json::parse("{\"task\": \"T\"}"));

    let output = succeeded(input.advance(StatusEvent::CommandOutput("  no such session\n".into())));
    assert_eq!(output.status, "unknown");
    assert_eq!(output.output, Some("no such session".into()));
    assert_eq!(output.report, None);
}

#[test]
fn failures_are_told_as_errors() {
    match status_input("s1").advance(StatusEvent::TerminalFailed("no terminal".into())) {
        StatusStep::Fail(output) => {
            assert_eq!(output.session_id, "s1");
            assert_eq!(output.status, "error");
            assert_eq!(output.error, Some("no terminal".into()));
            assert_eq!(output.output, None);
        }
        other => panic!("unexpected step: {other:?}"),
    }
    let output = CheckSubagentStatusToolOutput::receive_failure("closed");
    assert_eq!(output.session_id, "");
    assert_eq!(output.status, "error");
    assert_eq!(output.error, Some("Failed to receive tool input: closed".into()));
}

#[test]
fn the_status_is_shown_as_json() {
    let output = CheckSubagentStatusToolOutput {
        session_id: "s1".into(),
        status: "done".into(),
        output: Some("a\nb".into()),
        error: None,
        duration_ms: Some(7),
        report: Json::parse("{\"x\": 1.5}"),
        all_notifications: None,
    };
    assert_eq!(
        output.into_result_text(),
        "{\"session_id\":\"s1\",\"status\":\"done\",\"output\":\"a\\nb\",\"error\":null,\
         \"duration_ms\":7,\"report\":{\"x\":1.5},\"all_notifications\":null}"
    );
    let output = CheckSubagentStatusToolOutput::from_scan(vec![Json::UInt(1)]);
    assert_eq!(
        output.into_result_text(),
        "{\"session_id\":\"check_all\",\"status\":\"notifications_found\",\"output\":null,\
         \"error\":null,\"duration_ms\":null,\"report\":null,\"all_notifications\":[1]}"
    );
}

#[test]
fn the_status_tool_describes_itself() {
    let tool = CheckSubagentStatusTool::new(7);
    assert_eq!(tool.environment, 7);
    assert_eq!(CheckSubagentStatusTool::<i32>::NAME, "check_subagent_status");
    assert_eq!(CheckSubagentStatusTool::<i32>::kind(), ToolKind::Read);
    assert_eq!(tool.initial_title(&Ok(status_input("s1"))), "Check subagent s1");
    assert_eq!(tool.initial_title(&Err(Json::Null)), "Check subagent status");
}

fn spawn_input(session_id: Option<&str>) -> SpawnAgentToolInput {
    SpawnAgentToolInput {
        label: "Look".into(),
        message: "Look around".into(),
        session_id: session_id.map(|s| s.into()),
    }
}

#[test]
fn a_session_is_resumed_or_created() {
    match spawn_input(Some("s1")).session_request() {
        SessionRequest::Resume(id) => assert_eq!(id, "s1"),
        other => panic!("unexpected request: {other:?}"),
    }
    match spawn_input(None).session_request() {
        SessionRequest::Create(label) => assert_eq!(label, "Look"),
        other => panic!("unexpected request: {other:?}"),
    }
}

#[test]
fn a_dispatched_subagent_is_told_by_its_session() {
    match SpawnAgentToolOutput::dispatched("s1".into()) {
        SpawnAgentToolOutput::Success { session_id, output, session_info } => {
            assert_eq!(session_id, "s1");
            assert_eq!(
                output,
                "Subagent dispatched. session_id=s1\n\
                 The subagent is running in the background. \
                 Use `check_subagent_status` with this session_id \
                 to retrieve results when ready."
            );
            assert_eq!(session_info.session_id, "s1");
            assert_eq!(session_info.message_start_index, 0);
            assert_eq!(session_info.message_end_index, None);
        }
        other => panic!("unexpected output: {other:?}"),
    }
}

#[test]
fn the_model_sees_no_session_info() {
    let info = |start: usize| SubagentSessionInfo {
        session_id: "s1".into(),
        message_start_index: start,
        message_end_index: Some(9),
    };
    let success = |start: usize| SpawnAgentToolOutput::Success {
        session_id: "s1".into(),
        output: "done".into(),
        session_info: info(start),
    };
    assert_eq!(success(1).into_result_text(), "{\"session_id\":\"s1\",\"output\":\"done\"}");
    assert_eq!(success(1).into_result_text(), success(2).into_result_text());
    assert_eq!(
        SpawnAgentToolOutput::receive_failure("closed").into_result_text(),
        "{\"session_id\":null,\"error\":\"Failed to receive tool input: closed\"}"
    );
    let error = SpawnAgentToolOutput::Error {
        session_id: Some("s1".into()),
        error: "e".into(),
        session_info: Some(info(1)),
    };
    assert_eq!(error.into_result_text(), "{\"session_id\":\"s1\",\"error\":\"e\"}");
}

#[test]
fn a_replay_shows_the_output_or_the_error() {
    let replay = SpawnAgentToolOutput::dispatched("s1".into()).into_replay();
    assert!(replay.content.starts_with("Subagent dispatched."));
    assert_eq!(replay.session_info.unwrap().session_id, "s1");
    let replay = SpawnAgentToolOutput::failed("e".into()).into_replay();
    assert_eq!(replay.content, "e");
    assert!(replay.session_info.is_none());
}

#[test]
fn a_completion_is_written_as_indented_json() {
    assert_eq!(
        completion_text("s1".into(), Ok("hi".into()), 5, 6),
        "{\n  \"session_id\": \"s1\",\n  \"status\": \"completed\",\n  \"duration_ms\": 5,\n  \
         \"completed_at_ms\": 6,\n  \"source\": \"zed_native\",\n  \"output\": \"hi\",\n  \
         \"error\": null\n}"
    );
}

#[test]
fn a_completion_is_read_back_and_injected() {
    let name = native_file_name("s1");
    assert_eq!(name, "s1.native.json");
    assert!(is_notification_file(&name) && is_json_file(&name));

    let text = completion_text("s1".into(), Ok("hi".into()), 1500, 6);
    let output = succeeded(status_input("s1").advance(StatusEvent::FileRead(Some(text.clone()))));
    assert_eq!(output.status, "completed");
    assert_eq!(output.output, Some("hi".into()));
    assert_eq!(output.error, None);
    assert_eq!(output.duration_ms, Some(1500));
    let message = Notification::take_up(Some(text.as_str()), None)
        .unwrap()
        .format_as_agent_message();
    assert!(message.starts_with("## zed_native Subagent Completed\n\n**Session**: `s1`"));
    assert!(message.contains("**Duration**: 1.5s"));
    assert!(message.contains("hi"));

    let text = completion_text("s1".into(), Err("boom".into()), u64::MAX as u128, 6);
    let output = succeeded(status_input("s1").advance(StatusEvent::FileRead(Some(text))));
    assert_eq!(output.status, "error");
    assert_eq!(output.output, None);
    assert_eq!(output.error, Some("boom".into()));
    assert_eq!(output.duration_ms, Some(u64::MAX));
}

#[test]
fn the_spawn_tool_describes_itself() {
    let tool = SpawnAgentTool::new("environment");
    assert_eq!(tool.environment, "environment");
    assert_eq!(SpawnAgentTool::<&str>::NAME, "spawn_agent");
    assert_eq!(SpawnAgentTool::<&str>::kind(), ToolKind::Other);
    assert_eq!(tool.initial_title(&Ok(spawn_input(None))), "Spawn subagent: Look");
    assert_eq!(tool.initial_title(&Err(Json::parse("{\"label\": \"L\"}").unwrap())), "L");
    assert_eq!(tool.initial_title(&Err(Json::parse("{\"label\": 1}").unwrap())), "Spawning agent");
}

#[test]
fn the_status_text_holds_the_whole_output() {
    let output = || CheckSubagentStatusToolOutput {
        session_id: "s1".into(),
        status: "done".into(),
        output: None,
        error: Some("e".into()),
        duration_ms: Some(u64::MAX),
        report: Json::parse("{\"n\": [-1, {}], \"x\": null}"),
        all_notifications: Some(vec![Json::Null, Json::Int(-7)]),
    };
    let json = Json::parse(&output().into_result_text()).unwrap();
    assert_eq!(json, output().into_json());
    assert_eq!(json.str_at("session_id"), Some("s1"));
    assert_eq!(json.str_at("status"), Some("done"));
    assert_eq!(json.get("output"), Some(&Json::Null));
    assert_eq!(json.str_at("error"), Some("e"));
    assert_eq!(json.u64_at("duration_ms"), Some(u64::MAX));
    assert_eq!(json.get("report"), output().report.as_ref());
    assert_eq!(
        json.get("all_notifications"),
        Some(&Json::array(vec![Json::Null, Json::Int(-7)]))
    );
}

#[test]
fn a_scan_finds_each_value_as_often_as_it_is_there() {
    let contents = ["1", "{", "1", "2", ""];
    let mut found = Vec::new();
    let left: Vec<&str> = contents
        .into_iter()
        .filter(|content| !take_up_scanned(&mut found, content))
        .collect();
    assert_eq!(found, vec![Json::UInt(1), Json::UInt(1), Json::UInt(2)]);
    assert_eq!(left, vec!["{", ""]);

    let mut again = Vec::new();
    for content in left {
        assert!(!take_up_scanned(&mut again, content));
    }
    assert!(again.is_empty());
}
