//! The `spawn_agent` tool: subagents that run in the background and leave a notification.
use vstd::prelude::*;
use vstd::string::*;

use crate::json::{
    distinct, fields_view, json_parse, json_pretty_text, json_text, lemma_position, str_or_null,
    Json, JsonObject, JsonView, MAX_DEPTH,
};
use crate::subagent_notifier::{
    is_notification, taken_up, NativeNotificationView, NotificationView, SubagentNotification,
};
use crate::text::{contains, law_contains, optional};
use crate::tools::check_subagent_status_tool::{
    has_json_extension, next_step, StatusEvent, StatusView, StepView,
};
use crate::tools::{native_name, ToolKind};

verus! {

/// Spawn a sub-agent for a well-scoped task.
///
/// ### Designing delegated subtasks
/// - An agent does not see your conversation history. Include all relevant context (file paths, requirements, constraints) in the message.
/// - Subtasks must be concrete, well-defined, and self-contained.
/// - Delegated subtasks must materially advance the main task.
/// - Do not duplicate work between your work and delegated subtasks.
/// - Do not use this tool for tasks you could accomplish directly with one or two tool calls.
/// - When sending a follow-up using an existing agent session_id, the agent already has the context from the previous turn. Send only a short, direct message. Do NOT repeat the original task or context.
///
/// ### Output
/// - You will receive only the agent's final message as output.
/// - Successful calls return a session_id that you can use for follow-up messages.
/// - Error results may also include a session_id if a session was already created.
#[derive(Debug)]
pub struct SpawnAgentToolInput {
    /// Short label displayed in the UI while the agent runs (e.g., "Researching alternatives")
    pub label: String,
    /// The prompt for the agent. For new sessions, include full context needed for the task. For follow-ups (with session_id), you can rely on the agent already having the previous message.
    pub message: String,
    /// Session ID of an existing agent session to continue instead of creating a new one.
    pub session_id: Option<String>,
}

/// Which messages of a subagent's session belong to a call.
#[derive(Debug)]
pub struct SubagentSessionInfo {
    pub session_id: String,
    pub message_start_index: usize,
    pub message_end_index: Option<usize>,
}

#[derive(Debug)]
pub enum SpawnAgentToolOutput {
    Success { session_id: String, output: String, session_info: SubagentSessionInfo },
    Error { session_id: Option<String>, error: String, session_info: Option<SubagentSessionInfo> },
}

/// The session in which to run a subagent.
#[derive(Debug)]
pub enum SessionRequest {
    /// Resume the session with this id.
    Resume(String),
    /// Create a session with this label.
    Create(String),
}

/// What is shown of a call that is replayed.
#[derive(Debug)]
pub struct Replay {
    pub content: String,
    pub session_info: Option<SubagentSessionInfo>,
}

/// The text that tells that a subagent was dispatched.
pub open spec fn dispatched_text(session_id: Seq<char>) -> Seq<char> {
    "Subagent dispatched. session_id="@ + session_id
        + "\nThe subagent is running in the background. Use `check_subagent_status` with this session_id to retrieve results when ready."@
}

/// The status of a subagent that has ended.
pub open spec fn end_status(result: Result<Seq<char>, Seq<char>>) -> Seq<char> {
    match result {
        Ok(_) => "completed"@,
        Err(_) => "error"@,
    }
}

/// The output of a subagent that has succeeded.
pub open spec fn end_output(result: Result<Seq<char>, Seq<char>>) -> Option<Seq<char>> {
    match result {
        Ok(output) => Some(output),
        Err(_) => None,
    }
}

/// The error of a subagent that has failed.
pub open spec fn end_error(result: Result<Seq<char>, Seq<char>>) -> Option<Seq<char>> {
    match result {
        Ok(_) => None,
        Err(error) => Some(error),
    }
}

/// What the result of a subagent holds.
pub open spec fn result_view(result: Result<String, String>) -> Result<Seq<char>, Seq<char>> {
    match result {
        Ok(output) => Ok(output@),
        Err(error) => Err(error@),
    }
}

/// The notification of a subagent that has ended.
pub open spec fn completion(
    session_id: Seq<char>,
    result: Result<Seq<char>, Seq<char>>,
    duration_ms: u64,
    completed_at_ms: u64,
) -> JsonView {
    JsonView::Object(
        seq![
            ("session_id"@, JsonView::Str(session_id)),
            ("status"@, JsonView::Str(end_status(result))),
            ("duration_ms"@, JsonView::UInt(duration_ms)),
            ("completed_at_ms"@, JsonView::UInt(completed_at_ms)),
            ("source"@, JsonView::Str("zed_native"@)),
            ("output"@, str_or_null(end_output(result))),
            ("error"@, str_or_null(end_error(result))),
        ],
    )
}

/// The notification has no key twice, and its text reads back.
proof fn lemma_completion(
    session_id: Seq<char>,
    result: Result<Seq<char>, Seq<char>>,
    duration_ms: u64,
    completed_at_ms: u64,
)
    ensures
        distinct(completion(session_id, result, duration_ms, completed_at_ms)->Object_0),
        completion(session_id, result, duration_ms, completed_at_ms).reads_back(),
{
    let fields = completion(session_id, result, duration_ms, completed_at_ms)->Object_0;
    reveal_strlit("session_id");
    reveal_strlit("status");
    reveal_strlit("duration_ms");
    reveal_strlit("completed_at_ms");
    reveal_strlit("source");
    reveal_strlit("output");
    reveal_strlit("error");
    reveal_strlit("$serde_json::private::RawValue");
    assert(fields[0].0.len() == 10 && fields[1].0.len() == 6 && fields[2].0.len() == 11);
    assert(fields[3].0.len() == 15 && fields[4].0.len() == 6 && fields[5].0.len() == 6);
    assert(fields[6].0.len() == 5);
    assert(fields[1].0[1] == 't' && fields[4].0[1] == 'o' && fields[5].0[1] == 'u');
    assert forall|i: int, j: int| 0 <= i < j < fields.len() implies fields[i].0 != fields[j].0 by {
        assert(i == 0 || i == 1 || i == 2 || i == 3 || i == 4 || i == 5);
        assert(j == 1 || j == 2 || j == 3 || j == 4 || j == 5 || j == 6);
    }
    assert forall|i: int| 0 <= i < fields.len() implies (#[trigger] fields[i]).1.is_plain(
        (MAX_DEPTH - 1) as nat,
    ) by {
        assert(i == 0 || i == 1 || i == 2 || i == 3 || i == 4 || i == 5 || i == 6);
    }
}

/// What stands in the notification under each key that is read.
proof fn lemma_completion_fields(
    session_id: Seq<char>,
    result: Result<Seq<char>, Seq<char>>,
    duration_ms: u64,
    completed_at_ms: u64,
)
    ensures
        ({
            let json = completion(session_id, result, duration_ms, completed_at_ms);
            &&& json.str_at("session_id"@) == Some(session_id)
            &&& json.str_at("status"@) == Some(end_status(result))
            &&& json.u64_at("duration_ms"@) == Some(duration_ms)
            &&& json.str_at("source"@) == Some("zed_native"@)
            &&& json.str_at("output"@) == end_output(result)
            &&& json.str_at("error"@) == end_error(result)
            &&& json.get("output"@) is Some
        }),
{
    let fields = completion(session_id, result, duration_ms, completed_at_ms)->Object_0;
    lemma_completion(session_id, result, duration_ms, completed_at_ms);
    lemma_position(fields, 0);
    lemma_position(fields, 1);
    lemma_position(fields, 2);
    lemma_position(fields, 4);
    lemma_position(fields, 5);
    lemma_position(fields, 6);
}

/// The notification of a subagent that has ended: how, after how many milliseconds, and when, in
/// milliseconds since the Unix epoch.
pub fn completion_notification(
    session_id: String,
    result: Result<String, String>,
    duration_ms: u128,
    completed_at_ms: u128,
) -> (r: Json)
    requires
        duration_ms <= u64::MAX,
        completed_at_ms <= u64::MAX,
    ensures
        r@ == completion(
            session_id@,
            result_view(result),
            duration_ms as u64,
            completed_at_ms as u64,
        ),
{
    let ghost ended = result_view(result);
    let ghost fields = completion(
        session_id@,
        ended,
        duration_ms as u64,
        completed_at_ms as u64,
    )->Object_0;
    proof {
        lemma_completion(session_id@, ended, duration_ms as u64, completed_at_ms as u64);
    }
    let (status, output, error): (String, Option<String>, Option<String>) = match result {
        Ok(output) => ("completed".to_owned(), Some(output), None),
        Err(error) => ("error".to_owned(), None, Some(error)),
    };
    let entries: Vec<(String, Json)> = vec![
        ("session_id".to_owned(), Json::Str(session_id)),
        ("status".to_owned(), Json::Str(status)),
        ("duration_ms".to_owned(), Json::UInt(duration_ms as u64)),
        ("completed_at_ms".to_owned(), Json::UInt(completed_at_ms as u64)),
        ("source".to_owned(), Json::Str("zed_native".to_owned())),
        ("output".to_owned(), Json::str_or_null(output)),
        ("error".to_owned(), Json::str_or_null(error)),
    ];
    assert(fields_view(entries@) =~= fields);
    Json::Object(JsonObject::from_entries(entries))
}

/// The content of the notification file of a subagent that has ended.
pub fn completion_text(
    session_id: String,
    result: Result<String, String>,
    duration_ms: u128,
    completed_at_ms: u128,
) -> (r: String)
    requires
        duration_ms <= u64::MAX,
        completed_at_ms <= u64::MAX,
    ensures
        ({
            let json = completion(
                session_id@,
                result_view(result),
                duration_ms as u64,
                completed_at_ms as u64,
            );
            r@ == json_pretty_text(json) && json_parse(r@) == Some(json)
        }),
{
    proof {
        lemma_completion(
            session_id@,
            result_view(result),
            duration_ms as u64,
            completed_at_ms as u64,
        );
    }
    completion_notification(session_id, result, duration_ms, completed_at_ms).to_pretty_text()
}

impl SpawnAgentToolInput {
    /// The session in which to run the subagent.
    pub fn session_request(&self) -> (r: SessionRequest)
        ensures
            r == match self.session_id {
                Some(id) => SessionRequest::Resume(id),
                None => SessionRequest::Create(self.label),
            },
    {
        match &self.session_id {
            Some(id) => SessionRequest::Resume(id.clone()),
            None => SessionRequest::Create(self.label.clone()),
        }
    }
}

impl SpawnAgentToolOutput {
    /// What the model sees: the id of the session, and the output or the error.
    pub open spec fn shown(self) -> JsonView {
        match self {
            SpawnAgentToolOutput::Success { session_id, output, .. } => JsonView::Object(
                seq![
                    ("session_id"@, JsonView::Str(session_id@)),
                    ("output"@, JsonView::Str(output@)),
                ],
            ),
            SpawnAgentToolOutput::Error { session_id, error, .. } => JsonView::Object(
                seq![
                    ("session_id"@, str_or_null(optional(session_id))),
                    ("error"@, JsonView::Str(error@)),
                ],
            ),
        }
    }

    /// A failure of which no session is known.
    pub fn failed(error: String) -> (r: SpawnAgentToolOutput)
        ensures
            r == (SpawnAgentToolOutput::Error {
                session_id: None,
                error,
                session_info: None,
            }),
    {
        SpawnAgentToolOutput::Error { session_id: None, error, session_info: None }
    }

    /// The answer where the input could not be received.
    pub fn receive_failure(error: &str) -> (r: SpawnAgentToolOutput)
        ensures
            r matches SpawnAgentToolOutput::Error { session_id, error: text, session_info }
                && session_id is None && text@ == "Failed to receive tool input: "@ + error@
                && session_info is None,
    {
        let mut text: String = "Failed to receive tool input: ".to_owned();
        text.append(error);
        SpawnAgentToolOutput::failed(text)
    }

    /// The answer of a call whose subagent was dispatched in a session.
    pub fn dispatched(session_id: String) -> (r: SpawnAgentToolOutput)
        ensures
            r matches SpawnAgentToolOutput::Success { session_id: id, output, session_info } && id
                == session_id && output@ == dispatched_text(session_id@) && session_info
                == (SubagentSessionInfo {
                session_id,
                message_start_index: 0,
                message_end_index: None,
            }),
    {
        let mut output: String = "Subagent dispatched. session_id=".to_owned();
        output.append(session_id.as_str());
        output.append(
            "\nThe subagent is running in the background. Use `check_subagent_status` with this session_id to retrieve results when ready.",
        );
        SpawnAgentToolOutput::Success {
            session_id: session_id.clone(),
            output,
            session_info: SubagentSessionInfo {
                session_id,
                message_start_index: 0,
                message_end_index: None,
            },
        }
    }

    /// What the model sees, as a JSON object.
    pub fn into_json(self) -> (r: Json)
        ensures
            r@ == self.shown(),
            r@.reads_back(),
    {
        let ghost shown = self.shown();
        let entries: Vec<(String, Json)> = match self {
            SpawnAgentToolOutput::Success { session_id, output, .. } => vec![
                ("session_id".to_owned(), Json::Str(session_id)),
                ("output".to_owned(), Json::Str(output)),
            ],
            SpawnAgentToolOutput::Error { session_id, error, .. } => vec![
                ("session_id".to_owned(), Json::str_or_null(session_id)),
                ("error".to_owned(), Json::Str(error)),
            ],
        };
        proof {
            assert(fields_view(entries@) =~= shown->Object_0);
            reveal_strlit("session_id");
            reveal_strlit("output");
            reveal_strlit("error");
            reveal_strlit("$serde_json::private::RawValue");
            assert(shown->Object_0[0].0.len() == 10);
            assert(shown->Object_0[1].0.len() < 10);
            assert forall|i: int| 0 <= i < shown->Object_0.len() implies (
            #[trigger] shown->Object_0[i]).1.is_plain((MAX_DEPTH - 1) as nat) by {
                assert(i == 0 || i == 1);
            }
        }
        Json::Object(JsonObject::from_entries(entries))
    }

    /// The text that the model sees.
    pub fn into_result_text(self) -> (r: String)
        ensures
            r@ == json_text(self.shown()),
            json_parse(r@) == Some(self.shown()),
    {
        self.into_json().to_text()
    }

    /// What is shown of a call that is replayed.
    pub fn into_replay(self) -> (r: Replay)
        ensures
            r == match self {
                SpawnAgentToolOutput::Success { output, session_info, .. } => (Replay {
                    content: output,
                    session_info: Some(session_info),
                }),
                SpawnAgentToolOutput::Error { error, session_info, .. } => (Replay {
                    content: error,
                    session_info,
                }),
            },
    {
        match self {
            SpawnAgentToolOutput::Success { output, session_info, .. } => Replay {
                content: output,
                session_info: Some(session_info),
            },
            SpawnAgentToolOutput::Error { error, session_info, .. } => Replay {
                content: error,
                session_info,
            },
        }
    }
}

/// Tool that spawns a sub-agent for a well-scoped task.
///
/// **Non-blocking mode**: This tool now returns immediately after dispatching
/// the subagent, providing a `session_id` that can be used with
/// `check_subagent_status` to retrieve results later. The subagent runs
/// in the background and its output is written to the notifications
/// directory (`~/.claw/sessions/notifications/`) when it completes.
#[derive(Debug)]
pub struct SpawnAgentTool<E> {
    pub environment: E,
}

impl<E> SpawnAgentTool<E> {
    pub const NAME: &'static str = "spawn_agent";

    pub fn new(environment: E) -> (r: SpawnAgentTool<E>)
        ensures
            r.environment == environment,
    {
        SpawnAgentTool { environment }
    }

    pub fn kind() -> (r: ToolKind)
        ensures
            r == ToolKind::Other,
    {
        ToolKind::Other
    }

    /// The title of a call.
    pub fn initial_title(&self, input: &Result<SpawnAgentToolInput, Json>) -> (r: String)
        ensures
            r@ == match *input {
                Ok(i) => "Spawn subagent: "@ + i.label@,
                Err(value) => match value@.str_at("label"@) {
                    Some(label) => label,
                    None => "Spawning agent"@,
                },
            },
    {
        match input {
            Ok(i) => {
                let mut title: String = "Spawn subagent: ".to_owned();
                title.append(i.label.as_str());
                title
            },
            Err(value) => match value.str_at("label") {
                Some(label) => label.to_owned(),
                None => "Spawning agent".to_owned(),
            },
        }
    }
}

/// The notification file of a subagent that has ended gives its result back: a check of the status
/// of its session reads exactly how the subagent ended, its output or its error, and how long it
/// ran.
pub proof fn law_completion_is_read_back(
    session_id: Seq<char>,
    cd: Seq<char>,
    content: String,
    result: Result<Seq<char>, Seq<char>>,
    duration_ms: u64,
    completed_at_ms: u64,
)
    requires
        json_parse(content@) == Some(completion(session_id, result, duration_ms, completed_at_ms)),
    ensures
        next_step(session_id, cd, StatusEvent::FileRead(Some(content))) == StepView::Succeed(
            StatusView {
                session_id,
                status: end_status(result),
                output: end_output(result),
                error: end_error(result),
                duration_ms: Some(duration_ms),
                report: None,
                all_notifications: None,
            },
        ),
{
    lemma_completion_fields(session_id, result, duration_ms, completed_at_ms);
}

/// A poll cycle takes up the notification file of a subagent that has ended, and tells the agent
/// its session, how it ended, its output or its error, and how long it ran, whatever else the file
/// reads as.
pub proof fn law_completion_is_injected(
    session_id: Seq<char>,
    content: Seq<char>,
    claw: Option<SubagentNotification>,
    result: Result<Seq<char>, Seq<char>>,
    duration_ms: u64,
    completed_at_ms: u64,
)
    requires
        json_parse(content) == Some(completion(session_id, result, duration_ms, completed_at_ms)),
    ensures
        taken_up(Some(content), claw) == Some(
            NotificationView::Native(
                NativeNotificationView {
                    source: "zed_native"@,
                    status: end_status(result),
                    session_id,
                    duration_ms,
                    output: end_output(result),
                    error: end_error(result),
                },
            ),
        ),
{
    lemma_completion_fields(session_id, result, duration_ms, completed_at_ms);
}

/// The notification file of a subagent is the file that a check of the status of its session
/// reads, unless the session has the name that asks for all notifications; a scan of all
/// notifications and a poll cycle take the file for a notification.
pub proof fn law_notification_file_is_found(session_id: Seq<char>, cd: Seq<char>)
    ensures
        session_id != "check_all"@ ==> next_step(session_id, cd, StatusEvent::Received)
            == StepView::ReadFile(native_name(session_id)),
        is_notification(native_name(session_id)),
        has_json_extension(native_name(session_id)),
{
    let name = native_name(session_id);
    reveal_strlit(".native.json");
    reveal_strlit(".json");
    assert(name.subrange(name.len() - 12, name.len() as int) == ".native.json"@);
    assert(name.subrange(name.len() - 5, name.len() as int) == ".json"@);
}

/// The model does not see the session info: answers that differ in it alone are shown alike.
pub proof fn law_session_info_is_not_shown(
    session_id: String,
    output: String,
    first: SubagentSessionInfo,
    second: SubagentSessionInfo,
    failed_id: Option<String>,
    error: String,
    first_of_error: Option<SubagentSessionInfo>,
    second_of_error: Option<SubagentSessionInfo>,
)
    ensures
        (SpawnAgentToolOutput::Success { session_id, output, session_info: first }).shown() == (
        SpawnAgentToolOutput::Success { session_id, output, session_info: second }).shown(),
        (SpawnAgentToolOutput::Error {
            session_id: failed_id,
            error,
            session_info: first_of_error,
        }).shown() == (SpawnAgentToolOutput::Error {
            session_id: failed_id,
            error,
            session_info: second_of_error,
        }).shown(),
{
}

/// The notification of a subagent that has ended says how under `status`, with its output or its
/// error, how long it ran, when it ended and where it ran; what it has not is null. It has these
/// seven fields, in this order.
pub proof fn law_completion_fields(
    session_id: Seq<char>,
    output: Seq<char>,
    duration_ms: u64,
    completed_at_ms: u64,
)
    ensures
        completion(session_id, Ok(output), duration_ms, completed_at_ms) == JsonView::Object(
            seq![
                ("session_id"@, JsonView::Str(session_id)),
                ("status"@, JsonView::Str("completed"@)),
                ("duration_ms"@, JsonView::UInt(duration_ms)),
                ("completed_at_ms"@, JsonView::UInt(completed_at_ms)),
                ("source"@, JsonView::Str("zed_native"@)),
                ("output"@, JsonView::Str(output)),
                ("error"@, JsonView::Null),
            ],
        ),
        completion(session_id, Err(output), duration_ms, completed_at_ms) == JsonView::Object(
            seq![
                ("session_id"@, JsonView::Str(session_id)),
                ("status"@, JsonView::Str("error"@)),
                ("duration_ms"@, JsonView::UInt(duration_ms)),
                ("completed_at_ms"@, JsonView::UInt(completed_at_ms)),
                ("source"@, JsonView::Str("zed_native"@)),
                ("output"@, JsonView::Null),
                ("error"@, JsonView::Str(output)),
            ],
        ),
{
}

/// What is known of a subagent that has ended: it completed and has its output, or it failed and
/// has its error.
pub proof fn law_ended(output: String, error: String)
    ensures
        result_view(Ok(output)) == Ok::<Seq<char>, Seq<char>>(output@),
        result_view(Err(error)) == Err::<Seq<char>, Seq<char>>(error@),
        end_status(Ok(output@)) == "completed"@,
        end_status(Err(error@)) == "error"@,
        end_output(Ok(output@)) == Some(output@),
        end_output(Err(error@)) is None,
        end_error(Ok(output@)) is None,
        end_error(Err(error@)) == Some(error@),
{
}

/// A subagent that ended is told back as it ended: one that completed with its output and without
/// an error, and one that failed with its error and without an output.
pub proof fn law_end_is_told_back(
    session_id: Seq<char>,
    cd: Seq<char>,
    completed: String,
    failed: String,
    output: Seq<char>,
    error: Seq<char>,
    duration_ms: u64,
    completed_at_ms: u64,
)
    requires
        json_parse(completed@) == Some(
            completion(session_id, Ok(output), duration_ms, completed_at_ms),
        ),
        json_parse(failed@) == Some(
            completion(session_id, Err(error), duration_ms, completed_at_ms),
        ),
    ensures
        next_step(session_id, cd, StatusEvent::FileRead(Some(completed))) == StepView::Succeed(
            StatusView {
                session_id,
                status: "completed"@,
                output: Some(output),
                error: None,
                duration_ms: Some(duration_ms),
                report: None,
                all_notifications: None,
            },
        ),
        next_step(session_id, cd, StatusEvent::FileRead(Some(failed))) == StepView::Succeed(
            StatusView {
                session_id,
                status: "error"@,
                output: None,
                error: Some(error),
                duration_ms: Some(duration_ms),
                report: None,
                all_notifications: None,
            },
        ),
{
    law_completion_is_read_back(
        session_id,
        cd,
        completed,
        Ok(output),
        duration_ms,
        completed_at_ms,
    );
    law_completion_is_read_back(session_id, cd, failed, Err(error), duration_ms, completed_at_ms);
}

/// The answer to a call tells the session once, between the same words whatever the session, and
/// which tool retrieves its results.
pub proof fn law_dispatched_text(session_id: Seq<char>)
    ensures
        dispatched_text(session_id) == "Subagent dispatched. session_id="@ + session_id
            + "\nThe subagent is running in the background. Use `check_subagent_status` with this session_id to retrieve results when ready."@,
        contains(dispatched_text(session_id), session_id),
{
    law_contains(
        "Subagent dispatched. session_id="@,
        session_id,
        "\nThe subagent is running in the background. Use `check_subagent_status` with this session_id to retrieve results when ready."@,
    );
}

/// The model sees the session, or null where none is known, and then the output of a success or the
/// error of a failure.
pub proof fn law_shown(
    session_id: String,
    output: String,
    session_info: SubagentSessionInfo,
    no_info: Option<SubagentSessionInfo>,
)
    ensures
        (SpawnAgentToolOutput::Success { session_id, output, session_info }).shown()
            == JsonView::Object(
            seq![
                ("session_id"@, JsonView::Str(session_id@)),
                ("output"@, JsonView::Str(output@)),
            ],
        ),
        (SpawnAgentToolOutput::Error {
            session_id: Some(session_id),
            error: output,
            session_info: no_info,
        }).shown() == JsonView::Object(
            seq![
                ("session_id"@, JsonView::Str(session_id@)),
                ("error"@, JsonView::Str(output@)),
            ],
        ),
        (SpawnAgentToolOutput::Error {
            session_id: None,
            error: output,
            session_info: no_info,
        }).shown() == JsonView::Object(
            seq![("session_id"@, JsonView::Null), ("error"@, JsonView::Str(output@))],
        ),
{
}

} // verus!
