//! The `check_subagent_status` tool: what is known of a subagent that was dispatched.
use vstd::prelude::*;
use vstd::seq_lib::*;
use vstd::string::*;

use crate::json::{
    distinct, fields_view, json_parse, json_text, jsons_view, lemma_position, optional_view,
    str_or_null, u64_or_null, value_or_null, Json, JsonObject, JsonView, MAX_DEPTH,
};
use crate::subagent_notifier::{or_unknown, text_or_unknown};
use crate::text::{ends_with, optional, owned, same_text, trim, trimmed};
use crate::tools::{native_file_name, native_name, ToolKind};

verus! {

/// How much of the output of a command is kept, in bytes.
pub const OUTPUT_BYTE_LIMIT: u64 = 16384;

/// Check the status of a previously spawned subagent.
///
/// Supports both:
/// 1. **Native subagents** (spawned via `spawn_agent` tool) - checks
///    `~/.claw/sessions/notifications/<session_id>.native.json`
/// 2. **Claw subagents** (spawned via `claw subagent spawn` in terminal) -
///    runs `claw subagent status <session_id>`
///
/// For claw subagents with structured reports:
/// When spawned without `--raw`, the output includes a `##SUBAGENT_REPORT##`
/// section with fields: task, status, summary, key_findings, raw_output.
/// The `report` field contains these parsed values when available.
///
/// ## Notification directory
/// If `session_id` is `"check_all"`, the tool will scan the notification
/// directory (`~/.claw/sessions/notifications/`) for any new completion
/// notifications (both .native.json and .notification.json) and return
/// all of them.
#[derive(Debug)]
pub struct CheckSubagentStatusToolInput {
    /// The session_id returned by `claw subagent spawn`.
    /// Use "check_all" to scan the notification directory for new completions.
    pub session_id: String,
    /// Working directory (project root) where claw was called from
    pub cd: String,
}

#[derive(Debug)]
pub struct CheckSubagentStatusToolOutput {
    pub session_id: String,
    pub status: String,
    pub output: Option<String>,
    pub error: Option<String>,
    pub duration_ms: Option<u64>,
    /// Parsed `##SUBAGENT_REPORT##` section, if available.
    /// Contains fields like: task, status, summary, key_findings, raw_output.
    pub report: Option<Json>,
    /// When session_id is "check_all", contains all pending notifications.
    pub all_notifications: Option<Vec<Json>>,
}

/// The output of the tool as mathematics.
#[verifier::ext_equal]
pub struct StatusView {
    pub session_id: Seq<char>,
    pub status: Seq<char>,
    pub output: Option<Seq<char>>,
    pub error: Option<Seq<char>>,
    pub duration_ms: Option<u64>,
    pub report: Option<JsonView>,
    pub all_notifications: Option<Seq<JsonView>>,
}

impl View for CheckSubagentStatusToolOutput {
    type V = StatusView;

    open spec fn view(&self) -> StatusView {
        StatusView {
            session_id: self.session_id@,
            status: self.status@,
            output: optional(self.output),
            error: optional(self.error),
            duration_ms: self.duration_ms,
            report: optional_view(self.report),
            all_notifications: match self.all_notifications {
                Some(values) => Some(jsons_view(values@)),
                None => None,
            },
        }
    }
}

/// The status of a session of which only an error is known.
pub open spec fn failed_status(session_id: Seq<char>, error: Seq<char>) -> StatusView {
    StatusView {
        session_id,
        status: "error"@,
        output: None,
        error: Some(error),
        duration_ms: None,
        report: None,
        all_notifications: None,
    }
}

/// The status that the notification of a native subagent gives.
pub open spec fn native_status(session_id: Seq<char>, json: JsonView) -> StatusView {
    StatusView {
        session_id,
        status: or_unknown(json.str_at("status"@)),
        output: json.str_at("output"@),
        error: json.str_at("error"@),
        duration_ms: json.u64_at("duration_ms"@),
        report: None,
        all_notifications: None,
    }
}

/// The status that claw writes as JSON.
pub open spec fn claw_status(session_id: Seq<char>, json: JsonView) -> StatusView {
    StatusView { report: json.get("report"@), ..native_status(session_id, json) }
}

/// The status that claw writes as other text.
pub open spec fn raw_status(session_id: Seq<char>, text: Seq<char>) -> StatusView {
    StatusView {
        session_id,
        status: "unknown"@,
        output: Some(text),
        error: None,
        duration_ms: None,
        report: None,
        all_notifications: None,
    }
}

/// The status that the output of the claw command gives.
pub open spec fn command_status(session_id: Seq<char>, output: Seq<char>) -> StatusView {
    match json_parse(trimmed(output)) {
        Some(json) => claw_status(session_id, json),
        None => raw_status(session_id, trimmed(output)),
    }
}

/// All pending notifications.
pub open spec fn all_status(notifications: Seq<JsonView>) -> StatusView {
    StatusView {
        session_id: "check_all"@,
        status: if notifications.len() == 0 {
            "no_notifications"@
        } else {
            "notifications_found"@
        },
        output: None,
        error: None,
        duration_ms: None,
        report: None,
        all_notifications: Some(notifications),
    }
}

/// The command that asks claw for the status of a session.
pub open spec fn status_command(session_id: Seq<char>) -> Seq<char> {
    "claw subagent status "@ + session_id + " --output-format json"@
}

impl StatusView {
    /// The output as a JSON object.
    pub open spec fn json(self) -> JsonView {
        JsonView::Object(
            seq![
                ("session_id"@, JsonView::Str(self.session_id)),
                ("status"@, JsonView::Str(self.status)),
                ("output"@, str_or_null(self.output)),
                ("error"@, str_or_null(self.error)),
                ("duration_ms"@, u64_or_null(self.duration_ms)),
                ("report"@, value_or_null(self.report)),
                (
                    "all_notifications"@,
                    match self.all_notifications {
                        Some(values) => JsonView::Array(values),
                        None => JsonView::Null,
                    },
                ),
            ],
        )
    }

    /// The text of the output can be read back: the report and the notifications are plain, and
    /// nested no deeper than they may be inside the output.
    pub open spec fn reads_back(self) -> bool {
        &&& self.report matches Some(report) ==> report.is_plain((MAX_DEPTH - 1) as nat)
        &&& self.all_notifications matches Some(values) ==> forall|i: int|
            0 <= i < values.len() ==> (#[trigger] values[i]).is_plain((MAX_DEPTH - 2) as nat)
    }
}

/// The output that a JSON object holds, by its keys; null stands for nothing.
pub open spec fn read_status(json: JsonView) -> StatusView {
    StatusView {
        session_id: json.str_at("session_id"@)->0,
        status: json.str_at("status"@)->0,
        output: json.str_at("output"@),
        error: json.str_at("error"@),
        duration_ms: json.u64_at("duration_ms"@),
        report: match json.get("report"@) {
            Some(JsonView::Null) => None,
            report => report,
        },
        all_notifications: match json.get("all_notifications"@) {
            Some(JsonView::Array(values)) => Some(values),
            _ => None,
        },
    }
}

/// The output as a JSON object has no key twice, and its text reads back where it can.
proof fn lemma_status_json(status: StatusView)
    ensures
        distinct(status.json()->Object_0),
        status.reads_back() ==> status.json().reads_back(),
{
    let fields = status.json()->Object_0;
    reveal_strlit("session_id");
    reveal_strlit("status");
    reveal_strlit("output");
    reveal_strlit("error");
    reveal_strlit("duration_ms");
    reveal_strlit("report");
    reveal_strlit("all_notifications");
    reveal_strlit("$serde_json::private::RawValue");
    assert(fields[0].0.len() == 10 && fields[1].0.len() == 6 && fields[2].0.len() == 6);
    assert(fields[3].0.len() == 5 && fields[4].0.len() == 11 && fields[5].0.len() == 6);
    assert(fields[6].0.len() == 17);
    assert(fields[1].0[0] == 's' && fields[2].0[0] == 'o' && fields[5].0[0] == 'r');
    assert forall|i: int, j: int| 0 <= i < j < fields.len() implies fields[i].0 != fields[j].0 by {
        assert(i == 0 || i == 1 || i == 2 || i == 3 || i == 4 || i == 5);
        assert(j == 1 || j == 2 || j == 3 || j == 4 || j == 5 || j == 6);
    }
    if status.reads_back() {
        assert forall|i: int| 0 <= i < fields.len() implies (#[trigger] fields[i]).1.is_plain(
            (MAX_DEPTH - 1) as nat,
        ) by {
            assert(i == 0 || i == 1 || i == 2 || i == 3 || i == 4 || i == 5 || i == 6);
        }
    }
}

/// What happened outside.
#[derive(Debug)]
pub enum StatusEvent {
    /// The input was received.
    Received,
    /// The notifications directory was scanned; these JSON values were found.
    Scanned(Vec<Json>),
    /// The notification file was looked for: its content, or `None` where it does not exist or
    /// could not be read.
    FileRead(Option<String>),
    /// The terminal failed with an error.
    TerminalFailed(String),
    /// The command wrote this output.
    CommandOutput(String),
}

/// What is to be done next.
#[derive(Debug)]
pub enum StatusStep {
    /// Scan the notifications directory.
    Scan,
    /// Read a file of the notifications directory.
    ReadFile(String),
    /// Run a command in a directory, and keep this many bytes of its output.
    RunCommand { command: String, cd: String, output_byte_limit: u64 },
    /// Answer with success.
    Succeed(CheckSubagentStatusToolOutput),
    /// Answer with failure.
    Fail(CheckSubagentStatusToolOutput),
}

/// What is to be done next, as mathematics.
#[verifier::ext_equal]
pub enum StepView {
    Scan,
    ReadFile(Seq<char>),
    RunCommand { command: Seq<char>, cd: Seq<char>, output_byte_limit: u64 },
    Succeed(StatusView),
    Fail(StatusView),
}

impl View for StatusStep {
    type V = StepView;

    open spec fn view(&self) -> StepView {
        match *self {
            StatusStep::Scan => StepView::Scan,
            StatusStep::ReadFile(name) => StepView::ReadFile(name@),
            StatusStep::RunCommand { command, cd, output_byte_limit } => StepView::RunCommand {
                command: command@,
                cd: cd@,
                output_byte_limit,
            },
            StatusStep::Succeed(output) => StepView::Succeed(output@),
            StatusStep::Fail(output) => StepView::Fail(output@),
        }
    }
}

/// The step after an event.
pub open spec fn next_step(session_id: Seq<char>, cd: Seq<char>, event: StatusEvent) -> StepView {
    match event {
        StatusEvent::Received => if session_id == "check_all"@ {
            StepView::Scan
        } else {
            StepView::ReadFile(native_name(session_id))
        },
        StatusEvent::Scanned(found) => StepView::Succeed(all_status(jsons_view(found@))),
        StatusEvent::FileRead(content) => match content {
            Some(text) => match json_parse(text@) {
                Some(json) => StepView::Succeed(native_status(session_id, json)),
                None => command_step(session_id, cd),
            },
            None => command_step(session_id, cd),
        },
        StatusEvent::TerminalFailed(error) => StepView::Fail(failed_status(session_id, error@)),
        StatusEvent::CommandOutput(output) => StepView::Succeed(
            command_status(session_id, output@),
        ),
    }
}

/// The step that asks claw.
pub open spec fn command_step(session_id: Seq<char>, cd: Seq<char>) -> StepView {
    StepView::RunCommand {
        command: status_command(session_id),
        cd,
        output_byte_limit: OUTPUT_BYTE_LIMIT,
    }
}

/// Whether the extension of a file name is `json`.
pub open spec fn has_json_extension(name: Seq<char>) -> bool {
    ".json"@.is_suffix_of(name) && name.len() > ".json"@.len()
}

/// Whether the extension of a file name is `json`: whether the part after its last point is,
/// where that point does not open the name.
pub fn is_json_file(name: &str) -> (r: bool)
    ensures
        r == has_json_extension(name@),
{
    assert(name@.subrange(0, name@.len() as int) == name@);
    ends_with(name, ".json") && !same_text(name, ".json")
}

/// The JSON values found, after the content of one more file.
pub open spec fn with_scanned(found: Seq<JsonView>, content: Seq<char>) -> Seq<JsonView> {
    match json_parse(content) {
        Some(json) => found.push(json),
        None => found,
    }
}

/// The JSON values found in a scan of files with these contents.
pub open spec fn all_scanned(contents: Seq<Seq<char>>) -> Seq<JsonView>
    decreases contents.len(),
{
    if contents.len() == 0 {
        Seq::empty()
    } else {
        with_scanned(all_scanned(contents.drop_last()), contents.last())
    }
}

/// Takes up the content of a file in a scan. Tells whether the file is to be removed: it is if it
/// holds a JSON value, which then is one of those found.
pub fn take_up_scanned(found: &mut Vec<Json>, content: &str) -> (remove: bool)
    ensures
        jsons_view(final(found)@) == with_scanned(jsons_view(old(found)@), content@),
        remove == (json_parse(content@) is Some),
{
    match Json::parse(content) {
        Some(json) => {
            let ghost before = found@;
            found.push(json);
            assert(jsons_view(found@) =~= jsons_view(before).push(json@));
            true
        },
        None => false,
    }
}

impl CheckSubagentStatusToolOutput {
    /// The status of a session of which only an error is known.
    pub fn failed(session_id: String, error: String) -> (r: CheckSubagentStatusToolOutput)
        ensures
            r@ == failed_status(session_id@, error@),
    {
        CheckSubagentStatusToolOutput {
            session_id,
            status: "error".to_owned(),
            output: None,
            error: Some(error),
            duration_ms: None,
            report: None,
            all_notifications: None,
        }
    }

    /// The answer where the input could not be received.
    pub fn receive_failure(error: &str) -> (r: CheckSubagentStatusToolOutput)
        ensures
            r@ == failed_status(Seq::empty(), "Failed to receive tool input: "@ + error@),
    {
        let mut text: String = "Failed to receive tool input: ".to_owned();
        text.append(error);
        CheckSubagentStatusToolOutput::failed(String::new(), text)
    }

    /// The status that the notification of a native subagent gives.
    pub fn from_native(session_id: String, json: &Json) -> (r: CheckSubagentStatusToolOutput)
        ensures
            r@ == native_status(session_id@, json@),
            r.session_id == session_id,
            r.status@ == match json@.str_at("status"@) {
                Some(status) => status,
                None => "unknown"@,
            },
            optional(r.output) == json@.str_at("output"@),
            optional(r.error) == json@.str_at("error"@),
            r.duration_ms == json@.u64_at("duration_ms"@),
            r.all_notifications is None,
            r.report is None,
    {
        CheckSubagentStatusToolOutput {
            session_id,
            status: text_or_unknown(json.str_at("status")),
            output: owned(json.str_at("output")),
            error: owned(json.str_at("error")),
            duration_ms: json.u64_at("duration_ms"),
            report: None,
            all_notifications: None,
        }
    }

    /// The status that claw writes as JSON.
    pub fn from_claw(session_id: String, json: &Json) -> (r: CheckSubagentStatusToolOutput)
        ensures
            r@ == claw_status(session_id@, json@),
            r.session_id == session_id,
            r.status@ == match json@.str_at("status"@) {
                Some(status) => status,
                None => "unknown"@,
            },
            optional(r.output) == json@.str_at("output"@),
            optional(r.error) == json@.str_at("error"@),
            r.duration_ms == json@.u64_at("duration_ms"@),
            r.all_notifications is None,
            optional_view(r.report) == json@.get("report"@),
    {
        let report: Option<Json> = match json.get("report") {
            Some(value) => Some(value.clone()),
            None => None,
        };
        let native: CheckSubagentStatusToolOutput = CheckSubagentStatusToolOutput::from_native(
            session_id,
            json,
        );
        CheckSubagentStatusToolOutput { report, ..native }
    }

    /// The status that claw writes as other text.
    pub fn from_raw(session_id: String, text: String) -> (r: CheckSubagentStatusToolOutput)
        ensures
            r@ == raw_status(session_id@, text@),
    {
        CheckSubagentStatusToolOutput {
            session_id,
            status: "unknown".to_owned(),
            output: Some(text),
            error: None,
            duration_ms: None,
            report: None,
            all_notifications: None,
        }
    }

    /// All pending notifications.
    pub fn from_scan(found: Vec<Json>) -> (r: CheckSubagentStatusToolOutput)
        ensures
            r@ == all_status(jsons_view(found@)),
    {
        let status: String = if found.len() == 0 {
            "no_notifications".to_owned()
        } else {
            "notifications_found".to_owned()
        };
        CheckSubagentStatusToolOutput {
            session_id: "check_all".to_owned(),
            status,
            output: None,
            error: None,
            duration_ms: None,
            report: None,
            all_notifications: Some(found),
        }
    }

    /// The output as a JSON object.
    pub fn into_json(self) -> (r: Json)
        ensures
            r@ == self@.json(),
    {
        let ghost view = self@;
        let report: Json = match self.report {
            Some(value) => value,
            None => Json::Null,
        };
        let all: Json = match self.all_notifications {
            Some(values) => Json::array(values),
            None => Json::Null,
        };
        let entries: Vec<(String, Json)> = vec![
            ("session_id".to_owned(), Json::Str(self.session_id)),
            ("status".to_owned(), Json::Str(self.status)),
            ("output".to_owned(), Json::str_or_null(self.output)),
            ("error".to_owned(), Json::str_or_null(self.error)),
            ("duration_ms".to_owned(), Json::u64_or_null(self.duration_ms)),
            ("report".to_owned(), report),
            ("all_notifications".to_owned(), all),
        ];
        proof {
            assert(fields_view(entries@) =~= view.json()->Object_0);
            lemma_status_json(view);
        }
        Json::Object(JsonObject::from_entries(entries))
    }

    /// The text that the model sees.
    pub fn into_result_text(self) -> (r: String)
        ensures
            r@ == json_text(self@.json()),
            self@.reads_back() ==> json_parse(r@) == Some(self@.json()),
    {
        proof {
            lemma_status_json(self@);
        }
        self.into_json().to_text()
    }
}

/// The tool, in the environment of a thread.
#[derive(Debug)]
pub struct CheckSubagentStatusTool<E> {
    pub environment: E,
}

impl<E> CheckSubagentStatusTool<E> {
    pub const NAME: &'static str = "check_subagent_status";

    pub fn new(environment: E) -> (r: CheckSubagentStatusTool<E>)
        ensures
            r.environment == environment,
    {
        CheckSubagentStatusTool { environment }
    }

    pub fn kind() -> (r: ToolKind)
        ensures
            r == ToolKind::Read,
    {
        ToolKind::Read
    }

    /// The title of a call.
    pub fn initial_title(&self, input: &Result<CheckSubagentStatusToolInput, Json>) -> (r: String)
        ensures
            r@ == match *input {
                Ok(i) => "Check subagent "@ + i.session_id@,
                Err(_) => "Check subagent status"@,
            },
    {
        match input {
            Ok(i) => {
                let mut title: String = "Check subagent ".to_owned();
                title.append(i.session_id.as_str());
                title
            },
            Err(_) => "Check subagent status".to_owned(),
        }
    }
}

impl CheckSubagentStatusToolInput {
    /// The step that asks claw.
    fn ask_claw(&self) -> (r: StatusStep)
        ensures
            r@ == command_step(self.session_id@, self.cd@),
    {
        let mut command: String = "claw subagent status ".to_owned();
        command.append(self.session_id.as_str());
        command.append(" --output-format json");
        StatusStep::RunCommand {
            command,
            cd: self.cd.clone(),
            output_byte_limit: OUTPUT_BYTE_LIMIT,
        }
    }

    /// Decides what is to be done after an event.
    pub fn advance(&self, event: StatusEvent) -> (r: StatusStep)
        ensures
            r@ == next_step(self.session_id@, self.cd@, event),
            event matches StatusEvent::CommandOutput(written) ==> (json_parse(
                trimmed(written@),
            ) matches Some(json) ==> r matches StatusStep::Succeed(answer) && optional(answer.output)
                == json.str_at("output"@) && optional(answer.error) == json.str_at("error"@)
                && answer.duration_ms == json.u64_at("duration_ms"@) && optional_view(answer.report)
                == json.get("report"@)),
    {
        match event {
            StatusEvent::Received => if same_text(self.session_id.as_str(), "check_all") {
                StatusStep::Scan
            } else {
                StatusStep::ReadFile(native_file_name(self.session_id.as_str()))
            },
            StatusEvent::Scanned(found) => StatusStep::Succeed(
                CheckSubagentStatusToolOutput::from_scan(found),
            ),
            StatusEvent::FileRead(content) => match content {
                Some(text) => match Json::parse(text.as_str()) {
                    Some(json) => StatusStep::Succeed(
                        CheckSubagentStatusToolOutput::from_native(self.session_id.clone(), &json),
                    ),
                    None => self.ask_claw(),
                },
                None => self.ask_claw(),
            },
            StatusEvent::TerminalFailed(error) => StatusStep::Fail(
                CheckSubagentStatusToolOutput::failed(self.session_id.clone(), error),
            ),
            StatusEvent::CommandOutput(output) => {
                let combined: String = trim(output.as_str());
                match Json::parse(combined.as_str()) {
                    Some(json) => StatusStep::Succeed(
                        CheckSubagentStatusToolOutput::from_claw(self.session_id.clone(), &json),
                    ),
                    None => StatusStep::Succeed(
                        CheckSubagentStatusToolOutput::from_raw(self.session_id.clone(), combined),
                    ),
                }
            },
        }
    }
}

/// The text that the model sees holds the whole output: what is read in it gives all seven fields
/// back, and every key is there, with null for nothing. A report that is itself null would come
/// back as none.
pub proof fn law_status_is_read_back(status: StatusView, text: Seq<char>)
    requires
        json_parse(text) == Some(status.json()),
        status.report != Some(JsonView::Null),
    ensures
        json_parse(text) matches Some(json) && {
            &&& read_status(json) == status
            &&& json.get("session_id"@) == Some(JsonView::Str(status.session_id))
            &&& json.get("status"@) == Some(JsonView::Str(status.status))
            &&& json.get("output"@) == Some(str_or_null(status.output))
            &&& json.get("error"@) == Some(str_or_null(status.error))
            &&& json.get("duration_ms"@) == Some(u64_or_null(status.duration_ms))
            &&& json.get("report"@) == Some(value_or_null(status.report))
            &&& json.get("all_notifications"@) == Some(
                match status.all_notifications {
                    Some(values) => JsonView::Array(values),
                    None => JsonView::Null,
                },
            )
        },
{
    let fields = status.json()->Object_0;
    lemma_status_json(status);
    lemma_position(fields, 0);
    lemma_position(fields, 1);
    lemma_position(fields, 2);
    lemma_position(fields, 3);
    lemma_position(fields, 4);
    lemma_position(fields, 5);
    lemma_position(fields, 6);
}

/// Whether a content holds a JSON value.
pub open spec fn holds(json: JsonView) -> spec_fn(Seq<char>) -> bool {
    |content: Seq<char>| json_parse(content) == Some(json)
}

/// Whether a content holds no JSON value, so that a scan leaves its file.
pub open spec fn holds_none() -> spec_fn(Seq<char>) -> bool {
    |content: Seq<char>| json_parse(content) is None
}

/// A scan returns every notification, and nothing else: each JSON value is among the notifications
/// of the answer as often as a file holds it, and the answer says that there are none exactly if no
/// file holds one.
pub proof fn law_scan_returns_all(contents: Seq<Seq<char>>, json: JsonView)
    ensures
        all_scanned(contents).to_multiset().count(json) == contents.filter(holds(json)).len(),
        all_scanned(contents).len() == contents.len() - contents.filter(holds_none()).len(),
        all_status(all_scanned(contents)).status == if all_scanned(contents).len() == 0 {
            "no_notifications"@
        } else {
            "notifications_found"@
        },
        all_status(all_scanned(contents)).all_notifications == Some(all_scanned(contents)),
    decreases contents.len(),
{
    broadcast use group_to_multiset_ensures;

    reveal(Seq::filter);
    if contents.len() > 0 {
        law_scan_returns_all(contents.drop_last(), json);
    }
}

/// A scan of the files that a scan has left finds nothing.
pub proof fn law_second_scan_finds_nothing(contents: Seq<Seq<char>>)
    ensures
        all_scanned(contents.filter(holds_none())).len() == 0,
    decreases contents.len(),
{
    reveal(Seq::filter);
    if contents.len() > 0 {
        let init = contents.drop_last();
        law_second_scan_finds_nothing(init);
        if json_parse(contents.last()) is None {
            assert(contents.filter(holds_none()).drop_last() =~= init.filter(holds_none()));
        }
    }
}

/// An answer is held field by field, and a step by what it says.
pub proof fn law_status_views(
    output: CheckSubagentStatusToolOutput,
    name: String,
    command: String,
    cd: String,
    output_byte_limit: u64,
)
    ensures
        output@.session_id == output.session_id@,
        output@.status == output.status@,
        output.output matches Some(text) ==> output@.output == Some(text@),
        output.output is None ==> output@.output is None,
        output.error matches Some(text) ==> output@.error == Some(text@),
        output.error is None ==> output@.error is None,
        output@.duration_ms == output.duration_ms,
        output.report matches Some(report) ==> output@.report == Some(report@),
        output.report is None ==> output@.report is None,
        output.all_notifications matches Some(values) ==> output@.all_notifications == Some(
            jsons_view(values@),
        ),
        output.all_notifications is None ==> output@.all_notifications is None,
        StatusStep::Scan@ == StepView::Scan,
        StatusStep::ReadFile(name)@ == StepView::ReadFile(name@),
        (StatusStep::RunCommand { command, cd, output_byte_limit })@ == (StepView::RunCommand {
            command: command@,
            cd: cd@,
            output_byte_limit,
        }),
        StatusStep::Succeed(output)@ == StepView::Succeed(output@),
        StatusStep::Fail(output)@ == StepView::Fail(output@),
{
}

/// A check first scans the notifications directory for the name `check_all`, and for any other
/// session looks for its notification file.
pub proof fn law_check_begins(session_id: Seq<char>, cd: Seq<char>)
    ensures
        next_step("check_all"@, cd, StatusEvent::Received) == StepView::Scan,
        session_id != "check_all"@ ==> next_step(session_id, cd, StatusEvent::Received)
            == StepView::ReadFile(session_id + ".native.json"@),
{
}

/// A notification file that holds a JSON value answers: with the strings under `status`, `output`
/// and `error`, the integer under `duration_ms`, and no report.
pub proof fn law_native_file_answers(
    session_id: Seq<char>,
    cd: Seq<char>,
    content: String,
    json: JsonView,
)
    requires
        json_parse(content@) == Some(json),
    ensures
        next_step(session_id, cd, StatusEvent::FileRead(Some(content))) matches StepView::Succeed(
            answer,
        ) && {
            &&& answer.session_id == session_id
            &&& json.get("status"@) matches Some(JsonView::Str(status)) ==> answer.status == status
            &&& !(json.get("status"@) matches Some(JsonView::Str(_))) ==> answer.status
                == "unknown"@
            &&& json.get("output"@) matches Some(JsonView::Str(output)) ==> answer.output == Some(
                output,
            )
            &&& !(json.get("output"@) matches Some(JsonView::Str(_))) ==> answer.output is None
            &&& json.get("error"@) matches Some(JsonView::Str(error)) ==> answer.error == Some(
                error,
            )
            &&& !(json.get("error"@) matches Some(JsonView::Str(_))) ==> answer.error is None
            &&& json.get("duration_ms"@) matches Some(JsonView::UInt(ms)) ==> answer.duration_ms
                == Some(ms)
            &&& !(json.get("duration_ms"@) matches Some(JsonView::UInt(_)))
                ==> answer.duration_ms is None
            &&& answer.report is None
            &&& answer.all_notifications is None
        },
{
}

/// Where no notification file answers, claw is asked for the status of the session, in the directory
/// of the call, and 16 KiB of its output are kept.
pub proof fn law_claw_is_asked(session_id: Seq<char>, cd: Seq<char>, content: String)
    requires
        json_parse(content@) is None,
    ensures
        next_step(session_id, cd, StatusEvent::FileRead(None)) == (StepView::RunCommand {
            command: "claw subagent status "@ + session_id + " --output-format json"@,
            cd,
            output_byte_limit: 16384,
        }),
        next_step(session_id, cd, StatusEvent::FileRead(Some(content))) == (StepView::RunCommand {
            command: "claw subagent status "@ + session_id + " --output-format json"@,
            cd,
            output_byte_limit: 16384,
        }),
{
}

/// Where claw writes a JSON value, with white space around it or not, the answer is made of its
/// fields: the strings under `status`, `output` and `error`, the integer under `duration_ms`, and
/// the value under `report`.
pub proof fn law_claw_answers(
    session_id: Seq<char>,
    cd: Seq<char>,
    written: String,
    json: JsonView,
)
    requires
        json_parse(trimmed(written@)) == Some(json),
    ensures
        next_step(session_id, cd, StatusEvent::CommandOutput(written)) matches StepView::Succeed(
            answer,
        ) && {
            &&& answer.session_id == session_id
            &&& json.get("status"@) matches Some(JsonView::Str(status)) ==> answer.status == status
            &&& !(json.get("status"@) matches Some(JsonView::Str(_))) ==> answer.status
                == "unknown"@
            &&& json.get("output"@) matches Some(JsonView::Str(output)) ==> answer.output == Some(
                output,
            )
            &&& !(json.get("output"@) matches Some(JsonView::Str(_))) ==> answer.output is None
            &&& json.get("error"@) matches Some(JsonView::Str(error)) ==> answer.error == Some(
                error,
            )
            &&& !(json.get("error"@) matches Some(JsonView::Str(_))) ==> answer.error is None
            &&& json.get("duration_ms"@) matches Some(JsonView::UInt(ms)) ==> answer.duration_ms
                == Some(ms)
            &&& !(json.get("duration_ms"@) matches Some(JsonView::UInt(_)))
                ==> answer.duration_ms is None
            &&& answer.report == json.get("report"@)
            &&& answer.all_notifications is None
        },
{
}

/// Where claw writes another text, the answer is that text without the white space around it, with
/// the status `unknown`; and where the terminal fails, its error, with the status `error`.
pub proof fn law_other_answers(
    session_id: Seq<char>,
    cd: Seq<char>,
    written: String,
    error: String,
)
    requires
        json_parse(trimmed(written@)) is None,
    ensures
        next_step(session_id, cd, StatusEvent::CommandOutput(written)) == StepView::Succeed(
            StatusView {
                session_id,
                status: "unknown"@,
                output: Some(trimmed(written@)),
                error: None,
                duration_ms: None,
                report: None,
                all_notifications: None,
            },
        ),
        next_step(session_id, cd, StatusEvent::TerminalFailed(error)) == StepView::Fail(
            StatusView {
                session_id,
                status: "error"@,
                output: None,
                error: Some(error@),
                duration_ms: None,
                report: None,
                all_notifications: None,
            },
        ),
{
}

/// A scan answers with everything that it found, in order, under the name `check_all`.
pub proof fn law_scan_answers(session_id: Seq<char>, cd: Seq<char>, found: Vec<Json>)
    ensures
        next_step(session_id, cd, StatusEvent::Scanned(found)) matches StepView::Succeed(answer)
            && {
            &&& answer.session_id == "check_all"@
            &&& found@.len() == 0 ==> answer.status == "no_notifications"@
            &&& found@.len() > 0 ==> answer.status == "notifications_found"@
            &&& answer.output is None
            &&& answer.error is None
            &&& answer.duration_ms is None
            &&& answer.report is None
            &&& answer.all_notifications matches Some(values)
            &&& values.len() == found@.len()
            &&& forall|i: int| 0 <= i < values.len() ==> #[trigger] values[i] == found@[i]@
        },
{
}

/// A file is scanned exactly if its name is some text before `.json`.
pub proof fn law_json_extension(name: Seq<char>)
    ensures
        has_json_extension(name) <==> exists|stem: Seq<char>|
            stem.len() > 0 && name == #[trigger] (stem + ".json"@),
{
    let n = ".json"@.len() as int;
    if has_json_extension(name) {
        let stem = name.subrange(0, name.len() - n);
        assert(name =~= stem + ".json"@);
    }
    if exists|stem: Seq<char>| stem.len() > 0 && name == #[trigger] (stem + ".json"@) {
        let stem = choose|stem: Seq<char>| stem.len() > 0 && name == #[trigger] (stem + ".json"@);
        assert(name.subrange(name.len() - n, name.len() as int) =~= ".json"@);
    }
}

/// One more file in a scan adds its JSON value at the end, or nothing where it holds none.
pub proof fn law_one_more_scanned(contents: Seq<Seq<char>>, content: Seq<char>)
    ensures
        all_scanned(Seq::empty()).len() == 0,
        json_parse(content) matches Some(json) ==> all_scanned(contents.push(content))
            == all_scanned(contents).push(json),
        json_parse(content) is None ==> all_scanned(contents.push(content)) == all_scanned(
            contents,
        ),
        json_parse(content) matches Some(json) ==> with_scanned(all_scanned(contents), content)
            == all_scanned(contents).push(json),
        json_parse(content) is None ==> with_scanned(all_scanned(contents), content)
            == all_scanned(contents),
{
    assert(contents.push(content).drop_last() =~= contents);
}

/// The JSON object of an answer has seven fields, in this order.
pub proof fn law_status_fields(status: StatusView)
    ensures
        status.json() matches JsonView::Object(fields) && {
            &&& fields.len() == 7
            &&& fields[0] == ("session_id"@, JsonView::Str(status.session_id))
            &&& fields[1] == ("status"@, JsonView::Str(status.status))
            &&& fields[2].0 == "output"@
            &&& status.output matches Some(text) ==> fields[2].1 == JsonView::Str(text)
            &&& status.output is None ==> fields[2].1 == JsonView::Null
            &&& fields[3].0 == "error"@
            &&& status.error matches Some(text) ==> fields[3].1 == JsonView::Str(text)
            &&& status.error is None ==> fields[3].1 == JsonView::Null
            &&& fields[4].0 == "duration_ms"@
            &&& status.duration_ms matches Some(ms) ==> fields[4].1 == JsonView::UInt(ms)
            &&& status.duration_ms is None ==> fields[4].1 == JsonView::Null
            &&& fields[5].0 == "report"@
            &&& status.report matches Some(report) ==> fields[5].1 == report
            &&& status.report is None ==> fields[5].1 == JsonView::Null
            &&& fields[6].0 == "all_notifications"@
            &&& status.all_notifications matches Some(values) ==> fields[6].1 == JsonView::Array(
                values,
            )
            &&& status.all_notifications is None ==> fields[6].1 == JsonView::Null
        },
{
}

} // verus!
