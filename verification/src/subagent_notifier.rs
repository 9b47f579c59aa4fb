//! Notifications of completed subagents: which files to take up, and how to tell the agent.
use vstd::prelude::*;
use vstd::relations::*;
use vstd::seq_lib::*;
use vstd::string::*;

use crate::json::{json_parse, Json, JsonView};
use crate::text::{
    borrowed, contains, ends_with, if_nonempty, labelled, law_contains, lemma_contains_part,
    lemma_text_order, nonempty, not_after, optional, optional_str, owned, push_labelled,
    push_seconds, seconds, strings, text_le, text_order, EXACT_SECONDS_LIMIT_MS,
};

verus! {

/// Maximum number of notifications to inject in a single poll cycle
pub const MAX_NOTIFICATIONS_PER_CYCLE: usize = 3;

/// The components of the path of the notifications directory.
pub open spec fn notifications_path(
    home: Option<Seq<char>>,
    user_profile: Option<Seq<char>>,
) -> Seq<Seq<char>> {
    let base = match home {
        Some(h) => h,
        None => match user_profile {
            Some(p) => p,
            None => "."@,
        },
    };
    seq![base, ".claw"@, "sessions"@, "notifications"@]
}

/// Returns the components of the path of the notifications directory, given the values of `HOME`
/// and `USERPROFILE`.
pub fn notifications_dir(home: Option<String>, user_profile: Option<String>) -> (r: Vec<String>)
    ensures
        strings(r@) == notifications_path(optional(home), optional(user_profile)),
{
    let base: String = match home {
        Some(h) => h,
        None => match user_profile {
            Some(p) => p,
            None => ".".to_owned(),
        },
    };
    let mut path: Vec<String> = Vec::new();
    path.push(base);
    path.push(".claw".to_owned());
    path.push("sessions".to_owned());
    path.push("notifications".to_owned());
    path
}

/// Whether a file of the directory is a notification: `.notification.json` is written by claw
/// subagents, `.native.json` by native ones.
pub open spec fn is_notification(name: Seq<char>) -> bool {
    ".notification.json"@.is_suffix_of(name) || ".native.json"@.is_suffix_of(name)
}

/// Which names are those of notification files.
pub open spec fn is_notification_name() -> spec_fn(Seq<char>) -> bool {
    |name: Seq<char>| is_notification(name)
}

/// The notification files among the names.
pub open spec fn notifications(names: Seq<Seq<char>>) -> Seq<Seq<char>> {
    names.filter(is_notification_name())
}

/// The notification files of one poll cycle: the first by name.
pub open spec fn batch(names: Seq<Seq<char>>) -> Seq<Seq<char>> {
    let sorted = notifications(names).sort_by(text_order());
    if sorted.len() > MAX_NOTIFICATIONS_PER_CYCLE {
        sorted.take(MAX_NOTIFICATIONS_PER_CYCLE as int)
    } else {
        sorted
    }
}

/// Whether a file of the directory is a notification.
pub fn is_notification_file(name: &str) -> (r: bool)
    ensures
        r == is_notification(name@),
{
    ends_with(name, ".notification.json") || ends_with(name, ".native.json")
}

/// Puts a name into sorted names, in order.
fn insert_sorted(names: &mut Vec<String>, name: String)
    requires
        sorted_by(strings(old(names)@), text_order()),
    ensures
        sorted_by(strings(final(names)@), text_order()),
        strings(final(names)@).to_multiset() == strings(old(names)@).to_multiset().insert(name@),
{
    broadcast use group_to_multiset_ensures;

    proof {
        lemma_text_order();
    }
    let ghost before = strings(names@);
    let ghost leq = text_order();
    let mut at: usize = names.len();
    while at > 0 && !not_after(names[at - 1].as_str(), name.as_str())
        invariant
            at <= names@.len(),
            before == strings(names@),
            sorted_by(before, leq),
            leq == text_order(),
            total_ordering(leq),
            forall|j: int| at <= j < before.len() ==> #[trigger] leq(name@, before[j]),
        decreases at,
    {
        at -= 1;
        assert(before[at as int] == names@[at as int]@);
        assert(leq(before[at as int], name@) || leq(name@, before[at as int]));
    }
    proof {
        assert forall|j: int| 0 <= j < at implies #[trigger] leq(before[j], name@) by {
            assert(before[at - 1] == names@[at - 1]@);
            assert(leq(before[at - 1], name@));
            if j < at - 1 {
                assert(leq(before[j], before[at - 1]));
            }
        }
    }
    names.insert(at, name);
    proof {
        let after = strings(names@);
        assert(after =~= before.insert(at as int, name@));
        assert forall|i: int, j: int| 0 <= i < j < after.len() implies #[trigger] leq(
            after[i],
            after[j],
        ) by {
            let i0 = if i < at { i } else { i - 1 };
            let j0 = if j < at { j } else { j - 1 };
            if i == at {
                assert(leq(name@, before[j0]));
            } else if j == at {
                assert(leq(before[i0], name@));
            } else {
                assert(leq(before[i0], before[j0]));
            }
        }
    }
}

/// The notification files of one poll cycle, in the order in which to take them up.
pub fn select_batch(names: Vec<String>) -> (r: Vec<String>)
    ensures
        strings(r@) == batch(strings(names@)),
{
    broadcast use group_to_multiset_ensures;

    let ghost all = names@;
    let ghost pred = is_notification_name();
    let mut sorted: Vec<String> = Vec::new();
    proof {
        reveal(Seq::filter);
        assert(strings(sorted@) =~= strings(all).take(0).filter(pred));
    }
    for name in it: names
        invariant
            it.seq() == all,
            pred == is_notification_name(),
            sorted_by(strings(sorted@), text_order()),
            strings(sorted@).to_multiset() == strings(all).take(it.index() as int).filter(
                pred,
            ).to_multiset(),
    {
        proof {
            broadcast use group_to_multiset_ensures;

            reveal(Seq::filter);
            let part = strings(all).take(it.index() + 1);
            assert(part.drop_last() =~= strings(all).take(it.index() as int));
            assert(part.last() == name@);
        }
        if is_notification_file(name.as_str()) {
            insert_sorted(&mut sorted, name);
        }
    }
    proof {
        assert(strings(all).take(all.len() as int) =~= strings(all));
        lemma_text_order();
        notifications(strings(all)).lemma_sort_by_ensures(text_order());
        lemma_sorted_unique(
            strings(sorted@),
            notifications(strings(all)).sort_by(text_order()),
            text_order(),
        );
    }
    let ghost whole = strings(sorted@);
    sorted.truncate(MAX_NOTIFICATIONS_PER_CYCLE);
    assert(strings(sorted@) =~= batch(strings(all)));
    sorted
}

/// A notification from a completed claw subagent.
#[derive(Debug)]
pub struct SubagentNotification {
    pub session_id: String,
    pub status: String,
    pub duration_ms: Option<u64>,
    pub completed_at_ms: Option<u128>,
    pub report: Option<Json>,
    pub error: Option<String>,
}

/// The part of a message on a report.
pub open spec fn report_text(report: JsonView) -> Seq<char> {
    labelled("**Task**: "@, report.str_at("task"@), "\n\n"@) + labelled(
        "**Summary**: "@,
        report.str_at("summary"@),
        "\n\n"@,
    ) + labelled("**Key Findings**: "@, report.str_at("key_findings"@), "\n\n"@) + labelled(
        "**Raw Output**:\n```\n"@,
        nonempty(report.str_at("raw_output"@)),
        "\n```\n\n"@,
    )
}

impl SubagentNotification {
    /// The message, given the duration in seconds as text.
    pub open spec fn message(self, duration: Seq<char>) -> Seq<char> {
        "## Subagent Task Completed\n\n"@ + match self.report {
            Some(report) => report_text(report@),
            None => "**Session**: `"@ + self.session_id@ + "`\n**Status**: `"@ + self.status@
                + "`\n"@,
        } + (if self.duration_ms is Some {
            "**Duration**: "@ + duration + "s\n"@
        } else {
            Seq::empty()
        }) + labelled("**Error**: "@, nonempty(optional(self.error)), "\n"@)
            + "\n*(Use `check_subagent_status` with the session_id for full details)*"@
    }

    /// Format the notification into a human-readable text block suitable for injecting into the
    /// agent's message stream, with the duration in seconds given as text.
    pub fn format_with_seconds(&self, duration: &str) -> (r: String)
        ensures
            r@ == self.message(duration@),
            self.error matches Some(error) ==> (error@.len() > 0 ==> contains(
                r@,
                "**Error**: "@ + error@ + "\n"@,
            )),
            self.report matches Some(report) ==> {
                &&& report@.str_at("task"@) matches Some(task) ==> contains(
                    r@,
                    "**Task**: "@ + task + "\n\n"@,
                )
                &&& report@.str_at("summary"@) matches Some(summary) ==> contains(
                    r@,
                    "**Summary**: "@ + summary + "\n\n"@,
                )
                &&& report@.str_at("key_findings"@) matches Some(findings) ==> contains(
                    r@,
                    "**Key Findings**: "@ + findings + "\n\n"@,
                )
                &&& report@.str_at("raw_output"@) matches Some(raw) ==> (raw.len() > 0 ==> contains(
                    r@,
                    "**Raw Output**:\n```\n"@ + raw + "\n```\n\n"@,
                ))
            },
    {
        proof {
            law_claw_message_holds(*self, duration@);
        }
        self.write_message(duration)
    }

    /// The message, with the duration in seconds given as text.
    fn write_message(&self, duration: &str) -> (r: String)
        ensures
            r@ == self.message(duration@),
    {
        let mut msg: String = "## Subagent Task Completed\n\n".to_owned();
        match &self.report {
            Some(report) => {
                push_labelled(&mut msg, "**Task**: ", report.str_at("task"), "\n\n");
                push_labelled(&mut msg, "**Summary**: ", report.str_at("summary"), "\n\n");
                push_labelled(&mut msg, "**Key Findings**: ", report.str_at("key_findings"), "\n\n");
                push_labelled(
                    &mut msg,
                    "**Raw Output**:\n```\n",
                    if_nonempty(report.str_at("raw_output")),
                    "\n```\n\n",
                );
                assert(msg@ =~= "## Subagent Task Completed\n\n"@ + report_text(report@));
            },
            None => {
                msg.append("**Session**: `");
                msg.append(self.session_id.as_str());
                msg.append("`\n**Status**: `");
                msg.append(self.status.as_str());
                msg.append("`\n");
            },
        }
        if self.duration_ms.is_some() {
            msg.append("**Duration**: ");
            msg.append(duration);
            msg.append("s\n");
        }
        push_labelled(&mut msg, "**Error**: ", if_nonempty(borrowed(&self.error)), "\n");
        msg.append("\n*(Use `check_subagent_status` with the session_id for full details)*");
        msg
    }

    /// Format the notification into a human-readable text block suitable
    /// for injecting into the agent's message stream.
    pub fn format_as_agent_message(&self) -> (r: String)
        requires
            self.duration_ms matches Some(ms) ==> ms < EXACT_SECONDS_LIMIT_MS,
        ensures
            r@ == self.message(
                match self.duration_ms {
                    Some(ms) => seconds(ms as nat),
                    None => Seq::empty(),
                },
            ),
    {
        let mut duration: String = String::new();
        if let Some(ms) = self.duration_ms {
            push_seconds(&mut duration, ms);
        }
        self.format_with_seconds(duration.as_str())
    }
}

/// What a notification file says of a completed subagent.
#[derive(Debug)]
pub struct NativeNotification {
    pub source: String,
    pub status: String,
    pub session_id: String,
    pub duration_ms: u64,
    pub output: Option<String>,
    pub error: Option<String>,
}

/// What a notification file says of a completed subagent, as mathematics.
#[verifier::ext_equal]
pub struct NativeNotificationView {
    pub source: Seq<char>,
    pub status: Seq<char>,
    pub session_id: Seq<char>,
    pub duration_ms: u64,
    pub output: Option<Seq<char>>,
    pub error: Option<Seq<char>>,
}

impl View for NativeNotification {
    type V = NativeNotificationView;

    open spec fn view(&self) -> NativeNotificationView {
        NativeNotificationView {
            source: self.source@,
            status: self.status@,
            session_id: self.session_id@,
            duration_ms: self.duration_ms,
            output: optional(self.output),
            error: optional(self.error),
        }
    }
}

/// A text, or `unknown` where there is none.
pub open spec fn or_unknown(text: Option<Seq<char>>) -> Seq<char> {
    match text {
        Some(t) => t,
        None => "unknown"@,
    }
}

/// What the JSON value of a notification file says.
pub open spec fn native_notification(json: JsonView) -> NativeNotificationView {
    NativeNotificationView {
        source: or_unknown(json.str_at("source"@)),
        status: or_unknown(json.str_at("status"@)),
        session_id: or_unknown(json.str_at("session_id"@)),
        duration_ms: match json.u64_at("duration_ms"@) {
            Some(ms) => ms,
            None => 0,
        },
        output: json.str_at("output"@),
        error: json.str_at("error"@),
    }
}

impl NativeNotificationView {
    /// The message, given the duration in seconds as text.
    pub open spec fn message(self, duration: Seq<char>) -> Seq<char> {
        "## "@ + self.source + " Subagent Completed\n\n**Session**: `"@ + self.session_id
            + "`\n**Status**: `"@ + self.status + "`\n**Duration**: "@ + duration + "s\n\n"@
            + labelled("**Output**:\n```\n"@, nonempty(self.output), "\n```\n\n"@) + labelled(
            "**Error**: "@,
            nonempty(self.error),
            "\n\n"@,
        ) + "*(Use `check_subagent_status` with the session_id for full details)*"@
    }
}

/// A text, or `unknown` where there is none.
pub fn text_or_unknown(text: Option<&str>) -> (r: String)
    ensures
        r@ == or_unknown(optional_str(text)),
{
    match text {
        Some(t) => t.to_owned(),
        None => "unknown".to_owned(),
    }
}

impl NativeNotification {
    /// What the JSON value of a notification file says.
    pub fn from_json(json: &Json) -> (r: NativeNotification)
        ensures
            r@ == native_notification(json@),
    {
        NativeNotification {
            source: text_or_unknown(json.str_at("source")),
            status: text_or_unknown(json.str_at("status")),
            session_id: text_or_unknown(json.str_at("session_id")),
            duration_ms: match json.u64_at("duration_ms") {
                Some(ms) => ms,
                None => 0,
            },
            output: owned(json.str_at("output")),
            error: owned(json.str_at("error")),
        }
    }

    /// The message to the agent, with the duration in seconds given as text.
    pub fn format_with_seconds(&self, duration: &str) -> (r: String)
        ensures
            r@ == self@.message(duration@),
    {
        let mut msg: String = "## ".to_owned();
        msg.append(self.source.as_str());
        msg.append(" Subagent Completed\n\n**Session**: `");
        msg.append(self.session_id.as_str());
        msg.append("`\n**Status**: `");
        msg.append(self.status.as_str());
        msg.append("`\n**Duration**: ");
        msg.append(duration);
        msg.append("s\n\n");
        push_labelled(
            &mut msg,
            "**Output**:\n```\n",
            if_nonempty(borrowed(&self.output)),
            "\n```\n\n",
        );
        push_labelled(&mut msg, "**Error**: ", if_nonempty(borrowed(&self.error)), "\n\n");
        msg.append("*(Use `check_subagent_status` with the session_id for full details)*");
        msg
    }

    /// The message to the agent.
    pub fn format_as_agent_message(&self) -> (r: String)
        requires
            self.duration_ms < EXACT_SECONDS_LIMIT_MS,
        ensures
            r@ == self@.message(seconds(self.duration_ms as nat)),
    {
        let mut duration: String = String::new();
        push_seconds(&mut duration, self.duration_ms);
        self.format_with_seconds(duration.as_str())
    }
}

/// A notification that was read from a file.
#[derive(Debug)]
pub enum Notification {
    /// The file holds a JSON value with an `output`, or one that is no notification of claw.
    Native(NativeNotification),
    /// The file reads as a notification of a claw subagent, and holds no JSON value with an
    /// `output`.
    Claw(SubagentNotification),
}

/// A notification that was read from a file, as mathematics.
pub enum NotificationView {
    Native(NativeNotificationView),
    Claw(SubagentNotification),
}

impl View for Notification {
    type V = NotificationView;

    open spec fn view(&self) -> NotificationView {
        match *self {
            Notification::Native(native) => NotificationView::Native(native@),
            Notification::Claw(claw) => NotificationView::Claw(claw),
        }
    }
}

/// What an optional notification is.
pub open spec fn optional_notification(notification: Option<Notification>) -> Option<
    NotificationView,
> {
    match notification {
        Some(n) => Some(n@),
        None => None,
    }
}

/// The notification of a file, given its content, `None` where it could not be read, and what the
/// content reads as a notification of a claw subagent. A native notification has an `output`; claw
/// writes a `report` in its place.
pub open spec fn taken_up(
    content: Option<Seq<char>>,
    claw: Option<SubagentNotification>,
) -> Option<NotificationView> {
    match content {
        None => None,
        Some(text) => match json_parse(text) {
            Some(json) => if json.get("output"@) is None && claw is Some {
                Some(NotificationView::Claw(claw->0))
            } else {
                Some(NotificationView::Native(native_notification(json)))
            },
            None => match claw {
                Some(c) => Some(NotificationView::Claw(c)),
                None => None,
            },
        },
    }
}

impl Notification {
    /// The duration of the subagent.
    pub open spec fn duration(self) -> Option<u64> {
        match self {
            Notification::Native(native) => Some(native.duration_ms),
            Notification::Claw(claw) => claw.duration_ms,
        }
    }

    /// The message, given the duration in seconds as text.
    pub open spec fn message(self, duration: Seq<char>) -> Seq<char> {
        match self {
            Notification::Native(native) => native@.message(duration),
            Notification::Claw(claw) => claw.message(duration),
        }
    }

    /// Decides on a notification file, given its content, `None` where it could not be read, and
    /// what the content reads as a notification of a claw subagent. `None` leaves the file as it
    /// is; a notification is to be injected, and its file deleted.
    pub fn take_up(content: Option<&str>, claw: Option<SubagentNotification>) -> (r: Option<
        Notification,
    >)
        ensures
            optional_notification(r) == taken_up(optional_str(content), claw),
    {
        match content {
            None => None,
            Some(text) => match Json::parse(text) {
                Some(json) => {
                    if json.get("output").is_none() {
                        if let Some(c) = claw {
                            return Some(Notification::Claw(c));
                        }
                    }
                    Some(Notification::Native(NativeNotification::from_json(&json)))
                },
                None => match claw {
                    Some(c) => Some(Notification::Claw(c)),
                    None => None,
                },
            },
        }
    }

    /// The duration of the subagent in milliseconds.
    pub fn duration_ms(&self) -> (r: Option<u64>)
        ensures
            r == self.duration(),
    {
        match self {
            Notification::Native(native) => Some(native.duration_ms),
            Notification::Claw(claw) => claw.duration_ms,
        }
    }

    /// The message to the agent, with the duration in seconds given as text.
    pub fn format_with_seconds(&self, duration: &str) -> (r: String)
        ensures
            r@ == self.message(duration@),
    {
        match self {
            Notification::Native(native) => native.format_with_seconds(duration),
            Notification::Claw(claw) => claw.format_with_seconds(duration),
        }
    }

    /// The message to the agent.
    pub fn format_as_agent_message(&self) -> (r: String)
        requires
            self.duration() matches Some(ms) ==> ms < EXACT_SECONDS_LIMIT_MS,
        ensures
            r@ == self.message(
                match self.duration() {
                    Some(ms) => seconds(ms as nat),
                    None => Seq::empty(),
                },
            ),
    {
        match self {
            Notification::Native(native) => native.format_as_agent_message(),
            Notification::Claw(claw) => claw.format_as_agent_message(),
        }
    }
}

/// A poll cycle takes up at most the maximum number of notifications, and fewer only where there
/// are fewer; they come in the order of their names, each is one of the notification files, and
/// no file that is left for a later cycle stands before one that is taken up.
pub proof fn law_batch(names: Seq<Seq<char>>)
    ensures
        batch(names).len() == if notifications(names).len() < MAX_NOTIFICATIONS_PER_CYCLE {
            notifications(names).len() as int
        } else {
            MAX_NOTIFICATIONS_PER_CYCLE as int
        },
        sorted_by(batch(names), text_order()),
        forall|name: Seq<char>| #[trigger]
            batch(names).contains(name) ==> names.contains(name) && is_notification(name),
        forall|taken: Seq<char>, left: Seq<char>| #[trigger]
            batch(names).contains(taken) && #[trigger] notifications(names).contains(left)
                && !batch(names).contains(left) ==> text_le(taken, left),
{
    broadcast use group_to_multiset_ensures;

    let leq = text_order();
    let all = notifications(names);
    let sorted = all.sort_by(leq);
    let some = batch(names);
    lemma_text_order();
    all.lemma_sort_by_ensures(leq);
    assert(all.len() == all.to_multiset().len());
    assert(sorted.len() == sorted.to_multiset().len());
    assert forall|name: Seq<char>| #[trigger] some.contains(name) implies names.contains(name)
        && is_notification(name) by {
        let at = choose|at: int| 0 <= at < some.len() && some[at] == name;
        assert(sorted[at] == name);
        assert(sorted.contains(name));
        lemma_filter_contains(names, is_notification_name(), name);
    }
    assert forall|taken: Seq<char>, left: Seq<char>| #[trigger]
        some.contains(taken) && #[trigger] all.contains(left) && !some.contains(
            left,
        ) implies text_le(taken, left) by {
        let at = choose|at: int| 0 <= at < some.len() && some[at] == taken;
        assert(all.to_multiset().contains(left));
        assert(sorted.to_multiset().contains(left));
        assert(sorted.contains(left));
        let other = choose|other: int| 0 <= other < sorted.len() && sorted[other] == left;
        if other < some.len() {
            assert(some[other] == left);
        }
        assert(leq(sorted[at], sorted[other]));
    }
}

/// A notification file of a poll cycle.
#[derive(Debug)]
pub struct NotificationFile {
    pub name: String,
    /// The content of the file, `None` where it could not be read.
    pub content: Option<String>,
    /// What the content reads as a notification of a claw subagent.
    pub claw: Option<SubagentNotification>,
}

impl NotificationFile {
    /// The notification of the file.
    pub open spec fn notification(self) -> Option<NotificationView> {
        taken_up(optional(self.content), self.claw)
    }
}

/// What a poll cycle does: the notifications to inject, in order, each with the name of the file to
/// delete, and whether the thread is to be told of a change.
#[derive(Debug)]
pub struct PollCycle {
    pub taken: Vec<(String, Notification)>,
    pub notify: bool,
}

/// The notifications that are taken up of files, in order, with the names of the files.
pub open spec fn all_taken_up(files: Seq<NotificationFile>) -> Seq<(Seq<char>, NotificationView)>
    decreases files.len(),
{
    if files.len() == 0 {
        Seq::empty()
    } else {
        let before = all_taken_up(files.drop_last());
        match files.last().notification() {
            Some(notification) => before.push((files.last().name@, notification)),
            None => before,
        }
    }
}

impl PollCycle {
    /// The notifications to inject, with the names of their files.
    pub open spec fn injected(self) -> Seq<(Seq<char>, NotificationView)> {
        self.taken@.map_values(|t: (String, Notification)| (t.0@, t.1@))
    }

    /// The poll cycle that takes up the given files.
    pub fn of(files: Vec<NotificationFile>) -> (r: PollCycle)
        ensures
            r.injected() == all_taken_up(files@),
            r.notify == (all_taken_up(files@).len() > 0),
    {
        let ghost all = files@;
        let mut cycle: PollCycle = PollCycle { taken: Vec::new(), notify: false };
        assert(cycle.injected() =~= all_taken_up(all.take(0)));
        for file in it: files
            invariant
                it.seq() == all,
                cycle.injected() == all_taken_up(all.take(it.index() as int)),
                cycle.notify == (cycle.taken@.len() > 0),
        {
            proof {
                let part = all.take(it.index() + 1);
                assert(part.drop_last() =~= all.take(it.index() as int));
                assert(part.last() == file);
            }
            let ghost before = cycle.injected();
            let ghost found = file.notification();
            let ghost name = file.name@;
            if let Some(notification) = Notification::take_up(borrowed(&file.content), file.claw) {
                cycle.taken.push((file.name, notification));
                cycle.notify = true;
                assert(cycle.injected() =~= before.push((name, found->0)));
            }
        }
        assert(all.take(all.len() as int) =~= all);
        assert(cycle.injected().len() == cycle.taken@.len());
        cycle
    }
}

/// A poll cycle of files that can all be read and hold JSON values takes all of them up, in order.
pub proof fn law_valid_files_are_taken_up(files: Seq<NotificationFile>)
    requires
        forall|i: int|
            0 <= i < files.len() ==> (#[trigger] files[i]).content is Some && json_parse(
                files[i].content->0@,
            ) is Some,
    ensures
        all_taken_up(files).len() == files.len(),
        forall|i: int|
            0 <= i < files.len() ==> (#[trigger] all_taken_up(files)[i]).0 == files[i].name@,
    decreases files.len(),
{
    if files.len() > 0 {
        let init = files.drop_last();
        assert forall|i: int| 0 <= i < init.len() implies (#[trigger] init[i]).content is Some
            && json_parse(init[i].content->0@) is Some by {
            assert(init[i] == files[i]);
        }
        law_valid_files_are_taken_up(init);
        assert(files.last() == files[files.len() - 1]);
        assert forall|i: int| 0 <= i < files.len() implies (#[trigger] all_taken_up(files)[i]).0
            == files[i].name@ by {
            if i < init.len() {
                assert(all_taken_up(files)[i] == all_taken_up(init)[i]);
                assert(init[i] == files[i]);
            }
        }
    }
}

/// Whether a name is not among those of the files that were taken up.
pub open spec fn not_taken(taken: Seq<Seq<char>>) -> spec_fn(Seq<char>) -> bool {
    |name: Seq<char>| !taken.contains(name)
}

/// The names that are left after a poll cycle has deleted the files that it took up.
pub open spec fn left_after(names: Seq<Seq<char>>, taken: Seq<Seq<char>>) -> Seq<Seq<char>> {
    names.filter(not_taken(taken))
}

/// No notification is lost: whichever files of its batch a poll cycle takes up, each notification
/// file is one of them, or is left for the next cycle as a notification file, and not both.
pub proof fn law_left_files_are_kept(names: Seq<Seq<char>>, taken: Seq<Seq<char>>)
    ensures
        forall|name: Seq<char>| #[trigger]
            notifications(names).contains(name) ==> (taken.contains(name) <==> !notifications(
                left_after(names, taken),
            ).contains(name)),
{
    let left = left_after(names, taken);
    assert forall|name: Seq<char>| #[trigger] notifications(names).contains(name) implies (
    taken.contains(name) <==> !notifications(left).contains(name)) by {
        lemma_filter_contains(names, is_notification_name(), name);
        lemma_filter_contains(names, not_taken(taken), name);
        lemma_filter_contains(left, is_notification_name(), name);
    }
}

/// The names that are left after poll cycles that take up their whole batches.
pub open spec fn left_after_cycles(names: Seq<Seq<char>>, cycles: nat) -> Seq<Seq<char>>
    decreases cycles,
{
    if cycles == 0 {
        names
    } else {
        let before = left_after_cycles(names, (cycles - 1) as nat);
        left_after(before, batch(before))
    }
}

/// The files that are taken up over poll cycles that take up their whole batches, in order.
pub open spec fn taken_over_cycles(names: Seq<Seq<char>>, cycles: nat) -> Seq<Seq<char>>
    decreases cycles,
{
    if cycles == 0 {
        Seq::empty()
    } else {
        let before = left_after_cycles(names, (cycles - 1) as nat);
        taken_over_cycles(names, (cycles - 1) as nat) + batch(before)
    }
}

/// How many poll cycles it takes for a number of notification files.
pub open spec fn cycles_for(files: nat) -> nat {
    ((files + MAX_NOTIFICATIONS_PER_CYCLE - 1) / MAX_NOTIFICATIONS_PER_CYCLE as int) as nat
}

/// Over as many poll cycles as it takes, with no file added and every file of a batch taken up,
/// each notification file of a directory is taken up exactly once, in the order of the names; each
/// cycle takes up as many as are left, up to the maximum; then no notification file is left, and
/// one more cycle takes up nothing.
pub proof fn law_cycles_take_up_every_file(names: Seq<Seq<char>>)
    requires
        names.no_duplicates(),
    ensures
        ({
            let files = notifications(names);
            let cycles = cycles_for(files.len());
            &&& taken_over_cycles(names, cycles) == files.sort_by(text_order())
            &&& taken_over_cycles(names, cycles).to_multiset() == files.to_multiset()
            &&& taken_over_cycles(names, cycles).no_duplicates()
            &&& sorted_by(taken_over_cycles(names, cycles), text_order())
            &&& forall|cycle: nat|
                cycle < cycles ==> (#[trigger] batch(left_after_cycles(names, cycle))).len() == if (
                files.len() - MAX_NOTIFICATIONS_PER_CYCLE * cycle < MAX_NOTIFICATIONS_PER_CYCLE) {
                    files.len() - MAX_NOTIFICATIONS_PER_CYCLE * cycle
                } else {
                    MAX_NOTIFICATIONS_PER_CYCLE as int
                }
            &&& notifications(left_after_cycles(names, cycles)).len() == 0
            &&& batch(left_after_cycles(names, cycles)).len() == 0
        }),
{
    let files = notifications(names);
    let cycles = cycles_for(files.len());
    let sorted = files.sort_by(text_order());
    lemma_sorted_files(names);
    lemma_cycles(names, cycles);
    assert(MAX_NOTIFICATIONS_PER_CYCLE * cycles >= files.len());
    assert(sorted.take(files.len() as int) =~= sorted);
    assert forall|cycle: nat| cycle < cycles implies (#[trigger] batch(
        left_after_cycles(names, cycle),
    )).len() == if (files.len() - MAX_NOTIFICATIONS_PER_CYCLE * cycle
        < MAX_NOTIFICATIONS_PER_CYCLE) {
        files.len() - MAX_NOTIFICATIONS_PER_CYCLE * cycle
    } else {
        MAX_NOTIFICATIONS_PER_CYCLE as int
    } by {
        lemma_cycles(names, cycle);
    }
    let left = left_after_cycles(names, cycles);
    lemma_sorted_files(left);
}

/// How many of `files` notification files are taken up after some cycles.
spec fn taken_count(files: nat, cycles: nat) -> int {
    if MAX_NOTIFICATIONS_PER_CYCLE * cycles < files {
        MAX_NOTIFICATIONS_PER_CYCLE * cycles
    } else {
        files as int
    }
}

/// Some cycles take up the first files by name, and leave the others.
proof fn lemma_cycles(names: Seq<Seq<char>>, cycles: nat)
    requires
        names.no_duplicates(),
    ensures
        ({
            let sorted = notifications(names).sort_by(text_order());
            let count = taken_count(notifications(names).len(), cycles);
            let left = left_after_cycles(names, cycles);
            &&& left.no_duplicates()
            &&& sorted.len() == notifications(names).len()
            &&& taken_over_cycles(names, cycles) == sorted.take(count)
            &&& notifications(left).sort_by(text_order()) == sorted.skip(count)
        }),
    decreases cycles,
{
    let sorted = notifications(names).sort_by(text_order());
    let count = taken_count(notifications(names).len(), cycles);
    lemma_sorted_files(names);
    if cycles == 0 {
        assert(taken_over_cycles(names, 0) =~= sorted.take(0));
        assert(sorted.skip(0) =~= sorted);
    } else {
        let fewer = (cycles - 1) as nat;
        let before = left_after_cycles(names, fewer);
        let done = taken_count(notifications(names).len(), fewer);
        lemma_cycles(names, fewer);
        lemma_one_cycle(before);
        let rest = sorted.skip(done);
        let now = batch(before).len() as int;
        assert(now == count - done);
        assert(batch(before) =~= rest.take(now));
        assert(sorted.take(done) + rest.take(now) =~= sorted.take(count));
        assert(rest.skip(now) =~= sorted.skip(count));
    }
}

/// A cycle that takes up its whole batch leaves the notification files behind it.
proof fn lemma_one_cycle(names: Seq<Seq<char>>)
    requires
        names.no_duplicates(),
    ensures
        left_after(names, batch(names)).no_duplicates(),
        notifications(left_after(names, batch(names))).sort_by(text_order()) == notifications(
            names,
        ).sort_by(text_order()).skip(batch(names).len() as int),
{
    broadcast use group_to_multiset_ensures;

    let leq = text_order();
    let taken = batch(names);
    let left = left_after(names, taken);
    let files = notifications(left);
    let sorted = notifications(names).sort_by(leq);
    let rest = sorted.skip(taken.len() as int);
    lemma_text_order();
    lemma_sorted_files(names);
    lemma_filter_no_duplicates(names, not_taken(taken));
    lemma_filter_no_duplicates(left, is_notification_name());
    assert(taken =~= sorted.take(taken.len() as int));
    assert(rest.no_duplicates()) by {
        assert forall|i: int, j: int| 0 <= i < rest.len() && 0 <= j < rest.len() && i
            != j implies rest[i] != rest[j] by {
            assert(rest[i] == sorted[i + taken.len()] && rest[j] == sorted[j + taken.len()]);
        }
    }
    assert forall|name: Seq<char>| files.contains(name) <==> rest.contains(name) by {
        lemma_filter_contains(left, is_notification_name(), name);
        lemma_filter_contains(names, not_taken(taken), name);
        lemma_filter_contains(names, is_notification_name(), name);
        assert(sorted.contains(name) <==> notifications(names).contains(name)) by {
            assert(sorted.to_multiset().contains(name) <==> notifications(
                names,
            ).to_multiset().contains(name));
        }
        lemma_take_or_skip(sorted, taken.len() as int, name);
    }
    lemma_same_multiset(files, rest);
    files.lemma_sort_by_ensures(leq);
    assert forall|i: int, j: int| 0 <= i < j < rest.len() implies #[trigger] leq(
        rest[i],
        rest[j],
    ) by {
        assert(leq(sorted[i + taken.len()], sorted[j + taken.len()]));
    }
    lemma_sorted_unique(files.sort_by(leq), rest, leq);
}

/// The notification files sorted by name are the notification files, each once where no name
/// occurs twice.
proof fn lemma_sorted_files(names: Seq<Seq<char>>)
    ensures
        ({
            let files = notifications(names);
            let sorted = files.sort_by(text_order());
            &&& sorted.len() == files.len()
            &&& sorted.to_multiset() == files.to_multiset()
            &&& sorted_by(sorted, text_order())
            &&& names.no_duplicates() ==> sorted.no_duplicates()
        }),
{
    broadcast use group_to_multiset_ensures;

    let files = notifications(names);
    let sorted = files.sort_by(text_order());
    lemma_text_order();
    files.lemma_sort_by_ensures(text_order());
    assert(files.len() == files.to_multiset().len());
    assert(sorted.len() == sorted.to_multiset().len());
    if names.no_duplicates() {
        lemma_filter_no_duplicates(names, is_notification_name());
        files.lemma_multiset_has_no_duplicates();
        sorted.lemma_multiset_has_no_duplicates_conv();
    }
}

/// An element of a sequence without repetition is in its first part or in the rest, and not both.
proof fn lemma_take_or_skip(names: Seq<Seq<char>>, at: int, name: Seq<char>)
    requires
        0 <= at <= names.len(),
        names.no_duplicates(),
    ensures
        names.skip(at).contains(name) <==> names.contains(name) && !names.take(at).contains(name),
{
    if names.skip(at).contains(name) {
        let i = choose|i: int| 0 <= i < names.skip(at).len() && names.skip(at)[i] == name;
        assert(names[i + at] == name);
        if names.take(at).contains(name) {
            let j = choose|j: int| 0 <= j < at && names.take(at)[j] == name;
            assert(names[j] == name);
        }
    }
    if names.contains(name) && !names.take(at).contains(name) {
        let i = choose|i: int| 0 <= i < names.len() && names[i] == name;
        if i < at {
            assert(names.take(at)[i] == name);
        }
        assert(names.skip(at)[i - at] == name);
    }
}

/// Two sequences without repetition that hold the same elements are the same multiset.
proof fn lemma_same_multiset(a: Seq<Seq<char>>, b: Seq<Seq<char>>)
    requires
        a.no_duplicates(),
        b.no_duplicates(),
        forall|name: Seq<char>| a.contains(name) <==> b.contains(name),
    ensures
        a.to_multiset() == b.to_multiset(),
{
    broadcast use group_to_multiset_ensures;

    a.lemma_multiset_has_no_duplicates();
    b.lemma_multiset_has_no_duplicates();
    assert forall|name: Seq<char>| a.to_multiset().count(name) == b.to_multiset().count(name) by {
        assert(a.contains(name) <==> b.contains(name));
        assert(a.to_multiset().contains(name) <==> b.to_multiset().contains(name));
    }
    assert(a.to_multiset() =~= b.to_multiset());
}

/// A filter keeps exactly the elements that pass it.
proof fn lemma_filter_contains(
    names: Seq<Seq<char>>,
    pred: spec_fn(Seq<char>) -> bool,
    name: Seq<char>,
)
    ensures
        names.filter(pred).contains(name) <==> names.contains(name) && pred(name),
    decreases names.len(),
{
    reveal(Seq::filter);
    if names.len() > 0 {
        let init = names.drop_last();
        lemma_filter_contains(init, pred, name);
        if names.contains(name) && name != names.last() {
            let at = choose|at: int| 0 <= at < names.len() && names[at] == name;
            assert(init[at] == name);
        }
        if init.contains(name) {
            let at = choose|at: int| 0 <= at < init.len() && init[at] == name;
            assert(names[at] == name);
        }
        assert(names[names.len() - 1] == names.last());
        let before = init.filter(pred);
        if pred(names.last()) {
            let after = before.push(names.last());
            assert(after[before.len() as int] == names.last());
            if before.contains(name) {
                let at = choose|at: int| 0 <= at < before.len() && before[at] == name;
                assert(after[at] == name);
            }
            if after.contains(name) && name != names.last() {
                let at = choose|at: int| 0 <= at < after.len() && after[at] == name;
                assert(before[at] == name);
            }
        }
    }
}

/// A filter adds no repetition.
proof fn lemma_filter_no_duplicates(names: Seq<Seq<char>>, pred: spec_fn(Seq<char>) -> bool)
    requires
        names.no_duplicates(),
    ensures
        names.filter(pred).no_duplicates(),
    decreases names.len(),
{
    reveal(Seq::filter);
    if names.len() > 0 {
        let init = names.drop_last();
        lemma_filter_no_duplicates(init, pred);
        lemma_filter_contains(init, pred, names.last());
        if init.contains(names.last()) {
            let at = choose|at: int| 0 <= at < init.len() && init[at] == names.last();
            assert(names[at] == names[names.len() - 1]);
        }
        let before = init.filter(pred);
        if pred(names.last()) {
            let after = before.push(names.last());
            assert forall|i: int, j: int| 0 <= i < after.len() && 0 <= j < after.len() && i
                != j implies after[i] != after[j] by {
                if i < before.len() {
                    assert(before.contains(before[i]));
                }
                if j < before.len() {
                    assert(before.contains(before[j]));
                }
            }
        }
    }
}

/// The notifications directory lies in `HOME`, else in `USERPROFILE`, else where the program runs.
pub proof fn law_notifications_path(home: Seq<char>, user_profile: Option<Seq<char>>)
    ensures
        notifications_path(Some(home), user_profile) == seq![
            home,
            ".claw"@,
            "sessions"@,
            "notifications"@,
        ],
        notifications_path(None, Some(home)) == seq![
            home,
            ".claw"@,
            "sessions"@,
            "notifications"@,
        ],
        notifications_path(None, None) == seq![".", ".claw", "sessions", "notifications"].map_values(
            |part: &str| part@,
        ),
{
    assert(notifications_path(None, None) =~= seq![
        ".",
        ".claw",
        "sessions",
        "notifications",
    ].map_values(|part: &str| part@));
}

/// A file is a notification exactly if its name is some text before `.notification.json` or before
/// `.native.json`.
pub proof fn law_is_notification(name: Seq<char>)
    ensures
        is_notification(name) <==> exists|stem: Seq<char>|
            #![trigger stem + ".notification.json"@]
            #![trigger stem + ".native.json"@]
            name == stem + ".notification.json"@ || name == stem + ".native.json"@,
{
    lemma_suffix(name, ".notification.json"@);
    lemma_suffix(name, ".native.json"@);
    if is_notification(name) {
        if ".notification.json"@.is_suffix_of(name) {
            let stem = name.subrange(0, name.len() - ".notification.json"@.len());
            assert(name == stem + ".notification.json"@);
        } else {
            let stem = name.subrange(0, name.len() - ".native.json"@.len());
            assert(name == stem + ".native.json"@);
        }
    }
}

/// A name ends with a suffix exactly if it is some text before it.
proof fn lemma_suffix(name: Seq<char>, suffix: Seq<char>)
    ensures
        suffix.is_suffix_of(name) ==> name == name.subrange(0, name.len() - suffix.len()) + suffix,
        forall|stem: Seq<char>| name == #[trigger] (stem + suffix) ==> suffix.is_suffix_of(name),
{
    let n = suffix.len() as int;
    if suffix.is_suffix_of(name) {
        assert(name =~= name.subrange(0, name.len() - n) + suffix);
    }
    assert forall|stem: Seq<char>| name == #[trigger] (stem + suffix) implies suffix.is_suffix_of(
        name,
    ) by {
        assert(name.subrange(name.len() - n, name.len() as int) =~= suffix);
    }
}

/// The names of a directory are gone through in order: one more is kept, behind the others, exactly
/// if it is that of a notification file.
pub proof fn law_notifications(names: Seq<Seq<char>>, name: Seq<char>)
    ensures
        notifications(Seq::empty()).len() == 0,
        is_notification(name) ==> notifications(names.push(name)) == notifications(names).push(name),
        !is_notification(name) ==> notifications(names.push(name)) == notifications(names),
{
    reveal(Seq::filter);
    assert(names.push(name).drop_last() =~= names);
}

/// A poll cycle takes up the first three notification files by name, or all where there are fewer.
pub proof fn law_batch_is_first_by_name(names: Seq<Seq<char>>)
    ensures
        notifications(names).len() <= 3 ==> batch(names) == notifications(names).sort_by(
            |a: Seq<char>, b: Seq<char>| text_le(a, b),
        ),
        notifications(names).len() > 3 ==> batch(names) == notifications(names).sort_by(
            |a: Seq<char>, b: Seq<char>| text_le(a, b),
        ).take(3),
{
    lemma_sorted_files(names);
    assert(text_order() =~= |a: Seq<char>, b: Seq<char>| text_le(a, b));
}

/// What a JSON value says of a subagent: the strings under `source`, `status` and `session_id`, or
/// `unknown`; the integer under `duration_ms`, or 0; and the strings under `output` and `error`.
pub proof fn law_native_notification(json: JsonView)
    ensures
        ({
            let native = native_notification(json);
            &&& json.get("source"@) matches Some(JsonView::Str(s)) ==> native.source == s
            &&& !(json.get("source"@) matches Some(JsonView::Str(_))) ==> native.source
                == "unknown"@
            &&& json.get("status"@) matches Some(JsonView::Str(s)) ==> native.status == s
            &&& !(json.get("status"@) matches Some(JsonView::Str(_))) ==> native.status
                == "unknown"@
            &&& json.get("session_id"@) matches Some(JsonView::Str(s)) ==> native.session_id == s
            &&& !(json.get("session_id"@) matches Some(JsonView::Str(_))) ==> native.session_id
                == "unknown"@
            &&& json.get("duration_ms"@) matches Some(JsonView::UInt(ms)) ==> native.duration_ms
                == ms
            &&& !(json.get("duration_ms"@) matches Some(JsonView::UInt(_))) ==> native.duration_ms
                == 0
            &&& json.get("output"@) matches Some(JsonView::Str(s)) ==> native.output == Some(s)
            &&& !(json.get("output"@) matches Some(JsonView::Str(_))) ==> native.output is None
            &&& json.get("error"@) matches Some(JsonView::Str(s)) ==> native.error == Some(s)
            &&& !(json.get("error"@) matches Some(JsonView::Str(_))) ==> native.error is None
        }),
{
}

/// The message on a subagent with a notification of its own tells its source, session, status and
/// duration, and its output and its error where they are not empty, each behind its label, and in
/// this order; and nothing else but how to ask for more.
pub proof fn law_native_message(native: NativeNotificationView, duration: Seq<char>)
    ensures
        native.message(duration) == "## "@ + native.source + " Subagent Completed\n\n**Session**: `"@
            + native.session_id + "`\n**Status**: `"@ + native.status + "`\n**Duration**: "@
            + duration + "s\n\n"@ + (if native.output is Some && native.output->0.len() > 0 {
            "**Output**:\n```\n"@ + native.output->0 + "\n```\n\n"@
        } else {
            Seq::empty()
        }) + (if native.error is Some && native.error->0.len() > 0 {
            "**Error**: "@ + native.error->0 + "\n\n"@
        } else {
            Seq::empty()
        }) + "*(Use `check_subagent_status` with the session_id for full details)*"@,
        native.output matches Some(output) && output.len() > 0 ==> contains(
            native.message(duration),
            "**Output**:\n```\n"@ + native.output->0 + "\n```\n\n"@,
        ),
        native.error matches Some(error) && error.len() > 0 ==> contains(
            native.message(duration),
            "**Error**: "@ + native.error->0 + "\n\n"@,
        ),
{
    let head = "## "@ + native.source + " Subagent Completed\n\n**Session**: `"@ + native.session_id
        + "`\n**Status**: `"@ + native.status + "`\n**Duration**: "@ + duration + "s\n\n"@;
    let output = labelled("**Output**:\n```\n"@, nonempty(native.output), "\n```\n\n"@);
    let error = labelled("**Error**: "@, nonempty(native.error), "\n\n"@);
    let tail = "*(Use `check_subagent_status` with the session_id for full details)*"@;
    law_contains(head, output, error + tail);
    assert(head + output + (error + tail) =~= native.message(duration));
    law_contains(head + output, error, tail);
}

/// The message on a claw subagent begins with its heading. It tells the task, the summary, the key
/// findings and, where it is not empty, the raw output of its report, or else its session and its
/// status; then its duration where there is one, and its error where it is not empty; each behind
/// its label, and in this order; and nothing else but how to ask for more.
pub proof fn law_claw_message(claw: SubagentNotification, duration: Seq<char>)
    ensures
        claw.message(duration) == "## Subagent Task Completed\n\n"@ + (match claw.report {
            Some(report) => (match report@.get("task"@) {
                Some(JsonView::Str(task)) => "**Task**: "@ + task + "\n\n"@,
                _ => Seq::empty(),
            }) + (match report@.get("summary"@) {
                Some(JsonView::Str(summary)) => "**Summary**: "@ + summary + "\n\n"@,
                _ => Seq::empty(),
            }) + (match report@.get("key_findings"@) {
                Some(JsonView::Str(findings)) => "**Key Findings**: "@ + findings + "\n\n"@,
                _ => Seq::empty(),
            }) + (match report@.get("raw_output"@) {
                Some(JsonView::Str(raw)) => if raw.len() > 0 {
                    "**Raw Output**:\n```\n"@ + raw + "\n```\n\n"@
                } else {
                    Seq::empty()
                },
                _ => Seq::empty(),
            }),
            None => "**Session**: `"@ + claw.session_id@ + "`\n**Status**: `"@ + claw.status@
                + "`\n"@,
        }) + (if claw.duration_ms is Some {
            "**Duration**: "@ + duration + "s\n"@
        } else {
            Seq::empty()
        }) + (match claw.error {
            Some(error) => if error@.len() > 0 {
                "**Error**: "@ + error@ + "\n"@
            } else {
                Seq::empty()
            },
            None => Seq::empty(),
        }) + "\n*(Use `check_subagent_status` with the session_id for full details)*"@,
{
}

/// The message on a claw subagent holds its error, whatever its report and its duration, its
/// duration, and each part of its report, behind their labels.
pub proof fn law_claw_message_holds(
    claw: SubagentNotification,
    duration: Seq<char>,
)
    ensures
        claw.error matches Some(error) ==> (error@.len() > 0 ==> contains(
            claw.message(duration),
            "**Error**: "@ + error@ + "\n"@,
        )),
        claw.duration_ms is Some ==> contains(
            claw.message(duration),
            "**Duration**: "@ + duration + "s\n"@,
        ),
        claw.report is None ==> contains(
            claw.message(duration),
            "**Session**: `"@ + claw.session_id@ + "`\n**Status**: `"@ + claw.status@ + "`\n"@,
        ),
        claw.report matches Some(report) ==> {
            &&& report@.get("task"@) matches Some(JsonView::Str(task)) ==> contains(
                claw.message(duration),
                "**Task**: "@ + task + "\n\n"@,
            )
            &&& report@.get("summary"@) matches Some(JsonView::Str(summary)) ==> contains(
                claw.message(duration),
                "**Summary**: "@ + summary + "\n\n"@,
            )
            &&& report@.get("key_findings"@) matches Some(JsonView::Str(findings)) ==> contains(
                claw.message(duration),
                "**Key Findings**: "@ + findings + "\n\n"@,
            )
            &&& report@.get("raw_output"@) matches Some(JsonView::Str(raw)) ==> (raw.len() > 0
                ==> contains(
                claw.message(duration),
                "**Raw Output**:\n```\n"@ + raw + "\n```\n\n"@,
            ))
        },
{
    let head = "## Subagent Task Completed\n\n"@;
    let middle = match claw.report {
        Some(report) => report_text(report@),
        None => "**Session**: `"@ + claw.session_id@ + "`\n**Status**: `"@ + claw.status@ + "`\n"@,
    };
    let ran = if claw.duration_ms is Some {
        "**Duration**: "@ + duration + "s\n"@
    } else {
        Seq::empty()
    };
    let error = labelled("**Error**: "@, nonempty(optional(claw.error)), "\n"@);
    let tail = "\n*(Use `check_subagent_status` with the session_id for full details)*"@;
    let message = claw.message(duration);
    assert(message == head + middle + ran + error + tail);
    law_contains(head + middle + ran, error, tail);
    law_contains(head + middle, ran, error + tail);
    assert(head + middle + ran + (error + tail) =~= message);
    law_contains(head, middle, ran + error + tail);
    assert(head + middle + (ran + error + tail) =~= message);
    if let Some(report) = claw.report {
        lemma_report_holds(report@, head, ran + error + tail);
    }
}

/// A text with a report in it holds each part of the report.
proof fn lemma_report_holds(report: JsonView, before: Seq<char>, after: Seq<char>)
    ensures
        ({
            let text = before + report_text(report) + after;
            &&& report.get("task"@) matches Some(JsonView::Str(task)) ==> contains(
                text,
                "**Task**: "@ + task + "\n\n"@,
            )
            &&& report.get("summary"@) matches Some(JsonView::Str(summary)) ==> contains(
                text,
                "**Summary**: "@ + summary + "\n\n"@,
            )
            &&& report.get("key_findings"@) matches Some(JsonView::Str(findings)) ==> contains(
                text,
                "**Key Findings**: "@ + findings + "\n\n"@,
            )
            &&& report.get("raw_output"@) matches Some(JsonView::Str(raw)) ==> (raw.len() > 0
                ==> contains(text, "**Raw Output**:\n```\n"@ + raw + "\n```\n\n"@))
        }),
{
    let task = labelled("**Task**: "@, report.str_at("task"@), "\n\n"@);
    let summary = labelled("**Summary**: "@, report.str_at("summary"@), "\n\n"@);
    let findings = labelled("**Key Findings**: "@, report.str_at("key_findings"@), "\n\n"@);
    let raw = labelled(
        "**Raw Output**:\n```\n"@,
        nonempty(report.str_at("raw_output"@)),
        "\n```\n\n"@,
    );
    let text = report_text(report);
    assert(text == task + summary + findings + raw);
    law_contains(Seq::empty(), task, summary + findings + raw);
    assert(Seq::empty() + task + (summary + findings + raw) =~= text);
    lemma_contains_part(before, text, after, task);
    law_contains(task, summary, findings + raw);
    assert(task + summary + (findings + raw) =~= text);
    lemma_contains_part(before, text, after, summary);
    law_contains(task + summary, findings, raw);
    lemma_contains_part(before, text, after, findings);
    law_contains(task + summary + findings, raw, Seq::empty());
    assert(task + summary + findings + raw + Seq::empty() =~= text);
    lemma_contains_part(before, text, after, raw);
}

/// A file that cannot be read, or that is read neither as JSON nor as a notification of claw, is
/// left. A JSON value with an `output` is a native notification, whatever else it is read as; one
/// without is a notification of claw if it is read as one. What is no JSON value but is read as a
/// notification of claw is one.
pub proof fn law_taken_up(text: Seq<char>, claw: SubagentNotification, json: JsonView)
    ensures
        taken_up(None, None) is None,
        taken_up(None, Some(claw)) is None,
        json_parse(text) is None ==> taken_up(Some(text), None) is None && taken_up(
            Some(text),
            Some(claw),
        ) == Some(NotificationView::Claw(claw)),
        json_parse(text) == Some(json) ==> taken_up(Some(text), None) == Some(
            NotificationView::Native(native_notification(json)),
        ),
        json_parse(text) == Some(json) && json.get("output"@) is Some ==> taken_up(
            Some(text),
            Some(claw),
        ) == Some(NotificationView::Native(native_notification(json))),
        json_parse(text) == Some(json) && json.get("output"@) is None ==> taken_up(
            Some(text),
            Some(claw),
        ) == Some(NotificationView::Claw(claw)),
{
}

/// The files of a poll cycle are gone through in order: one more that is taken up is injected behind
/// the others, under its name, and one that is not changes nothing.
pub proof fn law_one_more_taken_up(files: Seq<NotificationFile>, file: NotificationFile)
    ensures
        all_taken_up(Seq::empty()).len() == 0,
        taken_up(optional(file.content), file.claw) matches Some(notification) ==> all_taken_up(
            files.push(file),
        ) == all_taken_up(files).push((file.name@, notification)),
        taken_up(optional(file.content), file.claw) is None ==> all_taken_up(files.push(file))
            == all_taken_up(files),
{
    assert(files.push(file).drop_last() =~= files);
}

/// Notifications are held field by field, and tell their own message and duration.
pub proof fn law_notification_views(
    native: NativeNotification,
    claw: SubagentNotification,
    cycle: PollCycle,
    i: int,
    duration: Seq<char>,
)
    requires
        0 <= i < cycle.taken@.len(),
    ensures
        native@.source == native.source@,
        native@.status == native.status@,
        native@.session_id == native.session_id@,
        native@.duration_ms == native.duration_ms,
        native.output matches Some(text) ==> native@.output == Some(text@),
        native.output is None ==> native@.output is None,
        native.error matches Some(text) ==> native@.error == Some(text@),
        native.error is None ==> native@.error is None,
        Notification::Native(native)@ == NotificationView::Native(native@),
        Notification::Claw(claw)@ == NotificationView::Claw(claw),
        optional_notification(Some(Notification::Claw(claw))) == Some(NotificationView::Claw(claw)),
        optional_notification(Some(Notification::Native(native))) == Some(
            NotificationView::Native(native@),
        ),
        optional_notification(None) is None,
        Notification::Native(native).duration() == Some(native.duration_ms),
        Notification::Claw(claw).duration() == claw.duration_ms,
        Notification::Native(native).message(duration) == native@.message(duration),
        Notification::Claw(claw).message(duration) == claw.message(duration),
        cycle.injected().len() == cycle.taken@.len(),
        cycle.injected()[i] == (cycle.taken@[i].0@, cycle.taken@[i].1@),
{
}

} // verus!
