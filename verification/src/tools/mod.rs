//! The tools that an agent can call.
use vstd::prelude::*;
use vstd::string::*;

pub mod check_subagent_status_tool;
pub mod read_errors_tool;
pub mod spawn_agent_tool;

verus! {

/// What a tool does, as a client shows it.
#[derive(Clone, Copy, Debug, PartialEq, Eq, Structural)]
pub enum ToolKind {
    Read,
    Other,
}

/// The name of the notification file of a native subagent.
pub open spec fn native_name(session_id: Seq<char>) -> Seq<char> {
    session_id + ".native.json"@
}

/// The name of the notification file of a native subagent.
pub fn native_file_name(session_id: &str) -> (r: String)
    ensures
        r@ == native_name(session_id@),
{
    let mut name: String = session_id.to_owned();
    name.append(".native.json");
    name
}

/// The notification file of a native subagent has the name of its session before `.native.json`, so
/// two sessions never share one.
pub proof fn law_native_name(session_id: Seq<char>, other: Seq<char>)
    ensures
        native_name(session_id) == session_id + ".native.json"@,
        native_name(session_id) == native_name(other) ==> session_id == other,
{
    if native_name(session_id) == native_name(other) {
        let n = session_id.len() as int;
        assert(native_name(session_id).len() == n + ".native.json"@.len());
        assert(native_name(other).len() == other.len() + ".native.json"@.len());
        assert(native_name(session_id).subrange(0, n) =~= session_id);
        assert(native_name(other).subrange(0, n) =~= other);
    }
}

} // verus!
