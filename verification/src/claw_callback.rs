//! The callback server: what a subagent posts to it when it completes.
use vstd::prelude::*;
use vstd::string::*;

use crate::json::{Json, JsonView};
use crate::text::{decimal, lemma_decimal, push_decimal};

verus! {

/// The path of the callback.
pub const CALLBACK_PATH: &'static str = "/claw_callback";

/// The status of a callback that is taken up.
pub const STATUS_OK: u16 = 200;

/// The status of a callback that is refused.
pub const STATUS_BAD_REQUEST: u16 = 400;

/// The address that the server of a port listens on.
pub open spec fn address(port: u16) -> Seq<char> {
    "127.0.0.1:"@ + decimal(port as nat)
}

/// The callback URL of a port.
pub open spec fn url(port: u16) -> Seq<char> {
    "http://127.0.0.1:"@ + decimal(port as nat) + "/claw_callback"@
}

/// A payload is valid if it names a session and its status.
pub open spec fn is_valid_payload(payload: JsonView) -> bool {
    payload.str_at("session_id"@) is Some && payload.str_at("status"@) is Some
}

/// The address that the server of a port listens on.
pub fn listen_address(port: u16) -> (r: String)
    ensures
        r@ == address(port),
{
    let mut out: String = "127.0.0.1:".to_owned();
    push_decimal(&mut out, port as u64);
    out
}

/// Answers the payload of a callback: the status, and, for a valid payload, the value to hand to
/// the completion callback.
pub fn handle_callback(payload: Json) -> (r: (u16, Option<Json>))
    ensures
        is_valid_payload(payload@) ==> r == (STATUS_OK, Some(payload)),
        !is_valid_payload(payload@) ==> r == (STATUS_BAD_REQUEST, None::<Json>),
{
    if payload.str_at("session_id").is_none() || payload.str_at("status").is_none() {
        return (STATUS_BAD_REQUEST, None);
    }
    (STATUS_OK, Some(payload))
}

/// Build the callback URL string.
pub fn callback_url(port: u16) -> (r: String)
    ensures
        r@ == url(port),
{
    let mut url: String = "http://127.0.0.1:".to_owned();
    push_decimal(&mut url, port as u64);
    url.append("/claw_callback");
    url
}

/// The callback URL of a port names the address that the server of the port listens on, and the
/// path of the callback.
pub proof fn law_callback_url_reaches_server(port: u16)
    ensures
        url(port) == "http://"@ + address(port) + CALLBACK_PATH@,
{
    reveal_strlit("http://127.0.0.1:");
    reveal_strlit("http://");
    reveal_strlit("127.0.0.1:");
    assert("http://127.0.0.1:"@ == "http://"@ + "127.0.0.1:"@);
    assert(url(port) == "http://"@ + address(port) + CALLBACK_PATH@);
}

/// Two ports never share a callback URL.
pub proof fn law_callback_urls_differ(a: u16, b: u16)
    requires
        a != b,
    ensures
        url(a) != url(b),
{
    if url(a) == url(b) {
        let head = "http://127.0.0.1:"@.len() as int;
        let tail = "/claw_callback"@.len() as int;
        let end = url(a).len() - tail;
        assert(url(a).subrange(head, end) =~= decimal(a as nat));
        assert(url(b).subrange(head, end) =~= decimal(b as nat));
        lemma_decimal(a as nat, b as nat);
    }
}

/// A callback is taken up, with status 200, exactly if strings stand under `session_id` and under
/// `status`; any other is refused with status 400.
pub proof fn law_valid_payload(payload: JsonView)
    ensures
        is_valid_payload(payload) <==> ((payload.get("session_id"@) matches Some(JsonView::Str(_)))
            && (payload.get("status"@) matches Some(JsonView::Str(_)))),
        STATUS_OK == 200,
        STATUS_BAD_REQUEST == 400,
{
}

/// The server of a port listens on it on the local host only, and the callback URL names the host,
/// the port and the path `/claw_callback`.
pub proof fn law_callback_address(port: u16)
    ensures
        address(port) == "127.0.0.1:"@ + decimal(port as nat),
        url(port) == "http://127.0.0.1:"@ + decimal(port as nat) + "/claw_callback"@,
        CALLBACK_PATH@ == "/claw_callback"@,
{
}

} // verus!
