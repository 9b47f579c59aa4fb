use agent::claw_callback::{callback_url, handle_callback, listen_address, CALLBACK_PATH};
use agent::json::Json;

#[test]
fn the_url_names_the_address_and_the_path() {
    assert_eq!(callback_url(8080), "http://127.0.0.1:8080/claw_callback");
    assert_eq!(callback_url(0), "http://127.0.0.1:0/claw_callback");
    assert_eq!(listen_address(65535), "127.0.0.1:65535");
    for port in [0, 80, 8080, 65535] {
        assert_eq!(
            callback_url(port),
            format!("http://{}{}", listen_address(port), CALLBACK_PATH)
        );
    }
}

#[test]
fn a_valid_payload_is_handed_on_unchanged() {
    let text = "{\"session_id\": \"s1\", \"status\": \"done\", \"extra\": [1, 2.5]}";
    let (status, payload) = handle_callback(Json::parse(text).unwrap());
    assert_eq!(status, 200);
    assert_eq!(payload, Json::parse(text));
}

#[test]
fn a_payload_without_session_or_status_is_refused() {
    for text in [
        "{\"session_id\": \"s1\"}",
        "{\"status\": \"done\"}",
        "{\"session_id\": 1, \"status\": \"done\"}",
        "{\"session_id\": \"s1\", \"status\": null}",
        "[]",
        "null",
    ] {
        let (status, payload) = handle_callback(Json::parse(text).unwrap());
        assert_eq!(status, 400);
        assert_eq!(payload, None);
    }
}

#[test]
fn no_two_ports_share_a_url() {
    let mut urls: Vec<String> = (0..=u16::MAX).map(callback_url).collect();
    urls.sort();
    urls.dedup();
    assert_eq!(urls.len(), 65536);
}
