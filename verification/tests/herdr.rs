use herdr_mission_control::herdr::{
    focus_pane_request, interpret_response, pane_close_request, pane_read_request, snapshot_request,
    ApiError, HerdrClient, Request,
};

fn params(r: &Request) -> Vec<(&str, &str)> {
    r.params.iter().map(|(k, v)| (k.as_str(), v.as_str())).collect()
}

#[test]
fn snapshot_request_has_no_params() {
    let r = snapshot_request();
    assert_eq!(r.id, "expose:snapshot");
    assert_eq!(r.method, "session.snapshot");
    assert!(r.params.is_empty());
}

#[test]
fn read_request_reads_visible_ansi() {
    let r = pane_read_request("p7");
    assert_eq!(r.id, "expose:read");
    assert_eq!(r.method, "pane.read");
    assert_eq!(params(&r), vec![("pane_id", "p7"), ("source", "visible"), ("format", "ansi")]);
}

#[test]
fn close_request_names_the_pane() {
    let r = pane_close_request("p7");
    assert_eq!(r.method, "pane.close");
    assert_eq!(r.id, "expose:close");
    assert_eq!(params(&r), vec![("pane_id", "p7")]);
}

#[test]
fn focus_uses_the_tab_zoom_mode() {
    let r = focus_pane_request("p7", true);
    assert_eq!(r.method, "pane.zoom");
    assert_eq!(r.id, "expose:focus");
    assert_eq!(params(&r), vec![("pane_id", "p7"), ("mode", "on")]);
    let r = focus_pane_request("p7", false);
    assert_eq!(params(&r), vec![("pane_id", "p7"), ("mode", "off")]);
}

#[test]
fn response_error_wins() {
    let e = ApiError { code: "not_found".to_string(), message: "no such pane".to_string() };
    let r: Result<u32, String> = interpret_response(Some(3), Some(e));
    assert_eq!(r, Err("no such pane (not_found)".to_string()));
}

#[test]
fn response_result_or_empty() {
    let r: Result<u32, String> = interpret_response(Some(3), None);
    assert_eq!(r, Ok(3));
    let r: Result<u32, String> = interpret_response(None, None);
    assert_eq!(r, Err("empty response".to_string()));
}

#[test]
fn client_needs_socket_path() {
    match HerdrClient::from_socket_var(None) {
        Err(e) => assert_eq!(e, "HERDR_SOCKET_PATH not set (not launched by herdr?)"),
        Ok(_) => panic!("expected an error"),
    }
    let c = HerdrClient::from_socket_var(Some("/tmp/h.sock".to_string())).ok().unwrap();
    assert_eq!(c.socket(), "/tmp/h.sock");
    assert_eq!(HerdrClient::new("x".to_string()).socket(), "x");
}
