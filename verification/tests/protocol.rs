use bkg_beam::ports::tunnel_id;
use bkg_beam::protocol::{
    connect_line, control_event, parse_request, register_line, registration_accepted, reply_text,
    worker_line, worker_response, ControlEvent, Reply, Request,
};

#[test]
fn request_lines() {
    assert_eq!(register_line("22-me_up-22"), "REGISTER 22-me_up-22\n");
    assert_eq!(connect_line("22-me_up-22"), "CONNECT 22-me_up-22\n");
    assert_eq!(worker_line("22-me_up-22"), "WORKER 22-me_up-22\n");
}

#[test]
fn parse_known_commands() {
    assert!(matches!(parse_request("REGISTER 22-me_up-22\n"), Request::Register(id) if id == "22-me_up-22"));
    assert!(matches!(parse_request("CONNECT abc\n"), Request::Connect(id) if id == "abc"));
    assert!(matches!(parse_request("WORKER abc\r\n"), Request::Worker(id) if id == "abc"));
    assert!(matches!(parse_request("  REGISTER\t id   extra words\n"), Request::Register(id) if id == "id"));
    assert!(matches!(parse_request("WORKER abc"), Request::Worker(id) if id == "abc"));
}

#[test]
fn parse_missing_tunnel_id() {
    assert!(matches!(parse_request("\n"), Request::MissingTunnelId));
    assert!(matches!(parse_request(""), Request::MissingTunnelId));
    assert!(matches!(parse_request("REGISTER\n"), Request::MissingTunnelId));
    assert!(matches!(parse_request("FOO\n"), Request::MissingTunnelId));
}

#[test]
fn parse_unknown_command() {
    assert!(matches!(parse_request("FOO bar\n"), Request::UnknownCommand(c) if c == "FOO"));
    assert!(matches!(parse_request("register id\n"), Request::UnknownCommand(c) if c == "register"));
    assert!(matches!(parse_request("GET / HTTP/1.1\r\n"), Request::UnknownCommand(c) if c == "GET"));
}

#[test]
fn client_lines_read_back_on_the_server() {
    let id = tunnel_id(22, 22);
    assert!(matches!(parse_request(&register_line(&id)), Request::Register(x) if x == id));
    assert!(matches!(parse_request(&connect_line(&id)), Request::Connect(x) if x == id));
    assert!(matches!(parse_request(&worker_line(&id)), Request::Worker(x) if x == id));
}

#[test]
fn reply_texts() {
    assert_eq!(reply_text(&Reply::Accepted), "OK\n");
    assert_eq!(reply_text(&Reply::MissingTunnelId), "ERROR missing tunnel id\n");
    assert_eq!(reply_text(&Reply::UnknownCommand("FOO".to_string())), "ERROR unknown command FOO\n");
    assert_eq!(reply_text(&Reply::TunnelExists), "ERROR tunnel already exists\n");
    assert_eq!(reply_text(&Reply::UnknownTunnel), "ERROR unknown tunnel\n");
    assert_eq!(reply_text(&Reply::Connect), "CONNECT\n");
}

#[test]
fn client_reads_registration_answer() {
    assert!(registration_accepted("OK\n"));
    assert!(registration_accepted("  OK \r\n"));
    assert!(!registration_accepted("ERROR tunnel already exists\n"));
    assert!(!registration_accepted(""));
    assert!(!registration_accepted("OKAY\n"));
    assert!(registration_accepted(&reply_text(&Reply::Accepted)));
}

#[test]
fn client_reads_worker_answer() {
    assert_eq!(worker_response("OK\n"), Ok(()));
    assert_eq!(
        worker_response("ERROR unknown tunnel\n"),
        Err("server rejected worker: ERROR unknown tunnel".to_string())
    );
    assert_eq!(worker_response(""), Err("server rejected worker: ".to_string()));
}

#[test]
fn client_reads_control_lines() {
    assert!(matches!(control_event("CONNECT\n"), ControlEvent::OpenWorker));
    assert!(matches!(control_event(&reply_text(&Reply::Connect)), ControlEvent::OpenWorker));
    assert!(matches!(control_event(" \r\n"), ControlEvent::Ignore));
    assert!(matches!(control_event("\n"), ControlEvent::Ignore));
    assert!(matches!(control_event("PING now\n"), ControlEvent::Unknown(m) if m == "PING now"));
    assert!(matches!(control_event("connect\n"), ControlEvent::Unknown(m) if m == "connect"));
}
