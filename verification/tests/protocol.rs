//! The client-side parsers, number rendering, the real-time routing
//! decisions, and the small client model types.
use ruggine_modulare::client_model::{HostType, LogLevel, LogMessage, WebSocketError};
use ruggine_modulare::message_parser::{parse_messages, parse_private_messages,
    parse_message_line};
use ruggine_modulare::model::ServerState;
use ruggine_modulare::realtime::{channel_for, render_auth_frame, parse_auth_frame,
    render_auth_response, authenticate_frame, AuthDecision, MessageType, Registry};
use ruggine_modulare::textnum::{fmt_u64, fmt_i64, parse_u64, parse_i64};

#[test]
fn decimal_rendering_and_parsing() {
    assert_eq!(fmt_u64(0), "0");
    assert_eq!(fmt_u64(12345), "12345");
    assert_eq!(fmt_u64(u64::MAX), "18446744073709551615");
    assert_eq!(fmt_i64(-42), "-42");
    assert_eq!(fmt_i64(i64::MIN), "-9223372036854775808");
    assert_eq!(parse_u64("12345"), Some(12345));
    assert_eq!(parse_u64(""), None);
    assert_eq!(parse_u64("12a"), None);
    assert_eq!(parse_u64("99999999999999999999999"), None);
    assert_eq!(parse_i64("-42"), Some(-42));
    assert_eq!(parse_i64("-9223372036854775808"), Some(i64::MIN));
    assert_eq!(parse_i64("9223372036854775808"), None);
}

#[test]
fn batch_parse_round_trip() {
    let lines = parse_messages("OK: Messages:\n[1] alice: hi\n[2] bob: yo\n").unwrap();
    assert_eq!(lines, vec!["[1] alice: hi", "[2] bob: yo"]);
    // the closing empty line and stray blank lines vanish
    let lines = parse_messages("OK: Messages:\n[1] alice: hi\n\n").unwrap();
    assert_eq!(lines, vec!["[1] alice: hi"]);
    assert_eq!(parse_messages("OK: Messages:\n").unwrap(), Vec::<String>::new());
    assert_eq!(parse_messages("OK: Messages:").unwrap(), Vec::<String>::new());
    assert!(parse_messages("ERR: Invalid or expired session").is_err());
    assert!(parse_messages("").is_err());
}

#[test]
fn private_message_lines_parse_and_sort() {
    let parsed = parse_private_messages(
        "OK: Messages:\n[5] bob: later\n[3] alice: first\nnot a message line\n",
    )
    .unwrap();
    assert_eq!(parsed.len(), 2);
    assert_eq!(parsed[0].timestamp, 3);
    assert_eq!(parsed[0].sender, "alice");
    assert_eq!(parsed[0].content, "first");
    assert_eq!(parsed[0].sent_at, 3);
    assert_eq!(parsed[1].timestamp, 5);
    assert_eq!(parsed[1].sender, "bob");
    assert!(parse_private_messages("nope").is_err());
}

#[test]
fn single_line_shapes() {
    let m = parse_message_line("[100] alice: hello there").unwrap();
    assert_eq!(m.timestamp, 100);
    assert_eq!(m.sender, "alice");
    assert_eq!(m.content, "hello there");
    assert!(m.formatted_time.len() == 5 || m.formatted_time.is_empty());
    assert!(parse_message_line("no brackets").is_none());
    assert!(parse_message_line("[12 no close").is_none());
    assert!(parse_message_line("[x] a: b").is_none());
    assert!(parse_message_line("[1] no colon").is_none());
}

#[test]
fn channels_and_auth_frames() {
    assert_eq!(channel_for(MessageType::PrivateMessage, "u2"), "private:u2");
    assert_eq!(channel_for(MessageType::GroupMessage, "g1"), "group:g1");
    assert_eq!(channel_for(MessageType::System, "x"), "system");
    let frame = render_auth_frame("tok-123");
    assert_eq!(frame, "{\"message_type\":\"auth\",\"session_token\":\"tok-123\"}");
    assert_eq!(parse_auth_frame(&frame), Some(String::from("tok-123")));
    assert_eq!(parse_auth_frame("{\"message_type\":\"other\"}"), None);
    assert_eq!(
        render_auth_response(true, "u1"),
        "{\"message_type\":\"auth_response\",\"success\":true,\"user_id\":\"u1\"}"
    );
    assert_eq!(
        render_auth_response(false, "Invalid or expired session token"),
        "{\"message_type\":\"auth_response\",\"success\":false,\"error\":\"Invalid or expired session token\"}"
    );
}

#[test]
fn websocket_authentication_decision() {
    let mut st = ServerState::new();
    st.register("bob", "pw123456").unwrap();
    st.login_with_token("bob", "pw123456", String::from("tok-b"), 10, 100).unwrap();
    let frame = render_auth_frame("tok-b");
    match authenticate_frame(&st, &frame, 20) {
        AuthDecision::Accept(uid) => assert_eq!(uid, "u1"),
        AuthDecision::Reject(_) => panic!("a live token authenticates"),
    }
    match authenticate_frame(&st, &frame, 200) {
        AuthDecision::Accept(_) => panic!("an expired token does not authenticate"),
        AuthDecision::Reject(reason) => assert_eq!(reason, "Invalid or expired session token"),
    }
    match authenticate_frame(&st, "junk", 20) {
        AuthDecision::Accept(_) => panic!("junk does not authenticate"),
        AuthDecision::Reject(reason) => assert_eq!(reason, "Invalid authentication message"),
    }
}

#[test]
fn registry_routes_events() {
    let mut reg = Registry::new();
    reg.add_connection(String::from("c-bob"), String::from("u-bob"));
    reg.add_connection(String::from("c-carol"), String::from("u-carol"));
    reg.add_connection(String::from("c-dave"), String::from("u-dave"));
    let no_members: Vec<String> = Vec::new();
    // a private message reaches exactly its target's connection
    let targets = reg.route_incoming(MessageType::PrivateMessage, "u-alice", "u-bob", &no_members);
    assert_eq!(targets, vec![String::from("c-bob")]);
    let none = reg.route_incoming(MessageType::PrivateMessage, "u-alice", "u-nobody", &no_members);
    assert!(none.is_empty());
    // a group message reaches the connected members other than the sender:
    // dave is connected but no member, so only carol receives it
    let members = vec![
        String::from("u-bob"),
        String::from("u-carol"),
        String::from("u-erin"),
    ];
    let fanout = reg.route_incoming(MessageType::GroupMessage, "u-bob", "g1", &members);
    assert_eq!(fanout, vec![String::from("c-carol")]);
    // a system event reaches everyone
    let all = reg.route_incoming(MessageType::System, "u-alice", "", &no_members);
    assert_eq!(all.len(), 3);
    // a second connection of one user displaces the first
    reg.add_connection(String::from("c-bob2"), String::from("u-bob"));
    let targets = reg.route_incoming(MessageType::PrivateMessage, "u-alice", "u-bob", &no_members);
    assert_eq!(targets, vec![String::from("c-bob2")]);
    reg.remove_connection("c-bob2");
    assert!(reg.route_incoming(MessageType::PrivateMessage, "x", "u-bob", &no_members).is_empty());
}

#[test]
fn client_model_basics() {
    assert_eq!(
        HostType::all(),
        vec![HostType::Localhost, HostType::Remote, HostType::Manual]
    );
    assert_eq!(HostType::Localhost.to_str(), "Localhost");
    assert_eq!(HostType::default(), HostType::Localhost);
    let log = LogMessage { level: LogLevel::Success, message: String::from("done") };
    assert_eq!(log.emoji(), "\u{2705}");
    let err = WebSocketError::Disconnected;
    assert_eq!(err.message(), "WebSocket disconnected");
    let err = WebSocketError::ConnectionFailed(String::from("refused"));
    assert_eq!(err.message(), "Connection failed: refused");
}

#[test]
fn fresh_tokens_are_distinct() {
    let mut st = ServerState::new();
    st.register("alice", "pw123456").unwrap();
    let t1 = st.login("alice", "pw123456", 10, 100).unwrap();
    let t2 = st.login("alice", "pw123456", 11, 100).unwrap();
    assert_eq!(t1.len(), 36);
    assert_eq!(t2.len(), 36);
    assert_ne!(t1, t2);
    // both sessions are live at once: a user may hold several
    assert!(st.validate(&t1, 50).is_some());
    assert!(st.validate(&t2, 50).is_some());
}
