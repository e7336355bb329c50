//! End-to-end exercises of the command dispatcher against one server
//! instance.
use ruggine_modulare::dispatch::{Server, ServerConfig};
use ruggine_modulare::model::{ServerState, SessionEventKind};

fn new_server(max_len: usize, ttl: i64, encrypt: bool) -> Server {
    Server {
        state: ServerState::new(),
        config: ServerConfig {
            max_message_length: max_len,
            session_ttl: ttl,
            enable_encryption: encrypt,
            master_key: String::from("test-master-key"),
        },
    }
}

fn cmd(s: &mut Server, now: i64, line: &str) -> String {
    s.handle_line(line, now)
}

fn token_of(resp: &str) -> String {
    let marker = "SESSION:";
    let at = resp.find(marker).expect("login response carries a session token");
    resp[at + marker.len()..].to_string()
}

#[test]
fn register_login_send_read() {
    let mut s = new_server(512, 3600, true);
    assert_eq!(cmd(&mut s, 100, "/register alice pw123456"), "OK: Registered");
    assert_eq!(cmd(&mut s, 100, "/register bob pw123456"), "OK: Registered");
    let tok_a = token_of(&cmd(&mut s, 101, "/login alice pw123456"));
    let tok_b = token_of(&cmd(&mut s, 101, "/login bob pw123456"));
    let sent = cmd(&mut s, 102, &format!("/send_private_message {} bob hello bob", tok_a));
    assert_eq!(sent, "OK: Message sent");
    let read = cmd(&mut s, 103, &format!("/get_private_messages {} alice", tok_b));
    assert_eq!(read, "OK: Messages:\n[102] alice: hello bob\n");
}

#[test]
fn session_expiry() {
    let mut s = new_server(512, 1, false);
    assert_eq!(cmd(&mut s, 1000, "/register alice pw123456"), "OK: Registered");
    let tok = token_of(&cmd(&mut s, 1000, "/login alice pw123456"));
    assert_eq!(
        cmd(&mut s, 1000, &format!("/validate_session {}", tok)),
        "OK: alice"
    );
    // two seconds later the session has expired
    assert_eq!(
        cmd(&mut s, 1002, &format!("/validate_session {}", tok)),
        "ERR: Invalid or expired session"
    );
    // the reaper's next tick appends an expired event and takes the user offline
    s.state.cleanup_expired_sessions(1002);
    let last = s.state.session_events.last().expect("one event for the reaped session");
    assert!(matches!(last.kind, SessionEventKind::Expired));
    assert!(!s.state.users.iter().any(|u| u.is_online));
}

#[test]
fn group_invite_accept() {
    let mut s = new_server(512, 3600, true);
    assert_eq!(cmd(&mut s, 5, "/register alice pw123456"), "OK: Registered");
    assert_eq!(cmd(&mut s, 5, "/register bob pw123456"), "OK: Registered");
    for i in 0..6 {
        assert_eq!(
            cmd(&mut s, 5, &format!("/register filler{} pw123456", i)),
            "OK: Registered"
        );
    }
    let tok_a = token_of(&cmd(&mut s, 6, "/login alice pw123456"));
    let tok_b = token_of(&cmd(&mut s, 6, "/login bob pw123456"));
    let created = cmd(&mut s, 7, &format!("/create_group {} readers", tok_a));
    assert_eq!(created, "OK: Group created: g1");
    // six earlier invites, so bob's invite carries id seven
    for i in 0..6 {
        let r = cmd(&mut s, 8, &format!("/invite {} g1 filler{}", tok_a, i));
        assert_eq!(r, format!("OK: Invite sent: {}", i + 1));
    }
    assert_eq!(cmd(&mut s, 9, &format!("/invite {} g1 bob", tok_a)), "OK: Invite sent: 7");
    let invites = cmd(&mut s, 10, &format!("/my_invites {}", tok_b));
    assert_eq!(invites, "OK: Invites: 7:readers from:alice");
    assert_eq!(cmd(&mut s, 11, &format!("/accept_invite {} 7", tok_b)), "OK: Joined");
    let groups = cmd(&mut s, 12, &format!("/my_groups {}", tok_b));
    assert_eq!(groups, "OK: My groups: g1:readers");
}

#[test]
fn non_member_cannot_read_group() {
    let mut s = new_server(512, 3600, true);
    assert_eq!(cmd(&mut s, 1, "/register alice pw123456"), "OK: Registered");
    assert_eq!(cmd(&mut s, 1, "/register carol pw123456"), "OK: Registered");
    let tok_a = token_of(&cmd(&mut s, 2, "/login alice pw123456"));
    let tok_c = token_of(&cmd(&mut s, 2, "/login carol pw123456"));
    assert_eq!(
        cmd(&mut s, 3, &format!("/create_group {} private", tok_a)),
        "OK: Group created: g1"
    );
    assert_eq!(
        cmd(&mut s, 4, &format!("/get_group_messages {} g1", tok_c)),
        "ERR: Not a group member"
    );
}

#[test]
fn message_too_long() {
    let mut s = new_server(8, 3600, true);
    assert_eq!(cmd(&mut s, 1, "/register alice pw123456"), "OK: Registered");
    assert_eq!(cmd(&mut s, 1, "/register bob pw123456"), "OK: Registered");
    let tok_a = token_of(&cmd(&mut s, 2, "/login alice pw123456"));
    assert_eq!(
        cmd(&mut s, 3, &format!("/send_private_message {} bob aaaaaaaaa", tok_a)),
        "ERR: Message too long (max 8 chars)"
    );
    // at the bound the message goes through
    assert_eq!(
        cmd(&mut s, 4, &format!("/send_private_message {} bob aaaaaaaa", tok_a)),
        "OK: Message sent"
    );
}

#[test]
fn group_message_round_trip() {
    let mut s = new_server(512, 3600, true);
    assert_eq!(cmd(&mut s, 1, "/register alice pw123456"), "OK: Registered");
    assert_eq!(cmd(&mut s, 1, "/register bob pw123456"), "OK: Registered");
    let tok_a = token_of(&cmd(&mut s, 2, "/login alice pw123456"));
    let tok_b = token_of(&cmd(&mut s, 2, "/login bob pw123456"));
    assert_eq!(
        cmd(&mut s, 3, &format!("/create_group {} crew", tok_a)),
        "OK: Group created: g1"
    );
    assert_eq!(cmd(&mut s, 4, &format!("/join_group {} g1", tok_b)), "OK: Joined group");
    assert_eq!(
        cmd(&mut s, 5, &format!("/send_group_message {} g1 evening all", tok_a)),
        "OK: Message sent"
    );
    assert_eq!(
        cmd(&mut s, 6, &format!("/get_group_messages {} g1", tok_b)),
        "OK: Messages:\n[5] alice: evening all\n"
    );
    // read order follows (sent_at, id): a later message lands below
    assert_eq!(
        cmd(&mut s, 7, &format!("/send_group_message {} g1 good night", tok_b)),
        "OK: Message sent"
    );
    assert_eq!(
        cmd(&mut s, 8, &format!("/get_group_messages {} g1", tok_a)),
        "OK: Messages:\n[5] alice: evening all\n[7] bob: good night\n"
    );
    assert_eq!(
        cmd(&mut s, 9, &format!("/delete_group_messages {} g1", tok_a)),
        "OK: Messages deleted"
    );
    assert_eq!(
        cmd(&mut s, 10, &format!("/get_group_messages {} g1", tok_a)),
        "OK: Messages:\n"
    );
}

#[test]
fn logout_invalidates_token() {
    let mut s = new_server(512, 3600, false);
    assert_eq!(cmd(&mut s, 1, "/register alice pw123456"), "OK: Registered");
    let tok = token_of(&cmd(&mut s, 2, "/login alice pw123456"));
    assert_eq!(cmd(&mut s, 3, &format!("/validate_session {}", tok)), "OK: alice");
    assert_eq!(cmd(&mut s, 4, &format!("/logout {}", tok)), "OK: Logged out");
    assert_eq!(
        cmd(&mut s, 5, &format!("/validate_session {}", tok)),
        "ERR: Invalid or expired session"
    );
    assert_eq!(
        cmd(&mut s, 6, &format!("/validate_session {}", tok)),
        "ERR: Invalid or expired session"
    );
}

#[test]
fn register_conflicts() {
    let mut s = new_server(512, 3600, false);
    assert_eq!(cmd(&mut s, 1, "/register alice pw123456"), "OK: Registered");
    // of two registrations of one username, only the first succeeds
    assert_eq!(cmd(&mut s, 2, "/register alice other999"), "ERR: Username already taken");
    assert_eq!(cmd(&mut s, 3, "/register ab pw123456"), "ERR: Invalid username or password");
    assert_eq!(cmd(&mut s, 4, "/login alice wrongpass"), "ERR: Invalid credentials");
}

#[test]
fn friend_request_lifecycle() {
    let mut s = new_server(512, 3600, false);
    assert_eq!(cmd(&mut s, 1, "/register alice pw123456"), "OK: Registered");
    assert_eq!(cmd(&mut s, 1, "/register bob pw123456"), "OK: Registered");
    let tok_a = token_of(&cmd(&mut s, 2, "/login alice pw123456"));
    let tok_b = token_of(&cmd(&mut s, 2, "/login bob pw123456"));
    assert_eq!(
        cmd(&mut s, 3, &format!("/send_friend_request {} bob shall we", tok_a)),
        "OK: Friend request sent"
    );
    assert_eq!(
        cmd(&mut s, 4, &format!("/send_friend_request {} bob again", tok_a)),
        "ERR: Request already pending"
    );
    assert_eq!(
        cmd(&mut s, 5, &format!("/send_friend_request {} alice me", tok_a)),
        "ERR: Cannot target yourself"
    );
    assert_eq!(
        cmd(&mut s, 6, &format!("/received_friend_requests {}", tok_b)),
        "OK: Received requests: alice: shall we"
    );
    assert_eq!(
        cmd(&mut s, 7, &format!("/sent_friend_requests {}", tok_a)),
        "OK: Sent requests: bob: shall we"
    );
    assert_eq!(
        cmd(&mut s, 8, &format!("/accept_friend_request {} alice", tok_b)),
        "OK: Friend request accepted"
    );
    assert_eq!(cmd(&mut s, 9, &format!("/list_friends {}", tok_a)), "OK: Friends: bob");
    assert_eq!(cmd(&mut s, 9, &format!("/list_friends {}", tok_b)), "OK: Friends: alice");
    assert_eq!(
        cmd(&mut s, 10, &format!("/send_friend_request {} bob more", tok_a)),
        "ERR: Already friends"
    );
    assert_eq!(
        cmd(&mut s, 11, &format!("/accept_friend_request {} bob", tok_a)),
        "ERR: No such request"
    );
}

#[test]
fn directory_lists() {
    let mut s = new_server(512, 3600, false);
    assert_eq!(cmd(&mut s, 1, "/register alice pw123456"), "OK: Registered");
    assert_eq!(cmd(&mut s, 1, "/register bob pw123456"), "OK: Registered");
    let _tok_a = token_of(&cmd(&mut s, 2, "/login alice pw123456"));
    assert_eq!(cmd(&mut s, 3, "/users"), "OK: alice");
    assert_eq!(cmd(&mut s, 3, "/all_users"), "OK: alice, bob");
}

#[test]
fn group_membership_errors() {
    let mut s = new_server(512, 3600, false);
    assert_eq!(cmd(&mut s, 1, "/register alice pw123456"), "OK: Registered");
    assert_eq!(cmd(&mut s, 1, "/register bob pw123456"), "OK: Registered");
    let tok_a = token_of(&cmd(&mut s, 2, "/login alice pw123456"));
    let tok_b = token_of(&cmd(&mut s, 2, "/login bob pw123456"));
    assert_eq!(
        cmd(&mut s, 3, &format!("/create_group {} crew", tok_a)),
        "OK: Group created: g1"
    );
    assert_eq!(
        cmd(&mut s, 4, &format!("/send_group_message {} g9 hi", tok_a)),
        "ERR: Group not found"
    );
    assert_eq!(cmd(&mut s, 5, &format!("/invite {} g1 alice", tok_a)), "ERR: Already a group member");
    assert_eq!(cmd(&mut s, 6, &format!("/invite {} g1 nobody", tok_a)), "ERR: User not found");
    assert_eq!(
        cmd(&mut s, 7, &format!("/invite {} g1 bob", tok_b)),
        "ERR: Not a group member"
    );
    assert_eq!(
        cmd(&mut s, 8, &format!("/accept_invite {} 999", tok_b)),
        "ERR: No such request"
    );
    assert_eq!(cmd(&mut s, 9, &format!("/join_group {} g1", tok_b)), "OK: Joined group");
    assert_eq!(cmd(&mut s, 10, &format!("/join_group {} g1", tok_b)), "ERR: Already a group member");
    assert_eq!(cmd(&mut s, 11, &format!("/leave_group {} g1", tok_b)), "OK: Left group");
    assert_eq!(cmd(&mut s, 12, &format!("/leave_group {} g1", tok_b)), "ERR: Not a group member");
}

#[test]
fn unknown_commands() {
    let mut s = new_server(512, 3600, false);
    assert_eq!(cmd(&mut s, 1, "/bogus"), "ERR: Unknown or invalid command");
    assert_eq!(cmd(&mut s, 1, "/register onlyone"), "ERR: Unknown or invalid command");
    assert_eq!(cmd(&mut s, 1, "/quit"), "OK: Disconnected");
    assert_eq!(cmd(&mut s, 1, ""), "");
}

#[test]
fn legacy_plaintext_rows_survive_an_encryption_upgrade() {
    // rows written while encryption was off are returned as they stand once
    // encryption is turned on
    let mut s = new_server(512, 3600, false);
    assert_eq!(cmd(&mut s, 1, "/register alice pw123456"), "OK: Registered");
    assert_eq!(cmd(&mut s, 1, "/register bob pw123456"), "OK: Registered");
    let tok_a = token_of(&cmd(&mut s, 2, "/login alice pw123456"));
    let tok_b = token_of(&cmd(&mut s, 2, "/login bob pw123456"));
    assert_eq!(
        cmd(&mut s, 3, &format!("/send_private_message {} bob old style", tok_a)),
        "OK: Message sent"
    );
    s.config.enable_encryption = true;
    assert_eq!(
        cmd(&mut s, 4, &format!("/send_private_message {} bob new style", tok_a)),
        "OK: Message sent"
    );
    assert_eq!(
        cmd(&mut s, 5, &format!("/get_private_messages {} alice", tok_b)),
        "OK: Messages:\n[3] alice: old style\n[4] alice: new style\n"
    );
}

#[test]
fn help_lists_every_command() {
    let mut s = new_server(512, 3600, false);
    let help = cmd(&mut s, 1, "/help");
    assert!(help.starts_with("OK: Commands:"));
    for c in [
        "/register", "/login", "/logout", "/validate_session", "/users", "/all_users",
        "/create_group", "/my_groups", "/invite", "/accept_invite", "/reject_invite",
        "/my_invites", "/join_group", "/leave_group", "/send_group_message",
        "/send_private_message", "/get_group_messages", "/get_private_messages",
        "/delete_group_messages", "/delete_private_messages", "/send_friend_request",
        "/accept_friend_request", "/reject_friend_request", "/list_friends",
        "/received_friend_requests", "/sent_friend_requests", "/quit",
    ] {
        assert!(help.contains(c), "help should name {}", c);
    }
}

#[test]
fn delete_private_conversation() {
    let mut s = new_server(512, 3600, true);
    assert_eq!(cmd(&mut s, 1, "/register alice pw123456"), "OK: Registered");
    assert_eq!(cmd(&mut s, 1, "/register bob pw123456"), "OK: Registered");
    let tok_a = token_of(&cmd(&mut s, 2, "/login alice pw123456"));
    let tok_b = token_of(&cmd(&mut s, 2, "/login bob pw123456"));
    assert_eq!(
        cmd(&mut s, 3, &format!("/send_private_message {} bob see you", tok_a)),
        "OK: Message sent"
    );
    assert_eq!(
        cmd(&mut s, 4, &format!("/delete_private_messages {} alice", tok_b)),
        "OK: Messages deleted"
    );
    assert_eq!(
        cmd(&mut s, 5, &format!("/get_private_messages {} bob", tok_a)),
        "OK: Messages:\n"
    );
}
