use chat_sync::session::{Session, Identity, ConnState, FrameOutcome};

fn open_session(session_id: &str) -> Session {
    let mut s = Session::new();
    let id = Identity {
        session_id: session_id.to_string(),
        display_name: session_id.to_string(),
    };
    assert!(s.start(Some(id)).is_ok());
    assert_eq!(s.state(), ConnState::Connecting);
    let announce = s.opened();
    assert_eq!(announce, "i am back online!");
    assert_eq!(s.state(), ConnState::Open);
    s
}

#[test]
fn start_without_identity_is_refused() {
    let mut s = Session::new();
    assert!(s.start(None).is_err());
    assert_eq!(s.state(), ConnState::Disconnected);
}

#[test]
fn start_seeds_the_default_room() {
    let s = open_session("me");
    assert!(s.contains_room("main"));
    assert!(s.members_of("main").is_empty());
}

#[test]
fn snapshot_join_rename_self_quit_scenario() {
    let mut s = open_session("s1");

    assert!(matches!(s.handle_frame("list:{\"general\":{}}"), FrameOutcome::Redraw));
    assert!(s.contains_room("general"));
    assert!(s.members_of("general").is_empty());
    assert!(!s.contains_room("main"));

    assert!(matches!(
        s.handle_frame("join_room:{\"session_id\":\"s1\",\"name\":\"Alice\",\"room\":\"general\"}"),
        FrameOutcome::Redraw
    ));
    assert_eq!(s.member_name("general", "s1").as_deref(), Some("Alice"));

    assert!(matches!(
        s.handle_frame("update_name:{\"session_id\":\"s1\",\"name\":\"Ally\",\"old_name\":\"Alice\"}"),
        FrameOutcome::Redraw
    ));
    assert_eq!(s.member_name("general", "s1").as_deref(), Some("Ally"));

    assert!(matches!(
        s.handle_frame("quit_room:{\"session_id\":\"s1\",\"name\":\"Ally\",\"room\":\"general\"}"),
        FrameOutcome::Redraw
    ));
    assert!(!s.contains_room("general"));
}

#[test]
fn send_while_disconnected_fails_and_appends_nothing() {
    let mut s = Session::new();
    assert!(s.send_local("hi").is_err());
    assert_eq!(s.history_len("main"), 0);
    assert!(s.read_history("main").is_empty());
}

#[test]
fn send_without_selected_room_fails() {
    let mut s = open_session("me");
    assert!(s.send_local("hi").is_err());
    assert_eq!(s.history_len("main"), 0);
}

#[test]
fn accepted_send_appends_an_own_copy() {
    let mut s = open_session("me");
    s.open_conversation("main");
    let out = s.send_local("hi").expect("send should be accepted");
    assert_eq!(out, "hi");
    let history = s.read_history("main");
    assert_eq!(history.len(), 1);
    assert_eq!(history[0].id, 0u128);
    assert_eq!(history[0].room, "main");
    assert_eq!(history[0].content, "hi");
    assert_eq!(history[0].from_name, "me");
    assert!(history[0].is_own);
}

#[test]
fn chat_with_dialog_closed_raises_toast_and_appends() {
    let mut s = open_session("me");
    let frame =
        "message:{\"id\":3,\"room\":\"general\",\"from_id\":\"s2\",\"from_name\":\"Bob\",\"content\":\"yo\",\"time\":\"t\"}";
    match s.handle_frame(frame) {
        FrameOutcome::Toast(m) => {
            assert_eq!(m.room, "general");
            assert_eq!(m.from_name, "Bob");
            assert_eq!(m.content, "yo");
        }
        _ => panic!("a chat with the view closed must raise a toast"),
    }
    assert_eq!(s.history_len("general"), 1);
}

#[test]
fn chat_with_dialog_open_redraws_and_appends() {
    let mut s = open_session("me");
    s.open_conversation("general");
    assert!(s.dialog_visible());
    let frame =
        "message:{\"id\":4,\"room\":\"general\",\"from_id\":\"s2\",\"from_name\":\"Bob\",\"content\":\"yo\",\"time\":\"t\"}";
    assert!(matches!(s.handle_frame(frame), FrameOutcome::Redraw));
    assert_eq!(s.history_len("general"), 1);
    let history = s.read_history("general");
    assert!(!history[0].is_own);
    assert_eq!(history[0].id, 4u128);
}

#[test]
fn malformed_frame_is_dropped_without_losing_state() {
    let mut s = open_session("me");
    s.handle_frame("list:{\"general\":{\"s2\":\"Bob\"}}");
    assert!(matches!(s.handle_frame("list:{oops"), FrameOutcome::Dropped));
    assert!(s.contains_room("general"));
    assert_eq!(s.member_name("general", "s2").as_deref(), Some("Bob"));
}

#[test]
fn history_length_never_decreases_across_events() {
    let mut s = open_session("me");
    let chat =
        "message:{\"id\":1,\"room\":\"g\",\"from_id\":\"s2\",\"from_name\":\"B\",\"content\":\"x\",\"time\":\"\"}";
    s.handle_frame(chat);
    assert_eq!(s.history_len("g"), 1);
    s.handle_frame("list:{}");
    assert_eq!(s.history_len("g"), 1);
    s.handle_frame(chat);
    assert_eq!(s.history_len("g"), 2);
    s.handle_frame("quit_room:{\"session_id\":\"me\",\"name\":\"Me\",\"room\":\"g\"}");
    assert_eq!(s.history_len("g"), 2);
}

#[test]
fn close_and_error_transitions() {
    let mut s = open_session("me");
    s.request_close();
    assert_eq!(s.state(), ConnState::Closing);
    s.connection_closed();
    assert_eq!(s.state(), ConnState::Closed);

    let mut t = open_session("me");
    t.transport_failed();
    assert_eq!(t.state(), ConnState::Disconnected);
    // no automatic retry: a transport failure leaves the session inert
    assert!(t.send_local("hi").is_err());
}

#[test]
fn closing_the_conversation_does_not_close_the_socket() {
    let mut s = open_session("me");
    s.open_conversation("main");
    s.close_conversation();
    assert!(!s.dialog_visible());
    assert_eq!(s.state(), ConnState::Open);
}

#[test]
fn unknown_tag_redraws_and_changes_nothing() {
    let mut s = open_session("me");
    assert!(matches!(s.handle_frame("update_session:{}"), FrameOutcome::Redraw));
    assert!(s.contains_room("main"));
    assert_eq!(s.room_names().len(), 1);
}
