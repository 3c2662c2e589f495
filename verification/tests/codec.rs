use chat_sync::codec::{decode_frame, Event};

fn decode_ok(frame: &str) -> Event {
    match decode_frame(frame) {
        Ok(ev) => ev,
        Err(_) => panic!("frame unexpectedly refused: {}", frame),
    }
}

fn decode_fails(frame: &str) -> bool {
    decode_frame(frame).is_err()
}

#[test]
fn chat_message_frame_decodes() {
    let ev = decode_ok(
        "message:{\"id\":7,\"room\":\"general\",\"from_id\":\"s1\",\"from_name\":\"Alice\",\"content\":\"hi\",\"time\":\"12:00\"}",
    );
    match ev {
        Event::Chat(m) => {
            assert_eq!(m.id, 7u128);
            assert_eq!(m.room, "general");
            assert_eq!(m.from_id, "s1");
            assert_eq!(m.from_name, "Alice");
            assert_eq!(m.content, "hi");
            assert_eq!(m.time, "12:00");
            assert!(!m.is_own);
        }
        _ => panic!("not a chat event"),
    }
}

#[test]
fn chat_message_fields_any_order() {
    let ev = decode_ok(
        "message: { \"content\" : \"hey\" , \"time\" : \"\" , \"id\" : 0 , \"room\" : \"r\" , \"from_name\" : \"B\" , \"from_id\" : \"s2\" } ",
    );
    match ev {
        Event::Chat(m) => {
            assert_eq!(m.id, 0u128);
            assert_eq!(m.room, "r");
            assert_eq!(m.content, "hey");
        }
        _ => panic!("not a chat event"),
    }
}

#[test]
fn chat_message_escapes_unfold() {
    let ev = decode_ok(
        "message:{\"id\":1,\"room\":\"g\",\"from_id\":\"s\",\"from_name\":\"N\",\"content\":\"a\\\"b\\\\c\\nd\",\"time\":\"t\"}",
    );
    match ev {
        Event::Chat(m) => assert_eq!(m.content, "a\"b\\c\nd"),
        _ => panic!("not a chat event"),
    }
}

#[test]
fn chat_message_missing_field_is_dropped() {
    assert!(decode_fails(
        "message:{\"id\":7,\"room\":\"general\",\"from_id\":\"s1\",\"from_name\":\"Alice\",\"content\":\"hi\"}"
    ));
}

#[test]
fn chat_message_duplicate_field_is_dropped() {
    assert!(decode_fails(
        "message:{\"id\":7,\"id\":8,\"room\":\"g\",\"from_id\":\"s\",\"from_name\":\"A\",\"content\":\"c\",\"time\":\"t\"}"
    ));
}

#[test]
fn chat_message_unknown_field_is_dropped() {
    assert!(decode_fails(
        "message:{\"id\":7,\"room\":\"g\",\"from_id\":\"s\",\"from_name\":\"A\",\"content\":\"c\",\"time\":\"t\",\"extra\":\"x\"}"
    ));
}

#[test]
fn chat_message_trailing_garbage_is_dropped() {
    assert!(decode_fails(
        "message:{\"id\":7,\"room\":\"g\",\"from_id\":\"s\",\"from_name\":\"A\",\"content\":\"c\",\"time\":\"t\"}x"
    ));
}

#[test]
fn chat_message_id_overflow_is_dropped() {
    // one more than u128::MAX
    assert!(decode_fails(
        "message:{\"id\":340282366920938463463374607431768211456,\"room\":\"g\",\"from_id\":\"s\",\"from_name\":\"A\",\"content\":\"c\",\"time\":\"t\"}"
    ));
}

#[test]
fn chat_message_id_max_fits() {
    let ev = decode_ok(
        "message:{\"id\":340282366920938463463374607431768211455,\"room\":\"g\",\"from_id\":\"s\",\"from_name\":\"A\",\"content\":\"c\",\"time\":\"t\"}",
    );
    match ev {
        Event::Chat(m) => assert_eq!(m.id, u128::MAX),
        _ => panic!("not a chat event"),
    }
}

#[test]
fn chat_message_leading_zero_is_dropped() {
    assert!(decode_fails(
        "message:{\"id\":01,\"room\":\"g\",\"from_id\":\"s\",\"from_name\":\"A\",\"content\":\"c\",\"time\":\"t\"}"
    ));
}

#[test]
fn unknown_tag_is_ignored() {
    match decode_ok("update_session:whatever") {
        Event::Ignored => {}
        _ => panic!("unknown tag must be ignored"),
    }
    match decode_ok("no tag at all") {
        Event::Ignored => {}
        _ => panic!("untagged frame must be ignored"),
    }
}

#[test]
fn join_frame_decodes() {
    let ev = decode_ok("join_room:{\"session_id\":\"s1\",\"name\":\"Alice\",\"room\":\"general\"}");
    match ev {
        Event::Joined { room, session_id, display_name } => {
            assert_eq!(room, "general");
            assert_eq!(session_id, "s1");
            assert_eq!(display_name, "Alice");
        }
        _ => panic!("not a join event"),
    }
}

#[test]
fn join_frame_empty_name_is_dropped() {
    assert!(decode_fails("join_room:{\"session_id\":\"s1\",\"name\":\"\",\"room\":\"general\"}"));
}

#[test]
fn quit_frame_decodes() {
    let ev = decode_ok("quit_room:{\"session_id\":\"s1\",\"name\":\"Alice\",\"room\":\"general\"}");
    match ev {
        Event::Quit { room, session_id } => {
            assert_eq!(room, "general");
            assert_eq!(session_id, "s1");
        }
        _ => panic!("not a quit event"),
    }
}

#[test]
fn rename_frame_decodes() {
    let ev = decode_ok("update_name:{\"session_id\":\"s1\",\"name\":\"Ally\",\"old_name\":\"Alice\"}");
    match ev {
        Event::Renamed { session_id, display_name } => {
            assert_eq!(session_id, "s1");
            assert_eq!(display_name, "Ally");
        }
        _ => panic!("not a rename event"),
    }
}

#[test]
fn rename_frame_empty_name_is_dropped() {
    assert!(decode_fails("update_name:{\"session_id\":\"s1\",\"name\":\"\",\"old_name\":\"A\"}"));
}

#[test]
fn snapshot_frame_decodes() {
    let ev = decode_ok("list:{\"general\":{\"s1\":\"Alice\"},\"random\":{}}");
    match ev {
        Event::Snapshot(rooms) => {
            assert_eq!(rooms.len(), 2);
            assert_eq!(rooms[0].name, "general");
            assert_eq!(rooms[0].members.len(), 1);
            assert_eq!(rooms[0].members[0].session_id, "s1");
            assert_eq!(rooms[0].members[0].display_name, "Alice");
            assert_eq!(rooms[1].name, "random");
            assert!(rooms[1].members.is_empty());
        }
        _ => panic!("not a snapshot event"),
    }
}

#[test]
fn snapshot_empty_object_decodes() {
    match decode_ok("list:{}") {
        Event::Snapshot(rooms) => assert!(rooms.is_empty()),
        _ => panic!("not a snapshot event"),
    }
}

#[test]
fn snapshot_duplicate_room_is_dropped() {
    assert!(decode_fails("list:{\"g\":{},\"g\":{}}"));
}

#[test]
fn snapshot_empty_member_name_is_dropped() {
    assert!(decode_fails("list:{\"g\":{\"s1\":\"\"}}"));
}

#[test]
fn recognized_tag_with_malformed_payload_is_dropped() {
    assert!(decode_fails("list:not json"));
    assert!(decode_fails("join_room:{"));
    assert!(decode_fails("message:"));
    assert!(decode_fails("quit_room:{\"session_id\":\"s1\"}"));
}
