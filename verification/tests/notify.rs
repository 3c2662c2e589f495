use chat_sync::notify::{MessageItemType, MessageItemValue, MessageListValue, push, remove, ok,
    warn, info, error, message};

#[test]
fn system_toast_kinds_and_timeouts() {
    let mut board: MessageListValue = Vec::new();
    ok(&mut board, "saved");
    warn(&mut board, "careful");
    info(&mut board, "fyi");
    error(&mut board, "broke");

    assert_eq!(board.len(), 4);
    assert_eq!(board[0].kind, MessageItemType::Success);
    assert_eq!(board[0].room, "Success");
    assert_eq!(board[0].content, "saved");
    assert_eq!(board[0].timeout, Some(5));

    assert_eq!(board[1].kind, MessageItemType::Warning);
    assert_eq!(board[1].room, "Warning");
    assert_eq!(board[1].timeout, Some(8));

    assert_eq!(board[2].kind, MessageItemType::Info);
    assert_eq!(board[2].room, "Info");
    assert_eq!(board[2].timeout, Some(5));

    assert_eq!(board[3].kind, MessageItemType::Danger);
    assert_eq!(board[3].room, "Error");
    assert_eq!(board[3].content, "broke");
    assert_eq!(board[3].timeout, Some(10));

    for toast in &board {
        assert!(toast.from.is_none());
        assert!(toast.from_id.is_none());
    }
}

#[test]
fn incoming_chat_toast_has_no_timeout() {
    let mut board: MessageListValue = Vec::new();
    message(&mut board, "general", "s2", "Bob", "hello there");
    assert_eq!(board.len(), 1);
    assert_eq!(board[0].kind, MessageItemType::Primary);
    assert_eq!(board[0].room, "general");
    assert_eq!(board[0].content, "hello there");
    assert_eq!(board[0].from.as_deref(), Some("Bob"));
    assert_eq!(board[0].from_id.as_deref(), Some("s2"));
    assert_eq!(board[0].timeout, None);
}

#[test]
fn remove_dismisses_only_the_matching_toast() {
    let mut board: MessageListValue = Vec::new();
    ok(&mut board, "one");
    ok(&mut board, "two");
    ok(&mut board, "three");
    let target = board[1].id;
    let removed = remove(&mut board, target).expect("the toast is present");
    assert_eq!(removed.content, "two");
    assert_eq!(board.len(), 2);
    assert_eq!(board[0].content, "one");
    assert_eq!(board[1].content, "three");
    assert!(remove(&mut board, target).is_none());
}

#[test]
fn push_keeps_arrival_order() {
    let mut board: MessageListValue = Vec::new();
    let a = MessageItemValue::new(MessageItemType::Dark, "r1", "c1", None, None, None);
    let b = MessageItemValue::new(MessageItemType::Link, "r2", "c2", Some(3), Some("N"), Some("s"));
    push(&mut board, a);
    push(&mut board, b);
    assert_eq!(board.len(), 2);
    assert_eq!(board[0].room, "r1");
    assert_eq!(board[1].room, "r2");
    assert_eq!(board[1].timeout, Some(3));
    assert_eq!(board[1].from.as_deref(), Some("N"));
}
