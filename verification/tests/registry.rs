use chat_sync::registry::{RoomRegistry, RoomEntry, MemberEntry};

fn room(name: &str, members: Vec<(&str, &str)>) -> RoomEntry {
    RoomEntry {
        name: name.to_string(),
        members: members
            .into_iter()
            .map(|(sid, dn)| MemberEntry {
                session_id: sid.to_string(),
                display_name: dn.to_string(),
            })
            .collect(),
    }
}

#[test]
fn repeated_joins_leave_one_entry_with_latest_name() {
    let mut reg = RoomRegistry::new();
    reg.apply_join("general", "s1", "Alice", "me");
    // a non-self join into an unknown room does nothing
    assert!(!reg.contains_room("general"));

    reg.apply_snapshot(vec![room("general", vec![])]);
    reg.apply_join("general", "s1", "Alice", "me");
    reg.apply_join("general", "s1", "Al", "me");
    reg.apply_join("general", "s1", "Ally", "me");
    let members = reg.members_of("general");
    assert_eq!(members.len(), 1);
    assert_eq!(members[0].session_id, "s1");
    assert_eq!(members[0].display_name, "Ally");
}

#[test]
fn self_join_materializes_the_room() {
    let mut reg = RoomRegistry::new();
    reg.apply_join("lounge", "me", "Me", "me");
    assert!(reg.contains_room("lounge"));
    assert_eq!(reg.member_name("lounge", "me").as_deref(), Some("Me"));
}

#[test]
fn self_quit_removes_whole_room_despite_other_members() {
    let mut reg = RoomRegistry::new();
    reg.apply_snapshot(vec![room("general", vec![("me", "Me"), ("s2", "Bob")])]);
    reg.apply_quit("general", "me", "me");
    assert!(!reg.contains_room("general"));
}

#[test]
fn foreign_quit_removes_only_that_member() {
    let mut reg = RoomRegistry::new();
    reg.apply_snapshot(vec![room("general", vec![("me", "Me"), ("s2", "Bob")])]);
    reg.apply_quit("general", "s2", "me");
    assert!(reg.contains_room("general"));
    assert_eq!(reg.member_name("general", "s2"), None);
    assert_eq!(reg.member_name("general", "me").as_deref(), Some("Me"));
}

#[test]
fn rename_updates_every_appearance_and_creates_none() {
    let mut reg = RoomRegistry::new();
    reg.apply_snapshot(vec![
        room("a", vec![("s1", "Alice"), ("s2", "Bob")]),
        room("b", vec![("s1", "Alice")]),
        room("c", vec![("s3", "Carol")]),
    ]);
    reg.apply_rename("s1", "Ally");
    assert_eq!(reg.member_name("a", "s1").as_deref(), Some("Ally"));
    assert_eq!(reg.member_name("b", "s1").as_deref(), Some("Ally"));
    assert_eq!(reg.member_name("a", "s2").as_deref(), Some("Bob"));
    assert_eq!(reg.member_name("c", "s3").as_deref(), Some("Carol"));
    // no entry was created for s1 in room c
    assert_eq!(reg.member_name("c", "s1"), None);
    assert_eq!(reg.members_of("c").len(), 1);
}

#[test]
fn snapshot_replaces_everything() {
    let mut reg = RoomRegistry::new();
    reg.apply_snapshot(vec![room("old", vec![("s1", "Alice")])]);
    reg.apply_snapshot(vec![room("new", vec![])]);
    assert!(!reg.contains_room("old"));
    assert!(reg.contains_room("new"));
    let names = reg.room_names();
    assert_eq!(names, vec!["new".to_string()]);
}
