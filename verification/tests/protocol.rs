use chat_relay::protocol::{
    classify_frame, exit_notice, format_user_message, is_system_notice, join_notice,
    split_user_message, FrameKind,
};

#[test]
fn join_notice_for_bob() {
    assert_eq!(join_notice("Bob"), "-- Bob is entering. --");
}

#[test]
fn exit_notice_for_alice() {
    assert_eq!(exit_notice("Alice"), "-- Alice is exited. --");
}

#[test]
fn notice_for_empty_name() {
    assert_eq!(join_notice(""), "--  is entering. --");
    assert_eq!(exit_notice(""), "--  is exited. --");
}

#[test]
fn user_message_formatting() {
    assert_eq!(format_user_message("Alice", "hi"), "Alice: hi");
    assert_eq!(format_user_message("", ""), ": ");
}

#[test]
fn notices_are_recognised_as_system() {
    assert!(is_system_notice("-- Bob is entering. --"));
    assert!(is_system_notice("-- Alice is exited. --"));
    assert!(is_system_notice("--"));
    assert!(is_system_notice("----"));
}

#[test]
fn user_frames_are_not_system_notices() {
    assert!(!is_system_notice("Bob: hi"));
    assert!(!is_system_notice(""));
    assert!(!is_system_notice("-"));
    assert!(!is_system_notice("--x"));
    assert!(!is_system_notice("x--"));
}

#[test]
fn split_at_first_separator() {
    assert_eq!(
        split_user_message("Bob: hi"),
        Some(("Bob".to_string(), "hi".to_string()))
    );
    assert_eq!(
        split_user_message("a: b: c"),
        Some(("a".to_string(), "b: c".to_string()))
    );
}

#[test]
fn split_without_separator() {
    assert_eq!(split_user_message("no separator"), None);
    assert_eq!(split_user_message(""), None);
    assert_eq!(split_user_message(":"), None);
    assert_eq!(split_user_message("colon: "), Some(("colon".to_string(), "".to_string())));
}

#[test]
fn split_matches_std_splitn_convention() {
    let frame = "Alice: hello: world";
    let parts: Vec<&str> = frame.splitn(2, ": ").collect();
    let (name, body) = split_user_message(frame).unwrap();
    assert_eq!(name, parts[0]);
    assert_eq!(body, parts[1]);
}

#[test]
fn round_trip_of_formatted_message() {
    let framed = format_user_message("Eve", "some: text");
    assert_eq!(
        split_user_message(&framed),
        Some(("Eve".to_string(), "some: text".to_string()))
    );
}

#[test]
fn ambiguous_name_is_misparsed() {
    // A display name holding the separator is misparsed by the
    // convention; the protocol keeps this ambiguity deliberately.
    let framed = format_user_message("a: b", "body");
    assert_eq!(
        split_user_message(&framed),
        Some(("a".to_string(), "b: body".to_string()))
    );
}

#[test]
fn unicode_names_survive() {
    let framed = format_user_message("Zoé", "héllo");
    assert_eq!(
        split_user_message(&framed),
        Some(("Zoé".to_string(), "héllo".to_string()))
    );
    assert_eq!(join_notice("Zoé"), "-- Zoé is entering. --");
}

#[test]
fn classification_of_inbound_frames() {
    assert_eq!(classify_frame("-- Bob is entering. --"), FrameKind::Notice);
    assert_eq!(classify_frame("-- Bob is exited. --"), FrameKind::Notice);
    assert_eq!(
        classify_frame("Alice: hi"),
        FrameKind::User("Alice".to_string(), "hi".to_string())
    );
    assert_eq!(classify_frame("garbage"), FrameKind::Unrecognised);
    // The notice check comes first: a frame in double hyphens is a
    // notice even if it also holds a separator.
    assert_eq!(classify_frame("-- note: worthy --"), FrameKind::Notice);
}
