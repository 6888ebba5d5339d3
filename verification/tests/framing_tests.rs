use battleship::framing::{frame, holds_line_feed, unframe, LINE_FEED};

#[test]
fn message_gets_a_line_of_its_own() {
    assert_eq!(LINE_FEED, b'\n');
    assert_eq!(frame(&b"{\"shots\":[]}".to_vec()), Some(b"{\"shots\":[]}\n".to_vec()));
    assert_eq!(frame(&Vec::new()), Some(vec![b'\n']));
    assert_eq!(frame(&b"a\r".to_vec()), Some(b"a\r\n".to_vec()));
}

#[test]
fn message_with_a_line_feed_is_not_framed() {
    assert_eq!(frame(&b"a\nb".to_vec()), None);
    assert_eq!(frame(&b"\n".to_vec()), None);
    assert_eq!(frame(&b"ab\n".to_vec()), None);
    assert!(holds_line_feed(&b"ab\n".to_vec()));
    assert!(!holds_line_feed(&b"ab".to_vec()));
    assert!(!holds_line_feed(&Vec::new()));
}

#[test]
fn complete_line_gives_its_message() {
    assert_eq!(unframe(&b"\"Win\"\n".to_vec()), Some(b"\"Win\"".to_vec()));
    assert_eq!(unframe(&b"\n".to_vec()), Some(Vec::new()));
}

#[test]
fn line_without_end_gives_nothing() {
    assert_eq!(unframe(&b"\"Win\"".to_vec()), None);
    assert_eq!(unframe(&Vec::new()), None);
    assert_eq!(unframe(&b"a\nb".to_vec()), None);
    assert_eq!(unframe(&b"a\nb\n".to_vec()), None);
    assert_eq!(unframe(&b"\n\n".to_vec()), None);
}

#[test]
fn framing_round_trip() {
    for text in ["", "{}", "{\"x\":1,\"y\":2}", "caf\u{e9}", "tab\there"] {
        let payload = text.as_bytes().to_vec();
        let line = frame(&payload).unwrap();
        assert_eq!(unframe(&line), Some(payload));
    }
}
