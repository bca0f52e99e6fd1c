use sockjs::protocol::{decimal, CloseCode, Frame};

#[test]
fn close_codes_have_their_numbers_and_reasons() {
    assert_eq!(CloseCode::Interrupted.num(), 1002);
    assert_eq!(CloseCode::Interrupted.reason(), "Connection interrupted");
    assert_eq!(CloseCode::GoAway.num(), 3000);
    assert_eq!(CloseCode::GoAway.reason(), "Go away!");
    assert_eq!(CloseCode::Acquired.num(), 2010);
    assert_eq!(CloseCode::Acquired.reason(), "Another connection still open");
    assert_eq!(CloseCode::InternalError.num(), 500);
    assert_eq!(CloseCode::InternalError.reason(), "Internal error");
    assert_eq!(CloseCode::InvalidPayload.num(), 1007);
    assert_eq!(CloseCode::InvalidPayload.reason(), "Broken JSON encoding");
}

#[test]
fn decimal_writes_digits_most_significant_first() {
    assert_eq!(decimal(0), "0");
    assert_eq!(decimal(7), "7");
    assert_eq!(decimal(10), "10");
    assert_eq!(decimal(3000), "3000");
    assert_eq!(decimal(1234567890), "1234567890");
}

#[test]
fn heartbeat_and_open_are_single_characters() {
    assert_eq!(Frame::Heartbeat.encode(), Some("h".to_string()));
    assert_eq!(Frame::Open.encode(), Some("o".to_string()));
}

#[test]
fn message_is_a_one_element_array() {
    assert_eq!(Frame::Message("hello".to_string()).encode(), Some("a[\"hello\"]".to_string()));
    assert_eq!(
        Frame::Message("say \"hi\"\n".to_string()).encode(),
        Some("a[\"say \\\"hi\\\"\\n\"]".to_string())
    );
}

#[test]
fn batch_is_a_json_array() {
    let batch = Frame::MessageBatch(vec!["a".to_string(), "b\"c".to_string()]);
    assert_eq!(batch.encode(), Some("a[\"a\",\"b\\\"c\"]".to_string()));
    assert_eq!(Frame::MessageBatch(vec![]).encode(), Some("a[]".to_string()));
}

#[test]
fn close_frame_carries_code_and_reason() {
    assert_eq!(
        Frame::Close(CloseCode::GoAway).encode(),
        Some("c[3000,\"Go away!\"]".to_string())
    );
    assert_eq!(
        Frame::Close(CloseCode::Interrupted).encode(),
        Some("c[1002,\"Connection interrupted\"]".to_string())
    );
    assert_eq!(CloseCode::InvalidPayload.encode(), "c[1007,\"Broken JSON encoding\"]");
}

#[test]
fn blob_has_no_wire_text() {
    assert_eq!(Frame::MessageBlob(vec![1, 2, 3]).encode(), None);
}

#[test]
fn duplicate_keeps_the_frame() {
    let frames = vec![
        Frame::Heartbeat,
        Frame::Open,
        Frame::Message("x".to_string()),
        Frame::MessageBatch(vec!["a".to_string(), "b".to_string()]),
        Frame::MessageBlob(vec![0, 255]),
        Frame::Close(CloseCode::Acquired),
    ];
    for frame in &frames {
        assert_eq!(&frame.duplicate(), frame);
    }
}

#[test]
fn every_close_frame_is_code_comma_quoted_reason() {
    for code in [
        CloseCode::Interrupted,
        CloseCode::GoAway,
        CloseCode::Acquired,
        CloseCode::InternalError,
        CloseCode::InvalidPayload,
    ] {
        let expected = format!("c[{},{:?}]", code.num(), code.reason());
        assert_eq!(code.encode(), expected);
        assert_eq!(Frame::Close(code).encode(), Some(expected));
    }
}

#[test]
fn decimal_agrees_with_the_standard_formatting() {
    for n in [0usize, 1, 9, 10, 11, 99, 100, 101, 500, 1002, 1007, 2010, 3000, 65535, usize::MAX] {
        assert_eq!(decimal(n), format!("{}", n));
    }
}

#[test]
fn frame_texts_wrap_what_they_are_given() {
    assert_eq!(sockjs::protocol::frame_message("\"x\""), "a[\"x\"]");
    assert_eq!(sockjs::protocol::frame_message(""), "a[]");
    assert_eq!(sockjs::protocol::frame_batch("[\"x\",\"y\"]"), "a[\"x\",\"y\"]");
    assert_eq!(sockjs::protocol::frame_batch(""), "a");
}

#[test]
fn every_frame_but_a_blob_has_a_wire_text() {
    let two = Frame::MessageBatch(vec!["one".to_string(), "two".to_string()]);
    assert_eq!(two.encode(), Some("a[\"one\",\"two\"]".to_string()));
    let odd = Frame::MessageBatch(vec!["\u{0}\u{1f}\\\"\u{7f}é\n".to_string()]);
    assert_eq!(odd.encode(), Some("a[\"\\u0000\\u001f\\\\\\\"\u{7f}é\\n\"]".to_string()));
    for frame in [
        Frame::Heartbeat,
        Frame::Open,
        Frame::Message(String::new()),
        Frame::MessageBatch(vec![]),
        Frame::Close(CloseCode::InternalError),
    ] {
        assert!(frame.encode().is_some());
    }
    assert!(Frame::MessageBlob(vec![]).encode().is_none());
}
