use sockjs::manager::{Record, SessionError};
use sockjs::protocol::{CloseCode, Frame};
use sockjs::session::SessionState;
use sockjs::transports::websocket::{decode, source_of, MalformedPayload, Message, Websocket};
use sockjs::transports::{ChannelItem, Command, Connection, Flag, Flags, Running, SendResult};
use std::collections::VecDeque;

fn record(id: &str, state: SessionState, buffer: Vec<Frame>) -> Record {
    Record { sid: id.to_string(), state, buffer: VecDeque::from(buffer) }
}

fn text(t: &str) -> Command {
    Command::Text(t.to_string())
}

fn message(t: &str) -> Frame {
    Frame::Message(t.to_string())
}

/// A transport that holds `rec`, attached over an open connection.
fn attached(rec: Record) -> Websocket {
    let mut ctx = Connection::new(true);
    let mut tr = Websocket::init(rec.sid.clone(), &mut ctx);
    tr.init_transport(Ok(rec), &mut ctx);
    tr
}

/// A transport that holds `rec` and has seen `Ready`.
fn ready(rec: Record) -> Websocket {
    let mut tr = attached(rec);
    tr.handle_message(ChannelItem::Ready, &mut Connection::new(true));
    tr
}

#[test]
fn flags_start_empty_and_keep_what_is_inserted() {
    let mut flags = Flags::empty();
    assert!(!flags.contains(Flag::Ready));
    assert!(!flags.contains(Flag::Release));
    flags.insert(Flag::Release);
    assert!(!flags.contains(Flag::Ready));
    assert!(flags.contains(Flag::Release));
    flags.insert(Flag::Ready);
    flags.insert(Flag::Ready);
    assert!(flags.contains(Flag::Ready));
    assert!(flags.contains(Flag::Release));
}

#[test]
fn connection_records_commands_in_order() {
    let mut ctx = Connection::new(true);
    assert!(ctx.connected());
    assert!(ctx.commands().is_empty());
    ctx.acquire("s".to_string());
    ctx.add_message_stream();
    ctx.text("o".to_string());
    ctx.pong(b"p".to_vec());
    ctx.close(CloseCode::InvalidPayload);
    ctx.release(Record::new("s".to_string()));
    ctx.deliver("s".to_string(), "m".to_string());
    ctx.stop();
    let expected = vec![
        Command::Acquire("s".to_string()),
        Command::Subscribe,
        text("o"),
        Command::Pong(b"p".to_vec()),
        Command::Close(CloseCode::InvalidPayload),
        Command::Release(Record::new("s".to_string())),
        Command::Deliver("s".to_string(), "m".to_string()),
        Command::Stop,
    ];
    assert_eq!(ctx.commands(), &expected);
    assert_eq!(ctx.into_commands(), expected);
    assert!(!Connection::new(false).connected());
}

#[test]
fn init_asks_for_the_session() {
    let mut ctx = Connection::new(true);
    let tr = Websocket::init("abc123".to_string(), &mut ctx);
    assert_eq!(ctx.commands(), &vec![Command::Acquire("abc123".to_string())]);
    assert_eq!(tr.session_record(), &None);
    assert_eq!(tr.flags(), Flags::empty());
}

#[test]
fn send_transmits_each_kind_of_frame() {
    let mut ctx = Connection::new(true);
    let mut tr = Websocket::init("s".to_string(), &mut Connection::new(true));
    let mut rec = record("s", SessionState::Running, vec![]);
    assert_eq!(tr.send(&mut ctx, &Frame::Heartbeat, &mut rec), SendResult::Continue);
    assert_eq!(tr.send(&mut ctx, &Frame::Open, &mut rec), SendResult::Continue);
    assert_eq!(tr.send(&mut ctx, &message("hi"), &mut rec), SendResult::Continue);
    assert_eq!(
        tr.send(
            &mut ctx,
            &Frame::MessageBatch(vec!["a".to_string(), "b".to_string()]),
            &mut rec
        ),
        SendResult::Continue
    );
    assert_eq!(tr.send(&mut ctx, &Frame::MessageBlob(vec![1]), &mut rec), SendResult::Continue);
    assert_eq!(rec.state, SessionState::Running);
    assert_eq!(
        tr.send(&mut ctx, &Frame::Close(CloseCode::GoAway), &mut rec),
        SendResult::Continue
    );
    assert_eq!(rec.state, SessionState::Closed);
    assert_eq!(
        ctx.commands(),
        &vec![
            text("h"),
            text("o"),
            text("a[\"hi\"]"),
            text("a[\"a\",\"b\"]"),
            text("c[3000,\"Go away!\"]"),
        ]
    );
}

#[test]
fn send_on_a_dead_connection_stops_and_still_closes_the_record() {
    let mut ctx = Connection::new(false);
    let mut tr = Websocket::init("s".to_string(), &mut Connection::new(true));
    let mut rec = record("s", SessionState::Running, vec![]);
    assert_eq!(tr.send(&mut ctx, &message("lost"), &mut rec), SendResult::Stop);
    assert_eq!(rec.state, SessionState::Running);
    assert_eq!(tr.send(&mut ctx, &Frame::Close(CloseCode::GoAway), &mut rec), SendResult::Stop);
    assert_eq!(rec.state, SessionState::Closed);
    assert!(ctx.commands().is_empty());
}

#[test]
fn send_close_transmits_the_close_frame() {
    let mut ctx = Connection::new(true);
    let mut tr = Websocket::init("s".to_string(), &mut Connection::new(true));
    tr.send_close(&mut ctx, CloseCode::Acquired);
    assert_eq!(ctx.commands(), &vec![text("c[2010,\"Another connection still open\"]")]);
}

#[test]
fn send_buffered_flushes_oldest_first() {
    let mut ctx = Connection::new(true);
    let mut tr = Websocket::init("s".to_string(), &mut Connection::new(true));
    let mut rec = record(
        "s",
        SessionState::Running,
        vec![message("1"), Frame::MessageBlob(vec![9]), Frame::Heartbeat, message("2")],
    );
    assert_eq!(tr.send_buffered(&mut ctx, &mut rec), SendResult::Continue);
    assert_eq!(rec, record("s", SessionState::Running, vec![]));
    assert_eq!(ctx.commands(), &vec![text("a[\"1\"]"), text("h"), text("a[\"2\"]")]);
}

#[test]
fn send_buffered_with_a_close_closes_the_record_and_goes_on() {
    let mut ctx = Connection::new(true);
    let mut tr = Websocket::init("s".to_string(), &mut Connection::new(true));
    let mut rec = record(
        "s",
        SessionState::Running,
        vec![message("1"), Frame::Close(CloseCode::GoAway), message("2")],
    );
    assert_eq!(tr.send_buffered(&mut ctx, &mut rec), SendResult::Continue);
    assert_eq!(rec, record("s", SessionState::Closed, vec![]));
    assert_eq!(
        ctx.commands(),
        &vec![text("a[\"1\"]"), text("c[3000,\"Go away!\"]"), text("a[\"2\"]")]
    );
}

#[test]
fn send_buffered_of_nothing_does_nothing() {
    let mut ctx = Connection::new(false);
    let mut tr = Websocket::init("s".to_string(), &mut Connection::new(true));
    let mut rec = record("s", SessionState::Running, vec![]);
    assert_eq!(tr.send_buffered(&mut ctx, &mut rec), SendResult::Continue);
    assert_eq!(rec, record("s", SessionState::Running, vec![]));
    assert!(ctx.commands().is_empty());
}

#[test]
fn failed_flush_loses_the_popped_frame_and_keeps_the_rest() {
    let mut ctx = Connection::new(false);
    let mut tr = Websocket::init("s".to_string(), &mut Connection::new(true));
    let mut rec = record("s", SessionState::Running, vec![message("1"), message("2"), message("3")]);
    assert_eq!(tr.send_buffered(&mut ctx, &mut rec), SendResult::Stop);
    assert_eq!(rec, record("s", SessionState::Running, vec![message("2"), message("3")]));
    assert!(ctx.commands().is_empty());
}

#[test]
fn new_session_gets_open_before_its_backlog() {
    let mut ctx = Connection::new(true);
    let mut tr = Websocket::init("s".to_string(), &mut Connection::new(true));
    tr.init_transport(Ok(record("s", SessionState::New, vec![message("early")])), &mut ctx);
    assert_eq!(ctx.commands(), &vec![text("o"), text("a[\"early\"]"), Command::Subscribe]);
    assert_eq!(tr.session_record(), &Some(record("s", SessionState::Running, vec![])));
    assert_eq!(tr.flags(), Flags::empty());
}

#[test]
fn running_session_gets_its_backlog_and_no_open() {
    let mut ctx = Connection::new(true);
    let mut tr = Websocket::init("s".to_string(), &mut Connection::new(true));
    tr.init_transport(
        Ok(record("s", SessionState::Running, vec![message("1"), message("2")])),
        &mut ctx,
    );
    assert_eq!(ctx.commands(), &vec![text("a[\"1\"]"), text("a[\"2\"]"), Command::Subscribe]);
    assert_eq!(tr.session_record(), &Some(record("s", SessionState::Running, vec![])));
}

#[test]
fn ended_sessions_get_their_close_frame_and_are_released() {
    let mut ctx = Connection::new(true);
    let mut tr = Websocket::init("s".to_string(), &mut Connection::new(true));
    let rec = record("s", SessionState::Interrupted, vec![message("stale")]);
    tr.init_transport(Ok(rec.clone()), &mut ctx);
    assert_eq!(
        ctx.commands(),
        &vec![text("c[1002,\"Connection interrupted\"]"), Command::Release(rec)]
    );
    assert_eq!(tr.session_record(), &None);

    let mut ctx = Connection::new(true);
    let mut tr = Websocket::init("s".to_string(), &mut Connection::new(true));
    let rec = record("s", SessionState::Closed, vec![]);
    tr.init_transport(Ok(rec.clone()), &mut ctx);
    assert_eq!(ctx.commands(), &vec![text("c[3000,\"Go away!\"]"), Command::Release(rec)]);
    assert_eq!(tr.session_record(), &None);
}

#[test]
fn refused_acquire_closes_and_stops() {
    let mut ctx = Connection::new(true);
    let mut tr = Websocket::init("s".to_string(), &mut Connection::new(true));
    tr.init_transport(Err(SessionError::SessionBusy), &mut ctx);
    assert_eq!(
        ctx.commands(),
        &vec![text("c[2010,\"Another connection still open\"]"), Command::Stop]
    );
    assert_eq!(tr.session_record(), &None);

    let mut ctx = Connection::new(true);
    tr.init_transport(Err(SessionError::RegistryUnavailable), &mut ctx);
    assert_eq!(ctx.commands(), &vec![text("c[500,\"Internal error\"]"), Command::Stop]);
}

#[test]
fn attach_over_a_dead_connection_marks_for_release() {
    let mut ctx = Connection::new(false);
    let mut tr = Websocket::init("s".to_string(), &mut Connection::new(true));
    tr.init_transport(Ok(record("s", SessionState::New, vec![message("1")])), &mut ctx);
    assert_eq!(ctx.commands(), &vec![Command::Subscribe]);
    assert!(tr.flags().contains(Flag::Release));
    assert_eq!(tr.session_record(), &Some(record("s", SessionState::Running, vec![message("1")])));

    // `Ready` then tries the flush, loses the popped frame, and releases once
    let mut ctx = Connection::new(false);
    tr.handle_message(ChannelItem::Ready, &mut ctx);
    assert_eq!(
        ctx.commands(),
        &vec![
            Command::Release(record("s", SessionState::Interrupted, vec![])),
            Command::Stop,
            Command::Stop,
        ]
    );
    assert_eq!(tr.session_record(), &None);
}

#[test]
fn frames_wait_until_ready_and_then_flow() {
    let mut tr = attached(record("s", SessionState::Running, vec![]));
    let mut ctx = Connection::new(true);
    tr.handle_message(ChannelItem::Frame(message("1")), &mut ctx);
    tr.handle_message(ChannelItem::Frame(message("2")), &mut ctx);
    assert!(ctx.commands().is_empty());
    assert_eq!(
        tr.session_record(),
        &Some(record("s", SessionState::Running, vec![message("1"), message("2")]))
    );
    tr.handle_message(ChannelItem::Ready, &mut ctx);
    assert_eq!(ctx.commands(), &vec![text("a[\"1\"]"), text("a[\"2\"]")]);
    assert!(tr.flags().contains(Flag::Ready));
    tr.handle_message(ChannelItem::Frame(message("3")), &mut ctx);
    assert_eq!(ctx.commands(), &vec![text("a[\"1\"]"), text("a[\"2\"]"), text("a[\"3\"]")]);
    assert_eq!(tr.session_record(), &Some(record("s", SessionState::Running, vec![])));
}

#[test]
fn live_frame_on_a_dead_connection_releases_the_session() {
    let mut tr = ready(record("s", SessionState::Running, vec![]));
    let mut ctx = Connection::new(false);
    tr.handle_message(ChannelItem::Frame(message("lost")), &mut ctx);
    assert_eq!(
        ctx.commands(),
        &vec![Command::Release(record("s", SessionState::Interrupted, vec![])), Command::Stop]
    );
    assert_eq!(tr.session_record(), &None);
    // nothing is held any more: further items do nothing
    let mut ctx = Connection::new(false);
    tr.handle_message(ChannelItem::Frame(message("later")), &mut ctx);
    assert!(ctx.commands().is_empty());
}

#[test]
fn close_frame_from_the_stream_closes_the_record() {
    let mut tr = ready(record("s", SessionState::Running, vec![]));
    let mut ctx = Connection::new(true);
    tr.handle_message(ChannelItem::Frame(Frame::Close(CloseCode::GoAway)), &mut ctx);
    assert_eq!(ctx.commands(), &vec![text("c[3000,\"Go away!\"]")]);
    assert_eq!(tr.session_record(), &Some(record("s", SessionState::Closed, vec![])));
}

#[test]
fn release_classifies_by_the_connection() {
    let mut tr = attached(record("s", SessionState::Running, vec![]));
    let mut ctx = Connection::new(true);
    tr.release(&mut ctx);
    assert_eq!(
        ctx.commands(),
        &vec![Command::Release(record("s", SessionState::Running, vec![])), Command::Stop]
    );

    let mut tr = attached(record("s", SessionState::Running, vec![]));
    let mut ctx = Connection::new(false);
    tr.release(&mut ctx);
    assert_eq!(
        ctx.commands(),
        &vec![Command::Release(record("s", SessionState::Interrupted, vec![])), Command::Stop]
    );
}

#[test]
fn second_release_gives_nothing_back() {
    let mut tr = attached(record("s", SessionState::Running, vec![]));
    tr.release(&mut Connection::new(true));
    let mut ctx = Connection::new(true);
    tr.release(&mut ctx);
    tr.stopping(&mut ctx);
    tr.error(&mut ctx);
    tr.handle(Message::Close, &mut ctx);
    assert_eq!(ctx.commands(), &vec![Command::Stop, Command::Stop, Command::Stop]);
}

#[test]
fn stopping_gives_the_record_back_closed() {
    let mut tr = attached(record("s", SessionState::Running, vec![message("kept")]));
    let mut ctx = Connection::new(true);
    tr.handle_message(ChannelItem::Frame(message("more")), &mut ctx);
    assert_eq!(tr.stopping(&mut ctx), Running::Stop);
    assert_eq!(
        ctx.commands(),
        &vec![Command::Release(record("s", SessionState::Closed, vec![message("more")]))]
    );
    assert_eq!(tr.session_record(), &None);
}

#[test]
fn stopping_over_a_lost_connection_gives_the_record_back_interrupted() {
    let mut tr = attached(record("s", SessionState::Running, vec![]));
    tr.handle_message(ChannelItem::Frame(message("kept")), &mut Connection::new(true));
    let mut ctx = Connection::new(false);
    assert_eq!(tr.stopping(&mut ctx), Running::Stop);
    assert_eq!(
        ctx.commands(),
        &vec![Command::Release(record("s", SessionState::Interrupted, vec![message("kept")]))]
    );
    assert_eq!(tr.session_record(), &None);
    // a second shutdown finds nothing to give back
    let mut ctx = Connection::new(false);
    assert_eq!(tr.stopping(&mut ctx), Running::Stop);
    assert!(ctx.commands().is_empty());
}

#[test]
fn stopping_leaves_an_ended_record_as_it_is() {
    for (state, connected) in [
        (SessionState::Closed, false),
        (SessionState::Closed, true),
        (SessionState::Interrupted, false),
        (SessionState::Interrupted, true),
    ] {
        let mut tr = ready(record("s", SessionState::Running, vec![]));
        // bring the held record into the state under test
        let mut ctx = Connection::new(true);
        if state == SessionState::Closed {
            tr.handle_broadcast(Frame::Close(CloseCode::GoAway), &mut ctx);
            assert_eq!(tr.session_record(), &Some(record("s", SessionState::Closed, vec![])));
            let mut ctx = Connection::new(connected);
            tr.stopping(&mut ctx);
            assert_eq!(
                ctx.commands(),
                &vec![Command::Release(record("s", SessionState::Closed, vec![]))]
            );
        } else {
            let mut tr = Websocket::init("s".to_string(), &mut Connection::new(true));
            let mut ctx = Connection::new(connected);
            tr.init_transport(Ok(record("s", state, vec![])), &mut ctx);
            assert_eq!(tr.session_record(), &None);
            let mut ctx = Connection::new(connected);
            tr.stopping(&mut ctx);
            assert!(ctx.commands().is_empty());
        }
    }
}

#[test]
fn peer_close_is_graceful_whatever_the_connection() {
    let mut tr = attached(record("s", SessionState::Running, vec![]));
    let mut ctx = Connection::new(false);
    tr.handle(Message::Close, &mut ctx);
    assert_eq!(
        ctx.commands(),
        &vec![Command::Release(record("s", SessionState::Closed, vec![])), Command::Stop]
    );
    assert_eq!(tr.session_record(), &None);
}

#[test]
fn broadcast_heartbeat_keeps_state_and_buffer() {
    let waiting = vec![message("1"), Frame::Heartbeat, message("2")];
    let mut tr = attached(record("s", SessionState::Running, vec![]));
    for frame in &waiting {
        tr.handle_message(ChannelItem::Frame(frame.duplicate()), &mut Connection::new(true));
    }
    let flags = tr.flags();
    let mut ctx = Connection::new(true);
    tr.handle_broadcast(Frame::Heartbeat, &mut ctx);
    assert_eq!(ctx.commands(), &vec![text("h")]);
    assert_eq!(tr.session_record(), &Some(record("s", SessionState::Running, waiting.clone())));
    assert_eq!(tr.flags(), flags);
    // over a lost connection nothing is transmitted, and nothing is lost either
    let mut ctx = Connection::new(false);
    tr.handle_broadcast(Frame::Heartbeat, &mut ctx);
    assert!(ctx.commands().is_empty());
    assert_eq!(tr.session_record(), &Some(record("s", SessionState::Running, waiting)));
}

#[test]
fn protocol_error_interrupts_and_stops() {
    let mut tr = attached(record("s", SessionState::Running, vec![]));
    let mut ctx = Connection::new(true);
    tr.error(&mut ctx);
    assert_eq!(
        ctx.commands(),
        &vec![Command::Release(record("s", SessionState::Interrupted, vec![])), Command::Stop]
    );
    assert_eq!(tr.session_record(), &None);
}

#[test]
fn peer_close_is_graceful() {
    let mut tr = attached(record("s", SessionState::Running, vec![]));
    let mut ctx = Connection::new(true);
    tr.handle(Message::Close, &mut ctx);
    assert_eq!(
        ctx.commands(),
        &vec![Command::Release(record("s", SessionState::Closed, vec![])), Command::Stop]
    );
    assert_eq!(tr.session_record(), &None);
}

#[test]
fn broadcast_is_sent_at_once() {
    let mut tr = attached(record("s", SessionState::Running, vec![]));
    let mut ctx = Connection::new(true);
    tr.handle_message(ChannelItem::Frame(message("waiting")), &mut ctx);
    tr.handle_broadcast(Frame::Heartbeat, &mut ctx);
    assert_eq!(ctx.commands(), &vec![text("h")]);
    assert_eq!(
        tr.session_record(),
        &Some(record("s", SessionState::Running, vec![message("waiting")]))
    );

    let mut idle = Websocket::init("s".to_string(), &mut Connection::new(true));
    let mut ctx = Connection::new(true);
    idle.handle_broadcast(Frame::Heartbeat, &mut ctx);
    assert!(ctx.commands().is_empty());
}

#[test]
fn ping_is_answered_and_pong_ignored() {
    let mut tr = attached(record("s", SessionState::Running, vec![]));
    let mut ctx = Connection::new(true);
    tr.handle(Message::Ping(vec![1, 2, 255]), &mut ctx);
    tr.handle(Message::Pong(vec![1, 2, 255]), &mut ctx);
    assert_eq!(ctx.commands(), &vec![Command::Pong(vec![1, 2, 255])]);
}

#[test]
fn binary_is_dropped_without_a_trace() {
    let rec = record("s", SessionState::Running, vec![message("kept")]);
    let mut tr = attached(record("s", SessionState::Running, vec![]));
    tr.handle_message(ChannelItem::Frame(message("kept")), &mut Connection::new(true));
    let flags = tr.flags();
    let mut ctx = Connection::new(true);
    tr.handle(Message::Binary(vec![b'[', b'"', b'x', b'"', b']']), &mut ctx);
    assert!(ctx.commands().is_empty());
    assert_eq!(tr.session_record(), &Some(rec));
    assert_eq!(tr.flags(), flags);
}

#[test]
fn text_payloads_are_delivered_in_order() {
    let mut tr = attached(record("abc123", SessionState::Running, vec![]));
    let mut ctx = Connection::new(true);
    tr.handle(Message::Text("[\"hello\"]".to_string()), &mut ctx);
    tr.handle(Message::Text("[\"a\",\"b\"]".to_string()), &mut ctx);
    tr.handle(Message::Text("[\"\\u00e9\\n\"]".to_string()), &mut ctx);
    tr.handle(Message::Text("[\"é\"]".to_string()), &mut ctx);
    let deliver = |p: &str| Command::Deliver("abc123".to_string(), p.to_string());
    assert_eq!(
        ctx.commands(),
        &vec![deliver("hello"), deliver("a"), deliver("b"), deliver("é\n"), deliver("é")]
    );
    assert_eq!(tr.session_record(), &Some(record("abc123", SessionState::Running, vec![])));
}

#[test]
fn unbracketed_text_is_parsed_as_it_is() {
    let mut tr = attached(record("s", SessionState::Running, vec![]));
    let mut ctx = Connection::new(true);
    tr.handle(Message::Text(" [\"x\", \"y\"] ".to_string()), &mut ctx);
    assert_eq!(
        ctx.commands(),
        &vec![
            Command::Deliver("s".to_string(), "x".to_string()),
            Command::Deliver("s".to_string(), "y".to_string())
        ]
    );
}

#[test]
fn empty_and_bare_bracket_texts_are_ignored() {
    let mut tr = attached(record("s", SessionState::Running, vec![]));
    let mut ctx = Connection::new(true);
    tr.handle(Message::Text("".to_string()), &mut ctx);
    tr.handle(Message::Text("[".to_string()), &mut ctx);
    tr.handle(Message::Text("[]".to_string()), &mut ctx);
    tr.handle(Message::Text("[x".to_string()), &mut ctx);
    assert!(ctx.commands().is_empty());
    assert_eq!(tr.session_record(), &Some(record("s", SessionState::Running, vec![])));
}

#[test]
fn malformed_text_closes_interrupts_and_stops() {
    let mut tr = attached(record("s", SessionState::Running, vec![message("kept")]));
    tr.handle_message(ChannelItem::Frame(message("kept")), &mut Connection::new(true));
    let mut ctx = Connection::new(true);
    tr.handle(Message::Text("[\"unterminated".to_string()), &mut ctx);
    assert_eq!(
        ctx.commands(),
        &vec![
            Command::Close(CloseCode::InvalidPayload),
            Command::Release(record("s", SessionState::Interrupted, vec![message("kept")])),
            Command::Stop,
        ]
    );
    assert_eq!(tr.session_record(), &None);
}

#[test]
fn text_that_is_no_array_of_strings_is_malformed() {
    for bad in ["\"hello\"", "{\"a\":1}", "[1,2]", "[\"a\",]", "[\"a\"]]", "nonsense", "7"] {
        let mut tr = attached(record("s", SessionState::Running, vec![]));
        let mut ctx = Connection::new(true);
        tr.handle(Message::Text(bad.to_string()), &mut ctx);
        assert_eq!(
            ctx.commands(),
            &vec![
                Command::Close(CloseCode::InvalidPayload),
                Command::Release(record("s", SessionState::Interrupted, vec![])),
                Command::Stop,
            ],
            "{}",
            bad
        );
    }
}

#[test]
fn malformed_text_without_a_record_releases_nothing() {
    let mut tr = Websocket::init("s".to_string(), &mut Connection::new(true));
    let mut ctx = Connection::new(true);
    tr.handle(Message::Text("[oops]".to_string()), &mut ctx);
    assert_eq!(ctx.commands(), &vec![Command::Close(CloseCode::InvalidPayload), Command::Stop]);
}

#[test]
fn text_without_a_record_is_decoded_and_dropped() {
    let mut tr = Websocket::init("s".to_string(), &mut Connection::new(true));
    let mut ctx = Connection::new(true);
    tr.handle(Message::Text("[\"hello\"]".to_string()), &mut ctx);
    assert!(ctx.commands().is_empty());
}

#[test]
fn source_of_strips_first_and_last_byte_of_bracketed_text() {
    assert_eq!(source_of(b""), None);
    assert_eq!(source_of(b"["), None);
    assert_eq!(source_of(b"[]"), None);
    assert_eq!(source_of(b"[\"a\"]"), Some(b"[\"a\"]".to_vec()));
    assert_eq!(source_of(b"[\"a\"x"), Some(b"[\"a\"]".to_vec()));
    assert_eq!(source_of(b"[1]"), Some(b"[1]".to_vec()));
    assert_eq!(source_of(b" [\"a\"]"), Some(b" [\"a\"]".to_vec()));
    assert_eq!(source_of(b"\"a\""), Some(b"\"a\"".to_vec()));
}

#[test]
fn decode_reads_json_arrays_of_strings() {
    assert_eq!(decode(b"[\"hello\"]"), Ok(vec!["hello".to_string()]));
    assert_eq!(decode(b"[]"), Ok(vec![]));
    assert_eq!(decode(b" [ \"a\" , \"b\\\"c\" ] "), Ok(vec!["a".to_string(), "b\"c".to_string()]));
    assert_eq!(decode(b"[\"unterminated]"), Err(MalformedPayload));
    assert_eq!(decode(b"\"hello\""), Err(MalformedPayload));
    assert_eq!(decode(b""), Err(MalformedPayload));
    assert_eq!(decode(&[b'[', b'"', 0xff, b'"', b']']), Err(MalformedPayload));
}

#[test]
fn receive_acts_on_the_outcome_of_decoding() {
    let mut tr = attached(record("s", SessionState::Running, vec![]));
    let mut ctx = Connection::new(true);
    tr.receive(Ok(vec![]), &mut ctx);
    assert!(ctx.commands().is_empty());
    tr.receive(Ok(vec!["1".to_string(), "2".to_string()]), &mut ctx);
    assert_eq!(
        ctx.commands(),
        &vec![
            Command::Deliver("s".to_string(), "1".to_string()),
            Command::Deliver("s".to_string(), "2".to_string())
        ]
    );
    let mut ctx = Connection::new(true);
    tr.receive(Err(MalformedPayload), &mut ctx);
    assert_eq!(
        ctx.commands(),
        &vec![
            Command::Close(CloseCode::InvalidPayload),
            Command::Release(record("s", SessionState::Interrupted, vec![])),
            Command::Stop,
        ]
    );
}
