//! The WebSocket transport.
//!
//! One `Websocket` serves one connection. It asks the registry for its
//! session, replays the session's backlog, forwards live frames once the
//! registry has said `Ready`, decodes what the peer sends, and gives the
//! session's record back exactly once, however the connection ends.

use crate::json::{from_slice, json_strings, texts};
use crate::manager::{acquired, Record, RecordView, SessionError};
use crate::protocol::{CloseCode, Frame, FrameView};
use crate::session::SessionState;
use crate::transports::{
    ChannelItem, CommandView, Connection, ConnectionView, Flag, Flags, Running, SendResult,
};
use vstd::prelude::*;
use vstd::slice::slice_to_vec;
use vstd::string::*;
use vstd::utf8::encode_utf8;

verus! {

/// A message from the peer.
#[derive(Clone, Debug, PartialEq, Eq)]
pub enum Message {
    /// A ping, to be answered with a pong of the same payload.
    Ping(Vec<u8>),
    /// A pong.
    Pong(Vec<u8>),
    /// A text message: JSON that holds payloads for the session's handler.
    Text(String),
    /// A binary message. Not supported.
    Binary(Vec<u8>),
    /// The peer closes the connection.
    Close,
}

/// A message from the peer as a mathematical value.
pub enum MessageView {
    Ping(Seq<u8>),
    Pong(Seq<u8>),
    Text(Seq<char>),
    Binary(Seq<u8>),
    Close,
}

impl View for Message {
    type V = MessageView;

    open spec fn view(&self) -> MessageView {
        match self {
            Message::Ping(payload) => MessageView::Ping(payload@),
            Message::Pong(payload) => MessageView::Pong(payload@),
            Message::Text(text) => MessageView::Text(text@),
            Message::Binary(bytes) => MessageView::Binary(bytes@),
            Message::Close => MessageView::Close,
        }
    }
}

/// An item of the live stream as a mathematical value.
pub enum ChannelItemView {
    Frame(FrameView),
    Ready,
}

impl View for ChannelItem {
    type V = ChannelItemView;

    open spec fn view(&self) -> ChannelItemView {
        match self {
            ChannelItem::Frame(frame) => ChannelItemView::Frame(frame@),
            ChannelItem::Ready => ChannelItemView::Ready,
        }
    }
}

/// An inbound text that does not decode.
#[derive(Clone, Copy, Debug, PartialEq, Eq, Structural)]
pub struct MalformedPayload;

/// The command that transmits a frame; nothing for a frame that has no wire
/// text.
pub open spec fn transmission(frame: FrameView) -> Seq<CommandView> {
    match frame.wire_text() {
        Some(text) => seq![CommandView::Text(text)],
        None => Seq::empty(),
    }
}

/// The commands that transmit a sequence of frames, in the frames' order.
pub open spec fn transmissions(frames: Seq<FrameView>) -> Seq<CommandView>
    decreases frames.len(),
{
    if frames.len() == 0 {
        Seq::empty()
    } else {
        transmissions(frames.drop_last()) + transmission(frames.last())
    }
}

/// Whether one of the frames is a `Close`.
pub open spec fn closes(frames: Seq<FrameView>) -> bool {
    exists|i: int| 0 <= i < frames.len() && frames[i] is Close
}

/// The commands that deliver a sequence of payloads to a session, in the
/// payloads' order.
pub open spec fn deliveries(sid: Seq<char>, payloads: Seq<Seq<char>>) -> Seq<CommandView> {
    Seq::new(payloads.len(), |i: int| CommandView::Deliver(sid, payloads[i]))
}

/// The JSON text that an inbound text stands for, or `None` for a text that
/// is ignored.
///
/// An empty text is ignored. A text that begins with `[` loses its first and
/// its last byte, whatever the last byte is, and what remains is read as the
/// items of a JSON array, that is, between `[` and `]`; with nothing remaining
/// the text is ignored. Any other text is read as it is.
pub open spec fn payload_source(text: Seq<u8>) -> Option<Seq<u8>> {
    if text.len() == 0 {
        None
    } else if text[0] == 0x5b {
        if text.len() <= 2 {
            None
        } else {
            Some(seq![0x5bu8] + text.subrange(1, text.len() - 1) + seq![0x5du8])
        }
    } else {
        Some(text)
    }
}

/// The view of a decoding's outcome.
pub open spec fn decoded(r: Result<Vec<String>, MalformedPayload>) -> Option<Seq<Seq<char>>> {
    match r {
        Ok(payloads) => Some(texts(payloads@)),
        Err(_) => None,
    }
}

/// The view of an optional record.
pub open spec fn held(rec: Option<Record>) -> Option<RecordView> {
    match rec {
        Some(record) => Some(record@),
        None => None,
    }
}

/// The transport of one WebSocket connection.
#[derive(Debug, PartialEq, Eq)]
pub struct Websocket {
    rec: Option<Record>,
    flags: Flags,
}

/// A transport as a mathematical value: the record it holds, if any, and its
/// flags.
pub struct WebsocketView {
    pub rec: Option<RecordView>,
    pub flags: Flags,
}

impl View for Websocket {
    type V = WebsocketView;

    closed spec fn view(&self) -> WebsocketView {
        WebsocketView { rec: held(self.rec), flags: self.flags }
    }
}

impl WebsocketView {
    /// A transport that holds no record and has no flag set.
    pub open spec fn idle() -> WebsocketView {
        WebsocketView { rec: None, flags: Flags::none() }
    }

    /// Sending one frame.
    ///
    /// A `Close` marks the record closed, whether or not it can be
    /// transmitted. On an open connection the frame's text is transmitted and
    /// sending may continue; on a connection that is no longer open nothing is
    /// transmitted and sending stops.
    pub open spec fn send(ctx: ConnectionView, msg: FrameView, record: RecordView) -> (
        ConnectionView,
        RecordView,
        SendResult,
    ) {
        let record = if msg is Close {
            record.close()
        } else {
            record
        };
        if ctx.connected {
            (ctx.extend(transmission(msg)), record, SendResult::Continue)
        } else {
            (ctx, record, SendResult::Stop)
        }
    }

    /// Flushing a record's buffer.
    ///
    /// On an open connection every buffered frame is transmitted, oldest
    /// first, the buffer is left empty, and the record is closed if a `Close`
    /// was among them. On a connection that is no longer open the oldest frame
    /// is taken out and lost, the rest stays, and sending stops.
    pub open spec fn send_buffered(ctx: ConnectionView, record: RecordView) -> (
        ConnectionView,
        RecordView,
        SendResult,
    ) {
        if record.buffer.len() == 0 {
            (ctx, record, SendResult::Continue)
        } else if ctx.connected {
            (
                ctx.extend(transmissions(record.buffer)),
                RecordView {
                    buffer: Seq::empty(),
                    state: if closes(record.buffer) {
                        record.state.close()
                    } else {
                        record.state
                    },
                    ..record
                },
                SendResult::Continue,
            )
        } else {
            (
                ctx,
                RecordView {
                    buffer: record.buffer.drop_first(),
                    state: if record.buffer[0] is Close {
                        record.state.close()
                    } else {
                        record.state
                    },
                    ..record
                },
                SendResult::Stop,
            )
        }
    }

    /// Releasing the session.
    ///
    /// A record that is held is given back, marked interrupted unless the
    /// connection is still open, and is held no longer. The connection stops
    /// in either case.
    pub open spec fn release(self, ctx: ConnectionView) -> (WebsocketView, ConnectionView) {
        match self.rec {
            Some(rec) => (
                WebsocketView { rec: None, ..self },
                ctx.push(
                    CommandView::Release(
                        if ctx.connected {
                            rec
                        } else {
                            rec.interrupt()
                        },
                    ),
                ).push(CommandView::Stop),
            ),
            None => (self, ctx.push(CommandView::Stop)),
        }
    }

    /// Holding `rec` after a send that ended with `result`: a send that
    /// stopped releases the session.
    pub open spec fn after_send(self, ctx: ConnectionView, rec: RecordView, result: SendResult) -> (
        WebsocketView,
        ConnectionView,
    ) {
        let held = WebsocketView { rec: Some(rec), ..self };
        if result == SendResult::Stop {
            held.release(ctx)
        } else {
            (held, ctx)
        }
    }

    /// An item arrives on the live stream.
    ///
    /// A frame is sent if the transport is ready, and otherwise put behind the
    /// backlog in the record's buffer. `Ready` flushes the buffer; then the
    /// transport releases the session if a transmission has failed, and
    /// otherwise becomes ready. Without a record a frame is ignored.
    pub open spec fn handle_message(self, ctx: ConnectionView, msg: ChannelItemView) -> (
        WebsocketView,
        ConnectionView,
    ) {
        match msg {
            ChannelItemView::Frame(frame) => match self.rec {
                Some(rec) => if self.flags.has(Flag::Ready) {
                    let (ctx, rec, result) = Self::send(ctx, frame, rec);
                    self.after_send(ctx, rec, result)
                } else {
                    (WebsocketView { rec: Some(rec.add(frame)), ..self }, ctx)
                },
                None => (self, ctx),
            },
            ChannelItemView::Ready => {
                let (tr, ctx) = match self.rec {
                    Some(rec) => {
                        let (ctx, rec, result) = Self::send_buffered(ctx, rec);
                        self.after_send(ctx, rec, result)
                    },
                    None => (self, ctx),
                };
                if tr.flags.has(Flag::Release) {
                    tr.release(ctx)
                } else {
                    (WebsocketView { flags: tr.flags.with(Flag::Ready), ..tr }, ctx)
                }
            },
        }
    }

    /// Holding `rec` and reading the live stream after the first sends, which
    /// ended with `result`: a send that stopped marks the transport for
    /// release.
    pub open spec fn attach(self, ctx: ConnectionView, rec: RecordView, result: SendResult) -> (
        WebsocketView,
        ConnectionView,
    ) {
        (
            WebsocketView {
                rec: Some(rec),
                flags: if result == SendResult::Stop {
                    self.flags.with(Flag::Release)
                } else {
                    self.flags
                },
            },
            ctx.push(CommandView::Subscribe),
        )
    }

    /// The registry answers the acquire.
    ///
    /// | answer | what the transport does |
    /// |---|---|
    /// | a `New` record | marks it `Running`, sends `Open`, flushes the buffer, holds the record |
    /// | a `Running` record | flushes the buffer, holds the record |
    /// | an `Interrupted` record | sends `Close(Interrupted)`, gives the record back |
    /// | a `Closed` record | sends `Close(GoAway)`, gives the record back |
    /// | an error | transmits the close frame of the error's code, stops |
    pub open spec fn init_transport(
        self,
        ctx: ConnectionView,
        reply: Result<RecordView, SessionError>,
    ) -> (WebsocketView, ConnectionView) {
        match reply {
            Ok(rec) => match rec.state {
                SessionState::Running => {
                    let (ctx, rec, result) = Self::send_buffered(ctx, rec);
                    self.attach(ctx, rec, result)
                },
                SessionState::New => {
                    let rec = RecordView { state: SessionState::Running, ..rec };
                    let (ctx, rec, result) = Self::send(ctx, FrameView::Open, rec);
                    if result == SendResult::Stop {
                        self.attach(ctx, rec, result)
                    } else {
                        let (ctx, rec, result) = Self::send_buffered(ctx, rec);
                        self.attach(ctx, rec, result)
                    }
                },
                SessionState::Interrupted => {
                    let (ctx, rec, _) = Self::send(
                        ctx,
                        FrameView::Close(CloseCode::Interrupted),
                        rec,
                    );
                    (self, ctx.push(CommandView::Release(rec)))
                },
                SessionState::Closed => {
                    let (ctx, rec, _) = Self::send(ctx, FrameView::Close(CloseCode::GoAway), rec);
                    (self, ctx.push(CommandView::Release(rec)))
                },
            },
            Err(err) => (
                self,
                ctx.push(CommandView::Text(err.code().frame_text())).push(CommandView::Stop),
            ),
        }
    }

    /// The transport is shutting down: a record that is held is given back,
    /// closed if the connection is still open, and interrupted if it is not.
    pub open spec fn stopping(self, ctx: ConnectionView) -> (WebsocketView, ConnectionView) {
        match self.rec {
            Some(rec) => (
                WebsocketView { rec: None, ..self },
                ctx.push(
                    CommandView::Release(
                        if ctx.connected {
                            rec.close()
                        } else {
                            rec.interrupt()
                        },
                    ),
                ),
            ),
            None => (self, ctx),
        }
    }

    /// The peer closes the connection: a record that is held is given back,
    /// closed, whatever the connection is by now, and the connection stops.
    pub open spec fn peer_close(self, ctx: ConnectionView) -> (WebsocketView, ConnectionView) {
        match self.rec {
            Some(rec) => (
                WebsocketView { rec: None, ..self },
                ctx.push(CommandView::Release(rec.close())).push(CommandView::Stop),
            ),
            None => (self, ctx.push(CommandView::Stop)),
        }
    }

    /// The connection broke a rule of its protocol: a record that is held is
    /// given back, interrupted, and the connection stops.
    pub open spec fn error(self, ctx: ConnectionView) -> (WebsocketView, ConnectionView) {
        match self.rec {
            Some(rec) => (
                WebsocketView { rec: None, ..self },
                ctx.push(CommandView::Release(rec.interrupt())).push(CommandView::Stop),
            ),
            None => (self, ctx.push(CommandView::Stop)),
        }
    }

    /// A broadcast arrives: the frame is sent at once if a record is held, and
    /// ignored otherwise.
    pub open spec fn handle_broadcast(self, ctx: ConnectionView, msg: FrameView) -> (
        WebsocketView,
        ConnectionView,
    ) {
        match self.rec {
            Some(rec) => {
                let (ctx, rec, _) = Self::send(ctx, msg, rec);
                (WebsocketView { rec: Some(rec), ..self }, ctx)
            },
            None => (self, ctx),
        }
    }

    /// An inbound text has been decoded.
    ///
    /// Payloads are delivered to the session, in order, if a record is held.
    /// A text that did not decode closes the connection as invalid, gives a
    /// held record back, interrupted, and stops; nothing is delivered.
    pub open spec fn receive(self, ctx: ConnectionView, payloads: Option<Seq<Seq<char>>>) -> (
        WebsocketView,
        ConnectionView,
    ) {
        match payloads {
            Some(payloads) => match self.rec {
                Some(rec) => (self, ctx.extend(deliveries(rec.sid, payloads))),
                None => (self, ctx),
            },
            None => self.error(ctx.push(CommandView::Close(CloseCode::InvalidPayload))),
        }
    }

    /// A message arrives from the peer.
    ///
    /// | message | what the transport does |
    /// |---|---|
    /// | `Ping` | answers with a pong |
    /// | `Text` | decodes it and delivers its payloads; see [`payload_source`] and [`Self::receive`] |
    /// | `Binary` | nothing |
    /// | `Close` | gives a held record back, closed, and stops; see [`Self::peer_close`] |
    /// | `Pong` | nothing |
    pub open spec fn handle(self, ctx: ConnectionView, msg: MessageView) -> (
        WebsocketView,
        ConnectionView,
    ) {
        match msg {
            MessageView::Ping(payload) => (self, ctx.push(CommandView::Pong(payload))),
            MessageView::Text(text) => match payload_source(encode_utf8(text)) {
                Some(source) => self.receive(ctx, json_strings(source)),
                None => (self, ctx),
            },
            MessageView::Binary(_) => (self, ctx),
            MessageView::Close => self.peer_close(ctx),
            MessageView::Pong(_) => (self, ctx),
        }
    }
}

impl Websocket {
    /// Starts a transport for the session `session`: it holds no record yet,
    /// and asks the registry for the session.
    pub fn init(session: String, ctx: &mut Connection) -> (tr: Websocket)
        ensures
            tr@ == WebsocketView::idle(),
            final(ctx)@ == old(ctx)@.push(CommandView::Acquire(session@)),
    {
        let tr = Websocket { rec: None, flags: Flags::empty() };
        ctx.acquire(session);
        tr
    }

    /// The record that the transport holds, if any.
    pub fn session_record(&self) -> (r: &Option<Record>)
        ensures
            held(*r) == self@.rec,
    {
        &self.rec
    }

    /// The transport's flags.
    pub fn flags(&self) -> (r: Flags)
        ensures
            r == self@.flags,
    {
        self.flags
    }

    /// Sends one frame on the connection.
    pub fn send(&mut self, ctx: &mut Connection, msg: &Frame, record: &mut Record) -> (r:
        SendResult)
        ensures
            (final(ctx)@, final(record)@, r) == WebsocketView::send(old(ctx)@, msg@, old(record)@),
            *final(self) == *old(self),
    {
        match msg {
            Frame::Close(_) => {
                record.close();
            },
            _ => {},
        }
        if !ctx.connected() {
            return SendResult::Stop;
        }
        match msg.encode() {
            Some(text) => {
                ctx.text(text);
                proof {
                    assert(old(ctx)@.outbox.push(CommandView::Text(text@)) =~= old(ctx)@.outbox
                        + transmission(msg@));
                }
            },
            None => {
                proof {
                    assert(old(ctx)@.outbox =~= old(ctx)@.outbox + transmission(msg@));
                }
            },
        }
        SendResult::Continue
    }

    /// Transmits the close frame of `code`.
    pub fn send_close(&mut self, ctx: &mut Connection, code: CloseCode)
        ensures
            final(ctx)@ == old(ctx)@.push(CommandView::Text(code.frame_text())),
            *final(self) == *old(self),
    {
        ctx.text(code.encode());
    }

    /// Gives the record back, if one is held, and stops the connection.
    pub fn release(&mut self, ctx: &mut Connection)
        ensures
            (final(self)@, final(ctx)@) == old(self)@.release(old(ctx)@),
    {
        if let Some(mut rec) = self.rec.take() {
            if !ctx.connected() {
                rec.interrupted();
            }
            ctx.release(rec);
        }
        ctx.stop();
    }

    /// Sends the frames of the record's buffer, oldest first.
    pub fn send_buffered(&mut self, ctx: &mut Connection, record: &mut Record) -> (r: SendResult)
        ensures
            (final(ctx)@, final(record)@, r) == WebsocketView::send_buffered(
                old(ctx)@,
                old(record)@,
            ),
            *final(self) == *old(self),
    {
        let ghost mut sent: int = 0;
        while record.buffer.len() > 0
            invariant
                *self == *old(self),
                0 <= sent <= old(record)@.buffer.len(),
                sent > 0 ==> ctx@.connected,
                ctx@.connected == old(ctx)@.connected,
                ctx@.outbox == old(ctx)@.outbox + transmissions(old(record)@.buffer.take(sent)),
                record@.sid == old(record)@.sid,
                record@.buffer == old(record)@.buffer.skip(sent),
                record@.state == if closes(old(record)@.buffer.take(sent)) {
                    old(record)@.state.close()
                } else {
                    old(record)@.state
                },
            decreases record.buffer@.len(),
        {
            if let Some(msg) = record.pop() {
                proof {
                    let all = old(record)@.buffer;
                    assert(all.take(sent + 1).drop_last() =~= all.take(sent));
                    assert(all.skip(sent).drop_first() =~= all.skip(sent + 1));
                    assert(all.take(sent + 1) =~= all.take(sent).push(all[sent]));
                    lemma_closes_push(all.take(sent), all[sent]);
                    lemma_close_twice(old(record)@.state);
                }
                if let SendResult::Stop = self.send(ctx, &msg, record) {
                    proof {
                        // only the first send can fail: the connection does not change
                        assert(sent == 0);
                        assert(old(record)@.buffer.skip(1) =~= old(record)@.buffer.drop_first());
                    }
                    return SendResult::Stop;
                }
                proof {
                    sent = sent + 1;
                    assert(ctx@.outbox =~= old(ctx)@.outbox + transmissions(
                        old(record)@.buffer.take(sent),
                    ));
                }
            }
        }
        proof {
            let all = old(record)@.buffer;
            assert(all.take(sent) =~= all);
            assert(record@.buffer =~= Seq::empty());
        }
        SendResult::Continue
    }

    /// Handles an item of the session's live stream.
    pub fn handle_message(&mut self, msg: ChannelItem, ctx: &mut Connection)
        ensures
            (final(self)@, final(ctx)@) == old(self)@.handle_message(old(ctx)@, msg@),
    {
        match msg {
            ChannelItem::Frame(msg) => {
                if let Some(mut rec) = self.rec.take() {
                    if self.flags.contains(Flag::Ready) {
                        if let SendResult::Stop = self.send(ctx, &msg, &mut rec) {
                            self.rec = Some(rec);
                            self.release(ctx);
                        } else {
                            self.rec = Some(rec);
                        }
                    } else {
                        rec.add(msg);
                        self.rec = Some(rec);
                    }
                }
            },
            ChannelItem::Ready => {
                if let Some(mut rec) = self.rec.take() {
                    if let SendResult::Stop = self.send_buffered(ctx, &mut rec) {
                        self.rec = Some(rec);
                        self.release(ctx);
                    } else {
                        self.rec = Some(rec);
                    }
                }
                if self.flags.contains(Flag::Release) {
                    self.release(ctx)
                } else {
                    self.flags.insert(Flag::Ready);
                }
            },
        }
    }

    /// Handles the registry's answer to the acquire.
    pub fn init_transport(&mut self, reply: Result<Record, SessionError>, ctx: &mut Connection)
        ensures
            (final(self)@, final(ctx)@) == old(self)@.init_transport(old(ctx)@, acquired(reply)),
    {
        match reply {
            Ok(mut rec) => {
                match rec.state {
                    SessionState::Running => {
                        if let SendResult::Stop = self.send_buffered(ctx, &mut rec) {
                            self.flags.insert(Flag::Release);
                        }
                        self.rec = Some(rec);
                        ctx.add_message_stream();
                    },
                    SessionState::New => {
                        rec.state = SessionState::Running;
                        if let SendResult::Stop = self.send(ctx, &Frame::Open, &mut rec) {
                            self.flags.insert(Flag::Release);
                        } else if let SendResult::Stop = self.send_buffered(ctx, &mut rec) {
                            self.flags.insert(Flag::Release);
                        }
                        self.rec = Some(rec);
                        ctx.add_message_stream();
                    },
                    SessionState::Interrupted => {
                        self.send(ctx, &Frame::Close(CloseCode::Interrupted), &mut rec);
                        ctx.release(rec);
                    },
                    SessionState::Closed => {
                        self.send(ctx, &Frame::Close(CloseCode::GoAway), &mut rec);
                        ctx.release(rec);
                    },
                }
            },
            Err(err) => {
                self.send_close(ctx, err.close_code());
                ctx.stop();
            },
        }
    }

    /// The transport is shutting down. A record that is still held is given
    /// back: closed where the connection is still open, interrupted where it
    /// was lost. The transport then stops.
    pub fn stopping(&mut self, ctx: &mut Connection) -> (r: Running)
        ensures
            (final(self)@, final(ctx)@) == old(self)@.stopping(old(ctx)@),
            r == Running::Stop,
    {
        if let Some(mut rec) = self.rec.take() {
            if ctx.connected() {
                rec.close();
            } else {
                rec.interrupted();
            }
            ctx.release(rec);
        }
        Running::Stop
    }

    /// The connection broke a rule of its protocol.
    pub fn error(&mut self, ctx: &mut Connection)
        ensures
            (final(self)@, final(ctx)@) == old(self)@.error(old(ctx)@),
    {
        if let Some(mut rec) = self.rec.take() {
            rec.interrupted();
            ctx.release(rec);
        }
        ctx.stop();
    }

    /// Handles a frame that the registry sends to every session.
    ///
    /// The frame is sent at once, in addition to what the record's buffer
    /// holds: the buffer is left as it is, and so is the record's state unless
    /// the frame is a `Close`.
    pub fn handle_broadcast(&mut self, msg: Frame, ctx: &mut Connection)
        ensures
            (final(self)@, final(ctx)@) == old(self)@.handle_broadcast(old(ctx)@, msg@),
            old(self)@.rec matches Some(rec) ==> final(self)@.rec == Some(
                RecordView {
                    state: if msg@ is Close {
                        rec.state.close()
                    } else {
                        rec.state
                    },
                    ..rec
                },
            ),
            old(self)@.rec is None ==> final(self)@ == old(self)@ && final(ctx)@ == old(ctx)@,
            final(self)@.flags == old(self)@.flags,
    {
        if let Some(mut rec) = self.rec.take() {
            self.send(ctx, &msg, &mut rec);
            self.rec = Some(rec);
        }
    }

    /// Acts on a decoded inbound text.
    pub fn receive(
        &mut self,
        payloads: Result<Vec<String>, MalformedPayload>,
        ctx: &mut Connection,
    )
        ensures
            (final(self)@, final(ctx)@) == old(self)@.receive(old(ctx)@, decoded(payloads)),
    {
        match payloads {
            Ok(payloads) => {
                if let Some(rec) = &self.rec {
                    let mut i: usize = 0;
                    while i < payloads.len()
                        invariant
                            i <= payloads.len(),
                            ctx@.connected == old(ctx)@.connected,
                            ctx@.outbox == old(ctx)@.outbox + deliveries(
                                rec@.sid,
                                texts(payloads@),
                            ).take(i as int),
                        decreases payloads.len() - i,
                    {
                        ctx.deliver(rec.sid.clone(), payloads[i].clone());
                        proof {
                            let all = deliveries(rec@.sid, texts(payloads@));
                            assert(all.take(i as int + 1) =~= all.take(i as int).push(
                                all[i as int],
                            ));
                            assert(ctx@.outbox =~= old(ctx)@.outbox + all.take(i as int + 1));
                        }
                        i = i + 1;
                    }
                    proof {
                        let all = deliveries(rec@.sid, texts(payloads@));
                        assert(all.take(i as int) =~= all);
                    }
                }
            },
            Err(_) => {
                ctx.close(CloseCode::InvalidPayload);
                self.error(ctx);
            },
        }
    }

    /// Handles a message from the peer.
    pub fn handle(&mut self, msg: Message, ctx: &mut Connection)
        ensures
            (final(self)@, final(ctx)@) == old(self)@.handle(old(ctx)@, msg@),
    {
        match msg {
            Message::Ping(msg) => ctx.pong(msg),
            Message::Text(text) => {
                match source_of(text.as_str().as_bytes()) {
                    Some(source) => {
                        let payloads = decode(source.as_slice());
                        self.receive(payloads, ctx);
                    },
                    None => {},
                }
            },
            Message::Binary(_) => {},
            Message::Close => {
                if let Some(mut rec) = self.rec.take() {
                    rec.close();
                    ctx.release(rec);
                }
                ctx.stop();
            },
            Message::Pong(_) => {},
        }
    }
}

/// A sequence with one more frame holds a `Close` if the sequence did or the
/// frame is one.
pub proof fn lemma_closes_push(frames: Seq<FrameView>, frame: FrameView)
    ensures
        closes(frames.push(frame)) <==> closes(frames) || frame is Close,
{
    let more = frames.push(frame);
    if closes(frames) {
        let i = choose|i: int| 0 <= i < frames.len() && frames[i] is Close;
        assert(more[i] is Close);
    }
    if frame is Close {
        assert(more[frames.len() as int] is Close);
    }
    if closes(more) {
        let i = choose|i: int| 0 <= i < more.len() && more[i] is Close;
        if i < frames.len() {
            assert(frames[i] is Close);
        }
    }
}

/// Closing a state twice is closing it once.
pub proof fn lemma_close_twice(state: SessionState)
    ensures
        state.close().close() == state.close(),
{
}

/// Decodes a JSON array of strings.
pub fn decode(source: &[u8]) -> (r: Result<Vec<String>, MalformedPayload>)
    ensures
        decoded(r) == json_strings(source@),
{
    match from_slice(source) {
        Ok(payloads) => Ok(payloads),
        Err(_) => Err(MalformedPayload),
    }
}

/// Finds the JSON text that an inbound text stands for.
pub fn source_of(text: &[u8]) -> (r: Option<Vec<u8>>)
    ensures
        match r {
            Some(source) => payload_source(text@) == Some(source@),
            None => payload_source(text@) is None,
        },
{
    if text.len() == 0 {
        return None;
    }
    if text[0] != 0x5b {
        return Some(slice_to_vec(text));
    }
    if text.len() <= 2 {
        return None;
    }
    let mut source: Vec<u8> = Vec::new();
    source.push(0x5b);
    let mut i: usize = 1;
    while i < text.len() - 1
        invariant
            2 < text.len(),
            1 <= i <= text.len() - 1,
            source@ == seq![0x5bu8] + text@.subrange(1, i as int),
        decreases text.len() - i,
    {
        source.push(text[i]);
        assert(text@.subrange(1, i as int + 1) =~= text@.subrange(1, i as int).push(
            text@[i as int],
        ));
        i = i + 1;
    }
    source.push(0x5d);
    assert(source@ =~= seq![0x5bu8] + text@.subrange(1, text@.len() - 1) + seq![0x5du8]);
    Some(source)
}

} // verus!
