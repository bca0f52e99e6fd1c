//! What holds of a transport.

use crate::json::json_strings;
use crate::manager::{RecordView, SessionError};
use crate::protocol::{CloseCode, FrameView};
use crate::session::SessionState;
use crate::transports::websocket::{
    closes, deliveries, lemma_close_twice, lemma_closes_push, payload_source, transmission,
    transmissions, ChannelItemView, MessageView, WebsocketView,
};
use crate::transports::{CommandView, ConnectionView, Flag, Flags, SendResult};
use vstd::prelude::*;
use vstd::utf8::encode_utf8;

verus! {

/// The live-stream items that carry a sequence of frames.
pub open spec fn items(frames: Seq<FrameView>) -> Seq<ChannelItemView> {
    Seq::new(frames.len(), |i: int| ChannelItemView::Frame(frames[i]))
}

/// The transport and its connection after a sequence of live-stream items.
pub open spec fn feed(tr: WebsocketView, ctx: ConnectionView, stream: Seq<ChannelItemView>) -> (
    WebsocketView,
    ConnectionView,
)
    decreases stream.len(),
{
    if stream.len() == 0 {
        (tr, ctx)
    } else {
        let (tr, ctx) = feed(tr, ctx, stream.drop_last());
        tr.handle_message(ctx, stream.last())
    }
}

/// A record's state after `frames` were sent from it.
pub open spec fn state_after(state: SessionState, frames: Seq<FrameView>) -> SessionState {
    if closes(frames) {
        state.close()
    } else {
        state
    }
}

/// Transmitting two runs of frames, one after the other, transmits their
/// concatenation.
pub proof fn lemma_transmissions_add(a: Seq<FrameView>, b: Seq<FrameView>)
    ensures
        transmissions(a + b) == transmissions(a) + transmissions(b),
    decreases b.len(),
{
    if b.len() == 0 {
        assert(a + b =~= a);
        assert(transmissions(a) + transmissions(b) =~= transmissions(a));
    } else {
        assert((a + b).drop_last() =~= a + b.drop_last());
        assert((a + b).last() == b.last());
        lemma_transmissions_add(a, b.drop_last());
        assert(transmissions(a + b) =~= transmissions(a) + transmissions(b));
    }
}

/// Feeding two runs of items, one after the other, feeds their concatenation.
pub proof fn lemma_feed_add(
    tr: WebsocketView,
    ctx: ConnectionView,
    a: Seq<ChannelItemView>,
    b: Seq<ChannelItemView>,
)
    ensures
        feed(tr, ctx, a + b) == feed(feed(tr, ctx, a).0, feed(tr, ctx, a).1, b),
    decreases b.len(),
{
    if b.len() == 0 {
        assert(a + b =~= a);
    } else {
        assert((a + b).drop_last() =~= a + b.drop_last());
        assert((a + b).last() == b.last());
        lemma_feed_add(tr, ctx, a, b.drop_last());
    }
}

/// Before `Ready`, frames from the live stream queue up behind the backlog and
/// nothing is issued.
pub proof fn lemma_feed_before_ready(
    tr: WebsocketView,
    ctx: ConnectionView,
    rec: RecordView,
    frames: Seq<FrameView>,
)
    requires
        tr.rec == Some(rec),
        !tr.flags.has(Flag::Ready),
    ensures
        feed(tr, ctx, items(frames)) == (
            WebsocketView { rec: Some(RecordView { buffer: rec.buffer + frames, ..rec }), ..tr },
            ctx,
        ),
    decreases frames.len(),
{
    if frames.len() == 0 {
        assert(rec.buffer + frames =~= rec.buffer);
    } else {
        assert(items(frames).drop_last() =~= items(frames.drop_last()));
        lemma_feed_before_ready(tr, ctx, rec, frames.drop_last());
        assert((rec.buffer + frames.drop_last()).push(frames.last()) =~= rec.buffer + frames);
    }
}

/// After `Ready`, on an open connection, each frame from the live stream is
/// transmitted as it comes.
pub proof fn lemma_feed_after_ready(
    tr: WebsocketView,
    ctx: ConnectionView,
    rec: RecordView,
    frames: Seq<FrameView>,
)
    requires
        tr.rec == Some(rec),
        tr.flags.has(Flag::Ready),
        ctx.connected,
    ensures
        feed(tr, ctx, items(frames)) == (
            WebsocketView {
                rec: Some(RecordView { state: state_after(rec.state, frames), ..rec }),
                ..tr
            },
            ctx.extend(transmissions(frames)),
        ),
    decreases frames.len(),
{
    if frames.len() == 0 {
        assert(!closes(frames));
        assert(ctx.outbox + transmissions(frames) =~= ctx.outbox);
    } else {
        let front = frames.drop_last();
        assert(items(frames).drop_last() =~= items(front));
        lemma_feed_after_ready(tr, ctx, rec, front);
        assert(front.push(frames.last()) =~= frames);
        lemma_closes_push(front, frames.last());
        lemma_close_twice(rec.state);
        assert((ctx.outbox + transmissions(front)) + transmission(frames.last()) =~= ctx.outbox
            + transmissions(frames));
    }
}

/// A record after its buffer was flushed on an open connection.
pub open spec fn flushed(rec: RecordView) -> RecordView {
    RecordView { buffer: Seq::empty(), state: state_after(rec.state, rec.buffer), ..rec }
}

/// On an open connection a flush transmits the whole buffer, in order.
pub proof fn lemma_flush_transmits_all(ctx: ConnectionView, rec: RecordView)
    requires
        ctx.connected,
    ensures
        WebsocketView::send_buffered(ctx, rec) == (
            ctx.extend(transmissions(rec.buffer)),
            flushed(rec),
            SendResult::Continue,
        ),
{
    if rec.buffer.len() == 0 {
        assert(!closes(rec.buffer));
        assert(rec.buffer =~= Seq::empty());
        assert(ctx.outbox + transmissions(rec.buffer) =~= ctx.outbox);
    }
}

/// What a transport transmits before the backlog: `Open` for a session that
/// was never attached, nothing for one that was.
pub open spec fn opening(state: SessionState) -> Seq<CommandView> {
    if state == SessionState::New {
        seq![CommandView::Text("o"@)]
    } else {
        Seq::empty()
    }
}

/// Attaching to a session that is alive, over an open connection: the
/// transport transmits `Open` if the session is new, then the backlog, then
/// subscribes to the live stream, and holds the record, running and with an
/// empty buffer.
pub proof fn lemma_attach_transmits_backlog(ctx: ConnectionView, rec: RecordView)
    requires
        !rec.state.is_terminal(),
        ctx.connected,
    ensures
        WebsocketView::idle().init_transport(ctx, Ok::<RecordView, SessionError>(rec)) == (
            WebsocketView {
                rec: Some(flushed(RecordView { state: SessionState::Running, ..rec })),
                flags: Flags::none(),
            },
            ctx.extend(opening(rec.state) + transmissions(rec.buffer)).push(
                CommandView::Subscribe,
            ),
        ),
{
    let running = RecordView { state: SessionState::Running, ..rec };
    let (tr, after) = WebsocketView::idle().init_transport(ctx, Ok::<RecordView, SessionError>(rec));
    assert(transmission(FrameView::Open) =~= seq![CommandView::Text("o"@)]);
    let opened = ctx.extend(opening(rec.state));
    assert(rec.state == SessionState::Running ==> opened.outbox =~= ctx.outbox);
    lemma_flush_transmits_all(opened, running);
    assert(after.outbox =~= ctx.extend(opening(rec.state) + transmissions(rec.buffer)).push(
        CommandView::Subscribe,
    ).outbox);
}

/// The stream of a transport that has the record of a session that is alive:
/// frames that arrive before `Ready`, `Ready`, frames that arrive after it.
///
/// On an open connection the transport transmits `Open` if the session is
/// new, then the record's backlog, then subscribes, then transmits the early
/// frames, then the late ones.
pub proof fn lemma_stream_in_order(
    ctx: ConnectionView,
    rec: RecordView,
    early: Seq<FrameView>,
    late: Seq<FrameView>,
)
    requires
        !rec.state.is_terminal(),
        ctx.connected,
    ensures
        ({
            let (tr, ctx1) = WebsocketView::idle().init_transport(
                ctx,
                Ok::<RecordView, SessionError>(rec),
            );
            let stream = items(early) + seq![ChannelItemView::Ready] + items(late);
            feed(tr, ctx1, stream).1 == ctx.extend(
                opening(rec.state) + transmissions(rec.buffer) + seq![CommandView::Subscribe]
                    + transmissions(early + late),
            )
        }),
{
    let (tr, ctx1) = WebsocketView::idle().init_transport(ctx, Ok::<RecordView, SessionError>(rec));
    lemma_attach_transmits_backlog(ctx, rec);
    let start = flushed(RecordView { state: SessionState::Running, ..rec });

    // the frames that arrive before `Ready` wait in the buffer
    lemma_feed_before_ready(tr, ctx1, start, early);
    let waiting = RecordView { buffer: start.buffer + early, ..start };
    let tr2 = WebsocketView { rec: Some(waiting), ..tr };
    assert(waiting.buffer =~= early);

    // `Ready` flushes them
    lemma_flush_transmits_all(ctx1, waiting);
    let (tr3, ctx3) = tr2.handle_message(ctx1, ChannelItemView::Ready);
    assert(tr3 == WebsocketView {
        rec: Some(flushed(waiting)),
        flags: Flags::none().with(Flag::Ready),
    });
    assert(ctx3 == ctx1.extend(transmissions(early)));

    // the frames that arrive after `Ready` go straight out
    lemma_feed_after_ready(tr3, ctx3, flushed(waiting), late);

    let one = seq![ChannelItemView::Ready];
    assert(feed(tr2, ctx1, one) == (tr3, ctx3)) by {
        assert(one.drop_last() =~= Seq::<ChannelItemView>::empty());
        assert(feed(tr2, ctx1, one.drop_last()) == (tr2, ctx1));
        assert(one.last() == ChannelItemView::Ready);
    }
    lemma_feed_add(tr, ctx1, items(early), one);
    lemma_feed_add(tr, ctx1, items(early) + one, items(late));
    lemma_transmissions_add(early, late);
    assert(ctx3.extend(transmissions(late)).outbox =~= ctx.outbox + (opening(rec.state)
        + transmissions(rec.buffer) + seq![CommandView::Subscribe] + transmissions(
        early + late,
    )));
}

/// The first thing a new session's transport transmits is `Open`, and only a
/// new session's transport transmits it.
///
/// On an open connection the answer to the acquire of a session that is alive
/// makes the transport transmit `o` if the session is new, then the backlog,
/// and nothing before them. On a connection that is no longer open it
/// transmits nothing at all. Either way the record it then holds is not new:
/// the session is not opened a second time.
pub proof fn open_comes_first(ctx: ConnectionView, rec: RecordView)
    requires
        !rec.state.is_terminal(),
    ensures
        ({
            let (tr, after) = WebsocketView::idle().init_transport(
                ctx,
                Ok::<RecordView, SessionError>(rec),
            );
            &&& ctx.connected ==> after.outbox == ctx.outbox + opening(rec.state) + transmissions(
                rec.buffer,
            ) + seq![CommandView::Subscribe]
            &&& !ctx.connected ==> after.outbox == ctx.outbox + seq![CommandView::Subscribe]
            &&& tr.rec is Some
            &&& tr.rec->0.state != SessionState::New
        }),
{
    let (tr, after) = WebsocketView::idle().init_transport(ctx, Ok::<RecordView, SessionError>(rec));
    if ctx.connected {
        lemma_attach_transmits_backlog(ctx, rec);
        assert(after.outbox =~= ctx.outbox + opening(rec.state) + transmissions(rec.buffer)
            + seq![CommandView::Subscribe]);
    } else {
        assert(after.outbox =~= ctx.outbox + seq![CommandView::Subscribe]);
    }
}

/// The commands that end a connection over a text that did not decode.
pub open spec fn rejection(tr: WebsocketView) -> Seq<CommandView> {
    seq![CommandView::Close(CloseCode::InvalidPayload)] + (match tr.rec {
        Some(rec) => seq![CommandView::Release(rec.interrupt())],
        None => Seq::empty(),
    }) + seq![CommandView::Stop]
}

/// A text that does not decode reaches no handler.
///
/// The transport closes the connection as invalid, gives a record that it
/// holds back, interrupted, and stops: one `Close`, at most one `Release`, no
/// `Deliver`. It holds no record afterwards.
pub proof fn malformed_text_is_not_delivered(
    tr: WebsocketView,
    ctx: ConnectionView,
    text: Seq<char>,
)
    ensures
        tr.receive(ctx, None) == (WebsocketView { rec: None, ..tr }, ctx.extend(rejection(tr))),
        payload_source(encode_utf8(text)) matches Some(source) ==> (json_strings(source) is None
            ==> tr.handle(ctx, MessageView::Text(text)) == (
            WebsocketView { rec: None, ..tr },
            ctx.extend(rejection(tr)),
        )),
{
    assert(tr.receive(ctx, None).1.outbox =~= ctx.outbox + rejection(tr));
}

/// A record's state only moves forward, and a state that has ended does not
/// move at all: not by a send, not by a flush, not by a release.
pub proof fn states_only_advance(ctx: ConnectionView, rec: RecordView, msg: FrameView)
    ensures
        rec.state.rank() <= WebsocketView::send(ctx, msg, rec).1.state.rank(),
        rec.state.rank() <= WebsocketView::send_buffered(ctx, rec).1.state.rank(),
        rec.state.rank() <= rec.close().state.rank(),
        rec.state.rank() <= rec.interrupt().state.rank(),
        rec.state.is_terminal() ==> {
            &&& WebsocketView::send(ctx, msg, rec).1.state == rec.state
            &&& WebsocketView::send_buffered(ctx, rec).1.state == rec.state
            &&& rec.close().state == rec.state
            &&& rec.interrupt().state == rec.state
        },
{
}

/// A binary message, like an empty text or a pong, changes nothing and issues
/// nothing.
pub proof fn binary_message_is_ignored(tr: WebsocketView, ctx: ConnectionView, bytes: Seq<u8>)
    ensures
        tr.handle(ctx, MessageView::Binary(bytes)) == (tr, ctx),
        tr.handle(ctx, MessageView::Text(Seq::empty())) == (tr, ctx),
        forall|payload: Seq<u8>| #[trigger]
            tr.handle(ctx, MessageView::Pong(payload)) == (tr, ctx),
{
    assert(encode_utf8(Seq::<char>::empty()).len() == 0) by {
        reveal_with_fuel(encode_utf8, 1);
    }
}

/// How many of the commands give a record back.
pub open spec fn releases(commands: Seq<CommandView>) -> nat
    decreases commands.len(),
{
    if commands.len() == 0 {
        0
    } else {
        releases(commands.drop_last()) + if commands.last() is Release {
            1nat
        } else {
            0nat
        }
    }
}

/// How many records a transport holds: one or none.
pub open spec fn holds(tr: WebsocketView) -> nat {
    if tr.rec is Some {
        1
    } else {
        0
    }
}

/// What can happen to a transport.
pub enum Event {
    /// An item arrives on the live stream.
    Stream(ChannelItemView),
    /// A broadcast arrives.
    Broadcast(FrameView),
    /// A message arrives from the peer.
    Inbound(MessageView),
    /// The connection breaks a rule of its protocol.
    Error,
    /// The transport is told to release its session.
    Release,
    /// The transport shuts down.
    Stopping,
}

/// The transport and its connection after one event.
pub open spec fn step(tr: WebsocketView, ctx: ConnectionView, event: Event) -> (
    WebsocketView,
    ConnectionView,
) {
    match event {
        Event::Stream(item) => tr.handle_message(ctx, item),
        Event::Broadcast(frame) => tr.handle_broadcast(ctx, frame),
        Event::Inbound(msg) => tr.handle(ctx, msg),
        Event::Error => tr.error(ctx),
        Event::Release => tr.release(ctx),
        Event::Stopping => tr.stopping(ctx),
    }
}

/// The transport and its connection after a sequence of events.
pub open spec fn run(tr: WebsocketView, ctx: ConnectionView, events: Seq<Event>) -> (
    WebsocketView,
    ConnectionView,
)
    decreases events.len(),
{
    if events.len() == 0 {
        (tr, ctx)
    } else {
        let (tr, ctx) = run(tr, ctx, events.drop_last());
        step(tr, ctx, events.last())
    }
}

/// Counting the releases of two runs of commands counts those of their
/// concatenation.
pub proof fn lemma_releases_add(a: Seq<CommandView>, b: Seq<CommandView>)
    ensures
        releases(a + b) == releases(a) + releases(b),
    decreases b.len(),
{
    if b.len() == 0 {
        assert(a + b =~= a);
    } else {
        assert((a + b).drop_last() =~= a + b.drop_last());
        assert((a + b).last() == b.last());
        lemma_releases_add(a, b.drop_last());
    }
}

/// One more command is one more release if it is one, and none otherwise.
pub proof fn lemma_releases_push(a: Seq<CommandView>, command: CommandView)
    ensures
        releases(a.push(command)) == releases(a) + if command is Release {
            1nat
        } else {
            0nat
        },
{
    assert(a.push(command).drop_last() =~= a);
}

/// Transmitting frames releases nothing.
pub proof fn lemma_transmissions_release_nothing(frames: Seq<FrameView>)
    ensures
        releases(transmissions(frames)) == 0,
    decreases frames.len(),
{
    if frames.len() > 0 {
        lemma_transmissions_release_nothing(frames.drop_last());
        lemma_releases_add(transmissions(frames.drop_last()), transmission(frames.last()));
        lemma_transmission_releases_nothing(frames.last());
    }
}

/// Transmitting a frame releases nothing.
pub proof fn lemma_transmission_releases_nothing(frame: FrameView)
    ensures
        releases(transmission(frame)) == 0,
{
    match frame.wire_text() {
        Some(text) => {
            lemma_releases_push(Seq::empty(), CommandView::Text(text));
            assert(Seq::<CommandView>::empty().push(CommandView::Text(text)) =~= transmission(
                frame,
            ));
        },
        None => {},
    }
}

/// Delivering payloads releases nothing.
pub proof fn lemma_deliveries_release_nothing(sid: Seq<char>, payloads: Seq<Seq<char>>)
    ensures
        releases(deliveries(sid, payloads)) == 0,
    decreases payloads.len(),
{
    if payloads.len() > 0 {
        let all = deliveries(sid, payloads);
        assert(all.drop_last() =~= deliveries(sid, payloads.drop_last()));
        lemma_deliveries_release_nothing(sid, payloads.drop_last());
    }
}

/// A send or a flush releases nothing.
pub proof fn lemma_sends_release_nothing(ctx: ConnectionView, rec: RecordView, msg: FrameView)
    ensures
        releases(WebsocketView::send(ctx, msg, rec).0.outbox) == releases(ctx.outbox),
        releases(WebsocketView::send_buffered(ctx, rec).0.outbox) == releases(ctx.outbox),
{
    lemma_transmission_releases_nothing(msg);
    lemma_releases_add(ctx.outbox, transmission(msg));
    lemma_transmissions_release_nothing(rec.buffer);
    lemma_releases_add(ctx.outbox, transmissions(rec.buffer));
}

/// Releasing gives back what is held, and no more.
pub proof fn lemma_release_is_balanced(tr: WebsocketView, ctx: ConnectionView)
    ensures
        releases(tr.release(ctx).1.outbox) + holds(tr.release(ctx).0) == releases(ctx.outbox)
            + holds(tr),
        releases(tr.error(ctx).1.outbox) + holds(tr.error(ctx).0) == releases(ctx.outbox) + holds(
            tr,
        ),
        releases(tr.stopping(ctx).1.outbox) + holds(tr.stopping(ctx).0) == releases(ctx.outbox)
            + holds(tr),
{
    lemma_releases_push(ctx.outbox, CommandView::Stop);
    match tr.rec {
        Some(rec) => {
            let marked = if ctx.connected {
                rec
            } else {
                rec.interrupt()
            };
            lemma_releases_push(ctx.outbox, CommandView::Release(marked));
            lemma_releases_push(ctx.push(CommandView::Release(marked)).outbox, CommandView::Stop);
            lemma_releases_push(ctx.outbox, CommandView::Release(rec.interrupt()));
            lemma_releases_push(
                ctx.push(CommandView::Release(rec.interrupt())).outbox,
                CommandView::Stop,
            );
            let parted = if ctx.connected {
                rec.close()
            } else {
                rec.interrupt()
            };
            lemma_releases_push(ctx.outbox, CommandView::Release(parted));
        },
        None => {},
    }
}

/// Every event leaves the record where it was or gives it back: the releases
/// issued and the records held add up to what they were.
pub proof fn lemma_step_is_balanced(tr: WebsocketView, ctx: ConnectionView, event: Event)
    ensures
        releases(step(tr, ctx, event).1.outbox) + holds(step(tr, ctx, event).0) == releases(
            ctx.outbox,
        ) + holds(tr),
{
    lemma_release_is_balanced(tr, ctx);
    match event {
        Event::Stream(ChannelItemView::Frame(frame)) => {
            if let Some(rec) = tr.rec {
                if tr.flags.has(Flag::Ready) {
                    lemma_sends_release_nothing(ctx, rec, frame);
                    let (ctx1, rec1, result) = WebsocketView::send(ctx, frame, rec);
                    lemma_release_is_balanced(WebsocketView { rec: Some(rec1), ..tr }, ctx1);
                }
            }
        },
        Event::Stream(ChannelItemView::Ready) => {
            let (tr1, ctx1) = match tr.rec {
                Some(rec) => {
                    let (ctx1, rec1, result) = WebsocketView::send_buffered(ctx, rec);
                    tr.after_send(ctx1, rec1, result)
                },
                None => (tr, ctx),
            };
            if let Some(rec) = tr.rec {
                lemma_sends_release_nothing(ctx, rec, FrameView::Heartbeat);
                let (ctx0, rec0, result) = WebsocketView::send_buffered(ctx, rec);
                lemma_release_is_balanced(WebsocketView { rec: Some(rec0), ..tr }, ctx0);
            }
            lemma_release_is_balanced(tr1, ctx1);
        },
        Event::Broadcast(frame) => {
            if let Some(rec) = tr.rec {
                lemma_sends_release_nothing(ctx, rec, frame);
            }
        },
        Event::Inbound(MessageView::Ping(payload)) => {
            lemma_releases_push(ctx.outbox, CommandView::Pong(payload));
        },
        Event::Inbound(MessageView::Text(text)) => {
            if let Some(source) = payload_source(encode_utf8(text)) {
                match json_strings(source) {
                    Some(payloads) => {
                        if let Some(rec) = tr.rec {
                            lemma_deliveries_release_nothing(rec.sid, payloads);
                            lemma_releases_add(ctx.outbox, deliveries(rec.sid, payloads));
                        }
                    },
                    None => {
                        let closed = ctx.push(CommandView::Close(CloseCode::InvalidPayload));
                        lemma_releases_push(
                            ctx.outbox,
                            CommandView::Close(CloseCode::InvalidPayload),
                        );
                        lemma_release_is_balanced(tr, closed);
                    },
                }
            }
        },
        Event::Inbound(MessageView::Close) => {
            lemma_releases_push(ctx.outbox, CommandView::Stop);
            if let Some(rec) = tr.rec {
                lemma_releases_push(ctx.outbox, CommandView::Release(rec.close()));
                lemma_releases_push(
                    ctx.push(CommandView::Release(rec.close())).outbox,
                    CommandView::Stop,
                );
            }
        },
        _ => {},
    }
}

/// A record is given back once.
///
/// Whatever happens to a transport, and in whatever order, the record it
/// holds is either still held or has been given back, once: the releases
/// issued and the records held always add up to what they were. A transport
/// without a record releases nothing.
pub proof fn record_is_released_once(tr: WebsocketView, ctx: ConnectionView, events: Seq<Event>)
    ensures
        releases(run(tr, ctx, events).1.outbox) + holds(run(tr, ctx, events).0) == releases(
            ctx.outbox,
        ) + holds(tr),
    decreases events.len(),
{
    if events.len() > 0 {
        record_is_released_once(tr, ctx, events.drop_last());
        let (tr1, ctx1) = run(tr, ctx, events.drop_last());
        lemma_step_is_balanced(tr1, ctx1, events.last());
    }
}

/// The answer to an acquire puts a record into the transport's hands or not,
/// and a record that it does not keep is given back at once.
pub proof fn acquired_record_is_kept_or_released(
    ctx: ConnectionView,
    reply: Result<RecordView, SessionError>,
)
    ensures
        ({
            let (tr, after) = WebsocketView::idle().init_transport(ctx, reply);
            releases(after.outbox) + holds(tr) == releases(ctx.outbox) + if reply is Ok {
                1nat
            } else {
                0nat
            }
        }),
{
    let (tr, after) = WebsocketView::idle().init_transport(ctx, reply);
    match reply {
        Ok(rec) => {
            let running = RecordView { state: SessionState::Running, ..rec };
            lemma_sends_release_nothing(ctx, rec, FrameView::Close(CloseCode::Interrupted));
            lemma_sends_release_nothing(ctx, rec, FrameView::Close(CloseCode::GoAway));
            lemma_sends_release_nothing(ctx, running, FrameView::Open);
            let (ctx1, rec1, result) = WebsocketView::send(ctx, FrameView::Open, running);
            lemma_sends_release_nothing(ctx1, rec1, FrameView::Open);
            match rec.state {
                SessionState::Running => {
                    let (c, r, _) = WebsocketView::send_buffered(ctx, rec);
                    lemma_releases_push(c.outbox, CommandView::Subscribe);
                },
                SessionState::New => {
                    if result == SendResult::Stop {
                        lemma_releases_push(ctx1.outbox, CommandView::Subscribe);
                    } else {
                        let (c, r, _) = WebsocketView::send_buffered(ctx1, rec1);
                        lemma_releases_push(c.outbox, CommandView::Subscribe);
                    }
                },
                SessionState::Interrupted => {
                    let (c, r, _) = WebsocketView::send(
                        ctx,
                        FrameView::Close(CloseCode::Interrupted),
                        rec,
                    );
                    lemma_releases_push(c.outbox, CommandView::Release(r));
                },
                SessionState::Closed => {
                    let (c, r, _) = WebsocketView::send(
                        ctx,
                        FrameView::Close(CloseCode::GoAway),
                        rec,
                    );
                    lemma_releases_push(c.outbox, CommandView::Release(r));
                },
            }
        },
        Err(err) => {
            lemma_releases_push(ctx.outbox, CommandView::Text(err.code().frame_text()));
            lemma_releases_push(
                ctx.push(CommandView::Text(err.code().frame_text())).outbox,
                CommandView::Stop,
            );
        },
    }
}

/// A transmission that fails is not tried again.
///
/// Over a connection that is no longer open, attaching to a session that is
/// alive transmits nothing and marks the transport for release. A flush then
/// takes the oldest frame out of the buffer and loses it; the rest stays in
/// the record, in order. At `Ready` the marked transport gives the record
/// back and holds nothing.
pub proof fn failed_transmission_is_not_retried(
    tr: WebsocketView,
    ctx: ConnectionView,
    rec: RecordView,
)
    requires
        !ctx.connected,
    ensures
        rec.buffer.len() > 0 ==> WebsocketView::send_buffered(ctx, rec).0 == ctx
            && WebsocketView::send_buffered(ctx, rec).1.buffer == rec.buffer.drop_first()
            && WebsocketView::send_buffered(ctx, rec).2 == SendResult::Stop,
        rec.state == SessionState::New || (rec.state == SessionState::Running && rec.buffer.len()
            > 0) ==> WebsocketView::idle().init_transport(
            ctx,
            Ok::<RecordView, SessionError>(rec),
        ).0.flags.has(Flag::Release),
        tr.flags.has(Flag::Release) ==> {
            let (after, out) = tr.handle_message(ctx, ChannelItemView::Ready);
            &&& after.rec is None
            &&& releases(out.outbox) == releases(ctx.outbox) + holds(tr)
        },
{
    lemma_step_is_balanced(tr, ctx, Event::Stream(ChannelItemView::Ready));
    if tr.flags.has(Flag::Release) {
        let (mid, out) = match tr.rec {
            Some(held) => {
                let (out, held, result) = WebsocketView::send_buffered(ctx, held);
                tr.after_send(out, held, result)
            },
            None => (tr, ctx),
        };
        assert(mid.flags.has(Flag::Release));
    }
}

/// How a connection's end is recorded in the session.
///
/// A record that the transport holds when its connection ends is given back
/// interrupted if the connection was lost, whichever way the end is noticed:
/// by a release, by a protocol error, or by the transport shutting down. It is
/// given back closed only where the peer closed the connection or the
/// transport shuts down over a connection that is still open. A release over
/// an open connection only detaches: the record keeps its state.
pub proof fn disconnect_is_classified(tr: WebsocketView, ctx: ConnectionView, rec: RecordView)
    requires
        tr.rec == Some(rec),
    ensures
        !ctx.connected ==> {
            &&& tr.release(ctx).1 == ctx.push(CommandView::Release(rec.interrupt())).push(
                CommandView::Stop,
            )
            &&& tr.stopping(ctx).1 == ctx.push(CommandView::Release(rec.interrupt()))
        },
        ctx.connected ==> {
            &&& tr.release(ctx).1 == ctx.push(CommandView::Release(rec)).push(CommandView::Stop)
            &&& tr.stopping(ctx).1 == ctx.push(CommandView::Release(rec.close()))
        },
        tr.error(ctx).1 == ctx.push(CommandView::Release(rec.interrupt())).push(
            CommandView::Stop,
        ),
        tr.handle(ctx, MessageView::Close).1 == ctx.push(CommandView::Release(rec.close())).push(
            CommandView::Stop,
        ),
        rec.state == SessionState::Running ==> rec.interrupt().state
            == SessionState::Interrupted && rec.close().state == SessionState::Closed,
        tr.release(ctx).0.rec is None,
        tr.stopping(ctx).0.rec is None,
        tr.error(ctx).0.rec is None,
        tr.handle(ctx, MessageView::Close).0.rec is None,
{
}

/// A broadcast comes in addition to the traffic that is waiting, and replaces
/// none of it.
///
/// A transport that holds a record sends the frame at once: on an open
/// connection the frame's text is transmitted and nothing else is issued. The
/// record's buffer is exactly what it was, and so are its state, unless the
/// frame is a `Close`, and the transport's flags. A heartbeat therefore
/// leaves the transport as it found it.
pub proof fn broadcast_adds_to_buffered_traffic(
    tr: WebsocketView,
    ctx: ConnectionView,
    rec: RecordView,
    frame: FrameView,
)
    requires
        tr.rec == Some(rec),
    ensures
        ({
            let (after, out) = tr.handle_broadcast(ctx, frame);
            &&& after.flags == tr.flags
            &&& after.rec is Some
            &&& after.rec->0.buffer == rec.buffer
            &&& after.rec->0.sid == rec.sid
            &&& after.rec->0.state == if frame is Close {
                rec.state.close()
            } else {
                rec.state
            }
            &&& ctx.connected ==> out == ctx.extend(transmission(frame))
            &&& !ctx.connected ==> out == ctx
        }),
        tr.handle_broadcast(ctx, FrameView::Heartbeat).0 == tr,
        ctx.connected ==> tr.handle_broadcast(ctx, FrameView::Heartbeat).1 == ctx.push(
            CommandView::Text("h"@),
        ),
{
    assert(ctx.extend(transmission(FrameView::Heartbeat)).outbox =~= ctx.push(
        CommandView::Text("h"@),
    ).outbox);
}

} // verus!
