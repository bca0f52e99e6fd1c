//! What the broker guarantees.
//!
//! Each statement here is proved of the models that the contracts of
//! [`Registry`](crate::manager::Registry) and
//! [`Websocket`](crate::transports::websocket::Websocket) are written in, so
//! it holds of every run of the executable code.
//!
//! [`registry`] holds what is true of the registry alone, [`transport`] what
//! is true of a transport alone. The statements in this file follow a session
//! through both.

use crate::guarantees::registry::{
    lemma_acquire_binds, lemma_known_has_index, lemma_put_keeps_places,
    lemma_sends_queue_while_detached, send_all,
};
use crate::guarantees::transport::{feed, items, lemma_stream_in_order, opening};
use crate::manager::{BindingView, DispatchView, RecordView, RegistryView, SessionError, SessionView};
use crate::protocol::{CloseCode, FrameView};
use crate::session::SessionState;
use crate::transports::websocket::{transmission, transmissions, ChannelItemView, WebsocketView};
use crate::transports::{CommandView, ConnectionView};
use vstd::prelude::*;

pub mod registry;
pub mod transport;

verus! {

/// Frames reach the peer in the order in which they were sent, each once.
///
/// Take a session that is alive and that no transport holds. Frames sent to
/// it now (`detached`) are buffered. A transport then acquires it over an open
/// connection; from here on every frame sent to the session is forwarded to
/// that transport. Some arrive before the registry says `Ready` (`early`), the
/// rest after (`late`). The transport transmits `Open` if the session is new,
/// then the backlog, then `detached`, then `early`, then `late`, and issues
/// nothing else but the one `Subscribe`.
pub proof fn ordered_delivery(
    registry: RegistryView,
    sid: Seq<char>,
    rec: RecordView,
    recipient: u64,
    ctx: ConnectionView,
    detached: Seq<FrameView>,
    early: Seq<FrameView>,
    late: Seq<FrameView>,
)
    requires
        registry.knows(sid),
        registry.session(sid).binding == BindingView::Detached(rec),
        !rec.state.is_terminal(),
        ctx.connected,
    ensures
        ({
            let (held, reply) = send_all(registry, sid, detached).acquire(sid, recipient);
            let (tr, ctx1) = WebsocketView::idle().init_transport(ctx, reply);
            let stream = items(early) + seq![ChannelItemView::Ready] + items(late);
            &&& reply == Ok::<RecordView, SessionError>(
                RecordView { buffer: rec.buffer + detached, ..rec },
            )
            &&& forall|frame: FrameView| #[trigger]
                held.send(sid, frame) == (held, DispatchView::Forward(recipient, frame))
            &&& feed(tr, ctx1, stream).1 == ctx.extend(
                opening(rec.state) + transmissions(rec.buffer + detached) + seq![
                    CommandView::Subscribe,
                ] + transmissions(early + late),
            )
        }),
{
    lemma_sends_queue_while_detached(registry, sid, rec, detached);
    let backlog = RecordView { buffer: rec.buffer + detached, ..rec };
    let queued = SessionView { binding: BindingView::Detached(backlog), ..registry.session(sid) };
    lemma_known_has_index(registry, sid);
    lemma_put_keeps_places(registry, sid, queued);
    lemma_acquire_binds(registry.put(sid, queued), sid, backlog, recipient);
    lemma_stream_in_order(ctx, backlog, early, late);
}

/// The close code that answers the acquire of a session that has ended.
pub open spec fn parting_code(state: SessionState) -> CloseCode {
    if state == SessionState::Interrupted {
        CloseCode::Interrupted
    } else {
        CloseCode::GoAway
    }
}

/// A session that has ended stays ended, and every acquire of it is answered
/// alike.
///
/// The registry hands out the record. The transport transmits the close frame
/// of the record's state (on an open connection), never `Open`, gives the
/// record back as it got it, and holds nothing. The release puts the registry
/// back where it was, so the next acquire meets the same session.
pub proof fn ended_session_stays_ended(
    registry: RegistryView,
    sid: Seq<char>,
    rec: RecordView,
    recipient: u64,
    ctx: ConnectionView,
)
    requires
        registry.wf(),
        registry.knows(sid),
        registry.session(sid).binding == BindingView::Detached(rec),
        rec.state.is_terminal(),
    ensures
        ({
            let (held, reply) = registry.acquire(sid, recipient);
            let (tr, after) = WebsocketView::idle().init_transport(ctx, reply);
            &&& reply == Ok::<RecordView, SessionError>(rec)
            &&& tr == WebsocketView::idle()
            &&& after.outbox == ctx.outbox + (if ctx.connected {
                seq![CommandView::Text(parting_code(rec.state).frame_text())]
            } else {
                Seq::empty()
            }) + seq![CommandView::Release(rec)]
            &&& held.release(rec) == registry
        }),
{
    lemma_known_has_index(registry, sid);
    let (held, reply) = registry.acquire(sid, recipient);
    let bound = SessionView { binding: BindingView::Attached(recipient), ..registry.session(sid) };
    lemma_put_keeps_places(registry, sid, bound);
    let (tr, after) = WebsocketView::idle().init_transport(ctx, reply);
    let code = parting_code(rec.state);
    assert(transmission(FrameView::Close(code)) =~= seq![CommandView::Text(code.frame_text())]);
    assert(after.outbox =~= ctx.outbox + (if ctx.connected {
        seq![CommandView::Text(parting_code(rec.state).frame_text())]
    } else {
        Seq::empty()
    }) + seq![CommandView::Release(rec)]);
    assert(held.release(rec).sessions =~= registry.sessions);
}

} // verus!
