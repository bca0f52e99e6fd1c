//! What holds of the registry.

use crate::manager::{
    recipients, BindingView, DispatchView, RecordView, RegistryView, SessionError, SessionView,
};
use crate::protocol::FrameView;
use crate::session::SessionState;
use vstd::prelude::*;

verus! {

/// The first session of an identity stands at one place only.
pub proof fn lemma_first_at_unique(registry: RegistryView, sid: Seq<char>, i: int)
    requires
        registry.first_at(sid, i),
    ensures
        registry.knows(sid),
        registry.index_of(sid) == i,
        registry.session(sid) == registry.sessions[i],
{
    let k = registry.index_of(sid);
    assert(registry.first_at(sid, k));
    if k < i {
        assert(registry.sessions[k].sid != sid);
    }
    if i < k {
        assert(registry.sessions[i].sid != sid);
    }
}

/// A known session stands where `index_of` says.
pub proof fn lemma_known_has_index(registry: RegistryView, sid: Seq<char>)
    requires
        registry.knows(sid),
    ensures
        registry.first_at(sid, registry.index_of(sid)),
        registry.session(sid).sid == sid,
{
    let w = choose|i: int| 0 <= i < registry.sessions.len() && registry.sessions[i].sid == sid;
    lemma_first_exists(registry, sid, w);
}

proof fn lemma_first_exists(registry: RegistryView, sid: Seq<char>, w: int)
    requires
        0 <= w < registry.sessions.len(),
        registry.sessions[w].sid == sid,
    ensures
        exists|i: int| registry.first_at(sid, i),
    decreases w,
{
    if exists|j: int| 0 <= j < w && registry.sessions[j].sid == sid {
        let j = choose|j: int| 0 <= j < w && registry.sessions[j].sid == sid;
        lemma_first_exists(registry, sid, j);
    } else {
        assert(registry.first_at(sid, w));
    }
}

/// Replacing a session by one of the same identity moves no session.
pub proof fn lemma_put_keeps_places(registry: RegistryView, sid: Seq<char>, session: SessionView)
    requires
        registry.knows(sid),
        session.sid == sid,
    ensures
        forall|other: Seq<char>| registry.put(sid, session).knows(other) == registry.knows(other),
        forall|other: Seq<char>|
            registry.knows(other) ==> registry.put(sid, session).index_of(other)
                == registry.index_of(other),
        registry.put(sid, session).session(sid) == session,
        forall|other: Seq<char>|
            registry.knows(other) && other != sid ==> registry.put(sid, session).session(other)
                == registry.session(other),
{
    let after = registry.put(sid, session);
    lemma_known_has_index(registry, sid);
    let at = registry.index_of(sid);
    assert forall|other: Seq<char>| after.knows(other) == registry.knows(other) by {
        if registry.knows(other) {
            let i = choose|i: int| 0 <= i < registry.sessions.len() && registry.sessions[i].sid == other;
            assert(after.sessions[i].sid == other);
        }
        if after.knows(other) {
            let i = choose|i: int| 0 <= i < after.sessions.len() && after.sessions[i].sid == other;
            assert(registry.sessions[i].sid == other);
        }
    }
    assert forall|other: Seq<char>| registry.knows(other) implies after.index_of(other)
        == registry.index_of(other) && (other != sid ==> after.session(other)
        == registry.session(other)) by {
        lemma_known_has_index(registry, other);
        let i = registry.index_of(other);
        assert(after.first_at(other, i)) by {
            assert forall|j: int| 0 <= j < i implies after.sessions[j].sid != other by {
                assert(registry.sessions[j].sid != other);
            }
        }
        lemma_first_at_unique(after, other, i);
    }
}

/// Every operation of the registry keeps it well formed.
pub proof fn lemma_registry_stays_well_formed(
    registry: RegistryView,
    sid: Seq<char>,
    recipient: u64,
    record: RecordView,
    frame: FrameView,
    payload: Seq<char>,
)
    requires
        registry.wf(),
    ensures
        registry.acquire(sid, recipient).0.wf(),
        registry.release(record).wf(),
        registry.send(sid, frame).0.wf(),
        registry.broadcast(frame).0.wf(),
        registry.deliver(sid, payload).0.wf(),
        registry.take_inbox(sid).0.wf(),
{
    if registry.knows(sid) {
        lemma_known_has_index(registry, sid);
    }
    if registry.knows(record.sid) {
        lemma_known_has_index(registry, record.sid);
    }
}

/// While a transport holds a session, an acquire of that session is refused
/// as busy and changes nothing; and an acquire that succeeds leaves the
/// session held. So of two acquires with no release between them, the second
/// fails.
pub proof fn exclusive_attachment(
    registry: RegistryView,
    sid: Seq<char>,
    first: u64,
    second: u64,
)
    ensures
        registry.attached(sid) ==> registry.acquire(sid, second) == (
            registry,
            Err::<RecordView, SessionError>(SessionError::SessionBusy),
        ),
        registry.acquire(sid, first).1 is Ok ==> !registry.attached(sid),
        registry.acquire(sid, first).0.attached(sid),
        registry.acquire(sid, first).1 is Ok ==> registry.acquire(sid, first).0.acquire(
            sid,
            second,
        ) == (
            registry.acquire(sid, first).0,
            Err::<RecordView, SessionError>(SessionError::SessionBusy),
        ),
{
    let after = registry.acquire(sid, first).0;
    if registry.knows(sid) {
        lemma_known_has_index(registry, sid);
        match registry.session(sid).binding {
            BindingView::Attached(_) => {},
            BindingView::Detached(record) => {
                lemma_put_keeps_places(
                    registry,
                    sid,
                    SessionView { binding: BindingView::Attached(first), ..registry.session(sid) },
                );
            },
        }
    } else {
        let at = registry.sessions.len() as int;
        assert(after.first_at(sid, at)) by {
            assert forall|j: int| 0 <= j < at implies after.sessions[j].sid != sid by {
                assert(registry.sessions[j].sid != sid);
            }
        }
        lemma_first_at_unique(after, sid, at);
    }
}

/// A session stays held through everything but its own release: acquires,
/// sends, broadcasts, deliveries and the release of any other session leave it
/// attached.
pub proof fn attachment_lasts_until_release(
    registry: RegistryView,
    sid: Seq<char>,
    other: Seq<char>,
    recipient: u64,
    record: RecordView,
    frame: FrameView,
    payload: Seq<char>,
)
    requires
        registry.attached(sid),
    ensures
        registry.acquire(other, recipient).0.attached(sid),
        record.sid != sid ==> registry.release(record).attached(sid),
        registry.send(other, frame).0.attached(sid),
        registry.broadcast(frame).0.attached(sid),
        registry.deliver(other, payload).0.attached(sid),
        registry.take_inbox(other).0.attached(sid),
{
    lemma_known_has_index(registry, sid);
    let at = registry.index_of(sid);
    // acquire
    if registry.knows(other) {
        lemma_known_has_index(registry, other);
        match registry.session(other).binding {
            BindingView::Attached(_) => {},
            BindingView::Detached(rec) => {
                lemma_put_keeps_places(
                    registry,
                    other,
                    SessionView {
                        binding: BindingView::Attached(recipient),
                        ..registry.session(other)
                    },
                );
                if !rec.state.is_terminal() {
                    lemma_put_keeps_places(
                        registry,
                        other,
                        SessionView {
                            binding: BindingView::Detached(rec.add(frame)),
                            ..registry.session(other)
                        },
                    );
                }
            },
        }
        lemma_put_keeps_places(
            registry,
            other,
            SessionView {
                inbox: registry.session(other).inbox.push(payload),
                ..registry.session(other)
            },
        );
        lemma_put_keeps_places(
            registry,
            other,
            SessionView { inbox: Seq::empty(), ..registry.session(other) },
        );
    } else {
        let after = registry.acquire(other, recipient).0;
        assert(after.first_at(sid, at)) by {
            assert forall|j: int| 0 <= j < at implies after.sessions[j].sid != sid by {
                assert(registry.sessions[j].sid != sid);
            }
        }
        lemma_first_at_unique(after, sid, at);
    }
    // release
    if record.sid != sid && registry.attached(record.sid) {
        lemma_known_has_index(registry, record.sid);
        lemma_put_keeps_places(
            registry,
            record.sid,
            SessionView {
                binding: BindingView::Detached(record),
                ..registry.session(record.sid)
            },
        );
    }
    // broadcast
    let spread = registry.broadcast(frame).0;
    assert(spread.first_at(sid, at)) by {
        assert forall|j: int| 0 <= j < at implies spread.sessions[j].sid != sid by {
            assert(registry.sessions[j].sid != sid);
        }
    }
    lemma_first_at_unique(spread, sid, at);
}

/// How many of the sessions are attached.
pub open spec fn attached_count(sessions: Seq<SessionView>) -> nat
    decreases sessions.len(),
{
    if sessions.len() == 0 {
        0
    } else {
        attached_count(sessions.drop_last()) + if sessions.last().binding is Attached {
            1nat
        } else {
            0nat
        }
    }
}

/// A broadcast lists one recipient for each attached session.
pub proof fn lemma_recipients_count(sessions: Seq<SessionView>)
    ensures
        recipients(sessions).len() == attached_count(sessions),
    decreases sessions.len(),
{
    if sessions.len() > 0 {
        lemma_recipients_count(sessions.drop_last());
    }
}

/// A longer list of sessions has the recipients of a shorter one at its
/// front.
pub proof fn lemma_recipients_grow(sessions: Seq<SessionView>, n: int)
    requires
        0 <= n <= sessions.len(),
    ensures
        attached_count(sessions.take(n)) <= attached_count(sessions),
        recipients(sessions.take(n)) == recipients(sessions).take(
            attached_count(sessions.take(n)) as int,
        ),
    decreases sessions.len() - n,
{
    let all = recipients(sessions);
    lemma_recipients_count(sessions);
    if n == sessions.len() {
        assert(sessions.take(n) =~= sessions);
        assert(all.take(all.len() as int) =~= all);
    } else {
        let longer = sessions.take(n + 1);
        let shorter = sessions.take(n);
        lemma_recipients_grow(sessions, n + 1);
        lemma_recipients_count(longer);
        lemma_recipients_count(shorter);
        assert(longer.drop_last() =~= shorter);
        let k = attached_count(shorter) as int;
        let k1 = attached_count(longer) as int;
        assert(recipients(longer) == all.take(k1));
        match longer.last().binding {
            BindingView::Attached(recipient) => {
                assert(k1 == k + 1);
                assert(recipients(longer) == recipients(shorter).push(recipient));
                assert(recipients(shorter) =~= recipients(longer).take(k));
                assert(all.take(k1).take(k) =~= all.take(k));
            },
            BindingView::Detached(_) => {
                assert(recipients(longer) == recipients(shorter));
            },
        }
    }
}

/// A broadcast reaches every attached session once, and replaces nothing.
///
/// The frame is forwarded to as many recipients as sessions are attached; the
/// recipient of each attached session stands in the list at the place that
/// the session has among the attached ones. A detached running session gets
/// the frame behind what its buffer holds. Every other session is untouched.
pub proof fn broadcast_reaches_each_session_once(registry: RegistryView, frame: FrameView, i: int)
    requires
        0 <= i < registry.sessions.len(),
    ensures
        ({
            let (after, to) = registry.broadcast(frame);
            let session = registry.sessions[i];
            &&& to.len() == attached_count(registry.sessions)
            &&& after.sessions.len() == registry.sessions.len()
            &&& match session.binding {
                BindingView::Attached(recipient) => {
                    &&& attached_count(registry.sessions.take(i)) < to.len()
                    &&& to[attached_count(registry.sessions.take(i)) as int] == recipient
                    &&& after.sessions[i] == session
                },
                BindingView::Detached(record) => after.sessions[i] == SessionView {
                    binding: BindingView::Detached(
                        if record.state == SessionState::Running {
                            RecordView { buffer: record.buffer.push(frame), ..record }
                        } else {
                            record
                        },
                    ),
                    ..session
                },
            }
        }),
{
    let sessions = registry.sessions;
    let all = recipients(sessions);
    let longer = sessions.take(i + 1);
    let shorter = sessions.take(i);
    lemma_recipients_count(sessions);
    lemma_recipients_grow(sessions, i + 1);
    lemma_recipients_count(longer);
    lemma_recipients_count(shorter);
    assert(longer.drop_last() =~= shorter);
    assert(longer.last() == sessions[i]);
    match sessions[i].binding {
        BindingView::Attached(recipient) => {
            let k = attached_count(shorter) as int;
            assert(recipients(longer) == recipients(shorter).push(recipient));
            assert(recipients(longer) == all.take(k + 1));
            assert(all.take(k + 1)[k] == recipient);
        },
        BindingView::Detached(record) => {},
    }
}

/// The registry after a sequence of sends to one session.
pub open spec fn send_all(registry: RegistryView, sid: Seq<char>, frames: Seq<FrameView>) -> RegistryView
    decreases frames.len(),
{
    if frames.len() == 0 {
        registry
    } else {
        send_all(registry, sid, frames.drop_last()).send(sid, frames.last()).0
    }
}

/// Frames sent to a detached session that is alive queue up in its buffer, in
/// the order of the sends, and nothing else changes.
pub proof fn lemma_sends_queue_while_detached(
    registry: RegistryView,
    sid: Seq<char>,
    rec: RecordView,
    frames: Seq<FrameView>,
)
    requires
        registry.knows(sid),
        registry.session(sid).binding == BindingView::Detached(rec),
        !rec.state.is_terminal(),
    ensures
        send_all(registry, sid, frames) == registry.put(
            sid,
            SessionView {
                binding: BindingView::Detached(RecordView { buffer: rec.buffer + frames, ..rec }),
                ..registry.session(sid)
            },
        ),
    decreases frames.len(),
{
    lemma_known_has_index(registry, sid);
    if frames.len() == 0 {
        assert(rec.buffer + frames =~= rec.buffer);
        assert(registry.sessions.update(registry.index_of(sid), registry.session(sid))
            =~= registry.sessions);
    } else {
        let front = frames.drop_last();
        lemma_sends_queue_while_detached(registry, sid, rec, front);
        let queued = SessionView {
            binding: BindingView::Detached(RecordView { buffer: rec.buffer + front, ..rec }),
            ..registry.session(sid)
        };
        lemma_put_keeps_places(registry, sid, queued);
        assert((rec.buffer + front).push(frames.last()) =~= rec.buffer + frames);
        assert(registry.put(sid, queued).send(sid, frames.last()).0.sessions =~= registry.put(
            sid,
            SessionView {
                binding: BindingView::Detached(RecordView { buffer: rec.buffer + frames, ..rec }),
                ..registry.session(sid)
            },
        ).sessions);
    }
}

/// Acquiring a detached session hands out its record and binds the
/// recipient: from then on every frame sent to the session is forwarded to
/// that recipient, and the registry keeps none of them.
pub proof fn lemma_acquire_binds(
    registry: RegistryView,
    sid: Seq<char>,
    rec: RecordView,
    recipient: u64,
)
    requires
        registry.knows(sid),
        registry.session(sid).binding == BindingView::Detached(rec),
    ensures
        registry.acquire(sid, recipient).1 == Ok::<RecordView, SessionError>(rec),
        forall|frame: FrameView| #[trigger]
            registry.acquire(sid, recipient).0.send(sid, frame) == (
                registry.acquire(sid, recipient).0,
                DispatchView::Forward(recipient, frame),
            ),
{
    lemma_known_has_index(registry, sid);
    let bound = SessionView { binding: BindingView::Attached(recipient), ..registry.session(sid) };
    lemma_put_keeps_places(registry, sid, bound);
}

} // verus!
