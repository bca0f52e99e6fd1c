//! Session records and the registry that owns them.

use crate::json::texts;
use crate::protocol::{CloseCode, Frame, FrameView};
use crate::session::SessionState;
use std::collections::VecDeque;
use vstd::prelude::*;

verus! {

/// The views of a sequence of frames.
pub open spec fn frames(items: Seq<Frame>) -> Seq<FrameView> {
    Seq::new(items.len(), |i: int| items[i]@)
}

/// The server-side state of one session.
///
/// A transport that has acquired the session holds the record, works on it,
/// and hands it back on release.
#[derive(Clone, Debug, PartialEq, Eq)]
pub struct Record {
    /// The session's identity.
    pub sid: String,
    /// Where the session stands in its life.
    pub state: SessionState,
    /// Frames not yet transmitted, oldest first.
    pub buffer: VecDeque<Frame>,
}

/// A record as a mathematical value.
pub struct RecordView {
    pub sid: Seq<char>,
    pub state: SessionState,
    pub buffer: Seq<FrameView>,
}

impl View for Record {
    type V = RecordView;

    open spec fn view(&self) -> RecordView {
        RecordView { sid: self.sid@, state: self.state, buffer: frames(self.buffer@) }
    }
}

impl RecordView {
    /// The record of a session that was never attached.
    pub open spec fn fresh(sid: Seq<char>) -> RecordView {
        RecordView { sid, state: SessionState::New, buffer: Seq::empty() }
    }

    /// The record after an explicit close.
    pub open spec fn close(self) -> RecordView {
        RecordView { state: self.state.close(), ..self }
    }

    /// The record after its connection was lost.
    pub open spec fn interrupt(self) -> RecordView {
        RecordView { state: self.state.interrupt(), ..self }
    }

    /// The record with one more frame at the back of its buffer.
    pub open spec fn add(self, frame: FrameView) -> RecordView {
        RecordView { buffer: self.buffer.push(frame), ..self }
    }
}

impl Record {
    /// The record of a session that was never attached: `New`, nothing
    /// buffered.
    pub fn new(sid: String) -> (r: Record)
        ensures
            r@ == RecordView::fresh(sid@),
    {
        let r = Record { sid, state: SessionState::New, buffer: VecDeque::new() };
        assert(r@.buffer =~= Seq::empty());
        r
    }

    /// Marks the session closed. A terminal session stays what it is.
    pub fn close(&mut self)
        ensures
            final(self)@ == old(self)@.close(),
    {
        self.state = self.state.closed();
    }

    /// Marks a running session interrupted. Any other state stays what it is.
    pub fn interrupted(&mut self)
        ensures
            final(self)@ == old(self)@.interrupt(),
    {
        self.state = self.state.interrupted();
    }

    /// Puts a frame at the back of the buffer.
    pub fn add(&mut self, msg: Frame)
        ensures
            final(self)@ == old(self)@.add(msg@),
    {
        self.buffer.push_back(msg);
        assert(frames(self.buffer@) =~= frames(old(self).buffer@).push(msg@));
    }

    /// Takes the oldest frame out of the buffer.
    pub fn pop(&mut self) -> (r: Option<Frame>)
        ensures
            old(self)@.buffer.len() == 0 ==> r is None && final(self)@ == old(self)@,
            old(self)@.buffer.len() > 0 ==> r is Some && r->0@ == old(self)@.buffer[0]
                && final(self)@ == (RecordView {
                buffer: old(self)@.buffer.drop_first(),
                ..old(self)@
            }),
    {
        let r = self.buffer.pop_front();
        assert(r is Some ==> frames(self.buffer@) =~= frames(old(self).buffer@).drop_first());
        r
    }
}

/// Why an acquire did not hand out the session.
#[derive(Clone, Copy, Debug, PartialEq, Eq, Structural)]
pub enum SessionError {
    /// Another transport holds the session and has not released it.
    SessionBusy,
    /// The registry could not be reached.
    RegistryUnavailable,
}

impl SessionError {
    /// The close code that tells the peer of the error.
    pub open spec fn code(self) -> CloseCode {
        match self {
            SessionError::SessionBusy => CloseCode::Acquired,
            SessionError::RegistryUnavailable => CloseCode::InternalError,
        }
    }

    /// The close code that tells the peer of the error.
    pub fn close_code(&self) -> (r: CloseCode)
        ensures
            r == self.code(),
    {
        match self {
            SessionError::SessionBusy => CloseCode::Acquired,
            SessionError::RegistryUnavailable => CloseCode::InternalError,
        }
    }
}

/// Who holds a session's record.
pub enum BindingView {
    /// No transport is attached: the registry keeps the record.
    Detached(RecordView),
    /// The transport behind this recipient is attached and holds the record.
    Attached(u64),
}

/// What the registry keeps of one session.
#[derive(Debug)]
pub struct Session {
    sid: String,
    /// The record, while no transport holds it.
    record: Option<Record>,
    /// The recipient of the transport that holds the record, while one does.
    recipient: u64,
    inbox: Vec<String>,
}

/// A session as a mathematical value: its identity, who holds its record, and
/// the payloads delivered to its handler and not yet taken, oldest first.
pub struct SessionView {
    pub sid: Seq<char>,
    pub binding: BindingView,
    pub inbox: Seq<Seq<char>>,
}

impl View for Session {
    type V = SessionView;

    closed spec fn view(&self) -> SessionView {
        SessionView {
            sid: self.sid@,
            binding: match self.record {
                Some(record) => BindingView::Detached(record@),
                None => BindingView::Attached(self.recipient),
            },
            inbox: texts(self.inbox@),
        }
    }
}

impl SessionView {
    /// A session that was just created for the transport behind `recipient`.
    pub open spec fn fresh(sid: Seq<char>, recipient: u64) -> SessionView {
        SessionView { sid, binding: BindingView::Attached(recipient), inbox: Seq::empty() }
    }

    /// The session after a broadcast of `frame`: a detached running session
    /// buffers it, every other session is unchanged.
    pub open spec fn broadcast(self, frame: FrameView) -> SessionView {
        match self.binding {
            BindingView::Detached(record) => if record.state == SessionState::Running {
                SessionView { binding: BindingView::Detached(record.add(frame)), ..self }
            } else {
                self
            },
            BindingView::Attached(_) => self,
        }
    }
}

/// Where a frame sent to a session went.
#[derive(Debug, PartialEq, Eq)]
pub enum Dispatch {
    /// The session is attached: the frame is to be forwarded to this
    /// recipient.
    Forward(u64, Frame),
    /// The session is detached and alive: the frame is in its buffer.
    Buffered,
    /// The session is unknown or has ended: the frame is gone.
    Dropped,
}

/// A dispatch as a mathematical value.
pub enum DispatchView {
    Forward(u64, FrameView),
    Buffered,
    Dropped,
}

impl View for Dispatch {
    type V = DispatchView;

    open spec fn view(&self) -> DispatchView {
        match self {
            Dispatch::Forward(recipient, frame) => DispatchView::Forward(*recipient, frame@),
            Dispatch::Buffered => DispatchView::Buffered,
            Dispatch::Dropped => DispatchView::Dropped,
        }
    }
}

/// The recipients of the attached sessions, in the sessions' order.
pub open spec fn recipients(sessions: Seq<SessionView>) -> Seq<u64>
    decreases sessions.len(),
{
    if sessions.len() == 0 {
        Seq::empty()
    } else {
        let rest = recipients(sessions.drop_last());
        match sessions.last().binding {
            BindingView::Attached(recipient) => rest.push(recipient),
            BindingView::Detached(_) => rest,
        }
    }
}

/// The registry as a mathematical value: its sessions, oldest first.
pub struct RegistryView {
    pub sessions: Seq<SessionView>,
}

impl RegistryView {
    /// No identity occurs twice, and a record kept here belongs to the session
    /// it is kept for.
    pub open spec fn wf(self) -> bool {
        &&& forall|i: int, j: int|
            0 <= i < j < self.sessions.len() ==> self.sessions[i].sid != self.sessions[j].sid
        &&& forall|i: int|
            0 <= i < self.sessions.len() ==> (#[trigger] self.sessions[i].binding
                matches BindingView::Detached(record) ==> record.sid == self.sessions[i].sid)
    }

    /// Whether a session of this identity exists.
    pub open spec fn knows(self, sid: Seq<char>) -> bool {
        exists|i: int| 0 <= i < self.sessions.len() && self.sessions[i].sid == sid
    }

    /// Whether the first session of this identity stands at `i`.
    pub open spec fn first_at(self, sid: Seq<char>, i: int) -> bool {
        &&& 0 <= i < self.sessions.len()
        &&& self.sessions[i].sid == sid
        &&& forall|j: int| 0 <= j < i ==> self.sessions[j].sid != sid
    }

    /// Where the session of this identity stands, if it exists.
    pub open spec fn index_of(self, sid: Seq<char>) -> int {
        choose|i: int| self.first_at(sid, i)
    }

    /// The session of this identity, if it exists.
    pub open spec fn session(self, sid: Seq<char>) -> SessionView {
        self.sessions[self.index_of(sid)]
    }

    /// Whether a transport holds the session of this identity.
    pub open spec fn attached(self, sid: Seq<char>) -> bool {
        self.knows(sid) && self.session(sid).binding is Attached
    }

    /// The recipient of the transport that holds the session of this
    /// identity; `None` for a session that is unknown or detached.
    pub open spec fn holder(self, sid: Seq<char>) -> Option<u64> {
        if self.knows(sid) {
            match self.session(sid).binding {
                BindingView::Attached(recipient) => Some(recipient),
                BindingView::Detached(_) => None,
            }
        } else {
            None
        }
    }

    /// The registry with the session of this identity replaced.
    pub open spec fn put(self, sid: Seq<char>, session: SessionView) -> RegistryView {
        RegistryView { sessions: self.sessions.update(self.index_of(sid), session) }
    }

    /// Acquire: an unknown session is created, attached, and its fresh record
    /// handed out; a detached one is attached and its record handed out; an
    /// attached one is busy, and nothing changes.
    pub open spec fn acquire(self, sid: Seq<char>, recipient: u64) -> (
        RegistryView,
        Result<RecordView, SessionError>,
    ) {
        if !self.knows(sid) {
            (
                RegistryView { sessions: self.sessions.push(SessionView::fresh(sid, recipient)) },
                Ok(RecordView::fresh(sid)),
            )
        } else {
            match self.session(sid).binding {
                BindingView::Attached(_) => (self, Err(SessionError::SessionBusy)),
                BindingView::Detached(record) => (
                    self.put(
                        sid,
                        SessionView {
                            binding: BindingView::Attached(recipient),
                            ..self.session(sid)
                        },
                    ),
                    Ok(record),
                ),
            }
        }
    }

    /// Release: the record of an attached session is stored and the session
    /// detached; for any other session nothing changes.
    pub open spec fn release(self, record: RecordView) -> RegistryView {
        if self.attached(record.sid) {
            self.put(
                record.sid,
                SessionView { binding: BindingView::Detached(record), ..self.session(record.sid) },
            )
        } else {
            self
        }
    }

    /// Send: a frame for an attached session is forwarded to its recipient; a
    /// frame for a detached session that is alive goes to the back of its
    /// buffer; any other frame is dropped.
    pub open spec fn send(self, sid: Seq<char>, frame: FrameView) -> (RegistryView, DispatchView) {
        if !self.knows(sid) {
            (self, DispatchView::Dropped)
        } else {
            match self.session(sid).binding {
                BindingView::Attached(recipient) => (self, DispatchView::Forward(recipient, frame)),
                BindingView::Detached(record) => if record.state.is_terminal() {
                    (self, DispatchView::Dropped)
                } else {
                    (
                        self.put(
                            sid,
                            SessionView {
                                binding: BindingView::Detached(record.add(frame)),
                                ..self.session(sid)
                            },
                        ),
                        DispatchView::Buffered,
                    )
                },
            }
        }
    }

    /// Broadcast: every detached running session buffers the frame, and the
    /// frame is to be forwarded to the recipient of every attached session.
    pub open spec fn broadcast(self, frame: FrameView) -> (RegistryView, Seq<u64>) {
        (
            RegistryView {
                sessions: Seq::new(
                    self.sessions.len(),
                    |i: int| self.sessions[i].broadcast(frame),
                ),
            },
            recipients(self.sessions),
        )
    }

    /// Deliver: the payload goes to the back of the inbox of a known session;
    /// for an unknown one nothing changes.
    pub open spec fn deliver(self, sid: Seq<char>, payload: Seq<char>) -> (RegistryView, bool) {
        if self.knows(sid) {
            (
                self.put(
                    sid,
                    SessionView {
                        inbox: self.session(sid).inbox.push(payload),
                        ..self.session(sid)
                    },
                ),
                true,
            )
        } else {
            (self, false)
        }
    }

    /// Taking the inbox of a known session empties it.
    pub open spec fn take_inbox(self, sid: Seq<char>) -> (RegistryView, Seq<Seq<char>>) {
        if self.knows(sid) {
            (
                self.put(sid, SessionView { inbox: Seq::empty(), ..self.session(sid) }),
                self.session(sid).inbox,
            )
        } else {
            (self, Seq::empty())
        }
    }
}

/// The views of a sequence of sessions.
pub open spec fn sessions(items: Seq<Session>) -> Seq<SessionView> {
    Seq::new(items.len(), |i: int| items[i]@)
}

/// The view of an acquire's result.
pub open spec fn acquired(r: Result<Record, SessionError>) -> Result<RecordView, SessionError> {
    match r {
        Ok(record) => Ok(record@),
        Err(e) => Err(e),
    }
}

/// The single owner of every session's record.
///
/// Sessions are kept in the order of their creation. No identity occurs
/// twice.
#[derive(Debug)]
pub struct Registry {
    sessions: Vec<Session>,
}

impl View for Registry {
    type V = RegistryView;

    closed spec fn view(&self) -> RegistryView {
        RegistryView { sessions: sessions(self.sessions@) }
    }
}

impl Registry {
    /// A registry without sessions.
    pub fn new() -> (r: Registry)
        ensures
            r@.sessions == Seq::<SessionView>::empty(),
            r@.wf(),
    {
        let r = Registry { sessions: Vec::new() };
        assert(r@.sessions =~= Seq::<SessionView>::empty());
        r
    }

    fn find(&self, sid: &String) -> (r: Option<usize>)
        ensures
            match r {
                Some(i) => i < self.sessions@.len() && self.sessions@[i as int].sid@ == sid@
                    && self@.knows(sid@) && self@.index_of(sid@) == i,
                None => !self@.knows(sid@),
            },
    {
        let mut i: usize = 0;
        while i < self.sessions.len()
            invariant
                i <= self.sessions@.len(),
                forall|j: int| 0 <= j < i ==> self.sessions@[j].sid@ != sid@,
            decreases self.sessions@.len() - i,
        {
            if self.sessions[i].sid == *sid {
                proof {
                    assert forall|j: int| 0 <= j < i implies self@.sessions[j].sid != sid@ by {
                        assert(self@.sessions[j] == self.sessions@[j]@);
                    }
                    assert(self@.first_at(sid@, i as int));
                }
                return Some(i);
            }
            i = i + 1;
        }
        assert forall|j: int| 0 <= j < self@.sessions.len() implies self@.sessions[j].sid
            != sid@ by {
            assert(self@.sessions[j] == self.sessions@[j]@);
        }
        None
    }

    /// How many sessions the registry knows.
    pub fn len(&self) -> (r: usize)
        ensures
            r == self@.sessions.len(),
    {
        self.sessions.len()
    }

    /// Whether a session of this identity exists.
    pub fn contains(&self, sid: &String) -> (r: bool)
        ensures
            r == self@.knows(sid@),
    {
        self.find(sid).is_some()
    }

    /// Whether a transport holds the session of this identity.
    pub fn is_attached(&self, sid: &String) -> (r: bool)
        ensures
            r == self@.attached(sid@),
    {
        match self.find(sid) {
            Some(i) => self.sessions[i].record.is_none(),
            None => false,
        }
    }

    /// The recipient of the transport that holds the session of this
    /// identity: `Some` exactly for a session that is attached.
    pub fn holder(&self, sid: &String) -> (r: Option<u64>)
        ensures
            r == self@.holder(sid@),
            r is Some <==> self@.attached(sid@),
    {
        match self.find(sid) {
            Some(i) => match &self.sessions[i].record {
                Some(_) => None,
                None => Some(self.sessions[i].recipient),
            },
            None => None,
        }
    }

    /// The state of a session whose record the registry keeps; `None` for a
    /// session that is unknown or attached.
    pub fn state(&self, sid: &String) -> (r: Option<SessionState>)
        ensures
            r == (if self@.knows(sid@) {
                match self@.session(sid@).binding {
                    BindingView::Detached(record) => Some(record.state),
                    BindingView::Attached(_) => None,
                }
            } else {
                None
            }),
    {
        match self.find(sid) {
            Some(i) => match &self.sessions[i].record {
                Some(record) => Some(record.state),
                None => None,
            },
            None => None,
        }
    }

    /// Binds `recipient` to the session `sid` and hands out the session's
    /// record.
    ///
    /// An unknown session is created. A session that another transport holds
    /// is refused with `SessionBusy`, and nothing changes.
    pub fn acquire(&mut self, sid: &String, recipient: u64) -> (r: Result<Record, SessionError>)
        ensures
            final(self)@ == old(self)@.acquire(sid@, recipient).0,
            acquired(r) == old(self)@.acquire(sid@, recipient).1,
            old(self)@.wf() ==> final(self)@.wf(),
    {
        match self.find(sid) {
            None => {
                let session = Session {
                    sid: sid.clone(),
                    record: None,
                    recipient,
                    inbox: Vec::new(),
                };
                proof {
                    assert(session@.inbox =~= Seq::empty());
                    assert(sessions(self.sessions@.push(session)) =~= sessions(
                        self.sessions@,
                    ).push(session@));
                }
                self.sessions.push(session);
                Ok(Record::new(sid.clone()))
            },
            Some(i) => {
                match self.sessions[i].record.take() {
                    Some(record) => {
                        self.sessions[i].recipient = recipient;
                        proof {
                            assert(self@.sessions =~= old(self)@.acquire(sid@, recipient).0.sessions);
                        }
                        Ok(record)
                    },
                    None => {
                        proof {
                            assert(self@.sessions =~= old(self)@.sessions);
                        }
                        Err(SessionError::SessionBusy)
                    },
                }
            },
        }
    }

    /// Takes a record back and detaches its session.
    ///
    /// Nothing changes where the session is unknown or already detached:
    /// releasing twice is allowed.
    pub fn release(&mut self, record: Record)
        ensures
            final(self)@ == old(self)@.release(record@),
            old(self)@.wf() ==> final(self)@.wf(),
    {
        match self.find(&record.sid) {
            Some(i) => {
                if self.sessions[i].record.is_none() {
                    self.sessions[i].record = Some(record);
                    proof {
                        assert(self@.sessions =~= old(self)@.release(record@).sessions);
                    }
                }
            },
            None => {},
        }
    }

    /// Sends a frame to a session.
    ///
    /// For an attached session the frame comes back with the recipient it is
    /// to be forwarded to. For a detached session that is alive the frame is
    /// put at the back of its buffer. Any other frame is dropped.
    pub fn send(&mut self, sid: &String, frame: Frame) -> (r: Dispatch)
        ensures
            final(self)@ == old(self)@.send(sid@, frame@).0,
            r@ == old(self)@.send(sid@, frame@).1,
            old(self)@.wf() ==> final(self)@.wf(),
    {
        match self.find(sid) {
            None => Dispatch::Dropped,
            Some(i) => {
                match self.sessions[i].record.take() {
                    None => {
                        proof {
                            assert(self@.sessions =~= old(self)@.sessions);
                        }
                        Dispatch::Forward(self.sessions[i].recipient, frame)
                    },
                    Some(mut record) => {
                        if record.state.terminal() {
                            self.sessions[i].record = Some(record);
                            proof {
                                assert(self@.sessions =~= old(self)@.sessions);
                            }
                            Dispatch::Dropped
                        } else {
                            record.add(frame);
                            self.sessions[i].record = Some(record);
                            proof {
                                assert(self@.sessions =~= old(self)@.send(sid@, frame@).0.sessions);
                            }
                            Dispatch::Buffered
                        }
                    },
                }
            },
        }
    }

    /// Sends a frame to every session.
    ///
    /// Every detached running session gets a copy at the back of its buffer.
    /// The result lists the recipients of the attached sessions, to each of
    /// which the frame is to be forwarded once.
    pub fn broadcast(&mut self, frame: &Frame) -> (r: Vec<u64>)
        ensures
            final(self)@ == old(self)@.broadcast(frame@).0,
            r@ == old(self)@.broadcast(frame@).1,
            old(self)@.wf() ==> final(self)@.wf(),
    {
        let mut out: Vec<u64> = Vec::new();
        let mut i: usize = 0;
        while i < self.sessions.len()
            invariant
                i <= self.sessions@.len(),
                self.sessions@.len() == old(self).sessions@.len(),
                forall|j: int|
                    0 <= j < i ==> self@.sessions[j] == old(self)@.sessions[j].broadcast(frame@),
                forall|j: int|
                    i <= j < self.sessions@.len() ==> self@.sessions[j] == old(self)@.sessions[j],
                out@ == recipients(old(self)@.sessions.take(i as int)),
            decreases self.sessions@.len() - i,
        {
            let ghost before = self@;
            proof {
                assert(old(self)@.sessions.take(i as int + 1).drop_last() =~= old(
                    self,
                )@.sessions.take(i as int));
            }
            match self.sessions[i].record.take() {
                None => {
                    out.push(self.sessions[i].recipient);
                },
                Some(mut record) => {
                    match record.state {
                        SessionState::Running => {
                            record.add(frame.duplicate());
                        },
                        _ => {},
                    }
                    self.sessions[i].record = Some(record);
                },
            }
            proof {
                assert(self@.sessions[i as int] == old(self)@.sessions[i as int].broadcast(frame@));
                assert forall|j: int| 0 <= j < i implies self@.sessions[j] == old(
                    self,
                )@.sessions[j].broadcast(frame@) by {
                    assert(self@.sessions[j] == before.sessions[j]);
                }
                assert forall|j: int| i < j < self.sessions@.len() implies self@.sessions[j]
                    == old(self)@.sessions[j] by {
                    assert(self@.sessions[j] == before.sessions[j]);
                }
            }
            i = i + 1;
        }
        proof {
            assert(old(self)@.sessions.take(i as int) =~= old(self)@.sessions);
            assert(self@.sessions =~= old(self)@.broadcast(frame@).0.sessions);
        }
        out
    }

    /// Hands a payload to the handler of a session: it goes to the back of the
    /// session's inbox. Returns whether the session is known; for an unknown
    /// one nothing changes.
    pub fn deliver(&mut self, sid: &String, payload: String) -> (r: bool)
        ensures
            final(self)@ == old(self)@.deliver(sid@, payload@).0,
            r == old(self)@.deliver(sid@, payload@).1,
            old(self)@.wf() ==> final(self)@.wf(),
    {
        match self.find(sid) {
            Some(i) => {
                self.sessions[i].inbox.push(payload);
                proof {
                    assert(texts(self.sessions@[i as int].inbox@) =~= texts(
                        old(self).sessions@[i as int].inbox@,
                    ).push(payload@));
                    assert(self@.sessions =~= old(self)@.deliver(sid@, payload@).0.sessions);
                }
                true
            },
            None => false,
        }
    }

    /// Takes the payloads delivered to a session out of its inbox, oldest
    /// first.
    pub fn take_inbox(&mut self, sid: &String) -> (r: Vec<String>)
        ensures
            final(self)@ == old(self)@.take_inbox(sid@).0,
            texts(r@) == old(self)@.take_inbox(sid@).1,
            old(self)@.wf() ==> final(self)@.wf(),
    {
        match self.find(sid) {
            Some(i) => {
                let mut taken: Vec<String> = Vec::new();
                core::mem::swap(&mut self.sessions[i].inbox, &mut taken);
                proof {
                    assert(texts(self.sessions@[i as int].inbox@) =~= Seq::empty());
                    assert(self@.sessions =~= old(self)@.take_inbox(sid@).0.sessions);
                }
                taken
            },
            None => {
                let none: Vec<String> = Vec::new();
                assert(texts(none@) =~= Seq::empty());
                none
            },
        }
    }
}

} // verus!
