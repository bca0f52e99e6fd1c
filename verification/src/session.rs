//! Lifecycle of a session.

use vstd::prelude::*;

verus! {

/// Where a session stands in its life.
///
/// `New` has never been attached. `Running` is alive, attached or not.
/// `Interrupted` and `Closed` are terminal: no event leaves them.
#[derive(Clone, Copy, Debug, PartialEq, Eq, Structural)]
pub enum SessionState {
    New,
    Running,
    Interrupted,
    Closed,
}

impl SessionState {
    /// `Interrupted` and `Closed` are the terminal states.
    pub open spec fn is_terminal(self) -> bool {
        self == SessionState::Interrupted || self == SessionState::Closed
    }

    /// Position in the lifecycle; no transition ever lowers it.
    pub open spec fn rank(self) -> nat {
        match self {
            SessionState::New => 0,
            SessionState::Running => 1,
            SessionState::Interrupted => 2,
            SessionState::Closed => 2,
        }
    }

    /// State after an explicit close: a live session becomes `Closed`, a
    /// terminal one stays what it is.
    pub open spec fn close(self) -> SessionState {
        if self.is_terminal() {
            self
        } else {
            SessionState::Closed
        }
    }

    /// State after the connection was lost: a running session becomes
    /// `Interrupted`, every other state stays what it is.
    pub open spec fn interrupt(self) -> SessionState {
        if self == SessionState::Running {
            SessionState::Interrupted
        } else {
            self
        }
    }

    /// Whether the state is terminal.
    pub fn terminal(&self) -> (r: bool)
        ensures
            r == self.is_terminal(),
    {
        match self {
            SessionState::Interrupted => true,
            SessionState::Closed => true,
            _ => false,
        }
    }

    /// The state after an explicit close.
    pub fn closed(&self) -> (r: SessionState)
        ensures
            r == self.close(),
    {
        match self {
            SessionState::Interrupted => SessionState::Interrupted,
            _ => SessionState::Closed,
        }
    }

    /// The state after the connection was lost.
    pub fn interrupted(&self) -> (r: SessionState)
        ensures
            r == self.interrupt(),
    {
        match self {
            SessionState::Running => SessionState::Interrupted,
            SessionState::New => SessionState::New,
            SessionState::Interrupted => SessionState::Interrupted,
            SessionState::Closed => SessionState::Closed,
        }
    }
}

/// No transition lowers a state's rank, a terminal state is left by neither
/// of them, and neither of them leads to `Running`.
pub proof fn lemma_transitions_monotonic(s: SessionState)
    ensures
        s.rank() <= s.close().rank(),
        s.rank() <= s.interrupt().rank(),
        s.is_terminal() ==> s.close() == s && s.interrupt() == s,
        s.close().is_terminal(),
        s.interrupt() != SessionState::Running,
{
}

} // verus!
