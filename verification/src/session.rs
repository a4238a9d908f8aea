//! Where a session stands, and how connecting, disconnecting, reconnecting
//! and the end of a job move it.
use crate::spm_error::SpmError;
use vstd::prelude::*;
use vstd::string::*;

verus! {

/// Where the session stands.
#[derive(Debug, Clone, Copy, PartialEq, Eq, Structural)]
pub enum ConnState {
    Disconnected,
    Connecting,
    Connected,
    /// A job is running; the controller is busy.
    Running,
    /// The connection is broken; reconnecting may fix it.
    Poisoned,
}

/// What the session's decisions depend on: whether a controller is
/// connected, and whether its connection broke during a job.
#[derive(Debug, Clone, Copy, PartialEq, Eq, Structural)]
pub struct SessionState {
    pub connected: bool,
    pub poisoned: bool,
}

/// `Workflow("not connected")`.
pub open spec fn is_not_connected(e: SpmError) -> bool {
    e matches SpmError::Workflow(m) && m@ == "not connected"@
}

/// `Workflow("the connection is poisoned; reconnect first")`.
pub open spec fn is_poisoned_error(e: SpmError) -> bool {
    e matches SpmError::Workflow(m) && m@ == "the connection is poisoned; reconnect first"@
}

impl SessionState {
    /// A disconnected session.
    pub fn new() -> (r: Self)
        ensures
            r == (SessionState { connected: false, poisoned: false }),
    {
        SessionState { connected: false, poisoned: false }
    }

    /// Where the session stands.
    pub fn state(&self) -> (r: ConnState)
        ensures
            !self.connected ==> r == ConnState::Disconnected,
            self.connected && self.poisoned ==> r == ConnState::Poisoned,
            self.connected && !self.poisoned ==> r == ConnState::Connected,
    {
        if !self.connected {
            ConnState::Disconnected
        } else if self.poisoned {
            ConnState::Poisoned
        } else {
            ConnState::Connected
        }
    }

    /// Whether a job or a preset reload may use the connection: not while
    /// it is poisoned, and not without one.
    pub fn ready(&self) -> (r: Result<(), SpmError>)
        ensures
            self.poisoned ==> (r matches Err(e) && is_poisoned_error(e)),
            !self.poisoned && !self.connected ==> (r matches Err(e) && is_not_connected(e)),
            !self.poisoned && self.connected ==> r is Ok,
    {
        if self.poisoned {
            Err(SpmError::Workflow(String::from_str("the connection is poisoned; reconnect first")))
        } else if !self.connected {
            Err(SpmError::Workflow(String::from_str("not connected")))
        } else {
            Ok(())
        }
    }

    /// Drop the connection; a no-op when there is none. The poison goes
    /// with it.
    pub fn disconnect(&mut self)
        ensures
            *final(self) == (SessionState { connected: false, poisoned: false }),
    {
        self.connected = false;
        self.poisoned = false;
    }

    /// A connection attempt, which first closes any existing connection,
    /// ended: `established` says whether it succeeded.
    pub fn connect_ended(&mut self, established: bool)
        ensures
            *final(self) == (SessionState { connected: established, poisoned: false }),
    {
        self.disconnect();
        self.connected = established;
    }

    /// Whether a reconnect can be tried: only with a connection, poisoned or
    /// not.
    pub fn can_reconnect(&self) -> (r: Result<(), SpmError>)
        ensures
            self.connected ==> r is Ok,
            !self.connected ==> (r matches Err(e) && is_not_connected(e)),
    {
        if self.connected {
            Ok(())
        } else {
            Err(SpmError::Workflow(String::from_str("not connected")))
        }
    }

    /// The controller reconnected: the poison is cleared.
    pub fn reconnected(&mut self)
        requires
            old(self).connected,
        ensures
            *final(self) == (SessionState { connected: true, poisoned: false }),
    {
        self.poisoned = false;
    }

    /// A job ended on this connection; `still_connected` says whether the
    /// controller still is. A broken connection poisons the session until
    /// a reconnect.
    pub fn job_ended(&mut self, still_connected: bool)
        requires
            old(self).connected,
        ensures
            final(self).connected,
            final(self).poisoned == (old(self).poisoned || !still_connected),
    {
        if !still_connected {
            self.poisoned = true;
        }
    }
}

} // verus!
