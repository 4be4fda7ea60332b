use vstd::prelude::*;

use crate::codec::FrameError;

verus! {

/// A failure that ends a session.
#[derive(Debug, Clone, Copy, PartialEq, Eq, Structural)]
pub enum SessionError {
    /// A stream broke the framing.
    Framing(FrameError),
    /// A frame's body is not JSON.
    MalformedJson,
    /// A writer has gone, so its queue no longer takes messages.
    QueueClosed,
    /// Reading from a stream failed.
    Stream,
}

/// What can happen to a read loop besides a message passing through.
#[derive(Debug, Clone, Copy, PartialEq, Eq, Structural)]
pub enum ReadEvent {
    /// No frame could be read.
    FrameFailed(FrameError),
    /// A frame's body is not JSON.
    MalformedJson,
    /// A body is JSON but not a message.
    InvalidShape,
    /// A hook failed on the message.
    HookFailed,
    /// A queue toward a writer is closed.
    QueueClosed,
    /// Reading from the stream failed.
    StreamFailed,
}

/// What a read loop does next.
#[derive(Debug, Clone, Copy, PartialEq, Eq, Structural)]
pub enum LoopAction {
    /// Skip the message and read the next one.
    Continue,
    /// End the loop without error.
    End,
    /// End the loop with this error.
    Fail(SessionError),
}

/// A clean close ends the loop without error; a broken frame, a body that is not JSON or
/// a closed queue or a failed read ends it with that error; a malformed message or a failing hook costs only
/// that message.
pub open spec fn action_for(e: ReadEvent) -> LoopAction {
    match e {
        ReadEvent::FrameFailed(FrameError::UnexpectedEof) => LoopAction::End,
        ReadEvent::FrameFailed(f) => LoopAction::Fail(SessionError::Framing(f)),
        ReadEvent::MalformedJson => LoopAction::Fail(SessionError::MalformedJson),
        ReadEvent::InvalidShape => LoopAction::Continue,
        ReadEvent::HookFailed => LoopAction::Continue,
        ReadEvent::QueueClosed => LoopAction::Fail(SessionError::QueueClosed),
        ReadEvent::StreamFailed => LoopAction::Fail(SessionError::Stream),
    }
}

pub fn on_event(e: ReadEvent) -> (r: LoopAction)
    ensures
        r == action_for(e),
{
    match e {
        ReadEvent::FrameFailed(FrameError::UnexpectedEof) => LoopAction::End,
        ReadEvent::FrameFailed(f) => LoopAction::Fail(SessionError::Framing(f)),
        ReadEvent::MalformedJson => LoopAction::Fail(SessionError::MalformedJson),
        ReadEvent::InvalidShape => LoopAction::Continue,
        ReadEvent::HookFailed => LoopAction::Continue,
        ReadEvent::QueueClosed => LoopAction::Fail(SessionError::QueueClosed),
        ReadEvent::StreamFailed => LoopAction::Fail(SessionError::Stream),
    }
}

/// One of the two peers of a session.
#[derive(Debug, Clone, Copy, PartialEq, Eq, Structural)]
pub enum Peer {
    Client,
    Server,
}

/// Which read loops of a session still run, and the first failure among those that ended.
/// The session is over once neither runs.
pub struct Session {
    client_running: bool,
    server_running: bool,
    failure: Option<SessionError>,
}

impl Session {
    pub closed spec fn running(&self, p: Peer) -> bool {
        match p {
            Peer::Client => self.client_running,
            Peer::Server => self.server_running,
        }
    }

    pub closed spec fn failure(&self) -> Option<SessionError> {
        self.failure
    }

    /// A session whose two read loops run.
    pub fn new() -> (r: Session)
        ensures
            r.running(Peer::Client),
            r.running(Peer::Server),
            r.failure() is None,
    {
        Session { client_running: true, server_running: true, failure: None }
    }

    /// Records how the read loop of `peer` ended; the first failure is kept.
    pub fn loop_ended(&mut self, peer: Peer, end: Result<(), SessionError>)
        requires
            old(self).running(peer),
        ensures
            !final(self).running(peer),
            forall|p: Peer| p != peer ==> final(self).running(p) == old(self).running(p),
            final(self).failure() == (match old(self).failure() {
                Some(f) => Some(f),
                None => match end {
                    Ok(()) => None,
                    Err(e) => Some(e),
                },
            }),
    {
        match peer {
            Peer::Client => {
                self.client_running = false;
            },
            Peer::Server => {
                self.server_running = false;
            },
        }
        if self.failure.is_none() {
            if let Err(e) = end {
                self.failure = Some(e);
            }
        }
    }

    /// Whether both read loops have ended.
    pub fn is_closed(&self) -> (r: bool)
        ensures
            r == (!self.running(Peer::Client) && !self.running(Peer::Server)),
    {
        !self.client_running && !self.server_running
    }

    /// The session's result: success only when no read loop failed, else the first failure.
    pub fn result(&self) -> (r: Result<(), SessionError>)
        ensures
            r == (match self.failure() {
                Some(e) => Err(e),
                None => Ok(()),
            }),
    {
        match self.failure {
            Some(e) => Err(e),
            None => Ok(()),
        }
    }
}

} // verus!
