//! Connection state machine: the decisions of a connection's lifetime, from
//! state and event to next state and action. Reading, writing, calling the
//! handler and timing are left to whoever drives it.
use vstd::prelude::*;

use crate::message::ConnectionType;

verus! {

/// Where a connection is in its lifetime.
#[derive(PartialEq, Eq, Structural, Debug, Clone, Copy)]
pub enum Phase {
    ReadHead,
    ExpectContinue,
    ReadBody,
    WriteResponse,
    Upgrade,
    Closed,
}

/// What the driver observed.
#[derive(PartialEq, Eq, Structural, Debug, Clone, Copy)]
pub enum Event {
    /// A head was decoded, with its resolved disposition, whether it asks for
    /// `100-continue`, and whether a body follows.
    HeadDecoded { ctype: ConnectionType, expect: bool, has_body: bool },
    /// The codec needs more bytes.
    NeedMore,
    /// Head or body framing is broken.
    ParseFailed,
    /// The expect-handler accepted or rejected the request.
    ExpectDone { accepted: bool },
    /// The request body reached its end.
    BodyDone,
    /// The response was written; `buffered` when bytes of a next request are
    /// already in the read buffer.
    ResponseWritten { buffered: bool },
    /// An idle, head-read or shutdown timer fired.
    TimedOut,
    /// The handler or an I/O operation failed.
    Failed,
}

/// What the driver must do next.
#[derive(PartialEq, Eq, Structural, Debug, Clone, Copy)]
pub enum Action {
    /// Read more bytes from the socket.
    Read,
    /// Decode what is already buffered, without reading.
    DecodeBuffered,
    /// Write `100 Continue`.
    SendContinue,
    /// Hand the request to the handler and keep reading its body.
    CallHandler,
    /// Write the expect-handler's rejection response, discarding the body.
    Reject,
    /// Write a best-effort error response, then shut down.
    WriteError,
    /// Arm the keep-alive idle timer and wait for a next request.
    ArmIdleTimer,
    /// Hand the connection to the upgrade handler.
    HandOff,
    /// Flush and shut the connection down.
    Shutdown,
}

/// State of one connection.
#[derive(PartialEq, Eq, Structural, Debug, Clone, Copy)]
pub struct Dispatcher {
    pub phase: Phase,
    /// Disposition of the current message.
    pub ctype: ConnectionType,
    /// An upgrade handler is configured.
    pub can_upgrade: bool,
    /// Bytes of a response were already written.
    pub response_started: bool,
}

/// How the connection goes on once a response was written.
pub open spec fn after_response(d: Dispatcher, buffered: bool) -> (Phase, Action) {
    match d.ctype {
        ConnectionType::Close => (Phase::Closed, Action::Shutdown),
        ConnectionType::Upgrade => {
            if d.can_upgrade {
                (Phase::Upgrade, Action::HandOff)
            } else {
                (Phase::Closed, Action::Shutdown)
            }
        },
        ConnectionType::KeepAlive => {
            if buffered {
                (Phase::ReadHead, Action::DecodeBuffered)
            } else {
                (Phase::ReadHead, Action::ArmIdleTimer)
            }
        },
    }
}

/// Next phase and action of a connection in state `d` on event `ev`.
pub open spec fn transition(d: Dispatcher, ev: Event) -> (Phase, Action) {
    if d.phase is Closed || d.phase is Upgrade {
        (d.phase, Action::Shutdown)
    } else {
        match ev {
            Event::ParseFailed => {
                if d.response_started {
                    (Phase::Closed, Action::Shutdown)
                } else {
                    (Phase::Closed, Action::WriteError)
                }
            },
            Event::TimedOut | Event::Failed => (Phase::Closed, Action::Shutdown),
            Event::NeedMore => (d.phase, Action::Read),
            Event::HeadDecoded { ctype, expect, has_body } => {
                if !(d.phase is ReadHead) {
                    (Phase::Closed, Action::Shutdown)
                } else if expect {
                    (Phase::ExpectContinue, Action::Read)
                } else if has_body {
                    (Phase::ReadBody, Action::CallHandler)
                } else {
                    (Phase::WriteResponse, Action::CallHandler)
                }
            },
            Event::ExpectDone { accepted } => {
                if !(d.phase is ExpectContinue) {
                    (Phase::Closed, Action::Shutdown)
                } else if accepted {
                    (Phase::ReadBody, Action::SendContinue)
                } else {
                    (Phase::WriteResponse, Action::Reject)
                }
            },
            Event::BodyDone => {
                if d.phase is ReadBody {
                    (Phase::WriteResponse, Action::Read)
                } else {
                    (Phase::Closed, Action::Shutdown)
                }
            },
            Event::ResponseWritten { buffered } => {
                if d.phase is WriteResponse || d.phase is ReadBody {
                    after_response(d, buffered)
                } else {
                    (Phase::Closed, Action::Shutdown)
                }
            },
        }
    }
}

impl Dispatcher {
    /// A new connection, waiting for its first head.
    pub fn new(can_upgrade: bool) -> (r: Dispatcher)
        ensures
            r.phase == Phase::ReadHead,
            r.ctype == ConnectionType::Close,
            r.can_upgrade == can_upgrade,
            !r.response_started,
    {
        Dispatcher {
            phase: Phase::ReadHead,
            ctype: ConnectionType::Close,
            can_upgrade,
            response_started: false,
        }
    }

    /// Records that bytes of the current response were written.
    pub fn mark_response_started(&mut self)
        ensures
            *final(self) == (Dispatcher { response_started: true, ..*old(self) }),
    {
        self.response_started = true;
    }

    /// Takes one event and returns the action to perform.
    pub fn step(&mut self, ev: Event) -> (act: Action)
        ensures
            (final(self).phase, act) == transition(*old(self), ev),
            final(self).can_upgrade == old(self).can_upgrade,
            ev is HeadDecoded && old(self).phase == Phase::ReadHead ==> final(self).ctype
                == ev->HeadDecoded_ctype && !final(self).response_started,
            !(ev is HeadDecoded && old(self).phase == Phase::ReadHead)
                ==> final(self).ctype == old(self).ctype && final(self).response_started
                == old(self).response_started,
    {
        if self.phase == Phase::Closed || self.phase == Phase::Upgrade {
            return Action::Shutdown;
        }
        let (phase, act) = match ev {
            Event::ParseFailed => {
                if self.response_started {
                    (Phase::Closed, Action::Shutdown)
                } else {
                    (Phase::Closed, Action::WriteError)
                }
            },
            Event::TimedOut | Event::Failed => (Phase::Closed, Action::Shutdown),
            Event::NeedMore => (self.phase, Action::Read),
            Event::HeadDecoded { ctype, expect, has_body } => {
                if self.phase != Phase::ReadHead {
                    (Phase::Closed, Action::Shutdown)
                } else {
                    self.ctype = ctype;
                    self.response_started = false;
                    if expect {
                        (Phase::ExpectContinue, Action::Read)
                    } else if has_body {
                        (Phase::ReadBody, Action::CallHandler)
                    } else {
                        (Phase::WriteResponse, Action::CallHandler)
                    }
                }
            },
            Event::ExpectDone { accepted } => {
                if self.phase != Phase::ExpectContinue {
                    (Phase::Closed, Action::Shutdown)
                } else if accepted {
                    (Phase::ReadBody, Action::SendContinue)
                } else {
                    (Phase::WriteResponse, Action::Reject)
                }
            },
            Event::BodyDone => {
                if self.phase == Phase::ReadBody {
                    (Phase::WriteResponse, Action::Read)
                } else {
                    (Phase::Closed, Action::Shutdown)
                }
            },
            Event::ResponseWritten { buffered } => {
                if self.phase == Phase::WriteResponse || self.phase == Phase::ReadBody {
                    match self.ctype {
                        ConnectionType::Close => (Phase::Closed, Action::Shutdown),
                        ConnectionType::Upgrade => {
                            if self.can_upgrade {
                                (Phase::Upgrade, Action::HandOff)
                            } else {
                                (Phase::Closed, Action::Shutdown)
                            }
                        },
                        ConnectionType::KeepAlive => {
                            if buffered {
                                (Phase::ReadHead, Action::DecodeBuffered)
                            } else {
                                (Phase::ReadHead, Action::ArmIdleTimer)
                            }
                        },
                    }
                } else {
                    (Phase::Closed, Action::Shutdown)
                }
            },
        };
        self.phase = phase;
        act
    }
}

/// A framing error closes the connection from any live phase, with an error
/// response where no response bytes were written yet.
pub proof fn lemma_parse_failure_closes(d: Dispatcher)
    requires
        !(d.phase is Closed) && !(d.phase is Upgrade),
    ensures
        transition(d, Event::ParseFailed).0 == Phase::Closed,
        !d.response_started ==> transition(d, Event::ParseFailed).1 == Action::WriteError,
{
}

/// With keep-alive, a request already buffered behind a written response is
/// decoded next without another socket read.
pub proof fn lemma_pipelined_request_needs_no_read(d: Dispatcher)
    requires
        d.phase is WriteResponse,
        d.ctype == ConnectionType::KeepAlive,
    ensures
        transition(d, Event::ResponseWritten { buffered: true }) == (
            Phase::ReadHead,
            Action::DecodeBuffered,
        ),
{
}

} // verus!
