//! The hand-off between the worker that pulls a stream and the task that
//! reads it.
//!
//! The worker has the stream until what is streamed ends; events cross over a
//! bounded channel meanwhile. Once the worker is back, the outcome is written
//! to the session on the reader's side, and what is left is read from the
//! stream itself.
use vstd::prelude::*;
use vstd::string::*;
use crate::error::Error;
use crate::event::Event;
use crate::event_stream::{CoreView, Pulled, StreamCore};
use crate::response::{Response, ResponseView};
use crate::seqs::view_of;
use crate::session::Session;
use crate::session_model::SessionState;
use crate::stream::Finish;

verus! {

/// How many events the channel holds between the worker and the reader.
///
/// Small on purpose: it is a hand-off, not a buffer.
pub const EVENT_BUFFER: usize = 64;

/// What the channel has for the reader.
#[derive(Debug, Clone, Copy, PartialEq, Eq, Structural)]
pub enum Received {
    /// An event, or a failure.
    Something,
    /// Nothing yet.
    Nothing,
    /// Nothing more: the worker is returning.
    Closed,
}

/// What the reader does.
#[derive(Debug, PartialEq, Eq)]
pub enum Turned {
    /// Hand out this event.
    Event(Event),
    /// Hand out what the channel had.
    Pass,
    /// Wait for the channel.
    Wait,
    /// Wait for the worker.
    Join,
    /// Nothing more.
    Over,
}

/// The reader's side.
#[derive(Debug, PartialEq, Eq)]
pub struct Bridge {
    worker: bool,
    tail: Option<StreamCore>,
}

/// The reader's side, mathematically.
pub struct BridgeView {
    /// Whether a worker is out.
    pub worker: bool,
    /// The stream, once it is back.
    pub tail: Option<CoreView>,
}

impl View for Bridge {
    type V = BridgeView;

    closed spec fn view(&self) -> BridgeView {
        BridgeView { worker: self.worker, tail: view_of(self.tail) }
    }
}

impl BridgeView {
    /// Whether nothing more is handed out.
    pub open spec fn terminated(self) -> bool {
        !self.worker && match self.tail {
            Some(core) => core.queue.len() == 0,
            None => true,
        }
    }

    /// Whether the stream was left before it ended.
    pub open spec fn abandoned(self) -> bool {
        self.tail is None
    }
}

impl Bridge {
    /// The reader's side of a stream, and the stream, for the worker. A
    /// stream that was cancelled before it began needs none.
    pub fn start(core: StreamCore) -> (out: (Bridge, Option<StreamCore>))
        ensures
            core@.done ==> out.0@ == (BridgeView { worker: false, tail: Some(core@) })
                && out.1 is None,
            !core@.done ==> out.0@ == (BridgeView { worker: true, tail: None }) && out.1 == Some(
                core,
            ),
    {
        if core.is_done() {
            (Bridge { worker: false, tail: Some(core) }, None)
        } else {
            (Bridge { worker: true, tail: None }, Some(core))
        }
    }

    /// What the reader does next, given what the channel has. Once the stream
    /// is back, what is left comes from it, and the channel is not asked.
    pub fn turn(&mut self, received: Received) -> (out: Turned)
        ensures
            match old(self)@.tail {
                Some(core) => if core.queue.len() > 0 {
                    &&& out matches Turned::Event(event) && event@ == core.queue[0]
                    &&& final(self)@ == (BridgeView {
                        tail: Some(CoreView { queue: core.queue.drop_first(), ..core }),
                        ..old(self)@
                    })
                } else {
                    out is Over && final(self)@ == old(self)@
                },
                None => {
                    &&& final(self)@ == old(self)@
                    &&& match received {
                        Received::Something => out is Pass,
                        Received::Nothing => out is Wait,
                        Received::Closed => if old(self)@.worker {
                            out is Join
                        } else {
                            out is Over
                        },
                    }
                },
            },
    {
        match self.tail.take() {
            Some(core) => {
                let mut core = core;
                let pulled = core.pull();
                self.tail = Some(core);
                match pulled {
                    Pulled::Event(event) => Turned::Event(event),
                    _ => Turned::Over,
                }
            },
            None => match received {
                Received::Something => Turned::Pass,
                Received::Nothing => Turned::Wait,
                Received::Closed => if self.worker {
                    Turned::Join
                } else {
                    Turned::Over
                },
            },
        }
    }

    /// The worker is back: settle the session, unless the stream failed.
    pub fn joined(&mut self, core: StreamCore, session: &mut Session, finish: Finish)
        requires
            old(session).wf(),
            old(session)@.next_id < u64::MAX,
        ensures
            final(session).wf(),
            core@.done && !core@.settled && core@.failed is None ==> {
                &&& final(session)@ == core@.settled_into(old(session)@, finish@)
                &&& final(self)@ == (BridgeView {
                    worker: false,
                    tail: Some(core@.completed(old(session)@, finish@)),
                })
            },
            !(core@.done && !core@.settled && core@.failed is None) ==> {
                &&& final(session)@ == old(session)@
                &&& final(self)@ == (BridgeView { worker: false, tail: Some(core@) })
            },
    {
        self.worker = false;
        let mut core = core;
        if core.needs_completion() {
            core.complete(session, finish);
        }
        self.tail = Some(core);
    }

    /// The worker did not come back.
    pub fn panicked(&mut self) -> (out: Error)
        ensures
            final(self)@ == (BridgeView { worker: false, ..old(self)@ }),
            out matches Error::Generation { code, message } && code@ == "task_panicked"@
                && message@ == "the generation task panicked"@,
    {
        self.worker = false;
        Error::Generation {
            code: "task_panicked".to_owned(),
            message: "the generation task panicked".to_owned(),
        }
    }

    /// Whether nothing more is handed out.
    pub fn is_terminated(&self) -> (out: bool)
        ensures
            out == self@.terminated(),
    {
        !self.worker && match &self.tail {
            Some(core) => !core.has_queued(),
            None => true,
        }
    }

    /// The outcome, once everything has been read. One that was kept for no
    /// session names no message.
    pub fn finish(self, ephemeral: bool) -> (out: Result<Response, Error>)
        ensures
            match self@.tail {
                Some(core) if core.response is Some => {
                    let r = core.response->0;
                    &&& out matches Ok(response)
                    &&& response@ == (if ephemeral {
                        ResponseView { message_id: None, ..r }
                    } else {
                        r
                    })
                },
                _ => out matches Err(Error::Generation { code, message }) && code@
                    == "stream_failed"@ && message@ == (match self@.tail {
                    Some(core) if core.failed is Some => core.failed->0,
                    _ => "the stream ended without an outcome"@,
                }),
            },
    {
        match self.tail {
            Some(core) => {
                let mut core = core;
                match core.take_response() {
                    Ok(response) => if ephemeral {
                        Ok(response.detached())
                    } else {
                        Ok(response)
                    },
                    Err(e) => Err(e),
                }
            },
            None => Err(
                Error::Generation {
                    code: "stream_failed".to_owned(),
                    message: "the stream ended without an outcome".to_owned(),
                },
            ),
        }
    }

    /// The reader is gone. Whether the backend is to be stopped: a stream
    /// that was left before it ended leaves the backend ahead of the
    /// session's messages, so the next turn rebuilds from what the session
    /// holds.
    pub fn leave(&self, session: &mut Session) -> (out: bool)
        requires
            old(session).wf(),
        ensures
            final(session).wf(),
            out == self@.abandoned(),
            final(session)@ == (if out {
                SessionState { opened: false, ..old(session)@ }
            } else {
                old(session)@
            }),
    {
        if self.tail.is_none() {
            session.set_opened(false);
            true
        } else {
            false
        }
    }
}

} // verus!
