//! A turn in progress, as semantic events, and the outcome it settles into.
//!
//! [`StreamCore`] is everything a stream is apart from where its tokens come
//! from and the session it settles into. It asks for what was streamed,
//! hands out events, and at the end records the outcome.
use vstd::prelude::*;
use vstd::string::*;
use crate::error::Error;
use crate::event::{
    record_of, recorded, AssemblyView, Assembler, CallIds, Event, EventView,
};
use crate::event_laws::minted_ids_are_distinct;
use crate::output::{
    calls_in, reasoning_in, text_in, usage_of, AssistantMessage, FinishReason, GenerationStats,
    PartView, ReasonView,
};
use crate::message::BodyView;
use crate::response::{Response, ResponseView};
use crate::seqs::{group_views, view_of, views};
use crate::session::Session;
use crate::session_facts::push_valid;
use crate::session_model::{MessageId, SessionState};
use crate::stream::{Finish, FinishView, TokenEvent};
use crate::text::chars_of;

verus! {

broadcast use group_views;

/// What was streamed next.
#[derive(Debug, PartialEq, Eq)]
pub enum Fed {
    /// A token event.
    Event(TokenEvent),
    /// The stream failed; the failure in words.
    Failed(String),
    /// The stream ended.
    Ended,
}

/// What a stream has to say.
#[derive(Debug, PartialEq, Eq)]
pub enum Pulled {
    /// The next event.
    Event(Event),
    /// Nothing until more is streamed.
    Waiting,
    /// Nothing more from what was streamed.
    Over,
}

/// A stream, mathematically.
#[verifier::ext_equal]
pub struct CoreView {
    /// The assembly.
    pub assembly: AssemblyView,
    /// The events not handed out yet.
    pub queue: Seq<EventView>,
    /// Whether what is streamed has ended, one way or another.
    pub done: bool,
    /// Whether the outcome has been written to the session.
    pub settled: bool,
    /// Why what is streamed failed, when it did.
    pub failed: Option<Seq<char>>,
    /// The outcome.
    pub response: Option<ResponseView>,
    /// Whether the conversation is closed once the turn is over.
    pub close_after: bool,
}

/// Whether a reply is worth a message: a cancelled turn that produced nothing
/// has nothing to record.
pub open spec fn worth_recording(parts: Seq<PartView>, finish: FinishView) -> bool {
    ||| finish != FinishView::Stopped
    ||| text_in(parts).len() > 0
    ||| reasoning_in(parts) is Some
    ||| calls_in(parts).len() > 0
}

impl CoreView {
    /// A stream at its beginning.
    pub open spec fn begun(
        message: MessageId,
        max_tokens: Option<usize>,
        close_after: bool,
    ) -> CoreView {
        CoreView {
            assembly: AssemblyView::begun(message, 0, max_tokens),
            queue: Seq::empty(),
            done: false,
            settled: false,
            failed: None,
            response: None,
            close_after,
        }
    }

    /// The assembly once the turn has ended.
    pub open spec fn ended(self, finish: FinishView) -> AssemblyView {
        self.assembly.finished(finish).0
    }

    /// The session once the outcome is written to it. A stop evicts the
    /// backend's state, and a prefix of one turn's own must not be continued:
    /// either way the next turn rebuilds.
    pub open spec fn settled_into(self, session: SessionState, finish: FinishView) -> SessionState {
        let ended = self.ended(finish);
        let parts = ended.message_parts();
        let noted = session.with_shed(ended.shed);
        let kept = if worth_recording(parts, finish) {
            noted.pushed(recorded(parts))
        } else {
            noted
        };
        if finish == FinishView::Stopped || self.close_after {
            SessionState { opened: false, ..kept }
        } else {
            kept
        }
    }

    /// The outcome of the turn.
    pub open spec fn outcome(self, session: SessionState, finish: FinishView) -> ResponseView {
        let ended = self.ended(finish);
        let parts = ended.message_parts();
        ResponseView {
            parts,
            reason: ended.named_reason(),
            usage: usage_of(ended.stats),
            stats: ended.stats,
            message_id: if worth_recording(parts, finish) {
                Some(session.fresh())
            } else {
                None
            },
        }
    }

    /// The stream once the outcome is written to the session: the closing
    /// events are queued and the assembly has given its outcome away.
    pub open spec fn completed(self, session: SessionState, finish: FinishView) -> CoreView {
        CoreView {
            assembly: self.ended(finish).taken(),
            queue: self.queue + self.assembly.finished(finish).1,
            settled: true,
            response: Some(self.outcome(session, finish)),
            ..self
        }
    }
}

/// Everything a stream is apart from the session it settles into.
#[derive(Debug, PartialEq, Eq)]
pub struct StreamCore {
    assembler: Assembler,
    queue: Vec<Event>,
    done: bool,
    settled: bool,
    failed: Option<String>,
    response: Option<Response>,
    close_after: bool,
}

impl View for StreamCore {
    type V = CoreView;

    closed spec fn view(&self) -> CoreView {
        CoreView {
            assembly: self.assembler@,
            queue: views(self.queue@),
            done: self.done,
            settled: self.settled,
            failed: view_of(self.failed),
            response: view_of(self.response),
            close_after: self.close_after,
        }
    }
}

impl StreamCore {
    /// A stream for the message the session records next.
    pub fn new(
        next_message_id: MessageId,
        max_tokens: Option<usize>,
        close_after: bool,
    ) -> (out: Self)
        ensures
            out@ == CoreView::begun(next_message_id, max_tokens, close_after),
    {
        let out = StreamCore {
            assembler: Assembler::new(CallIds::new(next_message_id), max_tokens),
            queue: Vec::new(),
            done: false,
            settled: false,
            failed: None,
            response: None,
            close_after,
        };
        assert(out@ =~= CoreView::begun(next_message_id, max_tokens, close_after));
        out
    }

    /// A stream that ended before it began: cancelled ahead of dispatch.
    pub fn cancelled_before_start(next_message_id: MessageId) -> (out: Self)
        ensures
            out@ == (CoreView {
                done: true,
                settled: true,
                queue: seq![EventView::Finished(ReasonView::Cancelled)],
                response: Some(
                    ResponseView {
                        parts: Seq::empty(),
                        reason: ReasonView::Cancelled,
                        usage: usage_of(None),
                        stats: None,
                        message_id: None,
                    },
                ),
                ..CoreView::begun(next_message_id, None, false)
            }),
    {
        let mut out = StreamCore::new(next_message_id, None, false);
        out.done = true;
        out.settled = true;
        out.queue.push(Event::Finished(FinishReason::Cancelled));
        out.response = Some(
            Response::assembled(
                AssistantMessage::default(),
                FinishReason::Cancelled,
                GenerationStats::default(),
                None,
            ),
        );
        assert(views(out.queue@) =~= seq![EventView::Finished(ReasonView::Cancelled)]);
        out
    }

    /// The next event, or whether there will be one.
    pub fn pull(&mut self) -> (out: Pulled)
        ensures
            match out {
                Pulled::Event(event) => {
                    &&& old(self)@.queue.len() > 0
                    &&& event@ == old(self)@.queue[0]
                    &&& final(self)@ == (CoreView {
                        queue: old(self)@.queue.drop_first(),
                        ..old(self)@
                    })
                },
                Pulled::Waiting => old(self)@.queue.len() == 0 && !old(self)@.done && final(self)@
                    == old(self)@,
                Pulled::Over => old(self)@.queue.len() == 0 && old(self)@.done && final(self)@
                    == old(self)@,
            },
    {
        if self.queue.len() > 0 {
            let ghost before = self@;
            let event = self.queue.remove(0);
            assert(before.queue[0] == event@);
            assert(self@ =~= CoreView { queue: before.queue.drop_first(), ..before });
            Pulled::Event(event)
        } else if self.done {
            Pulled::Over
        } else {
            Pulled::Waiting
        }
    }

    /// Take in what was streamed next. A failure is handed back, to be
    /// reported once; the stream is over after it.
    pub fn feed(&mut self, fed: Fed) -> (out: Option<String>)
        requires
            fed matches Fed::Event(event) ==> old(self)@.assembly.has_room(event@),
        ensures
            match fed {
                Fed::Event(event) => {
                    let (assembly, events) = old(self)@.assembly.pushed(event@);
                    &&& out is None
                    &&& final(self)@ == (CoreView {
                        assembly,
                        queue: old(self)@.queue + events,
                        ..old(self)@
                    })
                },
                Fed::Failed(words) => {
                    &&& out matches Some(w) && w@ == words@
                    &&& final(self)@ == (CoreView {
                        done: true,
                        failed: Some(words@),
                        ..old(self)@
                    })
                },
                Fed::Ended => out is None && final(self)@ == (CoreView {
                    done: true,
                    ..old(self)@
                }),
            },
    {
        let ghost before = self@;
        match fed {
            Fed::Event(event) => {
                let mut events = self.assembler.push(event);
                let ghost more = views(events@);
                self.queue.append(&mut events);
                assert(views(self.queue@) =~= before.queue + more);
                None
            },
            Fed::Failed(words) => {
                self.done = true;
                self.failed = Some(words.clone());
                Some(words)
            },
            Fed::Ended => {
                self.done = true;
                None
            },
        }
    }

    /// Whether the counters have room for an event, so that it can be fed in.
    pub fn has_room_for(&self, event: &TokenEvent) -> (out: bool)
        ensures
            out == self@.assembly.has_room(event@),
    {
        self.assembler.has_room_for(event)
    }

    /// Whether the outcome still has to be written to the session.
    pub fn needs_completion(&self) -> (out: bool)
        ensures
            out == (self@.done && !self@.settled && self@.failed is None),
    {
        self.done && !self.settled && self.failed.is_none()
    }

    /// What is streamed is over: record the outcome in the session and queue
    /// the closing events (usage, finish reason).
    pub fn complete(&mut self, session: &mut Session, finish: Finish)
        requires
            old(session).wf(),
            old(session)@.next_id < u64::MAX,
        ensures
            final(session).wf(),
            final(session)@ == old(self)@.settled_into(old(session)@, finish@),
            final(self)@ == old(self)@.completed(old(session)@, finish@),
    {
        let ghost before = self@;
        let ghost start = session@;
        self.settled = true;
        let cancelled = match &finish {
            Finish::Stopped => true,
            _ => false,
        };
        let ghost ended = before.ended(finish@);
        let mut events = self.assembler.finish(finish);
        let ghost closing = views(events@);
        self.queue.append(&mut events);
        assert(views(self.queue@) =~= before.queue + closing);
        let done = self.assembler.take();
        let ghost parts = done.message@;
        assert(parts == ended.message_parts());
        session.note_shed(done.shed);
        let ghost noted = session@;
        assert(noted == start.with_shed(ended.shed));
        let worth = !cancelled || chars_of(done.message.text().as_str()).len() > 0
            || done.message.reasoning().is_some() || done.message.tool_calls().len() > 0;
        assert(worth == worth_recording(parts, finish@));
        let message_id = if worth {
            Some(session.push(record_of(&done.message)))
        } else {
            None
        };
        if cancelled || self.close_after {
            session.set_opened(false);
        }
        self.response = Some(
            Response::assembled(done.message, done.finish_reason, done.stats, message_id),
        );
    }

    /// The outcome, once everything has been drained.
    pub fn take_response(&mut self) -> (out: Result<Response, Error>)
        ensures
            match old(self)@.response {
                Some(r) => {
                    &&& out matches Ok(response) && response@ == r
                    &&& final(self)@ == (CoreView { response: None, ..old(self)@ })
                },
                None => {
                    &&& out matches Err(Error::Generation { code, message }) && code@
                        == "stream_failed"@ && message@ == (match old(self)@.failed {
                        Some(words) => words,
                        None => "the stream ended without an outcome"@,
                    })
                    &&& final(self)@ == (CoreView { failed: None, ..old(self)@ })
                },
            },
    {
        let ghost before = self@;
        match self.response.take() {
            Some(response) => {
                assert(self@ =~= CoreView { response: None, ..before });
                Ok(response)
            },
            None => {
                let message = match self.failed.take() {
                    Some(words) => words,
                    None => "the stream ended without an outcome".to_owned(),
                };
                assert(self@ =~= CoreView { failed: None, ..before });
                Err(Error::Generation { code: "stream_failed".to_owned(), message })
            },
        }
    }

    /// Whether what is streamed has ended.
    pub fn is_done(&self) -> (out: bool)
        ensures
            out == self@.done,
    {
        self.done
    }

    /// Whether an event is waiting to be handed out.
    pub fn has_queued(&self) -> (out: bool)
        ensures
            out == (self@.queue.len() > 0),
    {
        self.queue.len() > 0
    }
}

/// A turn whose calls are recorded moves the session past the message its ids
/// are minted for, so no later turn of the session mints one of them again.
pub proof fn no_two_turns_mint_one_id(
    core: CoreView,
    session: SessionState,
    finish: FinishView,
    later: u64,
    i: nat,
    j: nat,
)
    requires
        calls_in(core.ended(finish).message_parts()).len() > 0,
        session.next_id < u64::MAX,
        later >= core.settled_into(session, finish).next_id,
    ensures
        crate::event::minted(session.fresh().0, i) != crate::event::minted(later, j),
{
    let parts = core.ended(finish).message_parts();
    assert(worth_recording(parts, finish));
    assert(core.settled_into(session, finish).next_id == session.next_id + 1);
    if crate::event::minted(session.fresh().0, i) == crate::event::minted(later, j) {
        minted_ids_are_distinct(session.fresh().0, i, later, j);
    }
}

// ── What a settled turn leaves ──────────────────────────────────────────────

/// Whether a part of a reply holds anything: words, a thought or a call.
pub open spec fn says_something(part: PartView) -> bool {
    match part {
        PartView::Text(text) => text.len() > 0,
        PartView::Reasoning(_) => true,
        PartView::Call(_) => true,
    }
}

proof fn content_is_in_a_part(parts: Seq<PartView>)
    ensures
        (text_in(parts).len() > 0 || reasoning_in(parts) is Some || calls_in(parts).len() > 0)
            <==> exists|i: int| 0 <= i < parts.len() && says_something(#[trigger] parts[i]),
    decreases parts.len(),
{
    if parts.len() > 0 {
        let init = parts.drop_last();
        content_is_in_a_part(init);
        if exists|i: int| 0 <= i < init.len() && says_something(#[trigger] init[i]) {
            let i = choose|i: int| 0 <= i < init.len() && says_something(#[trigger] init[i]);
            assert(says_something(parts[i]));
        }
        if exists|i: int| 0 <= i < parts.len() && says_something(#[trigger] parts[i]) {
            let i = choose|i: int| 0 <= i < parts.len() && says_something(#[trigger] parts[i]);
            if i < init.len() {
                assert(says_something(init[i]));
            }
        }
    }
}

/// A turn is recorded unless it was stopped before it said anything; the
/// record is one message at the end, and it is what the response carries.
pub proof fn a_turn_is_recorded_once(core: CoreView, session: SessionState, finish: FinishView)
    requires
        session.valid(),
        session.next_id < u64::MAX,
    ensures
        ({
            let after = core.settled_into(session, finish);
            let told = core.outcome(session, finish);
            let heard = finish != FinishView::Stopped || exists|i: int|
                0 <= i < told.parts.len() && says_something(#[trigger] told.parts[i]);
            &&& heard ==> {
                &&& after.messages() == session.messages().push(recorded(told.parts))
                &&& told.message_id == Some(after.active.last())
                &&& after.active == session.active.push(after.active.last())
            }
            &&& !heard ==> {
                &&& after.messages() == session.messages()
                &&& after.records == session.records
                &&& told.message_id is None
            }
            &&& after.opened == (session.opened && finish != FinishView::Stopped
                && !core.close_after)
            &&& after.system == session.system
            &&& after.tools == session.tools
        }),
{
    let parts = core.ended(finish).message_parts();
    content_is_in_a_part(parts);
    let noted = session.with_shed(core.ended(finish).shed);
    assert(noted.messages() =~= session.messages());
    push_valid(noted, recorded(parts));
    let kept = noted.pushed(recorded(parts));
    let after = core.settled_into(session, finish);
    if worth_recording(parts, finish) {
        assert(after.messages() =~= kept.messages());
    } else {
        assert(after.messages() =~= session.messages());
    }
}

/// A turn without calls is recorded as its words and its thoughts, one with
/// calls as its calls, under the ids the response carries.
pub proof fn how_a_turn_is_recorded(parts: Seq<PartView>)
    ensures
        recorded(parts).role == "assistant"@,
        recorded(parts).call_id is None,
        calls_in(parts).len() == 0 ==> recorded(parts).text() == text_in(parts) && recorded(
            parts,
        ).reasoning == reasoning_in(parts) && recorded(parts).calls().len() == 0,
        recorded(parts).calls().len() == calls_in(parts).len(),
        forall|i: int|
            0 <= i < calls_in(parts).len() ==> #[trigger] recorded(parts).calls()[i] == calls_in(
                parts,
            )[i].id,
        calls_in(parts).len() > 0 ==> {
            &&& recorded(parts).body matches BodyView::Calls(kept)
            &&& kept.len() == calls_in(parts).len()
            &&& forall|i: int|
                0 <= i < kept.len() ==> (#[trigger] kept[i]).name == calls_in(parts)[i].name
                    && kept[i].arguments == calls_in(parts)[i].arguments && kept[i].kind
                    == "function"@
        },
{
}

/// The outcome counts what the backend measured, and once it is written the
/// events that close the turn follow those not yet handed out.
pub proof fn an_outcome_is_told_last(core: CoreView, session: SessionState, finish: FinishView)
    ensures
        ({
            let after = core.completed(session, finish);
            &&& core.queue.is_prefix_of(after.queue)
            &&& after.queue.skip(core.queue.len() as int) == core.assembly.finished(finish).1
            &&& after.settled
            &&& after.response == Some(core.outcome(session, finish))
            &&& after.done == core.done
            &&& core.outcome(session, finish).stats == core.assembly.finished(finish).0.stats
            &&& core.outcome(session, finish).parts == core.assembly.finished(
                finish,
            ).0.message_parts()
        }),
{
    let after = core.completed(session, finish);
    assert(after.queue.subrange(0, core.queue.len() as int) =~= core.queue);
    assert(after.queue.skip(core.queue.len() as int) =~= core.assembly.finished(finish).1);
}

} // verus!
