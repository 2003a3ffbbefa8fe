//! Semantic streaming.
//!
//! A backend streams tokenizer fragments; a harness wants to know what the
//! model is *doing* — thinking, answering, or asking for a tool. The
//! [`Assembler`] turns the one into the other as it goes, so a terminal or a
//! websocket bridge never has to know how a family of models spells its
//! reasoning or its tool calls.
//!
//! The same assembly produces the message a blocking turn returns, so the two
//! cannot disagree about what was said.
use vstd::prelude::*;
use vstd::string::*;
use crate::channels::{
    Channel, ChannelMarkers, Fate, ReplyStateMachine, SplitView, StreamEmission,
};
use crate::json::{lenient, Json};
use crate::message::{CallView, FunctionDefinition, Message, MessageView};
use crate::message;
use crate::output::{
    calls_in, reasoning_in, text_in, usage_of, AskedView, AssistantMessage, FinishReason,
    GenerationStats, OutputPart, PartView, ReasonView, ToolCall, ToolCallId, Usage,
};
use crate::seqs::{group_views, view_of, views};
use crate::session_model::MessageId;
use crate::stream::{ExecutionStats, Finish, FinishView, StreamCallView, TokenEvent, TokenEventView};
use crate::text::{
    body_len, body_length, chars_of, decimal, part_of, push_decimal, string_of, trim_breaks,
    trim_start, without_breaks, without_lead,
};

verus! {

broadcast use group_views;

/// One thing the model did, as a stream sees it.
#[derive(Debug, PartialEq, Eq)]
pub enum Event {
    /// A fragment of the visible reply.
    TextDelta(String),
    /// A fragment of the reasoning channel.
    ReasoningDelta(String),
    /// The model began a tool call.
    ToolCallStart {
        /// Stable within the session; the id a result is pushed under.
        id: ToolCallId,
        /// The tool named.
        name: String,
    },
    /// A fragment of a tool call's arguments, as the model wrote them.
    ToolCallArgumentsDelta {
        /// The call being argued.
        id: ToolCallId,
        /// Raw argument text.
        delta: String,
    },
    /// A tool call is complete.
    ToolCallEnd {
        /// The call, arguments parsed.
        call: ToolCall,
    },
    /// Token accounting, once the backend reported it.
    Usage(Usage),
    /// The generation ended. Always the last event.
    Finished(FinishReason),
}

/// An event, mathematically.
pub enum EventView {
    TextDelta(Seq<char>),
    ReasoningDelta(Seq<char>),
    ToolCallStart { id: Seq<char>, name: Seq<char> },
    ToolCallArgumentsDelta { id: Seq<char>, delta: Seq<char> },
    ToolCallEnd(AskedView),
    Usage(Usage),
    Finished(ReasonView),
}

impl View for Event {
    type V = EventView;

    open spec fn view(&self) -> EventView {
        match self {
            Event::TextDelta(text) => EventView::TextDelta(text@),
            Event::ReasoningDelta(text) => EventView::ReasoningDelta(text@),
            Event::ToolCallStart { id, name } => EventView::ToolCallStart { id: id@, name: name@ },
            Event::ToolCallArgumentsDelta { id, delta } => EventView::ToolCallArgumentsDelta {
                id: id@,
                delta: delta@,
            },
            Event::ToolCallEnd { call } => EventView::ToolCallEnd(call@),
            Event::Usage(usage) => EventView::Usage(*usage),
            Event::Finished(reason) => EventView::Finished(reason@),
        }
    }
}

// ── Call ids ────────────────────────────────────────────────────────────────

/// The id of the `n`th call minted for a message.
pub open spec fn minted(message: u64, n: nat) -> Seq<char> {
    "call_"@ + decimal(message as nat) + "_"@ + decimal(n)
}

/// Mints tool-call ids that are unique for the life of a session.
///
/// Built from the id the assistant message is about to get; two turns can
/// never mint the same id because every recorded message moves the counter.
#[derive(Debug, Clone, Copy, PartialEq, Eq)]
pub struct CallIds {
    pub message: MessageId,
    pub next: u64,
}

impl CallIds {
    /// Ids for the calls of a message.
    pub fn new(message: MessageId) -> (out: Self)
        ensures
            out.message == message,
            out.next == 0,
    {
        CallIds { message, next: 0 }
    }

    /// The next id.
    pub fn mint(&mut self) -> (out: ToolCallId)
        requires
            old(self).next < u64::MAX,
        ensures
            out@ == minted(old(self).message.0, old(self).next as nat),
            final(self).message == old(self).message,
            final(self).next == old(self).next + 1,
    {
        let mut id = "call_".to_owned();
        push_decimal(&mut id, self.message.0);
        id.append("_");
        push_decimal(&mut id, self.next);
        self.next = self.next + 1;
        ToolCallId(id)
    }
}

// ── Assembly, mathematically ────────────────────────────────────────────────

/// A part of one channel.
pub open spec fn part_in(channel: Channel, text: Seq<char>) -> PartView {
    match channel {
        Channel::Text => PartView::Text(text),
        Channel::Reasoning => PartView::Reasoning(text),
    }
}

/// A fragment of one channel.
pub open spec fn delta_in(channel: Channel, text: Seq<char>) -> EventView {
    match channel {
        Channel::Text => EventView::TextDelta(text),
        Channel::Reasoning => EventView::ReasoningDelta(text),
    }
}

/// Parts with one more fragment: at the end of the last part where the run
/// goes on, else a part of its own.
pub open spec fn grown(
    parts: Seq<PartView>,
    fresh: bool,
    channel: Channel,
    chunk: Seq<char>,
) -> Seq<PartView> {
    if fresh || parts.len() == 0 {
        parts.push(part_in(channel, chunk))
    } else {
        match (channel, parts.last()) {
            (Channel::Text, PartView::Text(text)) => parts.drop_last().push(
                PartView::Text(text + chunk),
            ),
            (Channel::Reasoning, PartView::Reasoning(text)) => parts.drop_last().push(
                PartView::Reasoning(text + chunk),
            ),
            _ => parts.push(part_in(channel, chunk)),
        }
    }
}

/// What is reported of text of one channel: nothing of none.
pub open spec fn report(channel: Channel, text: Seq<char>) -> Seq<EventView> {
    if text.len() == 0 {
        Seq::empty()
    } else {
        seq![delta_in(channel, text)]
    }
}

/// Calls as parts.
pub open spec fn parts_of(calls: Seq<(usize, AskedView)>) -> Seq<PartView> {
    calls.map_values(|call: (usize, AskedView)| PartView::Call(call.1))
}

/// Calls, wherever they were made.
pub open spec fn asked_in(calls: Seq<(usize, AskedView)>) -> Seq<AskedView> {
    calls.map_values(|call: (usize, AskedView)| call.1)
}

/// The state of an assembly.
#[verifier::ext_equal]
pub struct AssemblyView {
    /// What tells reasoning from reply.
    pub split: SplitView,
    /// The parts so far.
    pub parts: Seq<PartView>,
    /// Calls made while text is held back, each with how many of the
    /// characters held back came before it.
    pub late: Seq<(usize, AskedView)>,
    /// The channel the open run is in, if a run is open.
    pub open: Option<Channel>,
    /// White space at the end of the open reasoning run.
    pub held: Seq<char>,
    /// Whether reasoning has been seen.
    pub scaffolded: bool,
    /// The message the call ids are minted for.
    pub message: MessageId,
    /// How many have been minted.
    pub minted: nat,
    /// What was measured.
    pub stats: Option<ExecutionStats>,
    /// How many messages were shed.
    pub shed: nat,
    /// The token budget.
    pub max_tokens: Option<usize>,
    /// Why it ended, once it has.
    pub reason: Option<ReasonView>,
}

impl AssemblyView {
    /// An assembly at its beginning, after so many ids were minted.
    pub open spec fn begun(
        message: MessageId,
        minted: nat,
        max_tokens: Option<usize>,
    ) -> AssemblyView {
        AssemblyView {
            split: SplitView::begun(
                seq!["<|channel>thought"@, "<think>"@],
                seq!["<channel|>"@, "</think>"@],
            ),
            parts: Seq::empty(),
            late: Seq::empty(),
            open: None,
            held: Seq::empty(),
            scaffolded: false,
            message,
            minted,
            stats: None,
            shed: 0,
            max_tokens,
            reason: None,
        }
    }

    /// What of a stretch is the model's: the white space a run begins with is
    /// the template's. Reasoning opens with a line break, and line breaks
    /// stand between it and the answer.
    pub open spec fn own(self, channel: Channel, text: Seq<char>) -> Seq<char> {
        if self.open == Some(channel) {
            text
        } else {
            match channel {
                Channel::Reasoning => without_lead(text),
                Channel::Text => if self.scaffolded {
                    without_breaks(text)
                } else {
                    text
                },
            }
        }
    }

    /// The assembly after more text of one channel, and the text that is
    /// reported. White space at the end of reasoning waits for what follows
    /// it.
    pub open spec fn said(self, channel: Channel, text: Seq<char>) -> (AssemblyView, Seq<char>) {
        let fresh = self.open != Some(channel);
        let scaffolded = self.scaffolded || channel == Channel::Reasoning;
        let held = if fresh {
            Seq::empty()
        } else {
            self.held
        };
        let own = self.own(channel, text);
        let chunk = held + own;
        let body = if channel == Channel::Reasoning {
            chunk.take(body_len(chunk) as int)
        } else {
            chunk
        };
        if text.len() == 0 {
            (self, Seq::empty())
        } else if own.len() == 0 {
            (
                AssemblyView {
                    scaffolded,
                    held,
                    open: if fresh {
                        None
                    } else {
                        self.open
                    },
                    ..self
                },
                Seq::empty(),
            )
        } else if body.len() == 0 {
            (
                AssemblyView { scaffolded, held: chunk, open: Some(channel), ..self },
                Seq::empty(),
            )
        } else {
            (
                AssemblyView {
                    scaffolded,
                    held: chunk.skip(body.len() as int),
                    open: Some(channel),
                    parts: grown(self.parts, fresh, channel, body),
                    ..self
                },
                body,
            )
        }
    }

    /// The assembly after one more stretch of one channel, and the fragment
    /// that is reported.
    pub open spec fn emitted(self, channel: Channel, text: Seq<char>) -> (
        AssemblyView,
        Seq<EventView>,
    ) {
        let (after, text) = self.said(channel, text);
        (after, report(channel, text))
    }

    /// The assembly after one stretch that calls were made in, each after so
    /// many of its characters, and the text that is reported.
    pub open spec fn threaded(
        self,
        channel: Channel,
        text: Seq<char>,
        calls: Seq<(usize, AskedView)>,
    ) -> (AssemblyView, Seq<char>)
        decreases calls.len(),
    {
        if calls.len() == 0 {
            self.said(channel, text)
        } else {
            let (k, call) = calls.last();
            let at = if k <= text.len() {
                k as int
            } else {
                text.len() as int
            };
            let (before, head) = self.threaded(channel, text.take(at), calls.drop_last());
            let (after, rest) = (AssemblyView {
                parts: before.parts.push(PartView::Call(call)),
                ..before
            }).said(channel, text.skip(at));
            (after, head + rest)
        }
    }

    /// The assembly after stretches.
    pub open spec fn emitted_all(self, list: Seq<(Channel, Seq<char>)>) -> (
        AssemblyView,
        Seq<EventView>,
    )
        decreases list.len(),
    {
        if list.len() == 0 {
            (self, Seq::empty())
        } else {
            let (before, events) = self.emitted_all(list.drop_last());
            let (after, more) = before.emitted(list.last().0, list.last().1);
            (after, events + more)
        }
    }

    /// The assembly with the calls that waited among its parts.
    pub open spec fn placed(self) -> AssemblyView {
        AssemblyView { parts: self.parts + parts_of(self.late), late: Seq::empty(), ..self }
    }

    /// The assembly after stretches that begin with what was held back: the
    /// calls that waited fall into the first.
    pub open spec fn spread(self, list: Seq<(Channel, Seq<char>)>) -> (
        AssemblyView,
        Seq<EventView>,
    ) {
        if self.late.len() == 0 {
            self.emitted_all(list)
        } else if list.len() == 0 {
            (self.placed(), Seq::empty())
        } else {
            let (channel, text) = list[0];
            let (first, told) = (AssemblyView { late: Seq::empty(), ..self }).threaded(
                channel,
                text,
                self.late,
            );
            let (after, more) = first.emitted_all(list.skip(1));
            (after, report(channel, told) + more)
        }
    }

    /// The id a streamed call goes by: the provider's, else a minted one.
    pub open spec fn id_of(self, call: StreamCallView) -> Seq<char> {
        match call.id {
            Some(id) if id.len() > 0 => id,
            _ => minted(self.message.0, self.minted),
        }
    }

    /// Whether a streamed call has an id of its own.
    pub open spec fn numbered(call: StreamCallView) -> bool {
        call.id matches Some(id) && id.len() > 0
    }

    /// A streamed call as the model's request.
    pub open spec fn asked(self, call: StreamCallView) -> AskedView {
        AskedView { id: self.id_of(call), name: call.name, arguments: lenient(call.arguments) }
    }

    /// The assembly once what could have become a marker is settled as text.
    pub open spec fn flushed(self) -> (AssemblyView, Seq<EventView>) {
        (AssemblyView {
            split: SplitView { pending: Seq::empty(), ..self.split },
            ..self
        }).spread(self.split.left())
    }

    /// The assembly after one more thing streamed, and what it amounts to.
    /// A call stands after all the text that was streamed before it. Where
    /// some of that is held back because it could still become a marker, the
    /// call waits until that is settled.
    pub open spec fn pushed(self, event: TokenEventView) -> (AssemblyView, Seq<EventView>) {
        match event {
            TokenEventView::Token(text) => {
                let (split, list) = self.split.fed(text);
                let fed = AssemblyView { split, ..self };
                match self.split.fate(text) {
                    Fate::Held if self.late.len() > 0 => (fed, Seq::empty()),
                    Fate::Marker => fed.placed().emitted_all(list),
                    _ => fed.spread(list),
                }
            },
            TokenEventView::ToolCall(call) => {
                let asked = self.asked(call);
                (
                    AssemblyView {
                        parts: if self.split.pending.len() == 0 {
                            self.parts.push(PartView::Call(asked))
                        } else {
                            self.parts
                        },
                        late: if self.split.pending.len() == 0 {
                            self.late
                        } else {
                            self.late.push((self.split.pending.len() as usize, asked))
                        },
                        minted: if AssemblyView::numbered(call) {
                            self.minted
                        } else {
                            self.minted + 1
                        },
                        ..self
                    },
                    seq![
                        EventView::ToolCallStart { id: asked.id, name: call.name },
                        EventView::ToolCallArgumentsDelta { id: asked.id, delta: call.arguments },
                        EventView::ToolCallEnd(asked),
                    ],
                )
            },
            TokenEventView::Stats(stats) => (
                AssemblyView { stats: Some(stats), ..self },
                Seq::empty(),
            ),
            TokenEventView::Truncated(n) => (
                AssemblyView { shed: self.shed + n as nat, ..self },
                Seq::empty(),
            ),
            TokenEventView::Compacted(n) => (
                AssemblyView { shed: self.shed + n as nat, ..self },
                Seq::empty(),
            ),
            TokenEventView::Other => (self, Seq::empty()),
        }
    }

    /// Whether the counters have room for one more thing.
    pub open spec fn has_room(self, event: TokenEventView) -> bool {
        match event {
            TokenEventView::ToolCall(_) => self.minted < u64::MAX,
            TokenEventView::Truncated(n) => self.shed + n <= usize::MAX,
            TokenEventView::Compacted(n) => self.shed + n <= usize::MAX,
            _ => true,
        }
    }

    /// Why the generation ended. A backend reports the end of the sequence for
    /// a spent budget too; only the count tells them apart.
    pub open spec fn reason_for(self, finish: FinishView) -> ReasonView {
        if (calls_in(self.parts).len() > 0 || self.late.len() > 0) && finish
            != FinishView::Stopped {
            ReasonView::ToolCall
        } else {
            match finish {
                FinishView::Eos => if self.stats matches Some(stats) && self.max_tokens matches Some(
                    max,
                ) && stats.decode_tokens >= max {
                    ReasonView::Length
                } else {
                    ReasonView::Stop
                },
                FinishView::Stopped => ReasonView::Cancelled,
                _ => ReasonView::Other(finish.named()),
            }
        }
    }

    /// The assembly once the stream ended, and what is left to report.
    pub open spec fn finished(self, finish: FinishView) -> (AssemblyView, Seq<EventView>) {
        let (flushed, events) = self.flushed();
        let reason = self.reason_for(finish);
        let usage = match self.stats {
            Some(stats) => seq![EventView::Usage(usage_of(Some(stats)))],
            None => Seq::empty(),
        };
        (
            AssemblyView { open: None, held: Seq::empty(), reason: Some(reason), ..flushed },
            events + usage + seq![EventView::Finished(reason)],
        )
    }

    /// The message the assembly comes to. A reply with no parts at all is one
    /// empty text part; an answer that is only tool calls has none.
    pub open spec fn message_parts(self) -> Seq<PartView> {
        let parts = self.placed().parts;
        if parts.len() == 0 {
            seq![PartView::Text(Seq::empty())]
        } else {
            parts
        }
    }

    /// The assembly once its outcome is taken.
    pub open spec fn taken(self) -> AssemblyView {
        AssemblyView {
            parts: Seq::empty(),
            late: Seq::empty(),
            reason: None,
            stats: None,
            shed: 0,
            ..self
        }
    }

    /// The reason the assembly ended for, once it has.
    pub open spec fn named_reason(self) -> ReasonView {
        match self.reason {
            Some(reason) => reason,
            None => ReasonView::Other("unfinished"@),
        }
    }
}

// ── Assembly ────────────────────────────────────────────────────────────────

/// Turns token events into semantic events and, at the end, a message.
///
/// The reasoning split covers every scaffold the library knows: a model that
/// uses none of them yields only text. Tool calls arrive from the backends
/// already parsed, so one call becomes a start, one fragment carrying the
/// whole argument text, and an end. A call stands among the parts where the
/// model made it, and does not disturb the text around it: a marker that a
/// call falls into is still a marker.
#[derive(Debug, PartialEq, Eq)]
pub struct Assembler {
    splitter: ReplyStateMachine,
    parts: Vec<OutputPart>,
    late: Vec<(usize, ToolCall)>,
    open: Option<Channel>,
    held: Vec<char>,
    scaffolded: bool,
    call_ids: CallIds,
    stats: Option<ExecutionStats>,
    shed: usize,
    max_tokens: Option<usize>,
    finish_reason: Option<FinishReason>,
}

impl View for Assembler {
    type V = AssemblyView;

    closed spec fn view(&self) -> AssemblyView {
        AssemblyView {
            split: self.splitter@,
            parts: views(self.parts@),
            late: views(self.late@),
            open: self.open,
            held: self.held@,
            scaffolded: self.scaffolded,
            message: self.call_ids.message,
            minted: self.call_ids.next as nat,
            stats: self.stats,
            shed: self.shed as nat,
            max_tokens: self.max_tokens,
            reason: view_of(self.finish_reason),
        }
    }
}

/// What an assembly comes to.
#[derive(Debug, PartialEq, Eq)]
pub struct Assembled {
    pub message: AssistantMessage,
    pub finish_reason: FinishReason,
    pub stats: GenerationStats,
    pub shed: usize,
}

fn is_open(open: Option<Channel>, channel: Channel) -> (out: bool)
    ensures
        out == (open == Some(channel)),
{
    match open {
        Some(c) => c == channel,
        None => false,
    }
}

/// Adds a fragment to parts.
fn grow(parts: &mut Vec<OutputPart>, fresh: bool, channel: Channel, chunk: String)
    ensures
        views(final(parts)@) == grown(views(old(parts)@), fresh, channel, chunk@),
{
    let ghost before = views(parts@);
    if fresh {
        parts.push(new_part(channel, chunk));
        assert(views(parts@) =~= before.push(part_in(channel, chunk@)));
        return;
    }
    match parts.pop() {
        None => {
            parts.push(new_part(channel, chunk));
            assert(views(parts@) =~= before.push(part_in(channel, chunk@)));
        },
        Some(last) => {
            let ghost rest = views(parts@);
            assert(rest =~= before.drop_last());
            assert(before.last() == last@);
            match (channel, last) {
                (Channel::Text, OutputPart::Text(text)) => {
                    parts.push(OutputPart::Text(text.concat(chunk.as_str())));
                    assert(views(parts@) =~= grown(before, fresh, channel, chunk@));
                },
                (Channel::Reasoning, OutputPart::Reasoning(text)) => {
                    parts.push(OutputPart::Reasoning(text.concat(chunk.as_str())));
                    assert(views(parts@) =~= grown(before, fresh, channel, chunk@));
                },
                (_, last) => {
                    parts.push(last);
                    parts.push(new_part(channel, chunk));
                    assert(views(parts@) =~= grown(before, fresh, channel, chunk@));
                },
            }
        },
    }
}

/// Adds what is to be reported to an event list.
fn tell(channel: Channel, text: Vec<char>, out: &mut Vec<Event>)
    ensures
        views(final(out)@) == views(old(out)@) + report(channel, text@),
{
    let ghost events = views(out@);
    if text.len() > 0 {
        let said = string_of(text.as_slice());
        out.push(
            match channel {
                Channel::Text => Event::TextDelta(said),
                Channel::Reasoning => Event::ReasoningDelta(said),
            },
        );
    }
    assert(views(out@) =~= events + report(channel, text@));
}

fn new_part(channel: Channel, text: String) -> (out: OutputPart)
    ensures
        out@ == part_in(channel, text@),
{
    match channel {
        Channel::Text => OutputPart::Text(text),
        Channel::Reasoning => OutputPart::Reasoning(text),
    }
}

impl Assembler {
    /// An assembly for the message the ids are minted for.
    pub fn new(call_ids: CallIds, max_tokens: Option<usize>) -> (out: Self)
        ensures
            out@ == AssemblyView::begun(call_ids.message, call_ids.next as nat, max_tokens),
    {
        let out = Assembler {
            splitter: ReplyStateMachine::new(ChannelMarkers::all()),
            parts: Vec::new(),
            late: Vec::new(),
            open: None,
            held: Vec::new(),
            scaffolded: false,
            call_ids,
            stats: None,
            shed: 0,
            max_tokens,
            finish_reason: None,
        };
        assert(out@ =~= AssemblyView::begun(call_ids.message, call_ids.next as nat, max_tokens));
        out
    }

    /// End the open run: white space held at its end was the scaffold's.
    fn close_run(&mut self)
        ensures
            final(self)@ == (AssemblyView { open: None, held: Seq::empty(), ..old(self)@ }),
    {
        let ghost before = self@;
        self.open = None;
        self.held = Vec::new();
        assert(self@ =~= AssemblyView { open: None, held: Seq::empty(), ..before });
    }

    /// Route text of one channel into the parts; return what of it is to be
    /// reported.
    fn say(&mut self, channel: Channel, chars: Vec<char>) -> (out: Vec<char>)
        ensures
            (final(self)@, out@) == old(self)@.said(channel, chars@),
    {
        let ghost before = self@;
        let ghost text = chars@;
        let ghost after = before.said(channel, text);
        if chars.len() == 0 {
            return Vec::new();
        }
        let fresh = !is_open(self.open, channel);
        let own: Vec<char> = if fresh {
            match channel {
                Channel::Reasoning => trim_start(chars.as_slice()),
                Channel::Text => if self.scaffolded {
                    trim_breaks(chars.as_slice())
                } else {
                    chars
                },
            }
        } else {
            chars
        };
        assert(own@ == before.own(channel, text));
        if channel == Channel::Reasoning {
            self.scaffolded = true;
        }
        if fresh {
            self.close_run();
        }
        if own.len() == 0 {
            assert(self@ =~= after.0);
            return Vec::new();
        }
        let mut own = own;
        let mut chunk: Vec<char> = Vec::new();
        chunk.append(&mut self.held);
        chunk.append(&mut own);
        let ghost whole = chunk@;
        assert(whole =~= (if fresh {
            Seq::empty()
        } else {
            before.held
        }) + before.own(channel, text));
        self.open = Some(channel);
        let to: usize = if channel == Channel::Reasoning {
            body_length(chunk.as_slice())
        } else {
            chunk.len()
        };
        let body = part_of(chunk.as_slice(), 0, to);
        assert(body@ =~= whole.take(to as int));
        assert(channel == Channel::Text ==> body@ =~= whole);
        self.held = part_of(chunk.as_slice(), to, chunk.len());
        assert(self.held@ =~= whole.skip(to as int));
        if body.len() == 0 {
            assert(whole.skip(0) =~= whole);
            assert(self@ =~= after.0);
            return body;
        }
        grow(&mut self.parts, fresh, channel, string_of(body.as_slice()));
        assert(self@ =~= after.0);
        body
    }

    /// Route one stretch of one channel into the parts and the event list.
    fn emit(&mut self, channel: Channel, text: String, out: &mut Vec<Event>)
        ensures
            final(self)@ == old(self)@.emitted(channel, text@).0,
            views(final(out)@) == views(old(out)@) + old(self)@.emitted(channel, text@).1,
    {
        let told = self.say(channel, chars_of(text.as_str()));
        tell(channel, told, out);
    }

    /// Route text of one channel into the parts, with the first `n` of the
    /// calls that were made in it; return what of it is to be reported.
    fn thread(
        &mut self,
        channel: Channel,
        chars: &Vec<char>,
        to: usize,
        calls: &Vec<(usize, ToolCall)>,
        n: usize,
    ) -> (out: Vec<char>)
        requires
            to <= chars.len(),
            n <= calls.len(),
        ensures
            (final(self)@, out@) == old(self)@.threaded(
                channel,
                chars@.take(to as int),
                views(calls@).take(n as int),
            ),
        decreases n,
    {
        let ghost text = chars@.take(to as int);
        let ghost list = views(calls@).take(n as int);
        if n == 0 {
            let part = part_of(chars.as_slice(), 0, to);
            assert(part@ =~= text);
            return self.say(channel, part);
        }
        let last: usize = n - 1;
        assert(list.drop_last() =~= views(calls@).take(last as int));
        assert(list.last() == calls@[last as int]@);
        let at: usize = if calls[last].0 <= to {
            calls[last].0
        } else {
            to
        };
        assert(text.take(at as int) =~= chars@.take(at as int));
        let mut told = self.thread(channel, chars, at, calls, last);
        let ghost before = self@;
        self.parts.push(OutputPart::ToolCall(calls[last].1.clone()));
        assert(self@ =~= AssemblyView {
            parts: before.parts.push(PartView::Call(calls@[last as int].1@)),
            ..before
        });
        let part = part_of(chars.as_slice(), at, to);
        assert(part@ =~= text.skip(at as int));
        let mut rest = self.say(channel, part);
        told.append(&mut rest);
        told
    }

    /// Put the calls that waited among the parts.
    fn place(&mut self)
        ensures
            final(self)@ == old(self)@.placed(),
    {
        let ghost before = self@;
        let mut late: Vec<(usize, ToolCall)> = Vec::new();
        late.append(&mut self.late);
        let ghost calls = views(late@);
        let mut i: usize = 0;
        assert(views(self.parts@) =~= before.parts + parts_of(calls.take(0)));
        while i < late.len()
            invariant
                i <= late.len(),
                calls == views(late@),
                self@ == (AssemblyView {
                    parts: before.parts + parts_of(calls.take(i as int)),
                    late: Seq::empty(),
                    ..before
                }),
            decreases late.len() - i,
        {
            self.parts.push(OutputPart::ToolCall(late[i].1.clone()));
            i += 1;
            assert(calls[i - 1] == late@[i - 1]@);
            assert(views(self.parts@) =~= before.parts + parts_of(calls.take(i as int)));
            assert(self@ =~= AssemblyView {
                parts: before.parts + parts_of(calls.take(i as int)),
                late: Seq::empty(),
                ..before
            });
        }
        assert(calls.take(late.len() as int) =~= calls);
    }

    /// Route stretches that begin with what was held back.
    fn spread(&mut self, list: Vec<StreamEmission>, out: &mut Vec<Event>)
        ensures
            final(self)@ == old(self)@.spread(views(list@)).0,
            views(final(out)@) == views(old(out)@) + old(self)@.spread(views(list@)).1,
    {
        let ghost before = self@;
        let ghost events = views(out@);
        let ghost all = views(list@);
        if self.late.len() == 0 {
            self.emit_all(list, out);
            return;
        }
        let mut list = list;
        if list.len() == 0 {
            self.place();
            assert(views(out@) =~= events + before.spread(all).1);
            return;
        }
        let first = list.remove(0);
        assert(all[0] == first@);
        assert(views(list@) =~= all.skip(1));
        let (channel, text) = match first {
            StreamEmission::Content(text) => (Channel::Text, text),
            StreamEmission::Reasoning(text) => (Channel::Reasoning, text),
        };
        let mut late: Vec<(usize, ToolCall)> = Vec::new();
        late.append(&mut self.late);
        assert(views(late@) =~= before.late);
        assert(self@ =~= AssemblyView { late: Seq::empty(), ..before });
        let chars = chars_of(text.as_str());
        assert(chars@.take(chars.len() as int) =~= text@);
        assert(views(late@).take(late.len() as int) =~= before.late);
        let told = self.thread(channel, &chars, chars.len(), &late, late.len());
        tell(channel, told, out);
        self.emit_all(list, out);
        assert(views(out@) =~= events + before.spread(all).1);
    }

    /// Route stretches.
    fn emit_all(&mut self, list: Vec<StreamEmission>, out: &mut Vec<Event>)
        ensures
            final(self)@ == old(self)@.emitted_all(views(list@)).0,
            views(final(out)@) == views(old(out)@) + old(self)@.emitted_all(views(list@)).1,
    {
        let ghost before = self@;
        let ghost events = views(out@);
        let ghost all = views(list@);
        let mut i: usize = 0;
        assert(all.take(0) =~= Seq::empty());
        assert(events + Seq::<EventView>::empty() =~= events);
        while i < list.len()
            invariant
                i <= list.len(),
                all == views(list@),
                self@ == before.emitted_all(all.take(i as int)).0,
                views(out@) == events + before.emitted_all(all.take(i as int)).1,
            decreases list.len() - i,
        {
            assert(all.take(i + 1).drop_last() =~= all.take(i as int));
            assert(all.take(i + 1).last() == list@[i as int]@);
            let ghost so_far = before.emitted_all(all.take(i as int)).1;
            let ghost more = self@.emitted(list@[i as int]@.0, list@[i as int]@.1).1;
            match &list[i] {
                StreamEmission::Content(text) => self.emit(Channel::Text, text.clone(), out),
                StreamEmission::Reasoning(text) => self.emit(Channel::Reasoning, text.clone(), out),
            }
            assert(views(out@) =~= events + (so_far + more));
            i += 1;
        }
        assert(all.take(list.len() as int) =~= all);
    }

    /// Settle what could have become a marker as text.
    fn flush(&mut self, out: &mut Vec<Event>)
        ensures
            final(self)@ == old(self)@.flushed().0,
            views(final(out)@) == views(old(out)@) + old(self)@.flushed().1,
    {
        let ghost before = self@;
        let list = self.splitter.flush_pending();
        assert(self@ =~= AssemblyView {
            split: SplitView { pending: Seq::empty(), ..before.split },
            ..before
        });
        self.spread(list, out);
    }

    /// Whether any part is a call.
    fn called(&self) -> (out: bool)
        ensures
            out == (calls_in(self@.parts).len() > 0),
    {
        let ghost all = views(self.parts@);
        let mut i: usize = 0;
        assert(all.take(0) =~= Seq::empty());
        while i < self.parts.len()
            invariant
                i <= self.parts.len(),
                all == views(self.parts@),
                calls_in(all.take(i as int)).len() == 0,
            decreases self.parts.len() - i,
        {
            assert(all.take(i + 1).drop_last() =~= all.take(i as int));
            assert(all.take(i + 1).last() == self.parts@[i as int]@);
            match &self.parts[i] {
                OutputPart::ToolCall(_) => {
                    proof {
                        calls_stay(all, i + 1);
                    }
                    return true;
                },
                _ => {},
            }
            i += 1;
        }
        assert(all.take(self.parts.len() as int) =~= all);
        false
    }

    /// Whether the counters have room for an event.
    pub fn has_room_for(&self, event: &TokenEvent) -> (out: bool)
        ensures
            out == self@.has_room(event@),
    {
        match event {
            TokenEvent::ToolCall(_) => self.call_ids.next < u64::MAX,
            TokenEvent::ContextTruncated { dropped } => self.shed <= usize::MAX - *dropped,
            TokenEvent::ContextCompacted { compacted } => self.shed <= usize::MAX - *compacted,
            _ => true,
        }
    }

    /// Absorb one token event; return the semantic events it amounts to.
    pub fn push(&mut self, event: TokenEvent) -> (out: Vec<Event>)
        requires
            old(self)@.has_room(event@),
        ensures
            (final(self)@, views(out@)) == old(self)@.pushed(event@),
    {
        let ghost before = self@;
        let ghost after = before.pushed(event@);
        let mut out: Vec<Event> = Vec::new();
        assert(views(out@) =~= Seq::empty());
        match event {
            TokenEvent::Token(text) => {
                let (list, fate) = self.splitter.push_settling(text.as_str());
                assert(self@ =~= AssemblyView { split: before.split.fed(text@).0, ..before });
                match fate {
                    Fate::Held if self.late.len() > 0 => {},
                    Fate::Marker => {
                        self.place();
                        self.emit_all(list, &mut out);
                    },
                    _ => self.spread(list, &mut out),
                }
                assert(views(out@) =~= after.1);
            },
            TokenEvent::ToolCall(call) => {
                let ghost streamed = call@;
                let id = match &call.id {
                    Some(id) => if chars_of(id.as_str()).len() > 0 {
                        ToolCallId(id.clone())
                    } else {
                        self.call_ids.mint()
                    },
                    None => self.call_ids.mint(),
                };
                assert(id@ == before.id_of(streamed));
                out.push(Event::ToolCallStart { id: id.clone(), name: call.name.clone() });
                out.push(
                    Event::ToolCallArgumentsDelta {
                        id: id.clone(),
                        delta: call.arguments.clone(),
                    },
                );
                let asked = ToolCall {
                    id,
                    name: call.name,
                    arguments: Json::lenient(call.arguments.as_str()),
                };
                assert(asked@ == before.asked(streamed));
                let waiting = self.splitter.held_back();
                if waiting == 0 {
                    self.parts.push(OutputPart::ToolCall(asked.clone()));
                    assert(self@.parts =~= before.parts.push(
                        PartView::Call(before.asked(streamed)),
                    ));
                } else {
                    self.late.push((waiting, asked.clone()));
                    assert(self@.late =~= before.late.push((waiting, before.asked(streamed))));
                }
                out.push(Event::ToolCallEnd { call: asked });
                assert(self@ =~= after.0);
                assert(views(out@) =~= after.1);
            },
            TokenEvent::Stats(stats) => {
                self.stats = Some(stats);
                assert(self@ =~= after.0);
            },
            TokenEvent::ContextTruncated { dropped } => {
                self.shed = self.shed + dropped;
                assert(self@ =~= after.0);
            },
            TokenEvent::ContextCompacted { compacted } => {
                self.shed = self.shed + compacted;
                assert(self@ =~= after.0);
            },
            TokenEvent::Other => {},
        }
        out
    }

    /// The stream ended: flush, account, and name the reason.
    pub fn finish(&mut self, finish: Finish) -> (out: Vec<Event>)
        ensures
            (final(self)@, views(out@)) == old(self)@.finished(finish@),
    {
        let ghost before = self@;
        let ghost after = before.finished(finish@);
        let mut out: Vec<Event> = Vec::new();
        assert(views(out@) =~= Seq::empty());
        self.flush(&mut out);
        proof {
            spreading_keeps_the_rest(
                (AssemblyView {
                    split: SplitView { pending: Seq::empty(), ..before.split },
                    ..before
                }),
                before.split.left(),
            );
        }
        self.close_run();
        let ghost events = views(out@);
        assert(events =~= before.flushed().1);

        let stats = GenerationStats::from_reported(self.stats);
        let usage = stats.usage();
        if stats.reported() {
            out.push(Event::Usage(usage));
        }
        let ghost counted = views(out@);
        assert(counted =~= events + (match before.stats {
            Some(stats) => seq![EventView::Usage(usage_of(Some(stats)))],
            None => Seq::empty(),
        }));

        let stopped = match &finish {
            Finish::Stopped => true,
            _ => false,
        };
        let reason = if self.called() && !stopped {
            FinishReason::ToolCall
        } else {
            match &finish {
                Finish::Eos => {
                    let at_budget = stats.reported() && match self.max_tokens {
                        Some(max) => usage.completion_tokens as usize >= max,
                        None => false,
                    };
                    if at_budget {
                        FinishReason::Length
                    } else {
                        FinishReason::Stop
                    }
                },
                Finish::Stopped => FinishReason::Cancelled,
                other => FinishReason::Other(other.name()),
            }
        };
        assert(calls_in(self@.parts) == calls_in(before.parts) + asked_in(before.late));
        assert(reason@ == before.reason_for(finish@));
        out.push(Event::Finished(reason.clone()));
        self.finish_reason = Some(reason);
        assert(self@ =~= after.0);
        assert(views(out@) =~= after.1);
        out
    }

    /// The outcome, once the stream has ended.
    pub fn take(&mut self) -> (out: Assembled)
        ensures
            out.message@ == old(self)@.message_parts(),
            out.finish_reason@ == old(self)@.named_reason(),
            out.stats@ == old(self)@.stats,
            out.shed == old(self)@.shed,
            final(self)@ == old(self)@.taken(),
    {
        let ghost before = self@;
        self.place();
        let mut content: Vec<OutputPart> = Vec::new();
        content.append(&mut self.parts);
        assert(views(content@) =~= before.placed().parts);
        if content.len() == 0 {
            proof {
                reveal_strlit("");
            }
            let nothing = "".to_owned();
            assert(nothing@ =~= Seq::<char>::empty());
            content.push(OutputPart::Text(nothing));
            assert(views(content@) =~= seq![PartView::Text(Seq::empty())]);
        }
        let message = AssistantMessage { content };
        let finish_reason = match &self.finish_reason {
            Some(reason) => reason.clone(),
            None => FinishReason::Other("unfinished".to_owned()),
        };
        self.finish_reason = None;
        let stats = GenerationStats::from_reported(self.stats);
        self.stats = None;
        let shed = self.shed;
        self.shed = 0;
        assert(self@ =~= before.taken());
        Assembled { message, finish_reason, stats, shed }
    }
}

/// Whether two assemblies are the same but for the text and the calls.
pub open spec fn same_rest(a: AssemblyView, b: AssemblyView) -> bool {
    &&& a.split == b.split
    &&& a.message == b.message
    &&& a.minted == b.minted
    &&& a.stats == b.stats
    &&& a.shed == b.shed
    &&& a.max_tokens == b.max_tokens
    &&& a.reason == b.reason
}

/// Text of one channel leaves alone what it does not bear on.
pub proof fn saying_keeps_the_rest(state: AssemblyView, channel: Channel, text: Seq<char>)
    ensures
        same_rest(state.said(channel, text).0, state),
        state.said(channel, text).0.late == state.late,
        calls_in(state.said(channel, text).0.parts) == calls_in(state.parts),
{
    let body = state.said(channel, text).1;
    if body.len() > 0 {
        growing_asks_nothing(state.parts, state.open != Some(channel), channel, body);
    }
}

/// Stretches of text leave alone what they do not bear on.
pub proof fn emitting_keeps_the_rest(state: AssemblyView, list: Seq<(Channel, Seq<char>)>)
    ensures
        same_rest(state.emitted_all(list).0, state),
        state.emitted_all(list).0.late == state.late,
        calls_in(state.emitted_all(list).0.parts) == calls_in(state.parts),
    decreases list.len(),
{
    if list.len() > 0 {
        emitting_keeps_the_rest(state, list.drop_last());
        let before = state.emitted_all(list.drop_last()).0;
        saying_keeps_the_rest(before, list.last().0, list.last().1);
    }
}

/// A stretch that calls were made in adds those calls, in order.
pub proof fn threading_keeps_the_rest(
    state: AssemblyView,
    channel: Channel,
    text: Seq<char>,
    calls: Seq<(usize, AskedView)>,
)
    ensures
        same_rest(state.threaded(channel, text, calls).0, state),
        state.threaded(channel, text, calls).0.late == state.late,
        calls_in(state.threaded(channel, text, calls).0.parts) == calls_in(state.parts) + asked_in(
            calls,
        ),
    decreases calls.len(),
{
    if calls.len() == 0 {
        saying_keeps_the_rest(state, channel, text);
        assert(calls_in(state.parts) + asked_in(calls) =~= calls_in(state.parts));
    } else {
        let (k, call) = calls.last();
        let at = if k <= text.len() {
            k as int
        } else {
            text.len() as int
        };
        threading_keeps_the_rest(state, channel, text.take(at), calls.drop_last());
        let before = state.threaded(channel, text.take(at), calls.drop_last()).0;
        let parts = before.parts.push(PartView::Call(call));
        assert(parts.drop_last() =~= before.parts);
        saying_keeps_the_rest(AssemblyView { parts, ..before }, channel, text.skip(at));
        assert(calls_in(state.parts) + asked_in(calls) =~= (calls_in(state.parts) + asked_in(
            calls.drop_last(),
        )).push(call));
    }
}

/// The calls that waited are calls of the parts once they are placed.
pub proof fn placing_keeps_the_rest(state: AssemblyView)
    ensures
        same_rest(state.placed(), state),
        calls_in(state.placed().parts) == calls_in(state.parts) + asked_in(state.late),
    decreases state.late.len(),
{
    let calls = state.late;
    if calls.len() == 0 {
        assert(state.placed().parts =~= state.parts);
        assert(calls_in(state.parts) + asked_in(calls) =~= calls_in(state.parts));
    } else {
        let short = AssemblyView { late: calls.drop_last(), ..state };
        placing_keeps_the_rest(short);
        assert(state.placed().parts.drop_last() =~= short.placed().parts);
        assert(state.placed().parts.last() == PartView::Call(calls.last().1));
        assert(calls_in(state.parts) + asked_in(calls) =~= (calls_in(state.parts) + asked_in(
            calls.drop_last(),
        )).push(calls.last().1));
    }
}

/// Stretches that settle what was held back leave no call waiting.
pub proof fn spreading_keeps_the_rest(state: AssemblyView, list: Seq<(Channel, Seq<char>)>)
    ensures
        same_rest(state.spread(list).0, state),
        state.spread(list).0.late.len() == 0,
        calls_in(state.spread(list).0.parts) == calls_in(state.parts) + asked_in(state.late),
{
    if state.late.len() == 0 {
        emitting_keeps_the_rest(state, list);
        assert(calls_in(state.parts) + asked_in(state.late) =~= calls_in(state.parts));
    } else if list.len() == 0 {
        placing_keeps_the_rest(state);
    } else {
        let free = AssemblyView { late: Seq::empty(), ..state };
        threading_keeps_the_rest(free, list[0].0, list[0].1, state.late);
        let first = free.threaded(list[0].0, list[0].1, state.late).0;
        emitting_keeps_the_rest(first, list.skip(1));
    }
}

/// A fragment is no call.
proof fn growing_asks_nothing(
    parts: Seq<PartView>,
    fresh: bool,
    channel: Channel,
    chunk: Seq<char>,
)
    ensures
        calls_in(grown(parts, fresh, channel, chunk)) == calls_in(parts),
{
    let out = grown(parts, fresh, channel, chunk);
    if !fresh && parts.len() > 0 && out.len() == parts.len() {
        assert(out.drop_last() =~= parts.drop_last());
    } else {
        assert(out.drop_last() =~= parts);
    }
}

/// Calls among the first parts are among the parts.
proof fn calls_stay(parts: Seq<PartView>, n: int)
    requires
        0 <= n <= parts.len(),
    ensures
        calls_in(parts.take(n)).len() <= calls_in(parts).len(),
    decreases parts.len(),
{
    if n < parts.len() {
        calls_stay(parts.drop_last(), n);
        assert(parts.drop_last().take(n) =~= parts.take(n));
    } else {
        assert(parts.take(n) =~= parts);
    }
}

// ── The record ──────────────────────────────────────────────────────────────

/// A call the model asked for, as the transcript keeps it.
pub open spec fn kept_call(call: AskedView) -> CallView {
    CallView {
        id: call.id,
        kind: "function"@,
        description: None,
        name: call.name,
        arguments: call.arguments,
    }
}

/// The transcript message an assistant turn becomes.
pub open spec fn recorded(parts: Seq<PartView>) -> MessageView {
    if calls_in(parts).len() == 0 {
        MessageView::assistant(text_in(parts), reasoning_in(parts))
    } else {
        MessageView::assistant_calls(calls_in(parts).map_values(|call: AskedView| kept_call(call)))
    }
}

/// The transcript message an assistant turn becomes.
///
/// A turn that asked for tools is recorded as its calls, under the ids the
/// response carries, so a result pushed with a call's id answers a call the
/// transcript makes. Otherwise the visible text and the reasoning, kept apart
/// so a chat template can strip prior thinking as it prefers.
pub fn record_of(message: &AssistantMessage) -> (out: Message)
    ensures
        out@ == recorded(message@),
{
    let calls = message.tool_calls();
    let ghost all = calls_in(message@);
    assert(views(calls@) == all);
    assert(calls.len() == all.len());
    if calls.len() == 0 {
        return Message::assistant_structured(message.text().as_str(), message.reasoning());
    }
    let mut kept: Vec<message::ToolCall> = Vec::new();
    let mut i: usize = 0;
    while i < calls.len()
        invariant
            i <= calls.len(),
            kept.len() == i,
            all == views(calls@),
            forall|k: int| 0 <= k < i ==> (#[trigger] kept@[k])@ == kept_call(all[k]),
        decreases calls.len() - i,
    {
        let call: &ToolCall = calls[i];
        assert(call@ == all[i as int]);
        kept.push(
            message::ToolCall {
                id: call.id.to_string(),
                kind: "function".to_owned(),
                function: FunctionDefinition {
                    description: None,
                    name: call.name.clone(),
                    arguments: call.arguments.clone(),
                },
            },
        );
        i += 1;
    }
    assert(views(kept@) =~= all.map_values(|call: AskedView| kept_call(call)));
    Message::assistant_tool_calls(kept)
}

} // verus!
