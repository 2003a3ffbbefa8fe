//! [`Response`] — everything one generation produced.
use vstd::prelude::*;
use vstd::string::*;
use crate::output::{
    calls_in, reasoning_in, text_in, usage_of, AssistantMessage, FinishReason, GenerationStats,
    PartView, ReasonView, ToolCall, Usage,
};
use crate::seqs::{group_views, view_of, views};
use crate::session_model::MessageId;
use crate::stream::ExecutionStats;

verus! {

broadcast use group_views;

/// The outcome of a generation: the structured message, why it ended, and
/// what it cost.
#[derive(Debug, PartialEq, Eq)]
pub struct Response {
    /// What the model said, as parts.
    pub message: AssistantMessage,
    /// Why it stopped.
    pub finish_reason: FinishReason,
    /// Token accounting.
    pub usage: Usage,
    /// Timing and throughput.
    pub stats: GenerationStats,
    /// The id of the assistant message this turn appended to its session.
    ///
    /// `None` for one-shot generation, whose session is discarded, and for a
    /// cancelled turn that had produced nothing worth recording.
    pub message_id: Option<MessageId>,
}

/// A response, mathematically.
pub struct ResponseView {
    pub parts: Seq<PartView>,
    pub reason: ReasonView,
    pub usage: Usage,
    pub stats: Option<ExecutionStats>,
    pub message_id: Option<MessageId>,
}

impl View for Response {
    type V = ResponseView;

    open spec fn view(&self) -> ResponseView {
        ResponseView {
            parts: self.message@,
            reason: self.finish_reason@,
            usage: self.usage,
            stats: self.stats@,
            message_id: self.message_id,
        }
    }
}

impl Response {
    /// The visible reply text — every text part, concatenated. Reasoning and
    /// tool calls are not in it.
    pub fn text(&self) -> (out: String)
        ensures
            out@ == text_in(self@.parts),
    {
        self.message.text()
    }

    /// The reasoning channel, when the model produced one.
    pub fn reasoning(&self) -> (out: Option<String>)
        ensures
            view_of(out) == reasoning_in(self@.parts),
    {
        self.message.reasoning()
    }

    /// The tool calls the model asked for, in order. Empty when it answered.
    pub fn tool_calls(&self) -> (out: Vec<&ToolCall>)
        ensures
            views(out@) == calls_in(self@.parts),
    {
        self.message.tool_calls()
    }

    /// Why the generation ended.
    pub fn finish_reason(&self) -> (out: &FinishReason)
        ensures
            *out == self.finish_reason,
    {
        &self.finish_reason
    }

    /// Token accounting.
    pub fn usage(&self) -> (out: Usage)
        ensures
            out == self.usage,
    {
        self.usage
    }

    /// Timing and throughput.
    pub fn stats(&self) -> (out: &GenerationStats)
        ensures
            *out == self.stats,
    {
        &self.stats
    }

    /// The id of the assistant message recorded in the session, when one was.
    pub fn message_id(&self) -> (out: Option<MessageId>)
        ensures
            out == self.message_id,
    {
        self.message_id
    }

    /// Build from what the event assembler produced.
    pub fn assembled(
        message: AssistantMessage,
        finish_reason: FinishReason,
        stats: GenerationStats,
        message_id: Option<MessageId>,
    ) -> (out: Self)
        ensures
            out@ == (ResponseView {
                parts: message@,
                reason: finish_reason@,
                usage: usage_of(stats@),
                stats: stats@,
                message_id,
            }),
            out.stats == stats,
    {
        Response { usage: stats.usage(), message, finish_reason, stats, message_id }
    }

    /// The same response with no session id: one-shot generation throws its
    /// session away, so the id would name nothing a caller can reach.
    pub fn detached(self) -> (out: Self)
        ensures
            out@ == (ResponseView { message_id: None, ..self@ }),
    {
        Response {
            message: self.message,
            finish_reason: self.finish_reason,
            usage: self.usage,
            stats: self.stats,
            message_id: None,
        }
    }
}

} // verus!
