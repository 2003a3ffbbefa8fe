//! What a model produced: structured assistant output, usage, and timing.
//!
//! Text, reasoning, and tool calls are separate parts, so a harness never
//! parses model-protocol syntax out of a string to find out what the model
//! asked for.
use vstd::prelude::*;
use vstd::string::*;
use crate::json::Json;
use crate::seqs::{group_views, view_of, views};
use crate::stream::ExecutionStats;

verus! {

broadcast use group_views;

/// Identifies one tool call within a session.
///
/// Providers that number their calls supply the id; models using native tool
/// syntax do not, and one is minted from the session's message counter
/// (`call_<message>_<n>`).
#[derive(Debug, PartialEq, Eq, Hash)]
pub struct ToolCallId(pub String);

impl View for ToolCallId {
    type V = Seq<char>;

    open spec fn view(&self) -> Seq<char> {
        self.0@
    }
}

impl Clone for ToolCallId {
    fn clone(&self) -> (out: Self)
        ensures
            out == *self,
    {
        ToolCallId(self.0.clone())
    }
}

impl ToolCallId {
    /// The id as text.
    pub fn as_str(&self) -> (out: &str)
        ensures
            out@ == self@,
    {
        self.0.as_str()
    }

    /// The id as text of its own.
    pub fn to_string(&self) -> (out: String)
        ensures
            out@ == self@,
    {
        self.0.clone()
    }
}

/// A tool the model asked to call.
#[derive(Debug, PartialEq, Eq)]
pub struct ToolCall {
    /// Distinct within a response, so a result can be matched to its call
    /// even when several were asked for at once.
    pub id: ToolCallId,
    /// The tool's name, as declared.
    pub name: String,
    /// The arguments. A string when the model emitted something that was not
    /// JSON, so a malformed call is still visible rather than dropped.
    pub arguments: Json,
}

/// A call the model asked for, mathematically.
pub struct AskedView {
    pub id: Seq<char>,
    pub name: Seq<char>,
    pub arguments: Seq<char>,
}

impl View for ToolCall {
    type V = AskedView;

    open spec fn view(&self) -> AskedView {
        AskedView { id: self.id@, name: self.name@, arguments: self.arguments@ }
    }
}

impl Clone for ToolCall {
    fn clone(&self) -> (out: Self)
        ensures
            out@ == self@,
    {
        ToolCall {
            id: self.id.clone(),
            name: self.name.clone(),
            arguments: self.arguments.clone(),
        }
    }
}

impl ToolCall {
    /// The id a result is pushed under.
    pub fn id(&self) -> (out: &ToolCallId)
        ensures
            *out == self.id,
    {
        &self.id
    }

    /// The tool's name, as declared.
    pub fn name(&self) -> (out: &str)
        ensures
            out@ == self@.name,
    {
        self.name.as_str()
    }

    /// The arguments, as JSON.
    pub fn arguments(&self) -> (out: &Json)
        ensures
            *out == self.arguments,
    {
        &self.arguments
    }
}

/// One piece of assistant output.
#[derive(Debug, PartialEq, Eq)]
pub enum OutputPart {
    /// Visible reply text.
    Text(String),
    /// The reasoning channel, when the model exposes one.
    Reasoning(String),
    /// A request to call a tool. The caller runs it, or does not.
    ToolCall(ToolCall),
}

/// A part, mathematically.
pub enum PartView {
    Text(Seq<char>),
    Reasoning(Seq<char>),
    Call(AskedView),
}

impl View for OutputPart {
    type V = PartView;

    open spec fn view(&self) -> PartView {
        match self {
            OutputPart::Text(text) => PartView::Text(text@),
            OutputPart::Reasoning(text) => PartView::Reasoning(text@),
            OutputPart::ToolCall(call) => PartView::Call(call@),
        }
    }
}

impl Clone for OutputPart {
    fn clone(&self) -> (out: Self)
        ensures
            out@ == self@,
    {
        match self {
            OutputPart::Text(text) => OutputPart::Text(text.clone()),
            OutputPart::Reasoning(text) => OutputPart::Reasoning(text.clone()),
            OutputPart::ToolCall(call) => OutputPart::ToolCall(call.clone()),
        }
    }
}

/// Every text part, one after the other.
pub open spec fn text_in(parts: Seq<PartView>) -> Seq<char>
    decreases parts.len(),
{
    if parts.len() == 0 {
        Seq::empty()
    } else {
        match parts.last() {
            PartView::Text(text) => text_in(parts.drop_last()) + text,
            _ => text_in(parts.drop_last()),
        }
    }
}

/// Every reasoning part, one after the other. `None` where there is none.
pub open spec fn reasoning_in(parts: Seq<PartView>) -> Option<Seq<char>>
    decreases parts.len(),
{
    if parts.len() == 0 {
        None
    } else {
        let before = reasoning_in(parts.drop_last());
        match parts.last() {
            PartView::Reasoning(text) => Some(
                match before {
                    Some(head) => head + text,
                    None => text,
                },
            ),
            _ => before,
        }
    }
}

/// The tool calls, in order.
pub open spec fn calls_in(parts: Seq<PartView>) -> Seq<AskedView>
    decreases parts.len(),
{
    if parts.len() == 0 {
        Seq::empty()
    } else {
        match parts.last() {
            PartView::Call(call) => calls_in(parts.drop_last()).push(call),
            _ => calls_in(parts.drop_last()),
        }
    }
}

/// An assistant turn, as parts.
#[derive(Debug, PartialEq, Eq)]
pub struct AssistantMessage {
    /// The parts, in the order the model produced them.
    pub content: Vec<OutputPart>,
}

impl View for AssistantMessage {
    type V = Seq<PartView>;

    open spec fn view(&self) -> Seq<PartView> {
        views(self.content@)
    }
}

impl Clone for AssistantMessage {
    fn clone(&self) -> (out: Self)
        ensures
            out@ == self@,
    {
        let content = self.content.clone();
        assert(views(content@) =~= views(self.content@));
        AssistantMessage { content }
    }
}

impl Default for AssistantMessage {
    fn default() -> (out: Self)
        ensures
            out@ == Seq::<PartView>::empty(),
    {
        let out = AssistantMessage { content: Vec::new() };
        assert(out@ =~= Seq::<PartView>::empty());
        out
    }
}

impl AssistantMessage {
    /// Every text part, concatenated. Reasoning and tool calls are excluded.
    pub fn text(&self) -> (out: String)
        ensures
            out@ == text_in(self@),
    {
        let ghost all = views(self.content@);
        let mut out = "".to_owned();
        let mut i: usize = 0;
        proof {
            reveal_strlit("");
        }
        assert(all.take(0) =~= Seq::empty());
        assert(out@ =~= Seq::<char>::empty());
        while i < self.content.len()
            invariant
                i <= self.content.len(),
                all == views(self.content@),
                out@ == text_in(all.take(i as int)),
            decreases self.content.len() - i,
        {
            assert(all.take(i + 1).drop_last() =~= all.take(i as int));
            assert(all.take(i + 1).last() == self.content@[i as int]@);
            match &self.content[i] {
                OutputPart::Text(text) => out.append(text.as_str()),
                _ => {},
            }
            i += 1;
        }
        assert(all.take(self.content.len() as int) =~= all);
        out
    }

    /// Every reasoning part, concatenated. `None` when the model produced no
    /// reasoning channel.
    pub fn reasoning(&self) -> (out: Option<String>)
        ensures
            view_of(out) == reasoning_in(self@),
    {
        let ghost all = views(self.content@);
        let mut out: Option<String> = None;
        let mut i: usize = 0;
        assert(all.take(0) =~= Seq::empty());
        while i < self.content.len()
            invariant
                i <= self.content.len(),
                all == views(self.content@),
                view_of(out) == reasoning_in(all.take(i as int)),
            decreases self.content.len() - i,
        {
            assert(all.take(i + 1).drop_last() =~= all.take(i as int));
            assert(all.take(i + 1).last() == self.content@[i as int]@);
            match &self.content[i] {
                OutputPart::Reasoning(text) => {
                    out = Some(
                        match &out {
                            Some(head) => head.clone().concat(text.as_str()),
                            None => text.clone(),
                        },
                    );
                },
                _ => {},
            }
            i += 1;
        }
        assert(all.take(self.content.len() as int) =~= all);
        out
    }

    /// The tool calls, in order.
    pub fn tool_calls(&self) -> (out: Vec<&ToolCall>)
        ensures
            views(out@) == calls_in(self@),
    {
        let ghost all = views(self.content@);
        let mut out: Vec<&ToolCall> = Vec::new();
        let mut i: usize = 0;
        assert(all.take(0) =~= Seq::empty());
        assert(views(out@) =~= Seq::empty());
        while i < self.content.len()
            invariant
                i <= self.content.len(),
                all == views(self.content@),
                views(out@) == calls_in(all.take(i as int)),
            decreases self.content.len() - i,
        {
            assert(all.take(i + 1).drop_last() =~= all.take(i as int));
            assert(all.take(i + 1).last() == self.content@[i as int]@);
            match &self.content[i] {
                OutputPart::ToolCall(call) => {
                    out.push(call);
                },
                _ => {},
            }
            i += 1;
        }
        assert(all.take(self.content.len() as int) =~= all);
        out
    }
}

/// Why a generation ended.
///
/// Backend-specific reasons are normalised where possible; what could not be
/// normalised arrives as [`FinishReason::Other`].
#[derive(Debug, PartialEq, Eq)]
pub enum FinishReason {
    /// The model finished its reply.
    Stop,
    /// The token budget ran out first.
    Length,
    /// The model asked for one or more tools and is waiting on the results.
    ToolCall,
    /// Stopped on request. Whatever was produced before is kept.
    Cancelled,
    /// The provider withheld the output.
    ContentFilter,
    /// The generation failed after it had begun.
    Error,
    /// Something this enum has no name for. The payload is the raw reason.
    Other(String),
}

/// A reason, mathematically.
pub enum ReasonView {
    Stop,
    Length,
    ToolCall,
    Cancelled,
    ContentFilter,
    Error,
    Other(Seq<char>),
}

impl View for FinishReason {
    type V = ReasonView;

    open spec fn view(&self) -> ReasonView {
        match self {
            FinishReason::Stop => ReasonView::Stop,
            FinishReason::Length => ReasonView::Length,
            FinishReason::ToolCall => ReasonView::ToolCall,
            FinishReason::Cancelled => ReasonView::Cancelled,
            FinishReason::ContentFilter => ReasonView::ContentFilter,
            FinishReason::Error => ReasonView::Error,
            FinishReason::Other(reason) => ReasonView::Other(reason@),
        }
    }
}

impl Clone for FinishReason {
    fn clone(&self) -> (out: Self)
        ensures
            out == *self,
    {
        match self {
            FinishReason::Stop => FinishReason::Stop,
            FinishReason::Length => FinishReason::Length,
            FinishReason::ToolCall => FinishReason::ToolCall,
            FinishReason::Cancelled => FinishReason::Cancelled,
            FinishReason::ContentFilter => FinishReason::ContentFilter,
            FinishReason::Error => FinishReason::Error,
            FinishReason::Other(reason) => FinishReason::Other(reason.clone()),
        }
    }
}

impl ReasonView {
    /// The reason in words.
    pub open spec fn words(self) -> Seq<char> {
        match self {
            ReasonView::Stop => "stop"@,
            ReasonView::Length => "length"@,
            ReasonView::ToolCall => "tool_call"@,
            ReasonView::Cancelled => "cancelled"@,
            ReasonView::ContentFilter => "content_filter"@,
            ReasonView::Error => "error"@,
            ReasonView::Other(reason) => "other("@ + reason + ")"@,
        }
    }
}

impl FinishReason {
    /// The reason in words.
    pub fn to_string(&self) -> (out: String)
        ensures
            out@ == self@.words(),
    {
        match self {
            FinishReason::Stop => "stop".to_owned(),
            FinishReason::Length => "length".to_owned(),
            FinishReason::ToolCall => "tool_call".to_owned(),
            FinishReason::Cancelled => "cancelled".to_owned(),
            FinishReason::ContentFilter => "content_filter".to_owned(),
            FinishReason::Error => "error".to_owned(),
            FinishReason::Other(reason) => "other(".to_owned().concat(reason.as_str()).concat(")"),
        }
    }
}

/// Token accounting for one generation.
#[derive(Debug, Clone, Copy, PartialEq, Eq)]
pub struct Usage {
    /// Tokens in the prompt, including anything the backend prepended.
    pub prompt_tokens: u32,
    /// Tokens the model generated.
    pub completion_tokens: u32,
}

impl Default for Usage {
    fn default() -> (out: Self)
        ensures
            out == (Usage { prompt_tokens: 0, completion_tokens: 0 }),
    {
        Usage { prompt_tokens: 0, completion_tokens: 0 }
    }
}

impl Usage {
    /// Prompt plus completion.
    pub fn total_tokens(&self) -> (out: u32)
        requires
            self.prompt_tokens + self.completion_tokens <= u32::MAX,
        ensures
            out == self.prompt_tokens + self.completion_tokens,
    {
        self.prompt_tokens + self.completion_tokens
    }
}

/// Timing and throughput for one generation.
///
/// A view over the engine's [`ExecutionStats`], which is what every backend
/// already reports; nothing is measured twice. Zero everywhere when the
/// backend reported nothing, which [`GenerationStats::reported`] says.
#[derive(Debug, Clone, Copy, PartialEq, Eq)]
pub struct GenerationStats {
    inner: ExecutionStats,
    reported: bool,
}

impl View for GenerationStats {
    type V = Option<ExecutionStats>;

    closed spec fn view(&self) -> Option<ExecutionStats> {
        if self.reported {
            Some(self.inner)
        } else {
            None
        }
    }
}

/// The token counts of what was measured.
pub open spec fn usage_of(stats: Option<ExecutionStats>) -> Usage {
    match stats {
        Some(s) => Usage { prompt_tokens: s.prompt_tokens, completion_tokens: s.decode_tokens },
        None => Usage { prompt_tokens: 0, completion_tokens: 0 },
    }
}

impl Default for GenerationStats {
    fn default() -> (out: Self)
        ensures
            out@ is None,
    {
        GenerationStats { inner: ExecutionStats::default(), reported: false }
    }
}

impl GenerationStats {
    /// Zero everywhere where nothing was reported.
    #[verifier::type_invariant]
    spec fn zero_unless_reported(self) -> bool {
        !self.reported ==> self.inner == (ExecutionStats {
            prompt_tokens: 0,
            decode_tokens: 0,
            first_token_us: 0,
            reasoning_ms: None,
        })
    }

    /// What the backend reported, or nothing.
    pub fn from_reported(stats: Option<ExecutionStats>) -> (out: Self)
        ensures
            out@ == stats,
    {
        match stats {
            Some(inner) => GenerationStats { inner, reported: true },
            None => GenerationStats::default(),
        }
    }

    /// Whether the backend reported any statistics at all.
    pub fn reported(&self) -> (out: bool)
        ensures
            out == (self@ is Some),
    {
        self.reported
    }

    /// Microseconds from the request to the first generated token.
    pub fn time_to_first_token(&self) -> (out: Option<u64>)
        ensures
            out == (match self@ {
                Some(s) => Some(s.first_token_us),
                None => None,
            }),
    {
        if self.reported {
            Some(self.inner.first_token_us)
        } else {
            None
        }
    }

    /// Milliseconds the reasoning channel streamed before visible content,
    /// when the transport measured it.
    pub fn reasoning_time(&self) -> (out: Option<u64>)
        ensures
            out == (match self@ {
                Some(s) => s.reasoning_ms,
                None => None,
            }),
    {
        proof {
            use_type_invariant(self);
        }
        self.inner.reasoning_ms
    }

    /// Token counts, as [`Usage`].
    pub fn usage(&self) -> (out: Usage)
        ensures
            out == usage_of(self@),
    {
        proof {
            use_type_invariant(self);
        }
        Usage {
            prompt_tokens: self.inner.prompt_tokens,
            completion_tokens: self.inner.decode_tokens,
        }
    }

    /// The engine's own record, for what the accessors above do not cover.
    pub fn execution(&self) -> (out: &ExecutionStats)
        ensures
            *out == (match self@ {
                Some(s) => s,
                None => ExecutionStats {
                    prompt_tokens: 0,
                    decode_tokens: 0,
                    first_token_us: 0,
                    reasoning_ms: None,
                },
            }),
    {
        proof {
            use_type_invariant(self);
        }
        &self.inner
    }
}

impl From<ExecutionStats> for GenerationStats {
    fn from(inner: ExecutionStats) -> (out: Self) {
        GenerationStats { inner, reported: true }
    }
}

impl vstd::std_specs::convert::FromSpecImpl<ExecutionStats> for GenerationStats {
    open spec fn obeys_from_spec() -> bool {
        true
    }

    closed spec fn from_spec(inner: ExecutionStats) -> GenerationStats {
        GenerationStats { inner, reported: true }
    }
}

/// What is made of reported statistics says they were reported.
pub proof fn from_is_reported(stats: ExecutionStats)
    ensures
        <GenerationStats as vstd::std_specs::convert::FromSpec<ExecutionStats>>::from_spec(stats)@
            == Some(stats),
{
}

// ── Laws ────────────────────────────────────────────────────────────────────

/// What two optional texts say together.
pub open spec fn both_said(a: Option<Seq<char>>, b: Option<Seq<char>>) -> Option<Seq<char>> {
    match (a, b) {
        (Some(x), Some(y)) => Some(x + y),
        (Some(x), None) => Some(x),
        (None, y) => y,
    }
}

/// The text, the reasoning and the calls of a reply are those of its parts in
/// turn, and each part counts as what it is.
pub proof fn a_reply_is_read_part_by_part(
    a: Seq<PartView>,
    b: Seq<PartView>,
    words: Seq<char>,
    call: AskedView,
)
    ensures
        text_in(a + b) == text_in(a) + text_in(b),
        reasoning_in(a + b) == both_said(reasoning_in(a), reasoning_in(b)),
        calls_in(a + b) == calls_in(a) + calls_in(b),
        text_in(seq![PartView::Text(words)]) == words,
        reasoning_in(seq![PartView::Text(words)]) is None,
        calls_in(seq![PartView::Text(words)]).len() == 0,
        text_in(seq![PartView::Reasoning(words)]).len() == 0,
        reasoning_in(seq![PartView::Reasoning(words)]) == Some(words),
        calls_in(seq![PartView::Reasoning(words)]).len() == 0,
        text_in(seq![PartView::Call(call)]).len() == 0,
        reasoning_in(seq![PartView::Call(call)]) is None,
        calls_in(seq![PartView::Call(call)]) == seq![call],
    decreases b.len(),
{
    let none = Seq::<PartView>::empty();
    assert(seq![PartView::Text(words)].drop_last() =~= none);
    assert(seq![PartView::Reasoning(words)].drop_last() =~= none);
    assert(seq![PartView::Call(call)].drop_last() =~= none);
    assert(text_in(none) + words =~= words);
    assert(reasoning_in(none) is None);
    assert(calls_in(none).push(call) =~= seq![call]);
    if b.len() == 0 {
        assert(a + b =~= a);
        assert(text_in(a) + text_in(b) =~= text_in(a));
        assert(calls_in(a) + calls_in(b) =~= calls_in(a));
    } else {
        let init = b.drop_last();
        a_reply_is_read_part_by_part(a, init, words, call);
        assert((a + b).drop_last() =~= a + init);
        assert(text_in(a + b) =~= text_in(a) + text_in(b));
        assert(calls_in(a + b) =~= calls_in(a) + calls_in(b));
        match b.last() {
            PartView::Reasoning(text) => {
                if let Some(x) = reasoning_in(a) {
                    if let Some(y) = reasoning_in(init) {
                        assert((x + y) + text =~= x + (y + text));
                    }
                }
            },
            _ => {},
        }
    }
}

/// Usage repeats the two token counts that were reported, and is zero where
/// nothing was.
pub proof fn usage_repeats_the_counts(stats: Option<ExecutionStats>)
    ensures
        match stats {
            Some(s) => usage_of(stats).prompt_tokens == s.prompt_tokens
                && usage_of(stats).completion_tokens == s.decode_tokens,
            None => usage_of(stats).prompt_tokens == 0 && usage_of(stats).completion_tokens == 0,
        },
{
}

} // verus!
