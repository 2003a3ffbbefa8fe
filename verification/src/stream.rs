//! What a backend streams, and what a whole turn amounts to.
use vstd::prelude::*;
use vstd::string::*;
use crate::message::copy_text;
use crate::seqs::{group_views, view_of, views};
use crate::text::{decimal, push_decimal};

verus! {

broadcast use group_views;

/// A text as Rust's `Debug` writes it, in quotes with escapes.
pub uninterp spec fn debug_of(text: Seq<char>) -> Seq<char>;

/// `format!("{:?}", ..)` of a text.
///
/// Claimed: what is written depends on the text alone.
#[verifier::external_body]
pub(crate) fn debug_text(text: &str) -> (out: String)
    ensures
        out@ == debug_of(text@),
{
    format!("{:?}", text)
}

/// The limit a run hit.
#[derive(Debug, Clone, Copy, PartialEq, Eq)]
pub enum Budget {
    /// The rounds of generate-and-call.
    Steps,
    /// The tokens generated.
    Tokens,
    /// The wall clock.
    Deadline,
}

/// Why a run was given up.
#[derive(Debug, PartialEq, Eq)]
pub enum Struggle {
    /// The same call with the same arguments, over and over.
    RepeatingCall {
        /// The tool.
        tool: String,
        /// How often.
        times: usize,
    },
}

/// Why a turn or a run ended.
#[derive(Debug, PartialEq, Eq)]
pub enum Finish {
    /// The model finished its reply.
    Eos,
    /// Stopped on request.
    Stopped,
    /// Still asking for tools, with no rounds left.
    ToolDepthReached,
    /// A limit was hit.
    OutOfBudget(Budget),
    /// No progress was being made.
    GaveUp(Struggle),
}

/// A finish, mathematically.
pub enum FinishView {
    Eos,
    Stopped,
    ToolDepthReached,
    OutOfBudget(Budget),
    GaveUp { tool: Seq<char>, times: usize },
}

impl View for Finish {
    type V = FinishView;

    open spec fn view(&self) -> FinishView {
        match self {
            Finish::Eos => FinishView::Eos,
            Finish::Stopped => FinishView::Stopped,
            Finish::ToolDepthReached => FinishView::ToolDepthReached,
            Finish::OutOfBudget(budget) => FinishView::OutOfBudget(*budget),
            Finish::GaveUp(Struggle::RepeatingCall { tool, times }) => FinishView::GaveUp {
                tool: tool@,
                times: *times,
            },
        }
    }
}

impl Clone for Finish {
    fn clone(&self) -> (out: Self)
        ensures
            out == *self,
    {
        match self {
            Finish::Eos => Finish::Eos,
            Finish::Stopped => Finish::Stopped,
            Finish::ToolDepthReached => Finish::ToolDepthReached,
            Finish::OutOfBudget(budget) => Finish::OutOfBudget(*budget),
            Finish::GaveUp(Struggle::RepeatingCall { tool, times }) => Finish::GaveUp(
                Struggle::RepeatingCall { tool: tool.clone(), times: *times },
            ),
        }
    }
}

impl Default for Finish {
    fn default() -> (out: Self)
        ensures
            out == Finish::Eos,
    {
        Finish::Eos
    }
}

/// The name of a finish on a repeated call, given the tool as it is shown.
pub open spec fn repeating(shown: Seq<char>, times: usize) -> Seq<char> {
    "GaveUp(RepeatingCall { tool: "@ + shown + ", times: "@ + decimal(times as nat) + " })"@
}

/// The name of a finish on a repeated call, given the tool as it is shown.
pub fn repeating_name(shown: &str, times: usize) -> (out: String)
    ensures
        out@ == repeating(shown@, times),
{
    let mut out = "GaveUp(RepeatingCall { tool: ".to_owned();
    out.append(shown);
    out.append(", times: ");
    push_decimal(&mut out, times as u64);
    out.append(" })");
    out
}

impl FinishView {
    /// The finish by its name.
    pub open spec fn named(self) -> Seq<char> {
        match self {
            FinishView::Eos => "Eos"@,
            FinishView::Stopped => "Stopped"@,
            FinishView::ToolDepthReached => "ToolDepthReached"@,
            FinishView::OutOfBudget(Budget::Steps) => "OutOfBudget(Steps)"@,
            FinishView::OutOfBudget(Budget::Tokens) => "OutOfBudget(Tokens)"@,
            FinishView::OutOfBudget(Budget::Deadline) => "OutOfBudget(Deadline)"@,
            FinishView::GaveUp { tool, times } => repeating(debug_of(tool), times),
        }
    }
}

impl Finish {
    /// The finish by its name, as `Debug` writes it.
    pub fn name(&self) -> (out: String)
        ensures
            out@ == self@.named(),
    {
        match self {
            Finish::Eos => "Eos".to_owned(),
            Finish::Stopped => "Stopped".to_owned(),
            Finish::ToolDepthReached => "ToolDepthReached".to_owned(),
            Finish::OutOfBudget(Budget::Steps) => "OutOfBudget(Steps)".to_owned(),
            Finish::OutOfBudget(Budget::Tokens) => "OutOfBudget(Tokens)".to_owned(),
            Finish::OutOfBudget(Budget::Deadline) => "OutOfBudget(Deadline)".to_owned(),
            Finish::GaveUp(Struggle::RepeatingCall { tool, times }) => {
                repeating_name(debug_text(tool.as_str()).as_str(), *times)
            },
        }
    }
}

/// What a backend measured of one turn. Throughput, a fraction, is not kept
/// here.
#[derive(Debug, Clone, Copy, PartialEq, Eq)]
pub struct ExecutionStats {
    /// Tokens in the prompt.
    pub prompt_tokens: u32,
    /// Tokens generated.
    pub decode_tokens: u32,
    /// Microseconds from the request to the first generated token.
    pub first_token_us: u64,
    /// Milliseconds the reasoning channel streamed before visible content.
    pub reasoning_ms: Option<u64>,
}

impl Default for ExecutionStats {
    fn default() -> (out: Self)
        ensures
            out == (ExecutionStats {
                prompt_tokens: 0,
                decode_tokens: 0,
                first_token_us: 0,
                reasoning_ms: None,
            }),
    {
        ExecutionStats { prompt_tokens: 0, decode_tokens: 0, first_token_us: 0, reasoning_ms: None }
    }
}

/// A tool call as a backend streams it: the arguments are the text the model
/// wrote.
#[derive(Debug, PartialEq, Eq)]
pub struct StreamToolCall {
    /// The provider's id for it, when it numbers its calls.
    pub id: Option<String>,
    /// The tool named.
    pub name: String,
    /// The arguments, as written.
    pub arguments: String,
}

/// A streamed call, mathematically.
pub struct StreamCallView {
    pub id: Option<Seq<char>>,
    pub name: Seq<char>,
    pub arguments: Seq<char>,
}

impl View for StreamToolCall {
    type V = StreamCallView;

    open spec fn view(&self) -> StreamCallView {
        StreamCallView { id: view_of(self.id), name: self.name@, arguments: self.arguments@ }
    }
}

impl Clone for StreamToolCall {
    fn clone(&self) -> (out: Self)
        ensures
            out == *self,
    {
        StreamToolCall {
            id: copy_text(&self.id),
            name: self.name.clone(),
            arguments: self.arguments.clone(),
        }
    }
}

/// One thing a backend streams.
#[derive(Debug, PartialEq, Eq)]
pub enum TokenEvent {
    /// A fragment of text.
    Token(String),
    /// A complete tool call.
    ToolCall(StreamToolCall),
    /// What the turn measured.
    Stats(ExecutionStats),
    /// Messages were dropped to fit the context.
    ContextTruncated {
        /// How many.
        dropped: usize,
    },
    /// Messages were summarised to fit the context.
    ContextCompacted {
        /// How many.
        compacted: usize,
    },
    /// Anything that does not bear on what was said.
    Other,
}

/// A streamed thing, mathematically.
pub enum TokenEventView {
    Token(Seq<char>),
    ToolCall(StreamCallView),
    Stats(ExecutionStats),
    Truncated(usize),
    Compacted(usize),
    Other,
}

impl View for TokenEvent {
    type V = TokenEventView;

    open spec fn view(&self) -> TokenEventView {
        match self {
            TokenEvent::Token(text) => TokenEventView::Token(text@),
            TokenEvent::ToolCall(call) => TokenEventView::ToolCall(call@),
            TokenEvent::Stats(stats) => TokenEventView::Stats(*stats),
            TokenEvent::ContextTruncated { dropped } => TokenEventView::Truncated(*dropped),
            TokenEvent::ContextCompacted { compacted } => TokenEventView::Compacted(*compacted),
            TokenEvent::Other => TokenEventView::Other,
        }
    }
}

/// What a whole turn, or a whole run, amounted to.
#[derive(Debug, PartialEq, Eq)]
pub struct Completion {
    /// What the model said last.
    pub text: String,
    /// The tool calls of the last turn.
    pub tool_calls: Vec<StreamToolCall>,
    /// Why it ended.
    pub finish: Finish,
    /// What was measured.
    pub stats: Option<ExecutionStats>,
    /// How many messages were dropped to fit the context.
    pub dropped: usize,
    /// How many messages were summarised to fit the context.
    pub compacted: usize,
    /// How many rounds of tool calls were run.
    pub tool_rounds: usize,
}

/// A completion, mathematically.
#[verifier::ext_equal]
pub struct CompletionView {
    pub text: Seq<char>,
    pub tool_calls: Seq<StreamCallView>,
    pub finish: FinishView,
    pub stats: Option<ExecutionStats>,
    pub dropped: nat,
    pub compacted: nat,
    pub tool_rounds: nat,
}

impl View for Completion {
    type V = CompletionView;

    open spec fn view(&self) -> CompletionView {
        CompletionView {
            text: self.text@,
            tool_calls: views(self.tool_calls@),
            finish: self.finish@,
            stats: self.stats,
            dropped: self.dropped as nat,
            compacted: self.compacted as nat,
            tool_rounds: self.tool_rounds as nat,
        }
    }
}

impl CompletionView {
    /// Nothing yet.
    pub open spec fn blank() -> CompletionView {
        CompletionView {
            text: Seq::empty(),
            tool_calls: Seq::empty(),
            finish: FinishView::Eos,
            stats: None,
            dropped: 0,
            compacted: 0,
            tool_rounds: 0,
        }
    }

    /// The tokens the turn generated, none where nothing was measured.
    pub open spec fn tokens(self) -> nat {
        match self.stats {
            Some(stats) => stats.decode_tokens as nat,
            None => 0,
        }
    }
}

impl Default for Completion {
    fn default() -> (out: Self)
        ensures
            out@ == CompletionView::blank(),
    {
        let out = Completion {
            text: "".to_owned(),
            tool_calls: Vec::new(),
            finish: Finish::Eos,
            stats: None,
            dropped: 0,
            compacted: 0,
            tool_rounds: 0,
        };
        proof {
            reveal_strlit("");
        }
        assert(out@ =~= CompletionView::blank());
        out
    }
}

/// A finish goes by its own name.
pub proof fn a_finish_is_named_for_what_it_is(finish: FinishView)
    ensures
        finish == FinishView::Eos ==> finish.named() == "Eos"@,
        finish == FinishView::Stopped ==> finish.named() == "Stopped"@,
        finish == FinishView::ToolDepthReached ==> finish.named() == "ToolDepthReached"@,
        finish == FinishView::OutOfBudget(Budget::Steps) ==> finish.named()
            == "OutOfBudget(Steps)"@,
        finish == FinishView::OutOfBudget(Budget::Tokens) ==> finish.named()
            == "OutOfBudget(Tokens)"@,
        finish == FinishView::OutOfBudget(Budget::Deadline) ==> finish.named()
            == "OutOfBudget(Deadline)"@,
        finish matches FinishView::GaveUp { tool, times } ==> finish.named()
            == "GaveUp(RepeatingCall { tool: "@ + debug_of(tool) + ", times: "@ + decimal(
            times as nat,
        ) + " })"@,
{
}

/// A completion that has not begun says nothing, calls nothing and costs
/// nothing; one that was measured costs the tokens that were generated.
pub proof fn what_a_completion_costs(turn: CompletionView)
    ensures
        CompletionView::blank().text.len() == 0,
        CompletionView::blank().tool_calls.len() == 0,
        CompletionView::blank().stats is None,
        CompletionView::blank().dropped == 0,
        CompletionView::blank().compacted == 0,
        turn.stats is None ==> turn.tokens() == 0,
        turn.stats matches Some(stats) ==> turn.tokens() == stats.decode_tokens,
{
}

} // verus!
