//! One turn against a conversation: what is sent, what is recorded, and the
//! loop that runs tools until the model answers.
use vstd::prelude::*;
use vstd::string::*;
use crate::agent_run::{asked_message, calls_message};
use crate::generation::{GenSpec, GenView, GrammarSpec, Sampling, ThinkingMode};
use crate::message::{BodyView, Message, MessageView};
use crate::seqs::{group_views, views};
use crate::session::Session;
use crate::session_facts::push_valid;
use crate::session_model::SessionState;
use crate::stream::{Completion, CompletionView, Finish, FinishView, StreamToolCall};
use crate::tools::{WireToolSpec, WireView};

verus! {

broadcast use group_views;

/// Rounds of tool calls a turn may run before giving up.
///
/// Deep enough for a genuine multi-step task, shallow enough that a model
/// stuck in a call/re-call loop stops costing tokens.
pub const DEFAULT_TOOL_DEPTH: usize = 7;

// ── What is sent ────────────────────────────────────────────────────────────

/// What a turn sends.
pub struct Dispatch {
    /// Whether the conversation is opened, rather than continued.
    pub start: bool,
    /// The messages: all of them where it is opened, else what is new.
    pub messages: Vec<Message>,
    /// How much of the transcript the engine has once these are sent.
    pub sent: usize,
}

/// Decide what a turn sends. A conversation the engine already holds gets
/// only what is new; one it doesn't gets the whole history. `sent_through` is
/// how much of the transcript the engine was handed, system prompt included.
pub fn dispatch(session: &Session, sent_through: usize) -> (out: Dispatch)
    requires
        session.wf(),
    ensures
        out.start == !session@.opened,
        views(out.messages@) == session@.pending(sent_through as nat),
        out.sent == session@.transcript().len(),
{
    let messages = session.pending(sent_through);
    let all = session.transcript();
    assert(views(all@).len() == all.len());
    Dispatch { start: !session.opened(), messages, sent: all.len() }
}

/// The engine took the turn: it holds the conversation now.
pub fn dispatched(session: &mut Session)
    requires
        old(session).wf(),
    ensures
        final(session).wf(),
        final(session)@ == (SessionState { opened: true, ..old(session)@ }),
{
    session.set_opened(true);
}

// ── A turn being built ──────────────────────────────────────────────────────

/// A turn being built against a conversation.
#[derive(Debug, PartialEq, Eq)]
pub struct Chat {
    spec: GenSpec,
    thinking: ThinkingMode,
    tools: Option<(Vec<WireToolSpec>, String)>,
    tool_depth: usize,
}

/// A turn being built, mathematically.
#[verifier::ext_equal]
pub struct ChatView {
    pub spec: GenView,
    pub thinking: ThinkingMode,
    pub tools: Option<(Seq<WireView>, Seq<char>)>,
    pub tool_depth: usize,
}

impl View for Chat {
    type V = ChatView;

    closed spec fn view(&self) -> ChatView {
        ChatView {
            spec: self.spec@,
            thinking: self.thinking,
            tools: match self.tools {
                Some(offer) => Some((views(offer.0@), offer.1@)),
                None => None,
            },
            tool_depth: self.tool_depth,
        }
    }
}

impl Clone for Chat {
    fn clone(&self) -> (out: Self)
        ensures
            out@ == self@,
    {
        let tools = match &self.tools {
            Some(offer) => {
                let specs = offer.0.clone();
                assert(views(specs@) =~= views(offer.0@));
                Some((specs, offer.1.clone()))
            },
            None => None,
        };
        Chat {
            spec: self.spec.clone(),
            thinking: self.thinking,
            tools,
            tool_depth: self.tool_depth,
        }
    }
}

impl Chat {
    /// A turn that starts from the engine's defaults.
    pub fn new(defaults: GenSpec) -> (out: Self)
        ensures
            out@ == (ChatView {
                spec: defaults@,
                thinking: ThinkingMode::Auto,
                tools: None,
                tool_depth: DEFAULT_TOOL_DEPTH,
            }),
    {
        Chat {
            spec: defaults,
            thinking: ThinkingMode::Auto,
            tools: None,
            tool_depth: DEFAULT_TOOL_DEPTH,
        }
    }

    /// Append a user message to the conversation.
    pub fn user(self, session: &mut Session, text: &str) -> (out: Self)
        requires
            old(session).wf(),
            old(session)@.next_id < u64::MAX,
        ensures
            out == self,
            final(session).wf(),
            final(session)@ == old(session)@.pushed(MessageView::user(text@)),
    {
        self.message(session, Message::user(text))
    }

    /// Append a user message carrying images.
    pub fn user_with_images(self, session: &mut Session, text: &str, images: &Vec<String>) -> (out:
        Self)
        requires
            old(session).wf(),
            old(session)@.next_id < u64::MAX,
        ensures
            out == self,
            final(session).wf(),
            final(session)@ == old(session)@.pushed(
                MessageView::user_with_images(text@, crate::message::file_urls(views(images@))),
            ),
    {
        let _ = session.push_user_with_images(text, images);
        self
    }

    /// Append a system message to the conversation.
    pub fn system(self, session: &mut Session, text: &str) -> (out: Self)
        requires
            old(session).wf(),
            old(session)@.next_id < u64::MAX,
        ensures
            out == self,
            final(session).wf(),
            final(session)@ == old(session)@.pushed(MessageView::system(text@)),
    {
        self.message(session, Message::system(text))
    }

    /// Append an already-built message.
    pub fn message(self, session: &mut Session, message: Message) -> (out: Self)
        requires
            old(session).wf(),
            old(session)@.next_id < u64::MAX,
        ensures
            out == self,
            final(session).wf(),
            final(session)@ == old(session)@.pushed(message@),
    {
        let _ = session.push(message);
        self
    }

    /// Append several messages.
    pub fn messages(self, session: &mut Session, messages: Vec<Message>) -> (out: Self)
        requires
            old(session).wf(),
            old(session)@.next_id + messages.len() <= u64::MAX,
        ensures
            out == self,
            final(session).wf(),
            final(session)@ == old(session)@.pushed_all(views(messages@)),
    {
        let ghost before = session@;
        let ghost all = views(messages@);
        let mut i: usize = 0;
        assert(all.take(0) =~= Seq::empty());
        while i < messages.len()
            invariant
                i <= messages.len(),
                all == views(messages@),
                session.wf(),
                session@ == before.pushed_all(all.take(i as int)),
                session@.next_id == before.next_id + i,
                before.next_id + messages.len() <= u64::MAX,
            decreases messages.len() - i,
        {
            assert(all.take(i + 1).drop_last() =~= all.take(i as int));
            assert(all.take(i + 1).last() == messages@[i as int]@);
            let _ = session.push(messages[i].clone());
            i += 1;
        }
        assert(all.take(messages.len() as int) =~= all);
        self
    }

    /// Cap how many tokens this turn may generate.
    pub fn max_tokens(self, n: usize) -> (out: Self)
        ensures
            out@ == (ChatView { spec: GenView { max_tokens: Some(n), ..self@.spec }, ..self@ }),
    {
        let mut out = self;
        out.spec.max_tokens = Some(n);
        out
    }

    /// Seed the sampler, making a given temperature reproducible.
    pub fn seed(self, seed: u64) -> (out: Self)
        ensures
            out@ == (ChatView {
                spec: GenView {
                    sampling: Sampling { seed: Some(seed), ..self@.spec.sampling },
                    ..self@.spec
                },
                ..self@
            }),
    {
        let mut out = self;
        out.spec.sampling.seed = Some(seed);
        out
    }

    /// Decode deterministically: temperature 0 with a fixed seed.
    pub fn greedy(self) -> (out: Self)
        ensures
            out@ == (ChatView {
                spec: GenView { sampling: self@.spec.sampling.greedily(), ..self@.spec },
                ..self@
            }),
    {
        let mut out = self;
        out.spec.sampling = out.spec.sampling.greedy();
        out
    }

    /// Top-k truncation.
    pub fn top_k(self, k: i32) -> (out: Self)
        ensures
            out@ == (ChatView { spec: GenView { top_k: Some(k), ..self@.spec }, ..self@ }),
    {
        let mut out = self;
        out.spec.top_k = Some(k);
        out
    }

    /// Constrain this turn's output to a grammar, overriding the engine's.
    pub fn grammar(self, grammar: GrammarSpec) -> (out: Self)
        ensures
            out@ == (ChatView { spec: GenView { grammar: Some(grammar@), ..self@.spec }, ..self@ }),
    {
        let mut out = self;
        out.spec.grammar = Some(grammar);
        out
    }

    /// Drop any engine-level grammar for this turn.
    pub fn unconstrained(self) -> (out: Self)
        ensures
            out@ == (ChatView { spec: GenView { grammar: None, ..self@.spec }, ..self@ }),
    {
        let mut out = self;
        out.spec.grammar = None;
        out
    }

    /// Use a fully-built [`GenSpec`], overriding everything above.
    pub fn gen_spec(self, spec: GenSpec) -> (out: Self)
        ensures
            out@ == (ChatView { spec: spec@, ..self@ }),
    {
        let mut out = self;
        out.spec = spec;
        out
    }

    /// Offer tools to the model. `prompt` introduces them in the template.
    pub fn tools(self, tools: Vec<WireToolSpec>, prompt: &str) -> (out: Self)
        ensures
            out@ == (ChatView { tools: Some((views(tools@), prompt@)), ..self@ }),
    {
        let mut out = self;
        out.tools = Some((tools, prompt.to_owned()));
        out
    }

    /// Force the reasoning channel on or off for models that expose one.
    pub fn thinking(self, mode: ThinkingMode) -> (out: Self)
        ensures
            out@ == (ChatView { thinking: mode, ..self@ }),
    {
        let mut out = self;
        out.thinking = mode;
        out
    }

    /// Cap how many rounds of tool calls a turn may run. Reaching it ends the
    /// turn with [`Finish::ToolDepthReached`].
    pub fn tool_depth(self, depth: usize) -> (out: Self)
        ensures
            out@ == (ChatView { tool_depth: depth, ..self@ }),
    {
        let mut out = self;
        out.tool_depth = depth;
        out
    }

    /// The loop of this turn.
    pub fn tool_loop(&self) -> (out: ToolLoop)
        ensures
            out.limit == self@.tool_depth,
            out.rounds == 0,
    {
        ToolLoop { limit: self.tool_depth, rounds: 0 }
    }
}

/// What the engine is told.
#[derive(Debug, PartialEq, Eq)]
pub enum Command {
    /// Open a conversation. Only here do the tools and the reasoning channel
    /// reach the model.
    Start {
        /// The conversation.
        chat_id: String,
        /// All of it.
        messages: Vec<Message>,
        /// What is asked of the generation.
        spec: GenSpec,
        /// How the reasoning channel is used.
        thinking: ThinkingMode,
        /// The tools, with what introduces them.
        tools: Option<(Vec<WireToolSpec>, String)>,
    },
    /// Continue one.
    Continue {
        /// The conversation.
        chat_id: String,
        /// What is new of it.
        messages: Vec<Message>,
        /// What is asked of the generation.
        spec: GenSpec,
    },
}

/// What the engine is told, mathematically.
pub enum CommandView {
    Start {
        chat_id: Seq<char>,
        messages: Seq<MessageView>,
        spec: GenView,
        thinking: ThinkingMode,
        tools: Option<(Seq<WireView>, Seq<char>)>,
    },
    Continue { chat_id: Seq<char>, messages: Seq<MessageView>, spec: GenView },
}

impl View for Command {
    type V = CommandView;

    open spec fn view(&self) -> CommandView {
        match self {
            Command::Start { chat_id, messages, spec, thinking, tools } => CommandView::Start {
                chat_id: chat_id@,
                messages: views(messages@),
                spec: spec@,
                thinking: *thinking,
                tools: match tools {
                    Some(offer) => Some((views(offer.0@), offer.1@)),
                    None => None,
                },
            },
            Command::Continue { chat_id, messages, spec } => CommandView::Continue {
                chat_id: chat_id@,
                messages: views(messages@),
                spec: spec@,
            },
        }
    }
}

impl ChatView {
    /// What the engine is told of a turn, given how much of the transcript it
    /// was handed.
    pub open spec fn command(self, session: SessionState, sent_through: nat) -> CommandView {
        if session.opened {
            CommandView::Continue {
                chat_id: session.id,
                messages: session.pending(sent_through),
                spec: self.spec,
            }
        } else {
            CommandView::Start {
                chat_id: session.id,
                messages: session.pending(sent_through),
                spec: self.spec,
                thinking: self.thinking,
                tools: self.tools,
            }
        }
    }
}

impl Chat {
    /// What the engine is told, and how much of the transcript it has once it
    /// took it.
    pub fn begin(self, session: &Session, sent_through: usize) -> (out: (Command, usize))
        requires
            session.wf(),
        ensures
            out.0@ == self@.command(session@, sent_through as nat),
            out.1 == session@.transcript().len(),
    {
        let Dispatch { start, messages, sent } = dispatch(session, sent_through);
        let chat_id = session.id().as_str().to_owned();
        if start {
            (
                Command::Start {
                    chat_id,
                    messages,
                    spec: self.spec,
                    thinking: self.thinking,
                    tools: self.tools,
                },
                sent,
            )
        } else {
            (Command::Continue { chat_id, messages, spec: self.spec }, sent)
        }
    }
}

// ── What is recorded ────────────────────────────────────────────────────────

/// The session with a turn's shed messages noted and its reply recorded.
pub open spec fn answered(session: SessionState, turn: CompletionView) -> SessionState {
    session.with_shed(turn.dropped + turn.compacted).pushed(
        MessageView::assistant(turn.text, None),
    )
}

/// Record a turn that no tool handler follows: one turn, and tool calls are
/// the caller's to act on.
pub fn record_turn(session: &mut Session, turn: &Completion)
    requires
        old(session).wf(),
        old(session)@.next_id < u64::MAX,
        turn.dropped + turn.compacted <= usize::MAX,
    ensures
        final(session).wf(),
        final(session)@ == answered(old(session)@, turn@),
{
    session.note_shed(turn.dropped + turn.compacted);
    let _ = session.push(Message::assistant_structured(turn.text.as_str(), None));
}

/// The rounds of a turn that runs tools.
#[derive(Debug, Clone, Copy, PartialEq, Eq)]
pub struct ToolLoop {
    /// How many rounds may be run.
    pub limit: usize,
    /// How many have been.
    pub rounds: usize,
}

/// What happens after a turn of the loop.
#[derive(Debug, PartialEq, Eq)]
pub enum Round {
    /// The turn is over.
    Over(Completion),
    /// The calls are to be run, and the model asked again.
    Calls(Vec<StreamToolCall>),
}

/// What a turn leaves of the session, and what comes next.
pub open spec fn after_round(
    state: ToolLoop,
    session: SessionState,
    turn: CompletionView,
    out: Round,
    session2: SessionState,
) -> bool {
    let counted = CompletionView { tool_rounds: state.rounds as nat, ..turn };
    if turn.tool_calls.len() == 0 {
        &&& out matches Round::Over(done) && done@ == counted
        &&& session2 == answered(session, turn)
    } else {
        &&& session2 == session.with_shed(turn.dropped + turn.compacted).pushed(
            asked_message(turn.tool_calls),
        )
        &&& if state.rounds >= state.limit {
            out matches Round::Over(done) && done@ == (CompletionView {
                finish: FinishView::ToolDepthReached,
                ..counted
            })
        } else {
            out matches Round::Calls(calls) && views(calls@) == turn.tool_calls
        }
    }
}

impl ToolLoop {
    /// Record a turn, and decide whether its calls are run. A model still
    /// asking with no rounds left is reported as such, rather than its reply
    /// taken for final.
    pub fn absorb(&self, session: &mut Session, turn: Completion) -> (out: Round)
        requires
            old(session).wf(),
            old(session)@.next_id < u64::MAX,
            turn.dropped + turn.compacted <= usize::MAX,
        ensures
            final(session).wf(),
            after_round(*self, old(session)@, turn@, out, final(session)@),
    {
        let ghost view = turn@;
        let mut done = turn;
        done.tool_rounds = self.rounds;
        assert(done@ =~= CompletionView { tool_rounds: self.rounds as nat, ..view });
        session.note_shed(done.dropped + done.compacted);
        if done.tool_calls.len() == 0 {
            let _ = session.push(Message::assistant_structured(done.text.as_str(), None));
            return Round::Over(done);
        }
        assert(view.tool_calls.len() > 0);
        // What was asked comes before what came back, so the transcript reads
        // in the order it happened.
        let _ = session.push(calls_message(&done.tool_calls));
        if self.rounds >= self.limit {
            done.finish = Finish::ToolDepthReached;
            return Round::Over(done);
        }
        Round::Calls(done.tool_calls)
    }

    /// Record what the handler made of each call, in order. The next round
    /// follows.
    pub fn results(&mut self, session: &mut Session, results: Vec<String>)
        requires
            old(self).rounds < old(self).limit,
            old(session).wf(),
            old(session)@.next_id + results.len() <= u64::MAX,
        ensures
            final(self).limit == old(self).limit,
            final(self).rounds == old(self).rounds + 1,
            final(session).wf(),
            final(session)@ == old(session)@.pushed_all(
                views(results@).map_values(|text: Seq<char>| MessageView::plain("tool"@, text)),
            ),
    {
        let ghost before = session@;
        let ghost all = views(results@).map_values(
            |text: Seq<char>| MessageView::plain("tool"@, text),
        );
        let mut i: usize = 0;
        assert(all.take(0) =~= Seq::empty());
        while i < results.len()
            invariant
                i <= results.len(),
                all == views(results@).map_values(
                    |text: Seq<char>| MessageView::plain("tool"@, text),
                ),
                session.wf(),
                session@ == before.pushed_all(all.take(i as int)),
                session@.next_id == before.next_id + i,
                before.next_id + results.len() <= u64::MAX,
            decreases results.len() - i,
        {
            assert(all.take(i + 1).drop_last() =~= all.take(i as int));
            assert(all.take(i + 1).last() == MessageView::plain("tool"@, results@[i as int]@));
            let _ = session.push(Message::tool_result(results[i].as_str()));
            i += 1;
        }
        assert(all.take(results.len() as int) =~= all);
        self.rounds = self.rounds + 1;
    }
}

// ── Laws ────────────────────────────────────────────────────────────────────

/// A message appended to the session is appended to its transcript.
proof fn transcript_grows(s: SessionState, m: MessageView)
    requires
        s.valid(),
        s.next_id < u64::MAX,
    ensures
        s.pushed(m).transcript() == s.transcript().push(m),
        s.pushed(m).opened == s.opened,
        s.pushed(m).valid(),
        s.pushed(m).next_id == s.next_id + 1,
{
    push_valid(s, m);
    match s.system {
        Some(text) => {
            assert((seq![MessageView::system(text)] + s.messages()).push(m) =~= seq![
                MessageView::system(text),
            ] + s.messages().push(m));
        },
        None => {},
    }
}

proof fn transcript_grows_by_all(s: SessionState, ms: Seq<MessageView>)
    requires
        s.valid(),
        s.next_id + ms.len() <= u64::MAX,
    ensures
        s.pushed_all(ms).transcript() == s.transcript() + ms,
        s.pushed_all(ms).opened == s.opened,
        s.pushed_all(ms).valid(),
        s.pushed_all(ms).next_id == s.next_id + ms.len(),
    decreases ms.len(),
{
    if ms.len() == 0 {
        assert(s.transcript() + ms =~= s.transcript());
    } else {
        transcript_grows_by_all(s, ms.drop_last());
        let before = s.pushed_all(ms.drop_last());
        transcript_grows(before, ms.last());
        assert((s.transcript() + ms.drop_last()).push(ms.last()) =~= s.transcript() + ms);
    }
}

/// Every message is sent once: after a turn is dispatched, the next sends
/// exactly what was appended since, and nothing again.
pub proof fn a_follow_up_sends_exactly_what_is_new(s: SessionState, ms: Seq<MessageView>)
    requires
        s.valid(),
        s.opened,
        s.next_id + ms.len() <= u64::MAX,
    ensures
        s.pushed_all(ms).pending(s.transcript().len()) == ms,
{
    transcript_grows_by_all(s, ms);
    let all = s.transcript() + ms;
    if ms.len() == 0 {
        assert(all.skip(all.len() as int) =~= ms);
    } else {
        assert(all.skip(s.transcript().len() as int) =~= ms);
    }
}

/// A missing entry in the books only costs a resend: a conversation of which
/// nothing is known to be delivered is sent whole.
pub proof fn forgetting_costs_only_a_resend(s: SessionState)
    ensures
        s.pending(0) == s.transcript(),
{
    assert(s.transcript().skip(0) =~= s.transcript());
}

/// A changed tool set reaches the model: a session whose tools differ from
/// those it was opened with is opened anew, whole, with the tools of the
/// turn.
pub proof fn changed_tools_reach_the_model(
    chat: ChatView,
    s: SessionState,
    fingerprint: u64,
    sent_through: nat,
)
    requires
        s.tools_reopen(fingerprint),
    ensures
        chat.command(s.with_prefix(fingerprint), sent_through) == (CommandView::Start {
            chat_id: s.id,
            messages: s.transcript(),
            spec: chat.spec,
            thinking: chat.thinking,
            tools: chat.tools,
        }),
{
    assert(s.with_prefix(fingerprint).messages() =~= s.messages());
}

/// A conversation the engine does not hold is opened whole, with the tools
/// and the reasoning channel; one it holds is continued. Either way the
/// engine is told the conversation and what this turn asks of it.
pub proof fn a_turn_opens_or_continues(chat: ChatView, s: SessionState, sent_through: nat)
    ensures
        match chat.command(s, sent_through) {
            CommandView::Start { chat_id, messages, spec, thinking, tools } => {
                &&& !s.opened
                &&& chat_id == s.id
                &&& messages == s.transcript()
                &&& spec == chat.spec
                &&& thinking == chat.thinking
                &&& tools == chat.tools
            },
            CommandView::Continue { chat_id, messages, spec } => {
                &&& s.opened
                &&& chat_id == s.id
                &&& sent_through <= s.transcript().len() ==> s.transcript().take(
                    sent_through as int,
                ) + messages == s.transcript()
                &&& sent_through > s.transcript().len() ==> messages.len() == 0
                &&& spec == chat.spec
            },
        },
{
    let all = s.transcript();
    if s.opened && sent_through <= all.len() {
        assert(all.take(sent_through as int) + s.pending(sent_through) =~= all);
    }
}

/// A turn that made no call ends the loop and is recorded as the assistant's
/// words; one that made calls is recorded as those calls, and they are run
/// as long as rounds are left.
pub proof fn a_round_runs_while_any_are_left(
    state: ToolLoop,
    session: SessionState,
    turn: CompletionView,
    out: Round,
    after: SessionState,
)
    requires
        session.valid(),
        session.next_id < u64::MAX,
        after_round(state, session, turn, out, after),
    ensures
        after.messages().len() == session.messages().len() + 1,
        after.messages().drop_last() == session.messages(),
        after.messages().last().role == "assistant"@,
        after.opened == session.opened,
        session.shed + turn.dropped + turn.compacted <= usize::MAX ==> after.shed == session.shed
            + turn.dropped + turn.compacted,
        out is Calls <==> turn.tool_calls.len() > 0 && state.rounds < state.limit,
        out matches Round::Calls(calls) ==> views(calls@) == turn.tool_calls,
        turn.tool_calls.len() == 0 ==> after.messages().last().text() == turn.text
            && after.messages().last().calls().len() == 0,
        turn.tool_calls.len() > 0 ==> after.messages().last().calls().len()
            == turn.tool_calls.len(),
        out matches Round::Over(done) ==> {
            &&& done@.text == turn.text
            &&& done@.tool_calls == turn.tool_calls
            &&& done@.stats == turn.stats
            &&& done@.tool_rounds == state.rounds
            &&& turn.tool_calls.len() == 0 ==> done@.finish == turn.finish
            &&& turn.tool_calls.len() > 0 ==> done@.finish == FinishView::ToolDepthReached
        },
{
    let noted = session.with_shed(turn.dropped + turn.compacted);
    assert(noted.messages() =~= session.messages());
    let said = MessageView::assistant(turn.text, None);
    let asked = asked_message(turn.tool_calls);
    push_valid(noted, said);
    push_valid(noted, asked);
    assert(session.messages().push(said).drop_last() =~= session.messages());
    assert(session.messages().push(asked).drop_last() =~= session.messages());
}

/// A turn recorded without a loop adds the assistant's words and counts what
/// fell out of view.
pub proof fn a_turn_without_tools_is_its_words(session: SessionState, turn: CompletionView)
    requires
        session.valid(),
        session.next_id < u64::MAX,
    ensures
        answered(session, turn).messages() == session.messages().push(
            MessageView {
                role: "assistant"@,
                body: BodyView::Text(turn.text),
                call_id: None,
                reasoning: None,
            },
        ),
        session.shed + turn.dropped + turn.compacted <= usize::MAX ==> answered(session, turn).shed
            == session.shed + turn.dropped + turn.compacted,
        answered(session, turn).opened == session.opened,
{
    let noted = session.with_shed(turn.dropped + turn.compacted);
    assert(noted.messages() =~= session.messages());
    push_valid(noted, MessageView::assistant(turn.text, None));
}

} // verus!
