//! Turns that run away from their caller: what they send back, and what one
//! is built from.
use vstd::prelude::*;
use vstd::string::*;
use crate::chat::{Chat, ChatView};
use crate::error::Error;
use crate::generation::{GenSpec, GenView, GrammarSpec, Sampling, ThinkingMode};
use crate::json::Json;
use crate::message::MessageView;
use crate::seqs::views;
use crate::session::Session;
use crate::session_model::SessionState;
use crate::stream::Completion;
use crate::tools::WireToolSpec;

verus! {

/// Progress through an agent's run.
#[derive(Debug, PartialEq, Eq)]
pub enum AgentStep {
    /// About to run a tool.
    Calling { step: usize, tool: String, args: Json },
    /// It finished, with its output or its failure in words, after so many
    /// nanoseconds.
    Called { step: usize, tool: String, result: Result<String, String>, took: u128 },
}

/// An update from a turn running elsewhere.
pub enum Update {
    /// A fragment of text, as it was decoded.
    Delta(String),
    /// The agent is about to run a tool.
    ToolCall { id: String, tool: String, args: Json },
    /// A tool finished.
    ToolResult { id: String, tool: String, result: Result<String, String>, took: u128 },
    /// The turn finished. Hands the session back with the reply already
    /// appended. A cancelled turn lands here too: a stopped reply is still a
    /// reply.
    Done { completion: Completion, session: Session },
    /// The turn failed. The session is returned unchanged apart from the
    /// messages that were added, so it can be retried or shown.
    Failed { error: Error, session: Session },
}

impl Update {
    /// Whether the turn is over with it.
    pub open spec fn ends(self) -> bool {
        self is Done || self is Failed
    }

    /// The update a fragment is.
    pub fn delta(fragment: &str) -> (out: Update)
        ensures
            out matches Update::Delta(text) && text@ == fragment@,
            !out.ends(),
    {
        Update::Delta(fragment.to_owned())
    }

    /// The update a step of an agent is. A call has no other name than its
    /// tool's.
    pub fn step(step: AgentStep) -> (out: Update)
        ensures
            !out.ends(),
            match step {
                AgentStep::Calling { step: _, tool, args } => out matches Update::ToolCall {
                    id,
                    tool: named,
                    args: given,
                } && id@ == tool@ && named == tool && given == args,
                AgentStep::Called { step: _, tool, result, took } => out matches
                    Update::ToolResult { id, tool: named, result: got, took: ran } && id@ == tool@
                    && named == tool && got == result && ran == took,
            },
    {
        match step {
            AgentStep::Calling { step: _, tool, args } => Update::ToolCall {
                id: tool.clone(),
                tool,
                args,
            },
            AgentStep::Called { step: _, tool, result, took } => Update::ToolResult {
                id: tool.clone(),
                tool,
                result,
                took,
            },
        }
    }

    /// The update a turn ends with: it hands the session back either way.
    pub fn ending(result: Result<Completion, Error>, session: Session) -> (out: Update)
        ensures
            out.ends(),
            match result {
                Ok(done) => out == (Update::Done { completion: done, session }),
                Err(e) => out == (Update::Failed { error: e, session }),
            },
    {
        match result {
            Ok(completion) => Update::Done { completion, session },
            Err(error) => Update::Failed { error, session },
        }
    }

    /// Whether the turn is over with this update.
    pub fn is_last(&self) -> (out: bool)
        ensures
            out == self.ends(),
    {
        match self {
            Update::Done { .. } => true,
            Update::Failed { .. } => true,
            _ => false,
        }
    }
}

/// A turn built against a session it owns, which lets the work outlive the
/// calling scope. The session comes back with the last update.
pub struct OwnedChat {
    session: Session,
    chat: Chat,
}

/// A turn that owns its session, mathematically.
pub struct OwnedChatView {
    pub session: SessionState,
    pub chat: ChatView,
}

impl View for OwnedChat {
    type V = OwnedChatView;

    closed spec fn view(&self) -> OwnedChatView {
        OwnedChatView { session: self.session@, chat: self.chat@ }
    }
}

impl OwnedChat {
    /// Whether the session is sound.
    pub closed spec fn wf(&self) -> bool {
        self.session.wf()
    }

    /// A turn over a session, from the engine's defaults.
    pub fn new(session: Session, defaults: GenSpec) -> (out: Self)
        requires
            session.wf(),
        ensures
            out.wf(),
            out@.session == session@,
            out@.chat == (ChatView {
                spec: defaults@,
                thinking: ThinkingMode::Auto,
                tools: None,
                tool_depth: crate::chat::DEFAULT_TOOL_DEPTH,
            }),
    {
        OwnedChat { session, chat: Chat::new(defaults) }
    }

    /// Append a user message.
    pub fn user(self, text: &str) -> (out: Self)
        requires
            self.wf(),
            self@.session.next_id < u64::MAX,
        ensures
            out.wf(),
            out@ == (OwnedChatView {
                session: self@.session.pushed(MessageView::user(text@)),
                ..self@
            }),
    {
        let mut session = self.session;
        let chat = self.chat.user(&mut session, text);
        OwnedChat { session, chat }
    }

    /// Append a system message.
    pub fn system(self, text: &str) -> (out: Self)
        requires
            self.wf(),
            self@.session.next_id < u64::MAX,
        ensures
            out.wf(),
            out@ == (OwnedChatView {
                session: self@.session.pushed(MessageView::system(text@)),
                ..self@
            }),
    {
        let mut session = self.session;
        let chat = self.chat.system(&mut session, text);
        OwnedChat { session, chat }
    }

    /// Cap how many tokens this turn may generate.
    pub fn max_tokens(self, n: usize) -> (out: Self)
        ensures
            out.wf() == self.wf(),
            out@ == (OwnedChatView {
                chat: ChatView {
                    spec: GenView { max_tokens: Some(n), ..self@.chat.spec },
                    ..self@.chat
                },
                ..self@
            }),
    {
        OwnedChat { session: self.session, chat: self.chat.max_tokens(n) }
    }

    /// Seed the sampler.
    pub fn seed(self, seed: u64) -> (out: Self)
        ensures
            out.wf() == self.wf(),
            out@ == (OwnedChatView {
                chat: ChatView {
                    spec: GenView {
                        sampling: Sampling { seed: Some(seed), ..self@.chat.spec.sampling },
                        ..self@.chat.spec
                    },
                    ..self@.chat
                },
                ..self@
            }),
    {
        OwnedChat { session: self.session, chat: self.chat.seed(seed) }
    }

    /// Decode deterministically: temperature 0 with a fixed seed.
    pub fn greedy(self) -> (out: Self)
        ensures
            out.wf() == self.wf(),
            out@ == (OwnedChatView {
                chat: ChatView {
                    spec: GenView {
                        sampling: self@.chat.spec.sampling.greedily(),
                        ..self@.chat.spec
                    },
                    ..self@.chat
                },
                ..self@
            }),
    {
        OwnedChat { session: self.session, chat: self.chat.greedy() }
    }

    /// Constrain output to a grammar.
    pub fn grammar(self, grammar: GrammarSpec) -> (out: Self)
        ensures
            out.wf() == self.wf(),
            out@ == (OwnedChatView {
                chat: ChatView {
                    spec: GenView { grammar: Some(grammar@), ..self@.chat.spec },
                    ..self@.chat
                },
                ..self@
            }),
    {
        OwnedChat { session: self.session, chat: self.chat.grammar(grammar) }
    }

    /// Drop any engine-level grammar for this turn.
    pub fn unconstrained(self) -> (out: Self)
        ensures
            out.wf() == self.wf(),
            out@ == (OwnedChatView {
                chat: ChatView {
                    spec: GenView { grammar: None, ..self@.chat.spec },
                    ..self@.chat
                },
                ..self@
            }),
    {
        OwnedChat { session: self.session, chat: self.chat.unconstrained() }
    }

    /// Use a fully-built [`GenSpec`], overriding everything above.
    pub fn gen_spec(self, spec: GenSpec) -> (out: Self)
        ensures
            out.wf() == self.wf(),
            out@ == (OwnedChatView { chat: ChatView { spec: spec@, ..self@.chat }, ..self@ }),
    {
        OwnedChat { session: self.session, chat: self.chat.gen_spec(spec) }
    }

    /// Offer tools to the model.
    pub fn tools(self, tools: Vec<WireToolSpec>, prompt: &str) -> (out: Self)
        ensures
            out.wf() == self.wf(),
            out@ == (OwnedChatView {
                chat: ChatView { tools: Some((views(tools@), prompt@)), ..self@.chat },
                ..self@
            }),
    {
        OwnedChat { session: self.session, chat: self.chat.tools(tools, prompt) }
    }

    /// Force the reasoning channel on or off.
    pub fn thinking(self, mode: ThinkingMode) -> (out: Self)
        ensures
            out.wf() == self.wf(),
            out@ == (OwnedChatView { chat: ChatView { thinking: mode, ..self@.chat }, ..self@ }),
    {
        OwnedChat { session: self.session, chat: self.chat.thinking(mode) }
    }

    /// The session and the turn, to run.
    pub fn into_parts(self) -> (out: (Session, Chat))
        requires
            self.wf(),
        ensures
            out.0.wf(),
            out.0@ == self@.session,
            out.1@ == self@.chat,
    {
        (self.session, self.chat)
    }
}

} // verus!
