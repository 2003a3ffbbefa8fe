//! One prompt, no conversation kept.
use vstd::prelude::*;
use vstd::string::*;
use crate::chat::{Chat, ChatView};
use crate::generation::{GenSpec, GenView, GrammarSpec, Sampling, ThinkingMode};
use crate::message::MessageView;
use crate::session::Session;
use crate::session_model::SessionState;

verus! {

/// What one prompt is run with.
#[derive(Debug, PartialEq, Eq)]
pub struct Request {
    /// The prompt.
    pub text: String,
    /// The system prompt.
    pub system: String,
    /// What the reply is constrained to.
    pub grammar: GrammarSpec,
    /// The most tokens to generate.
    pub max_tokens: usize,
    /// Whether the model decides, rather than samples.
    pub greedy: bool,
}

/// A single prompt against a conversation that is thrown away.
pub struct Inference {
    session: Session,
    text: String,
    defaults: GenSpec,
    spec: Option<GenSpec>,
}

/// One prompt, mathematically.
pub struct InferenceView {
    pub session: SessionState,
    pub text: Seq<char>,
    pub spec: GenView,
}

impl View for Inference {
    type V = InferenceView;

    closed spec fn view(&self) -> InferenceView {
        InferenceView {
            session: self.session@,
            text: self.text@,
            spec: match self.spec {
                Some(spec) => spec@,
                None => self.defaults@,
            },
        }
    }
}

impl Inference {
    /// Whether the session is sound, and empty.
    pub closed spec fn wf(&self) -> bool {
        self.session.wf() && self.session@.next_id == 0
    }

    /// One prompt, from the engine's defaults.
    pub fn new(text: &str, defaults: GenSpec) -> (out: Self)
        ensures
            out.wf(),
            out@.text == text@,
            out@.spec == defaults@,
            out@.session == SessionState::blank(out@.session.id),
    {
        Inference { session: Session::new(), text: text.to_owned(), defaults, spec: None }
    }

    /// Prepend a system prompt. The last one counts.
    pub fn system(self, text: &str) -> (out: Self)
        ensures
            out.wf(),
            out@.text == self@.text,
            out@.spec == self@.spec,
            out@.session == SessionState::blank(out@.session.id).with_system(Some(text@)),
    {
        let mut out = self;
        out.session = Session::new().with_system(text);
        out
    }

    fn spec_of(self) -> (out: (Session, String, GenSpec, GenSpec))
        requires
            self.wf(),
        ensures
            out.0.wf(),
            out.0@ == self@.session,
            out.0@.next_id == 0,
            out.1@ == self@.text,
            out.3@ == self@.spec,
    {
        let spec = match self.spec {
            Some(spec) => spec,
            None => self.defaults.clone(),
        };
        (self.session, self.text, self.defaults, spec)
    }

    /// Cap how many tokens this may generate.
    pub fn max_tokens(self, n: usize) -> (out: Self)
        requires
            self.wf(),
        ensures
            out.wf(),
            out@ == (InferenceView {
                spec: GenView { max_tokens: Some(n), ..self@.spec },
                ..self@
            }),
    {
        let (session, text, defaults, spec) = self.spec_of();
        Inference { session, text, defaults, spec: Some(spec.max_tokens(n)) }
    }

    /// Seed the sampler.
    pub fn seed(self, seed: u64) -> (out: Self)
        requires
            self.wf(),
        ensures
            out.wf(),
            out@ == (InferenceView {
                spec: GenView {
                    sampling: Sampling { seed: Some(seed), ..self@.spec.sampling },
                    ..self@.spec
                },
                ..self@
            }),
    {
        let (session, text, defaults, spec) = self.spec_of();
        Inference { session, text, defaults, spec: Some(spec.seed(seed)) }
    }

    /// Decode deterministically: temperature 0 with a fixed seed.
    pub fn greedy(self) -> (out: Self)
        requires
            self.wf(),
        ensures
            out.wf(),
            out@ == (InferenceView {
                spec: GenView { sampling: self@.spec.sampling.greedily(), ..self@.spec },
                ..self@
            }),
    {
        let (session, text, defaults, spec) = self.spec_of();
        Inference { session, text, defaults, spec: Some(spec.greedy()) }
    }

    /// Constrain output to a grammar.
    pub fn grammar(self, grammar: GrammarSpec) -> (out: Self)
        requires
            self.wf(),
        ensures
            out.wf(),
            out@ == (InferenceView {
                spec: GenView { grammar: Some(grammar@), ..self@.spec },
                ..self@
            }),
    {
        let (session, text, defaults, spec) = self.spec_of();
        Inference { session, text, defaults, spec: Some(spec.grammar(grammar)) }
    }

    /// Drop any engine-level grammar for this call.
    pub fn unconstrained(self) -> (out: Self)
        requires
            self.wf(),
        ensures
            out.wf(),
            out@ == (InferenceView { spec: GenView { grammar: None, ..self@.spec }, ..self@ }),
    {
        let (session, text, defaults, spec) = self.spec_of();
        Inference { session, text, defaults, spec: Some(spec.unconstrained()) }
    }

    /// Use a fully-built [`GenSpec`], overriding everything above.
    pub fn gen_spec(self, spec: GenSpec) -> (out: Self)
        ensures
            out.wf() == self.wf(),
            out@ == (InferenceView { spec: spec@, ..self@ }),
    {
        let mut out = self;
        out.spec = Some(spec);
        out
    }

    /// A request as a prompt, from the engine's defaults: what the request
    /// says wins, and the rest stays.
    pub fn asking(request: Request, defaults: GenSpec) -> (out: Self)
        ensures
            out.wf(),
            out@.text == request.text@,
            out@.session == SessionState::blank(out@.session.id).with_system(
                Some(request.system@),
            ),
            out@.spec == (GenView {
                max_tokens: Some(request.max_tokens),
                grammar: Some(request.grammar@),
                sampling: Sampling { greedy: request.greedy, ..defaults@.sampling },
                ..defaults@
            }),
    {
        let mut spec = defaults.clone();
        spec.sampling.greedy = request.greedy;
        Inference::new(request.text.as_str(), defaults).system(request.system.as_str()).gen_spec(
            spec,
        ).grammar(request.grammar).max_tokens(request.max_tokens)
    }

    /// The session with the prompt in it, and the turn, to run.
    pub fn into_parts(self) -> (out: (Session, Chat))
        requires
            self.wf(),
        ensures
            out.0.wf(),
            out.0@ == self@.session.pushed(MessageView::user(self@.text)),
            out.1@ == (ChatView {
                spec: self@.spec,
                thinking: ThinkingMode::Auto,
                tools: None,
                tool_depth: crate::chat::DEFAULT_TOOL_DEPTH,
            }),
    {
        let (session, text, _, spec) = self.spec_of();
        let mut session = session;
        let chat = Chat::new(spec).user(&mut session, text.as_str());
        (session, chat)
    }
}

} // verus!
