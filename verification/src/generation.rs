//! What one generation is asked to do, and one prompt against a conversation
//! that is thrown away.
//!
//! Temperatures and probability thresholds are fractions and are not held
//! here; the one setting of them that is decided here, deterministic
//! decoding, is.
use vstd::prelude::*;
use vstd::string::*;
use crate::input::{as_message, Input, InputView, PartsView};
use crate::json::Json;
use crate::message::Message;
use crate::seqs::{group_views, view_of};
use crate::session::Session;
use crate::session_model::SessionState;
use crate::tool_defs::{ToolSet, ToolView};

verus! {

broadcast use group_views;

/// How the model is sampled, as far as it is whole numbers.
#[derive(Debug, Clone, Copy, PartialEq, Eq)]
pub struct Sampling {
    /// Whether decoding is deterministic: temperature 0.
    pub greedy: bool,
    /// The sampler's seed.
    pub seed: Option<u64>,
}

impl Sampling {
    /// Deterministic decoding: temperature 0, with the seed set, else 0.
    pub open spec fn greedily(self) -> Sampling {
        Sampling {
            greedy: true,
            seed: Some(
                match self.seed {
                    Some(seed) => seed,
                    None => 0,
                },
            ),
        }
    }
}

impl Sampling {
    /// Decode deterministically.
    pub fn greedy(self) -> (out: Self)
        ensures
            out == self.greedily(),
    {
        let seed: u64 = self.seed.unwrap_or(0);
        Sampling { greedy: true, seed: Some(seed) }
    }
}

/// What output is constrained to.
#[derive(Debug, PartialEq, Eq)]
pub enum GrammarSpec {
    /// Values of a JSON schema.
    JsonSchema(Json),
    /// Matches of a regular expression.
    Regex(String),
    /// Sentences of a Lark grammar.
    Lark(String),
    /// Sentences of a GBNF grammar.
    Gbnf(String),
}

/// A constraint, mathematically.
pub enum GrammarView {
    JsonSchema(Seq<char>),
    Regex(Seq<char>),
    Lark(Seq<char>),
    Gbnf(Seq<char>),
}

impl View for GrammarSpec {
    type V = GrammarView;

    open spec fn view(&self) -> GrammarView {
        match self {
            GrammarSpec::JsonSchema(schema) => GrammarView::JsonSchema(schema@),
            GrammarSpec::Regex(text) => GrammarView::Regex(text@),
            GrammarSpec::Lark(text) => GrammarView::Lark(text@),
            GrammarSpec::Gbnf(text) => GrammarView::Gbnf(text@),
        }
    }
}

impl Clone for GrammarSpec {
    fn clone(&self) -> (out: Self)
        ensures
            out@ == self@,
    {
        match self {
            GrammarSpec::JsonSchema(schema) => GrammarSpec::JsonSchema(schema.clone()),
            GrammarSpec::Regex(text) => GrammarSpec::Regex(text.clone()),
            GrammarSpec::Lark(text) => GrammarSpec::Lark(text.clone()),
            GrammarSpec::Gbnf(text) => GrammarSpec::Gbnf(text.clone()),
        }
    }
}

/// Whether a model that exposes a reasoning channel uses it.
#[derive(Debug, Clone, Copy, PartialEq, Eq, Structural)]
pub enum ThinkingMode {
    /// As the model prefers.
    Auto,
    /// On.
    On,
    /// Off.
    Off,
}

/// What one generation is asked to do.
#[derive(Debug, PartialEq, Eq)]
pub struct GenSpec {
    /// The most tokens to generate.
    pub max_tokens: Option<usize>,
    /// How the model is sampled.
    pub sampling: Sampling,
    /// Top-k truncation.
    pub top_k: Option<i32>,
    /// What output is constrained to.
    pub grammar: Option<GrammarSpec>,
}

/// What a generation is asked to do, mathematically.
pub struct GenView {
    pub max_tokens: Option<usize>,
    pub sampling: Sampling,
    pub top_k: Option<i32>,
    pub grammar: Option<GrammarView>,
}

impl View for GenSpec {
    type V = GenView;

    open spec fn view(&self) -> GenView {
        GenView {
            max_tokens: self.max_tokens,
            sampling: self.sampling,
            top_k: self.top_k,
            grammar: view_of(self.grammar),
        }
    }
}

impl GenView {
    /// Nothing asked for.
    pub open spec fn blank() -> GenView {
        GenView {
            max_tokens: None,
            sampling: Sampling { greedy: false, seed: None },
            top_k: None,
            grammar: None,
        }
    }
}

impl Clone for GenSpec {
    fn clone(&self) -> (out: Self)
        ensures
            out@ == self@,
    {
        GenSpec {
            max_tokens: self.max_tokens,
            sampling: self.sampling,
            top_k: self.top_k,
            grammar: match &self.grammar {
                Some(grammar) => Some(grammar.clone()),
                None => None,
            },
        }
    }
}

impl Default for GenSpec {
    fn default() -> (out: Self)
        ensures
            out@ == GenView::blank(),
    {
        GenSpec {
            max_tokens: None,
            sampling: Sampling { greedy: false, seed: None },
            top_k: None,
            grammar: None,
        }
    }
}

impl GenSpec {
    /// Cap how many tokens may be generated.
    pub fn max_tokens(self, n: usize) -> (out: Self)
        ensures
            out@ == (GenView { max_tokens: Some(n), ..self@ }),
    {
        let mut out = self;
        out.max_tokens = Some(n);
        out
    }

    /// Seed the sampler.
    pub fn seed(self, seed: u64) -> (out: Self)
        ensures
            out@ == (GenView {
                sampling: Sampling { seed: Some(seed), ..self@.sampling },
                ..self@
            }),
    {
        let mut out = self;
        out.sampling.seed = Some(seed);
        out
    }

    /// Decode deterministically: temperature 0 with a fixed seed. Pairs with
    /// [`GenSpec::seed`] in either order: a seed is only supplied where none
    /// is set.
    pub fn greedy(self) -> (out: Self)
        ensures
            out@ == (GenView { sampling: self@.sampling.greedily(), ..self@ }),
    {
        let mut out = self;
        out.sampling = out.sampling.greedy();
        out
    }

    /// Top-k truncation.
    pub fn top_k(self, k: i32) -> (out: Self)
        ensures
            out@ == (GenView { top_k: Some(k), ..self@ }),
    {
        let mut out = self;
        out.top_k = Some(k);
        out
    }

    /// Constrain output to a grammar.
    pub fn grammar(self, grammar: GrammarSpec) -> (out: Self)
        ensures
            out@ == (GenView { grammar: Some(grammar@), ..self@ }),
    {
        let mut out = self;
        out.grammar = Some(grammar);
        out
    }

    /// Drop any constraint.
    pub fn unconstrained(self) -> (out: Self)
        ensures
            out@ == (GenView { grammar: None, ..self@ }),
    {
        let mut out = self;
        out.grammar = None;
        out
    }
}

/// A seed set before or after asking for deterministic decoding is the seed
/// that is used.
pub proof fn seed_and_greedy_commute(sampling: Sampling, seed: u64)
    ensures
        (Sampling { seed: Some(seed), ..sampling }).greedily() == (Sampling {
            seed: Some(seed),
            ..sampling.greedily()
        }),
{
}

// ── One prompt ──────────────────────────────────────────────────────────────

/// A one-shot generation being configured.
///
/// Runs against an ephemeral session: the system prompt, the input, and the
/// reply exist only for this call.
pub struct Generation {
    input: Input,
    system: Option<String>,
    options: GenSpec,
    tools: Option<ToolSet>,
    reasoning: ThinkingMode,
}

/// A one-shot generation, mathematically.
#[verifier::ext_equal]
pub struct OneShotView {
    /// What the model is given.
    pub input: PartsView,
    /// The system prompt.
    pub system: Option<Seq<char>>,
    /// What is asked of the generation.
    pub options: GenView,
    /// The tools that are offered.
    pub tools: Option<Seq<ToolView>>,
    /// How the reasoning channel is used.
    pub reasoning: ThinkingMode,
}

impl OneShotView {
    /// A generation with nothing but its input.
    pub open spec fn asking(input: PartsView) -> OneShotView {
        OneShotView {
            input,
            system: None,
            options: GenView::blank(),
            tools: None,
            reasoning: ThinkingMode::Auto,
        }
    }
}

impl View for Generation {
    type V = OneShotView;

    closed spec fn view(&self) -> OneShotView {
        OneShotView {
            input: self.input@,
            system: view_of(self.system),
            options: self.options@,
            tools: view_of(self.tools),
            reasoning: self.reasoning,
        }
    }
}

impl Generation {
    /// A generation from an input.
    pub fn new(input: Input) -> (out: Self)
        ensures
            out@ == OneShotView::asking(input@),
    {
        Generation {
            input,
            system: None,
            options: GenSpec::default(),
            tools: None,
            reasoning: ThinkingMode::Auto,
        }
    }

    /// A system prompt for this call.
    pub fn system(self, text: &str) -> (out: Self)
        ensures
            out@ == (OneShotView { system: Some(text@), ..self@ }),
    {
        let mut out = self;
        out.system = Some(text.to_owned());
        out
    }

    /// Attach an image to the input, by path or URL.
    pub fn image(self, source: &str) -> (out: Self)
        ensures
            out@ == (OneShotView { input: self@.input.push(InputView::Image(source@)), ..self@ }),
    {
        Generation {
            input: self.input.image(source),
            system: self.system,
            options: self.options,
            tools: self.tools,
            reasoning: self.reasoning,
        }
    }

    /// Offer tools. The model may answer with tool calls instead of text, and
    /// it is the caller's to run them.
    pub fn tools(self, tools: ToolSet) -> (out: Self)
        ensures
            out@ == (OneShotView { tools: Some(tools@), ..self@ }),
    {
        let mut out = self;
        out.tools = Some(tools);
        out
    }

    /// Cap how many tokens may be generated.
    pub fn max_tokens(self, n: usize) -> (out: Self)
        ensures
            out@ == (OneShotView {
                options: GenView { max_tokens: Some(n), ..self@.options },
                ..self@
            }),
    {
        let mut out = self;
        out.options.max_tokens = Some(n);
        out
    }

    /// Seed the sampler, making a given temperature reproducible.
    pub fn seed(self, seed: u64) -> (out: Self)
        ensures
            out@ == (OneShotView {
                options: GenView {
                    sampling: Sampling { seed: Some(seed), ..self@.options.sampling },
                    ..self@.options
                },
                ..self@
            }),
    {
        let mut out = self;
        out.options.sampling.seed = Some(seed);
        out
    }

    /// Decode deterministically: temperature 0 with a fixed seed.
    pub fn greedy(self) -> (out: Self)
        ensures
            out@ == (OneShotView {
                options: GenView {
                    sampling: self@.options.sampling.greedily(),
                    ..self@.options
                },
                ..self@
            }),
    {
        let mut out = self;
        out.options.sampling = out.options.sampling.greedy();
        out
    }

    /// Top-k truncation.
    pub fn top_k(self, k: i32) -> (out: Self)
        ensures
            out@ == (OneShotView { options: GenView { top_k: Some(k), ..self@.options }, ..self@ }),
    {
        let mut out = self;
        out.options.top_k = Some(k);
        out
    }

    /// The reasoning channel, on models that expose one.
    pub fn reasoning(self, mode: ThinkingMode) -> (out: Self)
        ensures
            out@ == (OneShotView { reasoning: mode, ..self@ }),
    {
        let mut out = self;
        out.reasoning = mode;
        out
    }

    /// Every control at once, replacing what was set so far.
    pub fn options(self, options: GenSpec) -> (out: Self)
        ensures
            out@ == (OneShotView { options: options@, ..self@ }),
    {
        let mut out = self;
        out.options = options;
        out
    }

    /// The ephemeral session, the message its turn carries, and what is asked
    /// of the turn.
    pub fn prepare(self) -> (out: Staged)
        ensures
            out.session.wf(),
            out.session@ == self@.ephemeral(out.session@.id),
            out.message@ == as_message(self@.input),
            out.options@ == self@.options,
            out.reasoning == self@.reasoning,
    {
        let mut session = Session::new();
        if let Some(system) = &self.system {
            session.set_system(system.as_str());
        }
        if let Some(tools) = self.tools {
            session.set_tools(tools);
        }
        Staged {
            session,
            message: self.input.into_message(),
            options: self.options,
            reasoning: self.reasoning,
        }
    }
}

impl OneShotView {
    /// The session of the call: new, with the system prompt and the tools.
    pub open spec fn ephemeral(self, id: Seq<char>) -> SessionState {
        let blank = SessionState::blank(id);
        let prompted = match self.system {
            Some(text) => blank.with_system(Some(text)),
            None => blank,
        };
        match self.tools {
            Some(tools) => prompted.with_tools(tools),
            None => prompted,
        }
    }
}

/// What a one-shot call stages on its turn.
pub struct Staged {
    /// The session that is thrown away.
    pub session: Session,
    /// What the model is told.
    pub message: Message,
    /// What is asked of the generation.
    pub options: GenSpec,
    /// How the reasoning channel is used.
    pub reasoning: ThinkingMode,
}

/// Decoding greedily keeps a seed that was set and else takes zero; asking
/// twice changes nothing.
pub proof fn greedy_decoding_is_seeded(sampling: Sampling)
    ensures
        sampling.greedily().greedy,
        sampling.seed is Some ==> sampling.greedily().seed == sampling.seed,
        sampling.seed is None ==> sampling.greedily().seed == Some(0u64),
        sampling.greedily().greedily() == sampling.greedily(),
{
}

/// A one-shot call has a conversation of its own: no messages, not yet
/// opened, with the system prompt and the tools the call was given.
pub proof fn a_one_shot_call_stands_alone(call: OneShotView, id: Seq<char>)
    ensures
        call.ephemeral(id).id == id,
        call.ephemeral(id).active.len() == 0,
        call.ephemeral(id).messages().len() == 0,
        call.ephemeral(id).system == call.system,
        !call.ephemeral(id).opened,
        call.tools is None ==> call.ephemeral(id).tools.len() == 0,
        call.tools matches Some(tools) ==> crate::tool_defs::tools_alike(
            call.ephemeral(id).tools,
            tools,
        ) || call.ephemeral(id).tools == tools,
{
}

} // verus!
