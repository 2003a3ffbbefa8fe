//! A model: what it is, and what it can be asked to do.
use vstd::prelude::*;
use vstd::string::*;
use crate::fit;
use crate::generation::{Generation, OneShotView};
use crate::input::Input;
use crate::message::copy_text;
use crate::seqs::view_of;
use crate::text::{decimal, push_decimal, same_text};

verus! {

/// Identifies a model within its runtime.
#[derive(Debug, Clone, Copy, PartialEq, Eq, Hash, PartialOrd, Ord, Structural)]
pub struct ModelId(pub u64);

impl ModelId {
    /// An id in words.
    pub open spec fn words(self) -> Seq<char> {
        "model-"@ + decimal(self.0 as nat)
    }

    /// The id as it is shown.
    pub fn to_string(&self) -> (out: String)
        ensures
            out@ == self.words(),
    {
        let mut out = "model-".to_owned();
        push_decimal(&mut out, self.0);
        out
    }
}

/// Where a model's weights are.
#[derive(Debug, PartialEq, Eq, Hash)]
pub enum ModelSourceKind {
    /// A file (or bundle directory) on this machine.
    LocalFile,
    /// A file fetched from the Hugging Face Hub by `hf:` reference and
    /// cached on this machine.
    HuggingFace {
        /// `owner/name`.
        repo: String,
        /// The file within the repo that was loaded.
        file: String,
    },
    /// An OpenAI- or Anthropic-compatible endpoint.
    Remote,
}

impl ModelSourceKind {
    /// Whether inference happens on this machine.
    pub open spec fn here(self) -> bool {
        !(self is Remote)
    }

    /// Whether inference happens on this machine.
    pub fn is_local(&self) -> (out: bool)
        ensures
            out == self.here(),
    {
        match self {
            ModelSourceKind::LocalFile => true,
            ModelSourceKind::HuggingFace { .. } => true,
            ModelSourceKind::Remote => false,
        }
    }
}

impl Clone for ModelSourceKind {
    fn clone(&self) -> (out: Self)
        ensures
            out == *self,
    {
        match self {
            ModelSourceKind::LocalFile => ModelSourceKind::LocalFile,
            ModelSourceKind::HuggingFace { repo, file } => ModelSourceKind::HuggingFace {
                repo: repo.clone(),
                file: file.clone(),
            },
            ModelSourceKind::Remote => ModelSourceKind::Remote,
        }
    }
}

/// Where a load placed the weights.
#[derive(Debug, PartialEq, Eq)]
pub struct GpuOffload {
    /// Layers on the GPU.
    pub layers: u32,
    /// Which GPU, as the backend names it.
    pub device: String,
}

/// What an engine says of the model it runs.
#[derive(Debug, PartialEq, Eq)]
pub struct RunningModel {
    /// Architecture family.
    pub architecture: Option<String>,
    /// The context window that was allocated, in tokens.
    pub context: Option<u32>,
    /// Where the weights are.
    pub offload: Option<GpuOffload>,
}

/// What a model is, without backend internals.
#[derive(Debug, PartialEq, Eq)]
pub struct ModelInfo {
    /// Its id within the runtime.
    pub id: ModelId,
    /// A display name: the file stem for a local model, the served name for
    /// a remote one.
    pub name: Option<String>,
    /// Architecture family, when known.
    pub architecture: Option<String>,
    /// The context window the backend allocated, in tokens.
    pub context_window: Option<u32>,
    /// Where the model runs.
    pub source: ModelSourceKind,
    /// Whether inference happens on this machine.
    pub local: bool,
    /// Where the weights are.
    pub offload: Option<GpuOffload>,
}

/// What a model can be asked to do.
#[derive(Debug, Clone, Copy, PartialEq, Eq, Structural)]
pub struct ModelCapabilities {
    /// Generates text. Always true.
    pub text: bool,
    /// Accepts images on the input.
    pub images: bool,
    /// Accepts audio on the input.
    pub audio: bool,
    /// Can be offered tools and asked to call them.
    pub tools: bool,
    /// Exposes a reasoning channel the response separates from the reply.
    pub reasoning: bool,
    /// Output can be constrained to a schema during decoding.
    pub structured_output: bool,
}

impl Default for ModelCapabilities {
    fn default() -> (out: Self)
        ensures
            out == (ModelCapabilities {
                text: false,
                images: false,
                audio: false,
                tools: false,
                reasoning: false,
                structured_output: false,
            }),
    {
        ModelCapabilities {
            text: false,
            images: false,
            audio: false,
            tools: false,
            reasoning: false,
            structured_output: false,
        }
    }
}

/// What an engine says it can do.
#[derive(Debug, Clone, Copy, PartialEq, Eq, Structural)]
pub struct EngineAbilities {
    /// Takes images.
    pub images: bool,
    /// Takes audio.
    pub audio: bool,
    /// Enforces a grammar while decoding.
    pub grammar: bool,
}

/// Whether an architecture's chat template is known to carry a reasoning
/// channel.
pub open spec fn reasons(arch: Seq<char>) -> bool {
    arch == "qwen3"@ || arch == "qwen3moe"@ || arch == "gemma4"@
}

/// Architectures whose chat template is known to carry a reasoning channel:
/// Qwen3's `<think>` and Gemma 4's thought channel.
pub fn is_reasoning_architecture(arch: &str) -> (out: bool)
    ensures
        out == reasons(arch@),
{
    same_text(arch, "qwen3") || same_text(arch, "qwen3moe") || same_text(arch, "gemma4")
}

/// A model you ask to generate. It owns no conversation.
#[derive(Debug, PartialEq, Eq)]
pub struct Model {
    id: ModelId,
    name: Option<String>,
    source: ModelSourceKind,
    header: Option<fit::ModelInfo>,
}

/// A model, mathematically.
pub struct ModelView {
    pub id: ModelId,
    pub name: Option<Seq<char>>,
    pub source: ModelSourceKind,
    pub header: Option<fit::ModelInfo>,
}

impl View for Model {
    type V = ModelView;

    closed spec fn view(&self) -> ModelView {
        ModelView {
            id: self.id,
            name: view_of(self.name),
            source: self.source,
            header: self.header,
        }
    }
}

impl ModelView {
    /// The architecture the file's header gives.
    pub open spec fn written_architecture(self) -> Option<Seq<char>> {
        match self.header {
            Some(header) => view_of(header.architecture),
            None => None,
        }
    }

    /// What the model can be asked to do, given what its engine can and the
    /// architecture that is running.
    ///
    /// A local backend renders tool declarations through the chat template,
    /// and the header says whether the template has a place for them; the
    /// remote backend puts no tools on the wire. Only a local backend
    /// enforces a schema.
    pub open spec fn abilities(
        self,
        engine: EngineAbilities,
        running: Option<Seq<char>>,
    ) -> ModelCapabilities {
        ModelCapabilities {
            text: true,
            images: engine.images,
            audio: engine.audio,
            tools: self.source.here() && (match self.header {
                Some(header) => header.supports_tools,
                None => true,
            }),
            reasoning: match (self.written_architecture(), running) {
                (Some(arch), _) => reasons(arch),
                (None, Some(arch)) => reasons(arch),
                (None, None) => false,
            },
            structured_output: self.source.here() && engine.grammar,
        }
    }
}

impl Clone for Model {
    fn clone(&self) -> (out: Self)
        ensures
            out@ == self@,
    {
        let header = match &self.header {
            Some(header) => Some(header.clone()),
            None => None,
        };
        Model {
            id: self.id,
            name: copy_text(&self.name),
            source: self.source.clone(),
            header,
        }
    }
}

impl Model {
    /// A model under an id.
    pub fn new(
        id: ModelId,
        name: Option<String>,
        source: ModelSourceKind,
        header: Option<fit::ModelInfo>,
    ) -> (out: Self)
        ensures
            out@ == (ModelView { id, name: view_of(name), source, header }),
    {
        Model { id, name, source, header }
    }

    /// This model's id within its runtime.
    pub fn id(&self) -> (out: ModelId)
        ensures
            out == self@.id,
    {
        self.id
    }

    /// Its display name.
    pub fn name(&self) -> (out: Option<String>)
        ensures
            view_of(out) == self@.name,
    {
        copy_text(&self.name)
    }

    /// Whether inference happens on this machine.
    pub fn is_local(&self) -> (out: bool)
        ensures
            out == self@.source.here(),
    {
        self.source.is_local()
    }

    /// Generate a reply to `input`, keeping nothing afterwards.
    pub fn generate(&self, input: Input) -> (out: Generation)
        ensures
            out@ == OneShotView::asking(input@),
    {
        Generation::new(input)
    }

    /// What this model is, given what its engine says of it, where it says
    /// anything. The architecture that runs wins over the one the header
    /// gives.
    pub fn info(&self, running: Option<RunningModel>) -> (out: ModelInfo)
        ensures
            out.id == self@.id,
            view_of(out.name) == self@.name,
            out.source == self@.source,
            out.local == self@.source.here(),
            view_of(out.architecture) == (match running {
                Some(r) if r.architecture is Some => view_of(r.architecture),
                _ => self@.written_architecture(),
            }),
            out.context_window == (match running {
                Some(r) => r.context,
                None => None,
            }),
            out.offload == (match running {
                Some(r) => r.offload,
                None => None,
            }),
    {
        let written = match &self.header {
            Some(header) => copy_text(&header.architecture),
            None => None,
        };
        let (architecture, context_window, offload) = match running {
            Some(r) => (
                match r.architecture {
                    Some(arch) => Some(arch),
                    None => written,
                },
                r.context,
                r.offload,
            ),
            None => (written, None, None),
        };
        ModelInfo {
            id: self.id,
            name: copy_text(&self.name),
            architecture,
            context_window,
            source: self.source.clone(),
            local: self.source.is_local(),
            offload,
        }
    }

    /// What this model can be asked to do, given what its engine can, and the
    /// architecture that is running, where it is known.
    pub fn capabilities(&self, engine: EngineAbilities, running: Option<String>) -> (out:
        ModelCapabilities)
        ensures
            out == self@.abilities(engine, view_of(running)),
    {
        let written = match &self.header {
            Some(header) => copy_text(&header.architecture),
            None => None,
        };
        let architecture = match written {
            Some(arch) => Some(arch),
            None => running,
        };
        let reasoning = match &architecture {
            Some(arch) => is_reasoning_architecture(arch.as_str()),
            None => false,
        };
        let tools = match &self.header {
            Some(header) => header.supports_tools,
            None => true,
        };
        let local = self.source.is_local();
        ModelCapabilities {
            text: true,
            images: engine.images,
            audio: engine.audio,
            tools: local && tools,
            reasoning,
            structured_output: local && engine.grammar,
        }
    }
}

/// A remote model claims neither tools nor structured output, whatever its
/// engine and its header say.
pub proof fn a_remote_model_claims_no_tools_and_no_schema(
    model: ModelView,
    engine: EngineAbilities,
    running: Option<Seq<char>>,
)
    requires
        model.source is Remote,
    ensures
        !model.abilities(engine, running).tools,
        !model.abilities(engine, running).structured_output,
        model.abilities(engine, running).text,
{
}

/// What a model can be asked to do: text always, images and audio as its
/// engine can; tools where inference is here and its template has a place for
/// them; a schema where inference is here and the engine enforces one.
pub proof fn what_a_model_can_be_asked(
    model: ModelView,
    engine: EngineAbilities,
    running: Option<Seq<char>>,
)
    ensures
        ({
            let can = model.abilities(engine, running);
            let local = model.source != ModelSourceKind::Remote;
            &&& can.text
            &&& can.images == engine.images
            &&& can.audio == engine.audio
            &&& model.header matches Some(header) ==> can.tools == (local && header.supports_tools)
            &&& model.header is None ==> can.tools == local
            &&& can.structured_output == (local && engine.grammar)
        }),
{
}

/// A model reasons where its architecture is known to: the one its file names
/// counts before the one that is running.
pub proof fn which_architecture_counts(
    model: ModelView,
    engine: EngineAbilities,
    running: Option<Seq<char>>,
)
    ensures
        ({
            let can = model.abilities(engine, running);
            let known = |arch: Seq<char>|
                arch == "qwen3"@ || arch == "qwen3moe"@ || arch == "gemma4"@;
            let written = match model.header {
                Some(header) => view_of(header.architecture),
                None => None,
            };
            &&& written matches Some(arch) ==> can.reasoning == known(arch)
            &&& written is None ==> (running matches Some(arch) ==> can.reasoning == known(arch))
            &&& written is None && running is None ==> !can.reasoning
        }),
{
}

} // verus!
