//! What an engine keeps track of, and what building one decides.
//!
//! The loop that runs a backend is elsewhere; here is how much of each
//! conversation it was handed, when that no longer holds, and what is loaded,
//! at which context, when an engine is built.
use vstd::prelude::*;
use vstd::string::*;
use crate::error::Error;
use crate::fit::{budget, FitVerdict, HardwareProfile, ModelInfo};
use crate::generation::{GenSpec, GenView, GrammarSpec, Sampling};
use crate::seqs::{group_views, view_of, views};
use crate::text::{same_text, starts_with};

verus! {

broadcast use group_views;

// ── What was delivered ──────────────────────────────────────────────────────

/// How many conversations are kept track of at once.
pub const MAX_TRACKED: usize = 1024;

/// How much of each conversation the engine was handed, so a follow-up sends
/// only what is new.
///
/// Whether a conversation is live is the session's to say; a missing entry
/// here just means "send everything", never a wrong answer.
#[derive(Debug, PartialEq, Eq)]
pub struct Delivery {
    sent: Vec<(String, usize)>,
}

/// Where a conversation stands among those kept.
pub open spec fn place(sent: Seq<(String, usize)>, id: Seq<char>) -> Option<int>
    decreases sent.len(),
{
    if sent.len() == 0 {
        None
    } else if sent.last().0@ == id {
        Some(sent.len() - 1)
    } else {
        place(sent.drop_last(), id)
    }
}

/// What is known of a place.
proof fn place_holds(sent: Seq<(String, usize)>, id: Seq<char>)
    ensures
        match place(sent, id) {
            Some(i) => 0 <= i < sent.len() && sent[i].0@ == id,
            None => forall|i: int| 0 <= i < sent.len() ==> (#[trigger] sent[i]).0@ != id,
        },
    decreases sent.len(),
{
    if sent.len() > 0 {
        place_holds(sent.drop_last(), id);
        assert forall|i: int|
            place(sent, id) is None && 0 <= i < sent.len() implies (#[trigger] sent[i]).0@ != id by {
            if i < sent.len() - 1 {
                assert(sent.drop_last()[i] == sent[i]);
            }
        }
    }
}

/// Whether no conversation is kept twice.
spec fn kept_once(sent: Seq<(String, usize)>) -> bool {
    forall|i: int, j: int|
        #![trigger sent[i], sent[j]]
        0 <= i < j < sent.len() ==> sent[i].0@ != sent[j].0@
}

impl Delivery {
    #[verifier::type_invariant]
    spec fn inv(self) -> bool {
        self.sent.len() <= MAX_TRACKED && kept_once(self.sent@)
    }

    /// How many messages of a conversation were handed over, where that is
    /// known.
    pub closed spec fn known(self, id: Seq<char>) -> Option<usize> {
        match place(self.sent@, id) {
            Some(i) => Some(self.sent@[i].1),
            None => None,
        }
    }

    /// How many conversations are kept track of.
    pub closed spec fn size(self) -> nat {
        self.sent@.len()
    }

    /// Nothing handed over.
    pub fn new() -> (out: Self)
        ensures
            forall|id: Seq<char>| #[trigger] out.known(id) is None,
            out.size() == 0,
    {
        Delivery { sent: Vec::new() }
    }

    fn find(&self, id: &str) -> (out: Option<usize>)
        ensures
            match out {
                Some(i) => i < self.sent.len() && place(self.sent@, id@) == Some(i as int),
                None => place(self.sent@, id@) is None,
            },
    {
        let mut n: usize = self.sent.len();
        assert(self.sent@.take(n as int) =~= self.sent@);
        while n > 0
            invariant
                n <= self.sent.len(),
                place(self.sent@, id@) == place(self.sent@.take(n as int), id@),
            decreases n,
        {
            assert(self.sent@.take(n as int).drop_last() =~= self.sent@.take(n - 1));
            let at: usize = n - 1;
            if same_text(self.sent[at].0.as_str(), id) {
                return Some(at);
            }
            n = at;
        }
        assert(self.sent@.take(0) =~= Seq::empty());
        None
    }

    /// How many of a conversation's messages the engine already has.
    pub fn sent_through(&self, id: &str) -> (out: usize)
        ensures
            out == (match self.known(id@) {
                Some(count) => count,
                None => 0,
            }),
    {
        match self.find(id) {
            Some(i) => self.sent[i].1,
            None => 0,
        }
    }

    /// How many conversations are kept track of; never more than
    /// [`MAX_TRACKED`].
    pub fn len(&self) -> (out: usize)
        ensures
            out == self.size(),
            out <= MAX_TRACKED,
    {
        proof {
            use_type_invariant(self);
        }
        self.sent.len()
    }

    /// Record that the engine now has `count` of a conversation's messages.
    ///
    /// Conversations come and go without a word, so this is bounded: where it
    /// is full and the conversation is new, everything is forgotten first,
    /// which only costs the next turns a resend.
    pub fn mark_sent(self, id: &str, count: usize) -> (out: Self)
        ensures
            out.known(id@) == Some(count),
            forall|other: Seq<char>|
                other != id@ ==> #[trigger] out.known(other) == (if self.size() >= MAX_TRACKED
                    && self.known(id@) is None {
                    None
                } else {
                    self.known(other)
                }),
            out.size() == (if self.known(id@) is Some {
                self.size()
            } else if self.size() >= MAX_TRACKED {
                1
            } else {
                self.size() + 1
            }),
            out.size() <= MAX_TRACKED,
    {
        proof {
            use_type_invariant(&self);
        }
        let found = self.find(id);
        let ghost before = self.sent@;
        let mut sent = self.sent;
        match found {
            Some(i) => {
                sent.set(i, (id.to_owned(), count));
                proof {
                    assert(sent@ =~= before.update(i as int, sent@[i as int]));
                    place_holds(before, id@);
                    assert(kept_once(sent@));
                    assert forall|other: Seq<char>| #[trigger]
                        place(sent@, other) == place(before, other) by {
                        updated_place(before, i as int, sent@[i as int], other);
                    }
                    assert forall|other: Seq<char>| other != id@ && place(before, other) is Some implies sent@[place(
                        sent@,
                        other,
                    )->0] == #[trigger] before[place(before, other)->0] by {
                        place_holds(before, other);
                    }
                }
                Delivery { sent }
            },
            None => {
                if sent.len() >= MAX_TRACKED {
                    sent = Vec::new();
                }
                let ghost had = sent@;
                sent.push((id.to_owned(), count));
                proof {
                    place_holds(before, id@);
                    assert(sent@.drop_last() =~= had);
                    assert forall|i: int, j: int|
                        #![trigger sent@[i], sent@[j]]
                        0 <= i < j < sent@.len() implies sent@[i].0@ != sent@[j].0@ by {
                        if j < had.len() {
                            assert(had[i] == sent@[i] && had[j] == sent@[j]);
                        } else {
                            assert(had[i] == sent@[i]);
                        }
                    }
                    assert forall|other: Seq<char>| other != id@ implies #[trigger]
                        place(sent@, other) == place(had, other) by {}
                    assert forall|other: Seq<char>| other != id@ && place(had, other) is Some implies sent@[place(
                        sent@,
                        other,
                    )->0] == #[trigger] had[place(had, other)->0] by {
                        place_holds(had, other);
                    }
                }
                Delivery { sent }
            },
        }
    }

    /// Forget a conversation. Not required for correctness — a missing entry
    /// just means the next turn resends everything.
    pub fn forget(self, id: &str) -> (out: Self)
        ensures
            out.known(id@) is None,
            forall|other: Seq<char>|
                other != id@ ==> #[trigger] out.known(other) == self.known(other),
            out.size() == (if self.known(id@) is Some {
                (self.size() - 1) as nat
            } else {
                self.size()
            }),
    {
        proof {
            use_type_invariant(&self);
        }
        match self.find(id) {
            None => self,
            Some(i) => {
                let ghost before = self.sent@;
                let mut sent = self.sent;
                let _ = sent.remove(i);
                proof {
                    place_holds(before, id@);
                    assert(sent@ =~= before.remove(i as int));
                    assert(kept_once(sent@));
                    place_holds(sent@, id@);
                    if place(sent@, id@) is Some {
                        let j = place(sent@, id@)->0;
                        let k = if j < i {
                            j
                        } else {
                            j + 1
                        };
                        assert(before[k] == sent@[j]);
                    }
                    assert forall|other: Seq<char>| other != id@ implies (#[trigger]
                    place(sent@, other) is Some) == (place(before, other) is Some) && (place(
                        sent@,
                        other,
                    ) is Some ==> sent@[place(sent@, other)->0] == before[place(
                        before,
                        other,
                    )->0]) by {
                        removed_place(before, i as int, other);
                    }
                }
                Delivery { sent }
            },
        }
    }
}

proof fn updated_place(
    sent: Seq<(String, usize)>,
    i: int,
    entry: (String, usize),
    id: Seq<char>,
)
    requires
        0 <= i < sent.len(),
        entry.0@ == sent[i].0@,
    ensures
        place(sent.update(i, entry), id) == place(sent, id),
    decreases sent.len(),
{
    let out = sent.update(i, entry);
    if i < sent.len() - 1 {
        assert(out.drop_last() =~= sent.drop_last().update(i, entry));
        updated_place(sent.drop_last(), i, entry, id);
    } else {
        assert(out.drop_last() =~= sent.drop_last());
    }
}

proof fn removed_place(sent: Seq<(String, usize)>, i: int, id: Seq<char>)
    requires
        0 <= i < sent.len(),
        sent[i].0@ != id,
    ensures
        place(sent.remove(i), id) == (match place(sent, id) {
            Some(j) => Some(
                if j < i {
                    j
                } else {
                    j - 1
                },
            ),
            None => None,
        }),
        place(sent, id) matches Some(j) ==> 0 <= j < sent.len() && j != i && sent.remove(i)[if j < i {
            j
        } else {
            j - 1
        }] == sent[j],
    decreases sent.len(),
{
    place_holds(sent, id);
    let out = sent.remove(i);
    if i < sent.len() - 1 {
        assert(out.last() == sent.last());
        assert(out.drop_last() =~= sent.drop_last().remove(i));
        if sent.last().0@ != id {
            removed_place(sent.drop_last(), i, id);
        }
    } else {
        assert(out =~= sent.drop_last());
    }
}

// ── Model swaps ─────────────────────────────────────────────────────────────

/// An engine's books: what was delivered, and how often the model changed.
///
/// A session's cached prefill belongs to the model that produced it, so a
/// swap invalidates every live session. Sessions record the generation they
/// were opened against and reopen when it moves.
#[derive(Debug, PartialEq, Eq)]
pub struct Books {
    pub delivery: Delivery,
    pub generation: u64,
}

impl Books {
    /// Nothing delivered, nothing swapped.
    pub fn new() -> (out: Self)
        ensures
            out.generation == 0,
            forall|id: Seq<char>| #[trigger] out.delivery.known(id) is None,
            out.delivery.size() == 0,
    {
        Books { delivery: Delivery::new(), generation: 0 }
    }

    /// The chat model changed: counts describe a conversation the new model
    /// has never seen. Only after a load, unload or reload succeeded — a
    /// failed one must not cost a re-prefill for nothing.
    pub fn model_changed(self) -> (out: Self)
        ensures
            out.generation == (self.generation + 1) % (u64::MAX + 1),
            forall|id: Seq<char>| #[trigger] out.delivery.known(id) is None,
            out.delivery.size() == 0,
    {
        Books { delivery: Delivery::new(), generation: self.generation.wrapping_add(1) }
    }

    /// What a load, unload or reload leaves: a failed one leaves everything as
    /// it was.
    pub fn after(self, succeeded: bool) -> (out: Self)
        ensures
            !succeeded ==> out == self,
            succeeded ==> {
                &&& out.generation == (self.generation + 1) % (u64::MAX + 1)
                &&& forall|id: Seq<char>| #[trigger] out.delivery.known(id) is None
                &&& out.delivery.size() == 0
            },
    {
        if succeeded {
            self.model_changed()
        } else {
            self
        }
    }
}

/// Whether a path is an address rather than a file, so there is nothing on
/// disk to look at before a load.
pub fn is_url(path: &str) -> (out: bool)
    ensures
        out == ("http://"@.is_prefix_of(path@) || "https://"@.is_prefix_of(path@)),
{
    starts_with(path, "http://") || starts_with(path, "https://")
}

// ── What an engine answers ──────────────────────────────────────────────────

/// What a load comes to: nothing comes back from an engine that is gone.
pub fn load_answer<T>(reply: Option<Result<T, String>>) -> (out: Result<T, Error>)
    ensures
        match reply {
            None => out matches Err(e) && e is ControllerGone,
            Some(Err(words)) => out matches Err(Error::Load(w)) && w == words,
            Some(Ok(t)) => out == Ok::<T, Error>(t),
        },
{
    match reply {
        None => Err(Error::ControllerGone),
        Some(Err(words)) => Err(Error::Load(words)),
        Some(Ok(t)) => Ok(t),
    }
}

/// What a request to a reranker or an embedder comes to; `code` says which
/// failed.
pub fn service_answer<T>(reply: Option<Result<T, String>>, code: &str) -> (out: Result<T, Error>)
    ensures
        match reply {
            None => out matches Err(e) && e is ControllerGone,
            Some(Err(words)) => out matches Err(Error::Generation { code: c, message }) && c@
                == code@ && message == words,
            Some(Ok(t)) => out == Ok::<T, Error>(t),
        },
{
    match reply {
        None => Err(Error::ControllerGone),
        Some(Err(words)) => Err(Error::Generation { code: code.to_owned(), message: words }),
        Some(Ok(t)) => Ok(t),
    }
}

/// The vector of the one text that was embedded.
pub fn one_vector<T>(vectors: Vec<T>) -> (out: Result<T, Error>)
    ensures
        if vectors.len() == 0 {
            out matches Err(Error::Generation { code, message }) && code@ == "embedding_failed"@
                && message@ == "embedder returned no vectors"@
        } else {
            out == Ok::<T, Error>(vectors@.last())
        },
{
    let mut vectors = vectors;
    match vectors.pop() {
        Some(vector) => Ok(vector),
        None => Err(
            Error::Generation {
                code: "embedding_failed".to_owned(),
                message: "embedder returned no vectors".to_owned(),
            },
        ),
    }
}

/// What stopping an engine comes to.
pub fn stop_answer(panicked: bool) -> (out: Result<(), Error>)
    ensures
        if panicked {
            out matches Err(Error::Generation { code, message }) && code@
                == "controller_panicked"@ && message@
                == "the controller loop panicked during shutdown"@
        } else {
            out is Ok
        },
{
    if panicked {
        Err(
            Error::Generation {
                code: "controller_panicked".to_owned(),
                message: "the controller loop panicked during shutdown".to_owned(),
            },
        )
    } else {
        Ok(())
    }
}

// ── Building ────────────────────────────────────────────────────────────────

/// An out-of-tree backend, by name.
///
/// Asked before every built-in routing rule, in registration order.
#[derive(Debug, PartialEq, Eq)]
pub struct BackendPlugin {
    /// What the backend calls itself. Two registered plugins must not share
    /// it.
    pub name: String,
}

impl View for BackendPlugin {
    type V = Seq<char>;

    open spec fn view(&self) -> Seq<char> {
        self.name@
    }
}

impl Clone for BackendPlugin {
    fn clone(&self) -> (out: Self)
        ensures
            out@ == self@,
    {
        BackendPlugin { name: self.name.clone() }
    }
}

/// The plugin a model is routed to, given which of them claim its path: the
/// first that does.
pub fn first_claim(claims: &Vec<bool>) -> (out: Option<usize>)
    ensures
        match out {
            Some(i) => i < claims.len() && claims@[i as int] && forall|k: int|
                0 <= k < i ==> !#[trigger] claims@[k],
            None => forall|k: int| 0 <= k < claims.len() ==> !#[trigger] claims@[k],
        },
{
    let mut i: usize = 0;
    while i < claims.len()
        invariant
            i <= claims.len(),
            forall|k: int| 0 <= k < i ==> !#[trigger] claims@[k],
        decreases claims.len() - i,
    {
        if claims[i] {
            return Some(i);
        }
        i += 1;
    }
    None
}

/// What of the engine's settings building decides.
#[derive(Debug, Clone, Copy, PartialEq, Eq)]
pub struct Settings {
    /// The context window, in tokens.
    pub ctx_size: Option<u32>,
}

/// Controller policy.
#[derive(Debug, PartialEq, Eq)]
pub struct ControllerConfig {
    /// How many conversations are kept resident at once.
    pub max_active_chats: usize,
    /// How many events a turn may buffer.
    pub event_channel_capacity: usize,
    /// Backends from outside, in registration order.
    pub plugins: Vec<BackendPlugin>,
}

/// Controller policy, mathematically.
#[verifier::ext_equal]
pub struct ConfigView {
    pub max_active_chats: usize,
    pub event_channel_capacity: usize,
    pub plugins: Seq<Seq<char>>,
}

impl View for ControllerConfig {
    type V = ConfigView;

    open spec fn view(&self) -> ConfigView {
        ConfigView {
            max_active_chats: self.max_active_chats,
            event_channel_capacity: self.event_channel_capacity,
            plugins: views(self.plugins@),
        }
    }
}

impl Clone for ControllerConfig {
    fn clone(&self) -> (out: Self)
        ensures
            out@ == self@,
    {
        let plugins = self.plugins.clone();
        assert(views(plugins@) =~= views(self.plugins@));
        ControllerConfig {
            max_active_chats: self.max_active_chats,
            event_channel_capacity: self.event_channel_capacity,
            plugins,
        }
    }
}

/// How the context window is decided.
#[derive(Debug, Clone, Copy, PartialEq, Eq)]
pub enum ContextChoice {
    /// Whatever the backend picks. No fit check.
    Backend,
    /// This exact size; fail if it doesn't fit.
    Exact(u32),
    /// The largest the machine can give.
    Auto,
}

/// Builds an engine.
#[derive(PartialEq, Eq)]
pub struct EngineBuilder {
    model_path: Option<String>,
    mmproj_path: Option<String>,
    settings: Option<Settings>,
    config: Option<ControllerConfig>,
    api_key: Option<String>,
    api_format: Option<String>,
    remote_model: Option<String>,
    embedder_path: Option<String>,
    reranker_path: Option<String>,
    embedder_kind: Option<String>,
    context: ContextChoice,
    defaults: GenSpec,
    plugins: Vec<BackendPlugin>,
}

/// A builder, mathematically.
#[verifier::ext_equal]
pub struct BuilderView {
    pub model_path: Option<Seq<char>>,
    pub mmproj_path: Option<Seq<char>>,
    pub settings: Option<Settings>,
    pub config: Option<ConfigView>,
    pub api_key: Option<Seq<char>>,
    pub api_format: Option<Seq<char>>,
    pub remote_model: Option<Seq<char>>,
    pub embedder_path: Option<Seq<char>>,
    pub reranker_path: Option<Seq<char>>,
    pub embedder_kind: Option<Seq<char>>,
    pub context: ContextChoice,
    pub defaults: GenView,
    pub plugins: Seq<Seq<char>>,
}

impl View for EngineBuilder {
    type V = BuilderView;

    closed spec fn view(&self) -> BuilderView {
        BuilderView {
            model_path: view_of(self.model_path),
            mmproj_path: view_of(self.mmproj_path),
            settings: self.settings,
            config: view_of(self.config),
            api_key: view_of(self.api_key),
            api_format: view_of(self.api_format),
            remote_model: view_of(self.remote_model),
            embedder_path: view_of(self.embedder_path),
            reranker_path: view_of(self.reranker_path),
            embedder_kind: view_of(self.embedder_kind),
            context: self.context,
            defaults: self.defaults@,
            plugins: views(self.plugins@),
        }
    }
}

impl BuilderView {
    /// Nothing set.
    pub open spec fn blank() -> BuilderView {
        BuilderView {
            model_path: None,
            mmproj_path: None,
            settings: None,
            config: None,
            api_key: None,
            api_format: None,
            remote_model: None,
            embedder_path: None,
            reranker_path: None,
            embedder_kind: None,
            context: ContextChoice::Backend,
            defaults: GenView::blank(),
            plugins: Seq::empty(),
        }
    }

    /// Whether there is anything to load.
    pub open spec fn loads(self) -> bool {
        self.model_path is Some || self.embedder_path is Some || self.reranker_path is Some
    }

    /// The context that is checked against the machine: the one asked for,
    /// else the largest that as many conversations as are kept resident can
    /// have. `None` where nothing is checked: the backend decides, or the
    /// model's header cannot be read.
    pub open spec fn checked(
        self,
        info: Option<ModelInfo>,
        hw: HardwareProfile,
        chats: nat,
    ) -> Option<u32> {
        match (self.context, self.model_path, info) {
            (ContextChoice::Backend, _, _) => None,
            (ContextChoice::Exact(n), Some(_), Some(_)) => Some(n),
            (ContextChoice::Auto, Some(_), Some(info)) => Some(
                info.largest_context_for(hw, chats),
            ),
            _ => None,
        }
    }

    /// The context the model is loaded with, where nothing is checked: the
    /// one asked for, else the settings'.
    pub open spec fn unchecked(self, settings: Settings) -> Option<u32> {
        match self.context {
            ContextChoice::Exact(n) => Some(n),
            _ => settings.ctx_size,
        }
    }
}

/// What building an engine comes to: the controller's policy, and what is
/// loaded, in this order: the chat model, the reranker, the embedder.
#[derive(PartialEq, Eq)]
pub struct BuildPlan {
    /// Controller policy, outside backends included.
    pub config: ControllerConfig,
    /// The settings the model is loaded with.
    pub settings: Settings,
    /// The chat model.
    pub model_path: Option<String>,
    /// Its projector.
    pub mmproj_path: Option<String>,
    /// The key of a remote endpoint.
    pub api_key: Option<String>,
    /// The format it speaks.
    pub api_format: Option<String>,
    /// The name it serves the model under.
    pub remote_model: Option<String>,
    /// The reranker.
    pub reranker_path: Option<String>,
    /// The embedder.
    pub embedder_path: Option<String>,
    /// Its family, where it is forced.
    pub embedder_kind: Option<String>,
    /// What every turn starts from.
    pub defaults: GenSpec,
}

impl Default for EngineBuilder {
    fn default() -> (out: Self)
        ensures
            out@ == BuilderView::blank(),
    {
        let out = EngineBuilder {
            model_path: None,
            mmproj_path: None,
            settings: None,
            config: None,
            api_key: None,
            api_format: None,
            remote_model: None,
            embedder_path: None,
            reranker_path: None,
            embedder_kind: None,
            context: ContextChoice::Backend,
            defaults: GenSpec::default(),
            plugins: Vec::new(),
        };
        assert(out@ =~= BuilderView::blank());
        out
    }
}

impl EngineBuilder {
    /// The model to load — a GGUF file, an MLX model directory, or a
    /// `.litertlm` bundle. The backend is chosen from what's there.
    pub fn model(self, path: &str) -> (out: Self)
        ensures
            out@ == (BuilderView { model_path: Some(path@), ..self@ }),
    {
        let mut out = self;
        out.model_path = Some(path.to_owned());
        out
    }

    /// A multimodal projector, for vision models that need one alongside the
    /// weights.
    pub fn mmproj(self, path: &str) -> (out: Self)
        ensures
            out@ == (BuilderView { mmproj_path: Some(path@), ..self@ }),
    {
        let mut out = self;
        out.mmproj_path = Some(path.to_owned());
        out
    }

    /// Settings to override the defaults with, wholesale.
    pub fn settings(self, settings: Settings) -> (out: Self)
        ensures
            out@ == (BuilderView { settings: Some(settings), ..self@ }),
    {
        let mut out = self;
        out.settings = Some(settings);
        out
    }

    /// Controller policy: how many chats may run at once, event buffering.
    pub fn config(self, config: ControllerConfig) -> (out: Self)
        ensures
            out@ == (BuilderView { config: Some(config@), ..self@ }),
    {
        let mut out = self;
        out.config = Some(config);
        out
    }

    /// Bring your own backend. Register several and they are asked in this
    /// order.
    pub fn backend(self, plugin: BackendPlugin) -> (out: Self)
        ensures
            out@ == (BuilderView { plugins: self@.plugins.push(plugin@), ..self@ }),
    {
        let ghost before = self@;
        let mut out = self;
        out.plugins.push(plugin);
        assert(out@ =~= BuilderView { plugins: before.plugins.push(plugin@), ..before });
        out
    }

    /// Serve from an OpenAI-compatible endpoint instead of local weights.
    ///
    /// `base_url` is the API root. The backend is selected from the URL, so
    /// this must be one.
    pub fn openai(self, base_url: &str, api_key: &str) -> (out: Self)
        ensures
            out@ == (BuilderView {
                model_path: Some(base_url@),
                api_key: Some(api_key@),
                api_format: Some("openai"@),
                ..self@
            }),
    {
        let mut out = self;
        out.model_path = Some(base_url.to_owned());
        out.api_key = Some(api_key.to_owned());
        out.api_format = Some("openai".to_owned());
        out
    }

    /// Serve from an Anthropic-compatible endpoint instead of local weights.
    pub fn anthropic(self, base_url: &str, api_key: &str) -> (out: Self)
        ensures
            out@ == (BuilderView {
                model_path: Some(base_url@),
                api_key: Some(api_key@),
                api_format: Some("anthropic"@),
                ..self@
            }),
    {
        let mut out = self;
        out.model_path = Some(base_url.to_owned());
        out.api_key = Some(api_key.to_owned());
        out.api_format = Some("anthropic".to_owned());
        out
    }

    /// The name the endpoint serves its model under.
    pub fn remote_model(self, name: &str) -> (out: Self)
        ensures
            out@ == (BuilderView { remote_model: Some(name@), ..self@ }),
    {
        let mut out = self;
        out.remote_model = Some(name.to_owned());
        out
    }

    /// Size the context window to the machine: the largest that fits.
    ///
    /// GGUF only — other formats keep the backend's default.
    pub fn auto_context(self) -> (out: Self)
        ensures
            out@ == (BuilderView { context: ContextChoice::Auto, ..self@ }),
    {
        let mut out = self;
        out.context = ContextChoice::Auto;
        out
    }

    /// Use exactly this context window.
    ///
    /// [`build`](Self::build) fails with [`Error::WontFit`] if the machine
    /// can't supply it, rather than discovering it during load.
    pub fn context(self, tokens: u32) -> (out: Self)
        ensures
            out@ == (BuilderView { context: ContextChoice::Exact(tokens), ..self@ }),
    {
        let mut out = self;
        out.context = ContextChoice::Exact(tokens);
        out
    }

    /// Load an embedding model alongside (or instead of) the chat model.
    pub fn embedder(self, path: &str) -> (out: Self)
        ensures
            out@ == (BuilderView { embedder_path: Some(path@), ..self@ }),
    {
        let mut out = self;
        out.embedder_path = Some(path.to_owned());
        out
    }

    /// Load a reranking model alongside (or instead of) the chat model.
    pub fn reranker(self, path: &str) -> (out: Self)
        ensures
            out@ == (BuilderView { reranker_path: Some(path@), ..self@ }),
    {
        let mut out = self;
        out.reranker_path = Some(path.to_owned());
        out
    }

    /// Force an embedder family (`"qwen3"`) instead of detecting it from the
    /// filename.
    pub fn embedder_kind(self, kind: &str) -> (out: Self)
        ensures
            out@ == (BuilderView { embedder_kind: Some(kind@), ..self@ }),
    {
        let mut out = self;
        out.embedder_kind = Some(kind.to_owned());
        out
    }

    /// Cap tokens for every turn unless it overrides this.
    pub fn max_tokens(self, n: usize) -> (out: Self)
        ensures
            out@ == (BuilderView {
                defaults: GenView { max_tokens: Some(n), ..self@.defaults },
                ..self@
            }),
    {
        let mut out = self;
        out.defaults.max_tokens = Some(n);
        out
    }

    /// Seed for every turn unless it overrides this.
    pub fn seed(self, seed: u64) -> (out: Self)
        ensures
            out@ == (BuilderView {
                defaults: GenView {
                    sampling: Sampling { seed: Some(seed), ..self@.defaults.sampling },
                    ..self@.defaults
                },
                ..self@
            }),
    {
        let mut out = self;
        out.defaults.sampling.seed = Some(seed);
        out
    }

    /// Decode deterministically by default: temperature 0 with a fixed seed.
    pub fn greedy(self) -> (out: Self)
        ensures
            out@ == (BuilderView {
                defaults: GenView {
                    sampling: self@.defaults.sampling.greedily(),
                    ..self@.defaults
                },
                ..self@
            }),
    {
        let mut out = self;
        out.defaults.sampling = out.defaults.sampling.greedy();
        out
    }

    /// Constrain every turn's output to a grammar unless it overrides this.
    pub fn grammar(self, grammar: GrammarSpec) -> (out: Self)
        ensures
            out@ == (BuilderView {
                defaults: GenView { grammar: Some(grammar@), ..self@.defaults },
                ..self@
            }),
    {
        let mut out = self;
        out.defaults.grammar = Some(grammar);
        out
    }

    /// Decide what is loaded, and at which context.
    ///
    /// `info` is the model file's header, where it could be read; `hw` is the
    /// machine. The fit is checked before anything is started, so a model that
    /// cannot run fails with a verdict instead of a load error. An exact
    /// context is honoured whether or not there is a header to check it
    /// against.
    pub fn build(
        self,
        default_config: ControllerConfig,
        default_settings: Settings,
        info: Option<&ModelInfo>,
        hw: &HardwareProfile,
    ) -> (out: Result<BuildPlan, Error>)
        ensures
            ({
                let b = self@;
                let config = match b.config {
                    Some(config) => config,
                    None => default_config@,
                };
                let settings = match b.settings {
                    Some(settings) => settings,
                    None => default_settings,
                };
                let header = match info {
                    Some(info) => Some(*info),
                    None => None,
                };
                let wanted = b.checked(header, *hw, config.max_active_chats as nat);
                if !b.loads() {
                    out matches Err(Error::Load(words)) && words@
                        == "nothing to load — call .model(path), .embedder(path), .openai(..), or .anthropic(..)"@
                } else if wanted matches Some(n) && header.unwrap().verdict(*hw, n)
                    != FitVerdict::Fits {
                    &&& out matches Err(Error::WontFit(fit))
                    &&& fit.context == wanted->0
                    &&& fit.verdict == header.unwrap().verdict(*hw, wanted->0)
                    &&& fit.max_context == header.unwrap().largest_context(*hw)
                    &&& fit.needed_bytes == header.unwrap().needed(wanted->0 as int)
                    &&& fit.available_bytes == budget(*hw)
                    &&& fit.model_bytes == header.unwrap().file_bytes
                } else {
                    &&& out matches Ok(plan)
                    &&& plan.settings.ctx_size == (match wanted {
                        Some(n) => Some(n),
                        None => b.unchecked(settings),
                    })
                    &&& plan.config@ == (ConfigView {
                        plugins: config.plugins + b.plugins,
                        ..config
                    })
                    &&& view_of(plan.model_path) == b.model_path
                    &&& view_of(plan.mmproj_path) == b.mmproj_path
                    &&& view_of(plan.api_key) == b.api_key
                    &&& view_of(plan.api_format) == b.api_format
                    &&& view_of(plan.remote_model) == b.remote_model
                    &&& view_of(plan.reranker_path) == b.reranker_path
                    &&& view_of(plan.embedder_path) == b.embedder_path
                    &&& view_of(plan.embedder_kind) == b.embedder_kind
                    &&& plan.defaults@ == b.defaults
                }
            }),
    {
        let ghost b = self@;
        if self.model_path.is_none() && self.embedder_path.is_none()
            && self.reranker_path.is_none() {
            return Err(
                Error::Load(
                    "nothing to load — call .model(path), .embedder(path), .openai(..), or .anthropic(..)".to_owned(),
                ),
            );
        }
        let mut config = match self.config {
            Some(config) => config,
            None => default_config,
        };
        let ghost known = views(config.plugins@);
        let mut plugins = self.plugins;
        config.plugins.append(&mut plugins);
        assert(views(config.plugins@) =~= known + b.plugins);
        let mut settings = match self.settings {
            Some(settings) => settings,
            None => default_settings,
        };
        match self.context {
            ContextChoice::Exact(n) => {
                settings.ctx_size = Some(n);
            },
            _ => {},
        }
        let wanted: Option<u32> = match (self.context, info) {
            (ContextChoice::Backend, _) => None,
            (ContextChoice::Exact(n), Some(_)) => if self.model_path.is_some() {
                Some(n)
            } else {
                None
            },
            (ContextChoice::Auto, Some(info)) => if self.model_path.is_some() {
                Some(info.max_context_for(hw, config.max_active_chats))
            } else {
                None
            },
            _ => None,
        };
        match (wanted, info) {
            (Some(n), Some(info)) => {
                let fit = info.fits(hw, Some(n));
                if !fit.ok() {
                    return Err(Error::WontFit(Box::new(fit)));
                }
                settings.ctx_size = Some(fit.context);
            },
            _ => {},
        }
        Ok(
            BuildPlan {
                config,
                settings,
                model_path: self.model_path,
                mmproj_path: self.mmproj_path,
                api_key: self.api_key,
                api_format: self.api_format,
                remote_model: self.remote_model,
                reranker_path: self.reranker_path,
                embedder_path: self.embedder_path,
                embedder_kind: self.embedder_kind,
                defaults: self.defaults,
            },
        )
    }
}

/// An explicit context is honoured: an engine that builds is loaded at that
/// context, whether or not the model's header could be read.
pub proof fn an_exact_context_is_honoured(
    b: BuilderView,
    info: Option<ModelInfo>,
    hw: HardwareProfile,
    chats: nat,
    settings: Settings,
    n: u32,
)
    requires
        b.context == ContextChoice::Exact(n),
    ensures
        (match b.checked(info, hw, chats) {
            Some(m) => Some(m),
            None => b.unchecked(settings),
        }) == Some(n),
{
}

/// Something is loaded where a chat model, an embedder or a reranker was
/// named, and nothing is checked that the caller left to the backend.
pub proof fn what_is_loaded_and_checked(
    b: BuilderView,
    info: Option<ModelInfo>,
    hw: HardwareProfile,
    chats: nat,
    settings: Settings,
)
    ensures
        !b.loads() <==> b.model_path is None && b.embedder_path is None && b.reranker_path is None,
        b.context == ContextChoice::Backend ==> b.checked(info, hw, chats) is None && b.unchecked(
            settings,
        ) == settings.ctx_size,
        b.context == ContextChoice::Auto ==> b.unchecked(settings) == settings.ctx_size,
        info is None || b.model_path is None ==> b.checked(info, hw, chats) is None,
        b.context == ContextChoice::Auto && b.model_path is Some ==> (info matches Some(header)
            ==> b.checked(info, hw, chats) == Some(header.largest_context_for(hw, chats))),
{
}

} // verus!
