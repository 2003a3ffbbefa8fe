//! What owns this machine's inference resources: which models there are, and
//! whose weights are resident.
//!
//! Weights are a cache. A model's handle stays valid after its weights are
//! evicted, by request or because another model needs the room, least
//! recently used first; its next turn restores them.
use vstd::prelude::*;
use vstd::string::*;
use crate::engine::{BackendPlugin, BuilderView, ConfigView, ControllerConfig, EngineBuilder, Settings};
use crate::error::Error;
use crate::fit;
use crate::model::{Model, ModelId, ModelSourceKind, ModelView};
use crate::seqs::{group_views, push_no_duplicates, view_of, views};
use crate::text::chars_of;

verus! {

broadcast use group_views;

// ── Models ──────────────────────────────────────────────────────────────────

/// One model the runtime has loaded.
#[derive(Debug, PartialEq, Eq)]
struct Loaded {
    model: Model,
    estimated_mb: u64,
    resident: bool,
    last_used: Option<u128>,
}

/// One model the runtime has loaded, mathematically.
pub struct LoadedView {
    pub model: ModelView,
    /// Host memory the weights are estimated to hold while resident, in MB.
    pub estimated_mb: u64,
    /// Whether the weights are resident.
    pub resident: bool,
    /// When the model was last used, in nanoseconds of the caller's clock.
    pub last_used: Option<u128>,
}

impl View for Loaded {
    type V = LoadedView;

    closed spec fn view(&self) -> LoadedView {
        LoadedView {
            model: self.model@,
            estimated_mb: self.estimated_mb,
            resident: self.resident,
            last_used: self.last_used,
        }
    }
}

impl LoadedView {
    /// Whether the weights take memory here.
    pub open spec fn held(self) -> bool {
        self.model.source.here() && self.resident
    }

    /// Whether the model can run as it is. A remote one always can: there is
    /// nothing on this machine to evict.
    pub open spec fn ready(self) -> bool {
        !self.model.source.here() || self.resident
    }

    /// Whether the model was used before another: never sorts before any
    /// use, and the older model goes first where both were used alike.
    pub open spec fn used_before(self, other: LoadedView) -> bool {
        match (self.last_used, other.last_used) {
            (None, Some(_)) => true,
            (Some(_), None) => false,
            (None, None) => self.model.id.0 < other.model.id.0,
            (Some(a), Some(b)) => a < b || a == b && self.model.id.0 < other.model.id.0,
        }
    }
}

/// The MB held by the resident local models.
pub open spec fn ledger(models: Seq<LoadedView>) -> nat
    decreases models.len(),
{
    if models.len() == 0 {
        0
    } else {
        ledger(models.drop_last()) + (if models.last().held() {
            models.last().estimated_mb as nat
        } else {
            0
        })
    }
}

/// The MB all models would hold.
pub open spec fn total(models: Seq<LoadedView>) -> nat
    decreases models.len(),
{
    if models.len() == 0 {
        0
    } else {
        total(models.drop_last()) + models.last().estimated_mb as nat
    }
}

/// How many models hold memory here.
pub open spec fn held_count(models: Seq<LoadedView>) -> nat
    decreases models.len(),
{
    if models.len() == 0 {
        0
    } else {
        held_count(models.drop_last()) + (if models.last().held() {
            1nat
        } else {
            0
        })
    }
}

/// Whether a model may be evicted.
pub open spec fn evictable(entry: LoadedView, keep: Option<ModelId>) -> bool {
    entry.held() && keep != Some(entry.model.id)
}

/// Where the model stands that is evicted next, if any may be.
pub open spec fn victim(models: Seq<LoadedView>, keep: Option<ModelId>) -> Option<int>
    decreases models.len(),
{
    if models.len() == 0 {
        None
    } else {
        let earlier = victim(models.drop_last(), keep);
        if !evictable(models.last(), keep) {
            earlier
        } else {
            match earlier {
                Some(i) => if models.last().used_before(models[i]) {
                    Some(models.len() - 1)
                } else {
                    Some(i)
                },
                None => Some(models.len() - 1),
            }
        }
    }
}

/// What the machine's memory governor says.
#[derive(Debug, Clone, Copy, PartialEq, Eq, Structural)]
pub struct Governor {
    /// The MB inference may hold.
    pub inference_resident_mb: u64,
    /// Whether the machine can take the model.
    pub can_load: bool,
}

/// Whether more resident memory fits: the ledger against the budget, where it
/// is pinned, else against the machine's governor, which has to agree.
pub open spec fn admits(
    models: Seq<LoadedView>,
    extra_mb: u64,
    budget_mb: Option<u64>,
    governor: Governor,
) -> bool {
    let sum = ledger(models) + extra_mb as nat;
    let projected = if sum > u64::MAX {
        u64::MAX as nat
    } else {
        sum
    };
    match budget_mb {
        Some(budget) => projected <= budget,
        None => projected <= governor.inference_resident_mb && governor.can_load,
    }
}

/// The models with one whose weights are there, or gone.
pub open spec fn placed(models: Seq<LoadedView>, i: int, resident: bool) -> Seq<LoadedView> {
    models.update(i, LoadedView { resident, ..models[i] })
}

/// The models once room was made: the least recently used one goes, until
/// more fits or none may go.
pub open spec fn settled(
    models: Seq<LoadedView>,
    extra_mb: u64,
    keep: Option<ModelId>,
    budget_mb: Option<u64>,
    governor: Governor,
) -> Seq<LoadedView>
    decreases held_count(models),
{
    if admits(models, extra_mb, budget_mb, governor) {
        models
    } else {
        match victim(models, keep) {
            None => models,
            Some(i) => {
                proof {
                    only_what_can_go_is_evicted(models, keep);
                    placing_counts(models, i, false);
                }
                settled(placed(models, i, false), extra_mb, keep, budget_mb, governor)
            },
        }
    }
}

proof fn victim_is_evictable(models: Seq<LoadedView>, keep: Option<ModelId>)
    ensures
        match victim(models, keep) {
            Some(i) => 0 <= i < models.len() && evictable(models[i], keep),
            None => forall|j: int| 0 <= j < models.len() ==> !evictable(#[trigger] models[j], keep),
        },
    decreases models.len(),
{
    if models.len() > 0 {
        let rest = models.drop_last();
        victim_is_evictable(rest, keep);
        if victim(models, keep) is None {
            assert forall|j: int| 0 <= j < models.len() implies !evictable(
                #[trigger] models[j],
                keep,
            ) by {
                if j < models.len() - 1 {
                    assert(rest[j] == models[j]);
                }
            }
        }
    }
}

/// What one model's weights coming or going does to the counts.
pub proof fn placing_counts(models: Seq<LoadedView>, i: int, resident: bool)
    requires
        0 <= i < models.len(),
    ensures
        held_count(placed(models, i, resident)) == held_count(models) - (if models[i].held() {
            1int
        } else {
            0
        }) + (if placed(models, i, resident)[i].held() {
            1int
        } else {
            0
        }),
        ledger(placed(models, i, resident)) == ledger(models) - (if models[i].held() {
            models[i].estimated_mb as int
        } else {
            0
        }) + (if placed(models, i, resident)[i].held() {
            models[i].estimated_mb as int
        } else {
            0
        }),
        total(placed(models, i, resident)) == total(models),
    decreases models.len(),
{
    let after = placed(models, i, resident);
    if i < models.len() - 1 {
        placing_counts(models.drop_last(), i, resident);
        assert(after.drop_last() =~= placed(models.drop_last(), i, resident));
        assert(after.last() == models.last());
    } else {
        assert(after.drop_last() =~= models.drop_last());
    }
}

proof fn ledger_is_within_total(models: Seq<LoadedView>)
    ensures
        ledger(models) <= total(models),
    decreases models.len(),
{
    if models.len() > 0 {
        ledger_is_within_total(models.drop_last());
    }
}

// ── What is resident ────────────────────────────────────────────────────────

/// One model's residency.
#[derive(Debug, PartialEq, Eq)]
pub struct ModelResidency {
    /// Which model.
    pub id: ModelId,
    /// Its display name.
    pub name: Option<String>,
    /// Whether the weights live on this machine at all.
    pub local: bool,
    /// Whether they are loaded right now. Always true for a remote model.
    pub resident: bool,
    /// Host memory the weights are estimated to hold while resident, in MB.
    pub estimated_mb: u64,
    /// Nanoseconds since the model last ran a turn or was preloaded; `None`
    /// if it never has.
    pub idle_for: Option<u128>,
}

/// One model's residency, mathematically.
pub struct ResidencyView {
    pub id: ModelId,
    pub name: Option<Seq<char>>,
    pub local: bool,
    pub resident: bool,
    pub estimated_mb: u64,
    pub idle_for: Option<u128>,
}

impl View for ModelResidency {
    type V = ResidencyView;

    open spec fn view(&self) -> ResidencyView {
        ResidencyView {
            id: self.id,
            name: view_of(self.name),
            local: self.local,
            resident: self.resident,
            estimated_mb: self.estimated_mb,
            idle_for: self.idle_for,
        }
    }
}

/// The residency of one model at a time.
pub open spec fn residency_of(entry: LoadedView, now: u128) -> ResidencyView {
    ResidencyView {
        id: entry.model.id,
        name: entry.model.name,
        local: entry.model.source.here(),
        resident: entry.ready(),
        estimated_mb: entry.estimated_mb,
        idle_for: match entry.last_used {
            Some(used) => Some(
                if now >= used {
                    (now - used) as u128
                } else {
                    0
                },
            ),
            None => None,
        },
    }
}

/// The residency of every model at a time.
pub open spec fn residencies(models: Seq<LoadedView>, now: u128) -> Seq<ResidencyView> {
    models.map_values(|entry: LoadedView| residency_of(entry, now))
}

/// What a runtime has resident.
#[derive(Debug, PartialEq, Eq)]
pub struct ResidencySnapshot {
    /// Every model the runtime holds, by id, resident or not.
    pub models: Vec<ModelResidency>,
}

impl View for ResidencySnapshot {
    type V = Seq<ResidencyView>;

    open spec fn view(&self) -> Seq<ResidencyView> {
        views(self.models@)
    }
}

/// Ids of the models whose weights are resident.
pub open spec fn resident_ids(models: Seq<ResidencyView>) -> Seq<ModelId>
    decreases models.len(),
{
    if models.len() == 0 {
        Seq::empty()
    } else if models.last().resident {
        resident_ids(models.drop_last()).push(models.last().id)
    } else {
        resident_ids(models.drop_last())
    }
}

/// Whether ids ascend.
pub open spec fn ascending(ids: Seq<ModelId>) -> bool {
    forall|i: int, j: int|
        #![trigger ids[i], ids[j]]
        0 <= i < j < ids.len() ==> ids[i].0 <= ids[j].0
}

/// Whether every model has an id of its own.
pub open spec fn distinct_models(models: Seq<ResidencyView>) -> bool {
    forall|i: int, j: int|
        #![trigger models[i], models[j]]
        0 <= i < j < models.len() ==> models[i].id != models[j].id
}

/// An id is among the resident ones where some model has it and is resident.
proof fn resident_ids_hold(models: Seq<ResidencyView>, id: ModelId)
    ensures
        resident_ids(models).contains(id) <==> exists|i: int|
            0 <= i < models.len() && (#[trigger] models[i]).id == id && models[i].resident,
    decreases models.len(),
{
    if models.len() > 0 {
        let init = models.drop_last();
        resident_ids_hold(init, id);
        let ids = resident_ids(init);
        if exists|i: int| 0 <= i < init.len() && (#[trigger] init[i]).id == id && init[i].resident {
            let i = choose|i: int|
                0 <= i < init.len() && (#[trigger] init[i]).id == id && init[i].resident;
            assert(models[i].id == id && models[i].resident);
            let k = choose|k: int| 0 <= k < ids.len() && ids[k] == id;
            assert(resident_ids(models)[k] == id);
        }
        if models.last().resident && models.last().id == id {
            assert(resident_ids(models).last() == id);
            assert(models[models.len() - 1].id == id);
        }
        if exists|i: int|
            0 <= i < models.len() && (#[trigger] models[i]).id == id && models[i].resident {
            let i = choose|i: int|
                0 <= i < models.len() && (#[trigger] models[i]).id == id && models[i].resident;
            if i < init.len() {
                assert(init[i].id == id && init[i].resident);
            }
        }
        if resident_ids(models).contains(id) {
            let k = choose|k: int|
                0 <= k < resident_ids(models).len() && resident_ids(models)[k] == id;
            if k < ids.len() {
                assert(ids[k] == id);
            }
        }
    }
}

/// Models with ids of their own have no resident id twice.
proof fn resident_ids_distinct(models: Seq<ResidencyView>)
    requires
        distinct_models(models),
    ensures
        resident_ids(models).no_duplicates(),
    decreases models.len(),
{
    if models.len() > 0 {
        let init = models.drop_last();
        resident_ids_distinct(init);
        resident_ids_hold(init, models.last().id);
        push_no_duplicates(resident_ids(init), models.last().id);
    }
}

/// Ascending ids that are a rearrangement of distinct ones ascend strictly.
proof fn ascending_is_strict(ids: Seq<ModelId>, among: Seq<ModelId>)
    requires
        ascending(ids),
        ids.to_multiset() == among.to_multiset(),
        among.no_duplicates(),
    ensures
        forall|i: int, j: int|
            #![trigger ids[i], ids[j]]
            0 <= i < j < ids.len() ==> ids[i].0 < ids[j].0,
{
    among.lemma_multiset_has_no_duplicates();
    ids.lemma_multiset_has_no_duplicates_conv();
}

/// Estimated MB held by the resident local models.
pub open spec fn resident_sum(models: Seq<ResidencyView>) -> nat
    decreases models.len(),
{
    if models.len() == 0 {
        0
    } else {
        resident_sum(models.drop_last()) + (if models.last().local && models.last().resident {
            models.last().estimated_mb as nat
        } else {
            0
        })
    }
}

proof fn sum_grows(models: Seq<ResidencyView>, n: int)
    requires
        0 <= n <= models.len(),
    ensures
        resident_sum(models.take(n)) <= resident_sum(models),
    decreases models.len(),
{
    if n < models.len() {
        sum_grows(models.drop_last(), n);
        assert(models.drop_last().take(n) =~= models.take(n));
    } else {
        assert(models.take(n) =~= models);
    }
}

/// A snapshot's sum is the runtime's ledger.
pub proof fn snapshot_sum_is_the_ledger(models: Seq<LoadedView>, now: u128)
    ensures
        resident_sum(residencies(models, now)) == ledger(models),
    decreases models.len(),
{
    let shown = residencies(models, now);
    if models.len() > 0 {
        snapshot_sum_is_the_ledger(models.drop_last(), now);
        assert(shown.drop_last() =~= residencies(models.drop_last(), now));
    }
}

/// Puts an id where it belongs among ascending ones.
fn place(ids: &mut Vec<ModelId>, id: ModelId)
    requires
        ascending(old(ids)@),
    ensures
        ascending(final(ids)@),
        final(ids)@.to_multiset() == old(ids)@.to_multiset().insert(id),
{
    broadcast use vstd::seq_lib::group_to_multiset_ensures;

    let mut at: usize = ids.len();
    while at > 0 && ids[at - 1].0 > id.0
        invariant
            at <= ids.len(),
            forall|k: int| at <= k < ids.len() ==> (#[trigger] ids@[k]).0 > id.0,
        decreases at,
    {
        at -= 1;
    }
    ids.insert(at, id);
}

impl ResidencySnapshot {
    /// Whether `id`'s weights are resident. False for an unknown id.
    pub fn is_resident(&self, id: ModelId) -> (out: bool)
        ensures
            out == (exists|i: int|
                0 <= i < self@.len() && (#[trigger] self@[i]).id == id && self@[i].resident),
    {
        let mut i: usize = 0;
        while i < self.models.len()
            invariant
                i <= self.models.len(),
                forall|k: int|
                    0 <= k < i ==> !((#[trigger] self@[k]).id == id && self@[k].resident),
            decreases self.models.len() - i,
        {
            assert(self@[i as int] == self.models@[i as int]@);
            if self.models[i].id == id && self.models[i].resident {
                return true;
            }
            i += 1;
        }
        false
    }

    /// Ids of the models whose weights are resident, ascending.
    pub fn resident(&self) -> (out: Vec<ModelId>)
        ensures
            ascending(out@),
            out@.to_multiset() == resident_ids(self@).to_multiset(),
            out@.len() == resident_ids(self@).len(),
            distinct_models(self@) ==> forall|i: int, j: int|
                #![trigger out@[i], out@[j]]
                0 <= i < j < out@.len() ==> out@[i].0 < out@[j].0,
            forall|id: ModelId| #[trigger]
                out@.contains(id) <==> exists|i: int|
                    0 <= i < self@.len() && (#[trigger] self@[i]).id == id && self@[i].resident,
    {
        broadcast use vstd::seq_lib::group_to_multiset_ensures;

        let ghost all = self@;
        let mut out: Vec<ModelId> = Vec::new();
        let mut i: usize = 0;
        assert(all.take(0) =~= Seq::empty());
        while i < self.models.len()
            invariant
                i <= self.models.len(),
                all == views(self.models@),
                ascending(out@),
                out@.to_multiset() == resident_ids(all.take(i as int)).to_multiset(),
            decreases self.models.len() - i,
        {
            assert(all.take(i + 1).drop_last() =~= all.take(i as int));
            assert(all.take(i + 1).last() == self.models@[i as int]@);
            if self.models[i].resident {
                place(&mut out, self.models[i].id);
                proof {
                    vstd::seq_lib::to_multiset_build(
                        resident_ids(all.take(i as int)),
                        self.models@[i as int].id,
                    );
                }
            }
            i += 1;
        }
        assert(all.take(self.models.len() as int) =~= all);
        proof {
            assert(out@.to_multiset().len() == resident_ids(all).to_multiset().len());
            if distinct_models(all) {
                resident_ids_distinct(all);
                ascending_is_strict(out@, resident_ids(all));
            }
            assert forall|id: ModelId| #[trigger]
                out@.contains(id) <==> exists|k: int|
                    0 <= k < all.len() && (#[trigger] all[k]).id == id && all[k].resident by {
                resident_ids_hold(all, id);
                assert(out@.to_multiset().count(id) == resident_ids(all).to_multiset().count(id));
            }
        }
        out
    }

    /// Estimated MB held by the resident local models.
    pub fn resident_mb(&self) -> (out: u64)
        requires
            resident_sum(self@) <= u64::MAX,
        ensures
            out == resident_sum(self@),
    {
        let ghost all = self@;
        let mut out: u64 = 0;
        let mut i: usize = 0;
        assert(all.take(0) =~= Seq::empty());
        while i < self.models.len()
            invariant
                i <= self.models.len(),
                all == views(self.models@),
                resident_sum(all) <= u64::MAX,
                out == resident_sum(all.take(i as int)),
            decreases self.models.len() - i,
        {
            proof {
                sum_grows(all, i + 1);
            }
            assert(all.take(i + 1).drop_last() =~= all.take(i as int));
            assert(all.take(i + 1).last() == self.models@[i as int]@);
            if self.models[i].local && self.models[i].resident {
                out += self.models[i].estimated_mb;
            }
            i += 1;
        }
        assert(all.take(self.models.len() as int) =~= all);
        out
    }
}

/// Aggregate counters.
#[derive(Debug, Clone, Copy, PartialEq, Eq, Structural)]
pub struct RuntimeStats {
    /// Models loaded into the runtime, resident or not.
    pub models: usize,
    /// Of those, how many have their weights resident.
    pub resident_models: usize,
    /// Estimated MB the resident local models hold.
    pub estimated_resident_mb: u64,
    /// Conversations the engines currently hold runtime state for, summed.
    pub active_sessions: usize,
    /// Models evicted to make room for another, over the runtime's life.
    /// Explicit evictions are not counted.
    pub evictions: u64,
}

// ── The runtime ─────────────────────────────────────────────────────────────

/// The registry of models, and whose weights are resident.
#[derive(Debug, PartialEq, Eq)]
pub struct Runtime {
    config: ControllerConfig,
    settings: Settings,
    models: Vec<Loaded>,
    budget_mb: Option<u64>,
    evictions: u64,
}

/// A runtime, mathematically.
#[verifier::ext_equal]
pub struct RuntimeView {
    pub config: ConfigView,
    pub settings: Settings,
    /// Every model loaded so far, oldest first. None is ever removed: an
    /// evicted model keeps its place so it can be restored.
    pub models: Seq<LoadedView>,
    /// The resident-memory budget in MB, where it is pinned.
    pub budget_mb: Option<u64>,
    pub evictions: u64,
}

impl View for Runtime {
    type V = RuntimeView;

    closed spec fn view(&self) -> RuntimeView {
        RuntimeView {
            config: self.config@,
            settings: self.settings,
            models: views(self.models@),
            budget_mb: self.budget_mb,
            evictions: self.evictions,
        }
    }
}

impl RuntimeView {
    /// What holds of every runtime: a model's id is its place, and what all
    /// of them would hold can be counted.
    pub open spec fn valid(self) -> bool {
        &&& forall|i: int|
            0 <= i < self.models.len() ==> (#[trigger] self.models[i]).model.id.0 == i
        &&& total(self.models) <= u64::MAX
    }

    /// Whether an id is one of this runtime's.
    pub open spec fn knows(self, id: ModelId) -> bool {
        id.0 < self.models.len()
    }

    /// The runtime with one model's weights there, or gone.
    pub open spec fn with_weights(self, id: ModelId, resident: bool) -> RuntimeView {
        RuntimeView { models: placed(self.models, id.0 as int, resident), ..self }
    }

    /// What an engine for one of its models starts from.
    pub open spec fn engine(self) -> BuilderView {
        BuilderView {
            settings: Some(self.settings),
            config: Some(self.config),
            ..BuilderView::blank()
        }
    }
}

/// What making room comes to next.
#[derive(Debug, Clone, Copy, PartialEq, Eq, Structural)]
pub enum Room {
    /// There is room.
    Enough,
    /// This model's weights are released first.
    Evict(ModelId),
    /// Nothing more may be released: the load proceeds, and the engine's own
    /// check has the final say.
    Stuck,
}

/// A model's display name: its file's stem, where it has one.
pub fn display_name(stem: Option<String>) -> (out: Option<String>)
    ensures
        view_of(out) == (match stem {
            Some(s) => if s@.len() == 0 {
                None
            } else {
                Some(s@)
            },
            None => None,
        }),
{
    match stem {
        Some(s) => if chars_of(s.as_str()).len() == 0 {
            None
        } else {
            Some(s)
        },
        None => None,
    }
}

impl Runtime {
    /// Whether the registry is sound.
    pub open spec fn wf(&self) -> bool {
        self@.valid()
    }

    /// A runtime with default policy.
    pub fn new(config: ControllerConfig, settings: Settings) -> (out: Self)
        ensures
            out.wf(),
            out@ == (RuntimeView {
                config: config@,
                settings,
                models: Seq::empty(),
                budget_mb: None,
                evictions: 0,
            }),
    {
        Runtime::builder(config).build(settings)
    }

    /// Configure a runtime. The knobs are deliberately few.
    pub fn builder(config: ControllerConfig) -> (out: RuntimeBuilder)
        ensures
            out@ == (RuntimeBuilderView { config: config@, settings: None, budget_mb: None }),
    {
        RuntimeBuilder { config, settings: None, budget_mb: None }
    }

    /// Add a model whose weights were just loaded.
    pub fn register(
        &mut self,
        name: Option<String>,
        source: ModelSourceKind,
        header: Option<fit::ModelInfo>,
        estimated_mb: u64,
    ) -> (out: Model)
        requires
            old(self).wf(),
            total(old(self)@.models) + estimated_mb <= u64::MAX,
        ensures
            final(self).wf(),
            out@ == (ModelView {
                id: ModelId(old(self)@.models.len() as u64),
                name: view_of(name),
                source,
                header,
            }),
            final(self)@ == (RuntimeView {
                models: old(self)@.models.push(
                    LoadedView {
                        model: out@,
                        estimated_mb,
                        resident: true,
                        last_used: None,
                    },
                ),
                ..old(self)@
            }),
    {
        let ghost before = self@;
        let model = Model::new(ModelId(self.models.len() as u64), name, source, header);
        let out = model.clone();
        let ghost entry = LoadedView {
            model: out@,
            estimated_mb,
            resident: true,
            last_used: None,
        };
        self.models.push(Loaded { model, estimated_mb, resident: true, last_used: None });
        assert(self@.models =~= before.models.push(entry));
        assert(self@.models.drop_last() =~= before.models);
        out
    }

    /// The models this runtime has loaded, oldest first.
    pub fn models(&self) -> (out: Vec<ModelId>)
        requires
            self.wf(),
        ensures
            out@ == self@.models.map_values(|entry: LoadedView| entry.model.id),
            forall|i: int, j: int|
                #![trigger out@[i], out@[j]]
                0 <= i < j < out@.len() ==> out@[i].0 < out@[j].0,
    {
        let ghost ids = self@.models.map_values(|entry: LoadedView| entry.model.id);
        let mut out: Vec<ModelId> = Vec::new();
        let mut i: usize = 0;
        while i < self.models.len()
            invariant
                i <= self.models.len(),
                self.wf(),
                self.models.len() == self@.models.len(),
                ids == self@.models.map_values(|entry: LoadedView| entry.model.id),
                out@ == ids.take(i as int),
            decreases self.models.len() - i,
        {
            assert(self@.models[i as int] == self.models@[i as int]@);
            out.push(self.models[i].model.id());
            assert(out@ =~= ids.take(i + 1));
            i += 1;
        }
        assert(out@ =~= ids);
        out
    }

    fn place(&self, id: ModelId) -> (out: usize)
        requires
            self@.knows(id),
        ensures
            out == id.0,
            out < self.models.len(),
            self.models@[out as int]@ == self@.models[out as int],
    {
        assert(self.models.len() == self@.models.len());
        id.0 as usize
    }

    /// Mark a model used now.
    pub fn touch(&mut self, id: ModelId, now: u128)
        requires
            old(self).wf(),
            old(self)@.knows(id),
        ensures
            final(self).wf(),
            final(self)@ == (RuntimeView {
                models: old(self)@.models.update(
                    id.0 as int,
                    LoadedView { last_used: Some(now), ..old(self)@.models[id.0 as int] },
                ),
                ..old(self)@
            }),
    {
        let ghost before = self@;
        let at = self.place(id);
        let ghost entry = LoadedView { last_used: Some(now), ..before.models[at as int] };
        self.models[at].last_used = Some(now);
        assert(self@.models =~= before.models.update(at as int, entry));
        proof {
            same_sizes(before.models, self@.models);
        }
    }

    /// Whether a model can run as it is.
    pub fn is_resident(&self, id: ModelId) -> (out: bool)
        requires
            self.wf(),
            self@.knows(id),
        ensures
            out == self@.models[id.0 as int].ready(),
    {
        let at = self.place(id);
        !self.models[at].model.is_local() || self.models[at].resident
    }

    /// What is resident right now, model by model.
    pub fn residency(&self, now: u128) -> (out: ResidencySnapshot)
        ensures
            out@ == residencies(self@.models, now),
            self.wf() ==> distinct_models(out@),
            total(self@.models) <= u64::MAX ==> resident_sum(out@) <= u64::MAX,
    {
        let ghost shown = residencies(self@.models, now);
        let mut models: Vec<ModelResidency> = Vec::new();
        let mut i: usize = 0;
        while i < self.models.len()
            invariant
                i <= self.models.len(),
                self.models.len() == self@.models.len(),
                shown == residencies(self@.models, now),
                views(models@) == shown.take(i as int),
            decreases self.models.len() - i,
        {
            let entry = &self.models[i];
            assert(self@.models[i as int] == entry@);
            let idle_for: Option<u128> = match entry.last_used {
                Some(used) => Some(
                    if now >= used {
                        now - used
                    } else {
                        0
                    },
                ),
                None => None,
            };
            let local = entry.model.is_local();
            models.push(
                ModelResidency {
                    id: entry.model.id(),
                    name: entry.model.name(),
                    local,
                    resident: !local || entry.resident,
                    estimated_mb: entry.estimated_mb,
                    idle_for,
                },
            );
            assert(views(models@) =~= shown.take(i + 1));
            i += 1;
        }
        assert(views(models@) =~= shown);
        proof {
            snapshot_sum_is_the_ledger(self@.models, now);
            ledger_is_within_total(self@.models);
        }
        ResidencySnapshot { models }
    }

    /// Aggregate counters over every model this runtime holds, given how many
    /// conversations each engine that answered holds state for.
    pub fn stats(&self, now: u128, chats: &Vec<usize>) -> (out: RuntimeStats)
        requires
            self.wf(),
            added(chats@) <= usize::MAX,
        ensures
            out.models == self@.models.len(),
            out.resident_models == resident_ids(residencies(self@.models, now)).len(),
            out.estimated_resident_mb == ledger(self@.models),
            out.active_sessions == added(chats@),
            out.evictions == self@.evictions,
    {
        let residency = self.residency(now);
        proof {
            snapshot_sum_is_the_ledger(self@.models, now);
        }
        let mut active_sessions: usize = 0;
        let mut i: usize = 0;
        assert(chats@.take(0) =~= Seq::empty());
        while i < chats.len()
            invariant
                i <= chats.len(),
                added(chats@) <= usize::MAX,
                active_sessions == added(chats@.take(i as int)),
            decreases chats.len() - i,
        {
            proof {
                added_grows(chats@, i + 1);
            }
            assert(chats@.take(i + 1).drop_last() =~= chats@.take(i as int));
            active_sessions += chats[i];
            i += 1;
        }
        assert(chats@.take(chats.len() as int) =~= chats@);
        RuntimeStats {
            models: residency.models.len(),
            resident_models: residency.resident().len(),
            estimated_resident_mb: residency.resident_mb(),
            active_sessions,
            evictions: self.evictions,
        }
    }

    /// Whether `extra_mb` more resident memory fits.
    pub fn can_admit(&self, extra_mb: u64, governor: Governor) -> (out: bool)
        requires
            self.wf(),
        ensures
            out == admits(self@.models, extra_mb, self@.budget_mb, governor),
    {
        let held = self.residency(0).resident_mb();
        proof {
            snapshot_sum_is_the_ledger(self@.models, 0);
        }
        let projected = held.saturating_add(extra_mb);
        match self.budget_mb {
            Some(budget) => projected <= budget,
            None => projected <= governor.inference_resident_mb && governor.can_load,
        }
    }

    /// The resident local model used longest ago, other than `keep`.
    pub fn least_recently_used(&self, keep: Option<ModelId>) -> (out: Option<ModelId>)
        requires
            self.wf(),
        ensures
            match victim(self@.models, keep) {
                Some(i) => out matches Some(id) && id == self@.models[i].model.id && id.0 == i
                    && self@.knows(id),
                None => out is None,
            },
    {
        let ghost all = self@.models;
        let mut found: Option<usize> = None;
        let mut i: usize = 0;
        assert(all.take(0) =~= Seq::empty());
        while i < self.models.len()
            invariant
                i <= self.models.len(),
                all == self@.models,
                self.models.len() == all.len(),
                match found {
                    Some(k) => k < i && victim(all.take(i as int), keep) == Some(k as int),
                    None => victim(all.take(i as int), keep) is None,
                },
            decreases self.models.len() - i,
        {
            assert(all.take(i + 1).drop_last() =~= all.take(i as int));
            let entry = &self.models[i];
            assert(all[i as int] == entry@);
            let kept = match keep {
                Some(id) => id == entry.model.id(),
                None => false,
            };
            if entry.model.is_local() && entry.resident && !kept {
                found = match found {
                    Some(k) => {
                        assert(all[k as int] == self.models@[k as int]@);
                        if entry.used_earlier(&self.models[k]) {
                            Some(i)
                        } else {
                            Some(k)
                        }
                    },
                    None => Some(i),
                };
            }
            i += 1;
        }
        assert(all.take(self.models.len() as int) =~= all);
        match found {
            Some(k) => {
                assert(all[k as int] == self.models@[k as int]@);
                Some(self.models[k].model.id())
            },
            None => None,
        }
    }

    /// What making room for `extra_mb` more comes to next: nothing, or
    /// releasing the least recently used model other than `keep`.
    pub fn room(&self, extra_mb: u64, keep: Option<ModelId>, governor: Governor) -> (out: Room)
        requires
            self.wf(),
        ensures
            out == (if admits(self@.models, extra_mb, self@.budget_mb, governor) {
                Room::Enough
            } else {
                match victim(self@.models, keep) {
                    Some(i) => Room::Evict(self@.models[i].model.id),
                    None => Room::Stuck,
                }
            }),
            out matches Room::Evict(id) ==> self@.knows(id),
    {
        if self.can_admit(extra_mb, governor) {
            return Room::Enough;
        }
        match self.least_recently_used(keep) {
            Some(id) => Room::Evict(id),
            None => Room::Stuck,
        }
    }

    fn set_resident(&mut self, id: ModelId, resident: bool)
        requires
            old(self).wf(),
            old(self)@.knows(id),
        ensures
            final(self).wf(),
            final(self)@ == old(self)@.with_weights(id, resident),
    {
        let ghost before = self@;
        let at = self.place(id);
        self.models[at].resident = resident;
        assert(self@.models =~= placed(before.models, at as int, resident));
        proof {
            placing_counts(before.models, at as int, resident);
        }
    }

    /// A model's weights were released to make room for another.
    pub fn evicted(&mut self, id: ModelId)
        requires
            old(self).wf(),
            old(self)@.knows(id),
        ensures
            final(self).wf(),
            final(self)@ == (RuntimeView {
                evictions: if old(self)@.evictions == u64::MAX {
                    0
                } else {
                    (old(self)@.evictions + 1) as u64
                },
                ..old(self)@.with_weights(id, false)
            }),
    {
        self.set_resident(id, false);
        self.evictions = if self.evictions == u64::MAX {
            0
        } else {
            self.evictions + 1
        };
    }

    /// Whether releasing a model's weights has anything to do. It has not
    /// when they are not resident, or for a remote model.
    pub fn unloads(&self, id: ModelId) -> (out: bool)
        requires
            self.wf(),
            self@.knows(id),
        ensures
            out == self@.models[id.0 as int].held(),
    {
        let at = self.place(id);
        self.models[at].model.is_local() && self.models[at].resident
    }

    /// A model's weights were released on request.
    pub fn unloaded(&mut self, id: ModelId)
        requires
            old(self).wf(),
            old(self)@.knows(id),
        ensures
            final(self).wf(),
            final(self)@ == old(self)@.with_weights(id, false),
    {
        self.set_resident(id, false);
    }

    /// Whether a model's weights have to be read again before it runs, given
    /// whether its engine has them. They may be gone without this runtime's
    /// doing; they are not counted any more then.
    pub fn restores(&mut self, id: ModelId, engine_loaded: bool) -> (out: bool)
        requires
            old(self).wf(),
            old(self)@.knows(id),
        ensures
            final(self).wf(),
            out == (old(self)@.models[id.0 as int].model.source.here() && !(old(
                self,
            )@.models[id.0 as int].resident && engine_loaded)),
            out ==> final(self)@ == old(self)@.with_weights(id, false),
            !out ==> final(self)@ == old(self)@,
    {
        let at = self.place(id);
        if !self.models[at].model.is_local() {
            return false;
        }
        if self.models[at].resident && engine_loaded {
            return false;
        }
        self.set_resident(id, false);
        true
    }

    /// A model's weights are resident again.
    pub fn restored(&mut self, id: ModelId)
        requires
            old(self).wf(),
            old(self)@.knows(id),
        ensures
            final(self).wf(),
            final(self)@ == old(self)@.with_weights(id, true),
    {
        self.set_resident(id, true);
    }

    /// Refuse a model that belongs to another runtime.
    pub fn own(id: ModelId, belongs: bool) -> (out: Result<(), Error>)
        ensures
            belongs ==> out is Ok,
            !belongs ==> (out matches Err(Error::InvalidRequest(words)) && words@ == id.words()
                + " belongs to another runtime"@),
    {
        if belongs {
            return Ok(());
        }
        let mut words = id.to_string();
        words.append(" belongs to another runtime");
        Err(Error::InvalidRequest(words))
    }

    /// An engine builder carrying this runtime's settings and controller
    /// config, for the auxiliary engines that share them.
    pub fn engine_builder(&self) -> (out: EngineBuilder)
        ensures
            out@ == self@.engine(),
    {
        EngineBuilder::default().settings(self.settings).config(self.config.clone())
    }

    /// An engine builder for a local model, with its projector, where it has
    /// one.
    pub fn local_engine(&self, path: &str, mmproj: Option<String>) -> (out: EngineBuilder)
        ensures
            out@ == (BuilderView {
                model_path: Some(path@),
                mmproj_path: view_of(mmproj),
                ..self@.engine()
            }),
    {
        let builder = self.engine_builder().model(path);
        match mmproj {
            Some(mmproj) => builder.mmproj(mmproj.as_str()),
            None => builder,
        }
    }

    /// A model served by an OpenAI-compatible endpoint.
    pub fn openai() -> (out: RemoteModelBuilder)
        ensures
            out@ == RemoteView::blank(RemoteFormat::OpenAi),
    {
        RemoteModelBuilder::new(RemoteFormat::OpenAi)
    }

    /// A model served by an Anthropic-compatible endpoint.
    pub fn anthropic() -> (out: RemoteModelBuilder)
        ensures
            out@ == RemoteView::blank(RemoteFormat::Anthropic),
    {
        RemoteModelBuilder::new(RemoteFormat::Anthropic)
    }
}

impl Loaded {
    fn used_earlier(&self, other: &Loaded) -> (out: bool)
        ensures
            out == self@.used_before(other@),
    {
        match (self.last_used, other.last_used) {
            (None, Some(_)) => true,
            (Some(_), None) => false,
            (None, None) => self.model.id().0 < other.model.id().0,
            (Some(a), Some(b)) => a < b || a == b && self.model.id().0 < other.model.id().0,
        }
    }
}

/// A sum of counts.
pub open spec fn added(counts: Seq<usize>) -> nat
    decreases counts.len(),
{
    if counts.len() == 0 {
        0
    } else {
        added(counts.drop_last()) + counts.last() as nat
    }
}

proof fn added_grows(counts: Seq<usize>, n: int)
    requires
        0 <= n <= counts.len(),
    ensures
        added(counts.take(n)) <= added(counts),
    decreases counts.len(),
{
    if n < counts.len() {
        added_grows(counts.drop_last(), n);
        assert(counts.drop_last().take(n) =~= counts.take(n));
    } else {
        assert(counts.take(n) =~= counts);
    }
}

proof fn same_sizes(a: Seq<LoadedView>, b: Seq<LoadedView>)
    requires
        a.len() == b.len(),
        forall|i: int| 0 <= i < a.len() ==> (#[trigger] a[i]).estimated_mb == b[i].estimated_mb,
    ensures
        total(a) == total(b),
    decreases a.len(),
{
    if a.len() > 0 {
        let (x, y) = (a.drop_last(), b.drop_last());
        assert forall|i: int| 0 <= i < x.len() implies (#[trigger] x[i]).estimated_mb
            == y[i].estimated_mb by {
            assert(x[i] == a[i]);
        }
        same_sizes(x, y);
        assert(a[a.len() - 1].estimated_mb == b[a.len() - 1].estimated_mb);
    }
}

// ── Builders ────────────────────────────────────────────────────────────────

/// Builds a runtime.
#[derive(Debug, PartialEq, Eq)]
pub struct RuntimeBuilder {
    config: ControllerConfig,
    settings: Option<Settings>,
    budget_mb: Option<u64>,
}

/// A runtime's builder, mathematically.
#[verifier::ext_equal]
pub struct RuntimeBuilderView {
    pub config: ConfigView,
    pub settings: Option<Settings>,
    pub budget_mb: Option<u64>,
}

impl View for RuntimeBuilder {
    type V = RuntimeBuilderView;

    closed spec fn view(&self) -> RuntimeBuilderView {
        RuntimeBuilderView {
            config: self.config@,
            settings: self.settings,
            budget_mb: self.budget_mb,
        }
    }
}

impl RuntimeBuilder {
    /// How many conversations each model keeps warm at once before the least
    /// recently used is evicted from the cache. At least one.
    pub fn max_active_sessions(self, n: usize) -> (out: Self)
        ensures
            out@ == (RuntimeBuilderView {
                config: ConfigView {
                    max_active_chats: if n < 1 {
                        1
                    } else {
                        n
                    },
                    ..self@.config
                },
                ..self@
            }),
    {
        let mut out = self;
        out.config.max_active_chats = if n < 1 {
            1
        } else {
            n
        };
        out
    }

    /// Settings every model starts from.
    pub fn settings(self, settings: Settings) -> (out: Self)
        ensures
            out@ == (RuntimeBuilderView { settings: Some(settings), ..self@ }),
    {
        let mut out = self;
        out.settings = Some(settings);
        out
    }

    /// Register a backend from outside. A path it claims is routed to it
    /// ahead of every built-in rule.
    pub fn backend(self, plugin: BackendPlugin) -> (out: Self)
        ensures
            out@ == (RuntimeBuilderView {
                config: ConfigView {
                    plugins: self@.config.plugins.push(plugin@),
                    ..self@.config
                },
                ..self@
            }),
    {
        let ghost before = self@;
        let mut out = self;
        out.config.plugins.push(plugin);
        assert(out@.config.plugins =~= before.config.plugins.push(plugin@));
        out
    }

    /// Pin the resident-memory budget instead of asking the machine.
    pub fn resident_budget_mb(self, mb: u64) -> (out: Self)
        ensures
            out@ == (RuntimeBuilderView { budget_mb: Some(mb), ..self@ }),
    {
        let mut out = self;
        out.budget_mb = Some(mb);
        out
    }

    /// Build it. Starts nothing: backends start when a model is loaded.
    pub fn build(self, default_settings: Settings) -> (out: Runtime)
        ensures
            out.wf(),
            out@ == (RuntimeView {
                config: self@.config,
                settings: match self@.settings {
                    Some(settings) => settings,
                    None => default_settings,
                },
                models: Seq::empty(),
                budget_mb: self@.budget_mb,
                evictions: 0,
            }),
    {
        let settings = match self.settings {
            Some(settings) => settings,
            None => default_settings,
        };
        let out = Runtime {
            config: self.config,
            settings,
            models: Vec::new(),
            budget_mb: self.budget_mb,
            evictions: 0,
        };
        assert(out@.models =~= Seq::empty());
        out
    }
}

/// Which wire format a remote endpoint speaks.
#[derive(Debug, Clone, Copy, PartialEq, Eq, Structural)]
pub enum RemoteFormat {
    OpenAi,
    Anthropic,
}

/// Connects a model served by a remote endpoint.
pub struct RemoteModelBuilder {
    format: RemoteFormat,
    base_url: Option<String>,
    api_key: Option<String>,
    model: Option<String>,
}

/// A remote model's builder, mathematically.
#[verifier::ext_equal]
pub struct RemoteView {
    pub format: RemoteFormat,
    pub base_url: Option<Seq<char>>,
    pub api_key: Option<Seq<char>>,
    pub model: Option<Seq<char>>,
}

impl RemoteView {
    /// Nothing but the format.
    pub open spec fn blank(format: RemoteFormat) -> RemoteView {
        RemoteView { format, base_url: None, api_key: None, model: None }
    }

    /// The engine that serves the model, at a URL, under a name. A local
    /// server needs no key.
    pub open spec fn engine(
        self,
        runtime: RuntimeView,
        url: Seq<char>,
        name: Seq<char>,
    ) -> BuilderView {
        BuilderView {
            model_path: Some(url),
            api_key: Some(
                match self.api_key {
                    Some(key) => key,
                    None => Seq::empty(),
                },
            ),
            api_format: Some(
                match self.format {
                    RemoteFormat::OpenAi => "openai"@,
                    RemoteFormat::Anthropic => "anthropic"@,
                },
            ),
            remote_model: Some(name),
            ..runtime.engine()
        }
    }
}

impl View for RemoteModelBuilder {
    type V = RemoteView;

    closed spec fn view(&self) -> RemoteView {
        RemoteView {
            format: self.format,
            base_url: view_of(self.base_url),
            api_key: view_of(self.api_key),
            model: view_of(self.model),
        }
    }
}

/// What connecting to a remote endpoint comes to.
#[derive(PartialEq, Eq)]
pub struct Connection {
    /// The engine to build.
    pub engine: EngineBuilder,
    /// The name the model is registered under.
    pub name: String,
}

impl RemoteModelBuilder {
    fn new(format: RemoteFormat) -> (out: Self)
        ensures
            out@ == RemoteView::blank(format),
    {
        RemoteModelBuilder { format, base_url: None, api_key: None, model: None }
    }

    /// The API root. Required.
    pub fn base_url(self, url: &str) -> (out: Self)
        ensures
            out@ == (RemoteView { base_url: Some(url@), ..self@ }),
    {
        let mut out = self;
        out.base_url = Some(url.to_owned());
        out
    }

    /// The bearer token. Optional: a local server needs none.
    pub fn api_key(self, key: &str) -> (out: Self)
        ensures
            out@ == (RemoteView { api_key: Some(key@), ..self@ }),
    {
        let mut out = self;
        out.api_key = Some(key.to_owned());
        out
    }

    /// The model the endpoint should serve. Required: providers that serve
    /// several reject a request naming none.
    pub fn model(self, name: &str) -> (out: Self)
        ensures
            out@ == (RemoteView { model: Some(name@), ..self@ }),
    {
        let mut out = self;
        out.model = Some(name.to_owned());
        out
    }

    /// What to build and register: a URL and a name are needed first.
    pub fn connect(self, runtime: &Runtime) -> (out: Result<Connection, Error>)
        ensures
            match (self@.base_url, self@.model) {
                (None, _) => out matches Err(Error::InvalidRequest(words)) && words@
                    == "a remote model needs .base_url(..), the API root"@,
                (Some(_), None) => out matches Err(Error::InvalidRequest(words)) && words@
                    == "a remote model needs .model(..), the name the endpoint serves it under"@,
                (Some(url), Some(name)) => out matches Ok(c) && c.name@ == name && c.engine@
                    == self@.engine(runtime@, url, name),
            },
    {
        let base_url = match self.base_url {
            Some(url) => url,
            None => {
                return Err(
                    Error::InvalidRequest(
                        "a remote model needs .base_url(..), the API root".to_owned(),
                    ),
                );
            },
        };
        let model = match self.model {
            Some(model) => model,
            None => {
                return Err(
                    Error::InvalidRequest(
                        "a remote model needs .model(..), the name the endpoint serves it under".to_owned(),
                    ),
                );
            },
        };
        let key = match self.api_key {
            Some(key) => key,
            None => String::new(),
        };
        assert(self.api_key is None ==> key@ =~= Seq::empty());
        let builder = runtime.engine_builder().remote_model(model.as_str());
        let builder = match self.format {
            RemoteFormat::OpenAi => builder.openai(base_url.as_str(), key.as_str()),
            RemoteFormat::Anthropic => builder.anthropic(base_url.as_str(), key.as_str()),
        };
        Ok(Connection { engine: builder, name: model })
    }
}

// ── Laws ────────────────────────────────────────────────────────────────────

/// The model that is evicted is the least recently used of those that may be:
/// every other one was used later.
pub proof fn the_least_recently_used_goes_first(models: Seq<LoadedView>, keep: Option<ModelId>)
    requires
        forall|i: int| 0 <= i < models.len() ==> (#[trigger] models[i]).model.id.0 == i,
    ensures
        victim(models, keep) matches Some(v) ==> 0 <= v < models.len() && forall|j: int|
            0 <= j < models.len() && j != v && evictable(#[trigger] models[j], keep)
                ==> models[v].used_before(models[j]),
    decreases models.len(),
{
    if models.len() > 0 {
        let rest = models.drop_last();
        assert forall|i: int| 0 <= i < rest.len() implies (#[trigger] rest[i]).model.id.0 == i by {
            assert(rest[i] == models[i]);
        }
        the_least_recently_used_goes_first(rest, keep);
        victim_is_evictable(models, keep);
        victim_is_evictable(rest, keep);
        if victim(models, keep) is Some {
            let v = victim(models, keep)->0;
            assert forall|j: int|
                0 <= j < models.len() && j != v && evictable(
                    #[trigger] models[j],
                    keep,
                ) implies models[v].used_before(models[j]) by {
                if j < rest.len() {
                    assert(rest[j] == models[j]);
                }
            }
        }
    }
}

/// Neither the model room is made for, nor a remote one, nor one whose
/// weights are gone already, is ever chosen; and where none is chosen, none
/// could be.
pub proof fn only_what_can_go_is_evicted(models: Seq<LoadedView>, keep: Option<ModelId>)
    ensures
        match victim(models, keep) {
            Some(v) => 0 <= v < models.len() && models[v].held() && keep != Some(
                models[v].model.id,
            ),
            None => forall|j: int|
                0 <= j < models.len() && (#[trigger] models[j]).held() ==> keep == Some(
                    models[j].model.id,
                ),
        },
{
    victim_is_evictable(models, keep);
}

/// An eviction frees exactly what the model was counted for.
pub proof fn an_eviction_frees_what_it_held(models: Seq<LoadedView>, i: int)
    requires
        0 <= i < models.len(),
        models[i].held(),
    ensures
        ledger(placed(models, i, false)) == ledger(models) - models[i].estimated_mb,
{
    placing_counts(models, i, false);
}

/// Making room ends with room, or with nothing left that may go. It changes
/// nothing of any model but whose weights are resident, it only ever takes
/// weights away, and it leaves the model it is made for as it was.
pub proof fn making_room_ends(
    models: Seq<LoadedView>,
    extra_mb: u64,
    keep: Option<ModelId>,
    budget_mb: Option<u64>,
    governor: Governor,
)
    ensures
        ({
            let after = settled(models, extra_mb, keep, budget_mb, governor);
            &&& admits(after, extra_mb, budget_mb, governor) || forall|j: int|
                0 <= j < after.len() ==> !evictable(#[trigger] after[j], keep)
            &&& after.len() == models.len()
            &&& forall|j: int|
                #![trigger after[j]]
                0 <= j < models.len() ==> {
                    &&& after[j] == (LoadedView { resident: after[j].resident, ..models[j] })
                    &&& after[j].resident ==> models[j].resident
                    &&& !evictable(models[j], keep) ==> after[j] == models[j]
                }
        }),
    decreases held_count(models),
{
    victim_is_evictable(models, keep);
    if !admits(models, extra_mb, budget_mb, governor) && victim(models, keep) is Some {
        let i = victim(models, keep)->0;
        let next = placed(models, i, false);
        placing_counts(models, i, false);
        making_room_ends(next, extra_mb, keep, budget_mb, governor);
        let after = settled(models, extra_mb, keep, budget_mb, governor);
        assert(after == settled(next, extra_mb, keep, budget_mb, governor));
        assert forall|j: int| #![trigger after[j]] 0 <= j < models.len() implies {
            &&& after[j] == (LoadedView { resident: after[j].resident, ..models[j] })
            &&& after[j].resident ==> models[j].resident
            &&& !evictable(models[j], keep) ==> after[j] == models[j]
        } by {
            assert(after[j] == (LoadedView { resident: after[j].resident, ..next[j] }));
            if !evictable(models[j], keep) {
                assert(j != i);
                assert(next[j] == models[j]);
            }
        }
    }
}

/// Nothing is evicted when there is room already.
pub proof fn room_that_is_there_costs_nothing(
    models: Seq<LoadedView>,
    extra_mb: u64,
    keep: Option<ModelId>,
    budget_mb: Option<u64>,
    governor: Governor,
)
    requires
        admits(models, extra_mb, budget_mb, governor),
    ensures
        settled(models, extra_mb, keep, budget_mb, governor) == models,
{
}

/// Eviction loses nothing but the weights: restoring an evicted model gives
/// the registry back as it was.
pub proof fn an_evicted_model_comes_back(runtime: RuntimeView, id: ModelId)
    requires
        runtime.valid(),
        runtime.knows(id),
        runtime.models[id.0 as int].resident,
    ensures
        runtime.with_weights(id, false).with_weights(id, true) == runtime,
        runtime.with_weights(id, false).knows(id),
{
    assert(runtime.with_weights(id, false).with_weights(id, true).models =~= runtime.models);
}

/// A remote model is always ready: nothing about it can be evicted.
pub proof fn a_remote_model_is_always_ready(entry: LoadedView, keep: Option<ModelId>)
    requires
        entry.model.source is Remote,
    ensures
        entry.ready(),
        !evictable(entry, keep),
{
}

/// The model that goes is the one used longest ago, by the times of use
/// alone: it is resident, runs here and is not the one that is kept, and of
/// all such models it has the earliest last use. One that was never used
/// counts as earliest, and of two alike the one loaded first goes.
pub proof fn the_model_used_longest_ago_goes(models: Seq<LoadedView>, keep: Option<ModelId>)
    requires
        forall|i: int| 0 <= i < models.len() ==> (#[trigger] models[i]).model.id.0 == i,
    ensures
        match victim(models, keep) {
            Some(v) => {
                &&& 0 <= v < models.len()
                &&& models[v].resident && !(models[v].model.source is Remote)
                &&& keep != Some(models[v].model.id)
                &&& forall|j: int|
                    0 <= j < models.len() && j != v && (#[trigger] models[j]).resident && !(
                    models[j].model.source is Remote) && keep != Some(models[j].model.id) ==> match (
                        models[v].last_used,
                        models[j].last_used,
                    ) {
                        (Some(a), Some(b)) => a < b || (a == b && v < j),
                        (None, None) => v < j,
                        (used, _) => used is None,
                    }
            },
            None => forall|j: int|
                0 <= j < models.len() && (#[trigger] models[j]).resident ==> models[j].model.source
                    is Remote || keep == Some(models[j].model.id),
        },
{
    victim_is_evictable(models, keep);
    the_least_recently_used_goes_first(models, keep);
    if let Some(v) = victim(models, keep) {
        assert(models[v].model.id.0 == v);
        assert forall|j: int|
            0 <= j < models.len() && j != v && (#[trigger] models[j]).resident && !(
            models[j].model.source is Remote) && keep != Some(models[j].model.id) implies match (
            models[v].last_used,
            models[j].last_used,
        ) {
            (Some(a), Some(b)) => a < b || (a == b && v < j),
            (None, None) => v < j,
            (used, _) => used is None,
        } by {
            assert(evictable(models[j], keep));
            assert(models[v].used_before(models[j]));
            assert(models[j].model.id.0 == j);
        }
    } else {
        assert forall|j: int|
            0 <= j < models.len() && (#[trigger] models[j]).resident implies models[j].model.source
            is Remote || keep == Some(models[j].model.id) by {
            assert(!evictable(models[j], keep));
        }
    }
}

/// A use puts a model behind every other one: what was used at a time later
/// than all others is not the one that goes, while another may.
pub proof fn what_was_just_used_stays(
    models: Seq<LoadedView>,
    keep: Option<ModelId>,
    latest: int,
    other: int,
)
    requires
        forall|i: int| 0 <= i < models.len() ==> (#[trigger] models[i]).model.id.0 == i,
        0 <= latest < models.len(),
        0 <= other < models.len(),
        other != latest,
        models[other].resident,
        !(models[other].model.source is Remote),
        keep != Some(models[other].model.id),
        models[latest].last_used matches Some(now) && forall|j: int|
            0 <= j < models.len() && j != latest ==> ((#[trigger] models[j]).last_used matches Some(
                before,
            ) ==> before < now),
    ensures
        victim(models, keep) matches Some(v) && v != latest,
{
    the_model_used_longest_ago_goes(models, keep);
}

/// What is counted as resident: one more model adds its estimate where its
/// weights are resident on this machine, and nothing otherwise.
pub proof fn the_ledger_counts_what_is_resident_here(models: Seq<LoadedView>, entry: LoadedView)
    ensures
        ledger(Seq::<LoadedView>::empty()) == 0,
        entry.resident && !(entry.model.source is Remote) ==> ledger(models.push(entry)) == ledger(
            models,
        ) + entry.estimated_mb,
        !entry.resident || entry.model.source is Remote ==> ledger(models.push(entry)) == ledger(
            models,
        ),
{
    assert(models.push(entry).drop_last() =~= models);
}

/// More fits exactly where what is resident and what is to come stay within
/// the pinned budget; where none is pinned, within what the machine allows,
/// and only if the machine can load the model at all.
pub proof fn more_fits_within_the_budget(
    models: Seq<LoadedView>,
    extra_mb: u64,
    budget_mb: Option<u64>,
    governor: Governor,
)
    requires
        ledger(models) + extra_mb <= u64::MAX,
    ensures
        budget_mb matches Some(budget) ==> (admits(models, extra_mb, budget_mb, governor) <==> ledger(
            models,
        ) + extra_mb <= budget),
        budget_mb is None ==> (admits(models, extra_mb, budget_mb, governor) <==> governor.can_load
            && ledger(models) + extra_mb <= governor.inference_resident_mb),
{
}

/// What is asked for beyond counting fits only a budget without bounds.
pub proof fn what_cannot_be_counted_fits_no_bound(
    models: Seq<LoadedView>,
    extra_mb: u64,
    budget_mb: Option<u64>,
    governor: Governor,
)
    requires
        ledger(models) + extra_mb > u64::MAX,
        budget_mb matches Some(budget) ==> budget < u64::MAX,
        governor.inference_resident_mb < u64::MAX,
    ensures
        !admits(models, extra_mb, budget_mb, governor),
{
}

/// A snapshot says of each model what holds of it: a remote one counts as
/// resident, and what was never used has no idle time.
pub proof fn a_snapshot_shows_each_model(models: Seq<LoadedView>, now: u128, i: int)
    requires
        0 <= i < models.len(),
    ensures
        residencies(models, now).len() == models.len(),
        ({
            let shown = residencies(models, now)[i];
            &&& shown.id == models[i].model.id
            &&& shown.name == models[i].model.name
            &&& shown.local <==> !(models[i].model.source is Remote)
            &&& shown.resident <==> models[i].resident || models[i].model.source is Remote
            &&& shown.estimated_mb == models[i].estimated_mb
            &&& shown.idle_for is Some <==> models[i].last_used is Some
            &&& models[i].last_used matches Some(used) ==> (used <= now ==> shown.idle_for == Some(
                (now - used) as u128,
            ))
            &&& models[i].last_used matches Some(used) ==> (used > now ==> shown.idle_for == Some(
                0u128,
            ))
        }),
{
}

/// Weights that come or go touch nothing else: the model's own residency
/// changes, and every other model, and all else of it, stays.
pub proof fn weights_come_and_go_alone(runtime: RuntimeView, id: ModelId, resident: bool, j: int)
    requires
        runtime.knows(id),
        0 <= j < runtime.models.len(),
    ensures
        ({
            let after = runtime.with_weights(id, resident);
            &&& after.models.len() == runtime.models.len()
            &&& after.models[id.0 as int].resident == resident
            &&& j != id.0 ==> after.models[j] == runtime.models[j]
            &&& after.models[j].model == runtime.models[j].model
            &&& after.models[j].last_used == runtime.models[j].last_used
            &&& after.models[j].estimated_mb == runtime.models[j].estimated_mb
            &&& after.budget_mb == runtime.budget_mb
            &&& after.evictions == runtime.evictions
        }),
{
}

/// One more model adds what it is estimated at to a snapshot's sum, and its
/// id to the resident ones, only where it is local and resident, or resident.
pub proof fn a_snapshot_counts_what_is_resident(models: Seq<ResidencyView>, shown: ResidencyView)
    ensures
        resident_sum(Seq::empty()) == 0,
        resident_sum(models.push(shown)) == resident_sum(models) + (if shown.local
            && shown.resident {
            shown.estimated_mb as int
        } else {
            0
        }),
        shown.resident ==> resident_ids(models.push(shown)) == resident_ids(models).push(shown.id),
        !shown.resident ==> resident_ids(models.push(shown)) == resident_ids(models),
{
    assert(models.push(shown).drop_last() =~= models);
}

/// A remote model is served at its URL, under its name, in its format, by an
/// engine with the runtime's policy; one without a key is given an empty one.
pub proof fn how_a_remote_model_is_served(
    remote: RemoteView,
    runtime: RuntimeView,
    url: Seq<char>,
    name: Seq<char>,
)
    ensures
        ({
            let engine = remote.engine(runtime, url, name);
            &&& engine.model_path == Some(url)
            &&& engine.remote_model == Some(name)
            &&& remote.format == RemoteFormat::OpenAi ==> engine.api_format == Some("openai"@)
            &&& remote.format == RemoteFormat::Anthropic ==> engine.api_format == Some(
                "anthropic"@,
            )
            &&& remote.api_key is Some ==> engine.api_key == remote.api_key
            &&& remote.api_key is None ==> engine.api_key == Some(Seq::<char>::empty())
            &&& engine.settings == Some(runtime.settings)
            &&& engine.config == Some(runtime.config)
            &&& engine.context == crate::engine::ContextChoice::Backend
            &&& engine.embedder_path is None
            &&& engine.reranker_path is None
        }),
{
}

} // verus!
