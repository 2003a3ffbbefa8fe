//! An agent: a goal, a set of tools, and a loop that runs until it is done.
//!
//! The agent owns dispatch: it resolves the tool the model named, gates it,
//! schedules the call, routes failures by whether the model can fix them, and
//! stops when it is making no progress. Here are what it is configured with
//! and what a caller may say while it runs; the loop is in
//! [`crate::agent_run`].
use vstd::prelude::*;
use vstd::string::*;
use crate::generation::Sampling;
use crate::seqs::{group_views, view_of, views};
use crate::tools::{EntryView, ToolEntry, ToolLoading, ToolSearch};

verus! {

broadcast use group_views;

/// How many rounds an agent may run by default.
pub const DEFAULT_MAX_STEPS: usize = 12;

/// Whether a tool needs a human's say-so.
#[derive(Debug, Clone, Copy, PartialEq, Eq, Structural)]
pub enum Risk {
    /// Runs without asking.
    Safe,
    /// Gated when the agent is in [`ApprovalMode::AskOnRisky`].
    Risky,
}

impl Default for Risk {
    fn default() -> (out: Self)
        ensures
            out == Risk::Safe,
    {
        Risk::Safe
    }
}

/// When the agent stops to ask.
#[derive(Debug, Clone, Copy, PartialEq, Eq, Structural)]
pub enum ApprovalMode {
    /// Everything runs. The default, because it is what most agents actually
    /// want and a gate nobody reads is worse than none.
    Auto,
    /// Tools declaring [`Risk::Risky`] go through the approval callback.
    AskOnRisky,
}

impl Default for ApprovalMode {
    fn default() -> (out: Self)
        ensures
            out == ApprovalMode::Auto,
    {
        ApprovalMode::Auto
    }
}

/// What to do with a call awaiting approval.
#[derive(Debug, PartialEq, Eq)]
pub enum Decision {
    /// Run it.
    Allow,
    /// Don't. The reason reaches the caller, and the run ends — a denied
    /// action is not something the model should retry around.
    Deny(String),
}

/// Limits that stop a run.
#[derive(Debug, Clone, Copy, PartialEq, Eq)]
pub struct Budgets {
    /// The rounds of generate-and-call.
    pub max_steps: usize,
    /// The tokens generated across the run.
    pub max_tokens: Option<u32>,
    /// The wall clock, in nanoseconds.
    pub deadline: Option<u128>,
}

impl Default for Budgets {
    fn default() -> (out: Self)
        ensures
            out == (Budgets { max_steps: DEFAULT_MAX_STEPS, max_tokens: None, deadline: None }),
    {
        Budgets { max_steps: DEFAULT_MAX_STEPS, max_tokens: None, deadline: None }
    }
}

// ── Steering ────────────────────────────────────────────────────────────────

/// A message for a run that is already going.
#[derive(Debug, PartialEq, Eq)]
pub struct Steer {
    /// What to tell the model.
    pub message: String,
    /// Whether it changes the task now.
    pub interrupt: bool,
}

/// A message for a run, mathematically.
pub struct SteerView {
    pub message: Seq<char>,
    pub interrupt: bool,
}

impl View for Steer {
    type V = SteerView;

    open spec fn view(&self) -> SteerView {
        SteerView { message: self.message@, interrupt: self.interrupt }
    }
}

/// Whether an interruption is among some messages.
pub open spec fn interrupts(queue: Seq<SteerView>) -> bool {
    exists|i: int| 0 <= i < queue.len() && (#[trigger] queue[i]).interrupt
}

/// Messages waiting for a run that is already going.
///
/// Two shapes, because they answer different questions: a follow-up adds to
/// the task, an interruption changes it.
#[derive(Debug, PartialEq, Eq)]
pub struct Steering {
    queue: Vec<Steer>,
}

impl View for Steering {
    type V = Seq<SteerView>;

    closed spec fn view(&self) -> Seq<SteerView> {
        views(self.queue@)
    }
}

impl Default for Steering {
    fn default() -> (out: Self)
        ensures
            out@ == Seq::<SteerView>::empty(),
    {
        let out = Steering { queue: Vec::new() };
        assert(out@ =~= Seq::<SteerView>::empty());
        out
    }
}

impl Steering {
    fn push(&mut self, message: &str, interrupt: bool)
        ensures
            final(self)@ == old(self)@.push(SteerView { message: message@, interrupt }),
    {
        let ghost before = self@;
        self.queue.push(Steer { message: message.to_owned(), interrupt });
        assert(self@ =~= before.push(SteerView { message: message@, interrupt }));
    }

    /// Add to the task. Delivered at the next step boundary, so the current
    /// generation and any tool already running finish first.
    pub fn follow_up(&mut self, message: &str)
        ensures
            final(self)@ == old(self)@.push(SteerView { message: message@, interrupt: false }),
    {
        self.push(message, false);
    }

    /// Change the task now: the rest of the round's planned tool calls are
    /// abandoned, and the message is delivered before the model writes again.
    pub fn interrupt(&mut self, message: &str)
        ensures
            final(self)@ == old(self)@.push(SteerView { message: message@, interrupt: true }),
    {
        self.push(message, true);
    }

    /// Whether anything is waiting.
    pub fn is_pending(&self) -> (out: bool)
        ensures
            out == (self@.len() > 0),
    {
        self.queue.len() > 0
    }

    /// Everything that is waiting, in the order it was given. Nothing waits
    /// after.
    pub fn drain(&mut self) -> (out: Vec<Steer>)
        ensures
            views(out@) == old(self)@,
            final(self)@ == Seq::<SteerView>::empty(),
    {
        let mut out: Vec<Steer> = Vec::new();
        out.append(&mut self.queue);
        assert(views(out@) =~= old(self)@);
        assert(self@ =~= Seq::<SteerView>::empty());
        out
    }

    /// Whether an interruption is waiting.
    pub fn wants_interrupt(&self) -> (out: bool)
        ensures
            out == interrupts(self@),
    {
        let mut i: usize = 0;
        while i < self.queue.len()
            invariant
                i <= self.queue.len(),
                forall|k: int| 0 <= k < i ==> !(#[trigger] self@[k]).interrupt,
            decreases self.queue.len() - i,
        {
            assert(self@[i as int].interrupt == self.queue@[i as int].interrupt);
            if self.queue[i].interrupt {
                return true;
            }
            i += 1;
        }
        false
    }
}

// ── What an agent is configured with ────────────────────────────────────────

/// How the tool list is introduced to the model.
pub const TOOL_PROMPT: &'static str = "Call a tool when you need information or an action. Answer directly when you don't.";

/// The configuration of one agent run.
#[derive(Debug, PartialEq, Eq)]
pub struct Agent {
    pub entries: Vec<(ToolEntry, ToolLoading)>,
    pub search: Option<ToolSearch>,
    pub budgets: Budgets,
    pub approval: ApprovalMode,
    pub tool_prompt: String,
    pub sampling: Sampling,
    pub images: Vec<String>,
    /// What to ask for once the work is done, where the answer has a shape.
    pub answer_as: Option<String>,
}

/// A registration, mathematically.
pub open spec fn entry_views(entries: Seq<(ToolEntry, ToolLoading)>) -> Seq<
    (EntryView, ToolLoading),
> {
    entries.map_values(|e: (ToolEntry, ToolLoading)| (e.0@, e.1))
}

/// Registrations of one loading.
pub open spec fn loaded(tools: Seq<EntryView>, loading: ToolLoading) -> Seq<
    (EntryView, ToolLoading),
> {
    tools.map_values(|e: EntryView| (e, loading))
}

/// A configuration, mathematically.
#[verifier::ext_equal]
pub struct AgentView {
    pub entries: Seq<(EntryView, ToolLoading)>,
    pub search: Option<ToolSearch>,
    pub budgets: Budgets,
    pub approval: ApprovalMode,
    pub tool_prompt: Seq<char>,
    pub sampling: Sampling,
    pub images: Seq<Seq<char>>,
    pub answer_as: Option<Seq<char>>,
}

impl View for Agent {
    type V = AgentView;

    open spec fn view(&self) -> AgentView {
        AgentView {
            entries: entry_views(self.entries@),
            search: self.search,
            budgets: self.budgets,
            approval: self.approval,
            tool_prompt: self.tool_prompt@,
            sampling: self.sampling,
            images: views(self.images@),
            answer_as: view_of(self.answer_as),
        }
    }
}

impl AgentView {
    /// What an agent is before anything is set.
    pub open spec fn plain(sampling: Sampling) -> AgentView {
        AgentView {
            entries: Seq::empty(),
            search: None,
            budgets: Budgets { max_steps: DEFAULT_MAX_STEPS, max_tokens: None, deadline: None },
            approval: ApprovalMode::Auto,
            tool_prompt: TOOL_PROMPT@,
            sampling,
            images: Seq::empty(),
            answer_as: None,
        }
    }
}

/// Adds tools to registrations.
pub fn register(
    entries: &mut Vec<(ToolEntry, ToolLoading)>,
    tools: Vec<ToolEntry>,
    loading: ToolLoading,
)
    ensures
        entry_views(final(entries)@) == entry_views(old(entries)@) + loaded(views(tools@), loading),
{
    let ghost before = entry_views(entries@);
    let ghost all = views(tools@);
    let mut i: usize = 0;
    assert(before + loaded(all.take(0), loading) =~= before);
    while i < tools.len()
        invariant
            i <= tools.len(),
            all == views(tools@),
            entry_views(entries@) == before + loaded(all.take(i as int), loading),
        decreases tools.len() - i,
    {
        let ghost had = entry_views(entries@);
        let tool = tools[i].clone();
        assert(tool@ == all[i as int]);
        entries.push((tool, loading));
        assert(entry_views(entries@) =~= had.push((all[i as int], loading)));
        assert(loaded(all.take(i + 1), loading) =~= loaded(all.take(i as int), loading).push(
            (all[i as int], loading),
        ));
        assert(entry_views(entries@) =~= before + loaded(all.take(i + 1), loading));
        i += 1;
    }
    assert(all.take(tools.len() as int) =~= all);
}

impl Agent {
    /// An agent with nothing set, sampling as the engine does.
    pub fn new(sampling: Sampling) -> (out: Self)
        ensures
            out@ == AgentView::plain(sampling),
    {
        let out = Agent {
            entries: Vec::new(),
            search: None,
            budgets: Budgets::default(),
            approval: ApprovalMode::Auto,
            tool_prompt: TOOL_PROMPT.to_owned(),
            sampling,
            images: Vec::new(),
            answer_as: None,
        };
        assert(out@ =~= AgentView::plain(sampling));
        out
    }

    /// Register a tool the model can see from the first turn.
    pub fn add_tool(self, tool: ToolEntry) -> (out: Self)
        ensures
            out@ == (AgentView {
                entries: self@.entries.push((tool@, ToolLoading::Resident)),
                ..self@
            }),
    {
        let ghost before = self@;
        let mut out = self;
        out.entries.push((tool, ToolLoading::Resident));
        assert(out@ =~= AgentView {
            entries: before.entries.push((tool@, ToolLoading::Resident)),
            ..before
        });
        out
    }

    /// Register several resident tools.
    pub fn add_tools(self, tools: Vec<ToolEntry>) -> (out: Self)
        ensures
            out@ == (AgentView {
                entries: self@.entries + loaded(views(tools@), ToolLoading::Resident),
                ..self@
            }),
    {
        let mut out = self;
        register(&mut out.entries, tools, ToolLoading::Resident);
        out
    }

    /// Register a tool the model finds only by searching.
    ///
    /// Its schema stays out of the prompt until search surfaces it.
    pub fn defer_tool(self, tool: ToolEntry) -> (out: Self)
        ensures
            out@ == (AgentView {
                entries: self@.entries.push((tool@, ToolLoading::Deferred)),
                ..self@
            }),
    {
        let ghost before = self@;
        let mut out = self;
        out.entries.push((tool, ToolLoading::Deferred));
        assert(out@ =~= AgentView {
            entries: before.entries.push((tool@, ToolLoading::Deferred)),
            ..before
        });
        out
    }

    /// Register several deferred tools.
    pub fn defer_tools(self, tools: Vec<ToolEntry>) -> (out: Self)
        ensures
            out@ == (AgentView {
                entries: self@.entries + loaded(views(tools@), ToolLoading::Deferred),
                ..self@
            }),
    {
        let mut out = self;
        register(&mut out.entries, tools, ToolLoading::Deferred);
        out
    }

    /// Install an already-built set of registrations.
    pub fn with_entries(self, entries: Vec<(ToolEntry, ToolLoading)>) -> (out: Self)
        ensures
            out@ == (AgentView { entries: entry_views(entries@), ..self@ }),
    {
        let mut out = self;
        out.entries = entries;
        out
    }

    /// How deferred tools are found. Required if anything is deferred.
    pub fn tool_search(self, search: ToolSearch) -> (out: Self)
        ensures
            out@ == (AgentView { search: Some(search), ..self@ }),
    {
        let mut out = self;
        out.search = Some(search);
        out
    }

    /// Attach images to the goal.
    pub fn images(self, images: Vec<String>) -> (out: Self)
        ensures
            out@ == (AgentView { images: self@.images + views(images@), ..self@ }),
    {
        let ghost before = self@;
        let ghost added = views(images@);
        let mut out = self;
        let mut images = images;
        out.images.append(&mut images);
        assert(views(out.images@) =~= before.images + added);
        out
    }

    /// Require the final answer to have a shape: once the work is done, the
    /// model is asked once more with this instruction.
    pub fn answer_as(self, instruction: &str) -> (out: Self)
        ensures
            out@ == (AgentView { answer_as: Some(instruction@), ..self@ }),
    {
        let mut out = self;
        out.answer_as = Some(instruction.to_owned());
        out
    }

    /// Seed the sampler.
    pub fn seed(self, seed: u64) -> (out: Self)
        ensures
            out@ == (AgentView {
                sampling: Sampling { seed: Some(seed), ..self@.sampling },
                ..self@
            }),
    {
        let mut out = self;
        out.sampling.seed = Some(seed);
        out
    }

    /// Decode deterministically: temperature 0 with a fixed seed.
    pub fn greedy(self) -> (out: Self)
        ensures
            out@ == (AgentView { sampling: self@.sampling.greedily(), ..self@ }),
    {
        let mut out = self;
        let seed: u64 = out.sampling.seed.unwrap_or(0);
        out.sampling = Sampling { greedy: true, seed: Some(seed) };
        out
    }

    /// Cap the rounds of generate-and-call. Defaults to [`DEFAULT_MAX_STEPS`].
    pub fn max_steps(self, steps: usize) -> (out: Self)
        ensures
            out@ == (AgentView {
                budgets: Budgets { max_steps: steps, ..self@.budgets },
                ..self@
            }),
    {
        let mut out = self;
        out.budgets.max_steps = steps;
        out
    }

    /// Cap total tokens generated across the run.
    pub fn max_tokens_total(self, tokens: u32) -> (out: Self)
        ensures
            out@ == (AgentView {
                budgets: Budgets { max_tokens: Some(tokens), ..self@.budgets },
                ..self@
            }),
    {
        let mut out = self;
        out.budgets.max_tokens = Some(tokens);
        out
    }

    /// Stop after this much wall-clock, in nanoseconds.
    pub fn deadline(self, after: u128) -> (out: Self)
        ensures
            out@ == (AgentView {
                budgets: Budgets { deadline: Some(after), ..self@.budgets },
                ..self@
            }),
    {
        let mut out = self;
        out.budgets.deadline = Some(after);
        out
    }

    /// Ask before running tools that declare themselves risky.
    pub fn approval(self, mode: ApprovalMode) -> (out: Self)
        ensures
            out@ == (AgentView { approval: mode, ..self@ }),
    {
        let mut out = self;
        out.approval = mode;
        out
    }

    /// How the tool list is introduced to the model.
    pub fn tool_prompt(self, prompt: &str) -> (out: Self)
        ensures
            out@ == (AgentView { tool_prompt: prompt@, ..self@ }),
    {
        let mut out = self;
        out.tool_prompt = prompt.to_owned();
        out
    }
}

/// Before anything is set an agent has no tools and asks no one, its rounds
/// are the default number, and neither tokens nor time are bounded.
pub proof fn what_an_agent_starts_from(sampling: Sampling)
    ensures
        AgentView::plain(sampling).entries.len() == 0,
        AgentView::plain(sampling).search is None,
        AgentView::plain(sampling).budgets.max_steps == DEFAULT_MAX_STEPS,
        AgentView::plain(sampling).budgets.max_tokens is None,
        AgentView::plain(sampling).budgets.deadline is None,
        AgentView::plain(sampling).approval == ApprovalMode::Auto,
        AgentView::plain(sampling).tool_prompt == TOOL_PROMPT@,
        AgentView::plain(sampling).sampling == sampling,
        AgentView::plain(sampling).images.len() == 0,
        AgentView::plain(sampling).answer_as is None,
{
}

} // verus!
