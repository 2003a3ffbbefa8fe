//! A tool set and policy, reused across runs.
//!
//! An agent's tools are the stable part; the conversation is what changes.
//! Registering them on every run inverts that, and makes it easy to vary the
//! set by accident, which costs a re-prefill.
use vstd::prelude::*;
use vstd::string::*;
use crate::agent::{
    entry_views, loaded, register, Agent, AgentView, ApprovalMode, Budgets, DEFAULT_MAX_STEPS,
    TOOL_PROMPT,
};
use crate::generation::Sampling;
use crate::message::copy_text;
use crate::seqs::{group_views, view_of, views};
use crate::session::Session;
use crate::session_model::SessionState;
use crate::tools::{EntryView, ToolEntry, ToolLoading, ToolSearch};

verus! {

broadcast use group_views;

/// A reusable agent setup.
#[derive(Debug, PartialEq, Eq)]
pub struct AgentConfig {
    entries: Vec<(ToolEntry, ToolLoading)>,
    search: Option<ToolSearch>,
    max_steps: Option<usize>,
    max_tokens: Option<u32>,
    deadline: Option<u128>,
    approval: ApprovalMode,
    tool_prompt: Option<String>,
    greedy: bool,
}

/// A setup, mathematically.
#[verifier::ext_equal]
pub struct ConfigView {
    pub entries: Seq<(EntryView, ToolLoading)>,
    pub search: Option<ToolSearch>,
    pub max_steps: Option<usize>,
    pub max_tokens: Option<u32>,
    pub deadline: Option<u128>,
    pub approval: ApprovalMode,
    pub tool_prompt: Option<Seq<char>>,
    pub greedy: bool,
}

impl View for AgentConfig {
    type V = ConfigView;

    closed spec fn view(&self) -> ConfigView {
        ConfigView {
            entries: entry_views(self.entries@),
            search: self.search,
            max_steps: self.max_steps,
            max_tokens: self.max_tokens,
            deadline: self.deadline,
            approval: self.approval,
            tool_prompt: view_of(self.tool_prompt),
            greedy: self.greedy,
        }
    }
}

impl ConfigView {
    /// Nothing set.
    pub open spec fn blank() -> ConfigView {
        ConfigView {
            entries: Seq::empty(),
            search: None,
            max_steps: None,
            max_tokens: None,
            deadline: None,
            approval: ApprovalMode::Auto,
            tool_prompt: None,
            greedy: false,
        }
    }

    /// The limits of a run: those that are set, else the defaults.
    pub open spec fn budgets(self) -> Budgets {
        Budgets {
            max_steps: match self.max_steps {
                Some(n) => n,
                None => DEFAULT_MAX_STEPS,
            },
            max_tokens: self.max_tokens,
            deadline: self.deadline,
        }
    }

    /// The agent of one run.
    pub open spec fn agent(self, sampling: Sampling) -> AgentView {
        AgentView {
            entries: self.entries,
            search: self.search,
            budgets: self.budgets(),
            approval: self.approval,
            tool_prompt: match self.tool_prompt {
                Some(prompt) => prompt,
                None => TOOL_PROMPT@,
            },
            sampling: if self.greedy {
                sampling.greedily()
            } else {
                sampling
            },
            images: Seq::empty(),
            answer_as: None,
        }
    }

    /// The agent of one run that owns its session.
    pub open spec fn owned(self, session: SessionState) -> OwnedView {
        OwnedView {
            session,
            resident: of_loading(self.entries, ToolLoading::Resident),
            deferred: of_loading(self.entries, ToolLoading::Deferred),
            search: self.search,
            max_steps: self.max_steps,
            max_tokens: self.max_tokens,
            deadline: self.deadline,
            approval: self.approval,
            tool_prompt: self.tool_prompt,
            greedy: self.greedy,
            goal: None,
        }
    }
}

/// Registrations of their own.
fn copy_entries(entries: &Vec<(ToolEntry, ToolLoading)>) -> (out: Vec<(ToolEntry, ToolLoading)>)
    ensures
        entry_views(out@) == entry_views(entries@),
{
    let mut out: Vec<(ToolEntry, ToolLoading)> = Vec::new();
    let mut i: usize = 0;
    while i < entries.len()
        invariant
            i <= entries.len(),
            out.len() == i,
            forall|k: int|
                0 <= k < i ==> (#[trigger] out@[k]).0@ == entries@[k].0@ && out@[k].1
                    == entries@[k].1,
        decreases entries.len() - i,
    {
        let tool = entries[i].0.clone();
        out.push((tool, entries[i].1));
        i += 1;
    }
    assert(entry_views(out@) =~= entry_views(entries@));
    out
}

impl Clone for AgentConfig {
    fn clone(&self) -> (out: Self)
        ensures
            out@ == self@,
    {
        AgentConfig {
            entries: copy_entries(&self.entries),
            search: self.search,
            max_steps: self.max_steps,
            max_tokens: self.max_tokens,
            deadline: self.deadline,
            approval: self.approval,
            tool_prompt: copy_text(&self.tool_prompt),
            greedy: self.greedy,
        }
    }
}

impl Default for AgentConfig {
    fn default() -> (out: Self)
        ensures
            out@ == ConfigView::blank(),
    {
        let out = AgentConfig {
            entries: Vec::new(),
            search: None,
            max_steps: None,
            max_tokens: None,
            deadline: None,
            approval: ApprovalMode::Auto,
            tool_prompt: None,
            greedy: false,
        };
        assert(out@ =~= ConfigView::blank());
        out
    }
}

impl AgentConfig {
    /// An empty configuration.
    pub fn new() -> (out: Self)
        ensures
            out@ == ConfigView::blank(),
    {
        AgentConfig::default()
    }

    /// Register a tool the model sees from the first turn.
    pub fn add_tool(self, tool: ToolEntry) -> (out: Self)
        ensures
            out@ == (ConfigView {
                entries: self@.entries.push((tool@, ToolLoading::Resident)),
                ..self@
            }),
    {
        let ghost before = self@;
        let mut out = self;
        out.entries.push((tool, ToolLoading::Resident));
        assert(out@ =~= ConfigView {
            entries: before.entries.push((tool@, ToolLoading::Resident)),
            ..before
        });
        out
    }

    /// Register several resident tools.
    pub fn add_tools(self, tools: Vec<ToolEntry>) -> (out: Self)
        ensures
            out@ == (ConfigView {
                entries: self@.entries + loaded(views(tools@), ToolLoading::Resident),
                ..self@
            }),
    {
        let mut out = self;
        register(&mut out.entries, tools, ToolLoading::Resident);
        out
    }

    /// Register a tool found only by searching.
    pub fn defer_tool(self, tool: ToolEntry) -> (out: Self)
        ensures
            out@ == (ConfigView {
                entries: self@.entries.push((tool@, ToolLoading::Deferred)),
                ..self@
            }),
    {
        let ghost before = self@;
        let mut out = self;
        out.entries.push((tool, ToolLoading::Deferred));
        assert(out@ =~= ConfigView {
            entries: before.entries.push((tool@, ToolLoading::Deferred)),
            ..before
        });
        out
    }

    /// Register several deferred tools.
    pub fn defer_tools(self, tools: Vec<ToolEntry>) -> (out: Self)
        ensures
            out@ == (ConfigView {
                entries: self@.entries + loaded(views(tools@), ToolLoading::Deferred),
                ..self@
            }),
    {
        let mut out = self;
        register(&mut out.entries, tools, ToolLoading::Deferred);
        out
    }

    /// How deferred tools are found.
    pub fn tool_search(self, search: ToolSearch) -> (out: Self)
        ensures
            out@ == (ConfigView { search: Some(search), ..self@ }),
    {
        let mut out = self;
        out.search = Some(search);
        out
    }

    /// Cap the rounds *per run*. Runs do not share a budget: what is counted is one
    /// run, from goal to answer.
    pub fn max_steps(self, steps: usize) -> (out: Self)
        ensures
            out@ == (ConfigView { max_steps: Some(steps), ..self@ }),
    {
        let mut out = self;
        out.max_steps = Some(steps);
        out
    }

    /// Cap tokens per run.
    pub fn max_tokens_total(self, tokens: u32) -> (out: Self)
        ensures
            out@ == (ConfigView { max_tokens: Some(tokens), ..self@ }),
    {
        let mut out = self;
        out.max_tokens = Some(tokens);
        out
    }

    /// Wall-clock limit per run, in nanoseconds.
    pub fn deadline(self, after: u128) -> (out: Self)
        ensures
            out@ == (ConfigView { deadline: Some(after), ..self@ }),
    {
        let mut out = self;
        out.deadline = Some(after);
        out
    }

    /// Decode deterministically for every run built from this config.
    pub fn greedy(self) -> (out: Self)
        ensures
            out@ == (ConfigView { greedy: true, ..self@ }),
    {
        let mut out = self;
        out.greedy = true;
        out
    }

    /// Ask before running risky tools.
    pub fn approval(self, mode: ApprovalMode) -> (out: Self)
        ensures
            out@ == (ConfigView { approval: mode, ..self@ }),
    {
        let mut out = self;
        out.approval = mode;
        out
    }

    /// How the tool list is introduced to the model.
    pub fn tool_prompt(self, prompt: &str) -> (out: Self)
        ensures
            out@ == (ConfigView { tool_prompt: Some(prompt@), ..self@ }),
    {
        let mut out = self;
        out.tool_prompt = Some(prompt.to_owned());
        out
    }

    /// How many tools are registered.
    pub fn len(&self) -> (out: usize)
        ensures
            out == self@.entries.len(),
    {
        self.entries.len()
    }

    /// Whether nothing is registered.
    pub fn is_empty(&self) -> (out: bool)
        ensures
            out == (self@.entries.len() == 0),
    {
        self.entries.len() == 0
    }

    /// The tools, each by name with how it is loaded.
    pub fn described(&self) -> (out: Vec<String>)
        ensures
            views(out@) == self@.entries.map_values(|e: (EntryView, ToolLoading)| description(e)),
    {
        let mut out: Vec<String> = Vec::new();
        let mut i: usize = 0;
        while i < self.entries.len()
            invariant
                i <= self.entries.len(),
                out.len() == i,
                forall|k: int|
                    0 <= k < i ==> (#[trigger] out@[k])@ == description(
                        (self.entries@[k].0@, self.entries@[k].1),
                    ),
            decreases self.entries.len() - i,
        {
            let name = self.entries[i].0.spec.name.clone();
            out.push(
                match self.entries[i].1 {
                    ToolLoading::Resident => name.concat(" (Resident)"),
                    ToolLoading::Deferred => name.concat(" (Deferred)"),
                },
            );
            i += 1;
        }
        assert(views(out@) =~= self@.entries.map_values(
            |e: (EntryView, ToolLoading)| description(e),
        ));
        out
    }

    /// Build an agent for one run.
    ///
    /// The approval callback is not part of a configuration — it usually
    /// closes over a UI, so it is set per run.
    pub fn agent(&self, sampling: Sampling) -> (out: Agent)
        ensures
            out@ == self@.agent(sampling),
    {
        let mut agent = Agent::new(sampling).with_entries(copy_entries(&self.entries)).approval(
            self.approval,
        );
        if let Some(s) = self.search {
            agent = agent.tool_search(s);
        }
        if let Some(n) = self.max_steps {
            agent = agent.max_steps(n);
        }
        if let Some(n) = self.max_tokens {
            agent = agent.max_tokens_total(n);
        }
        if let Some(d) = self.deadline {
            agent = agent.deadline(d);
        }
        if let Some(p) = &self.tool_prompt {
            agent = agent.tool_prompt(p.as_str());
        }
        if self.greedy {
            agent = agent.greedy();
        }
        agent
    }

    /// Build an agent that runs off the calling thread, over a session it
    /// owns. Resident tools come before deferred ones there.
    pub fn agent_owned(&self, session: Session) -> (out: OwnedAgent)
        requires
            session.wf(),
        ensures
            out.wf(),
            out@ == self@.owned(session@),
    {
        let ghost owned = session@;
        let mut out = OwnedAgent::new(session).approval(self.approval);
        let ghost all = self@.entries;
        let mut i: usize = 0;
        assert(all.take(0) =~= Seq::empty());
        while i < self.entries.len()
            invariant
                i <= self.entries.len(),
                all == entry_views(self.entries@),
                out.wf(),
                out@ == (OwnedView {
                    resident: of_loading(all.take(i as int), ToolLoading::Resident),
                    deferred: of_loading(all.take(i as int), ToolLoading::Deferred),
                    approval: self.approval,
                    ..OwnedView::over(owned)
                }),
            decreases self.entries.len() - i,
        {
            assert(all.take(i + 1).drop_last() =~= all.take(i as int));
            assert(all.take(i + 1).last() == (self.entries@[i as int].0@, self.entries@[i as int].1));
            let tool = self.entries[i].0.clone();
            out =
            match self.entries[i].1 {
                ToolLoading::Resident => out.add_tool(tool),
                ToolLoading::Deferred => out.defer_tool(tool),
            };
            i += 1;
        }
        assert(all.take(self.entries.len() as int) =~= all);
        if let Some(s) = self.search {
            out = out.tool_search(s);
        }
        if let Some(n) = self.max_steps {
            out = out.max_steps(n);
        }
        if let Some(n) = self.max_tokens {
            out = out.max_tokens_total(n);
        }
        if let Some(d) = self.deadline {
            out = out.deadline(d);
        }
        if let Some(p) = &self.tool_prompt {
            out = out.tool_prompt(p.as_str());
        }
        if self.greedy {
            out = out.greedy();
        }
        out
    }
}

/// A configuration means the same on the calling thread and off it, but that
/// off it the resident tools come before the deferred ones.
pub proof fn a_run_is_configured_alike_on_any_thread(
    config: ConfigView,
    session: SessionState,
    sampling: Sampling,
)
    ensures
        config.owned(session).agent(sampling) == (AgentView {
            entries: loaded(
                of_loading(config.entries, ToolLoading::Resident),
                ToolLoading::Resident,
            ) + loaded(of_loading(config.entries, ToolLoading::Deferred), ToolLoading::Deferred),
            ..config.agent(sampling)
        }),
        config.owned(session).session == session,
{
}

/// A tool by name with how it is loaded.
pub open spec fn description(entry: (EntryView, ToolLoading)) -> Seq<char> {
    entry.0.spec.name + (match entry.1 {
        ToolLoading::Resident => " (Resident)"@,
        ToolLoading::Deferred => " (Deferred)"@,
    })
}

/// The tools of one loading, in order.
pub open spec fn of_loading(
    entries: Seq<(EntryView, ToolLoading)>,
    loading: ToolLoading,
) -> Seq<EntryView>
    decreases entries.len(),
{
    if entries.len() == 0 {
        Seq::empty()
    } else {
        let before = of_loading(entries.drop_last(), loading);
        if entries.last().1 == loading {
            before.push(entries.last().0)
        } else {
            before
        }
    }
}

// ── Off the calling thread ──────────────────────────────────────────────────

/// An agent that runs on a thread of its own, over a session it owns. The
/// session comes back with the last update.
#[derive(Debug)]
pub struct OwnedAgent {
    session: Session,
    resident: Vec<ToolEntry>,
    deferred: Vec<ToolEntry>,
    search: Option<ToolSearch>,
    max_steps: Option<usize>,
    max_tokens: Option<u32>,
    deadline: Option<u128>,
    approval: ApprovalMode,
    tool_prompt: Option<String>,
    greedy: bool,
    goal: Option<String>,
}

/// An agent that owns its session, mathematically.
#[verifier::ext_equal]
pub struct OwnedView {
    pub session: SessionState,
    pub resident: Seq<EntryView>,
    pub deferred: Seq<EntryView>,
    pub search: Option<ToolSearch>,
    pub max_steps: Option<usize>,
    pub max_tokens: Option<u32>,
    pub deadline: Option<u128>,
    pub approval: ApprovalMode,
    pub tool_prompt: Option<Seq<char>>,
    pub greedy: bool,
    pub goal: Option<Seq<char>>,
}

impl View for OwnedAgent {
    type V = OwnedView;

    closed spec fn view(&self) -> OwnedView {
        OwnedView {
            session: self.session@,
            resident: views(self.resident@),
            deferred: views(self.deferred@),
            search: self.search,
            max_steps: self.max_steps,
            max_tokens: self.max_tokens,
            deadline: self.deadline,
            approval: self.approval,
            tool_prompt: view_of(self.tool_prompt),
            greedy: self.greedy,
            goal: view_of(self.goal),
        }
    }
}

impl OwnedView {
    /// An agent over a session, with nothing else set.
    pub open spec fn over(session: SessionState) -> OwnedView {
        OwnedView {
            session,
            resident: Seq::empty(),
            deferred: Seq::empty(),
            search: None,
            max_steps: None,
            max_tokens: None,
            deadline: None,
            approval: ApprovalMode::Auto,
            tool_prompt: None,
            greedy: false,
            goal: None,
        }
    }

    /// The agent that runs.
    pub open spec fn agent(self, sampling: Sampling) -> AgentView {
        AgentView {
            entries: loaded(self.resident, ToolLoading::Resident) + loaded(
                self.deferred,
                ToolLoading::Deferred,
            ),
            search: self.search,
            budgets: Budgets {
                max_steps: match self.max_steps {
                    Some(n) => n,
                    None => DEFAULT_MAX_STEPS,
                },
                max_tokens: self.max_tokens,
                deadline: self.deadline,
            },
            approval: self.approval,
            tool_prompt: match self.tool_prompt {
                Some(prompt) => prompt,
                None => TOOL_PROMPT@,
            },
            sampling: if self.greedy {
                sampling.greedily()
            } else {
                sampling
            },
            images: Seq::empty(),
            answer_as: None,
        }
    }
}

impl OwnedAgent {
    /// Whether the session is sound.
    pub closed spec fn wf(&self) -> bool {
        self.session.wf()
    }

    /// An agent over a session, with nothing else set.
    pub fn new(session: Session) -> (out: Self)
        requires
            session.wf(),
        ensures
            out.wf(),
            out@ == OwnedView::over(session@),
    {
        let out = OwnedAgent {
            session,
            resident: Vec::new(),
            deferred: Vec::new(),
            search: None,
            max_steps: None,
            max_tokens: None,
            deadline: None,
            approval: ApprovalMode::Auto,
            tool_prompt: None,
            greedy: false,
            goal: None,
        };
        assert(out@ =~= OwnedView::over(session@));
        out
    }

    /// Register a resident tool.
    pub fn add_tool(self, tool: ToolEntry) -> (out: Self)
        ensures
            out.wf() == self.wf(),
            out@ == (OwnedView { resident: self@.resident.push(tool@), ..self@ }),
    {
        let ghost before = self@;
        let mut out = self;
        out.resident.push(tool);
        assert(out@ =~= OwnedView { resident: before.resident.push(tool@), ..before });
        out
    }

    /// Register several resident tools.
    pub fn add_tools(self, tools: Vec<ToolEntry>) -> (out: Self)
        ensures
            out.wf() == self.wf(),
            out@ == (OwnedView { resident: self@.resident + views(tools@), ..self@ }),
    {
        let ghost before = self@;
        let ghost more = views(tools@);
        let mut out = self;
        let mut tools = tools;
        out.resident.append(&mut tools);
        assert(out@ =~= OwnedView { resident: before.resident + more, ..before });
        out
    }

    /// Register a tool found only by searching.
    pub fn defer_tool(self, tool: ToolEntry) -> (out: Self)
        ensures
            out.wf() == self.wf(),
            out@ == (OwnedView { deferred: self@.deferred.push(tool@), ..self@ }),
    {
        let ghost before = self@;
        let mut out = self;
        out.deferred.push(tool);
        assert(out@ =~= OwnedView { deferred: before.deferred.push(tool@), ..before });
        out
    }

    /// Register several deferred tools.
    pub fn defer_tools(self, tools: Vec<ToolEntry>) -> (out: Self)
        ensures
            out.wf() == self.wf(),
            out@ == (OwnedView { deferred: self@.deferred + views(tools@), ..self@ }),
    {
        let ghost before = self@;
        let ghost more = views(tools@);
        let mut out = self;
        let mut tools = tools;
        out.deferred.append(&mut tools);
        assert(out@ =~= OwnedView { deferred: before.deferred + more, ..before });
        out
    }

    /// How deferred tools are found.
    pub fn tool_search(self, search: ToolSearch) -> (out: Self)
        ensures
            out.wf() == self.wf(),
            out@ == (OwnedView { search: Some(search), ..self@ }),
    {
        let mut out = self;
        out.search = Some(search);
        out
    }

    /// Cap the rounds.
    pub fn max_steps(self, steps: usize) -> (out: Self)
        ensures
            out.wf() == self.wf(),
            out@ == (OwnedView { max_steps: Some(steps), ..self@ }),
    {
        let mut out = self;
        out.max_steps = Some(steps);
        out
    }

    /// Cap total tokens generated.
    pub fn max_tokens_total(self, tokens: u32) -> (out: Self)
        ensures
            out.wf() == self.wf(),
            out@ == (OwnedView { max_tokens: Some(tokens), ..self@ }),
    {
        let mut out = self;
        out.max_tokens = Some(tokens);
        out
    }

    /// Stop after this much wall-clock, in nanoseconds.
    pub fn deadline(self, after: u128) -> (out: Self)
        ensures
            out.wf() == self.wf(),
            out@ == (OwnedView { deadline: Some(after), ..self@ }),
    {
        let mut out = self;
        out.deadline = Some(after);
        out
    }

    /// Ask before running risky tools.
    pub fn approval(self, mode: ApprovalMode) -> (out: Self)
        ensures
            out.wf() == self.wf(),
            out@ == (OwnedView { approval: mode, ..self@ }),
    {
        let mut out = self;
        out.approval = mode;
        out
    }

    /// Decode deterministically.
    pub fn greedy(self) -> (out: Self)
        ensures
            out.wf() == self.wf(),
            out@ == (OwnedView { greedy: true, ..self@ }),
    {
        let mut out = self;
        out.greedy = true;
        out
    }

    /// How the tool list is introduced to the model.
    pub fn tool_prompt(self, prompt: &str) -> (out: Self)
        ensures
            out.wf() == self.wf(),
            out@ == (OwnedView { tool_prompt: Some(prompt@), ..self@ }),
    {
        let mut out = self;
        out.tool_prompt = Some(prompt.to_owned());
        out
    }

    /// What to do.
    pub fn goal(self, text: &str) -> (out: Self)
        ensures
            out.wf() == self.wf(),
            out@ == (OwnedView { goal: Some(text@), ..self@ }),
    {
        let mut out = self;
        out.goal = Some(text.to_owned());
        out
    }

    /// The session, the agent that runs over it, and what it is to do.
    pub fn assemble(self, sampling: Sampling) -> (out: (Session, Agent, Option<String>))
        requires
            self.wf(),
        ensures
            out.0.wf(),
            out.0@ == self@.session,
            out.1@ == self@.agent(sampling),
            view_of(out.2) == self@.goal,
    {
        let ghost before = self@;
        let mut agent = Agent::new(sampling).add_tools(self.resident).defer_tools(
            self.deferred,
        ).approval(self.approval);
        assert(agent@.entries =~= before.agent(sampling).entries);
        if let Some(s) = self.search {
            agent = agent.tool_search(s);
        }
        if let Some(n) = self.max_steps {
            agent = agent.max_steps(n);
        }
        if let Some(n) = self.max_tokens {
            agent = agent.max_tokens_total(n);
        }
        if let Some(d) = self.deadline {
            agent = agent.deadline(d);
        }
        if let Some(p) = &self.tool_prompt {
            agent = agent.tool_prompt(p.as_str());
        }
        if self.greedy {
            agent = agent.greedy();
        }
        (self.session, agent, self.goal)
    }
}

// ── Laws ────────────────────────────────────────────────────────────────────

/// What an agent runs with: every setting that was made, and the defaults for
/// the rest.
pub proof fn settings_that_are_made_count(config: ConfigView, sampling: Sampling)
    ensures
        ({
            let agent = config.agent(sampling);
            &&& config.max_steps matches Some(n) ==> agent.budgets.max_steps == n
            &&& config.max_steps is None ==> agent.budgets.max_steps == DEFAULT_MAX_STEPS
            &&& agent.budgets.max_tokens == config.max_tokens
            &&& agent.budgets.deadline == config.deadline
            &&& agent.approval == config.approval
            &&& agent.search == config.search
            &&& agent.entries == config.entries
            &&& config.tool_prompt matches Some(prompt) ==> agent.tool_prompt == prompt
            &&& config.tool_prompt is None ==> agent.tool_prompt == TOOL_PROMPT@
            &&& config.greedy ==> agent.sampling.greedy && agent.sampling.seed is Some
            &&& !config.greedy ==> agent.sampling == sampling
            &&& agent.answer_as is None
            &&& agent.images.len() == 0
        }),
{
}

/// An agent over a session of its own runs with every setting that was made,
/// its resident tools before its deferred ones.
pub proof fn an_owned_agent_is_configured_alike(owned: OwnedView, sampling: Sampling)
    ensures
        ({
            let agent = owned.agent(sampling);
            let n = owned.resident.len();
            &&& owned.max_steps matches Some(n) ==> agent.budgets.max_steps == n
            &&& owned.max_steps is None ==> agent.budgets.max_steps == DEFAULT_MAX_STEPS
            &&& agent.budgets.max_tokens == owned.max_tokens
            &&& agent.budgets.deadline == owned.deadline
            &&& agent.approval == owned.approval
            &&& agent.search == owned.search
            &&& agent.entries.len() == n + owned.deferred.len()
            &&& forall|i: int|
                0 <= i < n ==> #[trigger] agent.entries[i] == (
                    owned.resident[i],
                    ToolLoading::Resident,
                )
            &&& forall|i: int|
                n <= i < agent.entries.len() ==> #[trigger] agent.entries[i] == (
                    owned.deferred[i - n],
                    ToolLoading::Deferred,
                )
            &&& owned.greedy ==> agent.sampling.greedy
            &&& !owned.greedy ==> agent.sampling == sampling
        }),
{
}

/// The tools of one loading are those registered with it, in order.
pub proof fn tools_are_told_apart_by_their_loading(
    a: Seq<(EntryView, ToolLoading)>,
    b: Seq<(EntryView, ToolLoading)>,
    entry: EntryView,
    given: ToolLoading,
    loading: ToolLoading,
)
    ensures
        of_loading(a + b, loading) == of_loading(a, loading) + of_loading(b, loading),
        given == loading ==> of_loading(seq![(entry, given)], loading) == seq![entry],
        given != loading ==> of_loading(seq![(entry, given)], loading).len() == 0,
    decreases b.len(),
{
    let one = seq![(entry, given)];
    assert(one.drop_last() =~= Seq::empty());
    assert(of_loading(one.drop_last(), loading) =~= Seq::empty());
    if given == loading {
        assert(of_loading(one, loading) =~= seq![entry]);
    }
    if b.len() == 0 {
        assert(a + b =~= a);
        assert(of_loading(a, loading) + of_loading(b, loading) =~= of_loading(a, loading));
    } else {
        tools_are_told_apart_by_their_loading(a, b.drop_last(), entry, given, loading);
        assert((a + b).drop_last() =~= a + b.drop_last());
        assert(of_loading(a + b, loading) =~= of_loading(a, loading) + of_loading(b, loading));
    }
}

} // verus!
