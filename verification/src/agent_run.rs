//! The parts an agent's run is made of.
//!
//! Generating and running tools happen outside; here is every decision in
//! between. A [`Run`] counts rounds, tokens and repeated calls and says what
//! happens after a turn. A [`Round`] schedules the calls of one turn and
//! writes their results to the session in the order they were asked for.
use vstd::prelude::*;
use vstd::string::*;
use crate::agent::{ApprovalMode, Budgets, Decision, Risk, Steer, SteerView};
use crate::error::Error;
use crate::json::{lenient, Json};
use crate::message::{file_urls, CallView, FunctionDefinition, Message, MessageView, ToolCall};
use crate::rounds::step;
use crate::seqs::{group_views, view_of, views};
use crate::session::Session;
use crate::session_model::SessionState;
use crate::stream::{
    Budget, Completion, CompletionView, ExecutionStats, Finish, FinishView, StreamCallView,
    StreamToolCall, Struggle,
};
use crate::text::same_text;
use crate::tools::SEARCH_TOOL;

verus! {

broadcast use group_views;

/// How many identical calls in a row count as going in circles.
pub const REPEAT_LIMIT: usize = 3;

// ── Calls and results as the transcript keeps them ──────────────────────────

/// A streamed call as the transcript keeps it. A model that numbers no calls
/// leaves the tool's name for an id.
pub open spec fn wired(call: StreamCallView) -> CallView {
    CallView {
        id: match call.id {
            Some(id) => id,
            None => call.name,
        },
        kind: "function"@,
        description: None,
        name: call.name,
        arguments: lenient(call.arguments),
    }
}

/// A streamed call as the transcript keeps it. Arguments that are not JSON
/// are kept as a string rather than dropped — a malformed call is still part
/// of the transcript.
pub fn as_wire_call(call: &StreamToolCall) -> (out: ToolCall)
    ensures
        out@ == wired(call@),
{
    ToolCall {
        id: match &call.id {
            Some(id) => id.clone(),
            None => call.name.clone(),
        },
        kind: "function".to_owned(),
        function: FunctionDefinition {
            description: None,
            name: call.name.clone(),
            arguments: Json::lenient(call.arguments.as_str()),
        },
    }
}

/// The message that says which calls a turn made.
pub open spec fn asked_message(calls: Seq<StreamCallView>) -> MessageView {
    MessageView::assistant_calls(calls.map_values(|c: StreamCallView| wired(c)))
}

/// The message that says which calls a turn made.
pub fn calls_message(calls: &Vec<StreamToolCall>) -> (out: Message)
    ensures
        out@ == asked_message(views(calls@)),
{
    let mut kept: Vec<ToolCall> = Vec::new();
    let mut i: usize = 0;
    while i < calls.len()
        invariant
            i <= calls.len(),
            kept.len() == i,
            forall|k: int| 0 <= k < i ==> (#[trigger] kept@[k])@ == wired(calls@[k]@),
        decreases calls.len() - i,
    {
        kept.push(as_wire_call(&calls[i]));
        i += 1;
    }
    assert(views(kept@) =~= views(calls@).map_values(|c: StreamCallView| wired(c)));
    Message::assistant_tool_calls(kept)
}

/// A tool's result: tied to the call it answers when the model gave one an
/// id, else untied.
pub open spec fn answer(call: StreamCallView, text: Seq<char>) -> MessageView {
    match call.id {
        Some(id) => MessageView::result_for(id, text),
        None => MessageView::plain("tool"@, text),
    }
}

/// A tool's result, tied to the call it answers when the model gave one an
/// id.
///
/// Not every model does, so this falls back to an untied result rather than
/// inventing an id. A fabricated id is worse than none: a backend would match
/// it to a call that never existed.
pub fn result_message(call: &StreamToolCall, text: &str) -> (out: Message)
    ensures
        out@ == answer(call@, text@),
{
    match &call.id {
        Some(id) => Message::tool_result_for(id.as_str(), text),
        None => Message::tool_result(text),
    }
}

// ── Opening and steering ────────────────────────────────────────────────────

/// The session with the goal added, under the tool set of this run.
pub open spec fn with_goal(
    session: SessionState,
    fingerprint: u64,
    goal: Option<Seq<char>>,
    images: Seq<Seq<char>>,
) -> SessionState {
    let noted = session.with_prefix(fingerprint);
    match goal {
        None => noted,
        Some(text) => if images.len() == 0 {
            noted.pushed(MessageView::user(text))
        } else {
            noted.pushed(MessageView::user_with_images(text, file_urls(images)))
        },
    }
}

/// Add the goal. Tool definitions only reach the model when a conversation
/// opens, so a run with a different set than the session was opened with
/// reopens it.
pub fn open_goal(
    session: &mut Session,
    fingerprint: u64,
    goal: Option<&str>,
    images: &Vec<String>,
)
    requires
        old(session).wf(),
        old(session)@.next_id < u64::MAX,
    ensures
        final(session).wf(),
        final(session)@ == with_goal(old(session)@, fingerprint, (match goal {
            Some(text) => Some(text@),
            None => None,
        }), views(images@)),
{
    let _ = session.note_tools(fingerprint);
    match goal {
        Some(text) => {
            if images.len() == 0 {
                let _ = session.push_user(text);
            } else {
                let _ = session.push_user_with_images(text, images);
            }
        },
        None => {},
    }
}

/// The messages of some steering, as the session takes them.
pub open spec fn steered(steers: Seq<SteerView>) -> Seq<MessageView> {
    steers.map_values(|s: SteerView| MessageView::user(s.message))
}

/// Deliver what was said while the last step ran. Steering lands at the
/// boundary, never mid-call.
pub fn deliver(session: &mut Session, steers: Vec<Steer>)
    requires
        old(session).wf(),
        old(session)@.next_id + steers.len() <= u64::MAX,
    ensures
        final(session).wf(),
        final(session)@ == old(session)@.pushed_all(steered(views(steers@))),
{
    let ghost before = session@;
    let ghost all = steered(views(steers@));
    let mut i: usize = 0;
    assert(all.take(0) =~= Seq::empty());
    while i < steers.len()
        invariant
            i <= steers.len(),
            all == steered(views(steers@)),
            session.wf(),
            session@ == before.pushed_all(all.take(i as int)),
            session@.next_id == before.next_id + i,
            before.next_id + steers.len() <= u64::MAX,
        decreases steers.len() - i,
    {
        assert(all.take(i + 1).drop_last() =~= all.take(i as int));
        assert(all.take(i + 1).last() == MessageView::user(steers@[i as int].message@));
        let _ = session.push_user(steers[i].message.as_str());
        i += 1;
    }
    assert(all.take(steers.len() as int) =~= all);
}

// ── A run ───────────────────────────────────────────────────────────────────

/// A run, mathematically.
#[verifier::ext_equal]
pub struct RunView {
    pub budgets: Budgets,
    /// What to ask for once the work is done.
    pub answer_as: Option<Seq<char>>,
    /// How many rounds have gone by.
    pub step: nat,
    /// How many tokens have been generated.
    pub spent: nat,
    /// The latest calls, name and arguments, no more than are compared.
    pub recent: Seq<(Seq<char>, Seq<char>)>,
    /// What the run amounts to so far.
    pub totals: CompletionView,
}

/// What happens after a turn.
#[derive(Debug, PartialEq, Eq)]
pub enum Next {
    /// The run is over.
    Done,
    /// Another round: the turn was cut short in order to say something.
    Again,
    /// One more turn, for the answer in the shape that was asked for.
    Shape,
    /// The calls the turn made are to be run.
    Calls(Round),
}

impl RunView {
    /// A run at its beginning.
    pub open spec fn begun(budgets: Budgets, answer_as: Option<Seq<char>>) -> RunView {
        RunView {
            budgets,
            answer_as,
            step: 0,
            spent: 0,
            recent: Seq::empty(),
            totals: CompletionView::blank(),
        }
    }

    /// The budget that stops the run before its next round.
    pub open spec fn out_of(self, elapsed: u128) -> Option<Budget> {
        if self.step >= self.budgets.max_steps {
            Some(Budget::Steps)
        } else if self.budgets.deadline matches Some(limit) && elapsed >= limit {
            Some(Budget::Deadline)
        } else {
            None
        }
    }

    /// The run with a turn accounted for.
    pub open spec fn counted(self, turn: CompletionView) -> RunView {
        let spent = self.spent + turn.tokens();
        RunView {
            spent,
            totals: CompletionView {
                text: turn.text,
                dropped: self.totals.dropped + turn.dropped,
                compacted: self.totals.compacted + turn.compacted,
                tool_rounds: self.step,
                stats: match turn.stats {
                    Some(stats) => Some(ExecutionStats { decode_tokens: spent as u32, ..stats }),
                    None => self.totals.stats,
                },
                ..self.totals
            },
            ..self
        }
    }

    /// Whether the counters have room for a turn.
    pub open spec fn has_room(self, turn: CompletionView) -> bool {
        &&& self.spent + turn.tokens() <= u32::MAX
        &&& self.totals.dropped + turn.dropped <= usize::MAX
        &&& self.totals.compacted + turn.compacted <= usize::MAX
        &&& self.step < usize::MAX
    }

    /// Whether a turn spends the last of the token budget.
    pub open spec fn overspent(self, turn: CompletionView) -> bool {
        self.budgets.max_tokens matches Some(limit) && self.spent + turn.tokens() >= limit
    }

    /// The run ended for a reason.
    pub open spec fn ended(self, finish: FinishView) -> RunView {
        RunView { totals: CompletionView { finish, ..self.totals }, ..self }
    }

    /// The latest calls with one more.
    pub open spec fn with_call(self, call: StreamCallView) -> Seq<(Seq<char>, Seq<char>)> {
        let all = self.recent.push((call.name, call.arguments));
        if all.len() > REPEAT_LIMIT {
            all.drop_first()
        } else {
            all
        }
    }

    /// Whether a call makes the same one, with the same arguments, as often in
    /// a row as counts as going in circles.
    pub open spec fn circles(self, call: StreamCallView) -> bool {
        let latest = self.with_call(call);
        &&& latest.len() == REPEAT_LIMIT
        &&& forall|i: int|
            0 <= i < latest.len() ==> #[trigger] latest[i] == (call.name, call.arguments)
    }
}

/// What a turn leaves of the run and the session, and what comes next.
pub open spec fn after_turn(
    run: RunView,
    session: SessionState,
    turn: CompletionView,
    steering: bool,
    next: Next,
    run2: RunView,
    session2: SessionState,
) -> bool {
    let counted = run.counted(turn);
    if run.overspent(turn) {
        &&& next is Done
        &&& run2 == counted.ended(FinishView::OutOfBudget(Budget::Tokens))
        &&& session2 == session
    } else if turn.tool_calls.len() > 0 {
        &&& next matches Next::Calls(round) && round@ == RoundView::begun(turn.tool_calls)
        &&& run2 == counted
        &&& session2 == session.pushed(asked_message(turn.tool_calls))
    } else {
        let answered = session.pushed(MessageView::assistant(turn.text, None));
        if turn.finish == FinishView::Stopped && steering {
            &&& next is Again
            &&& run2 == counted
            &&& session2 == answered
        } else {
            &&& run2 == counted.ended(turn.finish)
            &&& match run.answer_as {
                Some(instruction) => next is Shape && session2 == answered.pushed(
                    MessageView::user(instruction),
                ),
                None => next is Done && session2 == answered,
            }
        }
    }
}

/// The progress of an agent's run.
#[derive(Debug, PartialEq, Eq)]
pub struct Run {
    budgets: Budgets,
    answer_as: Option<String>,
    step: usize,
    spent: u32,
    recent: Vec<(String, String)>,
    totals: Completion,
}

/// Pairs of texts, mathematically.
pub open spec fn pair_views(pairs: Seq<(String, String)>) -> Seq<(Seq<char>, Seq<char>)> {
    pairs.map_values(|p: (String, String)| (p.0@, p.1@))
}

impl View for Run {
    type V = RunView;

    closed spec fn view(&self) -> RunView {
        RunView {
            budgets: self.budgets,
            answer_as: view_of(self.answer_as),
            step: self.step as nat,
            spent: self.spent as nat,
            recent: pair_views(self.recent@),
            totals: self.totals@,
        }
    }
}

impl Run {
    /// A run at its beginning.
    pub fn new(budgets: Budgets, answer_as: Option<String>) -> (out: Self)
        ensures
            out@ == RunView::begun(budgets, view_of(answer_as)),
    {
        let out = Run {
            budgets,
            answer_as,
            step: 0,
            spent: 0,
            recent: Vec::new(),
            totals: Completion::default(),
        };
        assert(out@ =~= RunView::begun(budgets, view_of(answer_as)));
        out
    }

    /// How many rounds have gone by.
    pub fn step(&self) -> (out: usize)
        ensures
            out == self@.step,
    {
        self.step
    }

    /// Whether the counters have room for a turn, so that it can be taken in.
    pub fn has_room_for(&self, turn: &Completion) -> (out: bool)
        ensures
            out == self@.has_room(turn@),
    {
        let tokens: u32 = match &turn.stats {
            Some(stats) => stats.decode_tokens,
            None => 0,
        };
        self.spent <= u32::MAX - tokens && self.totals.dropped <= usize::MAX - turn.dropped
            && self.totals.compacted <= usize::MAX - turn.compacted && self.step < usize::MAX
    }

    /// Whether the next round may begin. Where a budget is spent the run is
    /// over, and says which.
    pub fn begin_step(&mut self, elapsed: u128) -> (out: bool)
        ensures
            match old(self)@.out_of(elapsed) {
                Some(budget) => !out && final(self)@ == old(self)@.ended(
                    FinishView::OutOfBudget(budget),
                ),
                None => out && final(self)@ == old(self)@,
            },
    {
        if self.step >= self.budgets.max_steps {
            self.totals.finish = Finish::OutOfBudget(Budget::Steps);
            return false;
        }
        match self.budgets.deadline {
            Some(limit) => {
                if elapsed >= limit {
                    self.totals.finish = Finish::OutOfBudget(Budget::Deadline);
                    return false;
                }
            },
            None => {},
        }
        true
    }

    /// Account for a turn, record it, and say what happens next. `steering`
    /// says whether a message waits for the run.
    pub fn absorb(&mut self, session: &mut Session, turn: Completion, steering: bool) -> (out: Next)
        requires
            old(self)@.has_room(turn@),
            old(session).wf(),
            old(session)@.next_id + 2 <= u64::MAX,
        ensures
            final(session).wf(),
            after_turn(
                old(self)@,
                old(session)@,
                turn@,
                steering,
                out,
                final(self)@,
                final(session)@,
            ),
    {
        let ghost before = self@;
        let ghost start = session@;
        let ghost view = turn@;
        let ghost counted = before.counted(view);
        let tokens: u32 = match turn.stats {
            Some(stats) => stats.decode_tokens,
            None => 0,
        };
        self.totals.text = turn.text.clone();
        self.totals.dropped = self.totals.dropped + turn.dropped;
        self.totals.compacted = self.totals.compacted + turn.compacted;
        self.totals.tool_rounds = self.step;
        self.spent = self.spent + tokens;
        match turn.stats {
            Some(stats) => {
                self.totals.stats = Some(
                    ExecutionStats {
                        prompt_tokens: stats.prompt_tokens,
                        decode_tokens: self.spent,
                        first_token_us: stats.first_token_us,
                        reasoning_ms: stats.reasoning_ms,
                    },
                );
            },
            None => {},
        }
        assert(self@ =~= counted);
        match self.budgets.max_tokens {
            Some(limit) => {
                if self.spent >= limit {
                    self.totals.finish = Finish::OutOfBudget(Budget::Tokens);
                    return Next::Done;
                }
            },
            None => {},
        }
        assert(!before.overspent(view));
        if turn.tool_calls.len() == 0 {
            let _ = session.push(Message::assistant_structured(turn.text.as_str(), None));
            let stopped = match &turn.finish {
                Finish::Stopped => true,
                _ => false,
            };
            if stopped && steering {
                return Next::Again;
            }
            self.totals.finish = turn.finish.clone();
            match &self.answer_as {
                Some(instruction) => {
                    let _ = session.push_user(instruction.as_str());
                    return Next::Shape;
                },
                None => {
                    return Next::Done;
                },
            }
        }
        let _ = session.push(calls_message(&turn.tool_calls));
        assert(view.tool_calls.len() > 0);
        Next::Calls(Round::new(turn.tool_calls))
    }

    /// The answer in the shape that was asked for ends the run.
    pub fn shaped(&mut self, text: &str, finish: Finish)
        ensures
            final(self)@ == (RunView {
                totals: CompletionView { text: text@, finish: finish@, ..old(self)@.totals },
                ..old(self)@
            }),
    {
        self.totals.text = text.to_owned();
        self.totals.finish = finish;
    }

    /// Take note of a call. `true` where the model is going in circles; the
    /// run is then over.
    fn notice(&mut self, call: &StreamToolCall) -> (out: bool)
        ensures
            out == old(self)@.circles(call@),
            final(self)@.recent == old(self)@.with_call(call@),
            final(self)@ == (RunView {
                recent: final(self)@.recent,
                totals: if out {
                    CompletionView {
                        finish: FinishView::GaveUp { tool: call@.name, times: REPEAT_LIMIT },
                        ..old(self)@.totals
                    }
                } else {
                    old(self)@.totals
                },
                ..old(self)@
            }),
    {
        let ghost before = self@;
        let ghost latest = before.with_call(call@);
        self.recent.push((call.name.clone(), call.arguments.clone()));
        assert(pair_views(self.recent@) =~= before.recent.push((call@.name, call@.arguments)));
        if self.recent.len() > REPEAT_LIMIT {
            let _ = self.recent.remove(0);
        }
        assert(pair_views(self.recent@) =~= latest);
        if self.recent.len() != REPEAT_LIMIT {
            return false;
        }
        let mut i: usize = 0;
        while i < self.recent.len()
            invariant
                i <= self.recent.len(),
                latest == pair_views(self.recent@),
                latest.len() == REPEAT_LIMIT,
                before == old(self)@,
                latest == before.with_call(call@),
                self@ == (RunView { recent: latest, ..before }),
                forall|k: int|
                    0 <= k < i ==> #[trigger] latest[k] == (call@.name, call@.arguments),
            decreases self.recent.len() - i,
        {
            assert(latest[i as int] == (self.recent@[i as int].0@, self.recent@[i as int].1@));
            if !same_text(self.recent[i].0.as_str(), call.name.as_str()) || !same_text(
                self.recent[i].1.as_str(),
                call.arguments.as_str(),
            ) {
                return false;
            }
            i += 1;
        }
        self.totals.finish = Finish::GaveUp(
            Struggle::RepeatingCall { tool: call.name.clone(), times: REPEAT_LIMIT },
        );
        true
    }

    /// A round is over, its calls settled or its turn cut short; the next may
    /// be looked at.
    pub fn next_step(&mut self)
        requires
            old(self)@.step < usize::MAX,
        ensures
            final(self)@ == (RunView { step: old(self)@.step + 1, ..old(self)@ }),
    {
        self.step = self.step + 1;
    }

    /// What the run amounts to.
    pub fn into_completion(self) -> (out: Completion)
        ensures
            out@ == self@.totals,
    {
        self.totals
    }
}

// ── A round ─────────────────────────────────────────────────────────────────

/// What the loop knows of a tool that was called.
#[derive(Debug, Clone, Copy, PartialEq, Eq)]
pub struct ToolFacts {
    /// Whether it may run beside other calls.
    pub parallel_safe: bool,
    /// Whether it needs a human's say-so.
    pub risk: Risk,
}

/// What came of a call.
#[derive(Debug, PartialEq, Eq)]
pub enum CallOutcome {
    /// The tool's output, as the model reads it.
    Output(String),
    /// A failure.
    Failed {
        /// The failure in words.
        words: String,
        /// Whether the model can do something about it.
        actionable: bool,
    },
}

impl Clone for CallOutcome {
    fn clone(&self) -> (out: Self)
        ensures
            out@ == self@,
    {
        match self {
            CallOutcome::Output(text) => CallOutcome::Output(text.clone()),
            CallOutcome::Failed { words, actionable } => CallOutcome::Failed {
                words: words.clone(),
                actionable: *actionable,
            },
        }
    }
}

/// What came of a call, mathematically.
pub enum OutcomeView {
    Output(Seq<char>),
    Fixable(Seq<char>),
    Fatal(Seq<char>),
}

impl View for CallOutcome {
    type V = OutcomeView;

    open spec fn view(&self) -> OutcomeView {
        match self {
            CallOutcome::Output(text) => OutcomeView::Output(text@),
            CallOutcome::Failed { words, actionable } => if *actionable {
                OutcomeView::Fixable(words@)
            } else {
                OutcomeView::Fatal(words@)
            },
        }
    }
}

/// Whether a call runs by itself: search, which changes what can be called, a
/// name nothing answers to, and whatever is not safe beside others.
pub open spec fn alone(call: StreamCallView, facts: Option<ToolFacts>) -> bool {
    call.name == SEARCH_TOOL@ || match facts {
        Some(f) => !f.parallel_safe,
        None => true,
    }
}

/// A round, mathematically.
#[verifier::ext_equal]
pub struct RoundView {
    /// The calls of the turn.
    pub calls: Seq<StreamCallView>,
    /// The next to be scheduled.
    pub next: nat,
    /// Those that wait to run together.
    pub batch: Seq<usize>,
    /// What came of each, once it has.
    pub outcomes: Seq<Option<OutcomeView>>,
}

/// What to do with the next call.
#[derive(Debug, PartialEq, Eq)]
pub enum Plan {
    /// It waits for others it can run beside.
    Queued,
    /// Run those that wait together, then it, by itself.
    Alone {
        /// Those that wait.
        first: Vec<usize>,
        /// The call.
        call: usize,
    },
    /// Nothing more is scheduled: run those that wait, then settle.
    Last(Vec<usize>),
    /// The model is going in circles; the run is over.
    GaveUp,
}

/// What to do with the next call, mathematically.
pub enum PlanView {
    Queued,
    Alone { first: Seq<usize>, call: usize },
    Last(Seq<usize>),
    GaveUp,
}

impl View for Plan {
    type V = PlanView;

    open spec fn view(&self) -> PlanView {
        match self {
            Plan::Queued => PlanView::Queued,
            Plan::Alone { first, call } => PlanView::Alone { first: first@, call: *call },
            Plan::Last(batch) => PlanView::Last(batch@),
            Plan::GaveUp => PlanView::GaveUp,
        }
    }
}

impl RoundView {
    /// A round with nothing scheduled.
    pub open spec fn begun(calls: Seq<StreamCallView>) -> RoundView {
        RoundView {
            calls,
            next: 0,
            batch: Seq::empty(),
            outcomes: Seq::new(calls.len(), |i: int| None),
        }
    }

    /// What to do with the next call, given whether the task was interrupted
    /// and what is known of the tool it names. An interruption means the
    /// remaining calls were planned against a task that no longer stands.
    pub open spec fn planned(
        self,
        run: RunView,
        interrupt: bool,
        facts: Option<ToolFacts>,
    ) -> (RoundView, RunView, PlanView) {
        if self.next >= self.calls.len() || interrupt {
            (RoundView { batch: Seq::empty(), ..self }, run, PlanView::Last(self.batch))
        } else {
            let call = self.calls[self.next as int];
            let noted = RunView { recent: run.with_call(call), ..run };
            let gone_on = RoundView { next: self.next + 1, ..self };
            if run.circles(call) {
                (
                    gone_on,
                    noted.ended(FinishView::GaveUp { tool: call.name, times: REPEAT_LIMIT }),
                    PlanView::GaveUp,
                )
            } else if alone(call, facts) {
                (
                    RoundView { batch: Seq::empty(), ..gone_on },
                    noted,
                    PlanView::Alone { first: self.batch, call: self.next as usize },
                )
            } else {
                (
                    RoundView { batch: self.batch.push(self.next as usize), ..gone_on },
                    noted,
                    PlanView::Queued,
                )
            }
        }
    }
}

/// What the transcript says of a call's outcome, where it says anything.
pub open spec fn reply(call: StreamCallView, outcome: Option<OutcomeView>) -> Option<MessageView> {
    match outcome {
        Some(OutcomeView::Output(text)) => Some(answer(call, text)),
        Some(OutcomeView::Fixable(words)) => Some(answer(call, "error: "@ + words)),
        _ => None,
    }
}

/// The session after the outcomes of the first `n` calls, and the failure
/// that ended the run, if one did. What the model can fix goes back to it;
/// anything else ends the run.
pub open spec fn routed(
    session: SessionState,
    calls: Seq<StreamCallView>,
    outcomes: Seq<Option<OutcomeView>>,
    n: nat,
) -> (SessionState, Option<Seq<char>>)
    decreases n,
{
    if n == 0 {
        (session, None)
    } else {
        let (before, failure) = routed(session, calls, outcomes, (n - 1) as nat);
        let call = calls[n - 1];
        if failure is Some {
            (before, failure)
        } else {
            match outcomes[n - 1] {
                Some(OutcomeView::Fatal(words)) => (before, Some(call.name + ": "@ + words)),
                outcome => match reply(call, outcome) {
                    Some(message) => (before.pushed(message), None),
                    None => (before, None),
                },
            }
        }
    }
}

/// The calls of one turn, being run.
#[derive(Debug, PartialEq, Eq)]
pub struct Round {
    calls: Vec<StreamToolCall>,
    next: usize,
    batch: Vec<usize>,
    outcomes: Vec<Option<CallOutcome>>,
}

/// Outcomes, mathematically.
pub open spec fn outcome_views(outcomes: Seq<Option<CallOutcome>>) -> Seq<Option<OutcomeView>> {
    outcomes.map_values(|o: Option<CallOutcome>| view_of(o))
}

impl View for Round {
    type V = RoundView;

    closed spec fn view(&self) -> RoundView {
        RoundView {
            calls: views(self.calls@),
            next: self.next as nat,
            batch: self.batch@,
            outcomes: outcome_views(self.outcomes@),
        }
    }
}

impl Round {
    /// A slot for the outcome of each call.
    #[verifier::type_invariant]
    spec fn slotted(self) -> bool {
        &&& self.outcomes.len() == self.calls.len()
        &&& self.next <= self.calls.len()
    }

    /// The calls of a turn, none scheduled yet.
    pub fn new(calls: Vec<StreamToolCall>) -> (out: Self)
        ensures
            out@ == RoundView::begun(views(calls@)),
    {
        let mut outcomes: Vec<Option<CallOutcome>> = Vec::new();
        while outcomes.len() < calls.len()
            invariant
                outcomes.len() <= calls.len(),
                forall|k: int| 0 <= k < outcomes.len() ==> (#[trigger] outcomes@[k]) is None,
            decreases calls.len() - outcomes.len(),
        {
            outcomes.push(None);
        }
        let out = Round { calls, next: 0, batch: Vec::new(), outcomes };
        assert(out@.outcomes =~= RoundView::begun(views(calls@)).outcomes);
        assert(out@ =~= RoundView::begun(views(calls@)));
        out
    }

    /// The call that is scheduled next, where one is left.
    pub fn upcoming(&self) -> (out: Option<&StreamToolCall>)
        ensures
            match out {
                Some(call) => self@.next < self@.calls.len() && call@
                    == self@.calls[self@.next as int],
                None => self@.next >= self@.calls.len(),
            },
    {
        if self.next < self.calls.len() {
            Some(&self.calls[self.next])
        } else {
            None
        }
    }

    /// How many calls there are.
    pub fn len(&self) -> (out: usize)
        ensures
            out == self@.calls.len(),
    {
        self.calls.len()
    }

    /// One of the calls.
    pub fn call(&self, i: usize) -> (out: &StreamToolCall)
        requires
            i < self@.calls.len(),
        ensures
            out@ == self@.calls[i as int],
    {
        &self.calls[i]
    }

    /// Decide what to do with the next call.
    pub fn plan(
        self,
        run: &mut Run,
        interrupt: bool,
        facts: Option<ToolFacts>,
    ) -> (out: (Round, Plan))
        ensures
            (out.0@, final(run)@, out.1@) == self@.planned(old(run)@, interrupt, facts),
            self@.next <= self@.calls.len() <= usize::MAX,
    {
        proof {
            use_type_invariant(&self);
        }
        let ghost before = self@;
        assert(before.calls.len() == self.calls.len());
        let Round { calls, next, batch, outcomes } = self;
        if next >= calls.len() || interrupt {
            let round = Round { calls, next, batch: Vec::new(), outcomes };
            assert(round@ =~= RoundView { batch: Seq::empty(), ..before });
            return (round, Plan::Last(batch));
        }
        assert(before.calls[next as int] == calls@[next as int]@);
        let circles = run.notice(&calls[next]);
        if circles {
            let round = Round { calls, next: next + 1, batch, outcomes };
            return (round, Plan::GaveUp);
        }
        let solo = same_text(calls[next].name.as_str(), SEARCH_TOOL) || match facts {
            Some(f) => !f.parallel_safe,
            None => true,
        };
        if solo {
            let round = Round { calls, next: next + 1, batch: Vec::new(), outcomes };
            assert(round@.batch =~= Seq::empty());
            (round, Plan::Alone { first: batch, call: next })
        } else {
            let mut batch = batch;
            batch.push(next);
            (Round { calls, next: next + 1, batch, outcomes }, Plan::Queued)
        }
    }

    /// What came of a call.
    pub fn record(self, i: usize, outcome: CallOutcome) -> (out: Self)
        requires
            i < self@.calls.len(),
        ensures
            out@ == (RoundView {
                outcomes: self@.outcomes.update(i as int, Some(outcome@)),
                ..self@
            }),
    {
        proof {
            use_type_invariant(&self);
        }
        let ghost before = self@;
        let Round { calls, next, batch, outcomes } = self;
        let mut outcomes = outcomes;
        outcomes.set(i, Some(outcome));
        let out = Round { calls, next, batch, outcomes };
        assert(out@.outcomes =~= before.outcomes.update(i as int, Some(outcome@)));
        out
    }

    /// Write what came of the calls to the session, in the order they were
    /// asked for, whatever order they completed in.
    pub fn settle(self, session: &mut Session) -> (out: Result<(), Error>)
        requires
            old(session).wf(),
            old(session)@.next_id + self@.calls.len() <= u64::MAX,
        ensures
            final(session).wf(),
            ({
                let (after, failure) = routed(
                    old(session)@,
                    self@.calls,
                    self@.outcomes,
                    self@.calls.len(),
                );
                &&& final(session)@ == after
                &&& match failure {
                    None => out is Ok,
                    Some(words) => out matches Err(Error::Generation { code, message }) && code@
                        == "tool_failed"@ && message@ == words,
                }
            }),
    {
        proof {
            use_type_invariant(&self);
        }
        let ghost before = session@;
        let ghost calls = self@.calls;
        let ghost outcomes = self@.outcomes;
        let mut i: usize = 0;
        while i < self.calls.len()
            invariant
                i <= self.calls.len(),
                self.outcomes.len() == self.calls.len(),
                calls == self@.calls,
                outcomes == self@.outcomes,
                calls.len() == self.calls.len(),
                session.wf(),
                before == old(session)@,
                routed(before, calls, outcomes, i as nat) == (session@, None::<Seq<char>>),
                session@.next_id <= before.next_id + i,
                before.next_id + calls.len() <= u64::MAX,
            decreases self.calls.len() - i,
        {
            let ghost so_far = session@;
            assert(calls[i as int] == self.calls@[i as int]@);
            assert(outcomes[i as int] == view_of(self.outcomes@[i as int]));
            match &self.outcomes[i] {
                None => {},
                Some(CallOutcome::Output(text)) => {
                    let _ = session.push(result_message(&self.calls[i], text.as_str()));
                },
                Some(CallOutcome::Failed { words, actionable }) => {
                    if *actionable {
                        let told = "error: ".to_owned().concat(words.as_str());
                        let _ = session.push(result_message(&self.calls[i], told.as_str()));
                    } else {
                        let message = self.calls[i].name.clone().concat(": ").concat(
                            words.as_str(),
                        );
                        proof {
                            failed_for_good(before, calls, outcomes, i as nat, calls.len());
                        }
                        return Err(Error::Generation { code: "tool_failed".to_owned(), message });
                    }
                },
            }
            i += 1;
        }
        Ok(())
    }
}

/// Once a failure ended the run, nothing after it counts.
proof fn failed_for_good(
    session: SessionState,
    calls: Seq<StreamCallView>,
    outcomes: Seq<Option<OutcomeView>>,
    i: nat,
    n: nat,
)
    requires
        i < n,
        routed(session, calls, outcomes, i + 1).1 is Some,
    ensures
        routed(session, calls, outcomes, n) == routed(session, calls, outcomes, i + 1),
    decreases n,
{
    if n > i + 1 {
        failed_for_good(session, calls, outcomes, i, (n - 1) as nat);
    }
}

// ── Approval ────────────────────────────────────────────────────────────────

/// Whether a call has to be put to the approval callback: only a risky tool's,
/// only in the mode that asks, and only where there is a callback.
pub fn asks(mode: ApprovalMode, facts: Option<ToolFacts>, callback: bool) -> (out: bool)
    ensures
        out == (mode == ApprovalMode::AskOnRisky && (facts matches Some(f) && f.risk == Risk::Risky)
            && callback),
{
    mode == ApprovalMode::AskOnRisky && match facts {
        Some(f) => f.risk == Risk::Risky,
        None => false,
    } && callback
}

/// What keeps a call from running, given what is known of the tool and what
/// the callback said, if it was asked. A name nothing answers to is the
/// model's to fix; a denial is not.
pub fn refused(name: &str, facts: Option<ToolFacts>, decision: Option<Decision>) -> (out: Option<
    CallOutcome,
>)
    ensures
        view_of(out) == (match (facts, decision) {
            (None, _) => Some(OutcomeView::Fixable("no tool named '"@ + name@ + "'"@)),
            (Some(_), Some(Decision::Deny(why))) => Some(OutcomeView::Fatal(why@)),
            _ => None,
        }),
{
    match facts {
        None => Some(
            CallOutcome::Failed {
                words: "no tool named '".to_owned().concat(name).concat("'"),
                actionable: true,
            },
        ),
        Some(_) => match decision {
            Some(Decision::Deny(why)) => Some(
                CallOutcome::Failed { words: why, actionable: false },
            ),
            _ => None,
        },
    }
}

/// Those of a batch that nothing keeps from running, in order.
pub open spec fn cleared(batch: Seq<usize>, refusals: Seq<Option<OutcomeView>>) -> Seq<usize>
    decreases batch.len(),
{
    if batch.len() == 0 {
        Seq::empty()
    } else {
        let before = cleared(batch.drop_last(), refusals.drop_last());
        if refusals.last() is None {
            before.push(batch.last())
        } else {
            before
        }
    }
}

/// A round with the refusals of a batch recorded.
pub open spec fn with_refusals(
    round: RoundView,
    batch: Seq<usize>,
    refusals: Seq<Option<OutcomeView>>,
) -> RoundView
    decreases batch.len(),
{
    if batch.len() == 0 {
        round
    } else {
        let before = with_refusals(round, batch.drop_last(), refusals.drop_last());
        match refusals.last() {
            Some(outcome) => RoundView {
                outcomes: before.outcomes.update(batch.last() as int, Some(outcome)),
                ..before
            },
            None => before,
        }
    }
}

/// Sort a batch into what is refused, which is recorded, and what runs.
/// Approval is settled before anything is dispatched.
pub fn sift(
    round: Round,
    batch: &Vec<usize>,
    refusals: Vec<Option<CallOutcome>>,
) -> (out: (Round, Vec<usize>))
    requires
        refusals.len() == batch.len(),
        forall|k: int| 0 <= k < batch.len() ==> (#[trigger] batch@[k]) < round@.calls.len(),
    ensures
        out.0@ == with_refusals(round@, batch@, outcome_views(refusals@)),
        out.1@ == cleared(batch@, outcome_views(refusals@)),
{
    let ghost first = round@;
    let ghost all = outcome_views(refusals@);
    let mut round = round;
    let mut approved: Vec<usize> = Vec::new();
    let mut i: usize = 0;
    assert(batch@.take(0) =~= Seq::empty());
    while i < batch.len()
        invariant
            i <= batch.len(),
            refusals.len() == batch.len(),
            all == outcome_views(refusals@),
            forall|k: int| 0 <= k < batch.len() ==> (#[trigger] batch@[k]) < first.calls.len(),
            round@.calls == first.calls,
            round@ == with_refusals(first, batch@.take(i as int), all.take(i as int)),
            approved@ == cleared(batch@.take(i as int), all.take(i as int)),
        decreases batch.len() - i,
    {
        assert(batch@.take(i + 1).drop_last() =~= batch@.take(i as int));
        assert(all.take(i + 1).drop_last() =~= all.take(i as int));
        assert(all.take(i + 1).last() == view_of(refusals@[i as int]));
        assert(batch@.take(i + 1).last() == batch@[i as int]);
        match &refusals[i] {
            Some(CallOutcome::Output(text)) => {
                round = round.record(batch[i], CallOutcome::Output(text.clone()));
            },
            Some(CallOutcome::Failed { words, actionable }) => {
                round =
                round.record(
                    batch[i],
                    CallOutcome::Failed { words: words.clone(), actionable: *actionable },
                );
            },
            None => {
                approved.push(batch[i]);
            },
        }
        i += 1;
    }
    assert(batch@.take(batch.len() as int) =~= batch@);
    assert(all.take(batch.len() as int) =~= all);
    (round, approved)
}

} // verus!
