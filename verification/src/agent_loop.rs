//! An agent's run from its first round to its end.
//!
//! The run asks for one [`Action`] at a time: the time, the steering that
//! waits, a turn of the model, what is known of a tool, an approval, the
//! running of calls. Whoever performs it says what [`Happened`], and the run
//! goes on from there, writing to the session as it goes.
use vstd::prelude::*;
use vstd::string::*;
use crate::agent::{Budgets, Steer, SteerView};
use crate::agent_run::{
    asked_message, cleared, deliver, outcome_views, routed, sift, steered,
    with_refusals, CallOutcome, Next, OutcomeView, Plan, PlanView, Round, RoundView, Run, RunView,
    ToolFacts,
};
use crate::error::Error;
use crate::message::MessageView;
use crate::seqs::{group_views, view_of, views};
use crate::session::Session;
use crate::session_model::SessionState;
use crate::stream::{
    Budget, Completion, CompletionView, Finish, FinishView, StreamToolCall,
};

verus! {

broadcast use group_views;

// ── What is asked, and what happened ────────────────────────────────────────

/// What a run asks for.
#[derive(Debug, PartialEq, Eq)]
pub enum Action {
    /// How long it has taken so far.
    Time,
    /// What was said to it meanwhile.
    Listen,
    /// A turn of the model, with the tools there are.
    Turn,
    /// The answer in the shape that was asked for, the reply recorded.
    Shape,
    /// Whether the task was interrupted, and what is known of the tool that
    /// the upcoming call names.
    Look,
    /// Whether anything keeps these calls from running.
    Approve(Vec<usize>),
    /// These calls, run together.
    Together(Vec<usize>),
    /// This call, run with nothing beside it.
    Alone(usize),
    /// Nothing: the run is over.
    Stop,
}

/// What a run asks for, mathematically.
pub enum ActionView {
    Time,
    Listen,
    Turn,
    Shape,
    Look,
    Approve(Seq<usize>),
    Together(Seq<usize>),
    Alone(usize),
    Stop,
}

impl View for Action {
    type V = ActionView;

    open spec fn view(&self) -> ActionView {
        match self {
            Action::Time => ActionView::Time,
            Action::Listen => ActionView::Listen,
            Action::Turn => ActionView::Turn,
            Action::Shape => ActionView::Shape,
            Action::Look => ActionView::Look,
            Action::Approve(batch) => ActionView::Approve(batch@),
            Action::Together(batch) => ActionView::Together(batch@),
            Action::Alone(call) => ActionView::Alone(*call),
            Action::Stop => ActionView::Stop,
        }
    }
}

/// What happened.
#[derive(Debug, PartialEq, Eq)]
pub enum Happened {
    /// This much time has gone by since the run began.
    Passed(u128),
    /// This was said meanwhile, in this order.
    Heard(Vec<Steer>),
    /// The model took a turn.
    Turned {
        /// What it amounts to.
        turn: Completion,
        /// Whether steering waits.
        steering: bool,
    },
    /// The model answered in shape.
    Shaped {
        /// The answer.
        text: String,
        /// Why it ended.
        finish: Finish,
    },
    /// The upcoming call was looked at.
    Looked {
        /// Whether an interruption waits.
        interrupt: bool,
        /// What is known of the tool.
        facts: Option<ToolFacts>,
    },
    /// What keeps each call from running, where anything does.
    Answered(Vec<Option<CallOutcome>>),
    /// What came of each call.
    Ran(Vec<CallOutcome>),
}

/// What happened, mathematically.
pub enum HappenedView {
    Passed(u128),
    Heard(Seq<SteerView>),
    Turned { turn: CompletionView, steering: bool },
    Shaped { text: Seq<char>, finish: FinishView },
    Looked { interrupt: bool, facts: Option<ToolFacts> },
    Answered(Seq<Option<OutcomeView>>),
    Ran(Seq<OutcomeView>),
}

impl View for Happened {
    type V = HappenedView;

    open spec fn view(&self) -> HappenedView {
        match self {
            Happened::Passed(elapsed) => HappenedView::Passed(*elapsed),
            Happened::Heard(steers) => HappenedView::Heard(views(steers@)),
            Happened::Turned { turn, steering } => HappenedView::Turned {
                turn: turn@,
                steering: *steering,
            },
            Happened::Shaped { text, finish } => HappenedView::Shaped {
                text: text@,
                finish: finish@,
            },
            Happened::Looked { interrupt, facts } => HappenedView::Looked {
                interrupt: *interrupt,
                facts: *facts,
            },
            Happened::Answered(refusals) => HappenedView::Answered(outcome_views(refusals@)),
            Happened::Ran(outcomes) => HappenedView::Ran(views(outcomes@)),
        }
    }
}

// ── The run, mathematically ─────────────────────────────────────────────────

/// Where a run stands.
pub enum PhaseView {
    /// Before a round.
    Timing,
    /// The round begins.
    Listening,
    /// The model is to take its turn.
    Turning,
    /// The model is to answer in shape.
    Shaping,
    /// A call is to be looked at.
    Looking(RoundView),
    /// Calls wait for approval, with the call that follows them by itself, or
    /// the end of the round.
    Approving { round: RoundView, batch: Seq<usize>, and_then: Option<usize> },
    /// Calls are to run together.
    Running { round: RoundView, batch: Seq<usize>, and_then: Option<usize> },
    /// A call is to run by itself.
    Single { round: RoundView, call: usize },
    /// Over, with the failure that ended it, if one did.
    Over(Option<Seq<char>>),
}

/// A run and where it stands.
pub struct LoopView {
    pub run: RunView,
    pub phase: PhaseView,
}

/// A round with what came of some of its calls.
pub open spec fn with_outcomes(
    round: RoundView,
    batch: Seq<usize>,
    outcomes: Seq<OutcomeView>,
) -> RoundView
    decreases batch.len(),
{
    if batch.len() == 0 {
        round
    } else {
        let before = with_outcomes(round, batch.drop_last(), outcomes.drop_last());
        RoundView {
            outcomes: before.outcomes.update(batch.last() as int, Some(outcomes.last())),
            ..before
        }
    }
}

/// Whether some numbers are those of calls.
pub open spec fn within(batch: Seq<usize>, calls: nat) -> bool {
    forall|k: int| 0 <= k < batch.len() ==> (#[trigger] batch[k]) < calls
}

/// A run at the end of a round: its results are in the session, and the next
/// round follows, unless one of them ended the run.
pub open spec fn settled(run: RunView, round: RoundView, session: SessionState) -> (
    LoopView,
    SessionState,
) {
    let (after, failure) = routed(session, round.calls, round.outcomes, round.calls.len());
    match failure {
        Some(words) => (LoopView { run, phase: PhaseView::Over(Some(words)) }, after),
        None => (
            LoopView { run: RunView { step: run.step + 1, ..run }, phase: PhaseView::Timing },
            after,
        ),
    }
}

/// A run once nothing waits to run together.
pub open spec fn onward(
    run: RunView,
    round: RoundView,
    and_then: Option<usize>,
    session: SessionState,
) -> (LoopView, SessionState) {
    match and_then {
        Some(call) => (LoopView { run, phase: PhaseView::Single { round, call } }, session),
        None => settled(run, round, session),
    }
}

/// A run with calls that are to run together.
pub open spec fn batched(
    run: RunView,
    round: RoundView,
    batch: Seq<usize>,
    and_then: Option<usize>,
    session: SessionState,
) -> (LoopView, SessionState) {
    if batch.len() == 0 {
        onward(run, round, and_then, session)
    } else {
        (LoopView { run, phase: PhaseView::Approving { round, batch, and_then } }, session)
    }
}

impl PhaseView {
    /// The round that is being run, if one is.
    pub open spec fn round(self) -> Option<RoundView> {
        match self {
            PhaseView::Looking(round) => Some(round),
            PhaseView::Approving { round, .. } => Some(round),
            PhaseView::Running { round, .. } => Some(round),
            PhaseView::Single { round, .. } => Some(round),
            _ => None,
        }
    }
}

impl LoopView {
    /// A run at its beginning.
    pub open spec fn begun(budgets: Budgets, answer_as: Option<Seq<char>>) -> LoopView {
        LoopView { run: RunView::begun(budgets, answer_as), phase: PhaseView::Timing }
    }

    /// The standing invariant: only a round the budget allows is begun, and
    /// what is named of a round are its calls.
    pub open spec fn valid(self) -> bool {
        &&& match self.phase {
            PhaseView::Timing => self.run.step <= self.run.budgets.max_steps,
            PhaseView::Over(_) => true,
            _ => self.run.step < self.run.budgets.max_steps,
        }
        &&& self.phase.round() matches Some(round) ==> round.next <= round.calls.len() && within(
            round.batch,
            round.calls.len(),
        )
        &&& match self.phase {
            PhaseView::Approving { round, batch, and_then } => within(batch, round.calls.len())
                && (and_then matches Some(call) ==> call < round.calls.len()),
            PhaseView::Running { round, batch, and_then } => within(batch, round.calls.len())
                && (and_then matches Some(call) ==> call < round.calls.len()),
            PhaseView::Single { round, call } => call < round.calls.len(),
            _ => true,
        }
    }

    /// What the run asks for.
    pub open spec fn action(self) -> ActionView {
        match self.phase {
            PhaseView::Timing => ActionView::Time,
            PhaseView::Listening => ActionView::Listen,
            PhaseView::Turning => ActionView::Turn,
            PhaseView::Shaping => ActionView::Shape,
            PhaseView::Looking(_) => ActionView::Look,
            PhaseView::Approving { batch, .. } => ActionView::Approve(batch),
            PhaseView::Running { batch, .. } => ActionView::Together(batch),
            PhaseView::Single { call, .. } => ActionView::Alone(call),
            PhaseView::Over(_) => ActionView::Stop,
        }
    }

    /// The run after a turn. Text ends it, unless the turn was cut short in
    /// order to say something; calls are run.
    pub open spec fn turned(self, turn: CompletionView, steering: bool, session: SessionState) -> (
        LoopView,
        SessionState,
    ) {
        let counted = self.run.counted(turn);
        let answered = session.pushed(MessageView::assistant(turn.text, None));
        if self.run.overspent(turn) {
            (
                LoopView {
                    run: counted.ended(FinishView::OutOfBudget(Budget::Tokens)),
                    phase: PhaseView::Over(None),
                },
                session,
            )
        } else if turn.tool_calls.len() > 0 {
            (
                LoopView {
                    run: counted,
                    phase: PhaseView::Looking(RoundView::begun(turn.tool_calls)),
                },
                session.pushed(asked_message(turn.tool_calls)),
            )
        } else if turn.finish == FinishView::Stopped && steering {
            (
                LoopView {
                    run: RunView { step: counted.step + 1, ..counted },
                    phase: PhaseView::Timing,
                },
                answered,
            )
        } else {
            let ended = counted.ended(turn.finish);
            match self.run.answer_as {
                Some(instruction) => (
                    LoopView { run: ended, phase: PhaseView::Shaping },
                    answered.pushed(MessageView::user(instruction)),
                ),
                None => (LoopView { run: ended, phase: PhaseView::Over(None) }, answered),
            }
        }
    }

    /// The run after something happened, and the session. What a run does not
    /// wait for changes nothing.
    pub open spec fn after(self, event: HappenedView, session: SessionState) -> (
        LoopView,
        SessionState,
    ) {
        match (self.phase, event) {
            (PhaseView::Timing, HappenedView::Passed(elapsed)) => match self.run.out_of(elapsed) {
                Some(budget) => (
                    LoopView {
                        run: self.run.ended(FinishView::OutOfBudget(budget)),
                        phase: PhaseView::Over(None),
                    },
                    session,
                ),
                None => (LoopView { phase: PhaseView::Listening, ..self }, session),
            },
            (PhaseView::Listening, HappenedView::Heard(steers)) => (
                LoopView { phase: PhaseView::Turning, ..self },
                session.pushed_all(steered(steers)),
            ),
            (PhaseView::Turning, HappenedView::Turned { turn, steering }) => self.turned(
                turn,
                steering,
                session,
            ),
            (PhaseView::Shaping, HappenedView::Shaped { text, finish }) => (
                LoopView {
                    run: RunView {
                        totals: CompletionView { text, finish, ..self.run.totals },
                        ..self.run
                    },
                    phase: PhaseView::Over(None),
                },
                session,
            ),
            (PhaseView::Looking(round), HappenedView::Looked { interrupt, facts }) => {
                let (round, run, plan) = round.planned(self.run, interrupt, facts);
                match plan {
                    PlanView::Queued => (
                        LoopView { run, phase: PhaseView::Looking(round) },
                        session,
                    ),
                    PlanView::Alone { first, call } => batched(
                        run,
                        round,
                        first,
                        Some(call),
                        session,
                    ),
                    PlanView::Last(batch) => batched(run, round, batch, None, session),
                    PlanView::GaveUp => (LoopView { run, phase: PhaseView::Over(None) }, session),
                }
            },
            (
                PhaseView::Approving { round, batch, and_then },
                HappenedView::Answered(refusals),
            ) => if refusals.len() == batch.len() {
                let sifted = with_refusals(round, batch, refusals);
                let approved = cleared(batch, refusals);
                if approved.len() == 0 {
                    onward(self.run, sifted, and_then, session)
                } else {
                    (
                        LoopView {
                            phase: PhaseView::Running { round: sifted, batch: approved, and_then },
                            ..self
                        },
                        session,
                    )
                }
            } else {
                (self, session)
            },
            (
                PhaseView::Running { round, batch, and_then },
                HappenedView::Ran(outcomes),
            ) => if outcomes.len() == batch.len() {
                onward(self.run, with_outcomes(round, batch, outcomes), and_then, session)
            } else {
                (self, session)
            },
            (PhaseView::Single { round, call }, HappenedView::Ran(outcomes)) => if outcomes.len()
                == 1 {
                (
                    LoopView {
                        phase: PhaseView::Looking(with_outcomes(round, seq![call], outcomes)),
                        ..self
                    },
                    session,
                )
            } else {
                (self, session)
            },
            _ => (self, session),
        }
    }

    /// Whether the counters, and the session's numbers, have room for what
    /// happened.
    pub open spec fn room(self, event: HappenedView, session: SessionState) -> bool {
        &&& event matches HappenedView::Heard(steers) ==> session.next_id + steers.len()
            <= u64::MAX
        &&& event matches HappenedView::Turned { turn, .. } ==> self.run.has_room(turn)
            && session.next_id + 2 <= u64::MAX
        &&& self.phase.round() matches Some(round) ==> session.next_id + round.calls.len()
            <= u64::MAX
    }
}

// ── The run ─────────────────────────────────────────────────────────────────

/// Where a run stands.
#[derive(Debug, PartialEq, Eq)]
enum Phase {
    Timing,
    Listening,
    Turning,
    Shaping,
    Looking(Round),
    Approving { round: Round, batch: Vec<usize>, and_then: Option<usize> },
    Running { round: Round, batch: Vec<usize>, and_then: Option<usize> },
    Single { round: Round, call: usize },
    Over(Option<String>),
}

impl View for Phase {
    type V = PhaseView;

    closed spec fn view(&self) -> PhaseView {
        match self {
            Phase::Timing => PhaseView::Timing,
            Phase::Listening => PhaseView::Listening,
            Phase::Turning => PhaseView::Turning,
            Phase::Shaping => PhaseView::Shaping,
            Phase::Looking(round) => PhaseView::Looking(round@),
            Phase::Approving { round, batch, and_then } => PhaseView::Approving {
                round: round@,
                batch: batch@,
                and_then: *and_then,
            },
            Phase::Running { round, batch, and_then } => PhaseView::Running {
                round: round@,
                batch: batch@,
                and_then: *and_then,
            },
            Phase::Single { round, call } => PhaseView::Single { round: round@, call: *call },
            Phase::Over(failure) => PhaseView::Over(view_of(*failure)),
        }
    }
}

/// An agent's run.
#[derive(Debug, PartialEq, Eq)]
pub struct AgentLoop {
    run: Run,
    phase: Phase,
}

impl View for AgentLoop {
    type V = LoopView;

    closed spec fn view(&self) -> LoopView {
        LoopView { run: self.run@, phase: self.phase@ }
    }
}

fn copy_batch(batch: &Vec<usize>) -> (out: Vec<usize>)
    ensures
        out@ == batch@,
{
    let out = batch.clone();
    assert(out@ =~= batch@);
    out
}

/// Recording outcomes leaves the calls, and what waits, as they were.
proof fn outcomes_keep(round: RoundView, batch: Seq<usize>, outcomes: Seq<OutcomeView>)
    ensures
        with_outcomes(round, batch, outcomes).calls == round.calls,
        with_outcomes(round, batch, outcomes).batch == round.batch,
        with_outcomes(round, batch, outcomes).next == round.next,
    decreases batch.len(),
{
    if batch.len() > 0 {
        outcomes_keep(round, batch.drop_last(), outcomes.drop_last());
    }
}

/// So does recording refusals.
proof fn refusals_keep(round: RoundView, batch: Seq<usize>, refusals: Seq<Option<OutcomeView>>)
    ensures
        with_refusals(round, batch, refusals).calls == round.calls,
        with_refusals(round, batch, refusals).batch == round.batch,
        with_refusals(round, batch, refusals).next == round.next,
    decreases batch.len(),
{
    if batch.len() > 0 {
        refusals_keep(round, batch.drop_last(), refusals.drop_last());
    }
}

/// What is cleared to run is of the batch.
proof fn cleared_within(batch: Seq<usize>, refusals: Seq<Option<OutcomeView>>, calls: nat)
    requires
        within(batch, calls),
    ensures
        within(cleared(batch, refusals), calls),
    decreases batch.len(),
{
    if batch.len() > 0 {
        assert forall|k: int| 0 <= k < batch.drop_last().len() implies (
        #[trigger] batch.drop_last()[k]) < calls by {
            assert(batch[k] < calls);
        }
        assert(batch[batch.len() - 1] < calls);
        cleared_within(batch.drop_last(), refusals.drop_last(), calls);
    }
}

/// Record what came of calls that ran.
fn record_all(round: Round, batch: &Vec<usize>, outcomes: &Vec<CallOutcome>) -> (out: Round)
    requires
        batch.len() == outcomes.len(),
        within(batch@, round@.calls.len()),
    ensures
        out@ == with_outcomes(round@, batch@, views(outcomes@)),
{
    let ghost first = round@;
    let ghost all = views(outcomes@);
    let mut round = round;
    let mut i: usize = 0;
    assert(batch@.take(0) =~= Seq::empty());
    while i < batch.len()
        invariant
            i <= batch.len(),
            batch.len() == outcomes.len(),
            all == views(outcomes@),
            within(batch@, first.calls.len()),
            round@.calls == first.calls,
            round@ == with_outcomes(first, batch@.take(i as int), all.take(i as int)),
        decreases batch.len() - i,
    {
        assert(batch@.take(i + 1).drop_last() =~= batch@.take(i as int));
        assert(all.take(i + 1).drop_last() =~= all.take(i as int));
        assert(all.take(i + 1).last() == outcomes@[i as int]@);
        assert(batch@.take(i + 1).last() == batch@[i as int]);
        round = round.record(batch[i], outcomes[i].clone());
        i += 1;
    }
    assert(batch@.take(batch.len() as int) =~= batch@);
    assert(all.take(batch.len() as int) =~= all);
    round
}

impl AgentLoop {
    /// Whether the run is one that can be.
    pub open spec fn wf(&self) -> bool {
        self@.valid()
    }

    /// A run at its beginning.
    pub fn new(budgets: Budgets, answer_as: Option<String>) -> (out: Self)
        ensures
            out.wf(),
            out@ == LoopView::begun(budgets, view_of(answer_as)),
    {
        AgentLoop { run: Run::new(budgets, answer_as), phase: Phase::Timing }
    }

    /// What the run asks for.
    pub fn action(&self) -> (out: Action)
        ensures
            out@ == self@.action(),
    {
        match &self.phase {
            Phase::Timing => Action::Time,
            Phase::Listening => Action::Listen,
            Phase::Turning => Action::Turn,
            Phase::Shaping => Action::Shape,
            Phase::Looking(_) => Action::Look,
            Phase::Approving { batch, .. } => Action::Approve(copy_batch(batch)),
            Phase::Running { batch, .. } => Action::Together(copy_batch(batch)),
            Phase::Single { call, .. } => Action::Alone(*call),
            Phase::Over(_) => Action::Stop,
        }
    }

    /// How many rounds have gone by.
    pub fn step(&self) -> (out: usize)
        ensures
            out == self@.run.step,
    {
        self.run.step()
    }

    fn round(&self) -> (out: Option<&Round>)
        ensures
            match out {
                Some(round) => self@.phase.round() == Some(round@),
                None => self@.phase.round() is None,
            },
    {
        match &self.phase {
            Phase::Looking(round) => Some(round),
            Phase::Approving { round, .. } => Some(round),
            Phase::Running { round, .. } => Some(round),
            Phase::Single { round, .. } => Some(round),
            _ => None,
        }
    }

    /// The call that is to be looked at, where there is one.
    pub fn upcoming(&self) -> (out: Option<&StreamToolCall>)
        ensures
            match out {
                Some(call) => self@.phase.round() matches Some(round) && round.next
                    < round.calls.len() && call@ == round.calls[round.next as int],
                None => self@.phase.round() matches Some(round) ==> round.next >= round.calls.len(),
            },
    {
        match self.round() {
            Some(round) => round.upcoming(),
            None => None,
        }
    }

    /// One of the calls of the round that is being run.
    pub fn call(&self, i: usize) -> (out: Option<&StreamToolCall>)
        ensures
            match out {
                Some(call) => self@.phase.round() matches Some(round) && i < round.calls.len()
                    && call@ == round.calls[i as int],
                None => self@.phase.round() matches Some(round) ==> i >= round.calls.len(),
            },
    {
        match self.round() {
            Some(round) => if i < round.len() {
                Some(round.call(i))
            } else {
                None
            },
            None => None,
        }
    }
}

impl AgentLoop {
    /// Whether the counters, and the session's numbers, have room for what
    /// happened.
    pub fn has_room(&self, session: &Session, event: &Happened) -> (out: bool)
        ensures
            out == self@.room(event@, session@),
    {
        let left: u64 = u64::MAX - session.next_number();
        let heard = match event {
            Happened::Heard(steers) => {
                assert(views(steers@).len() == steers.len());
                steers.len() as u64 <= left
            },
            Happened::Turned { turn, .. } => self.run.has_room_for(turn) && 2 <= left,
            _ => true,
        };
        let settles = match self.round() {
            Some(round) => round.len() as u64 <= left,
            None => true,
        };
        heard && settles
    }

    /// The end of a round.
    fn settle(run: Run, round: Round, session: &mut Session) -> (out: Self)
        requires
            run@.step < run@.budgets.max_steps,
            old(session).wf(),
            old(session)@.next_id + round@.calls.len() <= u64::MAX,
        ensures
            out.wf(),
            final(session).wf(),
            (out@, final(session)@) == settled(run@, round@, old(session)@),
    {
        let mut run = run;
        match round.settle(session) {
            Ok(()) => {
                run.next_step();
                AgentLoop { run, phase: Phase::Timing }
            },
            Err(Error::Generation { message, .. }) => AgentLoop {
                run,
                phase: Phase::Over(Some(message)),
            },
            Err(_) => AgentLoop { run, phase: Phase::Over(None) },
        }
    }

    /// What follows once nothing waits to run together.
    fn go_on(run: Run, round: Round, and_then: Option<usize>, session: &mut Session) -> (out: Self)
        requires
            run@.step < run@.budgets.max_steps,
            round@.next <= round@.calls.len(),
            within(round@.batch, round@.calls.len()),
            and_then matches Some(call) ==> call < round@.calls.len(),
            old(session).wf(),
            old(session)@.next_id + round@.calls.len() <= u64::MAX,
        ensures
            out.wf(),
            final(session).wf(),
            (out@, final(session)@) == onward(run@, round@, and_then, old(session)@),
    {
        match and_then {
            Some(call) => AgentLoop { run, phase: Phase::Single { round, call } },
            None => AgentLoop::settle(run, round, session),
        }
    }

    /// What follows, given calls that are to run together.
    fn go_on_with(
        run: Run,
        round: Round,
        batch: Vec<usize>,
        and_then: Option<usize>,
        session: &mut Session,
    ) -> (out: Self)
        requires
            run@.step < run@.budgets.max_steps,
            within(batch@, round@.calls.len()),
            round@.next <= round@.calls.len(),
            within(round@.batch, round@.calls.len()),
            and_then matches Some(call) ==> call < round@.calls.len(),
            old(session).wf(),
            old(session)@.next_id + round@.calls.len() <= u64::MAX,
        ensures
            out.wf(),
            final(session).wf(),
            (out@, final(session)@) == batched(run@, round@, batch@, and_then, old(session)@),
    {
        if batch.len() == 0 {
            AgentLoop::go_on(run, round, and_then, session)
        } else {
            AgentLoop { run, phase: Phase::Approving { round, batch, and_then } }
        }
    }

    /// The model took a turn.
    fn turned(run: Run, session: &mut Session, turn: Completion, steering: bool) -> (out: Self)
        requires
            run@.step < run@.budgets.max_steps,
            run@.has_room(turn@),
            old(session).wf(),
            old(session)@.next_id + 2 <= u64::MAX,
        ensures
            out.wf(),
            final(session).wf(),
            (out@, final(session)@) == (LoopView {
                run: run@,
                phase: PhaseView::Turning,
            }).turned(turn@, steering, old(session)@),
    {
        let mut run = run;
        match run.absorb(session, turn, steering) {
            Next::Done => AgentLoop { run, phase: Phase::Over(None) },
            Next::Again => {
                run.next_step();
                AgentLoop { run, phase: Phase::Timing }
            },
            Next::Shape => AgentLoop { run, phase: Phase::Shaping },
            Next::Calls(round) => AgentLoop { run, phase: Phase::Looking(round) },
        }
    }

    /// The upcoming call was looked at.
    fn looked(
        run: Run,
        round: Round,
        session: &mut Session,
        interrupt: bool,
        facts: Option<ToolFacts>,
    ) -> (out: Self)
        requires
            run@.step < run@.budgets.max_steps,
            round@.next <= round@.calls.len(),
            within(round@.batch, round@.calls.len()),
            old(session).wf(),
            old(session)@.next_id + round@.calls.len() <= u64::MAX,
        ensures
            out.wf(),
            final(session).wf(),
            (out@, final(session)@) == (LoopView {
                run: run@,
                phase: PhaseView::Looking(round@),
            }).after(HappenedView::Looked { interrupt, facts }, old(session)@),
    {
        let ghost before = round@;
        let mut run = run;
        let (round, plan) = round.plan(&mut run, interrupt, facts);
        match plan {
            Plan::Queued => {
                proof {
                    assert forall|k: int| 0 <= k < round@.batch.len() implies (
                    #[trigger] round@.batch[k]) < round@.calls.len() by {
                        if k < before.batch.len() {
                            assert(before.batch[k] < before.calls.len());
                        }
                    }
                }
                AgentLoop { run, phase: Phase::Looking(round) }
            },
            Plan::Alone { first, call } => AgentLoop::go_on_with(
                run,
                round,
                first,
                Some(call),
                session,
            ),
            Plan::Last(batch) => AgentLoop::go_on_with(run, round, batch, None, session),
            Plan::GaveUp => AgentLoop { run, phase: Phase::Over(None) },
        }
    }

    /// Go on from what happened. What the run does not wait for changes
    /// nothing.
    pub fn advance(self, session: &mut Session, event: Happened) -> (out: Self)
        requires
            self.wf(),
            old(session).wf(),
            self@.room(event@, old(session)@),
        ensures
            out.wf(),
            final(session).wf(),
            (out@, final(session)@) == self@.after(event@, old(session)@),
    {
        let ghost happened = event@;
        let AgentLoop { run, phase } = self;
        let mut run = run;
        match (phase, event) {
            (Phase::Timing, Happened::Passed(elapsed)) => {
                if run.begin_step(elapsed) {
                    AgentLoop { run, phase: Phase::Listening }
                } else {
                    AgentLoop { run, phase: Phase::Over(None) }
                }
            },
            (Phase::Listening, Happened::Heard(steers)) => {
                assert(views(steers@).len() == steers.len());
                deliver(session, steers);
                AgentLoop { run, phase: Phase::Turning }
            },
            (Phase::Turning, Happened::Turned { turn, steering }) => AgentLoop::turned(
                run,
                session,
                turn,
                steering,
            ),
            (Phase::Shaping, Happened::Shaped { text, finish }) => {
                run.shaped(text.as_str(), finish);
                AgentLoop { run, phase: Phase::Over(None) }
            },
            (Phase::Looking(round), Happened::Looked { interrupt, facts }) => AgentLoop::looked(
                run,
                round,
                session,
                interrupt,
                facts,
            ),
            (Phase::Approving { round, batch, and_then }, Happened::Answered(refusals)) => {
                assert(outcome_views(refusals@).len() == refusals.len());
                if refusals.len() != batch.len() {
                    return AgentLoop { run, phase: Phase::Approving { round, batch, and_then } };
                }
                proof {
                    refusals_keep(round@, batch@, outcome_views(refusals@));
                    cleared_within(batch@, outcome_views(refusals@), round@.calls.len());
                }
                let (round, approved) = sift(round, &batch, refusals);
                if approved.len() == 0 {
                    AgentLoop::go_on(run, round, and_then, session)
                } else {
                    AgentLoop { run, phase: Phase::Running { round, batch: approved, and_then } }
                }
            },
            (Phase::Running { round, batch, and_then }, Happened::Ran(outcomes)) => {
                assert(views(outcomes@).len() == outcomes.len());
                if outcomes.len() != batch.len() {
                    return AgentLoop { run, phase: Phase::Running { round, batch, and_then } };
                }
                proof {
                    outcomes_keep(round@, batch@, views(outcomes@));
                }
                let round = record_all(round, &batch, &outcomes);
                AgentLoop::go_on(run, round, and_then, session)
            },
            (Phase::Single { round, call }, Happened::Ran(outcomes)) => {
                assert(views(outcomes@).len() == outcomes.len());
                if outcomes.len() != 1 {
                    return AgentLoop { run, phase: Phase::Single { round, call } };
                }
                let mut batch: Vec<usize> = Vec::new();
                batch.push(call);
                assert(batch@ =~= seq![call]);
                proof {
                    outcomes_keep(round@, batch@, views(outcomes@));
                }
                let round = record_all(round, &batch, &outcomes);
                AgentLoop { run, phase: Phase::Looking(round) }
            },
            (phase, _) => AgentLoop { run, phase },
        }
    }

    /// What the run amounts to, once it is over: what it said last and why it
    /// ended, or the failure that the model cannot fix.
    pub fn outcome(self) -> (out: Option<Result<Completion, Error>>)
        ensures
            match self@.phase {
                PhaseView::Over(None) => out matches Some(Ok(done)) && done@ == self@.run.totals,
                PhaseView::Over(Some(words)) => out matches Some(
                    Err(Error::Generation { code, message }),
                ) && code@ == "tool_failed"@ && message@ == words,
                _ => out is None,
            },
    {
        match self.phase {
            Phase::Over(None) => Some(Ok(self.run.into_completion())),
            Phase::Over(Some(message)) => Some(
                Err(Error::Generation { code: "tool_failed".to_owned(), message }),
            ),
            _ => None,
        }
    }
}

// ── Laws ────────────────────────────────────────────────────────────────────

impl LoopView {
    /// Whether something that happened is what the run waits for.
    pub open spec fn awaits(self, event: HappenedView) -> bool {
        match (self.phase, event) {
            (PhaseView::Timing, HappenedView::Passed(_)) => true,
            (PhaseView::Listening, HappenedView::Heard(_)) => true,
            (PhaseView::Turning, HappenedView::Turned { .. }) => true,
            (PhaseView::Shaping, HappenedView::Shaped { .. }) => true,
            (PhaseView::Looking(_), HappenedView::Looked { .. }) => true,
            (PhaseView::Approving { batch, .. }, HappenedView::Answered(refusals)) => refusals.len()
                == batch.len(),
            (PhaseView::Running { batch, .. }, HappenedView::Ran(outcomes)) => outcomes.len()
                == batch.len(),
            (PhaseView::Single { .. }, HappenedView::Ran(outcomes)) => outcomes.len() == 1,
            _ => false,
        }
    }

    /// How many rounds may still be begun.
    pub open spec fn rounds_left(self) -> int {
        self.run.budgets.max_steps - self.run.step
    }

    /// How far the round still has to go, from its beginning to its calls.
    pub open spec fn stage(self) -> int {
        match self.phase {
            PhaseView::Timing => 4,
            PhaseView::Listening => 3,
            PhaseView::Turning => 2,
            PhaseView::Over(_) => 0,
            _ => 1,
        }
    }

    /// How much is left to do with the calls of the round.
    pub open spec fn work(self) -> int {
        match self.phase {
            PhaseView::Looking(round) => 8 * (round.calls.len() - round.next) + 4,
            PhaseView::Approving { round, and_then, .. } => 8 * (round.calls.len() - round.next)
                + if and_then is Some {
                7int
            } else {
                3int
            },
            PhaseView::Running { round, and_then, .. } => 8 * (round.calls.len() - round.next)
                + if and_then is Some {
                6int
            } else {
                2int
            },
            PhaseView::Single { round, .. } => 8 * (round.calls.len() - round.next) + 5,
            _ => 0,
        }
    }

    /// Whether a run is closer to its end than another.
    pub open spec fn closer(self, other: LoopView) -> bool {
        ||| self.rounds_left() < other.rounds_left()
        ||| self.rounds_left() == other.rounds_left() && self.stage() < other.stage()
        ||| self.rounds_left() == other.rounds_left() && self.stage() == other.stage()
            && self.work() < other.work()
    }
}

/// Every run ends, whatever the model does and whatever its tools answer:
/// each thing that the run waits for either ends it or brings it closer to
/// its end, by a measure that cannot fall for ever.
pub proof fn every_run_ends(l: LoopView, event: HappenedView, session: SessionState)
    requires
        l.valid(),
        l.awaits(event),
    ensures
        l.rounds_left() >= 0,
        l.stage() >= 0,
        l.work() >= 0,
        l.after(event, session).0.phase is Over || l.after(event, session).0.closer(l),
{
    match (l.phase, event) {
        (PhaseView::Approving { round, batch, .. }, HappenedView::Answered(refusals)) => {
            refusals_keep(round, batch, refusals);
        },
        (PhaseView::Running { round, batch, .. }, HappenedView::Ran(outcomes)) => {
            outcomes_keep(round, batch, outcomes);
        },
        (PhaseView::Single { round, call }, HappenedView::Ran(outcomes)) => {
            outcomes_keep(round, seq![call], outcomes);
        },
        _ => {},
    }
}

/// A run that is over stays over, and writes nothing more.
pub proof fn a_run_that_is_over_stays_over(
    l: LoopView,
    event: HappenedView,
    session: SessionState,
)
    requires
        l.phase is Over,
    ensures
        l.after(event, session) == (l, session),
{
}

/// A turn is asked for only within the step budget.
pub proof fn no_turn_beyond_the_budget(l: LoopView)
    requires
        l.valid(),
        l.action() is Turn,
    ensures
        l.run.step < l.run.budgets.max_steps,
{
}

/// Steering lands at the boundary, never mid-call: all that was said is in
/// the session before the model writes again.
pub proof fn steering_lands_before_the_model_writes(
    l: LoopView,
    event: HappenedView,
    session: SessionState,
)
    requires
        l.action() !is Turn,
        l.after(event, session).0.action() is Turn,
    ensures
        l.action() is Listen,
        event matches HappenedView::Heard(steers) && l.after(event, session).1
            == session.pushed_all(steered(steers)),
{
}

} // verus!
