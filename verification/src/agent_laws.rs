//! What holds of every agent run.
use vstd::prelude::*;
use vstd::string::*;
use crate::agent::{Budgets, SteerView};
use crate::agent_loop::{
    settled, with_outcomes, within, ActionView, HappenedView, LoopView, PhaseView,
};
use crate::agent_run::{
    alone, asked_message, cleared, reply, routed, steered, wired, with_goal, with_refusals,
    OutcomeView, PlanView, RoundView, RunView, ToolFacts, REPEAT_LIMIT,
};
use crate::message::{BodyView, MessageView};
use crate::round_laws::none_unanswered;
use crate::rounds::{answered_in, breach, step, walk, Walk};
use crate::seqs::push_contains;
use crate::session_model::SessionState;
use crate::stream::{Budget, CompletionView, FinishView, StreamCallView};

verus! {

// ── Budgets ─────────────────────────────────────────────────────────────────

/// A run after whole rounds, each a turn that was accounted for.
pub open spec fn after_rounds(run: RunView, turns: Seq<CompletionView>) -> RunView
    decreases turns.len(),
{
    if turns.len() == 0 {
        run
    } else {
        let before = after_rounds(run, turns.drop_last());
        let counted = before.counted(turns.last());
        RunView { step: counted.step + 1, ..counted }
    }
}

/// The tokens some turns generated.
pub open spec fn tokens_of(turns: Seq<CompletionView>) -> nat
    decreases turns.len(),
{
    if turns.len() == 0 {
        0
    } else {
        tokens_of(turns.drop_last()) + turns.last().tokens()
    }
}

/// No run begins more rounds than its step budget allows, whatever the model
/// does: after that many rounds, the next is refused.
pub proof fn the_step_budget_always_stops(run: RunView, turns: Seq<CompletionView>, elapsed: u128)
    ensures
        after_rounds(run, turns).step == run.step + turns.len(),
        after_rounds(run, turns).budgets == run.budgets,
        run.step + turns.len() >= run.budgets.max_steps ==> after_rounds(run, turns).out_of(elapsed)
            == Some(Budget::Steps),
    decreases turns.len(),
{
    if turns.len() > 0 {
        the_step_budget_always_stops(run, turns.drop_last(), elapsed);
    }
}

/// The token budget counts the whole run: what is held against it is the sum
/// over every turn, not the latest turn alone.
pub proof fn the_token_budget_counts_the_whole_run(run: RunView, turns: Seq<CompletionView>)
    ensures
        after_rounds(run, turns).spent == run.spent + tokens_of(turns),
        forall|turn: CompletionView|
            after_rounds(run, turns).overspent(turn) <==> (run.budgets.max_tokens matches Some(
                limit,
            ) && run.spent + tokens_of(turns) + turn.tokens() >= limit),
    decreases turns.len(),
{
    the_step_budget_always_stops(run, turns, 0);
    if turns.len() > 0 {
        the_token_budget_counts_the_whole_run(run, turns.drop_last());
    }
}

// ── Going in circles ────────────────────────────────────────────────────────

/// The names and arguments of some calls.
pub open spec fn keys(calls: Seq<StreamCallView>) -> Seq<(Seq<char>, Seq<char>)> {
    calls.map_values(|c: StreamCallView| (c.name, c.arguments))
}

/// A run that took note of calls, one after the other.
pub open spec fn noted(run: RunView, calls: Seq<StreamCallView>) -> RunView
    decreases calls.len(),
{
    if calls.len() == 0 {
        run
    } else {
        let before = noted(run, calls.drop_last());
        RunView { recent: before.with_call(calls.last()), ..before }
    }
}

proof fn noted_recent(run: RunView, calls: Seq<StreamCallView>)
    requires
        run.recent.len() == 0,
    ensures
        noted(run, calls).recent == (if calls.len() <= REPEAT_LIMIT {
            keys(calls)
        } else {
            keys(calls).skip(calls.len() - REPEAT_LIMIT)
        }),
    decreases calls.len(),
{
    if calls.len() == 0 {
        assert(keys(calls) =~= run.recent);
    } else {
        noted_recent(run, calls.drop_last());
        let before = noted(run, calls.drop_last());
        let all = before.recent.push((calls.last().name, calls.last().arguments));
        if calls.len() <= REPEAT_LIMIT {
            assert(all =~= keys(calls));
        } else {
            assert(all.drop_first() =~= keys(calls).skip(calls.len() - REPEAT_LIMIT));
        }
    }
}

/// A run gives up exactly when the same call with the same arguments is made
/// for the third time in a row, over all the calls it has seen.
pub proof fn a_run_gives_up_exactly_on_the_third_repeat(
    run: RunView,
    calls: Seq<StreamCallView>,
    call: StreamCallView,
)
    requires
        run.recent.len() == 0,
    ensures
        noted(run, calls).circles(call) <==> {
            &&& calls.len() >= 2
            &&& keys(calls)[calls.len() - 1] == (call.name, call.arguments)
            &&& keys(calls)[calls.len() - 2] == (call.name, call.arguments)
        },
{
    noted_recent(run, calls);
    let seen = noted(run, calls);
    let latest = seen.with_call(call);
    let key = (call.name, call.arguments);
    let n = calls.len() as int;
    if n >= 2 {
        assert(latest.len() == 3);
        assert(latest[2] == key);
        assert(latest[1] == keys(calls)[n - 1]);
        assert(latest[0] == keys(calls)[n - 2]);
    }
}

// ── Scheduling ──────────────────────────────────────────────────────────────

/// What is known when a call comes up: whether the task was interrupted, and
/// the tool it names.
pub type Moment = (bool, Option<ToolFacts>);

/// A round after several decisions, and the decisions. Nothing is decided
/// after the last or after giving up.
pub open spec fn decided(round: RoundView, run: RunView, moments: Seq<Moment>) -> (
    RoundView,
    RunView,
    Seq<PlanView>,
)
    decreases moments.len(),
{
    if moments.len() == 0 {
        (round, run, Seq::empty())
    } else {
        let (before, seen, plans) = decided(round, run, moments.drop_last());
        if plans.len() > 0 && over(plans.last()) {
            (before, seen, plans)
        } else {
            let (interrupt, facts) = moments.last();
            let (after, noticed, plan) = before.planned(seen, interrupt, facts);
            (after, noticed, plans.push(plan))
        }
    }
}

/// Whether a decision ends the scheduling.
pub open spec fn over(plan: PlanView) -> bool {
    plan is Last || plan is GaveUp
}

/// The calls that run, in the order they are started.
pub open spec fn started(plans: Seq<PlanView>) -> Seq<usize>
    decreases plans.len(),
{
    if plans.len() == 0 {
        Seq::empty()
    } else {
        started(plans.drop_last()) + match plans.last() {
            PlanView::Queued => Seq::empty(),
            PlanView::Alone { first, call } => first.push(call),
            PlanView::Last(batch) => batch,
            PlanView::GaveUp => Seq::empty(),
        }
    }
}

/// The first calls of a round.
pub open spec fn up_to(n: nat) -> Seq<usize> {
    Seq::new(n, |i: int| i as usize)
}

/// Whether what has started and what waits are the calls so far.
spec fn in_step(round: RoundView, plans: Seq<PlanView>) -> bool {
    let n = if plans.len() > 0 && plans.last() is GaveUp {
        (round.next - 1) as nat
    } else {
        round.next
    };
    &&& started(plans) + round.batch == up_to(n)
    &&& plans.len() > 0 && plans.last() is GaveUp ==> round.next > 0
}

/// Every call of a round is started at most once, in the order the model
/// asked for them, and none is passed over: at any time what has started and
/// what waits to start together are exactly the calls looked at so far. The
/// call that a run gives up on does not start.
pub proof fn calls_start_in_order_and_once(
    calls: Seq<StreamCallView>,
    run: RunView,
    moments: Seq<Moment>,
)
    requires
        calls.len() <= usize::MAX,
    ensures
        ({
            let (round, _, plans) = decided(RoundView::begun(calls), run, moments);
            let n = if plans.len() > 0 && plans.last() is GaveUp {
                (round.next - 1) as nat
            } else {
                round.next
            };
            &&& started(plans) + round.batch == up_to(n)
            &&& round.next <= calls.len()
            &&& plans.len() > 0 && plans.last() is Last ==> round.batch.len() == 0
        }),
{
    scheduling(calls, run, moments);
}

proof fn scheduling(calls: Seq<StreamCallView>, run: RunView, moments: Seq<Moment>)
    requires
        calls.len() <= usize::MAX,
    ensures
        ({
            let (round, _, plans) = decided(RoundView::begun(calls), run, moments);
            &&& in_step(round, plans)
            &&& round.calls == calls
            &&& round.next <= calls.len()
            &&& plans.len() > 0 && plans.last() is Last ==> round.batch.len() == 0
        }),
    decreases moments.len(),
{
    let start = RoundView::begun(calls);
    if moments.len() == 0 {
        assert(started(Seq::<PlanView>::empty()) + start.batch =~= up_to(0));
    } else {
        scheduling(calls, run, moments.drop_last());
        let (before, seen, plans) = decided(start, run, moments.drop_last());
        if !(plans.len() > 0 && over(plans.last())) {
            let (interrupt, facts) = moments.last();
            let (after, noticed, plan) = before.planned(seen, interrupt, facts);
            let more = plans.push(plan);
            assert(more.drop_last() =~= plans);
            assert(more.last() == plan);
            assert(started(plans) + before.batch == up_to(before.next));
            match plan {
                PlanView::Queued => {
                    assert(started(more) =~= started(plans));
                    assert(started(more) + after.batch =~= up_to(before.next).push(
                        before.next as usize,
                    ));
                    assert(up_to(after.next) =~= up_to(before.next).push(before.next as usize));
                },
                PlanView::Alone { first, call } => {
                    assert(started(more) =~= up_to(before.next).push(before.next as usize));
                    assert(started(more) + after.batch =~= started(more));
                    assert(up_to(after.next) =~= up_to(before.next).push(before.next as usize));
                },
                PlanView::Last(batch) => {
                    assert(started(more) + after.batch =~= up_to(before.next));
                },
                PlanView::GaveUp => {
                    assert(started(more) =~= started(plans));
                    assert(started(more) + after.batch =~= up_to(before.next));
                },
            }
        }
    }
}

/// A batch holds nothing but calls that are safe beside others: a call is
/// queued only where its tool is known and declares itself parallel-safe, and
/// it is not the search.
pub proof fn only_safe_calls_are_batched(
    round: RoundView,
    run: RunView,
    interrupt: bool,
    facts: Option<ToolFacts>,
)
    requires
        round.planned(run, interrupt, facts).2 is Queued,
    ensures
        !alone(round.calls[round.next as int], facts),
        facts matches Some(f) && f.parallel_safe,
        !interrupt,
{
}

// ── Denials ─────────────────────────────────────────────────────────────────

/// A call that was refused does not run.
pub proof fn a_refused_call_never_runs(
    batch: Seq<usize>,
    refusals: Seq<Option<OutcomeView>>,
    i: int,
)
    requires
        batch.len() == refusals.len(),
        batch.no_duplicates(),
        0 <= i < batch.len(),
    ensures
        cleared(batch, refusals).contains(batch[i]) <==> refusals[i] is None,
{
    cleared_holds(batch, refusals, batch[i]);
    if cleared(batch, refusals).contains(batch[i]) {
        let j = choose|j: int|
            0 <= j < batch.len() && #[trigger] batch[j] == batch[i] && refusals[j] is None;
        assert(j == i);
    }
}

proof fn cleared_holds(batch: Seq<usize>, refusals: Seq<Option<OutcomeView>>, x: usize)
    requires
        batch.len() == refusals.len(),
    ensures
        cleared(batch, refusals).contains(x) <==> exists|j: int|
            0 <= j < batch.len() && #[trigger] batch[j] == x && refusals[j] is None,
    decreases batch.len(),
{
    if batch.len() > 0 {
        let short = batch.drop_last();
        let rest = refusals.drop_last();
        cleared_holds(short, rest, x);
        let before = cleared(short, rest);
        push_contains(before, batch.last());
        if refusals.last() is None {
            assert(cleared(batch, refusals) == before.push(batch.last()));
        }
        if before.contains(x) {
            let j = choose|j: int|
                0 <= j < short.len() && #[trigger] short[j] == x && rest[j] is None;
            assert(batch[j] == x && refusals[j] is None);
        }
        if exists|j: int|
            0 <= j < batch.len() && #[trigger] batch[j] == x && refusals[j] is None {
            let j = choose|j: int|
                0 <= j < batch.len() && #[trigger] batch[j] == x && refusals[j] is None;
            if j < short.len() {
                assert(short[j] == x && rest[j] is None);
            } else {
                assert(cleared(batch, refusals)[before.len() as int] == x);
            }
        }
    }
}

// ── Results ─────────────────────────────────────────────────────────────────

/// The results of the first `n` calls, in call order.
pub open spec fn replies(
    calls: Seq<StreamCallView>,
    outcomes: Seq<Option<OutcomeView>>,
    n: nat,
) -> Seq<MessageView>
    decreases n,
{
    if n == 0 {
        Seq::empty()
    } else {
        let before = replies(calls, outcomes, (n - 1) as nat);
        match reply(calls[n - 1], outcomes[n - 1]) {
            Some(message) => before.push(message),
            None => before,
        }
    }
}

/// Whether no call failed in a way that ends the run.
pub open spec fn none_fatal(outcomes: Seq<Option<OutcomeView>>) -> bool {
    forall|i: int| 0 <= i < outcomes.len() ==> !(#[trigger] outcomes[i] matches Some(o) && o is Fatal)
}

/// The results of a round reach the transcript in the order the calls were
/// made, whatever order they completed in.
pub proof fn results_reach_the_transcript_in_call_order(
    session: SessionState,
    calls: Seq<StreamCallView>,
    outcomes: Seq<Option<OutcomeView>>,
    n: nat,
)
    requires
        n <= calls.len(),
        calls.len() == outcomes.len(),
        none_fatal(outcomes),
    ensures
        routed(session, calls, outcomes, n) == (
            session.pushed_all(replies(calls, outcomes, n)),
            None::<Seq<char>>,
        ),
    decreases n,
{
    if n > 0 {
        results_reach_the_transcript_in_call_order(session, calls, outcomes, (n - 1) as nat);
        let before = replies(calls, outcomes, (n - 1) as nat);
        let outcome = outcomes[n - 1];
        assert(!(outcome matches Some(o) && o is Fatal));
        match reply(calls[n - 1], outcome) {
            Some(message) => {
                assert(before.push(message).drop_last() =~= before);
            },
            None => {},
        }
    }
}

/// The first failure that the model cannot fix ends the run and is what is
/// reported; the results before it are in the transcript, those after it are
/// not.
pub proof fn the_first_fatal_failure_ends_the_run(
    session: SessionState,
    calls: Seq<StreamCallView>,
    outcomes: Seq<Option<OutcomeView>>,
    i: nat,
    n: nat,
)
    requires
        i < n <= calls.len(),
        calls.len() == outcomes.len(),
        none_fatal(outcomes.take(i as int)),
        outcomes[i as int] matches Some(o) && o is Fatal,
    ensures
        routed(session, calls, outcomes, n) == (
            session.pushed_all(replies(calls, outcomes, i)),
            Some(calls[i as int].name + ": "@ + outcomes[i as int]->0->Fatal_0),
        ),
    decreases n,
{
    if n > i + 1 {
        the_first_fatal_failure_ends_the_run(session, calls, outcomes, i, (n - 1) as nat);
    } else {
        routed_early(session, calls, outcomes, i);
    }
}

proof fn routed_early(
    session: SessionState,
    calls: Seq<StreamCallView>,
    outcomes: Seq<Option<OutcomeView>>,
    i: nat,
)
    requires
        i <= calls.len(),
        calls.len() == outcomes.len(),
        none_fatal(outcomes.take(i as int)),
    ensures
        routed(session, calls, outcomes, i) == (
            session.pushed_all(replies(calls, outcomes, i)),
            None::<Seq<char>>,
        ),
    decreases i,
{
    if i > 0 {
        let early = outcomes.take(i as int);
        assert forall|k: int| 0 <= k < outcomes.take(i - 1).len() implies !(
        #[trigger] outcomes.take(i - 1)[k] matches Some(o) && o is Fatal) by {
            assert(outcomes.take(i - 1)[k] == early[k]);
        }
        routed_early(session, calls, outcomes, (i - 1) as nat);
        assert(early[i - 1] == outcomes[i - 1]);
        let before = replies(calls, outcomes, (i - 1) as nat);
        match reply(calls[i - 1], outcomes[i - 1]) {
            Some(message) => {
                assert(before.push(message).drop_last() =~= before);
            },
            None => {},
        }
    }
}

/// The ids of some calls.
pub open spec fn ids_of(calls: Seq<StreamCallView>) -> Seq<Seq<char>> {
    calls.map_values(|c: StreamCallView| wired(c).id)
}

/// Whether every call has an id of its own and came to something the model
/// reads.
pub open spec fn all_answered(
    calls: Seq<StreamCallView>,
    outcomes: Seq<Option<OutcomeView>>,
) -> bool {
    &&& calls.len() == outcomes.len()
    &&& forall|i: int|
        0 <= i < calls.len() ==> (#[trigger] calls[i]).id is Some && reply(calls[i], outcomes[i])
            is Some
}

/// A finished round breaks no round that was whole: after the message that
/// made the calls come results that answer each of them, so a conversation
/// that showed no half round shows none after.
pub proof fn a_finished_round_is_whole(
    shown: Seq<MessageView>,
    records: Seq<MessageView>,
    calls: Seq<StreamCallView>,
    outcomes: Seq<Option<OutcomeView>>,
)
    requires
        breach(shown, records) is None,
        calls.len() > 0,
        all_answered(calls, outcomes),
    ensures
        ({
            let round = seq![asked_message(calls)] + replies(calls, outcomes, calls.len());
            breach(shown + round, records + round) is None
        }),
{
    let n = calls.len();
    let asked = asked_message(calls);
    let told = replies(calls, outcomes, n);
    let round = seq![asked] + told;
    let ids = ids_of(calls);
    let w = walk(shown)->Ok_0;
    asked_calls(calls);
    let opened = shown.push(asked);
    assert(opened.drop_last() =~= shown);
    assert(opened.last() == asked);
    assert(walk(opened) == Ok::<Walk, Seq<char>>(
        Walk { declared: w.declared + ids, answered: w.answered, open: ids },
    ));
    walked(opened, calls, outcomes, w, n);
    assert(shown + round =~= opened + told);
    let end = walk(shown + round)->Ok_0;
    assert(ids.take(n as int) =~= ids);
    assert(end.answered == w.answered + ids);
    replies_name_calls(calls, outcomes, n, 0);
    none_unanswered(w.declared, w.answered, records);
    none_unanswered(end.declared, end.answered, records + round);
    assert forall|id: Seq<char>| #[trigger] end.declared.contains(id) implies end.answered.contains(
        id,
    ) || !answered_in(records + round, id) by {
        if ids.contains(id) {
            let k = choose|k: int| 0 <= k < ids.len() && ids[k] == id;
            assert((w.answered + ids)[w.answered.len() + k] == id);
        } else {
            let d = choose|d: int| 0 <= d < end.declared.len() && end.declared[d] == id;
            if d >= w.declared.len() {
                assert(ids[d - w.declared.len()] == id);
            }
            assert(w.declared[d] == id);
            assert(w.declared.contains(id));
            if w.answered.contains(id) {
                let k = choose|k: int| 0 <= k < w.answered.len() && w.answered[k] == id;
                assert((w.answered + ids)[k] == id);
            } else {
                assert(!answered_in(records, id));
                if answered_in(records + round, id) {
                    let j = choose|j: int|
                        0 <= j < (records + round).len() && (#[trigger] (records
                            + round)[j]).is_result() && (records + round)[j].call_id == Some(id);
                    if j < records.len() {
                        assert(records[j].is_result() && records[j].call_id == Some(id));
                    } else {
                        let r = j - records.len();
                        assert((records + round)[j] == round[r]);
                        if r == 0 {
                            asked_is_no_result(calls);
                        } else {
                            replies_name_calls(calls, outcomes, n, r - 1);
                            assert(round[r] == told[r - 1]);
                        }
                    }
                }
            }
        }
    }
}

proof fn asked_is_no_result(calls: Seq<StreamCallView>)
    ensures
        asked_message(calls).call_id is None,
{
}

proof fn asked_calls(calls: Seq<StreamCallView>)
    ensures
        asked_message(calls).calls() == ids_of(calls),
{
    assert(asked_message(calls).calls() =~= ids_of(calls));
}

/// A result is one, and names the call it answers.
proof fn answers(call: StreamCallView, outcome: Option<OutcomeView>)
    requires
        call.id is Some,
        reply(call, outcome) is Some,
    ensures
        ({
            let m = reply(call, outcome)->0;
            &&& m.is_result()
            &&& m.calls().len() == 0
            &&& m.call_id == Some(wired(call).id)
        }),
{
}

/// Each call is answered once, in order.
proof fn replies_name_calls(
    calls: Seq<StreamCallView>,
    outcomes: Seq<Option<OutcomeView>>,
    n: nat,
    i: int,
)
    requires
        n <= calls.len(),
        all_answered(calls, outcomes),
        0 <= i < n,
    ensures
        replies(calls, outcomes, n).len() == n,
        replies(calls, outcomes, n)[i] == reply(calls[i], outcomes[i])->0,
        replies(calls, outcomes, n)[i].call_id == Some(ids_of(calls)[i]),
        ids_of(calls).contains(ids_of(calls)[i]),
    decreases n,
{
    assert(calls[n - 1].id is Some);
    if n > 1 {
        if i < n - 1 {
            replies_name_calls(calls, outcomes, (n - 1) as nat, i);
        } else {
            replies_name_calls(calls, outcomes, (n - 1) as nat, i - 1);
        }
    }
    assert(calls[i].id is Some);
    answers(calls[i], outcomes[i]);
    reveal_with_fuel(replies, 2);
}

/// The answers, read after the calls.
proof fn walked(
    opened: Seq<MessageView>,
    calls: Seq<StreamCallView>,
    outcomes: Seq<Option<OutcomeView>>,
    w: Walk,
    n: nat,
)
    requires
        n <= calls.len(),
        all_answered(calls, outcomes),
        walk(opened) == Ok::<Walk, Seq<char>>(
            Walk { declared: w.declared + ids_of(calls), answered: w.answered, open: ids_of(calls) },
        ),
    ensures
        walk(opened + replies(calls, outcomes, n)) matches Ok(end) && end.declared == w.declared
            + ids_of(calls) && end.answered == w.answered + ids_of(calls).take(n as int),
    decreases n,
{
    let ids = ids_of(calls);
    let told = replies(calls, outcomes, n);
    if n == 0 {
        assert(opened + told =~= opened);
        assert(w.answered + ids.take(0) =~= w.answered);
    } else {
        walked(opened, calls, outcomes, w, (n - 1) as nat);
        let before = replies(calls, outcomes, (n - 1) as nat);
        assert(calls[n - 1].id is Some);
        answers(calls[n - 1], outcomes[n - 1]);
        let m = reply(calls[n - 1], outcomes[n - 1])->0;
        assert(told == before.push(m));
        assert((opened + told).drop_last() =~= opened + before);
        assert((opened + told).last() == m);
        let id = ids[n - 1];
        assert((w.declared + ids)[w.declared.len() + n - 1] == id);
        assert((w.declared + ids).contains(id));
        assert((w.answered + ids.take(n - 1)).push(id) =~= w.answered + ids.take(n as int));
    }
    if n == calls.len() {
        assert(ids.take(n as int) =~= ids);
    }
}

// ── What ends a run, and what does not ──────────────────────────────────────

/// A run begins with nothing spent and nothing seen, before its first round.
pub proof fn a_run_begins_with_nothing_spent(budgets: Budgets, answer_as: Option<Seq<char>>)
    ensures
        ({
            let l = LoopView::begun(budgets, answer_as);
            &&& l.phase is Timing
            &&& l.run.budgets == budgets
            &&& l.run.answer_as == answer_as
            &&& l.run.step == 0
            &&& l.run.spent == 0
            &&& l.run.recent.len() == 0
            &&& l.run.totals.text.len() == 0
            &&& l.run.totals.dropped == 0
            &&& l.run.totals.compacted == 0
        }),
{
}

/// Before every round the step budget and then the clock are looked at,
/// whichever round it is. Where the steps are spent, or the time that has gone
/// by has reached the deadline, the run is over, says which, and asks for no
/// turn; else the round begins. Either way the session is left alone.
pub proof fn steps_and_time_are_checked_before_every_round(
    l: LoopView,
    elapsed: u128,
    session: SessionState,
)
    requires
        l.phase is Timing,
    ensures
        ({
            let (after, kept) = l.after(HappenedView::Passed(elapsed), session);
            let late = l.run.budgets.deadline is Some && l.run.budgets.deadline->0 <= elapsed;
            &&& kept == session
            &&& l.run.budgets.max_steps <= l.run.step ==> after.phase is Over
                && after.run.totals.finish == FinishView::OutOfBudget(Budget::Steps)
            &&& l.run.step < l.run.budgets.max_steps && late ==> after.phase is Over
                && after.run.totals.finish == FinishView::OutOfBudget(Budget::Deadline)
            &&& l.run.step < l.run.budgets.max_steps && !late ==> after.phase is Listening
                && after.run == l.run
            &&& after.phase is Over ==> after.action() is Stop
            &&& after.phase is Listening ==> after.action() is Listen
            &&& after.run.step == l.run.step
            &&& after.run.spent == l.run.spent
            &&& after.run.recent == l.run.recent
            &&& after.run.budgets == l.run.budgets
            &&& after.run.totals.text == l.run.totals.text
        }),
{
}

/// The same of a run by itself: the next round is refused at the step limit,
/// or where the deadline is reached, and for no other reason.
pub proof fn only_spent_budgets_refuse_a_round(run: RunView, elapsed: u128)
    ensures
        run.budgets.max_steps <= run.step ==> run.out_of(elapsed) == Some(Budget::Steps),
        run.step < run.budgets.max_steps ==> (run.out_of(elapsed) == Some(Budget::Deadline) <==> (
        run.budgets.deadline is Some && run.budgets.deadline->0 <= elapsed)),
        run.out_of(elapsed) is None <==> run.step < run.budgets.max_steps && (
        run.budgets.deadline is None || elapsed < run.budgets.deadline->0),
{
}

/// Time only runs one way: what has passed its deadline stays refused.
pub proof fn a_missed_deadline_stays_missed(run: RunView, earlier: u128, later: u128)
    requires
        earlier <= later,
        run.out_of(earlier) is Some,
    ensures
        run.out_of(later) is Some,
{
}

/// A turn is paid for by the tokens it generated, none where nothing was
/// measured, and what it left out of view is added to what was left out
/// before. The last words are the turn's.
pub proof fn a_turn_is_paid_for(run: RunView, turn: CompletionView)
    ensures
        ({
            let counted = run.counted(turn);
            &&& turn.stats matches Some(stats) ==> counted.spent == run.spent + stats.decode_tokens
            &&& turn.stats is None ==> counted.spent == run.spent
            &&& turn.stats is None ==> counted.totals.stats == run.totals.stats
            &&& turn.stats matches Some(stats) ==> {
                &&& counted.totals.stats matches Some(told)
                &&& told.prompt_tokens == stats.prompt_tokens
                &&& told.first_token_us == stats.first_token_us
                &&& told.reasoning_ms == stats.reasoning_ms
                &&& counted.spent <= u32::MAX ==> told.decode_tokens == counted.spent
            }
            &&& counted.totals.tool_calls == run.totals.tool_calls
            &&& counted.answer_as == run.answer_as
            &&& counted.totals.text == turn.text
            &&& counted.totals.dropped == run.totals.dropped + turn.dropped
            &&& counted.totals.compacted == run.totals.compacted + turn.compacted
            &&& counted.totals.tool_rounds == run.step
            &&& counted.step == run.step
            &&& counted.recent == run.recent
            &&& counted.budgets == run.budgets
            &&& counted.totals.finish == run.totals.finish
        }),
{
}

/// After a turn the run is over where the tokens of the whole run have
/// reached their budget, even where the turn asked for tools: nothing of it is
/// recorded then, and no tool runs.
pub proof fn a_spent_token_budget_ends_the_run(
    l: LoopView,
    turn: CompletionView,
    steering: bool,
    session: SessionState,
)
    requires
        l.phase is Turning,
    ensures
        ({
            let used = l.run.spent + (if turn.stats is Some {
                turn.stats->0.decode_tokens as nat
            } else {
                0
            });
            let over = l.run.budgets.max_tokens is Some && l.run.budgets.max_tokens->0 <= used;
            let (after, kept) = l.after(HappenedView::Turned { turn, steering }, session);
            &&& over ==> {
                &&& after.phase == PhaseView::Over(None)
                &&& after.run.totals.finish == FinishView::OutOfBudget(Budget::Tokens)
                &&& after.run.totals.text == turn.text
                &&& after.run.spent == used
                &&& kept == session
            }
            &&& !over && turn.tool_calls.len() > 0 ==> {
                &&& after.phase matches PhaseView::Looking(round)
                &&& round.calls == turn.tool_calls
                &&& round.next == 0
                &&& round.batch.len() == 0
                &&& kept.active.len() == session.active.len() + 1
                &&& kept.records.len() == session.records.len() + 1
                &&& kept.records.last().message.role == "assistant"@
                &&& kept.records.last().message.body matches BodyView::Calls(made)
                &&& made.len() == turn.tool_calls.len()
                &&& forall|i: int|
                    0 <= i < made.len() ==> (#[trigger] made[i]).name == turn.tool_calls[i].name
            }
        }),
{
}

/// Where the model answers in words and no budget is spent, the words are
/// recorded, and the run is over for the reason the turn gives. Two things
/// keep it going: a message that waits for a turn that was cut short, and an
/// answer that is wanted in some shape.
pub proof fn words_end_the_run(
    l: LoopView,
    turn: CompletionView,
    steering: bool,
    session: SessionState,
)
    requires
        l.phase is Turning,
        turn.tool_calls.len() == 0,
        l.run.budgets.max_tokens is None,
    ensures
        ({
            let (after, kept) = l.after(HappenedView::Turned { turn, steering }, session);
            let said = kept.records[session.records.len() as int].message;
            let cut = turn.finish is Stopped && steering;
            &&& said.role == "assistant"@
            &&& said.body == BodyView::Text(turn.text)
            &&& cut ==> after.phase is Timing && after.run.step == l.run.step + 1
                && kept.records.len() == session.records.len() + 1
            &&& !cut && l.run.answer_as is None ==> after.phase == PhaseView::Over(None)
                && after.run.totals.finish == turn.finish && after.run.step == l.run.step
                && kept.records.len() == session.records.len() + 1
            &&& !cut && l.run.answer_as is Some ==> {
                &&& after.phase is Shaping
                &&& after.run.totals.finish == turn.finish
                &&& kept.records.len() == session.records.len() + 2
                &&& kept.records.last().message.role == "user"@
                &&& kept.records.last().message.body == BodyView::Text(l.run.answer_as->0)
            }
        }),
{
}

/// The answer in shape is what the run says last, and ends it.
pub proof fn the_shaped_answer_ends_the_run(
    l: LoopView,
    text: Seq<char>,
    finish: FinishView,
    session: SessionState,
)
    requires
        l.phase is Shaping,
    ensures
        ({
            let (after, kept) = l.after(HappenedView::Shaped { text, finish }, session);
            &&& after.phase == PhaseView::Over(None)
            &&& after.run.totals.text == text
            &&& after.run.totals.finish == finish
            &&& kept == session
        }),
{
}

/// A call waits for others only where its tool is known, safe beside others
/// and not the search; every other call runs by itself, after those that
/// wait. An interruption starts nothing more.
pub proof fn how_a_call_is_scheduled(
    round: RoundView,
    run: RunView,
    interrupt: bool,
    facts: Option<ToolFacts>,
)
    requires
        round.next < round.calls.len() <= usize::MAX,
        run.recent.len() <= 3,
        ({
            let call = round.calls[round.next as int];
            let n = run.recent.len();
            n >= 2 ==> run.recent[n - 1] != (call.name, call.arguments) || run.recent[n - 2] != (
                call.name,
                call.arguments,
            )
        }),
    ensures
        ({
            let (after, seen, plan) = round.planned(run, interrupt, facts);
            let name = round.calls[round.next as int].name;
            let beside = facts is Some && facts->0.parallel_safe && name != "search_tools"@;
            &&& interrupt ==> plan == PlanView::Last(round.batch) && after.next == round.next
                && seen == run
            &&& !interrupt && beside ==> plan is Queued && after.batch == round.batch.push(
                round.next as usize,
            )
            &&& !interrupt && !beside ==> plan == (PlanView::Alone {
                first: round.batch,
                call: round.next as usize,
            }) && after.batch.len() == 0
            &&& !interrupt ==> after.next == round.next + 1
            &&& after.calls == round.calls
            &&& after.outcomes == round.outcomes
            &&& seen.totals == run.totals
            &&& seen.step == run.step
            &&& seen.spent == run.spent
            &&& !interrupt ==> seen.recent.last() == (
                name,
                round.calls[round.next as int].arguments,
            )
        }),
{
    let call = round.calls[round.next as int];
    let n = run.recent.len();
    let latest = run.with_call(call);
    if n >= 2 && latest.len() == 3 {
        assert(latest[1] == run.recent[n - 1]);
        assert(latest[0] == run.recent[n - 2]);
    }
}

/// A call made for the third time in a row, with the same arguments, is not
/// run: the run gives up and says which tool it kept calling.
pub proof fn giving_up_names_the_call(
    round: RoundView,
    run: RunView,
    facts: Option<ToolFacts>,
    session: SessionState,
)
    requires
        round.next < round.calls.len() <= usize::MAX,
        2 <= run.recent.len() <= 3,
        ({
            let call = round.calls[round.next as int];
            let n = run.recent.len();
            run.recent[n - 1] == (call.name, call.arguments) && run.recent[n - 2] == (
                call.name,
                call.arguments,
            )
        }),
    ensures
        ({
            let l = LoopView { run, phase: PhaseView::Looking(round) };
            let (after, kept) = l.after(
                HappenedView::Looked { interrupt: false, facts },
                session,
            );
            &&& after.phase == PhaseView::Over(None)
            &&& after.run.totals.finish == (FinishView::GaveUp {
                tool: round.calls[round.next as int].name,
                times: 3,
            })
            &&& kept == session
        }),
{
    let call = round.calls[round.next as int];
    let latest = run.with_call(call);
    assert(latest.len() == 3);
    assert forall|i: int| 0 <= i < latest.len() implies #[trigger] latest[i] == (
        call.name,
        call.arguments,
    ) by {
        let n = run.recent.len();
        if i == 0 {
            assert(latest[0] == run.recent[n - 2]);
        } else if i == 1 {
            assert(latest[1] == run.recent[n - 1]);
        }
    }
}

// ── From call to call ───────────────────────────────────────────────────────

/// The first of some outcomes that the model cannot fix.
pub open spec fn fatal_at(outcomes: Seq<Option<OutcomeView>>, i: int) -> bool {
    &&& 0 <= i < outcomes.len()
    &&& outcomes[i] matches Some(o) && o is Fatal
    &&& none_fatal(outcomes.take(i))
}

/// How a run stands once every call of a round has an outcome: the results
/// are in the session in call order, and the next round is begun; unless one
/// of them is a failure the model cannot fix, which ends the run and is told
/// with the name of its tool.
pub open spec fn round_closed(
    run: RunView,
    round: RoundView,
    session: SessionState,
    after: LoopView,
    kept: SessionState,
) -> bool {
    &&& kept == routed(session, round.calls, round.outcomes, round.calls.len()).0
    &&& none_fatal(round.outcomes) ==> {
        &&& after.phase is Timing
        &&& after.run == (RunView { step: run.step + 1, ..run })
    }
    &&& forall|i: int| #[trigger]
        fatal_at(round.outcomes, i) ==> {
            &&& after.phase matches PhaseView::Over(Some(words))
            &&& words == round.calls[i].name + ": "@ + round.outcomes[i]->0->Fatal_0
            &&& after.run == run
        }
}

proof fn settling_closes_the_round(run: RunView, round: RoundView, session: SessionState)
    requires
        round.calls.len() == round.outcomes.len(),
    ensures
        round_closed(
            run,
            round,
            session,
            settled(run, round, session).0,
            settled(run, round, session).1,
        ),
{
    let n = round.calls.len();
    if none_fatal(round.outcomes) {
        nothing_fails(session, round.calls, round.outcomes, n);
    }
    assert forall|i: int| #[trigger] fatal_at(round.outcomes, i) implies {
        let after = settled(run, round, session).0;
        &&& after.phase matches PhaseView::Over(Some(words))
        &&& words == round.calls[i].name + ": "@ + round.outcomes[i]->0->Fatal_0
        &&& after.run == run
    } by {
        the_first_fatal_failure_ends_the_run(session, round.calls, round.outcomes, i as nat, n);
    }
}

proof fn nothing_fails(
    session: SessionState,
    calls: Seq<StreamCallView>,
    outcomes: Seq<Option<OutcomeView>>,
    n: nat,
)
    requires
        calls.len() == outcomes.len(),
        n <= calls.len(),
        none_fatal(outcomes),
    ensures
        routed(session, calls, outcomes, n).1 is None,
    decreases n,
{
    if n > 0 {
        nothing_fails(session, calls, outcomes, (n - 1) as nat);
        assert(!(outcomes[n - 1] matches Some(o) && o is Fatal));
    }
}

/// What waits for approval, or runs, goes on to the call that was to follow
/// by itself; where none was, the round is closed with every outcome.
pub proof fn a_round_goes_on_to_its_next_call(
    l: LoopView,
    event: HappenedView,
    session: SessionState,
)
    requires
        l.valid(),
        l.phase.round() matches Some(round) ==> round.calls.len() == round.outcomes.len(),
    ensures
        ({
            let (after, kept) = l.after(event, session);
            match (l.phase, event) {
                (
                    PhaseView::Approving { round, batch, and_then },
                    HappenedView::Answered(refusals),
                ) if refusals.len() == batch.len() => {
                    let told = with_refusals(round, batch, refusals);
                    let none_left = forall|k: int|
                        0 <= k < refusals.len() ==> #[trigger] refusals[k] is Some;
                    &&& !none_left ==> kept == session && after.run == l.run && (
                    after.phase matches PhaseView::Running { round: r, batch: _, and_then: c }
                        && r == told && c == and_then)
                    &&& none_left ==> match and_then {
                        Some(call) => kept == session && after.run == l.run && after.phase == (
                        PhaseView::Single { round: told, call }),
                        None => round_closed(l.run, told, session, after, kept),
                    }
                },
                (
                    PhaseView::Running { round, batch, and_then },
                    HappenedView::Ran(outcomes),
                ) if outcomes.len() == batch.len() => {
                    let told = with_outcomes(round, batch, outcomes);
                    match and_then {
                        Some(call) => kept == session && after.run == l.run && after.phase == (
                        PhaseView::Single { round: told, call }),
                        None => round_closed(l.run, told, session, after, kept),
                    }
                },
                (PhaseView::Single { round, call }, HappenedView::Ran(outcomes)) if outcomes.len()
                    == 1 => {
                    &&& kept == session
                    &&& after.run == l.run
                    &&& after.phase matches PhaseView::Looking(next)
                    &&& next.calls == round.calls
                    &&& next.next == round.next
                    &&& next.batch == round.batch
                    &&& next.outcomes == round.outcomes.update(call as int, Some(outcomes[0]))
                },
                _ => true,
            }
        }),
{
    let (after, kept) = l.after(event, session);
    match (l.phase, event) {
        (
            PhaseView::Approving { round, batch, and_then },
            HappenedView::Answered(refusals),
        ) => if refusals.len() == batch.len() {
            let told = with_refusals(round, batch, refusals);
            nothing_is_cleared(batch, refusals);
            refusing_keeps_the_calls(round, batch, refusals);
            settling_closes_the_round(l.run, told, session);
        },
        (
            PhaseView::Running { round, batch, and_then },
            HappenedView::Ran(outcomes),
        ) => if outcomes.len() == batch.len() {
            let told = with_outcomes(round, batch, outcomes);
            running_keeps_the_calls(round, batch, outcomes);
            settling_closes_the_round(l.run, told, session);
        },
        (PhaseView::Single { round, call }, HappenedView::Ran(outcomes)) => if outcomes.len()
            == 1 {
            assert(seq![call].drop_last() =~= Seq::<usize>::empty());
            assert(with_outcomes(round, seq![call].drop_last(), outcomes.drop_last()) == round);
            assert(with_outcomes(round, seq![call], outcomes).outcomes == round.outcomes.update(
                call as int,
                Some(outcomes[0]),
            ));
        },
        _ => {},
    }
}

proof fn nothing_is_cleared(batch: Seq<usize>, refusals: Seq<Option<OutcomeView>>)
    requires
        batch.len() == refusals.len(),
    ensures
        cleared(batch, refusals).len() == 0 <==> forall|k: int|
            0 <= k < refusals.len() ==> #[trigger] refusals[k] is Some,
    decreases batch.len(),
{
    if batch.len() > 0 {
        let init = refusals.drop_last();
        nothing_is_cleared(batch.drop_last(), init);
        if forall|k: int| 0 <= k < refusals.len() ==> #[trigger] refusals[k] is Some {
            assert forall|k: int| 0 <= k < init.len() implies #[trigger] init[k] is Some by {
                assert(init[k] == refusals[k]);
            }
            assert(refusals[refusals.len() - 1] is Some);
        }
        if cleared(batch, refusals).len() == 0 {
            assert forall|k: int| 0 <= k < refusals.len() implies #[trigger] refusals[k] is Some by {
                if k < init.len() {
                    assert(init[k] is Some);
                }
            }
        }
    }
}

proof fn refusing_keeps_the_calls(
    round: RoundView,
    batch: Seq<usize>,
    refusals: Seq<Option<OutcomeView>>,
)
    requires
        batch.len() == refusals.len(),
        within(batch, round.outcomes.len()),
    ensures
        with_refusals(round, batch, refusals).calls == round.calls,
        with_refusals(round, batch, refusals).outcomes.len() == round.outcomes.len(),
    decreases batch.len(),
{
    if batch.len() > 0 {
        let init = batch.drop_last();
        assert forall|k: int| 0 <= k < init.len() implies (#[trigger] init[k])
            < round.outcomes.len() by {
            assert(init[k] == batch[k]);
        }
        assert(batch[batch.len() - 1] < round.outcomes.len());
        refusing_keeps_the_calls(round, batch.drop_last(), refusals.drop_last());
    }
}

proof fn running_keeps_the_calls(
    round: RoundView,
    batch: Seq<usize>,
    outcomes: Seq<OutcomeView>,
)
    requires
        batch.len() == outcomes.len(),
        within(batch, round.outcomes.len()),
    ensures
        with_outcomes(round, batch, outcomes).calls == round.calls,
        with_outcomes(round, batch, outcomes).outcomes.len() == round.outcomes.len(),
    decreases batch.len(),
{
    if batch.len() > 0 {
        let init = batch.drop_last();
        assert forall|k: int| 0 <= k < init.len() implies (#[trigger] init[k])
            < round.outcomes.len() by {
            assert(init[k] == batch[k]);
        }
        assert(batch[batch.len() - 1] < round.outcomes.len());
        running_keeps_the_calls(round, batch.drop_last(), outcomes.drop_last());
    }
}

/// Once a call is looked at: what waits is put to approval before a call runs
/// by itself, and before the round is closed.
pub proof fn what_waits_is_put_to_approval(
    l: LoopView,
    interrupt: bool,
    facts: Option<ToolFacts>,
    session: SessionState,
)
    requires
        l.phase is Looking,
        l.phase->Looking_0.calls.len() == l.phase->Looking_0.outcomes.len(),
    ensures
        ({
            let round = l.phase->Looking_0;
            let (told, run, plan) = round.planned(l.run, interrupt, facts);
            let (after, kept) = l.after(HappenedView::Looked { interrupt, facts }, session);
            &&& plan is Queued ==> after == (LoopView { run, phase: PhaseView::Looking(told) })
                && kept == session
            &&& plan matches PlanView::Alone { first, call } ==> kept == session && after.run == run
                && after.phase == (if first.len() > 0 {
                PhaseView::Approving { round: told, batch: first, and_then: Some(call) }
            } else {
                PhaseView::Single { round: told, call }
            })
            &&& plan matches PlanView::Last(batch) ==> if batch.len() > 0 {
                kept == session && after.run == run && after.phase == (PhaseView::Approving {
                    round: told,
                    batch,
                    and_then: None,
                })
            } else {
                round_closed(run, told, session, after, kept)
            }
        }),
{
    let round = l.phase->Looking_0;
    let (told, run, plan) = round.planned(l.run, interrupt, facts);
    if plan is Last {
        settling_closes_the_round(run, told, session);
    }
}

/// Once every call was looked at, those that wait are the last to run.
pub proof fn a_round_ends_with_those_that_wait(
    round: RoundView,
    run: RunView,
    interrupt: bool,
    facts: Option<ToolFacts>,
)
    requires
        round.next >= round.calls.len(),
    ensures
        round.planned(run, interrupt, facts).2 == PlanView::Last(round.batch),
        round.planned(run, interrupt, facts).1 == run,
        round.planned(run, interrupt, facts).0.batch.len() == 0,
{
}

/// What the model reads of a call: a tool's output word for word, a failure it
/// can fix marked as an error, nothing of a call that did not run. The answer
/// names the call where the call has an id.
pub proof fn what_the_model_reads_of_a_call(call: StreamCallView, words: Seq<char>)
    ensures
        ({
            let output = reply(call, Some(OutcomeView::Output(words)));
            let error = reply(call, Some(OutcomeView::Fixable(words)));
            &&& output is Some && error is Some
            &&& output->0.role == "tool"@ && error->0.role == "tool"@
            &&& output->0.body == BodyView::Text(words)
            &&& error->0.body == BodyView::Text("error: "@ + words)
            &&& output->0.call_id == call.id && error->0.call_id == call.id
            &&& reply(call, Some(OutcomeView::Fatal(words))) is None
            &&& reply(call, None) is None
        }),
{
}

/// How a call is kept: under the id it came with, else under the tool's name,
/// with the arguments it was given.
pub proof fn how_a_call_is_kept(calls: Seq<StreamCallView>, i: int)
    requires
        0 <= i < calls.len(),
    ensures
        asked_message(calls).role == "assistant"@,
        asked_message(calls).body matches BodyView::Calls(made) && made.len() == calls.len()
            && made[i].name == calls[i].name && (calls[i].id is Some ==> made[i].id
            == calls[i].id->0) && (calls[i].id is None ==> made[i].id == calls[i].name),
{
}

/// What is said to a run becomes user messages, one each, word for word and in
/// order.
pub proof fn steering_is_said_by_the_user(steers: Seq<SteerView>, i: int)
    requires
        0 <= i < steers.len(),
    ensures
        steered(steers).len() == steers.len(),
        steered(steers)[i].role == "user"@,
        steered(steers)[i].body == BodyView::Text(steers[i].message),
{
}

/// A goal in words is said by the user, at the end of the session; a run
/// without one adds nothing.
pub proof fn a_goal_is_said_by_the_user(session: SessionState, fingerprint: u64, text: Seq<char>)
    ensures
        ({
            let with = with_goal(session, fingerprint, Some(text), Seq::empty());
            let without = with_goal(session, fingerprint, None, Seq::empty());
            &&& with.records.len() == session.records.len() + 1
            &&& with.records.last().message.role == "user"@
            &&& with.records.last().message.body == BodyView::Text(text)
            &&& with.active.len() == session.active.len() + 1
            &&& without.records == session.records
            &&& without.active == session.active
        }),
{
}

/// What came of calls that ran together is kept under each call, and what is
/// known of the others stays.
pub proof fn outcomes_are_kept_by_call(
    round: RoundView,
    batch: Seq<usize>,
    outcomes: Seq<OutcomeView>,
    k: int,
)
    requires
        batch.len() == outcomes.len(),
        batch.no_duplicates(),
        0 <= k < round.outcomes.len(),
        forall|i: int| 0 <= i < batch.len() ==> (#[trigger] batch[i]) < round.outcomes.len(),
    ensures
        ({
            let after = with_outcomes(round, batch, outcomes);
            &&& after.outcomes.len() == round.outcomes.len()
            &&& forall|i: int|
                0 <= i < batch.len() && #[trigger] batch[i] == k ==> after.outcomes[k] == Some(
                    outcomes[i],
                )
            &&& (forall|i: int| 0 <= i < batch.len() ==> #[trigger] batch[i] != k)
                ==> after.outcomes[k] == round.outcomes[k]
        }),
    decreases batch.len(),
{
    if batch.len() > 0 {
        let short = batch.drop_last();
        let rest = outcomes.drop_last();
        assert forall|i: int| 0 <= i < short.len() implies (#[trigger] short[i])
            < round.outcomes.len() by {
            assert(batch[i] == short[i]);
        }
        outcomes_are_kept_by_call(round, short, rest, k);
        let last = batch.len() - 1;
        let before = with_outcomes(round, short, rest);
        let after = with_outcomes(round, batch, outcomes);
        assert(batch[last] < round.outcomes.len());
        assert forall|i: int| 0 <= i < batch.len() && #[trigger] batch[i] == k implies after.outcomes[k]
            == Some(outcomes[i]) by {
            if i < last {
                assert(short[i] == k);
                assert(batch[last] != k);
                assert(rest[i] == outcomes[i]);
            }
        }
        if forall|i: int| 0 <= i < batch.len() ==> #[trigger] batch[i] != k {
            assert(batch[last] != k);
            assert forall|i: int| 0 <= i < short.len() implies #[trigger] short[i] != k by {
                assert(batch[i] == short[i]);
            }
        }
    }
}

/// A refusal is kept as what came of the call; a call that was not refused
/// keeps what is known of it.
pub proof fn refusals_are_kept_by_call(
    round: RoundView,
    batch: Seq<usize>,
    refusals: Seq<Option<OutcomeView>>,
    k: int,
)
    requires
        batch.len() == refusals.len(),
        batch.no_duplicates(),
        0 <= k < round.outcomes.len(),
        forall|i: int| 0 <= i < batch.len() ==> (#[trigger] batch[i]) < round.outcomes.len(),
    ensures
        ({
            let after = with_refusals(round, batch, refusals);
            &&& after.outcomes.len() == round.outcomes.len()
            &&& forall|i: int|
                0 <= i < batch.len() && #[trigger] batch[i] == k && refusals[i] is Some
                    ==> after.outcomes[k] == refusals[i]
            &&& (forall|i: int|
                0 <= i < batch.len() ==> #[trigger] batch[i] != k || refusals[i] is None)
                ==> after.outcomes[k] == round.outcomes[k]
        }),
    decreases batch.len(),
{
    if batch.len() > 0 {
        let short = batch.drop_last();
        let rest = refusals.drop_last();
        assert forall|i: int| 0 <= i < short.len() implies (#[trigger] short[i])
            < round.outcomes.len() by {
            assert(batch[i] == short[i]);
        }
        refusals_are_kept_by_call(round, short, rest, k);
        let last = batch.len() - 1;
        let after = with_refusals(round, batch, refusals);
        assert(batch[last] < round.outcomes.len());
        assert forall|i: int|
            0 <= i < batch.len() && #[trigger] batch[i] == k && refusals[i] is Some implies after.outcomes[k]
            == refusals[i] by {
            if i < last {
                assert(short[i] == k);
                assert(batch[last] != k);
                assert(rest[i] == refusals[i]);
            }
        }
        if forall|i: int|
            0 <= i < batch.len() ==> #[trigger] batch[i] != k || refusals[i] is None {
            assert(batch[last] != k || refusals[last] is None);
            assert forall|i: int| 0 <= i < short.len() implies #[trigger] short[i] != k
                || rest[i] is None by {
                assert(batch[i] == short[i]);
            }
        }
    }
}

/// What a run asks for follows from where it stands: it never asks for a turn
/// while calls are open, and runs nothing but what was cleared.
pub proof fn a_run_asks_for_what_comes_next(l: LoopView)
    ensures
        l.action() is Stop <==> l.phase is Over,
        l.action() is Turn <==> l.phase is Turning,
        l.action() is Time <==> l.phase is Timing,
        l.action() is Listen <==> l.phase is Listening,
        l.action() is Shape <==> l.phase is Shaping,
        l.action() is Look <==> l.phase is Looking,
        l.phase matches PhaseView::Approving { batch, .. } ==> l.action() == ActionView::Approve(
            batch,
        ),
        l.phase matches PhaseView::Running { batch, .. } ==> l.action() == ActionView::Together(
            batch,
        ),
        l.phase matches PhaseView::Single { call, .. } ==> l.action() == ActionView::Alone(call),
{
}

/// Calls are run only once each of them was put to approval, and the ones
/// refused are not among those that run.
pub proof fn nothing_runs_together_before_approval(
    l: LoopView,
    event: HappenedView,
    session: SessionState,
)
    requires
        !(l.phase is Running),
        l.after(event, session).0.phase is Running,
    ensures
        l.phase is Approving,
        event matches HappenedView::Answered(refusals) && {
            &&& refusals.len() == l.phase->Approving_batch.len()
            &&& l.phase->Approving_batch.no_duplicates() ==> forall|i: int|
                0 <= i < refusals.len() ==> (l.after(
                    event,
                    session,
                ).0.phase->Running_batch.contains(#[trigger] l.phase->Approving_batch[i])
                    <==> refusals[i] is None)
        },
{
    if let HappenedView::Answered(refusals) = event {
        let batch = l.phase->Approving_batch;
        if batch.no_duplicates() {
            assert forall|i: int| 0 <= i < refusals.len() implies (l.after(
                event,
                session,
            ).0.phase->Running_batch.contains(#[trigger] batch[i]) <==> refusals[i] is None) by {
                a_refused_call_never_runs(batch, refusals, i);
            }
        }
    }
}

/// Calls that are cleared run in the order they were put to approval.
pub proof fn cleared_calls_keep_their_order(
    a: Seq<usize>,
    b: Seq<usize>,
    answers_a: Seq<Option<OutcomeView>>,
    answers_b: Seq<Option<OutcomeView>>,
)
    requires
        a.len() == answers_a.len(),
        b.len() == answers_b.len(),
    ensures
        cleared(a + b, answers_a + answers_b) == cleared(a, answers_a) + cleared(b, answers_b),
        a.len() == 1 && answers_a[0] is None ==> cleared(a, answers_a) == a,
        a.len() == 1 && answers_a[0] is Some ==> cleared(a, answers_a).len() == 0,
    decreases b.len(),
{
    if a.len() == 1 {
        assert(a.drop_last() =~= Seq::<usize>::empty());
        assert(cleared(a.drop_last(), answers_a.drop_last()) =~= Seq::<usize>::empty());
        assert(cleared(a, answers_a) =~= if answers_a[0] is None {
            a
        } else {
            Seq::empty()
        });
    }
    if b.len() == 0 {
        assert(a + b =~= a);
        assert(answers_a + answers_b =~= answers_a);
        assert(cleared(a, answers_a) + cleared(b, answers_b) =~= cleared(a, answers_a));
    } else {
        cleared_calls_keep_their_order(a, b.drop_last(), answers_a, answers_b.drop_last());
        assert((a + b).drop_last() =~= a + b.drop_last());
        assert((answers_a + answers_b).drop_last() =~= answers_a + answers_b.drop_last());
        assert(cleared(a + b, answers_a + answers_b) =~= cleared(a, answers_a) + cleared(
            b,
            answers_b,
        ));
    }
}

} // verus!
