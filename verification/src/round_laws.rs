//! What holds of tool rounds, in the projections a session shows.
use vstd::prelude::*;
use crate::message::MessageView;
use crate::rounds::{
    answered_in, breach, drops, first_unanswered, first_unattributed, open_after, step,
    unattributed, walk, BreachView, Walk,
};
use crate::seqs::{filter_keeps, first_at, first_at_is_first, push_contains, without_contains};
use crate::session_facts::{
    edit_walk_facts, record_all_facts, replaced_valid, trimmed_is_part, with_active_valid,
};
use crate::session_laws::Op;
use crate::session_model::{id_run, MessageId, SessionState};

verus! {

/// Whether the message at `i` answers calls and makes none.
pub open spec fn result_at(shown: Seq<MessageView>, i: int) -> bool {
    0 <= i < shown.len() && shown[i].is_result() && shown[i].calls().len() == 0
}

/// Whether the message at `i` makes the call `id`.
pub open spec fn calls_at(shown: Seq<MessageView>, i: int, id: Seq<char>) -> bool {
    0 <= i < shown.len() && shown[i].calls().contains(id)
}

/// Whether some message before `i` makes the call `id`.
pub open spec fn called_before(shown: Seq<MessageView>, i: int, id: Seq<char>) -> bool {
    exists|j: int| j < i && #[trigger] calls_at(shown, j, id)
}

/// Whether some message before `i` makes calls.
pub open spec fn any_call_before(shown: Seq<MessageView>, i: int) -> bool {
    exists|j: int| 0 <= j < i && (#[trigger] shown[j]).calls().len() > 0
}

/// Whether the message at `j` is an answer that can be to the call `id`: it
/// names that call, or none.
pub open spec fn answers_at(shown: Seq<MessageView>, j: int, id: Seq<char>) -> bool {
    result_at(shown, j) && (shown[j].call_id == Some(id) || shown[j].call_id is None)
}

/// Every result that names a call follows a message that makes it; every
/// result that names none follows one that makes some; and every call that
/// is answered in the records is shown with an answer.
pub open spec fn whole_rounds(shown: Seq<MessageView>, records: Seq<MessageView>) -> bool {
    &&& forall|i: int, id: Seq<char>|
        #[trigger] result_at(shown, i) && shown[i].call_id == Some(id) ==> #[trigger] called_before(
            shown,
            i,
            id,
        )
    &&& forall|i: int|
        #[trigger] result_at(shown, i) && shown[i].call_id is None ==> any_call_before(shown, i)
    &&& forall|i: int, id: Seq<char>|
        #[trigger] calls_at(shown, i, id) && answered_in(records, id) ==> exists|j: int|
            #[trigger] answers_at(shown, j, id)
}

// ── What reading messages has seen ──────────────────────────────────────────

/// What a walk that met no orphan knows of the messages it read.
spec fn walk_knows(shown: Seq<MessageView>, w: Walk) -> bool {
    &&& forall|id: Seq<char>|
        #[trigger] w.declared.contains(id) <==> exists|i: int| calls_at(shown, i, id)
    &&& forall|id: Seq<char>|
        #[trigger] w.answered.contains(id) ==> exists|j: int| answers_at(shown, j, id)
    &&& forall|j: int, id: Seq<char>|
        #![trigger result_at(shown, j), w.answered.contains(id)]
        result_at(shown, j) && shown[j].call_id == Some(id) ==> w.answered.contains(id)
    &&& forall|i: int, id: Seq<char>|
        #![trigger result_at(shown, i), called_before(shown, i, id)]
        result_at(shown, i) && shown[i].call_id == Some(id) ==> called_before(shown, i, id)
    &&& forall|i: int|
        #[trigger] result_at(shown, i) && shown[i].call_id is None ==> any_call_before(shown, i)
    &&& forall|k: int| 0 <= k < w.open.len() ==> w.declared.contains(#[trigger] w.open[k])
    &&& w.open == open_after(shown)
    &&& w.declared.len() > 0 ==> exists|i: int|
        0 <= i < shown.len() && (#[trigger] shown[i]).calls().len() > 0
}

proof fn before_push(shown: Seq<MessageView>, m: MessageView, i: int, id: Seq<char>)
    requires
        0 <= i <= shown.len(),
    ensures
        called_before(shown, i, id) ==> called_before(shown.push(m), i, id),
        any_call_before(shown, i) ==> any_call_before(shown.push(m), i),
{
    let all = shown.push(m);
    if called_before(shown, i, id) {
        let j = choose|j: int| j < i && #[trigger] calls_at(shown, j, id);
        assert(calls_at(all, j, id));
    }
    if any_call_before(shown, i) {
        let j = choose|j: int| 0 <= j < i && (#[trigger] shown[j]).calls().len() > 0;
        assert(all[j].calls().len() > 0);
    }
}

proof fn add_contains<T>(a: Seq<T>, b: Seq<T>)
    ensures
        forall|x: T| #[trigger] (a + b).contains(x) <==> a.contains(x) || b.contains(x),
{
    assert forall|x: T| #[trigger] (a + b).contains(x) <==> a.contains(x) || b.contains(x) by {
        if a.contains(x) {
            let k = choose|k: int| 0 <= k < a.len() && a[k] == x;
            assert((a + b)[k] == x);
        }
        if b.contains(x) {
            let k = choose|k: int| 0 <= k < b.len() && b[k] == x;
            assert((a + b)[a.len() + k] == x);
        }
    }
}

#[verifier::rlimit(40)]
proof fn walk_facts(shown: Seq<MessageView>)
    requires
        walk(shown) is Ok,
    ensures
        walk_knows(shown, walk(shown)->Ok_0),
    decreases shown.len(),
{
    if shown.len() > 0 {
        let init = shown.drop_last();
        let m = shown.last();
        assert(shown == init.push(m));
        walk_facts(init);
        let v = walk(init)->Ok_0;
        let w = walk(shown)->Ok_0;
        let n = init.len() as int;
        assert(step(v, m) == Ok::<Walk, Seq<char>>(w));
        assert forall|i: int, id: Seq<char>| calls_at(shown, i, id) <==> calls_at(init, i, id) || (i
            == n && m.calls().contains(id)) by {}
        assert forall|i: int| result_at(shown, i) <==> result_at(init, i) || (i == n && m.is_result()
            && m.calls().len() == 0) by {}
        assert forall|id: Seq<char>|
            #[trigger] w.declared.contains(id) <==> exists|i: int| calls_at(shown, i, id) by {
            add_contains(v.declared, m.calls());
            if m.calls().contains(id) {
                assert(calls_at(shown, n, id));
            }
            if v.declared.contains(id) {
                let i = choose|i: int| calls_at(init, i, id);
                assert(calls_at(shown, i, id));
            }
            if exists|i: int| calls_at(shown, i, id) {
                let i = choose|i: int| calls_at(shown, i, id);
                if i < n {
                    assert(calls_at(init, i, id));
                }
            }
        }
        assert forall|id: Seq<char>| #[trigger] w.answered.contains(id) implies exists|j: int|
            answers_at(shown, j, id) by {
            if v.answered.contains(id) {
                let j = choose|j: int| answers_at(init, j, id);
                assert(answers_at(shown, j, id));
            } else {
                answered_step(v, m, w, id);
                assert(answers_at(shown, n, id));
            }
        }
        assert forall|j: int, id: Seq<char>|
            #![trigger result_at(shown, j), w.answered.contains(id)]
            result_at(shown, j) && shown[j].call_id == Some(id) implies w.answered.contains(id) by {
            if j < n {
                assert(result_at(init, j));
                assert(v.answered.contains(id));
                answered_grows(v, m, w, id);
            } else {
                push_contains(v.answered, id);
                assert(w.answered == v.answered.push(id));
                assert(v.answered.push(id).contains(id));
            }
        }
        assert forall|i: int, id: Seq<char>|
            #![trigger result_at(shown, i), called_before(shown, i, id)]
            result_at(shown, i) && shown[i].call_id == Some(id) implies called_before(
            shown,
            i,
            id,
        ) by {
            if i < n {
                assert(result_at(init, i));
                assert(called_before(init, i, id));
                before_push(init, m, i, id);
            } else {
                assert(v.declared.contains(id));
                let j = choose|j: int| calls_at(init, j, id);
                assert(calls_at(shown, j, id));
            }
        }
        assert forall|i: int|
            #[trigger] result_at(shown, i) && shown[i].call_id is None implies any_call_before(
            shown,
            i,
        ) by {
            if i < n {
                assert(result_at(init, i));
                before_push(init, m, i, Seq::empty());
            } else {
                assert(v.declared.contains(v.open[0]));
                let j = choose|j: int| 0 <= j < init.len() && (#[trigger] init[j]).calls().len() > 0;
                assert(shown[j].calls().len() > 0);
            }
        }
        assert forall|k: int| 0 <= k < w.open.len() implies w.declared.contains(
            #[trigger] w.open[k],
        ) by {
            open_step(v, m, w, k);
        }
        if w.declared.len() > 0 {
            if m.calls().len() > 0 {
                assert(shown[n].calls().len() > 0);
            } else {
                let j = choose|j: int| 0 <= j < init.len() && (#[trigger] init[j]).calls().len() > 0;
                assert(shown[j].calls().len() > 0);
            }
        }
    }
}

proof fn answered_step(v: Walk, m: MessageView, w: Walk, id: Seq<char>)
    requires
        step(v, m) == Ok::<Walk, Seq<char>>(w),
        w.answered.contains(id),
        !v.answered.contains(id),
    ensures
        m.is_result(),
        m.calls().len() == 0,
        m.call_id == Some(id) || m.call_id is None,
{
    if m.calls().len() == 0 && m.is_result() {
        match m.call_id {
            Some(c) => {
                push_contains(v.answered, c);
            },
            None => {},
        }
    }
}

proof fn answered_grows(v: Walk, m: MessageView, w: Walk, id: Seq<char>)
    requires
        step(v, m) == Ok::<Walk, Seq<char>>(w),
        v.answered.contains(id),
    ensures
        w.answered.contains(id),
{
    if m.calls().len() == 0 && m.is_result() {
        match m.call_id {
            Some(c) => {
                push_contains(v.answered, c);
                assert(v.answered.push(c).contains(id));
            },
            None => {
                push_contains(v.answered, v.open[0]);
                assert(v.answered.push(v.open[0]).contains(id));
            },
        }
    }
}

proof fn open_step(v: Walk, m: MessageView, w: Walk, k: int)
    requires
        step(v, m) == Ok::<Walk, Seq<char>>(w),
        forall|k: int| 0 <= k < v.open.len() ==> v.declared.contains(#[trigger] v.open[k]),
        0 <= k < w.open.len(),
    ensures
        w.declared.contains(w.open[k]),
{
    if m.calls().len() > 0 {
        add_contains(v.declared, m.calls());
        assert(m.calls().contains(m.calls()[k]));
        assert((v.declared + m.calls()).contains(w.open[k]));
    } else if m.is_result() {
        match m.call_id {
            Some(c) => {
                without_contains(v.open, c);
                assert(w.open.contains(w.open[k]));
                assert(v.open.contains(w.open[k]));
                let j = choose|j: int| 0 <= j < v.open.len() && v.open[j] == w.open[k];
                assert(v.declared.contains(v.open[j]));
            },
            None => {
                assert(w.open[k] == v.open[k + 1]);
            },
        }
    }
}

/// Where no call is found unanswered, every call is answered or has no answer
/// in the records.
pub proof fn none_unanswered(
    calls: Seq<Seq<char>>,
    answered: Seq<Seq<char>>,
    records: Seq<MessageView>,
)
    ensures
        first_unanswered(calls, answered, records) is None <==> (forall|id: Seq<char>| #[trigger]
            calls.contains(id) ==> answered.contains(id) || !answered_in(records, id)),
        first_unanswered(calls, answered, records) matches Some(id) ==> calls.contains(id),
    decreases calls.len(),
{
    if calls.len() > 0 {
        let init = calls.drop_last();
        none_unanswered(init, answered, records);
        push_contains(init, calls.last());
        assert(calls == init.push(calls.last()));
        assert(calls.contains(calls.last()));
        assert forall|id: Seq<char>| init.contains(id) implies #[trigger] calls.contains(id) by {
            assert(init.push(calls.last()).contains(id));
        }
        if first_unanswered(init, answered, records) is None {
            if first_unanswered(calls, answered, records) is None {
                assert forall|id: Seq<char>| #[trigger] calls.contains(id) implies answered.contains(
                    id,
                ) || !answered_in(records, id) by {
                    assert(init.push(calls.last()).contains(id));
                    assert(init.contains(id) || calls.last() == id);
                }
            }
        } else {
            let bad = first_unanswered(init, answered, records)->0;
            assert(calls.contains(bad));
            assert(first_unanswered(calls, answered, records) is Some);
            if forall|id: Seq<char>| #[trigger]
                calls.contains(id) ==> answered.contains(id) || !answered_in(records, id) {
                assert forall|id: Seq<char>| #[trigger] init.contains(id) implies answered.contains(
                    id,
                ) || !answered_in(records, id) by {
                    assert(calls.contains(id));
                }
            }
        }
    }
}

/// A projection that passes shows only whole rounds.
pub proof fn what_passes_shows_whole_rounds(shown: Seq<MessageView>, records: Seq<MessageView>)
    requires
        breach(shown, records) is None,
    ensures
        whole_rounds(shown, records),
{
    walk_facts(shown);
    let w = walk(shown)->Ok_0;
    none_unanswered(w.declared, w.answered, records);
    assert forall|i: int, id: Seq<char>|
        #[trigger] calls_at(shown, i, id) && answered_in(records, id) implies exists|j: int|
        #[trigger] answers_at(shown, j, id) by {
        assert(w.declared.contains(id));
        assert(w.answered.contains(id));
    }
}

/// Where every result names its call, whole rounds always pass: nothing is
/// refused that shows no half round.
pub proof fn whole_rounds_pass(shown: Seq<MessageView>, records: Seq<MessageView>)
    requires
        whole_rounds(shown, records),
        forall|i: int| #[trigger] result_at(shown, i) ==> shown[i].call_id is Some,
    ensures
        breach(shown, records) is None,
{
    walk_passes(shown, shown.len() as int);
    assert(shown.take(shown.len() as int) =~= shown);
    walk_facts(shown);
    let w = walk(shown)->Ok_0;
    none_unanswered(w.declared, w.answered, records);
    assert forall|id: Seq<char>| #[trigger] w.declared.contains(id) implies w.answered.contains(id)
        || !answered_in(records, id) by {
        let i = choose|i: int| calls_at(shown, i, id);
        assert(calls_at(shown, i, id));
        if answered_in(records, id) {
            let j = choose|j: int| answers_at(shown, j, id);
            assert(answers_at(shown, j, id));
            assert(result_at(shown, j));
            assert(shown[j].call_id == Some(id));
            assert(w.answered.contains(id));
        }
    }
}

proof fn walk_passes(shown: Seq<MessageView>, n: int)
    requires
        0 <= n <= shown.len(),
        forall|i: int, id: Seq<char>|
            #[trigger] result_at(shown, i) && shown[i].call_id == Some(id)
                ==> #[trigger] called_before(shown, i, id),
        forall|i: int| #[trigger] result_at(shown, i) ==> shown[i].call_id is Some,
    ensures
        walk(shown.take(n)) is Ok,
    decreases n,
{
    if n > 0 {
        walk_passes(shown, n - 1);
        assert(shown.take(n).drop_last() =~= shown.take(n - 1));
        let m = shown.take(n).last();
        assert(m == shown[n - 1]);
        let v = walk(shown.take(n - 1))->Ok_0;
        walk_facts(shown.take(n - 1));
        if m.calls().len() == 0 && m.is_result() {
            assert(result_at(shown, n - 1));
            let id = m.call_id->0;
            assert(called_before(shown, n - 1, id));
            let j = choose|j: int| j < n - 1 && #[trigger] calls_at(shown, j, id);
            assert(calls_at(shown.take(n - 1), j, id));
            assert(v.declared.contains(id));
        }
    }
}

// ── Accepted projections ────────────────────────────────────────────────────

/// Whether a message is not both a result and a call.
pub open spec fn one_sided(m: MessageView) -> bool {
    m.is_result() ==> m.calls().len() == 0
}

/// Recording what is shown breaks no round that was whole.
proof fn recording_what_is_shown(
    shown: Seq<MessageView>,
    records: Seq<MessageView>,
    more: Seq<MessageView>,
)
    requires
        breach(shown, records) is None,
        forall|k: int|
            0 <= k < more.len() ==> one_sided(#[trigger] more[k]) && shown.contains(more[k]),
    ensures
        breach(shown, records + more) is None,
{
    walk_facts(shown);
    let w = walk(shown)->Ok_0;
    none_unanswered(w.declared, w.answered, records);
    none_unanswered(w.declared, w.answered, records + more);
    assert forall|id: Seq<char>| #[trigger] w.declared.contains(id) implies w.answered.contains(id)
        || !answered_in(records + more, id) by {
        if answered_in(records + more, id) && !w.answered.contains(id) {
            let all = records + more;
            let i = choose|i: int|
                0 <= i < all.len() && (#[trigger] all[i]).is_result() && all[i].call_id == Some(id);
            if i < records.len() {
                assert(records[i].is_result() && records[i].call_id == Some(id));
                assert(answered_in(records, id));
            } else {
                let m = more[i - records.len()];
                assert(all[i] == m);
                let j = choose|j: int| 0 <= j < shown.len() && shown[j] == m;
                assert(result_at(shown, j));
                assert(w.answered.contains(id));
            }
        }
    }
}

/// The messages an operation brings.
pub open spec fn brought(op: Op) -> Seq<MessageView> {
    match op {
        Op::Push(m) => seq![m],
        Op::Replace(_, m) => seq![m],
        Op::ReplaceAll(ms) => ms,
        Op::Edit(ms) => ms,
        _ => Seq::empty(),
    }
}

/// A projection that was accepted, by a replacement, a removal, a compaction,
/// a restore or a cut, shows no half round; and it is judged against all
/// that is recorded, what the operation itself brought included.
pub proof fn an_accepted_projection_shows_no_half_round(s: SessionState, op: Op)
    requires
        s.valid(),
        s.has_room(op),
        forall|k: int| 0 <= k < brought(op).len() ==> one_sided(#[trigger] brought(op)[k]),
        match op {
            Op::Replace(id, m) => s.replace_refusal(id, m) is None,
            Op::Remove(id) => s.remove_refusal(id) is None,
            Op::ReplaceAll(ms) => s.replace_all_refusal(ms) is None,
            Op::Restore(ids) => s.restore_refusal(ids) is None,
            Op::ForkAt(_, at) => s.fork_refusal(at) is None,
            _ => false,
        },
    ensures
        breach(s.stepped(op).messages(), s.stepped(op).recorded_messages()) is None,
        whole_rounds(s.stepped(op).messages(), s.stepped(op).recorded_messages()),
{
    let t = s.stepped(op);
    match op {
        Op::Replace(id, m) => {
            replaced_valid(s, id, m);
            first_at_is_first(s.active, id);
            let at = first_at(s.active, id)->0;
            let shown = s.messages().update(at, m);
            assert(brought(op)[0] == m);
            assert(shown[at] == m);
            recording_what_is_shown(shown, s.recorded_messages(), seq![m]);
            assert(s.recorded_messages() + seq![m] =~= s.recorded_messages().push(m));
        },
        Op::Remove(id) => {
            first_at_is_first(s.active, id);
            let at = first_at(s.active, id)->0;
            assert forall|i: int| 0 <= i < t.active.len() implies t.messages()[i]
                == s.messages().remove(at)[i] by {}
            assert(t.messages() =~= s.messages().remove(at));
            assert(t.recorded_messages() =~= s.recorded_messages());
        },
        Op::ReplaceAll(ms) => {
            record_all_facts(s, ms);
            let u = s.recorded_all(ms);
            with_active_valid(u, id_run(s.next_id, ms.len()), "replace_messages"@, true);
            recorded_all_messages(s, ms);
            assert forall|k: int| 0 <= k < ms.len() implies one_sided(#[trigger] ms[k])
                && ms.contains(ms[k]) by {
                assert(one_sided(brought(op)[k]));
            }
            recording_what_is_shown(ms, s.recorded_messages(), ms);
            assert(t.recorded_messages() =~= u.recorded_messages());
        },
        Op::Restore(ids) => {
            assert(t.recorded_messages() =~= s.recorded_messages());
            assert(t.messages() =~= s.messages_of(ids));
        },
        Op::ForkAt(_, at) => {
            assert(t.recorded_messages() =~= s.recorded_messages());
            assert(t.messages() =~= s.messages_of(s.cut_at(at)));
        },
        _ => {},
    }
    what_passes_shows_whole_rounds(t.messages(), t.recorded_messages());
}

proof fn recorded_all_messages(s: SessionState, ms: Seq<MessageView>)
    ensures
        s.recorded_all(ms).recorded_messages() == s.recorded_messages() + ms,
    decreases ms.len(),
{
    if ms.len() > 0 {
        recorded_all_messages(s, ms.drop_last());
        assert(s.recorded_all(ms).recorded_messages() =~= s.recorded_all(
            ms.drop_last(),
        ).recorded_messages().push(ms.last()));
        assert(ms =~= ms.drop_last().push(ms.last()));
    }
    assert(s.recorded_all(ms).recorded_messages() =~= s.recorded_messages() + ms);
}

// ── Trimmed projections ─────────────────────────────────────────────────────

/// Whether a message names every call it makes, and the call it answers where
/// it names one, by a text that is not empty.
pub open spec fn named_calls(m: MessageView) -> bool {
    &&& forall|k: int| 0 <= k < m.calls().len() ==> (#[trigger] m.calls()[k]).len() > 0
    &&& m.call_id matches Some(id) ==> id.len() > 0
}

/// Equal messages make the same calls.
proof fn equal_messages_name_the_same(a: MessageView, b: MessageView)
    requires
        a.alike(b),
        named_calls(b),
    ensures
        named_calls(a),
{
    assert(a.calls().len() == b.calls().len());
    assert forall|k: int| 0 <= k < a.calls().len() implies (#[trigger] a.calls()[k]).len() > 0 by {
        assert(a.calls()[k] == b.calls()[k]);
    }
}

/// The result a walk stopped at.
proof fn walk_stops_at(shown: Seq<MessageView>) -> (n: int)
    requires
        walk(shown) is Err,
    ensures
        0 <= n < shown.len(),
        walk(shown.take(n)) is Ok,
        step(walk(shown.take(n))->Ok_0, shown[n]) == Err::<Walk, Seq<char>>(walk(shown)->Err_0),
    decreases shown.len(),
{
    let init = shown.drop_last();
    match walk(init) {
        Ok(_) => {
            assert(shown.take(shown.len() - 1) =~= init);
            shown.len() - 1
        },
        Err(_) => {
            let n = walk_stops_at(init);
            assert(shown.take(n) =~= init.take(n));
            n
        },
    }
}

/// A message found unattributed makes the search succeed.
proof fn unattributed_is_found(shown: Seq<MessageView>, i: int)
    requires
        0 <= i < shown.len(),
        unattributed(shown, i),
    ensures
        first_unattributed(shown) matches Some(k) && 0 <= k < shown.len(),
    decreases shown.len(),
{
    let init = shown.drop_last();
    if i < shown.len() - 1 {
        assert(shown.take(i) =~= init.take(i));
        assert(unattributed(init, i));
        unattributed_is_found(init, i);
    } else {
        first_unattributed_range(init);
    }
}

proof fn first_unattributed_range(shown: Seq<MessageView>)
    ensures
        first_unattributed(shown) matches Some(k) ==> 0 <= k < shown.len(),
    decreases shown.len(),
{
    if shown.len() > 0 {
        first_unattributed_range(shown.drop_last());
    }
}

/// Filtering with a test that some element fails drops something.
proof fn filter_drops<T>(s: Seq<T>, keep: spec_fn(T) -> bool, i: int)
    requires
        0 <= i < s.len(),
        !keep(s[i]),
    ensures
        s.filter(keep).len() < s.len(),
    decreases s.len(),
{
    reveal(Seq::filter);
    let init = s.drop_last();
    filter_keeps(init, keep);
    if i < s.len() - 1 {
        filter_drops(init, keep, i);
    }
}

/// Mending a breach drops something, where calls are named.
proof fn mending_drops(s: SessionState, ids: Seq<MessageId>, b: BreachView)
    requires
        breach(s.messages_of(ids), s.recorded_messages()) == Some(b),
        forall|i: int| 0 <= i < ids.len() ==> named_calls(#[trigger] s.messages_of(ids)[i]),
    ensures
        s.mended(ids, b).len() < ids.len(),
{
    let shown = s.messages_of(ids);
    let i: int = match b {
        BreachView::Orphan(id) => {
            let n = walk_stops_at(shown);
            assert(named_calls(shown[n]));
            if id.len() == 0 {
                assert(shown[n].call_id is None);
                walk_facts(shown.take(n));
                assert(unattributed(shown, n));
                unattributed_is_found(shown, n);
                first_unattributed(shown)->0
            } else {
                n
            }
        },
        BreachView::Unanswered(id) => {
            walk_facts(shown);
            let w = walk(shown)->Ok_0;
            none_unanswered(w.declared, w.answered, s.recorded_messages());
            choose|i: int| calls_at(shown, i, id)
        },
    };
    assert(drops(shown, b, i));
    let keep = |id: MessageId|
        !exists|i: int| 0 <= i < ids.len() && ids[i] == id && #[trigger] drops(shown, b, i);
    assert(!keep(ids[i]));
    filter_drops(ids, keep, i);
    assert(s.mended(ids, b) == ids.filter(keep));
}

/// Trimming leaves no half round, where calls are named; it keeps only what
/// was there, and leaves alone what has no half round.
pub proof fn trimming_leaves_no_half_round(s: SessionState, ids: Seq<MessageId>)
    requires
        forall|i: int| 0 <= i < ids.len() ==> named_calls(#[trigger] s.messages_of(ids)[i]),
    ensures
        breach(s.messages_of(s.trimmed(ids)), s.recorded_messages()) is None,
        whole_rounds(s.messages_of(s.trimmed(ids)), s.recorded_messages()),
        breach(s.messages_of(ids), s.recorded_messages()) is None ==> s.trimmed(ids) == ids,
        forall|i: int| 0 <= i < s.trimmed(ids).len() ==> ids.contains(#[trigger] s.trimmed(ids)[i]),
    decreases ids.len(),
{
    trimmed_is_part(s, ids);
    match breach(s.messages_of(ids), s.recorded_messages()) {
        None => {},
        Some(b) => {
            let rest = s.mended(ids, b);
            mending_drops(s, ids, b);
            let shown = s.messages_of(ids);
            let keep = |id: MessageId|
                !exists|i: int| 0 <= i < ids.len() && ids[i] == id && #[trigger] drops(shown, b, i);
            filter_keeps(ids, keep);
            assert(rest == ids.filter(keep));
            assert forall|i: int| 0 <= i < rest.len() implies named_calls(
                #[trigger] s.messages_of(rest)[i],
            ) by {
                assert(rest.contains(rest[i]));
                let k = choose|k: int| 0 <= k < ids.len() && ids[k] == rest[i];
                assert(named_calls(s.messages_of(ids)[k]));
            }
            trimming_leaves_no_half_round(s, rest);
        },
    }
    what_passes_shows_whole_rounds(s.messages_of(s.trimmed(ids)), s.recorded_messages());
}

/// An edit never leaves half a round in the projection, where calls are
/// named.
pub proof fn an_edit_leaves_no_half_round(s: SessionState, ms: Seq<MessageView>)
    requires
        s.valid(),
        s.has_room(Op::Edit(ms)),
        forall|k: int| 0 <= k < ms.len() ==> named_calls(#[trigger] ms[k]),
    ensures
        breach(s.edited(ms).messages(), s.edited(ms).recorded_messages()) is None,
        whole_rounds(s.edited(ms).messages(), s.edited(ms).recorded_messages()),
{
    edit_walk_facts(s, ms);
    let (w, ids) = s.edit_walk(ms);
    assert forall|i: int| 0 <= i < ids.len() implies named_calls(
        #[trigger] w.messages_of(ids)[i],
    ) by {
        assert(w.messages_of(ids)[i].alike(ms[i]));
        assert(named_calls(ms[i]));
        equal_messages_name_the_same(w.messages_of(ids)[i], ms[i]);
    }
    trimming_leaves_no_half_round(w, ids);
    let kept = w.trimmed(ids);
    let t = s.edited(ms);
    assert(t.recorded_messages() =~= w.recorded_messages());
    assert(t.active == kept);
    assert(t.messages() =~= w.messages_of(kept));
}

/// A rollback never leaves half a round in the projection, where calls are
/// named.
pub proof fn a_rollback_leaves_no_half_round(s: SessionState, len: nat)
    requires
        s.valid(),
        len < s.active.len(),
        forall|k: int| 0 <= k < s.messages().len() ==> named_calls(#[trigger] s.messages()[k]),
    ensures
        breach(s.rolled_back(len).messages(), s.rolled_back(len).recorded_messages()) is None,
{
    let ids = s.active.take(len as int);
    assert forall|i: int| 0 <= i < ids.len() implies named_calls(
        #[trigger] s.messages_of(ids)[i],
    ) by {
        assert(s.messages_of(ids)[i] == s.messages()[i]);
    }
    trimming_leaves_no_half_round(s, ids);
    let kept = s.trimmed(ids);
    let t = s.rolled_back(len);
    assert(t.recorded_messages() =~= s.recorded_messages());
    assert(t.active == kept);
    assert(t.messages() =~= s.messages_of(kept));
}

// ── Trimming takes no more than it must ─────────────────────────────────────

/// Whether the messages at some places can stand by themselves: each call
/// made there that is answered in the records is answered there too; each
/// result there names a call, and every result that names that call follows a
/// message there that makes it; and none is both.
pub open spec fn stand_whole(
    shown: Seq<MessageView>,
    records: Seq<MessageView>,
    places: Set<int>,
) -> bool {
    &&& forall|i: int| #[trigger] places.contains(i) ==> 0 <= i < shown.len()
    &&& forall|i: int|
        #[trigger] places.contains(i) && shown[i].role == "tool"@ ==> shown[i].calls().len() == 0
            && shown[i].call_id is Some
    &&& forall|i: int, id: Seq<char>|
        #![trigger places.contains(i), shown[i].calls().contains(id)]
        places.contains(i) && shown[i].calls().contains(id) && answered_in(records, id) ==> exists|
            j: int,
        |
            #[trigger] places.contains(j) && shown[j].role == "tool"@ && shown[j].call_id == Some(
                id,
            )
    &&& forall|i: int, j: int|
        #![trigger places.contains(i), shown[j]]
        places.contains(i) && shown[i].role == "tool"@ && 0 <= j < shown.len() && shown[j].role
            == "tool"@ && shown[j].calls().len() == 0 && shown[j].call_id == shown[i].call_id
            ==> exists|k: int|
            k < j && #[trigger] places.contains(k) && shown[k].calls().contains(
                shown[i].call_id->0,
            )
}

/// The places of the elements a filter keeps.
spec fn kept_at<T>(s: Seq<T>, keep: spec_fn(T) -> bool) -> Seq<int>
    decreases s.len(),
{
    if s.len() == 0 {
        Seq::empty()
    } else if keep(s.last()) {
        kept_at(s.drop_last(), keep).push(s.len() - 1)
    } else {
        kept_at(s.drop_last(), keep)
    }
}

proof fn kept_at_holds<T>(s: Seq<T>, keep: spec_fn(T) -> bool)
    ensures
        ({
            let at = kept_at(s, keep);
            let part = s.filter(keep);
            &&& at.len() == part.len()
            &&& forall|i: int|
                0 <= i < at.len() ==> 0 <= #[trigger] at[i] < s.len() && part[i] == s[at[i]]
            &&& forall|i: int, j: int|
                #![trigger at[i], at[j]]
                0 <= i < j < at.len() ==> at[i] < at[j]
            &&& forall|k: int|
                0 <= k < s.len() && keep(#[trigger] s[k]) ==> exists|i: int|
                    0 <= i < at.len() && #[trigger] at[i] == k
        }),
    decreases s.len(),
{
    reveal(Seq::filter);
    if s.len() > 0 {
        let init = s.drop_last();
        kept_at_holds(init, keep);
        let at = kept_at(s, keep);
        let before = kept_at(init, keep);
        let part = s.filter(keep);
        assert forall|i: int| 0 <= i < at.len() implies 0 <= #[trigger] at[i] < s.len() && part[i]
            == s[at[i]] by {
            if i < before.len() {
                assert(at[i] == before[i]);
                assert(init[before[i]] == s[before[i]]);
            }
        }
        assert forall|i: int, j: int| #![trigger at[i], at[j]] 0 <= i < j < at.len() implies at[i]
            < at[j] by {
            assert(at[i] == before[i]);
            if j < before.len() {
                assert(at[j] == before[j]);
            }
        }
        assert forall|k: int| 0 <= k < s.len() && keep(#[trigger] s[k]) implies exists|i: int|
            0 <= i < at.len() && #[trigger] at[i] == k by {
            if k < init.len() {
                assert(init[k] == s[k]);
                let i = choose|i: int| 0 <= i < before.len() && #[trigger] before[i] == k;
                assert(at[i] == k);
            } else {
                assert(at[before.len() as int] == k);
            }
        }
    }
}

proof fn unanswered_is(calls: Seq<Seq<char>>, answered: Seq<Seq<char>>, records: Seq<MessageView>)
    ensures
        first_unanswered(calls, answered, records) matches Some(id) ==> !answered.contains(id)
            && answered_in(records, id),
    decreases calls.len(),
{
    if calls.len() > 0 {
        unanswered_is(calls.drop_last(), answered, records);
    }
}

proof fn unattributed_is(shown: Seq<MessageView>)
    ensures
        first_unattributed(shown) matches Some(i) ==> 0 <= i < shown.len() && shown[i].is_result()
            && shown[i].call_id is None,
    decreases shown.len(),
{
    if shown.len() > 0 {
        unattributed_is(shown.drop_last());
    }
}

/// Mending a breach drops nothing of what stands whole.
proof fn mending_spares(
    shown: Seq<MessageView>,
    records: Seq<MessageView>,
    places: Set<int>,
    b: BreachView,
    i: int,
)
    requires
        stand_whole(shown, records, places),
        breach(shown, records) == Some(b),
        places.contains(i),
    ensures
        !drops(shown, b, i),
{
    match b {
        BreachView::Orphan(id) => {
            if id.len() == 0 {
                unattributed_is(shown);
            } else if shown[i].is_result() && shown[i].call_id == Some(id) {
                let n = walk_stops_at(shown);
                walk_facts(shown.take(n));
                let k = choose|k: int|
                    k < n && #[trigger] places.contains(k) && shown[k].calls().contains(
                        shown[i].call_id->0,
                    );
                assert(calls_at(shown.take(n), k, id));
            }
        },
        BreachView::Unanswered(id) => {
            if shown[i].calls().contains(id) {
                walk_facts(shown);
                let w = walk(shown)->Ok_0;
                unanswered_is(w.declared, w.answered, records);
                let j = choose|j: int|
                    #[trigger] places.contains(j) && shown[j].role == "tool"@ && shown[j].call_id
                        == Some(id);
                assert(result_at(shown, j));
                assert(w.answered.contains(id));
            }
        },
    }
}

/// Trimming takes no more than it must: what can stand by itself stays.
pub proof fn trimming_spares_what_stands_whole(
    s: SessionState,
    ids: Seq<MessageId>,
    places: Set<int>,
)
    requires
        stand_whole(s.messages_of(ids), s.recorded_messages(), places),
    ensures
        forall|i: int| #[trigger] places.contains(i) ==> s.trimmed(ids).contains(ids[i]),
    decreases ids.len(),
{
    let shown = s.messages_of(ids);
    let records = s.recorded_messages();
    match breach(shown, records) {
        None => {
            assert forall|i: int| #[trigger] places.contains(i) implies s.trimmed(ids).contains(
                ids[i],
            ) by {
                assert(ids.contains(ids[i]));
            }
        },
        Some(b) => {
            let keep = |id: MessageId|
                !exists|i: int| 0 <= i < ids.len() && ids[i] == id && #[trigger] drops(shown, b, i);
            let rest = s.mended(ids, b);
            assert(rest == ids.filter(keep));
            assert forall|i: int| #[trigger] places.contains(i) implies keep(ids[i]) by {
                mending_spares(shown, records, places, b, i);
                if exists|j: int|
                    0 <= j < ids.len() && ids[j] == ids[i] && #[trigger] drops(shown, b, j) {
                    let j = choose|j: int|
                        0 <= j < ids.len() && ids[j] == ids[i] && #[trigger] drops(shown, b, j);
                    assert(shown[j] == shown[i]);
                    unattributed_is(shown);
                    assert(drops(shown, b, i));
                }
            }
            if rest.len() < ids.len() {
                let at = kept_at(ids, keep);
                kept_at_holds(ids, keep);
                let left = Set::new(
                    |i: int| 0 <= i < at.len() && places.contains(at[i]),
                );
                let now = s.messages_of(rest);
                assert forall|i: int| 0 <= i < at.len() implies now[i] == shown[#[trigger] at[i]] by {
                    assert(rest[i] == ids[at[i]]);
                }
                assert forall|k: int| #[trigger] places.contains(k) implies exists|i: int|
                    left.contains(i) && #[trigger] at[i] == k by {
                    assert(keep(ids[k]));
                    let i = choose|i: int| 0 <= i < at.len() && #[trigger] at[i] == k;
                    assert(left.contains(i));
                }
                whole_after_mending(shown, records, places, now, left, at);
                trimming_spares_what_stands_whole(s, rest, left);
                assert forall|k: int| #[trigger] places.contains(k) implies s.trimmed(
                    ids,
                ).contains(ids[k]) by {
                    let i = choose|i: int| left.contains(i) && #[trigger] at[i] == k;
                    assert(left.contains(i));
                    assert(rest[i] == ids[at[i]]);
                }
            } else {
                assert forall|i: int| #[trigger] places.contains(i) implies s.trimmed(
                    ids,
                ).contains(ids[i]) by {
                    assert(ids.contains(ids[i]));
                }
            }
        },
    }
}

/// What stands whole still does once other messages are gone.
proof fn whole_after_mending(
    shown: Seq<MessageView>,
    records: Seq<MessageView>,
    places: Set<int>,
    now: Seq<MessageView>,
    left: Set<int>,
    at: Seq<int>,
)
    requires
        stand_whole(shown, records, places),
        now.len() == at.len(),
        left == Set::new(|i: int| 0 <= i < at.len() && places.contains(at[i])),
        forall|i: int| 0 <= i < at.len() ==> 0 <= #[trigger] at[i] < shown.len(),
        forall|i: int| 0 <= i < at.len() ==> now[i] == shown[#[trigger] at[i]],
        forall|i: int, j: int|
            #![trigger at[i], at[j]]
            0 <= i < j < at.len() ==> at[i] < at[j],
        forall|k: int| #[trigger]
            places.contains(k) ==> exists|i: int| left.contains(i) && #[trigger] at[i] == k,
    ensures
        stand_whole(now, records, left),
{
    assert forall|i: int|
        #[trigger] left.contains(i) && now[i].role == "tool"@ implies now[i].calls().len() == 0
        && now[i].call_id is Some by {
        assert(places.contains(at[i]));
    }
    assert forall|i: int, id: Seq<char>|
        #![trigger left.contains(i), now[i].calls().contains(id)]
        left.contains(i) && now[i].calls().contains(id) && answered_in(records, id) implies exists|
        j: int,
    |
        #[trigger] left.contains(j) && now[j].role == "tool"@ && now[j].call_id == Some(id) by {
        assert(places.contains(at[i]));
        assert(shown[at[i]].calls().contains(id));
        let k = choose|k: int|
            #[trigger] places.contains(k) && shown[k].role == "tool"@ && shown[k].call_id == Some(
                id,
            );
        let j = choose|j: int| left.contains(j) && #[trigger] at[j] == k;
        assert(left.contains(j) && now[j] == shown[at[j]]);
    }
    assert forall|i: int, j: int|
        #![trigger left.contains(i), now[j]]
        left.contains(i) && now[i].role == "tool"@ && 0 <= j < now.len() && now[j].role == "tool"@
            && now[j].calls().len() == 0 && now[j].call_id == now[i].call_id implies exists|k: int|
        k < j && #[trigger] left.contains(k) && now[k].calls().contains(now[i].call_id->0) by {
        assert(places.contains(at[i]));
        assert(now[j] == shown[at[j]]);
        assert(now[i] == shown[at[i]]);
        let m = choose|m: int|
            m < at[j] && #[trigger] places.contains(m) && shown[m].calls().contains(
                shown[at[i]].call_id->0,
            );
        let k = choose|k: int| left.contains(k) && #[trigger] at[k] == m;
        assert(left.contains(k) && now[k] == shown[at[k]]);
        if k >= j {
            if k > j {
                assert(at[j] < at[k]);
            }
        }
    }
}

/// An edit trims no more than it has to. What of the edited list can stand by
/// itself is still shown after it: every tool round that is whole in the
/// edited list, and every message that is in no round.
pub proof fn an_edit_trims_no_more_than_it_must(
    s: SessionState,
    ms: Seq<MessageView>,
    places: Set<int>,
    i: int,
)
    requires
        s.valid(),
        s.has_room(Op::Edit(ms)),
        stand_whole(ms, s.edited(ms).recorded_messages(), places),
        places.contains(i),
    ensures
        s.edited(ms).active.contains(s.edit_walk(ms).1[i]),
        exists|k: int|
            0 <= k < s.edited(ms).messages().len() && (#[trigger] s.edited(ms).messages()[k]).alike(
                ms[i],
            ),
{
    edit_walk_facts(s, ms);
    let (w, ids) = s.edit_walk(ms);
    let t = s.edited(ms);
    let shown = w.messages_of(ids);
    assert(t.recorded_messages() =~= w.recorded_messages());
    assert(t.active == w.trimmed(ids));
    assert forall|k: int| 0 <= k < ms.len() implies #[trigger] shown[k].calls() == ms[k].calls()
        && shown[k].role == ms[k].role && shown[k].call_id == ms[k].call_id by {
        assert(shown[k].alike(ms[k]));
        equal_messages_call_alike(shown[k], ms[k]);
    }
    equal_lists_stand_alike(shown, ms, w.recorded_messages(), places);
    trimming_spares_what_stands_whole(w, ids, places);
    let k = choose|k: int| 0 <= k < t.active.len() && t.active[k] == ids[i];
    assert(t.messages()[k] == w.message_of(ids[i]));
    assert(shown[i].alike(ms[i]));
    assert(shown[i] == w.message_of(ids[i]));
}

proof fn equal_messages_call_alike(a: MessageView, b: MessageView)
    requires
        a.alike(b),
    ensures
        a.calls() == b.calls(),
{
    assert(a.calls() =~= b.calls());
}

proof fn equal_lists_stand_alike(
    shown: Seq<MessageView>,
    ms: Seq<MessageView>,
    records: Seq<MessageView>,
    places: Set<int>,
)
    requires
        stand_whole(ms, records, places),
        shown.len() == ms.len(),
        forall|k: int|
            0 <= k < ms.len() ==> #[trigger] shown[k].calls() == ms[k].calls() && shown[k].role
                == ms[k].role && shown[k].call_id == ms[k].call_id,
    ensures
        stand_whole(shown, records, places),
{
    assert forall|i: int|
        #[trigger] places.contains(i) && shown[i].role == "tool"@ implies shown[i].calls().len()
        == 0 && shown[i].call_id is Some by {
        assert(shown[i].calls() == ms[i].calls());
    }
    assert forall|i: int, id: Seq<char>|
        #![trigger places.contains(i), shown[i].calls().contains(id)]
        places.contains(i) && shown[i].calls().contains(id) && answered_in(records, id) implies exists|
        j: int,
    |
        #[trigger] places.contains(j) && shown[j].role == "tool"@ && shown[j].call_id == Some(
            id,
        ) by {
        assert(shown[i].calls() == ms[i].calls());
        assert(ms[i].calls().contains(id));
        let j = choose|j: int|
            #[trigger] places.contains(j) && ms[j].role == "tool"@ && ms[j].call_id == Some(id);
        assert(shown[j].calls() == ms[j].calls());
        assert(places.contains(j));
    }
    assert forall|i: int, j: int|
        #![trigger places.contains(i), shown[j]]
        places.contains(i) && shown[i].role == "tool"@ && 0 <= j < shown.len() && shown[j].role
            == "tool"@ && shown[j].calls().len() == 0 && shown[j].call_id == shown[i].call_id implies exists|
        k: int,
    |
        k < j && #[trigger] places.contains(k) && shown[k].calls().contains(
            shown[i].call_id->0,
        ) by {
        assert(shown[i].calls() == ms[i].calls());
        assert(shown[j].calls() == ms[j].calls());
        assert(ms[j].call_id == ms[i].call_id);
        let k = choose|k: int|
            k < j && #[trigger] places.contains(k) && ms[k].calls().contains(ms[i].call_id->0);
        assert(shown[k].calls() == ms[k].calls());
        assert(places.contains(k));
    }
}

/// A message that is in no round, neither a call nor a result, survives every
/// edit that leaves it.
pub proof fn words_survive_every_edit(s: SessionState, ms: Seq<MessageView>, i: int)
    requires
        s.valid(),
        s.has_room(Op::Edit(ms)),
        0 <= i < ms.len(),
        ms[i].calls().len() == 0,
        ms[i].role != "tool"@,
    ensures
        s.edited(ms).active.contains(s.edit_walk(ms).1[i]),
        exists|k: int|
            0 <= k < s.edited(ms).messages().len() && (#[trigger] s.edited(ms).messages()[k]).alike(
                ms[i],
            ),
{
    let places = Set::new(
        |k: int| 0 <= k < ms.len() && ms[k].calls().len() == 0 && ms[k].role != "tool"@,
    );
    assert(stand_whole(ms, s.edited(ms).recorded_messages(), places));
    an_edit_trims_no_more_than_it_must(s, ms, places, i);
}

/// A call and the results that answer it stay together through an edit that
/// leaves them all: where one message makes calls, each answered once after
/// it by a result that names it, and nothing else in the list answers one of
/// them, the whole round is still shown.
pub proof fn a_whole_round_survives_every_edit(
    s: SessionState,
    ms: Seq<MessageView>,
    call: int,
    i: int,
)
    requires
        s.valid(),
        s.has_room(Op::Edit(ms)),
        0 <= call < ms.len(),
        ms[call].role != "tool"@,
        forall|id: Seq<char>| #[trigger]
            ms[call].calls().contains(id) ==> exists|j: int|
                call < j < ms.len() && (#[trigger] ms[j]).role == "tool"@ && ms[j].calls().len() == 0
                    && ms[j].call_id == Some(id),
        forall|j: int|
            0 <= j <= call && (#[trigger] ms[j]).role == "tool"@ ==> ms[j].call_id is None
                || !ms[call].calls().contains(ms[j].call_id->0),
        i == call || (call < i < ms.len() && ms[i].role == "tool"@ && ms[i].calls().len() == 0
            && ms[i].call_id is Some && ms[call].calls().contains(ms[i].call_id->0)),
    ensures
        s.edited(ms).active.contains(s.edit_walk(ms).1[i]),
{
    let places = Set::new(
        |k: int|
            k == call || (call < k < ms.len() && ms[k].role == "tool"@ && ms[k].calls().len() == 0
                && ms[k].call_id is Some && ms[call].calls().contains(ms[k].call_id->0)),
    );
    let records = s.edited(ms).recorded_messages();
    assert(places.contains(call));
    assert forall|k: int, id: Seq<char>|
        #![trigger places.contains(k), ms[k].calls().contains(id)]
        places.contains(k) && ms[k].calls().contains(id) && answered_in(records, id) implies exists|
        j: int,
    |
        #[trigger] places.contains(j) && ms[j].role == "tool"@ && ms[j].call_id == Some(id) by {
        let j = choose|j: int|
            call < j < ms.len() && (#[trigger] ms[j]).role == "tool"@ && ms[j].calls().len() == 0
                && ms[j].call_id == Some(id);
        assert(places.contains(j));
    }
    assert(stand_whole(ms, records, places));
    an_edit_trims_no_more_than_it_must(s, ms, places, i);
}

// ── What a breach says ──────────────────────────────────────────────────────

/// A breach names the call it is about: a result is shown that names it and
/// that no message before makes, or the call is shown and answered in the
/// records, and no result that is shown names it.
pub proof fn a_breach_names_its_call(shown: Seq<MessageView>, records: Seq<MessageView>)
    ensures
        match breach(shown, records) {
            Some(BreachView::Orphan(id)) => exists|n: int|
                0 <= n < shown.len() && (#[trigger] shown[n]).role == "tool"@
                    && shown[n].calls().len() == 0 && (shown[n].call_id == Some(id) || (
                shown[n].call_id is None && id.len() == 0)) && (shown[n].call_id is Some ==> forall|
                    k: int,
                |
                    0 <= k < n ==> !(#[trigger] shown[k]).calls().contains(id)),
            Some(BreachView::Unanswered(id)) => {
                &&& exists|k: int| 0 <= k < shown.len() && (#[trigger] shown[k]).calls().contains(id)
                &&& exists|r: int|
                    0 <= r < records.len() && (#[trigger] records[r]).role == "tool"@
                        && records[r].call_id == Some(id)
                &&& forall|n: int|
                    0 <= n < shown.len() && (#[trigger] shown[n]).role == "tool"@
                        && shown[n].calls().len() == 0 ==> shown[n].call_id != Some(id)
            },
            None => true,
        },
{
    match breach(shown, records) {
        Some(BreachView::Orphan(id)) => {
            let n = walk_stops_at(shown);
            let before = shown.take(n);
            walk_facts(before);
            let w = walk(before)->Ok_0;
            assert(shown[n].role == "tool"@);
            if shown[n].call_id is Some {
                assert forall|k: int| 0 <= k < n implies !(#[trigger] shown[k]).calls().contains(
                    id,
                ) by {
                    if shown[k].calls().contains(id) {
                        assert(calls_at(before, k, id));
                        assert(w.declared.contains(id));
                    }
                }
            }
        },
        Some(BreachView::Unanswered(id)) => {
            walk_facts(shown);
            let w = walk(shown)->Ok_0;
            none_unanswered(w.declared, w.answered, records);
            unanswered_is(w.declared, w.answered, records);
            let k = choose|k: int| calls_at(shown, k, id);
            assert(shown[k].calls().contains(id));
            assert forall|n: int|
                0 <= n < shown.len() && (#[trigger] shown[n]).role == "tool"@
                    && shown[n].calls().len() == 0 implies shown[n].call_id != Some(id) by {
                if shown[n].call_id == Some(id) {
                    assert(result_at(shown, n));
                    assert(w.answered.contains(id));
                }
            }
        },
        None => {},
    }
}

/// Results that name no call answer the calls of the message before them one
/// by one, in the order the calls were made.
pub proof fn unnamed_results_answer_in_order(
    shown: Seq<MessageView>,
    m: MessageView,
    results: Seq<MessageView>,
)
    requires
        walk(shown) is Ok,
        m.calls().len() >= results.len(),
        m.calls().len() > 0,
        forall|i: int|
            0 <= i < results.len() ==> (#[trigger] results[i]).role == "tool"@
                && results[i].calls().len() == 0 && results[i].call_id is None,
    ensures
        ({
            let all = shown.push(m) + results;
            let n = results.len() as int;
            &&& walk(all) is Ok
            &&& walk(all)->Ok_0.answered == walk(shown)->Ok_0.answered + m.calls().take(n)
            &&& walk(all)->Ok_0.declared == walk(shown)->Ok_0.declared + m.calls()
            &&& walk(all)->Ok_0.open == m.calls().skip(n)
        }),
    decreases results.len(),
{
    let all = shown.push(m) + results;
    let n = results.len() as int;
    let first = shown.push(m);
    assert(first.drop_last() =~= shown);
    if n == 0 {
        assert(all =~= first);
        assert(walk(shown)->Ok_0.answered + m.calls().take(0) =~= walk(shown)->Ok_0.answered);
        assert(m.calls().skip(0) =~= m.calls());
    } else {
        let short = results.drop_last();
        assert forall|i: int| 0 <= i < short.len() implies (#[trigger] short[i]).role == "tool"@
            && short[i].calls().len() == 0 && short[i].call_id is None by {
            assert(short[i] == results[i]);
        }
        unnamed_results_answer_in_order(shown, m, short);
        assert(all.drop_last() =~= first + short);
        assert(all.last() == results[n - 1]);
        let calls = m.calls();
        assert(calls.skip(n - 1)[0] == calls[n - 1]);
        assert(calls.skip(n - 1).drop_first() =~= calls.skip(n));
        assert((walk(shown)->Ok_0.answered + calls.take(n - 1)).push(calls[n - 1]) =~= walk(
            shown,
        )->Ok_0.answered + calls.take(n));
    }
}

/// A result that names a shown call answers that call and closes it, whatever
/// else is open; the other open calls stay open.
pub proof fn a_named_result_closes_its_call(
    shown: Seq<MessageView>,
    m: MessageView,
    id: Seq<char>,
)
    requires
        walk(shown) is Ok,
        walk(shown)->Ok_0.declared.contains(id),
        m.role == "tool"@,
        m.calls().len() == 0,
        m.call_id == Some(id),
    ensures
        ({
            let before = walk(shown)->Ok_0;
            let after = walk(shown.push(m));
            &&& after is Ok
            &&& after->Ok_0.answered == before.answered.push(id)
            &&& after->Ok_0.declared == before.declared
            &&& !after->Ok_0.open.contains(id)
            &&& forall|other: Seq<char>|
                other != id ==> (#[trigger] after->Ok_0.open.contains(other)
                    <==> before.open.contains(other))
        }),
{
    assert(shown.push(m).drop_last() =~= shown);
    without_contains(walk(shown)->Ok_0.open, id);
}

/// A message that neither calls nor answers changes nothing of what is open.
pub proof fn words_open_and_close_nothing(shown: Seq<MessageView>, m: MessageView)
    requires
        m.role != "tool"@,
        m.calls().len() == 0,
    ensures
        walk(shown.push(m)) == walk(shown),
        open_after(shown.push(m)) == open_after(shown),
{
    assert(shown.push(m).drop_last() =~= shown);
}

/// What mending takes to be open is what reading finds open, wherever every
/// result answers something.
pub proof fn mending_reads_alike(shown: Seq<MessageView>)
    requires
        walk(shown) is Ok,
    ensures
        open_after(shown) == walk(shown)->Ok_0.open,
    decreases shown.len(),
{
    if shown.len() > 0 {
        mending_reads_alike(shown.drop_last());
    }
}

/// Where a result names no call and answers none, the first such result goes:
/// one for which no call is open, or the first open call has no id to be
/// named by.
pub proof fn which_unnamed_result_goes(shown: Seq<MessageView>, i: int)
    requires
        0 <= i < shown.len(),
    ensures
        drops(shown, BreachView::Orphan(Seq::empty()), i) <==> {
            &&& unnamed_and_unasked(shown, i)
            &&& forall|k: int| 0 <= k < i ==> !#[trigger] unnamed_and_unasked(shown, k)
        },
{
    the_first_goes(shown);
}

/// Whether a message is a result without a call id, for which no call with an
/// id is the first that is open.
pub open spec fn unnamed_and_unasked(shown: Seq<MessageView>, i: int) -> bool {
    let open = open_after(shown.take(i));
    &&& shown[i].role == "tool"@
    &&& shown[i].calls().len() == 0
    &&& shown[i].call_id is None
    &&& open.len() == 0 || open[0].len() == 0
}

proof fn the_first_goes(shown: Seq<MessageView>)
    ensures
        match first_unattributed(shown) {
            Some(i) => 0 <= i < shown.len() && unnamed_and_unasked(shown, i) && forall|k: int|
                0 <= k < i ==> !#[trigger] unnamed_and_unasked(shown, k),
            None => forall|k: int|
                0 <= k < shown.len() ==> !#[trigger] unnamed_and_unasked(shown, k),
        },
    decreases shown.len(),
{
    if shown.len() > 0 {
        let init = shown.drop_last();
        the_first_goes(init);
        assert forall|k: int| 0 <= k < init.len() implies #[trigger] unnamed_and_unasked(init, k)
            == unnamed_and_unasked(shown, k) by {
            assert(init.take(k) =~= shown.take(k));
            assert(init[k] == shown[k]);
        }
        let last = shown.len() - 1;
        assert(unattributed(shown, last) == unnamed_and_unasked(shown, last));
        match first_unattributed(init) {
            Some(i) => {
                assert(unnamed_and_unasked(init, i));
                assert forall|k: int| 0 <= k < i implies !#[trigger] unnamed_and_unasked(
                    shown,
                    k,
                ) by {
                    assert(!unnamed_and_unasked(init, k));
                }
            },
            None => {
                assert forall|k: int| 0 <= k < init.len() implies !#[trigger] unnamed_and_unasked(
                    shown,
                    k,
                ) by {
                    assert(!unnamed_and_unasked(init, k));
                }
            },
        }
    }
}

proof fn equal_lists_are_read_alike(a: Seq<MessageView>, b: Seq<MessageView>)
    requires
        a.len() == b.len(),
        forall|k: int|
            0 <= k < a.len() ==> (#[trigger] a[k]).calls() == b[k].calls() && a[k].role == b[k].role
                && a[k].call_id == b[k].call_id,
    ensures
        walk(a) == walk(b),
    decreases a.len(),
{
    if a.len() > 0 {
        let x = a.drop_last();
        let y = b.drop_last();
        assert forall|k: int| 0 <= k < x.len() implies (#[trigger] x[k]).calls() == y[k].calls()
            && x[k].role == y[k].role && x[k].call_id == y[k].call_id by {
            assert(x[k] == a[k] && y[k] == b[k]);
        }
        equal_lists_are_read_alike(x, y);
        assert(a[a.len() - 1] == a.last() && b[b.len() - 1] == b.last());
    }
}

/// An edit that breaks no round shows what the caller made of the messages:
/// all of them, and in that order.
pub proof fn an_edit_shows_what_was_made_of_it(s: SessionState, ms: Seq<MessageView>)
    requires
        s.valid(),
        s.has_room(Op::Edit(ms)),
        breach(ms, s.edited(ms).recorded_messages()) is None,
    ensures
        s.edited(ms).messages().len() == ms.len(),
        forall|i: int|
            0 <= i < ms.len() ==> (#[trigger] s.edited(ms).messages()[i]).alike(ms[i]),
        !s.edited(ms).opened,
{
    edit_walk_facts(s, ms);
    let (w, ids) = s.edit_walk(ms);
    let t = s.edited(ms);
    let shown = w.messages_of(ids);
    assert(t.recorded_messages() =~= w.recorded_messages());
    assert forall|k: int| 0 <= k < shown.len() implies (#[trigger] shown[k]).calls()
        == ms[k].calls() && shown[k].role == ms[k].role && shown[k].call_id == ms[k].call_id by {
        assert(shown[k].alike(ms[k]));
        equal_messages_call_alike(shown[k], ms[k]);
    }
    equal_lists_are_read_alike(shown, ms);
    assert(t.active == ids);
    assert(t.messages() =~= shown);
}

/// Of several breaches the first is told: the first result that answers
/// nothing, and else the earliest call whose result is left out.
pub proof fn the_first_breach_is_told(
    shown: Seq<MessageView>,
    more: Seq<MessageView>,
    calls: Seq<Seq<char>>,
    later: Seq<Seq<char>>,
    answered: Seq<Seq<char>>,
    records: Seq<MessageView>,
)
    ensures
        walk(shown) is Err ==> walk(shown + more) == walk(shown),
        walk(shown) is Err ==> breach(shown + more, records) == breach(shown, records),
        first_unanswered(calls, answered, records) is Some ==> first_unanswered(
            calls + later,
            answered,
            records,
        ) == first_unanswered(calls, answered, records),
    decreases more.len() + later.len(),
{
    if more.len() == 0 {
        assert(shown + more =~= shown);
    }
    if later.len() == 0 {
        assert(calls + later =~= calls);
    }
    if more.len() > 0 {
        the_first_breach_is_told(shown, more.drop_last(), calls, later, answered, records);
        assert((shown + more).drop_last() =~= shown + more.drop_last());
    } else if later.len() > 0 {
        the_first_breach_is_told(shown, more, calls, later.drop_last(), answered, records);
        assert((calls + later).drop_last() =~= calls + later.drop_last());
    }
}

} // verus!
