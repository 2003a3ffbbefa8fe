//! Facts about [`SessionState`] that the operations and the laws rest on.
use vstd::prelude::*;
use crate::matching::{kept_places, kept_places_facts};
use crate::message::MessageView;
use crate::seqs::{filter_keeps, first_at, first_at_is_first, without_contains};
use crate::rounds::{breach, drops, BreachView};
use crate::session_model::{
    context_events, id_run, slot_of, EventView, MessageId, RecordView, SessionState,
};

verus! {

/// The slot of an id holds a record with that id.
pub proof fn slot_holds(records: Seq<RecordView>, id: MessageId)
    ensures
        slot_of(records, id) matches Some(i) ==> 0 <= i < records.len() && records[i].id == id,
    decreases records.len(),
{
    if records.len() > 0 && records.last().id != id {
        slot_holds(records.drop_last(), id);
    }
}

/// Every id among the records has a slot.
pub proof fn slot_exists(records: Seq<RecordView>, i: int)
    requires
        0 <= i < records.len(),
    ensures
        slot_of(records, records[i].id) is Some,
    decreases records.len(),
{
    if i < records.len() - 1 {
        slot_exists(records.drop_last(), i);
    }
}

/// One more record takes over its id's slot and leaves the others.
pub proof fn slot_push(records: Seq<RecordView>, r: RecordView, id: MessageId)
    ensures
        slot_of(records.push(r), id) == if r.id == id {
            Some(records.len() as int)
        } else {
            slot_of(records, id)
        },
{
    assert(records.push(r).drop_last() =~= records);
}

/// Marking a record as replaced moves no slot.
pub proof fn slot_marked(records: Seq<RecordView>, i: int, r: RecordView, id: MessageId)
    requires
        0 <= i < records.len(),
        r.id == records[i].id,
    ensures
        slot_of(records.update(i, r), id) == slot_of(records, id),
    decreases records.len(),
{
    let after = records.update(i, r);
    if i < records.len() - 1 {
        assert(after.drop_last() =~= records.drop_last().update(i, r));
        slot_marked(records.drop_last(), i, r, id);
    } else {
        assert(after.drop_last() =~= records.drop_last());
    }
}

/// A known id is below the counter, so the next one is not known yet.
pub proof fn known_is_below(s: SessionState, id: MessageId)
    requires
        s.valid(),
        s.knows(id),
    ensures
        id.0 < s.next_id,
        s.next_id < u64::MAX ==> id != s.fresh(),
{
    slot_holds(s.records, id);
}

/// Minting leaves what known ids name as it was, and makes the new id known.
pub proof fn mint_keeps(s: SessionState, m: MessageView, id: MessageId)
    requires
        s.valid(),
        s.next_id < u64::MAX,
    ensures
        s.knows(id) ==> s.minted(m).knows(id) && s.minted(m).message_of(id) == s.message_of(id),
        s.minted(m).knows(s.fresh()),
        s.minted(m).message_of(s.fresh()) == m,
        s.minted(m).knows(id) ==> s.knows(id) || id == s.fresh(),
{
    let r = RecordView { id: s.fresh(), message: m, replaced_by: None };
    slot_push(s.records, r, id);
    slot_push(s.records, r, s.fresh());
    slot_holds(s.records, id);
    if s.knows(id) {
        known_is_below(s, id);
    }
}

/// Minting leaves the messages of known ids as they were.
pub proof fn mint_keeps_messages(s: SessionState, m: MessageView, ids: Seq<MessageId>)
    requires
        s.valid(),
        s.next_id < u64::MAX,
        forall|i: int| 0 <= i < ids.len() ==> s.knows(#[trigger] ids[i]),
    ensures
        s.minted(m).messages_of(ids) == s.messages_of(ids),
        forall|i: int| 0 <= i < ids.len() ==> s.minted(m).knows(#[trigger] ids[i]),
{
    assert forall|i: int| 0 <= i < ids.len() implies s.minted(m).messages_of(ids)[i]
        == s.messages_of(ids)[i] && s.minted(m).knows(ids[i]) by {
        mint_keeps(s, m, ids[i]);
    }
    assert(s.minted(m).messages_of(ids) =~= s.messages_of(ids));
    assert forall|i: int| 0 <= i < ids.len() implies s.minted(m).knows(#[trigger] ids[i]) by {
        mint_keeps(s, m, ids[i]);
    }
}

/// Minting keeps the standing invariant.
pub proof fn mint_valid(s: SessionState, m: MessageView)
    requires
        s.valid(),
        s.next_id < u64::MAX,
    ensures
        s.minted(m).valid(),
{
    mint_keeps_messages(s, m, s.active);
    let t = s.minted(m);
    assert forall|i: int| 0 <= i < t.records.len() implies (#[trigger] t.records[i]).id.0
        < t.next_id by {
        if i < s.records.len() {
            assert(t.records[i] == s.records[i]);
        }
    }
}

/// Logging keeps the standing invariant.
pub proof fn log_valid(s: SessionState, e: EventView)
    requires
        s.valid(),
    ensures
        s.logged(e).valid(),
        s.logged(e).messages() == s.messages(),
{
    assert(s.logged(e).events.drop_last() =~= s.events);
    assert forall|i: int| 0 <= i < s.active.len() implies s.logged(e).knows(
        #[trigger] s.active[i],
    ) by {
        assert(s.knows(s.active[i]));
    }
    assert(s.logged(e).messages() =~= s.messages());
}

/// Pushing keeps the standing invariant and appends one message.
pub proof fn push_valid(s: SessionState, m: MessageView)
    requires
        s.valid(),
        s.next_id < u64::MAX,
    ensures
        s.pushed(m).valid(),
        s.pushed(m).messages() == s.messages().push(m),
{
    mint_valid(s, m);
    mint_keeps_messages(s, m, s.active);
    mint_keeps(s, m, s.fresh());
    let t = SessionState { active: s.active.push(s.fresh()), ..s.minted(m) };
    assert forall|i: int| 0 <= i < t.active.len() implies t.knows(#[trigger] t.active[i])
        && t.message_of(t.active[i]) == s.messages().push(m)[i] by {
        if i < s.active.len() {
            assert(t.active[i] == s.active[i]);
            mint_keeps(s, m, s.active[i]);
        }
    }
    assert(t.messages() =~= s.messages().push(m));
    log_valid(t, EventView::MessageAdded(s.fresh(), m));
}

/// Events count for no more than there are.
pub proof fn context_events_bound(events: Seq<EventView>)
    ensures
        context_events(events) <= events.len(),
    decreases events.len(),
{
    if events.len() > 0 {
        context_events_bound(events.drop_last());
    }
}

/// Recording keeps the standing invariant and what known ids name.
pub proof fn record_valid(s: SessionState, m: MessageView)
    requires
        s.valid(),
        s.next_id < u64::MAX,
    ensures
        s.recorded(m).valid(),
        s.recorded(m).messages() == s.messages(),
        s.recorded(m).active == s.active,
        s.recorded(m).next_id == s.next_id + 1,
        s.recorded(m).knows(s.fresh()),
        s.recorded(m).message_of(s.fresh()) == m,
{
    mint_valid(s, m);
    mint_keeps_messages(s, m, s.active);
    mint_keeps(s, m, s.fresh());
    log_valid(s.minted(m), EventView::MessageRecorded(s.fresh(), m));
    assert(s.recorded(m).records == s.minted(m).records);
}

/// Recording leaves what a known id names.
pub proof fn record_keeps(s: SessionState, m: MessageView, id: MessageId)
    requires
        s.valid(),
        s.next_id < u64::MAX,
    ensures
        s.knows(id) ==> s.recorded(m).knows(id) && s.recorded(m).message_of(id) == s.message_of(id),
        s.recorded(m).knows(id) ==> s.knows(id) || id == s.fresh(),
{
    mint_keeps(s, m, id);
    assert(s.recorded(m).records == s.minted(m).records);
}

/// Recording several messages: the counter moves by as many, the new ids
/// name the messages in order, and the rest stays.
pub proof fn record_all_facts(s: SessionState, ms: Seq<MessageView>)
    requires
        s.valid(),
        s.next_id + ms.len() <= u64::MAX,
    ensures
        s.recorded_all(ms).valid(),
        s.recorded_all(ms).next_id == s.next_id + ms.len(),
        s.recorded_all(ms).active == s.active,
        s.recorded_all(ms).messages() == s.messages(),
        s.recorded_all(ms).messages_of(id_run(s.next_id, ms.len())) == ms,
        forall|i: int|
            0 <= i < ms.len() ==> s.recorded_all(ms).knows(
                #[trigger] id_run(s.next_id, ms.len())[i],
            ),
        forall|id: MessageId|
            s.knows(id) ==> #[trigger] s.recorded_all(ms).knows(id) && s.recorded_all(
                ms,
            ).message_of(id) == s.message_of(id),
    decreases ms.len(),
{
    if ms.len() > 0 {
        let init = ms.drop_last();
        let t = s.recorded_all(init);
        record_all_facts(s, init);
        record_valid(t, ms.last());
        let u = t.recorded(ms.last());
        assert forall|id: MessageId| t.knows(id) implies u.knows(id) && u.message_of(id)
            == t.message_of(id) by {
            record_keeps(t, ms.last(), id);
        }
        let run = id_run(s.next_id, ms.len());
        let before = id_run(s.next_id, init.len());
        assert(run =~= before.push(t.fresh()));
        assert forall|i: int| 0 <= i < ms.len() implies u.knows(#[trigger] run[i]) && u.message_of(
            run[i],
        ) == ms[i] by {
            if i < init.len() {
                assert(run[i] == before[i]);
                assert(t.knows(before[i]));
                assert(t.messages_of(before)[i] == init[i]);
            }
        }
        assert(u.messages_of(run) =~= ms);
        assert forall|id: MessageId| s.knows(id) implies #[trigger] s.recorded_all(ms).knows(id)
            && s.recorded_all(ms).message_of(id) == s.message_of(id) by {
            assert(t.knows(id));
        }
        assert(u.messages() == t.messages());
    } else {
        assert(s.messages_of(id_run(s.next_id, 0)) =~= ms);
    }
}

/// Replacing the projection by known ids keeps the standing invariant.
pub proof fn with_active_valid(
    s: SessionState,
    active: Seq<MessageId>,
    reason: Seq<char>,
    close: bool,
)
    requires
        s.valid(),
        forall|i: int| 0 <= i < active.len() ==> s.knows(#[trigger] active[i]),
    ensures
        s.with_active(active, reason, close).valid(),
        s.with_active(active, reason, close).active == active,
        s.with_active(active, reason, close).messages() == s.messages_of(active),
        s.with_active(active, reason, close).records == s.records,
{
    if active != s.active {
        let t = SessionState { active, opened: s.opened && !close, ..s };
        assert forall|i: int| 0 <= i < active.len() implies t.knows(#[trigger] active[i]) by {
            assert(s.knows(active[i]));
        }
        assert(t.messages() =~= s.messages_of(active));
        log_valid(t, EventView::ContextReplaced(active, Some(reason)));
    }
}

/// Mending keeps only ids that were there.
pub proof fn mended_is_part(s: SessionState, ids: Seq<MessageId>, b: BreachView)
    ensures
        s.mended(ids, b).len() <= ids.len(),
        forall|i: int|
            0 <= i < s.mended(ids, b).len() ==> ids.contains(#[trigger] s.mended(ids, b)[i]),
{
    let shown = s.messages_of(ids);
    let keep = |id: MessageId|
        !exists|i: int| 0 <= i < ids.len() && ids[i] == id && #[trigger] drops(shown, b, i);
    filter_keeps(ids, keep);
    assert(s.mended(ids, b) == ids.filter(keep));
    assert forall|i: int| 0 <= i < s.mended(ids, b).len() implies ids.contains(
        #[trigger] s.mended(ids, b)[i],
    ) by {
        assert(ids.filter(keep).contains(ids.filter(keep)[i]));
    }
}

/// Trimming keeps only ids that were there.
pub proof fn trimmed_is_part(s: SessionState, ids: Seq<MessageId>)
    ensures
        s.trimmed(ids).len() <= ids.len(),
        forall|i: int| 0 <= i < s.trimmed(ids).len() ==> ids.contains(#[trigger] s.trimmed(ids)[i]),
    decreases ids.len(),
{
    match breach(s.messages_of(ids), s.recorded_messages()) {
        None => {},
        Some(b) => {
            let rest = s.mended(ids, b);
            mended_is_part(s, ids, b);
            if rest.len() < ids.len() {
                trimmed_is_part(s, rest);
                assert forall|i: int| 0 <= i < s.trimmed(ids).len() implies ids.contains(
                    #[trigger] s.trimmed(ids)[i],
                ) by {
                    assert(rest.contains(s.trimmed(rest)[i]));
                    let k = choose|k: int| 0 <= k < rest.len() && rest[k] == s.trimmed(rest)[i];
                    assert(ids.contains(rest[k]));
                }
            }
        },
    }
}

/// What an edit's walk has built after `n` messages: as many ids, all known,
/// naming equal messages; and the counter moved by at most as many.
pub proof fn edit_steps_facts(s: SessionState, ms: Seq<MessageView>, n: nat)
    requires
        s.valid(),
        n <= ms.len(),
        s.next_id + n <= u64::MAX,
    ensures
        s.edit_steps(ms, n).0.valid(),
        s.edit_steps(ms, n).0.active == s.active,
        s.edit_steps(ms, n).0.messages() == s.messages(),
        s.edit_steps(ms, n).0.next_id <= s.next_id + n,
        s.edit_steps(ms, n).1.len() == n,
        forall|i: int|
            0 <= i < n ==> s.edit_steps(ms, n).0.knows(#[trigger] s.edit_steps(ms, n).1[i]),
        forall|i: int|
            0 <= i < n ==> (#[trigger] s.edit_steps(ms, n).0.message_of(
                s.edit_steps(ms, n).1[i],
            )).alike(ms[i]),
        forall|id: MessageId|
            s.knows(id) ==> #[trigger] s.edit_steps(ms, n).0.knows(id) && s.edit_steps(
                ms,
                n,
            ).0.message_of(id) == s.message_of(id),
    decreases n,
{
    let shown = s.messages();
    if n > 0 {
        let before = (n - 1) as nat;
        edit_steps_facts(s, ms, before);
        let (t, ids) = s.edit_steps(ms, before);
        let m = ms[before as int];
        kept_places_facts(shown, ms);
        match kept_places(shown, ms)[before as int] {
            Some(k) => {
                let all = ids.push(s.active[k]);
                assert(s.knows(s.active[k]));
                assert(t.knows(s.active[k]));
                assert(s.messages()[k] == s.message_of(s.active[k]));
                assert forall|i: int| 0 <= i < n implies t.knows(#[trigger] all[i])
                    && t.message_of(all[i]).alike(ms[i]) by {
                    if i < before {
                        assert(t.knows(ids[i]));
                        assert(t.message_of(ids[i]).alike(ms[i]));
                    }
                }
                assert(s.edit_steps(ms, n) == (t, all));
            },
            None => {
                let u = t.recorded(m);
                let all = ids.push(t.fresh());
                record_valid(t, m);
                assert forall|id: MessageId| #[trigger] t.knows(id) implies u.knows(id)
                    && u.message_of(id) == t.message_of(id) by {
                    record_keeps(t, m, id);
                }
                assert forall|i: int| 0 <= i < n implies u.knows(#[trigger] all[i])
                    && u.message_of(all[i]).alike(ms[i]) by {
                    if i < before {
                        assert(t.knows(ids[i]));
                        assert(t.message_of(ids[i]).alike(ms[i]));
                    }
                }
                assert forall|id: MessageId| s.knows(id) implies #[trigger] u.knows(id)
                    && u.message_of(id) == s.message_of(id) by {
                    assert(t.knows(id));
                }
                assert(s.edit_steps(ms, n) == (u, all));
            },
        }
        let w = s.edit_steps(ms, n).0;
        assert forall|id: MessageId| s.knows(id) implies #[trigger] w.knows(id) && w.message_of(id)
            == s.message_of(id) by {
            assert(t.knows(id) && t.message_of(id) == s.message_of(id));
        }
    } else {
        assert(s.edit_steps(ms, n).0 == s);
    }
}

/// What an edit's walk has built: as many ids as messages, all known, naming
/// equal messages; the counter moved by at most as many.
pub proof fn edit_walk_facts(s: SessionState, ms: Seq<MessageView>)
    requires
        s.valid(),
        s.next_id + ms.len() <= u64::MAX,
    ensures
        s.edit_walk(ms).0.valid(),
        s.edit_walk(ms).0.active == s.active,
        s.edit_walk(ms).0.messages() == s.messages(),
        s.edit_walk(ms).0.next_id <= s.next_id + ms.len(),
        s.edit_walk(ms).1.len() == ms.len(),
        forall|i: int|
            0 <= i < ms.len() ==> s.edit_walk(ms).0.knows(#[trigger] s.edit_walk(ms).1[i]),
        s.edit_walk(ms).0.messages_of(s.edit_walk(ms).1).len() == ms.len(),
        forall|i: int|
            0 <= i < ms.len() ==> (#[trigger] s.edit_walk(ms).0.messages_of(
                s.edit_walk(ms).1,
            )[i]).alike(ms[i]),
        forall|id: MessageId|
            s.knows(id) ==> #[trigger] s.edit_walk(ms).0.knows(id) && s.edit_walk(ms).0.message_of(
                id,
            ) == s.message_of(id),
{
    edit_steps_facts(s, ms, ms.len());
    let (w, ids) = s.edit_walk(ms);
    assert forall|i: int| 0 <= i < ms.len() implies (#[trigger] w.messages_of(ids)[i]).alike(
        ms[i],
    ) by {
        assert(w.messages_of(ids)[i] == w.message_of(ids[i]));
    }
}

/// Replacing keeps the standing invariant and puts the new message in the
/// old one's place.
pub proof fn replaced_valid(s: SessionState, old_id: MessageId, m: MessageView)
    requires
        s.valid(),
        s.next_id < u64::MAX,
        s.slot_refusal(old_id) is None,
    ensures
        s.replaced(old_id, m).valid(),
        s.replaced(old_id, m).messages() == s.messages().update(first_at(s.active, old_id)->0, m),
        s.replaced(old_id, m).recorded_messages() == s.recorded_messages().push(m),
{
    let minted = s.minted(m);
    let new = s.fresh();
    let slot = slot_of(s.records, old_id)->0;
    let at = first_at(s.active, old_id)->0;
    slot_holds(s.records, old_id);
    first_at_is_first(s.active, old_id);
    mint_valid(s, m);
    let marked = RecordView { replaced_by: Some(new), ..minted.records[slot] };
    let records = minted.records.update(slot, marked);
    let mid = SessionState {
        records,
        active: s.active.update(at, new),
        opened: false,
        ..minted
    };
    assert(minted.records[slot] == s.records[slot]);
    assert forall|id: MessageId| minted.knows(id) implies mid.knows(id) && mid.message_of(id)
        == minted.message_of(id) by {
        slot_marked(minted.records, slot, marked, id);
        slot_holds(minted.records, id);
    }
    assert forall|i: int| 0 <= i < mid.active.len() implies mid.knows(#[trigger] mid.active[i])
        && mid.message_of(mid.active[i]) == s.messages().update(at, m)[i] by {
        if i == at {
            mint_keeps(s, m, new);
        } else {
            assert(s.knows(s.active[i]));
            mint_keeps(s, m, s.active[i]);
        }
    }
    assert(mid.messages() =~= s.messages().update(at, m));
    assert forall|i: int| 0 <= i < records.len() implies (#[trigger] records[i]).id.0
        < mid.next_id by {
        assert(minted.records[i].id.0 < minted.next_id);
    }
    assert(mid.revision == context_events(mid.events));
    log_valid(mid, EventView::MessageReplaced(old_id, new, m));
    assert(s.replaced(old_id, m) == mid.logged(EventView::MessageReplaced(old_id, new, m)));
    assert(s.replaced(old_id, m).recorded_messages() =~= s.recorded_messages().push(m));
}

/// A state that differs only in engine bookkeeping is as valid and shows the
/// same messages.
pub proof fn bookkeeping_keeps(s: SessionState, t: SessionState)
    requires
        s.valid(),
        t == (SessionState {
            opened: t.opened,
            shed: t.shed,
            tools_fingerprint: t.tools_fingerprint,
            model_generation: t.model_generation,
            ..s
        }),
    ensures
        t.valid(),
        t.messages() == s.messages(),
{
    assert forall|i: int| 0 <= i < t.active.len() implies t.knows(#[trigger] t.active[i]) by {
        assert(s.knows(s.active[i]));
    }
    assert(t.messages() =~= s.messages());
}

/// The first id that cannot be shown among the first `n` is the first of
/// all.
pub proof fn ids_refusal_stays(s: SessionState, ids: Seq<MessageId>, n: int)
    requires
        0 <= n <= ids.len(),
        s.ids_refusal(ids.take(n)) is Some,
    ensures
        s.ids_refusal(ids) == s.ids_refusal(ids.take(n)),
    decreases ids.len() - n,
{
    if n < ids.len() {
        assert(ids.take(n + 1).drop_last() =~= ids.take(n));
        ids_refusal_stays(s, ids, n + 1);
    } else {
        assert(ids.take(n) =~= ids);
    }
}

/// Storing keeps the standing invariant, makes the id known, and forgets no
/// id.
pub proof fn stored_valid(s: SessionState, id: MessageId, m: MessageView)
    requires
        s.valid(),
        id.0 < u64::MAX,
    ensures
        s.stored(id, m).valid(),
        s.stored(id, m).knows(id),
        forall|k: MessageId| s.knows(k) ==> #[trigger] s.stored(id, m).knows(k),
{
    let r = RecordView { id, message: m, replaced_by: None };
    let t = s.stored(id, m);
    assert forall|k: MessageId| s.knows(k) || k == id implies #[trigger] t.knows(k) by {
        slot_push(s.records, r, k);
    }
    assert forall|i: int| 0 <= i < t.records.len() implies (#[trigger] t.records[i]).id.0
        < t.next_id by {
        if i < s.records.len() {
            assert(t.records[i] == s.records[i]);
        }
    }
    assert forall|i: int| 0 <= i < t.active.len() implies t.knows(#[trigger] t.active[i]) by {
        assert(s.knows(s.active[i]));
    }
}

/// The id an event stores a record under.
pub open spec fn stores(e: EventView) -> Option<MessageId> {
    match e {
        EventView::MessageAdded(id, _) => Some(id),
        EventView::MessageReplaced(_, new, _) => Some(new),
        EventView::MessageRecorded(id, _) => Some(id),
        _ => None,
    }
}

/// Whether every record of a log has an id below the largest number, so that
/// there is a next one.
pub open spec fn storable(events: Seq<EventView>) -> bool {
    forall|i: int|
        0 <= i < events.len() ==> (stores(#[trigger] events[i]) matches Some(id) ==> id.0 < u64::MAX)
}

/// Applying an event keeps the standing invariant.
pub proof fn applied_valid(s: SessionState, e: EventView)
    requires
        s.valid(),
        stores(e) matches Some(id) ==> id.0 < u64::MAX,
    ensures
        s.applied(e).valid(),
        s.applied(e).events == s.events,
        s.applied(e).revision == s.revision,
        s.applied(e).id == s.id,
{
    let t = s.applied(e);
    match e {
        EventView::MessageAdded(id, m) => {
            stored_valid(s, id, m);
            let u = s.stored(id, m);
            assert forall|i: int| 0 <= i < t.active.len() implies t.knows(
                #[trigger] t.active[i],
            ) by {
                if i < s.active.len() {
                    assert(u.knows(u.active[i]));
                } else {
                    assert(u.knows(id));
                }
            }
            assert forall|i: int| 0 <= i < t.records.len() implies (#[trigger] t.records[i]).id.0
                < t.next_id by {
                assert(u.records[i].id.0 < u.next_id);
            }
        },
        EventView::MessageReplaced(old_id, new_id, m) => {
            stored_valid(s, new_id, m);
            let u = s.stored(new_id, m);
            slot_holds(u.records, old_id);
            first_at_is_first(u.active, old_id);
            assert forall|k: MessageId| u.knows(k) implies t.knows(k) by {
                if let Some(i) = slot_of(u.records, old_id) {
                    slot_marked(
                        u.records,
                        i,
                        RecordView { replaced_by: Some(new_id), ..u.records[i] },
                        k,
                    );
                }
            }
            assert forall|i: int| 0 <= i < t.active.len() implies t.knows(
                #[trigger] t.active[i],
            ) by {
                if t.active[i] == new_id {
                    assert(u.knows(new_id));
                } else {
                    assert(t.active[i] == u.active[i]);
                    assert(u.knows(u.active[i]));
                }
            }
            assert forall|i: int| 0 <= i < t.records.len() implies (#[trigger] t.records[i]).id.0
                < t.next_id by {
                assert(u.records[i].id.0 < u.next_id);
            }
        },
        EventView::MessageRecorded(id, m) => {
            stored_valid(s, id, m);
        },
        EventView::MessageRemoved(id) => {
            without_contains(s.active, id);
            assert forall|i: int| 0 <= i < t.active.len() implies t.knows(
                #[trigger] t.active[i],
            ) by {
                assert(t.active.contains(t.active[i]));
                assert(s.active.contains(t.active[i]));
                let k = choose|k: int| 0 <= k < s.active.len() && s.active[k] == t.active[i];
                assert(s.knows(s.active[k]));
            }
        },
        EventView::ContextReplaced(active, reason) => {
            let keep = |id: MessageId| s.knows(id);
            filter_keeps(active, keep);
            assert forall|i: int| 0 <= i < t.active.len() implies t.knows(
                #[trigger] t.active[i],
            ) by {
                assert(active.filter(keep).contains(t.active[i]));
                assert(keep(t.active[i]));
            }
        },
        EventView::Forked(parent, Some(at)) => {
            first_at_is_first(s.active, at);
            assert forall|i: int| 0 <= i < t.active.len() implies t.knows(
                #[trigger] t.active[i],
            ) by {
                assert(s.knows(s.active[i]));
            }
        },
        _ => {
            assert forall|i: int| 0 <= i < t.active.len() implies t.knows(
                #[trigger] t.active[i],
            ) by {
                assert(s.knows(s.active[i]));
            }
        },
    }
}

/// What a log derives is valid, whatever the log.
pub proof fn derived_valid(id: Seq<char>, events: Seq<EventView>)
    requires
        storable(events),
    ensures
        SessionState::derived(id, events).valid(),
        SessionState::derived(id, events).events == Seq::<EventView>::empty(),
        SessionState::derived(id, events).revision == 0,
        SessionState::derived(id, events).id == id,
    decreases events.len(),
{
    if events.len() > 0 {
        let init = events.drop_last();
        assert forall|i: int| 0 <= i < init.len() implies (stores(#[trigger] init[i]) matches Some(
            k,
        ) ==> k.0 < u64::MAX) by {
            assert(events[i] == init[i]);
        }
        derived_valid(id, init);
        assert(events[events.len() - 1] == events.last());
        applied_valid(SessionState::derived(id, init), events.last());
    }
}

} // verus!
