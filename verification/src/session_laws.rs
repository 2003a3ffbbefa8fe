//! What holds of a session whatever is done to it.
//!
//! [`Op`] names everything that can happen to a session and
//! [`SessionState::stepped`] what comes of it, a refused operation included.
//! The laws below hold of every step, and so of every sequence of steps.
use vstd::prelude::*;
use crate::matching::{
    a_message_moved_earlier_is_new, agree_from_facts, common_start, dropping_makes_nothing_new,
    keeps_order, kept_places, kept_places_facts, nothing_keeps_more,
    rewriting_one_leaves_the_others, tally, what_is_not_rewritten_stays,
};
use crate::message::{BodyView, MessageView};
use crate::rounds::{breach, drops, BreachView};
use crate::seqs::{
    filter_all, filter_keeps, first_at, first_at_is_first, push_contains, push_no_duplicates,
    without, without_absent,
};
use crate::session_facts::{
    bookkeeping_keeps, edit_steps_facts, edit_walk_facts, known_is_below, log_valid, mint_keeps,
    push_valid, record_all_facts, replaced_valid, slot_exists, slot_holds, slot_marked, slot_push,
    trimmed_is_part, with_active_valid,
};
use crate::session_model::{
    affects_context, context_events, id_run, refusal_of, slot_of, EventView, MessageId, RecordView,
    Refusal, SessionState,
};
use crate::tool_defs::{tools_alike, ToolView};

verus! {

/// One thing that can happen to a session.
pub enum Op {
    SetSystem(Option<Seq<char>>),
    SetTools(Seq<ToolView>),
    Push(MessageView),
    Replace(MessageId, MessageView),
    Remove(MessageId),
    ReplaceAll(Seq<MessageView>),
    Restore(Seq<MessageId>),
    Edit(Seq<MessageView>),
    Clear,
    Rollback(nat),
    SetOpened(bool),
    Shed(nat),
    NoteModel(u64),
    NoteTools(u64),
    /// Go on with a fork, under a new id.
    Fork(Seq<char>),
    /// Go on with a fork cut after a message, under a new id.
    ForkAt(Seq<char>, MessageId),
}

impl Op {
    /// How many records it may add.
    pub open spec fn size(self) -> nat {
        match self {
            Op::Push(_) => 1,
            Op::Replace(_, _) => 1,
            Op::ReplaceAll(ms) => ms.len(),
            Op::Edit(ms) => ms.len(),
            _ => 0,
        }
    }

    /// Whether it goes on with another session.
    pub open spec fn forks(self) -> bool {
        self is Fork || self is ForkAt
    }
}

impl SessionState {
    /// What comes of an operation. A refused one changes nothing.
    pub open spec fn stepped(self, op: Op) -> SessionState {
        match op {
            Op::SetSystem(system) => self.with_system(system),
            Op::SetTools(tools) => self.with_tools(tools),
            Op::Push(m) => self.pushed(m),
            Op::Replace(id, m) => if self.replace_refusal(id, m) is None {
                self.replaced(id, m)
            } else {
                self
            },
            Op::Remove(id) => if self.remove_refusal(id) is None {
                self.removed(id)
            } else {
                self
            },
            Op::ReplaceAll(ms) => if self.replace_all_refusal(ms) is None {
                self.replaced_all(ms)
            } else {
                self
            },
            Op::Restore(ids) => if self.restore_refusal(ids) is None {
                self.restored(ids)
            } else {
                self
            },
            Op::Edit(ms) => self.edited(ms),
            Op::Clear => self.cleared(),
            Op::Rollback(len) => self.rolled_back(len),
            Op::SetOpened(opened) => SessionState { opened, ..self },
            Op::Shed(n) => self.with_shed(n),
            Op::NoteModel(generation) => self.with_model(generation),
            Op::NoteTools(fingerprint) => self.with_prefix(fingerprint),
            Op::Fork(id) => self.forked(id, self.active, None),
            Op::ForkAt(id, at) => if self.fork_refusal(at) is None {
                self.forked(id, self.cut_at(at), Some(at))
            } else {
                self
            },
        }
    }

    /// What comes of operations done in turn.
    pub open spec fn run(self, ops: Seq<Op>) -> SessionState
        decreases ops.len(),
    {
        if ops.len() == 0 {
            self
        } else {
            self.run(ops.drop_last()).stepped(ops.last())
        }
    }

    /// Whether there are numbers left for the records an operation adds.
    pub open spec fn has_room(self, op: Op) -> bool {
        self.next_id + op.size() <= u64::MAX
    }

    /// What a turn is built from: the prompt, the tools, the projection.
    pub open spec fn context(self) -> (Option<Seq<char>>, Seq<ToolView>, Seq<MessageId>) {
        (self.system, self.tools, self.active)
    }

    /// Whether everything `before` recorded is still here: its records first,
    /// in order, with the messages they had.
    pub open spec fn keeps_records_of(self, before: SessionState) -> bool {
        &&& before.records.len() <= self.records.len()
        &&& forall|i: int|
            0 <= i < before.records.len() ==> (#[trigger] self.records[i]).id
                == before.records[i].id && self.records[i].message == before.records[i].message
    }
}

// ── Known ids after a step ──────────────────────────────────────────────────

proof fn restore_ids_known(s: SessionState, ids: Seq<MessageId>)
    requires
        s.ids_refusal(ids) is None,
    ensures
        forall|i: int| 0 <= i < ids.len() ==> s.knows(#[trigger] ids[i]),
        ids.no_duplicates(),
    decreases ids.len(),
{
    if ids.len() > 0 {
        let init = ids.drop_last();
        restore_ids_known(s, init);
        assert forall|i: int| 0 <= i < ids.len() implies s.knows(#[trigger] ids[i]) by {
            if i < init.len() {
                assert(s.knows(init[i]));
            }
        }
        push_no_duplicates(init, ids.last());
        assert(ids =~= init.push(ids.last()));
    }
}

proof fn cut_known(s: SessionState, at: MessageId)
    requires
        s.valid(),
        s.slot_refusal(at) is None,
    ensures
        0 <= first_at(s.active, at)->0 < s.active.len(),
        forall|i: int| 0 <= i < s.cut_at(at).len() ==> s.knows(#[trigger] s.cut_at(at)[i]),
{
    first_at_is_first(s.active, at);
    assert forall|i: int| 0 <= i < s.cut_at(at).len() implies s.knows(
        #[trigger] s.cut_at(at)[i],
    ) by {
        assert(s.knows(s.active[i]));
    }
}

proof fn trimmed_known(s: SessionState, ids: Seq<MessageId>)
    requires
        forall|i: int| 0 <= i < ids.len() ==> s.knows(#[trigger] ids[i]),
    ensures
        forall|i: int| 0 <= i < s.trimmed(ids).len() ==> s.knows(#[trigger] s.trimmed(ids)[i]),
{
    trimmed_is_part(s, ids);
    assert forall|i: int| 0 <= i < s.trimmed(ids).len() implies s.knows(
        #[trigger] s.trimmed(ids)[i],
    ) by {
        let k = choose|k: int| 0 <= k < ids.len() && ids[k] == s.trimmed(ids)[i];
        assert(s.knows(ids[k]));
    }
}

proof fn prefix_known(s: SessionState, len: nat)
    requires
        s.valid(),
        len <= s.active.len(),
    ensures
        forall|i: int|
            0 <= i < len ==> s.knows(#[trigger] s.active.take(len as int)[i]),
{
    assert forall|i: int| 0 <= i < len implies s.knows(
        #[trigger] s.active.take(len as int)[i],
    ) by {
        assert(s.knows(s.active[i]));
    }
}

/// Every step keeps the standing invariant: ids stay below the counter, the
/// projection is drawn from the records, and the revision counts the events
/// that affect the context.
pub proof fn every_step_keeps_validity(s: SessionState, op: Op)
    requires
        s.valid(),
        s.has_room(op),
    ensures
        s.stepped(op).valid(),
{
    let t = s.stepped(op);
    match op {
        Op::SetSystem(system) => {
            if s.system != system {
                let mid = SessionState { system, opened: false, ..s };
                instructions_keep(s, mid);
                log_valid(mid, EventView::SystemSet(system));
            }
        },
        Op::SetTools(tools) => {
            if s.tools != tools {
                let mid = SessionState { tools, opened: false, ..s };
                instructions_keep(s, mid);
                log_valid(mid, EventView::ToolsSet(tools));
            }
        },
        Op::Push(m) => {
            push_valid(s, m);
        },
        Op::Replace(id, m) => {
            if s.replace_refusal(id, m) is None {
                replaced_valid(s, id, m);
            }
        },
        Op::Remove(id) => {
            if s.remove_refusal(id) is None {
                removed_valid(s, id);
            }
        },
        Op::ReplaceAll(ms) => {
            if s.replace_all_refusal(ms) is None {
                record_all_facts(s, ms);
                with_active_valid(
                    s.recorded_all(ms),
                    id_run(s.next_id, ms.len()),
                    "replace_messages"@,
                    true,
                );
            }
        },
        Op::Restore(ids) => {
            if s.restore_refusal(ids) is None {
                restore_ids_known(s, ids);
                with_active_valid(s, ids, "restore_context"@, true);
            }
        },
        Op::Edit(ms) => {
            edit_walk_facts(s, ms);
            let (w, ids) = s.edit_walk(ms);
            trimmed_known(w, ids);
            with_active_valid(w, w.trimmed(ids), "edit"@, true);
            bookkeeping_keeps(w.with_active(w.trimmed(ids), "edit"@, true), t);
        },
        Op::Clear => {
            with_active_valid(s, Seq::empty(), "clear"@, true);
            bookkeeping_keeps(s.with_active(Seq::empty(), "clear"@, true), t);
        },
        Op::Rollback(len) => {
            if s.active.len() > len {
                prefix_known(s, len);
                trimmed_known(s, s.active.take(len as int));
                with_active_valid(s, s.trimmed(s.active.take(len as int)), "rollback"@, false);
            }
        },
        Op::Fork(id) => {
            forked_valid(s, id, s.active, None);
        },
        Op::ForkAt(id, at) => {
            if s.fork_refusal(at) is None {
                cut_known(s, at);
                forked_valid(s, id, s.cut_at(at), Some(at));
            }
        },
        _ => {
            bookkeeping_keeps(s, t);
        },
    }
}

proof fn instructions_keep(s: SessionState, mid: SessionState)
    requires
        s.valid(),
        mid == (SessionState {
            system: mid.system,
            tools: mid.tools,
            opened: mid.opened,
            id: mid.id,
            ..s
        }),
    ensures
        mid.valid(),
        mid.messages() == s.messages(),
{
    assert forall|i: int| 0 <= i < mid.active.len() implies mid.knows(#[trigger] mid.active[i]) by {
        assert(s.knows(s.active[i]));
    }
    assert(mid.messages() =~= s.messages());
}

proof fn removed_valid(s: SessionState, id: MessageId)
    requires
        s.valid(),
        s.slot_refusal(id) is None,
    ensures
        s.removed(id).valid(),
        0 <= first_at(s.active, id)->0 < s.active.len(),
        s.removed(id).messages() == s.messages().remove(first_at(s.active, id)->0),
{
    first_at_is_first(s.active, id);
    let slot = first_at(s.active, id)->0;
    let mid = SessionState { active: s.active.remove(slot), opened: false, ..s };
    assert forall|i: int| 0 <= i < mid.active.len() implies mid.knows(#[trigger] mid.active[i])
        && mid.message_of(mid.active[i]) == s.messages().remove(slot)[i] by {
        let k = if i < slot {
            i
        } else {
            i + 1
        };
        assert(s.knows(s.active[k]));
    }
    assert(mid.messages() =~= s.messages().remove(slot));
    log_valid(mid, EventView::MessageRemoved(id));
}

proof fn forked_valid(
    s: SessionState,
    id: Seq<char>,
    active: Seq<MessageId>,
    at: Option<MessageId>,
)
    requires
        s.valid(),
        forall|i: int| 0 <= i < active.len() ==> s.knows(#[trigger] active[i]),
    ensures
        s.forked(id, active, at).valid(),
        s.forked(id, active, at).messages() == s.messages_of(active),
{
    let mid = SessionState {
        id,
        active,
        opened: false,
        shed: 0,
        tools_fingerprint: None,
        model_generation: None,
        ..s
    };
    assert forall|i: int| 0 <= i < active.len() implies mid.knows(#[trigger] active[i]) by {
        assert(s.knows(active[i]));
    }
    assert(mid.messages() =~= s.messages_of(active));
    log_valid(mid, EventView::Forked(s.id, at));
}

// ── The log only grows, the records only accrue ─────────────────────────────

/// Whether `t` continues `s`: its log begins with that of `s`, and it keeps
/// the records of `s`.
pub open spec fn continues(t: SessionState, s: SessionState) -> bool {
    s.events.is_prefix_of(t.events) && t.keeps_records_of(s)
}

proof fn continues_step(s: SessionState, t: SessionState, e: EventView)
    requires
        t.events == s.events.push(e),
        t.keeps_records_of(s),
    ensures
        continues(t, s),
{
    assert(s.events =~= t.events.subrange(0, s.events.len() as int));
}

proof fn continues_same(s: SessionState, t: SessionState)
    requires
        t.events == s.events,
        t.keeps_records_of(s),
    ensures
        continues(t, s),
{
    assert(s.events =~= t.events.subrange(0, s.events.len() as int));
}

proof fn continues_chain(s: SessionState, t: SessionState, u: SessionState)
    requires
        continues(t, s),
        continues(u, t),
    ensures
        continues(u, s),
{
    assert(s.events =~= u.events.subrange(0, s.events.len() as int)) by {
        assert(s.events =~= t.events.subrange(0, s.events.len() as int));
        assert(t.events =~= u.events.subrange(0, t.events.len() as int));
        assert forall|i: int| 0 <= i < s.events.len() implies s.events[i] == u.events[i] by {
            assert(s.events[i] == t.events.subrange(0, s.events.len() as int)[i]);
            assert(t.events[i] == u.events.subrange(0, t.events.len() as int)[i]);
        }
    }
    assert forall|i: int| 0 <= i < s.records.len() implies (#[trigger] u.records[i]).id
        == s.records[i].id && u.records[i].message == s.records[i].message by {
        assert(t.records[i].id == s.records[i].id);
        assert(u.records[i].id == t.records[i].id);
    }
}

proof fn recorded_continues(s: SessionState, m: MessageView)
    ensures
        continues(s.recorded(m), s),
{
    continues_step(s, s.recorded(m), EventView::MessageRecorded(s.fresh(), m));
}

proof fn recorded_all_continues(s: SessionState, ms: Seq<MessageView>)
    ensures
        continues(s.recorded_all(ms), s),
    decreases ms.len(),
{
    if ms.len() == 0 {
        continues_same(s, s);
    } else {
        let t = s.recorded_all(ms.drop_last());
        recorded_all_continues(s, ms.drop_last());
        recorded_continues(t, ms.last());
        continues_chain(s, t, t.recorded(ms.last()));
    }
}

proof fn edit_steps_continue(s: SessionState, ms: Seq<MessageView>, n: nat)
    ensures
        continues(s.edit_steps(ms, n).0, s),
    decreases n,
{
    if n == 0 {
        continues_same(s, s);
    } else {
        let before = (n - 1) as nat;
        let (t, ids) = s.edit_steps(ms, before);
        let m = ms[before as int];
        edit_steps_continue(s, ms, before);
        if kept_places(s.messages(), ms)[before as int] is None {
            recorded_continues(t, m);
            continues_chain(s, t, t.recorded(m));
        }
    }
}

proof fn with_active_continues(
    s: SessionState,
    active: Seq<MessageId>,
    reason: Seq<char>,
    close: bool,
)
    ensures
        continues(s.with_active(active, reason, close), s),
{
    let t = s.with_active(active, reason, close);
    if active == s.active {
        continues_same(s, t);
    } else {
        continues_step(s, t, EventView::ContextReplaced(active, Some(reason)));
    }
}

/// The log only grows and earlier events never change; records are never
/// lost, and what a record says never changes.
pub proof fn the_log_only_grows_and_records_only_accrue(s: SessionState, op: Op)
    ensures
        s.events.is_prefix_of(s.stepped(op).events),
        s.stepped(op).keeps_records_of(s),
{
    let t = s.stepped(op);
    match op {
        Op::SetSystem(system) => {
            if s.system == system {
                continues_same(s, t);
            } else {
                continues_step(s, t, EventView::SystemSet(system));
            }
        },
        Op::SetTools(tools) => {
            if tools_alike(s.tools, tools) {
                continues_same(s, t);
            } else {
                continues_step(s, t, EventView::ToolsSet(tools));
            }
        },
        Op::Push(m) => {
            continues_step(s, t, EventView::MessageAdded(s.fresh(), m));
        },
        Op::Replace(id, m) => {
            if s.replace_refusal(id, m) is None {
                slot_holds(s.records, id);
                let slot = slot_of(s.records, id)->0;
                assert(s.minted(m).records[slot] == s.records[slot]);
                assert(t.keeps_records_of(s));
                continues_step(s, t, EventView::MessageReplaced(id, s.fresh(), m));
            } else {
                continues_same(s, t);
            }
        },
        Op::Remove(id) => {
            if s.remove_refusal(id) is None {
                continues_step(s, t, EventView::MessageRemoved(id));
            } else {
                continues_same(s, t);
            }
        },
        Op::ReplaceAll(ms) => {
            if s.replace_all_refusal(ms) is None {
                let u = s.recorded_all(ms);
                recorded_all_continues(s, ms);
                with_active_continues(u, id_run(s.next_id, ms.len()), "replace_messages"@, true);
                continues_chain(s, u, t);
            } else {
                continues_same(s, t);
            }
        },
        Op::Restore(ids) => {
            if s.restore_refusal(ids) is None {
                with_active_continues(s, ids, "restore_context"@, true);
            } else {
                continues_same(s, t);
            }
        },
        Op::Edit(ms) => {
            let (w, ids) = s.edit_walk(ms);
            edit_steps_continue(s, ms, ms.len());
            let u = w.with_active(w.trimmed(ids), "edit"@, true);
            with_active_continues(w, w.trimmed(ids), "edit"@, true);
            continues_chain(s, w, u);
            continues_same(u, t);
            continues_chain(s, u, t);
        },
        Op::Clear => {
            let u = s.with_active(Seq::empty(), "clear"@, true);
            with_active_continues(s, Seq::empty(), "clear"@, true);
            continues_same(u, t);
            continues_chain(s, u, t);
        },
        Op::Rollback(len) => {
            if s.active.len() > len {
                with_active_continues(s, s.trimmed(s.active.take(len as int)), "rollback"@, false);
            } else {
                continues_same(s, t);
            }
        },
        Op::Fork(_) => {
            continues_step(s, t, EventView::Forked(s.id, None));
        },
        Op::ForkAt(_, at) => {
            if s.fork_refusal(at) is None {
                continues_step(s, t, EventView::Forked(s.id, Some(at)));
            } else {
                continues_same(s, t);
            }
        },
        _ => {
            continues_same(s, t);
        },
    }
}

// ── The revision ────────────────────────────────────────────────────────────

proof fn recorded_all_keeps(s: SessionState, ms: Seq<MessageView>)
    ensures
        s.recorded_all(ms).revision == s.revision,
        s.recorded_all(ms).context() == s.context(),
        s.recorded_all(ms).opened == s.opened,
        s.recorded_all(ms).next_id == s.next_id + ms.len(),
        s.recorded_all(ms).id == s.id,
    decreases ms.len(),
{
    if ms.len() > 0 {
        recorded_all_keeps(s, ms.drop_last());
    }
}

proof fn edit_steps_keep(s: SessionState, ms: Seq<MessageView>, n: nat)
    ensures
        s.edit_steps(ms, n).0.revision == s.revision,
        s.edit_steps(ms, n).0.context() == s.context(),
        s.edit_steps(ms, n).0.opened == s.opened,
        s.edit_steps(ms, n).0.id == s.id,
        s.edit_steps(ms, n).0.next_id >= s.next_id,
    decreases n,
{
    if n > 0 {
        edit_steps_keep(s, ms, (n - 1) as nat);
    }
}

/// The revision moves exactly when the context does, by exactly one; a no-op
/// and a refusal move nothing.
pub proof fn the_revision_tracks_the_context(s: SessionState, op: Op)
    requires
        s.valid(),
        s.has_room(op),
        !op.forks(),
    ensures
        s.stepped(op).revision == s.revision + if s.stepped(op).context() != s.context() {
            1nat
        } else {
            0nat
        },
{
    match op {
        Op::Push(m) => {
            assert(s.pushed(m).active.len() != s.active.len());
        },
        Op::Replace(id, m) => {
            if s.replace_refusal(id, m) is None {
                first_at_is_first(s.active, id);
                known_is_below(s, id);
                let at = first_at(s.active, id)->0;
                assert(s.replaced(id, m).active[at] != s.active[at]);
            }
        },
        Op::Remove(id) => {
            if s.remove_refusal(id) is None {
                first_at_is_first(s.active, id);
                assert(s.removed(id).active.len() != s.active.len());
            }
        },
        Op::ReplaceAll(ms) => {
            recorded_all_keeps(s, ms);
        },
        Op::Edit(ms) => {
            edit_steps_keep(s, ms, ms.len());
        },
        _ => {},
    }
}

/// A fork carries its parent's log verbatim, then one event that names the
/// parent; it shares the records, the prompt and the tools, and has nothing
/// of the engine's.
pub proof fn a_fork_shares_state_and_provenance(
    s: SessionState,
    id: Seq<char>,
    active: Seq<MessageId>,
    at: Option<MessageId>,
)
    ensures
        s.forked(id, active, at).events == s.events.push(EventView::Forked(s.id, at)),
        s.forked(id, active, at).id == id,
        s.forked(id, active, at).revision == s.revision + 1,
        s.forked(id, active, at).records == s.records,
        s.forked(id, active, at).system == s.system,
        s.forked(id, active, at).tools == s.tools,
        s.forked(id, active, at).active == active,
        s.forked(id, s.active, at).messages() == s.messages(),
        !s.forked(id, active, at).opened,
        s.forked(id, active, at).shed == 0,
{
    assert(s.forked(id, s.active, at).messages() =~= s.messages());
}

/// A session keeps its id through every step. Only a fork goes by another: the
/// one it was given, so a fork under a different id is told apart from its
/// parent.
pub proof fn a_session_keeps_its_id(s: SessionState, op: Op)
    ensures
        !op.forks() ==> s.stepped(op).id == s.id,
        op matches Op::Fork(id) ==> s.stepped(op).id == id,
        op matches Op::ForkAt(id, at) ==> s.stepped(op).id == (if s.fork_refusal(at) is None {
            id
        } else {
            s.id
        }),
{
    match op {
        Op::ReplaceAll(ms) => {
            recorded_all_keeps(s, ms);
        },
        Op::Edit(ms) => {
            edit_steps_keep_the_id(s, ms, ms.len());
        },
        _ => {},
    }
}

proof fn edit_steps_keep_the_id(s: SessionState, ms: Seq<MessageView>, n: nat)
    ensures
        s.edit_steps(ms, n).0.id == s.id,
    decreases n,
{
    if n > 0 {
        edit_steps_keep_the_id(s, ms, (n - 1) as nat);
    }
}

// ── The engine's prefill ────────────────────────────────────────────────────

/// A conversation stays open only while what the prefill describes stays:
/// the prompt and the tools as they were, and the projection as it was or
/// with messages after it. Withdrawing messages that were never sent, and
/// the engine saying it opened the conversation, are the two exceptions.
pub proof fn changing_what_was_sent_closes_the_conversation(s: SessionState, op: Op)
    requires
        s.valid(),
        s.has_room(op),
        !(op is Rollback),
        !(op is SetOpened),
    ensures
        s.stepped(op).opened ==> {
            &&& s.opened
            &&& s.stepped(op).system == s.system
            &&& s.stepped(op).tools == s.tools
            &&& s.active.is_prefix_of(s.stepped(op).active)
        },
{
    let t = s.stepped(op);
    assert(s.active =~= s.active.subrange(0, s.active.len() as int));
    match op {
        Op::Push(m) => {
            assert(s.active =~= t.active.subrange(0, s.active.len() as int));
        },
        Op::ReplaceAll(ms) => {
            recorded_all_keeps(s, ms);
        },
        _ => {},
    }
}

/// An edit or a clear always closes the conversation, even one that changes
/// no message; a clear also forgets what was shed.
pub proof fn editing_or_clearing_always_closes(s: SessionState, ms: Seq<MessageView>)
    ensures
        !s.edited(ms).opened,
        !s.cleared().opened,
        s.cleared().shed == 0,
        s.cleared().active.len() == 0,
        s.cleared().system == s.system,
        s.cleared().tools == s.tools,
        s.cleared().id == s.id,
        s.cleared().records == s.records,
{
}

/// What an edit's walk names: the record of the message it comes from, or one
/// that did not exist.
proof fn edit_steps_name(s: SessionState, ms: Seq<MessageView>, n: nat)
    requires
        s.valid(),
        n <= ms.len(),
        s.next_id + n <= u64::MAX,
    ensures
        forall|i: int|
            0 <= i < n ==> {
                let id = #[trigger] s.edit_steps(ms, n).1[i];
                match kept_places(s.messages(), ms)[i] {
                    Some(k) => id == s.active[k] && s.active.contains(id) && s.message_of(
                        id,
                    ).alike(ms[i]),
                    None => s.next_id <= id.0,
                }
            },
    decreases n,
{
    if n > 0 {
        let before = (n - 1) as nat;
        edit_steps_name(s, ms, before);
        edit_steps_facts(s, ms, before);
        edit_steps_facts(s, ms, n);
        edit_steps_keep(s, ms, before);
        let (t, ids) = s.edit_steps(ms, before);
        let all = s.edit_steps(ms, n).1;
        kept_places_facts(s.messages(), ms);
        assert forall|i: int| 0 <= i < n implies ({
            let id = #[trigger] all[i];
            match kept_places(s.messages(), ms)[i] {
                Some(k) => id == s.active[k] && s.active.contains(id) && s.message_of(id).alike(
                    ms[i],
                ),
                None => s.next_id <= id.0,
            }
        }) by {
            if i < before {
                assert(all[i] == ids[i]);
            }
        }
    }
}

/// An edit keeps the ids of what it leaves. What the projection began with and
/// still does keeps its ids, and so does everything else that can: the ids
/// kept name equal messages in the old order, and no way to match the old
/// projection in order keeps more. A message that comes from nowhere gets a
/// record that did not exist. Where the edit leaves no half round, these ids
/// are the new projection.
pub proof fn an_edit_keeps_the_ids_of_what_it_leaves(s: SessionState, ms: Seq<MessageView>)
    requires
        s.valid(),
        s.has_room(Op::Edit(ms)),
    ensures
        s.edit_walk(ms).1.len() == ms.len(),
        keeps_order(s.messages(), ms, kept_places(s.messages(), ms)),
        forall|i: int|
            0 <= i < ms.len() ==> {
                let id = #[trigger] s.edit_walk(ms).1[i];
                match kept_places(s.messages(), ms)[i] {
                    Some(k) => id == s.active[k] && s.message_of(id).alike(ms[i]),
                    None => s.next_id <= id.0,
                }
            },
        forall|n: int|
            0 <= n <= ms.len() && n <= s.messages().len() && ms.take(n) == s.messages().take(n)
                ==> #[trigger] s.edit_walk(ms).1.take(n) == s.active.take(n),
        forall|places: Seq<Option<int>>| #[trigger]
            keeps_order(s.messages(), ms, places) ==> tally(s.messages(), ms, places, 0).kept
                <= tally(s.messages(), ms, kept_places(s.messages(), ms), 0).kept,
        breach(
            s.edit_walk(ms).0.messages_of(s.edit_walk(ms).1),
            s.edit_walk(ms).0.recorded_messages(),
        ) is None ==> s.edited(ms).active == s.edit_walk(ms).1,
{
    let shown = s.messages();
    let ids = s.edit_walk(ms).1;
    edit_walk_facts(s, ms);
    edit_steps_name(s, ms, ms.len());
    kept_places_facts(shown, ms);
    agree_from_facts(shown, ms, 0);
    assert forall|n: int|
        0 <= n <= ms.len() && n <= shown.len() && ms.take(n) == shown.take(
            n,
        ) implies #[trigger] ids.take(n) == s.active.take(n) by {
        let to = common_start(shown, ms);
        if to < n {
            assert(ms.take(n)[to] == ms[to]);
            assert(shown.take(n)[to] == shown[to]);
        }
        assert forall|i: int| 0 <= i < n implies ids.take(n)[i] == s.active.take(n)[i] by {
            assert(kept_places(shown, ms)[i] == Some(i));
            assert(ids[i] == s.active[i]);
        }
        assert(ids.take(n) =~= s.active.take(n));
    }
    assert forall|places: Seq<Option<int>>| #[trigger]
        keeps_order(shown, ms, places) implies tally(shown, ms, places, 0).kept <= tally(
        shown,
        ms,
        kept_places(shown, ms),
        0,
    ).kept by {
        nothing_keeps_more(shown, ms, places);
    }
}

/// Rewriting one message in place, whatever it reads then, leaves the others
/// their ids.
pub proof fn rewriting_one_message_changes_one_id(
    s: SessionState,
    ms: Seq<MessageView>,
    at: int,
)
    requires
        s.valid(),
        s.has_room(Op::Edit(ms)),
        ms.len() == s.messages().len(),
        0 <= at < ms.len(),
        forall|i: int| 0 <= i < ms.len() && i != at ==> #[trigger] ms[i] == s.messages()[i],
    ensures
        forall|i: int|
            0 <= i < ms.len() && i != at ==> #[trigger] s.edit_walk(ms).1[i] == s.active[i],
        !s.messages()[at].alike(ms[at]) ==> s.edit_walk(ms).1[at].0 >= s.next_id,
{
    let shown = s.messages();
    assert forall|i: int| 0 <= i < ms.len() && i != at implies (#[trigger] shown[i]).alike(
        ms[i],
    ) by {
        assert(ms[i] == shown[i]);
    }
    rewriting_one_leaves_the_others(shown, ms, at);
    kept_places_facts(shown, ms);
    edit_steps_name(s, ms, ms.len());
    let places = kept_places(shown, ms);
    assert forall|i: int| 0 <= i < ms.len() && i != at implies #[trigger] s.edit_walk(ms).1[i]
        == s.active[i] by {
        assert(places[i] == Some(i));
    }
    if !shown[at].alike(ms[at]) && places[at] is Some {
        let k = places[at]->0;
        assert(places[k] == Some(k)) by {
            assert(k != at);
        }
    }
}

/// Rewriting messages in place, to read like none that was shown, leaves the
/// others their ids.
pub proof fn what_is_not_rewritten_keeps_its_id(s: SessionState, ms: Seq<MessageView>)
    requires
        s.valid(),
        s.has_room(Op::Edit(ms)),
        ms.len() == s.messages().len(),
        forall|i: int|
            0 <= i < ms.len() ==> (#[trigger] s.messages()[i]).alike(ms[i]) || !exists|k: int|
                0 <= k < s.messages().len() && (#[trigger] s.messages()[k]).alike(ms[i]),
    ensures
        forall|i: int|
            0 <= i < ms.len() && s.messages()[i].alike(ms[i]) ==> #[trigger] s.edit_walk(ms).1[i]
                == s.active[i],
{
    what_is_not_rewritten_stays(s.messages(), ms);
    edit_steps_name(s, ms, ms.len());
    assert forall|i: int| 0 <= i < ms.len() && s.messages()[i].alike(ms[i]) implies #[trigger] s.edit_walk(
        ms,
    ).1[i] == s.active[i] by {
        assert(kept_places(s.messages(), ms)[i] == Some(i));
    }
}

/// An edit that only drops messages records nothing: every id is one the
/// projection had.
pub proof fn dropping_messages_records_nothing(
    s: SessionState,
    ms: Seq<MessageView>,
    places: Seq<Option<int>>,
)
    requires
        s.valid(),
        s.has_room(Op::Edit(ms)),
        keeps_order(s.messages(), ms, places),
        forall|i: int| 0 <= i < ms.len() ==> #[trigger] places[i] is Some,
    ensures
        s.edit_walk(ms).0 == s,
        forall|i: int| 0 <= i < ms.len() ==> s.active.contains(#[trigger] s.edit_walk(ms).1[i]),
{
    dropping_makes_nothing_new(s.messages(), ms, places);
    edit_steps_name(s, ms, ms.len());
    all_kept_records_nothing(s, ms, ms.len());
    assert forall|i: int| 0 <= i < ms.len() implies s.active.contains(
        #[trigger] s.edit_walk(ms).1[i],
    ) by {
        assert(kept_places(s.messages(), ms)[i] is Some);
    }
}

proof fn all_kept_records_nothing(s: SessionState, ms: Seq<MessageView>, n: nat)
    requires
        n <= ms.len(),
        forall|i: int| 0 <= i < ms.len() ==> #[trigger] kept_places(s.messages(), ms)[i] is Some,
    ensures
        s.edit_steps(ms, n).0 == s,
    decreases n,
{
    if n > 0 {
        all_kept_records_nothing(s, ms, (n - 1) as nat);
        assert(kept_places(s.messages(), ms)[n - 1] is Some);
    }
}

/// A message moved earlier than one that stays, and that it used to follow
/// wherever it stood, gets a new record.
pub proof fn a_message_moved_earlier_gets_a_new_record(
    s: SessionState,
    ms: Seq<MessageView>,
    i: int,
    j: int,
)
    requires
        s.valid(),
        s.has_room(Op::Edit(ms)),
        0 <= i < j < ms.len(),
        kept_places(s.messages(), ms)[j] is Some,
        forall|k: int|
            0 <= k < s.messages().len() && (#[trigger] s.messages()[k]).alike(ms[i]) ==> k
                > kept_places(s.messages(), ms)[j]->0,
    ensures
        s.edit_walk(ms).1[i].0 >= s.next_id,
{
    a_message_moved_earlier_is_new(s.messages(), ms, i, j);
    edit_steps_name(s, ms, ms.len());
    assert(s.edit_walk(ms).1[i] == s.edit_steps(ms, ms.len()).1[i]);
}

/// An edit that changes no message records nothing and keeps every id; where
/// the projection shows no half round, it only closes the conversation.
pub proof fn an_edit_that_changes_nothing_only_closes(s: SessionState)
    requires
        s.valid(),
        s.has_room(Op::Edit(s.messages())),
    ensures
        s.edit_walk(s.messages()).0 == s,
        s.edit_walk(s.messages()).1 == s.active,
        breach(s.messages(), s.recorded_messages()) is None ==> s.edited(s.messages()) == (
        SessionState { opened: false, ..s }),
{
    let shown = s.messages();
    an_edit_keeps_the_ids_of_what_it_leaves(s, shown);
    assert(s.edit_walk(shown).1.take(shown.len() as int) == s.active.take(shown.len() as int));
    assert(s.edit_walk(shown).1.take(shown.len() as int) =~= s.edit_walk(shown).1);
    assert(s.active.take(shown.len() as int) =~= s.active);
    let places = Seq::new(shown.len(), |i: int| Some(i));
    assert(keeps_order(shown, shown, places));
    dropping_messages_records_nothing(s, shown, places);
    assert(s.messages_of(s.active) =~= s.messages());
}

/// Declaring the model, the tool prefix, the prompt or the tools already in
/// place is not a change.
pub proof fn declaring_the_same_again_changes_nothing(s: SessionState, n: u64)
    ensures
        s.with_model(n).with_model(n) == s.with_model(n),
        !s.with_model(n).model_reopens(n),
        s.with_prefix(n).with_prefix(n) == s.with_prefix(n),
        !s.with_prefix(n).tools_reopen(n),
        s.with_system(s.system) == s,
        s.with_tools(s.tools) == s,
        s.with_active(s.active, Seq::empty(), true) == s,
{
}

/// Another model, or another tool prefix, than the one a conversation was
/// opened with always reopens it.
pub proof fn a_different_model_or_tool_set_always_reopens(s: SessionState, a: u64, b: u64)
    requires
        a != b,
    ensures
        s.model_generation == Some(a) ==> s.model_reopens(b) && !s.with_model(b).opened,
        s.tools_fingerprint == Some(a) ==> s.tools_reopen(b) && !s.with_prefix(b).opened,
{
}

/// What is pending is a tail of the transcript, in order; all of it where
/// the conversation is not open; and the prompt comes first.
pub proof fn pending_is_a_suffix_of_the_transcript(s: SessionState, sent_through: nat)
    ensures
        s.pending(sent_through).is_suffix_of(s.transcript()),
        !s.opened ==> s.pending(sent_through) == s.transcript(),
        s.opened && sent_through <= s.transcript().len() ==> s.pending(sent_through).len()
            == s.transcript().len() - sent_through,
        s.system matches Some(text) ==> s.transcript().len() > 0 && s.transcript()[0]
            == MessageView::system(text),
{
    let all = s.transcript();
    let rest = s.pending(sent_through);
    assert(rest =~= all.subrange(all.len() - rest.len(), all.len() as int));
}

/// The projection grows and shrinks only as asked: a push adds one message,
/// a replacement none, a removal takes at most one; an edit or a rollback
/// leaves no more than asked for; instructions and bookkeeping leave it
/// alone.
pub proof fn only_the_caller_ever_loses_a_message(s: SessionState, op: Op)
    requires
        s.valid(),
        s.has_room(op),
    ensures
        match op {
            Op::Push(_) => s.stepped(op).active.len() == s.active.len() + 1,
            Op::Replace(_, _) => s.stepped(op).active.len() == s.active.len(),
            Op::Remove(_) => s.stepped(op).active.len() == s.active.len() || s.stepped(
                op,
            ).active.len() + 1 == s.active.len(),
            Op::ReplaceAll(ms) => s.stepped(op).active == s.active || s.stepped(op).active.len()
                == ms.len(),
            Op::Restore(ids) => s.stepped(op).active == s.active || s.stepped(op).active == ids,
            Op::Edit(ms) => s.stepped(op).active.len() <= ms.len(),
            Op::Clear => s.stepped(op).active.len() == 0,
            Op::Rollback(len) => s.stepped(op).active.len() <= len || s.stepped(op).active
                == s.active,
            Op::ForkAt(_, _) => s.stepped(op).active.is_prefix_of(s.active),
            _ => s.stepped(op).active == s.active,
        },
{
    match op {
        Op::Remove(id) => {
            if s.remove_refusal(id) is None {
                first_at_is_first(s.active, id);
            }
        },
        Op::Replace(id, m) => {
            if s.replace_refusal(id, m) is None {
                first_at_is_first(s.active, id);
            }
        },
        Op::ReplaceAll(ms) => {
            recorded_all_keeps(s, ms);
        },
        Op::Edit(ms) => {
            edit_walk_facts(s, ms);
            edit_steps_keep(s, ms, ms.len());
            let (w, ids) = s.edit_walk(ms);
            trimmed_is_part(w, ids);
        },
        Op::Rollback(len) => {
            if s.active.len() > len {
                trimmed_is_part(s, s.active.take(len as int));
            }
        },
        Op::ForkAt(_, at) => {
            assert(s.active =~= s.active.subrange(0, s.active.len() as int));
            if s.fork_refusal(at) is None {
                first_at_is_first(s.active, at);
                assert(s.cut_at(at) =~= s.active.subrange(0, s.cut_at(at).len() as int));
            }
        },
        _ => {},
    }
}

/// A new record's id names nothing before, so no id is ever used twice.
pub proof fn fresh_ids_are_fresh(s: SessionState)
    requires
        s.valid(),
        s.next_id < u64::MAX,
    ensures
        !s.knows(s.fresh()),
        forall|i: int| 0 <= i < s.records.len() ==> (#[trigger] s.records[i]).id != s.fresh(),
{
    slot_holds(s.records, s.fresh());
}

// ── Records are immutable ───────────────────────────────────────────────────

/// What an id names never changes: whatever is done, a known id stays known
/// and its message stays the same.
pub proof fn what_an_id_names_never_changes(s: SessionState, op: Op, id: MessageId)
    requires
        s.valid(),
        s.has_room(op),
        s.knows(id),
    ensures
        s.stepped(op).knows(id),
        s.stepped(op).message_of(id) == s.message_of(id),
{
    match op {
        Op::Push(m) => {
            mint_keeps(s, m, id);
            assert(s.pushed(m).records == s.minted(m).records);
        },
        Op::Replace(old_id, m) => {
            if s.replace_refusal(old_id, m) is None {
                mint_keeps(s, m, id);
                slot_holds(s.records, old_id);
                let slot = slot_of(s.records, old_id)->0;
                let minted = s.minted(m);
                assert(minted.records[slot] == s.records[slot]);
                let marked = RecordView { replaced_by: Some(s.fresh()), ..minted.records[slot] };
                slot_marked(minted.records, slot, marked, id);
                slot_holds(minted.records, id);
                assert(s.replaced(old_id, m).records == minted.records.update(slot, marked));
            }
        },
        Op::ReplaceAll(ms) => {
            if s.replace_all_refusal(ms) is None {
                record_all_facts(s, ms);
                assert(s.recorded_all(ms).knows(id));
                assert(s.replaced_all(ms).records == s.recorded_all(ms).records);
            }
        },
        Op::Edit(ms) => {
            edit_walk_facts(s, ms);
            assert(s.edit_walk(ms).0.knows(id));
            assert(s.edited(ms).records == s.edit_walk(ms).0.records);
        },
        _ => {
            assert(s.stepped(op).records == s.records);
        },
    }
}

/// Undo is a restore of the old ids: where restoring them is not refused, the
/// projection is again exactly what it was.
pub proof fn restoring_the_old_ids_undoes(s: SessionState, op: Op)
    requires
        s.valid(),
        s.has_room(op),
        s.stepped(op).restore_refusal(s.active) is None,
    ensures
        s.stepped(op).restored(s.active).active == s.active,
        s.stepped(op).restored(s.active).messages() == s.messages(),
        s.stepped(op).restored(s.active).records == s.stepped(op).records,
{
    let t = s.stepped(op);
    every_step_keeps_validity(s, op);
    restore_ids_known(t, s.active);
    with_active_valid(t, s.active, "restore_context"@, true);
    assert forall|i: int| 0 <= i < s.active.len() implies t.messages_of(s.active)[i]
        == s.messages()[i] by {
        assert(s.knows(s.active[i]));
        what_an_id_names_never_changes(s, op, s.active[i]);
    }
    assert(t.messages_of(s.active) =~= s.messages());
}

// ── The log is the truth ────────────────────────────────────────────────────

impl SessionState {
    /// What is derived from the log, with everything else blank.
    pub open spec fn essence(self) -> SessionState {
        SessionState {
            events: Seq::empty(),
            revision: 0,
            opened: false,
            shed: 0,
            tools_fingerprint: None,
            model_generation: None,
            ..self
        }
    }
}

/// Deriving touches only what is derived.
proof fn derived_is_essence(id: Seq<char>, events: Seq<EventView>)
    ensures
        SessionState::derived(id, events).essence() == SessionState::derived(id, events),
        SessionState::derived(id, events).id == id,
    decreases events.len(),
{
    if events.len() > 0 {
        derived_is_essence(id, events.drop_last());
    }
}

/// Deriving does not depend on whose log it is.
proof fn derived_under_another_id(a: Seq<char>, b: Seq<char>, events: Seq<EventView>)
    ensures
        SessionState::derived(b, events) == (SessionState {
            id: b,
            ..SessionState::derived(a, events)
        }),
    decreases events.len(),
{
    if events.len() > 0 {
        derived_under_another_id(a, b, events.drop_last());
        let d = SessionState::derived(a, events.drop_last());
        let e = events.last();
        let f = SessionState { id: b, ..d };
        assert(f.applied(e) =~= SessionState { id: b, ..d.applied(e) }) by {
            match e {
                EventView::ContextReplaced(active, _) => {
                    let p = |k: MessageId| d.knows(k);
                    let q = |k: MessageId| f.knows(k);
                    assert(p =~= q);
                },
                _ => {},
            }
        }
    }
}

/// Being faithful, over what is derived.
proof fn faithful_is(s: SessionState)
    ensures
        s.faithful() <==> {
            &&& s.active.no_duplicates()
            &&& SessionState::derived(s.id, s.events) == s.essence()
            &&& s.revision == context_events(s.events)
        },
{
    derived_is_essence(s.id, s.events);
    let d = SessionState::derived(s.id, s.events);
    let r = SessionState::replayed(s.id, s.events);
    let plain = SessionState {
        opened: false,
        shed: 0,
        tools_fingerprint: None,
        model_generation: None,
        ..s
    };
    if r == plain {
        assert(d =~= s.essence());
    }
    if d == s.essence() && s.revision == context_events(s.events) {
        assert(r =~= plain);
    }
}

/// A step that logs one event is faithful if the event derives the step.
proof fn faithful_step(s: SessionState, t: SessionState, e: EventView)
    requires
        s.faithful(),
        t.id == s.id,
        t.events == s.events.push(e),
        t.revision == s.revision + if affects_context(e) {
            1nat
        } else {
            0nat
        },
        s.essence().applied(e) == t.essence(),
        t.active.no_duplicates(),
    ensures
        t.faithful(),
{
    faithful_is(s);
    faithful_is(t);
    assert(t.events.drop_last() =~= s.events);
}

/// A state that differs only in bookkeeping is as faithful.
proof fn faithful_bookkeeping(s: SessionState, t: SessionState)
    requires
        s.faithful(),
        t == (SessionState {
            opened: t.opened,
            shed: t.shed,
            tools_fingerprint: t.tools_fingerprint,
            model_generation: t.model_generation,
            ..s
        }),
    ensures
        t.faithful(),
{
    faithful_is(s);
    faithful_is(t);
    assert(t.essence() =~= s.essence());
}

proof fn recorded_faithful(s: SessionState, m: MessageView)
    requires
        s.valid(),
        s.faithful(),
        s.next_id < u64::MAX,
    ensures
        s.recorded(m).faithful(),
{
    let t = s.recorded(m);
    let e = EventView::MessageRecorded(s.fresh(), m);
    assert(s.essence().applied(e) =~= t.essence());
    faithful_step(s, t, e);
}

proof fn recorded_all_faithful(s: SessionState, ms: Seq<MessageView>)
    requires
        s.valid(),
        s.faithful(),
        s.next_id + ms.len() <= u64::MAX,
    ensures
        s.recorded_all(ms).faithful(),
    decreases ms.len(),
{
    if ms.len() > 0 {
        recorded_all_faithful(s, ms.drop_last());
        record_all_facts(s, ms.drop_last());
        recorded_faithful(s.recorded_all(ms.drop_last()), ms.last());
    }
}

proof fn with_active_faithful(
    s: SessionState,
    active: Seq<MessageId>,
    reason: Seq<char>,
    close: bool,
)
    requires
        s.valid(),
        s.faithful(),
        active.no_duplicates(),
        forall|i: int| 0 <= i < active.len() ==> s.knows(#[trigger] active[i]),
    ensures
        s.with_active(active, reason, close).faithful(),
{
    if active != s.active {
        let t = s.with_active(active, reason, close);
        let e = EventView::ContextReplaced(active, Some(reason));
        let keep = |id: MessageId| s.essence().knows(id);
        filter_all(active, keep);
        assert(s.essence().applied(e) =~= t.essence());
        faithful_step(s, t, e);
    }
}

/// Trimming repeats no id that was not repeated.
proof fn trimmed_no_duplicates(s: SessionState, ids: Seq<MessageId>)
    requires
        ids.no_duplicates(),
    ensures
        s.trimmed(ids).no_duplicates(),
    decreases ids.len(),
{
    match breach(s.messages_of(ids), s.recorded_messages()) {
        None => {},
        Some(b) => {
            let rest = s.mended(ids, b);
            let shown = s.messages_of(ids);
            let keep = |id: MessageId|
                !exists|i: int| 0 <= i < ids.len() && ids[i] == id && #[trigger] drops(shown, b, i);
            filter_keeps(ids, keep);
            assert(rest == ids.filter(keep));
            if rest.len() < ids.len() {
                trimmed_no_duplicates(s, rest);
            }
        },
    }
}

/// An edit names each record once, and every record it adds is logged.
proof fn edit_steps_faithful(s: SessionState, ms: Seq<MessageView>, n: nat)
    requires
        s.valid(),
        s.faithful(),
        n <= ms.len(),
        s.next_id + n <= u64::MAX,
    ensures
        s.edit_steps(ms, n).0.faithful(),
        s.edit_steps(ms, n).1.no_duplicates(),
        forall|i: int|
            0 <= i < n ==> {
                let id = #[trigger] s.edit_steps(ms, n).1[i];
                match kept_places(s.messages(), ms)[i] {
                    Some(k) => id == s.active[k],
                    None => s.next_id <= id.0 < s.edit_steps(ms, n).0.next_id,
                }
            },
    decreases n,
{
    if n > 0 {
        let before = (n - 1) as nat;
        edit_steps_faithful(s, ms, before);
        edit_steps_facts(s, ms, before);
        edit_steps_keep(s, ms, before);
        let (t, ids) = s.edit_steps(ms, before);
        let all = s.edit_steps(ms, n).1;
        let last = all.last();
        assert(all =~= ids.push(last));
        kept_places_facts(s.messages(), ms);
        if kept_places(s.messages(), ms)[before as int] is None {
            recorded_faithful(t, ms[before as int]);
        }
        if ids.contains(last) {
            let i = choose|i: int| 0 <= i < ids.len() && ids[i] == last;
            if let Some(k) = kept_places(s.messages(), ms)[i] {
                assert(s.knows(s.active[k]));
                known_is_below(s, s.active[k]);
            }
            if let Some(k) = kept_places(s.messages(), ms)[before as int] {
                assert(s.knows(s.active[k]));
                known_is_below(s, s.active[k]);
            }
            assert(false);
        }
        push_no_duplicates(ids, last);
        assert forall|i: int| 0 <= i < n implies ({
            let id = #[trigger] all[i];
            match kept_places(s.messages(), ms)[i] {
                Some(k) => id == s.active[k],
                None => s.next_id <= id.0 < s.edit_steps(ms, n).0.next_id,
            }
        }) by {
            if i < before {
                assert(all[i] == ids[i]);
            }
        }
    }
}

/// Removing the only place of an id removes the id.
proof fn without_is_remove(ids: Seq<MessageId>, id: MessageId)
    requires
        ids.no_duplicates(),
        ids.contains(id),
    ensures
        first_at(ids, id) is Some,
        0 <= first_at(ids, id)->0 < ids.len(),
        without(ids, id) == ids.remove(first_at(ids, id)->0),
        ids.remove(first_at(ids, id)->0).no_duplicates(),
    decreases ids.len(),
{
    first_at_is_first(ids, id);
    let at = first_at(ids, id)->0;
    let rest = ids.remove(at);
    assert forall|i: int, j: int|
        0 <= i < rest.len() && 0 <= j < rest.len() && i != j implies rest[i] != rest[j] by {
        let a = if i < at {
            i
        } else {
            i + 1
        };
        let b = if j < at {
            j
        } else {
            j + 1
        };
        assert(ids[a] != ids[b]);
    }
    let init = ids.drop_last();
    assert(init.no_duplicates());
    if ids.last() == id {
        assert(ids[at] == ids[ids.len() - 1]);
        assert(at == ids.len() - 1);
        assert(!init.contains(id)) by {
            if init.contains(id) {
                let k = choose|k: int| 0 <= k < init.len() && init[k] == id;
                assert(ids[k] == ids[ids.len() - 1]);
            }
        }
        without_absent(init, id);
        assert(rest =~= init);
    } else {
        assert(init.contains(id)) by {
            assert(init[at] == id);
        }
        without_is_remove(init, id);
        first_at_is_first(init, id);
        assert(first_at(init, id) == first_at(ids, id));
        assert(rest =~= init.remove(at).push(ids.last()));
    }
}

/// Consecutive ids are distinct.
proof fn id_run_no_duplicates(first: nat, n: nat)
    requires
        first + n <= u64::MAX,
    ensures
        id_run(first, n).no_duplicates(),
{
    let run = id_run(first, n);
    assert forall|i: int, j: int|
        0 <= i < run.len() && 0 <= j < run.len() && i != j implies run[i] != run[j] by {
        assert(run[i].0 == first + i && run[j].0 == first + j);
    }
}

/// Everything a session is, engine bookkeeping aside, is a replay of its log,
/// and no step changes that: what a step makes of a session, the log it
/// leaves replays to.
pub proof fn every_step_is_in_the_log(s: SessionState, op: Op)
    requires
        s.valid(),
        s.faithful(),
        s.has_room(op),
    ensures
        s.stepped(op).faithful(),
{
    let t = s.stepped(op);
    match op {
        Op::SetSystem(system) => {
            if s.system != system {
                assert(s.essence().applied(EventView::SystemSet(system)) =~= t.essence());
                faithful_step(s, t, EventView::SystemSet(system));
            }
        },
        Op::SetTools(tools) => {
            if !tools_alike(s.tools, tools) {
                assert(s.essence().applied(EventView::ToolsSet(tools)) =~= t.essence());
                faithful_step(s, t, EventView::ToolsSet(tools));
            }
        },
        Op::Push(m) => {
            let e = EventView::MessageAdded(s.fresh(), m);
            fresh_not_active(s);
            push_no_duplicates(s.active, s.fresh());
            assert(s.essence().applied(e) =~= t.essence());
            faithful_step(s, t, e);
        },
        Op::Replace(id, m) => {
            if s.replace_refusal(id, m) is None {
                let new = s.fresh();
                let e = EventView::MessageReplaced(id, new, m);
                let r = RecordView { id: new, message: m, replaced_by: None };
                known_is_below(s, id);
                slot_push(s.records, r, id);
                first_at_is_first(s.active, id);
                fresh_not_active(s);
                assert(s.essence().applied(e) =~= t.essence());
                let at = first_at(s.active, id)->0;
                assert forall|i: int, j: int|
                    0 <= i < t.active.len() && 0 <= j < t.active.len() && i != j implies t.active[i]
                    != t.active[j] by {
                    assert(s.active.contains(s.active[i]));
                    assert(s.active.contains(s.active[j]));
                    assert(s.active[i] != s.active[j]);
                }
                faithful_step(s, t, e);
            }
        },
        Op::Remove(id) => {
            if s.remove_refusal(id) is None {
                let e = EventView::MessageRemoved(id);
                first_at_is_first(s.active, id);
                without_is_remove(s.active, id);
                assert(s.essence().applied(e) =~= t.essence());
                faithful_step(s, t, e);
            }
        },
        Op::ReplaceAll(ms) => {
            if s.replace_all_refusal(ms) is None {
                recorded_all_faithful(s, ms);
                record_all_facts(s, ms);
                id_run_no_duplicates(s.next_id, ms.len());
                with_active_faithful(
                    s.recorded_all(ms),
                    id_run(s.next_id, ms.len()),
                    "replace_messages"@,
                    true,
                );
            }
        },
        Op::Restore(ids) => {
            if s.restore_refusal(ids) is None {
                restore_ids_known(s, ids);
                with_active_faithful(s, ids, "restore_context"@, true);
            }
        },
        Op::Edit(ms) => {
            edit_walk_facts(s, ms);
            edit_steps_faithful(s, ms, ms.len());
            let (w, ids) = s.edit_walk(ms);
            trimmed_known(w, ids);
            trimmed_no_duplicates(w, ids);
            with_active_faithful(w, w.trimmed(ids), "edit"@, true);
            faithful_bookkeeping(w.with_active(w.trimmed(ids), "edit"@, true), t);
        },
        Op::Clear => {
            with_active_faithful(s, Seq::empty(), "clear"@, true);
            faithful_bookkeeping(s.with_active(Seq::empty(), "clear"@, true), t);
        },
        Op::Rollback(len) => {
            if s.active.len() > len {
                let ids = s.active.take(len as int);
                prefix_known(s, len);
                assert(ids.no_duplicates());
                trimmed_known(s, ids);
                trimmed_no_duplicates(s, ids);
                with_active_faithful(s, s.trimmed(ids), "rollback"@, false);
            }
        },
        Op::Fork(id) => {
            fork_faithful(s, id, s.active, None);
        },
        Op::ForkAt(id, at) => {
            if s.fork_refusal(at) is None {
                first_at_is_first(s.active, at);
                assert(s.cut_at(at).no_duplicates());
                fork_faithful(s, id, s.cut_at(at), Some(at));
            }
        },
        _ => {
            faithful_bookkeeping(s, t);
        },
    }
}

proof fn fresh_not_active(s: SessionState)
    requires
        s.valid(),
        s.next_id < u64::MAX,
    ensures
        !s.active.contains(s.fresh()),
{
    if s.active.contains(s.fresh()) {
        let k = choose|k: int| 0 <= k < s.active.len() && s.active[k] == s.fresh();
        assert(s.knows(s.active[k]));
        known_is_below(s, s.active[k]);
    }
}

proof fn fork_faithful(
    s: SessionState,
    id: Seq<char>,
    active: Seq<MessageId>,
    at: Option<MessageId>,
)
    requires
        s.faithful(),
        active.no_duplicates(),
        match at {
            None => active == s.active,
            Some(k) => first_at(s.active, k) is Some && active == s.cut_at(k),
        },
    ensures
        s.forked(id, active, at).faithful(),
{
    let own = SessionState { id, ..s };
    faithful_is(s);
    faithful_is(own);
    derived_under_another_id(s.id, id, s.events);
    assert(own.essence() =~= SessionState { id, ..s.essence() });
    let t = s.forked(id, active, at);
    let e = EventView::Forked(s.id, at);
    assert(own.essence().applied(e) =~= t.essence());
    faithful_step(own, t, e);
}

/// Whether there is room for each operation when its turn comes.
pub open spec fn all_have_room(s: SessionState, ops: Seq<Op>) -> bool
    decreases ops.len(),
{
    ops.len() > 0 ==> all_have_room(s, ops.drop_last()) && s.run(ops.drop_last()).has_room(
        ops.last(),
    )
}

/// A session reached from a new one by any operations at all is valid, is
/// exactly what its log replays to, and reads back closed and with nothing
/// shed.
pub proof fn any_session_replays_from_its_log(id: Seq<char>, ops: Seq<Op>)
    requires
        all_have_room(SessionState::blank(id), ops),
    ensures
        SessionState::blank(id).run(ops).valid(),
        SessionState::blank(id).run(ops).faithful(),
        ({
            let s = SessionState::blank(id).run(ops);
            let r = SessionState::replayed(s.id, s.events);
            &&& r.id == s.id
            &&& r.events == s.events
            &&& r.revision == s.revision
            &&& r.system == s.system
            &&& r.tools == s.tools
            &&& r.records == s.records
            &&& r.active == s.active
            &&& r.next_id == s.next_id
            &&& r.messages() == s.messages()
            &&& !r.opened
            &&& r.shed == 0
        }),
    decreases ops.len(),
{
    let start = SessionState::blank(id);
    let s = start.run(ops);
    if ops.len() == 0 {
        faithful_is(start);
        assert(SessionState::derived(id, Seq::empty()) == start.essence());
    } else {
        any_session_replays_from_its_log(id, ops.drop_last());
        every_step_keeps_validity(start.run(ops.drop_last()), ops.last());
        every_step_is_in_the_log(start.run(ops.drop_last()), ops.last());
    }
    let r = SessionState::replayed(s.id, s.events);
    assert(r.messages() =~= s.messages());
}

// ── Records and their flags ─────────────────────────────────────────────────

/// The ids of the records, in order.
pub open spec fn record_ids(s: SessionState) -> Seq<MessageId> {
    s.records.map_values(|r: RecordView| r.id)
}

proof fn minted_distinct(s: SessionState, m: MessageView)
    requires
        s.valid(),
        s.next_id < u64::MAX,
        record_ids(s).no_duplicates(),
    ensures
        record_ids(s.minted(m)).no_duplicates(),
{
    let ids = record_ids(s);
    assert(!ids.contains(s.fresh())) by {
        if ids.contains(s.fresh()) {
            let k = choose|k: int| 0 <= k < ids.len() && ids[k] == s.fresh();
            assert(s.records[k].id.0 < s.next_id);
        }
    }
    push_no_duplicates(ids, s.fresh());
    assert(record_ids(s.minted(m)) =~= ids.push(s.fresh()));
}

proof fn recorded_all_distinct(s: SessionState, ms: Seq<MessageView>)
    requires
        s.valid(),
        s.next_id + ms.len() <= u64::MAX,
        record_ids(s).no_duplicates(),
    ensures
        record_ids(s.recorded_all(ms)).no_duplicates(),
    decreases ms.len(),
{
    if ms.len() > 0 {
        let t = s.recorded_all(ms.drop_last());
        recorded_all_distinct(s, ms.drop_last());
        record_all_facts(s, ms.drop_last());
        minted_distinct(t, ms.last());
        assert(record_ids(t.recorded(ms.last())) =~= record_ids(t.minted(ms.last())));
    }
}

proof fn edit_steps_distinct(s: SessionState, ms: Seq<MessageView>, n: nat)
    requires
        s.valid(),
        n <= ms.len(),
        s.next_id + n <= u64::MAX,
        record_ids(s).no_duplicates(),
    ensures
        record_ids(s.edit_steps(ms, n).0).no_duplicates(),
    decreases n,
{
    if n > 0 {
        let before = (n - 1) as nat;
        let (t, ids) = s.edit_steps(ms, before);
        let m = ms[before as int];
        edit_steps_distinct(s, ms, before);
        edit_steps_facts(s, ms, before);
        if kept_places(s.messages(), ms)[before as int] is None {
            minted_distinct(t, m);
            assert(record_ids(t.recorded(m)) =~= record_ids(t.minted(m)));
        }
    }
}

/// No two records ever share an id.
pub proof fn record_ids_stay_distinct(s: SessionState, op: Op)
    requires
        s.valid(),
        s.has_room(op),
        record_ids(s).no_duplicates(),
    ensures
        record_ids(s.stepped(op)).no_duplicates(),
{
    let t = s.stepped(op);
    match op {
        Op::Push(m) => {
            minted_distinct(s, m);
            assert(record_ids(t) =~= record_ids(s.minted(m)));
        },
        Op::Replace(id, m) => {
            if s.replace_refusal(id, m) is None {
                slot_holds(s.records, id);
                minted_distinct(s, m);
                assert(record_ids(t) =~= record_ids(s.minted(m)));
            }
        },
        Op::ReplaceAll(ms) => {
            if s.replace_all_refusal(ms) is None {
                recorded_all_distinct(s, ms);
                assert(record_ids(t) =~= record_ids(s.recorded_all(ms)));
            }
        },
        Op::Edit(ms) => {
            edit_steps_distinct(s, ms, ms.len());
            assert(record_ids(t) =~= record_ids(s.edit_walk(ms).0));
        },
        _ => {
            assert(record_ids(t) =~= record_ids(s));
        },
    }
}

/// Whether records stand in the order in which they were made: each has a
/// higher id than every one before it.
pub open spec fn ids_rise(s: SessionState) -> bool {
    forall|i: int, j: int|
        #![trigger s.records[i], s.records[j]]
        0 <= i < j < s.records.len() ==> s.records[i].id.0 < s.records[j].id.0
}

proof fn minted_rises(s: SessionState, m: MessageView)
    requires
        s.valid(),
        s.next_id < u64::MAX,
        ids_rise(s),
    ensures
        ids_rise(s.minted(m)),
{
    let t = s.minted(m);
    assert forall|i: int, j: int|
        #![trigger t.records[i], t.records[j]]
        0 <= i < j < t.records.len() implies t.records[i].id.0 < t.records[j].id.0 by {
        assert(t.records[i] == s.records[i]);
        if j < s.records.len() {
            assert(t.records[j] == s.records[j]);
        }
    }
}

proof fn recorded_all_rises(s: SessionState, ms: Seq<MessageView>)
    requires
        s.valid(),
        s.next_id + ms.len() <= u64::MAX,
        ids_rise(s),
    ensures
        ids_rise(s.recorded_all(ms)),
        s.recorded_all(ms).next_id >= s.next_id,
    decreases ms.len(),
{
    if ms.len() > 0 {
        let t = s.recorded_all(ms.drop_last());
        recorded_all_rises(s, ms.drop_last());
        record_all_facts(s, ms.drop_last());
        minted_rises(t, ms.last());
        assert(t.recorded(ms.last()).records == t.minted(ms.last()).records);
    }
}

proof fn edit_steps_rise(s: SessionState, ms: Seq<MessageView>, n: nat)
    requires
        s.valid(),
        n <= ms.len(),
        s.next_id + n <= u64::MAX,
        ids_rise(s),
    ensures
        ids_rise(s.edit_steps(ms, n).0),
        s.edit_steps(ms, n).0.next_id >= s.next_id,
    decreases n,
{
    if n > 0 {
        let before = (n - 1) as nat;
        let t = s.edit_steps(ms, before).0;
        let m = ms[before as int];
        edit_steps_rise(s, ms, before);
        edit_steps_facts(s, ms, before);
        if kept_places(s.messages(), ms)[before as int] is None {
            minted_rises(t, m);
            assert(t.recorded(m).records == t.minted(m).records);
        }
    }
}

/// Record ids rise: a record made later has a higher id than every one made
/// before it, whatever is done to the session, and the id the next one gets
/// never falls.
pub proof fn record_ids_rise(s: SessionState, op: Op)
    requires
        s.valid(),
        s.has_room(op),
        ids_rise(s),
    ensures
        ids_rise(s.stepped(op)),
        s.stepped(op).next_id >= s.next_id,
{
    let t = s.stepped(op);
    match op {
        Op::Push(m) => {
            minted_rises(s, m);
        },
        Op::Replace(id, m) => {
            if s.replace_refusal(id, m) is None {
                slot_holds(s.records, id);
                minted_rises(s, m);
                let u = s.minted(m);
                assert(t.records.len() == u.records.len());
                assert forall|i: int, j: int|
                    #![trigger t.records[i], t.records[j]]
                    0 <= i < j < t.records.len() implies t.records[i].id.0 < t.records[j].id.0 by {
                    assert(t.records[i].id == u.records[i].id);
                    assert(t.records[j].id == u.records[j].id);
                }
            }
        },
        Op::ReplaceAll(ms) => {
            if s.replace_all_refusal(ms) is None {
                recorded_all_rises(s, ms);
            }
        },
        Op::Edit(ms) => {
            edit_steps_rise(s, ms, ms.len());
        },
        _ => {},
    }
}

/// In every session that was ever reached, record ids rise in the order in
/// which the records were made.
pub proof fn in_any_session_record_ids_rise(id: Seq<char>, ops: Seq<Op>)
    requires
        all_have_room(SessionState::blank(id), ops),
    ensures
        ids_rise(SessionState::blank(id).run(ops)),
    decreases ops.len(),
{
    if ops.len() > 0 {
        let before = SessionState::blank(id).run(ops.drop_last());
        in_any_session_record_ids_rise(id, ops.drop_last());
        any_session_replays_from_its_log(id, ops.drop_last());
        record_ids_rise(before, ops.last());
    }
}

proof fn filtered_ids(records: Seq<RecordView>, active: Seq<MessageId>)
    ensures
        records.filter(|r: RecordView| active.contains(r.id)).len() == records.map_values(
            |r: RecordView| r.id,
        ).filter(|id: MessageId| active.contains(id)).len(),
    decreases records.len(),
{
    reveal(Seq::filter);
    let ids = records.map_values(|r: RecordView| r.id);
    if records.len() > 0 {
        let init = records.drop_last();
        filtered_ids(init, active);
        assert(ids.drop_last() =~= init.map_values(|r: RecordView| r.id));
        assert(ids.last() == records.last().id);
    }
}

/// As many records are marked active as the projection shows.
pub proof fn active_flags_agree_with_the_projection(s: SessionState)
    requires
        s.valid(),
        s.active.no_duplicates(),
        record_ids(s).no_duplicates(),
    ensures
        s.records.filter(|r: RecordView| s.active.contains(r.id)).len() == s.active.len(),
{
    let ids = record_ids(s);
    let keep = |id: MessageId| s.active.contains(id);
    let part = ids.filter(keep);
    filter_keeps(ids, keep);
    filtered_ids(s.records, s.active);
    assert forall|id: MessageId| part.contains(id) <==> s.active.contains(id) by {
        if s.active.contains(id) {
            let k = choose|k: int| 0 <= k < s.active.len() && s.active[k] == id;
            assert(s.knows(s.active[k]));
            slot_holds(s.records, id);
            let at = slot_of(s.records, id)->0;
            assert(ids[at] == id);
            assert(ids.contains(id));
        }
    }
    assert(part.to_set() =~= s.active.to_set());
    part.unique_seq_to_set();
    s.active.unique_seq_to_set();
}

// ── Stored transcripts ──────────────────────────────────────────────────────

proof fn pushed_all_shows(s: SessionState, ms: Seq<MessageView>)
    requires
        s.valid(),
        s.next_id + ms.len() <= u64::MAX,
    ensures
        s.pushed_all(ms).valid(),
        s.pushed_all(ms).next_id == s.next_id + ms.len(),
        s.pushed_all(ms).messages() == s.messages() + ms,
        s.pushed_all(ms).system == s.system,
    decreases ms.len(),
{
    if ms.len() > 0 {
        let init = ms.drop_last();
        pushed_all_shows(s, init);
        push_valid(s.pushed_all(init), ms.last());
        assert(s.messages() + ms =~= (s.messages() + init).push(ms.last()));
    } else {
        assert(s.messages() + ms =~= s.messages());
    }
}

/// A transcript saved when the prompt still travelled as a message renders
/// exactly as it did.
pub proof fn a_flat_transcript_renders_as_it_did(id: Seq<char>, ms: Seq<MessageView>)
    requires
        ms.len() <= u64::MAX,
        ms.len() > 0 && ms[0].role == "system"@ ==> ms[0] == MessageView::system(ms[0].text()),
    ensures
        SessionState::from_messages(id, ms).transcript() == ms,
{
    let start = SessionState::blank(id);
    assert(start.messages() =~= Seq::empty());
    if ms.len() > 0 && ms[0].role == "system"@ {
        let s = start.with_system(Some(ms[0].text()));
        every_step_keeps_validity(start, Op::SetSystem(Some(ms[0].text())));
        assert(s.messages() =~= Seq::empty());
        pushed_all_shows(s, ms.skip(1));
        assert(SessionState::from_messages(id, ms).transcript() =~= ms);
    } else {
        pushed_all_shows(start, ms);
        assert(SessionState::from_messages(id, ms).transcript() =~= ms);
    }
}

// ── What each operation shows ───────────────────────────────────────────────

/// An id is known exactly where some record has it, and names the message of
/// such a record.
pub proof fn an_id_names_a_record(s: SessionState, id: MessageId)
    ensures
        s.knows(id) <==> exists|i: int| 0 <= i < s.records.len() && (#[trigger] s.records[i]).id == id,
        s.knows(id) ==> exists|i: int|
            0 <= i < s.records.len() && (#[trigger] s.records[i]).id == id && s.records[i].message
                == s.message_of(id),
{
    slot_holds(s.records, id);
    if s.knows(id) {
        let i = slot_of(s.records, id)->0;
        assert(s.records[i].id == id);
    }
    if exists|i: int| 0 <= i < s.records.len() && (#[trigger] s.records[i]).id == id {
        let i = choose|i: int| 0 <= i < s.records.len() && (#[trigger] s.records[i]).id == id;
        slot_exists(s.records, i);
    }
}

/// A pushed message is shown last, after everything that was shown, under an
/// id of its own; nothing else changes.
pub proof fn a_push_is_shown_last(s: SessionState, m: MessageView)
    requires
        s.valid(),
        s.next_id < u64::MAX,
    ensures
        ({
            let t = s.pushed(m);
            &&& t.messages() == s.messages().push(m)
            &&& t.active.len() == s.active.len() + 1
            &&& t.active.take(s.active.len() as int) == s.active
            &&& t.active.last().0 == s.next_id
            &&& t.next_id == s.next_id + 1
            &&& t.system == s.system
            &&& t.tools == s.tools
            &&& t.opened == s.opened
            &&& t.shed == s.shed
            &&& t.id == s.id
            &&& t.records.len() == s.records.len() + 1
        }),
{
    push_valid(s, m);
    let t = s.pushed(m);
    assert(t.active.take(s.active.len() as int) =~= s.active);
    assert(t.messages() =~= s.messages().push(m)) by {
        assert forall|i: int| 0 <= i < s.active.len() implies t.messages()[i] == s.messages()[i] by {
            assert(s.knows(s.active[i]));
            mint_keeps(s, m, s.active[i]);
            assert(t.records == s.minted(m).records);
        }
        slot_push(
            s.records,
            RecordView { id: s.fresh(), message: m, replaced_by: None },
            s.fresh(),
        );
    }
}

/// A replacement stands where the message stood that it replaces; the other
/// messages stay, the old version is kept and points to the new one, and the
/// conversation is closed.
pub proof fn a_replacement_stands_in_its_place(
    s: SessionState,
    old: MessageId,
    m: MessageView,
    at: int,
)
    requires
        s.valid(),
        s.next_id < u64::MAX,
        s.replace_refusal(old, m) is None,
        s.active.no_duplicates(),
        0 <= at < s.active.len(),
        s.active[at] == old,
    ensures
        ({
            let t = s.replaced(old, m);
            &&& t.messages() == s.messages().update(at, m)
            &&& t.active.len() == s.active.len()
            &&& t.active[at].0 == s.next_id
            &&& forall|i: int| 0 <= i < s.active.len() && i != at ==> #[trigger] t.active[i]
                == s.active[i]
            &&& !t.opened
            &&& t.system == s.system
            &&& t.tools == s.tools
            &&& exists|k: int|
                0 <= k < t.records.len() && (#[trigger] t.records[k]).id == old
                    && t.records[k].replaced_by == Some(t.active[at]) && t.records[k].message
                    == s.message_of(old)
        }),
{
    let t = s.replaced(old, m);
    first_at_is_first(s.active, old);
    let first = first_at(s.active, old)->0;
    assert(s.active[first] == s.active[at]);
    assert(first == at);
    replaced_valid(s, old, m);
    slot_holds(s.records, old);
    let slot = slot_of(s.records, old)->0;
    let minted = s.minted(m);
    assert(minted.records[slot] == s.records[slot]);
    assert(t.records[slot].id == old);
    assert(t.messages() =~= s.messages().update(at, m)) by {
        assert forall|i: int| 0 <= i < s.active.len() && i != at implies t.messages()[i]
            == s.messages()[i] by {
            assert(s.knows(s.active[i]));
            what_an_id_names_never_changes(s, Op::Replace(old, m), s.active[i]);
        }
    }
}

/// A removal takes out the one message it names, and closes the conversation;
/// what is recorded stays.
pub proof fn a_removal_takes_one_message_out(s: SessionState, id: MessageId, at: int)
    requires
        s.remove_refusal(id) is None,
        s.active.no_duplicates(),
        0 <= at < s.active.len(),
        s.active[at] == id,
    ensures
        ({
            let t = s.removed(id);
            &&& t.messages() == s.messages().remove(at)
            &&& t.active == s.active.remove(at)
            &&& t.records == s.records
            &&& !t.opened
            &&& t.system == s.system
            &&& t.tools == s.tools
        }),
{
    let t = s.removed(id);
    first_at_is_first(s.active, id);
    let first = first_at(s.active, id)->0;
    assert(s.active[first] == s.active[at]);
    assert(first == at);
    assert(t.messages() =~= s.messages().remove(at));
}

/// Replacing all messages shows exactly the new ones, in order, each under a
/// new id; what was recorded before stays.
pub proof fn replacing_all_shows_the_new_ones(s: SessionState, ms: Seq<MessageView>)
    requires
        s.valid(),
        s.next_id + ms.len() <= u64::MAX,
    ensures
        ({
            let t = s.replaced_all(ms);
            &&& t.messages() == ms
            &&& forall|i: int| 0 <= i < ms.len() ==> (#[trigger] t.active[i]).0 == s.next_id + i
            &&& t.records.len() == s.records.len() + ms.len()
            &&& t.records.take(s.records.len() as int) == s.records
            &&& ms.len() > 0 ==> !t.opened
            &&& t.system == s.system
            &&& t.tools == s.tools
        }),
{
    record_all_facts(s, ms);
    recorded_all_keeps(s, ms);
    recorded_all_adds(s, ms);
    let w = s.recorded_all(ms);
    let ids = id_run(s.next_id, ms.len());
    let t = s.replaced_all(ms);
    if ms.len() > 0 {
        assert(ids[0].0 == s.next_id);
        if ids == s.active {
            assert(s.knows(s.active[0]));
            known_is_below(s, s.active[0]);
        }
    } else {
        assert(ids =~= Seq::empty());
    }
    assert(t.active == ids);
    assert(t.messages() =~= ms);
}

proof fn recorded_all_adds(s: SessionState, ms: Seq<MessageView>)
    ensures
        s.recorded_all(ms).records.len() == s.records.len() + ms.len(),
        s.recorded_all(ms).records.take(s.records.len() as int) == s.records,
        s.recorded_all(ms).tools == s.tools,
        s.recorded_all(ms).system == s.system,
        s.recorded_all(ms).active == s.active,
    decreases ms.len(),
{
    let n = s.records.len() as int;
    if ms.len() == 0 {
        assert(s.records.take(n) =~= s.records);
    } else {
        recorded_all_adds(s, ms.drop_last());
        let before = s.recorded_all(ms.drop_last());
        assert(s.recorded_all(ms).records.take(n) =~= before.records.take(n));
    }
}

/// Restoring shows exactly the records that are named, in the order they are
/// named, and records nothing.
pub proof fn restoring_shows_what_is_named(s: SessionState, ids: Seq<MessageId>)
    ensures
        ({
            let t = s.restored(ids);
            &&& t.active == ids
            &&& t.records == s.records
            &&& t.messages().len() == ids.len()
            &&& forall|i: int| 0 <= i < ids.len() ==> #[trigger] t.messages()[i] == s.message_of(
                ids[i],
            )
            &&& ids != s.active ==> !t.opened
            &&& t.system == s.system
            &&& t.tools == s.tools
        }),
{
}

/// Ids can be shown exactly where each is known and none is named twice.
pub proof fn ids_can_be_shown_once_each(s: SessionState, ids: Seq<MessageId>)
    ensures
        s.ids_refusal(ids) is None <==> ids.no_duplicates() && forall|i: int|
            0 <= i < ids.len() ==> s.knows(#[trigger] ids[i]),
        s.ids_refusal(ids) matches Some(Refusal::Unknown(id)) ==> ids.contains(id) && !s.knows(id),
        s.ids_refusal(ids) matches Some(Refusal::Duplicate(id)) ==> ids.contains(id) && s.knows(id)
            && !ids.no_duplicates(),
        s.ids_refusal(ids) is Some ==> (s.ids_refusal(ids)->0 is Unknown || s.ids_refusal(ids)->0
            is Duplicate),
    decreases ids.len(),
{
    if ids.len() > 0 {
        let init = ids.drop_last();
        ids_can_be_shown_once_each(s, init);
        assert(ids == init.push(ids.last()));
        push_contains(init, ids.last());
        assert(ids[ids.len() - 1] == ids.last());
        assert(ids.contains(ids.last()));
        if ids.no_duplicates() {
            assert(init.no_duplicates()) by {
                assert forall|i: int, j: int|
                    0 <= i < init.len() && 0 <= j < init.len() && i != j implies init[i]
                    != init[j] by {
                    assert(ids[i] != ids[j]);
                }
            }
            if init.contains(ids.last()) {
                let k = choose|k: int| 0 <= k < init.len() && init[k] == ids.last();
                assert(ids[k] == ids[ids.len() - 1]);
            }
        }
        if init.no_duplicates() && !init.contains(ids.last()) {
            push_no_duplicates(init, ids.last());
        }
        if forall|i: int| 0 <= i < ids.len() ==> s.knows(#[trigger] ids[i]) {
            assert forall|i: int| 0 <= i < init.len() implies s.knows(#[trigger] init[i]) by {
                assert(init[i] == ids[i]);
            }
        }
        if s.ids_refusal(ids) is None {
            assert forall|i: int| 0 <= i < ids.len() implies s.knows(#[trigger] ids[i]) by {
                if i < init.len() {
                    assert(init[i] == ids[i]);
                }
            }
        }
    }
}

/// A message can be replaced or removed only while it is shown: what no
/// record has is unknown, what is recorded but not shown is not active, and
/// anything else is refused only for the half round it would leave.
pub proof fn only_what_is_shown_can_be_changed(s: SessionState, id: MessageId, m: MessageView)
    ensures
        ({
            let recorded = exists|i: int|
                0 <= i < s.records.len() && (#[trigger] s.records[i]).id == id;
            let shown = s.active.contains(id);
            &&& !recorded ==> s.replace_refusal(id, m) == Some(Refusal::Unknown(id))
                && s.remove_refusal(id) == Some(Refusal::Unknown(id)) && s.fork_refusal(id)
                == Some(Refusal::Unknown(id))
            &&& recorded && !shown ==> s.replace_refusal(id, m) == Some(Refusal::NotActive(id))
                && s.remove_refusal(id) == Some(Refusal::NotActive(id)) && s.fork_refusal(id)
                == Some(Refusal::NotActive(id))
            &&& recorded && shown ==> {
                &&& s.replace_refusal(id, m) matches Some(r) ==> r is Orphan || r is Unanswered
                &&& s.remove_refusal(id) matches Some(r) ==> r is Orphan || r is Unanswered
                &&& s.fork_refusal(id) matches Some(r) ==> r is Orphan || r is Unanswered
            }
        }),
{
    an_id_names_a_record(s, id);
    first_at_is_first(s.active, id);
}

/// What is refused for a half round is refused because what would be shown
/// has one, and nothing else is: the check is on the messages as they would
/// be shown, against everything recorded.
pub proof fn a_change_is_refused_for_a_half_round(
    s: SessionState,
    id: MessageId,
    m: MessageView,
    at: int,
)
    requires
        s.knows(id),
        s.active.no_duplicates(),
        0 <= at < s.active.len(),
        s.active[at] == id,
    ensures
        s.replace_refusal(id, m) is None <==> breach(
            s.messages().update(at, m),
            s.recorded_messages(),
        ) is None,
        s.remove_refusal(id) is None <==> breach(
            s.messages().remove(at),
            s.recorded_messages(),
        ) is None,
        s.fork_refusal(id) is None <==> breach(
            s.messages().take(at + 1),
            s.recorded_messages(),
        ) is None,
{
    first_at_is_first(s.active, id);
    let first = first_at(s.active, id)->0;
    assert(s.active[first] == s.active[at]);
    assert(first == at);
    assert(s.messages_of(s.cut_at(id)) =~= s.messages().take(at + 1));
}

/// A list is accepted in place of all messages, and ids are restored, exactly
/// where they show no half round.
pub proof fn a_projection_is_refused_for_a_half_round(
    s: SessionState,
    ms: Seq<MessageView>,
    ids: Seq<MessageId>,
)
    ensures
        s.replace_all_refusal(ms) is None <==> breach(ms, s.recorded_messages()) is None,
        s.ids_refusal(ids) is None ==> (s.restore_refusal(ids) is None <==> breach(
            s.messages_of(ids),
            s.recorded_messages(),
        ) is None),
        s.ids_refusal(ids) is Some ==> s.restore_refusal(ids) == s.ids_refusal(ids),
{
}

/// A fork cut at a message shows everything up to that message, that one
/// included, and nothing after it.
pub proof fn a_cut_fork_ends_with_its_message(
    s: SessionState,
    id: Seq<char>,
    at: MessageId,
    i: int,
)
    requires
        s.active.no_duplicates(),
        0 <= i < s.active.len(),
        s.active[i] == at,
    ensures
        ({
            let t = s.forked(id, s.cut_at(at), Some(at));
            &&& t.active == s.active.take(i + 1)
            &&& t.active.last() == at
            &&& t.messages() == s.messages().take(i + 1)
            &&& t.records == s.records
            &&& t.next_id == s.next_id
            &&& !t.opened
        }),
{
    first_at_is_first(s.active, at);
    let first = first_at(s.active, at)->0;
    assert(s.active[first] == s.active[i]);
    assert(first == i);
    let t = s.forked(id, s.cut_at(at), Some(at));
    assert(t.messages() =~= s.messages().take(i + 1));
}

/// Rolling back withdraws what is beyond the given length, and no more where
/// that leaves no half round. What the engine was told stays told.
pub proof fn a_rollback_withdraws_the_end(s: SessionState, len: nat)
    ensures
        s.active.len() <= len ==> s.rolled_back(len) == s,
        len < s.active.len() && breach(s.messages().take(len as int), s.recorded_messages()) is None
            ==> s.rolled_back(len).active == s.active.take(len as int),
        s.rolled_back(len).records == s.records,
        s.rolled_back(len).opened == s.opened,
        s.rolled_back(len).system == s.system,
        s.rolled_back(len).tools == s.tools,
{
    if len < s.active.len() {
        assert(s.messages_of(s.active.take(len as int)) =~= s.messages().take(len as int));
    }
}

/// The prompt and the tools are what they were last set to; what is shown
/// stays. A prompt that is appended to keeps what it said.
pub proof fn instructions_are_what_they_were_set_to(
    s: SessionState,
    system: Option<Seq<char>>,
    more: Seq<char>,
    tools: Seq<ToolView>,
)
    ensures
        s.with_system(system).system == system,
        s.with_system(system).active == s.active,
        s.with_system(system).records == s.records,
        s.with_system(system).tools == s.tools,
        system != s.system ==> !s.with_system(system).opened,
        s.system matches Some(text) ==> s.with_more_system(more).system == Some(text + more),
        s.system is None ==> s.with_more_system(more).system == Some(more),
        s.with_tools(tools).tools == tools || s.with_tools(tools) == s,
        s.with_tools(tools).active == s.active,
        s.with_tools(tools).records == s.records,
        s.with_tools(tools).system == s.system,
        tools.len() != s.tools.len() ==> s.with_tools(tools).tools == tools && !s.with_tools(
            tools,
        ).opened,
        forall|i: int|
            0 <= i < tools.len() && i < s.tools.len() && (#[trigger] tools[i]).name
                != s.tools[i].name ==> s.with_tools(tools).tools == tools && !s.with_tools(
                tools,
            ).opened,
{
    assert forall|i: int|
        0 <= i < tools.len() && i < s.tools.len() && (#[trigger] tools[i]).name
            != s.tools[i].name implies s.with_tools(tools).tools == tools && !s.with_tools(
        tools,
    ).opened by {
        assert(!s.tools[i].alike(tools[i]));
    }
}

/// The model reads the prompt first, where there is one, and then exactly the
/// messages that are shown.
pub proof fn the_model_reads_the_prompt_and_what_is_shown(s: SessionState)
    ensures
        s.system is None ==> s.transcript() == s.messages(),
        s.system matches Some(text) ==> {
            &&& s.transcript().len() == s.messages().len() + 1
            &&& s.transcript()[0].role == "system"@
            &&& s.transcript()[0].body == BodyView::Text(text)
            &&& s.transcript().skip(1) == s.messages()
        },
        s.messages().len() == s.active.len(),
        forall|i: int| 0 <= i < s.active.len() ==> #[trigger] s.messages()[i] == s.message_of(
            s.active[i],
        ),
{
    if s.system is Some {
        assert(s.transcript().skip(1) =~= s.messages());
    }
}

/// What was handed over and what is pending make up the transcript; a
/// conversation that is not open was handed nothing.
pub proof fn what_is_pending_completes_the_transcript(s: SessionState, sent_through: nat)
    ensures
        s.opened && sent_through <= s.transcript().len() ==> s.transcript().take(
            sent_through as int,
        ) + s.pending(sent_through) == s.transcript(),
        s.opened && sent_through > s.transcript().len() ==> s.pending(sent_through).len() == 0,
        !s.opened ==> s.pending(sent_through) == s.transcript(),
{
    let all = s.transcript();
    if s.opened && sent_through <= all.len() {
        assert(all.take(sent_through as int) + s.pending(sent_through) =~= all);
    }
}

/// What fell out of view adds up, as far as it can be counted.
pub proof fn what_fell_out_of_view_adds_up(s: SessionState, n: nat)
    ensures
        s.shed + n <= usize::MAX ==> s.with_shed(n).shed == s.shed + n,
        s.shed + n > usize::MAX ==> s.with_shed(n).shed == usize::MAX,
        s.with_shed(n).active == s.active,
        s.with_shed(n).opened == s.opened,
{
}

/// A conversation is opened again for another model, or another set of
/// tools, than the one noted before; where none was noted, only if it was
/// open.
pub proof fn when_a_conversation_is_opened_again(s: SessionState, n: u64)
    ensures
        s.model_reopens(n) <==> (match s.model_generation {
            Some(noted) => noted != n,
            None => s.opened,
        }),
        s.tools_reopen(n) <==> (match s.tools_fingerprint {
            Some(noted) => noted != n,
            None => s.opened,
        }),
        s.with_model(n).model_generation == Some(n),
        s.with_model(n).opened <==> s.opened && s.model_generation == Some(n),
        s.with_prefix(n).tools_fingerprint == Some(n),
        s.with_prefix(n).opened <==> s.opened && s.tools_fingerprint == Some(n),
        s.with_model(n).active == s.active,
        s.with_prefix(n).active == s.active,
        s.with_model(n).events == s.events,
        s.with_prefix(n).events == s.events,
{
}

/// A stored list of messages is shown as it is; a system message it begins
/// with becomes the prompt.
pub proof fn stored_messages_are_shown(id: Seq<char>, ms: Seq<MessageView>)
    requires
        ms.len() <= u64::MAX,
    ensures
        ({
            let s = SessionState::from_messages(id, ms);
            let prompted = ms.len() > 0 && ms[0].role == "system"@;
            &&& s.id == id
            &&& !s.opened
            &&& prompted ==> s.system == Some(ms[0].text()) && s.messages() == ms.skip(1)
            &&& !prompted ==> s.system is None && s.messages() == ms
        }),
{
    let blank = SessionState::blank(id);
    assert(blank.valid());
    if ms.len() > 0 && ms[0].role == "system"@ {
        let told = blank.with_system(Some(ms[0].text()));
        assert(told.valid()) by {
            reveal_with_fuel(context_events, 2);
            assert(told.events.drop_last() =~= Seq::empty());
        }
        pushed_all_shows(told, ms.skip(1));
        pushed_all_stays(told, ms.skip(1));
        assert(told.messages() + ms.skip(1) =~= ms.skip(1));
    } else {
        pushed_all_shows(blank, ms);
        pushed_all_stays(blank, ms);
        assert(blank.messages() + ms =~= ms);
    }
}

proof fn pushed_all_stays(s: SessionState, ms: Seq<MessageView>)
    ensures
        s.pushed_all(ms).id == s.id,
        s.pushed_all(ms).opened == s.opened,
    decreases ms.len(),
{
    if ms.len() > 0 {
        pushed_all_stays(s, ms.drop_last());
    }
}

/// Clearing shows nothing, forgets what the engine was told, and keeps all
/// that is recorded, the prompt and the tools.
pub proof fn clearing_shows_nothing(s: SessionState)
    ensures
        s.cleared().messages().len() == 0,
        s.cleared().active.len() == 0,
        !s.cleared().opened,
        s.cleared().shed == 0,
        s.cleared().model_generation is None,
        s.cleared().tools_fingerprint is None,
        s.cleared().records == s.records,
        s.cleared().system == s.system,
        s.cleared().tools == s.tools,
        s.cleared().next_id == s.next_id,
{
}

/// A half round is refused for what it is: a result without its call, or a
/// call without its result, by the call's id.
pub proof fn a_refusal_tells_the_half_round(shown: Seq<MessageView>, records: Seq<MessageView>)
    ensures
        match breach(shown, records) {
            Some(BreachView::Orphan(id)) => refusal_of(breach(shown, records)) == Some(
                Refusal::Orphan(id),
            ),
            Some(BreachView::Unanswered(id)) => refusal_of(breach(shown, records)) == Some(
                Refusal::Unanswered(id),
            ),
            None => refusal_of(breach(shown, records)) is None,
        },
{
}

/// Of several faults in some ids the first is told: whatever follows an id
/// that cannot be shown changes nothing of the refusal.
pub proof fn the_first_fault_is_told(
    s: SessionState,
    ids: Seq<MessageId>,
    bad: MessageId,
    more: Seq<MessageId>,
)
    requires
        s.ids_refusal(ids) is None,
        !s.knows(bad) || ids.contains(bad),
    ensures
        s.ids_refusal(ids.push(bad) + more) == Some(
            if s.knows(bad) {
                Refusal::Duplicate(bad)
            } else {
                Refusal::Unknown(bad)
            },
        ),
    decreases more.len(),
{
    let all = ids.push(bad) + more;
    if more.len() == 0 {
        assert(all =~= ids.push(bad));
        assert(all.drop_last() =~= ids);
    } else {
        the_first_fault_is_told(s, ids, bad, more.drop_last());
        assert(all.drop_last() =~= ids.push(bad) + more.drop_last());
    }
}

} // verus!
