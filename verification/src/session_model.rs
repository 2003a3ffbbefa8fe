//! A session, mathematically: what it is, and what each operation makes it.
//!
//! [`SessionState`] holds everything a session is. The operations are
//! functions from state to state; the executable ones of
//! [`crate::session`] are proved to do exactly this.
use vstd::prelude::*;
use crate::matching::kept_places;
use crate::message::MessageView;
use crate::rounds::{breach, drops, BreachView};
use crate::seqs::{first_at, without};
use crate::tool_defs::{tools_alike, ToolView};

verus! {

/// Identifies one immutable message record within a session.
///
/// Minted on append, never reused, and carried unchanged into forks, so an
/// id taken from a parent still names the same record in a branch.
#[derive(Debug, Clone, Copy, PartialEq, Eq, Structural, PartialOrd, Ord, Hash)]
pub struct MessageId(pub u64);

/// One entry of the history, mathematically.
pub enum EventView {
    SystemSet(Option<Seq<char>>),
    ToolsSet(Seq<ToolView>),
    MessageAdded(MessageId, MessageView),
    /// The record replaced, the record in its place, the new content.
    MessageReplaced(MessageId, MessageId, MessageView),
    MessageRemoved(MessageId),
    MessageRecorded(MessageId, MessageView),
    ContextReplaced(Seq<MessageId>, Option<Seq<char>>),
    /// The parent's id, and the last message kept where the fork cut.
    Forked(Seq<char>, Option<MessageId>),
}

/// One message version, mathematically.
pub struct RecordView {
    pub id: MessageId,
    pub message: MessageView,
    pub replaced_by: Option<MessageId>,
}

/// Why an operation was refused.
pub enum Refusal {
    Unknown(MessageId),
    NotActive(MessageId),
    Duplicate(MessageId),
    Orphan(Seq<char>),
    Unanswered(Seq<char>),
}

/// A refusal on account of a broken tool round.
pub open spec fn refusal_of(b: Option<BreachView>) -> Option<Refusal> {
    match b {
        None => None,
        Some(BreachView::Orphan(id)) => Some(Refusal::Orphan(id)),
        Some(BreachView::Unanswered(id)) => Some(Refusal::Unanswered(id)),
    }
}

/// Whether an event changes what a turn is built from.
pub open spec fn affects_context(e: EventView) -> bool {
    !(e is MessageRecorded)
}

/// How many events change what a turn is built from.
pub open spec fn context_events(events: Seq<EventView>) -> nat
    decreases events.len(),
{
    if events.len() == 0 {
        0
    } else {
        context_events(events.drop_last()) + if affects_context(events.last()) {
            1nat
        } else {
            0nat
        }
    }
}

/// The index of the latest record with an id.
pub open spec fn slot_of(records: Seq<RecordView>, id: MessageId) -> Option<int>
    decreases records.len(),
{
    if records.len() == 0 {
        None
    } else if records.last().id == id {
        Some(records.len() - 1)
    } else {
        slot_of(records.drop_last(), id)
    }
}

/// The ids from `first` on, `n` of them.
pub open spec fn id_run(first: nat, n: nat) -> Seq<MessageId> {
    Seq::new(n, |i: int| MessageId((first + i) as u64))
}

/// Everything a session is.
#[verifier::ext_equal]
pub struct SessionState {
    pub id: Seq<char>,
    /// The append-only history all else is derived from.
    pub events: Seq<EventView>,
    pub revision: nat,
    pub system: Option<Seq<char>>,
    pub tools: Seq<ToolView>,
    /// Every message version that ever was.
    pub records: Seq<RecordView>,
    /// The ids the next turn is built from, oldest first.
    pub active: Seq<MessageId>,
    pub next_id: nat,
    /// Whether the engine holds a prefill of this conversation.
    pub opened: bool,
    pub shed: nat,
    pub tools_fingerprint: Option<u64>,
    pub model_generation: Option<u64>,
}

impl SessionState {
    /// A conversation in which nothing has happened.
    pub open spec fn blank(id: Seq<char>) -> SessionState {
        SessionState {
            id,
            events: Seq::empty(),
            revision: 0,
            system: None,
            tools: Seq::empty(),
            records: Seq::empty(),
            active: Seq::empty(),
            next_id: 0,
            opened: false,
            shed: 0,
            tools_fingerprint: None,
            model_generation: None,
        }
    }

    // ── Reading ─────────────────────────────────────────────────────────

    /// Whether a record has this id.
    pub open spec fn knows(self, id: MessageId) -> bool {
        slot_of(self.records, id) is Some
    }

    /// The message of the record with an id.
    pub open spec fn message_of(self, id: MessageId) -> MessageView {
        self.records[slot_of(self.records, id)->0].message
    }

    /// The messages of some records.
    pub open spec fn messages_of(self, ids: Seq<MessageId>) -> Seq<MessageView> {
        ids.map_values(|id: MessageId| self.message_of(id))
    }

    /// The messages the next turn is built from.
    pub open spec fn messages(self) -> Seq<MessageView> {
        self.messages_of(self.active)
    }

    /// Every message that ever was.
    pub open spec fn recorded_messages(self) -> Seq<MessageView> {
        self.records.map_values(|r: RecordView| r.message)
    }

    /// The id the next record gets.
    pub open spec fn fresh(self) -> MessageId {
        MessageId(self.next_id as u64)
    }

    /// What the model is rendered from: the system prompt, then the active
    /// messages.
    pub open spec fn transcript(self) -> Seq<MessageView> {
        match self.system {
            Some(text) => seq![MessageView::system(text)] + self.messages(),
            None => self.messages(),
        }
    }

    /// What the engine still lacks, given how much of the transcript it was
    /// handed.
    pub open spec fn pending(self, sent_through: nat) -> Seq<MessageView> {
        let all = self.transcript();
        if self.opened {
            all.skip(if sent_through < all.len() {
                sent_through as int
            } else {
                all.len() as int
            })
        } else {
            all
        }
    }

    /// The standing invariant: ids are below the counter, the active ids are
    /// known, and the revision counts the events that affect the context.
    pub open spec fn valid(self) -> bool {
        &&& self.next_id <= u64::MAX
        &&& forall|i: int| 0 <= i < self.records.len() ==> (#[trigger] self.records[i]).id.0 < self.next_id
        &&& forall|i: int| 0 <= i < self.active.len() ==> self.knows(#[trigger] self.active[i])
        &&& self.revision == context_events(self.events)
    }

    // ── Steps every operation is made of ────────────────────────────────

    /// An event appended.
    pub open spec fn logged(self, e: EventView) -> SessionState {
        SessionState {
            events: self.events.push(e),
            revision: if affects_context(e) {
                self.revision + 1
            } else {
                self.revision
            },
            ..self
        }
    }

    /// A record added under the next id.
    pub open spec fn minted(self, m: MessageView) -> SessionState {
        SessionState {
            records: self.records.push(
                RecordView { id: self.fresh(), message: m, replaced_by: None },
            ),
            next_id: self.next_id + 1,
            ..self
        }
    }

    /// A record added for a context replacement to name.
    pub open spec fn recorded(self, m: MessageView) -> SessionState {
        self.minted(m).logged(EventView::MessageRecorded(self.fresh(), m))
    }

    /// Records added for each of some messages.
    pub open spec fn recorded_all(self, ms: Seq<MessageView>) -> SessionState
        decreases ms.len(),
    {
        if ms.len() == 0 {
            self
        } else {
            self.recorded_all(ms.drop_last()).recorded(ms.last())
        }
    }

    /// The projection replaced; the same one again is no change.
    pub open spec fn with_active(
        self,
        active: Seq<MessageId>,
        reason: Seq<char>,
        close: bool,
    ) -> SessionState {
        if active == self.active {
            self
        } else {
            SessionState { active, opened: self.opened && !close, ..self }.logged(
                EventView::ContextReplaced(active, Some(reason)),
            )
        }
    }

    // ── The operations ──────────────────────────────────────────────────

    /// The system prompt set, or taken away; the same one again is no
    /// change.
    pub open spec fn with_system(self, system: Option<Seq<char>>) -> SessionState {
        if self.system == system {
            self
        } else {
            SessionState { system, opened: false, ..self }.logged(EventView::SystemSet(system))
        }
    }

    /// The system prompt with more text at its end.
    pub open spec fn with_more_system(self, text: Seq<char>) -> SessionState {
        self.with_system(
            Some(
                match self.system {
                    Some(system) => system + text,
                    None => text,
                },
            ),
        )
    }

    /// The tools replaced; the same ones again are no change.
    pub open spec fn with_tools(self, tools: Seq<ToolView>) -> SessionState {
        if tools_alike(self.tools, tools) {
            self
        } else {
            SessionState { tools, opened: false, ..self }.logged(EventView::ToolsSet(tools))
        }
    }

    /// A message appended.
    pub open spec fn pushed(self, m: MessageView) -> SessionState {
        SessionState { active: self.active.push(self.fresh()), ..self.minted(m) }.logged(
            EventView::MessageAdded(self.fresh(), m),
        )
    }

    /// Several messages appended, one after another.
    pub open spec fn pushed_all(self, ms: Seq<MessageView>) -> SessionState
        decreases ms.len(),
    {
        if ms.len() == 0 {
            self
        } else {
            self.pushed_all(ms.drop_last()).pushed(ms.last())
        }
    }

    /// A conversation rebuilt from stored messages: a leading system message
    /// becomes the prompt, the rest is appended.
    pub open spec fn from_messages(id: Seq<char>, ms: Seq<MessageView>) -> SessionState {
        let start = SessionState::blank(id);
        if ms.len() > 0 && ms[0].role == "system"@ {
            start.with_system(Some(ms[0].text())).pushed_all(ms.skip(1))
        } else {
            start.pushed_all(ms)
        }
    }

    /// Why an id cannot be addressed in the projection.
    pub open spec fn slot_refusal(self, id: MessageId) -> Option<Refusal> {
        if !self.knows(id) {
            Some(Refusal::Unknown(id))
        } else if first_at(self.active, id) is None {
            Some(Refusal::NotActive(id))
        } else {
            None
        }
    }

    /// Why `old` cannot be replaced by `m`.
    pub open spec fn replace_refusal(self, old: MessageId, m: MessageView) -> Option<Refusal> {
        match self.slot_refusal(old) {
            Some(refusal) => Some(refusal),
            None => refusal_of(
                breach(
                    self.messages().update(first_at(self.active, old)->0, m),
                    self.recorded_messages(),
                ),
            ),
        }
    }

    /// A message replaced by a new version in its place.
    pub open spec fn replaced(self, old: MessageId, m: MessageView) -> SessionState {
        let slot = slot_of(self.records, old)->0;
        let new = self.fresh();
        let minted = self.minted(m);
        SessionState {
            records: minted.records.update(
                slot,
                RecordView { replaced_by: Some(new), ..minted.records[slot] },
            ),
            active: self.active.update(first_at(self.active, old)->0, new),
            opened: false,
            ..minted
        }.logged(EventView::MessageReplaced(old, new, m))
    }

    /// Why `id` cannot be removed.
    pub open spec fn remove_refusal(self, id: MessageId) -> Option<Refusal> {
        match self.slot_refusal(id) {
            Some(refusal) => Some(refusal),
            None => refusal_of(
                breach(
                    self.messages().remove(first_at(self.active, id)->0),
                    self.recorded_messages(),
                ),
            ),
        }
    }

    /// A message taken out of the projection.
    pub open spec fn removed(self, id: MessageId) -> SessionState {
        SessionState {
            active: self.active.remove(first_at(self.active, id)->0),
            opened: false,
            ..self
        }.logged(EventView::MessageRemoved(id))
    }

    /// Why the projection cannot become `ms`.
    pub open spec fn replace_all_refusal(self, ms: Seq<MessageView>) -> Option<Refusal> {
        refusal_of(breach(ms, self.recorded_messages()))
    }

    /// The projection replaced by new records.
    pub open spec fn replaced_all(self, ms: Seq<MessageView>) -> SessionState {
        self.recorded_all(ms).with_active(
            id_run(self.next_id, ms.len()),
            "replace_messages"@,
            true,
        )
    }

    /// Why some ids cannot be shown, the first unknown or repeated one.
    pub open spec fn ids_refusal(self, ids: Seq<MessageId>) -> Option<Refusal>
        decreases ids.len(),
    {
        if ids.len() == 0 {
            None
        } else {
            match self.ids_refusal(ids.drop_last()) {
                Some(refusal) => Some(refusal),
                None => if !self.knows(ids.last()) {
                    Some(Refusal::Unknown(ids.last()))
                } else if ids.drop_last().contains(ids.last()) {
                    Some(Refusal::Duplicate(ids.last()))
                } else {
                    None
                },
            }
        }
    }

    /// Why the projection cannot become `ids`.
    pub open spec fn restore_refusal(self, ids: Seq<MessageId>) -> Option<Refusal> {
        match self.ids_refusal(ids) {
            Some(refusal) => Some(refusal),
            None => refusal_of(breach(self.messages_of(ids), self.recorded_messages())),
        }
    }

    /// The projection replaced by existing records.
    pub open spec fn restored(self, ids: Seq<MessageId>) -> SessionState {
        self.with_active(ids, "restore_context"@, true)
    }

    /// The ids mending a breach leaves.
    pub open spec fn mended(self, ids: Seq<MessageId>, b: BreachView) -> Seq<MessageId> {
        let shown = self.messages_of(ids);
        ids.filter(
            |id: MessageId|
                !exists|i: int| 0 <= i < ids.len() && ids[i] == id && #[trigger] drops(shown, b, i),
        )
    }

    /// The ids with every half round dropped.
    pub open spec fn trimmed(self, ids: Seq<MessageId>) -> Seq<MessageId>
        decreases ids.len(),
    {
        match breach(self.messages_of(ids), self.recorded_messages()) {
            None => ids,
            Some(b) => if self.mended(ids, b).len() < ids.len() {
                self.trimmed(self.mended(ids, b))
            } else {
                ids
            },
        }
    }

    /// Ids for the first `n` messages of an edited projection: a message left
    /// as it was keeps its record, any other gets a new one. Holds the state
    /// with the new records, and the ids.
    pub open spec fn edit_steps(self, ms: Seq<MessageView>, n: nat) -> (
        SessionState,
        Seq<MessageId>,
    )
        decreases n,
    {
        if n == 0 {
            (self, Seq::empty())
        } else {
            let (state, ids) = self.edit_steps(ms, (n - 1) as nat);
            match kept_places(self.messages(), ms)[n - 1] {
                Some(k) => (state, ids.push(self.active[k])),
                None => (state.recorded(ms[n - 1]), ids.push(state.fresh())),
            }
        }
    }

    /// [`SessionState::edit_steps`] over the whole projection.
    pub open spec fn edit_walk(self, ms: Seq<MessageView>) -> (SessionState, Seq<MessageId>) {
        self.edit_steps(ms, ms.len())
    }

    /// The projection after the caller made `ms` of it.
    pub open spec fn edited(self, ms: Seq<MessageView>) -> SessionState {
        let (state, ids) = self.edit_walk(ms);
        let kept = state.trimmed(ids);
        SessionState { opened: false, ..state.with_active(kept, "edit"@, true) }
    }

    /// The projection emptied.
    pub open spec fn cleared(self) -> SessionState {
        SessionState {
            opened: false,
            shed: 0,
            tools_fingerprint: None,
            model_generation: None,
            ..self.with_active(Seq::empty(), "clear"@, true)
        }
    }

    /// A branch with a projection of its own.
    pub open spec fn forked(
        self,
        id: Seq<char>,
        active: Seq<MessageId>,
        at: Option<MessageId>,
    ) -> SessionState {
        SessionState {
            id,
            active,
            opened: false,
            shed: 0,
            tools_fingerprint: None,
            model_generation: None,
            ..self
        }.logged(EventView::Forked(self.id, at))
    }

    /// The active ids up to and with `at`.
    pub open spec fn cut_at(self, at: MessageId) -> Seq<MessageId> {
        self.active.take(first_at(self.active, at)->0 + 1)
    }

    /// Why the projection cannot be cut after `at`.
    pub open spec fn fork_refusal(self, at: MessageId) -> Option<Refusal> {
        match self.slot_refusal(at) {
            Some(refusal) => Some(refusal),
            None => refusal_of(
                breach(self.messages_of(self.cut_at(at)), self.recorded_messages()),
            ),
        }
    }

    /// The messages beyond the first `len` withdrawn.
    pub open spec fn rolled_back(self, len: nat) -> SessionState {
        if self.active.len() <= len {
            self
        } else {
            self.with_active(self.trimmed(self.active.take(len as int)), "rollback"@, false)
        }
    }

    /// `n` more messages fallen out of the model's view.
    pub open spec fn with_shed(self, n: nat) -> SessionState {
        SessionState {
            shed: if self.shed + n <= usize::MAX {
                self.shed + n
            } else {
                usize::MAX as nat
            },
            ..self
        }
    }

    /// Whether a turn against a model generation finds a prefill of another.
    pub open spec fn model_reopens(self, generation: u64) -> bool {
        self.model_generation != Some(generation) && !(self.model_generation is None
            && !self.opened)
    }

    /// The model generation a turn is about to run against.
    pub open spec fn with_model(self, generation: u64) -> SessionState {
        SessionState {
            model_generation: Some(generation),
            opened: self.opened && !self.model_reopens(generation),
            ..self
        }
    }

    /// Whether a run with a tool prefix finds a prefill with another.
    pub open spec fn tools_reopen(self, fingerprint: u64) -> bool {
        self.tools_fingerprint != Some(fingerprint) && !(self.tools_fingerprint is None
            && !self.opened)
    }

    /// The tool prefix a run is about to use.
    pub open spec fn with_prefix(self, fingerprint: u64) -> SessionState {
        SessionState {
            tools_fingerprint: Some(fingerprint),
            opened: self.opened && !self.tools_reopen(fingerprint),
            ..self
        }
    }

    // ── Replaying a log ─────────────────────────────────────────────────

    /// A record stored under a given id.
    pub open spec fn stored(self, id: MessageId, m: MessageView) -> SessionState {
        SessionState {
            next_id: if self.next_id > id.0 {
                self.next_id
            } else {
                id.0 as nat + 1
            },
            records: self.records.push(RecordView { id, message: m, replaced_by: None }),
            ..self
        }
    }

    /// What one event of a log does to what is derived from the log.
    pub open spec fn applied(self, e: EventView) -> SessionState {
        match e {
            EventView::SystemSet(system) => SessionState { system, ..self },
            EventView::ToolsSet(tools) => SessionState { tools, ..self },
            EventView::MessageAdded(id, m) => SessionState {
                active: self.active.push(id),
                ..self.stored(id, m)
            },
            EventView::MessageReplaced(old, new, m) => {
                let s = self.stored(new, m);
                let records = match slot_of(s.records, old) {
                    Some(i) => s.records.update(
                        i,
                        RecordView { replaced_by: Some(new), ..s.records[i] },
                    ),
                    None => s.records,
                };
                let active = match first_at(s.active, old) {
                    Some(i) => s.active.update(i, new),
                    None => s.active.push(new),
                };
                SessionState { records, active, ..s }
            },
            EventView::MessageRemoved(id) => SessionState {
                active: without(self.active, id),
                ..self
            },
            EventView::MessageRecorded(id, m) => self.stored(id, m),
            EventView::ContextReplaced(active, _) => SessionState {
                active: active.filter(|id: MessageId| self.knows(id)),
                ..self
            },
            EventView::Forked(_, Some(at)) => match first_at(self.active, at) {
                Some(i) => SessionState { active: self.active.take(i + 1), ..self },
                None => self,
            },
            EventView::Forked(_, None) => self,
        }
    }

    /// What is derived from a log.
    pub open spec fn derived(id: Seq<char>, events: Seq<EventView>) -> SessionState
        decreases events.len(),
    {
        if events.len() == 0 {
            SessionState::blank(id)
        } else {
            SessionState::derived(id, events.drop_last()).applied(events.last())
        }
    }

    /// The session a log describes.
    pub open spec fn replayed(id: Seq<char>, events: Seq<EventView>) -> SessionState {
        SessionState {
            events,
            revision: context_events(events),
            ..SessionState::derived(id, events)
        }
    }

    /// Whether the session is what its own log describes, engine bookkeeping
    /// aside, and shows no record twice.
    pub open spec fn faithful(self) -> bool {
        &&& self.active.no_duplicates()
        &&& SessionState::replayed(self.id, self.events) == (SessionState {
            opened: false,
            shed: 0,
            tools_fingerprint: None,
            model_generation: None,
            ..self
        })
    }
}

} // verus!
