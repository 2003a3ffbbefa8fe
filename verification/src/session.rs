//! [`Session`]: model-agnostic conversational state you own.
//!
//! A session holds four things:
//!
//! - the **system prompt**, first-order state, not a message;
//! - the **tool set**, first-order state, not a message;
//! - the **active projection**: the messages the next turn is built from;
//! - the **append-only event log** that every one of those is derived from.
//!
//! No layer destroys the layer above it. Editing, removing, compacting and
//! restoring change what [`Session::messages`] returns; they never rewrite
//! what [`Session::events`] says happened, and every message version that
//! ever existed is still in [`Session::all_messages`].
//!
//! A tool call and its results are one unit: operations that name a
//! projection refuse one that would show half a round, and
//! [`Session::edit`], which cannot fail, trims to a round boundary instead.
use vstd::prelude::*;
use vstd::string::*;
use std::collections::HashMap;
use crate::error::{Error, SessionError};
use crate::json::Json;
use crate::matching::{find_kept, kept_places, kept_places_facts, slot_place, slot_places};
use crate::message::{
    copy_text, file_urls, same_option, to_file_urls, Message, MessageView,
};
use crate::rounds::{
    breach, drops, find_breach, find_unattributed, first_unattributed, holds, RoundBreach,
};
use crate::seqs::{
    first_at, first_at_index, first_at_is_first, group_views, view_of, views, without,
};
use crate::session_facts::{
    bookkeeping_keeps, context_events_bound, derived_valid, edit_steps_facts, edit_walk_facts,
    ids_refusal_stays, known_is_below, log_valid, mended_is_part, mint_valid, push_valid,
    record_all_facts, record_valid, replaced_valid, slot_holds, slot_marked, slot_push, storable,
    stores, with_active_valid,
};
use crate::session_model::{
    context_events, id_run, refusal_of, slot_of, EventView, MessageId, RecordView, SessionState,
};
use crate::tool_defs::{with_tool, without_tool, named, ToolDefinition, ToolSet};
use crate::text::{decimal, push_decimal, same_text};

verus! {

broadcast use {group_views, vstd::std_specs::hash::group_hash_axioms};

/// `uuid::Uuid::new_v4`, in its hyphenated form.
///
/// The value is random, so nothing is claimed of it but its length.
#[verifier::external_body]
fn random_uuid() -> (out: String)
    ensures
        out@.len() == 36,
{
    uuid::Uuid::new_v4().to_string()
}

/// Identifies a conversation.
///
/// Stable for the session's life, and the key the engine files its cached
/// state under. A [`Session::fork`] gets a new one.
#[derive(Debug, PartialEq, Eq, Hash, PartialOrd, Ord)]
pub struct SessionId(pub String);

impl View for SessionId {
    type V = Seq<char>;

    open spec fn view(&self) -> Seq<char> {
        self.0@
    }
}

impl Clone for SessionId {
    fn clone(&self) -> (out: Self)
        ensures
            out == *self,
    {
        SessionId(self.0.clone())
    }
}

impl SessionId {
    /// A new id, unlike any other but for chance.
    ///
    /// Which id is not stated: it is random.
    pub fn random() -> (out: Self)
        ensures
            "session-"@.is_prefix_of(out@),
            out@.len() == "session-"@.len() + 36,
    {
        let out = SessionId("session-".to_owned().concat(random_uuid().as_str()));
        assert("session-"@ =~= out@.subrange(0, "session-"@.len() as int));
        out
    }

    /// The id as text.
    pub fn as_str(&self) -> (out: &str)
        ensures
            out@ == self@,
    {
        self.0.as_str()
    }
}

/// How many context-affecting mutations a session has seen.
///
/// Strictly increases on every change to the system prompt, the tool set, or
/// the active projection, and never on a read.
#[derive(Debug, Clone, Copy, PartialEq, Eq, Structural, PartialOrd, Ord, Hash)]
pub struct SessionRevision(pub u64);

impl SessionRevision {
    /// The revision as a number.
    pub fn as_u64(self) -> (out: u64)
        ensures
            out == self.0,
    {
        self.0
    }

    /// The revision as text, `r` and the number.
    pub fn to_string(&self) -> (out: String)
        ensures
            out@ == "r"@ + decimal(self.0 as nat),
    {
        let mut out = "r".to_owned();
        push_decimal(&mut out, self.0);
        out
    }
}

impl MessageId {
    /// The id as a number.
    pub fn as_u64(self) -> (out: u64)
        ensures
            out == self.0,
    {
        self.0
    }

    /// The id as text, `m` and the number.
    pub fn to_string(&self) -> (out: String)
        ensures
            out@ == "m"@ + decimal(self.0 as nat),
    {
        let mut out = "m".to_owned();
        push_decimal(&mut out, self.0);
        out
    }
}

// ── History ─────────────────────────────────────────────────────────────────

/// One thing that happened to a session.
///
/// The log is append-only and is the authoritative history: everything else
/// on a [`Session`] is a replay of it.
#[derive(Debug, PartialEq, Eq)]
pub enum SessionEvent {
    /// The system prompt was set, or cleared, when `system` is `None`.
    SystemSet {
        /// The whole new prompt, not a delta.
        system: Option<String>,
    },
    /// The tool set was replaced. Additions and removals record the whole
    /// resulting set, so a reader never has to fold deltas.
    ToolsSet {
        /// The whole new set.
        tools: ToolSet,
    },
    /// A message was appended to the active projection.
    MessageAdded {
        /// The new record.
        id: MessageId,
        /// Its content.
        message: Message,
    },
    /// A message was replaced by a new version in the same position.
    MessageReplaced {
        /// The record that was replaced. It still exists.
        old_id: MessageId,
        /// The record that took its place.
        new_id: MessageId,
        /// The new content.
        message: Message,
    },
    /// A message left the active projection. Its record still exists.
    MessageRemoved {
        /// The record.
        id: MessageId,
    },
    /// A record was created for the context replacement that follows it, and
    /// is not active until that replacement names it.
    MessageRecorded {
        /// The new record.
        id: MessageId,
        /// Its content.
        message: Message,
    },
    /// The active projection was replaced wholesale.
    ContextReplaced {
        /// The projection afterwards.
        active: Vec<MessageId>,
        /// Which operation did it, when known.
        reason: Option<String>,
    },
    /// This session began as a branch of another. The parent's events
    /// precede this one verbatim.
    Forked {
        /// The session this one was forked from.
        parent: SessionId,
        /// The last active message kept, for [`Session::fork_at`].
        at: Option<MessageId>,
    },
}

impl View for SessionEvent {
    type V = EventView;

    open spec fn view(&self) -> EventView {
        match self {
            SessionEvent::SystemSet { system } => EventView::SystemSet(view_of(*system)),
            SessionEvent::ToolsSet { tools } => EventView::ToolsSet(tools@),
            SessionEvent::MessageAdded { id, message } => EventView::MessageAdded(*id, message@),
            SessionEvent::MessageReplaced { old_id, new_id, message } => EventView::MessageReplaced(
                *old_id,
                *new_id,
                message@,
            ),
            SessionEvent::MessageRemoved { id } => EventView::MessageRemoved(*id),
            SessionEvent::MessageRecorded { id, message } => EventView::MessageRecorded(
                *id,
                message@,
            ),
            SessionEvent::ContextReplaced { active, reason } => EventView::ContextReplaced(
                active@,
                view_of(*reason),
            ),
            SessionEvent::Forked { parent, at } => EventView::Forked(parent@, *at),
        }
    }
}

/// A copy of some ids.
fn copy_ids(ids: &Vec<MessageId>) -> (out: Vec<MessageId>)
    ensures
        out@ == ids@,
{
    let out = ids.clone();
    assert(out@ =~= ids@);
    out
}

impl Clone for SessionEvent {
    fn clone(&self) -> (out: Self)
        ensures
            out@ == self@,
    {
        match self {
            SessionEvent::SystemSet { system } => SessionEvent::SystemSet {
                system: copy_text(system),
            },
            SessionEvent::ToolsSet { tools } => SessionEvent::ToolsSet { tools: tools.clone() },
            SessionEvent::MessageAdded { id, message } => SessionEvent::MessageAdded {
                id: *id,
                message: message.clone(),
            },
            SessionEvent::MessageReplaced { old_id, new_id, message } => {
                SessionEvent::MessageReplaced {
                    old_id: *old_id,
                    new_id: *new_id,
                    message: message.clone(),
                }
            },
            SessionEvent::MessageRemoved { id } => SessionEvent::MessageRemoved { id: *id },
            SessionEvent::MessageRecorded { id, message } => SessionEvent::MessageRecorded {
                id: *id,
                message: message.clone(),
            },
            SessionEvent::ContextReplaced { active, reason } => SessionEvent::ContextReplaced {
                active: copy_ids(active),
                reason: copy_text(reason),
            },
            SessionEvent::Forked { parent, at } => SessionEvent::Forked {
                parent: parent.clone(),
                at: *at,
            },
        }
    }
}

/// One immutable message version, with its standing in the projection.
#[derive(Debug, PartialEq, Eq)]
pub struct MessageRecord<'a> {
    /// The record's id.
    pub id: MessageId,
    /// The message.
    pub message: &'a Message,
    /// Whether it is in the active projection right now.
    pub active: bool,
    /// The record that replaced it, if [`Session::replace_message`] did.
    pub replaced_by: Option<MessageId>,
}

/// What a tool produced, fed back to the model.
#[derive(Debug, PartialEq, Eq)]
pub enum ToolResult {
    /// Plain text, shown verbatim.
    Text(String),
    /// Structured data, shown as compact JSON.
    Json(Json),
}

impl ToolResult {
    /// What the model is shown.
    pub open spec fn shown(self) -> Seq<char> {
        match self {
            ToolResult::Text(text) => text@,
            ToolResult::Json(json) => json@,
        }
    }

    /// The text the model is shown.
    pub fn to_model_text(&self) -> (out: String)
        ensures
            out@ == self.shown(),
    {
        match self {
            ToolResult::Text(text) => text.clone(),
            ToolResult::Json(json) => json.as_str().to_owned(),
        }
    }
}

impl From<String> for ToolResult {
    fn from(text: String) -> (out: Self) {
        ToolResult::Text(text)
    }
}

impl vstd::std_specs::convert::FromSpecImpl<String> for ToolResult {
    open spec fn obeys_from_spec() -> bool {
        true
    }

    open spec fn from_spec(text: String) -> Self {
        ToolResult::Text(text)
    }
}

impl From<Json> for ToolResult {
    fn from(json: Json) -> (out: Self) {
        ToolResult::Json(json)
    }
}

impl vstd::std_specs::convert::FromSpecImpl<Json> for ToolResult {
    open spec fn obeys_from_spec() -> bool {
        true
    }

    open spec fn from_spec(json: Json) -> Self {
        ToolResult::Json(json)
    }
}

/// A stored message version.
#[derive(Debug)]
struct StoredRecord {
    id: MessageId,
    message: Message,
    replaced_by: Option<MessageId>,
}

impl View for StoredRecord {
    type V = RecordView;

    closed spec fn view(&self) -> RecordView {
        RecordView { id: self.id, message: self.message@, replaced_by: self.replaced_by }
    }
}

impl Clone for StoredRecord {
    fn clone(&self) -> (out: Self)
        ensures
            out@ == self@,
    {
        StoredRecord {
            id: self.id,
            message: self.message.clone(),
            replaced_by: self.replaced_by,
        }
    }
}

// ── Session ─────────────────────────────────────────────────────────────────

/// A conversation: its instruction state, its active messages, and the
/// lossless history they are derived from.
///
/// You hold this, not the engine. It is not `Clone`: two copies would share
/// one engine conversation and overwrite each other's cached prefill.
/// [`Session::fork`] is the independent copy.
#[derive(Debug)]
pub struct Session {
    id: SessionId,
    events: Vec<SessionEvent>,
    revision: u64,
    system: Option<String>,
    tools: ToolSet,
    records: Vec<StoredRecord>,
    index: HashMap<u64, usize>,
    active: Vec<MessageId>,
    /// The projection, rebuilt on every mutation so reads are borrows.
    projection: Vec<Message>,
    next_id: u64,
    opened: bool,
    shed: usize,
    tools_fingerprint: Option<u64>,
    model_generation: Option<u64>,
}

impl View for Session {
    type V = SessionState;

    closed spec fn view(&self) -> SessionState {
        SessionState {
            id: self.id@,
            events: views(self.events@),
            revision: self.revision as nat,
            system: view_of(self.system),
            tools: self.tools@,
            records: views(self.records@),
            active: self.active@,
            next_id: self.next_id as nat,
            opened: self.opened,
            shed: self.shed as nat,
            tools_fingerprint: self.tools_fingerprint,
            model_generation: self.model_generation,
        }
    }
}

impl Session {
    /// Whether the index finds the latest record of every id.
    closed spec fn indexed(&self) -> bool {
        forall|id: u64|
            #![trigger self.index@.contains_key(id)]
            match slot_of(views(self.records@), MessageId(id)) {
                Some(i) => self.index@.contains_key(id) && self.index@[id] == i,
                None => !self.index@.contains_key(id),
            }
    }

    /// Whether the kept projection is that of the active ids.
    closed spec fn projected(&self) -> bool {
        views(self.projection@) == self@.messages()
    }

    /// The validity of a session: its state is valid, and what is kept for
    /// speed agrees with it.
    pub open spec fn wf(&self) -> bool {
        self@.valid() && self.cached()
    }

    /// Whether what is kept for speed agrees with the state.
    pub closed spec fn cached(&self) -> bool {
        self.indexed() && self.projected()
    }

    // ── Internals ───────────────────────────────────────────────────────

    fn blank(id: SessionId) -> (out: Self)
        ensures
            out.wf(),
            out@ == SessionState::blank(id@),
    {
        let out = Session {
            id,
            events: Vec::new(),
            revision: 0,
            system: None,
            tools: ToolSet::new(),
            records: Vec::new(),
            index: HashMap::new(),
            active: Vec::new(),
            projection: Vec::new(),
            next_id: 0,
            opened: false,
            shed: 0,
            tools_fingerprint: None,
            model_generation: None,
        };
        assert(out@ =~= SessionState::blank(id@));
        assert(out@.messages() =~= Seq::empty());
        out
    }

    /// Append an event, moving the revision when it is context-affecting.
    fn log(&mut self, event: SessionEvent)
        requires
            old(self)@.revision == context_events(old(self)@.events),
        ensures
            final(self)@ == old(self)@.logged(event@),
            final(self).index == old(self).index,
            final(self).records == old(self).records,
            final(self).projection == old(self).projection,
    {
        let counts = match &event {
            SessionEvent::MessageRecorded { .. } => false,
            _ => true,
        };
        proof {
            context_events_bound(self@.events);
        }
        self.events.push(event);
        assert(self.events.len() <= usize::MAX);
        if counts {
            self.revision += 1;
        }
        assert(self@ =~= old(self)@.logged(event@));
    }

    /// Store a new record and return its id. The caller logs it.
    fn mint(&mut self, message: Message) -> (out: MessageId)
        requires
            old(self)@.valid(),
            old(self).indexed(),
            old(self)@.next_id < u64::MAX,
        ensures
            out == old(self)@.fresh(),
            final(self)@ == old(self)@.minted(message@),
            final(self).indexed(),
            final(self).projection == old(self).projection,
    {
        let id = MessageId(self.next_id);
        self.next_id += 1;
        self.index.insert(id.0, self.records.len());
        let record = StoredRecord { id, message, replaced_by: None };
        self.records.push(record);
        proof {
            assert(self@ =~= old(self)@.minted(message@));
            let before = old(self)@.records;
            assert forall|k: u64|
                #![trigger self.index@.contains_key(k)]
                match slot_of(views(self.records@), MessageId(k)) {
                    Some(i) => self.index@.contains_key(k) && self.index@[k] == i,
                    None => !self.index@.contains_key(k),
                } by {
                slot_push(before, record@, MessageId(k));
                assert(old(self).index@.contains_key(k) == (slot_of(before, MessageId(k)) is Some));
            }
        }
        id
    }

    /// Store a new record for a context replacement to name, and log it so a
    /// replay can rebuild it.
    fn record(&mut self, message: Message) -> (out: MessageId)
        requires
            old(self)@.valid(),
            old(self).cached(),
            old(self)@.next_id < u64::MAX,
        ensures
            out == old(self)@.fresh(),
            final(self)@ == old(self)@.recorded(message@),
            final(self)@.valid(),
            final(self).cached(),
            final(self).projection == old(self).projection,
    {
        let ghost before = self@;
        let copy = message.clone();
        let id = self.mint(copy);
        proof {
            mint_valid(before, message@);
        }
        self.log(SessionEvent::MessageRecorded { id, message });
        proof {
            record_valid(before, message@);
            assert(self.indexed());
            assert(self.projected());
        }
        id
    }

    /// Where the record with an id stands.
    fn slot(&self, id: MessageId) -> (out: Option<usize>)
        requires
            self.indexed(),
        ensures
            match out {
                Some(i) => slot_of(self@.records, id) == Some(i as int) && i < self.records.len()
                    && self.records@[i as int]@ == self@.records[i as int],
                None => slot_of(self@.records, id) is None,
            },
    {
        proof {
            slot_holds(self@.records, id);
        }
        match self.index.get(&id.0) {
            Some(i) => Some(*i),
            None => None,
        }
    }

    fn knows(&self, id: MessageId) -> (out: bool)
        requires
            self.indexed(),
        ensures
            out == self@.knows(id),
    {
        self.slot(id).is_some()
    }

    /// The message of a record.
    fn message_by(&self, id: MessageId) -> (out: &Message)
        requires
            self.indexed(),
            self@.knows(id),
        ensures
            out@ == self@.message_of(id),
    {
        let i = self.slot(id).unwrap();
        &self.records[i].message
    }

    /// The messages of some records.
    fn messages_by(&self, ids: &Vec<MessageId>) -> (out: Vec<&Message>)
        requires
            self.indexed(),
            forall|i: int| 0 <= i < ids.len() ==> self@.knows(#[trigger] ids@[i]),
        ensures
            views(out@) == self@.messages_of(ids@),
    {
        let mut out: Vec<&Message> = Vec::new();
        let mut i: usize = 0;
        while i < ids.len()
            invariant
                i <= ids.len(),
                self.indexed(),
                forall|k: int| 0 <= k < ids.len() ==> self@.knows(#[trigger] ids@[k]),
                out.len() == i,
                forall|k: int| 0 <= k < i ==> (#[trigger] out@[k])@ == self@.message_of(ids@[k]),
            decreases ids.len() - i,
        {
            out.push(self.message_by(ids[i]));
            i += 1;
        }
        assert(views(out@) =~= self@.messages_of(ids@));
        out
    }

    /// Every message ever recorded.
    fn recorded(&self) -> (out: Vec<&Message>)
        ensures
            views(out@) == self@.recorded_messages(),
    {
        let mut out: Vec<&Message> = Vec::new();
        let mut i: usize = 0;
        while i < self.records.len()
            invariant
                i <= self.records.len(),
                out.len() == i,
                forall|k: int|
                    0 <= k < i ==> (#[trigger] out@[k])@ == self.records@[k].message@,
            decreases self.records.len() - i,
        {
            out.push(&self.records[i].message);
            i += 1;
        }
        assert(views(out@) =~= self@.recorded_messages());
        out
    }

    fn rebuild_projection(&mut self)
        requires
            old(self).indexed(),
            old(self)@.valid(),
        ensures
            final(self)@ == old(self)@,
            final(self).cached(),
    {
        let mut out: Vec<Message> = Vec::new();
        let mut i: usize = 0;
        while i < self.active.len()
            invariant
                i <= self.active.len(),
                self.indexed(),
                self@.valid(),
                out.len() == i,
                forall|k: int|
                    0 <= k < i ==> (#[trigger] out@[k])@ == self@.message_of(self@.active[k]),
            decreases self.active.len() - i,
        {
            assert(self@.knows(self@.active[i as int]));
            out.push(self.message_by(self.active[i]).clone());
            i += 1;
        }
        assert(views(out@) =~= self@.messages());
        self.projection = out;
        assert(self@ =~= old(self)@);
        assert(self.indexed());
        assert(self.projected());
    }

    /// Where an active id sits in the projection.
    fn active_slot(&self, id: MessageId) -> (out: Result<usize, SessionError>)
        requires
            self.indexed(),
        ensures
            match out {
                Ok(i) => self@.slot_refusal(id) is None && first_at(self@.active, id) == Some(
                    i as int,
                ) && i < self.active.len(),
                Err(e) => self@.slot_refusal(id) == Some(e@),
            },
    {
        if !self.knows(id) {
            return Err(SessionError::UnknownMessage(id));
        }
        let mut i: usize = 0;
        while i < self.active.len()
            invariant
                i <= self.active.len(),
                self@.knows(id),
                forall|k: int| 0 <= k < i ==> self.active@[k] != id,
            decreases self.active.len() - i,
        {
            if self.active[i] == id {
                proof {
                    first_at_index(self@.active, id, i as int);
                }
                return Ok(i);
            }
            i += 1;
        }
        proof {
            first_at_is_first(self@.active, id);
        }
        Err(SessionError::NotActive(id))
    }

    /// Commit a new projection as a `ContextReplaced` event.
    fn set_active(&mut self, active: Vec<MessageId>, reason: &str, close: bool)
        requires
            old(self)@.valid(),
            old(self).cached(),
            forall|i: int| 0 <= i < active.len() ==> old(self)@.knows(#[trigger] active@[i]),
        ensures
            final(self)@ == old(self)@.with_active(active@, reason@, close),
            final(self)@.valid(),
            final(self).cached(),
    {
        let ghost before = self@;
        proof {
            with_active_valid(before, active@, reason@, close);
        }
        if same_ids(&active, &self.active) {
            // The same projection again is not a change.
            return;
        }
        let copy = copy_ids(&active);
        self.active = copy;
        if close {
            // The engine's cached prefill describes the old projection.
            self.opened = false;
        }
        let event = SessionEvent::ContextReplaced { active, reason: Some(reason.to_owned()) };
        let ghost mid = self@;
        assert(mid =~= SessionState { active: active@, opened: before.opened && !close, ..before });
        self.log(event);
        assert(self@ =~= before.with_active(active@, reason@, close));
        self.rebuild_projection();
    }

    /// How a candidate projection breaks a round, as a refusal.
    fn check_rounds(&self, shown: &Vec<&Message>) -> (out: Result<(), SessionError>)
        ensures
            match out {
                Ok(()) => refusal_of(breach(views(shown@), self@.recorded_messages())) is None,
                Err(e) => refusal_of(breach(views(shown@), self@.recorded_messages())) == Some(e@),
            },
    {
        match find_breach(shown, &self.recorded()) {
            None => Ok(()),
            Some(RoundBreach::OrphanResult(call_id)) => Err(SessionError::OrphanResult { call_id }),
            Some(RoundBreach::UnansweredCall(call_id)) => Err(
                SessionError::UnansweredCall { call_id },
            ),
        }
    }
}

/// Which messages mending a breach drops.
fn flag_drops(shown: &Vec<&Message>, b: &RoundBreach) -> (out: Vec<bool>)
    ensures
        out.len() == shown.len(),
        forall|i: int| 0 <= i < out.len() ==> out@[i] == #[trigger] drops(views(shown@), b@, i),
{
    let orphan = match b {
        RoundBreach::OrphanResult(id) => if same_text(id.as_str(), "") {
            find_unattributed(shown)
        } else {
            None
        },
        RoundBreach::UnansweredCall(_) => None,
    };
    let ghost all = views(shown@);
    proof {
        reveal_strlit("");
        if b is OrphanResult && b->OrphanResult_0@.len() == 0 {
            assert(b->OrphanResult_0@ =~= ""@);
        }
    }
    let mut out: Vec<bool> = Vec::new();
    let mut i: usize = 0;
    while i < shown.len()
        invariant
            i <= shown.len(),
            all == views(shown@),
            out.len() == i,
            b is OrphanResult && b->OrphanResult_0@.len() == 0 ==> (match orphan {
                Some(k) => first_unattributed(all) == Some(k as int),
                None => first_unattributed(all) is None,
            }),
            forall|k: int| 0 <= k < i ==> out@[k] == #[trigger] drops(all, b@, k),
        decreases shown.len() - i,
    {
        let m = shown[i];
        assert(all[i as int] == m@);
        let flag = match b {
            RoundBreach::OrphanResult(id) => {
                proof {
                    reveal_strlit("");
                    if id@.len() == 0 {
                        assert(id@ =~= ""@);
                    }
                }
                if same_text(id.as_str(), "") {
                    match orphan {
                        Some(k) => k == i,
                        None => false,
                    }
                } else {
                    m.is_result() && match &m.tool_call_id {
                        Some(answered) => same_text(answered.as_str(), id.as_str()),
                        None => false,
                    }
                }
            },
            RoundBreach::UnansweredCall(id) => holds(&m.calls(), id.as_str()),
        };
        out.push(flag);
        i += 1;
    }
    out
}

/// The ids none of whose places is flagged.
fn leave_flagged(ids: &Vec<MessageId>, flags: &Vec<bool>) -> (out: Vec<MessageId>)
    requires
        flags.len() == ids.len(),
    ensures
        out@ == ids@.filter(
            |id: MessageId|
                !exists|i: int| 0 <= i < ids@.len() && ids@[i] == id && #[trigger] flags@[i],
        ),
{
    let ghost keep = |id: MessageId|
        !exists|i: int| 0 <= i < ids@.len() && ids@[i] == id && #[trigger] flags@[i];
    let mut out: Vec<MessageId> = Vec::new();
    let mut i: usize = 0;
    proof {
        reveal(Seq::filter);
        assert(ids@.take(0) =~= Seq::empty());
    }
    while i < ids.len()
        invariant
            i <= ids.len(),
            flags.len() == ids.len(),
            keep == (|id: MessageId|
                !exists|i: int| 0 <= i < ids@.len() && ids@[i] == id && #[trigger] flags@[i]),
            out@ == ids@.take(i as int).filter(keep),
        decreases ids.len() - i,
    {
        let id = ids[i];
        let mut flagged = false;
        let mut j: usize = 0;
        while j < ids.len()
            invariant
                j <= ids.len(),
                flags.len() == ids.len(),
                flagged == exists|k: int| 0 <= k < j && ids@[k] == id && #[trigger] flags@[k],
            decreases ids.len() - j,
        {
            if ids[j] == id && flags[j] {
                flagged = true;
            }
            j += 1;
        }
        assert(flagged == !keep(id));
        proof {
            reveal(Seq::filter);
            assert(ids@.take(i + 1).drop_last() =~= ids@.take(i as int));
        }
        if !flagged {
            out.push(id);
        }
        i += 1;
    }
    assert(ids@.take(ids.len() as int) =~= ids@);
    out
}

impl Session {
    /// Drop whatever half rounds a projection contains, to a fixpoint.
    fn trim_to_round_boundary(&self, ids: Vec<MessageId>) -> (out: Vec<MessageId>)
        requires
            self.indexed(),
            forall|i: int| 0 <= i < ids.len() ==> self@.knows(#[trigger] ids@[i]),
        ensures
            out@ == self@.trimmed(ids@),
            forall|i: int| 0 <= i < out.len() ==> self@.knows(#[trigger] out@[i]),
    {
        let mut left = ids;
        loop
            invariant
                self.indexed(),
                self@.trimmed(ids@) == self@.trimmed(left@),
                forall|i: int| 0 <= i < left.len() ==> self@.knows(#[trigger] left@[i]),
            decreases left.len(),
        {
            let shown = self.messages_by(&left);
            let breach = match find_breach(&shown, &self.recorded()) {
                None => {
                    return left;
                },
                Some(breach) => breach,
            };
            let flags = flag_drops(&shown, &breach);
            let kept = leave_flagged(&left, &flags);
            proof {
                let all = self@.messages_of(left@);
                assert(views(shown@).len() == left.len());
                assert(kept@ == self@.mended(left@, breach@)) by {
                    let a = |id: MessageId|
                        !exists|i: int| 0 <= i < left@.len() && left@[i] == id && #[trigger] flags@[i];
                    let b = |id: MessageId|
                        !exists|i: int|
                            0 <= i < left@.len() && left@[i] == id && #[trigger] drops(
                                all,
                                breach@,
                                i,
                            );
                    assert forall|id: MessageId| #[trigger] a(id) == b(id) by {
                        if !a(id) {
                            let i = choose|i: int|
                                0 <= i < left@.len() && left@[i] == id && #[trigger] flags@[i];
                            assert(drops(all, breach@, i));
                        }
                        if !b(id) {
                            let i = choose|i: int|
                                0 <= i < left@.len() && left@[i] == id && #[trigger] drops(
                                    all,
                                    breach@,
                                    i,
                                );
                            assert(flags@[i]);
                        }
                    }
                    assert(a =~= b);
                }
                mended_is_part(self@, left@, breach@);
            }
            if kept.len() == left.len() {
                // Nothing addressable to drop; better a stale round than a
                // loop that never ends.
                return left;
            }
            assert forall|i: int| 0 <= i < kept.len() implies self@.knows(
                #[trigger] kept@[i],
            ) by {
                assert(left@.contains(kept@[i]));
            }
            left = kept;
        }
    }

    /// Ids for an edited projection: an unchanged message keeps its record,
    /// a changed one gets a new record.
    ///
    /// Matching is in order, so a message moved earlier than one that stays
    /// and that it used to follow is treated as new; see [`find_kept`].
    fn ids_for_edited(&mut self, messages: Vec<Message>) -> (out: Vec<MessageId>)
        requires
            old(self)@.valid(),
            old(self).cached(),
            old(self)@.next_id + messages.len() <= u64::MAX,
        ensures
            final(self)@ == old(self)@.edit_walk(views(messages@)).0,
            out@ == old(self)@.edit_walk(views(messages@)).1,
            final(self).cached(),
    {
        let ghost start = self@;
        let ghost ms = views(messages@);
        let places = find_kept(&self.projection, &messages);
        assert(views(self.projection@) == start.messages());
        let mut ids: Vec<MessageId> = Vec::new();
        let mut i: usize = 0;
        while i < messages.len()
            invariant
                i <= messages.len(),
                ms == views(messages@),
                start == old(self)@,
                start.valid(),
                start.next_id + messages.len() <= u64::MAX,
                self.cached(),
                slot_places(places@) == kept_places(start.messages(), ms),
                self@ == start.edit_steps(ms, i as nat).0,
                ids@ == start.edit_steps(ms, i as nat).1,
            decreases messages.len() - i,
        {
            proof {
                edit_steps_facts(start, ms, i as nat);
                kept_places_facts(start.messages(), ms);
                assert(slot_places(places@).len() == ms.len());
                assert(slot_places(places@)[i as int] == slot_place(places@[i as int]));
                assert(ms[i as int] == messages@[i as int]@);
            }
            match places[i] {
                Some(k) => {
                    assert(k < self.active.len());
                    ids.push(self.active[k]);
                },
                None => {
                    let id = self.record(messages[i].clone());
                    ids.push(id);
                },
            }
            i += 1;
        }
        ids
    }
}

impl Session {
    // ── Making one ──────────────────────────────────────────────────────

    /// A new, empty conversation.
    pub fn new() -> (out: Self)
        ensures
            out.wf(),
            out@ == SessionState::blank(out@.id),
            "session-"@.is_prefix_of(out@.id),
            out@.id.len() == "session-"@.len() + 36,
    {
        Session::blank(SessionId::random())
    }

    /// Rebuild a conversation from stored messages.
    ///
    /// A leading `system`-role message becomes the session's system prompt
    /// rather than a message, so a transcript saved when the prompt still
    /// travelled as a message renders exactly as it did. Everything else is
    /// appended in order.
    pub fn from_messages(messages: Vec<Message>) -> (out: Self)
        ensures
            out.wf(),
            out@ == SessionState::from_messages(out@.id, views(messages@)),
            "session-"@.is_prefix_of(out@.id),
            out@.id.len() == "session-"@.len() + 36,
    {
        Session::from_messages_as(SessionId::random(), messages)
    }

    /// [`Session::from_messages`], under a given id.
    pub fn from_messages_as(id: SessionId, messages: Vec<Message>) -> (out: Self)
        ensures
            out.wf(),
            out@ == SessionState::from_messages(id@, views(messages@)),
            out@.id == id@,
    {
        let ghost ms = views(messages@);
        let mut session = Session::blank(id);
        let mut i: usize = 0;
        if messages.len() > 0 && same_text(messages[0].role.as_str(), "system") {
            assert(ms[0] == messages@[0]@);
            session.set_system(messages[0].text().as_str());
            i = 1;
        }
        let ghost start = session@;
        let ghost from = i as int;
        proof {
            if messages.len() > 0 {
                assert(ms[0] == messages@[0]@);
            }
            assert(ms.skip(from).take(0) =~= Seq::empty());
        }
        while i < messages.len()
            invariant
                0 <= from <= i <= messages.len(),
                ms == views(messages@),
                session@.id == id@,
                session.wf(),
                session@.next_id == i - from,
                session@ == start.pushed_all(ms.skip(from).take(i - from)),
            decreases messages.len() - i,
        {
            proof {
                assert(messages.len() <= usize::MAX);
                let next = ms.skip(from).take(i - from + 1);
                assert(next.drop_last() =~= ms.skip(from).take(i - from));
                assert(next.last() == messages@[i as int]@);
            }
            session.push(messages[i].clone());
            i += 1;
        }
        assert(ms.skip(from).take(messages.len() - from) =~= ms.skip(from));
        assert(ms.skip(0) =~= ms);
        session
    }

    /// Set the system prompt, builder-style.
    pub fn with_system(self, text: &str) -> (out: Self)
        requires
            self.wf(),
        ensures
            out.wf(),
            out@ == self@.with_system(Some(text@)),
    {
        let mut out = self;
        out.set_system(text);
        out
    }

    /// Set the tool set, builder-style.
    pub fn with_tools(self, tools: ToolSet) -> (out: Self)
        requires
            self.wf(),
        ensures
            out.wf(),
            out@ == self@.with_tools(tools@),
    {
        let mut out = self;
        out.set_tools(tools);
        out
    }

    // ── Accessors ───────────────────────────────────────────────────────

    /// The conversation's id.
    pub fn id(&self) -> (out: &SessionId)
        ensures
            out@ == self@.id,
    {
        &self.id
    }

    /// How many context-affecting mutations this session has seen.
    pub fn revision(&self) -> (out: SessionRevision)
        ensures
            out.0 == self@.revision,
    {
        SessionRevision(self.revision)
    }

    /// The system prompt, if one is set.
    pub fn system(&self) -> (out: Option<&str>)
        ensures
            match out {
                Some(text) => self@.system == Some(text@),
                None => self@.system is None,
            },
    {
        match &self.system {
            Some(text) => Some(text.as_str()),
            None => None,
        }
    }

    /// The tools the model is offered.
    pub fn tools(&self) -> (out: &ToolSet)
        ensures
            out@ == self@.tools,
    {
        &self.tools
    }

    /// The active projection: the messages the next turn is built from,
    /// oldest first. The system prompt is not among them.
    pub fn messages(&self) -> (out: &[Message])
        requires
            self.wf(),
        ensures
            views(out@) == self@.messages(),
    {
        self.projection.as_slice()
    }

    /// The ids of the active projection, in order.
    pub fn active_ids(&self) -> (out: &[MessageId])
        ensures
            out@ == self@.active,
    {
        self.active.as_slice()
    }

    /// Every message version that has ever existed here, oldest first, with
    /// whether each is currently active and what replaced it.
    pub fn all_messages(&self) -> (out: Vec<MessageRecord<'_>>)
        ensures
            out.len() == self@.records.len(),
            forall|i: int|
                0 <= i < out.len() ==> {
                    let r = self@.records[i];
                    &&& (#[trigger] out@[i]).id == r.id
                    &&& out@[i].message@ == r.message
                    &&& out@[i].active == self@.active.contains(r.id)
                    &&& out@[i].replaced_by == r.replaced_by
                },
    {
        let mut out: Vec<MessageRecord<'_>> = Vec::new();
        let mut i: usize = 0;
        while i < self.records.len()
            invariant
                i <= self.records.len(),
                out.len() == i,
                forall|k: int|
                    0 <= k < i ==> {
                        let r = self@.records[k];
                        &&& (#[trigger] out@[k]).id == r.id
                        &&& out@[k].message@ == r.message
                        &&& out@[k].active == self@.active.contains(r.id)
                        &&& out@[k].replaced_by == r.replaced_by
                    },
            decreases self.records.len() - i,
        {
            let r = &self.records[i];
            assert(self@.records[i as int] == r@);
            out.push(
                MessageRecord {
                    id: r.id,
                    message: &r.message,
                    active: contains_id(&self.active, r.id),
                    replaced_by: r.replaced_by,
                },
            );
            i += 1;
        }
        out
    }

    /// One record by id, active or not.
    pub fn message(&self, id: MessageId) -> (out: Option<&Message>)
        requires
            self.wf(),
        ensures
            match out {
                Some(m) => self@.knows(id) && m@ == self@.message_of(id),
                None => !self@.knows(id),
            },
    {
        match self.slot(id) {
            Some(i) => Some(&self.records[i].message),
            None => None,
        }
    }

    /// Everything that has happened to this session, oldest first.
    pub fn events(&self) -> (out: &[SessionEvent])
        ensures
            views(out@) == self@.events,
    {
        self.events.as_slice()
    }

    /// The most recent active message.
    pub fn latest(&self) -> (out: Option<&Message>)
        requires
            self.wf(),
        ensures
            match out {
                Some(m) => self@.messages().len() > 0 && m@ == self@.messages().last(),
                None => self@.messages().len() == 0,
            },
    {
        assert(views(self.projection@).len() == self@.messages().len());
        if self.projection.len() == 0 {
            None
        } else {
            assert(views(self.projection@).last() == self@.messages().last());
            Some(&self.projection[self.projection.len() - 1])
        }
    }

    /// The most recent active message's text.
    pub fn latest_text(&self) -> (out: Option<String>)
        requires
            self.wf(),
        ensures
            match out {
                Some(text) => self@.messages().len() > 0 && text@
                    == self@.messages().last().text(),
                None => self@.messages().len() == 0,
            },
    {
        match self.latest() {
            Some(m) => Some(m.text()),
            None => None,
        }
    }

    /// How many messages the active projection holds.
    pub fn len(&self) -> (out: usize)
        ensures
            out == self@.active.len(),
    {
        self.active.len()
    }

    /// Whether the active projection is empty.
    pub fn is_empty(&self) -> (out: bool)
        ensures
            out == (self@.active.len() == 0),
    {
        self.active.len() == 0
    }

    /// How many messages have fallen out of the model's context window. The
    /// session's messages are all still here.
    pub fn shed(&self) -> (out: usize)
        ensures
            out == self@.shed,
    {
        self.shed
    }

    /// Whether the model can still see the whole conversation.
    pub fn fully_in_context(&self) -> (out: bool)
        ensures
            out == (self@.shed == 0),
    {
        self.shed == 0
    }

    /// Whether the engine holds a prefill of this conversation.
    pub fn opened(&self) -> (out: bool)
        ensures
            out == self@.opened,
    {
        self.opened
    }

    /// The number the next record's id will have.
    pub fn next_number(&self) -> (out: u64)
        ensures
            out == self@.next_id,
    {
        self.next_id
    }

    // ── System prompt ───────────────────────────────────────────────────

    /// Set the system prompt. Setting the text already in place is not a
    /// change and records nothing.
    pub fn set_system(&mut self, text: &str)
        requires
            old(self).wf(),
        ensures
            final(self).wf(),
            final(self)@ == old(self)@.with_system(Some(text@)),
    {
        self.put_system(Some(text.to_owned()));
    }

    /// Append to the system prompt (or set it, if there is none).
    pub fn append_system(&mut self, text: &str)
        requires
            old(self).wf(),
        ensures
            final(self).wf(),
            final(self)@ == old(self)@.with_more_system(text@),
    {
        let system = match &self.system {
            Some(system) => system.clone().concat(text),
            None => text.to_owned(),
        };
        self.put_system(Some(system));
    }

    /// Remove the system prompt.
    pub fn clear_system(&mut self)
        requires
            old(self).wf(),
        ensures
            final(self).wf(),
            final(self)@ == old(self)@.with_system(None),
    {
        self.put_system(None);
    }

    fn put_system(&mut self, system: Option<String>)
        requires
            old(self).wf(),
        ensures
            final(self).wf(),
            final(self)@ == old(self)@.with_system(view_of(system)),
    {
        if same_option(&self.system, &system) {
            return;
        }
        let ghost before = self@;
        self.system = copy_text(&system);
        // The prefix the model was opened with is gone.
        self.opened = false;
        let ghost mid = SessionState { system: view_of(system), opened: false, ..before };
        assert(self@ =~= mid);
        self.log(SessionEvent::SystemSet { system });
        proof {
            assert(mid.messages() =~= before.messages());
            assert forall|i: int| 0 <= i < mid.active.len() implies mid.knows(
                #[trigger] mid.active[i],
            ) by {
                assert(before.knows(before.active[i]));
            }
            log_valid(mid, EventView::SystemSet(view_of(system)));
            assert(self.indexed());
            assert(self.projected());
        }
    }

    // ── Tools ───────────────────────────────────────────────────────────

    /// Replace the tool set. The same set again is not a change.
    pub fn set_tools(&mut self, tools: ToolSet)
        requires
            old(self).wf(),
        ensures
            final(self).wf(),
            final(self)@ == old(self)@.with_tools(tools@),
    {
        if self.tools.same(&tools) {
            return;
        }
        let ghost before = self@;
        self.tools = tools.clone();
        self.opened = false;
        let ghost mid = SessionState { tools: tools@, opened: false, ..before };
        assert(self@ =~= mid);
        self.log(SessionEvent::ToolsSet { tools });
        proof {
            assert(mid.messages() =~= before.messages());
            assert forall|i: int| 0 <= i < mid.active.len() implies mid.knows(
                #[trigger] mid.active[i],
            ) by {
                assert(before.knows(before.active[i]));
            }
            log_valid(mid, EventView::ToolsSet(tools@));
            assert(self.indexed());
            assert(self.projected());
        }
    }

    /// Add one tool (replacing a same-named one in place).
    pub fn add_tool(&mut self, tool: ToolDefinition)
        requires
            old(self).wf(),
        ensures
            final(self).wf(),
            final(self)@ == old(self)@.with_tools(with_tool(old(self)@.tools, tool@)),
    {
        let mut tools = self.tools.clone();
        tools.add(tool);
        self.set_tools(tools);
    }

    /// Remove a tool by name. Returns whether it was there.
    pub fn remove_tool(&mut self, name: &str) -> (out: bool)
        requires
            old(self).wf(),
        ensures
            final(self).wf(),
            final(self)@ == old(self)@.with_tools(without_tool(old(self)@.tools, name@)),
            out == (named(old(self)@.tools, name@) is Some),
    {
        let mut tools = self.tools.clone();
        let removed = tools.remove(name).is_some();
        self.set_tools(tools);
        removed
    }

    // ── Appending ───────────────────────────────────────────────────────

    /// Append a message to the active projection.
    pub fn push(&mut self, message: Message) -> (out: MessageId)
        requires
            old(self).wf(),
            old(self)@.next_id < u64::MAX,
        ensures
            final(self).wf(),
            out == old(self)@.fresh(),
            final(self)@ == old(self)@.pushed(message@),
    {
        let ghost before = self@;
        let id = self.mint(message.clone());
        self.active.push(id);
        self.projection.push(message.clone());
        let ghost mid = SessionState {
            active: before.active.push(before.fresh()),
            ..before.minted(message@)
        };
        assert(self@ =~= mid);
        self.log(SessionEvent::MessageAdded { id, message });
        proof {
            push_valid(before, message@);
            assert(self.indexed());
            assert(self.projected());
        }
        id
    }

    /// Append a user message.
    pub fn push_user(&mut self, text: &str) -> (out: MessageId)
        requires
            old(self).wf(),
            old(self)@.next_id < u64::MAX,
        ensures
            final(self).wf(),
            out == old(self)@.fresh(),
            final(self)@ == old(self)@.pushed(MessageView::user(text@)),
    {
        self.push(Message::user(text))
    }

    /// Append a user message carrying images.
    ///
    /// Paths become `file://` URLs; already-formed `http(s)://` or `file://`
    /// URLs pass through. With no images this is exactly
    /// [`Session::push_user`].
    pub fn push_user_with_images(&mut self, text: &str, images: &Vec<String>) -> (out: MessageId)
        requires
            old(self).wf(),
            old(self)@.next_id < u64::MAX,
        ensures
            final(self).wf(),
            out == old(self)@.fresh(),
            final(self)@ == old(self)@.pushed(
                MessageView::user_with_images(text@, file_urls(views(images@))),
            ),
    {
        self.push(Message::user_with_images(text, to_file_urls(images)))
    }

    /// Append a tool's result, tied to the call it answers.
    pub fn push_tool_result(&mut self, call_id: &str, result: ToolResult) -> (out: MessageId)
        requires
            old(self).wf(),
            old(self)@.next_id < u64::MAX,
        ensures
            final(self).wf(),
            out == old(self)@.fresh(),
            final(self)@ == old(self)@.pushed(MessageView::result_for(call_id@, result.shown())),
    {
        self.push(Message::tool_result_for(call_id, result.to_model_text().as_str()))
    }
}

impl Session {
    // ── Editing ─────────────────────────────────────────────────────────

    /// The projection as references, for a round check.
    fn shown(&self) -> (out: Vec<&Message>)
        requires
            self.projected(),
        ensures
            views(out@) == self@.messages(),
            out.len() == self@.active.len(),
    {
        let mut out: Vec<&Message> = Vec::new();
        let mut i: usize = 0;
        while i < self.projection.len()
            invariant
                i <= self.projection.len(),
                out.len() == i,
                forall|k: int| 0 <= k < i ==> (#[trigger] out@[k])@ == self.projection@[k]@,
            decreases self.projection.len() - i,
        {
            out.push(&self.projection[i]);
            i += 1;
        }
        assert(views(out@) =~= views(self.projection@));
        assert(views(out@).len() == self@.active.len());
        out
    }

    /// Replace an active message with a new version in the same position.
    ///
    /// The old record stays in [`Session::all_messages`], marked with what
    /// replaced it, and the event log says so. Returns the new record's id.
    /// Refused if the id is unknown or not active, or if the new projection
    /// would split a tool round.
    pub fn replace_message(&mut self, old_id: MessageId, message: Message) -> (out: Result<
        MessageId,
        Error,
    >)
        requires
            old(self).wf(),
            old(self)@.next_id < u64::MAX,
        ensures
            final(self).wf(),
            match old(self)@.replace_refusal(old_id, message@) {
                None => out == Ok::<MessageId, Error>(old(self)@.fresh()) && final(self)@ == old(self)@.replaced(old_id, message@),
                Some(refusal) => out matches Err(Error::Session(e)) && e@ == refusal && final(self)@ == old(self)@,
            },
    {
        let ghost before = self@;
        let slot = match self.active_slot(old_id) {
            Ok(slot) => slot,
            Err(e) => {
                return Err(Error::Session(e));
            },
        };
        let mut shown = self.shown();
        shown.set(slot, &message);
        assert(views(shown@) =~= before.messages().update(slot as int, message@));
        match self.check_rounds(&shown) {
            Ok(()) => {},
            Err(e) => {
                return Err(Error::Session(e));
            },
        }
        let at = self.slot(old_id).unwrap();
        let new_id = self.mint(message.clone());
        let ghost minted = self@;
        proof {
            mint_valid(before, message@);
            known_is_below(before, old_id);
            slot_push(
                before.records,
                RecordView { id: before.fresh(), message: message@, replaced_by: None },
                old_id,
            );
        }
        let marked = StoredRecord {
            id: self.records[at].id,
            message: self.records[at].message.clone(),
            replaced_by: Some(new_id),
        };
        self.records.set(at, marked);
        self.active.set(slot, new_id);
        self.opened = false;
        proof {
            assert(minted.records[at as int] == before.records[at as int]);
            let mid = SessionState {
                records: minted.records.update(
                    at as int,
                    RecordView { replaced_by: Some(new_id), ..minted.records[at as int] },
                ),
                active: before.active.update(slot as int, new_id),
                opened: false,
                ..minted
            };
            assert(self@ =~= mid);
            replaced_valid(before, old_id, message@);
            assert(self.indexed()) by {
                assert forall|k: u64|
                    #![trigger self.index@.contains_key(k)]
                    match slot_of(views(self.records@), MessageId(k)) {
                        Some(i) => self.index@.contains_key(k) && self.index@[k] == i,
                        None => !self.index@.contains_key(k),
                    } by {
                    slot_marked(
                        minted.records,
                        at as int,
                        views(self.records@)[at as int],
                        MessageId(k),
                    );
                }
            }
        }
        self.log(SessionEvent::MessageReplaced { old_id, new_id, message });
        assert(self@ =~= before.replaced(old_id, message@));
        assert(self.indexed());
        self.rebuild_projection();
        Ok(new_id)
    }

    /// Take a message out of the active projection.
    ///
    /// The record stays in [`Session::all_messages`]. Refused if the id is
    /// unknown or not active, or if removing it would leave a tool result
    /// without its call or a call without its result.
    pub fn remove_message(&mut self, id: MessageId) -> (out: Result<(), Error>)
        requires
            old(self).wf(),
        ensures
            final(self).wf(),
            match old(self)@.remove_refusal(id) {
                None => out is Ok && final(self)@ == old(self)@.removed(id),
                Some(refusal) => out matches Err(Error::Session(e)) && e@ == refusal && final(self)@ == old(self)@,
            },
    {
        let ghost before = self@;
        let slot = match self.active_slot(id) {
            Ok(slot) => slot,
            Err(e) => {
                return Err(Error::Session(e));
            },
        };
        let mut shown = self.shown();
        let _ = shown.remove(slot);
        assert(views(shown@) =~= before.messages().remove(slot as int));
        match self.check_rounds(&shown) {
            Ok(()) => {},
            Err(e) => {
                return Err(Error::Session(e));
            },
        }
        let _ = self.active.remove(slot);
        self.opened = false;
        proof {
            let mid = SessionState {
                active: before.active.remove(slot as int),
                opened: false,
                ..before
            };
            assert(self@ =~= mid);
            assert forall|i: int| 0 <= i < mid.active.len() implies mid.knows(
                #[trigger] mid.active[i],
            ) by {
                let k = if i < slot {
                    i
                } else {
                    i + 1
                };
                assert(before.knows(before.active[k]));
            }
            log_valid(mid, EventView::MessageRemoved(id));
        }
        self.log(SessionEvent::MessageRemoved { id });
        assert(self.indexed());
        self.rebuild_projection();
        Ok(())
    }

    /// Replace the whole active projection, to compact it, say.
    ///
    /// Every message given becomes a new record; the old ones stay in
    /// [`Session::all_messages`] and the log records a context replacement,
    /// not a deletion. Refused, with nothing changed, if the new projection
    /// would show half a tool round.
    pub fn replace_messages(&mut self, messages: Vec<Message>) -> (out: Result<(), Error>)
        requires
            old(self).wf(),
            old(self)@.next_id + messages.len() <= u64::MAX,
        ensures
            final(self).wf(),
            match old(self)@.replace_all_refusal(views(messages@)) {
                None => out is Ok && final(self)@ == old(self)@.replaced_all(views(messages@)),
                Some(refusal) => out matches Err(Error::Session(e)) && e@ == refusal && final(self)@ == old(self)@,
            },
    {
        let ghost before = self@;
        let ghost ms = views(messages@);
        // Check before minting anything, so a refusal leaves no trace.
        let shown = refs(&messages);
        match self.check_rounds(&shown) {
            Ok(()) => {},
            Err(e) => {
                return Err(Error::Session(e));
            },
        }
        let mut ids: Vec<MessageId> = Vec::new();
        let mut i: usize = 0;
        assert(ms.take(0) =~= Seq::empty());
        assert(ids@ =~= id_run(before.next_id, 0));
        while i < messages.len()
            invariant
                i <= messages.len(),
                before.valid(),
                before.next_id + messages.len() <= u64::MAX,
                ms == views(messages@),
                self.cached(),
                self@ == before.recorded_all(ms.take(i as int)),
                ids@ == id_run(before.next_id, i as nat),
            decreases messages.len() - i,
        {
            proof {
                record_all_facts(before, ms.take(i as int));
                assert(ms.take(i + 1).drop_last() =~= ms.take(i as int));
                assert(ms.take(i + 1).last() == messages@[i as int]@);
            }
            let id = self.record(messages[i].clone());
            ids.push(id);
            assert(ids@ =~= id_run(before.next_id, (i + 1) as nat));
            i += 1;
        }
        proof {
            assert(ms.take(messages.len() as int) =~= ms);
            record_all_facts(before, ms);
        }
        self.set_active(ids, "replace_messages", true);
        Ok(())
    }

    /// Restore an earlier projection by id: undo, branch navigation,
    /// retry-from-here.
    ///
    /// Every id must name a record in this session; records need not be
    /// active now. Refused if any id is unknown or repeated, or if the
    /// projection would show half a tool round.
    pub fn restore_context(&mut self, ids: Vec<MessageId>) -> (out: Result<(), Error>)
        requires
            old(self).wf(),
        ensures
            final(self).wf(),
            match old(self)@.restore_refusal(ids@) {
                None => out is Ok && final(self)@ == old(self)@.restored(ids@),
                Some(refusal) => out matches Err(Error::Session(e)) && e@ == refusal && final(self)@ == old(self)@,
            },
    {
        let ghost before = self@;
        let mut seen: Vec<MessageId> = Vec::new();
        let mut i: usize = 0;
        assert(ids@.take(0) =~= Seq::empty());
        while i < ids.len()
            invariant
                i <= ids.len(),
                self.wf(),
                self@ == before,
                seen@ == ids@.take(i as int),
                before.ids_refusal(ids@.take(i as int)) is None,
                forall|k: int| 0 <= k < i ==> before.knows(#[trigger] ids@[k]),
            decreases ids.len() - i,
        {
            let id = ids[i];
            proof {
                assert(ids@.take(i + 1).drop_last() =~= ids@.take(i as int));
                assert(ids@.take(i + 1).last() == id);
            }
            if !self.knows(id) {
                proof {
                    ids_refusal_stays(before, ids@, i + 1);
                }
                return Err(Error::Session(SessionError::UnknownMessage(id)));
            }
            if contains_id(&seen, id) {
                proof {
                    ids_refusal_stays(before, ids@, i + 1);
                }
                return Err(Error::Session(SessionError::Duplicate(id)));
            }
            seen.push(id);
            assert(seen@ =~= ids@.take(i + 1));
            i += 1;
        }
        assert(ids@.take(ids.len() as int) =~= ids@);
        let shown = self.messages_by(&ids);
        match self.check_rounds(&shown) {
            Ok(()) => {},
            Err(e) => {
                return Err(Error::Session(e));
            },
        }
        self.set_active(ids, "restore_context", true);
        Ok(())
    }

    /// Edit the active projection in place: trim it, delete a message,
    /// rewrite one.
    ///
    /// Lossless like every other mutation, and messages the closure leaves
    /// unchanged keep their ids: as many as can be matched in order do. This
    /// cannot refuse, so where the closure leaves half a tool round it trims
    /// to the round boundary: a result whose call was removed goes too, and so
    /// does a call whose results were. Marks the conversation unopened either
    /// way.
    pub fn edit(&mut self, f: impl FnOnce(&mut Vec<Message>))
        requires
            old(self).wf(),
            forall|r: &mut Vec<Message>|
                views((*r)@) == old(self)@.messages() ==> #[trigger] call_requires(f, (r,)),
            forall|r: &mut Vec<Message>|
                views((*r)@) == old(self)@.messages() && #[trigger] call_ensures(f, (r,), ())
                    ==> old(self)@.next_id + final(r)@.len() <= u64::MAX,
        ensures
            final(self).wf(),
            exists|r: &mut Vec<Message>|
                {
                    &&& views((*r)@) == old(self)@.messages()
                    &&& #[trigger] call_ensures(f, (r,), ())
                    &&& final(self)@ == old(self)@.edited(views(final(r)@))
                },
    {
        let mut messages = self.projection.clone();
        assert(views(messages@) =~= views(self.projection@));
        f(&mut messages);
        self.commit_edit(messages);
    }

    /// Make `messages` the projection; see [`Session::edit`].
    fn commit_edit(&mut self, messages: Vec<Message>)
        requires
            old(self).wf(),
            old(self)@.next_id + messages.len() <= u64::MAX,
        ensures
            final(self).wf(),
            final(self)@ == old(self)@.edited(views(messages@)),
    {
        let ghost before = self@;
        proof {
            edit_walk_facts(before, views(messages@));
        }
        let ids = self.ids_for_edited(messages);
        let ghost walked = self@;
        let kept = self.trim_to_round_boundary(ids);
        self.set_active(kept, "edit", true);
        self.close();
        assert(self@ =~= before.edited(views(messages@)));
    }

    fn close(&mut self)
        requires
            old(self).wf(),
        ensures
            final(self).wf(),
            final(self)@ == (SessionState { opened: false, ..old(self)@ }),
    {
        self.set_opened(false);
    }

    /// Say whether the engine holds a prefill of this conversation.
    pub fn set_opened(&mut self, opened: bool)
        requires
            old(self).wf(),
        ensures
            final(self).wf(),
            final(self)@ == (SessionState { opened, ..old(self)@ }),
    {
        let ghost before = self@;
        self.opened = opened;
        proof {
            let after = SessionState { opened, ..before };
            assert(self@ =~= after);
            bookkeeping_keeps(before, after);
            assert(self.indexed());
            assert(self.projected());
        }
    }

    /// Empty the active projection and start over, keeping the same id, the
    /// system prompt, and the tools.
    ///
    /// The old messages stay in [`Session::all_messages`]; this is a context
    /// replacement, not a deletion. Marks the conversation unopened.
    pub fn clear(&mut self)
        requires
            old(self).wf(),
        ensures
            final(self).wf(),
            final(self)@ == old(self)@.cleared(),
    {
        let empty: Vec<MessageId> = Vec::new();
        self.set_active(empty, "clear", true);
        let ghost mid = self@;
        self.opened = false;
        self.shed = 0;
        self.tools_fingerprint = None;
        self.model_generation = None;
        proof {
            let after = SessionState {
                opened: false,
                shed: 0,
                tools_fingerprint: None,
                model_generation: None,
                ..mid
            };
            assert(self@ =~= after);
            bookkeeping_keeps(mid, after);
            assert(self.indexed());
            assert(self.projected());
        }
    }

    // ── Forking ─────────────────────────────────────────────────────────

    /// Branch this conversation into an independent copy.
    ///
    /// The fork has a new id, the same system prompt, tools and active
    /// projection, and the parent's whole event log and records, followed by
    /// a [`SessionEvent::Forked`]. It starts unopened.
    pub fn fork(&self) -> (out: Self)
        requires
            self.wf(),
        ensures
            out.wf(),
            out@ == self@.forked(out@.id, self@.active, None),
            "session-"@.is_prefix_of(out@.id),
            out@.id.len() == "session-"@.len() + 36,
    {
        self.fork_as(SessionId::random())
    }

    /// [`Session::fork`], under a given id.
    pub fn fork_as(&self, id: SessionId) -> (out: Self)
        requires
            self.wf(),
        ensures
            out.wf(),
            out@ == self@.forked(id@, self@.active, None),
            out@.id == id@,
    {
        self.fork_with(id, copy_ids(&self.active), None)
    }

    /// Branch, keeping the active projection only up to and including `at`.
    ///
    /// Refused if `at` is unknown or not active, or if cutting there would
    /// split a tool round.
    pub fn fork_at(&self, at: MessageId) -> (out: Result<Self, Error>)
        requires
            self.wf(),
        ensures
            match self@.fork_refusal(at) {
                None => out matches Ok(fork) && fork.wf() && fork@ == self@.forked(
                    fork@.id,
                    self@.cut_at(at),
                    Some(at),
                ) && "session-"@.is_prefix_of(fork@.id) && fork@.id.len() == "session-"@.len() + 36,
                Some(refusal) => out matches Err(Error::Session(e)) && e@ == refusal,
            },
    {
        self.fork_at_as(SessionId::random(), at)
    }

    /// [`Session::fork_at`], under a given id.
    pub fn fork_at_as(&self, id: SessionId, at: MessageId) -> (out: Result<Self, Error>)
        requires
            self.wf(),
        ensures
            match self@.fork_refusal(at) {
                None => out matches Ok(fork) && fork.wf() && fork@ == self@.forked(
                    id@,
                    self@.cut_at(at),
                    Some(at),
                ) && fork@.id == id@,
                Some(refusal) => out matches Err(Error::Session(e)) && e@ == refusal,
            },
    {
        let slot = match self.active_slot(at) {
            Ok(slot) => slot,
            Err(e) => {
                return Err(Error::Session(e));
            },
        };
        let mut active = copy_ids(&self.active);
        active.truncate(slot + 1);
        assert(active@ =~= self@.cut_at(at));
        assert forall|i: int| 0 <= i < active.len() implies self@.knows(#[trigger] active@[i]) by {
            assert(self@.knows(self@.active[i]));
        }
        let shown = self.messages_by(&active);
        match self.check_rounds(&shown) {
            Ok(()) => {},
            Err(e) => {
                return Err(Error::Session(e));
            },
        }
        Ok(self.fork_with(id, active, Some(at)))
    }

    fn fork_with(&self, id: SessionId, active: Vec<MessageId>, at: Option<MessageId>) -> (out: Self)
        requires
            self.wf(),
            forall|i: int| 0 <= i < active.len() ==> self@.knows(#[trigger] active@[i]),
        ensures
            out.wf(),
            out@ == self@.forked(id@, active@, at),
    {
        let events = self.events.clone();
        assert(views(events@) =~= views(self.events@));
        let records = self.records.clone();
        assert(views(records@) =~= views(self.records@));
        let mut fork = Session {
            id,
            events,
            revision: self.revision,
            system: copy_text(&self.system),
            tools: self.tools.clone(),
            records,
            index: self.index.clone(),
            active,
            projection: Vec::new(),
            next_id: self.next_id,
            opened: false,
            shed: 0,
            tools_fingerprint: None,
            model_generation: None,
        };
        let ghost mid = fork@;
        proof {
            assert(mid =~= SessionState {
                id: id@,
                active: active@,
                opened: false,
                shed: 0,
                tools_fingerprint: None,
                model_generation: None,
                ..self@
            });
            assert forall|i: int| 0 <= i < mid.active.len() implies mid.knows(
                #[trigger] mid.active[i],
            ) by {
                assert(self@.knows(active@[i]));
            }
            log_valid(mid, EventView::Forked(self@.id, at));
        }
        fork.log(SessionEvent::Forked { parent: self.id.clone(), at });
        assert(fork.indexed()) by {
            assert(fork.index@ == self.index@);
            assert forall|k: u64|
                #![trigger fork.index@.contains_key(k)]
                match slot_of(views(fork.records@), MessageId(k)) {
                    Some(i) => fork.index@.contains_key(k) && fork.index@[k] == i,
                    None => !fork.index@.contains_key(k),
                } by {
                assert(self.index@.contains_key(k) == (slot_of(
                    views(self.records@),
                    MessageId(k),
                ) is Some));
            }
        }
        fork.rebuild_projection();
        fork
    }

    // ── Engine-facing ───────────────────────────────────────────────────

    /// The messages the model is rendered from: the system prompt, if any,
    /// followed by the active projection.
    pub fn transcript(&self) -> (out: Vec<Message>)
        requires
            self.wf(),
        ensures
            views(out@) == self@.transcript(),
    {
        let mut out: Vec<Message> = Vec::new();
        match &self.system {
            Some(system) => {
                out.push(Message::system(system.as_str()));
            },
            None => {},
        }
        let mut rest = self.projection.clone();
        assert(views(rest@) =~= views(self.projection@));
        out.append(&mut rest);
        assert(views(out@) =~= self@.transcript());
        out
    }

    /// Messages the engine still needs for the next turn.
    ///
    /// A conversation the engine already has open only needs what is new
    /// since; one it does not needs the lot. Counts are over
    /// [`Session::transcript`], system prompt included, because that is what
    /// the engine was handed.
    pub fn pending(&self, sent_through: usize) -> (out: Vec<Message>)
        requires
            self.wf(),
        ensures
            views(out@) == self@.pending(sent_through as nat),
    {
        let mut transcript = self.transcript();
        if self.opened {
            let ghost all = views(transcript@);
            let at = if sent_through < transcript.len() {
                sent_through
            } else {
                transcript.len()
            };
            let rest = transcript.split_off(at);
            assert(views(rest@) =~= all.skip(at as int));
            rest
        } else {
            transcript
        }
    }

    /// Undo messages appended since the projection had `len` of them.
    ///
    /// For a turn rejected before anything was sent. Lossless: the withdrawn
    /// records stay in the log. Does not close the conversation: nothing
    /// withdrawn ever reached the engine.
    pub fn rollback_to(&mut self, len: usize)
        requires
            old(self).wf(),
        ensures
            final(self).wf(),
            final(self)@ == old(self)@.rolled_back(len as nat),
    {
        if self.active.len() <= len {
            return;
        }
        let mut ids = copy_ids(&self.active);
        ids.truncate(len);
        assert(ids@ =~= self@.active.take(len as int));
        assert forall|i: int| 0 <= i < ids.len() implies self@.knows(#[trigger] ids@[i]) by {
            assert(self@.knows(self@.active[i]));
        }
        let kept = self.trim_to_round_boundary(ids);
        self.set_active(kept, "rollback", false);
    }

    /// Record that the engine shed `n` messages this turn.
    pub fn note_shed(&mut self, n: usize)
        requires
            old(self).wf(),
        ensures
            final(self).wf(),
            final(self)@ == old(self)@.with_shed(n as nat),
    {
        let ghost before = self@;
        self.shed = self.shed.saturating_add(n);
        proof {
            let after = before.with_shed(n as nat);
            assert(self@ =~= after);
            bookkeeping_keeps(before, after);
            assert(self.indexed());
            assert(self.projected());
        }
    }

    /// Declare which model generation a turn is about to run against.
    ///
    /// A different one reopens the conversation, because the engine's cached
    /// prefill was produced by weights that are no longer loaded. Returns
    /// whether the conversation was reopened.
    pub fn note_model(&mut self, generation: u64) -> (out: bool)
        requires
            old(self).wf(),
        ensures
            final(self).wf(),
            final(self)@ == old(self)@.with_model(generation),
            out == old(self)@.model_reopens(generation),
    {
        let ghost before = self@;
        let reopens = match self.model_generation {
            Some(current) => current != generation,
            None => self.opened,
        };
        self.model_generation = Some(generation);
        self.opened = self.opened && !reopens;
        proof {
            let after = before.with_model(generation);
            assert(self@ =~= after);
            bookkeeping_keeps(before, after);
            indexed_alike(*old(self), *self);
            assert(self.projected());
        }
        reopens
    }

    /// Declare the executable tool prefix a run is about to use.
    ///
    /// A set different from the one this conversation was opened with
    /// reopens it, so the new definitions actually reach the model. Returns
    /// whether the conversation was reopened.
    pub fn note_tools(&mut self, fingerprint: u64) -> (out: bool)
        requires
            old(self).wf(),
        ensures
            final(self).wf(),
            final(self)@ == old(self)@.with_prefix(fingerprint),
            out == old(self)@.tools_reopen(fingerprint),
    {
        let ghost before = self@;
        let reopens = match self.tools_fingerprint {
            Some(current) => current != fingerprint,
            None => self.opened,
        };
        self.tools_fingerprint = Some(fingerprint);
        self.opened = self.opened && !reopens;
        proof {
            let after = before.with_prefix(fingerprint);
            assert(self@ =~= after);
            bookkeeping_keeps(before, after);
            indexed_alike(*old(self), *self);
            assert(self.projected());
        }
        reopens
    }
}

impl Session {
    // ── Reading back a log ──────────────────────────────────────────────

    /// Read back what was stored: an event log, or a flat transcript where
    /// there is no log, so that conversations stored as one still open.
    /// `None` where a record has the last number there is.
    pub fn stored(id: SessionId, events: Vec<SessionEvent>, messages: Vec<Message>) -> (out: Option<
        Self,
    >)
        ensures
            storable(views(events@)) <==> out is Some,
            out matches Some(session) ==> session.wf() && session@ == (if events.len() == 0
                && messages.len() > 0 {
                SessionState::from_messages(id@, views(messages@))
            } else {
                SessionState::replayed(id@, views(events@))
            }),
    {
        if events.len() == 0 && messages.len() > 0 {
            return Some(Session::from_messages_as(id, messages));
        }
        if can_replay(&events) {
            Some(Session::replay(id, events))
        } else {
            None
        }
    }

    /// Rebuild a session from its id and its event log.
    ///
    /// Everything but the log is derived. Engine bookkeeping is not part of
    /// a log, so a session read back is never open and has shed nothing.
    pub fn replay(id: SessionId, events: Vec<SessionEvent>) -> (out: Self)
        requires
            storable(views(events@)),
        ensures
            out.wf(),
            out@ == SessionState::replayed(id@, views(events@)),
    {
        let ghost all = views(events@);
        let mut s = Session::blank(id);
        let mut revision: u64 = 0;
        let mut i: usize = 0;
        assert(all.take(0) =~= Seq::empty());
        while i < events.len()
            invariant
                i <= events.len(),
                all == views(events@),
                storable(all),
                s.indexed(),
                s@ == SessionState::derived(id@, all.take(i as int)),
                revision == context_events(all.take(i as int)),
                revision <= i,
            decreases events.len() - i,
        {
            proof {
                assert(events.len() <= usize::MAX);
                assert(all.take(i + 1).drop_last() =~= all.take(i as int));
                assert(all.take(i + 1).last() == events@[i as int]@);
                assert(all[i as int] == events@[i as int]@);
                storable_take(all, i as int);
                derived_valid(id@, all.take(i as int));
            }
            s.apply(&events[i]);
            let counts = match &events[i] {
                SessionEvent::MessageRecorded { .. } => false,
                _ => true,
            };
            if counts {
                revision += 1;
            }
            i += 1;
        }
        proof {
            assert(all.take(events.len() as int) =~= all);
            derived_valid(id@, all);
        }
        s.revision = revision;
        s.events = events;
        proof {
            let d = SessionState::derived(id@, all);
            assert(s@ =~= SessionState::replayed(id@, all));
            assert forall|i: int| 0 <= i < s@.active.len() implies s@.knows(
                #[trigger] s@.active[i],
            ) by {
                assert(d.knows(d.active[i]));
            }
            assert(s.indexed());
        }
        s.rebuild_projection();
        s
    }

    /// Store a record under a given id.
    fn store(&mut self, id: MessageId, message: Message)
        requires
            old(self).indexed(),
            id.0 < u64::MAX,
        ensures
            final(self)@ == old(self)@.stored(id, message@),
            final(self).indexed(),
    {
        if self.next_id <= id.0 {
            self.next_id = id.0 + 1;
        }
        self.index.insert(id.0, self.records.len());
        let record = StoredRecord { id, message, replaced_by: None };
        self.records.push(record);
        proof {
            assert(self@ =~= old(self)@.stored(id, message@));
            let before = old(self)@.records;
            assert forall|k: u64|
                #![trigger self.index@.contains_key(k)]
                match slot_of(views(self.records@), MessageId(k)) {
                    Some(i) => self.index@.contains_key(k) && self.index@[k] == i,
                    None => !self.index@.contains_key(k),
                } by {
                slot_push(before, record@, MessageId(k));
                assert(old(self).index@.contains_key(k) == (slot_of(before, MessageId(k)) is Some));
            }
        }
    }

    /// The first place of an id in the projection.
    fn first_active(&self, id: MessageId) -> (out: Option<usize>)
        ensures
            match out {
                Some(i) => first_at(self@.active, id) == Some(i as int) && i < self.active.len(),
                None => first_at(self@.active, id) is None,
            },
    {
        let mut i: usize = 0;
        while i < self.active.len()
            invariant
                i <= self.active.len(),
                forall|k: int| 0 <= k < i ==> self.active@[k] != id,
            decreases self.active.len() - i,
        {
            if self.active[i] == id {
                proof {
                    first_at_index(self@.active, id, i as int);
                }
                return Some(i);
            }
            i += 1;
        }
        proof {
            first_at_is_first(self@.active, id);
        }
        None
    }

    /// What one event of a log does to what is derived from the log.
    fn apply(&mut self, event: &SessionEvent)
        requires
            old(self).indexed(),
            stores(event@) matches Some(id) ==> id.0 < u64::MAX,
        ensures
            final(self)@ == old(self)@.applied(event@),
            final(self).indexed(),
    {
        let ghost before = self@;
        match event {
            SessionEvent::SystemSet { system } => {
                self.system = copy_text(system);
                assert(self@ =~= before.applied(event@));
                proof {
                    indexed_alike(*old(self), *self);
                }
            },
            SessionEvent::ToolsSet { tools } => {
                self.tools = tools.clone();
                assert(self@ =~= before.applied(event@));
                proof {
                    indexed_alike(*old(self), *self);
                }
            },
            SessionEvent::MessageAdded { id, message } => {
                self.store(*id, message.clone());
                let ghost mid = *self;
                self.active.push(*id);
                assert(self@ =~= before.applied(event@));
                proof {
                    indexed_alike(mid, *self);
                }
            },
            SessionEvent::MessageReplaced { old_id, new_id, message } => {
                self.apply_replaced(*old_id, *new_id, message);
            },
            SessionEvent::MessageRemoved { id } => {
                let kept = leave_id(&self.active, *id);
                self.active = kept;
                assert(self@ =~= before.applied(event@));
                proof {
                    indexed_alike(*old(self), *self);
                }
            },
            SessionEvent::MessageRecorded { id, message } => {
                self.store(*id, message.clone());
            },
            SessionEvent::ContextReplaced { active, reason: _ } => {
                let kept = self.known_of(active);
                self.active = kept;
                assert(self@ =~= before.applied(event@));
                proof {
                    indexed_alike(*old(self), *self);
                }
            },
            SessionEvent::Forked { parent: _, at } => {
                match at {
                    Some(at) => {
                        match self.first_active(*at) {
                            Some(slot) => {
                                self.active.truncate(slot + 1);
                            },
                            None => {},
                        }
                        assert(self@ =~= before.applied(event@));
                        proof {
                            indexed_alike(*old(self), *self);
                        }
                    },
                    None => {},
                }
            },
        }
    }

    fn apply_replaced(&mut self, old_id: MessageId, new_id: MessageId, message: &Message)
        requires
            old(self).indexed(),
            new_id.0 < u64::MAX,
        ensures
            final(self)@ == old(self)@.applied(
                EventView::MessageReplaced(old_id, new_id, message@),
            ),
            final(self).indexed(),
    {
        let ghost before = self@;
        self.store(new_id, message.clone());
        let ghost stored = *self;
        match self.slot(old_id) {
            Some(at) => {
                let marked = StoredRecord {
                    id: self.records[at].id,
                    message: self.records[at].message.clone(),
                    replaced_by: Some(new_id),
                };
                self.records.set(at, marked);
                proof {
                    assert(views(self.records@) =~= stored@.records.update(
                        at as int,
                        RecordView { replaced_by: Some(new_id), ..stored@.records[at as int] },
                    ));
                    assert forall|k: u64|
                        #![trigger self.index@.contains_key(k)]
                        match slot_of(views(self.records@), MessageId(k)) {
                            Some(i) => self.index@.contains_key(k) && self.index@[k] == i,
                            None => !self.index@.contains_key(k),
                        } by {
                        slot_marked(
                            stored@.records,
                            at as int,
                            views(self.records@)[at as int],
                            MessageId(k),
                        );
                        assert(stored.index@.contains_key(k) == (slot_of(
                            stored@.records,
                            MessageId(k),
                        ) is Some));
                    }
                    assert(self.indexed());
                }
            },
            None => {},
        }
        let ghost marked = *self;
        assert(marked.indexed());
        match self.first_active(old_id) {
            Some(slot) => {
                self.active.set(slot, new_id);
            },
            None => {
                self.active.push(new_id);
            },
        }
        assert(self@ =~= before.applied(EventView::MessageReplaced(old_id, new_id, message@)));
        proof {
            indexed_alike(marked, *self);
        }
    }

    /// The known ones of some ids.
    fn known_of(&self, ids: &Vec<MessageId>) -> (out: Vec<MessageId>)
        requires
            self.indexed(),
        ensures
            out@ == ids@.filter(|id: MessageId| self@.knows(id)),
    {
        let ghost keep = |id: MessageId| self@.knows(id);
        let mut out: Vec<MessageId> = Vec::new();
        let mut i: usize = 0;
        proof {
            reveal(Seq::filter);
            assert(ids@.take(0) =~= Seq::empty());
        }
        while i < ids.len()
            invariant
                i <= ids.len(),
                self.indexed(),
                keep == (|id: MessageId| self@.knows(id)),
                out@ == ids@.take(i as int).filter(keep),
            decreases ids.len() - i,
        {
            proof {
                reveal(Seq::filter);
                assert(ids@.take(i + 1).drop_last() =~= ids@.take(i as int));
            }
            if self.knows(ids[i]) {
                out.push(ids[i]);
            }
            i += 1;
        }
        assert(ids@.take(ids.len() as int) =~= ids@);
        out
    }
}

/// The ids other than `id`.
fn leave_id(ids: &Vec<MessageId>, id: MessageId) -> (out: Vec<MessageId>)
    ensures
        out@ == without(ids@, id),
{
    let mut out: Vec<MessageId> = Vec::new();
    let mut i: usize = 0;
    assert(ids@.take(0) =~= Seq::empty());
    while i < ids.len()
        invariant
            i <= ids.len(),
            out@ == without(ids@.take(i as int), id),
        decreases ids.len() - i,
    {
        assert(ids@.take(i + 1).drop_last() =~= ids@.take(i as int));
        if ids[i] != id {
            out.push(ids[i]);
        }
        i += 1;
    }
    assert(ids@.take(ids.len() as int) =~= ids@);
    out
}

/// Whether every record of a log leaves a number for the next one.
fn can_replay(events: &Vec<SessionEvent>) -> (out: bool)
    ensures
        out == storable(views(events@)),
{
    let ghost all = views(events@);
    let mut i: usize = 0;
    while i < events.len()
        invariant
            i <= events.len(),
            all == views(events@),
            forall|k: int|
                0 <= k < i ==> (stores(#[trigger] all[k]) matches Some(id) ==> id.0 < u64::MAX),
        decreases events.len() - i,
    {
        let stored = match &events[i] {
            SessionEvent::MessageAdded { id, .. } => Some(*id),
            SessionEvent::MessageReplaced { new_id, .. } => Some(*new_id),
            SessionEvent::MessageRecorded { id, .. } => Some(*id),
            _ => None,
        };
        assert(all[i as int] == events@[i as int]@);
        assert(stored == stores(all[i as int]));
        if let Some(id) = stored {
            if id.0 == u64::MAX {
                return false;
            }
        }
        i += 1;
    }
    true
}

/// The first events of a storable log are a storable log.
proof fn storable_take(events: Seq<EventView>, n: int)
    requires
        storable(events),
        0 <= n <= events.len(),
    ensures
        storable(events.take(n)),
{
    assert forall|i: int| 0 <= i < n implies (stores(#[trigger] events.take(n)[i]) matches Some(
        id,
    ) ==> id.0 < u64::MAX) by {
        assert(events[i] == events.take(n)[i]);
    }
}

/// Sessions with the same records and the same index are both indexed.
proof fn indexed_alike(a: Session, b: Session)
    requires
        a.indexed(),
        a.index == b.index,
        a.records == b.records,
    ensures
        b.indexed(),
{
}

/// Some messages as references.
fn refs(messages: &Vec<Message>) -> (out: Vec<&Message>)
    ensures
        views(out@) == views(messages@),
{
    let mut out: Vec<&Message> = Vec::new();
    let mut i: usize = 0;
    while i < messages.len()
        invariant
            i <= messages.len(),
            out.len() == i,
            forall|k: int| 0 <= k < i ==> (#[trigger] out@[k])@ == messages@[k]@,
        decreases messages.len() - i,
    {
        out.push(&messages[i]);
        i += 1;
    }
    assert(views(out@) =~= views(messages@));
    out
}

impl Default for Session {
    fn default() -> (out: Self)
        ensures
            out.wf(),
            out@ == SessionState::blank(out@.id),
    {
        Session::new()
    }
}

/// Whether a list of ids holds an id.
fn contains_id(ids: &Vec<MessageId>, id: MessageId) -> (out: bool)
    ensures
        out == ids@.contains(id),
{
    let mut i: usize = 0;
    while i < ids.len()
        invariant
            i <= ids.len(),
            forall|k: int| 0 <= k < i ==> ids@[k] != id,
        decreases ids.len() - i,
    {
        if ids[i] == id {
            return true;
        }
        i += 1;
    }
    false
}

/// Whether two lists of ids are the same.
fn same_ids(a: &Vec<MessageId>, b: &Vec<MessageId>) -> (out: bool)
    ensures
        out == (a@ == b@),
{
    if a.len() != b.len() {
        return false;
    }
    let mut i: usize = 0;
    while i < a.len()
        invariant
            i <= a.len(),
            a.len() == b.len(),
            forall|k: int| 0 <= k < i ==> a@[k] == b@[k],
        decreases a.len() - i,
    {
        if a[i] != b[i] {
            return false;
        }
        i += 1;
    }
    assert(a@ =~= b@);
    true
}

/// The model is shown a text result as it is, and a JSON result as the text
/// of its value.
pub proof fn a_result_is_shown_as_it_is(text: String, json: Json)
    ensures
        ToolResult::Text(text).shown() == text@,
        ToolResult::Json(json).shown() == json@,
{
}

} // verus!
