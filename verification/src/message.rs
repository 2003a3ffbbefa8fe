//! The messages a conversation is made of.
//!
//! A [`Message`] is a role and a body: text, text with images, or the tool
//! calls an assistant made. A tool's answer carries the id of the call it
//! answers.
use vstd::prelude::*;
use vstd::string::*;
use crate::json::{alike, Json};
use crate::seqs::{group_views, view_of, views};
use crate::text::{same_text, starts_with};

verus! {

broadcast use group_views;

/// A location an image is read from.
#[derive(Debug, PartialEq, Eq)]
pub struct Url {
    pub url: String,
}

/// One piece of a message that mixes text and images.
#[derive(Debug, PartialEq, Eq)]
pub enum MessageChunk {
    Text { text: String },
    ImageUrl { image_url: Url },
}

/// What a message with no tool calls says.
#[derive(Debug, PartialEq, Eq)]
pub enum MessageContent {
    SingleText(String),
    MultipleChunks(Vec<MessageChunk>),
}

/// The function a tool call names, with its arguments.
#[derive(Debug, PartialEq, Eq)]
pub struct FunctionDefinition {
    pub description: Option<String>,
    pub name: String,
    pub arguments: Json,
}

/// One tool call an assistant made.
#[derive(Debug, PartialEq, Eq)]
pub struct ToolCall {
    pub id: String,
    pub kind: String,
    pub function: FunctionDefinition,
}

/// What a message holds.
#[derive(Debug, PartialEq, Eq)]
pub enum MessageBody {
    Content { content: MessageContent },
    Tool { tool_calls: Vec<ToolCall> },
}

/// One message of a conversation.
#[derive(Debug, PartialEq, Eq)]
pub struct Message {
    pub role: String,
    pub body: MessageBody,
    /// The call this message answers, for a tool's result that names it.
    pub tool_call_id: Option<String>,
    /// The reasoning that led to an assistant's reply, where it was kept.
    pub reasoning: Option<String>,
}

// ── Views ───────────────────────────────────────────────────────────────────

/// A chunk, mathematically.
pub enum ChunkView {
    Text(Seq<char>),
    Image(Seq<char>),
}

/// A tool call, mathematically.
pub struct CallView {
    pub id: Seq<char>,
    pub kind: Seq<char>,
    pub description: Option<Seq<char>>,
    pub name: Seq<char>,
    pub arguments: Seq<char>,
}

/// A body, mathematically.
pub enum BodyView {
    Text(Seq<char>),
    Chunks(Seq<ChunkView>),
    Calls(Seq<CallView>),
}

/// A message, mathematically.
pub struct MessageView {
    pub role: Seq<char>,
    pub body: BodyView,
    pub call_id: Option<Seq<char>>,
    pub reasoning: Option<Seq<char>>,
}

impl View for MessageChunk {
    type V = ChunkView;

    open spec fn view(&self) -> ChunkView {
        match self {
            MessageChunk::Text { text } => ChunkView::Text(text@),
            MessageChunk::ImageUrl { image_url } => ChunkView::Image(image_url.url@),
        }
    }
}

impl View for ToolCall {
    type V = CallView;

    open spec fn view(&self) -> CallView {
        CallView {
            id: self.id@,
            kind: self.kind@,
            description: view_of(self.function.description),
            name: self.function.name@,
            arguments: self.function.arguments@,
        }
    }
}

impl View for MessageBody {
    type V = BodyView;

    open spec fn view(&self) -> BodyView {
        match self {
            MessageBody::Content { content } => match content {
                MessageContent::SingleText(text) => BodyView::Text(text@),
                MessageContent::MultipleChunks(chunks) => BodyView::Chunks(views(chunks@)),
            },
            MessageBody::Tool { tool_calls } => BodyView::Calls(views(tool_calls@)),
        }
    }
}

impl View for Message {
    type V = MessageView;

    open spec fn view(&self) -> MessageView {
        MessageView {
            role: self.role@,
            body: self.body@,
            call_id: view_of(self.tool_call_id),
            reasoning: view_of(self.reasoning),
        }
    }
}

/// The text of the text chunks, one after another.
pub open spec fn chunks_text(chunks: Seq<ChunkView>) -> Seq<char>
    decreases chunks.len(),
{
    if chunks.len() == 0 {
        Seq::empty()
    } else {
        let before = chunks_text(chunks.drop_last());
        match chunks.last() {
            ChunkView::Text(text) => before + text,
            ChunkView::Image(_) => before,
        }
    }
}

impl CallView {
    /// Whether two calls are equal: all the same, and the arguments equal
    /// values.
    pub open spec fn alike(self, other: CallView) -> bool {
        &&& self.id == other.id
        &&& self.kind == other.kind
        &&& self.description == other.description
        &&& self.name == other.name
        &&& alike(self.arguments, other.arguments)
    }
}

/// Whether calls are equal, one by one.
pub open spec fn calls_alike(a: Seq<CallView>, b: Seq<CallView>) -> bool {
    &&& a.len() == b.len()
    &&& forall|i: int| 0 <= i < a.len() ==> (#[trigger] a[i]).alike(b[i])
}

impl BodyView {
    /// Whether two bodies are equal.
    pub open spec fn alike(self, other: BodyView) -> bool {
        match (self, other) {
            (BodyView::Calls(a), BodyView::Calls(b)) => calls_alike(a, b),
            _ => self == other,
        }
    }
}

impl MessageView {
    /// Whether two messages are equal.
    pub open spec fn alike(self, other: MessageView) -> bool {
        &&& self.role == other.role
        &&& self.body.alike(other.body)
        &&& self.call_id == other.call_id
        &&& self.reasoning == other.reasoning
    }

    /// A message that says `text` and nothing else.
    pub open spec fn plain(role: Seq<char>, text: Seq<char>) -> MessageView {
        MessageView { role, body: BodyView::Text(text), call_id: None, reasoning: None }
    }

    /// A user's message.
    pub open spec fn user(text: Seq<char>) -> MessageView {
        MessageView::plain("user"@, text)
    }

    /// A system prompt, as a message.
    pub open spec fn system(text: Seq<char>) -> MessageView {
        MessageView::plain("system"@, text)
    }

    /// An assistant's reply.
    pub open spec fn assistant(text: Seq<char>, reasoning: Option<Seq<char>>) -> MessageView {
        MessageView { reasoning, ..MessageView::plain("assistant"@, text) }
    }

    /// An assistant's tool calls.
    pub open spec fn assistant_calls(calls: Seq<CallView>) -> MessageView {
        MessageView {
            role: "assistant"@,
            body: BodyView::Calls(calls),
            call_id: None,
            reasoning: None,
        }
    }

    /// A tool's answer to a call.
    pub open spec fn result_for(call_id: Seq<char>, text: Seq<char>) -> MessageView {
        MessageView { call_id: Some(call_id), ..MessageView::plain("tool"@, text) }
    }

    /// A user's message with images; just the text where there are none.
    pub open spec fn user_with_images(text: Seq<char>, urls: Seq<Seq<char>>) -> MessageView {
        if urls.len() == 0 {
            MessageView::user(text)
        } else {
            MessageView {
                role: "user"@,
                body: BodyView::Chunks(
                    seq![ChunkView::Text(text)] + urls.map_values(
                        |url: Seq<char>| ChunkView::Image(url),
                    ),
                ),
                call_id: None,
                reasoning: None,
            }
        }
    }

    /// What the message says, images and calls left out.
    pub open spec fn text(self) -> Seq<char> {
        match self.body {
            BodyView::Text(text) => text,
            BodyView::Chunks(chunks) => chunks_text(chunks),
            BodyView::Calls(_) => Seq::empty(),
        }
    }

    /// The ids of the calls the message makes.
    pub open spec fn calls(self) -> Seq<Seq<char>> {
        match self.body {
            BodyView::Calls(calls) => calls.map_values(|call: CallView| call.id),
            _ => Seq::empty(),
        }
    }

    /// Whether the message is a tool's answer.
    pub open spec fn is_result(self) -> bool {
        self.role == "tool"@
    }
}

/// Where an image is read from: an `http(s)://` or `file://` URL as it is,
/// anything else as a path on this machine.
pub open spec fn file_url(source: Seq<char>) -> Seq<char> {
    if "http://"@.is_prefix_of(source) || "https://"@.is_prefix_of(source)
        || "file://"@.is_prefix_of(source) {
        source
    } else {
        "file://"@ + source
    }
}

// ── Copying and comparing ───────────────────────────────────────────────────

/// A copy of an optional text.
pub fn copy_text(text: &Option<String>) -> (out: Option<String>)
    ensures
        out == *text,
{
    match text {
        Some(t) => Some(t.clone()),
        None => None,
    }
}

/// Whether two optional texts are the same.
pub fn same_option(a: &Option<String>, b: &Option<String>) -> (out: bool)
    ensures
        out == (view_of(*a) == view_of(*b)),
{
    match (a, b) {
        (Some(x), Some(y)) => same_text(x.as_str(), y.as_str()),
        (None, None) => true,
        _ => false,
    }
}

impl Clone for Url {
    fn clone(&self) -> (out: Self)
        ensures
            out == *self,
    {
        Url { url: self.url.clone() }
    }
}

impl Clone for MessageChunk {
    fn clone(&self) -> (out: Self)
        ensures
            out == *self,
    {
        match self {
            MessageChunk::Text { text } => MessageChunk::Text { text: text.clone() },
            MessageChunk::ImageUrl { image_url } => MessageChunk::ImageUrl {
                image_url: image_url.clone(),
            },
        }
    }
}

impl Clone for ToolCall {
    fn clone(&self) -> (out: Self)
        ensures
            out@ == self@,
    {
        ToolCall {
            id: self.id.clone(),
            kind: self.kind.clone(),
            function: FunctionDefinition {
                description: copy_text(&self.function.description),
                name: self.function.name.clone(),
                arguments: self.function.arguments.clone(),
            },
        }
    }
}

impl Clone for MessageBody {
    fn clone(&self) -> (out: Self)
        ensures
            out@ == self@,
    {
        match self {
            MessageBody::Content { content } => match content {
                MessageContent::SingleText(text) => MessageBody::Content {
                    content: MessageContent::SingleText(text.clone()),
                },
                MessageContent::MultipleChunks(chunks) => {
                    let copy = chunks.clone();
                    assert(views(copy@) =~= views(chunks@));
                    MessageBody::Content { content: MessageContent::MultipleChunks(copy) }
                },
            },
            MessageBody::Tool { tool_calls } => {
                let copy = tool_calls.clone();
                assert(views(copy@) =~= views(tool_calls@));
                MessageBody::Tool { tool_calls: copy }
            },
        }
    }
}

impl Clone for Message {
    fn clone(&self) -> (out: Self)
        ensures
            out@ == self@,
    {
        Message {
            role: self.role.clone(),
            body: self.body.clone(),
            tool_call_id: copy_text(&self.tool_call_id),
            reasoning: copy_text(&self.reasoning),
        }
    }
}

impl MessageChunk {
    /// Whether two chunks are the same.
    pub fn same(&self, other: &MessageChunk) -> (out: bool)
        ensures
            out == (self@ == other@),
    {
        match (self, other) {
            (MessageChunk::Text { text: a }, MessageChunk::Text { text: b }) => same_text(
                a.as_str(),
                b.as_str(),
            ),
            (
                MessageChunk::ImageUrl { image_url: a },
                MessageChunk::ImageUrl { image_url: b },
            ) => same_text(a.url.as_str(), b.url.as_str()),
            _ => false,
        }
    }
}

impl ToolCall {
    /// Whether two calls are equal.
    pub fn same(&self, other: &ToolCall) -> (out: bool)
        ensures
            out == self@.alike(other@),
    {
        same_text(self.id.as_str(), other.id.as_str()) && same_text(
            self.kind.as_str(),
            other.kind.as_str(),
        ) && same_option(&self.function.description, &other.function.description) && same_text(
            self.function.name.as_str(),
            other.function.name.as_str(),
        ) && self.function.arguments.same(&other.function.arguments)
    }
}

impl MessageBody {
    /// Whether two bodies are equal.
    pub fn same(&self, other: &MessageBody) -> (out: bool)
        ensures
            out == self@.alike(other@),
    {
        match (self, other) {
            (
                MessageBody::Content { content: MessageContent::SingleText(a) },
                MessageBody::Content { content: MessageContent::SingleText(b) },
            ) => same_text(a.as_str(), b.as_str()),
            (
                MessageBody::Content { content: MessageContent::MultipleChunks(a) },
                MessageBody::Content { content: MessageContent::MultipleChunks(b) },
            ) => same_chunks(a, b),
            (MessageBody::Tool { tool_calls: a }, MessageBody::Tool { tool_calls: b }) => same_calls(
                a,
                b,
            ),
            _ => false,
        }
    }
}

fn same_chunks(a: &Vec<MessageChunk>, b: &Vec<MessageChunk>) -> (out: bool)
    ensures
        out == (views(a@) == views(b@)),
{
    if a.len() != b.len() {
        assert(views(a@).len() != views(b@).len());
        return false;
    }
    let mut i: usize = 0;
    while i < a.len()
        invariant
            i <= a.len(),
            a.len() == b.len(),
            forall|k: int| 0 <= k < i ==> a@[k]@ == b@[k]@,
        decreases a.len() - i,
    {
        if !a[i].same(&b[i]) {
            assert(views(a@)[i as int] != views(b@)[i as int]);
            return false;
        }
        i += 1;
    }
    assert(views(a@) =~= views(b@));
    true
}

fn same_calls(a: &Vec<ToolCall>, b: &Vec<ToolCall>) -> (out: bool)
    ensures
        out == calls_alike(views(a@), views(b@)),
{
    if a.len() != b.len() {
        assert(views(a@).len() != views(b@).len());
        return false;
    }
    let mut i: usize = 0;
    while i < a.len()
        invariant
            i <= a.len(),
            a.len() == b.len(),
            forall|k: int| 0 <= k < i ==> (#[trigger] views(a@)[k]).alike(views(b@)[k]),
        decreases a.len() - i,
    {
        if !a[i].same(&b[i]) {
            assert(!views(a@)[i as int].alike(views(b@)[i as int]));
            return false;
        }
        i += 1;
    }
    true
}

// ── Building and reading ────────────────────────────────────────────────────

/// Where an image is read from; see [`file_url`].
pub fn to_file_url(source: &str) -> (out: String)
    ensures
        out@ == file_url(source@),
{
    if starts_with(source, "http://") || starts_with(source, "https://") || starts_with(
        source,
        "file://",
    ) {
        source.to_owned()
    } else {
        "file://".to_owned().concat(source)
    }
}

/// The places some images are read from.
pub open spec fn file_urls(sources: Seq<Seq<char>>) -> Seq<Seq<char>> {
    sources.map_values(|source: Seq<char>| file_url(source))
}

/// The places some images are read from; see [`file_url`].
pub fn to_file_urls(sources: &Vec<String>) -> (out: Vec<String>)
    ensures
        views(out@) == file_urls(views(sources@)),
{
    let mut out: Vec<String> = Vec::new();
    let mut i: usize = 0;
    while i < sources.len()
        invariant
            i <= sources.len(),
            out.len() == i,
            forall|k: int| 0 <= k < i ==> (#[trigger] out@[k])@ == file_url(sources@[k]@),
        decreases sources.len() - i,
    {
        out.push(to_file_url(sources[i].as_str()));
        i += 1;
    }
    assert(views(out@) =~= file_urls(views(sources@)));
    out
}

impl Message {
    fn plain(role: &str, text: &str) -> (out: Message)
        ensures
            out@ == MessageView::plain(role@, text@),
    {
        Message {
            role: role.to_owned(),
            body: MessageBody::Content { content: MessageContent::SingleText(text.to_owned()) },
            tool_call_id: None,
            reasoning: None,
        }
    }

    /// A user's message.
    pub fn user(text: &str) -> (out: Message)
        ensures
            out@ == MessageView::user(text@),
    {
        Message::plain("user", text)
    }

    /// A system prompt, as a message.
    pub fn system(text: &str) -> (out: Message)
        ensures
            out@ == MessageView::system(text@),
    {
        Message::plain("system", text)
    }

    /// An assistant's reply, with the reasoning behind it where it was kept.
    pub fn assistant_structured(text: &str, reasoning: Option<String>) -> (out: Message)
        ensures
            out@ == MessageView::assistant(text@, view_of(reasoning)),
    {
        let mut message = Message::plain("assistant", text);
        message.reasoning = reasoning;
        message
    }

    /// An assistant's tool calls.
    pub fn assistant_tool_calls(calls: Vec<ToolCall>) -> (out: Message)
        ensures
            out@ == MessageView::assistant_calls(views(calls@)),
    {
        Message {
            role: "assistant".to_owned(),
            body: MessageBody::Tool { tool_calls: calls },
            tool_call_id: None,
            reasoning: None,
        }
    }

    /// A tool's answer to the call with the given id.
    pub fn tool_result_for(call_id: &str, text: &str) -> (out: Message)
        ensures
            out@ == MessageView::result_for(call_id@, text@),
    {
        let mut message = Message::plain("tool", text);
        message.tool_call_id = Some(call_id.to_owned());
        message
    }

    /// A tool's answer that does not say which call it answers.
    pub fn tool_result(text: &str) -> (out: Message)
        ensures
            out@ == MessageView::plain("tool"@, text@),
    {
        Message::plain("tool", text)
    }

    /// A user's message with images, each already a URL.
    pub fn user_with_images(text: &str, urls: Vec<String>) -> (out: Message)
        ensures
            out@ == MessageView::user_with_images(text@, views(urls@)),
    {
        if urls.len() == 0 {
            return Message::user(text);
        }
        let ghost want = MessageView::user_with_images(text@, views(urls@));
        let mut chunks: Vec<MessageChunk> = Vec::new();
        chunks.push(MessageChunk::Text { text: text.to_owned() });
        let mut i: usize = 0;
        while i < urls.len()
            invariant
                i <= urls.len(),
                chunks.len() == i + 1,
                chunks@[0]@ == ChunkView::Text(text@),
                forall|k: int|
                    0 <= k < i ==> (#[trigger] chunks@[k + 1])@ == ChunkView::Image(urls@[k]@),
            decreases urls.len() - i,
        {
            let chunk = MessageChunk::ImageUrl { image_url: Url { url: urls[i].clone() } };
            chunks.push(chunk);
            assert forall|k: int| 0 <= k < i + 1 implies (#[trigger] chunks@[k + 1])@
                == ChunkView::Image(urls@[k]@) by {
                if k < i {
                    assert(chunks@[k + 1]@ == ChunkView::Image(urls@[k]@));
                }
            }
            i += 1;
        }
        proof {
            let want_chunks = seq![ChunkView::Text(text@)] + views(urls@).map_values(
                |url: Seq<char>| ChunkView::Image(url),
            );
            assert forall|k: int| 0 <= k < want_chunks.len() implies views(chunks@)[k]
                == want_chunks[k] by {
                if k > 0 {
                    assert(chunks@[(k - 1) + 1]@ == ChunkView::Image(urls@[k - 1]@));
                }
            }
            assert(views(chunks@) =~= want_chunks);
        }
        Message {
            role: "user".to_owned(),
            body: MessageBody::Content { content: MessageContent::MultipleChunks(chunks) },
            tool_call_id: None,
            reasoning: None,
        }
    }

    /// What the message says: its text, images and calls left out.
    pub fn text(&self) -> (out: String)
        ensures
            out@ == self@.text(),
    {
        match &self.body {
            MessageBody::Content { content } => match content {
                MessageContent::SingleText(text) => text.clone(),
                MessageContent::MultipleChunks(chunks) => {
                    let mut out = String::new();
                    let mut i: usize = 0;
                    while i < chunks.len()
                        invariant
                            i <= chunks.len(),
                            out@ == chunks_text(views(chunks@).take(i as int)),
                        decreases chunks.len() - i,
                    {
                        assert(views(chunks@).take(i + 1).drop_last() =~= views(chunks@).take(
                            i as int,
                        ));
                        match &chunks[i] {
                            MessageChunk::Text { text } => {
                                out.append(text.as_str());
                            },
                            MessageChunk::ImageUrl { .. } => {},
                        }
                        i += 1;
                    }
                    assert(views(chunks@).take(chunks.len() as int) =~= views(chunks@));
                    out
                },
            },
            MessageBody::Tool { .. } => String::new(),
        }
    }

    /// Whether the message is a tool's answer.
    pub fn is_result(&self) -> (out: bool)
        ensures
            out == self@.is_result(),
    {
        same_text(self.role.as_str(), "tool")
    }

    /// The ids of the calls the message makes.
    pub fn calls(&self) -> (out: Vec<String>)
        ensures
            views(out@) == self@.calls(),
    {
        let mut out: Vec<String> = Vec::new();
        match &self.body {
            MessageBody::Tool { tool_calls } => {
                let mut i: usize = 0;
                while i < tool_calls.len()
                    invariant
                        i <= tool_calls.len(),
                        out.len() == i,
                        forall|k: int| 0 <= k < i ==> (#[trigger] out@[k])@ == tool_calls@[k].id@,
                    decreases tool_calls.len() - i,
                {
                    out.push(tool_calls[i].id.clone());
                    i += 1;
                }
                assert(views(out@) =~= self@.calls());
            },
            MessageBody::Content { .. } => {
                assert(views(out@) =~= self@.calls());
            },
        }
        out
    }

    /// Whether two messages are equal.
    pub fn same(&self, other: &Message) -> (out: bool)
        ensures
            out == self@.alike(other@),
    {
        same_text(self.role.as_str(), other.role.as_str()) && self.body.same(&other.body)
            && same_option(&self.tool_call_id, &other.tool_call_id) && same_option(
            &self.reasoning,
            &other.reasoning,
        )
    }
}

// ── What a message says ─────────────────────────────────────────────────────

/// Who says a message, and what it holds beside its words.
pub proof fn who_says_a_message(
    text: Seq<char>,
    reasoning: Option<Seq<char>>,
    call_id: Seq<char>,
    calls: Seq<CallView>,
)
    ensures
        MessageView::user(text).role == "user"@,
        MessageView::system(text).role == "system"@,
        MessageView::assistant(text, reasoning).role == "assistant"@,
        MessageView::assistant_calls(calls).role == "assistant"@,
        MessageView::result_for(call_id, text).role == "tool"@,
        MessageView::user(text).text() == text,
        MessageView::system(text).text() == text,
        MessageView::assistant(text, reasoning).text() == text,
        MessageView::result_for(call_id, text).text() == text,
        MessageView::assistant(text, reasoning).reasoning == reasoning,
        MessageView::assistant(text, reasoning).call_id is None,
        MessageView::user(text).reasoning is None,
        MessageView::user(text).call_id is None,
        MessageView::result_for(call_id, text).call_id == Some(call_id),
        MessageView::result_for(call_id, text).reasoning is None,
        MessageView::assistant_calls(calls).body == BodyView::Calls(calls),
        MessageView::assistant_calls(calls).text().len() == 0,
{
}

/// The ids of the calls a message makes, one for each in its order. Words
/// call nothing.
pub proof fn a_message_makes_its_calls(m: MessageView)
    ensures
        match m.body {
            BodyView::Calls(calls) => m.calls().len() == calls.len() && forall|i: int|
                0 <= i < calls.len() ==> #[trigger] m.calls()[i] == calls[i].id,
            _ => m.calls().len() == 0,
        },
{
}

/// The text of some parts is the text of each in turn; an image adds none.
pub proof fn parts_are_read_in_turn(a: Seq<ChunkView>, b: Seq<ChunkView>, text: Seq<char>)
    ensures
        chunks_text(a + b) == chunks_text(a) + chunks_text(b),
        chunks_text(a.push(ChunkView::Text(text))) == chunks_text(a) + text,
        chunks_text(a.push(ChunkView::Image(text))) == chunks_text(a),
        chunks_text(Seq::empty()).len() == 0,
    decreases b.len(),
{
    assert(a.push(ChunkView::Text(text)).drop_last() =~= a);
    assert(a.push(ChunkView::Image(text)).drop_last() =~= a);
    if b.len() == 0 {
        assert(a + b =~= a);
        assert(chunks_text(a) + chunks_text(b) =~= chunks_text(a));
    } else {
        parts_are_read_in_turn(a, b.drop_last(), text);
        assert((a + b).drop_last() =~= a + b.drop_last());
        assert(chunks_text(a + b) =~= chunks_text(a) + chunks_text(b));
    }
}

/// A message with images says its text first and shows every image in order;
/// without any it is the text alone.
pub proof fn images_follow_the_text(text: Seq<char>, urls: Seq<Seq<char>>)
    ensures
        MessageView::user_with_images(text, urls).role == "user"@,
        MessageView::user_with_images(text, urls).text() == text,
        urls.len() == 0 ==> MessageView::user_with_images(text, urls).body == BodyView::Text(text),
        urls.len() > 0 ==> {
            &&& MessageView::user_with_images(text, urls).body matches BodyView::Chunks(chunks)
            &&& chunks.len() == urls.len() + 1
            &&& chunks[0] == ChunkView::Text(text)
            &&& forall|i: int|
                0 <= i < urls.len() ==> #[trigger] chunks[i + 1] == ChunkView::Image(urls[i])
        },
    decreases urls.len(),
{
    if urls.len() > 0 {
        let images = urls.map_values(|url: Seq<char>| ChunkView::Image(url));
        let first = seq![ChunkView::Text(text)];
        assert(first =~= Seq::<ChunkView>::empty().push(ChunkView::Text(text)));
        parts_are_read_in_turn(first, images, text);
        parts_are_read_in_turn(Seq::empty(), Seq::empty(), text);
        images_say_nothing(images);
        assert(chunks_text(first) + chunks_text(images) =~= text);
    }
}

proof fn images_say_nothing(images: Seq<ChunkView>)
    requires
        forall|i: int| 0 <= i < images.len() ==> #[trigger] images[i] is Image,
    ensures
        chunks_text(images).len() == 0,
    decreases images.len(),
{
    if images.len() > 0 {
        images_say_nothing(images.drop_last());
    }
}

/// A place that names its scheme is read as it is, any other as a path here;
/// the place always ends with what was given, and naming it twice changes
/// nothing.
pub proof fn a_place_keeps_its_source(source: Seq<char>)
    ensures
        "http://"@.is_prefix_of(source) ==> file_url(source) == source,
        "https://"@.is_prefix_of(source) ==> file_url(source) == source,
        "file://"@.is_prefix_of(source) ==> file_url(source) == source,
        file_url(source) == source || file_url(source) == "file://"@ + source,
        "http://"@.is_prefix_of(file_url(source)) || "https://"@.is_prefix_of(file_url(source))
            || "file://"@.is_prefix_of(file_url(source)),
        file_url(file_url(source)) == file_url(source),
{
    let local = "file://"@ + source;
    assert(local.subrange(0, "file://"@.len() as int) =~= "file://"@);
}

} // verus!
