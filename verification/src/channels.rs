//! Telling a model's reasoning from its reply.
//!
//! A backend streams text in which reasoning stands between markers:
//! `<think>` and `</think>`, or Gemma 4's `<|channel>thought` and
//! `<channel|>`. A marker may arrive in pieces, so text that could still
//! become one is held back until it cannot.
use vstd::prelude::*;
use vstd::string::*;
use crate::seqs::{group_views, views};
use crate::text::{chars_of, part_of, same_chars, string_of};

verus! {

broadcast use group_views;

/// Which channel a run of text belongs to.
#[derive(Debug, Clone, Copy, PartialEq, Eq, Structural)]
pub enum Channel {
    /// The visible reply.
    Text,
    /// The reasoning before it.
    Reasoning,
}

/// A stretch of text in one channel.
#[derive(Debug, PartialEq, Eq)]
pub enum StreamEmission {
    /// Of the visible reply.
    Content(String),
    /// Of the reasoning.
    Reasoning(String),
}

impl View for StreamEmission {
    type V = (Channel, Seq<char>);

    open spec fn view(&self) -> (Channel, Seq<char>) {
        match self {
            StreamEmission::Content(text) => (Channel::Text, text@),
            StreamEmission::Reasoning(text) => (Channel::Reasoning, text@),
        }
    }
}

/// The markers reasoning stands between. Where one ends as another does, the
/// longer is named first.
#[derive(Debug, PartialEq, Eq)]
pub struct ChannelMarkers {
    /// What begins it.
    pub open: Vec<String>,
    /// What ends it.
    pub close: Vec<String>,
}

impl ChannelMarkers {
    /// Gemma 4's thought channel.
    pub fn gemma4() -> (out: Self)
        ensures
            views(out.open@) == seq!["<|channel>thought"@],
            views(out.close@) == seq!["<channel|>"@],
    {
        let mut open: Vec<String> = Vec::new();
        open.push("<|channel>thought".to_owned());
        let mut close: Vec<String> = Vec::new();
        close.push("<channel|>".to_owned());
        assert(views(open@) =~= seq!["<|channel>thought"@]);
        assert(views(close@) =~= seq!["<channel|>"@]);
        ChannelMarkers { open, close }
    }

    /// The scaffold Qwen3 and DeepSeek use.
    pub fn qwen3_deepseek() -> (out: Self)
        ensures
            views(out.open@) == seq!["<think>"@],
            views(out.close@) == seq!["</think>"@],
    {
        let mut open: Vec<String> = Vec::new();
        open.push("<think>".to_owned());
        let mut close: Vec<String> = Vec::new();
        close.push("</think>".to_owned());
        assert(views(open@) =~= seq!["<think>"@]);
        assert(views(close@) =~= seq!["</think>"@]);
        ChannelMarkers { open, close }
    }

    /// Every scaffold the library knows, so the split does not depend on
    /// knowing the model's family up front.
    pub fn all() -> (out: Self)
        ensures
            views(out.open@) == seq!["<|channel>thought"@, "<think>"@],
            views(out.close@) == seq!["<channel|>"@, "</think>"@],
    {
        let mut gemma = ChannelMarkers::gemma4();
        let mut qwen = ChannelMarkers::qwen3_deepseek();
        let ghost open = (gemma.open@, qwen.open@);
        let ghost close = (gemma.close@, qwen.close@);
        gemma.open.append(&mut qwen.open);
        gemma.close.append(&mut qwen.close);
        assert(views(open.0).len() == 1 && views(open.1).len() == 1);
        assert(views(close.0).len() == 1 && views(close.1).len() == 1);
        assert(views(open.0)[0] == open.0[0]@ && views(open.1)[0] == open.1[0]@);
        assert(views(close.0)[0] == close.0[0]@ && views(close.1)[0] == close.1[0]@);
        assert(views(gemma.open@) =~= seq!["<|channel>thought"@, "<think>"@]);
        assert(views(gemma.close@) =~= seq!["<channel|>"@, "</think>"@]);
        gemma
    }
}

// ── The scanner, mathematically ─────────────────────────────────────────────

/// The state of a scan.
#[verifier::ext_equal]
pub struct SplitView {
    /// What begins reasoning.
    pub open: Seq<Seq<char>>,
    /// What ends it.
    pub close: Seq<Seq<char>>,
    /// Whether the scan is inside reasoning.
    pub inside: bool,
    /// Text that could still become a marker.
    pub pending: Seq<char>,
}

/// The length of the first marker a text ends in.
pub open spec fn marker_end(s: Seq<char>, markers: Seq<Seq<char>>) -> Option<nat>
    decreases markers.len(),
{
    if markers.len() == 0 {
        None
    } else if markers[0].len() > 0 && markers[0].is_suffix_of(s) {
        Some(markers[0].len())
    } else {
        marker_end(s, markers.drop_first())
    }
}

/// Whether the last `k` characters of a text could become a marker.
pub open spec fn begins_marker(s: Seq<char>, markers: Seq<Seq<char>>, k: nat) -> bool {
    exists|i: int|
        0 <= i < markers.len() && k < (#[trigger] markers[i]).len() && markers[i].take(k as int)
            == s.skip(s.len() - k)
}

/// The most characters, at most `k`, that end a text and could become a
/// marker.
pub open spec fn held_len(s: Seq<char>, markers: Seq<Seq<char>>, k: nat) -> nat
    decreases k,
{
    if k == 0 {
        0
    } else if begins_marker(s, markers, k) {
        k
    } else {
        held_len(s, markers, (k - 1) as nat)
    }
}

/// Adds text to a list of stretches.
pub open spec fn put(
    list: Seq<(Channel, Seq<char>)>,
    channel: Channel,
    text: Seq<char>,
) -> Seq<(Channel, Seq<char>)> {
    if text.len() == 0 {
        list
    } else if list.len() > 0 && list.last().0 == channel {
        list.drop_last().push((channel, list.last().1 + text))
    } else {
        list.push((channel, text))
    }
}

/// What becomes of text that was held back.
#[derive(Debug, Clone, Copy, PartialEq, Eq, Structural)]
pub enum Fate {
    /// It could still become a marker.
    Held,
    /// It is text.
    Said,
    /// It is a marker.
    Marker,
}

impl SplitView {
    /// A scan at its beginning.
    pub open spec fn begun(open: Seq<Seq<char>>, close: Seq<Seq<char>>) -> SplitView {
        SplitView { open, close, inside: false, pending: Seq::empty() }
    }

    /// The markers that are looked for.
    pub open spec fn markers(self) -> Seq<Seq<char>> {
        if self.inside {
            self.close
        } else {
            self.open
        }
    }

    /// The channel that is being read.
    pub open spec fn channel(self) -> Channel {
        if self.inside {
            Channel::Reasoning
        } else {
            Channel::Text
        }
    }

    /// The scan after one more character, and the text it lets go.
    pub open spec fn step(self, c: char) -> (SplitView, Seq<char>) {
        let s = self.pending.push(c);
        match marker_end(s, self.markers()) {
            Some(n) => (
                SplitView { inside: !self.inside, pending: Seq::empty(), ..self },
                s.take(s.len() - n),
            ),
            None => {
                let k = held_len(s, self.markers(), s.len());
                (SplitView { pending: s.skip(s.len() - k), ..self }, s.take(s.len() - k))
            },
        }
    }

    /// The scan after more text, and the stretches it lets go.
    pub open spec fn fed(self, text: Seq<char>) -> (SplitView, Seq<(Channel, Seq<char>)>)
        decreases text.len(),
    {
        if text.len() == 0 {
            (self, Seq::empty())
        } else {
            let (before, list) = self.fed(text.drop_last());
            let (after, gone) = before.step(text.last());
            (after, put(list, before.channel(), gone))
        }
    }

    /// What becomes of the text held back as more comes: the first character
    /// that settles it decides.
    pub open spec fn fate(self, text: Seq<char>) -> Fate
        decreases text.len(),
    {
        if text.len() == 0 {
            Fate::Held
        } else if self.fate(text.drop_last()) == Fate::Held {
            let (after, gone) = self.fed(text.drop_last()).0.step(text.last());
            if gone.len() > 0 {
                Fate::Said
            } else if after.pending.len() > 0 {
                Fate::Held
            } else {
                Fate::Marker
            }
        } else {
            self.fate(text.drop_last())
        }
    }

    /// The stretch left when the text ends.
    pub open spec fn left(self) -> Seq<(Channel, Seq<char>)> {
        put(Seq::empty(), self.channel(), self.pending)
    }
}

// ── The scanner ─────────────────────────────────────────────────────────────

/// Splits streamed text into reply and reasoning.
#[derive(Debug, PartialEq, Eq)]
pub struct ReplyStateMachine {
    open: Vec<Vec<char>>,
    close: Vec<Vec<char>>,
    inside: bool,
    pending: Vec<char>,
}

impl View for ReplyStateMachine {
    type V = SplitView;

    closed spec fn view(&self) -> SplitView {
        SplitView {
            open: views(self.open@),
            close: views(self.close@),
            inside: self.inside,
            pending: self.pending@,
        }
    }
}

fn texts_of(texts: &Vec<String>) -> (out: Vec<Vec<char>>)
    ensures
        views(out@) == views(texts@),
{
    let mut out: Vec<Vec<char>> = Vec::new();
    let mut i: usize = 0;
    while i < texts.len()
        invariant
            i <= texts.len(),
            out.len() == i,
            forall|k: int| 0 <= k < i ==> (#[trigger] out@[k])@ == texts@[k]@,
        decreases texts.len() - i,
    {
        out.push(chars_of(texts[i].as_str()));
        i += 1;
    }
    assert(views(out@) =~= views(texts@));
    out
}

/// Whether the last characters of a text are those of another.
fn ends_in(s: &Vec<char>, end: &[char]) -> (out: bool)
    ensures
        out == end@.is_suffix_of(s@),
{
    if end.len() > s.len() {
        return false;
    }
    let tail = part_of(s.as_slice(), s.len() - end.len(), s.len());
    assert(tail@ =~= s@.subrange(s@.len() - end@.len(), s@.len() as int));
    same_chars(tail.as_slice(), end)
}

fn find_end(s: &Vec<char>, markers: &Vec<Vec<char>>) -> (out: Option<usize>)
    ensures
        match out {
            Some(n) => n <= s.len() && marker_end(s@, views(markers@)) == Some(n as nat),
            None => marker_end(s@, views(markers@)) is None,
        },
{
    let ghost all = views(markers@);
    let mut i: usize = 0;
    assert(all.skip(0) =~= all);
    while i < markers.len()
        invariant
            i <= markers.len(),
            all == views(markers@),
            marker_end(s@, all) == marker_end(s@, all.skip(i as int)),
        decreases markers.len() - i,
    {
        assert(all.skip(i as int)[0] == markers@[i as int]@);
        assert(all.skip(i as int).drop_first() =~= all.skip(i + 1));
        if markers[i].len() > 0 && ends_in(s, markers[i].as_slice()) {
            return Some(markers[i].len());
        }
        i += 1;
    }
    assert(all.skip(markers.len() as int).len() == 0);
    None
}

fn could_be(s: &Vec<char>, markers: &Vec<Vec<char>>, k: usize) -> (out: bool)
    requires
        k <= s.len(),
    ensures
        out == begins_marker(s@, views(markers@), k as nat),
{
    let ghost all = views(markers@);
    let tail = part_of(s.as_slice(), s.len() - k, s.len());
    assert(tail@ =~= s@.skip(s@.len() - k));
    let mut i: usize = 0;
    while i < markers.len()
        invariant
            i <= markers.len(),
            k <= s.len(),
            all == views(markers@),
            tail@ == s@.skip(s@.len() - k),
            forall|j: int|
                0 <= j < i && k < (#[trigger] all[j]).len() ==> all[j].take(k as int) != tail@,
        decreases markers.len() - i,
    {
        assert(all[i as int] == markers@[i as int]@);
        if k < markers[i].len() {
            let head = part_of(markers[i].as_slice(), 0, k);
            assert(head@ =~= all[i as int].take(k as int));
            if same_chars(head.as_slice(), tail.as_slice()) {
                return true;
            }
        }
        i += 1;
    }
    false
}

fn find_held(s: &Vec<char>, markers: &Vec<Vec<char>>) -> (out: usize)
    ensures
        out <= s.len(),
        out == held_len(s@, views(markers@), s@.len()),
{
    let mut k: usize = s.len();
    while k > 0 && !could_be(s, markers, k)
        invariant
            k <= s.len(),
            held_len(s@, views(markers@), s@.len()) == held_len(s@, views(markers@), k as nat),
        decreases k,
    {
        k -= 1;
    }
    k
}

fn add_stretch(list: &mut Vec<StreamEmission>, channel: Channel, text: String)
    ensures
        views(final(list)@) == put(views(old(list)@), channel, text@),
{
    let ghost before = views(list@);
    if chars_of(text.as_str()).len() == 0 {
        return;
    }
    match list.pop() {
        None => {
            list.push(tagged(channel, text));
            assert(views(list@) =~= before.push((channel, text@)));
        },
        Some(last) => {
            let ghost rest = views(list@);
            assert(rest =~= before.drop_last());
            assert(before.last() == last@);
            let (of, held) = match last {
                StreamEmission::Content(held) => (Channel::Text, held),
                StreamEmission::Reasoning(held) => (Channel::Reasoning, held),
            };
            if of == channel {
                list.push(tagged(channel, held.concat(text.as_str())));
                assert(views(list@) =~= put(before, channel, text@));
            } else {
                list.push(tagged(of, held));
                list.push(tagged(channel, text));
                assert(views(list@) =~= before.push((channel, text@)));
            }
        },
    }
}

fn tagged(channel: Channel, text: String) -> (out: StreamEmission)
    ensures
        out@ == (channel, text@),
{
    match channel {
        Channel::Text => StreamEmission::Content(text),
        Channel::Reasoning => StreamEmission::Reasoning(text),
    }
}

impl ReplyStateMachine {
    /// A scan for these markers.
    pub fn new(markers: ChannelMarkers) -> (out: Self)
        ensures
            out@ == SplitView::begun(views(markers.open@), views(markers.close@)),
    {
        let out = ReplyStateMachine {
            open: texts_of(&markers.open),
            close: texts_of(&markers.close),
            inside: false,
            pending: Vec::new(),
        };
        assert(out@ =~= SplitView::begun(views(markers.open@), views(markers.close@)));
        out
    }

    /// Takes one more character in, and lets go what it settles.
    fn take_in(&mut self, c: char) -> (out: Vec<char>)
        ensures
            (final(self)@, out@) == old(self)@.step(c),
    {
        let ghost before = self@;
        self.pending.push(c);
        let ghost s = self.pending@;
        let markers = if self.inside {
            &self.close
        } else {
            &self.open
        };
        assert(views(markers@) == before.markers());
        match find_end(&self.pending, markers) {
            Some(n) => {
                let gone = part_of(self.pending.as_slice(), 0, self.pending.len() - n);
                assert(gone@ =~= s.take(s.len() - n));
                self.inside = !self.inside;
                self.pending = Vec::new();
                assert(self@ =~= before.step(c).0);
                gone
            },
            None => {
                let k = find_held(&self.pending, markers);
                let at: usize = self.pending.len() - k;
                let gone = part_of(self.pending.as_slice(), 0, at);
                let kept = part_of(self.pending.as_slice(), at, self.pending.len());
                assert(gone@ =~= s.take(s.len() - k));
                assert(kept@ =~= s.skip(s.len() - k));
                self.pending = kept;
                assert(self@ =~= before.step(c).0);
                gone
            },
        }
    }

    /// Takes text in, and lets go the stretches it settles.
    pub fn push_emit(&mut self, text: &str) -> (out: Vec<StreamEmission>)
        ensures
            (final(self)@, views(out@)) == old(self)@.fed(text@),
    {
        self.push_settling(text).0
    }

    /// Takes text in, and lets go the stretches it settles; says what became
    /// of the text that was held back.
    pub fn push_settling(&mut self, text: &str) -> (out: (Vec<StreamEmission>, Fate))
        ensures
            (final(self)@, views(out.0@)) == old(self)@.fed(text@),
            out.1 == old(self)@.fate(text@),
    {
        let ghost first = self@;
        let chars = chars_of(text);
        let mut out: Vec<StreamEmission> = Vec::new();
        let mut fate = Fate::Held;
        let mut i: usize = 0;
        assert(text@.take(0) =~= Seq::empty());
        assert(views(out@) =~= Seq::empty());
        while i < chars.len()
            invariant
                i <= chars.len(),
                chars@ == text@,
                (self@, views(out@)) == first.fed(text@.take(i as int)),
                fate == first.fate(text@.take(i as int)),
            decreases chars.len() - i,
        {
            assert(text@.take(i + 1).drop_last() =~= text@.take(i as int));
            assert(text@.take(i + 1).last() == chars@[i as int]);
            let channel = if self.inside {
                Channel::Reasoning
            } else {
                Channel::Text
            };
            assert(channel == self@.channel());
            let gone = self.take_in(chars[i]);
            if fate == Fate::Held {
                if gone.len() > 0 {
                    fate = Fate::Said;
                } else if self.pending.len() == 0 {
                    fate = Fate::Marker;
                }
            }
            add_stretch(&mut out, channel, string_of(gone.as_slice()));
            i += 1;
        }
        assert(text@.take(text@.len() as int) =~= text@);
        (out, fate)
    }

    /// How many characters are held back because they could still become a
    /// marker.
    pub fn held_back(&self) -> (out: usize)
        ensures
            out == self@.pending.len(),
    {
        self.pending.len()
    }

    /// The text ended: what could have become a marker did not.
    pub fn flush_pending(&mut self) -> (out: Vec<StreamEmission>)
        ensures
            views(out@) == old(self)@.left(),
            final(self)@ == (SplitView { pending: Seq::empty(), ..old(self)@ }),
    {
        let ghost before = self@;
        let mut out: Vec<StreamEmission> = Vec::new();
        let channel = if self.inside {
            Channel::Reasoning
        } else {
            Channel::Text
        };
        assert(views(out@) =~= Seq::empty());
        add_stretch(&mut out, channel, string_of(self.pending.as_slice()));
        self.pending = Vec::new();
        assert(self@ =~= SplitView { pending: Seq::empty(), ..before });
        out
    }
}

// ── Laws ────────────────────────────────────────────────────────────────────

/// What the fate of held text says of the stretches let go: none where it is
/// still held, and one at least where it is text.
pub proof fn fate_shows(split: SplitView, text: Seq<char>)
    ensures
        split.fate(text) == Fate::Held ==> {
            &&& split.fed(text).1.len() == 0
            &&& split.pending.len() > 0 ==> split.fed(text).0.pending.len() > 0
        },
        split.fate(text) == Fate::Said ==> split.fed(text).1.len() > 0,
    decreases text.len(),
{
    if text.len() > 0 {
        fate_shows(split, text.drop_last());
        let (before, list) = split.fed(text.drop_last());
        let (after, gone) = before.step(text.last());
        if split.fate(text.drop_last()) == Fate::Held && gone.len() == 0
            && marker_end(before.pending.push(text.last()), before.markers()) is Some {
            assert(after.pending.len() == 0);
        }
    }
}

/// Text in one channel, character by character.
pub open spec fn marked(channel: Channel, text: Seq<char>) -> Seq<(Channel, char)> {
    text.map_values(|c: char| (channel, c))
}

/// Stretches, character by character.
pub open spec fn flat(list: Seq<(Channel, Seq<char>)>) -> Seq<(Channel, char)>
    decreases list.len(),
{
    if list.len() == 0 {
        Seq::empty()
    } else {
        flat(list.drop_last()) + marked(list.last().0, list.last().1)
    }
}

/// What is added to stretches comes after them.
pub proof fn put_appends(list: Seq<(Channel, Seq<char>)>, channel: Channel, text: Seq<char>)
    ensures
        flat(put(list, channel, text)) == flat(list) + marked(channel, text),
{
    if text.len() == 0 {
        assert(flat(list) + marked(channel, text) =~= flat(list));
    } else if list.len() > 0 && list.last().0 == channel {
        let longer = list.drop_last().push((channel, list.last().1 + text));
        assert(longer.drop_last() =~= list.drop_last());
        assert(marked(channel, list.last().1 + text) =~= marked(channel, list.last().1) + marked(
            channel,
            text,
        ));
        assert(flat(longer) =~= flat(list) + marked(channel, text));
    } else {
        assert(list.push((channel, text)).drop_last() =~= list);
    }
}

/// How text is cut into fragments does not change what is told apart: feeding
/// two fragments is feeding them as one.
pub proof fn fragments_do_not_matter(split: SplitView, a: Seq<char>, b: Seq<char>)
    ensures
        ({
            let (first, x) = split.fed(a);
            let (second, y) = first.fed(b);
            let (whole, z) = split.fed(a + b);
            whole == second && flat(z) == flat(x) + flat(y)
        }),
    decreases b.len(),
{
    let (first, x) = split.fed(a);
    if b.len() == 0 {
        assert(a + b =~= a);
        assert(flat(x) + flat(first.fed(b).1) =~= flat(x));
    } else {
        fragments_do_not_matter(split, a, b.drop_last());
        assert((a + b).drop_last() =~= a + b.drop_last());
        assert((a + b).last() == b.last());
        let (mid, y) = first.fed(b.drop_last());
        let z = split.fed(a + b.drop_last()).1;
        let (after, gone) = mid.step(b.last());
        put_appends(y, mid.channel(), gone);
        put_appends(z, mid.channel(), gone);
        assert(flat(z) + marked(mid.channel(), gone) =~= flat(x) + (flat(y) + marked(
            mid.channel(),
            gone,
        )));
    }
}

/// Whether a marker stands somewhere in a text.
pub open spec fn has_marker(text: Seq<char>, markers: Seq<Seq<char>>) -> bool {
    exists|n: int|
        0 <= n <= text.len() && (#[trigger] marker_end(text.take(n), markers)) is Some
}

/// What ends a longer text in a marker, the longer text ends in too.
proof fn marker_end_longer(s: Seq<char>, head: Seq<char>, markers: Seq<Seq<char>>)
    requires
        marker_end(s, markers) is Some,
    ensures
        marker_end(head + s, markers) is Some,
    decreases markers.len(),
{
    if markers.len() > 0 {
        if markers[0].len() > 0 && markers[0].is_suffix_of(s) {
            let m = markers[0];
            let t = head + s;
            assert(t.subrange(t.len() - m.len(), t.len() as int) =~= s.subrange(
                s.len() - m.len(),
                s.len() as int,
            ));
        } else {
            marker_end_longer(s, head, markers.drop_first());
        }
    }
}

/// A reply that uses no scaffold is all visible text, as it was written.
pub proof fn plain_text_passes_through(split: SplitView, text: Seq<char>)
    requires
        !split.inside,
        split.pending.len() == 0,
        !has_marker(text, split.open),
    ensures
        ({
            let (after, list) = split.fed(text);
            flat(list) + flat(after.left()) == marked(Channel::Text, text)
        }),
{
    passes_through_so_far(split, text);
    let (after, list) = split.fed(text);
    put_appends(Seq::empty(), after.channel(), after.pending);
    assert(flat(Seq::<(Channel, Seq<char>)>::empty()) =~= Seq::empty());
    assert(flat(after.left()) =~= marked(Channel::Text, after.pending));
}

proof fn passes_through_so_far(split: SplitView, text: Seq<char>)
    requires
        !split.inside,
        split.pending.len() == 0,
        !has_marker(text, split.open),
    ensures
        ({
            let (after, list) = split.fed(text);
            &&& after.open == split.open
            &&& !after.inside
            &&& after.pending.is_suffix_of(text)
            &&& flat(list) + marked(Channel::Text, after.pending) == marked(Channel::Text, text)
        }),
    decreases text.len(),
{
    if text.len() == 0 {
        let (after, list) = split.fed(text);
        assert(after.pending =~= text);
        assert(text.subrange(0, 0) =~= text);
        assert(flat(list) + marked(Channel::Text, after.pending) =~= marked(Channel::Text, text));
    } else {
        let short = text.drop_last();
        assert forall|n: int| 0 <= n <= short.len() implies (#[trigger] marker_end(
            short.take(n),
            split.open,
        )) is None by {
            assert(short.take(n) =~= text.take(n));
        }
        passes_through_so_far(split, short);
        let (mid, list) = split.fed(short);
        let c = text.last();
        let s = mid.pending.push(c);
        let head = text.take(text.len() - s.len());
        assert(text =~= head + s) by {
            assert(mid.pending =~= short.subrange(
                short.len() - mid.pending.len(),
                short.len() as int,
            ));
        }
        if marker_end(s, split.open) is Some {
            marker_end_longer(s, head, split.open);
            assert(text.take(text.len() as int) =~= text);
        }
        let (after, gone) = mid.step(c);
        let k = held_len(s, split.open, s.len());
        held_len_bound(s, split.open, s.len());
        put_appends(list, Channel::Text, gone);
        assert(gone + after.pending =~= s);
        assert(marked(Channel::Text, gone) + marked(Channel::Text, after.pending) =~= marked(
            Channel::Text,
            s,
        ));
        assert(marked(Channel::Text, s) =~= marked(Channel::Text, mid.pending).push(
            (Channel::Text, c),
        ));
        assert(marked(Channel::Text, text) =~= marked(Channel::Text, short).push(
            (Channel::Text, c),
        ));
        assert(flat(put(list, Channel::Text, gone)) + marked(Channel::Text, after.pending) =~= flat(
            list,
        ) + (marked(Channel::Text, gone) + marked(Channel::Text, after.pending)));
        assert(flat(list) + marked(Channel::Text, mid.pending).push((Channel::Text, c)) =~= (flat(
            list,
        ) + marked(Channel::Text, mid.pending)).push((Channel::Text, c)));
        assert(after.pending =~= text.subrange(
            text.len() - after.pending.len(),
            text.len() as int,
        ));
    }
}

proof fn held_len_bound(s: Seq<char>, markers: Seq<Seq<char>>, k: nat)
    ensures
        held_len(s, markers, k) <= k,
    decreases k,
{
    if k > 0 {
        held_len_bound(s, markers, (k - 1) as nat);
    }
}

// ── What becomes of text that is held back ──────────────────────────────────

/// Whether a text begins with a bracket and holds no other.
pub open spec fn bracketed(text: Seq<char>) -> bool {
    &&& 0 < text.len() <= 64
    &&& text[0] == '<'
    &&& forall|i: int| 0 < i < text.len() ==> #[trigger] text[i] != '<'
}

/// Whether a scan looks for bracketed markers only.
pub open spec fn sharp(split: SplitView) -> bool {
    &&& forall|i: int| 0 <= i < split.open.len() ==> bracketed(#[trigger] split.open[i])
    &&& forall|i: int| 0 <= i < split.close.len() ==> bracketed(#[trigger] split.close[i])
    &&& split.pending.len() > 0 ==> bracketed(split.pending)
}

proof fn marker_ends(s: Seq<char>, markers: Seq<Seq<char>>) -> (i: int)
    requires
        marker_end(s, markers) is Some,
    ensures
        0 <= i < markers.len(),
        markers[i].len() == marker_end(s, markers)->0,
        markers[i].is_suffix_of(s),
    decreases markers.len(),
{
    if markers[0].len() > 0 && markers[0].is_suffix_of(s) {
        0
    } else {
        marker_ends(s, markers.drop_first()) + 1
    }
}

proof fn held_len_holds(s: Seq<char>, markers: Seq<Seq<char>>, k: nat)
    ensures
        held_len(s, markers, k) <= k,
        held_len(s, markers, k) > 0 ==> begins_marker(s, markers, held_len(s, markers, k)),
    decreases k,
{
    if k > 0 && !begins_marker(s, markers, k) {
        held_len_holds(s, markers, (k - 1) as nat);
    }
}

/// Bracketed text is let go whole or not at all.
proof fn sharp_step(split: SplitView, c: char)
    requires
        sharp(split),
    ensures
        sharp(split.step(c).0),
        split.step(c).1.len() > 0 ==> split.step(c).1.len() >= split.pending.len(),
        split.step(c).1.len() == 0 && split.step(c).0.pending.len() > 0 ==> split.step(
            c,
        ).0.pending.len() >= split.pending.len(),
{
    let s = split.pending.push(c);
    let markers = split.markers();
    let (after, gone) = split.step(c);
    match marker_end(s, markers) {
        Some(n) => {
            let i = marker_ends(s, markers);
            let m = markers[i];
            assert(bracketed(m));
            assert(m[0] == s[s.len() - n]) by {
                assert(m == s.subrange(s.len() - n, s.len() as int));
            }
        },
        None => {
            let k = held_len(s, markers, s.len());
            held_len_holds(s, markers, s.len());
            if k > 0 {
                let i = choose|i: int|
                    0 <= i < markers.len() && k < (#[trigger] markers[i]).len() && markers[i].take(
                        k as int,
                    ) == s.skip(s.len() - k);
                let m = markers[i];
                assert(bracketed(m));
                assert(after.pending =~= m.take(k as int));
                assert(m.take(k as int)[0] == m[0]);
                assert(s.skip(s.len() - k)[0] == s[s.len() - k]);
                assert forall|j: int| 0 < j < after.pending.len() implies #[trigger]
                after.pending[j] != '<' by {
                    assert(after.pending[j] == m[j]);
                }
            }
        },
    }
}

/// Bracketed text that turns out to be text is let go whole, in the first
/// stretch.
pub proof fn held_text_comes_whole(split: SplitView, text: Seq<char>)
    requires
        sharp(split),
    ensures
        sharp(split.fed(text).0),
        split.fate(text) == Fate::Held ==> split.fed(text).0.pending.len() >= split.pending.len(),
        split.fate(text) == Fate::Said ==> {
            &&& split.fed(text).1.len() > 0
            &&& split.fed(text).1[0].1.len() >= split.pending.len()
        },
    decreases text.len(),
{
    if text.len() > 0 {
        held_text_comes_whole(split, text.drop_last());
        fate_shows(split, text.drop_last());
        let (before, list) = split.fed(text.drop_last());
        sharp_step(before, text.last());
    }
}

/// What becomes of held text is what becomes of it first.
pub proof fn fate_is_settled_once(split: SplitView, a: Seq<char>, b: Seq<char>)
    ensures
        split.fate(a + b) == (if split.fate(a) == Fate::Held {
            split.fed(a).0.fate(b)
        } else {
            split.fate(a)
        }),
    decreases b.len(),
{
    if b.len() == 0 {
        assert(a + b =~= a);
    } else {
        fate_is_settled_once(split, a, b.drop_last());
        assert((a + b).drop_last() =~= a + b.drop_last());
        fragments_do_not_matter(split, a, b.drop_last());
    }
}

/// More text leaves the stretches let go before it, but for more of the last.
pub proof fn stretches_only_grow(split: SplitView, a: Seq<char>, b: Seq<char>)
    ensures
        split.fed(a).1.len() == 0 ==> split.fed(a + b).1 == split.fed(a).0.fed(b).1,
        split.fed(a).1.len() > 0 ==> {
            &&& split.fed(a + b).1.len() > 0
            &&& split.fed(a + b).1[0].0 == split.fed(a).1[0].0
            &&& split.fed(a + b).1[0].1.len() >= split.fed(a).1[0].1.len()
            &&& split.fed(a + b).1[0].1.take(split.fed(a).1[0].1.len() as int) == split.fed(
                a,
            ).1[0].1
        },
    decreases b.len(),
{
    if b.len() == 0 {
        assert(a + b =~= a);
        if split.fed(a).1.len() > 0 {
            let first = split.fed(a).1[0].1;
            assert(first.take(first.len() as int) =~= first);
        }
    } else {
        stretches_only_grow(split, a, b.drop_last());
        assert((a + b).drop_last() =~= a + b.drop_last());
        fragments_do_not_matter(split, a, b.drop_last());
        if split.fed(a).1.len() > 0 {
            let first = split.fed(a).1[0].1;
            let so_far = split.fed(a + b.drop_last()).1;
            let now = split.fed(a + b).1;
            assert(now[0].1.take(first.len() as int) =~= so_far[0].1.take(first.len() as int));
        }
    }
}

// ── What markers do ─────────────────────────────────────────────────────────

/// Whether a text holds no bracket.
pub open spec fn unbracketed(text: Seq<char>) -> bool {
    forall|i: int| 0 <= i < text.len() ==> #[trigger] text[i] != '<'
}

/// Text without brackets is let go as it is, in the channel that is being
/// read.
pub proof fn unbracketed_text_is_let_go(split: SplitView, text: Seq<char>)
    requires
        sharp(split),
        split.pending.len() == 0,
        unbracketed(text),
    ensures
        split.fed(text).0 == split,
        flat(split.fed(text).1) == marked(split.channel(), text),
    decreases text.len(),
{
    if text.len() == 0 {
        assert(marked(split.channel(), text) =~= Seq::empty());
    } else {
        let short = text.drop_last();
        let c = text.last();
        assert forall|i: int| 0 <= i < short.len() implies #[trigger] short[i] != '<' by {
            assert(text[i] == short[i]);
        }
        unbracketed_text_is_let_go(split, short);
        assert(text[text.len() - 1] != '<');
        let s = split.pending.push(c);
        let markers = split.markers();
        if marker_end(s, markers) is Some {
            let i = marker_ends(s, markers);
            assert(bracketed(markers[i]));
            assert(markers[i] == s.subrange(s.len() - markers[i].len(), s.len() as int));
            assert(s[s.len() - markers[i].len()] == '<');
        }
        held_len_holds(s, markers, s.len());
        if held_len(s, markers, s.len()) > 0 {
            let i = choose|i: int|
                0 <= i < markers.len() && 1 < (#[trigger] markers[i]).len() && markers[i].take(1)
                    == s.skip(s.len() - 1);
            assert(bracketed(markers[i]));
            assert(markers[i].take(1)[0] == '<');
            assert(s.skip(0)[0] == c);
        }
        let (after, gone) = split.step(c);
        assert(gone =~= seq![c]);
        assert(after =~= split);
        put_appends(split.fed(short).1, split.channel(), gone);
        assert(marked(split.channel(), text) =~= marked(split.channel(), short) + marked(
            split.channel(),
            gone,
        ));
    }
}

proof fn marker_end_is_found(s: Seq<char>, markers: Seq<Seq<char>>, i: int)
    requires
        0 <= i < markers.len(),
        markers[i].len() > 0,
        markers[i].is_suffix_of(s),
    ensures
        marker_end(s, markers) is Some,
    decreases markers.len(),
{
    if i > 0 {
        marker_end_is_found(s, markers.drop_first(), i - 1);
    }
}

/// A marker is no text: it changes the channel and nothing of it is let go.
pub proof fn a_marker_changes_the_channel(split: SplitView, at: int)
    requires
        sharp(split),
        split.pending.len() == 0,
        0 <= at < split.markers().len(),
        forall|i: int|
            0 <= i < split.markers().len() && (#[trigger] split.markers()[i]).is_prefix_of(
                split.markers()[at],
            ) ==> split.markers()[i] == split.markers()[at],
    ensures
        split.fed(split.markers()[at]) == (
            SplitView { inside: !split.inside, ..split },
            Seq::<(Channel, Seq<char>)>::empty(),
        ),
{
    let m = split.markers()[at];
    assert(bracketed(m));
    marker_so_far(split, at, m.len() - 1);
    let n = m.len() - 1;
    let (before, list) = split.fed(m.take(n));
    assert(m.drop_last() =~= m.take(n));
    let s = before.pending.push(m.last());
    assert(s =~= m);
    assert(m.is_suffix_of(s)) by {
        assert(s.subrange(0, s.len() as int) =~= m);
    }
    marker_end_is_found(s, before.markers(), at);
    let i = marker_ends(s, before.markers());
    let x = before.markers()[i];
    assert(bracketed(x));
    assert(x == s.subrange(s.len() - x.len(), s.len() as int));
    assert(s[s.len() - x.len()] == '<');
    assert(s.len() == x.len());
    let (after, gone) = before.step(m.last());
    assert(gone.len() == 0);
    assert(after =~= SplitView { inside: !split.inside, ..split });
}

proof fn marker_so_far(split: SplitView, at: int, k: int)
    requires
        sharp(split),
        split.pending.len() == 0,
        0 <= at < split.markers().len(),
        0 <= k < split.markers()[at].len(),
        forall|i: int|
            0 <= i < split.markers().len() && (#[trigger] split.markers()[i]).is_prefix_of(
                split.markers()[at],
            ) ==> split.markers()[i] == split.markers()[at],
    ensures
        split.fed(split.markers()[at].take(k)) == (
            SplitView { pending: split.markers()[at].take(k), ..split },
            Seq::<(Channel, Seq<char>)>::empty(),
        ),
    decreases k,
{
    let m = split.markers()[at];
    assert(bracketed(m));
    if k == 0 {
        assert(split.pending =~= m.take(0));
    } else {
        marker_so_far(split, at, k - 1);
        let before = split.fed(m.take(k - 1)).0;
        assert(m.take(k).drop_last() =~= m.take(k - 1));
        let s = before.pending.push(m.take(k).last());
        assert(s =~= m.take(k));
        let markers = before.markers();
        if marker_end(s, markers) is Some {
            let i = marker_ends(s, markers);
            let x = markers[i];
            assert(bracketed(x));
            assert(x == s.subrange(s.len() - x.len(), s.len() as int));
            assert(s[s.len() - x.len()] == '<');
            assert(m[s.len() - x.len()] == '<');
            assert(x =~= m.subrange(0, x.len() as int));
            assert(x.is_prefix_of(m));
        }
        assert(markers[at].take(k) == s.skip(s.len() - s.len())) by {
            assert(s.skip(0) =~= m.take(k));
        }
        assert(begins_marker(s, markers, s.len()));
        let (after, gone) = before.step(m.take(k).last());
        assert(after.pending =~= m.take(k));
        assert(gone =~= Seq::empty());
    }
}

/// Reasoning is told from the reply by the markers around it: what stands
/// before the opening marker and after the closing one is the reply, what
/// stands between them is reasoning, and the markers are neither.
pub proof fn reasoning_is_told_from_the_reply(
    split: SplitView,
    before: Seq<char>,
    open: int,
    thought: Seq<char>,
    close: int,
    after: Seq<char>,
)
    requires
        sharp(split),
        !split.inside,
        split.pending.len() == 0,
        0 <= open < split.open.len(),
        0 <= close < split.close.len(),
        forall|i: int|
            0 <= i < split.open.len() && (#[trigger] split.open[i]).is_prefix_of(split.open[open])
                ==> split.open[i] == split.open[open],
        forall|i: int|
            0 <= i < split.close.len() && (#[trigger] split.close[i]).is_prefix_of(
                split.close[close],
            ) ==> split.close[i] == split.close[close],
        unbracketed(before),
        unbracketed(thought),
        unbracketed(after),
    ensures
        ({
            let text = before + split.open[open] + thought + split.close[close] + after;
            &&& split.fed(text).0 == split
            &&& flat(split.fed(text).1) == marked(Channel::Text, before) + marked(
                Channel::Reasoning,
                thought,
            ) + marked(Channel::Text, after)
        }),
{
    let inner = SplitView { inside: true, ..split };
    let x = before + split.open[open];
    let y = x + thought;
    let z = y + split.close[close];
    unbracketed_text_is_let_go(split, before);
    a_marker_changes_the_channel(split, open);
    unbracketed_text_is_let_go(inner, thought);
    a_marker_changes_the_channel(inner, close);
    unbracketed_text_is_let_go(split, after);
    fragments_do_not_matter(split, before, split.open[open]);
    fragments_do_not_matter(split, x, thought);
    fragments_do_not_matter(split, y, split.close[close]);
    fragments_do_not_matter(split, z, after);
    let none = flat(Seq::<(Channel, Seq<char>)>::empty());
    assert(none =~= Seq::empty());
    assert(SplitView { inside: false, ..inner } =~= split);
    assert(flat(split.fed(z + after).1) =~= marked(Channel::Text, before) + marked(
        Channel::Reasoning,
        thought,
    ) + marked(Channel::Text, after));
}

} // verus!
