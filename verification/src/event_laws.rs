//! What holds of every stream.
use vstd::prelude::*;
use vstd::string::*;
use crate::channels::{
    bracketed, fate_is_settled_once, fate_shows, flat, fragments_do_not_matter,
    held_text_comes_whole, marked, put, reasoning_is_told_from_the_reply, sharp,
    stretches_only_grow, unbracketed, unbracketed_text_is_let_go, Channel, Fate, SplitView,
};
use crate::event::{
    asked_in, delta_in, emitting_keeps_the_rest, grown, minted, part_in, parts_of,
    placing_keeps_the_rest, report, saying_keeps_the_rest, spreading_keeps_the_rest,
    threading_keeps_the_rest, AssemblyView, EventView,
};
use crate::output::{calls_in, reasoning_in, text_in, AskedView, PartView, ReasonView};
use crate::session_model::MessageId;
use crate::stream::{ExecutionStats, FinishView, StreamCallView, TokenEventView};
use crate::text::{
    a_body_ends_where_white_space_begins, body_len, decimal, digit, is_space,
    only_a_lead_is_left_out, only_line_breaks_are_left_out, without_breaks, without_lead,
};

verus! {

// ── What a reader of the events sees ────────────────────────────────────────

/// The reply, as its fragments tell it.
pub open spec fn streamed_text(events: Seq<EventView>) -> Seq<char>
    decreases events.len(),
{
    if events.len() == 0 {
        Seq::empty()
    } else {
        match events.last() {
            EventView::TextDelta(text) => streamed_text(events.drop_last()) + text,
            _ => streamed_text(events.drop_last()),
        }
    }
}

/// The reasoning, as its fragments tell it.
pub open spec fn streamed_reasoning(events: Seq<EventView>) -> Option<Seq<char>>
    decreases events.len(),
{
    if events.len() == 0 {
        None
    } else {
        let before = streamed_reasoning(events.drop_last());
        match events.last() {
            EventView::ReasoningDelta(text) => Some(
                match before {
                    Some(head) => head + text,
                    None => text,
                },
            ),
            _ => before,
        }
    }
}

/// The calls, as they were completed.
pub open spec fn streamed_calls(events: Seq<EventView>) -> Seq<AskedView>
    decreases events.len(),
{
    if events.len() == 0 {
        Seq::empty()
    } else {
        match events.last() {
            EventView::ToolCallEnd(call) => streamed_calls(events.drop_last()).push(call),
            _ => streamed_calls(events.drop_last()),
        }
    }
}

/// A stretch of a channel, a part to each character.
pub open spec fn bits_in(channel: Channel, text: Seq<char>) -> Seq<PartView> {
    text.map_values(|c: char| part_in(channel, seq![c]))
}

/// What a message says and thinks, in order, a part to each character.
pub open spec fn words(parts: Seq<PartView>) -> Seq<PartView>
    decreases parts.len(),
{
    if parts.len() == 0 {
        Seq::empty()
    } else {
        words(parts.drop_last()) + (match parts.last() {
            PartView::Text(text) => bits_in(Channel::Text, text),
            PartView::Reasoning(text) => bits_in(Channel::Reasoning, text),
            PartView::Call(_) => Seq::empty(),
        })
    }
}

/// What events report as said and thought, in order, a part to each
/// character.
pub open spec fn streamed_words(events: Seq<EventView>) -> Seq<PartView>
    decreases events.len(),
{
    if events.len() == 0 {
        Seq::empty()
    } else {
        streamed_words(events.drop_last()) + (match events.last() {
            EventView::TextDelta(text) => bits_in(Channel::Text, text),
            EventView::ReasoningDelta(text) => bits_in(Channel::Reasoning, text),
            _ => Seq::empty(),
        })
    }
}

/// The fragments among events.
pub open spec fn fragments(events: Seq<EventView>) -> Seq<EventView>
    decreases events.len(),
{
    if events.len() == 0 {
        Seq::empty()
    } else {
        match events.last() {
            EventView::TextDelta(_) => fragments(events.drop_last()).push(events.last()),
            EventView::ReasoningDelta(_) => fragments(events.drop_last()).push(events.last()),
            _ => fragments(events.drop_last()),
        }
    }
}

/// An assembly after everything streamed so far, and all it reported.
pub open spec fn after_stream(start: AssemblyView, stream: Seq<TokenEventView>) -> (
    AssemblyView,
    Seq<EventView>,
)
    decreases stream.len(),
{
    if stream.len() == 0 {
        (start, Seq::empty())
    } else {
        let (before, events) = after_stream(start, stream.drop_last());
        let (after, more) = before.pushed(stream.last());
        (after, events + more)
    }
}

/// A whole turn: everything streamed, then the end.
pub open spec fn whole_turn(
    start: AssemblyView,
    stream: Seq<TokenEventView>,
    finish: FinishView,
) -> (AssemblyView, Seq<EventView>) {
    let (before, events) = after_stream(start, stream);
    let (after, more) = before.finished(finish);
    (after, events + more)
}

/// Reasoning with more after it.
spec fn joined(head: Option<Seq<char>>, tail: Option<Seq<char>>) -> Option<Seq<char>> {
    match (head, tail) {
        (Some(a), Some(b)) => Some(a + b),
        (Some(a), None) => Some(a),
        (None, t) => t,
    }
}

/// What two runs of events tell is what the first tells and then the second.
proof fn events_join(a: Seq<EventView>, b: Seq<EventView>)
    ensures
        streamed_text(a + b) == streamed_text(a) + streamed_text(b),
        streamed_reasoning(a + b) == joined(streamed_reasoning(a), streamed_reasoning(b)),
        streamed_calls(a + b) == streamed_calls(a) + streamed_calls(b),
        streamed_words(a + b) == streamed_words(a) + streamed_words(b),
        fragments(a + b) == fragments(a) + fragments(b),
    decreases b.len(),
{
    if b.len() == 0 {
        assert(a + b =~= a);
        assert(streamed_words(a) + streamed_words(b) =~= streamed_words(a));
        assert(fragments(a) + fragments(b) =~= fragments(a));
        assert(streamed_text(a) + streamed_text(b) =~= streamed_text(a));
        assert(streamed_calls(a) + streamed_calls(b) =~= streamed_calls(a));
    } else {
        events_join(a, b.drop_last());
        assert((a + b).drop_last() =~= a + b.drop_last());
        let last = match b.last() {
            EventView::TextDelta(text) => bits_in(Channel::Text, text),
            EventView::ReasoningDelta(text) => bits_in(Channel::Reasoning, text),
            _ => Seq::empty(),
        };
        assert(streamed_words(a) + (streamed_words(b.drop_last()) + last) =~= streamed_words(a)
            + streamed_words(b.drop_last()) + last);
        assert((fragments(a) + fragments(b.drop_last())).push(b.last()) =~= fragments(a)
            + fragments(b.drop_last()).push(b.last()));
        match b.last() {
            EventView::TextDelta(text) => {
                assert(streamed_text(a) + streamed_text(b) =~= streamed_text(a) + streamed_text(
                    b.drop_last(),
                ) + text);
            },
            EventView::ReasoningDelta(text) => {
                let x = streamed_reasoning(a);
                let y = streamed_reasoning(b.drop_last());
                match (x, y) {
                    (Some(p), Some(q)) => {
                        assert(p + q + text =~= p + (q + text));
                    },
                    _ => {},
                }
            },
            EventView::ToolCallEnd(call) => {
                assert(streamed_calls(a) + streamed_calls(b) =~= (streamed_calls(a)
                    + streamed_calls(b.drop_last())).push(call));
            },
            _ => {},
        }
    }
}

/// What one event tells.
proof fn one_event(event: EventView)
    ensures
        streamed_text(seq![event]) == (match event {
            EventView::TextDelta(text) => text,
            _ => Seq::empty(),
        }),
        streamed_reasoning(seq![event]) == (match event {
            EventView::ReasoningDelta(text) => Some(text),
            _ => None,
        }),
        streamed_calls(seq![event]) == (match event {
            EventView::ToolCallEnd(call) => seq![call],
            _ => Seq::empty(),
        }),
        streamed_words(seq![event]) == (match event {
            EventView::TextDelta(text) => bits_in(Channel::Text, text),
            EventView::ReasoningDelta(text) => bits_in(Channel::Reasoning, text),
            _ => Seq::empty(),
        }),
        fragments(seq![event]) == (match event {
            EventView::TextDelta(_) => seq![event],
            EventView::ReasoningDelta(_) => seq![event],
            _ => Seq::empty(),
        }),
{
    reveal_with_fuel(streamed_words, 2);
    reveal_with_fuel(fragments, 2);
    reveal_with_fuel(streamed_text, 2);
    reveal_with_fuel(streamed_reasoning, 2);
    reveal_with_fuel(streamed_calls, 2);
    assert(seq![event].drop_last() =~= Seq::<EventView>::empty());
    assert(seq![event].last() == event);
    assert(streamed_words(seq![event]) =~= (match event {
        EventView::TextDelta(text) => bits_in(Channel::Text, text),
        EventView::ReasoningDelta(text) => bits_in(Channel::Reasoning, text),
        _ => Seq::empty(),
    }));
    assert(fragments(seq![event]) =~= (match event {
        EventView::TextDelta(_) => seq![event],
        EventView::ReasoningDelta(_) => seq![event],
        _ => Seq::empty(),
    }));
    match event {
        EventView::TextDelta(text) => {
            assert(Seq::<char>::empty() + text =~= text);
        },
        EventView::ToolCallEnd(call) => {
            assert(Seq::<AskedView>::empty().push(call) =~= seq![call]);
        },
        _ => {},
    }
}

/// Two stretches of a channel are what the first is and then the second.
proof fn bits_join(channel: Channel, a: Seq<char>, b: Seq<char>)
    ensures
        bits_in(channel, a + b) == bits_in(channel, a) + bits_in(channel, b),
{
    assert(bits_in(channel, a + b) =~= bits_in(channel, a) + bits_in(channel, b));
}

/// A fragment lengthens the parts by itself.
proof fn growing(parts: Seq<PartView>, fresh: bool, channel: Channel, chunk: Seq<char>)
    ensures
        text_in(grown(parts, fresh, channel, chunk)) == text_in(parts) + (if channel
            == Channel::Text {
            chunk
        } else {
            Seq::empty()
        }),
        reasoning_in(grown(parts, fresh, channel, chunk)) == (if channel == Channel::Reasoning {
            joined(reasoning_in(parts), Some(chunk))
        } else {
            reasoning_in(parts)
        }),
        calls_in(grown(parts, fresh, channel, chunk)) == calls_in(parts),
        words(grown(parts, fresh, channel, chunk)) == words(parts) + bits_in(channel, chunk),
{
    let out = grown(parts, fresh, channel, chunk);
    assert(out.drop_last() =~= parts || (parts.len() > 0 && out.drop_last()
        =~= parts.drop_last()));
    assert(text_in(parts) + Seq::<char>::empty() =~= text_in(parts));
    if parts.len() > 0 {
        match (channel, parts.last()) {
            (Channel::Text, PartView::Text(text)) => {
                let head = text_in(parts.drop_last());
                assert(head + (text + chunk) =~= head + text + chunk);
                bits_join(channel, text, chunk);
                let done = words(parts.drop_last());
                assert(done + (bits_in(channel, text) + bits_in(channel, chunk)) =~= done
                    + bits_in(channel, text) + bits_in(channel, chunk));
            },
            (Channel::Reasoning, PartView::Reasoning(text)) => {
                bits_join(channel, text, chunk);
                let done = words(parts.drop_last());
                assert(done + (bits_in(channel, text) + bits_in(channel, chunk)) =~= done
                    + bits_in(channel, text) + bits_in(channel, chunk));
                match reasoning_in(parts.drop_last()) {
                    Some(head) => {
                        assert(head + (text + chunk) =~= head + text + chunk);
                    },
                    None => {},
                }
            },
            _ => {},
        }
    }
    if fresh || parts.len() == 0 {
        assert(out == parts.push(part_in(channel, chunk)));
        assert(out.drop_last() =~= parts);
    } else {
        match (channel, parts.last()) {
            (Channel::Text, PartView::Text(text)) => {
                assert(out.drop_last() =~= parts.drop_last());
            },
            (Channel::Reasoning, PartView::Reasoning(text)) => {
                assert(out.drop_last() =~= parts.drop_last());
            },
            _ => {
                assert(out.drop_last() =~= parts);
            },
        }
    }
}

/// Whether the parts, and the calls that wait, are what the events told.
spec fn told(state: AssemblyView, events: Seq<EventView>) -> bool {
    &&& text_in(state.parts) == streamed_text(events)
    &&& reasoning_in(state.parts) == streamed_reasoning(events)
    &&& words(state.parts) == streamed_words(events)
    &&& calls_in(state.parts) + asked_in(state.late) == streamed_calls(events)
}

/// Whether calls wait only while text is held back.
spec fn patient(state: AssemblyView) -> bool {
    state.late.len() > 0 ==> state.split.pending.len() > 0
}

/// Whether parts say one text more than others.
spec fn says_more(
    before: Seq<PartView>,
    after: Seq<PartView>,
    channel: Channel,
    text: Seq<char>,
) -> bool {
    &&& text_in(after) == text_in(before) + (if channel == Channel::Text {
        text
    } else {
        Seq::empty()
    })
    &&& reasoning_in(after) == (if channel == Channel::Reasoning && text.len() > 0 {
        joined(reasoning_in(before), Some(text))
    } else {
        reasoning_in(before)
    })
    &&& words(after) == words(before) + bits_in(channel, text)
}

proof fn nothing_more(parts: Seq<PartView>, channel: Channel)
    ensures
        says_more(parts, parts, channel, Seq::empty()),
{
    assert(text_in(parts) + Seq::<char>::empty() =~= text_in(parts));
    assert(words(parts) + bits_in(channel, Seq::empty()) =~= words(parts));
}

proof fn more_twice(
    a: Seq<PartView>,
    b: Seq<PartView>,
    c: Seq<PartView>,
    channel: Channel,
    x: Seq<char>,
    y: Seq<char>,
)
    requires
        says_more(a, b, channel, x),
        says_more(b, c, channel, y),
    ensures
        says_more(a, c, channel, x + y),
{
    bits_join(channel, x, y);
    assert(words(a) + (bits_in(channel, x) + bits_in(channel, y)) =~= words(a) + bits_in(
        channel,
        x,
    ) + bits_in(channel, y));
    let none = Seq::<char>::empty();
    if channel == Channel::Text {
        assert(text_in(a) + (x + y) =~= text_in(a) + x + y);
    } else {
        assert(text_in(a) + none + none =~= text_in(a) + none);
        if x.len() == 0 {
            assert(x + y =~= y);
        }
        if y.len() == 0 {
            assert(x + y =~= x);
        }
        match reasoning_in(a) {
            Some(head) => {
                assert(head + (x + y) =~= head + x + y);
            },
            None => {},
        }
    }
}

/// A call says nothing.
proof fn calling_says_nothing(parts: Seq<PartView>, call: AskedView, channel: Channel)
    ensures
        says_more(parts, parts.push(PartView::Call(call)), channel, Seq::empty()),
{
    nothing_more(parts, channel);
    assert(parts.push(PartView::Call(call)).drop_last() =~= parts);
    assert(words(parts.push(PartView::Call(call))) =~= words(parts));
}

proof fn saying_says(state: AssemblyView, channel: Channel, text: Seq<char>)
    ensures
        says_more(
            state.parts,
            state.said(channel, text).0.parts,
            channel,
            state.said(channel, text).1,
        ),
{
    let body = state.said(channel, text).1;
    if body.len() == 0 {
        nothing_more(state.parts, channel);
        assert(body =~= Seq::empty());
    } else {
        growing(state.parts, state.open != Some(channel), channel, body);
    }
}

proof fn threading_says(
    state: AssemblyView,
    channel: Channel,
    text: Seq<char>,
    calls: Seq<(usize, AskedView)>,
)
    ensures
        says_more(
            state.parts,
            state.threaded(channel, text, calls).0.parts,
            channel,
            state.threaded(channel, text, calls).1,
        ),
    decreases calls.len(),
{
    if calls.len() == 0 {
        saying_says(state, channel, text);
    } else {
        let (k, call) = calls.last();
        let at = if k <= text.len() {
            k as int
        } else {
            text.len() as int
        };
        let (before, head) = state.threaded(channel, text.take(at), calls.drop_last());
        let mid = AssemblyView { parts: before.parts.push(PartView::Call(call)), ..before };
        let (after, rest) = mid.said(channel, text.skip(at));
        threading_says(state, channel, text.take(at), calls.drop_last());
        calling_says_nothing(before.parts, call, channel);
        saying_says(mid, channel, text.skip(at));
        more_twice(state.parts, before.parts, mid.parts, channel, head, Seq::empty());
        assert(head + Seq::<char>::empty() =~= head);
        more_twice(state.parts, mid.parts, after.parts, channel, head, rest);
    }
}

proof fn placing_says(state: AssemblyView, channel: Channel)
    ensures
        says_more(state.parts, state.placed().parts, channel, Seq::empty()),
    decreases state.late.len(),
{
    if state.late.len() == 0 {
        nothing_more(state.parts, channel);
        assert(state.placed().parts =~= state.parts);
    } else {
        let short = AssemblyView { late: state.late.drop_last(), ..state };
        placing_says(short, channel);
        calling_says_nothing(short.placed().parts, state.late.last().1, channel);
        assert(state.placed().parts =~= short.placed().parts.push(
            PartView::Call(state.late.last().1),
        ));
        more_twice(
            state.parts,
            short.placed().parts,
            state.placed().parts,
            channel,
            Seq::empty(),
            Seq::empty(),
        );
        assert(Seq::<char>::empty() + Seq::<char>::empty() =~= Seq::<char>::empty());
    }
}

/// What is reported of a text is what the parts say more.
proof fn telling(
    before: AssemblyView,
    after: AssemblyView,
    channel: Channel,
    text: Seq<char>,
    events: Seq<EventView>,
)
    requires
        told(before, events),
        says_more(before.parts, after.parts, channel, text),
        calls_in(after.parts) + asked_in(after.late) == calls_in(before.parts) + asked_in(
            before.late,
        ),
    ensures
        told(after, events + report(channel, text)),
        forall|i: int|
            0 <= i < report(channel, text).len() ==> !(#[trigger] report(channel, text)[i]
                is Finished),
{
    let more = report(channel, text);
    events_join(events, more);
    if text.len() == 0 {
        assert(events + more =~= events);
        assert(text =~= Seq::empty());
        assert(words(before.parts) + bits_in(channel, text) =~= words(before.parts));
        assert(text_in(before.parts) + text =~= text_in(before.parts));
    } else {
        one_event(delta_in(channel, text));
        assert(more =~= seq![delta_in(channel, text)]);
        assert(streamed_calls(events) + Seq::<AskedView>::empty() =~= streamed_calls(events));
        assert(streamed_text(events) + Seq::<char>::empty() =~= streamed_text(events));
    }
}

proof fn emitting_tells(
    state: AssemblyView,
    list: Seq<(Channel, Seq<char>)>,
    events: Seq<EventView>,
)
    requires
        told(state, events),
    ensures
        told(state.emitted_all(list).0, events + state.emitted_all(list).1),
        forall|i: int|
            0 <= i < state.emitted_all(list).1.len() ==> !(#[trigger] state.emitted_all(
                list,
            ).1[i] is Finished),
    decreases list.len(),
{
    if list.len() == 0 {
        assert(events + state.emitted_all(list).1 =~= events);
    } else {
        emitting_tells(state, list.drop_last(), events);
        let (before, so_far) = state.emitted_all(list.drop_last());
        let (channel, text) = list.last();
        let (after, more) = before.emitted(channel, text);
        assert(events + (so_far + more) =~= (events + so_far) + more);
        saying_says(before, channel, text);
        saying_keeps_the_rest(before, channel, text);
        telling(before, after, channel, before.said(channel, text).1, events + so_far);
    }
}

proof fn spreading_tells(
    state: AssemblyView,
    list: Seq<(Channel, Seq<char>)>,
    events: Seq<EventView>,
)
    requires
        told(state, events),
    ensures
        told(state.spread(list).0, events + state.spread(list).1),
        forall|i: int|
            0 <= i < state.spread(list).1.len() ==> !(#[trigger] state.spread(list).1[i]
                is Finished),
{
    if state.late.len() == 0 {
        emitting_tells(state, list, events);
    } else if list.len() == 0 {
        placing_tells(state, events);
        assert(events + state.spread(list).1 =~= events);
    } else {
        let (channel, text) = list[0];
        let free = AssemblyView { late: Seq::empty(), ..state };
        let (first, said) = free.threaded(channel, text, state.late);
        threading_says(free, channel, text, state.late);
        threading_keeps_the_rest(free, channel, text, state.late);
        assert(calls_in(first.parts) + asked_in(first.late) =~= calls_in(state.parts) + asked_in(
            state.late,
        ));
        telling(state, first, channel, said, events);
        let so_far = report(channel, said);
        emitting_tells(first, list.skip(1), events + so_far);
        let more = first.emitted_all(list.skip(1)).1;
        assert(events + (so_far + more) =~= (events + so_far) + more);
        assert forall|i: int| 0 <= i < (so_far + more).len() implies !(#[trigger] (so_far
            + more)[i] is Finished) by {
            if i < so_far.len() {
                assert((so_far + more)[i] == so_far[i]);
            } else {
                assert((so_far + more)[i] == more[i - so_far.len()]);
            }
        }
    }
}

proof fn placing_tells(state: AssemblyView, events: Seq<EventView>)
    requires
        told(state, events),
    ensures
        told(state.placed(), events),
{
    let none = Seq::<char>::empty();
    placing_says(state, Channel::Text);
    placing_keeps_the_rest(state);
    assert(calls_in(state.placed().parts) + asked_in(state.placed().late) =~= calls_in(state.parts)
        + asked_in(state.late));
    telling(state, state.placed(), Channel::Text, none, events);
    assert(events + report(Channel::Text, none) =~= events);
}

proof fn pushing_waits(state: AssemblyView, event: TokenEventView)
    requires
        patient(state),
    ensures
        patient(state.pushed(event).0),
{
    if let TokenEventView::Token(text) = event {
        let (split, list) = state.split.fed(text);
        let fed = AssemblyView { split, ..state };
        fate_shows(state.split, text);
        emitting_keeps_the_rest(fed.placed(), list);
        spreading_keeps_the_rest(fed, list);
    }
}

proof fn pushing_tells(state: AssemblyView, event: TokenEventView, events: Seq<EventView>)
    requires
        told(state, events),
        patient(state),
    ensures
        told(state.pushed(event).0, events + state.pushed(event).1),
        forall|i: int|
            0 <= i < state.pushed(event).1.len() ==> !(#[trigger] state.pushed(event).1[i]
                is Finished),
{
    let (after, more) = state.pushed(event);
    match event {
        TokenEventView::Token(text) => {
            let (split, list) = state.split.fed(text);
            let fed = AssemblyView { split, ..state };
            match state.split.fate(text) {
                Fate::Held if state.late.len() > 0 => {
                    assert(events + more =~= events);
                },
                Fate::Marker => {
                    placing_tells(fed, events);
                    emitting_tells(fed.placed(), list, events);
                },
                _ => {
                    spreading_tells(fed, list, events);
                },
            }
        },
        TokenEventView::ToolCall(call) => {
            let asked = state.asked(call);
            let asking = seq![
                EventView::ToolCallStart { id: asked.id, name: call.name },
                EventView::ToolCallArgumentsDelta { id: asked.id, delta: call.arguments },
                EventView::ToolCallEnd(asked),
            ];
            assert(more =~= asking);
            assert(state.parts.push(PartView::Call(asked)).drop_last() =~= state.parts);
            let a = EventView::ToolCallStart { id: asked.id, name: call.name };
            let b = EventView::ToolCallArgumentsDelta { id: asked.id, delta: call.arguments };
            let c = EventView::ToolCallEnd(asked);
            assert(asking =~= seq![a] + seq![b] + seq![c]);
            one_event(a);
            one_event(b);
            one_event(c);
            events_join(seq![a], seq![b]);
            events_join(seq![a] + seq![b], seq![c]);
            events_join(events, asking);
            assert(streamed_text(asking) =~= Seq::<char>::empty());
            assert(streamed_calls(asking) =~= seq![asked]);
            assert(streamed_words(asking) =~= Seq::<PartView>::empty());
            assert(streamed_words(events) + Seq::<PartView>::empty() =~= streamed_words(events));
            assert(words(state.parts.push(PartView::Call(asked))) =~= words(state.parts));
            assert(calls_in(after.parts) + asked_in(after.late) =~= (calls_in(state.parts)
                + asked_in(state.late)).push(asked));
            assert(streamed_text(events) + Seq::<char>::empty() =~= streamed_text(events));
            assert(streamed_calls(events) + seq![asked] =~= streamed_calls(events).push(asked));
            assert forall|i: int| 0 <= i < more.len() implies !(#[trigger] more[i] is Finished) by {
                assert(more[i] == asking[i]);
            }
        },
        _ => {
            assert(events + more =~= events);
        },
    }
}

proof fn streaming_tells(start: AssemblyView, stream: Seq<TokenEventView>)
    requires
        told(start, Seq::empty()),
        patient(start),
    ensures
        told(after_stream(start, stream).0, after_stream(start, stream).1),
        patient(after_stream(start, stream).0),
        forall|i: int|
            0 <= i < after_stream(start, stream).1.len() ==> !(#[trigger] after_stream(
                start,
                stream,
            ).1[i] is Finished),
    decreases stream.len(),
{
    if stream.len() > 0 {
        streaming_tells(start, stream.drop_last());
        let (before, events) = after_stream(start, stream.drop_last());
        pushing_tells(before, stream.last(), events);
        pushing_waits(before, stream.last());
    }
}

proof fn begun_tells(message: MessageId, minted: nat, max_tokens: Option<usize>)
    ensures
        told(AssemblyView::begun(message, minted, max_tokens), Seq::empty()),
{
    let start = AssemblyView::begun(message, minted, max_tokens);
    assert(calls_in(start.parts) + asked_in(start.late) =~= streamed_calls(Seq::empty()));
    assert(words(start.parts) =~= streamed_words(Seq::empty()));
}

/// A stream and the message it comes to never disagree: the text fragments,
/// one after the other, are the text; the reasoning fragments are the
/// reasoning, and there are none exactly where there is none; text and
/// reasoning alternate as they were reported; and the calls reported complete
/// are the calls, in order.
pub proof fn what_streams_is_what_is_said(
    message: MessageId,
    minted: nat,
    max_tokens: Option<usize>,
    stream: Seq<TokenEventView>,
    finish: FinishView,
)
    ensures
        ({
            let (after, events) = whole_turn(
                AssemblyView::begun(message, minted, max_tokens),
                stream,
                finish,
            );
            let parts = after.message_parts();
            &&& text_in(parts) == streamed_text(events)
            &&& reasoning_in(parts) == streamed_reasoning(events)
            &&& calls_in(parts) == streamed_calls(events)
            &&& words(parts) == streamed_words(events)
        }),
{
    let start = AssemblyView::begun(message, minted, max_tokens);
    begun_tells(message, minted, max_tokens);
    streaming_tells(start, stream);
    let (before, events) = after_stream(start, stream);
    let (after, more) = before.finished(finish);
    finishing(before, finish, events);
    let parts = after.message_parts();
    assert(after.placed().parts =~= after.parts);
    assert(calls_in(after.parts) + asked_in(after.late) =~= calls_in(after.parts));
    if after.parts.len() == 0 {
        assert(parts.drop_last() =~= Seq::<PartView>::empty());
        assert(text_in(parts) =~= Seq::<char>::empty());
        assert(bits_in(Channel::Text, Seq::empty()).len() == 0);
        assert(words(parts.drop_last()).len() == 0);
        assert(words(parts) =~= Seq::<PartView>::empty());
    }
}

proof fn finishing(before: AssemblyView, finish: FinishView, events: Seq<EventView>)
    requires
        told(before, events),
    ensures
        ({
            let (after, more) = before.finished(finish);
            &&& told(after, events + more)
            &&& after.late.len() == 0
            &&& more.len() > 0
            &&& more.last() == EventView::Finished(before.reason_for(finish))
            &&& forall|i: int| 0 <= i < more.len() - 1 ==> !(#[trigger] more[i] is Finished)
        }),
{
    let cleared = AssemblyView {
        split: SplitView { pending: Seq::empty(), ..before.split },
        ..before
    };
    spreading_tells(cleared, before.split.left(), events);
    spreading_keeps_the_rest(cleared, before.split.left());
    let (flushed, said) = cleared.spread(before.split.left());
    let (after, more) = before.finished(finish);
    let usage = match before.stats {
        Some(stats) => seq![EventView::Usage(crate::output::usage_of(Some(stats)))],
        None => Seq::empty(),
    };
    let end = EventView::Finished(before.reason_for(finish));
    assert(more =~= said + usage + seq![end]);
    events_join(events, more);
    events_join(said + usage, seq![end]);
    events_join(said, usage);
    events_join(events, said);
    one_event(end);
    if before.stats is Some {
        one_event(usage[0]);
        assert(usage =~= seq![usage[0]]);
    }
    assert(streamed_text(usage) =~= Seq::<char>::empty());
    assert(streamed_calls(usage) =~= Seq::<AskedView>::empty());
    assert(streamed_words(usage) =~= Seq::<PartView>::empty());
    assert(streamed_words(more) =~= streamed_words(said));
    assert(streamed_text(more) =~= streamed_text(said));
    assert(streamed_calls(more) =~= streamed_calls(said));
    assert(streamed_reasoning(more) == streamed_reasoning(said));
}

/// A turn's last event says it finished, and no event before it does.
pub proof fn finished_comes_last_and_once(
    message: MessageId,
    minted: nat,
    max_tokens: Option<usize>,
    stream: Seq<TokenEventView>,
    finish: FinishView,
)
    ensures
        ({
            let (after, events) = whole_turn(
                AssemblyView::begun(message, minted, max_tokens),
                stream,
                finish,
            );
            &&& events.len() > 0
            &&& events.last() == EventView::Finished(after.named_reason())
            &&& forall|i: int| 0 <= i < events.len() - 1 ==> !(#[trigger] events[i] is Finished)
        }),
{
    let start = AssemblyView::begun(message, minted, max_tokens);
    begun_tells(message, minted, max_tokens);
    streaming_tells(start, stream);
    let (before, events) = after_stream(start, stream);
    let (after, more) = before.finished(finish);
    finishing(before, finish, events);
    let all = events + more;
    assert(all.last() == more.last());
    assert forall|i: int| 0 <= i < all.len() - 1 implies !(#[trigger] all[i] is Finished) by {
        if i < events.len() {
            assert(all[i] == events[i]);
        } else {
            assert(all[i] == more[i - events.len()]);
        }
    }
}

// ── Calls within the text ───────────────────────────────────────────────────

/// A stream without its calls.
pub open spec fn without_calls(stream: Seq<TokenEventView>) -> Seq<TokenEventView> {
    stream.filter(|event: TokenEventView| !(event is ToolCall))
}

/// Whether two assemblies say the same and stand at the same point of the
/// text.
spec fn same_words(a: AssemblyView, b: AssemblyView) -> bool {
    &&& a.split == b.split
    &&& a.open == b.open
    &&& a.held == b.held
    &&& a.scaffolded == b.scaffolded
    &&& text_in(a.parts) == text_in(b.parts)
    &&& reasoning_in(a.parts) == reasoning_in(b.parts)
}

proof fn saying_keeps_words(a: AssemblyView, b: AssemblyView, channel: Channel, text: Seq<char>)
    requires
        same_words(a, b),
    ensures
        same_words(a.said(channel, text).0, b.said(channel, text).0),
        a.said(channel, text).1 == b.said(channel, text).1,
{
    assert(a.own(channel, text) == b.own(channel, text));
    let body = a.said(channel, text).1;
    if body.len() > 0 {
        let fresh = a.open != Some(channel);
        growing(a.parts, fresh, channel, body);
        growing(b.parts, fresh, channel, body);
    }
}

proof fn emitting_keeps_words(
    a: AssemblyView,
    b: AssemblyView,
    list: Seq<(Channel, Seq<char>)>,
)
    requires
        same_words(a, b),
    ensures
        same_words(a.emitted_all(list).0, b.emitted_all(list).0),
        a.emitted_all(list).1 == b.emitted_all(list).1,
    decreases list.len(),
{
    if list.len() > 0 {
        emitting_keeps_words(a, b, list.drop_last());
        let x = a.emitted_all(list.drop_last()).0;
        let y = b.emitted_all(list.drop_last()).0;
        saying_keeps_words(x, y, list.last().0, list.last().1);
    }
}

/// Calls made in a text leave it as it is.
proof fn threading_keeps_words(
    a: AssemblyView,
    b: AssemblyView,
    channel: Channel,
    text: Seq<char>,
    calls: Seq<(usize, AskedView)>,
)
    requires
        same_words(a, b),
        tidy(b),
    ensures
        same_words(a.threaded(channel, text, calls).0, b.said(channel, text).0),
        a.threaded(channel, text, calls).1 == b.said(channel, text).1,
    decreases calls.len(),
{
    if calls.len() == 0 {
        saying_keeps_words(a, b, channel, text);
    } else {
        let (k, call) = calls.last();
        let at = if k <= text.len() {
            k as int
        } else {
            text.len() as int
        };
        threading_keeps_words(a, b, channel, text.take(at), calls.drop_last());
        let x = a.threaded(channel, text.take(at), calls.drop_last()).0;
        let y = b.said(channel, text.take(at)).0;
        let mid = AssemblyView { parts: x.parts.push(PartView::Call(call)), ..x };
        assert(mid.parts.drop_last() =~= x.parts);
        saying_keeps_words(mid, y, channel, text.skip(at));
        said_twice(b, channel, text.take(at), text.skip(at));
        assert(text.take(at) + text.skip(at) =~= text);
    }
}

proof fn placing_keeps_words(state: AssemblyView)
    ensures
        same_words(state.placed(), state),
{
    placing_says(state, Channel::Text);
    assert(text_in(state.parts) + Seq::<char>::empty() =~= text_in(state.parts));
}

proof fn spreading_keeps_words(
    a: AssemblyView,
    b: AssemblyView,
    list: Seq<(Channel, Seq<char>)>,
)
    requires
        same_words(a, b),
        tidy(b),
        b.late.len() == 0,
    ensures
        same_words(a.spread(list).0, b.spread(list).0),
        a.spread(list).1 == b.spread(list).1,
{
    if a.late.len() == 0 {
        emitting_keeps_words(a, b, list);
    } else if list.len() == 0 {
        placing_keeps_words(a);
    } else {
        let (channel, text) = list[0];
        let free = AssemblyView { late: Seq::empty(), ..a };
        threading_keeps_words(free, b, channel, text, a.late);
        let first = free.threaded(channel, text, a.late).0;
        let plain = b.said(channel, text).0;
        emitting_keeps_words(first, plain, list.skip(1));
        emitted_first(b, list);
    }
}

/// Stretches come one after the other, the first one first.
proof fn emitted_first(state: AssemblyView, list: Seq<(Channel, Seq<char>)>)
    requires
        list.len() > 0,
    ensures
        ({
            let (first, said) = state.emitted(list[0].0, list[0].1);
            let (after, more) = first.emitted_all(list.skip(1));
            state.emitted_all(list) == (after, said + more)
        }),
    decreases list.len(),
{
    let (first, said) = state.emitted(list[0].0, list[0].1);
    let short = list.drop_last();
    if short.len() == 0 {
        assert(list.skip(1) =~= Seq::empty());
        assert(state.emitted_all(short) == (state, Seq::<EventView>::empty()));
        assert(Seq::<EventView>::empty() + said =~= said);
        assert(said + Seq::<EventView>::empty() =~= said);
    } else {
        emitted_first(state, short);
        assert(short.skip(1) =~= list.skip(1).drop_last());
        let (mid, so_far) = first.emitted_all(short.skip(1));
        let more = mid.emitted(list.last().0, list.last().1).1;
        assert(said + so_far + more =~= said + (so_far + more));
    }
}

proof fn pushing_keeps_words(a: AssemblyView, b: AssemblyView, event: TokenEventView)
    requires
        same_words(a, b),
        tidy(b),
        b.late.len() == 0,
    ensures
        event is ToolCall ==> {
            &&& same_words(a.pushed(event).0, b)
            &&& fragments(a.pushed(event).1) == Seq::<EventView>::empty()
        },
        !(event is ToolCall) ==> {
            &&& same_words(a.pushed(event).0, b.pushed(event).0)
            &&& a.pushed(event).1 == b.pushed(event).1
            &&& b.pushed(event).0.late.len() == 0
        },
{
    match event {
        TokenEventView::Token(text) => {
            let (split, list) = a.split.fed(text);
            let x = AssemblyView { split, ..a };
            let y = AssemblyView { split, ..b };
            fate_shows(a.split, text);
            emitting_keeps_the_rest(y.placed(), list);
            spreading_keeps_the_rest(y, list);
            match a.split.fate(text) {
                Fate::Held if a.late.len() > 0 => {
                    assert(y.spread(list) == (y, Seq::<EventView>::empty()));
                },
                Fate::Marker => {
                    placing_keeps_words(x);
                    placing_keeps_words(y);
                    emitting_keeps_words(x.placed(), y.placed(), list);
                },
                _ => {
                    spreading_keeps_words(x, y, list);
                },
            }
        },
        TokenEventView::ToolCall(call) => {
            let asked = PartView::Call(a.asked(call));
            assert(a.parts.push(asked).drop_last() =~= a.parts);
            let events = a.pushed(event).1;
            reveal_with_fuel(fragments, 4);
            assert(events.drop_last().drop_last().drop_last().len() == 0);
        },
        _ => {},
    }
}

proof fn streaming_keeps_words(start: AssemblyView, stream: Seq<TokenEventView>)
    requires
        tidy(start),
        start.late.len() == 0,
    ensures
        same_words(after_stream(start, stream).0, after_stream(start, without_calls(stream)).0),
        fragments(after_stream(start, stream).1) == fragments(
            after_stream(start, without_calls(stream)).1,
        ),
        tidy(after_stream(start, without_calls(stream)).0),
        after_stream(start, without_calls(stream)).0.late.len() == 0,
    decreases stream.len(),
{
    reveal(Seq::filter);
    if stream.len() > 0 {
        let short = stream.drop_last();
        streaming_keeps_words(start, short);
        let (a, x) = after_stream(start, short);
        let (b, y) = after_stream(start, without_calls(short));
        pushing_keeps_words(a, b, stream.last());
        pushing_stays_tidy(b, stream.last());
        events_join(x, a.pushed(stream.last()).1);
        events_join(y, b.pushed(stream.last()).1);
        assert(fragments(x) + Seq::<EventView>::empty() =~= fragments(x));
        if !(stream.last() is ToolCall) {
            let plain = without_calls(short).push(stream.last());
            assert(without_calls(stream) == plain);
            assert(plain.drop_last() =~= without_calls(short));
        } else {
            assert(without_calls(stream) == without_calls(short));
        }
    }
}

/// The closing events are fragments only as far as text was held back.
proof fn ending_is_no_fragment(state: AssemblyView, finish: FinishView)
    ensures
        fragments(state.finished(finish).1) == fragments(state.flushed().1),
{
    let said = state.flushed().1;
    let usage = match state.stats {
        Some(stats) => seq![EventView::Usage(crate::output::usage_of(Some(stats)))],
        None => Seq::empty(),
    };
    let end = EventView::Finished(state.reason_for(finish));
    events_join(said + usage, seq![end]);
    events_join(said, usage);
    one_event(end);
    if state.stats is Some {
        one_event(usage[0]);
        assert(usage =~= seq![usage[0]]);
    }
    assert(fragments(said) + Seq::<EventView>::empty() + Seq::<EventView>::empty()
        =~= fragments(said));
    assert(fragments(usage) =~= Seq::<EventView>::empty());
}

/// A call does not disturb the text around it: what is said, what is thought
/// and the fragments that report them are what they would be had no call been
/// made. A marker that a call falls into is still a marker.
pub proof fn calls_leave_the_text_alone(
    message: MessageId,
    minted: nat,
    max_tokens: Option<usize>,
    stream: Seq<TokenEventView>,
    finish: FinishView,
)
    ensures
        ({
            let start = AssemblyView::begun(message, minted, max_tokens);
            let parts = whole_turn(start, stream, finish).0.message_parts();
            let plain = whole_turn(start, without_calls(stream), finish).0.message_parts();
            &&& text_in(parts) == text_in(plain)
            &&& reasoning_in(parts) == reasoning_in(plain)
            &&& fragments(whole_turn(start, stream, finish).1) == fragments(
                whole_turn(start, without_calls(stream), finish).1,
            )
        }),
{
    let start = AssemblyView::begun(message, minted, max_tokens);
    streaming_keeps_words(start, stream);
    let (a, x) = after_stream(start, stream);
    let (b, y) = after_stream(start, without_calls(stream));
    let empty = SplitView { pending: Seq::empty(), ..a.split };
    let s = AssemblyView { split: empty, ..a };
    let t = AssemblyView { split: empty, ..b };
    spreading_keeps_words(s, t, a.split.left());
    spreading_keeps_the_rest(s, a.split.left());
    spreading_keeps_the_rest(t, a.split.left());
    let s1 = a.finished(finish).0;
    let t1 = b.finished(finish).0;
    assert(s1.placed().parts =~= s1.parts);
    assert(t1.placed().parts =~= t1.parts);
    ending_is_no_fragment(a, finish);
    ending_is_no_fragment(b, finish);
    events_join(x, a.finished(finish).1);
    events_join(y, b.finished(finish).1);
    let nothing = Seq::<PartView>::empty();
    let blank = seq![PartView::Text(Seq::empty())];
    assert(blank.drop_last() =~= nothing);
    assert(text_in(blank) =~= text_in(nothing));
    assert(reasoning_in(blank) == reasoning_in(nothing));
}

// ── Ids ─────────────────────────────────────────────────────────────────────

/// A number is written in digits, one at least.
proof fn decimal_digits(n: nat)
    ensures
        decimal(n).len() > 0,
        forall|i: int| 0 <= i < decimal(n).len() ==> '0' <= #[trigger] decimal(n)[i] <= '9',
    decreases n,
{
    if n >= 10 {
        decimal_digits(n / 10);
    }
}

proof fn digits_differ(a: nat, b: nat)
    requires
        a < 10,
        b < 10,
        digit(a) == digit(b),
    ensures
        a == b,
{
}

/// A number is written one way only.
proof fn decimal_once(a: nat, b: nat)
    requires
        decimal(a) == decimal(b),
    ensures
        a == b,
    decreases a + b,
{
    let x = decimal(a);
    let y = decimal(b);
    decimal_digits(a);
    decimal_digits(b);
    assert(x.last() == y.last());
    if a >= 10 {
        decimal_digits(a / 10);
        assert(x == decimal(a / 10).push(digit(a % 10)));
        assert(x.drop_last() =~= decimal(a / 10));
        assert(x.last() == digit(a % 10));
    } else {
        assert(x =~= seq![digit(a)]);
    }
    if b >= 10 {
        decimal_digits(b / 10);
        assert(y == decimal(b / 10).push(digit(b % 10)));
        assert(y.drop_last() =~= decimal(b / 10));
        assert(y.last() == digit(b % 10));
    } else {
        assert(y =~= seq![digit(b)]);
    }
    if a >= 10 && b >= 10 {
        digits_differ(a % 10, b % 10);
        decimal_once(a / 10, b / 10);
    } else if a < 10 && b < 10 {
        digits_differ(a, b);
    } else if a >= 10 {
        assert(x.len() > 1);
    } else {
        assert(y.len() > 1);
    }
}

/// No two minted ids are the same: neither within a message, nor between two
/// messages.
pub proof fn minted_ids_are_distinct(m1: u64, n1: nat, m2: u64, n2: nat)
    requires
        minted(m1, n1) == minted(m2, n2),
    ensures
        m1 == m2,
        n1 == n2,
{
    reveal_strlit("call_");
    reveal_strlit("_");
    let x = minted(m1, n1);
    let y = minted(m2, n2);
    let a = decimal(m1 as nat);
    let b = decimal(m2 as nat);
    let k = a.len() as int;
    let l = b.len() as int;
    decimal_digits(m1 as nat);
    decimal_digits(m2 as nat);
    assert(x[5 + k] == '_');
    assert(y[5 + l] == '_');
    if a.len() < b.len() {
        assert(y[5 + k] == b[a.len() as int]);
    } else if b.len() < a.len() {
        assert(x[5 + l] == a[b.len() as int]);
    }
    assert(a.len() == b.len());
    assert(a =~= x.subrange(5, 5 + k));
    assert(b =~= y.subrange(5, 5 + l));
    decimal_once(m1 as nat, m2 as nat);
    assert(decimal(n1) =~= x.skip(6 + k));
    assert(decimal(n2) =~= y.skip(6 + l));
    decimal_once(n1, n2);
}

// ── How a reply is cut into fragments ───────────────────────────────────────

/// Whether only reasoning holds white space back.
spec fn tidy(state: AssemblyView) -> bool {
    state.open != Some(Channel::Reasoning) ==> state.held.len() == 0
}

/// Text begins with what is not white space, once its lead is gone.
proof fn lead_gone(s: Seq<char>)
    ensures
        without_lead(s).len() > 0 ==> !is_space(without_lead(s)[0]),
        without_lead(s).len() <= s.len(),
    decreases s.len(),
{
    if s.len() > 0 && is_space(s[0]) {
        lead_gone(s.drop_first());
    }
}

/// A text that begins with more than white space has a body.
proof fn has_body(s: Seq<char>)
    requires
        s.len() > 0,
        !is_space(s[0]),
    ensures
        0 < body_len(s) <= s.len(),
    decreases s.len(),
{
    if is_space(s.last()) {
        assert(s.drop_last()[0] == s[0]);
        has_body(s.drop_last());
    }
}

proof fn body_fits(s: Seq<char>)
    ensures
        body_len(s) <= s.len(),
        forall|i: int| body_len(s) <= i < s.len() ==> is_space(#[trigger] s[i]),
    decreases s.len(),
{
    if s.len() > 0 && is_space(s.last()) {
        body_fits(s.drop_last());
        assert forall|i: int| body_len(s) <= i < s.len() implies is_space(#[trigger] s[i]) by {
            if i < s.len() - 1 {
                assert(s[i] == s.drop_last()[i]);
            }
        }
    }
}

/// White space alone has no body.
proof fn no_body(s: Seq<char>)
    requires
        forall|i: int| 0 <= i < s.len() ==> is_space(#[trigger] s[i]),
    ensures
        body_len(s) == 0,
    decreases s.len(),
{
    if s.len() > 0 {
        assert(is_space(s[s.len() - 1]));
        assert forall|i: int| 0 <= i < s.drop_last().len() implies is_space(
            #[trigger] s.drop_last()[i],
        ) by {
            assert(s.drop_last()[i] == s[i]);
        }
        no_body(s.drop_last());
    }
}

/// The lead of a longer text.
proof fn lead_of_more(u: Seq<char>, c: char)
    ensures
        without_lead(u.push(c)) == (if without_lead(u).len() == 0 {
            without_lead(seq![c])
        } else {
            without_lead(u).push(c)
        }),
        without_breaks(u.push(c)) == (if without_breaks(u).len() == 0 {
            without_breaks(seq![c])
        } else {
            without_breaks(u).push(c)
        }),
    decreases u.len(),
{
    if u.len() == 0 {
        assert(u.push(c) =~= seq![c]);
    } else {
        assert(u.push(c).drop_first() =~= u.drop_first().push(c));
        assert(u.push(c)[0] == u[0]);
        if is_space(u[0]) || u[0] == '\n' {
            lead_of_more(u.drop_first(), c);
        }
    }
}

/// Two fragments added in turn are one added whole.
proof fn grown_twice(
    parts: Seq<PartView>,
    fresh: bool,
    channel: Channel,
    a: Seq<char>,
    b: Seq<char>,
)
    ensures
        grown(grown(parts, fresh, channel, a), false, channel, b) == grown(
            parts,
            fresh,
            channel,
            a + b,
        ),
{
    let once = grown(parts, fresh, channel, a);
    let twice = grown(once, false, channel, b);
    let whole = grown(parts, fresh, channel, a + b);
    if fresh || parts.len() == 0 {
        assert(once.last() == part_in(channel, a));
        assert(twice =~= whole);
    } else {
        match (channel, parts.last()) {
            (Channel::Text, PartView::Text(text)) => {
                assert(text + a + b =~= text + (a + b));
                assert(twice =~= whole);
            },
            (Channel::Reasoning, PartView::Reasoning(text)) => {
                assert(text + a + b =~= text + (a + b));
                assert(twice =~= whole);
            },
            _ => {
                assert(once.last() == part_in(channel, a));
                assert(twice =~= whole);
            },
        }
    }
}

/// The end of a reasoning run, with one more character.
proof fn body_of_more(chunk: Seq<char>, c: char)
    ensures
        ({
            let k = body_len(chunk) as int;
            let rest = chunk.skip(k).push(c);
            if is_space(c) {
                body_len(chunk.push(c)) == k && body_len(rest) == 0
            } else {
                body_len(chunk.push(c)) == chunk.len() + 1 && body_len(rest) == rest.len()
            }
        }),
{
    let k = body_len(chunk) as int;
    body_fits(chunk);
    let rest = chunk.skip(k).push(c);
    assert(chunk.push(c).drop_last() =~= chunk);
    if is_space(c) {
        assert forall|i: int| 0 <= i < rest.len() implies is_space(#[trigger] rest[i]) by {
            if i < rest.len() - 1 {
                assert(rest[i] == chunk[k + i]);
            }
        }
        no_body(rest);
    }
}

/// A stretch with one more character is the stretch, and then the character.
#[verifier::spinoff_prover]
#[verifier::rlimit(60)]
proof fn one_more(state: AssemblyView, channel: Channel, u: Seq<char>, c: char)
    requires
        tidy(state),
        u.len() > 0,
    ensures
        state.said(channel, u.push(c)).0 == state.said(channel, u).0.said(channel, seq![c]).0,
        state.said(channel, u.push(c)).1 == state.said(channel, u).1 + state.said(
            channel,
            u,
        ).0.said(channel, seq![c]).1,
        tidy(state.said(channel, u).0),
{
    let one = seq![c];
    let t = u.push(c);
    let mid = state.said(channel, u).0;
    let two = mid.said(channel, one).0;
    let whole = state.said(channel, t).0;
    let head = state.said(channel, u).1;
    let rest_said = mid.said(channel, one).1;
    let all_said = state.said(channel, t).1;
    let fresh = state.open != Some(channel);
    let held = if fresh {
        Seq::<char>::empty()
    } else {
        state.held
    };
    let own = state.own(channel, u);
    let chunk = held + own;
    lead_of_more(u, c);
    lead_gone(u);
    lead_gone(one);
    body_fits(chunk);
    if own.len() == 0 {
        assert(fresh);
        assert(mid.open is None);
        assert(state.own(channel, t) =~= mid.own(channel, one));
        assert(two =~= whole);
        assert(all_said =~= head + rest_said);
    } else {
        assert(state.own(channel, t) =~= own.push(c));
        assert(held + own.push(c) =~= chunk.push(c));
        if channel == Channel::Text {
            assert(held.len() == 0);
            assert(chunk =~= own);
            assert(mid.held =~= Seq::<char>::empty());
            assert(mid.own(channel, one) == one);
            assert(mid.held + one =~= one);
            grown_twice(state.parts, fresh, channel, chunk, one);
            assert(chunk + one =~= chunk.push(c));
            assert(chunk.push(c).skip((chunk.len() + 1) as int) =~= Seq::<char>::empty());
            assert(one.skip(1) =~= Seq::<char>::empty());
            assert(two =~= whole);
            assert(all_said =~= head + rest_said);
        } else {
            let k = body_len(chunk);
            let body = chunk.take(k as int);
            let rest = chunk.skip(k as int);
            body_of_more(chunk, c);
            if fresh {
                assert(chunk =~= own);
                has_body(chunk);
            }
            assert(mid.held =~= rest);
            assert(mid.open == Some(channel));
            assert(mid.own(channel, one) == one);
            assert(mid.held + one =~= rest.push(c));
            assert(chunk.push(c).take(k as int) =~= body);
            if is_space(c) {
                assert(rest.push(c).take(0).len() == 0);
                assert(chunk.push(c).skip(k as int) =~= rest.push(c));
                assert(two =~= whole);
                assert(all_said =~= head + rest_said);
            } else {
                assert(rest.push(c).take((rest.len() + 1) as int) =~= rest.push(c));
                assert(chunk.push(c).take((chunk.len() + 1) as int) =~= chunk.push(c));
                assert(chunk.push(c).skip((chunk.len() + 1) as int) =~= Seq::<char>::empty());
                assert(rest.push(c).skip((rest.len() + 1) as int) =~= Seq::<char>::empty());
                if k > 0 {
                    grown_twice(state.parts, fresh, channel, body, rest.push(c));
                    assert(body + rest.push(c) =~= chunk.push(c));
                } else {
                    assert(rest =~= chunk);
                    assert(mid.parts == state.parts);
                }
                assert(two =~= whole);
                assert(all_said =~= head + rest_said);
            }
        }
    }
}

/// A text said whole is its beginning and then its end.
#[verifier::spinoff_prover]
#[verifier::rlimit(60)]
proof fn said_twice(state: AssemblyView, channel: Channel, u: Seq<char>, v: Seq<char>)
    requires
        tidy(state),
    ensures
        state.said(channel, u + v).0 == state.said(channel, u).0.said(channel, v).0,
        state.said(channel, u + v).1 == state.said(channel, u).1 + state.said(channel, u).0.said(
            channel,
            v,
        ).1,
        tidy(state.said(channel, u + v).0),
    decreases v.len(),
{
    let mid = state.said(channel, u);
    if u.len() > 0 {
        one_more(state, channel, u, ' ');
    }
    if v.len() == 0 {
        assert(u + v =~= u);
        assert(mid.1 + mid.0.said(channel, v).1 =~= mid.1);
    } else if u.len() == 0 {
        assert(u + v =~= v);
        assert(mid.1 + mid.0.said(channel, v).1 =~= mid.0.said(channel, v).1);
        one_more(state, channel, v, ' ');
    } else {
        let short = v.drop_last();
        let c = v.last();
        said_twice(state, channel, u, short);
        assert((u + short).push(c) =~= u + v);
        one_more(state, channel, u + short, c);
        one_more(state, channel, u + v, ' ');
        let x = mid.0.said(channel, short);
        if short.len() == 0 {
            assert(v =~= seq![c]);
            assert(u + short =~= u);
            assert(x.1 =~= Seq::<char>::empty());
        } else {
            assert(short.push(c) =~= v);
            one_more(mid.0, channel, short, c);
            let y = x.0.said(channel, seq![c]);
            assert(mid.1 + x.1 + y.1 =~= mid.1 + (x.1 + y.1));
        }
    }
}

/// An assembly after text, character by character.
spec fn spelled(state: AssemblyView, chars: Seq<(Channel, char)>) -> AssemblyView
    decreases chars.len(),
{
    if chars.len() == 0 {
        state
    } else {
        let (channel, c) = chars.last();
        spelled(state, chars.drop_last()).emitted(channel, seq![c]).0
    }
}

proof fn stretch_is_spelled(state: AssemblyView, channel: Channel, text: Seq<char>)
    requires
        tidy(state),
        text.len() > 0,
    ensures
        state.emitted(channel, text).0 == spelled(state, marked(channel, text)),
        tidy(state.emitted(channel, text).0),
    decreases text.len(),
{
    let short = text.drop_last();
    let chars = marked(channel, text);
    assert(chars.drop_last() =~= marked(channel, short));
    assert(chars.last() == (channel, text.last()));
    if short.len() == 0 {
        assert(text =~= seq![text.last()]);
        assert(chars.drop_last() =~= Seq::empty());
        assert(spelled(state, chars.drop_last()) == state);
        one_more(state, channel, text, ' ');
    } else {
        stretch_is_spelled(state, channel, short);
        assert(short.push(text.last()) =~= text);
        one_more(state, channel, short, text.last());
        one_more(state, channel, text, ' ');
    }
}

proof fn spelled_joins(state: AssemblyView, a: Seq<(Channel, char)>, b: Seq<(Channel, char)>)
    ensures
        spelled(state, a + b) == spelled(spelled(state, a), b),
    decreases b.len(),
{
    if b.len() == 0 {
        assert(a + b =~= a);
    } else {
        assert((a + b).drop_last() =~= a + b.drop_last());
        spelled_joins(state, a, b.drop_last());
    }
}

/// Whether no stretch is empty.
spec fn all_filled(list: Seq<(Channel, Seq<char>)>) -> bool {
    forall|i: int| 0 <= i < list.len() ==> (#[trigger] list[i]).1.len() > 0
}

proof fn fed_is_filled(split: SplitView, text: Seq<char>)
    ensures
        all_filled(split.fed(text).1),
    decreases text.len(),
{
    if text.len() > 0 {
        fed_is_filled(split, text.drop_last());
        let (before, list) = split.fed(text.drop_last());
        let gone = before.step(text.last()).1;
        let more = put(list, before.channel(), gone);
        assert forall|i: int| 0 <= i < more.len() implies (#[trigger] more[i]).1.len() > 0 by {
            if i < list.len() {
                assert(list[i].1.len() > 0);
            }
        }
    }
}

proof fn stretches_are_spelled(state: AssemblyView, list: Seq<(Channel, Seq<char>)>)
    requires
        tidy(state),
        all_filled(list),
    ensures
        state.emitted_all(list).0 == spelled(state, flat(list)),
        tidy(state.emitted_all(list).0),
    decreases list.len(),
{
    if list.len() > 0 {
        let short = list.drop_last();
        assert forall|i: int| 0 <= i < short.len() implies (#[trigger] short[i]).1.len() > 0 by {
            assert(short[i] == list[i]);
        }
        stretches_are_spelled(state, short);
        let mid = state.emitted_all(short).0;
        stretch_is_spelled(mid, list.last().0, list.last().1);
        spelled_joins(state, flat(short), marked(list.last().0, list.last().1));
    }
}

proof fn spelling_ignores_the_scan(
    state: AssemblyView,
    split: SplitView,
    chars: Seq<(Channel, char)>,
)
    ensures
        spelled(AssemblyView { split, ..state }, chars) == (AssemblyView {
            split,
            ..spelled(state, chars)
        }),
    decreases chars.len(),
{
    if chars.len() > 0 {
        spelling_ignores_the_scan(state, split, chars.drop_last());
        let before = spelled(state, chars.drop_last());
        let (channel, c) = chars.last();
        assert((AssemblyView { split, ..before }).own(channel, seq![c]) == before.own(
            channel,
            seq![c],
        ));
    }
}

/// Text streamed, as characters told apart.
proof fn token_is_spelled(state: AssemblyView, text: Seq<char>)
    requires
        tidy(state),
        state.late.len() == 0,
    ensures
        state.pushed(TokenEventView::Token(text)).0 == (AssemblyView {
            split: state.split.fed(text).0,
            ..spelled(state, flat(state.split.fed(text).1))
        }),
        tidy(state.pushed(TokenEventView::Token(text)).0),
{
    let (split, list) = state.split.fed(text);
    let fed = AssemblyView { split, ..state };
    fed_is_filled(state.split, text);
    stretches_are_spelled(fed, list);
    spelling_ignores_the_scan(state, split, flat(list));
    assert(fed.placed() =~= fed);
    emitting_keeps_the_rest(fed, list);
}

proof fn threading_stays_tidy(
    state: AssemblyView,
    channel: Channel,
    text: Seq<char>,
    calls: Seq<(usize, AskedView)>,
)
    requires
        tidy(state),
    ensures
        tidy(state.threaded(channel, text, calls).0),
    decreases calls.len(),
{
    if calls.len() == 0 {
        said_twice(state, channel, Seq::empty(), text);
        assert(Seq::<char>::empty() + text =~= text);
    } else {
        let (k, call) = calls.last();
        let at = if k <= text.len() {
            k as int
        } else {
            text.len() as int
        };
        threading_stays_tidy(state, channel, text.take(at), calls.drop_last());
        let before = state.threaded(channel, text.take(at), calls.drop_last()).0;
        let mid = AssemblyView { parts: before.parts.push(PartView::Call(call)), ..before };
        said_twice(mid, channel, Seq::empty(), text.skip(at));
        assert(Seq::<char>::empty() + text.skip(at) =~= text.skip(at));
    }
}

proof fn emitting_stays_tidy(state: AssemblyView, list: Seq<(Channel, Seq<char>)>)
    requires
        tidy(state),
    ensures
        tidy(state.emitted_all(list).0),
    decreases list.len(),
{
    if list.len() > 0 {
        emitting_stays_tidy(state, list.drop_last());
        let before = state.emitted_all(list.drop_last()).0;
        said_twice(before, list.last().0, Seq::empty(), list.last().1);
        assert(Seq::<char>::empty() + list.last().1 =~= list.last().1);
    }
}

proof fn pushing_stays_tidy(state: AssemblyView, event: TokenEventView)
    requires
        tidy(state),
    ensures
        tidy(state.pushed(event).0),
{
    if let TokenEventView::Token(text) = event {
        let (split, list) = state.split.fed(text);
        let fed = AssemblyView { split, ..state };
        emitting_stays_tidy(fed.placed(), list);
        emitting_stays_tidy(fed, list);
        if list.len() > 0 {
            let free = AssemblyView { late: Seq::empty(), ..fed };
            threading_stays_tidy(free, list[0].0, list[0].1, state.late);
            let first = free.threaded(list[0].0, list[0].1, state.late).0;
            emitting_stays_tidy(first, list.skip(1));
        }
    }
}

/// What holds of an assembly at every point of a stream: only reasoning holds
/// white space back, markers are bracketed, and a call that waits was made
/// within the text that is held back.
spec fn steady(state: AssemblyView) -> bool {
    &&& tidy(state)
    &&& sharp(state.split)
    &&& forall|i: int|
        0 <= i < state.late.len() ==> (#[trigger] state.late[i]).0 <= state.split.pending.len()
}

proof fn begun_is_steady(message: MessageId, minted: nat, max_tokens: Option<usize>)
    ensures
        steady(AssemblyView::begun(message, minted, max_tokens)),
{
    reveal_strlit("<|channel>thought");
    reveal_strlit("<think>");
    reveal_strlit("<channel|>");
    reveal_strlit("</think>");
    assert(bracketed("<|channel>thought"@));
    assert(bracketed("<think>"@));
    assert(bracketed("<channel|>"@));
    assert(bracketed("</think>"@));
}

proof fn pushing_stays_steady(state: AssemblyView, event: TokenEventView)
    requires
        steady(state),
    ensures
        steady(state.pushed(event).0),
{
    pushing_stays_tidy(state, event);
    let after = state.pushed(event).0;
    match event {
        TokenEventView::Token(text) => {
            let (split, list) = state.split.fed(text);
            let fed = AssemblyView { split, ..state };
            held_text_comes_whole(state.split, text);
            emitting_keeps_the_rest(fed.placed(), list);
            spreading_keeps_the_rest(fed, list);
            assert(after.split == split);
        },
        TokenEventView::ToolCall(call) => {
            let n = state.split.pending.len();
            assert forall|i: int| 0 <= i < after.late.len() implies (#[trigger] after.late[i]).0
                <= n by {
                if i < state.late.len() {
                    assert(after.late[i] == state.late[i]);
                }
            }
        },
        _ => {},
    }
}

proof fn streams_stay_steady(
    message: MessageId,
    minted: nat,
    max_tokens: Option<usize>,
    stream: Seq<TokenEventView>,
)
    ensures
        steady(after_stream(AssemblyView::begun(message, minted, max_tokens), stream).0),
    decreases stream.len(),
{
    let start = AssemblyView::begun(message, minted, max_tokens);
    if stream.len() == 0 {
        begun_is_steady(message, minted, max_tokens);
    } else {
        streams_stay_steady(message, minted, max_tokens, stream.drop_last());
        pushing_stays_steady(after_stream(start, stream.drop_last()).0, stream.last());
    }
}

/// Text after the last call made in a stretch is said after it.
proof fn threaded_on(
    state: AssemblyView,
    channel: Channel,
    u: Seq<char>,
    v: Seq<char>,
    calls: Seq<(usize, AskedView)>,
)
    requires
        tidy(state),
        forall|i: int| 0 <= i < calls.len() ==> (#[trigger] calls[i]).0 <= u.len(),
    ensures
        state.threaded(channel, u + v, calls).0 == state.threaded(channel, u, calls).0.said(
            channel,
            v,
        ).0,
{
    if calls.len() == 0 {
        said_twice(state, channel, u, v);
    } else {
        let (k, call) = calls.last();
        assert(calls[calls.len() - 1].0 <= u.len());
        assert((u + v).take(k as int) =~= u.take(k as int));
        assert((u + v).skip(k as int) =~= u.skip(k as int) + v);
        threading_stays_tidy(state, channel, u.take(k as int), calls.drop_last());
        let before = state.threaded(channel, u.take(k as int), calls.drop_last()).0;
        let mid = AssemblyView { parts: before.parts.push(PartView::Call(call)), ..before };
        said_twice(mid, channel, u.skip(k as int), v);
    }
}

proof fn threading_ignores_the_scan(
    state: AssemblyView,
    split: SplitView,
    channel: Channel,
    text: Seq<char>,
    calls: Seq<(usize, AskedView)>,
)
    ensures
        (AssemblyView { split, ..state }).threaded(channel, text, calls).0 == (AssemblyView {
            split,
            ..state.threaded(channel, text, calls).0
        }),
    decreases calls.len(),
{
    let other = AssemblyView { split, ..state };
    if calls.len() == 0 {
        assert(other.own(channel, text) == state.own(channel, text));
    } else {
        let (k, call) = calls.last();
        let at = if k <= text.len() {
            k as int
        } else {
            text.len() as int
        };
        threading_ignores_the_scan(state, split, channel, text.take(at), calls.drop_last());
        let before = state.threaded(channel, text.take(at), calls.drop_last()).0;
        let mid = AssemblyView { parts: before.parts.push(PartView::Call(call)), ..before };
        assert((AssemblyView { split, ..mid }).own(channel, text.skip(at)) == mid.own(
            channel,
            text.skip(at),
        ));
    }
}

proof fn flat_first(list: Seq<(Channel, Seq<char>)>)
    requires
        list.len() > 0,
    ensures
        flat(list) == marked(list[0].0, list[0].1) + flat(list.skip(1)),
    decreases list.len(),
{
    let short = list.drop_last();
    let last = marked(list.last().0, list.last().1);
    if short.len() == 0 {
        assert(flat(short) + last =~= last);
        assert(list.skip(1) =~= Seq::empty());
        assert(last + flat(list.skip(1)) =~= last);
    } else {
        flat_first(short);
        assert(short.skip(1) =~= list.skip(1).drop_last());
        let first = marked(list[0].0, list[0].1);
        assert(first + flat(short.skip(1)) + last =~= first + (flat(short.skip(1)) + last));
    }
}

/// Two fragments in a row are the one they make up, where no call waits.
proof fn cut_plain(state: AssemblyView, a: Seq<char>, b: Seq<char>)
    requires
        tidy(state),
        state.late.len() == 0,
    ensures
        state.pushed(TokenEventView::Token(a)).0.pushed(TokenEventView::Token(b)).0
            == state.pushed(TokenEventView::Token(a + b)).0,
{
    token_is_spelled(state, a);
    let mid = state.pushed(TokenEventView::Token(a)).0;
    spelling_calls_nobody(state, flat(state.split.fed(a).1));
    token_is_spelled(mid, b);
    token_is_spelled(state, a + b);
    fragments_do_not_matter(state.split, a, b);
    let (first, x) = state.split.fed(a);
    let (second, y) = first.fed(b);
    spelled_joins(state, flat(x), flat(y));
    spelling_ignores_the_scan(spelled(state, flat(x)), first, flat(y));
}

proof fn spelling_calls_nobody(state: AssemblyView, chars: Seq<(Channel, char)>)
    ensures
        spelled(state, chars).late == state.late,
    decreases chars.len(),
{
    if chars.len() > 0 {
        spelling_calls_nobody(state, chars.drop_last());
    }
}

/// What a stretch that calls were made in leaves, with all that follows it,
/// character by character.
proof fn spread_is_spelled(
    state: AssemblyView,
    split: SplitView,
    list: Seq<(Channel, Seq<char>)>,
    n: int,
)
    requires
        tidy(state),
        state.late.len() > 0,
        list.len() > 0,
        all_filled(list),
        0 <= n <= list[0].1.len(),
        forall|i: int| 0 <= i < state.late.len() ==> (#[trigger] state.late[i]).0 <= n,
    ensures
        ({
            let (channel, text) = list[0];
            let first = (AssemblyView { late: Seq::empty(), ..state }).threaded(
                channel,
                text.take(n),
                state.late,
            ).0;
            &&& (AssemblyView { split, ..state }).spread(list).0 == (AssemblyView {
                split,
                ..spelled(first, flat(list).skip(n))
            })
            &&& tidy((AssemblyView { split, ..state }).spread(list).0)
        }),
{
    let (channel, text) = list[0];
    let free = AssemblyView { late: Seq::empty(), ..state };
    let u = text.take(n);
    let v = text.skip(n);
    let rest = list.skip(1);
    assert(u + v =~= text);
    assert forall|i: int| 0 <= i < rest.len() implies (#[trigger] rest[i]).1.len() > 0 by {
        assert(rest[i] == list[i + 1]);
    }
    let first = free.threaded(channel, u, state.late).0;
    let whole = free.threaded(channel, text, state.late).0;
    threading_stays_tidy(free, channel, u, state.late);
    threading_stays_tidy(free, channel, text, state.late);
    threaded_on(free, channel, u, v, state.late);
    if v.len() > 0 {
        stretch_is_spelled(first, channel, v);
    } else {
        assert(marked(channel, v) =~= Seq::empty());
    }
    assert(whole == spelled(first, marked(channel, v)));
    threading_ignores_the_scan(free, split, channel, text, state.late);
    stretches_are_spelled(AssemblyView { split, ..whole }, rest);
    spelling_ignores_the_scan(whole, split, flat(rest));
    spelled_joins(first, marked(channel, v), flat(rest));
    flat_first(list);
    assert(flat(list).skip(n) =~= marked(channel, v) + flat(rest));
    assert((AssemblyView { late: Seq::empty(), ..(AssemblyView { split, ..state }) })
        == (AssemblyView { split, ..free }));
}

/// Two fragments in a row are the one they make up, where calls wait.
proof fn cut_waiting(state: AssemblyView, a: Seq<char>, b: Seq<char>)
    requires
        steady(state),
        state.late.len() > 0,
    ensures
        state.pushed(TokenEventView::Token(a)).0.pushed(TokenEventView::Token(b)).0
            == state.pushed(TokenEventView::Token(a + b)).0,
{
    let (sa, la) = state.split.fed(a);
    let (sb, lb) = sa.fed(b);
    let (sab, lab) = state.split.fed(a + b);
    let mid = state.pushed(TokenEventView::Token(a)).0;
    fate_is_settled_once(state.split, a, b);
    fate_shows(state.split, a);
    stretches_only_grow(state.split, a, b);
    fragments_do_not_matter(state.split, a, b);
    match state.split.fate(a) {
        Fate::Held => {
            assert(mid == (AssemblyView { split: sa, ..state }));
            assert((AssemblyView { split: sb, ..mid }) == (AssemblyView { split: sab, ..state }));
        },
        Fate::Marker => {
            let done = state.placed();
            let x = AssemblyView { split: sa, ..done };
            let y = AssemblyView { split: sab, ..done };
            assert(x.placed() =~= x);
            assert(y.placed() =~= y);
            assert((AssemblyView { split: sa, ..state }).placed() == x);
            assert((AssemblyView { split: sab, ..state }).placed() == y);
            cut_plain(done, a, b);
        },
        Fate::Said => {
            held_text_comes_whole(state.split, a);
            fed_is_filled(state.split, a);
            fed_is_filled(state.split, a + b);
            let n = la[0].1.len() as int;
            assert forall|i: int| 0 <= i < state.late.len() implies (#[trigger] state.late[i]).0
                <= n by {}
            spread_is_spelled(state, sa, la, n);
            spread_is_spelled(state, sab, lab, n);
            let first = (AssemblyView { late: Seq::empty(), ..state }).threaded(
                la[0].0,
                la[0].1.take(n),
                state.late,
            ).0;
            assert(la[0].1.take(n) =~= la[0].1);
            spreading_keeps_the_rest(AssemblyView { split: sa, ..state }, la);
            token_is_spelled(mid, b);
            let rest = flat(la).skip(n);
            spelled_joins(first, rest, flat(lb));
            spelling_ignores_the_scan(spelled(first, rest), sa, flat(lb));
            flat_first(la);
            assert(flat(lab).skip(n) =~= rest + flat(lb));
        },
    }
}

/// How a reply is cut into tokens does not change it. Two fragments in a row
/// leave the assembly as the one fragment they make up would: a marker split
/// across tokens is still a marker, what is kept of white space is the same,
/// and a call stands where it stood.
pub proof fn how_a_reply_is_cut_does_not_matter(
    message: MessageId,
    minted: nat,
    max_tokens: Option<usize>,
    stream: Seq<TokenEventView>,
    a: Seq<char>,
    b: Seq<char>,
)
    ensures
        ({
            let start = AssemblyView::begun(message, minted, max_tokens);
            after_stream(
                start,
                stream.push(TokenEventView::Token(a)).push(TokenEventView::Token(b)),
            ).0 == after_stream(start, stream.push(TokenEventView::Token(a + b))).0
        }),
{
    let start = AssemblyView::begun(message, minted, max_tokens);
    let state = after_stream(start, stream).0;
    let one = stream.push(TokenEventView::Token(a));
    let two = one.push(TokenEventView::Token(b));
    let whole = stream.push(TokenEventView::Token(a + b));
    assert(one.drop_last() =~= stream);
    assert(two.drop_last() =~= one);
    assert(whole.drop_last() =~= stream);
    streams_stay_steady(message, minted, max_tokens, stream);
    if state.late.len() == 0 {
        cut_plain(state, a, b);
    } else {
        cut_waiting(state, a, b);
    }
    assert(after_stream(start, whole).0 == state.pushed(TokenEventView::Token(a + b)).0);
    assert(after_stream(start, one).0 == state.pushed(TokenEventView::Token(a)).0);
    assert(after_stream(start, two).0 == after_stream(start, one).0.pushed(
        TokenEventView::Token(b),
    ).0);
}

// ── Where calls stand ───────────────────────────────────────────────────────

/// Parts that end in a call stay as they are: what follows comes after.
proof fn growing_keeps_what_a_call_ends(
    head: Seq<PartView>,
    parts: Seq<PartView>,
    fresh: bool,
    channel: Channel,
    chunk: Seq<char>,
)
    requires
        head.is_prefix_of(parts),
        head.len() > 0,
        head.last() is Call,
    ensures
        head.is_prefix_of(grown(parts, fresh, channel, chunk)),
{
    let out = grown(parts, fresh, channel, chunk);
    assert(head =~= parts.subrange(0, head.len() as int));
    if parts.len() == head.len() {
        assert(parts.last() == head.last());
    }
    assert(head =~= out.subrange(0, head.len() as int)) by {
        assert forall|i: int| 0 <= i < head.len() implies head[i] == out[i] by {
            assert(head[i] == parts[i]);
        }
    }
}

proof fn saying_keeps_what_a_call_ends(
    head: Seq<PartView>,
    state: AssemblyView,
    channel: Channel,
    text: Seq<char>,
)
    requires
        head.is_prefix_of(state.parts),
        head.len() > 0,
        head.last() is Call,
    ensures
        head.is_prefix_of(state.said(channel, text).0.parts),
{
    let body = state.said(channel, text).1;
    if body.len() > 0 {
        growing_keeps_what_a_call_ends(
            head,
            state.parts,
            state.open != Some(channel),
            channel,
            body,
        );
    }
}

proof fn adding_keeps_the_start(head: Seq<PartView>, parts: Seq<PartView>, more: Seq<PartView>)
    requires
        head.is_prefix_of(parts),
    ensures
        head.is_prefix_of(parts + more),
{
    assert(head =~= (parts + more).subrange(0, head.len() as int)) by {
        assert(head =~= parts.subrange(0, head.len() as int));
    }
}

proof fn threading_keeps_what_a_call_ends(
    head: Seq<PartView>,
    state: AssemblyView,
    channel: Channel,
    text: Seq<char>,
    calls: Seq<(usize, AskedView)>,
)
    requires
        head.is_prefix_of(state.parts),
        head.len() > 0,
        head.last() is Call,
    ensures
        head.is_prefix_of(state.threaded(channel, text, calls).0.parts),
    decreases calls.len(),
{
    if calls.len() == 0 {
        saying_keeps_what_a_call_ends(head, state, channel, text);
    } else {
        let (k, call) = calls.last();
        let at = if k <= text.len() {
            k as int
        } else {
            text.len() as int
        };
        threading_keeps_what_a_call_ends(head, state, channel, text.take(at), calls.drop_last());
        let before = state.threaded(channel, text.take(at), calls.drop_last()).0;
        let mid = AssemblyView { parts: before.parts.push(PartView::Call(call)), ..before };
        adding_keeps_the_start(head, before.parts, seq![PartView::Call(call)]);
        assert(before.parts + seq![PartView::Call(call)] =~= mid.parts);
        saying_keeps_what_a_call_ends(head, mid, channel, text.skip(at));
    }
}

proof fn emitting_keeps_what_a_call_ends(
    head: Seq<PartView>,
    state: AssemblyView,
    list: Seq<(Channel, Seq<char>)>,
)
    requires
        head.is_prefix_of(state.parts),
        head.len() > 0,
        head.last() is Call,
    ensures
        head.is_prefix_of(state.emitted_all(list).0.parts),
    decreases list.len(),
{
    if list.len() > 0 {
        emitting_keeps_what_a_call_ends(head, state, list.drop_last());
        let before = state.emitted_all(list.drop_last()).0;
        saying_keeps_what_a_call_ends(head, before, list.last().0, list.last().1);
    }
}

proof fn spreading_keeps_what_a_call_ends(
    head: Seq<PartView>,
    state: AssemblyView,
    list: Seq<(Channel, Seq<char>)>,
)
    requires
        head.is_prefix_of(state.parts),
        head.len() > 0,
        head.last() is Call,
    ensures
        head.is_prefix_of(state.spread(list).0.parts),
        head.is_prefix_of(state.placed().parts),
{
    adding_keeps_the_start(head, state.parts, parts_of(state.late));
    if state.late.len() == 0 {
        emitting_keeps_what_a_call_ends(head, state, list);
    } else if list.len() > 0 {
        let free = AssemblyView { late: Seq::empty(), ..state };
        threading_keeps_what_a_call_ends(head, free, list[0].0, list[0].1, state.late);
        let first = free.threaded(list[0].0, list[0].1, state.late).0;
        emitting_keeps_what_a_call_ends(head, first, list.skip(1));
    }
}

proof fn pushing_keeps_what_a_call_ends(
    head: Seq<PartView>,
    state: AssemblyView,
    event: TokenEventView,
)
    requires
        head.is_prefix_of(state.parts),
        head.len() > 0,
        head.last() is Call,
    ensures
        head.is_prefix_of(state.pushed(event).0.parts),
{
    match event {
        TokenEventView::Token(text) => {
            let (split, list) = state.split.fed(text);
            let fed = AssemblyView { split, ..state };
            spreading_keeps_what_a_call_ends(head, fed, list);
            emitting_keeps_what_a_call_ends(head, fed.placed(), list);
        },
        TokenEventView::ToolCall(call) => {
            let one = seq![PartView::Call(state.asked(call))];
            adding_keeps_the_start(head, state.parts, one);
            assert(state.parts + one =~= state.parts.push(one[0]));
        },
        _ => {},
    }
}

proof fn streaming_keeps_what_a_call_ends(
    head: Seq<PartView>,
    start: AssemblyView,
    stream: Seq<TokenEventView>,
    n: int,
)
    requires
        0 <= n <= stream.len(),
        head.is_prefix_of(after_stream(start, stream.take(n)).0.parts),
        head.len() > 0,
        head.last() is Call,
    ensures
        head.is_prefix_of(after_stream(start, stream).0.parts),
    decreases stream.len(),
{
    if n < stream.len() {
        let short = stream.drop_last();
        assert(short.take(n) =~= stream.take(n));
        streaming_keeps_what_a_call_ends(head, start, short, n);
        pushing_keeps_what_a_call_ends(head, after_stream(start, short).0, stream.last());
    } else {
        assert(stream.take(n) =~= stream);
    }
}

/// A call stands where it was made: where nothing is held back when it comes,
/// the message begins with what there was before the call, and then the call,
/// whatever is streamed after it.
pub proof fn a_call_stands_where_it_was_made(
    message: MessageId,
    minted: nat,
    max_tokens: Option<usize>,
    stream: Seq<TokenEventView>,
    finish: FinishView,
    n: int,
)
    requires
        0 <= n < stream.len(),
        stream[n] is ToolCall,
        after_stream(
            AssemblyView::begun(message, minted, max_tokens),
            stream.take(n),
        ).0.split.pending.len() == 0,
    ensures
        ({
            let start = AssemblyView::begun(message, minted, max_tokens);
            let before = after_stream(start, stream.take(n)).0;
            let call = PartView::Call(before.asked(stream[n]->ToolCall_0));
            before.parts.push(call).is_prefix_of(
                whole_turn(start, stream, finish).0.message_parts(),
            )
        }),
{
    let start = AssemblyView::begun(message, minted, max_tokens);
    let before = after_stream(start, stream.take(n)).0;
    let head = before.parts.push(PartView::Call(before.asked(stream[n]->ToolCall_0)));
    let upto = stream.take(n + 1);
    assert(upto.drop_last() =~= stream.take(n));
    assert(upto.last() == stream[n]);
    let with = after_stream(start, upto).0;
    assert(with.parts == head);
    assert(head =~= head.subrange(0, head.len() as int));
    streaming_keeps_what_a_call_ends(head, start, stream, n + 1);
    let all = after_stream(start, stream).0;
    let cleared = AssemblyView {
        split: SplitView { pending: Seq::empty(), ..all.split },
        ..all
    };
    spreading_keeps_what_a_call_ends(head, cleared, all.split.left());
    let ended = all.finished(finish).0;
    adding_keeps_the_start(head, ended.parts, parts_of(ended.late));
}

/// A call made last stands last, after everything the turn comes to without
/// it. Text that was held back when the call came stands before it.
pub proof fn a_call_made_last_stands_last(
    message: MessageId,
    minted: nat,
    max_tokens: Option<usize>,
    stream: Seq<TokenEventView>,
    call: StreamCallView,
    finish: FinishView,
)
    ensures
        ({
            let start = AssemblyView::begun(message, minted, max_tokens);
            let with = stream.push(TokenEventView::ToolCall(call));
            let asked = after_stream(start, stream).0.asked(call);
            whole_turn(start, with, finish).0.parts == whole_turn(
                start,
                stream,
                finish,
            ).0.parts.push(PartView::Call(asked))
        }),
{
    let start = AssemblyView::begun(message, minted, max_tokens);
    let with = stream.push(TokenEventView::ToolCall(call));
    assert(with.drop_last() =~= stream);
    assert(with.last() == TokenEventView::ToolCall(call));
    begun_tells(message, minted, max_tokens);
    streaming_tells(start, stream);
    streams_stay_steady(message, minted, max_tokens, stream);
    let state = after_stream(start, stream).0;
    let after = after_stream(start, with).0;
    let asked = state.asked(call);
    let text = state.split.pending;
    let list = state.split.left();
    if text.len() == 0 {
        assert(state.late.len() == 0);
        assert(list.len() == 0);
        assert(after.parts == state.parts.push(PartView::Call(asked)));
    } else {
        let channel = state.split.channel();
        assert(list =~= seq![(channel, text)]);
        assert(list.skip(1) =~= Seq::empty());
        let empty = SplitView { pending: Seq::empty(), ..state.split };
        let s = AssemblyView { split: empty, ..state };
        let t = AssemblyView { split: empty, ..after };
        let calls = state.late.push((text.len() as usize, asked));
        assert(t.late == calls);
        assert(calls.drop_last() =~= state.late);
        assert(text.take(text.len() as int) =~= text);
        assert(text.skip(text.len() as int).len() == 0);
        let free = AssemblyView { late: Seq::empty(), ..s };
        let other = AssemblyView { late: Seq::empty(), ..t };
        threading_ignores_the_count(free, other.minted, channel, text, state.late);
        assert(other == (AssemblyView { minted: other.minted, ..free }));
        if state.late.len() == 0 {
            assert(s.emitted_all(list) == s.emitted_all(seq![(channel, text)]));
            emitted_first(s, list);
            assert(s == free);
        }
    }
}

proof fn threading_ignores_the_count(
    state: AssemblyView,
    minted: nat,
    channel: Channel,
    text: Seq<char>,
    calls: Seq<(usize, AskedView)>,
)
    ensures
        (AssemblyView { minted, ..state }).threaded(channel, text, calls).0 == (AssemblyView {
            minted,
            ..state.threaded(channel, text, calls).0
        }),
    decreases calls.len(),
{
    let other = AssemblyView { minted, ..state };
    if calls.len() == 0 {
        assert(other.own(channel, text) == state.own(channel, text));
    } else {
        let (k, call) = calls.last();
        let at = if k <= text.len() {
            k as int
        } else {
            text.len() as int
        };
        threading_ignores_the_count(state, minted, channel, text.take(at), calls.drop_last());
        let before = state.threaded(channel, text.take(at), calls.drop_last()).0;
        let mid = AssemblyView { parts: before.parts.push(PartView::Call(call)), ..before };
        assert((AssemblyView { minted, ..mid }).own(channel, text.skip(at)) == mid.own(
            channel,
            text.skip(at),
        ));
    }
}

// ── What is shown of what was streamed ──────────────────────────────────────

/// Of the reply that follows reasoning only leading line breaks are left out:
/// what is reported is the text from its first character that is no line
/// break on, character for character.
pub proof fn the_reply_after_reasoning_loses_only_line_breaks(
    state: AssemblyView,
    text: Seq<char>,
) -> (n: int)
    requires
        state.scaffolded,
        state.open != Some(Channel::Text),
    ensures
        0 <= n <= text.len(),
        forall|i: int| 0 <= i < n ==> #[trigger] text[i] == '\n',
        n < text.len() ==> text[n] != '\n',
        state.said(Channel::Text, text).1 == text.skip(n),
{
    let n = only_line_breaks_are_left_out(text);
    assert(Seq::<char>::empty() + text.skip(n) =~= text.skip(n));
    if text.len() == 0 {
        assert(text.skip(n) =~= Seq::empty());
    }
    if n == text.len() {
        assert(text.skip(n) =~= Seq::empty());
    }
    n
}

/// A reply is reported word for word where no reasoning came before it, and
/// wherever it goes on.
pub proof fn a_reply_is_reported_word_for_word(state: AssemblyView, text: Seq<char>)
    requires
        state.open == Some(Channel::Text) && state.held.len() == 0 || state.open !=
            Some(Channel::Text) && !state.scaffolded,
    ensures
        state.said(Channel::Text, text).1 == text,
{
    if state.open == Some(Channel::Text) {
        assert(state.held + text =~= text);
    } else {
        assert(Seq::<char>::empty() + text =~= text);
    }
    if text.len() == 0 {
        assert(text =~= Seq::empty());
    }
}

/// Of reasoning only the white space around it is left out.
pub proof fn reasoning_loses_only_the_white_space_around_it(
    state: AssemblyView,
    text: Seq<char>,
) -> (at: (int, int))
    requires
        state.open != Some(Channel::Reasoning),
    ensures
        0 <= at.0 <= at.1 <= text.len(),
        forall|i: int| 0 <= i < at.0 ==> is_space(#[trigger] text[i]),
        forall|i: int| at.1 <= i < text.len() ==> is_space(#[trigger] text[i]),
        at.0 < at.1 ==> !is_space(text[at.0]) && !is_space(text[at.1 - 1]),
        state.said(Channel::Reasoning, text).1 == text.subrange(at.0, at.1),
{
    let n = only_a_lead_is_left_out(text);
    let own = text.skip(n);
    let chunk = Seq::<char>::empty() + own;
    assert(chunk =~= own);
    a_body_ends_where_white_space_begins(own);
    let k = body_len(own) as int;
    assert(own.take(k) =~= text.subrange(n, n + k));
    assert forall|i: int| n + k <= i < text.len() implies is_space(#[trigger] text[i]) by {
        assert(own[i - n] == text[i]);
    }
    if n < text.len() {
        assert(own[0] == text[n]);
        has_body(own);
        assert(own[k - 1] == text[n + k - 1]);
    }
    (n, n + k)
}

/// Reasoning is remembered from its first character on, and nothing else
/// counts as reasoning.
pub proof fn reasoning_is_remembered(state: AssemblyView, channel: Channel, text: Seq<char>)
    ensures
        state.said(channel, text).0.scaffolded <==> state.scaffolded || (channel is Reasoning
            && text.len() > 0),
{
}

/// A whole reply with its reasoning in front, in a model's own brackets, comes
/// to this: the reasoning without the white space around it, and the reply
/// without the line breaks that set it off. The brackets show nowhere.
pub proof fn a_thought_and_a_reply(
    message: MessageId,
    minted: nat,
    max_tokens: Option<usize>,
    finish: FinishView,
    before: Seq<char>,
    thought: Seq<char>,
    reply: Seq<char>,
) -> (at: (int, int, int))
    requires
        unbracketed(before),
        unbracketed(thought),
        unbracketed(reply),
        thought.len() > 0,
    ensures
        ({
            let start = AssemblyView::begun(message, minted, max_tokens);
            let text = before + "<think>"@ + thought + "</think>"@ + reply;
            let ended = whole_turn(start, seq![TokenEventView::Token(text)], finish).0;
            let parts = ended.message_parts();
            let (from, to, n) = at;
            &&& 0 <= from <= to <= thought.len() && 0 <= n <= reply.len()
            &&& text_in(parts) == before + reply.skip(n)
            &&& reasoning_in(parts) == (if from < to {
                Some(thought.subrange(from, to))
            } else {
                None
            })
            &&& forall|i: int| 0 <= i < from ==> is_space(#[trigger] thought[i])
            &&& forall|i: int| to <= i < thought.len() ==> is_space(#[trigger] thought[i])
            &&& from < to ==> !is_space(thought[from]) && !is_space(thought[to - 1])
            &&& forall|i: int| 0 <= i < n ==> #[trigger] reply[i] == '\n'
            &&& n < reply.len() ==> reply[n] != '\n'
        }),
{
    let start = AssemblyView::begun(message, minted, max_tokens);
    let text = before + "<think>"@ + thought + "</think>"@ + reply;
    begun_is_steady(message, minted, max_tokens);
    think_markers();
    reasoning_is_told_from_the_reply(start.split, before, 1, thought, 1, reply);
    let stream = seq![TokenEventView::Token(text)];
    assert(stream.drop_last() =~= Seq::empty());
    assert(after_stream(start, stream.drop_last()).0 == start);
    token_is_spelled(start, text);
    let after = after_stream(start, stream).0;
    assert(after == start.pushed(TokenEventView::Token(text)).0);
    let x = marked(Channel::Text, before);
    let y = marked(Channel::Reasoning, thought);
    let z = marked(Channel::Text, reply);
    spelled_joins(start, x + y, z);
    spelled_joins(start, x, y);
    if before.len() > 0 {
        stretch_is_spelled(start, Channel::Text, before);
    } else {
        assert(x =~= Seq::empty());
    }
    let a = start.said(Channel::Text, before).0;
    assert(spelled(start, x) == a);
    said_twice(start, Channel::Text, Seq::empty(), before);
    assert(Seq::<char>::empty() + before =~= before);
    stretch_is_spelled(a, Channel::Reasoning, thought);
    let b = a.said(Channel::Reasoning, thought).0;
    said_twice(a, Channel::Reasoning, Seq::empty(), thought);
    assert(Seq::<char>::empty() + thought =~= thought);
    if reply.len() > 0 {
        stretch_is_spelled(b, Channel::Text, reply);
    } else {
        assert(z =~= Seq::empty());
    }
    let c = b.said(Channel::Text, reply).0;
    assert(after == AssemblyView { split: start.split, ..c });
    a_reply_is_reported_word_for_word(start, before);
    assert(a.open != Some(Channel::Reasoning));
    let (from, to) = reasoning_loses_only_the_white_space_around_it(a, thought);
    reasoning_is_remembered(a, Channel::Reasoning, thought);
    assert(b.open != Some(Channel::Text)) by {
        if without_lead(thought).len() == 0 {
            assert(b.open is None);
        }
    }
    let n = the_reply_after_reasoning_loses_only_line_breaks(b, reply);
    saying_says(start, Channel::Text, before);
    saying_says(a, Channel::Reasoning, thought);
    saying_says(b, Channel::Text, reply);
    saying_keeps_the_rest(start, Channel::Text, before);
    saying_keeps_the_rest(a, Channel::Reasoning, thought);
    saying_keeps_the_rest(b, Channel::Text, reply);
    let none = Seq::<char>::empty();
    assert(text_in(start.parts) =~= none);
    assert(none + before =~= before);
    assert(before + none =~= before);
    assert(text_in(c.parts) =~= before + reply.skip(n));
    assert(reasoning_in(start.parts) is None);
    assert(thought.subrange(from, to).len() == to - from);
    let cleared = AssemblyView {
        split: SplitView { pending: Seq::empty(), ..after.split },
        ..after
    };
    assert(after.split.left().len() == 0);
    assert(cleared.spread(after.split.left()).0 == cleared);
    let ended = after.finished(finish).0;
    assert(ended.parts == c.parts);
    assert(ended.placed().parts =~= c.parts);
    if c.parts.len() == 0 {
        let blank = seq![PartView::Text(none)];
        assert(blank.drop_last() =~= Seq::<PartView>::empty());
        assert(text_in(blank) =~= none);
        assert(reasoning_in(blank) is None);
        assert(text_in(c.parts) =~= none);
    }
    (from, to, n)
}

proof fn think_markers()
    ensures
        ({
            let open = seq!["<|channel>thought"@, "<think>"@];
            let close = seq!["<channel|>"@, "</think>"@];
            &&& forall|i: int|
                0 <= i < 2 && (#[trigger] open[i]).is_prefix_of(open[1]) ==> open[i] == open[1]
            &&& forall|i: int|
                0 <= i < 2 && (#[trigger] close[i]).is_prefix_of(close[1]) ==> close[i] == close[1]
        }),
{
    reveal_strlit("<|channel>thought");
    reveal_strlit("<think>");
    reveal_strlit("<channel|>");
    reveal_strlit("</think>");
    let open = seq!["<|channel>thought"@, "<think>"@];
    let close = seq!["<channel|>"@, "</think>"@];
    assert(!open[0].is_prefix_of(open[1]));
    assert(!close[0].is_prefix_of(close[1]));
}

/// A reply without any bracket is the message, word for word, whatever it
/// says.
pub proof fn a_plain_reply_is_the_message(
    message: MessageId,
    minted: nat,
    max_tokens: Option<usize>,
    finish: FinishView,
    reply: Seq<char>,
)
    requires
        unbracketed(reply),
    ensures
        ({
            let start = AssemblyView::begun(message, minted, max_tokens);
            let ended = whole_turn(start, seq![TokenEventView::Token(reply)], finish).0;
            ended.message_parts() == seq![PartView::Text(reply)]
        }),
{
    let start = AssemblyView::begun(message, minted, max_tokens);
    begun_is_steady(message, minted, max_tokens);
    unbracketed_text_is_let_go(start.split, reply);
    let stream = seq![TokenEventView::Token(reply)];
    assert(stream.drop_last() =~= Seq::empty());
    assert(after_stream(start, stream.drop_last()).0 == start);
    token_is_spelled(start, reply);
    let after = after_stream(start, stream).0;
    if reply.len() > 0 {
        stretch_is_spelled(start, Channel::Text, reply);
    } else {
        assert(marked(Channel::Text, reply) =~= Seq::empty());
        assert(reply =~= Seq::empty());
    }
    let c = start.said(Channel::Text, reply).0;
    a_reply_is_reported_word_for_word(start, reply);
    assert(after == AssemblyView { split: start.split, ..c });
    let cleared = AssemblyView {
        split: SplitView { pending: Seq::empty(), ..after.split },
        ..after
    };
    saying_keeps_the_rest(start, Channel::Text, reply);
    assert(after.split.left().len() == 0);
    assert(cleared.spread(after.split.left()).0 == cleared);
    let ended = after.finished(finish).0;
    assert(ended.parts == c.parts);
    assert(ended.placed().parts =~= c.parts);
    if reply.len() > 0 {
        assert(c.parts =~= seq![PartView::Text(reply)]);
    }
}

// ── Why a turn ended, and what it cost ──────────────────────────────────────

/// Why a turn ended: it was stopped, or it asked for tools, or it spent its
/// tokens, or it was done; whatever else the backend says is passed on by
/// name.
pub proof fn why_a_turn_ended(before: AssemblyView, finish: FinishView)
    ensures
        ({
            let reason = before.finished(finish).0.named_reason();
            let asked = calls_in(before.parts).len() > 0 || before.late.len() > 0;
            let spent = before.stats is Some && before.max_tokens is Some
                && before.max_tokens->0 <= before.stats->0.decode_tokens;
            &&& finish is Stopped <==> reason is Cancelled
            &&& asked && !(finish is Stopped) <==> reason is ToolCall
            &&& finish is Eos && !asked && spent <==> reason is Length
            &&& finish is Eos && !asked && !spent <==> reason is Stop
            &&& !(finish is Stopped) && !(finish is Eos) && !asked <==> reason is Other
        }),
{
}

/// What a turn cost is reported exactly where the backend measured it, with
/// the backend's own counts.
pub proof fn what_a_turn_cost(before: AssemblyView, finish: FinishView)
    ensures
        ({
            let events = before.finished(finish).1;
            let n = events.len();
            &&& before.stats matches Some(stats) ==> {
                &&& n >= 2
                &&& events[n - 2] matches EventView::Usage(usage)
                &&& usage.prompt_tokens == stats.prompt_tokens
                &&& usage.completion_tokens == stats.decode_tokens
            }
            &&& before.finished(finish).0.stats == before.stats
            &&& before.finished(finish).0.shed == before.shed
        }),
{
    let cleared = AssemblyView {
        split: SplitView { pending: Seq::empty(), ..before.split },
        ..before
    };
    spreading_keeps_the_rest(cleared, before.split.left());
}

/// What the backend says beside the text is kept and is no text: the latest
/// measurement, and the sum of what fell out of view.
pub proof fn what_is_streamed_beside_the_text(state: AssemblyView, n: usize, stats: ExecutionStats)
    ensures
        state.pushed(TokenEventView::Truncated(n)).0.shed == state.shed + n,
        state.pushed(TokenEventView::Compacted(n)).0.shed == state.shed + n,
        state.pushed(TokenEventView::Stats(stats)).0.stats == Some(stats),
        state.pushed(TokenEventView::Other).0 == state,
        state.pushed(TokenEventView::Truncated(n)).0.parts == state.parts,
        state.pushed(TokenEventView::Compacted(n)).0.parts == state.parts,
        state.pushed(TokenEventView::Stats(stats)).0.parts == state.parts,
        state.pushed(TokenEventView::Truncated(n)).1.len() == 0,
        state.pushed(TokenEventView::Compacted(n)).1.len() == 0,
        state.pushed(TokenEventView::Stats(stats)).1.len() == 0,
{
}

/// A call is reported at once, begun, argued and complete, under one id: the
/// provider's where it gave one, else one minted for the message, and then
/// the count goes on by one.
pub proof fn how_a_call_is_reported(state: AssemblyView, call: StreamCallView)
    ensures
        ({
            let (after, events) = state.pushed(TokenEventView::ToolCall(call));
            let own = call.id is Some && call.id->0.len() > 0;
            let id = if own {
                call.id->0
            } else {
                minted(state.message.0, state.minted)
            };
            &&& events.len() == 3
            &&& events[0] == (EventView::ToolCallStart { id, name: call.name })
            &&& events[1] == (EventView::ToolCallArgumentsDelta { id, delta: call.arguments })
            &&& events[2] matches EventView::ToolCallEnd(asked)
            &&& asked.id == id
            &&& asked.name == call.name
            &&& own ==> after.minted == state.minted
            &&& !own ==> after.minted == state.minted + 1
            &&& after.message == state.message
        }),
{
}

// ── What is reported at all ─────────────────────────────────────────────────

/// Whether an event is a fragment of text or reasoning that says nothing.
pub open spec fn idle(event: EventView) -> bool {
    match event {
        EventView::TextDelta(text) => text.len() == 0,
        EventView::ReasoningDelta(text) => text.len() == 0,
        _ => false,
    }
}

proof fn stretches_report_something(state: AssemblyView, list: Seq<(Channel, Seq<char>)>)
    ensures
        forall|i: int|
            0 <= i < state.emitted_all(list).1.len() ==> !idle(
                #[trigger] state.emitted_all(list).1[i],
            ),
    decreases list.len(),
{
    if list.len() > 0 {
        stretches_report_something(state, list.drop_last());
        let (before, events) = state.emitted_all(list.drop_last());
        let (after, more) = before.emitted(list.last().0, list.last().1);
        let all = state.emitted_all(list).1;
        assert(all == events + more);
        assert forall|i: int| 0 <= i < all.len() implies !idle(#[trigger] all[i]) by {
            if i < events.len() {
                assert(all[i] == events[i]);
            } else {
                assert(all[i] == more[i - events.len()]);
            }
        }
    }
}

proof fn spreading_reports_something(state: AssemblyView, list: Seq<(Channel, Seq<char>)>)
    ensures
        forall|i: int|
            0 <= i < state.spread(list).1.len() ==> !idle(#[trigger] state.spread(list).1[i]),
{
    stretches_report_something(state, list);
    if state.late.len() > 0 && list.len() > 0 {
        let (channel, text) = list[0];
        let (first, told) = (AssemblyView { late: Seq::empty(), ..state }).threaded(
            channel,
            text,
            state.late,
        );
        stretches_report_something(first, list.skip(1));
    }
}

/// No fragment that is reported is empty, while a turn is streamed or when it
/// ends; a turn ends with one event that says why.
pub proof fn no_fragment_is_empty(
    state: AssemblyView,
    event: TokenEventView,
    finish: FinishView,
)
    ensures
        forall|i: int|
            0 <= i < state.pushed(event).1.len() ==> !idle(#[trigger] state.pushed(event).1[i]),
        forall|i: int|
            0 <= i < state.finished(finish).1.len() ==> !idle(
                #[trigger] state.finished(finish).1[i],
            ),
        state.finished(finish).1.last() is Finished,
{
    if let TokenEventView::Token(text) = event {
        let (split, list) = state.split.fed(text);
        let fed = AssemblyView { split, ..state };
        stretches_report_something(fed.placed(), list);
        spreading_reports_something(fed, list);
    }
    spreading_reports_something(
        (AssemblyView {
            split: SplitView { pending: Seq::empty(), ..state.split },
            ..state
        }),
        state.split.left(),
    );
}

/// Once its outcome is taken an assembly holds none of it, and keeps what the
/// next ids are minted from; the outcome's reason is the one the turn ended
/// for.
pub proof fn an_outcome_is_taken_once(state: AssemblyView, finish: FinishView)
    ensures
        state.taken().parts.len() == 0,
        state.taken().late.len() == 0,
        state.taken().stats is None,
        state.taken().shed == 0,
        state.taken().reason is None,
        state.taken().message == state.message,
        state.taken().minted == state.minted,
        state.finished(finish).0.named_reason() == state.reason_for(finish),
        state.reason is None ==> state.named_reason() == ReasonView::Other("unfinished"@),
{
}

} // verus!
