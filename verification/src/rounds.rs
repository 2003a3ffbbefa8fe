//! Tool rounds: a call and its results are one unit.
//!
//! A list of messages *breaks a round* when it shows a result whose call it
//! does not show before it, or shows a call that some recorded result
//! answers without showing an answer. A call that nothing has answered
//! anywhere is no breach: the round is in progress, or was interrupted.
//!
//! A result that names no call answers the first call still open of the
//! nearest preceding message that makes calls.
use vstd::prelude::*;
use crate::message::{Message, MessageView};
use crate::seqs::{group_views, views, without};
use crate::text::same_text;

verus! {

broadcast use group_views;

/// How a list of messages breaks a round, by the id of the call concerned.
#[derive(Debug, PartialEq, Eq)]
pub enum RoundBreach {
    /// A result is shown and its call is not.
    OrphanResult(String),
    /// A call is shown, an answer exists, and no answer is shown.
    UnansweredCall(String),
}

/// A breach, mathematically.
pub enum BreachView {
    Orphan(Seq<char>),
    Unanswered(Seq<char>),
}

impl View for RoundBreach {
    type V = BreachView;

    open spec fn view(&self) -> BreachView {
        match self {
            RoundBreach::OrphanResult(id) => BreachView::Orphan(id@),
            RoundBreach::UnansweredCall(id) => BreachView::Unanswered(id@),
        }
    }
}

/// What has been seen after reading some messages in order.
pub struct Walk {
    /// The calls made.
    pub declared: Seq<Seq<char>>,
    /// The calls answered.
    pub answered: Seq<Seq<char>>,
    /// The calls of the latest calling message that nothing answers yet.
    pub open: Seq<Seq<char>>,
}

/// Reads one more message. `Err` holds the call id of a result that answers
/// nothing shown; empty where the result names no call.
pub open spec fn step(w: Walk, m: MessageView) -> Result<Walk, Seq<char>> {
    if m.calls().len() > 0 {
        Ok(Walk { declared: w.declared + m.calls(), answered: w.answered, open: m.calls() })
    } else if m.is_result() {
        match m.call_id {
            Some(id) => if w.declared.contains(id) {
                Ok(
                    Walk {
                        declared: w.declared,
                        answered: w.answered.push(id),
                        open: without(w.open, id),
                    },
                )
            } else {
                Err(id)
            },
            None => if w.open.len() > 0 {
                Ok(
                    Walk {
                        declared: w.declared,
                        answered: w.answered.push(w.open[0]),
                        open: w.open.drop_first(),
                    },
                )
            } else {
                Err(Seq::empty())
            },
        }
    } else {
        Ok(w)
    }
}

/// Reads messages in order, up to the first result that answers nothing.
pub open spec fn walk(shown: Seq<MessageView>) -> Result<Walk, Seq<char>>
    decreases shown.len(),
{
    if shown.len() == 0 {
        Ok(Walk { declared: Seq::empty(), answered: Seq::empty(), open: Seq::empty() })
    } else {
        match walk(shown.drop_last()) {
            Ok(w) => step(w, shown.last()),
            Err(id) => Err(id),
        }
    }
}

/// Whether some recorded result names the call it answers as `id`.
pub open spec fn answered_in(records: Seq<MessageView>, id: Seq<char>) -> bool {
    exists|i: int|
        0 <= i < records.len() && (#[trigger] records[i]).is_result() && records[i].call_id == Some(
            id,
        )
}

/// The first of `calls` that is not among `answered` and is answered in the
/// records.
pub open spec fn first_unanswered(
    calls: Seq<Seq<char>>,
    answered: Seq<Seq<char>>,
    records: Seq<MessageView>,
) -> Option<Seq<char>>
    decreases calls.len(),
{
    if calls.len() == 0 {
        None
    } else {
        match first_unanswered(calls.drop_last(), answered, records) {
            Some(id) => Some(id),
            None => if !answered.contains(calls.last()) && answered_in(records, calls.last()) {
                Some(calls.last())
            } else {
                None
            },
        }
    }
}

/// How `shown` breaks a round, given every message ever recorded.
pub open spec fn breach(shown: Seq<MessageView>, records: Seq<MessageView>) -> Option<BreachView> {
    match walk(shown) {
        Err(id) => Some(BreachView::Orphan(id)),
        Ok(w) => match first_unanswered(w.declared, w.answered, records) {
            Some(id) => Some(BreachView::Unanswered(id)),
            None => None,
        },
    }
}

// ── Trimming ────────────────────────────────────────────────────────────────

/// The calls of the latest calling message that nothing in `shown` answers,
/// a result that answers nothing passed over.
pub open spec fn open_after(shown: Seq<MessageView>) -> Seq<Seq<char>>
    decreases shown.len(),
{
    if shown.len() == 0 {
        Seq::empty()
    } else {
        let open = open_after(shown.drop_last());
        let m = shown.last();
        if m.calls().len() > 0 {
            m.calls()
        } else if m.is_result() {
            match m.call_id {
                Some(id) => without(open, id),
                None => if open.len() > 0 {
                    open.drop_first()
                } else {
                    open
                },
            }
        } else {
            open
        }
    }
}

/// Whether the message at `i` is a result that names no call and that no
/// call before it is open for.
pub open spec fn unattributed(shown: Seq<MessageView>, i: int) -> bool {
    let open = open_after(shown.take(i));
    &&& shown[i].calls().len() == 0
    &&& shown[i].is_result()
    &&& shown[i].call_id is None
    &&& (open.len() == 0 || open[0].len() == 0)
}

/// The first such message.
pub open spec fn first_unattributed(shown: Seq<MessageView>) -> Option<int>
    decreases shown.len(),
{
    if shown.len() == 0 {
        None
    } else {
        match first_unattributed(shown.drop_last()) {
            Some(i) => Some(i),
            None => if unattributed(shown, shown.len() - 1) {
                Some(shown.len() - 1)
            } else {
                None
            },
        }
    }
}

/// Whether mending a breach drops the message at `i`.
pub open spec fn drops(shown: Seq<MessageView>, b: BreachView, i: int) -> bool {
    match b {
        BreachView::Orphan(id) => if id.len() == 0 {
            first_unattributed(shown) == Some(i)
        } else {
            shown[i].is_result() && shown[i].call_id == Some(id)
        },
        BreachView::Unanswered(id) => shown[i].calls().contains(id),
    }
}

// ── Reading messages ────────────────────────────────────────────────────────

/// Whether a list of texts holds a text.
pub fn holds(list: &Vec<String>, text: &str) -> (out: bool)
    ensures
        out == views(list@).contains(text@),
{
    let mut i: usize = 0;
    while i < list.len()
        invariant
            i <= list.len(),
            forall|k: int| 0 <= k < i ==> (#[trigger] list@[k])@ != text@,
        decreases list.len() - i,
    {
        if same_text(list[i].as_str(), text) {
            assert(views(list@)[i as int] == text@);
            return true;
        }
        i += 1;
    }
    assert forall|k: int| 0 <= k < views(list@).len() implies views(list@)[k] != text@ by {
        assert(list@[k]@ != text@);
    }
    false
}

/// The texts of a list other than `text`, in order.
fn leave_out(list: &Vec<String>, text: &str) -> (out: Vec<String>)
    ensures
        views(out@) == without(views(list@), text@),
{
    let mut out: Vec<String> = Vec::new();
    let mut i: usize = 0;
    assert(views(list@).take(0) =~= Seq::empty());
    while i < list.len()
        invariant
            i <= list.len(),
            views(out@) == without(views(list@).take(i as int), text@),
        decreases list.len() - i,
    {
        assert(views(list@).take(i + 1).drop_last() =~= views(list@).take(i as int));
        if !same_text(list[i].as_str(), text) {
            out.push(list[i].clone());
        }
        i += 1;
    }
    assert(views(list@).take(list.len() as int) =~= views(list@));
    out
}

/// Whether some recorded result answers the call with an id.
fn answered_among(records: &Vec<&Message>, id: &str) -> (out: bool)
    ensures
        out == answered_in(views(records@), id@),
{
    let mut i: usize = 0;
    while i < records.len()
        invariant
            i <= records.len(),
            forall|k: int|
                0 <= k < i ==> !((#[trigger] views(records@)[k]).is_result() && views(
                    records@,
                )[k].call_id == Some(id@)),
        decreases records.len() - i,
    {
        let m = records[i];
        assert(views(records@)[i as int] == m@);
        if m.is_result() {
            match &m.tool_call_id {
                Some(answered) => {
                    if same_text(answered.as_str(), id) {
                        return true;
                    }
                },
                None => {},
            }
        }
        i += 1;
    }
    false
}

/// How `shown` breaks a round, if it does; see [`breach`].
pub fn find_breach(shown: &Vec<&Message>, records: &Vec<&Message>) -> (out: Option<RoundBreach>)
    ensures
        match out {
            Some(b) => breach(views(shown@), views(records@)) == Some(b@),
            None => breach(views(shown@), views(records@)) is None,
        },
{
    let mut declared: Vec<String> = Vec::new();
    let mut answered: Vec<String> = Vec::new();
    let mut open: Vec<String> = Vec::new();
    let ghost all = views(shown@);
    let mut i: usize = 0;
    assert(all.take(0) =~= Seq::empty());
    while i < shown.len()
        invariant
            i <= shown.len(),
            all == views(shown@),
            walk(all.take(i as int)) == Ok::<Walk, Seq<char>>(
                Walk { declared: views(declared@), answered: views(answered@), open: views(open@) },
            ),
        decreases shown.len() - i,
    {
        let m = shown[i];
        assert(all.take(i + 1).drop_last() =~= all.take(i as int));
        assert(all.take(i + 1).last() == m@);
        let calls = m.calls();
        if calls.len() > 0 {
            let mut more = calls.clone();
            assert(views(more@) =~= views(calls@));
            declared.append(&mut more);
            open = calls;
        } else if m.is_result() {
            match &m.tool_call_id {
                Some(id) => {
                    if !holds(&declared, id.as_str()) {
                        proof {
                            orphan_stays(all, i + 1);
                        }
                        return Some(RoundBreach::OrphanResult(id.clone()));
                    }
                    answered.push(id.clone());
                    open = leave_out(&open, id.as_str());
                },
                None => {
                    if open.len() == 0 {
                        proof {
                            orphan_stays(all, i + 1);
                        }
                        let none = String::new();
                        assert(none@ =~= Seq::empty());
                        return Some(RoundBreach::OrphanResult(none));
                    }
                    let ghost before = open@;
                    let id = open.remove(0);
                    assert(views(open@) =~= views(before).drop_first());
                    assert(views(before)[0] == id@);
                    answered.push(id);
                },
            }
        }
        i += 1;
    }
    assert(all.take(shown.len() as int) =~= all);
    let mut j: usize = 0;
    assert(views(declared@).take(0) =~= Seq::empty());
    while j < declared.len()
        invariant
            j <= declared.len(),
            all == views(shown@),
            walk(all) == Ok::<Walk, Seq<char>>(
                Walk { declared: views(declared@), answered: views(answered@), open: views(open@) },
            ),
            first_unanswered(views(declared@).take(j as int), views(answered@), views(records@))
                is None,
        decreases declared.len() - j,
    {
        assert(views(declared@).take(j + 1).drop_last() =~= views(declared@).take(j as int));
        assert(views(declared@).take(j + 1).last() == declared@[j as int]@);
        if !holds(&answered, declared[j].as_str()) && answered_among(records, declared[j].as_str()) {
            proof {
                unanswered_stays(views(declared@), views(answered@), views(records@), j + 1);
            }
            return Some(RoundBreach::UnansweredCall(declared[j].clone()));
        }
        j += 1;
    }
    assert(views(declared@).take(declared.len() as int) =~= views(declared@));
    None
}

/// A result that answers nothing among the first `n` messages answers
/// nothing however many follow.
proof fn orphan_stays(shown: Seq<MessageView>, n: int)
    requires
        0 <= n <= shown.len(),
        walk(shown.take(n)) is Err,
    ensures
        walk(shown) == walk(shown.take(n)),
    decreases shown.len() - n,
{
    if n < shown.len() {
        assert(shown.take(n + 1).drop_last() =~= shown.take(n));
        orphan_stays(shown, n + 1);
    } else {
        assert(shown.take(n) =~= shown);
    }
}

/// The first unanswered call among the first `n` is the first of all.
proof fn unanswered_stays(
    calls: Seq<Seq<char>>,
    answered: Seq<Seq<char>>,
    records: Seq<MessageView>,
    n: int,
)
    requires
        0 <= n <= calls.len(),
        first_unanswered(calls.take(n), answered, records) is Some,
    ensures
        first_unanswered(calls, answered, records) == first_unanswered(
            calls.take(n),
            answered,
            records,
        ),
    decreases calls.len() - n,
{
    if n < calls.len() {
        assert(calls.take(n + 1).drop_last() =~= calls.take(n));
        unanswered_stays(calls, answered, records, n + 1);
    } else {
        assert(calls.take(n) =~= calls);
    }
}

/// The place of the first result that names no call and that no call is open
/// for; see [`first_unattributed`].
pub fn find_unattributed(shown: &Vec<&Message>) -> (out: Option<usize>)
    ensures
        match out {
            Some(i) => first_unattributed(views(shown@)) == Some(i as int) && i < shown.len(),
            None => first_unattributed(views(shown@)) is None,
        },
{
    let mut open: Vec<String> = Vec::new();
    let ghost all = views(shown@);
    let mut i: usize = 0;
    assert(all.take(0) =~= Seq::empty());
    while i < shown.len()
        invariant
            i <= shown.len(),
            all == views(shown@),
            views(open@) == open_after(all.take(i as int)),
            first_unattributed(all.take(i as int)) is None,
        decreases shown.len() - i,
    {
        let m = shown[i];
        assert(all.take(i + 1).drop_last() =~= all.take(i as int));
        assert(all.take(i + 1).last() == m@);
        assert(all.take(i + 1).take(i as int) =~= all.take(i as int));
        let calls = m.calls();
        if calls.len() > 0 {
            open = calls;
        } else if m.is_result() {
            match &m.tool_call_id {
                Some(id) => {
                    open = leave_out(&open, id.as_str());
                },
                None => {
                    if open.len() == 0 || same_text(open[0].as_str(), "") {
                        proof {
                            reveal_strlit("");
                            if open.len() > 0 {
                                assert(views(open@)[0] == open@[0]@);
                                assert(open@[0]@ =~= Seq::empty());
                            }
                            unattributed_stays(all, i + 1);
                        }
                        return Some(i);
                    }
                    proof {
                        reveal_strlit("");
                        assert(views(open@)[0] == open@[0]@);
                        if open@[0]@.len() == 0 {
                            assert(open@[0]@ =~= ""@);
                        }
                    }
                    let ghost before = open@;
                    let _ = open.remove(0);
                    assert(views(open@) =~= views(before).drop_first());
                },
            }
        }
        i += 1;
    }
    assert(all.take(shown.len() as int) =~= all);
    None
}

/// The first unattributed message among the first `n` is the first of all.
proof fn unattributed_stays(shown: Seq<MessageView>, n: int)
    requires
        0 <= n <= shown.len(),
        first_unattributed(shown.take(n)) is Some,
    ensures
        first_unattributed(shown) == first_unattributed(shown.take(n)),
    decreases shown.len() - n,
{
    if n < shown.len() {
        assert(shown.take(n + 1).drop_last() =~= shown.take(n));
        unattributed_stays(shown, n + 1);
    } else {
        assert(shown.take(n) =~= shown);
    }
}

} // verus!
