//! Which message of a changed list comes from which of the old one.
//!
//! A list of messages was changed by someone who does not say how. Told from
//! the lists alone: what they begin with alike was left as it was; of the
//! rest, as many messages as can be matched in order come from the old list;
//! where that can be done in several ways, messages that stood together stay
//! together, and then a message that stands where it stood comes from there.
use vstd::prelude::*;
use crate::message::{Message, MessageView};
use crate::seqs::{group_views, views};

verus! {

broadcast use group_views;

// ── Where a message stood ───────────────────────────────────────────────────

/// How far two lists agree, given that they do up to `from`.
pub open spec fn agree_from(shown: Seq<MessageView>, ms: Seq<MessageView>, from: int) -> int
    decreases shown.len() - from,
{
    if 0 <= from < shown.len() && from < ms.len() && shown[from].alike(ms[from]) {
        agree_from(shown, ms, from + 1)
    } else {
        from
    }
}

/// How many messages two lists begin with alike.
pub open spec fn common_start(shown: Seq<MessageView>, ms: Seq<MessageView>) -> int {
    agree_from(shown, ms, 0)
}

/// How far two lists agree from the back, `most` at the most, given that they
/// do up to `from`.
pub open spec fn agree_back(
    shown: Seq<MessageView>,
    ms: Seq<MessageView>,
    most: int,
    from: int,
) -> int
    decreases most - from,
{
    if 0 <= from < most && shown[shown.len() - 1 - from].alike(ms[ms.len() - 1 - from]) {
        agree_back(shown, ms, most, from + 1)
    } else {
        from
    }
}

/// How many messages two lists end with alike, past what they begin with
/// alike.
pub open spec fn common_end(shown: Seq<MessageView>, ms: Seq<MessageView>) -> int {
    let shorter = if shown.len() <= ms.len() {
        shown.len()
    } else {
        ms.len()
    };
    agree_back(shown, ms, shorter - common_start(shown, ms), 0)
}

/// Whether the `i`-th of `ms` stands where `shown` has its `j`-th: at the same
/// place where the lists are equally long, else at the same distance from the
/// front within what they begin with alike, or from the back within what they
/// end with alike.
pub open spec fn in_place(shown: Seq<MessageView>, ms: Seq<MessageView>, i: int, j: int) -> bool {
    if shown.len() == ms.len() {
        i == j
    } else {
        ||| i == j && i < common_start(shown, ms)
        ||| ms.len() - i == shown.len() - j && ms.len() - i <= common_end(shown, ms)
    }
}

// ── What a matching is worth ────────────────────────────────────────────────

/// What speaks for a matching: how many messages it keeps, how many of them
/// follow the one they used to follow, and how many stand where they stood.
/// The first counts before the second, and the second before the third.
#[verifier::ext_equal]
pub struct Score {
    pub kept: nat,
    pub joined: nat,
    pub still: nat,
}

impl Score {
    /// Nothing kept.
    pub open spec fn none() -> Score {
        Score { kept: 0, joined: 0, still: 0 }
    }

    /// Two scores together.
    pub open spec fn plus(self, other: Score) -> Score {
        Score {
            kept: self.kept + other.kept,
            joined: self.joined + other.joined,
            still: self.still + other.still,
        }
    }

    /// Whether no more speaks for it than for the other.
    pub open spec fn at_most(self, other: Score) -> bool {
        ||| self.kept < other.kept
        ||| self.kept == other.kept && self.joined < other.joined
        ||| self.kept == other.kept && self.joined == other.joined && self.still <= other.still
    }
}

/// What it is worth that the `i`-th of `ms` comes from the `j`-th of `shown`.
pub open spec fn worth(
    shown: Seq<MessageView>,
    ms: Seq<MessageView>,
    i: int,
    j: int,
    joined: bool,
) -> Score {
    Score {
        kept: 1,
        joined: if joined {
            1
        } else {
            0
        },
        still: if in_place(shown, ms, i, j) {
            1
        } else {
            0
        },
    }
}

/// Whether places in `shown` are where messages of `ms` can come from: each
/// place holds an equal message, and the places come in order.
pub open spec fn keeps_order(
    shown: Seq<MessageView>,
    ms: Seq<MessageView>,
    places: Seq<Option<int>>,
) -> bool {
    &&& places.len() == ms.len()
    &&& forall|i: int|
        0 <= i < ms.len() ==> (#[trigger] places[i] matches Some(k) ==> 0 <= k < shown.len()
            && shown[k].alike(ms[i]))
    &&& forall|i: int, j: int|
        0 <= i < j < ms.len() && (#[trigger] places[i] is Some) && (#[trigger] places[j] is Some)
            ==> places[i]->0 < places[j]->0
}

/// Whether the `i`-th message follows the one it used to follow.
pub open spec fn follows(places: Seq<Option<int>>, i: int) -> bool {
    &&& i > 0
    &&& places[i] is Some
    &&& places[i - 1] == Some(places[i]->0 - 1)
}

/// What speaks for places, from the `from`-th on.
pub open spec fn tally(
    shown: Seq<MessageView>,
    ms: Seq<MessageView>,
    places: Seq<Option<int>>,
    from: int,
) -> Score
    decreases places.len() - from,
{
    if from < 0 || from >= places.len() {
        Score::none()
    } else {
        let rest = tally(shown, ms, places, from + 1);
        match places[from] {
            Some(k) => worth(shown, ms, from, k, follows(places, from)).plus(rest),
            None => rest,
        }
    }
}

// ── The best there is ───────────────────────────────────────────────────────

/// The most that can speak for matching `ms` from the `i`-th on with `shown`
/// from the `j`-th on; `joined` says whether the one before each is a match.
pub open spec fn best(
    shown: Seq<MessageView>,
    ms: Seq<MessageView>,
    i: int,
    j: int,
    joined: bool,
) -> Score
    decreases (ms.len() - i) + (shown.len() - j),
{
    if i < 0 || j < 0 || i >= ms.len() || j >= shown.len() {
        Score::none()
    } else {
        let fresh = best(shown, ms, i + 1, j, false);
        let gone = best(shown, ms, i, j + 1, false);
        let other = if gone.at_most(fresh) {
            fresh
        } else {
            gone
        };
        let taken = worth(shown, ms, i, j, joined).plus(best(shown, ms, i + 1, j + 1, true));
        if shown[j].alike(ms[i]) && other.at_most(taken) {
            taken
        } else {
            other
        }
    }
}

/// What becomes of the `i`-th of `ms` or the `j`-th of `shown`.
#[derive(Debug, Clone, Copy, PartialEq, Eq, Structural)]
pub enum Move {
    /// The one comes from the other.
    Take,
    /// The message is new.
    Fresh,
    /// What stood there is gone.
    Gone,
}

/// What the best matching makes of the `i`-th of `ms` and the `j`-th of
/// `shown`.
pub open spec fn choice(
    shown: Seq<MessageView>,
    ms: Seq<MessageView>,
    i: int,
    j: int,
    joined: bool,
) -> Move {
    let fresh = best(shown, ms, i + 1, j, false);
    let gone = best(shown, ms, i, j + 1, false);
    let other = if gone.at_most(fresh) {
        fresh
    } else {
        gone
    };
    let taken = worth(shown, ms, i, j, joined).plus(best(shown, ms, i + 1, j + 1, true));
    if shown[j].alike(ms[i]) && other.at_most(taken) {
        Move::Take
    } else if gone.at_most(fresh) {
        Move::Fresh
    } else {
        Move::Gone
    }
}

/// The places that `ms` from the `i`-th on come from, in `shown` from the
/// `j`-th on.
pub open spec fn matched(
    shown: Seq<MessageView>,
    ms: Seq<MessageView>,
    i: int,
    j: int,
    joined: bool,
) -> Seq<Option<int>>
    decreases (ms.len() - i) + (if j < shown.len() {
        shown.len() - j
    } else {
        0
    }),
{
    if i < 0 || j < 0 || i >= ms.len() {
        Seq::empty()
    } else if j >= shown.len() {
        seq![None::<int>] + matched(shown, ms, i + 1, j, false)
    } else {
        match choice(shown, ms, i, j, joined) {
            Move::Take => seq![Some(j)] + matched(shown, ms, i + 1, j + 1, true),
            Move::Fresh => seq![None::<int>] + matched(shown, ms, i + 1, j, false),
            Move::Gone => matched(shown, ms, i, j + 1, false),
        }
    }
}

/// The place in `shown` that each of `ms` comes from, if any.
pub open spec fn kept_places(shown: Seq<MessageView>, ms: Seq<MessageView>) -> Seq<Option<int>> {
    let start = common_start(shown, ms);
    Seq::new(start as nat, |i: int| Some(i)) + matched(shown, ms, start, start, start > 0)
}

// ── Facts ───────────────────────────────────────────────────────────────────

/// Two lists agree up to where [`agree_from`] says, and no further.
pub proof fn agree_from_facts(shown: Seq<MessageView>, ms: Seq<MessageView>, from: int)
    requires
        0 <= from <= shown.len(),
        from <= ms.len(),
    ensures
        ({
            let to = agree_from(shown, ms, from);
            &&& from <= to <= shown.len()
            &&& to <= ms.len()
            &&& forall|k: int| from <= k < to ==> (#[trigger] shown[k]).alike(ms[k])
            &&& to < shown.len() && to < ms.len() ==> !shown[to].alike(ms[to])
        }),
    decreases shown.len() - from,
{
    if from < shown.len() && from < ms.len() && shown[from].alike(ms[from]) {
        agree_from_facts(shown, ms, from + 1);
    }
}

/// What a matching names holds equal messages, in order.
proof fn matched_facts(
    shown: Seq<MessageView>,
    ms: Seq<MessageView>,
    i: int,
    j: int,
    joined: bool,
)
    requires
        0 <= i <= ms.len(),
        0 <= j,
    ensures
        ({
            let places = matched(shown, ms, i, j, joined);
            &&& places.len() == ms.len() - i
            &&& forall|t: int|
                0 <= t < places.len() ==> (#[trigger] places[t] matches Some(k) ==> j <= k
                    < shown.len() && shown[k].alike(ms[i + t]))
            &&& forall|t: int, u: int|
                0 <= t < u < places.len() && (#[trigger] places[t] is Some) && (
                #[trigger] places[u] is Some) ==> places[t]->0 < places[u]->0
        }),
    decreases
            (ms.len() - i) + (if j < shown.len() {
                shown.len() - j
            } else {
                0
            }),
{
    let places = matched(shown, ms, i, j, joined);
    if i < ms.len() {
        if j >= shown.len() {
            matched_facts(shown, ms, i + 1, j, false);
            let rest = matched(shown, ms, i + 1, j, false);
            after_one(shown, ms, None, rest, i, j, j);
        } else {
            match choice(shown, ms, i, j, joined) {
                Move::Take => {
                    matched_facts(shown, ms, i + 1, j + 1, true);
                    let rest = matched(shown, ms, i + 1, j + 1, true);
                    after_one(shown, ms, Some(j), rest, i, j, j + 1);
                },
                Move::Fresh => {
                    matched_facts(shown, ms, i + 1, j, false);
                    let rest = matched(shown, ms, i + 1, j, false);
                    after_one(shown, ms, None, rest, i, j, j);
                },
                Move::Gone => {
                    matched_facts(shown, ms, i, j + 1, false);
                },
            }
        }
    }
}

/// One place before places that come after it.
proof fn after_one(
    shown: Seq<MessageView>,
    ms: Seq<MessageView>,
    first: Option<int>,
    rest: Seq<Option<int>>,
    i: int,
    j: int,
    then: int,
)
    requires
        0 <= i < ms.len(),
        0 <= j <= then,
        rest.len() == ms.len() - i - 1,
        first matches Some(k) ==> k == j && then == j + 1 && j < shown.len() && shown[k].alike(
            ms[i],
        ),
        forall|t: int|
            0 <= t < rest.len() ==> (#[trigger] rest[t] matches Some(k) ==> then <= k < shown.len()
                && shown[k].alike(ms[i + 1 + t])),
        forall|t: int, u: int|
            0 <= t < u < rest.len() && (#[trigger] rest[t] is Some) && (#[trigger] rest[u] is Some)
                ==> rest[t]->0 < rest[u]->0,
    ensures
        ({
            let places = seq![first] + rest;
            &&& places.len() == ms.len() - i
            &&& forall|t: int|
                0 <= t < places.len() ==> (#[trigger] places[t] matches Some(k) ==> j <= k
                    < shown.len() && shown[k].alike(ms[i + t]))
            &&& forall|t: int, u: int|
                0 <= t < u < places.len() && (#[trigger] places[t] is Some) && (
                #[trigger] places[u] is Some) ==> places[t]->0 < places[u]->0
        }),
{
    let places = seq![first] + rest;
    assert forall|t: int| 0 <= t < places.len() implies (#[trigger] places[t] matches Some(k) ==> j
        <= k < shown.len() && shown[k].alike(ms[i + t])) by {
        if t > 0 {
            assert(places[t] == rest[t - 1]);
        }
    }
    assert forall|t: int, u: int|
        0 <= t < u < places.len() && (#[trigger] places[t] is Some) && (#[trigger] places[u]
            is Some) implies places[t]->0 < places[u]->0 by {
        assert(places[u] == rest[u - 1]);
        if t > 0 {
            assert(places[t] == rest[t - 1]);
        }
    }
}

/// The places kept hold equal messages, in order; what the lists begin with
/// alike stays where it is.
pub proof fn kept_places_facts(shown: Seq<MessageView>, ms: Seq<MessageView>)
    ensures
        keeps_order(shown, ms, kept_places(shown, ms)),
        0 <= common_start(shown, ms) <= ms.len(),
        common_start(shown, ms) <= shown.len(),
        forall|i: int|
            0 <= i < common_start(shown, ms) ==> #[trigger] kept_places(shown, ms)[i] == Some(i),
{
    agree_from_facts(shown, ms, 0);
    let start = common_start(shown, ms);
    matched_facts(shown, ms, start, start, start > 0);
    let rest = matched(shown, ms, start, start, start > 0);
    let places = kept_places(shown, ms);
    assert forall|i: int| 0 <= i < ms.len() implies (#[trigger] places[i] matches Some(k) ==> 0 <= k
        < shown.len() && shown[k].alike(ms[i])) by {
        if i >= start {
            assert(places[i] == rest[i - start]);
        } else {
            assert(shown[i].alike(ms[i]));
        }
    }
    assert forall|i: int, j: int|
        0 <= i < j < ms.len() && (#[trigger] places[i] is Some) && (#[trigger] places[j]
            is Some) implies places[i]->0 < places[j]->0 by {
        if j >= start {
            assert(places[j] == rest[j - start]);
            if i >= start {
                assert(places[i] == rest[i - start]);
            }
        }
    }
}

/// No places in order have more to speak for them than the best.
proof fn nothing_beats_the_best(
    shown: Seq<MessageView>,
    ms: Seq<MessageView>,
    places: Seq<Option<int>>,
    i: int,
    j: int,
)
    requires
        keeps_order(shown, ms, places),
        0 <= i <= ms.len(),
        0 <= j <= shown.len(),
        i > 0 && places[i - 1] is Some ==> places[i - 1]->0 < j,
        forall|t: int| i <= t < ms.len() && (#[trigger] places[t] is Some) ==> places[t]->0 >= j,
    ensures
        tally(shown, ms, places, i).at_most(
            best(shown, ms, i, j, i > 0 && places[i - 1] == Some(j - 1)),
        ),
    decreases (ms.len() - i) + (shown.len() - j),
{
    let joined = i > 0 && places[i - 1] == Some(j - 1);
    if i < ms.len() {
        match places[i] {
            None => {
                nothing_beats_the_best(shown, ms, places, i + 1, j);
            },
            Some(k) => {
                if k == j {
                    assert forall|t: int|
                        i + 1 <= t < ms.len() && (#[trigger] places[t]
                            is Some) implies places[t]->0 >= j + 1 by {
                        assert(places[i] is Some);
                    }
                    nothing_beats_the_best(shown, ms, places, i + 1, j + 1);
                } else {
                    assert forall|t: int|
                        i <= t < ms.len() && (#[trigger] places[t]
                            is Some) implies places[t]->0 >= j + 1 by {
                        assert(places[i] is Some);
                    }
                    nothing_beats_the_best(shown, ms, places, i, j + 1);
                }
            },
        }
    }
}

/// The matching has as much to speak for it as the best.
proof fn the_match_is_the_best(
    shown: Seq<MessageView>,
    ms: Seq<MessageView>,
    places: Seq<Option<int>>,
    i: int,
    j: int,
)
    requires
        places.len() == ms.len(),
        0 <= i <= ms.len(),
        0 <= j <= shown.len(),
        i > 0 && places[i - 1] is Some ==> places[i - 1]->0 < j,
        places.skip(i) == matched(shown, ms, i, j, i > 0 && places[i - 1] == Some(j - 1)),
    ensures
        tally(shown, ms, places, i) == best(
            shown,
            ms,
            i,
            j,
            i > 0 && places[i - 1] == Some(j - 1),
        ),
    decreases (ms.len() - i) + (shown.len() - j),
{
    let joined = i > 0 && places[i - 1] == Some(j - 1);
    if i < ms.len() {
        let here = places.skip(i);
        assert(here[0] == places[i]);
        assert(here.skip(1) =~= places.skip(i + 1));
        if j >= shown.len() {
            let rest = matched(shown, ms, i + 1, j, false);
            assert((seq![None::<int>] + rest).skip(1) =~= rest);
            the_match_is_the_best(shown, ms, places, i + 1, j);
        } else {
            match choice(shown, ms, i, j, joined) {
                Move::Take => {
                    let rest = matched(shown, ms, i + 1, j + 1, true);
                    assert((seq![Some(j)] + rest).skip(1) =~= rest);
                    the_match_is_the_best(shown, ms, places, i + 1, j + 1);
                },
                Move::Fresh => {
                    let rest = matched(shown, ms, i + 1, j, false);
                    assert((seq![None::<int>] + rest).skip(1) =~= rest);
                    the_match_is_the_best(shown, ms, places, i + 1, j);
                },
                Move::Gone => {
                    the_match_is_the_best(shown, ms, places, i, j + 1);
                },
            }
        }
    }
}

/// How many messages can be kept at most.
spec fn most(shown: Seq<MessageView>, ms: Seq<MessageView>, i: int, j: int) -> nat {
    best(shown, ms, i, j, false).kept
}

/// How many can be kept does not depend on what is joined, and one message
/// more, on either side, is worth one at most.
proof fn most_facts(shown: Seq<MessageView>, ms: Seq<MessageView>, i: int, j: int)
    requires
        0 <= i <= ms.len(),
        0 <= j <= shown.len(),
    ensures
        best(shown, ms, i, j, true).kept == most(shown, ms, i, j),
        i < ms.len() ==> most(shown, ms, i + 1, j) <= most(shown, ms, i, j) <= 1 + most(
            shown,
            ms,
            i + 1,
            j,
        ),
        j < shown.len() ==> most(shown, ms, i, j + 1) <= most(shown, ms, i, j) <= 1 + most(
            shown,
            ms,
            i,
            j + 1,
        ),
    decreases (ms.len() - i) + (shown.len() - j),
{
    if i < ms.len() && j < shown.len() {
        most_facts(shown, ms, i + 1, j);
        most_facts(shown, ms, i, j + 1);
        most_facts(shown, ms, i + 1, j + 1);
    }
}

/// What the lists begin with alike costs nothing to leave where it is.
proof fn the_start_is_free(shown: Seq<MessageView>, ms: Seq<MessageView>, n: int)
    requires
        0 <= n <= ms.len(),
        n <= shown.len(),
    ensures
        most(shown, ms, 0, 0) <= n + most(shown, ms, n, n),
    decreases n,
{
    if n > 0 {
        the_start_is_free(shown, ms, n - 1);
        most_facts(shown, ms, n - 1, n);
        most_facts(shown, ms, n, n - 1);
        most_facts(shown, ms, n, n);
    }
}

/// Places that begin alike are worth the same there.
proof fn tally_of_the_start(
    shown: Seq<MessageView>,
    ms: Seq<MessageView>,
    a: Seq<Option<int>>,
    b: Seq<Option<int>>,
    from: int,
    to: int,
)
    requires
        a.len() == b.len(),
        0 <= from <= to <= a.len(),
        forall|i: int| 0 <= i < to ==> a[i] == b[i],
        tally(shown, ms, a, to).at_most(tally(shown, ms, b, to)),
    ensures
        tally(shown, ms, a, from).at_most(tally(shown, ms, b, from)),
    decreases to - from,
{
    if from < to {
        tally_of_the_start(shown, ms, a, b, from + 1, to);
    }
}

/// How many of the places from the `from`-th on are places.
proof fn start_is_kept(
    shown: Seq<MessageView>,
    ms: Seq<MessageView>,
    places: Seq<Option<int>>,
    from: int,
    to: int,
)
    requires
        0 <= from <= to <= places.len(),
        forall|i: int| from <= i < to ==> #[trigger] places[i] is Some,
    ensures
        tally(shown, ms, places, from).kept == (to - from) + tally(shown, ms, places, to).kept,
    decreases to - from,
{
    if from < to {
        start_is_kept(shown, ms, places, from + 1, to);
    }
}

// ── Laws ────────────────────────────────────────────────────────────────────

/// No way to match two lists in order keeps more messages.
pub proof fn nothing_keeps_more(
    shown: Seq<MessageView>,
    ms: Seq<MessageView>,
    places: Seq<Option<int>>,
)
    requires
        keeps_order(shown, ms, places),
    ensures
        tally(shown, ms, places, 0).kept <= tally(shown, ms, kept_places(shown, ms), 0).kept,
{
    let start = common_start(shown, ms);
    let own = kept_places(shown, ms);
    kept_places_facts(shown, ms);
    nothing_beats_the_best(shown, ms, places, 0, 0);
    the_start_is_free(shown, ms, start);
    matched_facts(shown, ms, start, start, start > 0);
    assert(own.skip(start) =~= matched(shown, ms, start, start, start > 0));
    assert(start > 0 ==> own[start - 1] == Some(start - 1));
    the_match_is_the_best(shown, ms, own, start, start);
    most_facts(shown, ms, start, start);
    start_is_kept(shown, ms, own, 0, start);
}

/// Past what the lists begin with alike, nothing has more to speak for it.
proof fn worth_past_the_start(
    shown: Seq<MessageView>,
    ms: Seq<MessageView>,
    places: Seq<Option<int>>,
)
    requires
        keeps_order(shown, ms, places),
        forall|i: int| 0 <= i < common_start(shown, ms) ==> #[trigger] places[i] == Some(i),
    ensures
        tally(shown, ms, places, common_start(shown, ms)).at_most(
            tally(shown, ms, kept_places(shown, ms), common_start(shown, ms)),
        ),
{
    let start = common_start(shown, ms);
    let own = kept_places(shown, ms);
    kept_places_facts(shown, ms);
    assert(start > 0 ==> places[start - 1] == Some(start - 1));
    assert(start > 0 ==> own[start - 1] == Some(start - 1));
    assert forall|t: int|
        start <= t < ms.len() && (#[trigger] places[t] is Some) implies places[t]->0 >= start by {
        if start > 0 {
            assert(places[start - 1] is Some);
        }
    }
    nothing_beats_the_best(shown, ms, places, start, start);
    matched_facts(shown, ms, start, start, start > 0);
    assert(own.skip(start) =~= matched(shown, ms, start, start, start > 0));
    the_match_is_the_best(shown, ms, own, start, start);
}

/// Of the ways to match two lists in order that leave what they begin with
/// alike where it is, none that keeps as many messages leaves more of them
/// following the one they followed, and none that does leaves more of them
/// where they stood.
pub proof fn nothing_is_worth_more(
    shown: Seq<MessageView>,
    ms: Seq<MessageView>,
    places: Seq<Option<int>>,
)
    requires
        keeps_order(shown, ms, places),
        forall|i: int| 0 <= i < common_start(shown, ms) ==> #[trigger] places[i] == Some(i),
    ensures
        tally(shown, ms, places, 0).at_most(tally(shown, ms, kept_places(shown, ms), 0)),
{
    let start = common_start(shown, ms);
    let own = kept_places(shown, ms);
    kept_places_facts(shown, ms);
    worth_past_the_start(shown, ms, places);
    assert forall|i: int| 0 <= i < start implies places[i] == own[i] by {
        assert(places[i] == Some(i));
        assert(own[i] == Some(i));
    }
    tally_of_the_start(shown, ms, places, own, 0, start);
}

/// What a tally counts.
proof fn tally_counts(
    shown: Seq<MessageView>,
    ms: Seq<MessageView>,
    places: Seq<Option<int>>,
    from: int,
)
    requires
        0 <= from <= places.len(),
    ensures
        ({
            let t = tally(shown, ms, places, from);
            &&& t.still <= t.kept <= places.len() - from
            &&& t.joined <= t.kept
            &&& t.kept == places.len() - from ==> forall|i: int|
                from <= i < places.len() ==> #[trigger] places[i] is Some
            &&& t.still == t.kept ==> forall|i: int|
                from <= i < places.len() ==> (#[trigger] places[i] matches Some(k) ==> in_place(
                    shown,
                    ms,
                    i,
                    k,
                ))
        }),
    decreases places.len() - from,
{
    if from < places.len() {
        tally_counts(shown, ms, places, from + 1);
    }
}

/// An edit that only drops messages drops records and makes none.
pub proof fn dropping_makes_nothing_new(
    shown: Seq<MessageView>,
    ms: Seq<MessageView>,
    places: Seq<Option<int>>,
)
    requires
        keeps_order(shown, ms, places),
        forall|i: int| 0 <= i < ms.len() ==> #[trigger] places[i] is Some,
    ensures
        forall|i: int| 0 <= i < ms.len() ==> #[trigger] kept_places(shown, ms)[i] is Some,
{
    let own = kept_places(shown, ms);
    kept_places_facts(shown, ms);
    nothing_keeps_more(shown, ms, places);
    start_is_kept(shown, ms, places, 0, places.len() as int);
    tally_counts(shown, ms, own, 0);
}

/// Places that keep no message but where it stood, and all that the others
/// keep, are worth no less.
proof fn staying_is_worth_it(
    shown: Seq<MessageView>,
    ms: Seq<MessageView>,
    own: Seq<Option<int>>,
    stay: Seq<Option<int>>,
    from: int,
)
    requires
        shown.len() == ms.len(),
        own.len() == ms.len(),
        stay.len() == ms.len(),
        0 <= from <= ms.len(),
        forall|i: int| 0 <= i < ms.len() ==> (#[trigger] stay[i] matches Some(k) ==> k == i),
        forall|i: int| 0 <= i < ms.len() && (#[trigger] own[i] is Some) ==> stay[i] is Some,
    ensures
        ({
            let a = tally(shown, ms, own, from);
            let b = tally(shown, ms, stay, from);
            &&& a.kept <= b.kept
            &&& a.joined <= b.joined
            &&& a.still <= a.kept
            &&& b.still == b.kept
            &&& a.still == b.kept ==> forall|i: int|
                from <= i < ms.len() && (#[trigger] stay[i] is Some) ==> own[i] == stay[i]
        }),
    decreases ms.len() - from,
{
    if from < ms.len() {
        staying_is_worth_it(shown, ms, own, stay, from + 1);
        if follows(own, from) {
            assert(own[from] is Some);
            assert(own[from - 1] is Some);
            assert(stay[from] is Some);
            assert(stay[from - 1] is Some);
        }
        let a = tally(shown, ms, own, from + 1);
        let b = tally(shown, ms, stay, from + 1);
        if tally(shown, ms, own, from).still == tally(shown, ms, stay, from).kept {
            assert forall|i: int|
                from <= i < ms.len() && (#[trigger] stay[i] is Some) implies own[i] == stay[i] by {
                if i == from {
                    assert(own[from] is Some);
                    assert(in_place(shown, ms, from, own[from]->0));
                }
            }
        }
    }
}

/// Where messages were rewritten in place, to read like none that was shown,
/// all the others stay where they stood.
pub proof fn what_is_not_rewritten_stays(shown: Seq<MessageView>, ms: Seq<MessageView>)
    requires
        shown.len() == ms.len(),
        forall|i: int|
            0 <= i < ms.len() ==> (#[trigger] shown[i]).alike(ms[i]) || !exists|k: int|
                0 <= k < shown.len() && (#[trigger] shown[k]).alike(ms[i]),
    ensures
        forall|i: int|
            0 <= i < ms.len() && shown[i].alike(ms[i]) ==> #[trigger] kept_places(shown, ms)[i]
                == Some(i),
{
    let own = kept_places(shown, ms);
    kept_places_facts(shown, ms);
    agree_from_facts(shown, ms, 0);
    let stay = Seq::new(
        ms.len(),
        |i: int|
            if shown[i].alike(ms[i]) {
                Some(i)
            } else {
                None
            },
    );
    assert forall|i: int| 0 <= i < common_start(shown, ms) implies #[trigger] stay[i] == Some(
        i,
    ) by {
        assert(shown[i].alike(ms[i]));
    }
    assert(keeps_order(shown, ms, stay));
    nothing_is_worth_more(shown, ms, stay);
    assert forall|i: int| 0 <= i < ms.len() && (#[trigger] own[i] is Some) implies stay[i]
        is Some by {
        assert(shown[own[i]->0].alike(ms[i]));
        assert(shown[i] == shown[i]);
    }
    staying_is_worth_it(shown, ms, own, stay, 0);
    assert forall|i: int| 0 <= i < ms.len() && shown[i].alike(ms[i]) implies #[trigger] own[i]
        == Some(i) by {
        assert(stay[i] is Some);
    }
}

/// The first of a run does not follow.
proof fn a_run_begins(
    shown: Seq<MessageView>,
    ms: Seq<MessageView>,
    places: Seq<Option<int>>,
    from: int,
)
    requires
        0 <= from < places.len(),
        !follows(places, from),
        tally(shown, ms, places, from).kept > 0,
    ensures
        tally(shown, ms, places, from).joined < tally(shown, ms, places, from).kept,
    decreases places.len() - from,
{
    tally_counts(shown, ms, places, from + 1);
    if places[from] is None && from + 1 < places.len() {
        a_run_begins(shown, ms, places, from + 1);
    }
}

/// One run to the end, all of it in place.
proof fn a_run_to_the_end(
    shown: Seq<MessageView>,
    ms: Seq<MessageView>,
    places: Seq<Option<int>>,
    from: int,
)
    requires
        shown.len() == ms.len(),
        0 <= from < places.len(),
        forall|i: int| from <= i < places.len() ==> #[trigger] places[i] == Some(i),
    ensures
        ({
            let t = tally(shown, ms, places, from);
            &&& t.kept == places.len() - from
            &&& t.still == t.kept
            &&& t.joined == t.kept - (if follows(places, from) {
                0int
            } else {
                1int
            })
        }),
    decreases places.len() - from,
{
    assert(places[from] == Some(from));
    if from + 1 < places.len() {
        assert(places[from + 1] == Some(from + 1));
        a_run_to_the_end(shown, ms, places, from + 1);
        assert(follows(places, from + 1));
    } else {
        assert(tally(shown, ms, places, from + 1) == Score::none());
    }
}

/// Places in order, none left out, rise by one at least.
proof fn places_climb(
    shown: Seq<MessageView>,
    ms: Seq<MessageView>,
    places: Seq<Option<int>>,
    from: int,
    to: int,
)
    requires
        keeps_order(shown, ms, places),
        0 <= from <= to < ms.len(),
        forall|i: int| from <= i < ms.len() ==> #[trigger] places[i] is Some,
    ensures
        places[to]->0 >= places[from]->0 + (to - from),
    decreases to - from,
{
    if from < to {
        places_climb(shown, ms, places, from, to - 1);
        assert(places[to - 1] is Some);
        assert(places[to] is Some);
    }
}

/// Where one message was rewritten in place, whatever it reads now, all the
/// others stay where they stood.
pub proof fn rewriting_one_leaves_the_others(
    shown: Seq<MessageView>,
    ms: Seq<MessageView>,
    at: int,
)
    requires
        shown.len() == ms.len(),
        0 <= at < ms.len(),
        forall|i: int| 0 <= i < ms.len() && i != at ==> (#[trigger] shown[i]).alike(ms[i]),
    ensures
        forall|i: int|
            0 <= i < ms.len() && i != at ==> #[trigger] kept_places(shown, ms)[i] == Some(i),
{
    let own = kept_places(shown, ms);
    let n = ms.len() as int;
    let start = common_start(shown, ms);
    kept_places_facts(shown, ms);
    agree_from_facts(shown, ms, 0);
    if start < n {
        assert(start == at) by {
            if start < at {
                assert(shown[start].alike(ms[start]));
            }
            if start > at {
                assert(!shown[start].alike(ms[start]));
            }
        }
        let stay = Seq::new(
            ms.len(),
            |i: int|
                if i == at {
                    None
                } else {
                    Some(i)
                },
        );
        assert(keeps_order(shown, ms, stay)) by {
            assert forall|i: int| 0 <= i < ms.len() implies (#[trigger] stay[i] matches Some(k)
                ==> 0 <= k < shown.len() && shown[k].alike(ms[i])) by {
                if i != at {
                    assert(shown[i].alike(ms[i]));
                }
            }
        }
        worth_past_the_start(shown, ms, stay);
        tally_counts(shown, ms, own, at);
        let a = tally(shown, ms, own, at);
        let b = tally(shown, ms, stay, at);
        if at + 1 < n {
            a_run_to_the_end(shown, ms, stay, at + 1);
            assert(stay[at] is None);
            if a.kept == n - at {
                places_climb(shown, ms, own, at, n - 1);
                assert(own[at] is Some);
                assert(own[n - 1] is Some);
                if at > 0 {
                    assert(own[at - 1] == Some(at - 1));
                }
                assert(own[at]->0 == at);
                assert(false);
            }
            if follows(own, at) {
                assert(own[at - 1] == Some(at - 1));
                assert(own[at] == Some(at));
                assert(false);
            }
            a_run_begins(shown, ms, own, at);
            assert(a.still == a.kept);
            assert(own[at] is None) by {
                if own[at] is Some {
                    assert(in_place(shown, ms, at, own[at]->0));
                }
            }
            assert(tally(shown, ms, own, at + 1).kept == n - at - 1);
            tally_counts(shown, ms, own, at + 1);
            assert forall|i: int| 0 <= i < ms.len() && i != at implies #[trigger] own[i] == Some(
                i,
            ) by {
                if i > at {
                    assert(own[i] is Some);
                    assert(in_place(shown, ms, i, own[i]->0));
                }
            }
        }
    }
}

/// A message moved earlier than one that stays, and that it used to follow
/// wherever it stood, is new.
pub proof fn a_message_moved_earlier_is_new(
    shown: Seq<MessageView>,
    ms: Seq<MessageView>,
    i: int,
    j: int,
)
    requires
        0 <= i < j < ms.len(),
        kept_places(shown, ms)[j] is Some,
        forall|k: int|
            0 <= k < shown.len() && (#[trigger] shown[k]).alike(ms[i]) ==> k > kept_places(
                shown,
                ms,
            )[j]->0,
    ensures
        kept_places(shown, ms)[i] is None,
{
    let own = kept_places(shown, ms);
    kept_places_facts(shown, ms);
    if own[i] is Some {
        assert(shown[own[i]->0].alike(ms[i]));
    }
}

// ── Finding it ──────────────────────────────────────────────────────────────

/// A score to compute with.
#[derive(Debug, Clone, Copy)]
struct Tally {
    kept: usize,
    joined: usize,
    still: usize,
}

impl View for Tally {
    type V = Score;

    closed spec fn view(&self) -> Score {
        Score { kept: self.kept as nat, joined: self.joined as nat, still: self.still as nat }
    }
}

impl Tally {
    fn none() -> (out: Self)
        ensures
            out@ == Score::none(),
    {
        Tally { kept: 0, joined: 0, still: 0 }
    }

    fn at_most(&self, other: &Tally) -> (out: bool)
        ensures
            out == self@.at_most(other@),
    {
        self.kept < other.kept || (self.kept == other.kept && (self.joined < other.joined || (
        self.joined == other.joined && self.still <= other.still)))
    }
}

/// No more can be kept than there are messages.
proof fn best_is_bounded(
    shown: Seq<MessageView>,
    ms: Seq<MessageView>,
    i: int,
    j: int,
    joined: bool,
)
    requires
        0 <= i <= ms.len(),
        0 <= j <= shown.len(),
    ensures
        best(shown, ms, i, j, joined).kept <= ms.len() - i,
        best(shown, ms, i, j, joined).joined <= ms.len() - i,
        best(shown, ms, i, j, joined).still <= ms.len() - i,
    decreases (ms.len() - i) + (shown.len() - j),
{
    if i < ms.len() && j < shown.len() {
        best_is_bounded(shown, ms, i + 1, j, false);
        best_is_bounded(shown, ms, i, j + 1, false);
        best_is_bounded(shown, ms, i + 1, j + 1, true);
    }
}

/// How many messages two lists begin with alike, and how many they end with
/// alike past those.
fn agreement(shown: &Vec<Message>, messages: &Vec<Message>) -> (out: (usize, usize))
    ensures
        out.0 == common_start(views(shown@), views(messages@)),
        out.1 == common_end(views(shown@), views(messages@)),
{
    let ghost old = views(shown@);
    let ghost ms = views(messages@);
    let n: usize = shown.len();
    let shorter: usize = if n <= messages.len() {
        n
    } else {
        messages.len()
    };
    let mut front: usize = 0;
    while front < shorter && shown[front].same(&messages[front])
        invariant
            front <= shorter <= n,
            shorter <= messages.len(),
            shorter == n || shorter == messages.len(),
            n == shown.len(),
            old == views(shown@),
            ms == views(messages@),
            agree_from(old, ms, 0) == agree_from(old, ms, front as int),
        decreases shorter - front,
    {
        assert(old[front as int] == shown@[front as int]@);
        assert(ms[front as int] == messages@[front as int]@);
        front += 1;
    }
    assert(front < shorter ==> old[front as int] == shown@[front as int]@);
    assert(front < shorter ==> ms[front as int] == messages@[front as int]@);
    assert(front == common_start(old, ms));
    let most: usize = shorter - front;
    let mut back: usize = 0;
    while back < most && shown[n - 1 - back].same(&messages[messages.len() - 1 - back])
        invariant
            back <= most <= n,
            most <= messages.len(),
            n == shown.len(),
            old == views(shown@),
            ms == views(messages@),
            agree_back(old, ms, most as int, 0) == agree_back(old, ms, most as int, back as int),
        decreases most - back,
    {
        assert(old[n - 1 - back] == shown@[n - 1 - back]@);
        assert(ms[messages.len() - 1 - back] == messages@[messages.len() - 1 - back]@);
        back += 1;
    }
    assert(back < most ==> old[n - 1 - back] == shown@[n - 1 - back]@);
    assert(back < most ==> ms[messages.len() - 1 - back] == messages@[messages.len() - 1 - back]@);
    (front, back)
}

/// Whether a message stands where the other does, given the lengths and the
/// [`agreement`].
fn stands(n: usize, m: usize, same: (usize, usize), i: usize, j: usize) -> (out: bool)
    requires
        i < m,
        j < n,
    ensures
        forall|shown: Seq<MessageView>, ms: Seq<MessageView>|
            #![trigger in_place(shown, ms, i as int, j as int)]
            shown.len() == n && ms.len() == m && same.0 == common_start(shown, ms) && same.1
                == common_end(shown, ms) ==> out == in_place(shown, ms, i as int, j as int),
{
    if n == m {
        i == j
    } else {
        (i == j && i < same.0) || (m - i == n - j && m - i <= same.1)
    }
}

/// The moves for one message and one old one, joined and not, with what they
/// come to.
#[derive(Debug, Clone, Copy)]
struct Cell {
    alone: Tally,
    joined: Tally,
    alone_move: Move,
    joined_move: Move,
}

impl Cell {
    /// A cell where nothing is left to match.
    fn empty() -> (out: Self)
        ensures
            out.alone@ == Score::none(),
            out.joined@ == Score::none(),
    {
        Cell {
            alone: Tally::none(),
            joined: Tally::none(),
            alone_move: Move::Fresh,
            joined_move: Move::Fresh,
        }
    }

    /// Whether the cell is what `i` and `j` come to.
    spec fn at(&self, shown: Seq<MessageView>, ms: Seq<MessageView>, i: int, j: int) -> bool {
        &&& self.alone@ == best(shown, ms, i, j, false)
        &&& self.joined@ == best(shown, ms, i, j, true)
        &&& i < ms.len() && j < shown.len() ==> {
            &&& self.alone_move == choice(shown, ms, i, j, false)
            &&& self.joined_move == choice(shown, ms, i, j, true)
        }
    }
}

/// The better of a match, if there is one, and the two ways without.
fn weigh(taken: Option<Tally>, fresh: Tally, gone: Tally) -> (out: (Tally, Move))
    ensures
        ({
            let other = if gone@.at_most(fresh@) {
                fresh@
            } else {
                gone@
            };
            if taken matches Some(t) && other.at_most(t@) {
                taken matches Some(t) && out.0@ == t@ && out.1 == Move::Take
            } else {
                out.0@ == other && out.1 == (if gone@.at_most(fresh@) {
                    Move::Fresh
                } else {
                    Move::Gone
                })
            }
        }),
{
    let (other, other_move) = if gone.at_most(&fresh) {
        (fresh, Move::Fresh)
    } else {
        (gone, Move::Gone)
    };
    match taken {
        Some(t) => if other.at_most(&t) {
            (t, Move::Take)
        } else {
            (other, other_move)
        },
        None => (other, other_move),
    }
}

/// Whether a row holds what the `i`-th message comes to, the last old one
/// first.
spec fn row_at(
    row: Seq<Cell>,
    shown: Seq<MessageView>,
    ms: Seq<MessageView>,
    i: int,
    len: int,
) -> bool {
    &&& row.len() == len
    &&& forall|b: int| 0 <= b < len ==> (#[trigger] row[b]).at(shown, ms, i, shown.len() - b)
}

/// What one message and one old one come to, from the cells past them.
fn cell(
    same: bool,
    still: bool,
    fresh: Tally,
    gone: Tally,
    past: Tally,
) -> (out: Cell)
    requires
        past.kept < usize::MAX,
        past.joined < usize::MAX,
        past.still < usize::MAX,
    ensures
        forall|shown: Seq<MessageView>, ms: Seq<MessageView>, i: int, j: int|
            #![trigger out.at(shown, ms, i, j)]
            0 <= i < ms.len() && 0 <= j < shown.len() && same == shown[j].alike(ms[i]) && still
                == in_place(shown, ms, i, j) && fresh@ == best(shown, ms, i + 1, j, false) && gone@
                == best(shown, ms, i, j + 1, false) && past@ == best(
                shown,
                ms,
                i + 1,
                j + 1,
                true,
            ) ==> out.at(shown, ms, i, j),
{
    let (alone, joined) = if same {
        let more: usize = if still {
            1
        } else {
            0
        };
        (
            Some(Tally { kept: past.kept + 1, joined: past.joined, still: past.still + more }),
            Some(Tally { kept: past.kept + 1, joined: past.joined + 1, still: past.still + more }),
        )
    } else {
        (None, None)
    };
    let (alone, alone_move) = weigh(alone, fresh, gone);
    let (joined, joined_move) = weigh(joined, fresh, gone);
    let out = Cell { alone, joined, alone_move, joined_move };
    proof {
        assert forall|shown: Seq<MessageView>, ms: Seq<MessageView>, i: int, j: int|
            #![trigger out.at(shown, ms, i, j)]
            0 <= i < ms.len() && 0 <= j < shown.len() && same == shown[j].alike(ms[i]) && still
                == in_place(shown, ms, i, j) && fresh@ == best(shown, ms, i + 1, j, false) && gone@
                == best(shown, ms, i, j + 1, false) && past@ == best(
                shown,
                ms,
                i + 1,
                j + 1,
                true,
            ) implies out.at(shown, ms, i, j) by {
            let after = best(shown, ms, i + 1, j + 1, true);
            let a = worth(shown, ms, i, j, false).plus(after);
            let b = worth(shown, ms, i, j, true).plus(after);
        }
    }
    out
}

/// The row of the `i`-th message, from the row below it.
fn row(
    shown: &Vec<Message>,
    messages: &Vec<Message>,
    same: (usize, usize),
    i: usize,
    below: &Vec<Cell>,
) -> (out: Vec<Cell>)
    requires
        i < messages.len(),
        same.0 == common_start(views(shown@), views(messages@)),
        same.1 == common_end(views(shown@), views(messages@)),
        1 <= below.len() <= shown.len() + 1,
        row_at(below@, views(shown@), views(messages@), i + 1, below.len() as int),
    ensures
        row_at(out@, views(shown@), views(messages@), i as int, below.len() as int),
{
    let ghost old = views(shown@);
    let ghost ms = views(messages@);
    let n: usize = shown.len();
    let mut out: Vec<Cell> = Vec::new();
    out.push(Cell::empty());
    assert(out@[0].at(old, ms, i as int, old.len() as int));
    let mut b: usize = 1;
    while b < below.len()
        invariant
            1 <= b <= below.len() <= n + 1,
            n == shown.len(),
            i < messages.len(),
            old == views(shown@),
            ms == views(messages@),
            same.0 == common_start(old, ms),
            same.1 == common_end(old, ms),
            row_at(below@, old, ms, i + 1, below.len() as int),
            row_at(out@, old, ms, i as int, b as int),
        decreases below.len() - b,
    {
        let j: usize = n - b;
        assert(old[j as int] == shown@[j as int]@);
        assert(ms[i as int] == messages@[i as int]@);
        assert(below@[b as int].at(old, ms, i + 1, old.len() - b));
        assert(below@[b - 1].at(old, ms, i + 1, old.len() - (b - 1)));
        assert(out@[b - 1].at(old, ms, i as int, old.len() - (b - 1)));
        proof {
            best_is_bounded(old, ms, i + 1, j + 1, true);
        }
        let still = stands(n, messages.len(), same, i, j);
        let equal = shown[j].same(&messages[i]);
        let next = cell(equal, still, below[b].alone, out[b - 1].alone, below[b - 1].joined);
        assert(next.at(old, ms, i as int, j as int));
        let ghost before = out@;
        out.push(next);
        assert forall|k: int| 0 <= k < b + 1 implies (#[trigger] out@[k]).at(
            old,
            ms,
            i as int,
            old.len() - k,
        ) by {
            if k < b {
                assert(before[k].at(old, ms, i as int, old.len() - k));
            }
        }
        b += 1;
    }
    out
}

/// A slot as a place in a sequence.
pub open spec fn slot_place(slot: Option<usize>) -> Option<int> {
    match slot {
        Some(k) => Some(k as int),
        None => None,
    }
}

/// Slots as places in a sequence.
pub open spec fn slot_places(slots: Seq<Option<usize>>) -> Seq<Option<int>> {
    slots.map_values(|slot: Option<usize>| slot_place(slot))
}

/// The place in `shown` that each of `messages` comes from, if any.
pub fn find_kept(shown: &Vec<Message>, messages: &Vec<Message>) -> (out: Vec<Option<usize>>)
    ensures
        slot_places(out@) == kept_places(views(shown@), views(messages@)),
{
    let ghost old = views(shown@);
    let ghost ms = views(messages@);
    let n: usize = shown.len();
    let m: usize = messages.len();
    let same = agreement(shown, messages);
    let start: usize = same.0;
    proof {
        kept_places_facts(old, ms);
    }
    let width: usize = n - start;
    let mut rows: Vec<Vec<(Move, Move)>> = Vec::new();
    let mut below: Vec<Cell> = Vec::new();
    below.push(Cell::empty());
    let mut b: usize = 0;
    while b < width
        invariant
            b <= width <= n,
            old.len() == n,
            row_at(below@, old, ms, ms.len() as int, b + 1),
        decreases width - b,
    {
        let ghost before = below@;
        below.push(Cell::empty());
        assert forall|k: int| 0 <= k < b + 2 implies (#[trigger] below@[k]).at(
            old,
            ms,
            ms.len() as int,
            old.len() - k,
        ) by {
            if k < b + 1 {
                assert(before[k].at(old, ms, ms.len() as int, old.len() - k));
            }
        }
        b += 1;
    }
    let mut i: usize = m;
    while i > start
        invariant
            start <= i <= m,
            n == shown.len(),
            m == messages.len(),
            width == n - start,
            old == views(shown@),
            ms == views(messages@),
            same.0 == common_start(old, ms),
            same.1 == common_end(old, ms),
            start <= n,
            row_at(below@, old, ms, i as int, width + 1),
            rows.len() == m - i,
            forall|k: int|
                0 <= k < rows.len() ==> moves_at(
                    (#[trigger] rows@[k])@,
                    old,
                    ms,
                    m - 1 - k,
                    width + 1,
                ),
        decreases i,
    {
        i -= 1;
        below = row(shown, messages, same, i, &below);
        let ghost before = rows@;
        rows.push(moves_of(shown, messages, i, &below));
        assert forall|k: int| 0 <= k < rows.len() implies moves_at(
            (#[trigger] rows@[k])@,
            old,
            ms,
            m - 1 - k,
            width + 1,
        ) by {
            if k < before.len() {
                assert(rows@[k] == before[k]);
            }
        }
    }
    walk(shown, messages, start, &rows)
}

/// Whether moves are those of the `i`-th message, the last old one first.
spec fn moves_at(
    moves: Seq<(Move, Move)>,
    shown: Seq<MessageView>,
    ms: Seq<MessageView>,
    i: int,
    len: int,
) -> bool {
    &&& moves.len() == len
    &&& forall|b: int|
        1 <= b < len ==> #[trigger] moves[b] == (
            choice(shown, ms, i, shown.len() - b, false),
            choice(shown, ms, i, shown.len() - b, true),
        )
}

/// The moves of a row.
fn moves_of(
    shown: &Vec<Message>,
    messages: &Vec<Message>,
    i: usize,
    row: &Vec<Cell>,
) -> (out: Vec<(Move, Move)>)
    requires
        i < messages.len(),
        row.len() <= shown.len() + 1,
        row_at(row@, views(shown@), views(messages@), i as int, row.len() as int),
    ensures
        moves_at(out@, views(shown@), views(messages@), i as int, row.len() as int),
{
    let ghost old = views(shown@);
    let ghost ms = views(messages@);
    let mut out: Vec<(Move, Move)> = Vec::new();
    let mut b: usize = 0;
    while b < row.len()
        invariant
            b <= row.len() <= old.len() + 1,
            i < ms.len(),
            row_at(row@, old, ms, i as int, row.len() as int),
            moves_at(out@, old, ms, i as int, b as int),
        decreases row.len() - b,
    {
        assert(row@[b as int].at(old, ms, i as int, old.len() - b));
        let ghost before = out@;
        out.push((row[b].alone_move, row[b].joined_move));
        assert forall|k: int| 1 <= k < b + 1 implies #[trigger] out@[k] == (
            choice(old, ms, i as int, old.len() - k, false),
            choice(old, ms, i as int, old.len() - k, true),
        ) by {
            if k < b {
                assert(out@[k] == before[k]);
            }
        }
        b += 1;
    }
    out
}

/// The places the moves lead to.
fn walk(
    shown: &Vec<Message>,
    messages: &Vec<Message>,
    start: usize,
    rows: &Vec<Vec<(Move, Move)>>,
) -> (out: Vec<Option<usize>>)
    requires
        start == common_start(views(shown@), views(messages@)),
        start <= shown.len(),
        start <= messages.len(),
        rows.len() == messages.len() - start,
        forall|k: int|
            0 <= k < rows.len() ==> moves_at(
                (#[trigger] rows@[k])@,
                views(shown@),
                views(messages@),
                messages.len() - 1 - k,
                shown.len() - start + 1,
            ),
    ensures
        slot_places(out@) == kept_places(views(shown@), views(messages@)),
{
    let ghost old = views(shown@);
    let ghost ms = views(messages@);
    let n: usize = shown.len();
    let m: usize = messages.len();
    let mut out: Vec<Option<usize>> = Vec::new();
    let mut at: usize = 0;
    while at < start
        invariant
            at <= start,
            slot_places(out@) == Seq::new(at as nat, |i: int| Some(i)),
        decreases start - at,
    {
        let ghost before = slot_places(out@);
        out.push(Some(at));
        assert(slot_places(out@) =~= before.push(Some(at as int)));
        at += 1;
        assert(slot_places(out@) =~= Seq::new(at as nat, |i: int| Some(i)));
    }
    let mut i: usize = start;
    let mut j: usize = start;
    let mut joined: bool = start > 0;
    while i < m
        invariant
            start <= i <= m,
            start <= j <= n,
            n == shown.len(),
            m == messages.len(),
            old == views(shown@),
            ms == views(messages@),
            rows.len() == m - start,
            forall|k: int|
                0 <= k < rows.len() ==> moves_at(
                    (#[trigger] rows@[k])@,
                    old,
                    ms,
                    m - 1 - k,
                    n - start + 1,
                ),
            slot_places(out@) + matched(old, ms, i as int, j as int, joined) == kept_places(
                old,
                ms,
            ),
        decreases (m - i) + (n - j),
    {
        let ghost before = slot_places(out@);
        let ghost here = matched(old, ms, i as int, j as int, joined);
        if j >= n {
            let ghost rest = matched(old, ms, i + 1, j as int, false);
            out.push(None);
            assert(slot_places(out@) =~= before.push(None));
            assert(before.push(None) + rest =~= before + (seq![None::<int>] + rest));
            i += 1;
            joined = false;
        } else {
            assert(moves_at(rows@[m - 1 - i]@, old, ms, i as int, n - start + 1));
            let pair = rows[m - 1 - i][n - j];
            let step = if joined {
                pair.1
            } else {
                pair.0
            };
            assert(step == choice(old, ms, i as int, j as int, joined));
            match step {
                Move::Take => {
                    let ghost rest = matched(old, ms, i + 1, j + 1, true);
                    out.push(Some(j));
                    assert(slot_places(out@) =~= before.push(Some(j as int)));
                    assert(before.push(Some(j as int)) + rest =~= before + (seq![Some(j as int)]
                        + rest));
                    i += 1;
                    j += 1;
                    joined = true;
                },
                Move::Fresh => {
                    let ghost rest = matched(old, ms, i + 1, j as int, false);
                    out.push(None);
                    assert(slot_places(out@) =~= before.push(None));
                    assert(before.push(None) + rest =~= before + (seq![None::<int>] + rest));
                    i += 1;
                    joined = false;
                },
                Move::Gone => {
                    j += 1;
                    joined = false;
                },
            }
        }
    }
    assert(matched(old, ms, i as int, j as int, joined) =~= Seq::empty());
    assert(slot_places(out@) =~= kept_places(old, ms));
    out
}

} // verus!
