//! Sequences of views, and the few operations on them that many rules share.
use vstd::prelude::*;

verus! {

/// The views of a sequence of values.
pub open spec fn views<T: View>(s: Seq<T>) -> Seq<T::V> {
    s.map_values(|t: T| t@)
}

/// The view of an optional value.
pub open spec fn view_of<T: View>(o: Option<T>) -> Option<T::V> {
    match o {
        Some(t) => Some(t@),
        None => None,
    }
}

/// The views of a longer sequence.
pub broadcast proof fn views_push<T: View>(s: Seq<T>, t: T)
    ensures
        #[trigger] views(s.push(t)) == views(s).push(t@),
{
    assert(views(s.push(t)) =~= views(s).push(t@));
}

/// The views of a prefix.
pub broadcast proof fn views_take<T: View>(s: Seq<T>, n: int)
    requires
        0 <= n <= s.len(),
    ensures
        #[trigger] views(s.take(n)) == views(s).take(n),
{
    assert(views(s.take(n)) =~= views(s).take(n));
}

/// The views of a stretch.
pub broadcast proof fn views_subrange<T: View>(s: Seq<T>, from: int, to: int)
    requires
        0 <= from <= to <= s.len(),
    ensures
        #[trigger] views(s.subrange(from, to)) == views(s).subrange(from, to),
{
    assert(views(s.subrange(from, to)) =~= views(s).subrange(from, to));
}

/// The views of one sequence after another.
pub broadcast proof fn views_add<T: View>(a: Seq<T>, b: Seq<T>)
    ensures
        #[trigger] views(a + b) == views(a) + views(b),
{
    assert(views(a + b) =~= views(a) + views(b));
}

/// The views of nothing.
pub broadcast proof fn views_empty<T: View>()
    ensures
        #[trigger] views(Seq::<T>::empty()) == Seq::<T::V>::empty(),
{
    assert(views(Seq::<T>::empty()) =~= Seq::<T::V>::empty());
}

/// The views after one element was put in another's place.
pub broadcast proof fn views_update<T: View>(s: Seq<T>, i: int, t: T)
    requires
        0 <= i < s.len(),
    ensures
        #[trigger] views(s.update(i, t)) == views(s).update(i, t@),
{
    assert(views(s.update(i, t)) =~= views(s).update(i, t@));
}

/// The views after one element was taken out.
pub broadcast proof fn views_remove<T: View>(s: Seq<T>, i: int)
    requires
        0 <= i < s.len(),
    ensures
        #[trigger] views(s.remove(i)) == views(s).remove(i),
{
    assert(views(s.remove(i)) =~= views(s).remove(i));
}

pub broadcast group group_views {
    views_push,
    views_take,
    views_subrange,
    views_add,
    views_empty,
    views_update,
    views_remove,
}

/// The elements of `s` other than `x`, in order.
pub open spec fn without<T>(s: Seq<T>, x: T) -> Seq<T>
    decreases s.len(),
{
    if s.len() == 0 {
        s
    } else if s.last() == x {
        without(s.drop_last(), x)
    } else {
        without(s.drop_last(), x).push(s.last())
    }
}

/// Where `x` first stands in `s`.
pub open spec fn first_at<T>(s: Seq<T>, x: T) -> Option<int>
    decreases s.len(),
{
    if s.len() == 0 {
        None
    } else {
        match first_at(s.drop_last(), x) {
            Some(i) => Some(i),
            None => if s.last() == x {
                Some(s.len() - 1)
            } else {
                None
            },
        }
    }
}

/// What `first_at` answers: nothing if the element is absent, else the
/// lowest index that holds it.
pub proof fn first_at_is_first<T>(s: Seq<T>, x: T)
    ensures
        first_at(s, x) is None <==> !s.contains(x),
        first_at(s, x) matches Some(i) ==> 0 <= i < s.len() && s[i] == x && !s.take(i).contains(x),
    decreases s.len(),
{
    if s.len() > 0 {
        let init = s.drop_last();
        first_at_is_first(init, x);
        match first_at(init, x) {
            Some(i) => {
                assert(s[i] == x);
                assert(s.take(i) =~= init.take(i));
            },
            None => {
                assert(s.take(s.len() - 1) =~= init);
                if s.contains(x) {
                    let k = choose|k: int| 0 <= k < s.len() && s[k] == x;
                    if k < s.len() - 1 {
                        assert(init[k] == x);
                        assert(init.contains(x));
                    }
                }
            },
        }
    }
}

/// An element at `i` that does not stand before `i` first stands at `i`.
pub proof fn first_at_index<T>(s: Seq<T>, x: T, i: int)
    requires
        0 <= i < s.len(),
        s[i] == x,
        !s.take(i).contains(x),
    ensures
        first_at(s, x) == Some(i),
{
    first_at_is_first(s, x);
    assert(s.contains(x));
    let j = first_at(s, x)->0;
    if j < i {
        assert(s.take(i)[j] == x);
        assert(s.take(i).contains(x));
    } else if i < j {
        assert(s.take(j)[i] == x);
        assert(s.take(j).contains(x));
    }
}

/// A sequence and one more element hold what either holds.
pub proof fn push_contains<T>(s: Seq<T>, x: T)
    ensures
        forall|y: T| #[trigger] s.push(x).contains(y) <==> (s.contains(y) || x == y),
{
    assert forall|y: T| #[trigger] s.push(x).contains(y) <==> (s.contains(y) || x == y) by {
        let t = s.push(x);
        if t.contains(y) {
            let k = choose|k: int| 0 <= k < t.len() && t[k] == y;
            if k < s.len() {
                assert(s[k] == y);
            }
        }
        if s.contains(y) {
            let k = choose|k: int| 0 <= k < s.len() && s[k] == y;
            assert(t[k] == y);
        }
        if x == y {
            assert(t[s.len() as int] == y);
        }
    }
}

/// `without` keeps nothing equal to `x` and everything else.
pub proof fn without_contains<T>(s: Seq<T>, x: T)
    ensures
        !without(s, x).contains(x),
        forall|y: T| y != x ==> (#[trigger] without(s, x).contains(y) <==> s.contains(y)),
        without(s, x).len() <= s.len(),
        s.contains(x) ==> without(s, x).len() < s.len(),
    decreases s.len(),
{
    if s.len() > 0 {
        let init = s.drop_last();
        let w = without(init, x);
        without_contains(init, x);
        push_contains(init, s.last());
        push_contains(w, s.last());
        assert(s == init.push(s.last()));
        assert forall|y: T| y != x implies (#[trigger] without(s, x).contains(y) <==> s.contains(y)) by {
            assert(w.contains(y) <==> init.contains(y));
            assert(init.push(s.last()).contains(y) <==> (init.contains(y) || s.last() == y));
            assert(w.push(s.last()).contains(y) <==> (w.contains(y) || s.last() == y));
        }
    }
}

/// Taking an element out of a sequence that lacks it changes nothing.
pub proof fn without_absent<T>(s: Seq<T>, x: T)
    requires
        !s.contains(x),
    ensures
        without(s, x) == s,
    decreases s.len(),
{
    if s.len() > 0 {
        let init = s.drop_last();
        assert(s[s.len() - 1] == s.last());
        assert forall|k: int| 0 <= k < init.len() implies init[k] != x by {
            assert(s[k] == init[k]);
        }
        without_absent(init, x);
        assert(s =~= init.push(s.last()));
    }
}

/// Filtering keeps exactly the elements that pass, and repeats none that was
/// not repeated.
pub proof fn filter_keeps<T>(s: Seq<T>, keep: spec_fn(T) -> bool)
    ensures
        s.filter(keep).len() <= s.len(),
        forall|x: T| #[trigger] s.filter(keep).contains(x) <==> s.contains(x) && keep(x),
        s.no_duplicates() ==> s.filter(keep).no_duplicates(),
    decreases s.len(),
{
    reveal(Seq::filter);
    if s.len() > 0 {
        let init = s.drop_last();
        let part = init.filter(keep);
        filter_keeps(init, keep);
        push_contains(init, s.last());
        push_contains(part, s.last());
        assert(s == init.push(s.last()));
        assert forall|x: T| #[trigger] s.filter(keep).contains(x) <==> s.contains(x) && keep(x) by {
            assert(part.contains(x) <==> init.contains(x) && keep(x));
            assert(init.push(s.last()).contains(x) <==> (init.contains(x) || s.last() == x));
            assert(part.push(s.last()).contains(x) <==> (part.contains(x) || s.last() == x));
        }
        if s.no_duplicates() {
            assert(init.no_duplicates());
            assert(!init.contains(s.last())) by {
                if init.contains(s.last()) {
                    let k = choose|k: int| 0 <= k < init.len() && init[k] == s.last();
                    assert(s[k] == s[s.len() - 1]);
                }
            }
            if keep(s.last()) {
                assert(!part.contains(s.last()));
                push_no_duplicates(part, s.last());
            }
        }
    }
}

/// A new element at the end repeats nothing.
pub proof fn push_no_duplicates<T>(s: Seq<T>, x: T)
    requires
        s.no_duplicates(),
        !s.contains(x),
    ensures
        s.push(x).no_duplicates(),
{
    assert forall|i: int, j: int|
        0 <= i < s.push(x).len() && 0 <= j < s.push(x).len() && i != j implies s.push(x)[i]
        != s.push(x)[j] by {
        if i == s.len() {
            assert(s[j] != x) by {
                assert(s.contains(s[j]));
            }
        } else if j == s.len() {
            assert(s[i] != x) by {
                assert(s.contains(s[i]));
            }
        } else {
            assert(s[i] != s[j]);
        }
    }
}

/// Filtering by a test that everything passes changes nothing.
pub proof fn filter_all<T>(s: Seq<T>, keep: spec_fn(T) -> bool)
    requires
        forall|i: int| 0 <= i < s.len() ==> keep(#[trigger] s[i]),
    ensures
        s.filter(keep) == s,
    decreases s.len(),
{
    reveal(Seq::filter);
    if s.len() > 0 {
        let init = s.drop_last();
        assert forall|i: int| 0 <= i < init.len() implies keep(#[trigger] init[i]) by {
            assert(s[i] == init[i]);
        }
        filter_all(init, keep);
        assert(keep(s[s.len() - 1]));
        assert(s =~= init.push(s.last()));
    }
}

} // verus!
