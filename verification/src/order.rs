//! Stable sorting by an order on what items hold.

use crate::text;
use vstd::prelude::*;

verus! {

/// An item with a place in a sorted list.
pub trait Ranked: View + Sized {
    /// Whether an item that holds `a` stands strictly before one that holds `b`.
    spec fn ranks_before(a: Self::V, b: Self::V) -> bool;

    /// Whether this item stands strictly before the other.
    fn is_before(&self, other: &Self) -> (b: bool)
        ensures
            b == Self::ranks_before(self@, other@),
    ;
}

/// What the items of a list hold.
pub open spec fn views<T: View>(s: Seq<T>) -> Seq<T::V> {
    s.map_values(|t: T| t@)
}

/// `x` put into a list behind every item at the end of which it does not stand
/// before.
pub open spec fn put_in<T: Ranked>(s: Seq<T::V>, x: T::V) -> Seq<T::V>
    decreases s.len(),
{
    if s.len() == 0 || !T::ranks_before(x, s.last()) {
        s.push(x)
    } else {
        put_in::<T>(s.drop_last(), x).push(s.last())
    }
}

/// The stably sorted list: items are put in one by one, each behind its equals.
pub open spec fn arranged<T: Ranked>(s: Seq<T::V>) -> Seq<T::V>
    decreases s.len(),
{
    if s.len() == 0 {
        s
    } else {
        put_in::<T>(arranged::<T>(s.drop_last()), s.last())
    }
}

/// No item stands before one to its left.
pub open spec fn in_order<T: Ranked>(s: Seq<T::V>) -> bool {
    forall|i: int, j: int|
        0 <= i < j < s.len() ==> !T::ranks_before(#[trigger] s[j], #[trigger] s[i])
}

/// `ranks_before` orders: what does not stand before goes through a middle item.
pub open spec fn rank_is_an_order<T: Ranked>() -> bool {
    &&& forall|a: T::V, b: T::V| #[trigger]
        T::ranks_before(a, b) ==> !T::ranks_before(b, a)
    &&& forall|a: T::V, b: T::V, c: T::V|
        !(#[trigger] T::ranks_before(a, b)) && !(#[trigger] T::ranks_before(b, c))
            ==> !T::ranks_before(a, c)
}

/// Sorts a list stably.
pub fn arrange<T: Ranked>(items: Vec<T>) -> (out: Vec<T>)
    ensures
        views(out@) == arranged::<T>(views(items@)),
{
    let mut source = items;
    let mut out: Vec<T> = Vec::new();
    let ghost all = source@;
    let mut rest: Vec<T> = Vec::new();
    // Turns the list round, so that items can be taken from the end.
    while source.len() > 0
        invariant
            source@.len() + rest@.len() == all.len(),
            source@ == all.subrange(0, source@.len() as int),
            forall|i: int| 0 <= i < rest@.len() ==> rest@[i] == all[all.len() - 1 - i],
        decreases source@.len(),
    {
        match source.pop() {
            Some(item) => {
                rest.push(item);
            },
            None => {},
        }
    }
    let ghost vs = views(all);
    proof {
        assert(views(out@) =~= arranged::<T>(vs.subrange(0, 0)));
    }
    while rest.len() > 0
        invariant
            vs == views(all),
            out@.len() + rest@.len() == all.len(),
            forall|i: int| 0 <= i < rest@.len() ==> rest@[i] == all[all.len() - 1 - i],
            views(out@) == arranged::<T>(vs.subrange(0, out@.len() as int)),
        decreases rest@.len(),
    {
        let ghost n = out@.len() as int;
        match rest.pop() {
            Some(item) => {
                proof {
                    assert(item == all[n]);
                    assert(vs.subrange(0, n + 1).drop_last() =~= vs.subrange(0, n));
                    assert(vs.subrange(0, n + 1).last() == item@);
                }
                put(&mut out, item);
            },
            None => {},
        }
    }
    proof {
        assert(vs.subrange(0, out@.len() as int) =~= vs);
    }
    out
}

/// Puts one item into its place.
fn put<T: Ranked>(out: &mut Vec<T>, item: T)
    ensures
        views(final(out)@) == put_in::<T>(views(old(out)@), item@),
        final(out)@.len() == old(out)@.len() + 1,
{
    let mut at: usize = out.len();
    let ghost s = views(out@);
    proof {
        assert(s.subrange(0, at as int) =~= s);
        assert(s.subrange(at as int, s.len() as int) =~= Seq::empty());
        assert(put_in::<T>(s, item@) =~= put_in::<T>(s.subrange(0, at as int), item@) + s.subrange(
            at as int,
            s.len() as int,
        ));
    }
    while at > 0 && item.is_before(&out[at - 1])
        invariant
            at <= out@.len(),
            s == views(out@),
            put_in::<T>(s, item@) == put_in::<T>(s.subrange(0, at as int), item@) + s.subrange(
                at as int,
                s.len() as int,
            ),
        ensures
            at <= out@.len(),
            put_in::<T>(s, item@) == put_in::<T>(s.subrange(0, at as int), item@) + s.subrange(
                at as int,
                s.len() as int,
            ),
            at > 0 ==> !T::ranks_before(item@, s[at - 1]),
        decreases at,
    {
        proof {
            let front = s.subrange(0, at as int);
            assert(front.drop_last() =~= s.subrange(0, at - 1));
            assert(put_in::<T>(front, item@) == put_in::<T>(s.subrange(0, at - 1), item@).push(
                s[at - 1],
            ));
            assert(put_in::<T>(s.subrange(0, at - 1), item@).push(s[at - 1]) + s.subrange(
                at as int,
                s.len() as int,
            ) =~= put_in::<T>(s.subrange(0, at - 1), item@) + s.subrange(at - 1, s.len() as int));
        }
        at = at - 1;
    }
    let ghost held = item@;
    out.insert(at, item);
    proof {
        assert(views(out@) =~= s.subrange(0, at as int).push(held) + s.subrange(
            at as int,
            s.len() as int,
        ));
    }
}

proof fn lemma_put_in_multiset<T: Ranked>(s: Seq<T::V>, x: T::V)
    ensures
        put_in::<T>(s, x).to_multiset() == s.to_multiset().insert(x),
    decreases s.len(),
{
    broadcast use vstd::seq_lib::group_to_multiset_ensures;

    if s.len() == 0 || !T::ranks_before(x, s.last()) {
    } else {
        lemma_put_in_multiset::<T>(s.drop_last(), x);
        assert(s =~= s.drop_last().push(s.last()));
        assert(put_in::<T>(s, x).to_multiset() =~= s.to_multiset().insert(x));
    }
}

proof fn lemma_not_before<T: Ranked>(s: Seq<T::V>, x: T::V, y: T::V)
    requires
        forall|i: int| 0 <= i < s.len() ==> !T::ranks_before(y, #[trigger] s[i]),
        !T::ranks_before(y, x),
    ensures
        put_in::<T>(s, x).len() == s.len() + 1,
        forall|i: int|
            0 <= i < put_in::<T>(s, x).len() ==> !T::ranks_before(
                y,
                #[trigger] put_in::<T>(s, x)[i],
            ),
    decreases s.len(),
{
    if s.len() == 0 || !T::ranks_before(x, s.last()) {
    } else {
        lemma_not_before::<T>(s.drop_last(), x, y);
        assert(!T::ranks_before(y, s[s.len() - 1]));
    }
}

proof fn lemma_put_in_order<T: Ranked>(s: Seq<T::V>, x: T::V)
    requires
        rank_is_an_order::<T>(),
        in_order::<T>(s),
    ensures
        in_order::<T>(put_in::<T>(s, x)),
        put_in::<T>(s, x).len() == s.len() + 1,
    decreases s.len(),
{
    let r = put_in::<T>(s, x);
    if s.len() == 0 {
    } else if !T::ranks_before(x, s.last()) {
        assert forall|i: int, j: int| 0 <= i < j < r.len() implies !T::ranks_before(
            #[trigger] r[j],
            #[trigger] r[i],
        ) by {
            if j == s.len() && i < s.len() - 1 {
                assert(!T::ranks_before(s[s.len() - 1], s[i]));
            }
        }
    } else {
        let y = s.last();
        let front = s.drop_last();
        lemma_put_in_order::<T>(front, x);
        assert forall|i: int| 0 <= i < front.len() implies !T::ranks_before(
            y,
            #[trigger] front[i],
        ) by {
            assert(front[i] == s[i]);
            assert(!T::ranks_before(s[s.len() - 1], s[i]));
        }
        lemma_not_before::<T>(front, x, y);
        let p = put_in::<T>(front, x);
        assert forall|i: int, j: int| 0 <= i < j < r.len() implies !T::ranks_before(
            #[trigger] r[j],
            #[trigger] r[i],
        ) by {
            assert(r[i] == p[i]);
            if j < p.len() {
                assert(r[j] == p[j]);
            }
        }
    }
}

/// Sorting keeps what there is.
pub proof fn sorting_keeps<T: Ranked>(s: Seq<T::V>)
    ensures
        arranged::<T>(s).to_multiset() == s.to_multiset(),
        arranged::<T>(s).len() == s.len(),
        forall|x: T::V| arranged::<T>(s).contains(x) == s.contains(x),
    decreases s.len(),
{
    broadcast use vstd::seq_lib::group_to_multiset_ensures;

    if s.len() > 0 {
        sorting_keeps::<T>(s.drop_last());
        lemma_put_in_multiset::<T>(arranged::<T>(s.drop_last()), s.last());
        assert(s =~= s.drop_last().push(s.last()));
    }
    assert(arranged::<T>(s).to_multiset().len() == s.to_multiset().len());
    assert forall|x: T::V| arranged::<T>(s).contains(x) == s.contains(x) by {
        assert(arranged::<T>(s).to_multiset().count(x) == s.to_multiset().count(x));
    }
}

/// Sorting puts a list in order.
pub proof fn sorting_orders<T: Ranked>(s: Seq<T::V>)
    requires
        rank_is_an_order::<T>(),
    ensures
        in_order::<T>(arranged::<T>(s)),
    decreases s.len(),
{
    if s.len() > 0 {
        sorting_orders::<T>(s.drop_last());
        lemma_put_in_order::<T>(arranged::<T>(s.drop_last()), s.last());
    }
}

/// A list that is in order already is left as it is.
pub proof fn sorting_leaves_what_is_in_order<T: Ranked>(s: Seq<T::V>)
    requires
        in_order::<T>(s),
    ensures
        arranged::<T>(s) == s,
    decreases s.len(),
{
    if s.len() > 0 {
        let front = s.drop_last();
        assert(in_order::<T>(front)) by {
            assert forall|i: int, j: int| 0 <= i < j < front.len() implies !T::ranks_before(
                #[trigger] front[j],
                #[trigger] front[i],
            ) by {
                assert(front[i] == s[i] && front[j] == s[j]);
            }
        }
        sorting_leaves_what_is_in_order::<T>(front);
        if front.len() > 0 {
            assert(!T::ranks_before(s[s.len() - 1], s[s.len() - 2]));
        }
        assert(put_in::<T>(front, s.last()) =~= s);
    }
}

/// What is marked comes first; the rest goes by name, where the names are given in
/// lower case.
pub open spec fn marked_first(
    a_marked: bool,
    b_marked: bool,
    a_lower: Seq<char>,
    b_lower: Seq<char>,
) -> bool {
    if a_marked != b_marked {
        a_marked
    } else {
        text::precedes(a_lower, b_lower)
    }
}

/// Whether one entry stands before another, where the names are given in lower case.
pub fn is_marked_first(a_marked: bool, b_marked: bool, a_lower: &str, b_lower: &str) -> (r: bool)
    ensures
        r == marked_first(a_marked, b_marked, a_lower@, b_lower@),
        a_marked && !b_marked ==> r,
        !a_marked && b_marked ==> !r,
        a_marked == b_marked ==> r == text::precedes(a_lower@, b_lower@),
{
    if a_marked != b_marked {
        a_marked
    } else {
        text::before(a_lower, b_lower)
    }
}

/// [`marked_first`] is an order.
pub proof fn marked_first_is_an_order(
    am: bool,
    bm: bool,
    cm: bool,
    a: Seq<char>,
    b: Seq<char>,
    c: Seq<char>,
)
    ensures
        marked_first(am, bm, a, b) ==> !marked_first(bm, am, b, a),
        !marked_first(am, bm, a, b) && !marked_first(bm, cm, b, c) ==> !marked_first(am, cm, a, c),
{
    text::precedes_is_total(a, b);
    text::precedes_is_total(b, c);
    text::precedes_is_total(a, c);
    if !text::precedes(a, b) && !text::precedes(b, c) && a != b && b != c {
        text::precedes_is_transitive(c, b, a);
    }
}

} // verus!
