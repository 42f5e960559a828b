//! Sorting: lists of distinct texts, and stable sorting by a rank.

use vstd::prelude::*;

use crate::text;

verus! {

/// Whether each text comes strictly before the next ones.
pub open spec fn strictly_sorted(s: Seq<Seq<char>>) -> bool {
    forall|i: int, j: int| 0 <= i < j < s.len() ==> text::text_lt(#[trigger] s[i], #[trigger] s[j])
}

/// The distinct texts of `s` in text order.
pub open spec fn is_sorted_set_of(r: Seq<Seq<char>>, s: Seq<Seq<char>>) -> bool {
    &&& strictly_sorted(r)
    &&& forall|x: Seq<char>| #[trigger] r.contains(x) <==> s.contains(x)
}

/// Two lists that are strictly sorted and hold the same texts are the same
/// list.
pub proof fn lemma_sorted_set_unique(a: Seq<Seq<char>>, b: Seq<Seq<char>>)
    requires
        strictly_sorted(a),
        strictly_sorted(b),
        forall|x: Seq<char>| #[trigger] a.contains(x) <==> b.contains(x),
    ensures
        a == b,
    decreases a.len(),
{
    if a.len() == 0 {
        if b.len() > 0 {
            assert(b.contains(b[0]));
            assert(a.contains(b[0]));
        }
        assert(a =~= b);
    } else {
        assert(a.contains(a[0]));
        assert(b.contains(a[0]));
        let k = b.index_of(a[0]);
        assert(b.contains(b[0]));
        assert(a.contains(b[0]));
        let m = a.index_of(b[0]);
        if m > 0 && k > 0 {
            assert(text::text_lt(a[0], a[m]));
            assert(text::text_lt(b[0], b[k]));
            text::lemma_text_le_antisymmetric(a[0], b[0]);
        }
        assert(a[0] == b[0]);
        let ra = a.skip(1);
        let rb = b.skip(1);
        assert forall|x: Seq<char>| #[trigger] ra.contains(x) <==> rb.contains(x) by {
            if ra.contains(x) {
                let i = ra.index_of(x);
                assert(a[i + 1] == x);
                assert(a.contains(x));
                assert(text::text_lt(a[0], a[i + 1]));
                let j = b.index_of(x);
                assert(b[j] == x);
                assert(rb[j - 1] == x);
            }
            if rb.contains(x) {
                let i = rb.index_of(x);
                assert(b[i + 1] == x);
                assert(b.contains(x));
                assert(text::text_lt(b[0], b[i + 1]));
                assert(a.contains(x));
                let j = a.index_of(x);
                assert(a[j] == x);
                assert(ra[j - 1] == x);
            }
        }
        assert(strictly_sorted(ra));
        assert(strictly_sorted(rb));
        lemma_sorted_set_unique(ra, rb);
        assert(a =~= seq![a[0]] + ra);
        assert(b =~= seq![b[0]] + rb);
    }
}

/// The distinct texts of `s` in text order, as a list.
pub open spec fn sorted_set(s: Seq<Seq<char>>) -> Seq<Seq<char>> {
    choose|r: Seq<Seq<char>>| is_sorted_set_of(r, s)
}

proof fn lemma_insert_place(r: Seq<Seq<char>>, x: Seq<char>)
    requires
        strictly_sorted(r),
        !r.contains(x),
    ensures
        exists|t: Seq<Seq<char>>| #[trigger] is_sorted_set_of(t, r.push(x)),
    decreases r.len(),
{
    if r.len() == 0 {
        assert(is_sorted_set_of(r.push(x), r.push(x)));
    } else {
        let last = r.last();
        let init = r.drop_last();
        assert(r.contains(last));
        text::lemma_text_le_total(last, x);
        if text::text_le(last, x) {
            let t = r.push(x);
            assert forall|i: int, j: int| 0 <= i < j < t.len() implies text::text_lt(
                #[trigger] t[i],
                #[trigger] t[j],
            ) by {
                if j == r.len() && i < r.len() - 1 {
                    assert(text::text_lt(r[i], r[r.len() - 1]));
                    text::lemma_text_le_transitive(r[i], last, x);
                    assert(r.contains(r[i]));
                }
            }
            assert(is_sorted_set_of(t, t));
        } else {
            assert forall|y: Seq<char>| init.contains(y) implies r.contains(y) by {
                let k = init.index_of(y);
                assert(r[k] == y);
            }
            assert(strictly_sorted(init));
            lemma_insert_place(init, x);
            let head = choose|t: Seq<Seq<char>>| #[trigger] is_sorted_set_of(t, init.push(x));
            let t = head.push(last);
            assert forall|i: int, j: int| 0 <= i < j < t.len() implies text::text_lt(
                #[trigger] t[i],
                #[trigger] t[j],
            ) by {
                if j == head.len() {
                    assert(head.contains(head[i]));
                    assert(init.push(x).contains(head[i]));
                    if head[i] != x {
                        let k = init.push(x).index_of(head[i]);
                        assert(r[k] == head[i]);
                        assert(text::text_lt(r[k], r[r.len() - 1]));
                    }
                }
            }
            assert forall|y: Seq<char>| #[trigger] t.contains(y) <==> r.push(x).contains(y) by {
                if t.contains(y) {
                    let k = t.index_of(y);
                    if k < head.len() {
                        assert(head.contains(head[k]));
                        let m = init.push(x).index_of(y);
                        if m < init.len() {
                            assert(r.push(x)[m] == y);
                        } else {
                            assert(r.push(x)[r.len() as int] == y);
                        }
                    } else {
                        assert(r.push(x)[r.len() - 1] == y);
                    }
                }
                if r.push(x).contains(y) {
                    let k = r.push(x).index_of(y);
                    if k == r.len() - 1 {
                        assert(t[head.len() as int] == y);
                    } else {
                        if k < r.len() - 1 {
                            assert(init.push(x)[k] == y);
                        } else {
                            assert(init.push(x)[init.len() as int] == y);
                        }
                        assert(init.push(x).contains(y));
                        assert(head.contains(y));
                        let m = head.index_of(y);
                        assert(t[m] == y);
                    }
                }
            }
            assert(is_sorted_set_of(t, r.push(x)));
        }
    }
}

/// The distinct texts of any list can be put in order.
pub proof fn lemma_sorted_set_exists(s: Seq<Seq<char>>)
    ensures
        is_sorted_set_of(sorted_set(s), s),
    decreases s.len(),
{
    if s.len() == 0 {
        assert(is_sorted_set_of(s, s));
    } else {
        let init = s.drop_last();
        let x = s.last();
        lemma_sorted_set_exists(init);
        let r = sorted_set(init);
        assert(s =~= init.push(x));
        if r.contains(x) {
            assert forall|y: Seq<char>| #[trigger] r.contains(y) <==> s.contains(y) by {
                if init.contains(y) {
                    let k = init.index_of(y);
                    assert(s[k] == y);
                }
                if s.contains(y) {
                    let k = s.index_of(y);
                    if k < init.len() {
                        assert(init[k] == y);
                    }
                }
                assert(r.contains(y) <==> init.contains(y));
            }
            assert(is_sorted_set_of(r, s));
        } else {
            lemma_insert_place(r, x);
            let t = choose|t: Seq<Seq<char>>| #[trigger] is_sorted_set_of(t, r.push(x));
            assert forall|y: Seq<char>| #[trigger] t.contains(y) <==> s.contains(y) by {
                assert(t.contains(y) <==> r.push(x).contains(y));
                if r.push(x).contains(y) {
                    let k = r.push(x).index_of(y);
                    if k < r.len() {
                        assert(r.contains(r[k]));
                        assert(init.contains(y));
                        let m = init.index_of(y);
                        assert(s[m] == y);
                    } else {
                        assert(s[s.len() - 1] == y);
                    }
                }
                if s.contains(y) {
                    let k = s.index_of(y);
                    if k < init.len() {
                        assert(init[k] == y);
                        assert(r.contains(y));
                        let m = r.index_of(y);
                        assert(r.push(x)[m] == y);
                    } else {
                        assert(r.push(x)[r.len() as int] == y);
                    }
                }
            }
            assert(is_sorted_set_of(t, s));
        }
    }
}

/// Puts a text at its place in a strictly sorted list, unless it is there.
fn insert_text(list: &mut Vec<String>, text: String)
    requires
        strictly_sorted(text::views(old(list)@)),
    ensures
        strictly_sorted(text::views(final(list)@)),
        forall|x: Seq<char>| #[trigger]
            text::views(final(list)@).contains(x) <==> text::views(old(list)@).contains(x) || x == text@,
{
    let ghost before = text::views(list@);
    let mut at: usize = 0;
    while at < list.len() && !text::in_order(text.as_str(), list[at].as_str())
        invariant
            at <= list@.len(),
            before == text::views(list@),
            forall|k: int| 0 <= k < at ==> !text::text_le(text@, #[trigger] list@[k]@),
        decreases list@.len() - at,
    {
        at = at + 1;
    }
    if at < list.len() && text::same(text.as_str(), list[at].as_str()) {
        assert(before[at as int] == text@);
        assert(before.contains(text@));
        return;
    }
    let ghost whole = text@;
    list.insert(at, text);
    let ghost after = text::views(list@);
    proof {
        assert(after =~= before.insert(at as int, whole));
        assert forall|x: Seq<char>| #[trigger] after.contains(x) <==> before.contains(x) || x
            == whole by {
            before.insert_ensures(at as int, whole);
            if before.contains(x) {
                let k = before.index_of(x);
                if k < at {
                    assert(after[k] == x);
                } else {
                    assert(after[k + 1] == x);
                }
            }
            if x == whole {
                assert(after[at as int] == x);
            }
            if after.contains(x) {
                let k = after.index_of(x);
                if k < at {
                    assert(before[k] == x);
                } else if k > at {
                    assert(before[k - 1] == x);
                }
            }
        }
        assert forall|i: int, j: int| 0 <= i < j < after.len() implies text::text_lt(
            #[trigger] after[i],
            #[trigger] after[j],
        ) by {
            if j < at {
                assert(text::text_lt(before[i], before[j]));
            } else if j == at {
                text::lemma_text_le_total(whole, before[i]);
                text::lemma_text_le_reflexive(whole);
            } else if i == at {
                if j - 1 > at {
                    assert(text::text_lt(before[at as int], before[j - 1]));
                    text::lemma_text_le_transitive(whole, before[at as int], before[j - 1]);
                    if whole == before[j - 1] {
                        text::lemma_text_le_antisymmetric(whole, before[at as int]);
                    }
                }
            } else if i < at {
                assert(text::text_lt(before[i], before[j - 1]));
            } else {
                assert(text::text_lt(before[i - 1], before[j - 1]));
            }
        }
    }
}

/// Sorts a list of texts and drops the repeated ones.
pub fn sort_unique(list: Vec<String>) -> (r: Vec<String>)
    ensures
        is_sorted_set_of(text::views(r@), text::views(list@)),
        text::views(r@) == sorted_set(text::views(list@)),
{
    let mut out: Vec<String> = Vec::new();
    let mut i: usize = 0;
    while i < list.len()
        invariant
            i <= list@.len(),
            is_sorted_set_of(text::views(out@), text::views(list@).take(i as int)),
        decreases list@.len() - i,
    {
        let ghost before = text::views(out@);
        let ghost seen = text::views(list@).take(i as int);
        insert_text(&mut out, list[i].clone());
        proof {
            let item = list@[i as int]@;
            let more = text::views(list@).take(i + 1);
            text::lemma_take_contains(text::views(list@), i as int);
            assert forall|x: Seq<char>| #[trigger] text::views(out@).contains(x) <==> more.contains(
                x,
            ) by {
                assert(text::views(out@).contains(x) <==> before.contains(x) || x == item);
                assert(before.contains(x) <==> seen.contains(x));
            }
        }
        i = i + 1;
    }
    proof {
        assert(text::views(list@).take(list@.len() as int) =~= text::views(list@));
        let r = sorted_set(text::views(list@));
        assert(is_sorted_set_of(r, text::views(list@)));
        assert forall|x: Seq<char>| #[trigger] text::views(out@).contains(x) <==> r.contains(x) by {
            assert(text::views(list@).contains(x) <==> r.contains(x));
        }
        lemma_sorted_set_unique(text::views(out@), r);
    }
    out
}

/// A type whose values are sorted by a rank that can be read off their view.
pub trait Ranked: View + Sized {
    /// Whether `a` may stand before `b`.
    spec fn rank_le(a: Self::V, b: Self::V) -> bool;

    /// Any two values may stand one way or the other.
    proof fn rank_total(a: Self::V, b: Self::V)
        ensures
            Self::rank_le(a, b) || Self::rank_le(b, a),
    ;

    /// The rank is transitive.
    proof fn rank_transitive(a: Self::V, b: Self::V, c: Self::V)
        requires
            Self::rank_le(a, b),
            Self::rank_le(b, c),
        ensures
            Self::rank_le(a, c),
    ;

    /// Whether `self` may stand before `other`.
    fn may_precede(&self, other: &Self) -> (r: bool)
        ensures
            r == Self::rank_le(self@, other@),
    ;
}

/// `s` with `x` put behind the last value that may precede it.
pub open spec fn inserted<T: Ranked>(s: Seq<T::V>, x: T::V) -> Seq<T::V>
    decreases s.len(),
{
    if s.len() == 0 || T::rank_le(s.last(), x) {
        s.push(x)
    } else {
        inserted::<T>(s.drop_last(), x).push(s.last())
    }
}

/// `s` sorted by rank; values of equal rank keep their order.
pub open spec fn sorted_by_rank<T: Ranked>(s: Seq<T::V>) -> Seq<T::V>
    decreases s.len(),
{
    if s.len() == 0 {
        s
    } else {
        inserted::<T>(sorted_by_rank::<T>(s.drop_last()), s.last())
    }
}

/// Whether each value may precede all that follow it.
pub open spec fn ranked<T: Ranked>(s: Seq<T::V>) -> bool {
    forall|i: int, j: int| 0 <= i < j < s.len() ==> T::rank_le(#[trigger] s[i], #[trigger] s[j])
}

proof fn lemma_inserted<T: Ranked>(s: Seq<T::V>, x: T::V)
    requires
        ranked::<T>(s),
    ensures
        ranked::<T>(inserted::<T>(s, x)),
        inserted::<T>(s, x).to_multiset() == s.to_multiset().insert(x),
        inserted::<T>(s, x).len() == s.len() + 1,
    decreases s.len(),
{
    broadcast use vstd::seq_lib::group_to_multiset_ensures;

    let r = inserted::<T>(s, x);
    if s.len() == 0 || T::rank_le(s.last(), x) {
        assert forall|i: int, j: int| 0 <= i < j < r.len() implies T::rank_le(
            #[trigger] r[i],
            #[trigger] r[j],
        ) by {
            if j == s.len() && i < s.len() - 1 {
                T::rank_transitive(s[i], s.last(), x);
            }
        }
    } else {
        let init = s.drop_last();
        lemma_inserted::<T>(init, x);
        let p = inserted::<T>(init, x);
        assert(s =~= init.push(s.last()));
        assert(r.to_multiset() =~= s.to_multiset().insert(x));
        T::rank_total(s.last(), x);
        assert forall|i: int, j: int| 0 <= i < j < r.len() implies T::rank_le(
            #[trigger] r[i],
            #[trigger] r[j],
        ) by {
            if j == p.len() {
                assert(p.to_multiset().contains(p[i]));
                if p[i] != x {
                    assert(init.to_multiset().contains(p[i]));
                    assert(init.contains(p[i]));
                    let k = init.index_of(p[i]);
                    assert(s[k] == p[i]);
                    assert(T::rank_le(s[k], s[s.len() - 1]));
                }
            }
        }
    }
}

/// A sorted list is in the order of its ranks and holds what it was made of.
pub proof fn lemma_sorted_by_rank<T: Ranked>(s: Seq<T::V>)
    ensures
        ranked::<T>(sorted_by_rank::<T>(s)),
        sorted_by_rank::<T>(s).to_multiset() == s.to_multiset(),
        sorted_by_rank::<T>(s).len() == s.len(),
    decreases s.len(),
{
    broadcast use vstd::seq_lib::group_to_multiset_ensures;

    if s.len() > 0 {
        lemma_sorted_by_rank::<T>(s.drop_last());
        lemma_inserted::<T>(sorted_by_rank::<T>(s.drop_last()), s.last());
        assert(s =~= s.drop_last().push(s.last()));
    }
}

/// Puts a value behind the last one that may precede it.
fn insert_ranked<T: Ranked>(list: &mut Vec<T>, item: T)
    ensures
        text::views(final(list)@) == inserted::<T>(text::views(old(list)@), item@),
{
    let ghost before = text::views(list@);
    let ghost x = item@;
    let mut at: usize = list.len();
    assert(before.take(at as int) =~= before);
    assert(before.skip(at as int) =~= Seq::<T::V>::empty());
    assert(inserted::<T>(before, x) =~= inserted::<T>(before.take(at as int), x) + before.skip(
        at as int,
    ));
    while at > 0 && !list[at - 1].may_precede(&item)
        invariant
            at <= list@.len(),
            before == text::views(list@),
            x == item@,
            inserted::<T>(before, x) == inserted::<T>(before.take(at as int), x) + before.skip(
                at as int,
            ),
        decreases at,
    {
        proof {
            let head = before.take(at as int);
            assert(head.last() == list@[at - 1]@);
            assert(head.drop_last() =~= before.take(at - 1));
            assert(before.skip(at - 1) =~= seq![head.last()] + before.skip(at as int));
            assert(inserted::<T>(before.take(at - 1), x).push(head.last()) + before.skip(at as int)
                =~= inserted::<T>(before.take(at - 1), x) + before.skip(at - 1));
        }
        at = at - 1;
    }
    list.insert(at, item);
    proof {
        if at > 0 {
            assert(before.take(at as int).last() == before[at - 1]);
        }
        assert(text::views(list@) =~= before.take(at as int).push(x) + before.skip(at as int));
    }
}

/// Lists with the same multiset have the same values.
pub proof fn lemma_same_members<A>(a: Seq<A>, b: Seq<A>)
    requires
        a.to_multiset() == b.to_multiset(),
    ensures
        forall|x: A| #[trigger] a.contains(x) <==> b.contains(x),
{
    broadcast use vstd::seq_lib::group_to_multiset_ensures;

    assert forall|x: A| #[trigger] a.contains(x) <==> b.contains(x) by {
        assert(a.contains(x) <==> a.to_multiset().count(x) > 0);
        assert(b.contains(x) <==> b.to_multiset().count(x) > 0);
    }
}

/// Sorts a list by rank; values of equal rank keep their order.
pub fn stable_sort<T: Ranked>(list: Vec<T>) -> (r: Vec<T>)
    ensures
        text::views(r@) == sorted_by_rank::<T>(text::views(list@)),
        r@.len() == list@.len(),
{
    let ghost items = list@;
    let ghost all = text::views(list@);
    let mut out: Vec<T> = Vec::new();
    assert(all.take(0) =~= Seq::<T::V>::empty());
    assert(text::views(out@) =~= sorted_by_rank::<T>(all.take(0)));
    for item in it: list
        invariant
            it.seq() == items,
            all == text::views(items),
            text::views(out@) == sorted_by_rank::<T>(all.take(it.index() as int)),
    {
        proof {
            let at = it.index() as int;
            assert(all[at] == item@);
            assert(all.take(at + 1).drop_last() =~= all.take(at));
        }
        insert_ranked(&mut out, item);
    }
    proof {
        assert(all.take(all.len() as int) =~= all);
        lemma_sorted_by_rank::<T>(all);
    }
    out
}

/// What is left of a list stands in it and is wanted.
pub proof fn lemma_left_is_wanted<A>(s: Seq<A>, wanted: spec_fn(A) -> bool, i: int)
    requires
        0 <= i < s.filter(wanted).len(),
    ensures
        s.contains(s.filter(wanted)[i]),
        wanted(s.filter(wanted)[i]),
{
    s.lemma_filter_pred(wanted, i);
    assert(s.filter(wanted).contains(s.filter(wanted)[i]));
    s.lemma_filter_contains_rev(wanted, s.filter(wanted)[i]);
}

} // verus!
