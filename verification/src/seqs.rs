//! Vocabulary for sequences: views of vectors, first positions, filtered index ranges, stable
//! insertion.
use vstd::prelude::*;

verus! {

/// The views of the elements of `s`, in order.
pub open spec fn views<T: View>(s: Seq<T>) -> Seq<T::V> {
    Seq::new(s.len(), |i: int| s[i].view())
}

pub proof fn lemma_views_push<T: View>(a: Seq<T>, x: T)
    ensures
        views(a.push(x)) == views(a).push(x.view()),
{
    assert(views(a.push(x)) =~= views(a).push(x.view()));
}

/// `i` is the least index of `s` at which `p` holds.
pub open spec fn is_first<T>(s: Seq<T>, p: spec_fn(T) -> bool, i: int) -> bool {
    &&& 0 <= i < s.len()
    &&& p(s[i])
    &&& forall|j: int| 0 <= j < i ==> !p(#[trigger] s[j])
}

/// The least index of `s` at which `p` holds.
pub open spec fn first_index<T>(s: Seq<T>, p: spec_fn(T) -> bool) -> Option<usize> {
    if exists|i: int| is_first(s, p, i) {
        Some((choose|i: int| is_first(s, p, i)) as usize)
    } else {
        None
    }
}

pub proof fn lemma_first_index_is<T>(s: Seq<T>, p: spec_fn(T) -> bool, i: int)
    requires
        is_first(s, p, i),
    ensures
        first_index(s, p) == Some(i as usize),
{
    let c = choose|c: int| is_first(s, p, c);
    assert(is_first(s, p, c));
    if c < i {
        assert(!p(s[c]));
    }
    if i < c {
        assert(!p(s[i]));
    }
}

pub proof fn lemma_first_index_none<T>(s: Seq<T>, p: spec_fn(T) -> bool)
    requires
        forall|j: int| 0 <= j < s.len() ==> !p(#[trigger] s[j]),
    ensures
        first_index(s, p) is None,
{
}

/// Whatever satisfies `p` somewhere does so first somewhere.
pub proof fn lemma_first_index_exists<T>(s: Seq<T>, p: spec_fn(T) -> bool, i: int)
    requires
        0 <= i < s.len(),
        p(s[i]),
        s.len() <= usize::MAX,
    ensures
        first_index(s, p) matches Some(k) && k <= i && is_first(s, p, k as int),
    decreases i,
{
    if exists|j: int| 0 <= j < i && p(#[trigger] s[j]) {
        let j = choose|j: int| 0 <= j < i && p(#[trigger] s[j]);
        lemma_first_index_exists(s, p, j);
    } else {
        assert(is_first(s, p, i));
        lemma_first_index_is(s, p, i);
    }
}

/// The indices below `n` at which `p` holds, in increasing order.
pub open spec fn index_filter(n: nat, p: spec_fn(int) -> bool) -> Seq<usize>
    decreases n,
{
    if n == 0 {
        Seq::empty()
    } else {
        let rest = index_filter((n - 1) as nat, p);
        if p(n - 1) {
            rest.push((n - 1) as usize)
        } else {
            rest
        }
    }
}

pub proof fn lemma_index_filter(n: nat, p: spec_fn(int) -> bool)
    requires
        n <= usize::MAX,
    ensures
        forall|k: int|
            0 <= k < index_filter(n, p).len() ==> (#[trigger] index_filter(n, p)[k]) < n && p(
                index_filter(n, p)[k] as int,
            ),
        forall|i: usize| i < n && #[trigger] p(i as int) ==> index_filter(n, p).contains(i),
        forall|j: int, k: int|
            0 <= j < k < index_filter(n, p).len() ==> (#[trigger] index_filter(n, p)[j])
                < (#[trigger] index_filter(n, p)[k]),
    decreases n,
{
    if n > 0 {
        let rest = index_filter((n - 1) as nat, p);
        lemma_index_filter((n - 1) as nat, p);
        let all = index_filter(n, p);
        assert forall|i: usize| i < n && #[trigger] p(i as int) implies all.contains(i) by {
            if i == n - 1 {
                assert(all[all.len() - 1] == i);
            } else {
                assert(rest.contains(i));
                let k = choose|k: int| 0 <= k < rest.len() && rest[k] == i;
                assert(all[k] == i);
            }
        }
    }
}

/// What `f` gives for the indices below `n`, in increasing order, where it gives anything.
pub open spec fn index_filter_map<B>(n: nat, f: spec_fn(int) -> Option<B>) -> Seq<B>
    decreases n,
{
    if n == 0 {
        Seq::empty()
    } else {
        let rest = index_filter_map((n - 1) as nat, f);
        match f(n - 1) {
            Some(b) => rest.push(b),
            None => rest,
        }
    }
}

pub proof fn lemma_index_filter_map<B>(n: nat, f: spec_fn(int) -> Option<B>)
    ensures
        index_filter_map(n, f).len() <= n,
        forall|k: int|
            0 <= k < index_filter_map(n, f).len() ==> exists|i: int|
                0 <= i < n && #[trigger] f(i) == Some(#[trigger] index_filter_map(n, f)[k]),
        forall|i: int|
            0 <= i < n && (#[trigger] f(i)) is Some ==> index_filter_map(n, f).contains(f(i)->0),
    decreases n,
{
    if n > 0 {
        let rest = index_filter_map((n - 1) as nat, f);
        let all = index_filter_map(n, f);
        lemma_index_filter_map((n - 1) as nat, f);
        assert forall|k: int| 0 <= k < all.len() implies exists|i: int|
            0 <= i < n && #[trigger] f(i) == Some(#[trigger] all[k]) by {
            if k < rest.len() {
                let i = choose|i: int| 0 <= i < n - 1 && #[trigger] f(i) == Some(rest[k]);
                assert(f(i) == Some(all[k]));
            } else {
                assert(f(n - 1) == Some(all[k]));
            }
        }
        assert forall|i: int| 0 <= i < n && (#[trigger] f(i)) is Some implies all.contains(
            f(i)->0,
        ) by {
            if i == n - 1 {
                assert(all[all.len() - 1] == f(i)->0);
            } else {
                assert(rest.contains(f(i)->0));
                let k = choose|k: int| 0 <= k < rest.len() && rest[k] == f(i)->0;
                assert(all[k] == f(i)->0);
            }
        }
    }
}

/// Where `x` goes in `s` so that it follows everything that may stand before it, counted from
/// the end: behind the last element `y` with `le(y, x)`.
pub open spec fn insertion_point<T>(s: Seq<T>, x: T, le: spec_fn(T, T) -> bool) -> int
    decreases s.len(),
{
    if s.len() == 0 || le(s.last(), x) {
        s.len() as int
    } else {
        insertion_point(s.drop_last(), x, le)
    }
}

/// `s` in the order of `le`, elements that tie staying in the order in which they came.
pub open spec fn stable_sort<T>(s: Seq<T>, le: spec_fn(T, T) -> bool) -> Seq<T>
    decreases s.len(),
{
    if s.len() == 0 {
        s
    } else {
        let rest = stable_sort(s.drop_last(), le);
        rest.insert(insertion_point(rest, s.last(), le), s.last())
    }
}

pub proof fn lemma_insertion_point<T>(s: Seq<T>, x: T, le: spec_fn(T, T) -> bool)
    ensures
        0 <= insertion_point(s, x, le) <= s.len(),
        insertion_point(s, x, le) > 0 ==> le(s[insertion_point(s, x, le) - 1], x),
        forall|j: int| insertion_point(s, x, le) <= j < s.len() ==> !le(#[trigger] s[j], x),
    decreases s.len(),
{
    if s.len() == 0 || le(s.last(), x) {
    } else {
        lemma_insertion_point(s.drop_last(), x, le);
        assert forall|j: int| insertion_point(s, x, le) <= j < s.len() implies !le(
            #[trigger] s[j],
            x,
        ) by {
            if j < s.len() - 1 {
                assert(s.drop_last()[j] == s[j]);
            }
        }
    }
}

/// An index that ends the run of larger elements at the end of `s` is the insertion point.
pub proof fn lemma_insertion_point_is<T>(s: Seq<T>, x: T, le: spec_fn(T, T) -> bool, i: int)
    requires
        0 <= i <= s.len(),
        i > 0 ==> le(s[i - 1], x),
        forall|j: int| i <= j < s.len() ==> !le(#[trigger] s[j], x),
    ensures
        insertion_point(s, x, le) == i,
{
    lemma_insertion_point(s, x, le);
    let p = insertion_point(s, x, le);
    if p < i {
        assert(!le(s[i - 1], x));
    }
    if i < p {
        assert(!le(s[p - 1], x));
    }
}

pub proof fn lemma_stable_sort_push<T>(s: Seq<T>, x: T, le: spec_fn(T, T) -> bool)
    ensures
        stable_sort(s.push(x), le) == stable_sort(s, le).insert(
            insertion_point(stable_sort(s, le), x, le),
            x,
        ),
{
    assert(s.push(x).drop_last() =~= s);
}

/// `le` compares any two elements and may be chained.
pub open spec fn is_preorder<T>(le: spec_fn(T, T) -> bool) -> bool {
    &&& forall|a: T, b: T| #[trigger] le(a, b) || le(b, a)
    &&& forall|a: T, b: T, c: T| #[trigger] le(a, b) && #[trigger] le(b, c) ==> le(a, c)
}

/// Every element of `s` may stand before every later one.
pub open spec fn in_order<T>(s: Seq<T>, le: spec_fn(T, T) -> bool) -> bool {
    forall|i: int, j: int| 0 <= i < j < s.len() ==> le(#[trigger] s[i], #[trigger] s[j])
}

/// Sorting keeps the elements and their number, and puts them in order.
pub proof fn lemma_stable_sort<T>(s: Seq<T>, le: spec_fn(T, T) -> bool)
    requires
        is_preorder(le),
    ensures
        stable_sort(s, le).len() == s.len(),
        in_order(stable_sort(s, le), le),
        stable_sort(s, le).to_multiset() == s.to_multiset(),
    decreases s.len(),
{
    broadcast use vstd::seq_lib::group_to_multiset_ensures;

    if s.len() > 0 {
        let rest = stable_sort(s.drop_last(), le);
        let x = s.last();
        lemma_stable_sort(s.drop_last(), le);
        lemma_insertion_point(rest, x, le);
        let p = insertion_point(rest, x, le);
        let all = rest.insert(p, x);
        assert forall|i: int, j: int| 0 <= i < j < all.len() implies le(
            #[trigger] all[i],
            #[trigger] all[j],
        ) by {
            let ri = if i < p { i } else { i - 1 };
            let rj = if j < p { j } else { j - 1 };
            if j == p {
                assert(all[i] == rest[i]);
                if i < p - 1 {
                    assert(le(rest[i], rest[p - 1]));
                }
            } else if i == p {
                assert(all[j] == rest[rj]);
                assert(!le(rest[rj], x));
                assert(le(x, rest[rj]) || le(rest[rj], x));
            } else {
                assert(all[i] == rest[ri] && all[j] == rest[rj]);
            }
        }
        assert(all.remove(p) =~= rest);
        assert(all.to_multiset().remove(x) =~= rest.to_multiset());
        assert(all.contains(x)) by {
            assert(all[p] == x);
        }
        assert(s =~= s.drop_last().push(x));
        assert(all.to_multiset() =~= rest.to_multiset().insert(x));
    }
}

/// Sorting commutes with a map that keeps the order.
pub proof fn lemma_stable_sort_map<T, U>(
    s: Seq<T>,
    f: spec_fn(T) -> U,
    le: spec_fn(T, T) -> bool,
    le2: spec_fn(U, U) -> bool,
)
    requires
        forall|a: T, b: T| #[trigger] le(a, b) == le2(f(a), f(b)),
    ensures
        stable_sort(s.map_values(f), le2) == stable_sort(s, le).map_values(f),
    decreases s.len(),
{
    if s.len() > 0 {
        let front = s.drop_last();
        let rest = stable_sort(front, le);
        let x = s.last();
        lemma_stable_sort_map(front, f, le, le2);
        assert(s.map_values(f).drop_last() =~= front.map_values(f));
        assert(s.map_values(f).last() == f(x));
        lemma_insertion_point(rest, x, le);
        let p = insertion_point(rest, x, le);
        let mapped = rest.map_values(f);
        assert forall|j: int| p <= j < mapped.len() implies !le2(#[trigger] mapped[j], f(x)) by {
            assert(!le(rest[j], x));
        }
        if p > 0 {
            assert(le(rest[p - 1], x));
        }
        lemma_insertion_point_is(mapped, f(x), le2, p);
        assert(mapped.insert(p, f(x)) =~= rest.insert(p, x).map_values(f));
    } else {
        assert(s.map_values(f) =~= Seq::empty());
        assert(stable_sort(s, le).map_values(f) =~= Seq::empty());
    }
}

/// `x` and `y` may stand in either order.
pub open spec fn ties<T>(x: T, le: spec_fn(T, T) -> bool) -> spec_fn(T) -> bool {
    |y: T| le(x, y) && le(y, x)
}

/// Sorting keeps elements that tie in the order in which they came.
pub proof fn lemma_stable_sort_keeps_ties<T>(s: Seq<T>, le: spec_fn(T, T) -> bool, x: T)
    requires
        is_preorder(le),
    ensures
        stable_sort(s, le).filter(ties(x, le)) == s.filter(ties(x, le)),
    decreases s.len(),
{
    let q = ties(x, le);
    if s.len() > 0 {
        let front = s.drop_last();
        let rest = stable_sort(front, le);
        let l = s.last();
        lemma_stable_sort_keeps_ties(front, le, x);
        lemma_insertion_point(rest, l, le);
        let p = insertion_point(rest, l, le);
        let head = rest.take(p);
        let tail = rest.skip(p);
        assert(rest =~= head + tail);
        Seq::filter_distributes_over_add(head, tail, q);
        assert(rest.insert(p, l) =~= head.push(l) + tail);
        Seq::filter_distributes_over_add(head.push(l), tail, q);
        head.lemma_filter_push(l, q);
        assert(s =~= front.push(l));
        front.lemma_filter_push(l, q);
        if q(l) {
            assert forall|i: int| 0 <= i < tail.len() implies !q(#[trigger] tail[i]) by {
                assert(tail[i] == rest[p + i]);
                if q(tail[i]) {
                    assert(le(tail[i], x) && le(x, l));
                }
            }
            lemma_filter_none(tail, q);
            assert(head.filter(q).push(l) + tail.filter(q) =~= head.filter(q).push(l));
            assert(head.filter(q) + tail.filter(q) =~= head.filter(q));
        }
    }
}

/// Nothing is left where nothing passes.
pub proof fn lemma_filter_none<T>(s: Seq<T>, p: spec_fn(T) -> bool)
    requires
        forall|i: int| 0 <= i < s.len() ==> !p(#[trigger] s[i]),
    ensures
        s.filter(p) == Seq::<T>::empty(),
    decreases s.len(),
{
    reveal(Seq::filter);
    if s.len() > 0 {
        assert forall|i: int| 0 <= i < s.drop_last().len() implies !p(
            #[trigger] s.drop_last()[i],
        ) by {
            assert(s.drop_last()[i] == s[i]);
        }
        assert(!p(s[s.len() - 1]));
        lemma_filter_none(s.drop_last(), p);
    }
}

/// Elements that pass keep their order.
pub proof fn lemma_filter_keeps_order<T>(s: Seq<T>, p: spec_fn(T) -> bool, i: int, j: int) -> (r: (
    int,
    int,
))
    requires
        0 <= i < j < s.len(),
        p(s[i]),
        p(s[j]),
    ensures
        0 <= r.0 < r.1 < s.filter(p).len(),
        s.filter(p)[r.0] == s[i],
        s.filter(p)[r.1] == s[j],
{
    let a = s.take(j);
    let b = s.skip(j);
    assert(s =~= a + b);
    Seq::filter_distributes_over_add(a, b, p);
    assert(a[i] == s[i]);
    a.lemma_filter_contains(p, i);
    let x = choose|x: int| 0 <= x < a.filter(p).len() && a.filter(p)[x] == s[i];
    assert(b[0] == s[j]);
    b.lemma_filter_contains(p, 0);
    let y = choose|y: int| 0 <= y < b.filter(p).len() && b.filter(p)[y] == s[j];
    (x, a.filter(p).len() + y)
}

/// What has passed came in the same order.
pub proof fn lemma_filter_came_in_order<T>(s: Seq<T>, p: spec_fn(T) -> bool, a: int, b: int) -> (r:
    (int, int))
    requires
        0 <= a < b < s.filter(p).len(),
    ensures
        0 <= r.0 < r.1 < s.len(),
        s[r.0] == s.filter(p)[a],
        s[r.1] == s.filter(p)[b],
        p(s[r.0]),
        p(s[r.1]),
    decreases s.len(),
{
    reveal(Seq::filter);
    let head = s.drop_last();
    let l = s.last();
    let all = s.filter(p);
    assert(s =~= head.push(l));
    head.lemma_filter_push(l, p);
    let before = head.filter(p);
    if b < before.len() {
        let r = lemma_filter_came_in_order(head, p, a, b);
        assert(all[a] == before[a] && all[b] == before[b]);
        r
    } else {
        assert(p(l) && all[b] == l);
        assert(all[a] == before[a]);
        head.lemma_filter_pred(p, a);
        assert(before.contains(before[a]));
        head.lemma_filter_contains_rev(p, before[a]);
        let i = choose|i: int| 0 <= i < head.len() && head[i] == before[a];
        (i, s.len() - 1)
    }
}

/// What `f` gives comes in the order of the indices.
pub proof fn lemma_index_filter_map_order<B>(n: nat, f: spec_fn(int) -> Option<B>, a: int, b: int)
    -> (r: (int, int))
    requires
        0 <= a < b < index_filter_map(n, f).len(),
    ensures
        0 <= r.0 < r.1 < n,
        f(r.0) == Some(index_filter_map(n, f)[a]),
        f(r.1) == Some(index_filter_map(n, f)[b]),
    decreases n,
{
    let m = (n - 1) as nat;
    let rest = index_filter_map(m, f);
    let all = index_filter_map(n, f);
    if b < rest.len() {
        assert(all[a] == rest[a] && all[b] == rest[b]);
        lemma_index_filter_map_order(m, f, a, b)
    } else {
        lemma_index_filter_map(m, f);
        assert(all[a] == rest[a]);
        let k = choose|k: int| 0 <= k < m && #[trigger] f(k) == Some(rest[a]);
        (k, n - 1)
    }
}

/// Where two sorted elements came from: they are in order, and elements that tie are as they
/// came.
pub proof fn lemma_stable_sort_order<T>(
    s: Seq<T>,
    le: spec_fn(T, T) -> bool,
    i: int,
    j: int,
) -> (r: (int, int))
    requires
        is_preorder(le),
        0 <= i < j < stable_sort(s, le).len(),
    ensures
        0 <= r.0 < s.len(),
        0 <= r.1 < s.len(),
        r.0 != r.1,
        s[r.0] == stable_sort(s, le)[i],
        s[r.1] == stable_sort(s, le)[j],
        le(s[r.0], s[r.1]),
        le(s[r.1], s[r.0]) ==> r.0 < r.1,
{
    let sorted = stable_sort(s, le);
    let x = sorted[i];
    let y = sorted[j];
    lemma_stable_sort(s, le);
    assert(le(x, y));
    if le(y, x) {
        let p = ties(x, le);
        assert(le(x, x));
        assert(p(x) && p(y));
        let (a, b) = lemma_filter_keeps_order(sorted, p, i, j);
        lemma_stable_sort_keeps_ties(s, le, x);
        lemma_filter_came_in_order(s, p, a, b)
    } else {
        s.to_multiset_ensures();
        sorted.to_multiset_ensures();
        assert(sorted.contains(x) && sorted.contains(y));
        assert(sorted.to_multiset().count(x) > 0 && sorted.to_multiset().count(y) > 0);
        assert(s.contains(x) && s.contains(y));
        let a = choose|a: int| 0 <= a < s.len() && s[a] == x;
        let b = choose|b: int| 0 <= b < s.len() && s[b] == y;
        (a, b)
    }
}

/// What passes is there as often as before; nothing else is.
pub proof fn lemma_filter_count<T>(s: Seq<T>, p: spec_fn(T) -> bool, t: T)
    ensures
        s.filter(p).to_multiset().count(t) == (if p(t) {
            s.to_multiset().count(t)
        } else {
            0
        }),
    decreases s.len(),
{
    broadcast use vstd::seq_lib::group_to_multiset_ensures;

    reveal(Seq::filter);
    if s.len() > 0 {
        let head = s.drop_last();
        let l = s.last();
        assert(s =~= head.push(l));
        head.lemma_filter_push(l, p);
        lemma_filter_count(head, p, t);
        assert(s.to_multiset() =~= head.to_multiset().insert(l));
        if p(l) {
            assert(s.filter(p).to_multiset() =~= head.filter(p).to_multiset().insert(l));
        }
    } else {
        assert(s.filter(p) =~= s);
    }
}

/// What `f` gives at two indices stands in that order.
pub proof fn lemma_index_filter_map_keeps_order<B>(
    n: nat,
    f: spec_fn(int) -> Option<B>,
    i: int,
    j: int,
) -> (r: (int, int))
    requires
        0 <= i < j < n,
        f(i) is Some,
        f(j) is Some,
    ensures
        0 <= r.0 < r.1 < index_filter_map(n, f).len(),
        index_filter_map(n, f)[r.0] == f(i)->0,
        index_filter_map(n, f)[r.1] == f(j)->0,
    decreases n,
{
    let m = (n - 1) as nat;
    let rest = index_filter_map(m, f);
    let all = index_filter_map(n, f);
    if j < m {
        let r = lemma_index_filter_map_keeps_order(m, f, i, j);
        assert(all[r.0] == rest[r.0] && all[r.1] == rest[r.1]);
        r
    } else {
        lemma_index_filter_map(m, f);
        assert(rest.contains(f(i)->0));
        let a = choose|a: int| 0 <= a < rest.len() && rest[a] == f(i)->0;
        assert(all[a] == rest[a]);
        (a, rest.len() as int)
    }
}

/// Sorting puts different elements in different places.
pub proof fn lemma_stable_sort_places<T>(s: Seq<T>, le: spec_fn(T, T) -> bool, a: int, b: int) -> (r:
    (int, int))
    requires
        0 <= a < b < s.len(),
    ensures
        0 <= r.0 < stable_sort(s, le).len(),
        0 <= r.1 < stable_sort(s, le).len(),
        r.0 != r.1,
        stable_sort(s, le)[r.0] == s[a],
        stable_sort(s, le)[r.1] == s[b],
    decreases s.len(),
{
    let front = s.drop_last();
    let rest = stable_sort(front, le);
    let all = stable_sort(s, le);
    let at = insertion_point(rest, s.last(), le);
    lemma_insertion_point(rest, s.last(), le);
    assert(all == rest.insert(at, s.last()));
    if b < front.len() {
        let (x, y) = lemma_stable_sort_places(front, le, a, b);
        let i = if x < at {
            x
        } else {
            x + 1
        };
        let j = if y < at {
            y
        } else {
            y + 1
        };
        assert(all[i] == rest[x] && all[j] == rest[y]);
        (i, j)
    } else {
        let x = lemma_stable_sort_place(front, le, a);
        let i = if x < at {
            x
        } else {
            x + 1
        };
        assert(all[i] == rest[x]);
        assert(all[at] == s.last());
        (i, at)
    }
}

/// Sorting keeps every element.
pub proof fn lemma_stable_sort_place<T>(s: Seq<T>, le: spec_fn(T, T) -> bool, a: int) -> (r: int)
    requires
        0 <= a < s.len(),
    ensures
        0 <= r < stable_sort(s, le).len(),
        stable_sort(s, le)[r] == s[a],
    decreases s.len(),
{
    let front = s.drop_last();
    let rest = stable_sort(front, le);
    let all = stable_sort(s, le);
    let at = insertion_point(rest, s.last(), le);
    lemma_insertion_point(rest, s.last(), le);
    assert(all == rest.insert(at, s.last()));
    if a < front.len() {
        let x = lemma_stable_sort_place(front, le, a);
        let i = if x < at {
            x
        } else {
            x + 1
        };
        assert(all[i] == rest[x]);
        i
    } else {
        assert(all[at] == s.last());
        at
    }
}

} // verus!
