//! Stable sorting by a declared order.

use vstd::prelude::*;

use crate::text;

verus! {

/// Values that are compared by what they hold.
pub trait Ordered: DeepView + Sized {
    /// Whether `a` may stand before `b` in a sorted list.
    spec fn leq(a: Self::V, b: Self::V) -> bool;

    /// The order is total.
    proof fn leq_total(a: Self::V, b: Self::V)
        ensures
            Self::leq(a, b) || Self::leq(b, a),
    ;

    /// The order is transitive.
    proof fn leq_transitive(a: Self::V, b: Self::V, c: Self::V)
        requires
            Self::leq(a, b),
            Self::leq(b, c),
        ensures
            Self::leq(a, c),
    ;

    /// Whether `self` may stand before `other` in a sorted list.
    fn may_precede(&self, other: &Self) -> (r: bool)
        ensures
            r == Self::leq(self.deep_view(), other.deep_view()),
    ;
}

/// `s` with `x` put in behind everything at its end that may stand before it.
pub open spec fn inserted<T>(s: Seq<T>, x: T, leq: spec_fn(T, T) -> bool) -> Seq<T>
    decreases s.len(),
{
    if s.len() == 0 || leq(s.last(), x) {
        s.push(x)
    } else {
        inserted(s.drop_last(), x, leq).push(s.last())
    }
}

/// `s` sorted by `leq`; elements that `leq` does not tell apart keep their order.
pub open spec fn sorted<T>(s: Seq<T>, leq: spec_fn(T, T) -> bool) -> Seq<T>
    decreases s.len(),
{
    if s.len() == 0 {
        s
    } else {
        inserted(sorted(s.drop_last(), leq), s.last(), leq)
    }
}

/// `s` sorted by the order of its elements' type.
pub open spec fn sorted_items<T: Ordered>(s: Seq<T::V>) -> Seq<T::V> {
    sorted(s, |a: T::V, b: T::V| T::leq(a, b))
}

/// Whether no element stands before one that it may not precede.
pub open spec fn in_order<T>(s: Seq<T>, leq: spec_fn(T, T) -> bool) -> bool {
    forall|i: int, j: int| 0 <= i < j < s.len() ==> #[trigger] leq(s[i], s[j])
}

/// Whether `leq` is total and transitive.
pub open spec fn is_order<T>(leq: spec_fn(T, T) -> bool) -> bool {
    &&& forall|a: T, b: T| #[trigger] leq(a, b) || leq(b, a)
    &&& forall|a: T, b: T, c: T| #[trigger] leq(a, b) && #[trigger] leq(b, c) ==> leq(a, c)
}

proof fn inserted_holds_the_same<T>(s: Seq<T>, x: T, leq: spec_fn(T, T) -> bool)
    ensures
        inserted(s, x, leq).to_multiset() == s.to_multiset().insert(x),
        inserted(s, x, leq).len() == s.len() + 1,
    decreases s.len(),
{
    broadcast use vstd::seq_lib::group_to_multiset_ensures;

    if !(s.len() == 0 || leq(s.last(), x)) {
        inserted_holds_the_same(s.drop_last(), x, leq);
        assert(s =~= s.drop_last().push(s.last()));
        assert(s.to_multiset() =~= s.drop_last().to_multiset().insert(s.last()));
        assert(inserted(s, x, leq).to_multiset() =~= s.to_multiset().insert(x));
    }
}

proof fn inserted_in_order<T>(s: Seq<T>, x: T, leq: spec_fn(T, T) -> bool)
    requires
        is_order(leq),
        in_order(s, leq),
    ensures
        in_order(inserted(s, x, leq), leq),
        forall|i: int| 0 <= i < inserted(s, x, leq).len() ==> (#[trigger] inserted(s, x, leq)[i]) == x
            || s.contains(inserted(s, x, leq)[i]),
    decreases s.len(),
{
    let r = inserted(s, x, leq);
    if s.len() == 0 {
    } else if leq(s.last(), x) {
        assert forall|i: int, j: int| 0 <= i < j < r.len() implies #[trigger] leq(r[i], r[j]) by {
            if j == s.len() && i < s.len() - 1 {
                assert(leq(s[i], s[s.len() - 1]));
            }
        }
        assert forall|i: int| 0 <= i < r.len() implies (#[trigger] r[i]) == x || s.contains(r[i]) by {
            if i < s.len() {
                assert(s[i] == r[i]);
            }
        }
    } else {
        let d = s.drop_last();
        inserted_in_order(d, x, leq);
        let q = inserted(d, x, leq);
        assert(leq(x, s.last()));
        assert forall|i: int| 0 <= i < q.len() implies #[trigger] leq(q[i], s.last()) by {
            assert(q[i] == x || d.contains(q[i]));
            if q[i] != x {
                let k = choose|k: int| 0 <= k < d.len() && d[k] == q[i];
                assert(leq(s[k], s[s.len() - 1]));
            }
        }
        assert forall|i: int| 0 <= i < r.len() implies (#[trigger] r[i]) == x || s.contains(r[i]) by {
            if i < q.len() {
                assert(r[i] == q[i]);
                if q[i] != x {
                    let k = choose|k: int| 0 <= k < d.len() && d[k] == q[i];
                    assert(s[k] == r[i]);
                }
            } else {
                assert(s[s.len() - 1] == r[i]);
            }
        }
        assert forall|i: int, j: int| 0 <= i < j < r.len() implies #[trigger] leq(r[i], r[j]) by {
            if j < q.len() {
                assert(leq(q[i], q[j]));
            }
        }
    }
}

/// Sorting keeps every element and puts them in order.
pub proof fn sorting_orders<T>(s: Seq<T>, leq: spec_fn(T, T) -> bool)
    requires
        is_order(leq),
    ensures
        in_order(sorted(s, leq), leq),
        sorted(s, leq).to_multiset() == s.to_multiset(),
        sorted(s, leq).len() == s.len(),
    decreases s.len(),
{
    broadcast use vstd::seq_lib::group_to_multiset_ensures;

    if s.len() > 0 {
        sorting_orders(s.drop_last(), leq);
        inserted_in_order(sorted(s.drop_last(), leq), s.last(), leq);
        inserted_holds_the_same(sorted(s.drop_last(), leq), s.last(), leq);
        assert(s =~= s.drop_last().push(s.last()));
    }
}

proof fn ordered_lists_agree<T>(a: Seq<T>, b: Seq<T>, leq: spec_fn(T, T) -> bool)
    requires
        a.to_multiset() == b.to_multiset(),
        in_order(a, leq),
        in_order(b, leq),
        forall|x: T, y: T|
            a.contains(x) && a.contains(y) && #[trigger] leq(x, y) && leq(y, x) ==> x == y,
        is_order(leq),
    ensures
        a == b,
    decreases a.len(),
{
    broadcast use vstd::seq_lib::group_to_multiset_ensures;

    assert(a.len() == a.to_multiset().len());
    assert(b.len() == b.to_multiset().len());
    if a.len() == 0 {
        assert(a =~= b);
    } else {
        let (x, y) = (a.last(), b.last());
        assert(a.contains(x)) by {
            assert(a[a.len() - 1] == x);
        }
        assert(b.contains(y)) by {
            assert(b[b.len() - 1] == y);
        }
        assert(a.to_multiset().count(x) > 0 && b.to_multiset().count(y) > 0);
        assert(b.contains(x) && a.contains(y));
        let i = choose|i: int| 0 <= i < a.len() && a[i] == y;
        let j = choose|j: int| 0 <= j < b.len() && b[j] == x;
        assert(leq(x, x));
        assert(i == a.len() - 1 || leq(a[i], a[a.len() - 1]));
        assert(j == b.len() - 1 || leq(b[j], b[b.len() - 1]));
        assert(leq(y, x) && leq(x, y));
        assert(x == y);
        let (p, q) = (a.drop_last(), b.drop_last());
        assert(a =~= p.push(x));
        assert(b =~= q.push(x));
        assert(p.to_multiset() =~= a.to_multiset().remove(x));
        assert(q.to_multiset() =~= b.to_multiset().remove(x));
        assert forall|u: T, v: T|
            p.contains(u) && p.contains(v) && #[trigger] leq(u, v) && leq(v, u) implies u == v by {
            let k = choose|k: int| 0 <= k < p.len() && p[k] == u;
            let l = choose|l: int| 0 <= l < p.len() && p[l] == v;
            assert(a[k] == u && a[l] == v);
        }
        ordered_lists_agree(p, q, leq);
    }
}

/// Two arrangements of the same elements sort to the same list, provided that elements which
/// the order does not tell apart are equal.
pub proof fn sorting_forgets_the_arrangement<T>(a: Seq<T>, b: Seq<T>, leq: spec_fn(T, T) -> bool)
    requires
        a.to_multiset() == b.to_multiset(),
        is_order(leq),
        forall|x: T, y: T|
            a.contains(x) && a.contains(y) && #[trigger] leq(x, y) && leq(y, x) ==> x == y,
    ensures
        sorted(a, leq) == sorted(b, leq),
{
    broadcast use vstd::seq_lib::group_to_multiset_ensures;

    sorting_orders(a, leq);
    sorting_orders(b, leq);
    let s = sorted(a, leq);
    assert forall|x: T, y: T|
        s.contains(x) && s.contains(y) && #[trigger] leq(x, y) && leq(y, x) implies x == y by {
        assert(s.to_multiset().count(x) > 0 && s.to_multiset().count(y) > 0);
        assert(a.contains(x) && a.contains(y));
    }
    ordered_lists_agree(s, sorted(b, leq), leq);
}

proof fn inserting_ranks<T, U>(
    s: Seq<T>,
    x: T,
    leq: spec_fn(T, T) -> bool,
    rank: spec_fn(T) -> U,
    under: spec_fn(U, U) -> bool,
)
    requires
        forall|a: T, b: T| #[trigger] leq(a, b) == under(rank(a), rank(b)),
    ensures
        inserted(s, x, leq).map_values(rank) == inserted(s.map_values(rank), rank(x), under),
    decreases s.len(),
{
    let r = s.map_values(rank);
    if s.len() == 0 {
        assert(s.push(x).map_values(rank) =~= r.push(rank(x)));
    } else {
        assert(r.last() == rank(s.last()));
        assert(leq(s.last(), x) == under(r.last(), rank(x)));
        if leq(s.last(), x) {
            assert(s.push(x).map_values(rank) =~= r.push(rank(x)));
        } else {
            inserting_ranks(s.drop_last(), x, leq, rank, under);
            let d = inserted(s.drop_last(), x, leq);
            assert(r.drop_last() =~= s.drop_last().map_values(rank));
            assert(d.push(s.last()).map_values(rank) =~= d.map_values(rank).push(r.last()));
        }
    }
}

/// Where elements are compared by a rank, sorting them sorts their ranks.
pub proof fn sorting_ranks<T, U>(
    s: Seq<T>,
    leq: spec_fn(T, T) -> bool,
    rank: spec_fn(T) -> U,
    under: spec_fn(U, U) -> bool,
)
    requires
        forall|a: T, b: T| #[trigger] leq(a, b) == under(rank(a), rank(b)),
    ensures
        sorted(s, leq).map_values(rank) == sorted(s.map_values(rank), under),
    decreases s.len(),
{
    let r = s.map_values(rank);
    if s.len() == 0 {
        assert(s.map_values(rank) =~= sorted(r, under));
    } else {
        sorting_ranks(s.drop_last(), leq, rank, under);
        inserting_ranks(sorted(s.drop_last(), leq), s.last(), leq, rank, under);
        assert(r.drop_last() =~= s.drop_last().map_values(rank));
    }
}

/// Two arrangements of the same elements have the same ranks.
pub proof fn ranks_of_the_same<T, U>(a: Seq<T>, b: Seq<T>, rank: spec_fn(T) -> U)
    requires
        a.to_multiset() == b.to_multiset(),
    ensures
        a.map_values(rank).to_multiset() == b.map_values(rank).to_multiset(),
    decreases a.len(),
{
    broadcast use vstd::seq_lib::group_to_multiset_ensures;

    assert(a.len() == a.to_multiset().len());
    assert(b.len() == b.to_multiset().len());
    let (r, s) = (a.map_values(rank), b.map_values(rank));
    if a.len() == 0 {
        assert(r =~= s);
    } else {
        let x = a.last();
        assert(a.contains(x)) by {
            assert(a[a.len() - 1] == x);
        }
        assert(a.to_multiset().count(x) > 0);
        assert(b.contains(x));
        let k = choose|k: int| 0 <= k < b.len() && b[k] == x;
        let (p, q) = (a.drop_last(), b.remove(k));
        assert(a =~= p.push(x));
        assert(p.to_multiset() =~= a.to_multiset().remove(x));
        assert(q.to_multiset() =~= b.to_multiset().remove(x));
        ranks_of_the_same(p, q, rank);
        assert(r =~= p.map_values(rank).push(rank(x)));
        assert(s.remove(k) =~= q.map_values(rank));
        assert(s.to_multiset() =~= s.remove(k).to_multiset().insert(rank(x)));
        assert(r.to_multiset() =~= s.to_multiset());
    }
}

/// The order of an [`Ordered`] type is total and transitive.
pub proof fn items_are_ordered<T: Ordered>()
    ensures
        is_order(|a: T::V, b: T::V| T::leq(a, b)),
{
    let leq = |a: T::V, b: T::V| T::leq(a, b);
    assert forall|a: T::V, b: T::V| #[trigger] leq(a, b) || leq(b, a) by {
        T::leq_total(a, b);
    }
    assert forall|a: T::V, b: T::V, c: T::V| #[trigger] leq(a, b) && #[trigger] leq(b, c) implies leq(
        a,
        c,
    ) by {
        T::leq_transitive(a, b, c);
    }
}

/// The elements of `s` in the arrangement that `indices` gives.
pub open spec fn arranged<T>(s: Seq<T>, indices: Seq<usize>) -> Seq<T> {
    Seq::new(indices.len(), |i: int| s[indices[i] as int])
}

proof fn insertion_point<T>(s: Seq<T>, x: T, leq: spec_fn(T, T) -> bool, k: int)
    requires
        0 <= k <= s.len(),
        forall|i: int| k <= i < s.len() ==> !leq(#[trigger] s[i], x),
        k > 0 ==> leq(s[k - 1], x),
    ensures
        inserted(s, x, leq) == s.insert(k, x),
    decreases s.len(),
{
    if k == s.len() {
        assert(s.insert(k, x) =~= s.push(x));
    } else {
        let d = s.drop_last();
        assert(!leq(s[s.len() - 1], x));
        insertion_point(d, x, leq, k);
        assert(s.insert(k, x) =~= d.insert(k, x).push(s.last()));
    }
}

/// The arrangement that sorts `items`: element `i` of the result is the index of the item that
/// comes `i`-th.
pub fn sort<T: Ordered>(items: &Vec<T>) -> (indices: Vec<usize>)
    ensures
        indices@.len() == items@.len(),
        forall|i: int| 0 <= i < indices@.len() ==> (#[trigger] indices@[i]) < items@.len(),
        arranged(items.deep_view(), indices@) == sorted_items::<T>(items.deep_view()),
{
    let ghost leq = |a: T::V, b: T::V| T::leq(a, b);
    let ghost all = items.deep_view();
    let mut indices: Vec<usize> = Vec::new();
    let mut n: usize = 0;
    proof {
        assert(arranged(all, indices@) =~= all.take(0));
    }
    while n < items.len()
        invariant
            n <= items@.len(),
            all == items.deep_view(),
            leq == (|a: T::V, b: T::V| T::leq(a, b)),
            indices@.len() == n,
            forall|i: int| 0 <= i < indices@.len() ==> (#[trigger] indices@[i]) < n,
            arranged(all, indices@) == sorted(all.take(n as int), leq),
        decreases items.len() - n,
    {
        let ghost done = arranged(all, indices@);
        let ghost before = indices@;
        let ghost x = all[n as int];
        let mut k: usize = indices.len();
        while k > 0 && !items[indices[k - 1]].may_precede(&items[n])
            invariant
                n < items@.len(),
                all == items.deep_view(),
                leq == (|a: T::V, b: T::V| T::leq(a, b)),
                indices@ == before,
                before.len() == n,
                k <= n,
                done == arranged(all, before),
                x == all[n as int],
                forall|i: int| 0 <= i < indices@.len() ==> (#[trigger] indices@[i]) < n,
                forall|i: int| k <= i < done.len() ==> !leq(#[trigger] done[i], x),
            decreases k,
        {
            assert(done[k - 1] == items@[indices@[k - 1] as int].deep_view());
            k -= 1;
        }
        proof {
            if k > 0 {
                assert(done[k - 1] == items@[indices@[k - 1] as int].deep_view());
            }
            insertion_point(done, x, leq, k as int);
        }
        indices.insert(k, n);
        proof {
            assert(arranged(all, indices@) =~= done.insert(k as int, x));
            assert(all.take(n + 1).drop_last() =~= all.take(n as int));
            assert forall|i: int| 0 <= i < indices@.len() implies (#[trigger] indices@[i]) < n + 1 by {
                if i < k {
                    assert(indices@[i] == before[i]);
                } else if i > k {
                    assert(indices@[i] == before[i - 1]);
                }
            }
        }
        n += 1;
    }
    assert(all.take(n as int) =~= all);
    indices
}

impl Ordered for String {
    open spec fn leq(a: Seq<char>, b: Seq<char>) -> bool {
        text::at_most(a, b)
    }

    proof fn leq_total(a: Seq<char>, b: Seq<char>) {
        text::precedes_total(a, b);
    }

    proof fn leq_transitive(a: Seq<char>, b: Seq<char>, c: Seq<char>) {
        text::at_most_transitive(a, b, c);
    }

    fn may_precede(&self, other: &Self) -> bool {
        proof {
            text::precedes_total(self@, other@);
            assert(<Self as Ordered>::leq(self@, other@) == text::at_most(self@, other@));
        }
        match text::compare(self.as_str(), other.as_str()) {
            text::Order::Less => true,
            text::Order::Equal => true,
            text::Order::Greater => false,
        }
    }
}

} // verus!
