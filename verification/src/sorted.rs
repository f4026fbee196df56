//! Maps from texts, kept in the order of their keys.

use vstd::prelude::*;

use crate::text;

verus! {

/// Whether the keys come in strictly increasing order: no key twice, the smallest first.
pub open spec fn keys_increase<T>(s: Seq<(Seq<char>, T)>) -> bool {
    forall|i: int, j: int|
        0 <= i < j < s.len() ==> text::precedes((#[trigger] s[i]).0, (#[trigger] s[j]).0)
}

/// The position of `key` among the entries, if it is there.
pub open spec fn holds<T>(s: Seq<(Seq<char>, T)>, key: Seq<char>, i: int) -> bool {
    0 <= i < s.len() && s[i].0 == key
}

/// Whether `key` is among the entries.
pub open spec fn has_key<T>(s: Seq<(Seq<char>, T)>, key: Seq<char>) -> bool {
    exists|i: int| holds(s, key, i)
}

/// What the entries hold under `key`.
pub open spec fn lookup<T>(s: Seq<(Seq<char>, T)>, key: Seq<char>) -> Option<T> {
    if has_key(s, key) {
        Some(s[choose|i: int| holds(s, key, i)].1)
    } else {
        None
    }
}

/// The entries with `value` under `key`, at the place where the key belongs.
pub open spec fn put<T>(s: Seq<(Seq<char>, T)>, key: Seq<char>, value: T) -> Seq<(Seq<char>, T)>
    decreases s.len(),
{
    if s.len() == 0 {
        seq![(key, value)]
    } else if s[0].0 == key {
        seq![(key, value)] + s.drop_first()
    } else if text::precedes(key, s[0].0) {
        seq![(key, value)] + s
    } else {
        seq![s[0]] + put(s.drop_first(), key, value)
    }
}

/// A key that is at position `i` is nowhere else.
pub proof fn keys_are_unique<T>(s: Seq<(Seq<char>, T)>, i: int)
    requires
        keys_increase(s),
        0 <= i < s.len(),
    ensures
        lookup(s, s[i].0) == Some(s[i].1),
{
    assert(holds(s, s[i].0, i));
    let j = choose|j: int| holds(s, s[i].0, j);
    if i != j {
        text::precedes_irreflexive(s[i].0);
        if i < j {
            assert(text::precedes(s[i].0, s[j].0));
        } else {
            assert(text::precedes(s[j].0, s[i].0));
        }
    }
}

/// Where the key belongs is where it is put.
proof fn put_places<T>(s: Seq<(Seq<char>, T)>, key: Seq<char>, value: T, k: int)
    requires
        keys_increase(s),
        0 <= k <= s.len(),
        forall|i: int| 0 <= i < k ==> text::precedes((#[trigger] s[i]).0, key),
        k < s.len() ==> s[k].0 == key || text::precedes(key, s[k].0),
    ensures
        k < s.len() && s[k].0 == key ==> put(s, key, value) == s.update(k, (key, value)),
        !(k < s.len() && s[k].0 == key) ==> put(s, key, value) == s.insert(k, (key, value)),
    decreases s.len(),
{
    if s.len() == 0 {
        assert(s.insert(0, (key, value)) =~= seq![(key, value)]);
    } else if k == 0 {
        if s[0].0 == key {
            assert(s.update(0, (key, value)) =~= seq![(key, value)] + s.drop_first());
        } else {
            assert(s.insert(0, (key, value)) =~= seq![(key, value)] + s);
        }
    } else {
        assert(text::precedes(s[0].0, key));
        text::precedes_total(s[0].0, key);
        let rest = s.drop_first();
        assert forall|i: int, j: int| 0 <= i < j < rest.len() implies text::precedes(
            (#[trigger] rest[i]).0,
            (#[trigger] rest[j]).0,
        ) by {
            assert(rest[i] == s[i + 1] && rest[j] == s[j + 1]);
        }
        assert forall|i: int| 0 <= i < k - 1 implies text::precedes(
            (#[trigger] rest[i]).0,
            key,
        ) by {
            assert(rest[i] == s[i + 1]);
        }
        put_places(rest, key, value, k - 1);
        if k < s.len() && s[k].0 == key {
            assert(s.update(k, (key, value)) =~= seq![s[0]] + rest.update(k - 1, (key, value)));
        } else {
            assert(s.insert(k, (key, value)) =~= seq![s[0]] + rest.insert(k - 1, (key, value)));
        }
    }
}

/// What is in order is determined by its keys and what stands under them.
pub proof fn order_is_determined<T>(s: Seq<(Seq<char>, T)>, t: Seq<(Seq<char>, T)>)
    requires
        keys_increase(s),
        keys_increase(t),
        forall|k: Seq<char>| #[trigger] has_key(s, k) <==> has_key(t, k),
        forall|i: int, j: int|
            0 <= i < s.len() && 0 <= j < t.len() && (#[trigger] s[i]).0 == (#[trigger] t[j]).0
                ==> s[i].1 == t[j].1,
    ensures
        s == t,
    decreases s.len(),
{
    if s.len() == 0 {
        if t.len() > 0 {
            assert(holds(t, t[0].0, 0));
            assert(has_key(s, t[0].0));
        }
        assert(s =~= t);
    } else {
        let m = s.len() - 1;
        assert(holds(s, s[m].0, m));
        assert(has_key(s, s[m].0));
        let n = t.len() - 1;
        assert(holds(t, t[n].0, n));
        assert(has_key(s, t[n].0));
        let j = choose|j: int| holds(t, s[m].0, j);
        let i = choose|i: int| holds(s, t[n].0, i);
        if j < n && i < m {
            text::precedes_transitive(t[j].0, t[n].0, s[m].0);
            text::precedes_irreflexive(t[j].0);
        } else if j < n {
            text::precedes_irreflexive(t[n].0);
        } else if i < m {
            text::precedes_irreflexive(s[m].0);
        }
        assert(s[m].0 == t[n].0);
        let (a, b) = (s.drop_last(), t.drop_last());
        assert forall|k: Seq<char>| #[trigger] has_key(a, k) <==> has_key(b, k) by {
            if has_key(a, k) {
                let x = choose|x: int| holds(a, k, x);
                assert(holds(s, k, x));
                assert(has_key(s, k));
                let y = choose|y: int| holds(t, k, y);
                if y == n {
                    text::precedes_irreflexive(k);
                }
                assert(holds(b, k, y));
            }
            if has_key(b, k) {
                let y = choose|y: int| holds(b, k, y);
                assert(holds(t, k, y));
                assert(has_key(s, k));
                let x = choose|x: int| holds(s, k, x);
                if x == m {
                    text::precedes_irreflexive(k);
                }
                assert(holds(a, k, x));
            }
        }
        order_is_determined(a, b);
        assert(s =~= a.push(s[m]));
        assert(t =~= b.push(t[n]));
    }
}

/// Putting keeps the keys in order.
pub proof fn put_keeps_order<T>(s: Seq<(Seq<char>, T)>, key: Seq<char>, value: T)
    requires
        keys_increase(s),
    ensures
        keys_increase(put(s, key, value)),
        put(s, key, value).len() > 0,
        forall|i: int|
            0 <= i < put(s, key, value).len() ==> (#[trigger] put(s, key, value)[i]).0 == key
                || exists|j: int| 0 <= j < s.len() && s[j].0 == put(s, key, value)[i].0,
    decreases s.len(),
{
    let r = put(s, key, value);
    if s.len() == 0 {
    } else if s[0].0 == key {
        assert forall|i: int| 0 <= i < r.len() implies (#[trigger] r[i]).0 == key || exists|j: int|
            0 <= j < s.len() && s[j].0 == r[i].0 by {
            assert(s[i].0 == r[i].0);
        }
        assert forall|i: int, j: int| 0 <= i < j < r.len() implies text::precedes(
            (#[trigger] r[i]).0,
            (#[trigger] r[j]).0,
        ) by {
            assert(text::precedes(s[i].0, s[j].0));
        }
    } else if text::precedes(key, s[0].0) {
        assert forall|i: int, j: int| 0 <= i < j < r.len() implies text::precedes(
            (#[trigger] r[i]).0,
            (#[trigger] r[j]).0,
        ) by {
            assert(r[j] == s[j - 1]);
            if i == 0 {
                if j > 1 {
                    assert(text::precedes(s[0].0, s[j - 1].0));
                    text::precedes_transitive(key, s[0].0, s[j - 1].0);
                }
            } else {
                assert(text::precedes(s[i - 1].0, s[j - 1].0));
            }
        }
        assert forall|i: int| 0 <= i < r.len() implies (#[trigger] r[i]).0 == key || exists|j: int|
            0 <= j < s.len() && s[j].0 == r[i].0 by {
            if i > 0 {
                assert(s[i - 1].0 == r[i].0);
            }
        }
    } else {
        text::precedes_total(s[0].0, key);
        let rest = s.drop_first();
        assert forall|i: int, j: int| 0 <= i < j < rest.len() implies text::precedes(
            (#[trigger] rest[i]).0,
            (#[trigger] rest[j]).0,
        ) by {
            assert(rest[i] == s[i + 1] && rest[j] == s[j + 1]);
        }
        put_keeps_order(rest, key, value);
        let q = put(rest, key, value);
        assert forall|i: int, j: int| 0 <= i < j < r.len() implies text::precedes(
            (#[trigger] r[i]).0,
            (#[trigger] r[j]).0,
        ) by {
            assert(r[j] == q[j - 1]);
            if i == 0 {
                if q[j - 1].0 != key {
                    let k = choose|k: int| 0 <= k < rest.len() && rest[k].0 == q[j - 1].0;
                    assert(text::precedes(s[0].0, s[k + 1].0));
                }
            } else {
                assert(r[i] == q[i - 1]);
            }
        }
        assert forall|i: int| 0 <= i < r.len() implies (#[trigger] r[i]).0 == key || exists|j: int|
            0 <= j < s.len() && s[j].0 == r[i].0 by {
            if i == 0 {
                assert(s[0].0 == r[0].0);
            } else {
                assert(r[i] == q[i - 1]);
                if q[i - 1].0 != key {
                    let k = choose|k: int| 0 <= k < rest.len() && rest[k].0 == q[i - 1].0;
                    assert(s[k + 1].0 == r[i].0);
                }
            }
        }
    }
}

/// A key behind all others is put at the end.
pub proof fn put_at_end<T>(s: Seq<(Seq<char>, T)>, key: Seq<char>, value: T)
    requires
        keys_increase(s),
        forall|i: int| 0 <= i < s.len() ==> text::precedes((#[trigger] s[i]).0, key),
    ensures
        put(s, key, value) == s.push((key, value)),
{
    put_places(s, key, value, s.len() as int);
    assert(s.insert(s.len() as int, (key, value)) =~= s.push((key, value)));
}

/// What was put is found, and nothing else has changed.
pub proof fn put_is_found<T>(s: Seq<(Seq<char>, T)>, key: Seq<char>, value: T, other: Seq<char>)
    requires
        keys_increase(s),
    ensures
        lookup(put(s, key, value), key) == Some(value),
        other != key ==> lookup(put(s, key, value), other) == lookup(s, other),
        has_key(put(s, key, value), other) <==> other == key || has_key(s, other),
    decreases s.len(),
{
    let r = put(s, key, value);
    put_keeps_order(s, key, value);
    if s.len() == 0 {
        assert(holds(r, key, 0));
        keys_are_unique(r, 0);
        assert forall|i: int| holds(r, other, i) implies other == key by {}
        assert forall|i: int| !holds(s, other, i) by {}
    } else if s[0].0 == key || text::precedes(key, s[0].0) {
        assert(holds(r, key, 0));
        keys_are_unique(r, 0);
        let shift: int = if s[0].0 == key { 0 } else { 1 };
        if other != key {
            if has_key(s, other) {
                let i = choose|i: int| holds(s, other, i);
                assert(holds(r, other, i + shift));
                keys_are_unique(s, i);
                keys_are_unique(r, i + shift);
            }
            if has_key(r, other) {
                let i = choose|i: int| holds(r, other, i);
                assert(holds(s, other, i - shift));
            }
        }
    } else {
        let rest = s.drop_first();
        assert forall|i: int, j: int| 0 <= i < j < rest.len() implies text::precedes(
            (#[trigger] rest[i]).0,
            (#[trigger] rest[j]).0,
        ) by {
            assert(rest[i] == s[i + 1] && rest[j] == s[j + 1]);
        }
        put_is_found(rest, key, value, other);
        let q = put(rest, key, value);
        assert(has_key(q, key)) by {
            if !has_key(q, key) {
                assert(lookup(q, key) is None);
            }
        }
        let k = choose|k: int| holds(q, key, k);
        put_keeps_order(rest, key, value);
        keys_are_unique(q, k);
        assert(r[k + 1] == q[k]);
        keys_are_unique(r, k + 1);
        assert(holds(r, key, k + 1));
        if other != key {
            if has_key(s, other) {
                let i = choose|i: int| holds(s, other, i);
                keys_are_unique(s, i);
                if i == 0 {
                    assert(r[0] == s[0]);
                    assert(holds(r, other, 0));
                    keys_are_unique(r, 0);
                } else {
                    assert(holds(rest, other, i - 1));
                    keys_are_unique(rest, i - 1);
                    let j = choose|j: int| holds(q, other, j);
                    keys_are_unique(q, j);
                    assert(r[j + 1] == q[j]);
                    assert(holds(r, other, j + 1));
                    keys_are_unique(r, j + 1);
                }
            }
            if has_key(r, other) {
                let i = choose|i: int| holds(r, other, i);
                if i == 0 {
                    assert(holds(s, other, 0));
                } else {
                    assert(r[i] == q[i - 1]);
                    assert(holds(q, other, i - 1));
                    let j = choose|j: int| holds(rest, other, j);
                    assert(rest[j] == s[j + 1]);
                    assert(holds(s, other, j + 1));
                }
            }
        }
    }
}

/// The entries with each value turned by `f`.
pub open spec fn with_values<T, U>(s: Seq<(Seq<char>, T)>, f: spec_fn(T) -> U) -> Seq<
    (Seq<char>, U),
> {
    Seq::new(s.len(), |i: int| (s[i].0, f(s[i].1)))
}

/// Putting and turning values commute.
pub proof fn put_with_values<T, U>(
    s: Seq<(Seq<char>, T)>,
    key: Seq<char>,
    value: T,
    f: spec_fn(T) -> U,
)
    ensures
        with_values(put(s, key, value), f) == put(with_values(s, f), key, f(value)),
    decreases s.len(),
{
    let m = with_values(s, f);
    assert(with_values(seq![(key, value)], f) =~= seq![(key, f(value))]);
    if s.len() > 0 {
        assert(m[0].0 == s[0].0);
        assert(m.drop_first() =~= with_values(s.drop_first(), f));
        if s[0].0 == key {
            assert(with_values(put(s, key, value), f) =~= seq![(key, f(value))] + m.drop_first());
        } else if text::precedes(key, s[0].0) {
            assert(with_values(put(s, key, value), f) =~= seq![(key, f(value))] + m);
        } else {
            put_with_values(s.drop_first(), key, value, f);
            assert(with_values(put(s, key, value), f) =~= seq![m[0]] + with_values(
                put(s.drop_first(), key, value),
                f,
            ));
        }
    } else {
        assert(m =~= Seq::empty());
    }
}

/// Looking up and turning values commute.
pub proof fn lookup_with_values<T, U>(s: Seq<(Seq<char>, T)>, key: Seq<char>, f: spec_fn(T) -> U)
    requires
        keys_increase(s),
    ensures
        lookup(with_values(s, f), key) == match lookup(s, key) {
            Some(value) => Some(f(value)),
            None => None,
        },
        keys_increase(with_values(s, f)),
{
    let m = with_values(s, f);
    assert forall|i: int, j: int| 0 <= i < j < m.len() implies text::precedes(
        (#[trigger] m[i]).0,
        (#[trigger] m[j]).0,
    ) by {
        assert(text::precedes(s[i].0, s[j].0));
    }
    if has_key(s, key) {
        let i = choose|i: int| holds(s, key, i);
        keys_are_unique(s, i);
        assert(holds(m, key, i));
        keys_are_unique(m, i);
    } else if has_key(m, key) {
        let i = choose|i: int| holds(m, key, i);
        assert(holds(s, key, i));
    }
}

/// A map from texts to values, iterated in the order of its keys.
#[derive(Debug, PartialEq, Eq, Hash)]
pub struct SortedMap<V> {
    entries: Vec<(String, V)>,
}

impl<V> View for SortedMap<V> {
    type V = Seq<(Seq<char>, V)>;

    closed spec fn view(&self) -> Seq<(Seq<char>, V)> {
        Seq::new(self.entries@.len(), |i: int| (self.entries@[i].0@, self.entries@[i].1))
    }
}

impl<V: DeepView> DeepView for SortedMap<V> {
    type V = Seq<(Seq<char>, V::V)>;

    open spec fn deep_view(&self) -> Seq<(Seq<char>, V::V)> {
        with_values(self@, |v: V| v.deep_view())
    }
}

impl<V> SortedMap<V> {
    #[verifier::type_invariant]
    spec fn in_key_order(self) -> bool {
        keys_increase(self@)
    }

    /// A map that holds nothing.
    pub fn new() -> (r: Self)
        ensures
            r@ == Seq::<(Seq<char>, V)>::empty(),
    {
        let r = SortedMap { entries: Vec::new() };
        assert(r@ =~= Seq::<(Seq<char>, V)>::empty());
        r
    }

    /// How many entries there are.
    pub fn len(&self) -> (n: usize)
        ensures
            n == self@.len(),
            keys_increase(self@),
    {
        proof {
            use_type_invariant(self);
        }
        self.entries.len()
    }

    /// Whether there is no entry.
    pub fn is_empty(&self) -> (r: bool)
        ensures
            r == (self@.len() == 0),
    {
        self.entries.len() == 0
    }

    /// The `i`-th key.
    pub fn key(&self, i: usize) -> (key: &String)
        requires
            i < self@.len(),
        ensures
            key@ == self@[i as int].0,
            keys_increase(self@),
    {
        proof {
            use_type_invariant(self);
        }
        &self.entries[i].0
    }

    /// The value of the `i`-th entry.
    pub fn value(&self, i: usize) -> (value: &V)
        requires
            i < self@.len(),
        ensures
            *value == self@[i as int].1,
            keys_increase(self@),
    {
        proof {
            use_type_invariant(self);
        }
        &self.entries[i].1
    }

    /// The first position whose key does not come before `key`.
    fn position(&self, key: &str) -> (k: usize)
        ensures
            keys_increase(self@),
            k <= self@.len(),
            forall|i: int| 0 <= i < k ==> text::precedes((#[trigger] self@[i]).0, key@),
            k < self@.len() ==> self@[k as int].0 == key@ || text::precedes(
                key@,
                self@[k as int].0,
            ),
    {
        proof {
            use_type_invariant(self);
        }
        let mut k: usize = 0;
        while k < self.entries.len()
            invariant
                k <= self@.len(),
                self@.len() == self.entries@.len(),
                keys_increase(self@),
                forall|i: int| 0 <= i < k ==> text::precedes((#[trigger] self@[i]).0, key@),
            decreases self.entries.len() - k,
        {
            match text::compare(self.entries[k].0.as_str(), key) {
                text::Order::Less => {},
                _ => {
                    proof {
                        text::precedes_total(self@[k as int].0, key@);
                    }
                    return k;
                },
            }
            k += 1;
        }
        k
    }

    /// The position of `key`, if it is there.
    pub fn index_of(&self, key: &str) -> (r: Option<usize>)
        ensures
            keys_increase(self@),
            match r {
                Some(i) => holds(self@, key@, i as int) && lookup(self@, key@) == Some(
                    self@[i as int].1,
                ),
                None => !has_key(self@, key@) && lookup(self@, key@) is None,
            },
    {
        let k = self.position(key);
        if k < self.entries.len() && text::same(self.entries[k].0.as_str(), key) {
            proof {
                assert(holds(self@, key@, k as int));
                keys_are_unique(self@, k as int);
            }
            Some(k)
        } else {
            proof {
                assert forall|i: int| !holds(self@, key@, i) by {
                    if 0 <= i < self@.len() && self@[i].0 == key@ {
                        text::precedes_irreflexive(key@);
                        if i < k {
                            assert(text::precedes(self@[i].0, key@));
                        } else if i > k {
                            assert(text::precedes(self@[k as int].0, self@[i].0));
                            text::precedes_transitive(key@, self@[k as int].0, key@);
                        }
                    }
                }
            }
            None
        }
    }

    /// What the map holds under `key`.
    pub fn get(&self, key: &str) -> (r: Option<&V>)
        ensures
            keys_increase(self@),
            match r {
                Some(value) => lookup(self@, key@) == Some(*value),
                None => lookup(self@, key@) is None,
            },
    {
        match self.index_of(key) {
            Some(i) => Some(&self.entries[i].1),
            None => None,
        }
    }

    /// Puts `value` under `key`, and returns what was there.
    pub fn insert(&mut self, key: String, value: V) -> (r: Option<V>)
        ensures
            final(self)@ == put(old(self)@, key@, value),
            keys_increase(old(self)@),
            keys_increase(final(self)@),
            r == lookup(old(self)@, key@),
    {
        let ghost before = self@;
        let found = self.index_of(key.as_str());
        let k = self.position(key.as_str());
        proof {
            put_places(before, key@, value, k as int);
            put_keeps_order(before, key@, value);
        }
        let mut entries: Vec<(String, V)> = Vec::new();
        std::mem::swap(&mut entries, &mut self.entries);
        match found {
            Some(i) => {
                proof {
                    assert(holds(before, key@, i as int));
                    if i < k {
                        text::precedes_irreflexive(key@);
                    } else if k < i {
                        text::precedes_irreflexive(key@);
                        assert(text::precedes(before[k as int].0, before[i as int].0));
                        if before[k as int].0 != key@ {
                            text::precedes_transitive(key@, before[k as int].0, key@);
                        }
                    }
                }
                let held = entries.remove(i);
                entries.insert(i, (key, value));
                proof {
                    let now = SortedMap { entries };
                    assert(now@ =~= before.update(i as int, (key@, value)));
                }
                self.entries = entries;
                Some(held.1)
            },
            None => {
                proof {
                    assert(!(k < before.len() && before[k as int].0 == key@)) by {
                        if k < before.len() && before[k as int].0 == key@ {
                            assert(holds(before, key@, k as int));
                        }
                    }
                }
                entries.insert(k, (key, value));
                proof {
                    let now = SortedMap { entries };
                    assert(now@ =~= before.insert(k as int, (key@, value)));
                }
                self.entries = entries;
                None
            },
        }
    }
}

impl<V: Clone> Clone for SortedMap<V> {
    fn clone(&self) -> (r: Self)
        ensures
            r@.len() == self@.len(),
            forall|i: int| 0 <= i < r@.len() ==> (#[trigger] r@[i]).0 == self@[i].0,
            forall|i: int| 0 <= i < r@.len() ==> cloned(self@[i].1, (#[trigger] r@[i]).1),
    {
        proof {
            use_type_invariant(self);
        }
        let mut entries: Vec<(String, V)> = Vec::new();
        let mut i: usize = 0;
        while i < self.entries.len()
            invariant
                self@.len() == self.entries@.len(),
                i <= self.entries@.len(),
                entries@.len() == i,
                forall|k: int| 0 <= k < i ==> (#[trigger] entries@[k]).0@ == self@[k].0,
                forall|k: int| 0 <= k < i ==> cloned(self@[k].1, (#[trigger] entries@[k]).1),
            decreases self.entries.len() - i,
        {
            entries.push((self.entries[i].0.clone(), self.entries[i].1.clone()));
            i += 1;
        }
        proof {
            let now = SortedMap { entries };
            assert forall|a: int, b: int| 0 <= a < b < now@.len() implies text::precedes(
                (#[trigger] now@[a]).0,
                (#[trigger] now@[b]).0,
            ) by {
                assert(now@[a].0 == self@[a].0 && now@[b].0 == self@[b].0);
            }
        }
        SortedMap { entries }
    }
}

impl<V> Default for SortedMap<V> {
    fn default() -> (r: Self)
        ensures
            r@ == Seq::<(Seq<char>, V)>::empty(),
    {
        SortedMap::new()
    }
}

} // verus!
