//! Structured documents: the tree that a manifest is read from and written to.

use vstd::prelude::*;

use crate::sorted;
use crate::sorted::SortedMap;
use crate::text;

verus! {

/// A number in a document. No rule of this library computes with one.
#[derive(Debug, Clone, Copy)]
pub enum Number {
    /// A whole number that is not negative.
    Whole(u64),
    /// A whole number that is negative.
    Negative(i64),
    /// Any other number: the bits of its finite binary double.
    Double(u64),
}

/// The bits of the double zero with a negative sign.
pub const NEGATIVE_ZERO: u64 = 0x8000_0000_0000_0000;

/// What a number counts as: zero is zero, whatever its sign. All other doubles differ where their
/// bits do.
pub open spec fn number_meant(n: Number) -> Number {
    if n == Number::Double(NEGATIVE_ZERO) {
        Number::Double(0)
    } else {
        n
    }
}

impl PartialEq for Number {
    fn eq(&self, other: &Self) -> (r: bool) {
        match (*self, *other) {
            (Number::Whole(a), Number::Whole(b)) => a == b,
            (Number::Negative(a), Number::Negative(b)) => a == b,
            (Number::Double(a), Number::Double(b)) => a == b || (a == 0 && b == NEGATIVE_ZERO) || (a
                == NEGATIVE_ZERO && b == 0),
            _ => false,
        }
    }
}

impl vstd::std_specs::cmp::PartialEqSpecImpl for Number {
    open spec fn obeys_eq_spec() -> bool {
        true
    }

    open spec fn eq_spec(&self, other: &Self) -> bool {
        number_meant(*self) == number_meant(*other)
    }
}

impl Eq for Number {

}

/// A node of a document.
#[derive(Debug)]
pub enum Value {
    Null,
    Bool(bool),
    Number(Number),
    Text(String),
    List(Vec<Value>),
    /// The members as `(name, value)`. Of two members with one name the later counts.
    Object(Vec<(String, Value)>),
}

/// What a document says. The members of an object have no order.
pub enum Json {
    Null,
    Bool(bool),
    Number(Number),
    Text(Seq<char>),
    List(Seq<Json>),
    Object(Map<Seq<char>, Json>),
}

/// What a document counts as where two are compared: like [`number_meant`] for every number in it.
pub open spec fn meant(j: Json) -> Json
    decreases j,
{
    match j {
        Json::Number(n) => Json::Number(number_meant(n)),
        Json::List(items) => Json::List(
            Seq::new(
                items.len(),
                |i: int|
                    if 0 <= i < items.len() {
                        meant(items[i])
                    } else {
                        Json::Null
                    },
            ),
        ),
        Json::Object(members) => Json::Object(
            Map::new(
                |name: Seq<char>| members.contains_key(name),
                |name: Seq<char>|
                    if members.contains_key(name) {
                        meant(members[name])
                    } else {
                        Json::Null
                    },
            ),
        ),
        _ => j,
    }
}

/// What the members of an object count as where two are compared.
pub open spec fn members_meant(members: Map<Seq<char>, Json>) -> Map<Seq<char>, Json> {
    meant(Json::Object(members))->Object_0
}

/// Nothing but the sign of zero is passed over where numbers are compared.
pub proof fn only_the_sign_of_zero_is_ignored(a: Number, b: Number)
    ensures
        number_meant(a) == number_meant(b) <==> a == b || (a == Number::Double(0) && b
            == Number::Double(NEGATIVE_ZERO)) || (a == Number::Double(NEGATIVE_ZERO) && b
            == Number::Double(0)),
{
}

/// Two objects mean the same exactly where they have members of the same names, and each means the
/// same in both.
pub proof fn objects_are_compared_by_member(a: Map<Seq<char>, Json>, b: Map<Seq<char>, Json>)
    ensures
        members_meant(a) == members_meant(b) <==> a.dom() == b.dom() && forall|name: Seq<char>|
            #[trigger] a.contains_key(name) ==> meant(a[name]) == meant(b[name]),
{
    let (x, y) = (members_meant(a), members_meant(b));
    if x == y {
        assert forall|name: Seq<char>| a.dom().contains(name) == b.dom().contains(name) by {
            assert(x.contains_key(name) == y.contains_key(name));
        }
        assert(a.dom() =~= b.dom());
        assert forall|name: Seq<char>| #[trigger] a.contains_key(name) implies meant(a[name])
            == meant(b[name]) by {
            assert(x[name] == y[name]);
        }
    }
    if a.dom() == b.dom() && forall|name: Seq<char>| #[trigger]
        a.contains_key(name) ==> meant(a[name]) == meant(b[name]) {
        assert forall|name: Seq<char>| x.contains_key(name) == y.contains_key(name) by {
            assert(a.dom().contains(name) == b.dom().contains(name));
        }
        assert(x =~= y);
    }
}

impl Value {
    /// What this node says.
    pub open spec fn json(self) -> Json
        decreases self,
    {
        match self {
            Value::Null => Json::Null,
            Value::Bool(b) => Json::Bool(b),
            Value::Number(n) => Json::Number(n),
            Value::Text(s) => Json::Text(s@),
            Value::List(items) => Json::List(listed(items@)),
            Value::Object(members) => Json::Object(members_json(members@)),
        }
    }
}

/// What the nodes of a list say.
pub open spec fn listed(items: Seq<Value>) -> Seq<Json>
    decreases items,
{
    if items.len() == 0 {
        Seq::empty()
    } else {
        listed(items.drop_last()).push(items.last().json())
    }
}

/// What the members of an object say.
pub open spec fn members_json(members: Seq<(String, Value)>) -> Map<Seq<char>, Json>
    decreases members,
{
    if members.len() == 0 {
        Map::empty()
    } else {
        members_json(members.drop_last()).insert(members.last().0@, members.last().1.json())
    }
}

impl Value {
    /// A copy of this node.
    pub fn copy(&self) -> (r: Value)
        ensures
            r.json() == self.json(),
        decreases self,
    {
        match self {
            Value::Null => Value::Null,
            Value::Bool(b) => Value::Bool(*b),
            Value::Number(n) => Value::Number(*n),
            Value::Text(s) => Value::Text(s.clone()),
            Value::List(items) => {
                let mut out: Vec<Value> = Vec::new();
                let mut i: usize = 0;
                while i < items.len()
                    invariant
                        i <= items@.len(),
                        decreases_to!(self => items@),
                        listed(out@) == listed(items@.take(i as int)),
                    decreases items.len() - i,
                {
                    let ghost before = out@;
                    let item = items[i].copy();
                    out.push(item);
                    proof {
                        assert(out@.drop_last() =~= before);
                        assert(items@.take(i + 1).drop_last() =~= items@.take(i as int));
                    }
                    i += 1;
                }
                assert(items@.take(i as int) =~= items@);
                Value::List(out)
            },
            Value::Object(members) => Value::Object(copy_members(members)),
        }
    }
}

/// A copy of the members of an object.
pub fn copy_members(members: &Vec<(String, Value)>) -> (r: Vec<(String, Value)>)
    ensures
        members_json(r@) == members_json(members@),
    decreases members@,
{
    let mut out: Vec<(String, Value)> = Vec::new();
    let mut i: usize = 0;
    while i < members.len()
        invariant
            i <= members@.len(),
            members_json(out@) == members_json(members@.take(i as int)),
        decreases members.len() - i,
    {
        let ghost before = out@;
        let member = members[i].1.copy();
        out.push((members[i].0.clone(), member));
        proof {
            assert(out@.drop_last() =~= before);
            assert(members@.take(i + 1).drop_last() =~= members@.take(i as int));
        }
        i += 1;
    }
    assert(members@.take(i as int) =~= members@);
    out
}

impl Clone for Value {
    fn clone(&self) -> (r: Self)
        ensures
            r.json() == self.json(),
    {
        self.copy()
    }
}

/// Whether the member at `i` is the one that counts for its name.
pub open spec fn counts(members: Seq<(String, Value)>, i: int) -> bool {
    &&& 0 <= i < members.len()
    &&& forall|j: int| i < j < members.len() ==> (#[trigger] members[j]).0@ != members[i].0@
}

/// The member that counts is what the object says under its name, and nothing else is said.
pub proof fn counting_members(members: Seq<(String, Value)>, name: Seq<char>)
    ensures
        members_json(members).contains_key(name) <==> exists|i: int| #[trigger]
            counts(members, i) && members[i].0@ == name,
        forall|i: int| #[trigger]
            counts(members, i) ==> members_json(members).contains_key(members[i].0@)
                && members_json(members)[members[i].0@] == members[i].1.json(),
    decreases members.len(),
{
    if members.len() > 0 {
        let d = members.drop_last();
        let last = members.len() - 1;
        counting_members(d, name);
        assert(counts(members, last));
        assert forall|i: int| #[trigger] counts(members, i) implies members_json(
            members,
        ).contains_key(members[i].0@) && members_json(members)[members[i].0@]
            == members[i].1.json() by {
            if i < last {
                assert(members[last].0@ != members[i].0@);
                assert(counts(d, i)) by {
                    assert forall|j: int| i < j < d.len() implies (#[trigger] d[j]).0@ != d[i].0@ by {
                        assert(members[j].0@ != members[i].0@);
                    }
                }
            }
        }
        if members_json(members).contains_key(name) && name != members[last].0@ {
            let i = choose|i: int| #[trigger] counts(d, i) && d[i].0@ == name;
            assert(counts(members, i)) by {
                assert forall|j: int| i < j < members.len() implies (#[trigger] members[j]).0@
                    != members[i].0@ by {
                    if j < last {
                        assert(d[j].0@ != d[i].0@);
                    }
                }
            }
        }
    }
}

/// The position of the member that counts for `name`.
fn find_member(members: &Vec<(String, Value)>, name: &str) -> (r: Option<usize>)
    ensures
        match r {
            Some(i) => counts(members@, i as int) && members@[i as int].0@ == name@,
            None => !members_json(members@).contains_key(name@),
        },
{
    let mut i: usize = members.len();
    while i > 0
        invariant
            i <= members@.len(),
            forall|j: int| i <= j < members@.len() ==> (#[trigger] members@[j]).0@ != name@,
        decreases i,
    {
        i -= 1;
        if text::same(members[i].0.as_str(), name) {
            return Some(i);
        }
    }
    proof {
        counting_members(members@, name@);
        if members_json(members@).contains_key(name@) {
            let i = choose|i: int| #[trigger] counts(members@, i) && members@[i].0@ == name@;
            assert(members@[i].0@ == name@);
        }
    }
    None
}

/// Whether two objects mean the same.
pub fn same_members(a: &Vec<(String, Value)>, b: &Vec<(String, Value)>) -> (r: bool)
    ensures
        r == (members_meant(members_json(a@)) == members_meant(members_json(b@))),
    decreases a@,
{
    let ghost (x, y) = (members_meant(members_json(a@)), members_meant(members_json(b@)));
    let mut i: usize = 0;
    while i < a.len()
        invariant
            i <= a@.len(),
            x == members_meant(members_json(a@)),
            y == members_meant(members_json(b@)),
            forall|k: int|
                0 <= k < i && #[trigger] counts(a@, k) ==> y.contains_key(a@[k].0@)
                    && y[a@[k].0@] == meant(a@[k].1.json()),
        decreases a.len() - i,
    {
        let last = find_member(a, a[i].0.as_str());
        proof {
            last_one_counts(a@, i as int);
            counting_members(a@, a@[i as int].0@);
            counting_members(b@, a@[i as int].0@);
        }
        let counted = match last {
            Some(k) => k == i,
            None => false,
        };
        if counted {
            match find_member(b, a[i].0.as_str()) {
                None => {
                    assert(x.contains_key(a@[i as int].0@));
                    assert(!y.contains_key(a@[i as int].0@));
                    return false;
                },
                Some(j) => {
                    let alike = a[i].1.same(&b[j].1);
                    if !alike {
                        assert(x[a@[i as int].0@] == meant(a@[i as int].1.json()));
                        assert(y[a@[i as int].0@] == meant(b@[j as int].1.json()));
                        return false;
                    }
                },
            }
        } else {
            assert(!counts(a@, i as int)) by {
                let k = last->0 as int;
                assert(a@[k].0@ == a@[i as int].0@);
                if k < i {
                    assert(counts(a@, k));
                    assert(a@[i as int].0@ != a@[k].0@);
                }
            }
        }
        i += 1;
    }
    let mut j: usize = 0;
    while j < b.len()
        invariant
            j <= b@.len(),
            x == members_meant(members_json(a@)),
            y == members_meant(members_json(b@)),
            forall|k: int| 0 <= k < j ==> x.contains_key((#[trigger] b@[k]).0@),
        decreases b.len() - j,
    {
        if find_member(a, b[j].0.as_str()).is_none() {
            proof {
                last_one_counts(b@, j as int);
                counting_members(b@, b@[j as int].0@);
                assert(y.contains_key(b@[j as int].0@));
            }
            return false;
        }
        proof {
            counting_members(a@, b@[j as int].0@);
        }
        j += 1;
    }
    proof {
        assert forall|name: Seq<char>| x.contains_key(name) == y.contains_key(name) by {
            counting_members(a@, name);
            counting_members(b@, name);
            if x.contains_key(name) {
                let k = choose|k: int| #[trigger] counts(a@, k) && a@[k].0@ == name;
                assert(y.contains_key(a@[k].0@));
            }
            if y.contains_key(name) {
                let k = choose|k: int| #[trigger] counts(b@, k) && b@[k].0@ == name;
                assert(x.contains_key(b@[k].0@));
            }
        }
        assert forall|name: Seq<char>| x.contains_key(name) implies #[trigger] x[name]
            == y[name] by {
            counting_members(a@, name);
            let k = choose|k: int| #[trigger] counts(a@, k) && a@[k].0@ == name;
            assert(y[a@[k].0@] == meant(a@[k].1.json()));
        }
        assert(x =~= y);
    }
    true
}

/// A name that occurs has a member that counts.
proof fn last_one_counts(members: Seq<(String, Value)>, i: int)
    requires
        0 <= i < members.len(),
    ensures
        exists|k: int| #[trigger] counts(members, k) && members[k].0@ == members[i].0@,
    decreases members.len() - i,
{
    if !counts(members, i) {
        let j = choose|j: int|
            i < j < members.len() && (#[trigger] members[j]).0@ == members[i].0@;
        last_one_counts(members, j);
    }
}

impl Value {
    /// Whether two nodes mean the same.
    pub fn same(&self, other: &Value) -> (r: bool)
        ensures
            r == (meant(self.json()) == meant(other.json())),
        decreases self,
    {
        match (self, other) {
            (Value::Null, Value::Null) => true,
            (Value::Bool(a), Value::Bool(b)) => *a == *b,
            (Value::Number(a), Value::Number(b)) => *a == *b,
            (Value::Text(a), Value::Text(b)) => *a == *b,
            (Value::List(a), Value::List(b)) => same_list(a, b),
            (Value::Object(a), Value::Object(b)) => same_members(a, b),
            _ => false,
        }
    }
}

impl PartialEq for Value {
    fn eq(&self, other: &Self) -> (r: bool) {
        self.same(other)
    }
}

impl vstd::std_specs::cmp::PartialEqSpecImpl for Value {
    open spec fn obeys_eq_spec() -> bool {
        true
    }

    open spec fn eq_spec(&self, other: &Self) -> bool {
        meant(self.json()) == meant(other.json())
    }
}

impl Eq for Value {

}

/// The items of a list, one by one.
pub proof fn listed_items(items: Seq<Value>)
    ensures
        listed(items).len() == items.len(),
        forall|i: int| 0 <= i < items.len() ==> #[trigger] listed(items)[i] == items[i].json(),
    decreases items.len(),
{
    if items.len() > 0 {
        listed_items(items.drop_last());
    }
}

/// What the items of a list count as where two are compared.
pub open spec fn items_meant(items: Seq<Json>) -> Seq<Json> {
    meant(Json::List(items))->List_0
}

/// Whether two lists mean the same.
fn same_list(a: &Vec<Value>, b: &Vec<Value>) -> (r: bool)
    ensures
        r == (items_meant(listed(a@)) == items_meant(listed(b@))),
    decreases a@,
{
    let ghost (x, y) = (items_meant(listed(a@)), items_meant(listed(b@)));
    proof {
        listed_items(a@);
        listed_items(b@);
        assert(x.len() == a@.len() && y.len() == b@.len());
    }
    if a.len() != b.len() {
        return false;
    }
    let mut i: usize = 0;
    while i < a.len()
        invariant
            i <= a@.len() == b@.len(),
            x == items_meant(listed(a@)),
            y == items_meant(listed(b@)),
            x.len() == a@.len(),
            y.len() == b@.len(),
            forall|k: int| 0 <= k < a@.len() ==> #[trigger] x[k] == meant(a@[k].json()),
            forall|k: int| 0 <= k < b@.len() ==> #[trigger] y[k] == meant(b@[k].json()),
            forall|k: int| 0 <= k < i ==> #[trigger] x[k] == y[k],
        decreases a.len() - i,
    {
        if !a[i].same(&b[i]) {
            assert(x[i as int] != y[i as int]);
            return false;
        }
        i += 1;
    }
    assert(x =~= y);
    true
}

/// Appending a member puts it among those that count.
pub proof fn members_push(members: Seq<(String, Value)>, member: (String, Value))
    ensures
        members_json(members.push(member)) == members_json(members).insert(
            member.0@,
            member.1.json(),
        ),
{
    assert(members.push(member).drop_last() =~= members);
}

/// What two lists of members say together: the later counts.
pub proof fn members_concat(a: Seq<(String, Value)>, b: Seq<(String, Value)>)
    ensures
        members_json(a + b) == members_json(a).union_prefer_right(members_json(b)),
    decreases b.len(),
{
    if b.len() == 0 {
        assert(a + b =~= a);
        assert(members_json(a).union_prefer_right(members_json(b)) =~= members_json(a));
    } else {
        members_concat(a, b.drop_last());
        assert((a + b).drop_last() =~= a + b.drop_last());
        assert(members_json(a + b) =~= members_json(a).union_prefer_right(members_json(b)));
    }
}

/// Appends a text member.
pub fn push_text(members: &mut Vec<(String, Value)>, name: &str, value: String)
    ensures
        members_json(final(members)@) == members_json(old(members)@).insert(
            name@,
            Json::Text(value@),
        ),
{
    let ghost before = members@;
    members.push((name.to_owned(), Value::Text(value)));
    proof {
        members_push(before, members@[before.len() as int]);
    }
}

/// Appends a member.
pub fn push_value(members: &mut Vec<(String, Value)>, name: &str, value: Value)
    ensures
        members_json(final(members)@) == members_json(old(members)@).insert(name@, value.json()),
{
    let ghost before = members@;
    members.push((name.to_owned(), value));
    proof {
        members_push(before, members@[before.len() as int]);
    }
}

/// Takes the member with the given name out, with the value that counts.
pub fn take(members: Vec<(String, Value)>, name: &str) -> (r: (Vec<(String, Value)>, Option<Value>))
    ensures
        members_json(r.0@) == members_json(members@).remove(name@),
        match r.1 {
            Some(value) => members_json(members@).contains_key(name@) && members_json(
                members@,
            )[name@] == value.json(),
            None => !members_json(members@).contains_key(name@),
        },
{
    let ghost all = members@;
    let mut rest: Vec<(String, Value)> = Vec::new();
    let mut found: Option<Value> = None;
    proof {
        assert(members_json(all.take(0)).remove(name@) =~= members_json(rest@));
    }
    for member in it: members
        invariant
            it.seq() == all,
            members_json(rest@) == members_json(all.take(it.index())).remove(name@),
            match found {
                Some(value) => members_json(all.take(it.index())).contains_key(name@)
                    && members_json(all.take(it.index()))[name@] == value.json(),
                None => !members_json(all.take(it.index())).contains_key(name@),
            },
    {
        let ghost i = it.index();
        let ghost before = rest@;
        proof {
            assert(all.take(i + 1).drop_last() =~= all.take(i));
            assert(all.take(i + 1).last() == member);
        }
        if text::same(member.0.as_str(), name) {
            found = Some(member.1);
            assert(members_json(all.take(i + 1)).remove(name@) =~= members_json(rest@));
        } else {
            rest.push(member);
            proof {
                members_push(before, member);
                assert(members_json(all.take(i + 1)).remove(name@) =~= members_json(rest@));
            }
        }
    }
    assert(all.take(all.len() as int) =~= all);
    (rest, found)
}

/// The members by name, each with the value that counts.
pub fn by_name(members: Vec<(String, Value)>) -> (r: SortedMap<Value>)
    ensures
        sorted::keys_increase(r@),
        forall|k: Seq<char>|
            sorted::has_key(r@, k) <==> #[trigger] members_json(members@).contains_key(k),
        forall|i: int|
            0 <= i < r@.len() ==> members_json(members@).contains_key((#[trigger] r@[i]).0)
                && members_json(members@)[r@[i].0] == r@[i].1.json(),
{
    let ghost all = members@;
    let mut map: SortedMap<Value> = SortedMap::new();
    proof {
        assert(all.take(0) =~= Seq::empty());
        assert forall|k: Seq<char>| !sorted::has_key(map@, k) by {
            if sorted::has_key(map@, k) {
                let i = choose|i: int| sorted::holds(map@, k, i);
            }
        }
    }
    for member in it: members
        invariant
            it.seq() == all,
            sorted::keys_increase(map@),
            forall|k: Seq<char>|
                sorted::has_key(map@, k) <==> #[trigger] members_json(
                    all.take(it.index()),
                ).contains_key(k),
            forall|k: Seq<char>|
                (#[trigger] sorted::lookup(map@, k)) matches Some(v) ==> members_json(
                    all.take(it.index()),
                )[k] == v.json(),
    {
        let ghost i = it.index();
        let ghost before = map@;
        let ghost prior = members_json(all.take(i));
        proof {
            assert(all.take(i + 1).drop_last() =~= all.take(i));
            assert(all.take(i + 1).last() == member);
        }
        let (name, value) = member;
        let ghost (n, v) = (name@, value);
        let _ = map.insert(name, value);
        proof {
            let now = members_json(all.take(i + 1));
            assert(now == prior.insert(n, v.json()));
            assert forall|k: Seq<char>| sorted::has_key(map@, k) <==> #[trigger] now.contains_key(
                k,
            ) by {
                sorted::put_is_found(before, n, v, k);
                assert(prior.contains_key(k) <==> sorted::has_key(before, k));
            }
            assert forall|k: Seq<char>| (#[trigger] sorted::lookup(map@, k)) is Some implies now[k]
                == sorted::lookup(map@, k)->0.json() by {
                sorted::put_is_found(before, n, v, k);
                assert(prior.contains_key(k) <==> sorted::has_key(before, k));
                if k != n {
                    assert(sorted::lookup(before, k) == sorted::lookup(map@, k));
                }
            }
        }
    }
    proof {
        assert(all.take(all.len() as int) =~= all);
        assert forall|i: int| 0 <= i < map@.len() implies members_json(all).contains_key(
            (#[trigger] map@[i]).0,
        ) && members_json(all)[map@[i].0] == map@[i].1.json() by {
            sorted::keys_are_unique(map@, i);
            assert(sorted::holds(map@, map@[i].0, i));
            assert(sorted::has_key(map@, map@[i].0));
        }
    }
    map
}

/// Fields declared by a newer schema that this build does not recognize.
#[derive(Debug)]
pub struct Extra {
    pub members: Vec<(String, Value)>,
}

impl View for Extra {
    type V = Map<Seq<char>, Json>;

    open spec fn view(&self) -> Map<Seq<char>, Json> {
        members_json(self.members@)
    }
}

impl DeepView for Extra {
    type V = Map<Seq<char>, Json>;

    open spec fn deep_view(&self) -> Map<Seq<char>, Json> {
        self@
    }
}

impl PartialEq for Extra {
    fn eq(&self, other: &Self) -> (r: bool) {
        same_members(&self.members, &other.members)
    }
}

impl vstd::std_specs::cmp::PartialEqSpecImpl for Extra {
    open spec fn obeys_eq_spec() -> bool {
        true
    }

    open spec fn eq_spec(&self, other: &Self) -> bool {
        members_meant(self@) == members_meant(other@)
    }
}

impl Eq for Extra {

}

impl core::hash::Hash for Extra {
    /// Adds nothing: fields that are equal may be listed in any order.
    fn hash<H: core::hash::Hasher>(&self, _state: &mut H) {
    }
}

impl Clone for Extra {
    fn clone(&self) -> (r: Self)
        ensures
            r@ == self@,
    {
        Extra { members: copy_members(&self.members) }
    }
}

impl Default for Extra {
    fn default() -> (r: Self)
        ensures
            r@ == Map::<Seq<char>, Json>::empty(),
    {
        Extra { members: Vec::new() }
    }
}

} // verus!
