//! What an intent selects, in which order, and what stands in its way.

use vstd::prelude::*;
use vstd::set_lib::*;

use crate::manifest::ComponentFacts;
use crate::profile::Profile;
use crate::resolve;
use crate::resolve::{IntentFacts, ResolutionFacts};

verus! {

/// Whether an intent asks for a component itself: by its name; or, where it can be installed, by one of
/// its profiles or by asking for everything.
pub open spec fn is_asked_for(c: ComponentFacts, intent: IntentFacts) -> bool {
    ||| exists|k: int| 0 <= k < intent.roots.len() && #[trigger] intent.roots[k] == c.name
    ||| !(c.kind is Unsupported) && exists|k: int|
        0 <= k < intent.profiles.len() && (#[trigger] intent.profiles[k] == Profile::Complete
            || c.profiles.contains(intent.profiles[k]))
}

/// Whether component `i` requires component `j` by its name.
pub open spec fn asks_for(components: Seq<ComponentFacts>, i: int, j: int) -> bool {
    &&& 0 <= i < components.len()
    &&& 0 <= j < components.len()
    &&& components[i].requires.contains(components[j].name)
    &&& forall|k: int| 0 <= k < j ==> (#[trigger] components[k]).name != components[j].name
}

/// Whether no component has this name.
pub open spec fn is_unknown(components: Seq<ComponentFacts>, name: Seq<char>) -> bool {
    forall|k: int| 0 <= k < components.len() ==> (#[trigger] components[k]).name != name
}

proof fn roots_alike(c: ComponentFacts, intent: IntentFacts)
    ensures
        resolve::is_root(c, intent) == is_asked_for(c, intent),
{
    if resolve::is_root(c, intent) {
        if intent.roots.contains(c.name) {
            let k = choose|k: int| 0 <= k < intent.roots.len() && intent.roots[k] == c.name;
            assert(intent.roots[k] == c.name);
        } else if intent.profiles.contains(Profile::Complete) {
            let k = choose|k: int|
                0 <= k < intent.profiles.len() && intent.profiles[k] == Profile::Complete;
            assert(intent.profiles[k] == Profile::Complete);
        } else {
            let i = choose|i: int|
                0 <= i < c.profiles.len() && intent.profiles.contains(#[trigger] c.profiles[i]);
            let k = choose|k: int|
                0 <= k < intent.profiles.len() && intent.profiles[k] == c.profiles[i];
            assert(c.profiles.contains(intent.profiles[k]));
        }
    }
    if is_asked_for(c, intent) && !intent.roots.contains(c.name) {
        let k = choose|k: int|
            0 <= k < intent.profiles.len() && (#[trigger] intent.profiles[k] == Profile::Complete
                || c.profiles.contains(intent.profiles[k]));
        if intent.profiles[k] != Profile::Complete {
            let i = choose|i: int| 0 <= i < c.profiles.len() && c.profiles[i] == intent.profiles[k];
            assert(intent.profiles.contains(c.profiles[i]));
        }
    }
}

proof fn needs_alike(components: Seq<ComponentFacts>, i: int, j: int)
    ensures
        resolve::needs(components, i, j) == asks_for(components, i, j),
{
    if resolve::needs(components, i, j) {
        let k = choose|k: int|
            0 <= k < components[i].requires.len() && resolve::first_named(
                components,
                #[trigger] components[i].requires[k],
                j,
            );
        assert(components[i].requires[k] == components[j].name);
    }
    if asks_for(components, i, j) {
        let k = choose|k: int|
            0 <= k < components[i].requires.len() && components[i].requires[k]
                == components[j].name;
        assert(resolve::first_named(components, components[i].requires[k], j));
    }
}

/// What an intent asks for is selected, and so is what any selected component requires.
pub proof fn what_is_asked_for_is_selected(
    components: Seq<ComponentFacts>,
    intent: IntentFacts,
    i: int,
    j: int,
)
    ensures
        0 <= i < components.len() && is_asked_for(components[i], intent) ==> resolve::selection(
            components,
            intent,
        ).contains(i),
        resolve::selection(components, intent).contains(i) && asks_for(components, i, j)
            ==> resolve::selection(components, intent).contains(j),
{
    resolve::selection_is_closed(components, intent);
    if 0 <= i < components.len() {
        roots_alike(components[i], intent);
    }
    needs_alike(components, i, j);
}

/// Nothing is selected without a reason: a selected component is asked for, or required by another
/// selected one.
pub proof fn nothing_is_selected_without_a_reason(
    components: Seq<ComponentFacts>,
    intent: IntentFacts,
    i: int,
)
    requires
        resolve::selection(components, intent).contains(i),
    ensures
        0 <= i < components.len(),
        is_asked_for(components[i], intent) || exists|j: int|
            resolve::selection(components, intent).contains(j) && #[trigger] asks_for(
                components,
                j,
                i,
            ) && j != i,
{
    resolve::selection_is_in_range(components, intent, i);
    resolve::selection_is_closed(components, intent);
    let chosen = resolve::selection(components, intent);
    if !is_asked_for(components[i], intent) && !(exists|j: int|
        chosen.contains(j) && #[trigger] asks_for(components, j, i) && j != i) {
        let less = chosen.remove(i);
        assert forall|a: int|
            0 <= a < components.len() && resolve::is_root(
                #[trigger] components[a],
                intent,
            ) implies less.contains(a) by {
            roots_alike(components[a], intent);
        }
        assert forall|a: int, b: int|
            less.contains(a) && #[trigger] resolve::needs(components, a, b) implies less.contains(
            b,
        ) by {
            needs_alike(components, a, b);
        }
        assert(resolve::is_closed(components, intent, less));
        assert(resolve::is_selected(components, intent, i));
        assert(less.contains(i));
    }
}

/// What is resolved is what is selected, each once, with what a component requires in front of it.
pub proof fn requirements_come_first(
    components: Seq<ComponentFacts>,
    intent: IntentFacts,
    p: int,
    j: int,
)
    requires
        resolve::resolved(components, intent) is Ok,
        0 <= p < resolve::resolved(components, intent)->Ok_0.len(),
    ensures
        ({
            let order = resolve::resolved(components, intent)->Ok_0;
            &&& resolve::selection(components, intent).contains(order[p])
            &&& asks_for(components, order[p], j) ==> exists|q: int|
                0 <= q < p && #[trigger] order[q] == j
            &&& forall|q: int| 0 <= q < order.len() && q != p ==> #[trigger] order[q] != order[p]
        }),
{
    resolve::resolution_is_ordered(components, intent);
    let order = resolve::resolved(components, intent)->Ok_0;
    assert(order.contains(order[p]));
    needs_alike(components, order[p], j);
    if asks_for(components, order[p], j) {
        assert(order.take(p).contains(j));
        let q = choose|q: int| 0 <= q < order.take(p).len() && order.take(p)[q] == j;
        assert(order[q] == j);
    }
    assert forall|q: int| 0 <= q < order.len() && q != p implies #[trigger] order[q] != order[p] by {
        if q < p {
            assert(order[q] != order[p]);
        } else {
            assert(order[p] != order[q]);
        }
    }
}

proof fn arranged_step_by_step(
    components: Seq<ComponentFacts>,
    chosen: Set<int>,
    placed: Seq<int>,
    p: int,
)
    ensures
        ({
            let order = resolve::arranged(components, chosen, placed);
            &&& placed.len() <= order.len()
            &&& order.take(placed.len() as int) == placed
            &&& placed.len() <= p < order.len() ==> resolve::is_next(
                components,
                chosen,
                order.take(p),
                order[p],
            )
            &&& order.len() < components.len() ==> !(exists|i: int|
                resolve::is_next(components, chosen, order, i))
        }),
    decreases components.len() - placed.len(),
{
    let order = resolve::arranged(components, chosen, placed);
    if placed.len() < components.len() && (exists|i: int|
        resolve::is_next(components, chosen, placed, i)) {
        let i = choose|i: int| resolve::is_next(components, chosen, placed, i);
        let more = placed.push(i);
        arranged_step_by_step(components, chosen, more, p);
        assert(order.take(placed.len() as int) =~= more.take(placed.len() as int));
        assert(more.take(placed.len() as int) =~= placed);
        if p == placed.len() {
            assert(order[p] == order.take(more.len() as int)[p]);
        }
    } else {
        assert(order.take(placed.len() as int) =~= placed);
    }
}

/// Components that do not depend on each other come in the order of the channel: one that comes right
/// behind another of a later position requires that one.
pub proof fn the_order_of_the_channel_is_kept(
    components: Seq<ComponentFacts>,
    intent: IntentFacts,
    p: int,
)
    requires
        resolve::resolved(components, intent) is Ok,
        0 <= p,
        p + 1 < resolve::resolved(components, intent)->Ok_0.len(),
    ensures
        ({
            let order = resolve::resolved(components, intent)->Ok_0;
            order[p + 1] < order[p] ==> asks_for(components, order[p + 1], order[p])
        }),
{
    let chosen = resolve::selection(components, intent);
    let order = resolve::resolved(components, intent)->Ok_0;
    let none = Seq::<int>::empty();
    arranged_step_by_step(components, chosen, none, p);
    arranged_step_by_step(components, chosen, none, p + 1);
    let (x, y) = (order[p], order[p + 1]);
    if y < x {
        let (before, after) = (order.take(p), order.take(p + 1));
        assert(after =~= before.push(x));
        assert(!before.contains(y)) by {
            if before.contains(y) {
                let k = choose|k: int| 0 <= k < before.len() && before[k] == y;
                assert(after[k] == y);
            }
        }
        assert(chosen.contains(y));
        assert(!resolve::is_ready(components, before, y));
        let j = choose|j: int| #[trigger]
            resolve::needs(components, y, j) && !before.contains(j);
        assert(after.contains(j));
        assert(j == x) by {
            let k = choose|k: int| 0 <= k < after.len() && after[k] == j;
            if k < p {
                assert(before[k] == j);
            }
        }
        needs_alike(components, y, j);
    }
}

// ---------------------------------------------------------------------------------------------
// What stands in the way

proof fn unknown_roots(components: Seq<ComponentFacts>, roots: Seq<Seq<char>>)
    ensures
        match resolve::unknown_root(components, roots) {
            None => forall|k: int|
                0 <= k < roots.len() ==> !is_unknown(components, #[trigger] roots[k]),
            Some(e) => e matches ResolutionFacts::UnknownRoot { name } && roots.contains(name)
                && is_unknown(components, name),
        },
    decreases roots.len(),
{
    if roots.len() > 0 {
        let d = roots.drop_first();
        unknown_roots(components, d);
        assert(resolve::declares(components, roots[0]) == !is_unknown(components, roots[0]));
        match resolve::unknown_root(components, roots) {
            None => {
                assert forall|k: int| 0 <= k < roots.len() implies !is_unknown(
                    components,
                    #[trigger] roots[k],
                ) by {
                    if k > 0 {
                        assert(d[k - 1] == roots[k]);
                    }
                }
            },
            Some(e) => {
                let name = e->UnknownRoot_name;
                if resolve::declares(components, roots[0]) {
                    let k = choose|k: int| 0 <= k < d.len() && d[k] == name;
                    assert(roots[k + 1] == name);
                } else {
                    assert(roots[0] == name);
                }
            },
        }
    }
}

proof fn unsupported_roots(components: Seq<ComponentFacts>, roots: Seq<Seq<char>>)
    ensures
        match resolve::unsupported_root(components, roots) {
            None => forall|k: int|
                0 <= k < components.len() && roots.contains((#[trigger] components[k]).name) ==> !(
                components[k].kind is Unsupported),
            Some(e) => e matches ResolutionFacts::UnsupportedRoot { name } && roots.contains(name)
                && exists|k: int|
                0 <= k < components.len() && (#[trigger] components[k]).name == name
                    && components[k].kind is Unsupported,
        },
    decreases components.len(),
{
    if components.len() > 0 {
        let d = components.drop_first();
        unsupported_roots(d, roots);
        match resolve::unsupported_root(components, roots) {
            None => {
                assert forall|k: int|
                    0 <= k < components.len() && roots.contains(
                        (#[trigger] components[k]).name,
                    ) implies !(components[k].kind is Unsupported) by {
                    if k > 0 {
                        assert(d[k - 1] == components[k]);
                    }
                }
            },
            Some(e) => {
                let name = e->UnsupportedRoot_name;
                if roots.contains(components[0].name) && components[0].kind is Unsupported {
                    assert(components[0].name == name);
                } else {
                    let k = choose|k: int|
                        0 <= k < d.len() && (#[trigger] d[k]).name == name
                            && d[k].kind is Unsupported;
                    assert(components[k + 1].name == name);
                }
            },
        }
    }
}

proof fn dangling_requirements(
    components: Seq<ComponentFacts>,
    component: Seq<char>,
    needed: Seq<Seq<char>>,
)
    ensures
        match resolve::dangling(components, component, needed) {
            None => forall|k: int|
                0 <= k < needed.len() ==> !is_unknown(components, #[trigger] needed[k]),
            Some(e) => e matches ResolutionFacts::UnknownRequirement { component: c, requirement }
                && c == component && needed.contains(requirement) && is_unknown(
                components,
                requirement,
            ),
        },
    decreases needed.len(),
{
    if needed.len() > 0 {
        let d = needed.drop_first();
        dangling_requirements(components, component, d);
        assert(resolve::declares(components, needed[0]) == !is_unknown(components, needed[0]));
        match resolve::dangling(components, component, needed) {
            None => {
                assert forall|k: int| 0 <= k < needed.len() implies !is_unknown(
                    components,
                    #[trigger] needed[k],
                ) by {
                    if k > 0 {
                        assert(d[k - 1] == needed[k]);
                    }
                }
            },
            Some(e) => {
                let name = e->requirement;
                if resolve::declares(components, needed[0]) {
                    let k = choose|k: int| 0 <= k < d.len() && d[k] == name;
                    assert(needed[k + 1] == name);
                } else {
                    assert(needed[0] == name);
                }
            },
        }
    }
}

/// Whether a component requires something that no component is.
pub open spec fn lacks(components: Seq<ComponentFacts>, i: int, name: Seq<char>) -> bool {
    &&& 0 <= i < components.len()
    &&& components[i].requires.contains(name)
    &&& is_unknown(components, name)
}

proof fn unknown_requirements(components: Seq<ComponentFacts>, chosen: Set<int>, n: int)
    requires
        0 <= n,
    ensures
        match resolve::unknown_requirement(components, chosen, n) {
            None => forall|i: int, name: Seq<char>|
                n <= i && chosen.contains(i) ==> !#[trigger] lacks(components, i, name),
            Some(e) => e matches ResolutionFacts::UnknownRequirement { component, requirement }
                && exists|i: int|
                chosen.contains(i) && #[trigger] lacks(components, i, requirement)
                    && components[i].name == component,
        },
    decreases components.len() - n,
{
    if n < components.len() {
        dangling_requirements(components, components[n].name, components[n].requires);
        unknown_requirements(components, chosen, n + 1);
        let found = resolve::dangling(components, components[n].name, components[n].requires);
        if chosen.contains(n) && found is Some {
            assert(lacks(components, n, found->0->requirement));
        } else if resolve::unknown_requirement(components, chosen, n) is None {
            assert forall|i: int, name: Seq<char>|
                n <= i && chosen.contains(i) implies !#[trigger] lacks(components, i, name) by {
                if i == n && lacks(components, i, name) {
                    let k = choose|k: int|
                        0 <= k < components[n].requires.len() && components[n].requires[k] == name;
                    assert(!is_unknown(components, components[n].requires[k]));
                }
            }
        }
    }
}

proof fn unsupported_requirements(components: Seq<ComponentFacts>, chosen: Set<int>, n: int)
    requires
        0 <= n,
    ensures
        match resolve::unsupported_requirement(components, chosen, n) {
            None => forall|i: int|
                n <= i < components.len() && #[trigger] chosen.contains(i) ==> !(
                components[i].kind is Unsupported),
            Some(e) => e matches ResolutionFacts::UnsupportedRequirement { name } && exists|i: int|
                0 <= i < components.len() && #[trigger] chosen.contains(i) && components[i].name
                    == name && components[i].kind is Unsupported,
        },
    decreases components.len() - n,
{
    if n < components.len() {
        unsupported_requirements(components, chosen, n + 1);
    }
}

proof fn names_left_out(
    components: Seq<ComponentFacts>,
    chosen: Set<int>,
    placed: Seq<int>,
    n: int,
    name: Seq<char>,
)
    requires
        n <= components.len(),
    ensures
        resolve::left_out(components, chosen, placed, n).contains(name) <==> exists|i: int|
            0 <= i < n && #[trigger] chosen.contains(i) && !placed.contains(i) && components[i].name
                == name,
    decreases n,
{
    let names = resolve::left_out(components, chosen, placed, n);
    if n > 0 {
        names_left_out(components, chosen, placed, n - 1, name);
        let before = resolve::left_out(components, chosen, placed, n - 1);
        if names.len() > before.len() {
            assert(names == before.push(components[n - 1].name));
            assert(names[names.len() - 1] == components[n - 1].name);
        }
        if before.contains(name) {
            let k = choose|k: int| 0 <= k < before.len() && before[k] == name;
            assert(names[k] == name);
        }
        if names.contains(name) && !before.contains(name) {
            let k = choose|k: int| 0 <= k < names.len() && names[k] == name;
            assert(k < before.len() ==> before[k] == name);
            assert(chosen.contains(n - 1));
        }
    }
}

/// Whether a selected component could not be placed.
pub open spec fn is_stuck(components: Seq<ComponentFacts>, intent: IntentFacts, i: int) -> bool {
    let chosen = resolve::selection(components, intent);
    chosen.contains(i) && !resolve::arranged(components, chosen, Seq::empty()).contains(i)
}

proof fn stuck_components_wait_for_stuck_ones(
    components: Seq<ComponentFacts>,
    intent: IntentFacts,
    i: int,
)
    requires
        is_stuck(components, intent, i),
    ensures
        exists|j: int| is_stuck(components, intent, j) && #[trigger] asks_for(components, i, j),
{
    let chosen = resolve::selection(components, intent);
    let none = Seq::<int>::empty();
    let order = resolve::arranged(components, chosen, none);
    resolve::selection_is_in_range(components, intent, i);
    resolve::selection_is_closed(components, intent);
    arranged_step_by_step(components, chosen, none, 0);
    assert(order.len() < components.len()) by {
        if order.len() >= components.len() {
            order_is_everything(components, chosen, order);
        }
    }
    if resolve::is_ready(components, order, i) {
        least_ready(components, chosen, order, i);
    }
    let j = choose|j: int| #[trigger] resolve::needs(components, i, j) && !order.contains(j);
    needs_alike(components, i, j);
    assert(is_stuck(components, intent, j) && asks_for(components, i, j));
}

proof fn order_is_everything(components: Seq<ComponentFacts>, chosen: Set<int>, order: Seq<int>)
    requires
        order == resolve::arranged(components, chosen, Seq::empty()),
        order.len() >= components.len(),
    ensures
        forall|i: int| 0 <= i < components.len() ==> order.contains(i),
{
    let n = components.len() as int;
    let none = Seq::<int>::empty();
    assert forall|p: int| 0 <= p < order.len() implies 0 <= #[trigger] order[p] < n by {
        arranged_step_by_step(components, chosen, none, p);
    }
    assert(order.no_duplicates()) by {
        assert forall|a: int, b: int|
            0 <= a < order.len() && 0 <= b < order.len() && a != b implies order[a] != order[b] by {
            let (low, high) = if a < b {
                (a, b)
            } else {
                (b, a)
            };
            arranged_step_by_step(components, chosen, none, high);
            assert(order.take(high)[low] == order[low]);
            assert(order.take(high).contains(order[low]));
        }
    }
    order.unique_seq_to_set();
    let (mine, all) = (order.to_set(), set_int_range(0, n));
    lemma_int_range(0, n);
    assert(mine.subset_of(all)) by {
        assert forall|i: int| mine.contains(i) implies all.contains(i) by {
            let p = choose|p: int| 0 <= p < order.len() && order[p] == i;
            assert(0 <= order[p] < n);
        }
    }
    lemma_len_subset(mine, all);
    lemma_subset_equality(mine, all);
    assert forall|i: int| 0 <= i < n implies order.contains(i) by {
        assert(all.contains(i));
        assert(mine.contains(i));
    }
}

proof fn least_ready(
    components: Seq<ComponentFacts>,
    chosen: Set<int>,
    placed: Seq<int>,
    i: int,
)
    requires
        0 <= i < components.len(),
        chosen.contains(i),
        !placed.contains(i),
        resolve::is_ready(components, placed, i),
    ensures
        exists|k: int| resolve::is_next(components, chosen, placed, k),
    decreases i,
{
    if forall|j: int|
        0 <= j < i ==> !(#[trigger] chosen.contains(j) && !placed.contains(j) && resolve::is_ready(
            components,
            placed,
            j,
        )) {
        assert(resolve::is_next(components, chosen, placed, i));
    } else {
        let j = choose|j: int|
            0 <= j < i && #[trigger] chosen.contains(j) && !placed.contains(j) && resolve::is_ready(
                components,
                placed,
                j,
            );
        least_ready(components, chosen, placed, j);
    }
}

/// An intent is resolved exactly where all that it names is known and can be installed, all that is
/// selected has what it requires and can be installed, and nothing waits for itself.
pub proof fn intents_resolve_where_nothing_is_in_the_way(
    components: Seq<ComponentFacts>,
    intent: IntentFacts,
)
    ensures
        resolve::resolved(components, intent) is Ok <==> {
            let chosen = resolve::selection(components, intent);
            &&& forall|k: int|
                0 <= k < intent.roots.len() ==> !is_unknown(components, #[trigger] intent.roots[k])
            &&& forall|i: int, name: Seq<char>|
                chosen.contains(i) ==> !#[trigger] lacks(components, i, name)
            &&& forall|i: int|
                0 <= i < components.len() && #[trigger] chosen.contains(i) ==> !(
                components[i].kind is Unsupported)
            &&& forall|i: int| !#[trigger] is_stuck(components, intent, i)
        },
{
    let chosen = resolve::selection(components, intent);
    let none = Seq::<int>::empty();
    let order = resolve::arranged(components, chosen, none);
    let n = components.len() as int;
    unknown_roots(components, intent.roots);
    unsupported_roots(components, intent.roots);
    unknown_requirements(components, chosen, 0);
    unsupported_requirements(components, chosen, 0);
    let missing = resolve::left_out(components, chosen, order, n);
    if missing.len() == 0 {
        assert forall|i: int| !#[trigger] is_stuck(components, intent, i) by {
            if is_stuck(components, intent, i) {
                resolve::selection_is_in_range(components, intent, i);
                names_left_out(components, chosen, order, n, components[i].name);
                assert(missing.contains(components[i].name));
            }
        }
    } else {
        names_left_out(components, chosen, order, n, missing[0]);
        assert(missing.contains(missing[0]));
        let i = choose|i: int|
            0 <= i < n && #[trigger] chosen.contains(i) && !order.contains(i) && components[i].name
                == missing[0];
        assert(is_stuck(components, intent, i));
    }
    if resolve::unsupported_root(components, intent.roots) is Some {
        let e = resolve::unsupported_root(components, intent.roots)->0;
        let k = choose|k: int|
            0 <= k < components.len() && (#[trigger] components[k]).name == e->UnsupportedRoot_name
                && components[k].kind is Unsupported;
        let r = choose|r: int|
            0 <= r < intent.roots.len() && intent.roots[r] == e->UnsupportedRoot_name;
        assert(intent.roots[r] == components[k].name);
        what_is_asked_for_is_selected(components, intent, k, 0);
        assert(chosen.contains(k));
    }
    if resolve::unknown_root(components, intent.roots) is Some {
        let e = resolve::unknown_root(components, intent.roots)->0;
        let r = choose|r: int|
            0 <= r < intent.roots.len() && intent.roots[r] == e->UnknownRoot_name;
        assert(is_unknown(components, intent.roots[r]));
    }
    if resolve::unknown_requirement(components, chosen, 0) is Some {
        let e = resolve::unknown_requirement(components, chosen, 0)->0;
        let i = choose|i: int|
            chosen.contains(i) && #[trigger] lacks(components, i, e->requirement)
                && components[i].name == e->UnknownRequirement_component;
        assert(lacks(components, i, e->requirement));
    }
}

/// Why an intent cannot be resolved is true: the name is unknown, the component cannot be installed,
/// the requirement of the selected component is unknown, or each of the components in the circle
/// requires another one in it.
pub proof fn refused_intents_say_why(components: Seq<ComponentFacts>, intent: IntentFacts)
    requires
        resolve::resolved(components, intent) is Err,
    ensures
        ({
            let chosen = resolve::selection(components, intent);
            match resolve::resolved(components, intent)->Err_0 {
                ResolutionFacts::UnknownRoot { name } => intent.roots.contains(name) && is_unknown(
                    components,
                    name,
                ),
                ResolutionFacts::UnsupportedRoot { name } => intent.roots.contains(name) && exists|
                    k: int,
                |
                    0 <= k < components.len() && (#[trigger] components[k]).name == name
                        && components[k].kind is Unsupported,
                ResolutionFacts::UnknownRequirement { component, requirement } => exists|i: int|
                    chosen.contains(i) && #[trigger] lacks(components, i, requirement)
                        && components[i].name == component,
                ResolutionFacts::UnsupportedRequirement { name } => exists|i: int|
                    0 <= i < components.len() && #[trigger] chosen.contains(i) && components[i].name
                        == name && components[i].kind is Unsupported,
                ResolutionFacts::Cycle { components: names } => {
                    &&& names.len() > 0
                    &&& forall|name: Seq<char>| #[trigger]
                        names.contains(name) <==> exists|i: int|
                            #[trigger] is_stuck(components, intent, i) && components[i].name == name
                    &&& forall|i: int| #[trigger]
                        is_stuck(components, intent, i) ==> exists|j: int|
                            is_stuck(components, intent, j) && #[trigger] asks_for(components, i, j)
                },
            }
        }),
{
    let chosen = resolve::selection(components, intent);
    let none = Seq::<int>::empty();
    let order = resolve::arranged(components, chosen, none);
    let n = components.len() as int;
    unknown_roots(components, intent.roots);
    unsupported_roots(components, intent.roots);
    unknown_requirements(components, chosen, 0);
    unsupported_requirements(components, chosen, 0);
    if resolve::resolved(components, intent)->Err_0 is Cycle {
        let names = resolve::left_out(components, chosen, order, n);
        assert forall|name: Seq<char>| #[trigger] names.contains(name) <==> exists|i: int|
            #[trigger] is_stuck(components, intent, i) && components[i].name == name by {
            names_left_out(components, chosen, order, n, name);
            if names.contains(name) {
                let i = choose|i: int|
                    0 <= i < n && #[trigger] chosen.contains(i) && !order.contains(i)
                        && components[i].name == name;
                assert(is_stuck(components, intent, i));
            }
            if exists|i: int|
                #[trigger] is_stuck(components, intent, i) && components[i].name == name {
                let i = choose|i: int|
                    #[trigger] is_stuck(components, intent, i) && components[i].name == name;
                resolve::selection_is_in_range(components, intent, i);
                assert(chosen.contains(i));
            }
        }
        assert forall|i: int| #[trigger] is_stuck(components, intent, i) implies exists|j: int|
            is_stuck(components, intent, j) && #[trigger] asks_for(components, i, j) by {
            stuck_components_wait_for_stuck_ones(components, intent, i);
        }
    }
}

} // verus!
