//! Selecting the components of an installation.
//!
//! One function serves every code path that needs a component set: the components that the intent
//! selects, everything they need, dependencies before dependents.

use vstd::prelude::*;

use crate::manifest::{Channel, Component, ComponentFacts, ComponentKind};
use crate::profile::Profile;
use crate::text;

verus! {

/// What a user asked for: profiles, and components by name.
#[derive(Debug)]
pub struct Intent {
    pub profiles: Vec<Profile>,
    pub roots: Vec<String>,
}

/// What an [`Intent`] holds.
#[verifier::ext_equal]
pub struct IntentFacts {
    pub profiles: Seq<Profile>,
    pub roots: Seq<Seq<char>>,
}

impl DeepView for Intent {
    type V = IntentFacts;

    open spec fn deep_view(&self) -> IntentFacts {
        IntentFacts { profiles: self.profiles@, roots: self.roots.deep_view() }
    }
}

/// Whether two intents ask for the same. Both lists are sets: neither order nor repetition says
/// anything.
pub open spec fn intents_alike(a: IntentFacts, b: IntentFacts) -> bool {
    a.profiles.to_set() == b.profiles.to_set() && a.roots.to_set() == b.roots.to_set()
}

proof fn sets_agree<T>(a: Seq<T>, b: Seq<T>)
    ensures
        a.to_set() == b.to_set() <==> (forall|i: int| 0 <= i < a.len() ==> b.contains(#[trigger] a[i]))
            && (forall|i: int| 0 <= i < b.len() ==> a.contains(#[trigger] b[i])),
{
    if a.to_set() == b.to_set() {
        assert forall|i: int| 0 <= i < a.len() implies b.contains(#[trigger] a[i]) by {
            assert(a.to_set().contains(a[i]));
            assert(b.to_set().contains(a[i]));
        }
        assert forall|i: int| 0 <= i < b.len() implies a.contains(#[trigger] b[i]) by {
            assert(b.to_set().contains(b[i]));
            assert(a.to_set().contains(b[i]));
        }
    }
    if (forall|i: int| 0 <= i < a.len() ==> b.contains(#[trigger] a[i])) && (forall|i: int|
        0 <= i < b.len() ==> a.contains(#[trigger] b[i])) {
        assert(a.to_set() =~= b.to_set());
    }
}

fn profiles_among(a: &Vec<Profile>, b: &Vec<Profile>) -> (r: bool)
    ensures
        r == (forall|i: int| 0 <= i < a@.len() ==> b@.contains(#[trigger] a@[i])),
{
    let mut i: usize = 0;
    while i < a.len()
        invariant
            i <= a@.len(),
            forall|k: int| 0 <= k < i ==> b@.contains(#[trigger] a@[k]),
        decreases a.len() - i,
    {
        if !has_profile(b, a[i]) {
            return false;
        }
        i += 1;
    }
    true
}

impl PartialEq for Intent {
    fn eq(&self, other: &Self) -> (r: bool) {
        self.same(other)
    }
}

impl vstd::std_specs::cmp::PartialEqSpecImpl for Intent {
    open spec fn obeys_eq_spec() -> bool {
        true
    }

    open spec fn eq_spec(&self, other: &Self) -> bool {
        intents_alike(self.deep_view(), other.deep_view())
    }
}

impl Eq for Intent {

}

impl Clone for Intent {
    fn clone(&self) -> (r: Self)
        ensures
            r.deep_view() == self.deep_view(),
    {
        let profiles = self.profiles.clone();
        assert(profiles@ =~= self.profiles@);
        Intent { profiles, roots: text::copy_all(&self.roots) }
    }
}

impl Intent {
    /// Whether two intents ask for the same.
    pub fn same(&self, other: &Intent) -> (r: bool)
        ensures
            r == intents_alike(self.deep_view(), other.deep_view()),
    {
        let r = profiles_among(&self.profiles, &other.profiles) && profiles_among(
            &other.profiles,
            &self.profiles,
        ) && text::all_among(&self.roots, &other.roots) && text::all_among(
            &other.roots,
            &self.roots,
        );
        proof {
            sets_agree(self.profiles@, other.profiles@);
            sets_agree(self.roots.deep_view(), other.roots.deep_view());
        }
        r
    }

    /// An intent made of the given profiles and component names.
    pub fn new(profiles: &[Profile], roots: &[&str]) -> (r: Self)
        ensures
            r.deep_view() == (IntentFacts {
                profiles: profiles@,
                roots: Seq::new(roots@.len(), |i: int| roots@[i]@),
            }),
    {
        let mut chosen: Vec<Profile> = Vec::new();
        let mut i: usize = 0;
        while i < profiles.len()
            invariant
                i <= profiles@.len(),
                chosen@ == profiles@.take(i as int),
            decreases profiles.len() - i,
        {
            chosen.push(profiles[i]);
            assert(profiles@.take(i + 1) =~= profiles@.take(i as int).push(profiles@[i as int]));
            i += 1;
        }
        assert(profiles@.take(i as int) =~= profiles@);
        let mut named: Vec<String> = Vec::new();
        let mut j: usize = 0;
        while j < roots.len()
            invariant
                j <= roots@.len(),
                named@.len() == j,
                forall|k: int| 0 <= k < j ==> (#[trigger] named@[k])@ == roots@[k]@,
            decreases roots.len() - j,
        {
            named.push(roots[j].to_owned());
            j += 1;
        }
        assert(named.deep_view() =~= Seq::new(roots@.len(), |i: int| roots@[i]@));
        Intent { profiles: chosen, roots: named }
    }
}

// ---------------------------------------------------------------------------------------------
// The selection

/// Whether position `i` holds a component with the given name, and no earlier one does.
pub open spec fn first_named(components: Seq<ComponentFacts>, name: Seq<char>, i: int) -> bool {
    &&& 0 <= i < components.len()
    &&& components[i].name == name
    &&& forall|j: int| 0 <= j < i ==> (#[trigger] components[j]).name != name
}

/// Whether the channel declares a component with the given name.
pub open spec fn declares(components: Seq<ComponentFacts>, name: Seq<char>) -> bool {
    exists|i: int| 0 <= i < components.len() && (#[trigger] components[i]).name == name
}

/// Whether a component is of a kind that this build can install.
pub open spec fn is_supported(c: ComponentFacts) -> bool {
    !(c.kind is Unsupported)
}

/// Whether the intent selects a component by itself: by name, or by a profile, which never selects
/// an unsupported one.
pub open spec fn is_root(c: ComponentFacts, intent: IntentFacts) -> bool {
    ||| intent.roots.contains(c.name)
    ||| is_supported(c) && (intent.profiles.contains(Profile::Complete) || exists|i: int|
        0 <= i < c.profiles.len() && intent.profiles.contains(#[trigger] c.profiles[i]))
}

/// Whether component `i` requires component `j`.
pub open spec fn needs(components: Seq<ComponentFacts>, i: int, j: int) -> bool {
    &&& 0 <= i < components.len()
    &&& exists|k: int|
        0 <= k < components[i].requires.len() && first_named(
            components,
            #[trigger] components[i].requires[k],
            j,
        )
}

/// Whether a set of components holds the roots, and with every component what it requires.
pub open spec fn is_closed(
    components: Seq<ComponentFacts>,
    intent: IntentFacts,
    set: Set<int>,
) -> bool {
    &&& forall|i: int|
        0 <= i < components.len() && is_root(#[trigger] components[i], intent) ==> set.contains(i)
    &&& forall|i: int, j: int| set.contains(i) && #[trigger] needs(components, i, j) ==> set.contains(j)
}

/// Whether a component is selected: whether it lies in every set that holds the roots and what they
/// require, directly or through others.
pub open spec fn is_selected(
    components: Seq<ComponentFacts>,
    intent: IntentFacts,
    i: int,
) -> bool {
    forall|set: Set<int>| #[trigger] is_closed(components, intent, set) ==> set.contains(i)
}

/// The selected components.
pub open spec fn selection(components: Seq<ComponentFacts>, intent: IntentFacts) -> Set<int> {
    Set::new(|i: int| is_selected(components, intent, i))
}

// ---------------------------------------------------------------------------------------------
// The order

/// Whether everything that component `i` requires has been placed.
pub open spec fn is_ready(components: Seq<ComponentFacts>, placed: Seq<int>, i: int) -> bool {
    forall|j: int| #[trigger] needs(components, i, j) ==> placed.contains(j)
}

/// Whether component `i` is the next to be placed: the first selected one in the channel's order
/// that has not been placed and whose requirements all have.
pub open spec fn is_next(
    components: Seq<ComponentFacts>,
    chosen: Set<int>,
    placed: Seq<int>,
    i: int,
) -> bool {
    &&& 0 <= i < components.len()
    &&& chosen.contains(i) && !placed.contains(i) && is_ready(components, placed, i)
    &&& forall|j: int|
        0 <= j < i ==> !(#[trigger] chosen.contains(j) && !placed.contains(j) && is_ready(
            components,
            placed,
            j,
        ))
}

/// The order of the chosen components, given what has been placed.
pub open spec fn arranged(
    components: Seq<ComponentFacts>,
    chosen: Set<int>,
    placed: Seq<int>,
) -> Seq<int>
    decreases components.len() - placed.len(),
{
    if placed.len() < components.len() && (exists|i: int| is_next(components, chosen, placed, i)) {
        arranged(
            components,
            chosen,
            placed.push(choose|i: int| is_next(components, chosen, placed, i)),
        )
    } else {
        placed
    }
}

/// The names of the chosen components that the order leaves out, in the channel's order.
pub open spec fn left_out(
    components: Seq<ComponentFacts>,
    chosen: Set<int>,
    placed: Seq<int>,
    n: int,
) -> Seq<Seq<char>>
    decreases n,
{
    if n <= 0 {
        Seq::empty()
    } else {
        let before = left_out(components, chosen, placed, n - 1);
        if chosen.contains(n - 1) && !placed.contains(n - 1) {
            before.push(components[n - 1].name)
        } else {
            before
        }
    }
}

// ---------------------------------------------------------------------------------------------
// Errors

/// Why no component set can be resolved.
#[derive(Debug, PartialEq, Eq)]
pub enum ResolutionError {
    /// The intent names a component that the channel does not declare.
    UnknownRoot { name: String },
    /// The intent names a component of a kind that this build cannot install.
    UnsupportedRoot { name: String },
    /// A selected component requires one that the channel does not declare.
    UnknownRequirement { component: String, requirement: String },
    /// A selected component requires one that this build cannot install.
    UnsupportedRequirement { name: String },
    /// Selected components require each other in a circle.
    Cycle { components: Vec<String> },
}

/// What a [`ResolutionError`] holds.
#[verifier::ext_equal]
pub enum ResolutionFacts {
    UnknownRoot { name: Seq<char> },
    UnsupportedRoot { name: Seq<char> },
    UnknownRequirement { component: Seq<char>, requirement: Seq<char> },
    UnsupportedRequirement { name: Seq<char> },
    Cycle { components: Seq<Seq<char>> },
}

impl DeepView for ResolutionError {
    type V = ResolutionFacts;

    open spec fn deep_view(&self) -> ResolutionFacts {
        match self {
            ResolutionError::UnknownRoot { name } => ResolutionFacts::UnknownRoot { name: name@ },
            ResolutionError::UnsupportedRoot { name } => ResolutionFacts::UnsupportedRoot {
                name: name@,
            },
            ResolutionError::UnknownRequirement { component, requirement } =>
                ResolutionFacts::UnknownRequirement {
                component: component@,
                requirement: requirement@,
            },
            ResolutionError::UnsupportedRequirement { name } =>
                ResolutionFacts::UnsupportedRequirement { name: name@ },
            ResolutionError::Cycle { components } => ResolutionFacts::Cycle {
                components: components.deep_view(),
            },
        }
    }
}

/// Why no component set can be resolved, in words.
pub open spec fn resolution_error_text(e: ResolutionFacts) -> Seq<char> {
    match e {
        ResolutionFacts::UnknownRoot { name } => "unknown component '"@ + name + "'"@,
        ResolutionFacts::UnsupportedRoot { name } => "component '"@ + name
            + "' is of a kind that this version of midenup does not support"@,
        ResolutionFacts::UnknownRequirement { component, requirement } => "component '"@ + component
            + "' requires unknown component '"@ + requirement + "'"@,
        ResolutionFacts::UnsupportedRequirement { name } => "required component '"@ + name
            + "' is of a kind that this version of midenup does not support"@,
        ResolutionFacts::Cycle { components } => "components require each other in a cycle: "@
            + text::joined(components, ", "@),
    }
}

impl ResolutionError {
    /// Why no component set can be resolved, in words.
    pub fn to_string(&self) -> (s: String)
        ensures
            s@ == resolution_error_text(self.deep_view()),
    {
        match self {
            ResolutionError::UnknownRoot { name } => {
                let mut s = "unknown component '".to_owned();
                s.append(name.as_str());
                s.append("'");
                s
            },
            ResolutionError::UnsupportedRoot { name } => {
                let mut s = "component '".to_owned();
                s.append(name.as_str());
                s.append("' is of a kind that this version of midenup does not support");
                s
            },
            ResolutionError::UnknownRequirement { component, requirement } => {
                let mut s = "component '".to_owned();
                s.append(component.as_str());
                s.append("' requires unknown component '");
                s.append(requirement.as_str());
                s.append("'");
                s
            },
            ResolutionError::UnsupportedRequirement { name } => {
                let mut s = "required component '".to_owned();
                s.append(name.as_str());
                s.append("' is of a kind that this version of midenup does not support");
                s
            },
            ResolutionError::Cycle { components } => {
                let mut s = "components require each other in a cycle: ".to_owned();
                s.append(text::join(components, ", ").as_str());
                s
            },
        }
    }
}

/// The first name in the intent that the channel does not declare.
pub open spec fn unknown_root(
    components: Seq<ComponentFacts>,
    roots: Seq<Seq<char>>,
) -> Option<ResolutionFacts>
    decreases roots.len(),
{
    if roots.len() == 0 {
        None
    } else if !declares(components, roots[0]) {
        Some(ResolutionFacts::UnknownRoot { name: roots[0] })
    } else {
        unknown_root(components, roots.drop_first())
    }
}

/// The first component, in the channel's order, that the intent names and that is unsupported.
pub open spec fn unsupported_root(
    components: Seq<ComponentFacts>,
    roots: Seq<Seq<char>>,
) -> Option<ResolutionFacts>
    decreases components.len(),
{
    if components.len() == 0 {
        None
    } else if roots.contains(components[0].name) && !is_supported(components[0]) {
        Some(ResolutionFacts::UnsupportedRoot { name: components[0].name })
    } else {
        unsupported_root(components.drop_first(), roots)
    }
}

/// The first requirement of a component that the channel does not declare.
pub open spec fn dangling(
    components: Seq<ComponentFacts>,
    component: Seq<char>,
    needed: Seq<Seq<char>>,
) -> Option<ResolutionFacts>
    decreases needed.len(),
{
    if needed.len() == 0 {
        None
    } else if !declares(components, needed[0]) {
        Some(ResolutionFacts::UnknownRequirement { component, requirement: needed[0] })
    } else {
        dangling(components, component, needed.drop_first())
    }
}

/// The first chosen component, from position `n` on, with a requirement that the channel does not
/// declare.
pub open spec fn unknown_requirement(
    components: Seq<ComponentFacts>,
    chosen: Set<int>,
    n: int,
) -> Option<ResolutionFacts>
    decreases components.len() - n,
{
    if n >= components.len() {
        None
    } else {
        let found = if chosen.contains(n) {
            dangling(components, components[n].name, components[n].requires)
        } else {
            None
        };
        if found is Some {
            found
        } else {
            unknown_requirement(components, chosen, n + 1)
        }
    }
}

/// The first chosen component, from position `n` on, that is unsupported.
pub open spec fn unsupported_requirement(
    components: Seq<ComponentFacts>,
    chosen: Set<int>,
    n: int,
) -> Option<ResolutionFacts>
    decreases components.len() - n,
{
    if n >= components.len() {
        None
    } else if chosen.contains(n) && !is_supported(components[n]) {
        Some(ResolutionFacts::UnsupportedRequirement { name: components[n].name })
    } else {
        unsupported_requirement(components, chosen, n + 1)
    }
}

/// The positions of the components to install, dependencies before dependents, or what stands in
/// the way.
pub open spec fn resolved(components: Seq<ComponentFacts>, intent: IntentFacts) -> Result<
    Seq<int>,
    ResolutionFacts,
> {
    let chosen = selection(components, intent);
    let order = arranged(components, chosen, Seq::empty());
    let missing = left_out(components, chosen, order, components.len() as int);
    if unknown_root(components, intent.roots) is Some {
        Err(unknown_root(components, intent.roots)->0)
    } else if unsupported_root(components, intent.roots) is Some {
        Err(unsupported_root(components, intent.roots)->0)
    } else if unknown_requirement(components, chosen, 0) is Some {
        Err(unknown_requirement(components, chosen, 0)->0)
    } else if unsupported_requirement(components, chosen, 0) is Some {
        Err(unsupported_requirement(components, chosen, 0)->0)
    } else if missing.len() > 0 {
        Err(ResolutionFacts::Cycle { components: missing })
    } else {
        Ok(order)
    }
}

// ---------------------------------------------------------------------------------------------
// Executable resolution

/// The selection is itself closed.
pub proof fn selection_is_closed(components: Seq<ComponentFacts>, intent: IntentFacts)
    ensures
        is_closed(components, intent, selection(components, intent)),
{
    let chosen = selection(components, intent);
    assert forall|i: int|
        0 <= i < components.len() && is_root(
            #[trigger] components[i],
            intent,
        ) implies chosen.contains(i) by {
        assert forall|set: Set<int>| #[trigger]
            is_closed(components, intent, set) implies set.contains(i) by {}
    }
    assert forall|i: int, j: int|
        chosen.contains(i) && #[trigger] needs(components, i, j) implies chosen.contains(j) by {
        assert forall|set: Set<int>| #[trigger]
            is_closed(components, intent, set) implies set.contains(j) by {
            assert(is_selected(components, intent, i));
            assert(set.contains(i));
        }
    }
}

/// Only positions in the channel are selected.
pub proof fn selection_is_in_range(components: Seq<ComponentFacts>, intent: IntentFacts, i: int)
    requires
        selection(components, intent).contains(i),
    ensures
        0 <= i < components.len(),
{
    let all = Set::new(|k: int| 0 <= k < components.len());
    assert(is_closed(components, intent, all)) by {
        assert forall|a: int, b: int|
            all.contains(a) && #[trigger] needs(components, a, b) implies all.contains(b) by {
            let k = choose|k: int|
                0 <= k < components[a].requires.len() && first_named(
                    components,
                    #[trigger] components[a].requires[k],
                    b,
                );
        }
    }
}

/// The position of the component named `name`.
pub fn position_of(components: &Vec<Component>, name: &str) -> (r: Option<usize>)
    ensures
        match r {
            Some(i) => first_named(components.deep_view(), name@, i as int) && declares(
                components.deep_view(),
                name@,
            ),
            None => !declares(components.deep_view(), name@),
        },
{
    let ghost all = components.deep_view();
    let mut i: usize = 0;
    while i < components.len()
        invariant
            i <= components@.len(),
            all == components.deep_view(),
            forall|j: int| 0 <= j < i ==> (#[trigger] all[j]).name != name@,
        decreases components.len() - i,
    {
        if text::same(components[i].name.as_str(), name) {
            assert(all[i as int].name == name@);
            return Some(i);
        }
        assert(all[i as int].name != name@);
        i += 1;
    }
    None
}

fn has_profile(profiles: &Vec<Profile>, wanted: Profile) -> (r: bool)
    ensures
        r == profiles@.contains(wanted),
{
    let mut i: usize = 0;
    while i < profiles.len()
        invariant
            i <= profiles@.len(),
            forall|j: int| 0 <= j < i ==> profiles@[j] != wanted,
        decreases profiles.len() - i,
    {
        if profiles[i] == wanted {
            assert(profiles@[i as int] == wanted);
            return true;
        }
        i += 1;
    }
    false
}

fn supports(component: &Component) -> (r: bool)
    ensures
        r == is_supported(component.deep_view()),
{
    match component.kind() {
        ComponentKind::Unsupported { .. } => false,
        _ => true,
    }
}

fn selects(component: &Component, intent: &Intent) -> (r: bool)
    ensures
        r == is_root(component.deep_view(), intent.deep_view()),
{
    let ghost c = component.deep_view();
    let ghost wanted = intent.deep_view();
    if text::is_member(&intent.roots, component.name.as_str()) {
        return true;
    }
    if !supports(component) {
        return false;
    }
    if has_profile(&intent.profiles, Profile::Complete) {
        return true;
    }
    let mut i: usize = 0;
    while i < component.profiles.len()
        invariant
            i <= component.profiles@.len(),
            c == component.deep_view(),
            wanted == intent.deep_view(),
            is_supported(c),
            !wanted.roots.contains(c.name),
            !wanted.profiles.contains(Profile::Complete),
            forall|j: int| 0 <= j < i ==> !wanted.profiles.contains(#[trigger] c.profiles[j]),
        decreases component.profiles.len() - i,
    {
        if has_profile(&intent.profiles, component.profiles[i]) {
            assert(wanted.profiles.contains(c.profiles[i as int]));
            return true;
        }
        assert(!wanted.profiles.contains(c.profiles[i as int]));
        i += 1;
    }
    false
}

/// The marked positions.
spec fn marked(marks: Seq<bool>) -> Set<int> {
    Set::new(|i: int| 0 <= i < marks.len() && marks[i])
}

/// Marks what component `i` requires. Tells whether anything was newly marked.
fn mark_needed(components: &Vec<Component>, i: usize, marks: &mut Vec<bool>) -> (grew: bool)
    requires
        i < components@.len(),
        old(marks)@.len() == components@.len(),
        old(marks)@[i as int],
    ensures
        final(marks)@.len() == old(marks)@.len(),
        forall|k: int| 0 <= k < old(marks)@.len() && old(marks)@[k] ==> #[trigger] final(marks)@[k],
        forall|k: int|
            0 <= k < final(marks)@.len() && #[trigger] final(marks)@[k] ==> old(marks)@[k] || needs(
                components.deep_view(),
                i as int,
                k,
            ),
        !grew ==> final(marks)@ == old(marks)@ && forall|j: int| #[trigger]
            needs(components.deep_view(), i as int, j) ==> old(marks)@[j],
        grew ==> exists|k: int|
            0 <= k < old(marks)@.len() && !old(marks)@[k] && #[trigger] final(marks)@[k],
{
    let ghost all = components.deep_view();
    let ghost before = marks@;
    let needed = &components[i].requires;
    let mut grew = false;
    let mut k: usize = 0;
    while k < needed.len()
        invariant
            k <= needed@.len(),
            i < components@.len(),
            all == components.deep_view(),
            needed == components@[i as int].requires,
            marks@.len() == before.len() == all.len(),
            forall|m: int| 0 <= m < before.len() && before[m] ==> #[trigger] marks@[m],
            forall|m: int|
                0 <= m < marks@.len() && #[trigger] marks@[m] ==> before[m] || needs(
                    all,
                    i as int,
                    m,
                ),
            !grew ==> marks@ == before,
            grew ==> exists|m: int| 0 <= m < before.len() && !before[m] && #[trigger] marks@[m],
            forall|m: int, j: int|
                0 <= m < k && #[trigger] first_named(all, all[i as int].requires[m], j)
                    ==> marks@[j],
        decreases needed.len() - k,
    {
        let ghost name = all[i as int].requires[k as int];
        assert(name == needed@[k as int]@);
        let ghost earlier = marks@;
        match position_of(components, needed[k].as_str()) {
            Some(j) => {
                proof {
                    assert(first_named(all, all[i as int].requires[k as int], j as int));
                    assert(needs(all, i as int, j as int));
                    assert forall|q: int| first_named(all, name, q) implies q == j by {
                        if q < j {
                            assert(all[q].name != name);
                        } else if j < q {
                            assert(all[j as int].name != name);
                        }
                    }
                }
                if !marks[j] {
                    marks.set(j, true);
                    grew = true;
                    assert(marks@[j as int]);
                }
            },
            None => {
                assert forall|q: int| !first_named(all, name, q) by {
                    if first_named(all, name, q) {
                        assert(all[q].name == name);
                    }
                }
            },
        }
        proof {
            assert forall|m: int, j: int|
                0 <= m < k + 1 && #[trigger] first_named(
                    all,
                    all[i as int].requires[m],
                    j,
                ) implies marks@[j] by {
                if m < k {
                    assert(earlier[j]);
                }
            }
        }
        k += 1;
    }
    proof {
        if !grew {
            assert forall|j: int| #[trigger] needs(all, i as int, j) implies before[j] by {
                let m = choose|m: int|
                    0 <= m < all[i as int].requires.len() && first_named(
                        all,
                        #[trigger] all[i as int].requires[m],
                        j,
                    );
                assert(first_named(all, all[i as int].requires[m], j));
            }
        }
    }
    grew
}

/// How many positions are not marked.
spec fn unmarked(marks: Seq<bool>) -> nat
    decreases marks.len(),
{
    if marks.len() == 0 {
        0
    } else {
        unmarked(marks.drop_last()) + (if marks.last() {
            0nat
        } else {
            1nat
        })
    }
}

proof fn marking_shrinks(a: Seq<bool>, b: Seq<bool>)
    requires
        a.len() == b.len(),
        forall|k: int| 0 <= k < a.len() && a[k] ==> #[trigger] b[k],
    ensures
        unmarked(b) <= unmarked(a),
        (exists|k: int| 0 <= k < a.len() && !a[k] && #[trigger] b[k]) ==> unmarked(b) < unmarked(a),
    decreases a.len(),
{
    if a.len() > 0 {
        let (p, q) = (a.drop_last(), b.drop_last());
        assert forall|k: int| 0 <= k < p.len() && p[k] implies #[trigger] q[k] by {
            assert(a[k] && b[k]);
        }
        marking_shrinks(p, q);
        if exists|k: int| 0 <= k < a.len() && !a[k] && #[trigger] b[k] {
            let k = choose|k: int| 0 <= k < a.len() && !a[k] && #[trigger] b[k];
            if k < p.len() {
                assert(!p[k] && q[k]);
            }
        }
        if a.last() {
            assert(b[a.len() - 1]);
        }
    }
}

/// Marks the selected components.
fn select(components: &Vec<Component>, intent: &Intent) -> (marks: Vec<bool>)
    ensures
        marks@.len() == components@.len(),
        forall|i: int|
            0 <= i < marks@.len() ==> #[trigger] marks@[i] == selection(
                components.deep_view(),
                intent.deep_view(),
            ).contains(i),
{
    let ghost all = components.deep_view();
    let ghost wanted = intent.deep_view();
    let ghost chosen = selection(all, wanted);
    proof {
        selection_is_closed(all, wanted);
    }
    let mut marks: Vec<bool> = Vec::new();
    let mut i: usize = 0;
    while i < components.len()
        invariant
            i <= components@.len(),
            all == components.deep_view(),
            wanted == intent.deep_view(),
            marks@.len() == i,
            forall|k: int| 0 <= k < i ==> #[trigger] marks@[k] == is_root(all[k], wanted),
        decreases components.len() - i,
    {
        marks.push(selects(&components[i], intent));
        i += 1;
    }
    proof {
        assert forall|k: int| 0 <= k < marks@.len() && #[trigger] marks@[k] implies chosen.contains(
            k,
        ) by {
            assert(is_root(all[k], wanted));
        }
    }
    let mut grew = true;
    while grew
        invariant
            all == components.deep_view(),
            wanted == intent.deep_view(),
            chosen == selection(all, wanted),
            is_closed(all, wanted, chosen),
            marks@.len() == all.len(),
            forall|k: int| 0 <= k < all.len() && is_root(#[trigger] all[k], wanted) ==> marks@[k],
            forall|k: int| 0 <= k < marks@.len() && #[trigger] marks@[k] ==> chosen.contains(k),
            !grew ==> forall|a: int, b: int|
                0 <= a < marks@.len() && marks@[a] && #[trigger] needs(all, a, b) ==> marks@[b],
        decreases
            unmarked(marks@),
            (if grew {
                1int
            } else {
                0int
            }),
    {
        let ghost start = marks@;
        grew = false;
        let mut j: usize = 0;
        while j < components.len()
            invariant
                j <= components@.len(),
                all == components.deep_view(),
                wanted == intent.deep_view(),
                chosen == selection(all, wanted),
                is_closed(all, wanted, chosen),
                marks@.len() == start.len() == all.len(),
                forall|k: int|
                    0 <= k < all.len() && is_root(#[trigger] all[k], wanted) ==> marks@[k],
                forall|k: int| 0 <= k < marks@.len() && #[trigger] marks@[k] ==> chosen.contains(k),
                forall|k: int| 0 <= k < start.len() && start[k] ==> #[trigger] marks@[k],
                !grew ==> marks@ == start,
                grew ==> exists|k: int| 0 <= k < start.len() && !start[k] && #[trigger] marks@[k],
                !grew ==> forall|a: int, b: int|
                    0 <= a < j && marks@[a] && #[trigger] needs(all, a, b) ==> marks@[b],
            decreases components.len() - j,
        {
            if marks[j] {
                let ghost earlier = marks@;
                let more = mark_needed(components, j, &mut marks);
                proof {
                    assert forall|k: int| 0 <= k < marks@.len() && #[trigger] marks@[k] implies chosen.contains(
                    k) by {
                        if !earlier[k] {
                            assert(needs(all, j as int, k));
                            assert(chosen.contains(j as int));
                        }
                    }
                    if more {
                        let k = choose|k: int|
                            0 <= k < earlier.len() && !earlier[k] && #[trigger] marks@[k];
                        assert(!start[k] && marks@[k]);
                    } else if grew {
                        let k = choose|k: int|
                            0 <= k < start.len() && !start[k] && #[trigger] earlier[k];
                        assert(marks@[k]);
                    }
                }
                if more {
                    grew = true;
                }
            }
            j += 1;
        }
        proof {
            marking_shrinks(start, marks@);
        }
    }
    proof {
        let set = marked(marks@);
        assert(is_closed(all, wanted, set)) by {
            assert forall|a: int, b: int|
                set.contains(a) && #[trigger] needs(all, a, b) implies set.contains(b) by {
                let k = choose|k: int|
                    0 <= k < all[a].requires.len() && first_named(
                        all,
                        #[trigger] all[a].requires[k],
                        b,
                    );
            }
        }
        assert forall|k: int| 0 <= k < marks@.len() implies #[trigger] marks@[k] == chosen.contains(
            k,
        ) by {
            if chosen.contains(k) {
                assert(is_selected(all, wanted, k));
                assert(set.contains(k));
            }
        }
    }
    marks
}

/// Positions as mathematical integers.
pub open spec fn as_positions(indices: Seq<usize>) -> Seq<int> {
    indices.map_values(|i: usize| i as int)
}

/// Whether everything that component `i` requires has been placed.
fn ready(components: &Vec<Component>, done: &Vec<bool>, i: usize, placed: &Vec<usize>) -> (r: bool)
    requires
        i < components@.len(),
        done@.len() == components@.len(),
        forall|k: int|
            0 <= k < done@.len() ==> #[trigger] done@[k] == as_positions(placed@).contains(k),
    ensures
        r == is_ready(components.deep_view(), as_positions(placed@), i as int),
{
    let ghost all = components.deep_view();
    let ghost order = as_positions(placed@);
    let needed = &components[i].requires;
    let mut k: usize = 0;
    while k < needed.len()
        invariant
            k <= needed@.len(),
            i < components@.len(),
            all == components.deep_view(),
            needed == components@[i as int].requires,
            order == as_positions(placed@),
            done@.len() == all.len(),
            forall|m: int| 0 <= m < done@.len() ==> #[trigger] done@[m] == order.contains(m),
            forall|m: int, j: int|
                0 <= m < k && #[trigger] first_named(all, all[i as int].requires[m], j)
                    ==> order.contains(j),
        decreases needed.len() - k,
    {
        let ghost name = all[i as int].requires[k as int];
        assert(name == needed@[k as int]@);
        match position_of(components, needed[k].as_str()) {
            Some(j) => {
                proof {
                    assert(first_named(all, all[i as int].requires[k as int], j as int));
                    assert(needs(all, i as int, j as int));
                    assert forall|q: int| first_named(all, name, q) implies q == j by {
                        if q < j {
                            assert(all[q].name != name);
                        } else if j < q {
                            assert(all[j as int].name != name);
                        }
                    }
                }
                if !done[j] {
                    assert(!order.contains(j as int));
                    return false;
                }
                assert(done@[j as int]);
            },
            None => {
                assert forall|q: int| !first_named(all, name, q) by {
                    if first_named(all, name, q) {
                        assert(all[q].name == name);
                    }
                }
            },
        }
        k += 1;
    }
    proof {
        assert forall|j: int| #[trigger] needs(all, i as int, j) implies order.contains(j) by {
            let m = choose|m: int|
                0 <= m < all[i as int].requires.len() && first_named(
                    all,
                    #[trigger] all[i as int].requires[m],
                    j,
                );
            assert(first_named(all, all[i as int].requires[m], j));
        }
    }
    true
}

/// The next component to be placed.
fn find_next(
    components: &Vec<Component>,
    marks: &Vec<bool>,
    done: &Vec<bool>,
    placed: &Vec<usize>,
    Ghost(chosen): Ghost<Set<int>>,
) -> (r: Option<usize>)
    requires
        marks@.len() == components@.len(),
        done@.len() == components@.len(),
        forall|k: int| 0 <= k < marks@.len() ==> #[trigger] marks@[k] == chosen.contains(k),
        forall|k: int|
            0 <= k < done@.len() ==> #[trigger] done@[k] == as_positions(placed@).contains(k),
    ensures
        match r {
            Some(i) => is_next(
                components.deep_view(),
                chosen,
                as_positions(placed@),
                i as int,
            ) && i < done@.len() && !done@[i as int],
            None => forall|i: int|
                !is_next(components.deep_view(), chosen, as_positions(placed@), i),
        },
{
    let ghost all = components.deep_view();
    let ghost order = as_positions(placed@);
    let mut i: usize = 0;
    while i < components.len()
        invariant
            i <= components@.len(),
            all == components.deep_view(),
            order == as_positions(placed@),
            marks@.len() == components@.len(),
            done@.len() == components@.len(),
            forall|k: int| 0 <= k < marks@.len() ==> #[trigger] marks@[k] == chosen.contains(k),
            forall|k: int| 0 <= k < done@.len() ==> #[trigger] done@[k] == order.contains(k),
            forall|j: int|
                0 <= j < i ==> !(#[trigger] chosen.contains(j) && !order.contains(j) && is_ready(
                    all,
                    order,
                    j,
                )),
        decreases components.len() - i,
    {
        assert(marks@[i as int] == chosen.contains(i as int));
        assert(done@[i as int] == order.contains(i as int));
        if marks[i] && !done[i] && ready(components, done, i, placed) {
            return Some(i);
        }
        i += 1;
    }
    proof {
        assert forall|j: int| !is_next(all, chosen, order, j) by {
            if 0 <= j < all.len() {
                assert(!(chosen.contains(j) && !order.contains(j) && is_ready(all, order, j)));
            }
        }
    }
    None
}

proof fn next_is_unique(
    components: Seq<ComponentFacts>,
    chosen: Set<int>,
    placed: Seq<int>,
    i: int,
    j: int,
)
    requires
        is_next(components, chosen, placed, i),
        is_next(components, chosen, placed, j),
    ensures
        i == j,
{
    if i < j {
        assert(chosen.contains(i));
    } else if j < i {
        assert(chosen.contains(j));
    }
}

proof fn unmarked_counts(marks: Seq<bool>, i: int)
    requires
        0 <= i < marks.len(),
        !marks[i],
    ensures
        unmarked(marks) >= 1,
        unmarked(marks.update(i, true)) == unmarked(marks) - 1,
    decreases marks.len(),
{
    let n = marks.len() - 1;
    let set = marks.update(i, true);
    if i == n {
        assert(set.drop_last() =~= marks.drop_last());
    } else {
        unmarked_counts(marks.drop_last(), i);
        assert(set.drop_last() =~= marks.drop_last().update(i, true));
    }
}

proof fn all_unmarked(marks: Seq<bool>)
    requires
        forall|i: int| 0 <= i < marks.len() ==> !marks[i],
    ensures
        unmarked(marks) == marks.len(),
    decreases marks.len(),
{
    if marks.len() > 0 {
        all_unmarked(marks.drop_last());
    }
}

/// Puts the chosen components in order.
fn arrange(components: &Vec<Component>, marks: &Vec<bool>, Ghost(chosen): Ghost<Set<int>>) -> (r: (
    Vec<usize>,
    Vec<bool>,
))
    requires
        marks@.len() == components@.len(),
        forall|k: int| 0 <= k < marks@.len() ==> #[trigger] marks@[k] == chosen.contains(k),
    ensures
        as_positions(r.0@) == arranged(components.deep_view(), chosen, Seq::empty()),
        forall|i: int| 0 <= i < r.0@.len() ==> (#[trigger] r.0@[i]) < components@.len(),
        r.1@.len() == components@.len(),
        forall|k: int|
            0 <= k < r.1@.len() ==> #[trigger] r.1@[k] == as_positions(r.0@).contains(k),
{
    let ghost all = components.deep_view();
    let mut placed: Vec<usize> = Vec::new();
    let mut done: Vec<bool> = Vec::new();
    let mut n: usize = 0;
    while n < components.len()
        invariant
            n <= components@.len(),
            done@.len() == n,
            forall|k: int| 0 <= k < n ==> !#[trigger] done@[k],
        decreases components.len() - n,
    {
        done.push(false);
        n += 1;
    }
    proof {
        all_unmarked(done@);
        assert(as_positions(placed@) =~= Seq::empty());
    }
    loop
        invariant
            all == components.deep_view(),
            marks@.len() == components@.len(),
            forall|k: int| 0 <= k < marks@.len() ==> #[trigger] marks@[k] == chosen.contains(k),
            done@.len() == components@.len(),
            placed@.len() + unmarked(done@) == all.len(),
            forall|k: int|
                0 <= k < done@.len() ==> #[trigger] done@[k] == as_positions(placed@).contains(k),
            forall|k: int| 0 <= k < placed@.len() ==> (#[trigger] placed@[k]) < components@.len(),
            arranged(all, chosen, Seq::empty()) == arranged(all, chosen, as_positions(placed@)),
        decreases unmarked(done@),
    {
        let i = match find_next(components, marks, &done, &placed, Ghost(chosen)) {
            Some(i) => i,
            None => return (placed, done),
        };
        let ghost order = as_positions(placed@);
        let ghost before = done@;
        proof {
            unmarked_counts(before, i as int);
            let k = choose|k: int| is_next(all, chosen, order, k);
            next_is_unique(all, chosen, order, i as int, k);
        }
        placed.push(i);
        done.set(i, true);
        proof {
            let now = as_positions(placed@);
            assert(now =~= order.push(i as int));
            assert forall|k: int| 0 <= k < done@.len() implies #[trigger] done@[k]
                == now.contains(k) by {
                if k == i {
                    assert(now[now.len() - 1] == k);
                } else {
                    assert(done@[k] == before[k]);
                    if order.contains(k) {
                        let p = choose|p: int| 0 <= p < order.len() && order[p] == k;
                        assert(now[p] == k);
                    }
                    if now.contains(k) {
                        let p = choose|p: int| 0 <= p < now.len() && now[p] == k;
                        assert(order[p] == k);
                    }
                }
            }
        }
    }
}

/// The names of the chosen components that were not placed.
fn name_left_out(
    components: &Vec<Component>,
    marks: &Vec<bool>,
    done: &Vec<bool>,
    Ghost(chosen): Ghost<Set<int>>,
    Ghost(order): Ghost<Seq<int>>,
) -> (r: Vec<String>)
    requires
        marks@.len() == components@.len(),
        done@.len() == components@.len(),
        forall|k: int| 0 <= k < marks@.len() ==> #[trigger] marks@[k] == chosen.contains(k),
        forall|k: int| 0 <= k < done@.len() ==> #[trigger] done@[k] == order.contains(k),
    ensures
        r.deep_view() == left_out(
            components.deep_view(),
            chosen,
            order,
            components@.len() as int,
        ),
{
    let ghost all = components.deep_view();
    let mut names: Vec<String> = Vec::new();
    let mut i: usize = 0;
    assert(names.deep_view() =~= Seq::empty());
    while i < components.len()
        invariant
            i <= components@.len(),
            all == components.deep_view(),
            marks@.len() == components@.len(),
            done@.len() == components@.len(),
            forall|k: int| 0 <= k < marks@.len() ==> #[trigger] marks@[k] == chosen.contains(k),
            forall|k: int| 0 <= k < done@.len() ==> #[trigger] done@[k] == order.contains(k),
            names.deep_view() == left_out(all, chosen, order, i as int),
        decreases components.len() - i,
    {
        let ghost before = names.deep_view();
        assert(marks@[i as int] == chosen.contains(i as int));
        assert(done@[i as int] == order.contains(i as int));
        if marks[i] && !done[i] {
            names.push(components[i].name.clone());
            assert(names.deep_view() =~= before.push(all[i as int].name));
        }
        i += 1;
    }
    names
}

fn find_unknown_root(components: &Vec<Component>, intent: &Intent) -> (r: Option<ResolutionError>)
    ensures
        r.deep_view() == unknown_root(components.deep_view(), intent.deep_view().roots),
{
    let ghost all = components.deep_view();
    let ghost roots = intent.deep_view().roots;
    let mut i: usize = 0;
    assert(roots.skip(0) =~= roots);
    while i < intent.roots.len()
        invariant
            i <= intent.roots@.len(),
            all == components.deep_view(),
            roots == intent.deep_view().roots,
            unknown_root(all, roots) == unknown_root(all, roots.skip(i as int)),
        decreases intent.roots.len() - i,
    {
        assert(roots.skip(i as int)[0] == intent.roots@[i as int]@);
        assert(roots.skip(i as int).drop_first() =~= roots.skip(i + 1));
        if position_of(components, intent.roots[i].as_str()).is_none() {
            return Some(ResolutionError::UnknownRoot { name: intent.roots[i].clone() });
        }
        i += 1;
    }
    None
}

fn find_unsupported_root(components: &Vec<Component>, intent: &Intent) -> (r: Option<
    ResolutionError,
>)
    ensures
        r.deep_view() == unsupported_root(components.deep_view(), intent.deep_view().roots),
{
    let ghost all = components.deep_view();
    let ghost roots = intent.deep_view().roots;
    let mut i: usize = 0;
    assert(all.skip(0) =~= all);
    while i < components.len()
        invariant
            i <= components@.len(),
            all == components.deep_view(),
            roots == intent.deep_view().roots,
            unsupported_root(all, roots) == unsupported_root(all.skip(i as int), roots),
        decreases components.len() - i,
    {
        assert(all.skip(i as int)[0] == components@[i as int].deep_view());
        assert(all.skip(i as int).drop_first() =~= all.skip(i + 1));
        if text::is_member(&intent.roots, components[i].name.as_str()) && !supports(
            &components[i],
        ) {
            return Some(ResolutionError::UnsupportedRoot { name: components[i].name.clone() });
        }
        i += 1;
    }
    None
}

fn find_dangling(components: &Vec<Component>, component: &Component) -> (r: Option<ResolutionError>)
    ensures
        r.deep_view() == dangling(
            components.deep_view(),
            component.deep_view().name,
            component.deep_view().requires,
        ),
{
    let ghost all = components.deep_view();
    let ghost needed = component.deep_view().requires;
    let mut i: usize = 0;
    assert(needed.skip(0) =~= needed);
    while i < component.requires.len()
        invariant
            i <= component.requires@.len(),
            all == components.deep_view(),
            needed == component.deep_view().requires,
            dangling(all, component.name@, needed) == dangling(
                all,
                component.name@,
                needed.skip(i as int),
            ),
        decreases component.requires.len() - i,
    {
        assert(needed.skip(i as int)[0] == component.requires@[i as int]@);
        assert(needed.skip(i as int).drop_first() =~= needed.skip(i + 1));
        if position_of(components, component.requires[i].as_str()).is_none() {
            return Some(
                ResolutionError::UnknownRequirement {
                    component: component.name.clone(),
                    requirement: component.requires[i].clone(),
                },
            );
        }
        i += 1;
    }
    None
}

fn find_unknown_requirement(
    components: &Vec<Component>,
    marks: &Vec<bool>,
    Ghost(chosen): Ghost<Set<int>>,
) -> (r: Option<ResolutionError>)
    requires
        marks@.len() == components@.len(),
        forall|k: int| 0 <= k < marks@.len() ==> #[trigger] marks@[k] == chosen.contains(k),
    ensures
        r.deep_view() == unknown_requirement(components.deep_view(), chosen, 0),
{
    let ghost all = components.deep_view();
    let mut i: usize = 0;
    while i < components.len()
        invariant
            i <= components@.len(),
            all == components.deep_view(),
            marks@.len() == components@.len(),
            forall|k: int| 0 <= k < marks@.len() ==> #[trigger] marks@[k] == chosen.contains(k),
            unknown_requirement(all, chosen, 0) == unknown_requirement(all, chosen, i as int),
        decreases components.len() - i,
    {
        assert(marks@[i as int] == chosen.contains(i as int));
        if marks[i] {
            let found = find_dangling(components, &components[i]);
            if found.is_some() {
                return found;
            }
        }
        i += 1;
    }
    None
}

fn find_unsupported_requirement(
    components: &Vec<Component>,
    marks: &Vec<bool>,
    Ghost(chosen): Ghost<Set<int>>,
) -> (r: Option<ResolutionError>)
    requires
        marks@.len() == components@.len(),
        forall|k: int| 0 <= k < marks@.len() ==> #[trigger] marks@[k] == chosen.contains(k),
    ensures
        r.deep_view() == unsupported_requirement(components.deep_view(), chosen, 0),
{
    let ghost all = components.deep_view();
    let mut i: usize = 0;
    while i < components.len()
        invariant
            i <= components@.len(),
            all == components.deep_view(),
            marks@.len() == components@.len(),
            forall|k: int| 0 <= k < marks@.len() ==> #[trigger] marks@[k] == chosen.contains(k),
            unsupported_requirement(all, chosen, 0) == unsupported_requirement(
                all,
                chosen,
                i as int,
            ),
        decreases components.len() - i,
    {
        assert(marks@[i as int] == chosen.contains(i as int));
        if marks[i] && !supports(&components[i]) {
            return Some(
                ResolutionError::UnsupportedRequirement { name: components[i].name.clone() },
            );
        }
        i += 1;
    }
    None
}

/// The positions of the components that `intent` selects, dependencies before dependents.
pub fn positions(components: &Vec<Component>, intent: &Intent) -> (r: Result<
    Vec<usize>,
    ResolutionError,
>)
    ensures
        match r {
            Ok(order) => resolved(components.deep_view(), intent.deep_view()) == Ok::<
                Seq<int>,
                ResolutionFacts,
            >(as_positions(order@)) && forall|i: int|
                0 <= i < order@.len() ==> (#[trigger] order@[i]) < components@.len(),
            Err(e) => resolved(components.deep_view(), intent.deep_view()) == Err::<
                Seq<int>,
                ResolutionFacts,
            >(e.deep_view()),
        },
{
    if let Some(e) = find_unknown_root(components, intent) {
        return Err(e);
    }
    if let Some(e) = find_unsupported_root(components, intent) {
        return Err(e);
    }
    let ghost chosen = selection(components.deep_view(), intent.deep_view());
    let marks = select(components, intent);
    if let Some(e) = find_unknown_requirement(components, &marks, Ghost(chosen)) {
        return Err(e);
    }
    if let Some(e) = find_unsupported_requirement(components, &marks, Ghost(chosen)) {
        return Err(e);
    }
    let (order, done) = arrange(components, &marks, Ghost(chosen));
    let missing = name_left_out(
        components,
        &marks,
        &done,
        Ghost(chosen),
        Ghost(as_positions(order@)),
    );
    if missing.len() > 0 {
        return Err(ResolutionError::Cycle { components: missing });
    }
    Ok(order)
}

/// The components at the given positions.
pub open spec fn picked(components: Seq<ComponentFacts>, order: Seq<int>) -> Seq<ComponentFacts> {
    Seq::new(order.len(), |i: int| components[order[i]])
}

/// The components that `intent` selects from `channel`, dependencies before dependents.
pub fn resolve<'a>(channel: &'a Channel, intent: &Intent) -> (r: Result<
    Vec<&'a Component>,
    ResolutionError,
>)
    ensures
        match r {
            Ok(components) => resolved(channel.deep_view().components, intent.deep_view()) is Ok
                && components.deep_view() == picked(
                channel.deep_view().components,
                resolved(channel.deep_view().components, intent.deep_view())->Ok_0,
            ),
            Err(e) => resolved(channel.deep_view().components, intent.deep_view()) == Err::<
                Seq<int>,
                ResolutionFacts,
            >(e.deep_view()),
        },
{
    let order = match positions(&channel.components, intent) {
        Ok(order) => order,
        Err(e) => return Err(e),
    };
    let mut list: Vec<&'a Component> = Vec::new();
    let mut i: usize = 0;
    while i < order.len()
        invariant
            i <= order@.len(),
            forall|k: int| 0 <= k < order@.len() ==> (#[trigger] order@[k])
                < channel.components@.len(),
            list@.len() == i,
            forall|k: int| 0 <= k < i ==> *(#[trigger] list@[k]) == channel.components@[order@[k] as int],
        decreases order.len() - i,
    {
        list.push(&channel.components[order[i]]);
        i += 1;
    }
    proof {
        let facts = picked(channel.deep_view().components, as_positions(order@));
        assert forall|k: int| 0 <= k < list.deep_view().len() implies list.deep_view()[k]
            == facts[k] by {
            assert(*list@[k] == channel.components@[order@[k] as int]);
        }
        assert(list.deep_view() =~= facts);
    }
    Ok(list)
}

// ---------------------------------------------------------------------------------------------
// Laws

/// Whether no position occurs twice and every one stands behind what it requires.
pub open spec fn dependencies_first(components: Seq<ComponentFacts>, order: Seq<int>) -> bool {
    &&& forall|a: int, b: int| 0 <= a < b < order.len() ==> #[trigger] order[a] != #[trigger] order[b]
    &&& forall|p: int, j: int|
        0 <= p < order.len() && #[trigger] needs(components, order[p], j) ==> order.take(
            p,
        ).contains(j)
}

proof fn arranging_keeps_order(
    components: Seq<ComponentFacts>,
    chosen: Set<int>,
    placed: Seq<int>,
)
    requires
        dependencies_first(components, placed),
        forall|p: int| 0 <= p < placed.len() ==> chosen.contains(#[trigger] placed[p]) && 0
            <= placed[p] < components.len(),
    ensures
        ({
            let order = arranged(components, chosen, placed);
            &&& dependencies_first(components, order)
            &&& forall|p: int|
                0 <= p < order.len() ==> chosen.contains(#[trigger] order[p]) && 0 <= order[p]
                    < components.len()
        }),
    decreases components.len() - placed.len(),
{
    if placed.len() < components.len() && (exists|i: int| is_next(components, chosen, placed, i)) {
        let i = choose|i: int| is_next(components, chosen, placed, i);
        let more = placed.push(i);
        assert forall|a: int, b: int| 0 <= a < b < more.len() implies #[trigger] more[a]
            != #[trigger] more[b] by {
            if b == placed.len() && more[a] == i {
                assert(placed[a] == i);
            }
        }
        assert forall|p: int, j: int|
            0 <= p < more.len() && #[trigger] needs(components, more[p], j) implies more.take(
            p,
        ).contains(j) by {
            if p < placed.len() {
                assert(more.take(p) =~= placed.take(p));
            } else {
                assert(more.take(p) =~= placed);
            }
        }
        arranging_keeps_order(components, chosen, more);
    }
}

proof fn nothing_left_out(
    components: Seq<ComponentFacts>,
    chosen: Set<int>,
    placed: Seq<int>,
    n: int,
    i: int,
)
    requires
        left_out(components, chosen, placed, n).len() == 0,
        0 <= i < n,
        chosen.contains(i),
    ensures
        placed.contains(i),
    decreases n,
{
    if i < n - 1 {
        nothing_left_out(components, chosen, placed, n - 1, i);
    }
}

/// What is resolved is exactly what is selected, each component once, with everything that a
/// component requires in front of it.
pub proof fn resolution_is_ordered(components: Seq<ComponentFacts>, intent: IntentFacts)
    requires
        resolved(components, intent) is Ok,
    ensures
        dependencies_first(components, resolved(components, intent)->Ok_0),
        forall|i: int|
            #[trigger] resolved(components, intent)->Ok_0.contains(i) <==> selection(
                components,
                intent,
            ).contains(i),
{
    let chosen = selection(components, intent);
    let order = resolved(components, intent)->Ok_0;
    arranging_keeps_order(components, chosen, Seq::empty());
    assert forall|i: int| #[trigger] order.contains(i) <==> chosen.contains(i) by {
        if order.contains(i) {
            let p = choose|p: int| 0 <= p < order.len() && order[p] == i;
            assert(chosen.contains(order[p]));
        }
        if chosen.contains(i) {
            selection_is_in_range(components, intent, i);
            nothing_left_out(components, chosen, order, components.len() as int, i);
        }
    }
}

proof fn no_unsupported(components: Seq<ComponentFacts>, chosen: Set<int>, n: int, i: int)
    requires
        0 <= n <= i < components.len(),
        unsupported_requirement(components, chosen, n) is None,
        chosen.contains(i),
    ensures
        is_supported(components[i]),
    decreases components.len() - n,
{
    if n < i {
        no_unsupported(components, chosen, n + 1, i);
    }
}

/// Nothing that this build cannot install is ever resolved.
pub proof fn resolution_is_supported(components: Seq<ComponentFacts>, intent: IntentFacts, i: int)
    requires
        resolved(components, intent) is Ok,
        resolved(components, intent)->Ok_0.contains(i),
    ensures
        0 <= i < components.len(),
        is_supported(components[i]),
{
    resolution_is_ordered(components, intent);
    selection_is_in_range(components, intent, i);
    no_unsupported(components, selection(components, intent), 0, i);
}

/// A selected component brings what it requires with it, through any number of steps.
pub proof fn requirements_come_along(
    components: Seq<ComponentFacts>,
    intent: IntentFacts,
    i: int,
    j: int,
)
    requires
        selection(components, intent).contains(i),
        needs(components, i, j),
    ensures
        selection(components, intent).contains(j),
{
    selection_is_closed(components, intent);
}

/// With the complete profile every supported component is selected.
pub proof fn complete_selects_everything(
    components: Seq<ComponentFacts>,
    intent: IntentFacts,
    i: int,
)
    requires
        intent.profiles.contains(Profile::Complete),
        0 <= i < components.len(),
        is_supported(components[i]),
    ensures
        selection(components, intent).contains(i),
{
    selection_is_closed(components, intent);
    assert(is_root(components[i], intent));
}

/// Asking for more never selects less.
pub proof fn selection_grows_with_the_intent(
    components: Seq<ComponentFacts>,
    less: IntentFacts,
    more: IntentFacts,
    i: int,
)
    requires
        forall|p: Profile| less.profiles.contains(p) ==> more.profiles.contains(p),
        forall|name: Seq<char>| less.roots.contains(name) ==> more.roots.contains(name),
        selection(components, less).contains(i),
    ensures
        selection(components, more).contains(i),
{
    assert forall|set: Set<int>| #[trigger] is_closed(components, more, set) implies set.contains(
        i,
    ) by {
        assert(is_closed(components, less, set));
    }
}

/// Where the intent names a component that the channel does not declare, an unknown root is reported.
pub proof fn missing_roots_are_reported(
    components: Seq<ComponentFacts>,
    roots: Seq<Seq<char>>,
    root: Seq<char>,
)
    requires
        roots.contains(root),
        !declares(components, root),
    ensures
        unknown_root(components, roots) matches Some(e) && e is UnknownRoot,
    decreases roots.len(),
{
    if declares(components, roots[0]) {
        let k = choose|k: int| 0 <= k < roots.len() && roots[k] == root;
        assert(roots.drop_first()[k - 1] == root);
        missing_roots_are_reported(components, roots.drop_first(), root);
    }
}

/// An intent that names no profile selects what it names and what that requires, whatever profiles
/// the components belong to.
pub proof fn named_components_ignore_profiles(
    a: Seq<ComponentFacts>,
    b: Seq<ComponentFacts>,
    intent: IntentFacts,
)
    requires
        intent.profiles.len() == 0,
        a.len() == b.len(),
        forall|i: int|
            0 <= i < a.len() ==> (#[trigger] a[i]).name == b[i].name && a[i].requires
                == b[i].requires,
    ensures
        selection(a, intent) == selection(b, intent),
{
    assert forall|set: Set<int>| is_closed(a, intent, set) == is_closed(b, intent, set) by {
        assert forall|i: int| 0 <= i < a.len() implies is_root(#[trigger] a[i], intent) == is_root(
            b[i],
            intent,
        ) by {}
        assert forall|name: Seq<char>, i: int| #[trigger]
            first_named(a, name, i) == first_named(b, name, i) by {
            if first_named(a, name, i) {
                assert forall|j: int| 0 <= j < i implies (#[trigger] b[j]).name != name by {
                    assert(a[j].name != name);
                }
            }
            if first_named(b, name, i) {
                assert forall|j: int| 0 <= j < i implies (#[trigger] a[j]).name != name by {
                    assert(b[j].name != name);
                }
            }
        }
        assert forall|i: int, j: int| #[trigger] needs(a, i, j) == needs(b, i, j) by {
            if needs(a, i, j) {
                let k = choose|k: int|
                    0 <= k < a[i].requires.len() && first_named(a, #[trigger] a[i].requires[k], j);
                assert(first_named(b, b[i].requires[k], j));
            }
            if needs(b, i, j) {
                let k = choose|k: int|
                    0 <= k < b[i].requires.len() && first_named(b, #[trigger] b[i].requires[k], j);
                assert(first_named(a, a[i].requires[k], j));
            }
        }
        if is_closed(a, intent, set) {
            assert forall|i: int|
                0 <= i < b.len() && is_root(#[trigger] b[i], intent) implies set.contains(i) by {
                assert(is_root(a[i], intent));
            }
            assert forall|i: int, j: int|
                set.contains(i) && #[trigger] needs(b, i, j) implies set.contains(j) by {
                assert(needs(a, i, j));
            }
        }
        if is_closed(b, intent, set) {
            assert forall|i: int|
                0 <= i < a.len() && is_root(#[trigger] a[i], intent) implies set.contains(i) by {
                assert(is_root(b[i], intent));
            }
            assert forall|i: int, j: int|
                set.contains(i) && #[trigger] needs(a, i, j) implies set.contains(j) by {
                assert(needs(b, i, j));
            }
        }
    }
    assert forall|i: int| is_selected(a, intent, i) == is_selected(b, intent, i) by {
        if is_selected(a, intent, i) {
            assert forall|set: Set<int>| #[trigger]
                is_closed(b, intent, set) implies set.contains(i) by {
                assert(is_closed(a, intent, set));
            }
        }
        if is_selected(b, intent, i) {
            assert forall|set: Set<int>| #[trigger]
                is_closed(a, intent, set) implies set.contains(i) by {
                assert(is_closed(b, intent, set));
            }
        }
    }
    assert(selection(a, intent) =~= selection(b, intent));
}

} // verus!
