//! How much an update does, by what is installed and by what is wanted.

use vstd::prelude::*;

use crate::manifest::{ChannelFacts, ComponentFacts, KindFacts, MethodFacts, PackageMethodFacts};
use crate::resolve;
use crate::resolve::{IntentFacts, ResolutionFacts};
use crate::state;
use crate::state::InstallationFacts;
use crate::update;
use crate::update::{ActionFacts, ChangesFacts, IntentUpdateFacts, PathUpdate, Work};
use crate::version::AuthorityFacts;

verus! {

/// Whether `p` is where the channel is recorded: the first installation of that name.
pub open spec fn recorded_at(state: Seq<InstallationFacts>, channel: Seq<char>, p: int) -> bool {
    &&& 0 <= p < state.len()
    &&& state[p].channel == channel
    &&& forall|j: int| 0 <= j < p ==> (#[trigger] state[j]).channel != channel
}

/// Whether the channel is recorded nowhere.
pub open spec fn recorded_nowhere(state: Seq<InstallationFacts>, channel: Seq<char>) -> bool {
    forall|j: int| 0 <= j < state.len() ==> (#[trigger] state[j]).channel != channel
}

/// What the user wants of a channel that is recorded at `p`.
pub open spec fn wanted_of(
    state: Seq<InstallationFacts>,
    p: int,
    wanted: IntentUpdateFacts,
) -> IntentFacts {
    match wanted {
        IntentUpdateFacts::Preserve => state[p].intent,
        IntentUpdateFacts::Replace(intent) => intent,
    }
}

/// Whether some component has this name.
pub open spec fn has_member(components: Seq<ComponentFacts>, name: Seq<char>) -> bool {
    exists|k: int| 0 <= k < components.len() && (#[trigger] components[k]).name == name
}

/// Whether one of the components at these positions has this name.
pub open spec fn has_picked(
    components: Seq<ComponentFacts>,
    order: Seq<int>,
    name: Seq<char>,
) -> bool {
    exists|m: int| 0 <= m < order.len() && components[#[trigger] order[m]].name == name
}

/// The position of a recorded channel decides what is found of it.
pub proof fn the_first_record_counts(state: Seq<InstallationFacts>, channel: Seq<char>, p: int)
    ensures
        recorded_at(state, channel, p) ==> state::installation_of(state, channel) == Some(state[p]),
        recorded_nowhere(state, channel) <==> state::installation_of(state, channel) is None,
{
    if recorded_at(state, channel, p) {
        assert(state::installed_at(state, channel, p));
        state::installed_once(state, channel, p);
        assert(state[p].channel == channel);
    }
    if recorded_nowhere(state, channel) {
        if state::is_installed(state, channel) {
            let i = choose|i: int| state::installed_at(state, channel, i);
            assert(state[i].channel == channel);
        }
    } else {
        let j = choose|j: int| 0 <= j < state.len() && (#[trigger] state[j]).channel == channel;
        first_record(state, channel, j);
    }
}

proof fn first_record(state: Seq<InstallationFacts>, channel: Seq<char>, j: int)
    requires
        0 <= j < state.len(),
        state[j].channel == channel,
    ensures
        state::is_installed(state, channel),
    decreases j,
{
    if forall|i: int| 0 <= i < j ==> (#[trigger] state[i]).channel != channel {
        assert(state::installed_at(state, channel, j));
    } else {
        let i = choose|i: int| 0 <= i < j && (#[trigger] state[i]).channel == channel;
        first_record(state, channel, i);
    }
}

/// The intent of an update is the recorded one, the one that replaces it, or one that asks for
/// nothing where neither is there.
pub proof fn intents_are_kept_unless_replaced(
    state: Seq<InstallationFacts>,
    channel: Seq<char>,
    wanted: IntentUpdateFacts,
    p: int,
)
    ensures
        wanted matches IntentUpdateFacts::Replace(intent) ==> update::intended(
            state,
            channel,
            wanted,
        ) == intent,
        wanted is Preserve && recorded_at(state, channel, p) ==> update::intended(
            state,
            channel,
            wanted,
        ) == state[p].intent,
        wanted is Preserve && recorded_nowhere(state, channel) ==> ({
            let intent = update::intended(state, channel, wanted);
            intent.profiles.len() == 0 && intent.roots.len() == 0
        }),
{
    the_first_record_counts(state, channel, p);
}

/// A component whose files are out of date has the channel installed anew, and so has a channel that
/// is not installed.
pub proof fn stale_files_and_absent_channels_are_installed(
    upstream: ChannelFacts,
    state: Seq<InstallationFacts>,
    changes: ChangesFacts,
    wanted: IntentUpdateFacts,
)
    requires
        changes.stale.len() > 0 || recorded_nowhere(state, upstream.name),
    ensures
        update::work(upstream, state, changes, wanted) == Ok::<Work, ResolutionFacts>(
            Work::Physical,
        ),
{
    the_first_record_counts(state, upstream.name, 0);
}

/// Where nothing is stale and what the user wants cannot be resolved upstream, the update fails with
/// that very error.
pub proof fn unresolved_intents_fail_the_update(
    upstream: ChannelFacts,
    state: Seq<InstallationFacts>,
    changes: ChangesFacts,
    wanted: IntentUpdateFacts,
    p: int,
    e: ResolutionFacts,
)
    requires
        recorded_at(state, upstream.name, p),
        changes.stale.len() == 0,
        resolve::resolved(upstream.components, wanted_of(state, p, wanted)) == Err::<
            Seq<int>,
            ResolutionFacts,
        >(e),
    ensures
        update::work(upstream, state, changes, wanted) == Err::<Work, ResolutionFacts>(e),
{
    the_first_record_counts(state, upstream.name, p);
    intents_are_kept_unless_replaced(state, upstream.name, wanted, p);
}

/// A component that is installed and no longer resolved makes the update a physical one: its files
/// have to go. A component that is resolved and not installed does too: its files have to come.
pub proof fn a_different_set_is_installed(
    upstream: ChannelFacts,
    state: Seq<InstallationFacts>,
    changes: ChangesFacts,
    wanted: IntentUpdateFacts,
    p: int,
    order: Seq<int>,
    name: Seq<char>,
)
    requires
        recorded_at(state, upstream.name, p),
        resolve::resolved(upstream.components, wanted_of(state, p, wanted)) == Ok::<
            Seq<int>,
            ResolutionFacts,
        >(order),
        has_member(state[p].components, name) != has_picked(upstream.components, order, name),
    ensures
        update::work(upstream, state, changes, wanted) == Ok::<Work, ResolutionFacts>(
            Work::Physical,
        ),
{
    the_first_record_counts(state, upstream.name, p);
    intents_are_kept_unless_replaced(state, upstream.name, wanted, p);
    names_of_picked(upstream.components, order, name);
    let (x, y) = (
        update::names(state[p].components),
        update::names(resolve::picked(upstream.components, order)),
    );
    assert(x.contains(name) == has_member(state[p].components, name));
    assert(y.contains(name) == has_picked(upstream.components, order, name));
}

proof fn names_of_picked(components: Seq<ComponentFacts>, order: Seq<int>, name: Seq<char>)
    ensures
        has_member(resolve::picked(components, order), name) == has_picked(
            components,
            order,
            name,
        ),
{
    let list = resolve::picked(components, order);
    if has_member(list, name) {
        let k = choose|k: int| 0 <= k < list.len() && (#[trigger] list[k]).name == name;
        assert(components[order[k]].name == name);
    }
    if has_picked(components, order, name) {
        let m = choose|m: int| 0 <= m < order.len() && components[#[trigger] order[m]].name == name;
        assert(list[m].name == name);
    }
}

/// Where exactly the installed components are resolved and none is stale, no file is touched: the
/// update records where something is to be recorded, be it of a component or of the intent, and does
/// nothing otherwise.
pub proof fn the_same_set_is_left_in_place(
    upstream: ChannelFacts,
    state: Seq<InstallationFacts>,
    changes: ChangesFacts,
    wanted: IntentUpdateFacts,
    p: int,
    order: Seq<int>,
)
    requires
        recorded_at(state, upstream.name, p),
        changes.stale.len() == 0,
        resolve::resolved(upstream.components, wanted_of(state, p, wanted)) == Ok::<
            Seq<int>,
            ResolutionFacts,
        >(order),
        forall|name: Seq<char>| #[trigger]
            has_member(state[p].components, name) == has_picked(upstream.components, order, name),
    ensures
        ({
            let (held, asked) = (state[p].intent, wanted_of(state, p, wanted));
            let recorded = !changes.logical_only && (forall|f: crate::profile::Profile|
                held.profiles.contains(f) == asked.profiles.contains(f)) && (forall|
                name: Seq<char>,
            | held.roots.contains(name) == asked.roots.contains(name));
            update::work(upstream, state, changes, wanted) == Ok::<Work, ResolutionFacts>(
                if recorded {
                    Work::Nothing
                } else {
                    Work::LogicalOnly
                },
            )
        }),
{
    the_first_record_counts(state, upstream.name, p);
    intents_are_kept_unless_replaced(state, upstream.name, wanted, p);
    let (x, y) = (
        update::names(state[p].components),
        update::names(resolve::picked(upstream.components, order)),
    );
    assert forall|name: Seq<char>| x.contains(name) == y.contains(name) by {
        names_of_picked(upstream.components, order, name);
        assert(has_member(state[p].components, name) == has_picked(
            upstream.components,
            order,
            name,
        ));
    }
    assert(x =~= y);
    let (held, asked) = (state[p].intent, wanted_of(state, p, wanted));
    if held.profiles.to_set() == asked.profiles.to_set() {
        assert forall|f: crate::profile::Profile|
            held.profiles.contains(f) == asked.profiles.contains(f) by {
            assert(held.profiles.to_set().contains(f) == asked.profiles.to_set().contains(f));
        }
    }
    if held.roots.to_set() == asked.roots.to_set() {
        assert forall|name: Seq<char>| held.roots.contains(name) == asked.roots.contains(name) by {
            assert(held.roots.to_set().contains(name) == asked.roots.to_set().contains(name));
        }
    }
    if forall|f: crate::profile::Profile|
        held.profiles.contains(f) == asked.profiles.contains(f) {
        assert(held.profiles.to_set() =~= asked.profiles.to_set());
    }
    if forall|name: Seq<char>| held.roots.contains(name) == asked.roots.contains(name) {
        assert(held.roots.to_set() =~= asked.roots.to_set());
    }
}

/// What an update does is what the work amounts to: files are only touched by an install, and nothing
/// is recorded where nothing is to be.
pub proof fn updates_do_what_the_work_asks(
    upstream: ChannelFacts,
    state: Seq<InstallationFacts>,
    wanted: IntentUpdateFacts,
    changes: ChangesFacts,
    policy: PathUpdate,
)
    ensures
        ({
            let done = update::acted(upstream, state, wanted, changes, policy);
            let needed = update::work(upstream, state, changes, wanted);
            &&& done matches Ok(a) ==> (a is Install <==> needed == Ok::<Work, ResolutionFacts>(
                Work::Physical,
            ))
            &&& done matches Ok(a) ==> (a is Record <==> needed == Ok::<Work, ResolutionFacts>(
                Work::LogicalOnly,
            ))
            &&& done matches Ok(a) ==> (a is Nothing <==> needed == Ok::<Work, ResolutionFacts>(
                Work::Nothing,
            ))
            &&& done is Err <==> needed is Err
            &&& done matches Err(e) ==> needed == Err::<Work, ResolutionFacts>(e)
            &&& done matches Ok(ActionFacts::Install { warnings }) ==> warnings == update::warned(
                upstream,
                changes,
                policy,
            )
        }),
{
}

/// What a component is built as, where cargo builds it from a directory.
pub open spec fn built_from(c: ComponentFacts, crate_name: Seq<char>, path: Seq<char>) -> bool {
    &&& c.version matches AuthorityFacts::Path { path: p, .. } && p == path
    &&& match c.kind {
        KindFacts::Executable { installation_method: m, .. } => names_crate(m, crate_name),
        KindFacts::CargoExtension { installation_method: m, .. } => names_crate(m, crate_name),
        KindFacts::LegacyPackage { installation_method, .. } => installation_method matches PackageMethodFacts::Cargo {
            crate_name: n,
            ..
        } && n == crate_name,
        _ => false,
    }
}

/// Whether an installation method names this crate.
pub open spec fn names_crate(m: MethodFacts, crate_name: Seq<char>) -> bool {
    match m {
        MethodFacts::Cargo { crate_name: n, .. } => n == crate_name,
        MethodFacts::PrebuiltWithCargoFallback { crate_name: n, .. } => n == crate_name,
        MethodFacts::Prebuilt => false,
    }
}

proof fn listed_from_paths(components: Seq<ComponentFacts>, entry: (Seq<char>, Seq<char>))
    ensures
        update::from_paths(components).contains(entry) <==> exists|i: int|
            0 <= i < components.len() && built_from(#[trigger] components[i], entry.0, entry.1),
    decreases components.len(),
{
    let listed = update::from_paths(components);
    if components.len() > 0 {
        let (d, c) = (components.drop_last(), components.last());
        let before = update::from_paths(d);
        listed_from_paths(d, entry);
        if listed.len() > before.len() {
            assert(listed == before.push(listed.last()));
            assert(listed[listed.len() - 1] == listed.last());
            assert(built_from(c, listed.last().0, listed.last().1));
        }
        if before.contains(entry) {
            let k = choose|k: int| 0 <= k < before.len() && before[k] == entry;
            assert(listed[k] == entry);
            let i = choose|i: int|
                0 <= i < d.len() && built_from(#[trigger] d[i], entry.0, entry.1);
            assert(built_from(components[i], entry.0, entry.1));
        }
        if listed.contains(entry) && !before.contains(entry) {
            let k = choose|k: int| 0 <= k < listed.len() && listed[k] == entry;
            assert(k < before.len() ==> before[k] == entry);
            assert(built_from(components[components.len() - 1], entry.0, entry.1));
        }
        if exists|i: int|
            0 <= i < components.len() && built_from(#[trigger] components[i], entry.0, entry.1) {
            let i = choose|i: int|
                0 <= i < components.len() && built_from(#[trigger] components[i], entry.0, entry.1);
            if i < d.len() {
                assert(built_from(d[i], entry.0, entry.1));
            }
        }
    }
}

/// The user is told of the components in their order: one more component adds at most one entry, and at
/// the end.
pub proof fn warnings_come_in_order(components: Seq<ComponentFacts>, c: ComponentFacts)
    ensures
        ({
            let (before, after) = (
                update::from_paths(components),
                update::from_paths(components.push(c)),
            );
            after == before || (after.len() == before.len() + 1 && after.drop_last() == before
                && built_from(c, after.last().0, after.last().1))
        }),
{
    assert(components.push(c).drop_last() =~= components);
    let before = update::from_paths(components);
    let after = update::from_paths(components.push(c));
    if after != before {
        assert(after.drop_last() =~= before);
    }
}

/// The user is warned exactly where upstream has a component that cargo builds from a directory, and
/// is told of each such component what it is called and where it comes from. How to update those that
/// are held back is only said where the policy holds some back.
pub proof fn path_components_are_warned_about(
    upstream: ChannelFacts,
    changes: ChangesFacts,
    policy: PathUpdate,
    entry: (Seq<char>, Seq<char>),
)
    ensures
        (update::warned(upstream, changes, policy) matches Some(w) && w.from_paths.contains(entry))
            <==> exists|i: int|
            0 <= i < upstream.components.len() && built_from(
                #[trigger] upstream.components[i],
                entry.0,
                entry.1,
            ),
        update::warned(upstream, changes, policy) matches Some(w) ==> w.from_paths.len() > 0 && (
        w.hint <==> policy == PathUpdate::Off && changes.held_back.len() > 0),
{
    listed_from_paths(upstream.components, entry);
    if update::warned(upstream, changes, policy) is None {
        assert(!update::from_paths(upstream.components).contains(entry));
    }
}

} // verus!
