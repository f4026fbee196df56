//! What holds of updates as a whole.

use vstd::prelude::*;

use crate::manifest::{ChannelFacts, ComponentFacts, KindFacts};
use crate::plan::authority::PinnedFacts;
use crate::plan::plan_laws;
use crate::plan::planner;
use crate::resolve;
use crate::state;
use crate::state::InstallationFacts;
use crate::text;
use crate::update;
use crate::update::channel;
use crate::update::channel::UpstreamChannel;
use crate::update::record;
use crate::update::{
    ChangeClass, ChangesFacts, ComponentUpdateDecision, IntentUpdateFacts, InteractiveResult,
    PathUpdate, Work,
};

verus! {

/// A component needs reinstallation exactly where its contribution to the plan key changed, or where
/// that cannot be told.
pub proof fn reinstalled_where_the_key_changes(
    a: ComponentFacts,
    b: ComponentFacts,
    a_pin: Result<PinnedFacts, Seq<char>>,
    b_pin: Result<PinnedFacts, Seq<char>>,
    target: Seq<char>,
)
    ensures
        update::classified(a, b, a_pin, b_pin, target) != ChangeClass::InstallationImpacting <==> (
        planner::component_key_facts(a, a_pin, target) is Ok && planner::component_key_facts(
            a,
            a_pin,
            target,
        ) == planner::component_key_facts(b, b_pin, target)),
{
}

/// A component of a kind that cannot be installed is reinstalled, whatever it is held against.
pub proof fn unsupported_kinds_are_reinstalled(
    a: ComponentFacts,
    b: ComponentFacts,
    a_pin: Result<PinnedFacts, Seq<char>>,
    b_pin: Result<PinnedFacts, Seq<char>>,
    target: Seq<char>,
)
    requires
        !resolve::is_supported(a) || !resolve::is_supported(b),
    ensures
        update::classified(a, b, a_pin, b_pin, target) == ChangeClass::InstallationImpacting,
{
}

/// A component that can be planned has not changed against itself.
pub proof fn a_component_is_unchanged_against_itself(
    c: ComponentFacts,
    pin: Result<PinnedFacts, Seq<char>>,
    target: Seq<char>,
)
    requires
        planner::component_key_facts(c, pin, target) is Ok,
    ensures
        update::classified(c, c, pin, pin, target) == ChangeClass::Unchanged,
{
}

/// No change of aliases, call formats, subcommands, initialization, requirements or profiles has a
/// component reinstalled.
pub proof fn metadata_reinstalls_nothing(
    a: ComponentFacts,
    b: ComponentFacts,
    pinned: PinnedFacts,
    target: Seq<char>,
)
    requires
        planner::component_key_facts(a, Ok(pinned), target) is Ok,
        a.name == b.name,
        a.version == b.version,
        a.artifacts == b.artifacts,
        match (a.kind, b.kind) {
            (
                KindFacts::Executable { installation_method: m, spec: s },
                KindFacts::Executable { installation_method: n, spec: t },
            ) => m == n && plan_laws::installed_alike(s, t),
            (
                KindFacts::CargoExtension { installation_method: m, spec: s },
                KindFacts::CargoExtension { installation_method: n, spec: t },
            ) => m == n && plan_laws::installed_alike(s, t),
            (KindFacts::Command { .. }, KindFacts::Command { .. }) => true,
            (x, y) => x == y,
        },
    ensures
        update::classified(a, b, Ok(pinned), Ok(pinned), target)
            != ChangeClass::InstallationImpacting,
        a.requires == b.requires && a.profiles == b.profiles && a.kind != b.kind
            ==> update::classified(a, b, Ok(pinned), Ok(pinned), target)
            == ChangeClass::RuntimeMetadataOnly,
        a.requires != b.requires || a.profiles != b.profiles ==> update::classified(
            a,
            b,
            Ok(pinned),
            Ok(pinned),
            target,
        ) == ChangeClass::GraphOnly,
{
    plan_laws::runtime_metadata_contributes_nothing(
        a,
        b,
        pinned,
        target,
        planner::notional_sysroot(),
    );
}

/// Unless the user is asked, no update is cancelled.
pub proof fn nothing_is_cancelled_unasked(
    installed: Seq<ComponentFacts>,
    upstream: Seq<ComponentFacts>,
    pins: Seq<(Result<PinnedFacts, Seq<char>>, Result<PinnedFacts, Seq<char>>)>,
    target: Seq<char>,
    policy: PathUpdate,
    answers: Seq<InteractiveResult>,
    n: int,
)
    requires
        0 <= n <= installed.len(),
        forall|i: int|
            0 <= i < n ==> !#[trigger] update::asks(installed, upstream, pins, target, policy, i),
    ensures
        update::changes(installed, upstream, pins, target, policy, answers, n) is Some,
    decreases n,
{
    if n > 0 {
        nothing_is_cancelled_unasked(installed, upstream, pins, target, policy, answers, n - 1);
        assert(!update::asks(installed, upstream, pins, target, policy, n - 1));
    }
}

/// White space around an answer does not change it, so neither does the line break that ends it.
pub proof fn answers_may_end_in_a_line_break(said: Seq<char>, space: char)
    requires
        text::white_space(space),
    ensures
        update::answer_in(said.push(space)) == update::answer_in(said),
        update::answer_in(seq![space] + said) == update::answer_in(said),
        update::answer_in(said.push('\n')) == update::answer_in(said),
        update::answer_in(said.push('\r').push('\n')) == update::answer_in(said),
{
    text::trimming_ignores_white_space(said, space);
    text::trimming_ignores_white_space(said, '\n');
    text::trimming_ignores_white_space(said, '\r');
    text::trimming_ignores_white_space(said.push('\r'), '\n');
}

/// Only the answers to questions that were asked count.
pub proof fn only_asked_answers_count(
    installed: Seq<ComponentFacts>,
    upstream: Seq<ComponentFacts>,
    pins: Seq<(Result<PinnedFacts, Seq<char>>, Result<PinnedFacts, Seq<char>>)>,
    target: Seq<char>,
    policy: PathUpdate,
    answers: Seq<InteractiveResult>,
    others: Seq<InteractiveResult>,
    n: int,
)
    requires
        0 <= n <= installed.len(),
        forall|i: int|
            0 <= i < n && #[trigger] update::asks(installed, upstream, pins, target, policy, i)
                ==> answers[i] == others[i],
    ensures
        update::changes(installed, upstream, pins, target, policy, answers, n) == update::changes(
            installed,
            upstream,
            pins,
            target,
            policy,
            others,
            n,
        ),
    decreases n,
{
    if n > 0 {
        only_asked_answers_count(
            installed,
            upstream,
            pins,
            target,
            policy,
            answers,
            others,
            n - 1,
        );
        let asked = update::asks(installed, upstream, pins, target, policy, n - 1);
        assert(asked ==> answers[n - 1] == others[n - 1]);
    }
}

/// Only components that are installed from a path are held back, and none is where the policy is to
/// update them all.
pub proof fn only_path_components_are_held_back(
    installed: Seq<ComponentFacts>,
    upstream: Seq<ComponentFacts>,
    pins: Seq<(Result<PinnedFacts, Seq<char>>, Result<PinnedFacts, Seq<char>>)>,
    target: Seq<char>,
    policy: PathUpdate,
    answers: Seq<InteractiveResult>,
    n: int,
)
    requires
        0 <= n <= installed.len(),
        update::changes(installed, upstream, pins, target, policy, answers, n) is Some,
    ensures
        ({
            let held = update::changes(
                installed,
                upstream,
                pins,
                target,
                policy,
                answers,
                n,
            )->0.held_back;
            &&& forall|i: int| 0 <= i < held.len() ==> (#[trigger] held[i]).version is Path
            &&& policy == PathUpdate::All ==> held.len() == 0
        }),
    decreases n,
{
    if n > 0 {
        only_path_components_are_held_back(
            installed,
            upstream,
            pins,
            target,
            policy,
            answers,
            n - 1,
        );
    }
}

/// Each installed component whose files would have to be replaced is acquired anew or held back, as
/// is decided about it, and no other component is.
pub proof fn every_change_is_accounted_for(
    installed: Seq<ComponentFacts>,
    upstream: Seq<ComponentFacts>,
    pins: Seq<(Result<PinnedFacts, Seq<char>>, Result<PinnedFacts, Seq<char>>)>,
    target: Seq<char>,
    policy: PathUpdate,
    answers: Seq<InteractiveResult>,
    n: int,
)
    requires
        0 <= n <= installed.len(),
        update::changes(installed, upstream, pins, target, policy, answers, n) is Some,
    ensures
        ({
            let found = update::changes(
                installed,
                upstream,
                pins,
                target,
                policy,
                answers,
                n,
            )->0;
            &&& forall|name: Seq<char>| #[trigger]
                found.stale.contains(name) <==> exists|i: int|
                    0 <= i < n && (#[trigger] installed[i]).name == name && replaces(
                        installed,
                        upstream,
                        pins,
                        target,
                        policy,
                        answers,
                        i,
                        ComponentUpdateDecision::Update,
                    )
            &&& forall|c: ComponentFacts| #[trigger]
                found.held_back.contains(c) <==> exists|i: int|
                    0 <= i < n && #[trigger] installed[i] == c && replaces(
                        installed,
                        upstream,
                        pins,
                        target,
                        policy,
                        answers,
                        i,
                        ComponentUpdateDecision::Keep,
                    )
        }),
    decreases n,
{
    if n > 0 {
        every_change_is_accounted_for(installed, upstream, pins, target, policy, answers, n - 1);
        let before = update::changes(
            installed,
            upstream,
            pins,
            target,
            policy,
            answers,
            n - 1,
        )->0;
        let found = update::changes(installed, upstream, pins, target, policy, answers, n)->0;
        let c = installed[n - 1];
        assert forall|name: Seq<char>| #[trigger]
            found.stale.contains(name) <==> exists|i: int|
                0 <= i < n && (#[trigger] installed[i]).name == name && replaces(
                    installed,
                    upstream,
                    pins,
                    target,
                    policy,
                    answers,
                    i,
                    ComponentUpdateDecision::Update,
                ) by {
            assert(before.stale.contains(name) ==> found.stale.contains(name)) by {
                if before.stale.contains(name) {
                    let k = choose|k: int| 0 <= k < before.stale.len() && before.stale[k] == name;
                    assert(found.stale[k] == name);
                }
            }
            if found.stale.contains(name) && !before.stale.contains(name) {
                let k = choose|k: int| 0 <= k < found.stale.len() && found.stale[k] == name;
                assert(k < before.stale.len() ==> before.stale[k] == name);
                assert(installed[n - 1].name == name);
            }
            if replaces(
                installed,
                upstream,
                pins,
                target,
                policy,
                answers,
                n - 1,
                ComponentUpdateDecision::Update,
            ) && c.name == name {
                assert(found.stale[found.stale.len() - 1] == name);
            }
        }
        assert forall|d: ComponentFacts| #[trigger]
            found.held_back.contains(d) <==> exists|i: int|
                0 <= i < n && #[trigger] installed[i] == d && replaces(
                    installed,
                    upstream,
                    pins,
                    target,
                    policy,
                    answers,
                    i,
                    ComponentUpdateDecision::Keep,
                ) by {
            assert(before.held_back.contains(d) ==> found.held_back.contains(d)) by {
                if before.held_back.contains(d) {
                    let k = choose|k: int|
                        0 <= k < before.held_back.len() && before.held_back[k] == d;
                    assert(found.held_back[k] == d);
                }
            }
            if found.held_back.contains(d) && !before.held_back.contains(d) {
                let k = choose|k: int| 0 <= k < found.held_back.len() && found.held_back[k] == d;
                assert(k < before.held_back.len() ==> before.held_back[k] == d);
                assert(installed[n - 1] == d);
            }
            if replaces(
                installed,
                upstream,
                pins,
                target,
                policy,
                answers,
                n - 1,
                ComponentUpdateDecision::Keep,
            ) && c == d {
                assert(found.held_back[found.held_back.len() - 1] == d);
            }
        }
    }
}

/// There is something to record exactly where a change touches no file, or where a component that is
/// held back follows upstream in what touches none. The policy withholds no such change.
pub proof fn every_logical_change_is_recorded(
    installed: Seq<ComponentFacts>,
    upstream: Seq<ComponentFacts>,
    pins: Seq<(Result<PinnedFacts, Seq<char>>, Result<PinnedFacts, Seq<char>>)>,
    target: Seq<char>,
    policy: PathUpdate,
    answers: Seq<InteractiveResult>,
    n: int,
)
    requires
        0 <= n <= installed.len(),
        update::changes(installed, upstream, pins, target, policy, answers, n) is Some,
    ensures
        update::changes(installed, upstream, pins, target, policy, answers, n)->0.logical_only <==> (
        exists|i: int|
            0 <= i < n && #[trigger] records(
                installed,
                upstream,
                pins,
                target,
                policy,
                answers,
                i,
            )),
    decreases n,
{
    if n > 0 {
        every_logical_change_is_recorded(installed, upstream, pins, target, policy, answers, n - 1);
        let last = records(installed, upstream, pins, target, policy, answers, n - 1);
        assert(update::changes(installed, upstream, pins, target, policy, answers, n)->0.logical_only
            == (update::changes(
            installed,
            upstream,
            pins,
            target,
            policy,
            answers,
            n - 1,
        )->0.logical_only || last));
    }
}

/// Whether the files of the installed component `i` would have to be replaced, and this was decided
/// about it.
pub open spec fn replaces(
    installed: Seq<ComponentFacts>,
    upstream: Seq<ComponentFacts>,
    pins: Seq<(Result<PinnedFacts, Seq<char>>, Result<PinnedFacts, Seq<char>>)>,
    target: Seq<char>,
    policy: PathUpdate,
    answers: Seq<InteractiveResult>,
    i: int,
    decision: ComponentUpdateDecision,
) -> bool {
    &&& update::change_at(installed, upstream, pins, target, i)
        == ChangeClass::InstallationImpacting
    &&& update::decided(installed[i].version, policy, answers[i]) == decision
}

/// Whether there is something to record of the installed component `i` without touching its files: its
/// change reaches none, or it is held back and follows upstream in the rest.
pub open spec fn records(
    installed: Seq<ComponentFacts>,
    upstream: Seq<ComponentFacts>,
    pins: Seq<(Result<PinnedFacts, Seq<char>>, Result<PinnedFacts, Seq<char>>)>,
    target: Seq<char>,
    policy: PathUpdate,
    answers: Seq<InteractiveResult>,
    i: int,
) -> bool {
    let change = update::change_at(installed, upstream, pins, target, i);
    ||| change == ChangeClass::GraphOnly
    ||| change == ChangeClass::RuntimeMetadataOnly
    ||| update::follows(installed, upstream, i) && replaces(
        installed,
        upstream,
        pins,
        target,
        policy,
        answers,
        i,
        ComponentUpdateDecision::Keep,
    )
}

/// A component that upstream newly selects is installed, though nothing that is installed changed.
pub proof fn new_members_are_installed(
    upstream: ChannelFacts,
    state: Seq<InstallationFacts>,
    changes: ChangesFacts,
    wanted: IntentUpdateFacts,
    i: int,
)
    requires
        ({
            let intent = update::intended(state, upstream.name, wanted);
            let order = resolve::resolved(upstream.components, intent);
            &&& state::installation_of(state, upstream.name) matches Some(installed)
            &&& order is Ok
            &&& order->Ok_0.contains(i)
            &&& !resolve::declares(installed.components, upstream.components[i].name)
        }),
    ensures
        update::work(upstream, state, changes, wanted) == Ok::<Work, resolve::ResolutionFacts>(
            Work::Physical,
        ),
{
    let installed = state::installation_of(state, upstream.name)->0;
    let intent = update::intended(state, upstream.name, wanted);
    let order = resolve::resolved(upstream.components, intent)->Ok_0;
    let picked = resolve::picked(upstream.components, order);
    let k = choose|k: int| 0 <= k < order.len() && order[k] == i;
    assert(picked[k].name == upstream.components[i].name);
    assert(update::names(picked).contains(upstream.components[i].name));
    assert(!update::names(installed.components).contains(upstream.components[i].name));
}

/// A component that the user named and that upstream no longer has blocks an update that would
/// otherwise only record or do nothing.
pub proof fn a_missing_root_blocks_the_update(
    upstream: ChannelFacts,
    state: Seq<InstallationFacts>,
    changes: ChangesFacts,
    wanted: IntentUpdateFacts,
    root: Seq<char>,
)
    requires
        state::is_installed(state, upstream.name),
        changes.stale.len() == 0,
        update::intended(state, upstream.name, wanted).roots.contains(root),
        !resolve::declares(upstream.components, root),
    ensures
        update::work(upstream, state, changes, wanted) matches Err(e) && e is UnknownRoot,
{
    resolve::missing_roots_are_reported(
        upstream.components,
        update::intended(state, upstream.name, wanted).roots,
        root,
    );
}

/// Recording what upstream says keeps each component's name and recorded authority.
pub proof fn recording_keeps_authorities(
    c: ComponentFacts,
    upstream: Seq<ComponentFacts>,
    held_back: Seq<ComponentFacts>,
)
    ensures
        record::renewed(c, upstream, held_back).name == c.name,
        record::renewed(c, upstream, held_back).version == c.version,
{
}

/// Whether a component is among those that are held back.
pub open spec fn is_held(c: ComponentFacts, held_back: Seq<ComponentFacts>) -> bool {
    update::names(held_back).contains(c.name)
}

/// The aliases that a kind declares, if it can declare any.
pub open spec fn aliases_of(kind: KindFacts) -> Option<Seq<(Seq<char>, Seq<Seq<char>>)>> {
    match kind {
        KindFacts::Executable { spec, .. } => Some(spec.aliases),
        KindFacts::CargoExtension { spec, .. } => Some(spec.aliases),
        KindFacts::Command { aliases, .. } => Some(aliases),
        _ => None,
    }
}

/// The call format and the initialization that a kind declares, if it can declare them.
pub open spec fn invocation_of(kind: KindFacts) -> Option<
    (Option<Seq<Seq<char>>>, Option<Seq<Seq<char>>>),
> {
    match kind {
        KindFacts::Executable { spec, .. } => Some((spec.call_format, spec.initialization)),
        KindFacts::CargoExtension { spec, .. } => Some((spec.call_format, spec.initialization)),
        _ => None,
    }
}

/// A component that is held back still receives upstream's requirements and profiles, and whatever
/// upstream says of how it is run that its kind has a place for.
pub proof fn held_back_components_follow_upstream(
    c: ComponentFacts,
    upstream: Seq<ComponentFacts>,
    held_back: Seq<ComponentFacts>,
)
    requires
        is_held(c, held_back),
        update::counterpart(upstream, c.name) is Some,
    ensures
        ({
            let new = update::counterpart(upstream, c.name)->0;
            let recorded = record::renewed(c, upstream, held_back);
            &&& recorded.version == c.version
            &&& recorded.requires == new.requires
            &&& recorded.profiles == new.profiles
            &&& aliases_of(c.kind) is Some && aliases_of(new.kind) is Some ==> aliases_of(
                recorded.kind,
            ) == aliases_of(new.kind)
            &&& invocation_of(c.kind) is Some && invocation_of(new.kind) is Some ==> invocation_of(
                recorded.kind,
            ) == invocation_of(new.kind)
            &&& c.kind is Command && new.kind is Command ==> recorded.kind == new.kind
        }),
{
}

/// Once it is recorded, a held-back component has nothing more to follow, so the next update does not
/// record it again.
pub proof fn recorded_components_follow_no_more(
    installed: Seq<ComponentFacts>,
    upstream: Seq<ComponentFacts>,
    held_back: Seq<ComponentFacts>,
    c: ComponentFacts,
    i: int,
)
    requires
        0 <= i < installed.len(),
        installed[i] == record::renewed(c, upstream, held_back),
        is_held(c, held_back),
    ensures
        !update::follows(installed, upstream, i),
{
}

/// What a held-back component installs stays as it is: recording upstream's declaration changes nothing
/// that it contributes to a plan.
pub proof fn held_back_components_keep_their_files(
    c: ComponentFacts,
    upstream: Seq<ComponentFacts>,
    held_back: Seq<ComponentFacts>,
    pinned: PinnedFacts,
    target: Seq<char>,
    sysroot: Seq<char>,
)
    requires
        is_held(c, held_back),
    ensures
        planner::contribution(record::renewed(c, upstream, held_back), pinned, target, sysroot)
            == planner::contribution(c, pinned, target, sysroot),
{
    plan_laws::runtime_metadata_contributes_nothing(
        record::renewed(c, upstream, held_back),
        c,
        pinned,
        target,
        sysroot,
    );
}

/// Recording the same twice is recording it once.
pub proof fn recording_settles(
    installation: InstallationFacts,
    upstream: Seq<ComponentFacts>,
    intent: resolve::IntentFacts,
    held_back: Seq<ComponentFacts>,
)
    ensures
        ({
            let once = record::refreshed(installation, upstream, intent, held_back);
            record::refreshed(once, upstream, intent, held_back) == once
        }),
{
    let once = record::refreshed(installation, upstream, intent, held_back);
    let twice = record::refreshed(once, upstream, intent, held_back);
    assert forall|i: int| 0 <= i < once.components.len() implies once.components[i]
        == twice.components[i] by {
        recording_keeps_authorities(installation.components[i], upstream, held_back);
    }
    assert(once.components =~= twice.components);
}

/// Where an update only records, the next one finds nothing to do unless something changes.
pub proof fn a_recorded_update_is_complete(
    upstream: ChannelFacts,
    state: Seq<InstallationFacts>,
    changes: ChangesFacts,
    wanted: IntentUpdateFacts,
)
    requires
        update::work(upstream, state, changes, wanted) == Ok::<Work, resolve::ResolutionFacts>(
            Work::LogicalOnly,
        ),
    ensures
        ({
            let later = record::recorded(state, upstream, wanted, changes.held_back);
            update::work(upstream, later, update::no_changes(), IntentUpdateFacts::Preserve) == Ok::<
                Work,
                resolve::ResolutionFacts,
            >(Work::Nothing)
        }),
{
    let i = choose|i: int| state::installed_at(state, upstream.name, i);
    state::installed_once(state, upstream.name, i);
    let later = record::recorded(state, upstream, wanted, changes.held_back);
    let intent = update::intended(state, upstream.name, wanted);
    let (x, y) = (state[i].components, later[i].components);
    assert(state::installed_at(later, upstream.name, i)) by {
        assert forall|j: int| 0 <= j < i implies (#[trigger] later[j]).channel
            != upstream.name by {
            assert(state[j].channel != upstream.name);
        }
    }
    state::installed_once(later, upstream.name, i);
    assert forall|k: int| 0 <= k < x.len() implies (#[trigger] x[k]).name == y[k].name by {
        recording_keeps_authorities(x[k], upstream.components, changes.held_back);
    }
    assert(update::names(x) =~= update::names(y)) by {
        assert forall|name: Seq<char>| resolve::declares(x, name) == resolve::declares(y, name) by {
            if resolve::declares(x, name) {
                let k = choose|k: int| 0 <= k < x.len() && (#[trigger] x[k]).name == name;
                assert(y[k].name == name);
            }
            if resolve::declares(y, name) {
                let k = choose|k: int| 0 <= k < y.len() && (#[trigger] y[k]).name == name;
                assert(x[k].name == name);
            }
        }
    }
    assert(update::intended(later, upstream.name, IntentUpdateFacts::Preserve) == intent);
}

/// A channel that has been migrated to is not migrated to again.
pub proof fn migrations_happen_once(upstream: UpstreamChannel, installation: InstallationFacts)
    requires
        installation.channel == upstream.channel.name@,
    ensures
        channel::superseded(upstream, installation.channel) is None,
{
}

} // verus!
