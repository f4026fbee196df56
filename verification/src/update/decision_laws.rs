//! What is decided about each component, and what is recorded of it.

use vstd::prelude::*;

use crate::artifact::document as artifact_document;
use crate::manifest::{ChannelFacts, ComponentFacts, KindFacts};
use crate::plan::authority::PinnedFacts;
use crate::plan::key;
use crate::plan::plan_laws;
use crate::plan::planner;
use crate::state::InstallationFacts;
use crate::text;
use crate::text_laws;
use crate::update;
use crate::update::hold;
use crate::update::record;
use crate::update::work_laws;
use crate::update::{
    ChangeClass, ComponentUpdateDecision, IntentUpdateFacts, InteractiveResult, PathUpdate,
};
use crate::value;
use crate::version::AuthorityFacts;

verus! {

// ---------------------------------------------------------------------------------------------
// Answers and decisions

/// An answer is yes where it is the letter y, a cancellation where it is the letter c, each in either
/// case and with white space around it, and no otherwise.
pub proof fn answers_are_single_letters(input: Seq<char>)
    ensures
        ({
            let said = text::trimmed(input);
            let r = update::answer_in(input);
            &&& r == InteractiveResult::UpdateComponent <==> said.len() == 1 && (said[0] == 'y'
                || said[0] == 'Y')
            &&& r == InteractiveResult::Cancel <==> said.len() == 1 && (said[0] == 'c' || said[0]
                == 'C')
        }),
{
    reveal_strlit("y");
    reveal_strlit("c");
    let said = text::trimmed(input);
    let low = text::ascii_lowered(said);
    if said.len() == 1 {
        text_laws::only_capitals_are_lowered(said, 0);
        assert(low == "y"@ <==> low[0] == 'y') by {
            assert(low[0] == 'y' ==> low =~= "y"@);
        }
        assert(low == "c"@ <==> low[0] == 'c') by {
            assert(low[0] == 'c' ==> low =~= "c"@);
        }
    } else {
        assert(low.len() == said.len());
    }
}

/// Only what comes from a directory is ever kept or cancelled: by the policy, or by the user where the
/// policy asks. Everything else takes what upstream has.
pub proof fn decisions_follow_policy_and_answer(
    version: AuthorityFacts,
    policy: PathUpdate,
    answer: InteractiveResult,
)
    ensures
        ({
            let r = update::decided(version, policy, answer);
            &&& r == ComponentUpdateDecision::Keep <==> version is Path && (policy == PathUpdate::Off
                || (policy == PathUpdate::Interactive && answer
                == InteractiveResult::DontUpdateComponent))
            &&& r == ComponentUpdateDecision::Abort <==> version is Path && policy
                == PathUpdate::Interactive && answer == InteractiveResult::Cancel
        }),
{
}

/// Whether `k` is where upstream has a component of that name: the first.
pub open spec fn has_at(components: Seq<ComponentFacts>, name: Seq<char>, k: int) -> bool {
    &&& 0 <= k < components.len()
    &&& components[k].name == name
    &&& forall|j: int| 0 <= j < k ==> (#[trigger] components[j]).name != name
}

/// A component is held against the first one upstream of its name.
pub proof fn the_first_of_its_name_counts(components: Seq<ComponentFacts>, name: Seq<char>, k: int)
    ensures
        has_at(components, name, k) ==> update::counterpart(components, name) == Some(components[k]),
        !work_laws::has_member(components, name) <==> update::counterpart(components, name) is None,
{
    if has_at(components, name, k) {
        assert(crate::resolve::first_named(components, name, k));
        let j = choose|j: int| crate::resolve::first_named(components, name, j);
        if j < k {
            assert(components[j].name != name);
        } else if k < j {
            assert(components[k].name != name);
        }
        assert(components[k].name == name);
    }
    if !work_laws::has_member(components, name) {
        if exists|i: int| crate::resolve::first_named(components, name, i) {
            let i = choose|i: int| crate::resolve::first_named(components, name, i);
            assert(components[i].name == name);
        }
    } else {
        let j = choose|j: int| 0 <= j < components.len() && (#[trigger] components[j]).name == name;
        earliest(components, name, j);
    }
}

proof fn earliest(components: Seq<ComponentFacts>, name: Seq<char>, j: int)
    requires
        0 <= j < components.len(),
        components[j].name == name,
    ensures
        exists|i: int| crate::resolve::first_named(components, name, i),
    decreases j,
{
    if forall|i: int| 0 <= i < j ==> (#[trigger] components[i]).name != name {
        assert(crate::resolve::first_named(components, name, j));
    } else {
        let i = choose|i: int| 0 <= i < j && (#[trigger] components[i]).name == name;
        earliest(components, name, i);
    }
}

/// How an installed component changed is how it differs from upstream's, and one that upstream does
/// not have did not change.
pub proof fn components_are_held_against_upstream(
    installed: Seq<ComponentFacts>,
    upstream: Seq<ComponentFacts>,
    pins: Seq<(Result<PinnedFacts, Seq<char>>, Result<PinnedFacts, Seq<char>>)>,
    target: Seq<char>,
    i: int,
    k: int,
)
    ensures
        has_at(upstream, installed[i].name, k) ==> update::change_at(
            installed,
            upstream,
            pins,
            target,
            i,
        ) == update::classified(installed[i], upstream[k], pins[i].0, pins[i].1, target),
        !work_laws::has_member(upstream, installed[i].name) ==> update::change_at(
            installed,
            upstream,
            pins,
            target,
            i,
        ) == ChangeClass::Unchanged,
{
    the_first_of_its_name_counts(upstream, installed[i].name, k);
}

/// The user is asked about exactly those components that come from a directory and whose files would
/// have to be replaced, where the policy is to ask; and the update is cancelled exactly where one of
/// these questions is answered so.
pub proof fn cancelling_needs_a_question(
    installed: Seq<ComponentFacts>,
    upstream: Seq<ComponentFacts>,
    pins: Seq<(Result<PinnedFacts, Seq<char>>, Result<PinnedFacts, Seq<char>>)>,
    target: Seq<char>,
    policy: PathUpdate,
    answers: Seq<InteractiveResult>,
    n: int,
)
    requires
        0 <= n <= installed.len(),
    ensures
        update::changes(installed, upstream, pins, target, policy, answers, n) is None <==> exists|
            i: int,
        |
            0 <= i < n && #[trigger] answers[i] == InteractiveResult::Cancel && is_asked(
                installed,
                upstream,
                pins,
                target,
                policy,
                i,
            ),
        forall|i: int| #[trigger]
            update::asks(installed, upstream, pins, target, policy, i) == is_asked(
                installed,
                upstream,
                pins,
                target,
                policy,
                i,
            ),
    decreases n,
{
    if n > 0 {
        cancelling_needs_a_question(installed, upstream, pins, target, policy, answers, n - 1);
        if answers[n - 1] == InteractiveResult::Cancel && is_asked(
            installed,
            upstream,
            pins,
            target,
            policy,
            n - 1,
        ) {
            assert(answers[n - 1] == InteractiveResult::Cancel);
        }
    }
}

/// Whether the user is asked about a component.
pub open spec fn is_asked(
    installed: Seq<ComponentFacts>,
    upstream: Seq<ComponentFacts>,
    pins: Seq<(Result<PinnedFacts, Seq<char>>, Result<PinnedFacts, Seq<char>>)>,
    target: Seq<char>,
    policy: PathUpdate,
    i: int,
) -> bool {
    &&& policy == PathUpdate::Interactive
    &&& installed[i].version is Path
    &&& update::change_at(installed, upstream, pins, target, i)
        == ChangeClass::InstallationImpacting
}

/// The components are considered in their order, each on its own: one that is to be acquired anew is
/// put behind those that are, one that is held back behind those that are, and no other changes either
/// list.
pub proof fn changes_are_taken_in_order(
    installed: Seq<ComponentFacts>,
    upstream: Seq<ComponentFacts>,
    pins: Seq<(Result<PinnedFacts, Seq<char>>, Result<PinnedFacts, Seq<char>>)>,
    target: Seq<char>,
    policy: PathUpdate,
    answers: Seq<InteractiveResult>,
    n: int,
)
    requires
        0 < n <= installed.len(),
        update::changes(installed, upstream, pins, target, policy, answers, n) is Some,
    ensures
        update::changes(installed, upstream, pins, target, policy, answers, n - 1) is Some,
        ({
            let before = update::changes(
                installed,
                upstream,
                pins,
                target,
                policy,
                answers,
                n - 1,
            )->0;
            let after = update::changes(installed, upstream, pins, target, policy, answers, n)->0;
            let c = installed[n - 1];
            let impacted = update::change_at(installed, upstream, pins, target, n - 1)
                == ChangeClass::InstallationImpacting;
            let kept = c.version is Path && (policy == PathUpdate::Off || (policy
                == PathUpdate::Interactive && answers[n - 1]
                == InteractiveResult::DontUpdateComponent));
            &&& after.stale == if impacted && !kept {
                before.stale.push(c.name)
            } else {
                before.stale
            }
            &&& after.held_back == if impacted && kept {
                before.held_back.push(c)
            } else {
                before.held_back
            }
            &&& n == 1 ==> before.stale.len() == 0 && before.held_back.len() == 0
                && !before.logical_only
        }),
{
}

// ---------------------------------------------------------------------------------------------
// What counts as a change

/// Whether two components declare the same: name, authority, kind, profiles and requirements, the same
/// artifacts under the same ids as they are written, and the same fields that nobody knows.
pub open spec fn declare_the_same(a: ComponentFacts, b: ComponentFacts) -> bool {
    &&& a.name == b.name
    &&& a.version == b.version
    &&& a.profiles == b.profiles
    &&& a.requires == b.requires
    &&& match (a.kind, b.kind) {
        (
            KindFacts::Unsupported { tag: x, body: p },
            KindFacts::Unsupported { tag: y, body: q },
        ) => x == y && value::members_meant(p) == value::members_meant(q),
        (x, y) => x == y,
    }
    &&& a.artifacts.len() == b.artifacts.len()
    &&& forall|i: int|
        0 <= i < a.artifacts.len() ==> (#[trigger] a.artifacts[i]).0 == b.artifacts[i].0
            && value::members_meant(artifact_document::artifact_members(a.artifacts[i].1))
            == value::members_meant(artifact_document::artifact_members(b.artifacts[i].1))
    &&& value::members_meant(a.extra) == value::members_meant(b.extra)
}

/// A component that is not reinstalled has changed in its graph where its requirements or its profiles
/// differ; else it is unchanged where it declares the same, and has changed in its metadata where it
/// does not.
pub proof fn changes_are_told_by_what_differs(
    a: ComponentFacts,
    b: ComponentFacts,
    a_pin: Result<PinnedFacts, Seq<char>>,
    b_pin: Result<PinnedFacts, Seq<char>>,
    target: Seq<char>,
)
    requires
        update::classified(a, b, a_pin, b_pin, target) != ChangeClass::InstallationImpacting,
    ensures
        ({
            let change = update::classified(a, b, a_pin, b_pin, target);
            &&& change == ChangeClass::GraphOnly <==> a.requires != b.requires || a.profiles
                != b.profiles
            &&& change == ChangeClass::Unchanged <==> declare_the_same(a, b)
        }),
{
    let (x, y) = (
        crate::manifest::document::artifacts_written(a.artifacts),
        crate::manifest::document::artifacts_written(b.artifacts),
    );
    if x == y {
        assert(x.len() == a.artifacts.len() && y.len() == b.artifacts.len());
        assert forall|i: int| 0 <= i < a.artifacts.len() implies (#[trigger] a.artifacts[i]).0
            == b.artifacts[i].0 && value::members_meant(
            artifact_document::artifact_members(a.artifacts[i].1),
        ) == value::members_meant(artifact_document::artifact_members(b.artifacts[i].1)) by {
            assert(x[i] == y[i]);
        }
    }
    if declare_the_same(a, b) {
        assert forall|i: int| 0 <= i < x.len() implies x[i] == y[i] by {
            assert(a.artifacts[i].0 == b.artifacts[i].0);
        }
        assert(x =~= y);
    }
}

/// The key of a component alone is the key of what it contributes, whatever the root, and there is one
/// exactly where it can be pinned and planned.
pub proof fn component_keys_are_keys_of_contributions(
    c: ComponentFacts,
    pin: Result<PinnedFacts, Seq<char>>,
    target: Seq<char>,
    sysroot: Seq<char>,
)
    requires
        plan_laws::stays_below(c),
    ensures
        match pin {
            Err(message) => planner::component_key_facts(c, pin, target) == Err::<
                Seq<char>,
                planner::PlanErrorFacts,
            >(planner::PlanErrorFacts::Pin(message)),
            Ok(pinned) => match planner::contribution(c, pinned, target, sysroot) {
                Err(e) => planner::component_key_facts(c, pin, target) == Err::<
                    Seq<char>,
                    planner::PlanErrorFacts,
                >(e),
                Ok(added) => planner::component_key_facts(c, pin, target) == Ok::<
                    Seq<char>,
                    planner::PlanErrorFacts,
                >(key::key_of(key::KeyFacts { target, components: seq![added.inputs] })),
            },
        },
{
    if pin is Ok {
        plan_laws::contributions_ignore_the_sysroot(
            c,
            pin->Ok_0,
            target,
            sysroot,
            planner::notional_sysroot(),
        );
    }
}

// ---------------------------------------------------------------------------------------------
// What is recorded

/// Of a component that is not held back, all that upstream says is recorded, under the recorded
/// authority. One that upstream does not have stays as it is.
pub proof fn upstream_is_recorded(
    c: ComponentFacts,
    upstream: Seq<ComponentFacts>,
    held_back: Seq<ComponentFacts>,
    k: int,
)
    ensures
        ({
            let r = record::renewed(c, upstream, held_back);
            &&& !work_laws::has_member(upstream, c.name) ==> r == c
            &&& has_at(upstream, c.name, k) && !work_laws::has_member(held_back, c.name) ==> {
                let new = upstream[k];
                &&& r.version == c.version
                &&& r.name == new.name
                &&& r.kind == new.kind
                &&& r.profiles == new.profiles
                &&& r.requires == new.requires
                &&& r.artifacts == new.artifacts
                &&& r.extra == new.extra
            }
            &&& has_at(upstream, c.name, k) && work_laws::has_member(held_back, c.name) ==> {
                let new = upstream[k];
                &&& r.version == c.version
                &&& r.name == c.name
                &&& r.artifacts == c.artifacts
                &&& r.profiles == new.profiles
                &&& r.requires == new.requires
                &&& r.extra == new.extra
            }
        }),
{
    the_first_of_its_name_counts(upstream, c.name, k);
    assert(update::names(held_back).contains(c.name) == work_laws::has_member(held_back, c.name));
}

/// Recording touches the installation of the channel and no other; it keeps the channel's name and the
/// number and order of its components, each of which is recorded on its own, under the intent that is
/// wanted.
pub proof fn recording_touches_one_installation(
    state: Seq<InstallationFacts>,
    upstream: ChannelFacts,
    wanted: IntentUpdateFacts,
    held_back: Seq<ComponentFacts>,
    p: int,
    k: int,
)
    requires
        work_laws::recorded_at(state, upstream.name, p),
    ensures
        ({
            let after = record::recorded(state, upstream, wanted, held_back);
            &&& after.len() == state.len()
            &&& forall|j: int| 0 <= j < state.len() && j != p ==> #[trigger] after[j] == state[j]
            &&& after[p].channel == state[p].channel
            &&& after[p].intent == work_laws::wanted_of(state, p, wanted)
            &&& after[p].components.len() == state[p].components.len()
            &&& 0 <= k < state[p].components.len() ==> after[p].components[k] == record::renewed(
                state[p].components[k],
                upstream.components,
                held_back,
            )
        }),
{
    work_laws::intents_are_kept_unless_replaced(state, upstream.name, wanted, p);
    assert(crate::state::installed_at(state, upstream.name, p));
    crate::state::installed_once(state, upstream.name, p);
    let i = choose|i: int| crate::state::installed_at(state, upstream.name, i);
    assert(i == p);
}

/// A program that is held back keeps how it is installed: its method, its file and its shim. It
/// follows upstream in how it is run. What is hidden follows where the shim does not depend on it.
pub proof fn held_back_programs_keep_their_installation(c: ComponentFacts, new: ComponentFacts)
    ensures
        ({
            let r = hold::following(c, new);
            match (
                crate::plan::content_laws::program_of(c.kind),
                crate::plan::content_laws::program_of(new.kind),
            ) {
                (Some((method, spec)), other) => {
                    &&& r.kind is Executable <==> c.kind is Executable
                    &&& crate::plan::content_laws::program_of(r.kind) matches Some((m, s)) && {
                        &&& m == method
                        &&& s.installed_executable == spec.installed_executable
                        &&& s.symlink_name == spec.symlink_name
                        &&& spec.symlink_name is None ==> s.hide == spec.hide
                        &&& other matches Some((_, u)) ==> s.call_format == u.call_format
                            && s.initialization == u.initialization && s.aliases == u.aliases && (
                        spec.symlink_name is Some ==> s.hide == u.hide)
                        &&& other is None ==> s.call_format == spec.call_format && s.initialization
                            == spec.initialization && s.hide == spec.hide
                        &&& other is None && !(new.kind is Command) ==> s.aliases == spec.aliases
                        &&& new.kind matches KindFacts::Command { aliases, .. } ==> s.aliases
                            == aliases
                    }
                },
                (None, other) => {
                    &&& c.kind is Command && new.kind is Command ==> r.kind == new.kind
                    &&& !(c.kind is Command) ==> r.kind == c.kind
                    &&& c.kind matches KindFacts::Command {
                        command_name,
                        format,
                        subcommands,
                        aliases,
                    } ==> {
                        &&& other is None && !(new.kind is Command) ==> r.kind == c.kind
                        &&& other matches Some((_, u)) ==> r.kind == (KindFacts::Command {
                            command_name,
                            format,
                            subcommands,
                            aliases: u.aliases,
                        })
                    }
                },
            }
        }),
{
}

/// A component that is held back has something to record exactly where following upstream would change
/// what it declares.
pub proof fn following_is_recorded(
    installed: Seq<ComponentFacts>,
    upstream: Seq<ComponentFacts>,
    i: int,
    k: int,
)
    requires
        0 <= i < installed.len(),
    ensures
        !work_laws::has_member(upstream, installed[i].name) ==> !update::follows(
            installed,
            upstream,
            i,
        ),
        has_at(upstream, installed[i].name, k) && (upstream[k].requires != installed[i].requires
            || upstream[k].profiles != installed[i].profiles || value::members_meant(
            upstream[k].extra,
        ) != value::members_meant(installed[i].extra)) ==> update::follows(installed, upstream, i),
        has_at(upstream, installed[i].name, k) && hold::following(installed[i], upstream[k])
            == installed[i] ==> !update::follows(installed, upstream, i),
{
    the_first_of_its_name_counts(upstream, installed[i].name, k);
}

} // verus!
