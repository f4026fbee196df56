//! What holds of plans as a whole.

use vstd::prelude::*;

use crate::artifact::resolution;
use crate::artifact::{ArtifactFacts, ResolvedFacts};
use crate::manifest::{ComponentFacts, ExecutableFacts, KindFacts, MethodFacts};
use crate::path;
use crate::plan::authority;
use crate::plan::authority::PinnedFacts;
use crate::plan::destination;
use crate::plan::key;
use crate::plan::planner;
use crate::plan::step::StepFacts;
use crate::sorted;
use crate::text;

verus! {

proof fn transfers_are_owned(
    c: ComponentFacts,
    available: Seq<(Seq<char>, ResolvedFacts)>,
    sysroot: Seq<char>,
)
    ensures
        planner::transfers(c, available, sysroot) matches Ok(t) ==> forall|i: int|
            0 <= i < t.0.len() ==> (#[trigger] t.0[i]).owner() == c.name && (!(c.kind is Executable)
                && !(c.kind is CargoExtension) ==> t.0[i].mode() == destination::MODE_DATA),
    decreases available.len(),
{
    if available.len() > 0 {
        transfers_are_owned(c, available.drop_last(), sysroot);
    }
}

/// Every step that a component adds is its own, and has the mode of the component's kind: programs
/// can be executed, anything else is data.
pub proof fn steps_belong_to_their_component(
    c: ComponentFacts,
    pinned: PinnedFacts,
    target: Seq<char>,
    sysroot: Seq<char>,
    i: int,
)
    requires
        planner::contribution(c, pinned, target, sysroot) is Ok,
        0 <= i < planner::contribution(c, pinned, target, sysroot)->Ok_0.steps.len(),
    ensures
        planner::contribution(c, pinned, target, sysroot)->Ok_0.steps[i].owner() == c.name,
        planner::contribution(c, pinned, target, sysroot)->Ok_0.steps[i].mode() == if c.kind is Executable
            || c.kind is CargoExtension {
            destination::MODE_EXECUTABLE
        } else {
            destination::MODE_DATA
        },
{
    let available = resolution::all_resolved(c.artifacts, target, c)->Ok_0;
    transfers_are_owned(c, available, sysroot);
}

/// Whether no path is installed to twice.
pub open spec fn destinations_are_exclusive(steps: Seq<StepFacts>) -> bool {
    forall|i: int, j: int|
        0 <= i < j < steps.len() ==> !path::same_place(
            (#[trigger] steps[i]).dest(),
            (#[trigger] steps[j]).dest(),
        )
}

proof fn no_claimant(steps: Seq<StepFacts>, dest: Seq<char>, k: int, n: int, j: int)
    requires
        planner::claimant(steps, dest, k, n) is None,
        k <= j < n,
    ensures
        !path::same_place(steps[j].dest(), dest),
    decreases n - k,
{
    if k < j {
        no_claimant(steps, dest, k + 1, n, j);
    }
}

proof fn no_collision(steps: Seq<StepFacts>, name: Seq<char>, n: int, i: int)
    requires
        planner::collision(steps, name, n) is None,
        0 <= n <= i < steps.len(),
        steps[i].owner() == name,
    ensures
        planner::claimant(steps, steps[i].dest(), 0, i) is None,
    decreases steps.len() - n,
{
    if n < i {
        no_collision(steps, name, n + 1, i);
    }
}

proof fn drafts_are_exclusive(
    components: Seq<ComponentFacts>,
    pins: Seq<Result<PinnedFacts, Seq<char>>>,
    target: Seq<char>,
    sysroot: Seq<char>,
    n: int,
)
    requires
        planner::drafted(components, pins, target, sysroot, n) is Ok,
    ensures
        destinations_are_exclusive(
            planner::drafted(components, pins, target, sysroot, n)->Ok_0.steps,
        ),
    decreases n,
{
    if n > 0 {
        drafts_are_exclusive(components, pins, target, sysroot, n - 1);
        let before = planner::drafted(components, pins, target, sysroot, n - 1)->Ok_0;
        let c = components[n - 1];
        let added = planner::contribution(c, pins[n - 1]->Ok_0, target, sysroot)->Ok_0;
        let steps = before.steps + added.steps;
        assert forall|i: int, j: int| 0 <= i < j < steps.len() implies !path::same_place(
            (#[trigger] steps[i]).dest(),
            (#[trigger] steps[j]).dest(),
        ) by {
            let k = before.steps.len();
            if j >= k {
                steps_belong_to_their_component(c, pins[n - 1]->Ok_0, target, sysroot, j - k);
                assert(steps[j] == added.steps[j - k]);
                no_collision(steps, c.name, 0, j);
                no_claimant(steps, steps[j].dest(), 0, j, i);
            } else {
                assert(steps[i] == before.steps[i] && steps[j] == before.steps[j]);
            }
        }
    }
}

/// In a plan no two steps install to the same path, be they of one component or of two.
pub proof fn plans_are_exclusive(
    channel: Seq<char>,
    components: Seq<ComponentFacts>,
    pins: Seq<Result<PinnedFacts, Seq<char>>>,
    target: Seq<char>,
    sysroot: Seq<char>,
)
    requires
        planner::planned(channel, components, pins, target, sysroot) is Ok,
    ensures
        destinations_are_exclusive(
            planner::planned(channel, components, pins, target, sysroot)->Ok_0.steps,
        ),
{
    drafts_are_exclusive(components, pins, target, sysroot, components.len() as int);
}

/// Whether no Cargo package is built by two components.
pub open spec fn builders_are_exclusive(units: Seq<(Seq<char>, Seq<char>)>) -> bool {
    forall|i: int, j: int|
        0 <= i < units.len() && 0 <= j < units.len() && (#[trigger] units[i]).0 == (
        #[trigger] units[j]).0 ==> units[i].1 == units[j].1
}

proof fn no_rival_builder(
    units: Seq<(Seq<char>, Seq<char>)>,
    unit: Seq<char>,
    name: Seq<char>,
    j: int,
)
    requires
        planner::rival_builder(units, unit, name) is None,
        0 <= j < units.len(),
        units[j].0 == unit,
    ensures
        units[j].1 == name,
    decreases units.len(),
{
    if j > 0 {
        assert(units.drop_first()[j - 1] == units[j]);
        no_rival_builder(units.drop_first(), unit, name, j - 1);
    }
}

/// In a plan no two components build the same Cargo package, so that each can be updated and
/// removed on its own.
pub proof fn builds_are_exclusive(
    components: Seq<ComponentFacts>,
    pins: Seq<Result<PinnedFacts, Seq<char>>>,
    target: Seq<char>,
    sysroot: Seq<char>,
    n: int,
)
    requires
        planner::drafted(components, pins, target, sysroot, n) is Ok,
    ensures
        builders_are_exclusive(
            planner::drafted(components, pins, target, sysroot, n)->Ok_0.units,
        ),
    decreases n,
{
    if n > 0 {
        builds_are_exclusive(components, pins, target, sysroot, n - 1);
        let before = planner::drafted(components, pins, target, sysroot, n - 1)->Ok_0;
        let c = components[n - 1];
        let added = planner::contribution(c, pins[n - 1]->Ok_0, target, sysroot)->Ok_0;
        if added.unit is Some {
            let units = before.units.push((added.unit->0, c.name));
            assert forall|i: int, j: int|
                0 <= i < units.len() && 0 <= j < units.len() && (#[trigger] units[i]).0 == (
                #[trigger] units[j]).0 implies units[i].1 == units[j].1 by {
                if i < before.units.len() && j == before.units.len() {
                    no_rival_builder(before.units, added.unit->0, c.name, i);
                } else if j < before.units.len() && i == before.units.len() {
                    no_rival_builder(before.units, added.unit->0, c.name, j);
                } else if i < before.units.len() {
                    assert(units[i] == before.units[i] && units[j] == before.units[j]);
                }
            }
        }
    }
}

/// The steps come in the order of the components: those of the first `k` components stand in front
/// of those of all others. Since a component stands behind what it requires, so do its steps.
pub proof fn steps_come_in_order(
    components: Seq<ComponentFacts>,
    pins: Seq<Result<PinnedFacts, Seq<char>>>,
    target: Seq<char>,
    sysroot: Seq<char>,
    k: int,
    n: int,
)
    requires
        0 <= k <= n <= components.len(),
        planner::drafted(components, pins, target, sysroot, n) is Ok,
    ensures
        planner::drafted(components, pins, target, sysroot, k) is Ok,
        ({
            let first = planner::drafted(components, pins, target, sysroot, k)->Ok_0.steps;
            let steps = planner::drafted(components, pins, target, sysroot, n)->Ok_0.steps;
            &&& first.len() <= steps.len()
            &&& steps.take(first.len() as int) == first
            &&& forall|i: int|
                first.len() <= i < steps.len() ==> exists|j: int|
                    k <= j < n && components[j].name == (#[trigger] steps[i]).owner()
        }),
    decreases n - k,
{
    let steps = planner::drafted(components, pins, target, sysroot, n)->Ok_0.steps;
    if k < n {
        steps_come_in_order(components, pins, target, sysroot, k, n - 1);
        let first = planner::drafted(components, pins, target, sysroot, k)->Ok_0.steps;
        let before = planner::drafted(components, pins, target, sysroot, n - 1)->Ok_0.steps;
        let c = components[n - 1];
        let added = planner::contribution(c, pins[n - 1]->Ok_0, target, sysroot)->Ok_0;
        assert(steps == before + added.steps);
        assert(steps.take(first.len() as int) =~= before.take(first.len() as int));
        assert forall|i: int| first.len() <= i < steps.len() implies exists|j: int|
            k <= j < n && components[j].name == (#[trigger] steps[i]).owner() by {
            if i < before.len() {
                assert(steps[i] == before[i]);
                let j = choose|j: int| k <= j < n - 1 && components[j].name == before[i].owner();
                assert(k <= j < n && components[j].name == steps[i].owner());
            } else {
                steps_belong_to_their_component(
                    c,
                    pins[n - 1]->Ok_0,
                    target,
                    sysroot,
                    i - before.len(),
                );
                assert(steps[i] == added.steps[i - before.len()]);
                assert(components[n - 1].name == steps[i].owner());
            }
        }
    } else {
        assert(steps.take(steps.len() as int) =~= steps);
    }
}

// ---------------------------------------------------------------------------------------------
// The sysroot does not enter the key

proof fn below_distributes(prefix: Seq<char>, x: Seq<char>, y: Seq<char>)
    requires
        x.len() > 0,
        !path::rooted(y),
    ensures
        path::below(prefix + x, y) == prefix + path::below(x, y),
        path::below(x, y).len() > 0,
{
    assert((prefix + x).last() == x.last());
    if x.last() == '/' {
        assert((prefix + x) + y =~= prefix + (x + y));
    } else {
        assert((prefix + x).push('/') + y =~= prefix + (x.push('/') + y));
    }
}

proof fn below_is_under(sysroot: Seq<char>, x: Seq<char>)
    requires
        x.len() > 0,
        !path::rooted(x),
    ensures
        path::below(sysroot, x) == path::below(sysroot, Seq::empty()) + x,
{
    let prefix = path::below(sysroot, Seq::empty());
    if sysroot.len() == 0 {
        assert(prefix + x =~= x);
    } else if sysroot.last() == '/' {
        assert(sysroot + Seq::<char>::empty() =~= sysroot);
    } else {
        assert(sysroot.push('/') + Seq::<char>::empty() =~= sysroot.push('/'));
    }
}

proof fn seen_from_the_sysroot(sysroot: Seq<char>, x: Seq<char>)
    ensures
        path::relative_to(path::below(sysroot, Seq::empty()) + x, sysroot) == x,
{
    let prefix = path::below(sysroot, Seq::empty());
    assert((prefix + x).take(prefix.len() as int) =~= prefix);
    assert((prefix + x).skip(prefix.len() as int) =~= x);
}

/// Whether a component's files all lie below the sysroot.
pub open spec fn stays_below(c: ComponentFacts) -> bool {
    c.kind is Asset || c.kind is Command ==> !path::rooted(c.name)
}

proof fn placed_alike(c: ComponentFacts, id: Seq<char>, a: Seq<char>, b: Seq<char>)
    requires
        stays_below(c),
    ensures
        match (destination::placed(c, id, a), destination::placed(c, id, b)) {
            (Ok(x), Ok(y)) => planner::key_destination(x, a) == planner::key_destination(y, b) && x.1
                == y.1 && text::begins_with(x.0, path::below(a, Seq::empty())),
            (Err(x), Err(y)) => x == y,
            _ => false,
        },
{
    if destination::is_safe_segment(id) {
        reveal_strlit("bin");
        reveal_strlit("lib");
        reveal_strlit("etc");
        assert(!path::rooted(id)) by {
            if path::rooted(id) {
                assert(id.contains('/')) by {
                    assert(id[0] == '/');
                }
            }
        }
        let dir = if c.kind is Executable || c.kind is CargoExtension {
            "bin"@
        } else if c.kind is Package || c.kind is LegacyPackage {
            "lib"@
        } else {
            "etc"@
        };
        let (p, q) = (path::below(a, Seq::empty()), path::below(b, Seq::empty()));
        below_is_under(a, dir);
        below_is_under(b, dir);
        if c.kind is Asset || c.kind is Command {
            below_distributes(p, dir, c.name);
            below_distributes(q, dir, c.name);
            let inner = path::below(dir, c.name);
            below_distributes(p, inner, id);
            below_distributes(q, inner, id);
            seen_from_the_sysroot(a, path::below(inner, id));
            seen_from_the_sysroot(b, path::below(inner, id));
            let x = p + path::below(inner, id);
            assert(x.take(p.len() as int) =~= p);
        } else {
            below_distributes(p, dir, id);
            below_distributes(q, dir, id);
            seen_from_the_sysroot(a, path::below(dir, id));
            seen_from_the_sysroot(b, path::below(dir, id));
            let x = p + path::below(dir, id);
            assert(x.take(p.len() as int) =~= p);
        }
    }
}

proof fn transfers_alike(
    c: ComponentFacts,
    available: Seq<(Seq<char>, ResolvedFacts)>,
    a: Seq<char>,
    b: Seq<char>,
)
    requires
        stays_below(c),
    ensures
        match (planner::transfers(c, available, a), planner::transfers(c, available, b)) {
            (Ok(x), Ok(y)) => x.1 == y.1 && x.2 == y.2,
            (Err(x), Err(y)) => x == y,
            _ => false,
        },
    decreases available.len(),
{
    if available.len() > 0 {
        transfers_alike(c, available.drop_last(), a, b);
        placed_alike(c, available.last().0, a, b);
    }
}

/// Where the toolchain lives changes neither what a component contributes to the key nor why it
/// cannot be planned.
pub proof fn contributions_ignore_the_sysroot(
    c: ComponentFacts,
    pinned: PinnedFacts,
    target: Seq<char>,
    a: Seq<char>,
    b: Seq<char>,
)
    requires
        stays_below(c),
    ensures
        match (
            planner::contribution(c, pinned, target, a),
            planner::contribution(c, pinned, target, b),
        ) {
            (Ok(x), Ok(y)) => x.inputs == y.inputs && x.unit == y.unit && x.symlinks == y.symlinks,
            (Err(x), Err(y)) => x == y,
            _ => false,
        },
{
    match resolution::all_resolved(c.artifacts, target, c) {
        Err(_) => {},
        Ok(available) => {
            transfers_alike(c, available, a, b);
            match c.kind {
                KindFacts::Executable { spec, .. } => placed_alike(
                    c,
                    spec.installed_executable,
                    a,
                    b,
                ),
                KindFacts::CargoExtension { spec, .. } => placed_alike(
                    c,
                    spec.installed_executable,
                    a,
                    b,
                ),
                KindFacts::LegacyPackage { .. } => placed_alike(
                    c,
                    crate::manifest::package_name(c)->0,
                    a,
                    b,
                ),
                _ => {},
            }
        },
    }
}

proof fn drafts_alike(
    components: Seq<ComponentFacts>,
    pins: Seq<Result<PinnedFacts, Seq<char>>>,
    target: Seq<char>,
    a: Seq<char>,
    b: Seq<char>,
    n: int,
)
    requires
        0 <= n <= components.len(),
        forall|i: int| 0 <= i < components.len() ==> stays_below(#[trigger] components[i]),
        planner::drafted(components, pins, target, a, n) is Ok,
        planner::drafted(components, pins, target, b, n) is Ok,
    ensures
        planner::drafted(components, pins, target, a, n)->Ok_0.inputs == planner::drafted(
            components,
            pins,
            target,
            b,
            n,
        )->Ok_0.inputs,
    decreases n,
{
    if n > 0 {
        drafts_alike(components, pins, target, a, b, n - 1);
        assert(stays_below(components[n - 1]));
        contributions_ignore_the_sysroot(components[n - 1], pins[n - 1]->Ok_0, target, a, b);
    }
}

/// The key identifies what is installed, not where: two plans for different roots have the same
/// key.
pub proof fn plan_keys_ignore_the_sysroot(
    channel: Seq<char>,
    components: Seq<ComponentFacts>,
    pins: Seq<Result<PinnedFacts, Seq<char>>>,
    target: Seq<char>,
    a: Seq<char>,
    b: Seq<char>,
)
    requires
        forall|i: int| 0 <= i < components.len() ==> stays_below(#[trigger] components[i]),
        planner::planned(channel, components, pins, target, a) is Ok,
        planner::planned(channel, components, pins, target, b) is Ok,
    ensures
        planner::planned(channel, components, pins, target, a)->Ok_0.key == planner::planned(
            channel,
            components,
            pins,
            target,
            b,
        )->Ok_0.key,
{
    drafts_alike(components, pins, target, a, b, components.len() as int);
}

// ---------------------------------------------------------------------------------------------
// What enters the key, and what does not

/// Whether two executables are installed alike: the same file, and the same shim. A hidden one whose
/// shim is named still has it. The rest is looked up when the executable is run.
pub open spec fn installed_alike(a: ExecutableFacts, b: ExecutableFacts) -> bool {
    &&& a.installed_executable == b.installed_executable
    &&& a.symlink_name == b.symlink_name
    &&& a.hide == b.hide || a.symlink_name is Some
}

proof fn resolved_alike(
    artifacts: Seq<(Seq<char>, ArtifactFacts)>,
    target: Seq<char>,
    c: ComponentFacts,
    d: ComponentFacts,
)
    requires
        c.name == d.name,
        c.version == d.version,
    ensures
        resolution::all_resolved(artifacts, target, c) == resolution::all_resolved(
            artifacts,
            target,
            d,
        ),
    decreases artifacts.len(),
{
    if artifacts.len() > 0 {
        resolved_alike(artifacts.drop_last(), target, c, d);
        resolution::resolution_reads_name_and_version(
            artifacts.last().1,
            artifacts.last().0,
            target,
            c,
            d,
        );
    }
}

/// Aliases, call formats, initialization, requirements and profiles contribute nothing, and neither
/// does anything that a command says of how it is run: they change no byte on disk.
pub proof fn runtime_metadata_contributes_nothing(
    c: ComponentFacts,
    d: ComponentFacts,
    pinned: PinnedFacts,
    target: Seq<char>,
    sysroot: Seq<char>,
)
    requires
        c.name == d.name,
        c.version == d.version,
        c.artifacts == d.artifacts,
        match (c.kind, d.kind) {
            (
                KindFacts::Executable { installation_method: m, spec: s },
                KindFacts::Executable { installation_method: n, spec: t },
            ) => m == n && installed_alike(s, t),
            (
                KindFacts::CargoExtension { installation_method: m, spec: s },
                KindFacts::CargoExtension { installation_method: n, spec: t },
            ) => m == n && installed_alike(s, t),
            (KindFacts::Command { .. }, KindFacts::Command { .. }) => true,
            (x, y) => x == y,
        },
    ensures
        planner::contribution(c, pinned, target, sysroot) == planner::contribution(
            d,
            pinned,
            target,
            sysroot,
        ),
{
    resolved_alike(c.artifacts, target, c, d);
    match resolution::all_resolved(c.artifacts, target, c) {
        Ok(available) => {
            transfers_read_little(c, d, available, sysroot);
        },
        Err(_) => {},
    }
}

proof fn transfers_read_little(
    c: ComponentFacts,
    d: ComponentFacts,
    available: Seq<(Seq<char>, ResolvedFacts)>,
    sysroot: Seq<char>,
)
    requires
        c.name == d.name,
        c.artifacts == d.artifacts,
        c.kind == d.kind || (c.kind is Executable && d.kind is Executable) || (
        c.kind is CargoExtension && d.kind is CargoExtension) || (c.kind is Command
            && d.kind is Command),
    ensures
        planner::transfers(c, available, sysroot) == planner::transfers(d, available, sysroot),
    decreases available.len(),
{
    if available.len() > 0 {
        transfers_read_little(c, d, available.drop_last(), sysroot);
    }
}

/// A declared fallback contributes nothing to the key while the artifact is there: it describes
/// what would happen in a failure that has not occurred.
pub proof fn fallbacks_contribute_nothing(
    c: ComponentFacts,
    pinned: PinnedFacts,
    target: Seq<char>,
    sysroot: Seq<char>,
    available: Seq<(Seq<char>, ResolvedFacts)>,
    a: MethodFacts,
    b: MethodFacts,
    executable: Seq<char>,
)
    requires
        a is PrebuiltWithCargoFallback,
        b is PrebuiltWithCargoFallback,
        available.len() > 0,
    ensures
        match (
            planner::executable_plan(c, pinned, target, sysroot, available, a, executable),
            planner::executable_plan(c, pinned, target, sysroot, available, b, executable),
        ) {
            (Ok(x), Ok(y)) => x.inputs == y.inputs,
            (Err(x), Err(y)) => x == y,
            _ => false,
        },
{
}

/// A branch that moved is another authority: two commits of one repository never have the same
/// identity.
pub proof fn identities_tell_revisions_apart(
    url: Seq<char>,
    subpath: Option<Seq<char>>,
    a: Seq<char>,
    b: Seq<char>,
)
    requires
        a != b,
    ensures
        authority::identity(PinnedFacts::Git { url, revision: a, subpath })
            != authority::identity(PinnedFacts::Git { url, revision: b, subpath }),
{
    let x = authority::identity(PinnedFacts::Git { url, revision: a, subpath });
    let y = authority::identity(PinnedFacts::Git { url, revision: b, subpath });
    let front = "git:"@ + url + "@"@;
    let back = match subpath {
        Some(subpath) => ":"@ + subpath,
        None => Seq::empty(),
    };
    assert(x =~= front + a + back);
    assert(y =~= front + b + back);
    if x == y {
        assert(x.len() == y.len());
        assert(x.subrange(front.len() as int, (front.len() + a.len()) as int) =~= a);
        assert(y.subrange(front.len() as int, (front.len() + b.len()) as int) =~= b);
    }
}

/// What a component contributes names its pinned authority, so moving a branch changes what the key
/// is computed over.
pub proof fn contributions_name_their_authority(
    c: ComponentFacts,
    pinned: PinnedFacts,
    target: Seq<char>,
    sysroot: Seq<char>,
)
    requires
        planner::contribution(c, pinned, target, sysroot) is Ok,
    ensures
        planner::contribution(c, pinned, target, sysroot)->Ok_0.inputs.authority
            == authority::identity(pinned),
        planner::contribution(c, pinned, target, sysroot)->Ok_0.inputs.name == c.name,
{
}

// ---------------------------------------------------------------------------------------------
// What is installed of what is declared

proof fn transfers_are_complete(
    c: ComponentFacts,
    available: Seq<(Seq<char>, ResolvedFacts)>,
    sysroot: Seq<char>,
)
    ensures
        planner::transfers(c, available, sysroot) matches Ok(t) ==> t.0.len() == available.len(),
    decreases available.len(),
{
    if available.len() > 0 {
        transfers_are_complete(c, available.drop_last(), sysroot);
    }
}

/// A package, an asset or a command installs every artifact that it declares; anything else installs
/// exactly one file.
pub proof fn every_declared_artifact_is_installed(
    c: ComponentFacts,
    pinned: PinnedFacts,
    target: Seq<char>,
    sysroot: Seq<char>,
)
    requires
        planner::contribution(c, pinned, target, sysroot) is Ok,
    ensures
        ({
            let steps = planner::contribution(c, pinned, target, sysroot)->Ok_0.steps;
            if c.kind is Package || c.kind is Asset || c.kind is Command {
                steps.len() == c.artifacts.len()
            } else {
                steps.len() == 1
            }
        }),
{
    match resolution::all_resolved(c.artifacts, target, c) {
        Ok(available) => {
            transfers_are_complete(c, available, sysroot);
        },
        Err(_) => {},
    }
}

/// Whether an artifact can be fetched for a target.
pub open spec fn supports(artifact: ArtifactFacts, target: Seq<char>) -> bool {
    match artifact {
        ArtifactFacts::TargetAgnostic { .. } => true,
        ArtifactFacts::TargetSpecific { targets, .. } => sorted::lookup(targets, target) is Some,
    }
}

proof fn unsupported_artifacts_are_missing(
    artifacts: Seq<(Seq<char>, ArtifactFacts)>,
    target: Seq<char>,
    c: ComponentFacts,
)
    ensures
        resolution::all_resolved(artifacts, target, c) matches Ok(available) ==> {
            &&& available.len() <= artifacts.len()
            &&& (exists|i: int|
                0 <= i < artifacts.len() && !supports((#[trigger] artifacts[i]).1, target))
                ==> available.len() < artifacts.len()
        },
    decreases artifacts.len(),
{
    if artifacts.len() > 0 {
        let front = artifacts.drop_last();
        unsupported_artifacts_are_missing(front, target, c);
        if exists|i: int| 0 <= i < artifacts.len() && !supports((#[trigger] artifacts[i]).1, target) {
            let i = choose|i: int|
                0 <= i < artifacts.len() && !supports((#[trigger] artifacts[i]).1, target);
            if i < front.len() {
                assert(front[i] == artifacts[i]);
            } else {
                assert(artifacts.last() == artifacts[i]);
            }
        }
    }
}

/// An artifact that does not support the target fails planning, unless a Cargo fallback is declared.
pub proof fn target_support_is_required(
    c: ComponentFacts,
    pinned: PinnedFacts,
    target: Seq<char>,
    sysroot: Seq<char>,
    i: int,
)
    requires
        0 <= i < c.artifacts.len(),
        !supports(c.artifacts[i].1, target),
        match c.kind {
            KindFacts::Executable { installation_method, .. } => !(
            installation_method is PrebuiltWithCargoFallback),
            KindFacts::CargoExtension { installation_method, .. } => !(
            installation_method is PrebuiltWithCargoFallback),
            _ => true,
        },
    ensures
        planner::contribution(c, pinned, target, sysroot) is Err,
{
    unsupported_artifacts_are_missing(c.artifacts, target, c);
}

/// Where a Cargo fallback is declared, an artifact that does not support the target is built
/// instead.
pub proof fn a_fallback_replaces_missing_support(
    c: ComponentFacts,
    pinned: PinnedFacts,
    target: Seq<char>,
    sysroot: Seq<char>,
)
    requires
        c.artifacts.len() == 1,
        !supports(c.artifacts[0].1, target),
        match c.kind {
            KindFacts::Executable { installation_method, .. } =>
                installation_method is PrebuiltWithCargoFallback,
            KindFacts::CargoExtension { installation_method, .. } =>
                installation_method is PrebuiltWithCargoFallback,
            _ => false,
        },
        planner::contribution(c, pinned, target, sysroot) is Ok,
    ensures
        planner::contribution(c, pinned, target, sysroot)->Ok_0.steps[0] is CargoBuild,
{
    unsupported_artifacts_are_missing(c.artifacts, target, c);
}

} // verus!
