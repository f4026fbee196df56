//! What a component's declaration puts into a plan.

use vstd::prelude::*;

use crate::artifact::resolution;
use crate::artifact::{ArtifactFacts, DigestFacts, FormatFacts, ResolvedFacts, UriFacts};
use crate::manifest::{
    ComponentFacts, ExecutableFacts, KindFacts, MethodFacts, PackageMethodFacts,
};
use crate::path;
use crate::plan::authority;
use crate::plan::authority::PinnedFacts;
use crate::plan::destination;
use crate::plan::destination::DestinationErrorFacts;
use crate::plan::key;
use crate::plan::planner;
use crate::plan::planner::{ContributionFacts, PlanErrorFacts};
use crate::plan::step::StepFacts;
use crate::sorted;

verus! {

/// What a program declares of how it is installed: its method and the rest.
pub open spec fn program_of(kind: KindFacts) -> Option<(MethodFacts, ExecutableFacts)> {
    match kind {
        KindFacts::Executable { installation_method, spec } => Some((installation_method, spec)),
        KindFacts::CargoExtension { installation_method, spec } => Some(
            (installation_method, spec),
        ),
        _ => None,
    }
}

/// Whether every artifact of a component of this kind is a file of its own.
pub open spec fn installs_files(kind: KindFacts) -> bool {
    kind is Package || kind is Asset || kind is Command
}

/// What is done instead of a transfer that fails.
pub open spec fn instead_of(step: StepFacts) -> Option<StepFacts> {
    match step {
        StepFacts::Download { fallback: Some(f), .. } => Some(*f),
        StepFacts::CopyLocal { fallback: Some(f), .. } => Some(*f),
        _ => None,
    }
}

/// Whether a step transfers a file.
pub open spec fn is_transfer(step: StepFacts) -> bool {
    step is Download || step is CopyLocal
}

/// Whether a step builds what an installation method declares.
pub open spec fn builds(
    step: StepFacts,
    method: MethodFacts,
    pinned: PinnedFacts,
    executable: Seq<char>,
) -> bool {
    &&& step is CargoBuild
    &&& step->CargoBuild_authority == pinned
    &&& step->expect_binary == executable
    &&& match method {
        MethodFacts::Prebuilt => false,
        MethodFacts::PrebuiltWithCargoFallback { crate_name, rustup_channel, features } => {
            &&& step->CargoBuild_crate_name == crate_name
            &&& step->rustup_channel == rustup_channel
            &&& step->CargoBuild_features == features
        },
        MethodFacts::Cargo { crate_name, rustup_channel, features } => {
            &&& step->CargoBuild_crate_name == crate_name
            &&& step->rustup_channel == rustup_channel
            &&& step->CargoBuild_features == features
        },
    }
}

// ---------------------------------------------------------------------------------------------
// What is available

proof fn available_in_order(
    artifacts: Seq<(Seq<char>, ArtifactFacts)>,
    target: Seq<char>,
    c: ComponentFacts,
)
    ensures
        resolution::all_resolved(artifacts, target, c) matches Ok(available) ==> {
            &&& available.len() <= artifacts.len()
            &&& available.len() == artifacts.len() ==> forall|i: int|
                0 <= i < artifacts.len() ==> (#[trigger] available[i]).0 == artifacts[i].0
                    && resolution::resolved(
                    artifacts[i].1,
                    artifacts[i].0,
                    target,
                    c,
                ) == Ok::<Option<ResolvedFacts>, crate::artifact::InvalidArtifactFacts>(
                    Some(available[i].1),
                )
        },
    decreases artifacts.len(),
{
    if artifacts.len() > 0 {
        available_in_order(artifacts.drop_last(), target, c);
    }
}

proof fn all_available(
    artifacts: Seq<(Seq<char>, ArtifactFacts)>,
    target: Seq<char>,
    c: ComponentFacts,
)
    requires
        forall|i: int| 0 <= i < artifacts.len() ==> is_available(#[trigger] artifacts[i], target, c),
    ensures
        resolution::all_resolved(artifacts, target, c) matches Ok(available) && available.len()
            == artifacts.len(),
    decreases artifacts.len(),
{
    if artifacts.len() > 0 {
        let d = artifacts.drop_last();
        assert forall|i: int| 0 <= i < d.len() implies is_available(#[trigger] d[i], target, c) by {
            assert(d[i] == artifacts[i]);
        }
        assert(is_available(artifacts[artifacts.len() - 1], target, c));
        all_available(d, target, c);
    }
}

/// Whether a declared artifact can be fetched for a target.
pub open spec fn is_available(
    declared: (Seq<char>, ArtifactFacts),
    target: Seq<char>,
    c: ComponentFacts,
) -> bool {
    resolution::resolved(declared.1, declared.0, target, c) matches Ok(Some(_))
}

proof fn transferred_in_order(
    c: ComponentFacts,
    available: Seq<(Seq<char>, ResolvedFacts)>,
    sysroot: Seq<char>,
)
    ensures
        planner::transfers(c, available, sysroot) matches Ok(t) ==> {
            &&& t.0.len() == available.len()
            &&& t.1.len() == available.len()
            &&& t.2.len() == available.len()
            &&& forall|i: int|
                0 <= i < available.len() ==> moves(#[trigger] t.0[i], available[i].1)
                    && instead_of(t.0[i]) is None
            &&& forall|i: int|
                0 <= i < available.len() ==> lies_at(
                    #[trigger] t.0[i],
                    c,
                    available[i].0,
                    sysroot,
                )
            &&& forall|i: int|
                0 <= i < available.len() ==> (t.0[i] matches StepFacts::Download { digest, .. }
                    ==> digest == planner::declared_digest(c, (#[trigger] available[i]).0))
            &&& forall|i: int|
                0 <= i < available.len() ==> tells(
                    #[trigger] t.1[i],
                    available[i].0,
                    available[i].1,
                )
            &&& forall|i: int|
                0 <= i < available.len() ==> (#[trigger] t.2[i]).0 == path::relative_to(
                    t.0[i].dest(),
                    sysroot,
                ) && t.2[i].1 == t.0[i].mode()
        },
    decreases available.len(),
{
    if available.len() > 0 {
        transferred_in_order(c, available.drop_last(), sysroot);
    }
}

/// Whether a step fetches what an artifact resolves to: a file is copied, anything else downloaded,
/// and what it is packaged as is passed on.
pub open spec fn moves(step: StepFacts, r: ResolvedFacts) -> bool {
    match r.uri {
        UriFacts::File(path) => step matches StepFacts::CopyLocal { src, archive, .. } && src == path
            && archive == r.archive,
        UriFacts::Http(address) => step matches StepFacts::Download { uri, archive, .. } && uri
            == address && archive == r.archive,
    }
}

/// Whether a step puts the file `id` where a component of its kind keeps its files, with the mode that
/// such files have.
pub open spec fn lies_at(step: StepFacts, c: ComponentFacts, id: Seq<char>, sysroot: Seq<char>) -> bool {
    let (place, mode) = match step {
        StepFacts::Download { dest, mode, .. } => (dest, mode),
        StepFacts::CopyLocal { dest, mode, .. } => (dest, mode),
        StepFacts::CargoBuild { dest, .. } => (dest, 0o755u32),
        StepFacts::ExtractPackage { dest, .. } => (dest, 0o644u32),
    };
    match c.kind {
        KindFacts::Executable { .. } | KindFacts::CargoExtension { .. } => {
            &&& place == path::below(path::below(sysroot, "bin"@), id)
            &&& mode == 0o755
        },
        KindFacts::Package | KindFacts::LegacyPackage { .. } => {
            &&& place == path::below(path::below(sysroot, "lib"@), id)
            &&& mode == 0o644
        },
        KindFacts::Asset | KindFacts::Command { .. } => {
            &&& place == path::below(path::below(path::below(sysroot, "etc"@), c.name), id)
            &&& mode == 0o644
        },
        KindFacts::Unsupported { .. } => false,
    }
}

/// Whether the key hears of an artifact under its id, with the URI that it is fetched from and with
/// what it is packaged as.
pub open spec fn tells(input: key::ArtifactFacts, id: Seq<char>, r: ResolvedFacts) -> bool {
    &&& input.id == id
    &&& match r.uri {
        UriFacts::File(path) => input.uri == "file://"@ + path,
        UriFacts::Http(address) => input.uri == address,
    }
    &&& match r.archive {
        None => input.archive is None,
        Some(FormatFacts::TarGz) => input.archive == Some("tar.gz"@),
        Some(FormatFacts::Unsupported(spelling)) => input.archive == Some(spelling),
    }
}

// ---------------------------------------------------------------------------------------------
// Steps

/// A build, be it a step or what is done instead of one, is the one that the component declares: of
/// that crate, with those features and that toolchain, at the pinned authority, for the installed
/// executable, at the destination of the step.
pub proof fn builds_are_as_declared(
    c: ComponentFacts,
    pinned: PinnedFacts,
    target: Seq<char>,
    sysroot: Seq<char>,
    i: int,
    s: StepFacts,
)
    requires
        planner::contribution(c, pinned, target, sysroot) is Ok,
        0 <= i < planner::contribution(c, pinned, target, sysroot)->Ok_0.steps.len(),
        ({
            let step = planner::contribution(c, pinned, target, sysroot)->Ok_0.steps[i];
            s == step || instead_of(step) == Some(s)
        }),
        s is CargoBuild,
    ensures
        program_of(c.kind) matches Some((method, spec)) && builds(
            s,
            method,
            pinned,
            spec.installed_executable,
        ),
        s->CargoBuild_owner == c.name,
        s->CargoBuild_dest == planner::contribution(
            c,
            pinned,
            target,
            sysroot,
        )->Ok_0.steps[i].dest(),
{
    match resolution::all_resolved(c.artifacts, target, c) {
        Ok(available) => transferred_in_order(c, available, sysroot),
        Err(_) => {},
    }
}

/// How a program is acquired follows its installation method: built where it says so, fetched where
/// it is prebuilt, and fetched with the build to fall back on where both are declared and the target
/// is supported.
pub proof fn methods_decide_how_programs_are_acquired(
    c: ComponentFacts,
    pinned: PinnedFacts,
    target: Seq<char>,
    sysroot: Seq<char>,
)
    requires
        planner::contribution(c, pinned, target, sysroot) is Ok,
        program_of(c.kind) is Some,
    ensures
        ({
            let steps = planner::contribution(c, pinned, target, sysroot)->Ok_0.steps;
            let (method, spec) = program_of(c.kind)->0;
            let id = spec.installed_executable;
            &&& steps.len() == 1
            &&& lies_at(steps[0], c, id, sysroot)
            &&& method is Cargo ==> builds(steps[0], method, pinned, id) && c.artifacts.len() == 0
            &&& method is Prebuilt ==> is_transfer(steps[0]) && instead_of(steps[0]) is None
            &&& method is PrebuiltWithCargoFallback ==> if c.artifacts.len() == 1 && is_available(
                c.artifacts[0],
                target,
                c,
            ) {
                is_transfer(steps[0]) && instead_of(steps[0]) is Some && builds(
                    instead_of(steps[0])->0,
                    method,
                    pinned,
                    id,
                )
            } else {
                builds(steps[0], method, pinned, id)
            }
            &&& is_transfer(steps[0]) ==> c.artifacts.len() == 1 && c.artifacts[0].0 == id
        }),
{
    reveal_with_fuel(resolution::all_resolved, 2);
    assert(c.artifacts.len() == 1 ==> c.artifacts.drop_last() =~= Seq::empty());
    available_in_order(c.artifacts, target, c);
}

/// A legacy package is one extraction, of what it declares.
pub proof fn extractions_are_as_declared(
    c: ComponentFacts,
    pinned: PinnedFacts,
    target: Seq<char>,
    sysroot: Seq<char>,
)
    requires
        planner::contribution(c, pinned, target, sysroot) is Ok,
        c.kind is LegacyPackage,
    ensures
        ({
            let steps = planner::contribution(c, pinned, target, sysroot)->Ok_0.steps;
            let file = match c.kind->installed_package {
                Some(name) => name,
                None => c.name + ".masp"@,
            };
            &&& steps.len() == 1
            &&& lies_at(steps[0], c, file, sysroot)
            &&& c.artifacts.len() == 0
            &&& c.kind->LegacyPackage_installation_method matches PackageMethodFacts::Cargo {
                crate_name,
                features,
                extractor,
            } && steps[0] == (StepFacts::ExtractPackage {
                crate_name,
                authority: pinned,
                features,
                extractor,
                dest: steps[0].dest(),
                owner: c.name,
            })
        }),
{
}

/// What is declared of the artifact's digest.
pub open spec fn digest_declared(artifact: ArtifactFacts) -> Option<DigestFacts> {
    match artifact {
        ArtifactFacts::TargetSpecific { digest, .. } => digest,
        ArtifactFacts::TargetAgnostic { digest, .. } => digest,
    }
}

/// Every artifact of a component that installs files is fetched from where it resolves to, put where
/// such files go, with its declared digest and packaging, and with nothing to fall back on.
pub proof fn files_are_fetched_as_declared(
    c: ComponentFacts,
    pinned: PinnedFacts,
    target: Seq<char>,
    sysroot: Seq<char>,
    i: int,
)
    requires
        sorted::keys_increase(c.artifacts),
        planner::contribution(c, pinned, target, sysroot) is Ok,
        installs_files(c.kind),
        0 <= i < c.artifacts.len(),
    ensures
        ({
            let steps = planner::contribution(c, pinned, target, sysroot)->Ok_0.steps;
            let (id, artifact) = c.artifacts[i];
            &&& steps.len() == c.artifacts.len()
            &&& resolution::resolved(artifact, id, target, c) matches Ok(Some(r)) && moves(steps[i], r)
            &&& lies_at(steps[i], c, id, sysroot)
            &&& instead_of(steps[i]) is None
            &&& steps[i] matches StepFacts::Download { digest, .. } ==> digest == digest_declared(
                artifact,
            )
        }),
{
    available_in_order(c.artifacts, target, c);
    let available = resolution::all_resolved(c.artifacts, target, c)->Ok_0;
    transferred_in_order(c, available, sysroot);
    sorted::keys_are_unique(c.artifacts, i);
    assert(available[i].0 == c.artifacts[i].0);
}

/// A program that is fetched is fetched from where its only artifact resolves to, with the declared
/// digest and packaging.
pub proof fn programs_are_fetched_as_declared(
    c: ComponentFacts,
    pinned: PinnedFacts,
    target: Seq<char>,
    sysroot: Seq<char>,
)
    requires
        sorted::keys_increase(c.artifacts),
        planner::contribution(c, pinned, target, sysroot) is Ok,
        program_of(c.kind) is Some,
        is_transfer(planner::contribution(c, pinned, target, sysroot)->Ok_0.steps[0]),
    ensures
        ({
            let step = planner::contribution(c, pinned, target, sysroot)->Ok_0.steps[0];
            let (id, artifact) = c.artifacts[0];
            &&& c.artifacts.len() == 1
            &&& resolution::resolved(artifact, id, target, c) matches Ok(Some(r)) && moves(step, r)
            &&& step matches StepFacts::Download { digest, .. } ==> digest == digest_declared(
                artifact,
            )
        }),
{
    methods_decide_how_programs_are_acquired(c, pinned, target, sysroot);
    available_in_order(c.artifacts, target, c);
    sorted::keys_are_unique(c.artifacts, 0);
    let available = resolution::all_resolved(c.artifacts, target, c)->Ok_0;
    assert(available[0].0 == c.artifacts[0].0);
}

/// A program gets the shim that it names, or one named for the component unless it is hidden, and the
/// shim leads to the installed executable. Nothing else gets a shim.
pub proof fn shims_are_as_declared(
    c: ComponentFacts,
    pinned: PinnedFacts,
    target: Seq<char>,
    sysroot: Seq<char>,
)
    requires
        planner::contribution(c, pinned, target, sysroot) is Ok,
    ensures
        ({
            let added = planner::contribution(c, pinned, target, sysroot)->Ok_0;
            let links = added.symlinks;
            &&& added.inputs.symlinks == links
            &&& match program_of(c.kind) {
                None => links.len() == 0,
                Some((_, spec)) => match spec.symlink_name {
                    Some(name) => links.len() == 1 && links[0].0 == name,
                    None => if spec.hide {
                        links.len() == 0
                    } else {
                        links.len() == 1 && links[0].0 == "miden "@ + c.name
                    },
                },
            }
            &&& links.len() == 1 ==> (program_of(c.kind) matches Some((_, spec)) && links[0].1
                == spec.installed_executable)
        }),
{
}

/// What can be asked of a step is what it holds: anything that cargo builds is a program, anything
/// that is extracted is data, only a transfer has something to fall back on, and only what is built
/// has a source.
pub proof fn steps_say_what_they_hold(step: StepFacts)
    ensures
        step.fallback() == instead_of(step),
        match step {
            StepFacts::Download { dest, mode, owner, .. } => step.dest() == dest && step.mode()
                == mode && step.owner() == owner && step.authority() is None,
            StepFacts::CopyLocal { dest, mode, owner, .. } => step.dest() == dest && step.mode()
                == mode && step.owner() == owner && step.authority() is None,
            StepFacts::CargoBuild { dest, owner, authority, .. } => step.dest() == dest
                && step.mode() == 0o755 && step.owner() == owner && step.authority() == Some(
                authority,
            ),
            StepFacts::ExtractPackage { dest, owner, authority, .. } => step.dest() == dest
                && step.mode() == 0o644 && step.owner() == owner && step.authority() == Some(
                authority,
            ),
        },
{
}

// ---------------------------------------------------------------------------------------------
// What the key hears

/// The tag of each kind.
pub open spec fn is_tagged(kind: KindFacts, tag: Seq<char>) -> bool {
    match kind {
        KindFacts::Executable { .. } => tag == "executable"@,
        KindFacts::CargoExtension { .. } => tag == "cargo-extension"@,
        KindFacts::Package => tag == "package"@,
        KindFacts::LegacyPackage { .. } => tag == "legacy-package"@,
        KindFacts::Asset => tag == "asset"@,
        KindFacts::Command { .. } => tag == "command"@,
        KindFacts::Unsupported { tag: own, .. } => tag == own,
    }
}

/// The key hears a component's name, kind and installation method, and of every step where its file
/// goes, with which mode.
pub proof fn the_key_hears_of_kind_and_destinations(
    c: ComponentFacts,
    pinned: PinnedFacts,
    target: Seq<char>,
    sysroot: Seq<char>,
    i: int,
)
    requires
        planner::contribution(c, pinned, target, sysroot) is Ok,
    ensures
        ({
            let added = planner::contribution(c, pinned, target, sysroot)->Ok_0;
            &&& added.inputs.name == c.name
            &&& is_tagged(c.kind, added.inputs.kind)
            &&& added.inputs.installation_method == match c.kind {
                KindFacts::Command { .. } => "n/a"@,
                KindFacts::LegacyPackage { .. } => "cargo"@,
                KindFacts::Executable { installation_method: MethodFacts::Cargo { .. }, .. } =>
                    "cargo"@,
                KindFacts::CargoExtension { installation_method: MethodFacts::Cargo { .. }, .. } =>
                    "cargo"@,
                KindFacts::Executable {
                    installation_method: MethodFacts::PrebuiltWithCargoFallback { .. },
                    ..
                } => "prebuilt-with-cargo-fallback"@,
                KindFacts::CargoExtension {
                    installation_method: MethodFacts::PrebuiltWithCargoFallback { .. },
                    ..
                } => "prebuilt-with-cargo-fallback"@,
                _ => "prebuilt"@,
            }
            &&& added.inputs.destinations.len() == added.steps.len()
            &&& 0 <= i < added.steps.len() ==> {
                let (place, mode) = added.inputs.destinations[i];
                &&& place == path::relative_to(added.steps[i].dest(), sysroot)
                &&& mode == (if program_of(c.kind) is Some {
                    0o755u32
                } else {
                    0o644u32
                })
            }
        }),
{
    match resolution::all_resolved(c.artifacts, target, c) {
        Ok(available) => transferred_in_order(c, available, sysroot),
        Err(_) => {},
    }
}

/// The key hears of every transfer which artifact it fetches, from where and how packaged; and of
/// every build or extraction of which crate, with which features and which toolchain. It hears of
/// nothing else: what is built has no artifacts, and what is fetched names no crate.
pub proof fn the_key_hears_what_is_acquired(
    c: ComponentFacts,
    pinned: PinnedFacts,
    target: Seq<char>,
    sysroot: Seq<char>,
    i: int,
)
    requires
        planner::contribution(c, pinned, target, sysroot) is Ok,
        0 <= i < planner::contribution(c, pinned, target, sysroot)->Ok_0.steps.len(),
    ensures
        ({
            let added = planner::contribution(c, pinned, target, sysroot)->Ok_0;
            let inputs = added.inputs;
            match added.steps[i] {
                StepFacts::CargoBuild { crate_name, features, rustup_channel, .. } => {
                    &&& inputs.artifacts.len() == 0
                    &&& inputs.crate_name == Some(crate_name)
                    &&& inputs.features == Some(features)
                    &&& inputs.rustup_channel == rustup_channel
                },
                StepFacts::ExtractPackage { crate_name, features, extractor, .. } => {
                    &&& inputs.artifacts.len() == 0
                    &&& inputs.crate_name == Some(crate_name + "#"@ + extractor)
                    &&& inputs.features == Some(features)
                    &&& inputs.rustup_channel is None
                },
                _ => {
                    &&& inputs.artifacts.len() == added.steps.len()
                    &&& c.artifacts.len() == added.steps.len()
                    &&& resolution::resolved(
                        c.artifacts[i].1,
                        c.artifacts[i].0,
                        target,
                        c,
                    ) matches Ok(Some(r)) && tells(inputs.artifacts[i], c.artifacts[i].0, r)
                    &&& inputs.crate_name is None
                    &&& inputs.features is None
                    &&& inputs.rustup_channel is None
                },
            }
        }),
{
    available_in_order(c.artifacts, target, c);
    match resolution::all_resolved(c.artifacts, target, c) {
        Ok(available) => {
            transferred_in_order(c, available, sysroot);
            if program_of(c.kind) is Some {
                methods_decide_how_programs_are_acquired(c, pinned, target, sysroot);
            } else if c.kind is LegacyPackage {
                extractions_are_as_declared(c, pinned, target, sysroot);
            }
            if i < available.len() {
                assert(available[i] == available[i]);
            }
        },
        Err(_) => {},
    }
}

/// A component claims the Cargo package that its own step builds or extracts from, at its authority.
/// What is only fetched claims none, not even where it could fall back on a build.
pub proof fn cargo_packages_are_claimed_by_their_builders(
    c: ComponentFacts,
    pinned: PinnedFacts,
    target: Seq<char>,
    sysroot: Seq<char>,
)
    requires
        planner::contribution(c, pinned, target, sysroot) is Ok,
    ensures
        ({
            let added = planner::contribution(c, pinned, target, sysroot)->Ok_0;
            match added.unit {
                None => forall|i: int|
                    0 <= i < added.steps.len() ==> is_transfer(#[trigger] added.steps[i]),
                Some(unit) => added.steps.len() == 1 && match added.steps[0] {
                    StepFacts::CargoBuild { crate_name, .. } => unit == authority::identity(pinned)
                        + "#"@ + crate_name,
                    StepFacts::ExtractPackage { crate_name, .. } => unit == authority::identity(
                        pinned,
                    ) + "#"@ + crate_name,
                    _ => false,
                },
            }
        }),
{
    match resolution::all_resolved(c.artifacts, target, c) {
        Ok(available) => {
            transferred_in_order(c, available, sysroot);
            if planner::contribution(c, pinned, target, sysroot)->Ok_0.unit is None {
                let steps = planner::contribution(c, pinned, target, sysroot)->Ok_0.steps;
                assert forall|i: int| 0 <= i < steps.len() implies is_transfer(
                    #[trigger] steps[i],
                ) by {
                    if installs_files(c.kind) {
                        assert(moves(steps[i], available[i].1));
                    }
                }
            }
        },
        Err(_) => {},
    }
}

// ---------------------------------------------------------------------------------------------
// What can be planned

/// What a component may declare: one artifact named for the executable, or none where it is built;
/// any number of files, but not none for a package or an asset; and nothing but a crate for a legacy
/// package.
pub open spec fn is_well_declared(c: ComponentFacts, target: Seq<char>) -> bool {
    match c.kind {
        KindFacts::Package | KindFacts::Asset => c.artifacts.len() > 0 && all_fetchable(c, target),
        KindFacts::Command { .. } => all_fetchable(c, target),
        KindFacts::LegacyPackage { installation_method, installed_package } => {
            &&& installation_method is Cargo
            &&& c.artifacts.len() == 0
            &&& destination::is_safe_segment(
                match installed_package {
                    Some(name) => name,
                    None => c.name + ".masp"@,
                },
            )
        },
        KindFacts::Unsupported { .. } => false,
        _ => {
            let (method, spec) = program_of(c.kind)->0;
            &&& destination::is_safe_segment(spec.installed_executable)
            &&& match method {
                MethodFacts::Cargo { .. } => c.artifacts.len() == 0,
                MethodFacts::Prebuilt => c.artifacts.len() == 1 && c.artifacts[0].0
                    == spec.installed_executable && is_available(c.artifacts[0], target, c),
                MethodFacts::PrebuiltWithCargoFallback { .. } => c.artifacts.len() == 0 || (
                c.artifacts.len() == 1 && c.artifacts[0].0 == spec.installed_executable
                    && resolution::resolved(
                    c.artifacts[0].1,
                    c.artifacts[0].0,
                    target,
                    c,
                ) is Ok),
            }
        },
    }
}

/// Whether every declared artifact can be fetched, under an id that can be a filename.
pub open spec fn all_fetchable(c: ComponentFacts, target: Seq<char>) -> bool {
    forall|i: int|
        0 <= i < c.artifacts.len() ==> is_available(#[trigger] c.artifacts[i], target, c)
            && destination::is_safe_segment(c.artifacts[i].0)
}

proof fn safe_transfers_succeed(
    c: ComponentFacts,
    available: Seq<(Seq<char>, ResolvedFacts)>,
    sysroot: Seq<char>,
)
    requires
        !(c.kind is Unsupported),
    ensures
        planner::transfers(c, available, sysroot) is Ok <==> forall|i: int|
            0 <= i < available.len() ==> destination::is_safe_segment((#[trigger] available[i]).0),
    decreases available.len(),
{
    if available.len() > 0 {
        let d = available.drop_last();
        safe_transfers_succeed(c, d, sysroot);
        if forall|i: int|
            0 <= i < available.len() ==> destination::is_safe_segment((#[trigger] available[i]).0) {
            assert forall|i: int| 0 <= i < d.len() implies destination::is_safe_segment(
                (#[trigger] d[i]).0,
            ) by {
                assert(d[i] == available[i]);
            }
            assert(destination::is_safe_segment(available[available.len() - 1].0));
        }
        if planner::transfers(c, available, sysroot) is Ok {
            assert forall|i: int| 0 <= i < available.len() implies destination::is_safe_segment(
                (#[trigger] available[i]).0,
            ) by {
                if i < d.len() {
                    assert(d[i] == available[i]);
                }
            }
        }
    }
}

/// A component is planned exactly where it is well declared for the target.
pub proof fn well_declared_components_are_planned(
    c: ComponentFacts,
    pinned: PinnedFacts,
    target: Seq<char>,
    sysroot: Seq<char>,
)
    ensures
        planner::contribution(c, pinned, target, sysroot) is Ok <==> is_well_declared(c, target),
{
    reveal_with_fuel(resolution::all_resolved, 2);
    assert(c.artifacts.len() == 0 ==> c.artifacts =~= Seq::empty());
    assert(c.artifacts.len() == 1 ==> c.artifacts.drop_last() =~= Seq::empty());
    available_in_order(c.artifacts, target, c);
    if installs_files(c.kind) {
        if all_fetchable(c, target) {
            assert forall|i: int| 0 <= i < c.artifacts.len() implies is_available(
                #[trigger] c.artifacts[i],
                target,
                c,
            ) by {}
            all_available(c.artifacts, target, c);
            let available = resolution::all_resolved(c.artifacts, target, c)->Ok_0;
            assert forall|i: int| 0 <= i < available.len() implies destination::is_safe_segment(
                (#[trigger] available[i]).0,
            ) by {
                assert(is_available(c.artifacts[i], target, c));
            }
            safe_transfers_succeed(c, available, sysroot);
        }
        if planner::contribution(c, pinned, target, sysroot) is Ok {
            let available = resolution::all_resolved(c.artifacts, target, c)->Ok_0;
            safe_transfers_succeed(c, available, sysroot);
            assert forall|i: int| 0 <= i < c.artifacts.len() implies is_available(
                #[trigger] c.artifacts[i],
                target,
                c,
            ) && destination::is_safe_segment(c.artifacts[i].0) by {
                assert(available[i].0 == c.artifacts[i].0);
            }
        }
    }
}

/// Why a component cannot be planned names the component, and what is wrong with it: too many
/// artifacts, or artifacts where none belong, or none where some belong, with their number; an
/// artifact that is not named for the executable; or a target that is not supported.
pub proof fn refusals_name_what_is_wrong(
    c: ComponentFacts,
    pinned: PinnedFacts,
    target: Seq<char>,
    sysroot: Seq<char>,
    e: PlanErrorFacts,
)
    requires
        planner::contribution(c, pinned, target, sysroot) == Err::<
            ContributionFacts,
            PlanErrorFacts,
        >(e),
    ensures
        match e {
            PlanErrorFacts::ArtifactCardinality { component, kind, method, expected, found } => {
                &&& component == c.name
                &&& is_tagged(c.kind, kind)
                &&& found == c.artifacts.len()
                &&& method == match (c.kind, program_of(c.kind)) {
                    (_, Some((MethodFacts::Cargo { .. }, _))) => "cargo"@,
                    (_, Some((MethodFacts::PrebuiltWithCargoFallback { .. }, _))) =>
                        "prebuilt-with-cargo-fallback"@,
                    (KindFacts::LegacyPackage { .. }, _) => if found > 0 {
                        "cargo"@
                    } else {
                        "prebuilt"@
                    },
                    _ => "prebuilt"@,
                }
                &&& expected == match c.kind {
                    KindFacts::Package | KindFacts::Asset => "at least one"@,
                    KindFacts::LegacyPackage { .. } => if found > 0 {
                        "none -- a package with artifacts is a 'package'"@
                    } else {
                        "artifacts, in which case declare it as a 'package'"@
                    },
                    _ => if found > 1 {
                        "at most one"@
                    } else {
                        "none"@
                    },
                }
                &&& match c.kind {
                    KindFacts::Package | KindFacts::Asset => found == 0,
                    KindFacts::LegacyPackage { installation_method, .. } => found > 0
                        || installation_method is Prebuilt,
                    _ => program_of(c.kind) matches Some((method, _)) && (found > 1 || (
                    method is Cargo && found > 0)),
                }
            },
            PlanErrorFacts::ArtifactIdMismatch { component, artifact, executable } => {
                &&& component == c.name
                &&& c.artifacts.len() == 1
                &&& artifact == c.artifacts[0].0
                &&& artifact != executable
                &&& program_of(c.kind) matches Some((_, spec)) && spec.installed_executable
                    == executable
            },
            PlanErrorFacts::TargetUnsupported { component, target: named } => {
                &&& component == c.name
                &&& named == target
                &&& c.artifacts.len() == 0 || exists|i: int|
                    0 <= i < c.artifacts.len() && !is_available(#[trigger] c.artifacts[i], target, c)
            },
            PlanErrorFacts::Artifact(_) => exists|i: int|
                0 <= i < c.artifacts.len() && resolution::resolved(
                    (#[trigger] c.artifacts[i]).1,
                    c.artifacts[i].0,
                    target,
                    c,
                ) == Err::<Option<ResolvedFacts>, crate::artifact::InvalidArtifactFacts>(
                    e->Artifact_0,
                ),
            PlanErrorFacts::Destination(DestinationErrorFacts::InvalidId(id)) => {
                &&& !destination::is_safe_segment(id)
                &&& match c.kind {
                    KindFacts::LegacyPackage { installed_package: Some(name), .. } => id == name,
                    KindFacts::LegacyPackage { .. } => id == c.name + ".masp"@,
                    _ => match program_of(c.kind) {
                        Some((_, spec)) => id == spec.installed_executable,
                        None => exists|i: int|
                            0 <= i < c.artifacts.len() && (#[trigger] c.artifacts[i]).0 == id,
                    },
                }
            },
            PlanErrorFacts::Destination(DestinationErrorFacts::NotInstallable {
                component,
                kind,
            }) => component == c.name && c.kind is Unsupported && is_tagged(c.kind, kind),
            _ => false,
        },
{
    available_in_order(c.artifacts, target, c);
    match resolution::all_resolved(c.artifacts, target, c) {
        Err(_) => first_failure(c.artifacts, target, c),
        Ok(available) => {
            if available.len() < c.artifacts.len() {
                if forall|i: int|
                    0 <= i < c.artifacts.len() ==> is_available(
                        #[trigger] c.artifacts[i],
                        target,
                        c,
                    ) {
                    all_available(c.artifacts, target, c);
                }
            } else if installs_files(c.kind) {
                first_unsafe(c, available, sysroot);
                if let Err(DestinationErrorFacts::InvalidId(id)) = planner::transfers(
                    c,
                    available,
                    sysroot,
                ) {
                    let i = choose|i: int| 0 <= i < available.len() && (#[trigger] available[i]).0 == id;
                    assert(c.artifacts[i].0 == id);
                }
            }
        },
    }
}

proof fn first_unsafe(
    c: ComponentFacts,
    available: Seq<(Seq<char>, ResolvedFacts)>,
    sysroot: Seq<char>,
)
    requires
        !(c.kind is Unsupported),
    ensures
        planner::transfers(c, available, sysroot) matches Err(e) ==> (
        e matches DestinationErrorFacts::InvalidId(id) && !destination::is_safe_segment(id)
            && exists|i: int| 0 <= i < available.len() && (#[trigger] available[i]).0 == id),
    decreases available.len(),
{
    if available.len() > 0 {
        let d = available.drop_last();
        first_unsafe(c, d, sysroot);
        match planner::transfers(c, d, sysroot) {
            Err(DestinationErrorFacts::InvalidId(id)) => {
                let i = choose|i: int| 0 <= i < d.len() && (#[trigger] d[i]).0 == id;
                assert(available[i].0 == id);
            },
            _ => {
                assert(available[available.len() - 1] == available.last());
            },
        }
    }
}

proof fn first_failure(
    artifacts: Seq<(Seq<char>, ArtifactFacts)>,
    target: Seq<char>,
    c: ComponentFacts,
)
    ensures
        resolution::all_resolved(artifacts, target, c) matches Err(e) ==> exists|i: int|
            0 <= i < artifacts.len() && resolution::resolved(
                (#[trigger] artifacts[i]).1,
                artifacts[i].0,
                target,
                c,
            ) == Err::<Option<ResolvedFacts>, crate::artifact::InvalidArtifactFacts>(e),
    decreases artifacts.len(),
{
    if artifacts.len() > 0 {
        let d = artifacts.drop_last();
        first_failure(d, target, c);
        match resolution::all_resolved(d, target, c) {
            Err(e) => {
                let i = choose|i: int|
                    0 <= i < d.len() && resolution::resolved(
                        (#[trigger] d[i]).1,
                        d[i].0,
                        target,
                        c,
                    ) == Err::<Option<ResolvedFacts>, crate::artifact::InvalidArtifactFacts>(e);
                assert(artifacts[i] == d[i]);
            },
            Ok(_) => {
                assert(artifacts[artifacts.len() - 1] == artifacts.last());
            },
        }
    }
}

// ---------------------------------------------------------------------------------------------
// The plan as a whole

/// The plan of a list of components consists of what each contributes, in their order: its steps, its
/// shims and its part of the key.
pub proof fn plans_consist_of_contributions(
    components: Seq<ComponentFacts>,
    pins: Seq<Result<PinnedFacts, Seq<char>>>,
    target: Seq<char>,
    sysroot: Seq<char>,
    n: int,
)
    requires
        0 < n <= components.len(),
        planner::drafted(components, pins, target, sysroot, n) is Ok,
    ensures
        planner::drafted(components, pins, target, sysroot, n - 1) is Ok,
        pins[n - 1] is Ok,
        planner::contribution(components[n - 1], pins[n - 1]->Ok_0, target, sysroot) is Ok,
        ({
            let before = planner::drafted(components, pins, target, sysroot, n - 1)->Ok_0;
            let after = planner::drafted(components, pins, target, sysroot, n)->Ok_0;
            let added = planner::contribution(
                components[n - 1],
                pins[n - 1]->Ok_0,
                target,
                sysroot,
            )->Ok_0;
            &&& after.steps == before.steps + added.steps
            &&& after.symlinks == before.symlinks + added.symlinks
            &&& after.inputs == before.inputs.push(added.inputs)
            &&& n == 1 ==> before.steps.len() == 0 && before.symlinks.len() == 0
                && before.inputs.len() == 0
        }),
{
}

/// A plan is for the channel and the target that it was made for, and its key is computed over what
/// every component contributes, under that target.
pub proof fn plans_are_for_their_channel_and_target(
    channel: Seq<char>,
    components: Seq<ComponentFacts>,
    pins: Seq<Result<PinnedFacts, Seq<char>>>,
    target: Seq<char>,
    sysroot: Seq<char>,
)
    requires
        planner::planned(channel, components, pins, target, sysroot) is Ok,
    ensures
        ({
            let plan = planner::planned(channel, components, pins, target, sysroot)->Ok_0;
            let draft = planner::drafted(
                components,
                pins,
                target,
                sysroot,
                components.len() as int,
            )->Ok_0;
            &&& plan.channel == channel
            &&& plan.target == target
            &&& plan.steps == draft.steps
            &&& plan.symlinks == draft.symlinks
            &&& plan.key == key::key_of(key::KeyFacts { target, components: draft.inputs })
        }),
{
}

/// Whether two steps, of these owners, install to one place.
pub open spec fn collide(
    steps: Seq<StepFacts>,
    first: Seq<char>,
    second: Seq<char>,
    place: Seq<char>,
) -> bool {
    exists|i: int, j: int|
        0 <= i < j < steps.len() && (#[trigger] steps[i]).owner() == first && (
        #[trigger] steps[j]).owner() == second && steps[j].dest() == place && path::same_place(
            steps[i].dest(),
            steps[j].dest(),
        )
}

/// A plan that fails fails for its first component that cannot be pinned or planned, or that gets in
/// the way of an earlier one.
pub proof fn plans_fail_for_their_first_fault(
    components: Seq<ComponentFacts>,
    pins: Seq<Result<PinnedFacts, Seq<char>>>,
    target: Seq<char>,
    sysroot: Seq<char>,
    n: int,
)
    requires
        0 < n <= components.len(),
        planner::drafted(components, pins, target, sysroot, n - 1) is Ok,
    ensures
        ({
            let after = planner::drafted(components, pins, target, sysroot, n);
            let c = components[n - 1];
            match pins[n - 1] {
                Err(message) => after == Err::<planner::DraftFacts, PlanErrorFacts>(
                    PlanErrorFacts::Pin(message),
                ),
                Ok(pinned) => match planner::contribution(c, pinned, target, sysroot) {
                    Err(e) => after == Err::<planner::DraftFacts, PlanErrorFacts>(e),
                    Ok(_) => match after {
                        Ok(_) => true,
                        Err(PlanErrorFacts::CargoUnitConflict { unit, first, second }) => second
                            == c.name && first != second && planner::drafted(
                            components,
                            pins,
                            target,
                            sysroot,
                            n - 1,
                        )->Ok_0.units.contains((unit, first)) && planner::contribution(
                            c,
                            pinned,
                            target,
                            sysroot,
                        )->Ok_0.unit == Some(unit),
                        Err(PlanErrorFacts::DestinationCollision { first, second, path: place }) => {
                            let steps = planner::drafted(
                                components,
                                pins,
                                target,
                                sysroot,
                                n - 1,
                            )->Ok_0.steps + planner::contribution(
                                c,
                                pinned,
                                target,
                                sysroot,
                            )->Ok_0.steps;
                            second == c.name && collide(steps, first, second, place)
                        },
                        Err(_) => false,
                    },
                },
            }
        }),
{
    let draft = planner::drafted(components, pins, target, sysroot, n - 1)->Ok_0;
    if pins[n - 1] is Ok {
        match planner::contribution(components[n - 1], pins[n - 1]->Ok_0, target, sysroot) {
            Ok(added) => {
                collisions_name_the_later(draft.steps + added.steps, components[n - 1].name, 0);
                if added.unit is Some {
                    conflicts_name_the_earlier_builder(
                        draft.units,
                        added.unit->0,
                        components[n - 1].name,
                    );
                }
            },
            Err(_) => {},
        }
    }
}

/// A collision names the path, the component that came first and the one that came later; and there
/// is one wherever a step of the component installs to where an earlier step does.
pub proof fn collisions_name_the_later(steps: Seq<StepFacts>, name: Seq<char>, n: int)
    requires
        0 <= n,
    ensures
        planner::collision(steps, name, n) matches Some(e) ==> {
            &&& e is DestinationCollision
            &&& e->DestinationCollision_second == name
            &&& collide(steps, e->DestinationCollision_first, name, e->path)
        },
    decreases steps.len() - n,
{
    if n < steps.len() {
        if steps[n].owner() == name && planner::claimant(steps, steps[n].dest(), 0, n) is Some {
            claimants_came_first(steps, steps[n].dest(), 0, n);
            let first = planner::claimant(steps, steps[n].dest(), 0, n)->0;
            let i = choose|i: int|
                0 <= i < n && (#[trigger] steps[i]).owner() == first && path::same_place(
                    steps[i].dest(),
                    steps[n].dest(),
                );
            assert(steps[i].owner() == first && steps[n].owner() == name);
        } else {
            collisions_name_the_later(steps, name, n + 1);
        }
    }
}

/// The Cargo package that a step builds or extracts from, if it does.
pub open spec fn package_of(step: StepFacts) -> Option<Seq<char>> {
    match step {
        StepFacts::CargoBuild { crate_name, authority: pinned, .. } => Some(
            authority::identity(pinned) + "#"@ + crate_name,
        ),
        StepFacts::ExtractPackage { crate_name, authority: pinned, .. } => Some(
            authority::identity(pinned) + "#"@ + crate_name,
        ),
        _ => None,
    }
}

proof fn every_package_is_claimed(
    components: Seq<ComponentFacts>,
    pins: Seq<Result<PinnedFacts, Seq<char>>>,
    target: Seq<char>,
    sysroot: Seq<char>,
    n: int,
    i: int,
)
    requires
        0 <= n <= components.len(),
        planner::drafted(components, pins, target, sysroot, n) is Ok,
        0 <= i < planner::drafted(components, pins, target, sysroot, n)->Ok_0.steps.len(),
    ensures
        ({
            let draft = planner::drafted(components, pins, target, sysroot, n)->Ok_0;
            package_of(draft.steps[i]) matches Some(package) ==> draft.units.contains(
                (package, draft.steps[i].owner()),
            )
        }),
    decreases n,
{
    if n > 0 {
        let before = planner::drafted(components, pins, target, sysroot, n - 1)->Ok_0;
        let after = planner::drafted(components, pins, target, sysroot, n)->Ok_0;
        let (c, pinned) = (components[n - 1], pins[n - 1]->Ok_0);
        let added = planner::contribution(c, pinned, target, sysroot)->Ok_0;
        let k = before.steps.len() as int;
        if i < k {
            every_package_is_claimed(components, pins, target, sysroot, n - 1, i);
            assert(after.steps[i] == before.steps[i]);
            if let Some(package) = package_of(before.steps[i]) {
                let entry = (package, before.steps[i].owner());
                let u = choose|u: int| 0 <= u < before.units.len() && before.units[u] == entry;
                assert(after.units[u] == entry);
            }
        } else {
            let s = added.steps[i - k];
            assert(after.steps[i] == s);
            cargo_packages_are_claimed_by_their_builders(c, pinned, target, sysroot);
            crate::plan::plan_laws::steps_belong_to_their_component(
                c,
                pinned,
                target,
                sysroot,
                i - k,
            );
            if package_of(s) is Some {
                if s is CargoBuild {
                    builds_are_as_declared(c, pinned, target, sysroot, i - k, s);
                } else if c.kind is LegacyPackage {
                    extractions_are_as_declared(c, pinned, target, sysroot);
                } else if program_of(c.kind) is Some {
                    methods_decide_how_programs_are_acquired(c, pinned, target, sysroot);
                }
                assert(!is_transfer(s));
                assert(added.unit is Some);
                assert(after.units[after.units.len() - 1] == (added.unit->0, c.name));
            }
        }
    }
}

/// No Cargo package is built for two components of a plan: where two steps build or extract from the
/// same crate at the same state of the same source, they belong to one component.
pub proof fn no_package_is_built_for_two(
    components: Seq<ComponentFacts>,
    pins: Seq<Result<PinnedFacts, Seq<char>>>,
    target: Seq<char>,
    sysroot: Seq<char>,
    n: int,
    i: int,
    j: int,
)
    requires
        0 <= n <= components.len(),
        planner::drafted(components, pins, target, sysroot, n) is Ok,
        0 <= i < planner::drafted(components, pins, target, sysroot, n)->Ok_0.steps.len(),
        0 <= j < planner::drafted(components, pins, target, sysroot, n)->Ok_0.steps.len(),
        ({
            let steps = planner::drafted(components, pins, target, sysroot, n)->Ok_0.steps;
            package_of(steps[i]) is Some && package_of(steps[i]) == package_of(steps[j])
        }),
    ensures
        ({
            let steps = planner::drafted(components, pins, target, sysroot, n)->Ok_0.steps;
            steps[i].owner() == steps[j].owner()
        }),
{
    let draft = planner::drafted(components, pins, target, sysroot, n)->Ok_0;
    every_package_is_claimed(components, pins, target, sysroot, n, i);
    every_package_is_claimed(components, pins, target, sysroot, n, j);
    crate::plan::plan_laws::builds_are_exclusive(components, pins, target, sysroot, n);
    let package = package_of(draft.steps[i])->0;
    let a = choose|a: int|
        0 <= a < draft.units.len() && draft.units[a] == (package, draft.steps[i].owner());
    let b = choose|b: int|
        0 <= b < draft.units.len() && draft.units[b] == (package, draft.steps[j].owner());
    assert(draft.units[a].0 == draft.units[b].0);
}

/// A conflict over a Cargo package is one with another component that claimed that very package
/// before.
pub proof fn conflicts_name_the_earlier_builder(
    units: Seq<(Seq<char>, Seq<char>)>,
    unit: Seq<char>,
    name: Seq<char>,
)
    ensures
        planner::rival_builder(units, unit, name) matches Some(first) ==> first != name
            && units.contains((unit, first)),
    decreases units.len(),
{
    if units.len() > 0 {
        let d = units.drop_first();
        conflicts_name_the_earlier_builder(d, unit, name);
        if units[0].0 == unit && units[0].1 != name {
            assert(units[0] == (unit, units[0].1));
        } else if let Some(first) = planner::rival_builder(d, unit, name) {
            let k = choose|k: int| 0 <= k < d.len() && d[k] == (unit, first);
            assert(units[k + 1] == (unit, first));
        }
    }
}

proof fn claimants_came_first(steps: Seq<StepFacts>, dest: Seq<char>, k: int, n: int)
    requires
        0 <= k,
    ensures
        planner::claimant(steps, dest, k, n) matches Some(first) ==> exists|i: int|
            k <= i < n && (#[trigger] steps[i]).owner() == first && path::same_place(
                steps[i].dest(),
                dest,
            ),
    decreases n - k,
{
    if k < n {
        if path::same_place(steps[k].dest(), dest) {
            assert(steps[k].owner() == planner::claimant(steps, dest, k, n)->0);
        } else {
            claimants_came_first(steps, dest, k + 1, n);
        }
    }
}

} // verus!
