//! Turning a resolved component set into an exact, target-specific installation plan.
//!
//! Every decision is made here. Execution performs no filtering, resolves no names, and consults
//! no manifest: it walks the steps and does what each one says.

use vstd::prelude::*;

use crate::artifact;
use crate::artifact::resolution;
use crate::artifact::{
    ArtifactUri, Digest, DigestFacts, InvalidArtifactError, InvalidArtifactFacts, ResolvedArtifact,
    ResolvedFacts, UriFacts,
};
use crate::manifest;
use crate::manifest::{
    Channel, ChannelFacts, Component, ComponentFacts, ComponentKind, InstallationMethod, KindFacts,
    MethodFacts, PackageInstallationMethod, PackageMethodFacts,
};
use crate::path;
use crate::plan::authority;
use crate::plan::authority::{PinError, PinnedFacts, ResolvedAuthority};
use crate::plan::destination;
use crate::plan::destination::{Destination, DestinationError, DestinationErrorFacts};
use crate::plan::key;
use crate::plan::key::{ArtifactInput, ComponentInputs, KeyFacts, KeyInputs, PlanKey};
use crate::plan::step::{PlanStep, StepFacts, SymlinkSpec};
use crate::resolve;
use crate::resolve::{Intent, IntentFacts, ResolutionError, ResolutionFacts};
use crate::sorted;
use crate::text;
use crate::version::Version;

verus! {

/// Why an installation cannot be planned.
#[derive(Debug, PartialEq, Eq)]
pub enum PlanError {
    Resolution(ResolutionError),
    Destination(DestinationError),
    Artifact(InvalidArtifactError),
    Pin(PinError),
    ArtifactCardinality {
        component: String,
        kind: String,
        method: &'static str,
        expected: &'static str,
        found: usize,
    },
    ArtifactIdMismatch { component: String, artifact: String, executable: String },
    TargetUnsupported { component: String, target: String },
    DestinationCollision { first: String, second: String, path: String },
    CargoUnitConflict { unit: String, first: String, second: String },
}

/// What a [`PlanError`] holds.
#[verifier::ext_equal]
pub enum PlanErrorFacts {
    Resolution(ResolutionFacts),
    Destination(DestinationErrorFacts),
    Artifact(InvalidArtifactFacts),
    Pin(Seq<char>),
    ArtifactCardinality {
        component: Seq<char>,
        kind: Seq<char>,
        method: Seq<char>,
        expected: Seq<char>,
        found: nat,
    },
    ArtifactIdMismatch { component: Seq<char>, artifact: Seq<char>, executable: Seq<char> },
    TargetUnsupported { component: Seq<char>, target: Seq<char> },
    DestinationCollision { first: Seq<char>, second: Seq<char>, path: Seq<char> },
    CargoUnitConflict { unit: Seq<char>, first: Seq<char>, second: Seq<char> },
}

impl DeepView for PlanError {
    type V = PlanErrorFacts;

    open spec fn deep_view(&self) -> PlanErrorFacts {
        match self {
            PlanError::Resolution(e) => PlanErrorFacts::Resolution(e.deep_view()),
            PlanError::Destination(e) => PlanErrorFacts::Destination(e.deep_view()),
            PlanError::Artifact(e) => PlanErrorFacts::Artifact(e.deep_view()),
            PlanError::Pin(e) => PlanErrorFacts::Pin(e@),
            PlanError::ArtifactCardinality { component, kind, method, expected, found } =>
                PlanErrorFacts::ArtifactCardinality {
                component: component@,
                kind: kind@,
                method: method@,
                expected: expected@,
                found: *found as nat,
            },
            PlanError::ArtifactIdMismatch { component, artifact, executable } =>
                PlanErrorFacts::ArtifactIdMismatch {
                component: component@,
                artifact: artifact@,
                executable: executable@,
            },
            PlanError::TargetUnsupported { component, target } =>
                PlanErrorFacts::TargetUnsupported { component: component@, target: target@ },
            PlanError::DestinationCollision { first, second, path } =>
                PlanErrorFacts::DestinationCollision {
                first: first@,
                second: second@,
                path: path@,
            },
            PlanError::CargoUnitConflict { unit, first, second } =>
                PlanErrorFacts::CargoUnitConflict {
                unit: unit@,
                first: first@,
                second: second@,
            },
        }
    }
}

/// Why an installation cannot be planned, in words.
pub open spec fn plan_error_text(e: PlanErrorFacts) -> Seq<char> {
    match e {
        PlanErrorFacts::Resolution(e) => resolve::resolution_error_text(e),
        PlanErrorFacts::Destination(e) => destination::destination_error_text(e),
        PlanErrorFacts::Artifact(e) => artifact::invalid_artifact_text(e),
        PlanErrorFacts::Pin(message) => message,
        PlanErrorFacts::ArtifactCardinality { component, kind, method, expected, found } =>
            "component '"@ + component + "' declares "@ + text::decimal(found)
            + " artifact(s), but a "@ + kind + " component using '"@ + method + "' must declare "@
            + expected,
        PlanErrorFacts::ArtifactIdMismatch { component, artifact, executable } => "component '"@
            + component + "' declares its artifact as '"@ + artifact
            + "', but installs the executable '"@ + executable
            + "'; for an executable the artifact id must be the installed filename"@,
        PlanErrorFacts::TargetUnsupported { component, target } => "component '"@ + component
            + "' has no artifact for target '"@ + target
            + "', and does not declare a Cargo fallback"@,
        PlanErrorFacts::DestinationCollision { first, second, path } => "components '"@ + first
            + "' and '"@ + second + "' both install to '"@ + path + "'"@,
        PlanErrorFacts::CargoUnitConflict { unit, first, second } => "components '"@ + first
            + "' and '"@ + second + "' both build Cargo package '"@ + unit
            + "'; midenup cannot tell their outputs apart"@,
    }
}

impl PlanError {
    /// Why the installation cannot be planned, in words.
    pub fn to_string(&self) -> (s: String)
        ensures
            s@ == plan_error_text(self.deep_view()),
    {
        match self {
            PlanError::Resolution(e) => e.to_string(),
            PlanError::Destination(e) => e.to_string(),
            PlanError::Artifact(e) => e.to_string(),
            PlanError::Pin(e) => e.message.clone(),
            PlanError::ArtifactCardinality { component, kind, method, expected, found } => {
                let mut s = "component '".to_owned();
                s.append(component.as_str());
                s.append("' declares ");
                s.append(text::number(*found as u128).as_str());
                s.append(" artifact(s), but a ");
                s.append(kind.as_str());
                s.append(" component using '");
                s.append(method);
                s.append("' must declare ");
                s.append(expected);
                s
            },
            PlanError::ArtifactIdMismatch { component, artifact, executable } => {
                let mut s = "component '".to_owned();
                s.append(component.as_str());
                s.append("' declares its artifact as '");
                s.append(artifact.as_str());
                s.append("', but installs the executable '");
                s.append(executable.as_str());
                s.append("'; for an executable the artifact id must be the installed filename");
                s
            },
            PlanError::TargetUnsupported { component, target } => {
                let mut s = "component '".to_owned();
                s.append(component.as_str());
                s.append("' has no artifact for target '");
                s.append(target.as_str());
                s.append("', and does not declare a Cargo fallback");
                s
            },
            PlanError::DestinationCollision { first, second, path } => {
                let mut s = "components '".to_owned();
                s.append(first.as_str());
                s.append("' and '");
                s.append(second.as_str());
                s.append("' both install to '");
                s.append(path.as_str());
                s.append("'");
                s
            },
            PlanError::CargoUnitConflict { unit, first, second } => {
                let mut s = "components '".to_owned();
                s.append(first.as_str());
                s.append("' and '");
                s.append(second.as_str());
                s.append("' both build Cargo package '");
                s.append(unit.as_str());
                s.append("'; midenup cannot tell their outputs apart");
                s
            },
        }
    }
}

// ---------------------------------------------------------------------------------------------
// One component

/// What one component adds to a plan.
#[verifier::ext_equal]
pub struct ContributionFacts {
    pub steps: Seq<StepFacts>,
    /// `(shim, binary)`.
    pub symlinks: Seq<(Seq<char>, Seq<char>)>,
    pub inputs: key::ComponentFacts,
    /// The Cargo package that the component builds, if it builds one.
    pub unit: Option<Seq<char>>,
}

/// The tag of an installation method.
pub open spec fn method_tag(method: MethodFacts) -> Seq<char> {
    match method {
        MethodFacts::Prebuilt => "prebuilt"@,
        MethodFacts::PrebuiltWithCargoFallback { .. } => "prebuilt-with-cargo-fallback"@,
        MethodFacts::Cargo { .. } => "cargo"@,
    }
}

/// The Cargo package that is built from `crate_name` at an authority.
pub open spec fn cargo_unit(pinned: PinnedFacts, crate_name: Seq<char>) -> Seq<char> {
    authority::identity(pinned) + "#"@ + crate_name
}

/// A destination as the plan key sees it: relative to the sysroot.
pub open spec fn key_destination(dest: (Seq<char>, u32), sysroot: Seq<char>) -> (Seq<char>, u32) {
    (path::relative_to(dest.0, sysroot), dest.1)
}

/// A component's key inputs before anything is planned for it.
pub open spec fn blank_inputs(c: ComponentFacts, pinned: PinnedFacts) -> key::ComponentFacts {
    key::ComponentFacts {
        name: c.name,
        authority: authority::identity(pinned),
        kind: manifest::kind_tag(c.kind),
        installation_method: Seq::empty(),
        artifacts: Seq::empty(),
        destinations: Seq::empty(),
        crate_name: None,
        features: None,
        rustup_channel: None,
        symlinks: Seq::empty(),
    }
}

/// An artifact as the plan key sees it.
pub open spec fn artifact_input(id: Seq<char>, r: ResolvedFacts) -> key::ArtifactFacts {
    key::ArtifactFacts {
        id,
        uri: artifact::uri_text(r.uri),
        archive: match r.archive {
            Some(format) => Some(artifact::spelling_of(format)),
            None => None,
        },
    }
}

/// The digest declared for an artifact.
pub open spec fn declared_digest(c: ComponentFacts, id: Seq<char>) -> Option<DigestFacts> {
    match sorted::lookup(c.artifacts, id) {
        Some(a) => a.digest(),
        None => None,
    }
}

/// The step that transfers a resolved artifact.
pub open spec fn transfer_step(
    c: ComponentFacts,
    id: Seq<char>,
    r: ResolvedFacts,
    dest: (Seq<char>, u32),
    fallback: Option<StepFacts>,
) -> StepFacts {
    let fallback = match fallback {
        Some(step) => Some(Box::new(step)),
        None => None,
    };
    match r.uri {
        UriFacts::File(src) => StepFacts::CopyLocal {
            src,
            dest: dest.0,
            mode: dest.1,
            owner: c.name,
            archive: r.archive,
            fallback,
        },
        UriFacts::Http(uri) => StepFacts::Download {
            uri,
            dest: dest.0,
            mode: dest.1,
            owner: c.name,
            digest: declared_digest(c, id),
            archive: r.archive,
            fallback,
        },
    }
}

/// The transfers of a list of resolved artifacts: steps, artifacts and destinations as the key sees
/// them. The first artifact without a destination fails all.
pub open spec fn transfers(
    c: ComponentFacts,
    available: Seq<(Seq<char>, ResolvedFacts)>,
    sysroot: Seq<char>,
) -> Result<
    (Seq<StepFacts>, Seq<key::ArtifactFacts>, Seq<(Seq<char>, u32)>),
    DestinationErrorFacts,
>
    decreases available.len(),
{
    if available.len() == 0 {
        Ok((Seq::empty(), Seq::empty(), Seq::empty()))
    } else {
        let (id, r) = available.last();
        match transfers(c, available.drop_last(), sysroot) {
            Err(e) => Err(e),
            Ok((steps, artifacts, destinations)) => match destination::placed(c, id, sysroot) {
                Err(e) => Err(e),
                Ok(dest) => Ok(
                    (
                        steps.push(transfer_step(c, id, r, dest, None)),
                        artifacts.push(artifact_input(id, r)),
                        destinations.push(key_destination(dest, sysroot)),
                    ),
                ),
            },
        }
    }
}

/// The step that builds an executable with Cargo.
pub open spec fn cargo_step(
    c: ComponentFacts,
    pinned: PinnedFacts,
    crate_name: Seq<char>,
    rustup_channel: Option<Seq<char>>,
    features: Seq<Seq<char>>,
    executable: Seq<char>,
    dest: Seq<char>,
) -> StepFacts {
    StepFacts::CargoBuild {
        crate_name,
        authority: pinned,
        features,
        rustup_channel,
        expect_binary: executable,
        dest,
        owner: c.name,
    }
}

/// The shims of an executable, as `(shim, binary)`.
pub open spec fn shims(c: ComponentFacts, executable: Seq<char>) -> Seq<(Seq<char>, Seq<char>)> {
    match manifest::shim_name(c) {
        Some(name) => seq![(name, executable)],
        None => Seq::empty(),
    }
}

/// What an executable adds when it is built with Cargo.
pub open spec fn built(
    c: ComponentFacts,
    pinned: PinnedFacts,
    sysroot: Seq<char>,
    method: MethodFacts,
    crate_name: Seq<char>,
    rustup_channel: Option<Seq<char>>,
    features: Seq<Seq<char>>,
    executable: Seq<char>,
    dest: (Seq<char>, u32),
) -> ContributionFacts {
    ContributionFacts {
        steps: seq![
            cargo_step(c, pinned, crate_name, rustup_channel, features, executable, dest.0),
        ],
        symlinks: shims(c, executable),
        inputs: key::ComponentFacts {
            installation_method: method_tag(method),
            destinations: seq![key_destination(dest, sysroot)],
            crate_name: Some(crate_name),
            features: Some(features),
            rustup_channel,
            symlinks: shims(c, executable),
            ..blank_inputs(c, pinned)
        },
        unit: Some(cargo_unit(pinned, crate_name)),
    }
}

/// What an executable adds when it is transferred. The fallback contributes nothing to the key: it
/// describes what would happen in a failure that has not occurred.
pub open spec fn fetched(
    c: ComponentFacts,
    pinned: PinnedFacts,
    sysroot: Seq<char>,
    method: MethodFacts,
    executable: Seq<char>,
    id: Seq<char>,
    r: ResolvedFacts,
    dest: (Seq<char>, u32),
    fallback: Option<StepFacts>,
) -> ContributionFacts {
    ContributionFacts {
        steps: seq![transfer_step(c, id, r, dest, fallback)],
        symlinks: shims(c, executable),
        inputs: key::ComponentFacts {
            installation_method: method_tag(method),
            artifacts: seq![artifact_input(id, r)],
            destinations: seq![key_destination(dest, sysroot)],
            symlinks: shims(c, executable),
            ..blank_inputs(c, pinned)
        },
        unit: None,
    }
}

/// What an executable adds. It installs exactly one file, so its artifact must be named for it.
pub open spec fn executable_plan(
    c: ComponentFacts,
    pinned: PinnedFacts,
    target: Seq<char>,
    sysroot: Seq<char>,
    available: Seq<(Seq<char>, ResolvedFacts)>,
    method: MethodFacts,
    executable: Seq<char>,
) -> Result<ContributionFacts, PlanErrorFacts> {
    let declared = c.artifacts.len();
    let kind = manifest::kind_tag(c.kind);
    if declared > 1 {
        Err(
            PlanErrorFacts::ArtifactCardinality {
                component: c.name,
                kind,
                method: method_tag(method),
                expected: "at most one"@,
                found: declared,
            },
        )
    } else if declared == 1 && c.artifacts[0].0 != executable {
        Err(
            PlanErrorFacts::ArtifactIdMismatch {
                component: c.name,
                artifact: c.artifacts[0].0,
                executable,
            },
        )
    } else {
        match destination::placed(c, executable, sysroot) {
            Err(e) => Err(PlanErrorFacts::Destination(e)),
            Ok(dest) => match method {
                MethodFacts::Cargo { crate_name, rustup_channel, features } => if declared > 0 {
                    Err(
                        PlanErrorFacts::ArtifactCardinality {
                            component: c.name,
                            kind,
                            method: "cargo"@,
                            expected: "none"@,
                            found: declared,
                        },
                    )
                } else {
                    Ok(
                        built(
                            c,
                            pinned,
                            sysroot,
                            method,
                            crate_name,
                            rustup_channel,
                            features,
                            executable,
                            dest,
                        ),
                    )
                },
                MethodFacts::Prebuilt => if available.len() == 0 {
                    Err(PlanErrorFacts::TargetUnsupported { component: c.name, target })
                } else {
                    Ok(
                        fetched(
                            c,
                            pinned,
                            sysroot,
                            method,
                            executable,
                            available[0].0,
                            available[0].1,
                            dest,
                            None,
                        ),
                    )
                },
                MethodFacts::PrebuiltWithCargoFallback { crate_name, rustup_channel, features } =>
                    if available.len() > 0 {
                    Ok(
                        fetched(
                            c,
                            pinned,
                            sysroot,
                            method,
                            executable,
                            available[0].0,
                            available[0].1,
                            dest,
                            Some(
                                cargo_step(
                                    c,
                                    pinned,
                                    crate_name,
                                    rustup_channel,
                                    features,
                                    executable,
                                    dest.0,
                                ),
                            ),
                        ),
                    )
                } else {
                    Ok(
                        built(
                            c,
                            pinned,
                            sysroot,
                            method,
                            crate_name,
                            rustup_channel,
                            features,
                            executable,
                            dest,
                        ),
                    )
                },
            },
        }
    }
}

/// What a component adds when all its files are transferred.
pub open spec fn files_plan(
    c: ComponentFacts,
    pinned: PinnedFacts,
    sysroot: Seq<char>,
    available: Seq<(Seq<char>, ResolvedFacts)>,
    method: Seq<char>,
) -> Result<ContributionFacts, PlanErrorFacts> {
    match transfers(c, available, sysroot) {
        Err(e) => Err(PlanErrorFacts::Destination(e)),
        Ok((steps, artifacts, destinations)) => Ok(
            ContributionFacts {
                steps,
                symlinks: Seq::empty(),
                inputs: key::ComponentFacts {
                    installation_method: method,
                    artifacts,
                    destinations,
                    ..blank_inputs(c, pinned)
                },
                unit: None,
            },
        ),
    }
}

/// What a package or an asset adds: every declared artifact, all of which must be available.
pub open spec fn package_plan(
    c: ComponentFacts,
    pinned: PinnedFacts,
    target: Seq<char>,
    sysroot: Seq<char>,
    available: Seq<(Seq<char>, ResolvedFacts)>,
) -> Result<ContributionFacts, PlanErrorFacts> {
    if c.artifacts.len() == 0 {
        Err(
            PlanErrorFacts::ArtifactCardinality {
                component: c.name,
                kind: manifest::kind_tag(c.kind),
                method: "prebuilt"@,
                expected: "at least one"@,
                found: 0,
            },
        )
    } else if available.len() != c.artifacts.len() {
        Err(PlanErrorFacts::TargetUnsupported { component: c.name, target })
    } else {
        files_plan(c, pinned, sysroot, available, "prebuilt"@)
    }
}

/// What a command adds: every declared artifact, all of which must be available. It may declare none.
pub open spec fn command_plan(
    c: ComponentFacts,
    pinned: PinnedFacts,
    target: Seq<char>,
    sysroot: Seq<char>,
    available: Seq<(Seq<char>, ResolvedFacts)>,
) -> Result<ContributionFacts, PlanErrorFacts> {
    if available.len() != c.artifacts.len() {
        Err(PlanErrorFacts::TargetUnsupported { component: c.name, target })
    } else {
        files_plan(c, pinned, sysroot, available, "n/a"@)
    }
}

/// What a legacy package adds: one extraction.
pub open spec fn legacy_plan(
    c: ComponentFacts,
    pinned: PinnedFacts,
    sysroot: Seq<char>,
    method: PackageMethodFacts,
) -> Result<ContributionFacts, PlanErrorFacts> {
    if c.artifacts.len() > 0 {
        Err(
            PlanErrorFacts::ArtifactCardinality {
                component: c.name,
                kind: "legacy-package"@,
                method: "cargo"@,
                expected: "none -- a package with artifacts is a 'package'"@,
                found: c.artifacts.len(),
            },
        )
    } else {
        match destination::placed(c, manifest::package_name(c)->0, sysroot) {
            Err(e) => Err(PlanErrorFacts::Destination(e)),
            Ok(dest) => match method {
                PackageMethodFacts::Cargo { crate_name, features, extractor } => Ok(
                    ContributionFacts {
                        steps: seq![
                            StepFacts::ExtractPackage {
                                crate_name,
                                authority: pinned,
                                features,
                                extractor,
                                dest: dest.0,
                                owner: c.name,
                            },
                        ],
                        symlinks: Seq::empty(),
                        inputs: key::ComponentFacts {
                            installation_method: "cargo"@,
                            destinations: seq![key_destination(dest, sysroot)],
                            crate_name: Some(crate_name + "#"@ + extractor),
                            features: Some(features),
                            ..blank_inputs(c, pinned)
                        },
                        unit: Some(cargo_unit(pinned, crate_name)),
                    },
                ),
                PackageMethodFacts::Prebuilt => Err(
                    PlanErrorFacts::ArtifactCardinality {
                        component: c.name,
                        kind: "legacy-package"@,
                        method: "prebuilt"@,
                        expected: "artifacts, in which case declare it as a 'package'"@,
                        found: 0,
                    },
                ),
            },
        }
    }
}

/// What a component adds to a plan, by the component/artifact matrix.
pub open spec fn contribution(
    c: ComponentFacts,
    pinned: PinnedFacts,
    target: Seq<char>,
    sysroot: Seq<char>,
) -> Result<ContributionFacts, PlanErrorFacts> {
    match resolution::all_resolved(c.artifacts, target, c) {
        Err(e) => Err(PlanErrorFacts::Artifact(e)),
        Ok(available) => match c.kind {
            KindFacts::Executable { installation_method, spec } | KindFacts::CargoExtension {
                installation_method,
                spec,
            } => executable_plan(
                c,
                pinned,
                target,
                sysroot,
                available,
                installation_method,
                spec.installed_executable,
            ),
            KindFacts::Package | KindFacts::Asset => package_plan(
                c,
                pinned,
                target,
                sysroot,
                available,
            ),
            KindFacts::Command { .. } => command_plan(c, pinned, target, sysroot, available),
            KindFacts::LegacyPackage { installation_method, .. } => legacy_plan(
                c,
                pinned,
                sysroot,
                installation_method,
            ),
            // Never resolved; it installs nothing.
            KindFacts::Unsupported { tag, .. } => Err(
                PlanErrorFacts::Destination(
                    DestinationErrorFacts::NotInstallable { component: c.name, kind: tag },
                ),
            ),
        },
    }
}

/// What one component adds to a plan.
struct Contribution {
    steps: Vec<PlanStep>,
    symlinks: Vec<SymlinkSpec>,
    inputs: ComponentInputs,
    unit: Option<String>,
}

impl Contribution {
    spec fn facts(self) -> ContributionFacts {
        ContributionFacts {
            steps: self.steps.deep_view(),
            symlinks: self.symlinks.deep_view(),
            inputs: self.inputs.deep_view(),
            unit: self.unit.deep_view(),
        }
    }
}

/// Whether a contribution is the one that the facts give.
spec fn contributes(
    r: Result<Contribution, PlanError>,
    facts: Result<ContributionFacts, PlanErrorFacts>,
) -> bool {
    match r {
        Ok(c) => facts == Ok::<ContributionFacts, PlanErrorFacts>(c.facts()),
        Err(e) => facts == Err::<ContributionFacts, PlanErrorFacts>(e.deep_view()),
    }
}

fn tag_of(method: &InstallationMethod) -> (r: &'static str)
    ensures
        r@ == method_tag(method.deep_view()),
{
    match method {
        InstallationMethod::Prebuilt => "prebuilt",
        InstallationMethod::PrebuiltWithCargoFallback { .. } => "prebuilt-with-cargo-fallback",
        InstallationMethod::Cargo { .. } => "cargo",
    }
}

fn unit_of(pinned: &ResolvedAuthority, crate_name: &str) -> (r: String)
    ensures
        r@ == cargo_unit(pinned.deep_view(), crate_name@),
{
    let mut unit = pinned.identity();
    unit.append("#");
    unit.append(crate_name);
    unit
}

fn inputs_for(component: &Component, pinned: &ResolvedAuthority) -> (r: ComponentInputs)
    ensures
        r.deep_view() == blank_inputs(component.deep_view(), pinned.deep_view()),
{
    let mut inputs = ComponentInputs::default();
    inputs.name = component.name.clone();
    inputs.authority = pinned.identity();
    inputs.kind = component.kind().tag().to_owned();
    assert(inputs.deep_view() =~= blank_inputs(component.deep_view(), pinned.deep_view()));
    inputs
}

fn destination_input(destination: &Destination, sysroot: &str) -> (r: (String, u32))
    ensures
        r.deep_view() == key_destination(destination.deep_view(), sysroot@),
{
    (path::strip_base(destination.path.as_str(), sysroot), destination.mode)
}

fn input_of(id: &str, resolved: &ResolvedArtifact) -> (r: ArtifactInput)
    ensures
        r.deep_view() == artifact_input(id@, resolved.deep_view()),
{
    ArtifactInput {
        id: id.to_owned(),
        uri: resolved.uri.to_string(),
        archive: match &resolved.archive {
            Some(format) => Some(format.to_string()),
            None => None,
        },
    }
}

fn digest_of(component: &Component, id: &str) -> (r: Option<Digest>)
    ensures
        r.deep_view() == declared_digest(component.deep_view(), id@),
{
    let found = component.artifacts.artifacts.get(id);
    proof {
        sorted::lookup_with_values(
            component.artifacts.artifacts@,
            id@,
            |v: crate::artifact::Artifact| v.deep_view(),
        );
    }
    match found {
        Some(artifact) => match artifact.digest() {
            Some(digest) => Some(digest.clone()),
            None => None,
        },
        None => None,
    }
}

/// The step that transfers `resolved` to `destination`.
fn transfer(
    component: &Component,
    id: &str,
    resolved: &ResolvedArtifact,
    destination: &Destination,
    fallback: Option<PlanStep>,
) -> (r: PlanStep)
    ensures
        r.deep_view() == transfer_step(
            component.deep_view(),
            id@,
            resolved.deep_view(),
            destination.deep_view(),
            fallback.deep_view(),
        ),
{
    let digest = digest_of(component, id);
    let fallback = match fallback {
        Some(step) => Some(Box::new(step)),
        None => None,
    };
    match &resolved.uri {
        ArtifactUri::File(src) => PlanStep::CopyLocal {
            src: src.clone(),
            dest: destination.path.clone(),
            mode: destination.mode,
            owner: component.name.clone(),
            archive: resolved.archive.clone(),
            fallback,
        },
        ArtifactUri::Http(uri) => PlanStep::Download {
            uri: uri.clone(),
            dest: destination.path.clone(),
            mode: destination.mode,
            owner: component.name.clone(),
            digest,
            archive: resolved.archive.clone(),
            fallback,
        },
    }
}

/// The step that builds an executable with Cargo.
fn cargo_build(
    component: &Component,
    pinned: &ResolvedAuthority,
    crate_name: &String,
    rustup_channel: &Option<String>,
    features: &Vec<String>,
    executable: &str,
    dest: &String,
) -> (r: PlanStep)
    ensures
        r.deep_view() == cargo_step(
            component.deep_view(),
            pinned.deep_view(),
            crate_name@,
            rustup_channel.deep_view(),
            features.deep_view(),
            executable@,
            dest@,
        ),
{
    PlanStep::CargoBuild {
        crate_name: crate_name.clone(),
        authority: pinned.clone(),
        features: text::copy_all(features),
        rustup_channel: rustup_channel.clone(),
        expect_binary: executable.to_owned(),
        dest: dest.clone(),
        owner: component.name.clone(),
    }
}

fn shims_of(component: &Component, executable: &str) -> (r: (Vec<SymlinkSpec>, Vec<(String, String)>))
    ensures
        r.0.deep_view() == shims(component.deep_view(), executable@),
        r.1.deep_view() == shims(component.deep_view(), executable@),
{
    let mut symlinks: Vec<SymlinkSpec> = Vec::new();
    let mut inputs: Vec<(String, String)> = Vec::new();
    match component.get_symlink_name() {
        Some(name) => {
            symlinks.push(
                SymlinkSpec { name: name.clone(), target_binary: executable.to_owned() },
            );
            inputs.push((name, executable.to_owned()));
        },
        None => {},
    }
    proof {
        assert(symlinks.deep_view() =~= shims(component.deep_view(), executable@));
        assert(inputs.deep_view() =~= shims(component.deep_view(), executable@));
    }
    (symlinks, inputs)
}

fn plan_built(
    component: &Component,
    pinned: &ResolvedAuthority,
    sysroot: &str,
    method: &InstallationMethod,
    crate_name: &String,
    rustup_channel: &Option<String>,
    features: &Vec<String>,
    executable: &str,
    destination: &Destination,
) -> (r: Contribution)
    ensures
        r.facts() == built(
            component.deep_view(),
            pinned.deep_view(),
            sysroot@,
            method.deep_view(),
            crate_name@,
            rustup_channel.deep_view(),
            features.deep_view(),
            executable@,
            destination.deep_view(),
        ),
{
    let mut inputs = inputs_for(component, pinned);
    inputs.destinations.push(destination_input(destination, sysroot));
    inputs.installation_method = tag_of(method).to_owned();
    inputs.crate_name = Some(crate_name.clone());
    inputs.features = Some(text::copy_all(features));
    inputs.rustup_channel = rustup_channel.clone();
    let (symlinks, key_symlinks) = shims_of(component, executable);
    inputs.symlinks = key_symlinks;
    let mut steps: Vec<PlanStep> = Vec::new();
    steps.push(
        cargo_build(
            component,
            pinned,
            crate_name,
            rustup_channel,
            features,
            executable,
            &destination.path,
        ),
    );
    let r = Contribution {
        steps,
        symlinks,
        inputs,
        unit: Some(unit_of(pinned, crate_name.as_str())),
    };
    proof {
        let facts = built(
            component.deep_view(),
            pinned.deep_view(),
            sysroot@,
            method.deep_view(),
            crate_name@,
            rustup_channel.deep_view(),
            features.deep_view(),
            executable@,
            destination.deep_view(),
        );
        assert(r.facts().steps =~= facts.steps);
        assert(r.facts().inputs.destinations =~= facts.inputs.destinations);
        assert(r.facts().inputs.artifacts =~= facts.inputs.artifacts);
        assert(r.facts().inputs =~= facts.inputs);
    }
    r
}

fn plan_fetched(
    component: &Component,
    pinned: &ResolvedAuthority,
    sysroot: &str,
    method: &InstallationMethod,
    executable: &str,
    id: &str,
    resolved: &ResolvedArtifact,
    destination: &Destination,
    fallback: Option<PlanStep>,
) -> (r: Contribution)
    ensures
        r.facts() == fetched(
            component.deep_view(),
            pinned.deep_view(),
            sysroot@,
            method.deep_view(),
            executable@,
            id@,
            resolved.deep_view(),
            destination.deep_view(),
            fallback.deep_view(),
        ),
{
    let ghost held = fallback.deep_view();
    let mut inputs = inputs_for(component, pinned);
    inputs.destinations.push(destination_input(destination, sysroot));
    inputs.artifacts.push(input_of(id, resolved));
    inputs.installation_method = tag_of(method).to_owned();
    let (symlinks, key_symlinks) = shims_of(component, executable);
    inputs.symlinks = key_symlinks;
    let mut steps: Vec<PlanStep> = Vec::new();
    steps.push(transfer(component, id, resolved, destination, fallback));
    let r = Contribution { steps, symlinks, inputs, unit: None };
    proof {
        let facts = fetched(
            component.deep_view(),
            pinned.deep_view(),
            sysroot@,
            method.deep_view(),
            executable@,
            id@,
            resolved.deep_view(),
            destination.deep_view(),
            held,
        );
        assert(r.facts().steps =~= facts.steps);
        assert(r.facts().inputs.destinations =~= facts.inputs.destinations);
        assert(r.facts().inputs.artifacts =~= facts.inputs.artifacts);
        assert(r.facts().inputs =~= facts.inputs);
    }
    r
}

fn cardinality(
    component: &Component,
    kind: &str,
    method: &'static str,
    expected: &'static str,
    found: usize,
) -> (r: PlanError)
    ensures
        r.deep_view() == (PlanErrorFacts::ArtifactCardinality {
            component: component.deep_view().name,
            kind: kind@,
            method: method@,
            expected: expected@,
            found: found as nat,
        }),
{
    PlanError::ArtifactCardinality {
        component: component.name.clone(),
        kind: kind.to_owned(),
        method,
        expected,
        found,
    }
}

fn plan_executable(
    component: &Component,
    pinned: &ResolvedAuthority,
    target: &str,
    sysroot: &str,
    available: &Vec<(&str, ResolvedArtifact)>,
    method: &InstallationMethod,
    executable: &str,
) -> (r: Result<Contribution, PlanError>)
    ensures
        contributes(
            r,
            executable_plan(
                component.deep_view(),
                pinned.deep_view(),
                target@,
                sysroot@,
                available.deep_view(),
                method.deep_view(),
                executable@,
            ),
        ),
{
    let ghost c = component.deep_view();
    let declared = component.artifacts.artifacts.len();
    let kind_tag = component.kind().tag();
    if declared > 1 {
        return Err(cardinality(component, kind_tag, tag_of(method), "at most one", declared));
    }
    if declared == 1 {
        let id = component.artifacts.artifacts.key(0);
        assert(c.artifacts[0].0 == id@);
        if !text::same(id.as_str(), executable) {
            return Err(
                PlanError::ArtifactIdMismatch {
                    component: component.name.clone(),
                    artifact: id.clone(),
                    executable: executable.to_owned(),
                },
            );
        }
    }
    let destination = match destination::destination_for(component, executable, sysroot) {
        Ok(destination) => destination,
        Err(e) => return Err(PlanError::Destination(e)),
    };
    match method {
        InstallationMethod::Cargo { crate_name, rustup_channel, features } => {
            if declared > 0 {
                return Err(cardinality(component, kind_tag, "cargo", "none", declared));
            }
            Ok(
                plan_built(
                    component,
                    pinned,
                    sysroot,
                    method,
                    crate_name,
                    rustup_channel,
                    features,
                    executable,
                    &destination,
                ),
            )
        },
        InstallationMethod::Prebuilt => {
            if available.len() == 0 {
                // Nothing to install for this target is a failure, not an installation without
                // files.
                return Err(
                    PlanError::TargetUnsupported {
                        component: component.name.clone(),
                        target: target.to_owned(),
                    },
                );
            }
            assert(available.deep_view()[0] == (available@[0].0@, available@[0].1.deep_view()));
            Ok(
                plan_fetched(
                    component,
                    pinned,
                    sysroot,
                    method,
                    executable,
                    available[0].0,
                    &available[0].1,
                    &destination,
                    None,
                ),
            )
        },
        InstallationMethod::PrebuiltWithCargoFallback { crate_name, rustup_channel, features } => {
            if available.len() > 0 {
                assert(available.deep_view()[0] == (
                    available@[0].0@,
                    available@[0].1.deep_view(),
                ));
                let fallback = cargo_build(
                    component,
                    pinned,
                    crate_name,
                    rustup_channel,
                    features,
                    executable,
                    &destination.path,
                );
                Ok(
                    plan_fetched(
                        component,
                        pinned,
                        sysroot,
                        method,
                        executable,
                        available[0].0,
                        &available[0].1,
                        &destination,
                        Some(fallback),
                    ),
                )
            } else {
                Ok(
                    plan_built(
                        component,
                        pinned,
                        sysroot,
                        method,
                        crate_name,
                        rustup_channel,
                        features,
                        executable,
                        &destination,
                    ),
                )
            }
        },
    }
}

proof fn failed_transfers(
    c: ComponentFacts,
    available: Seq<(Seq<char>, ResolvedFacts)>,
    m: int,
    sysroot: Seq<char>,
)
    requires
        0 <= m <= available.len(),
        transfers(c, available.take(m), sysroot) is Err,
    ensures
        transfers(c, available, sysroot) == transfers(c, available.take(m), sysroot),
    decreases available.len() - m,
{
    if m < available.len() {
        assert(available.take(m + 1).drop_last() =~= available.take(m));
        failed_transfers(c, available, m + 1, sysroot);
    } else {
        assert(available.take(m) =~= available);
    }
}

fn plan_files(
    component: &Component,
    pinned: &ResolvedAuthority,
    sysroot: &str,
    available: &Vec<(&str, ResolvedArtifact)>,
    method: &str,
) -> (r: Result<Contribution, PlanError>)
    ensures
        contributes(
            r,
            files_plan(
                component.deep_view(),
                pinned.deep_view(),
                sysroot@,
                available.deep_view(),
                method@,
            ),
        ),
{
    let ghost c = component.deep_view();
    let ghost all = available.deep_view();
    let mut inputs = inputs_for(component, pinned);
    let ghost blank = inputs.deep_view();
    let mut steps: Vec<PlanStep> = Vec::new();
    let mut i: usize = 0;
    proof {
        assert(all.take(0) =~= Seq::empty());
        assert(steps.deep_view() =~= Seq::empty());
    }
    while i < available.len()
        invariant
            i <= available@.len(),
            c == component.deep_view(),
            all == available.deep_view(),
            inputs.deep_view() == (key::ComponentFacts {
                artifacts: inputs.artifacts.deep_view(),
                destinations: inputs.destinations.deep_view(),
                ..blank
            }),
            transfers(c, all.take(i as int), sysroot@) == Ok::<
                (Seq<StepFacts>, Seq<key::ArtifactFacts>, Seq<(Seq<char>, u32)>),
                DestinationErrorFacts,
            >((steps.deep_view(), inputs.artifacts.deep_view(), inputs.destinations.deep_view())),
        decreases available.len() - i,
    {
        let ghost (s, a, d) = (
            steps.deep_view(),
            inputs.artifacts.deep_view(),
            inputs.destinations.deep_view(),
        );
        proof {
            assert(all.take(i + 1).drop_last() =~= all.take(i as int));
            assert(all.take(i + 1).last() == all[i as int]);
            assert(all[i as int] == (
                available@[i as int].0@,
                available@[i as int].1.deep_view(),
            ));
        }
        let id = available[i].0;
        let resolved = &available[i].1;
        let destination = match destination::destination_for(component, id, sysroot) {
            Ok(destination) => destination,
            Err(e) => {
                proof {
                    failed_transfers(c, all, i + 1, sysroot@);
                }
                return Err(PlanError::Destination(e));
            },
        };
        inputs.destinations.push(destination_input(&destination, sysroot));
        inputs.artifacts.push(input_of(id, resolved));
        steps.push(transfer(component, id, resolved, &destination, None));
        proof {
            let dest = destination.deep_view();
            let r = resolved.deep_view();
            assert(inputs.destinations.deep_view() =~= d.push(key_destination(dest, sysroot@)));
            assert(inputs.artifacts.deep_view() =~= a.push(artifact_input(id@, r)));
            assert(steps.deep_view() =~= s.push(transfer_step(c, id@, r, dest, None)));
        }
        i += 1;
    }
    inputs.installation_method = method.to_owned();
    let symlinks: Vec<SymlinkSpec> = Vec::new();
    let r = Contribution { steps, symlinks, inputs, unit: None };
    proof {
        assert(all.take(i as int) =~= all);
        assert(r.facts().symlinks =~= Seq::empty());
    }
    Ok(r)
}

fn plan_legacy(
    component: &Component,
    pinned: &ResolvedAuthority,
    sysroot: &str,
    method: &PackageInstallationMethod,
) -> (r: Result<Contribution, PlanError>)
    requires
        component.deep_view().kind is LegacyPackage,
    ensures
        contributes(
            r,
            legacy_plan(
                component.deep_view(),
                pinned.deep_view(),
                sysroot@,
                method.deep_view(),
            ),
        ),
{
    let declared = component.artifacts.artifacts.len();
    if declared > 0 {
        return Err(
            cardinality(
                component,
                "legacy-package",
                "cargo",
                "none -- a package with artifacts is a 'package'",
                declared,
            ),
        );
    }
    let installed = component.installed_package_name().unwrap();
    let destination = match destination::destination_for(
        component,
        installed.as_str(),
        sysroot,
    ) {
        Ok(destination) => destination,
        Err(e) => return Err(PlanError::Destination(e)),
    };
    match method {
        PackageInstallationMethod::Cargo { crate_name, features, extractor } => {
            let mut inputs = inputs_for(component, pinned);
            inputs.destinations.push(destination_input(&destination, sysroot));
            let mut built_from = crate_name.clone();
            built_from.append("#");
            built_from.append(extractor.as_str());
            inputs.crate_name = Some(built_from);
            inputs.features = Some(text::copy_all(features));
            inputs.installation_method = "cargo".to_owned();
            let mut steps: Vec<PlanStep> = Vec::new();
            steps.push(
                PlanStep::ExtractPackage {
                    crate_name: crate_name.clone(),
                    authority: pinned.clone(),
                    features: text::copy_all(features),
                    extractor: extractor.clone(),
                    dest: destination.path,
                    owner: component.name.clone(),
                },
            );
            let symlinks: Vec<SymlinkSpec> = Vec::new();
            let r = Contribution {
                steps,
                symlinks,
                inputs,
                unit: Some(unit_of(pinned, crate_name.as_str())),
            };
            proof {
                let facts = legacy_plan(
                    component.deep_view(),
                    pinned.deep_view(),
                    sysroot@,
                    method.deep_view(),
                )->Ok_0;
                assert(r.facts().steps =~= facts.steps);
                assert(r.facts().symlinks =~= facts.symlinks);
                assert(r.facts().inputs.destinations =~= facts.inputs.destinations);
                assert(r.facts().inputs.artifacts =~= facts.inputs.artifacts);
                assert(r.facts().inputs.symlinks =~= facts.inputs.symlinks);
                assert(r.facts().inputs =~= facts.inputs);
            }
            Ok(r)
        },
        PackageInstallationMethod::Prebuilt => Err(
            cardinality(
                component,
                "legacy-package",
                "prebuilt",
                "artifacts, in which case declare it as a 'package'",
                0,
            ),
        ),
    }
}

/// Enforces the component/artifact matrix for one component and emits its steps.
fn plan_component(
    component: &Component,
    pinned: &ResolvedAuthority,
    target: &str,
    sysroot: &str,
) -> (r: Result<Contribution, PlanError>)
    ensures
        contributes(
            r,
            contribution(component.deep_view(), pinned.deep_view(), target@, sysroot@),
        ),
{
    let available = match component.artifacts.get_artifacts_for_target(target, component) {
        Ok(available) => available,
        Err(e) => return Err(PlanError::Artifact(e)),
    };
    match component.kind() {
        ComponentKind::Executable { installation_method, spec }
        | ComponentKind::CargoExtension { installation_method, spec } => plan_executable(
            component,
            pinned,
            target,
            sysroot,
            &available,
            installation_method,
            spec.installed_executable.as_str(),
        ),
        ComponentKind::Package | ComponentKind::Asset => {
            let declared = component.artifacts.artifacts.len();
            if declared == 0 {
                return Err(
                    cardinality(component, component.kind().tag(), "prebuilt", "at least one", 0),
                );
            }
            // Every declared artifact is required: a partial install is not a success.
            if available.len() != declared {
                return Err(
                    PlanError::TargetUnsupported {
                        component: component.name.clone(),
                        target: target.to_owned(),
                    },
                );
            }
            plan_files(component, pinned, sysroot, &available, "prebuilt")
        },
        // A command may install nothing at all; it is still a real component. What it does declare
        // is required.
        ComponentKind::Command { .. } => {
            if available.len() != component.artifacts.artifacts.len() {
                return Err(
                    PlanError::TargetUnsupported {
                        component: component.name.clone(),
                        target: target.to_owned(),
                    },
                );
            }
            plan_files(component, pinned, sysroot, &available, "n/a")
        },
        ComponentKind::LegacyPackage { installation_method, .. } => plan_legacy(
            component,
            pinned,
            sysroot,
            installation_method,
        ),
        ComponentKind::Unsupported { tag, .. } => Err(
            PlanError::Destination(
                DestinationError::NotInstallable {
                    component: component.name.clone(),
                    kind: tag.clone(),
                },
            ),
        ),
    }
}

// ---------------------------------------------------------------------------------------------
// The whole plan

/// What has been planned so far.
#[verifier::ext_equal]
pub struct DraftFacts {
    pub steps: Seq<StepFacts>,
    pub symlinks: Seq<(Seq<char>, Seq<char>)>,
    pub inputs: Seq<key::ComponentFacts>,
    /// The Cargo packages that are built, as `(package, owner)`.
    pub units: Seq<(Seq<char>, Seq<char>)>,
}

/// The first to claim a Cargo package, other than `name`.
pub open spec fn rival_builder(
    units: Seq<(Seq<char>, Seq<char>)>,
    unit: Seq<char>,
    name: Seq<char>,
) -> Option<Seq<char>>
    decreases units.len(),
{
    if units.len() == 0 {
        None
    } else if units[0].0 == unit && units[0].1 != name {
        Some(units[0].1)
    } else {
        rival_builder(units.drop_first(), unit, name)
    }
}

/// The owner of the first of the steps before position `n`, from position `k` on, that installs to
/// `dest`.
pub open spec fn claimant(steps: Seq<StepFacts>, dest: Seq<char>, k: int, n: int) -> Option<Seq<char>>
    decreases n - k,
{
    if k >= n {
        None
    } else if path::same_place(steps[k].dest(), dest) {
        Some(steps[k].owner())
    } else {
        claimant(steps, dest, k + 1, n)
    }
}

/// The first of the steps of `name`, from position `n` on, that installs to a path which an earlier
/// step installs to. A component that collides with itself is reported like one that collides with
/// another.
pub open spec fn collision(steps: Seq<StepFacts>, name: Seq<char>, n: int) -> Option<PlanErrorFacts>
    decreases steps.len() - n,
{
    if n >= steps.len() {
        None
    } else if steps[n].owner() == name && claimant(steps, steps[n].dest(), 0, n) is Some {
        Some(
            PlanErrorFacts::DestinationCollision {
                first: claimant(steps, steps[n].dest(), 0, n)->0,
                second: name,
                path: steps[n].dest(),
            },
        )
    } else {
        collision(steps, name, n + 1)
    }
}

/// A draft with the contribution of a component added, unless the component builds a package that
/// another one builds, or installs to a path that is installed to already.
pub open spec fn extended(
    draft: DraftFacts,
    name: Seq<char>,
    added: ContributionFacts,
) -> Result<DraftFacts, PlanErrorFacts> {
    let steps = draft.steps + added.steps;
    if added.unit is Some && rival_builder(draft.units, added.unit->0, name) is Some {
        Err(
            PlanErrorFacts::CargoUnitConflict {
                unit: added.unit->0,
                first: rival_builder(draft.units, added.unit->0, name)->0,
                second: name,
            },
        )
    } else if collision(steps, name, 0) is Some {
        Err(collision(steps, name, 0)->0)
    } else {
        Ok(
            DraftFacts {
                steps,
                symlinks: draft.symlinks + added.symlinks,
                inputs: draft.inputs.push(added.inputs),
                units: match added.unit {
                    Some(unit) => draft.units.push((unit, name)),
                    None => draft.units,
                },
            },
        )
    }
}

/// The draft for the first `n` components, each with its pinned authority.
pub open spec fn drafted(
    components: Seq<ComponentFacts>,
    pins: Seq<Result<PinnedFacts, Seq<char>>>,
    target: Seq<char>,
    sysroot: Seq<char>,
    n: int,
) -> Result<DraftFacts, PlanErrorFacts>
    decreases n,
{
    if n <= 0 {
        Ok(
            DraftFacts {
                steps: Seq::empty(),
                symlinks: Seq::empty(),
                inputs: Seq::empty(),
                units: Seq::empty(),
            },
        )
    } else {
        match drafted(components, pins, target, sysroot, n - 1) {
            Err(e) => Err(e),
            Ok(draft) => match pins[n - 1] {
                Err(message) => Err(PlanErrorFacts::Pin(message)),
                Ok(pinned) => match contribution(components[n - 1], pinned, target, sysroot) {
                    Err(e) => Err(e),
                    Ok(added) => extended(draft, components[n - 1].name, added),
                },
            },
        }
    }
}

/// A fully resolved, target-specific description of an installation.
#[derive(Debug, PartialEq, Eq)]
pub struct InstallationPlan {
    pub target: String,
    pub channel: Version,
    /// Dependency order: a component's requirements appear before it.
    pub steps: Vec<PlanStep>,
    pub symlinks: Vec<SymlinkSpec>,
    pub key: PlanKey,
}

/// What an [`InstallationPlan`] holds.
#[verifier::ext_equal]
pub struct PlanFacts {
    pub target: Seq<char>,
    pub channel: Seq<char>,
    pub steps: Seq<StepFacts>,
    pub symlinks: Seq<(Seq<char>, Seq<char>)>,
    pub key: Seq<char>,
}

impl DeepView for InstallationPlan {
    type V = PlanFacts;

    open spec fn deep_view(&self) -> PlanFacts {
        PlanFacts {
            target: self.target@,
            channel: self.channel@,
            steps: self.steps.deep_view(),
            symlinks: self.symlinks.deep_view(),
            key: self.key@,
        }
    }
}

/// The plan for a list of components, dependencies first.
pub open spec fn planned(
    channel: Seq<char>,
    components: Seq<ComponentFacts>,
    pins: Seq<Result<PinnedFacts, Seq<char>>>,
    target: Seq<char>,
    sysroot: Seq<char>,
) -> Result<PlanFacts, PlanErrorFacts> {
    match drafted(components, pins, target, sysroot, components.len() as int) {
        Err(e) => Err(e),
        Ok(draft) => Ok(
            PlanFacts {
                target,
                channel,
                steps: draft.steps,
                symlinks: draft.symlinks,
                key: key::key_of(KeyFacts { target, components: draft.inputs }),
            },
        ),
    }
}

/// What became of pinning each component's authority.
pub open spec fn pins_facts(pins: Seq<Result<ResolvedAuthority, PinError>>) -> Seq<
    Result<PinnedFacts, Seq<char>>,
> {
    pins.map_values(|r: Result<ResolvedAuthority, PinError>| authority::pinned(r))
}

/// Whether a plan is the one that the facts give.
pub open spec fn plans(
    r: Result<InstallationPlan, PlanError>,
    facts: Result<PlanFacts, PlanErrorFacts>,
) -> bool {
    match r {
        Ok(plan) => facts == Ok::<PlanFacts, PlanErrorFacts>(plan.deep_view()),
        Err(e) => facts == Err::<PlanFacts, PlanErrorFacts>(e.deep_view()),
    }
}

proof fn failed_draft(
    components: Seq<ComponentFacts>,
    pins: Seq<Result<PinnedFacts, Seq<char>>>,
    target: Seq<char>,
    sysroot: Seq<char>,
    m: int,
    n: int,
)
    requires
        0 <= m <= n,
        drafted(components, pins, target, sysroot, m) is Err,
    ensures
        drafted(components, pins, target, sysroot, n) == drafted(
            components,
            pins,
            target,
            sysroot,
            m,
        ),
    decreases n - m,
{
    if m < n {
        failed_draft(components, pins, target, sysroot, m, n - 1);
    }
}

fn find_rival_builder(units: &Vec<(String, String)>, unit: &str, name: &str) -> (r: Option<String>)
    ensures
        r.deep_view() == rival_builder(units.deep_view(), unit@, name@),
{
    let ghost all = units.deep_view();
    let mut i: usize = 0;
    assert(all.skip(0) =~= all);
    while i < units.len()
        invariant
            i <= units@.len(),
            all == units.deep_view(),
            rival_builder(all, unit@, name@) == rival_builder(all.skip(i as int), unit@, name@),
        decreases units.len() - i,
    {
        assert(all.skip(i as int)[0] == (units@[i as int].0@, units@[i as int].1@));
        assert(all.skip(i as int).drop_first() =~= all.skip(i + 1));
        if text::same(units[i].0.as_str(), unit) && !text::same(units[i].1.as_str(), name) {
            return Some(units[i].1.clone());
        }
        i += 1;
    }
    None
}

fn find_claimant(steps: &Vec<PlanStep>, n: usize) -> (r: Option<String>)
    requires
        n < steps@.len(),
    ensures
        r.deep_view() == claimant(
            steps.deep_view(),
            steps.deep_view()[n as int].dest(),
            0,
            n as int,
        ),
{
    let ghost all = steps.deep_view();
    let dest = steps[n].dest();
    assert(dest@ == all[n as int].dest());
    let mut i: usize = 0;
    while i < n
        invariant
            i <= n < steps@.len(),
            all == steps.deep_view(),
            dest@ == all[n as int].dest(),
            claimant(all, dest@, 0, n as int) == claimant(all, dest@, i as int, n as int),
        decreases n - i,
    {
        assert(all[i as int] == steps@[i as int].deep_view());
        if path::same(steps[i].dest(), dest) {
            return Some(steps[i].owner().to_owned());
        }
        i += 1;
    }
    None
}

fn find_collision(steps: &Vec<PlanStep>, name: &str) -> (r: Option<PlanError>)
    ensures
        r.deep_view() == collision(steps.deep_view(), name@, 0),
{
    let ghost all = steps.deep_view();
    let mut i: usize = 0;
    while i < steps.len()
        invariant
            i <= steps@.len(),
            all == steps.deep_view(),
            collision(all, name@, 0) == collision(all, name@, i as int),
        decreases steps.len() - i,
    {
        assert(all[i as int] == steps@[i as int].deep_view());
        if text::same(steps[i].owner(), name) {
            if let Some(first) = find_claimant(steps, i) {
                return Some(
                    PlanError::DestinationCollision {
                        first,
                        second: name.to_owned(),
                        path: steps[i].dest().to_owned(),
                    },
                );
            }
        }
        i += 1;
    }
    None
}

proof fn deep_concat<T: DeepView>(a: Vec<T>, b: Vec<T>, c: Vec<T>)
    requires
        c@ == a@ + b@,
    ensures
        c.deep_view() == a.deep_view() + b.deep_view(),
{
    assert(c.deep_view() =~= a.deep_view() + b.deep_view());
}

fn key_for(target: &str, components: Vec<ComponentInputs>) -> (key: PlanKey)
    ensures
        key@ == key::key_of(KeyFacts { target: target@, components: components.deep_view() }),
{
    key::compute(&KeyInputs { target: target.to_owned(), components })
}

/// Plans the installation of `components`, dependencies first, onto `target`, rooted at `sysroot`.
/// `pins` holds what became of pinning each component's authority.
pub fn build_in(
    channel: &Version,
    components: &Vec<&Component>,
    pins: &Vec<Result<ResolvedAuthority, PinError>>,
    target: &str,
    sysroot: &str,
) -> (r: Result<InstallationPlan, PlanError>)
    requires
        pins@.len() == components@.len(),
    ensures
        plans(
            r,
            planned(
                channel@,
                components.deep_view(),
                pins_facts(pins@),
                target@,
                sysroot@,
            ),
        ),
{
    let ghost all = components.deep_view();
    let ghost pinned_all = pins_facts(pins@);
    let mut steps: Vec<PlanStep> = Vec::new();
    let mut symlinks: Vec<SymlinkSpec> = Vec::new();
    let mut inputs: Vec<ComponentInputs> = Vec::new();
    let mut units: Vec<(String, String)> = Vec::new();
    let mut i: usize = 0;
    proof {
        assert(steps.deep_view() =~= Seq::empty());
        assert(symlinks.deep_view() =~= Seq::empty());
        assert(inputs.deep_view() =~= Seq::empty());
        assert(units.deep_view() =~= Seq::empty());
    }
    while i < components.len()
        invariant
            i <= components@.len(),
            pins@.len() == components@.len(),
            all == components.deep_view(),
            pinned_all == pins_facts(pins@),
            drafted(all, pinned_all, target@, sysroot@, i as int) == Ok::<
                DraftFacts,
                PlanErrorFacts,
            >(
                DraftFacts {
                    steps: steps.deep_view(),
                    symlinks: symlinks.deep_view(),
                    inputs: inputs.deep_view(),
                    units: units.deep_view(),
                },
            ),
        decreases components.len() - i,
    {
        let component = components[i];
        let ghost c = component.deep_view();
        let ghost before = DraftFacts {
            steps: steps.deep_view(),
            symlinks: symlinks.deep_view(),
            inputs: inputs.deep_view(),
            units: units.deep_view(),
        };
        proof {
            assert(all[i as int] == c);
            assert(pinned_all[i as int] == authority::pinned(pins@[i as int]));
            if drafted(all, pinned_all, target@, sysroot@, i + 1) is Err {
                failed_draft(all, pinned_all, target@, sysroot@, i + 1, all.len() as int);
            }
        }
        let pinned = match &pins[i] {
            Ok(pinned) => pinned,
            Err(e) => return Err(PlanError::Pin(e.clone())),
        };
        let added = match plan_component(component, pinned, target, sysroot) {
            Ok(added) => added,
            Err(e) => return Err(e),
        };
        let ghost facts = added.facts();
        if let Some(unit) = &added.unit {
            if let Some(first) = find_rival_builder(
                &units,
                unit.as_str(),
                component.name.as_str(),
            ) {
                return Err(
                    PlanError::CargoUnitConflict {
                        unit: unit.clone(),
                        first,
                        second: component.name.clone(),
                    },
                );
            }
        }
        let ghost (steps_before, symlinks_before) = (steps, symlinks);
        let Contribution { steps: more_steps, symlinks: more_symlinks, inputs: own, unit } = added;
        let ghost (steps_more, symlinks_more) = (more_steps, more_symlinks);
        let mut more_steps = more_steps;
        let mut more_symlinks = more_symlinks;
        steps.append(&mut more_steps);
        proof {
            deep_concat(steps_before, steps_more, steps);
        }
        if let Some(e) = find_collision(&steps, component.name.as_str()) {
            return Err(e);
        }
        symlinks.append(&mut more_symlinks);
        inputs.push(own);
        if let Some(unit) = unit {
            units.push((unit, component.name.clone()));
        }
        proof {
            deep_concat(symlinks_before, symlinks_more, symlinks);
            assert(inputs.deep_view() =~= before.inputs.push(facts.inputs));
            assert(units.deep_view() =~= match facts.unit {
                Some(unit) => before.units.push((unit, c.name)),
                None => before.units,
            });
        }
        i += 1;
    }
    let key = key_for(target, inputs);
    Ok(
        InstallationPlan {
            target: target.to_owned(),
            channel: channel.clone(),
            steps,
            symlinks,
            key,
        },
    )
}

/// The plan for installing what `intent` selects from a channel.
pub open spec fn planned_from(
    channel: ChannelFacts,
    intent: IntentFacts,
    pins: Seq<Result<PinnedFacts, Seq<char>>>,
    target: Seq<char>,
    sysroot: Seq<char>,
) -> Result<PlanFacts, PlanErrorFacts> {
    match resolve::resolved(channel.components, intent) {
        Err(e) => Err(PlanErrorFacts::Resolution(e)),
        Ok(order) => planned(
            channel.name,
            resolve::picked(channel.components, order),
            pins,
            target,
            sysroot,
        ),
    }
}

/// Builds the plan for installing `intent` from `channel` onto `target`, rooted at `sysroot`.
///
/// `pins` holds what became of pinning the authority of each component that
/// [`resolve::resolve`] selects, in its order.
pub fn build(
    channel: &Channel,
    intent: &Intent,
    pins: &Vec<Result<ResolvedAuthority, PinError>>,
    target: &str,
    sysroot: &str,
) -> (r: Result<InstallationPlan, PlanError>)
    requires
        resolve::resolved(channel.deep_view().components, intent.deep_view()) matches Ok(order)
            ==> pins@.len() == order.len(),
    ensures
        plans(
            r,
            planned_from(
                channel.deep_view(),
                intent.deep_view(),
                pins_facts(pins@),
                target@,
                sysroot@,
            ),
        ),
{
    let components = match resolve::resolve(channel, intent) {
        Ok(components) => components,
        Err(e) => return Err(PlanError::Resolution(e)),
    };
    assert(components.deep_view().len() == components@.len());
    build_in(&channel.name, &components, pins, target, sysroot)
}

/// The root that a component's key is computed for. Destinations enter the key relative to it, so
/// the answer does not depend on where the toolchain happens to live.
pub open spec fn notional_sysroot() -> Seq<char> {
    "/sysroot"@
}

/// The plan key contribution of one component, computed in isolation.
pub open spec fn component_key_facts(
    c: ComponentFacts,
    pin: Result<PinnedFacts, Seq<char>>,
    target: Seq<char>,
) -> Result<Seq<char>, PlanErrorFacts> {
    match pin {
        Err(message) => Err(PlanErrorFacts::Pin(message)),
        Ok(pinned) => match contribution(c, pinned, target, notional_sysroot()) {
            Err(e) => Err(e),
            Ok(added) => Ok(
                key::key_of(KeyFacts { target, components: seq![added.inputs] }),
            ),
        },
    }
}

/// Computes the plan key contribution of one component, given what became of pinning its authority.
///
/// A component needs reinstallation exactly where this changes.
pub fn component_key(
    component: &Component,
    pin: &Result<ResolvedAuthority, PinError>,
    target: &str,
) -> (r: Result<PlanKey, PlanError>)
    ensures
        match r {
            Ok(k) => component_key_facts(
                component.deep_view(),
                authority::pinned(*pin),
                target@,
            ) == Ok::<Seq<char>, PlanErrorFacts>(k@),
            Err(e) => component_key_facts(
                component.deep_view(),
                authority::pinned(*pin),
                target@,
            ) == Err::<Seq<char>, PlanErrorFacts>(e.deep_view()),
        },
{
    let pinned = match pin {
        Ok(pinned) => pinned,
        Err(e) => return Err(PlanError::Pin(e.clone())),
    };
    let added = match plan_component(component, pinned, target, "/sysroot") {
        Ok(added) => added,
        Err(e) => return Err(e),
    };
    let ghost facts = added.facts();
    let mut inputs: Vec<ComponentInputs> = Vec::new();
    inputs.push(added.inputs);
    assert(inputs.deep_view() =~= seq![facts.inputs]);
    let key_inputs = KeyInputs { target: target.to_owned(), components: inputs };
    Ok(key::compute(&key_inputs))
}

} // verus!
