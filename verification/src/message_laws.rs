//! What the messages of the library name.

use vstd::prelude::*;

use crate::artifact;
use crate::artifact::InvalidArtifactFacts;
use crate::install::archive;
use crate::install::archive::ArchiveErrorFacts;
use crate::install::cargo;
use crate::install::cargo::CargoErrorFacts;
use crate::install::stage;
use crate::install::stage::StageErrorFacts;
use crate::plan::destination;
use crate::plan::destination::DestinationErrorFacts;
use crate::plan::planner;
use crate::plan::planner::PlanErrorFacts;
use crate::resolve;
use crate::resolve::ResolutionFacts;
use crate::text;
use crate::text_laws;
use crate::update::error;
use crate::update::error::UpdateErrorFacts;

verus! {

/// Whether a message names all of these, one behind the other.
pub open spec fn names_all(message: Seq<char>, parts: Seq<Seq<char>>) -> bool
    decreases parts.len(),
{
    parts.len() == 0 || exists|i: int| #[trigger]
        text::occurs_at(message, parts[0], i) && names_all(
            message.skip(i + parts[0].len() as int),
            parts.drop_first(),
        )
}

proof fn names_one(
    front: Seq<char>,
    part: Seq<char>,
    rest: Seq<char>,
    parts: Seq<Seq<char>>,
)
    requires
        names_all(rest, parts),
    ensures
        names_all(front + part + rest, seq![part] + parts),
{
    let message = front + part + rest;
    let n = front.len() as int;
    text_laws::occurrences(front, part, rest);
    assert(message.skip(n + part.len() as int) =~= rest);
    assert((seq![part] + parts).drop_first() =~= parts);
    assert(text::occurs_at(message, (seq![part] + parts)[0], n));
}

/// What is said of a failed build names the arguments and the status, or the crate and what is wrong
/// with its files.
pub proof fn builds_that_fail_are_named(e: CargoErrorFacts)
    ensures
        match e {
            CargoErrorFacts::Spawn(message) => names_all(
                cargo::cargo_error_text(e),
                seq![message],
            ),
            CargoErrorFacts::Failed { argv, status } => names_all(
                cargo::cargo_error_text(e),
                seq![argv, status],
            ),
            CargoErrorFacts::MissingBinary { crate_name, expected, dest } => names_all(
                cargo::cargo_error_text(e),
                seq![crate_name, expected, dest],
            ),
            CargoErrorFacts::UnexpectedBinaries { crate_name, unexpected } => names_all(
                cargo::cargo_error_text(e),
                seq![crate_name, text::joined(unexpected, ", "@)],
            ),
        },
{
    match e {
        CargoErrorFacts::Spawn(message) => {
            let rest = Seq::<char>::empty();
            let parts = Seq::<Seq<char>>::empty();
            let front = "failed to run cargo: "@;
            names_one(front, message, rest, parts);
            let rest = front + message + rest;
            let parts = seq![message] + parts;
            assert(cargo::cargo_error_text(e) =~= rest);
            assert(parts =~= seq![message]);
        },
        CargoErrorFacts::Failed { argv, status } => {
            let rest = Seq::<char>::empty();
            let parts = Seq::<Seq<char>>::empty();
            let front = "` exited with "@;
            names_one(front, status, rest, parts);
            let rest = front + status + rest;
            let parts = seq![status] + parts;
            let front = "`cargo "@;
            names_one(front, argv, rest, parts);
            let rest = front + argv + rest;
            let parts = seq![argv] + parts;
            assert(cargo::cargo_error_text(e) =~= rest);
            assert(parts =~= seq![argv, status]);
        },
        CargoErrorFacts::MissingBinary { crate_name, expected, dest } => {
            let rest = "'"@;
            let parts = Seq::<Seq<char>>::empty();
            let front = "' at '"@;
            names_one(front, dest, rest, parts);
            let rest = front + dest + rest;
            let parts = seq![dest] + parts;
            let front = "' did not produce the expected binary '"@;
            names_one(front, expected, rest, parts);
            let rest = front + expected + rest;
            let parts = seq![expected] + parts;
            let front = "the build of '"@;
            names_one(front, crate_name, rest, parts);
            let rest = front + crate_name + rest;
            let parts = seq![crate_name] + parts;
            assert(cargo::cargo_error_text(e) =~= rest);
            assert(parts =~= seq![crate_name, expected, dest]);
        },
        CargoErrorFacts::UnexpectedBinaries { crate_name, unexpected } => {
            let rest = Seq::<char>::empty();
            let parts = Seq::<Seq<char>>::empty();
            let front = "' produced unexpected binaries: "@;
            names_one(front, text::joined(unexpected, ", "@), rest, parts);
            let rest = front + text::joined(unexpected, ", "@) + rest;
            let parts = seq![text::joined(unexpected, ", "@)] + parts;
            let front = "the build of '"@;
            names_one(front, crate_name, rest, parts);
            let rest = front + crate_name + rest;
            let parts = seq![crate_name] + parts;
            assert(cargo::cargo_error_text(e) =~= rest);
            assert(parts =~= seq![crate_name, text::joined(unexpected, ", "@)]);
        },
    }
}

/// What is said of a staged tree names the component and the file that it is about, and of a mode first
/// the one that was found.
pub proof fn trees_that_fail_are_named(e: StageErrorFacts)
    ensures
        match e {
            StageErrorFacts::Acquire(message) => names_all(
                stage::stage_error_text(e),
                seq![message],
            ),
            StageErrorFacts::Cargo(_) => true,
            StageErrorFacts::Extract(message) => names_all(
                stage::stage_error_text(e),
                seq![message],
            ),
            StageErrorFacts::Create { path, source } => names_all(
                stage::stage_error_text(e),
                seq![path, source],
            ),
            StageErrorFacts::Missing { owner, path } => names_all(
                stage::stage_error_text(e),
                seq![owner, path],
            ),
            StageErrorFacts::NotAFile { owner, path } => names_all(
                stage::stage_error_text(e),
                seq![owner, path],
            ),
            StageErrorFacts::WrongMode { owner, path, expected, found } => names_all(
                stage::stage_error_text(e),
                seq![owner, path, text::octal(found as nat), text::octal(expected as nat)],
            ),
            StageErrorFacts::MissingSymlink { path } => names_all(
                stage::stage_error_text(e),
                seq![path],
            ),
            StageErrorFacts::Seed { path, source } => names_all(
                stage::stage_error_text(e),
                seq![path, source],
            ),
            StageErrorFacts::UnsupportedFallback { owner } => names_all(
                stage::stage_error_text(e),
                seq![owner],
            ),
        },
{
    match e {
        StageErrorFacts::Acquire(message) => {
            let rest = Seq::<char>::empty();
            let parts = Seq::<Seq<char>>::empty();
            let front = Seq::<char>::empty();
            names_one(front, message, rest, parts);
            let rest = front + message + rest;
            let parts = seq![message] + parts;
            assert(stage::stage_error_text(e) =~= rest);
            assert(parts =~= seq![message]);
        },
        StageErrorFacts::Cargo(_) => {},
        StageErrorFacts::Extract(message) => {
            let rest = Seq::<char>::empty();
            let parts = Seq::<Seq<char>>::empty();
            let front = Seq::<char>::empty();
            names_one(front, message, rest, parts);
            let rest = front + message + rest;
            let parts = seq![message] + parts;
            assert(stage::stage_error_text(e) =~= rest);
            assert(parts =~= seq![message]);
        },
        StageErrorFacts::Create { path, source } => {
            let rest = Seq::<char>::empty();
            let parts = Seq::<Seq<char>>::empty();
            let front = "': "@;
            names_one(front, source, rest, parts);
            let rest = front + source + rest;
            let parts = seq![source] + parts;
            let front = "failed to create '"@;
            names_one(front, path, rest, parts);
            let rest = front + path + rest;
            let parts = seq![path] + parts;
            assert(stage::stage_error_text(e) =~= rest);
            assert(parts =~= seq![path, source]);
        },
        StageErrorFacts::Missing { owner, path } => {
            let rest = "' is missing"@;
            let parts = Seq::<Seq<char>>::empty();
            let front = "' was installed, but '"@;
            names_one(front, path, rest, parts);
            let rest = front + path + rest;
            let parts = seq![path] + parts;
            let front = "component '"@;
            names_one(front, owner, rest, parts);
            let rest = front + owner + rest;
            let parts = seq![owner] + parts;
            assert(stage::stage_error_text(e) =~= rest);
            assert(parts =~= seq![owner, path]);
        },
        StageErrorFacts::NotAFile { owner, path } => {
            let rest = "', but it is not a regular file"@;
            let parts = Seq::<Seq<char>>::empty();
            let front = "' installed '"@;
            names_one(front, path, rest, parts);
            let rest = front + path + rest;
            let parts = seq![path] + parts;
            let front = "component '"@;
            names_one(front, owner, rest, parts);
            let rest = front + owner + rest;
            let parts = seq![owner] + parts;
            assert(stage::stage_error_text(e) =~= rest);
            assert(parts =~= seq![owner, path]);
        },
        StageErrorFacts::WrongMode { owner, path, expected, found } => {
            let rest = Seq::<char>::empty();
            let parts = Seq::<Seq<char>>::empty();
            let front = ", expected "@;
            names_one(front, text::octal(expected as nat), rest, parts);
            let rest = front + text::octal(expected as nat) + rest;
            let parts = seq![text::octal(expected as nat)] + parts;
            let front = "' with mode "@;
            names_one(front, text::octal(found as nat), rest, parts);
            let rest = front + text::octal(found as nat) + rest;
            let parts = seq![text::octal(found as nat)] + parts;
            let front = "' installed '"@;
            names_one(front, path, rest, parts);
            let rest = front + path + rest;
            let parts = seq![path] + parts;
            let front = "component '"@;
            names_one(front, owner, rest, parts);
            let rest = front + owner + rest;
            let parts = seq![owner] + parts;
            assert(stage::stage_error_text(e) =~= rest);
            assert(parts =~= seq![owner, path, text::octal(found as nat), text::octal(expected as nat)]);
        },
        StageErrorFacts::MissingSymlink { path } => {
            let rest = "' was not created"@;
            let parts = Seq::<Seq<char>>::empty();
            let front = "the shim '"@;
            names_one(front, path, rest, parts);
            let rest = front + path + rest;
            let parts = seq![path] + parts;
            assert(stage::stage_error_text(e) =~= rest);
            assert(parts =~= seq![path]);
        },
        StageErrorFacts::Seed { path, source } => {
            let rest = Seq::<char>::empty();
            let parts = Seq::<Seq<char>>::empty();
            let front = "' forward from the previous installation: "@;
            names_one(front, source, rest, parts);
            let rest = front + source + rest;
            let parts = seq![source] + parts;
            let front = "failed to carry '"@;
            names_one(front, path, rest, parts);
            let rest = front + path + rest;
            let parts = seq![path] + parts;
            assert(stage::stage_error_text(e) =~= rest);
            assert(parts =~= seq![path, source]);
        },
        StageErrorFacts::UnsupportedFallback { owner } => {
            let rest = "' declares a fallback that cannot be executed as one"@;
            let parts = Seq::<Seq<char>>::empty();
            let front = "component '"@;
            names_one(front, owner, rest, parts);
            let rest = front + owner + rest;
            let parts = seq![owner] + parts;
            assert(stage::stage_error_text(e) =~= rest);
            assert(parts =~= seq![owner]);
        },
    }
}

/// What is said of an archive names where it was fetched from, and why it cannot be read.
pub proof fn archives_that_fail_are_named(e: ArchiveErrorFacts)
    ensures
        match e {
            ArchiveErrorFacts::Malformed { uri, reason } => names_all(
                archive::archive_error_text(e),
                seq![uri, reason],
            ),
            ArchiveErrorFacts::NonZeroFiles { uri } => names_all(
                archive::archive_error_text(e),
                seq![uri],
            ),
            ArchiveErrorFacts::Empty { uri } => names_all(
                archive::archive_error_text(e),
                seq![uri],
            ),
            ArchiveErrorFacts::UnsupportedFormat { uri, format } => names_all(
                archive::archive_error_text(e),
                seq![uri, format],
            ),
        },
{
    match e {
        ArchiveErrorFacts::Malformed { uri, reason } => {
            let rest = Seq::<char>::empty();
            let parts = Seq::<Seq<char>>::empty();
            let front = "': "@;
            names_one(front, reason, rest, parts);
            let rest = front + reason + rest;
            let parts = seq![reason] + parts;
            let front = "failed to read the archive fetched from '"@;
            names_one(front, uri, rest, parts);
            let rest = front + uri + rest;
            let parts = seq![uri] + parts;
            assert(archive::archive_error_text(e) =~= rest);
            assert(parts =~= seq![uri, reason]);
        },
        ArchiveErrorFacts::NonZeroFiles { uri } => {
            let rest = "' contains more than one file"@;
            let parts = Seq::<Seq<char>>::empty();
            let front = "the archive fetched from '"@;
            names_one(front, uri, rest, parts);
            let rest = front + uri + rest;
            let parts = seq![uri] + parts;
            assert(archive::archive_error_text(e) =~= rest);
            assert(parts =~= seq![uri]);
        },
        ArchiveErrorFacts::Empty { uri } => {
            let rest = "' contains no files at all"@;
            let parts = Seq::<Seq<char>>::empty();
            let front = "the archive fetched from '"@;
            names_one(front, uri, rest, parts);
            let rest = front + uri + rest;
            let parts = seq![uri] + parts;
            assert(archive::archive_error_text(e) =~= rest);
            assert(parts =~= seq![uri]);
        },
        ArchiveErrorFacts::UnsupportedFormat { uri, format } => {
            let rest = "', which midenup cannot read"@;
            let parts = Seq::<Seq<char>>::empty();
            let front = "' is packaged as '"@;
            names_one(front, format, rest, parts);
            let rest = front + format + rest;
            let parts = seq![format] + parts;
            let front = "the archive fetched from '"@;
            names_one(front, uri, rest, parts);
            let rest = front + uri + rest;
            let parts = seq![uri] + parts;
            assert(archive::archive_error_text(e) =~= rest);
            assert(parts =~= seq![uri, format]);
        },
    }
}

/// What is said of a plan that cannot be made names the components that it is about, and what it is
/// that they declare, install or build.
pub proof fn plans_that_fail_are_named(e: PlanErrorFacts)
    ensures
        match e {
            PlanErrorFacts::Resolution(_) => true,
            PlanErrorFacts::Destination(_) => true,
            PlanErrorFacts::Artifact(_) => true,
            PlanErrorFacts::Pin(message) => names_all(
                planner::plan_error_text(e),
                seq![message],
            ),
            PlanErrorFacts::ArtifactCardinality { component, kind, method, expected, found } => names_all(
                planner::plan_error_text(e),
                seq![component, text::decimal(found), kind, method, expected],
            ),
            PlanErrorFacts::ArtifactIdMismatch { component, artifact, executable } => names_all(
                planner::plan_error_text(e),
                seq![component, artifact, executable],
            ),
            PlanErrorFacts::TargetUnsupported { component, target } => names_all(
                planner::plan_error_text(e),
                seq![component, target],
            ),
            PlanErrorFacts::DestinationCollision { first, second, path } => names_all(
                planner::plan_error_text(e),
                seq![first, second, path],
            ),
            PlanErrorFacts::CargoUnitConflict { unit, first, second } => names_all(
                planner::plan_error_text(e),
                seq![first, second, unit],
            ),
        },
{
    match e {
        PlanErrorFacts::Resolution(_) => {},
        PlanErrorFacts::Destination(_) => {},
        PlanErrorFacts::Artifact(_) => {},
        PlanErrorFacts::Pin(message) => {
            let rest = Seq::<char>::empty();
            let parts = Seq::<Seq<char>>::empty();
            let front = Seq::<char>::empty();
            names_one(front, message, rest, parts);
            let rest = front + message + rest;
            let parts = seq![message] + parts;
            assert(planner::plan_error_text(e) =~= rest);
            assert(parts =~= seq![message]);
        },
        PlanErrorFacts::ArtifactCardinality { component, kind, method, expected, found } => {
            let rest = Seq::<char>::empty();
            let parts = Seq::<Seq<char>>::empty();
            let front = "' must declare "@;
            names_one(front, expected, rest, parts);
            let rest = front + expected + rest;
            let parts = seq![expected] + parts;
            let front = " component using '"@;
            names_one(front, method, rest, parts);
            let rest = front + method + rest;
            let parts = seq![method] + parts;
            let front = " artifact(s), but a "@;
            names_one(front, kind, rest, parts);
            let rest = front + kind + rest;
            let parts = seq![kind] + parts;
            let front = "' declares "@;
            names_one(front, text::decimal(found), rest, parts);
            let rest = front + text::decimal(found) + rest;
            let parts = seq![text::decimal(found)] + parts;
            let front = "component '"@;
            names_one(front, component, rest, parts);
            let rest = front + component + rest;
            let parts = seq![component] + parts;
            assert(planner::plan_error_text(e) =~= rest);
            assert(parts =~= seq![component, text::decimal(found), kind, method, expected]);
        },
        PlanErrorFacts::ArtifactIdMismatch { component, artifact, executable } => {
            let rest = "'; for an executable the artifact id must be the installed filename"@;
            let parts = Seq::<Seq<char>>::empty();
            let front = "', but installs the executable '"@;
            names_one(front, executable, rest, parts);
            let rest = front + executable + rest;
            let parts = seq![executable] + parts;
            let front = "' declares its artifact as '"@;
            names_one(front, artifact, rest, parts);
            let rest = front + artifact + rest;
            let parts = seq![artifact] + parts;
            let front = "component '"@;
            names_one(front, component, rest, parts);
            let rest = front + component + rest;
            let parts = seq![component] + parts;
            assert(planner::plan_error_text(e) =~= rest);
            assert(parts =~= seq![component, artifact, executable]);
        },
        PlanErrorFacts::TargetUnsupported { component, target } => {
            let rest = "', and does not declare a Cargo fallback"@;
            let parts = Seq::<Seq<char>>::empty();
            let front = "' has no artifact for target '"@;
            names_one(front, target, rest, parts);
            let rest = front + target + rest;
            let parts = seq![target] + parts;
            let front = "component '"@;
            names_one(front, component, rest, parts);
            let rest = front + component + rest;
            let parts = seq![component] + parts;
            assert(planner::plan_error_text(e) =~= rest);
            assert(parts =~= seq![component, target]);
        },
        PlanErrorFacts::DestinationCollision { first, second, path } => {
            let rest = "'"@;
            let parts = Seq::<Seq<char>>::empty();
            let front = "' both install to '"@;
            names_one(front, path, rest, parts);
            let rest = front + path + rest;
            let parts = seq![path] + parts;
            let front = "' and '"@;
            names_one(front, second, rest, parts);
            let rest = front + second + rest;
            let parts = seq![second] + parts;
            let front = "components '"@;
            names_one(front, first, rest, parts);
            let rest = front + first + rest;
            let parts = seq![first] + parts;
            assert(planner::plan_error_text(e) =~= rest);
            assert(parts =~= seq![first, second, path]);
        },
        PlanErrorFacts::CargoUnitConflict { unit, first, second } => {
            let rest = "'; midenup cannot tell their outputs apart"@;
            let parts = Seq::<Seq<char>>::empty();
            let front = "' both build Cargo package '"@;
            names_one(front, unit, rest, parts);
            let rest = front + unit + rest;
            let parts = seq![unit] + parts;
            let front = "' and '"@;
            names_one(front, second, rest, parts);
            let rest = front + second + rest;
            let parts = seq![second] + parts;
            let front = "components '"@;
            names_one(front, first, rest, parts);
            let rest = front + first + rest;
            let parts = seq![first] + parts;
            assert(planner::plan_error_text(e) =~= rest);
            assert(parts =~= seq![first, second, unit]);
        },
    }
}

/// What is said of a file without a place names its id, or its component and the kind of that.
pub proof fn places_that_fail_are_named(e: DestinationErrorFacts)
    ensures
        match e {
            DestinationErrorFacts::InvalidId(id) => names_all(
                destination::destination_error_text(e),
                seq![id],
            ),
            DestinationErrorFacts::NotInstallable { component, kind } => names_all(
                destination::destination_error_text(e),
                seq![component, kind],
            ),
        },
{
    match e {
        DestinationErrorFacts::InvalidId(id) => {
            let rest = "': an artifact id must be a single safe path segment"@;
            let parts = Seq::<Seq<char>>::empty();
            let front = "invalid artifact id '"@;
            names_one(front, id, rest, parts);
            let rest = front + id + rest;
            let parts = seq![id] + parts;
            assert(destination::destination_error_text(e) =~= rest);
            assert(parts =~= seq![id]);
        },
        DestinationErrorFacts::NotInstallable { component, kind } => {
            let rest = "', which installs no files"@;
            let parts = Seq::<Seq<char>>::empty();
            let front = "' is of kind '"@;
            names_one(front, kind, rest, parts);
            let rest = front + kind + rest;
            let parts = seq![kind] + parts;
            let front = "component '"@;
            names_one(front, component, rest, parts);
            let rest = front + component + rest;
            let parts = seq![component] + parts;
            assert(destination::destination_error_text(e) =~= rest);
            assert(parts =~= seq![component, kind]);
        },
    }
}

/// What is said of an intent that cannot be resolved names the components that stand in the way.
pub proof fn intents_that_fail_are_named(e: ResolutionFacts)
    ensures
        match e {
            ResolutionFacts::UnknownRoot { name } => names_all(
                resolve::resolution_error_text(e),
                seq![name],
            ),
            ResolutionFacts::UnsupportedRoot { name } => names_all(
                resolve::resolution_error_text(e),
                seq![name],
            ),
            ResolutionFacts::UnknownRequirement { component, requirement } => names_all(
                resolve::resolution_error_text(e),
                seq![component, requirement],
            ),
            ResolutionFacts::UnsupportedRequirement { name } => names_all(
                resolve::resolution_error_text(e),
                seq![name],
            ),
            ResolutionFacts::Cycle { components } => names_all(
                resolve::resolution_error_text(e),
                seq![text::joined(components, ", "@)],
            ),
        },
{
    match e {
        ResolutionFacts::UnknownRoot { name } => {
            let rest = "'"@;
            let parts = Seq::<Seq<char>>::empty();
            let front = "unknown component '"@;
            names_one(front, name, rest, parts);
            let rest = front + name + rest;
            let parts = seq![name] + parts;
            assert(resolve::resolution_error_text(e) =~= rest);
            assert(parts =~= seq![name]);
        },
        ResolutionFacts::UnsupportedRoot { name } => {
            let rest = "' is of a kind that this version of midenup does not support"@;
            let parts = Seq::<Seq<char>>::empty();
            let front = "component '"@;
            names_one(front, name, rest, parts);
            let rest = front + name + rest;
            let parts = seq![name] + parts;
            assert(resolve::resolution_error_text(e) =~= rest);
            assert(parts =~= seq![name]);
        },
        ResolutionFacts::UnknownRequirement { component, requirement } => {
            let rest = "'"@;
            let parts = Seq::<Seq<char>>::empty();
            let front = "' requires unknown component '"@;
            names_one(front, requirement, rest, parts);
            let rest = front + requirement + rest;
            let parts = seq![requirement] + parts;
            let front = "component '"@;
            names_one(front, component, rest, parts);
            let rest = front + component + rest;
            let parts = seq![component] + parts;
            assert(resolve::resolution_error_text(e) =~= rest);
            assert(parts =~= seq![component, requirement]);
        },
        ResolutionFacts::UnsupportedRequirement { name } => {
            let rest = "' is of a kind that this version of midenup does not support"@;
            let parts = Seq::<Seq<char>>::empty();
            let front = "required component '"@;
            names_one(front, name, rest, parts);
            let rest = front + name + rest;
            let parts = seq![name] + parts;
            assert(resolve::resolution_error_text(e) =~= rest);
            assert(parts =~= seq![name]);
        },
        ResolutionFacts::Cycle { components } => {
            let rest = Seq::<char>::empty();
            let parts = Seq::<Seq<char>>::empty();
            let front = "components require each other in a cycle: "@;
            names_one(front, text::joined(components, ", "@), rest, parts);
            let rest = front + text::joined(components, ", "@) + rest;
            let parts = seq![text::joined(components, ", "@)] + parts;
            assert(resolve::resolution_error_text(e) =~= rest);
            assert(parts =~= seq![text::joined(components, ", "@)]);
        },
    }
}

/// What is said of an artifact names its id and its component, and what is wrong with its URI or its
/// packaging.
pub proof fn artifacts_that_fail_are_named(e: InvalidArtifactFacts)
    ensures
        match e {
            InvalidArtifactFacts::MissingScheme { id, component } => names_all(
                artifact::invalid_artifact_text(e),
                seq![id, component],
            ),
            InvalidArtifactFacts::InvalidScheme { id, component, scheme } => names_all(
                artifact::invalid_artifact_text(e),
                seq![id, component, scheme],
            ),
            InvalidArtifactFacts::VersionUnavailable { id, component } => names_all(
                artifact::invalid_artifact_text(e),
                seq![id, component],
            ),
            InvalidArtifactFacts::UndefinedSubstitution { id, component, substitution } => names_all(
                artifact::invalid_artifact_text(e),
                seq![substitution, id, component],
            ),
            InvalidArtifactFacts::MissingTarget { id, component, target } => names_all(
                artifact::invalid_artifact_text(e),
                seq![id, component, target],
            ),
            InvalidArtifactFacts::UnsupportedArchiveFormat { id, component, format } => names_all(
                artifact::invalid_artifact_text(e),
                seq![id, component, format],
            ),
        },
{
    match e {
        InvalidArtifactFacts::MissingScheme { id, component } => {
            let rest = Seq::<char>::empty();
            let parts = Seq::<Seq<char>>::empty();
            let front = " of "@;
            names_one(front, component, rest, parts);
            let rest = front + component + rest;
            let parts = seq![component] + parts;
            let front = "invalid artifact: no uri scheme for artifact "@;
            names_one(front, id, rest, parts);
            let rest = front + id + rest;
            let parts = seq![id] + parts;
            assert(artifact::invalid_artifact_text(e) =~= rest);
            assert(parts =~= seq![id, component]);
        },
        InvalidArtifactFacts::InvalidScheme { id, component, scheme } => {
            let rest = "'"@;
            let parts = Seq::<Seq<char>>::empty();
            let front = ": expected file://, http://, or https://, got '"@;
            names_one(front, scheme, rest, parts);
            let rest = front + scheme + rest;
            let parts = seq![scheme] + parts;
            let front = " of "@;
            names_one(front, component, rest, parts);
            let rest = front + component + rest;
            let parts = seq![component] + parts;
            let front = "invalid artifact: invalid scheme for artifact "@;
            names_one(front, id, rest, parts);
            let rest = front + id + rest;
            let parts = seq![id] + parts;
            assert(artifact::invalid_artifact_text(e) =~= rest);
            assert(parts =~= seq![id, component, scheme]);
        },
        InvalidArtifactFacts::VersionUnavailable { id, component } => {
            let rest = ": component has no known semantic version"@;
            let parts = Seq::<Seq<char>>::empty();
            let front = " of "@;
            names_one(front, component, rest, parts);
            let rest = front + component + rest;
            let parts = seq![component] + parts;
            let front = "invalid artifact: %version substitution is invalid for artifact "@;
            names_one(front, id, rest, parts);
            let rest = front + id + rest;
            let parts = seq![id] + parts;
            assert(artifact::invalid_artifact_text(e) =~= rest);
            assert(parts =~= seq![id, component]);
        },
        InvalidArtifactFacts::UndefinedSubstitution { id, component, substitution } => {
            let rest = Seq::<char>::empty();
            let parts = Seq::<Seq<char>>::empty();
            let front = " of "@;
            names_one(front, component, rest, parts);
            let rest = front + component + rest;
            let parts = seq![component] + parts;
            let front = " is not defined for artifact "@;
            names_one(front, id, rest, parts);
            let rest = front + id + rest;
            let parts = seq![id] + parts;
            let front = "invalid artifact: "@;
            names_one(front, substitution, rest, parts);
            let rest = front + substitution + rest;
            let parts = seq![substitution] + parts;
            assert(artifact::invalid_artifact_text(e) =~= rest);
            assert(parts =~= seq![substitution, id, component]);
        },
        InvalidArtifactFacts::MissingTarget { id, component, target } => {
            let rest = "'"@;
            let parts = Seq::<Seq<char>>::empty();
            let front = " when target is '"@;
            names_one(front, target, rest, parts);
            let rest = front + target + rest;
            let parts = seq![target] + parts;
            let front = " of "@;
            names_one(front, component, rest, parts);
            let rest = front + component + rest;
            let parts = seq![component] + parts;
            let front = "invalid artifact: uri is missing %target substitution for artifact "@;
            names_one(front, id, rest, parts);
            let rest = front + id + rest;
            let parts = seq![id] + parts;
            assert(artifact::invalid_artifact_text(e) =~= rest);
            assert(parts =~= seq![id, component, target]);
        },
        InvalidArtifactFacts::UnsupportedArchiveFormat { id, component, format } => {
            let rest = "', which this version of midenup cannot read"@;
            let parts = Seq::<Seq<char>>::empty();
            let front = " is packaged as '"@;
            names_one(front, format, rest, parts);
            let rest = front + format + rest;
            let parts = seq![format] + parts;
            let front = " of "@;
            names_one(front, component, rest, parts);
            let rest = front + component + rest;
            let parts = seq![component] + parts;
            let front = "invalid artifact: artifact "@;
            names_one(front, id, rest, parts);
            let rest = front + id + rest;
            let parts = seq![id] + parts;
            assert(artifact::invalid_artifact_text(e) =~= rest);
            assert(parts =~= seq![id, component, format]);
        },
    }
}

/// What is said of an update that cannot be made names the channels and the networks that it is about.
pub proof fn updates_that_fail_are_named(e: UpdateErrorFacts)
    ensures
        match e {
            UpdateErrorFacts::NoSuchInstallation { version } => names_all(
                error::update_error_text(e),
                seq![version],
            ),
            UpdateErrorFacts::UnknownNetwork { name, known } => names_all(
                error::update_error_text(e),
                seq![name, text::joined(known, ", "@)],
            ),
            UpdateErrorFacts::NetworkNotInstalled { name } => names_all(
                error::update_error_text(e),
                seq![name, name],
            ),
            UpdateErrorFacts::NotInState { name, installed } => names_all(
                error::update_error_text(e),
                seq![name, installed, name],
            ),
            UpdateErrorFacts::NotUpstream { name, target } => names_all(
                error::update_error_text(e),
                seq![name, target],
            ),
            UpdateErrorFacts::NotInstalled { channel } => names_all(
                error::update_error_text(e),
                seq![channel],
            ),
        },
{
    match e {
        UpdateErrorFacts::NoSuchInstallation { version } => {
            let rest = Seq::<char>::empty();
            let parts = Seq::<Seq<char>>::empty();
            let front = "ERROR: No installed channel found with version "@;
            names_one(front, version, rest, parts);
            let rest = front + version + rest;
            let parts = seq![version] + parts;
            assert(error::update_error_text(e) =~= rest);
            assert(parts =~= seq![version]);
        },
        UpdateErrorFacts::UnknownNetwork { name, known } => {
            let rest = Seq::<char>::empty();
            let parts = Seq::<Seq<char>>::empty();
            let front = "'; known networks are "@;
            names_one(front, text::joined(known, ", "@), rest, parts);
            let rest = front + text::joined(known, ", "@) + rest;
            let parts = seq![text::joined(known, ", "@)] + parts;
            let front = "unknown channel '"@;
            names_one(front, name, rest, parts);
            let rest = front + name + rest;
            let parts = seq![name] + parts;
            assert(error::update_error_text(e) =~= rest);
            assert(parts =~= seq![name, text::joined(known, ", "@)]);
        },
        UpdateErrorFacts::NetworkNotInstalled { name } => {
            let rest = "\n"@;
            let parts = Seq::<Seq<char>>::empty();
            let front = " is not installed. To install it, run:\n    midenup install "@;
            names_one(front, name, rest, parts);
            let rest = front + name + rest;
            let parts = seq![name] + parts;
            let front = Seq::<char>::empty();
            names_one(front, name, rest, parts);
            let rest = front + name + rest;
            let parts = seq![name] + parts;
            assert(error::update_error_text(e) =~= rest);
            assert(parts =~= seq![name, name]);
        },
        UpdateErrorFacts::NotInState { name, installed } => {
            let rest = Seq::<char>::empty();
            let parts = Seq::<Seq<char>>::empty();
            let front = ", which is not in local state; reinstall with: midenup install "@;
            names_one(front, name, rest, parts);
            let rest = front + name + rest;
            let parts = seq![name] + parts;
            let front = " names "@;
            names_one(front, installed, rest, parts);
            let rest = front + installed + rest;
            let parts = seq![installed] + parts;
            let front = "toolchains/"@;
            names_one(front, name, rest, parts);
            let rest = front + name + rest;
            let parts = seq![name] + parts;
            assert(error::update_error_text(e) =~= rest);
            assert(parts =~= seq![name, installed, name]);
        },
        UpdateErrorFacts::NotUpstream { name, target } => {
            let rest = ", which is not upstream"@;
            let parts = Seq::<Seq<char>>::empty();
            let front = "' names channel "@;
            names_one(front, target, rest, parts);
            let rest = front + target + rest;
            let parts = seq![target] + parts;
            let front = "network '"@;
            names_one(front, name, rest, parts);
            let rest = front + name + rest;
            let parts = seq![name] + parts;
            assert(error::update_error_text(e) =~= rest);
            assert(parts =~= seq![name, target]);
        },
        UpdateErrorFacts::NotInstalled { channel } => {
            let rest = " is not installed"@;
            let parts = Seq::<Seq<char>>::empty();
            let front = "channel "@;
            names_one(front, channel, rest, parts);
            let rest = front + channel + rest;
            let parts = seq![channel] + parts;
            assert(error::update_error_text(e) =~= rest);
            assert(parts =~= seq![channel]);
        },
    }
}

} // verus!
