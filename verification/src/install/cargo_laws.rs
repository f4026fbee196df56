//! What cargo is told, and when a build counts as one.

use vstd::prelude::*;

use crate::install::cargo;
use crate::install::cargo::CargoErrorFacts;
use crate::plan::authority::PinnedFacts;
use crate::plan::step::StepFacts;
use crate::text;

verus! {

/// Whether an option is given, with this value behind it.
pub open spec fn is_told(args: Seq<Seq<char>>, option: Seq<char>, value: Seq<char>) -> bool {
    exists|i: int| 0 <= i < args.len() - 1 && #[trigger] args[i] == option && args[i + 1] == value
}

/// Whether a word is among the arguments.
pub open spec fn is_said(args: Seq<Seq<char>>, word: Seq<char>) -> bool {
    exists|i: int| 0 <= i < args.len() && #[trigger] args[i] == word
}

/// How many arguments a build has: four that say what is done, two each for the binary and the root,
/// those of its source, and those that are only there where there is something to say.
pub open spec fn argument_count(
    pinned: PinnedFacts,
    has_channel: bool,
    has_features: bool,
    verbose: bool,
) -> int {
    let source: int = match pinned {
        PinnedFacts::Registry { .. } => 3,
        PinnedFacts::Git { .. } => 5,
        PinnedFacts::Path { .. } => 2,
    };
    let channel: int = if has_channel {
        1
    } else {
        0
    };
    let features: int = if has_features {
        2
    } else {
        0
    };
    let quiet: int = if verbose {
        0
    } else {
        1
    };
    channel + 4 + quiet + 2 + source + features + 2
}

/// Where the source of a build stands among its arguments.
pub open spec fn source_start(has_channel: bool, verbose: bool) -> int {
    (if has_channel {
        1int
    } else {
        0int
    }) + 4 + (if verbose {
        0int
    } else {
        1int
    }) + 2
}

/// A build is told where its source comes from: the crate and its version from a registry; the
/// repository, the commit and the crate from git; the directory from a path.
pub proof fn builds_name_their_source(
    step: StepFacts,
    staging_root: Seq<char>,
    verbose: bool,
    debug: bool,
)
    requires
        step is CargoBuild,
    ensures
        ({
            let args = cargo::argv(step, staging_root, verbose, debug);
            match step->CargoBuild_authority {
                PinnedFacts::Registry { version } => is_told(args, "--version"@, version) && is_said(
                    args,
                    step->CargoBuild_crate_name,
                ),
                PinnedFacts::Git { url, revision, .. } => is_told(args, "--git"@, url) && is_told(
                    args,
                    "--rev"@,
                    revision,
                ) && is_said(args, step->CargoBuild_crate_name),
                PinnedFacts::Path { canonical, .. } => is_told(args, "--path"@, canonical),
            }
        }),
{
    let args = cargo::argv(step, staging_root, verbose, debug);
    let k = source_start(step->rustup_channel is Some, verbose);
    match step->CargoBuild_authority {
        PinnedFacts::Registry { version } => {
            assert(args[k] == step->CargoBuild_crate_name);
            assert(args[k + 1] == "--version"@ && args[k + 2] == version);
        },
        PinnedFacts::Git { url, revision, .. } => {
            assert(args[k] == "--git"@ && args[k + 1] == url);
            assert(args[k + 2] == "--rev"@ && args[k + 3] == revision);
            assert(args[k + 4] == step->CargoBuild_crate_name);
        },
        PinnedFacts::Path { canonical, .. } => {
            assert(args[k] == "--path"@ && args[k + 1] == canonical);
        },
    }
}

/// A build is an install of locked dependencies, in the profile that was asked for, of the expected
/// binary, into the staging root; the toolchain, where one is declared, comes first of all.
pub proof fn builds_install_what_is_expected(
    step: StepFacts,
    staging_root: Seq<char>,
    verbose: bool,
    debug: bool,
)
    requires
        step is CargoBuild,
    ensures
        ({
            let args = cargo::argv(step, staging_root, verbose, debug);
            let first: int = if step->rustup_channel is Some {
                1
            } else {
                0
            };
            &&& step->rustup_channel matches Some(channel) ==> args[0] == "+"@ + channel
            &&& args[first] == "install"@
            &&& is_said(args, "--locked"@)
            &&& is_told(args, "--bin"@, step->expect_binary)
            &&& is_told(args, "--root"@, staging_root)
            &&& is_told(
                args,
                "--profile"@,
                if debug {
                    "dev"@
                } else {
                    "release"@
                },
            )
            &&& !verbose ==> is_said(args, "--quiet"@)
        }),
{
    let args = cargo::argv(step, staging_root, verbose, debug);
    let first: int = if step->rustup_channel is Some {
        1
    } else {
        0
    };
    assert(args[first] == "install"@);
    assert(args[first + 1] == "--locked"@);
    assert(args[first + 2] == "--profile"@);
    assert(!verbose ==> args[first + 4] == "--quiet"@);
    let k = source_start(step->rustup_channel is Some, verbose);
    assert(args[k - 2] == "--bin"@ && args[k - 1] == step->expect_binary);
    let n = args.len() as int;
    assert(args[n - 2] == "--root"@ && args[n - 1] == staging_root);
}

/// The features are told together, separated by commas, where there are any.
pub proof fn builds_enable_their_features(
    step: StepFacts,
    staging_root: Seq<char>,
    verbose: bool,
    debug: bool,
)
    requires
        step is CargoBuild,
        step->CargoBuild_features.len() > 0,
    ensures
        is_told(
            cargo::argv(step, staging_root, verbose, debug),
            "--features"@,
            text::joined(step->CargoBuild_features, ","@),
        ),
{
    let args = cargo::argv(step, staging_root, verbose, debug);
    let n = args.len() as int;
    assert(args[n - 4] == "--features"@);
    assert(args[n - 3] == text::joined(step->CargoBuild_features, ","@));
}

/// A build is told nothing but what the step declares, and what is no build is told nothing.
pub proof fn builds_are_told_nothing_more(
    step: StepFacts,
    staging_root: Seq<char>,
    verbose: bool,
    debug: bool,
)
    ensures
        step matches StepFacts::CargoBuild { authority, rustup_channel, features, .. }
            ==> cargo::argv(step, staging_root, verbose, debug).len() == argument_count(
            authority,
            rustup_channel is Some,
            features.len() > 0,
            verbose,
        ),
        !(step is CargoBuild) ==> cargo::argv(step, staging_root, verbose, debug).len() == 0,
{
}

/// The arguments come in a fixed order: the binary, its source, the features and the root.
pub proof fn builds_are_told_in_order(
    step: StepFacts,
    staging_root: Seq<char>,
    verbose: bool,
    debug: bool,
)
    requires
        step is CargoBuild,
    ensures
        ({
            let args = cargo::argv(step, staging_root, verbose, debug);
            let k = source_start(step->rustup_channel is Some, verbose);
            let n = args.len() as int;
            &&& args[k - 2] == "--bin"@ && args[k - 1] == step->expect_binary
            &&& match step->CargoBuild_authority {
                PinnedFacts::Registry { version } => args[k] == step->CargoBuild_crate_name && args[k
                    + 1] == "--version"@ && args[k + 2] == version,
                PinnedFacts::Git { url, revision, .. } => args[k] == "--git"@ && args[k + 1] == url
                    && args[k + 2] == "--rev"@ && args[k + 3] == revision && args[k + 4]
                    == step->CargoBuild_crate_name,
                PinnedFacts::Path { canonical, .. } => args[k] == "--path"@ && args[k + 1]
                    == canonical,
            }
            &&& step->CargoBuild_features.len() > 0 ==> args[n - 4] == "--features"@
            &&& args[n - 2] == "--root"@ && args[n - 1] == staging_root
        }),
{
}

/// A build succeeds exactly where cargo ran and succeeded, the expected file is at its destination,
/// and no file appeared but the expected one.
pub proof fn builds_succeed_where_their_binary_is_there(
    step: StepFacts,
    args: Seq<Seq<char>>,
    ran: Result<(bool, Seq<char>), Seq<char>>,
    before: Seq<Seq<char>>,
    after: Seq<Seq<char>>,
    dest_exists: bool,
)
    requires
        step is CargoBuild,
    ensures
        cargo::build_outcome(step, args, ran, before, after, dest_exists) is Ok <==> {
            &&& ran matches Ok((success, _)) && success
            &&& dest_exists
            &&& forall|i: int|
                0 <= i < after.len() ==> before.contains(#[trigger] after[i]) || after[i]
                    == step->expect_binary
        },
{
    let strays = cargo::unexpected(before, after, step->expect_binary);
    if forall|i: int|
        0 <= i < after.len() ==> before.contains(#[trigger] after[i]) || after[i]
            == step->expect_binary {
        if strays.len() > 0 {
            cargo::earlier_binaries_are_not_unexpected(
                before,
                after,
                step->expect_binary,
                strays[0],
            );
            assert(strays.contains(strays[0]));
            let i = choose|i: int| 0 <= i < after.len() && after[i] == strays[0];
            assert(before.contains(after[i]) || after[i] == step->expect_binary);
        }
    } else {
        let i = choose|i: int|
            0 <= i < after.len() && !before.contains(#[trigger] after[i]) && after[i]
                != step->expect_binary;
        cargo::earlier_binaries_are_not_unexpected(before, after, step->expect_binary, after[i]);
        assert(after.contains(after[i]));
        let k = choose|k: int| 0 <= k < strays.len() && strays[k] == after[i];
        assert(strays.len() > 0);
    }
}

/// A build that fails says why: cargo could not be run, with its message; cargo failed, with its
/// arguments and its status; the binary is missing; or other files appeared, which are all named.
pub proof fn failed_builds_say_why(
    step: StepFacts,
    args: Seq<Seq<char>>,
    ran: Result<(bool, Seq<char>), Seq<char>>,
    before: Seq<Seq<char>>,
    after: Seq<Seq<char>>,
    dest_exists: bool,
    e: CargoErrorFacts,
)
    requires
        cargo::build_outcome(step, args, ran, before, after, dest_exists) == Err::<
            (),
            CargoErrorFacts,
        >(e),
    ensures
        step is CargoBuild,
        match e {
            CargoErrorFacts::Spawn(message) => ran == Err::<(bool, Seq<char>), Seq<char>>(message),
            CargoErrorFacts::Failed { argv, status } => ran == Ok::<(bool, Seq<char>), Seq<char>>(
                (false, status),
            ) && argv == text::joined(args, " "@),
            CargoErrorFacts::MissingBinary { crate_name, expected, dest } => {
                &&& !dest_exists
                &&& crate_name == step->CargoBuild_crate_name
                &&& expected == step->expect_binary
                &&& dest == step->CargoBuild_dest
            },
            CargoErrorFacts::UnexpectedBinaries { crate_name, unexpected } => {
                &&& dest_exists
                &&& crate_name == step->CargoBuild_crate_name
                &&& forall|name: Seq<char>| #[trigger]
                    unexpected.contains(name) <==> after.contains(name) && !before.contains(name)
                        && name != step->expect_binary
            },
        },
{
    if e is UnexpectedBinaries {
        assert forall|name: Seq<char>| #[trigger] e->unexpected.contains(name) <==> after.contains(
            name,
        ) && !before.contains(name) && name != step->expect_binary by {
            cargo::earlier_binaries_are_not_unexpected(before, after, step->expect_binary, name);
        }
    }
}

/// What is no build has nothing to fail at.
pub proof fn other_steps_are_not_judged(
    step: StepFacts,
    args: Seq<Seq<char>>,
    ran: Result<(bool, Seq<char>), Seq<char>>,
    before: Seq<Seq<char>>,
    after: Seq<Seq<char>>,
    dest_exists: bool,
)
    requires
        !(step is CargoBuild),
    ensures
        cargo::build_outcome(step, args, ran, before, after, dest_exists) is Ok,
{
}

} // verus!
