//! Building a component with `cargo install`.
//!
//! `CARGO_HOME` is deliberately not overridden: `--root` decides where the built binary goes, and
//! that is isolated, while the caches below `CARGO_HOME` are shared.

use vstd::prelude::*;

use crate::path;
use crate::plan::authority::{PinnedFacts, ResolvedAuthority};
use crate::plan::step::{PlanStep, StepFacts};
use crate::sorted;
use crate::sorted::SortedMap;
use crate::text;

verus! {

/// Why a build failed.
#[derive(Debug, PartialEq, Eq)]
pub enum CargoError {
    Spawn(String),
    Failed { argv: String, status: String },
    MissingBinary { crate_name: String, expected: String, dest: String },
    UnexpectedBinaries { crate_name: String, unexpected: Vec<String> },
}

/// What a [`CargoError`] holds.
#[verifier::ext_equal]
pub enum CargoErrorFacts {
    Spawn(Seq<char>),
    Failed { argv: Seq<char>, status: Seq<char> },
    MissingBinary { crate_name: Seq<char>, expected: Seq<char>, dest: Seq<char> },
    UnexpectedBinaries { crate_name: Seq<char>, unexpected: Seq<Seq<char>> },
}

impl DeepView for CargoError {
    type V = CargoErrorFacts;

    open spec fn deep_view(&self) -> CargoErrorFacts {
        match self {
            CargoError::Spawn(message) => CargoErrorFacts::Spawn(message@),
            CargoError::Failed { argv, status } => CargoErrorFacts::Failed {
                argv: argv@,
                status: status@,
            },
            CargoError::MissingBinary { crate_name, expected, dest } =>
                CargoErrorFacts::MissingBinary {
                crate_name: crate_name@,
                expected: expected@,
                dest: dest@,
            },
            CargoError::UnexpectedBinaries { crate_name, unexpected } =>
                CargoErrorFacts::UnexpectedBinaries {
                crate_name: crate_name@,
                unexpected: unexpected.deep_view(),
            },
        }
    }
}

/// What went wrong with a build, in words.
pub open spec fn cargo_error_text(e: CargoErrorFacts) -> Seq<char> {
    match e {
        CargoErrorFacts::Spawn(message) => "failed to run cargo: "@ + message,
        CargoErrorFacts::Failed { argv, status } => "`cargo "@ + argv + "` exited with "@ + status,
        CargoErrorFacts::MissingBinary { crate_name, expected, dest } => "the build of '"@
            + crate_name + "' did not produce the expected binary '"@ + expected + "' at '"@ + dest
            + "'"@,
        CargoErrorFacts::UnexpectedBinaries { crate_name, unexpected } => "the build of '"@
            + crate_name + "' produced unexpected binaries: "@ + text::joined(unexpected, ", "@),
    }
}

impl CargoError {
    /// What went wrong, in words.
    pub fn to_string(&self) -> (s: String)
        ensures
            s@ == cargo_error_text(self.deep_view()),
    {
        match self {
            CargoError::Spawn(message) => {
                let mut s = "failed to run cargo: ".to_owned();
                s.append(message.as_str());
                s
            },
            CargoError::Failed { argv, status } => {
                let mut s = "`cargo ".to_owned();
                s.append(argv.as_str());
                s.append("` exited with ");
                s.append(status.as_str());
                s
            },
            CargoError::MissingBinary { crate_name, expected, dest } => {
                let mut s = "the build of '".to_owned();
                s.append(crate_name.as_str());
                s.append("' did not produce the expected binary '");
                s.append(expected.as_str());
                s.append("' at '");
                s.append(dest.as_str());
                s.append("'");
                s
            },
            CargoError::UnexpectedBinaries { crate_name, unexpected } => {
                let mut s = "the build of '".to_owned();
                s.append(crate_name.as_str());
                s.append("' produced unexpected binaries: ");
                s.append(text::join(unexpected, ", ").as_str());
                s
            },
        }
    }
}

// ---------------------------------------------------------------------------------------------
// The command

/// The arguments that name the source of a build.
pub open spec fn source_args(pinned: PinnedFacts, crate_name: Seq<char>) -> Seq<Seq<char>> {
    match pinned {
        PinnedFacts::Registry { version } => seq![crate_name, "--version"@, version],
        PinnedFacts::Git { url, revision, .. } => seq![
            "--git"@,
            url,
            "--rev"@,
            revision,
            crate_name,
        ],
        PinnedFacts::Path { canonical, .. } => seq!["--path"@, canonical],
    }
}

/// The argument that selects a Rust toolchain.
pub open spec fn toolchain_args(rustup_channel: Option<Seq<char>>) -> Seq<Seq<char>> {
    match rustup_channel {
        Some(channel) => seq!["+"@ + channel],
        None => Seq::empty(),
    }
}

/// The arguments that every build starts with.
pub open spec fn mode_args(debug: bool) -> Seq<Seq<char>> {
    seq![
        "install"@,
        "--locked"@,
        "--profile"@,
        if debug {
            "dev"@
        } else {
            "release"@
        },
    ]
}

/// The argument that keeps Cargo quiet.
pub open spec fn quiet_args(verbose: bool) -> Seq<Seq<char>> {
    if verbose {
        Seq::empty()
    } else {
        seq!["--quiet"@]
    }
}

/// The arguments that enable features.
pub open spec fn feature_args(features: Seq<Seq<char>>) -> Seq<Seq<char>> {
    if features.len() == 0 {
        Seq::empty()
    } else {
        seq!["--features"@, text::joined(features, ","@)]
    }
}

/// The exact argument vector of a build. Optional arguments are left out when they are unset, and a
/// step that is no build has no arguments at all.
pub open spec fn argv(
    step: StepFacts,
    staging_root: Seq<char>,
    verbose: bool,
    debug: bool,
) -> Seq<Seq<char>> {
    match step {
        StepFacts::CargoBuild {
            crate_name,
            authority,
            features,
            rustup_channel,
            expect_binary,
            ..
        } => toolchain_args(rustup_channel) + mode_args(debug) + quiet_args(verbose) + seq![
            "--bin"@,
            expect_binary,
        ] + source_args(authority, crate_name) + feature_args(features) + seq![
            "--root"@,
            staging_root,
        ],
        _ => Seq::empty(),
    }
}

fn push_arg(argv: &mut Vec<String>, arg: &str)
    ensures
        final(argv).deep_view() == old(argv).deep_view().push(arg@),
{
    let ghost before = argv.deep_view();
    argv.push(arg.to_owned());
    assert(argv.deep_view() =~= before.push(arg@));
}

/// The exact argument vector for a build step.
pub fn argv_for(step: &PlanStep, staging_root: &str, verbose: bool, debug: bool) -> (r: Vec<String>)
    ensures
        r.deep_view() == argv(step.deep_view(), staging_root@, verbose, debug),
{
    let mut out: Vec<String> = Vec::new();
    assert(out.deep_view() =~= Seq::empty());
    match step {
        PlanStep::CargoBuild {
            crate_name,
            authority,
            features,
            rustup_channel,
            expect_binary,
            ..
        } => {
            if let Some(channel) = rustup_channel {
                let mut selector = "+".to_owned();
                selector.append(channel.as_str());
                push_arg(&mut out, selector.as_str());
            }
            let ghost done = toolchain_args(rustup_channel.deep_view());
            assert(out.deep_view() =~= done);
            push_arg(&mut out, "install");
            push_arg(&mut out, "--locked");
            push_arg(&mut out, "--profile");
            push_arg(
                &mut out,
                if debug {
                    "dev"
                } else {
                    "release"
                },
            );
            let ghost done = done + mode_args(debug);
            assert(out.deep_view() =~= done);
            if !verbose {
                push_arg(&mut out, "--quiet");
            }
            let ghost done = done + quiet_args(verbose);
            assert(out.deep_view() =~= done);
            // Always named: a crate with several binaries would otherwise install every one.
            push_arg(&mut out, "--bin");
            push_arg(&mut out, expect_binary.as_str());
            let ghost done = done + seq!["--bin"@, expect_binary@];
            assert(out.deep_view() =~= done);
            push_source(&mut out, authority, crate_name.as_str());
            let ghost done = done + source_args(authority.deep_view(), crate_name@);
            if features.len() > 0 {
                push_arg(&mut out, "--features");
                push_arg(&mut out, text::join(features, ",").as_str());
            }
            let ghost done = done + feature_args(features.deep_view());
            assert(out.deep_view() =~= done);
            push_arg(&mut out, "--root");
            push_arg(&mut out, staging_root);
            assert(out.deep_view() =~= done + seq!["--root"@, staging_root@]);
        },
        _ => {},
    }
    out
}

/// Adds the arguments that name the source of a build.
fn push_source(argv: &mut Vec<String>, authority: &ResolvedAuthority, crate_name: &str)
    ensures
        final(argv).deep_view() == old(argv).deep_view() + source_args(
            authority.deep_view(),
            crate_name@,
        ),
{
    let ghost before = argv.deep_view();
    match authority {
        ResolvedAuthority::Registry { version } => {
            push_arg(argv, crate_name);
            push_arg(argv, "--version");
            push_arg(argv, version.as_str());
        },
        ResolvedAuthority::Git { url, revision, .. } => {
            push_arg(argv, "--git");
            push_arg(argv, url.as_str());
            // Always a concrete commit: the authority was pinned during planning.
            push_arg(argv, "--rev");
            push_arg(argv, revision.as_str());
            push_arg(argv, crate_name);
        },
        ResolvedAuthority::Path { canonical, .. } => {
            push_arg(argv, "--path");
            push_arg(argv, canonical.as_str());
        },
    }
    assert(argv.deep_view() =~= before + source_args(authority.deep_view(), crate_name@));
}

// ---------------------------------------------------------------------------------------------
// The outputs

/// Whether `names` holds exactly the names of a listing, each once and in order.
pub open spec fn names_of(listing: Seq<Seq<char>>, names: Seq<Seq<char>>) -> bool {
    &&& forall|i: int, j: int|
        0 <= i < j < names.len() ==> text::precedes(#[trigger] names[i], #[trigger] names[j])
    &&& forall|name: Seq<char>| #[trigger] names.contains(name) <==> listing.contains(name)
}

/// The set of files that a listing of a directory names.
pub fn binaries_in(listing: &Vec<String>) -> (names: Vec<String>)
    ensures
        names_of(listing.deep_view(), names.deep_view()),
{
    let ghost all = listing.deep_view();
    let mut set: SortedMap<bool> = SortedMap::new();
    let mut i: usize = 0;
    proof {
        assert forall|k: Seq<char>| !sorted::has_key(set@, k) by {
            if sorted::has_key(set@, k) {
                let i = choose|i: int| sorted::holds(set@, k, i);
            }
        }
    }
    while i < listing.len()
        invariant
            i <= listing@.len(),
            all == listing.deep_view(),
            sorted::keys_increase(set@),
            forall|k: Seq<char>|
                #[trigger] sorted::has_key(set@, k) <==> all.take(i as int).contains(k),
        decreases listing.len() - i,
    {
        let ghost before = set@;
        let ghost name = listing@[i as int]@;
        let _ = set.insert(listing[i].clone(), true);
        proof {
            assert(all.take(i + 1) =~= all.take(i as int).push(name));
            assert forall|k: Seq<char>| #[trigger] sorted::has_key(set@, k) <==> all.take(
                i + 1,
            ).contains(k) by {
                sorted::put_is_found(before, name, true, k);
                assert(sorted::has_key(before, k) <==> all.take(i as int).contains(k));
                if k == name {
                    assert(all.take(i + 1)[i as int] == k);
                }
                if all.take(i as int).contains(k) {
                    let p = choose|p: int| 0 <= p < i && all.take(i as int)[p] == k;
                    assert(all.take(i + 1)[p] == k);
                }
                if all.take(i + 1).contains(k) && k != name {
                    let now = all.take(i + 1);
                    let p = choose|p: int| 0 <= p < now.len() && now[p] == k;
                    assert(all.take(i as int)[p] == k);
                }
            }
        }
        i += 1;
    }
    assert(all.take(i as int) =~= all);
    let mut names: Vec<String> = Vec::new();
    let n = set.len();
    let mut j: usize = 0;
    while j < n
        invariant
            j <= n == set@.len(),
            sorted::keys_increase(set@),
            names@.len() == j,
            forall|p: int| 0 <= p < j ==> (#[trigger] names@[p])@ == set@[p].0,
        decreases n - j,
    {
        names.push(set.key(j).clone());
        j += 1;
    }
    proof {
        let out = names.deep_view();
        assert forall|a: int, b: int| 0 <= a < b < out.len() implies text::precedes(
            #[trigger] out[a],
            #[trigger] out[b],
        ) by {
            assert(names@[a]@ == set@[a].0 && names@[b]@ == set@[b].0);
        }
        assert forall|name: Seq<char>| #[trigger] out.contains(name) <==> all.contains(name) by {
            if out.contains(name) {
                let p = choose|p: int| 0 <= p < out.len() && out[p] == name;
                assert(names@[p]@ == set@[p].0);
                assert(sorted::holds(set@, name, p));
                assert(sorted::has_key(set@, name));
            }
            if all.contains(name) {
                assert(sorted::has_key(set@, name));
                let p = choose|p: int| sorted::holds(set@, name, p);
                assert(names@[p]@ == set@[p].0);
                assert(out[p] == name);
            }
        }
    }
    names
}

/// Whether a file appeared during a build and is not the expected one.
pub open spec fn stray(before: Seq<Seq<char>>, expected: Seq<char>) -> spec_fn(Seq<char>) -> bool {
    |name: Seq<char>| !before.contains(name) && name != expected
}

/// The files that appeared during a build and are not the expected one, in the order of `after`.
pub open spec fn unexpected(
    before: Seq<Seq<char>>,
    after: Seq<Seq<char>>,
    expected: Seq<char>,
) -> Seq<Seq<char>> {
    after.filter(stray(before, expected))
}

/// Whether a build produced what was planned: the expected binary, and nothing else that was not
/// there before.
pub open spec fn outputs_checked(
    before: Seq<Seq<char>>,
    after: Seq<Seq<char>>,
    dest_exists: bool,
    crate_name: Seq<char>,
    expected: Seq<char>,
    dest: Seq<char>,
) -> Result<(), CargoErrorFacts> {
    if !dest_exists {
        Err(CargoErrorFacts::MissingBinary { crate_name, expected, dest })
    } else if unexpected(before, after, expected).len() > 0 {
        Err(
            CargoErrorFacts::UnexpectedBinaries {
                crate_name,
                unexpected: unexpected(before, after, expected),
            },
        )
    } else {
        Ok(())
    }
}

/// Confirms that a build produced exactly what was planned, given what `bin/` held before and after
/// it. The check is on the difference: what an earlier build left is not this one's doing.
pub fn verify_outputs(
    before: &Vec<String>,
    after: &Vec<String>,
    dest_exists: bool,
    crate_name: &str,
    expect_binary: &str,
    dest: &str,
) -> (r: Result<(), CargoError>)
    ensures
        match r {
            Ok(_) => outputs_checked(
                before.deep_view(),
                after.deep_view(),
                dest_exists,
                crate_name@,
                expect_binary@,
                dest@,
            ) is Ok,
            Err(e) => outputs_checked(
                before.deep_view(),
                after.deep_view(),
                dest_exists,
                crate_name@,
                expect_binary@,
                dest@,
            ) == Err::<(), CargoErrorFacts>(e.deep_view()),
        },
{
    if !dest_exists {
        return Err(
            CargoError::MissingBinary {
                crate_name: crate_name.to_owned(),
                expected: expect_binary.to_owned(),
                dest: dest.to_owned(),
            },
        );
    }
    let ghost old_names = before.deep_view();
    let ghost all = after.deep_view();
    let ghost keep = stray(old_names, expect_binary@);
    let mut extra: Vec<String> = Vec::new();
    let mut i: usize = 0;
    proof {
        assert(all.take(0) =~= Seq::empty());
        reveal(Seq::filter);
        assert(extra.deep_view() =~= all.take(0).filter(keep));
    }
    while i < after.len()
        invariant
            i <= after@.len(),
            all == after.deep_view(),
            old_names == before.deep_view(),
            keep == stray(old_names, expect_binary@),
            extra.deep_view() == all.take(i as int).filter(keep),
        decreases after.len() - i,
    {
        let ghost seen = extra.deep_view();
        let ghost name = after@[i as int]@;
        proof {
            reveal(Seq::filter);
            assert(all.take(i + 1).drop_last() =~= all.take(i as int));
            assert(all.take(i + 1).last() == name);
        }
        if !text::is_member(before, after[i].as_str()) && !text::same(
            after[i].as_str(),
            expect_binary,
        ) {
            extra.push(after[i].clone());
            assert(extra.deep_view() =~= seen.push(name));
        }
        i += 1;
    }
    assert(all.take(i as int) =~= all);
    if extra.len() > 0 {
        return Err(
            CargoError::UnexpectedBinaries { crate_name: crate_name.to_owned(), unexpected: extra },
        );
    }
    Ok(())
}

/// Cargo's own bookkeeping below a `--root`. It describes what Cargo put there, not what an
/// installation owns, so it is removed before publication.
pub fn bookkeeping(staging_root: &str) -> (paths: Vec<String>)
    ensures
        paths.deep_view() == seq![
            path::below(staging_root@, ".crates.toml"@),
            path::below(staging_root@, ".crates2.json"@),
        ],
{
    let mut paths: Vec<String> = Vec::new();
    paths.push(path::join(staging_root, ".crates.toml"));
    paths.push(path::join(staging_root, ".crates2.json"));
    assert(paths.deep_view() =~= seq![
        path::below(staging_root@, ".crates.toml"@),
        path::below(staging_root@, ".crates2.json"@),
    ]);
    paths
}

/// How a run of Cargo ended.
#[derive(Debug, PartialEq, Eq)]
pub struct Exit {
    pub success: bool,
    /// The status, in words.
    pub status: String,
}

/// What a build amounts to: whether Cargo could be run, whether it succeeded, and whether it
/// produced what was planned. A step that is no build always succeeds.
pub open spec fn build_outcome(
    step: StepFacts,
    args: Seq<Seq<char>>,
    ran: Result<(bool, Seq<char>), Seq<char>>,
    before: Seq<Seq<char>>,
    after: Seq<Seq<char>>,
    dest_exists: bool,
) -> Result<(), CargoErrorFacts> {
    match step {
        StepFacts::CargoBuild { crate_name, expect_binary, dest, .. } => match ran {
            Err(message) => Err(CargoErrorFacts::Spawn(message)),
            Ok((success, status)) => if !success {
                Err(CargoErrorFacts::Failed { argv: text::joined(args, " "@), status })
            } else {
                outputs_checked(before, after, dest_exists, crate_name, expect_binary, dest)
            },
        },
        _ => Ok(()),
    }
}

/// What became of running Cargo.
pub open spec fn run_facts(ran: Result<Exit, String>) -> Result<(bool, Seq<char>), Seq<char>> {
    match ran {
        Ok(exit) => Ok((exit.success, exit.status@)),
        Err(message) => Err(message@),
    }
}

/// Judges the build of `step`: `ran` is what became of running Cargo with `args`, `before` and
/// `after` what `bin/` held around it.
pub fn build(
    step: &PlanStep,
    args: &Vec<String>,
    ran: Result<Exit, String>,
    before: &Vec<String>,
    after: &Vec<String>,
    dest_exists: bool,
) -> (r: Result<(), CargoError>)
    ensures
        match r {
            Ok(_) => build_outcome(
                step.deep_view(),
                args.deep_view(),
                run_facts(ran),
                before.deep_view(),
                after.deep_view(),
                dest_exists,
            ) is Ok,
            Err(e) => build_outcome(
                step.deep_view(),
                args.deep_view(),
                run_facts(ran),
                before.deep_view(),
                after.deep_view(),
                dest_exists,
            ) == Err::<(), CargoErrorFacts>(e.deep_view()),
        },
{
    match step {
        PlanStep::CargoBuild { crate_name, expect_binary, dest, .. } => match ran {
            Err(message) => Err(CargoError::Spawn(message)),
            Ok(exit) => {
                if !exit.success {
                    return Err(
                        CargoError::Failed { argv: text::join(args, " "), status: exit.status },
                    );
                }
                verify_outputs(
                    before,
                    after,
                    dest_exists,
                    crate_name.as_str(),
                    expect_binary.as_str(),
                    dest.as_str(),
                )
            },
        },
        _ => Ok(()),
    }
}

// ---------------------------------------------------------------------------------------------
// Laws

/// No argument of a build is empty, as long as nothing that the step names is.
pub proof fn no_argument_is_empty(
    step: StepFacts,
    staging_root: Seq<char>,
    verbose: bool,
    debug: bool,
    i: int,
)
    requires
        step matches StepFacts::CargoBuild { crate_name, authority, features, expect_binary, .. } && {
            &&& crate_name.len() > 0
            &&& expect_binary.len() > 0
            &&& staging_root.len() > 0
            &&& features.len() > 0 ==> features[0].len() > 0
            &&& match authority {
                PinnedFacts::Registry { version } => version.len() > 0,
                PinnedFacts::Git { url, revision, .. } => url.len() > 0 && revision.len() > 0,
                PinnedFacts::Path { canonical, .. } => canonical.len() > 0,
            }
        },
        0 <= i < argv(step, staging_root, verbose, debug).len(),
    ensures
        argv(step, staging_root, verbose, debug)[i].len() > 0,
{
    reveal_strlit("+");
    reveal_strlit("install");
    reveal_strlit("--locked");
    reveal_strlit("--profile");
    reveal_strlit("dev");
    reveal_strlit("release");
    reveal_strlit("--quiet");
    reveal_strlit("--bin");
    reveal_strlit("--version");
    reveal_strlit("--git");
    reveal_strlit("--rev");
    reveal_strlit("--path");
    reveal_strlit("--features");
    reveal_strlit("--root");
    if let StepFacts::CargoBuild { features, .. } = step {
        if features.len() > 0 {
            joined_is_not_empty(features, ","@);
        }
    }
}

proof fn joined_is_not_empty(list: Seq<Seq<char>>, separator: Seq<char>)
    requires
        list.len() > 0,
        list[0].len() > 0,
    ensures
        text::joined(list, separator).len() > 0,
    decreases list.len(),
{
    if list.len() > 1 {
        joined_is_not_empty(list.drop_last(), separator);
    }
}

/// A build names its binary and its root, whatever else it is told.
pub proof fn builds_name_binary_and_root(
    step: StepFacts,
    staging_root: Seq<char>,
    verbose: bool,
    debug: bool,
)
    requires
        step is CargoBuild,
    ensures
        ({
            let args = argv(step, staging_root, verbose, debug);
            &&& args.len() >= 2
            &&& args[args.len() - 2] == "--root"@
            &&& args[args.len() - 1] == staging_root
            &&& exists|i: int|
                0 <= i < args.len() - 1 && #[trigger] args[i] == "--bin"@ && args[i + 1]
                    == step->expect_binary
        }),
{
    let args = argv(step, staging_root, verbose, debug);
    let toolchain: int = if step->rustup_channel is Some {
        1
    } else {
        0
    };
    let quiet: int = if verbose {
        0
    } else {
        1
    };
    let i = toolchain + 4 + quiet;
    assert(args[i] == "--bin"@ && args[i + 1] == step->expect_binary);
}

/// What `bin/` held before a build is never held against it.
pub proof fn earlier_binaries_are_not_unexpected(
    before: Seq<Seq<char>>,
    after: Seq<Seq<char>>,
    expected: Seq<char>,
    name: Seq<char>,
)
    ensures
        unexpected(before, after, expected).contains(name) <==> after.contains(name)
            && !before.contains(name) && name != expected,
{
    filtered_from(after, stray(before, expected), name);
}

proof fn filtered_from(list: Seq<Seq<char>>, keep: spec_fn(Seq<char>) -> bool, name: Seq<char>)
    ensures
        list.filter(keep).contains(name) <==> list.contains(name) && keep(name),
    decreases list.len(),
{
    reveal(Seq::filter);
    if list.len() > 0 {
        let (d, last) = (list.drop_last(), list.last());
        filtered_from(d, keep, name);
        let (f, g) = (d.filter(keep), list.filter(keep));
        assert(list =~= d.push(last));
        if list.contains(name) && name != last {
            let i = choose|i: int| 0 <= i < list.len() && list[i] == name;
            assert(d[i] == name);
        }
        if d.contains(name) {
            let i = choose|i: int| 0 <= i < d.len() && d[i] == name;
            assert(list[i] == name);
        }
        assert(list[list.len() - 1] == last);
        if keep(last) {
            assert(g == f.push(last));
            assert(g[g.len() - 1] == last);
            if f.contains(name) {
                let i = choose|i: int| 0 <= i < f.len() && f[i] == name;
                assert(g[i] == name);
            }
            if g.contains(name) && name != last {
                let i = choose|i: int| 0 <= i < g.len() && g[i] == name;
                assert(f[i] == name);
            }
        }
    }
}

} // verus!
