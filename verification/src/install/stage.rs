//! Building a staged installation tree and checking it before it is published.
//!
//! What has to be done is decided here, from what the file system was seen to hold; doing it is
//! left to the caller.

use vstd::prelude::*;

use crate::install::cargo;
use crate::install::cargo::{CargoError, CargoErrorFacts};
use crate::path;
use crate::plan::planner::{InstallationPlan, PlanFacts};
use crate::plan::step::{PlanStep, StepFacts};
use crate::state::{OutputFacts, Receipt};
use crate::text;

verus! {

/// Why a tree could not be staged, or is not what was planned.
#[derive(Debug, PartialEq, Eq)]
pub enum StageError {
    /// A transfer failed; in words.
    Acquire(String),
    Cargo(CargoError),
    /// An extraction failed; in words.
    Extract(String),
    Create { path: String, source: String },
    Missing { owner: String, path: String },
    NotAFile { owner: String, path: String },
    WrongMode { owner: String, path: String, expected: u32, found: u32 },
    MissingSymlink { path: String },
    Seed { path: String, source: String },
    UnsupportedFallback { owner: String },
}

/// What a [`StageError`] holds.
#[verifier::ext_equal]
pub enum StageErrorFacts {
    Acquire(Seq<char>),
    Cargo(CargoErrorFacts),
    Extract(Seq<char>),
    Create { path: Seq<char>, source: Seq<char> },
    Missing { owner: Seq<char>, path: Seq<char> },
    NotAFile { owner: Seq<char>, path: Seq<char> },
    WrongMode { owner: Seq<char>, path: Seq<char>, expected: u32, found: u32 },
    MissingSymlink { path: Seq<char> },
    Seed { path: Seq<char>, source: Seq<char> },
    UnsupportedFallback { owner: Seq<char> },
}

impl DeepView for StageError {
    type V = StageErrorFacts;

    open spec fn deep_view(&self) -> StageErrorFacts {
        match self {
            StageError::Acquire(message) => StageErrorFacts::Acquire(message@),
            StageError::Cargo(e) => StageErrorFacts::Cargo(e.deep_view()),
            StageError::Extract(message) => StageErrorFacts::Extract(message@),
            StageError::Create { path, source } => StageErrorFacts::Create {
                path: path@,
                source: source@,
            },
            StageError::Missing { owner, path } => StageErrorFacts::Missing {
                owner: owner@,
                path: path@,
            },
            StageError::NotAFile { owner, path } => StageErrorFacts::NotAFile {
                owner: owner@,
                path: path@,
            },
            StageError::WrongMode { owner, path, expected, found } => StageErrorFacts::WrongMode {
                owner: owner@,
                path: path@,
                expected: *expected,
                found: *found,
            },
            StageError::MissingSymlink { path } => StageErrorFacts::MissingSymlink { path: path@ },
            StageError::Seed { path, source } => StageErrorFacts::Seed {
                path: path@,
                source: source@,
            },
            StageError::UnsupportedFallback { owner } => StageErrorFacts::UnsupportedFallback {
                owner: owner@,
            },
        }
    }
}

/// What went wrong in staging, in words.
pub open spec fn stage_error_text(e: StageErrorFacts) -> Seq<char> {
    match e {
        StageErrorFacts::Acquire(message) => message,
        StageErrorFacts::Cargo(e) => cargo::cargo_error_text(e),
        StageErrorFacts::Extract(message) => message,
        StageErrorFacts::Create { path, source } => "failed to create '"@ + path + "': "@ + source,
        StageErrorFacts::Missing { owner, path } => "component '"@ + owner
            + "' was installed, but '"@ + path + "' is missing"@,
        StageErrorFacts::NotAFile { owner, path } => "component '"@ + owner + "' installed '"@
            + path + "', but it is not a regular file"@,
        StageErrorFacts::WrongMode { owner, path, expected, found } => "component '"@ + owner
            + "' installed '"@ + path + "' with mode "@ + text::octal(found as nat)
            + ", expected "@ + text::octal(expected as nat),
        StageErrorFacts::MissingSymlink { path } => "the shim '"@ + path + "' was not created"@,
        StageErrorFacts::Seed { path, source } => "failed to carry '"@ + path
            + "' forward from the previous installation: "@ + source,
        StageErrorFacts::UnsupportedFallback { owner } => "component '"@ + owner
            + "' declares a fallback that cannot be executed as one"@,
    }
}

impl StageError {
    /// What went wrong, in words.
    pub fn to_string(&self) -> (s: String)
        ensures
            s@ == stage_error_text(self.deep_view()),
    {
        match self {
            StageError::Acquire(message) => message.clone(),
            StageError::Cargo(e) => e.to_string(),
            StageError::Extract(message) => message.clone(),
            StageError::Create { path, source } => {
                let mut s = "failed to create '".to_owned();
                s.append(path.as_str());
                s.append("': ");
                s.append(source.as_str());
                s
            },
            StageError::Missing { owner, path } => {
                let mut s = "component '".to_owned();
                s.append(owner.as_str());
                s.append("' was installed, but '");
                s.append(path.as_str());
                s.append("' is missing");
                s
            },
            StageError::NotAFile { owner, path } => {
                let mut s = "component '".to_owned();
                s.append(owner.as_str());
                s.append("' installed '");
                s.append(path.as_str());
                s.append("', but it is not a regular file");
                s
            },
            StageError::WrongMode { owner, path, expected, found } => {
                let mut s = "component '".to_owned();
                s.append(owner.as_str());
                s.append("' installed '");
                s.append(path.as_str());
                s.append("' with mode ");
                s.append(text::octal_number(*found).as_str());
                s.append(", expected ");
                s.append(text::octal_number(*expected).as_str());
                s
            },
            StageError::MissingSymlink { path } => {
                let mut s = "the shim '".to_owned();
                s.append(path.as_str());
                s.append("' was not created");
                s
            },
            StageError::Seed { path, source } => {
                let mut s = "failed to carry '".to_owned();
                s.append(path.as_str());
                s.append("' forward from the previous installation: ");
                s.append(source.as_str());
                s
            },
            StageError::UnsupportedFallback { owner } => {
                let mut s = "component '".to_owned();
                s.append(owner.as_str());
                s.append("' declares a fallback that cannot be executed as one");
                s
            },
        }
    }
}

// ---------------------------------------------------------------------------------------------
// Layout

/// The directories that make an empty staged tree at `into`, in the order in which to create them.
pub fn prepare(into: &str) -> (dirs: Vec<String>)
    ensures
        dirs.deep_view() == seq![
            into@,
            path::below(into@, "bin"@),
            path::below(into@, "lib"@),
            path::below(into@, "etc"@),
            path::below(into@, "opt"@),
        ],
{
    let mut dirs: Vec<String> = Vec::new();
    dirs.push(into.to_owned());
    dirs.push(path::join(into, "bin"));
    dirs.push(path::join(into, "lib"));
    dirs.push(path::join(into, "etc"));
    dirs.push(path::join(into, "opt"));
    assert(dirs.deep_view() =~= seq![
        into@,
        path::below(into@, "bin"@),
        path::below(into@, "lib"@),
        path::below(into@, "etc"@),
        path::below(into@, "opt"@),
    ]);
    dirs
}

// ---------------------------------------------------------------------------------------------
// Seeding

/// The publication a new one is being built from.
///
/// Only files the previous receipt owns are carried forward, only those the new plan still wants,
/// and never those of a component known to have changed.
pub struct Seed<'a> {
    /// The previous publication's directory.
    pub publication: &'a str,
    /// What that publication owns. Nothing outside it is carried forward.
    pub receipt: &'a Receipt,
    /// Components whose files must be re-acquired rather than reused.
    pub stale: &'a Vec<String>,
}

/// Whether a plan installs to `dest`.
pub open spec fn installs_to(steps: Seq<StepFacts>, dest: Seq<char>) -> bool {
    exists|i: int|
        0 <= i < steps.len() && path::same_place((#[trigger] steps[i]).dest(), dest)
}

/// Whether an output of the previous publication is carried forward.
pub open spec fn is_carried(
    steps: Seq<StepFacts>,
    into: Seq<char>,
    stale: Seq<Seq<char>>,
    output: OutputFacts,
) -> bool {
    !stale.contains(output.owner) && installs_to(steps, path::below(into, output.path))
}

/// The files to carry forward, as `(source, destination)`, in the order of the receipt.
pub open spec fn carried(
    steps: Seq<StepFacts>,
    into: Seq<char>,
    publication: Seq<char>,
    stale: Seq<Seq<char>>,
    outputs: Seq<OutputFacts>,
) -> Seq<(Seq<char>, Seq<char>)>
    decreases outputs.len(),
{
    if outputs.len() == 0 {
        Seq::empty()
    } else {
        let before = carried(steps, into, publication, stale, outputs.drop_last());
        let output = outputs.last();
        if is_carried(steps, into, stale, output) {
            before.push((path::below(publication, output.path), path::below(into, output.path)))
        } else {
            before
        }
    }
}

fn wants(steps: &Vec<PlanStep>, dest: &str) -> (r: bool)
    ensures
        r == installs_to(steps.deep_view(), dest@),
{
    let ghost all = steps.deep_view();
    let mut i: usize = 0;
    while i < steps.len()
        invariant
            i <= steps@.len(),
            all == steps.deep_view(),
            forall|k: int|
                0 <= k < i ==> !path::same_place((#[trigger] all[k]).dest(), dest@),
        decreases steps.len() - i,
    {
        assert(all[i as int] == steps@[i as int].deep_view());
        if path::same(steps[i].dest(), dest) {
            return true;
        }
        i += 1;
    }
    false
}

/// The files of `from` that the new plan still wants, as `(source, destination)`.
///
/// A source that is not there is no failure: its step acquires it instead.
pub fn seed(plan: &InstallationPlan, into: &str, from: &Seed<'_>) -> (copies: Vec<(String, String)>)
    ensures
        copies.deep_view() == carried(
            plan.deep_view().steps,
            into@,
            from.publication@,
            from.stale.deep_view(),
            from.receipt.outputs.deep_view(),
        ),
{
    let ghost steps = plan.deep_view().steps;
    let ghost stale = from.stale.deep_view();
    let ghost all = from.receipt.outputs.deep_view();
    let outputs = &from.receipt.outputs;
    let mut copies: Vec<(String, String)> = Vec::new();
    let mut i: usize = 0;
    proof {
        assert(all.take(0) =~= Seq::empty());
        assert(copies.deep_view() =~= Seq::empty());
    }
    while i < outputs.len()
        invariant
            i <= outputs@.len(),
            outputs == from.receipt.outputs,
            steps == plan.deep_view().steps,
            stale == from.stale.deep_view(),
            all == outputs.deep_view(),
            copies.deep_view() == carried(
                steps,
                into@,
                from.publication@,
                stale,
                all.take(i as int),
            ),
        decreases outputs.len() - i,
    {
        let ghost before = copies.deep_view();
        let output = &outputs[i];
        proof {
            assert(all.take(i + 1).drop_last() =~= all.take(i as int));
            assert(all.take(i + 1).last() == output.deep_view());
        }
        let dest = path::join(into, output.path.as_str());
        if !text::is_member(from.stale, output.owner.as_str()) && wants(
            &plan.steps,
            dest.as_str(),
        ) {
            let src = path::join(from.publication, output.path.as_str());
            let ghost pair = (src@, dest@);
            copies.push((src, dest));
            assert(copies.deep_view() =~= before.push(pair));
        }
        i += 1;
    }
    assert(all.take(i as int) =~= all);
    copies
}

// ---------------------------------------------------------------------------------------------
// Shims

/// The shims of a plan, as `(link, target)`. Targets are relative, so that a shim keeps working
/// when the publication directory is renamed.
pub open spec fn shim_links(
    symlinks: Seq<(Seq<char>, Seq<char>)>,
    staging_root: Seq<char>,
) -> Seq<(Seq<char>, Seq<char>)> {
    Seq::new(
        symlinks.len(),
        |i: int|
            (
                path::below(path::below(staging_root, "opt"@), symlinks[i].0),
                path::below(path::below(".."@, "bin"@), symlinks[i].1),
            ),
    )
}

/// The `opt/` shims described by the plan, as `(link, target)`. A link that is already there stays.
pub fn create_symlinks(plan: &InstallationPlan, staging_root: &str) -> (links: Vec<
    (String, String),
>)
    ensures
        links.deep_view() == shim_links(plan.deep_view().symlinks, staging_root@),
{
    let ghost all = plan.deep_view().symlinks;
    let opt = path::join(staging_root, "opt");
    let bin = path::join("..", "bin");
    let mut links: Vec<(String, String)> = Vec::new();
    let mut i: usize = 0;
    while i < plan.symlinks.len()
        invariant
            i <= plan.symlinks@.len(),
            all == plan.deep_view().symlinks,
            opt@ == path::below(staging_root@, "opt"@),
            bin@ == path::below(".."@, "bin"@),
            links@.len() == i,
            forall|k: int|
                0 <= k < i ==> (#[trigger] links@[k]).deep_view() == shim_links(
                    all,
                    staging_root@,
                )[k],
        decreases plan.symlinks.len() - i,
    {
        let symlink = &plan.symlinks[i];
        assert(all[i as int] == symlink.deep_view());
        links.push(
            (
                path::join(opt.as_str(), symlink.name.as_str()),
                path::join(bin.as_str(), symlink.target_binary.as_str()),
            ),
        );
        i += 1;
    }
    proof {
        assert forall|k: int| 0 <= k < links.deep_view().len() implies links.deep_view()[k]
            == shim_links(all, staging_root@)[k] by {
            assert(links@[k].deep_view() == shim_links(all, staging_root@)[k]);
        }
        assert(links.deep_view() =~= shim_links(all, staging_root@));
    }
    links
}

// ---------------------------------------------------------------------------------------------
// Verification

/// What was seen at the destination of a step.
#[derive(Debug, Clone, Copy, PartialEq, Eq, Structural)]
pub enum FileStatus {
    Missing,
    /// Something that is no regular file.
    NotAFile,
    /// A regular file, with its mode bits.
    File { mode: u32 },
}

/// The permission bits of a mode.
pub open spec fn permissions(mode: u32) -> u32 {
    mode & 0o777
}

/// What is wrong with one staged file, if anything.
pub open spec fn misplaced(step: StepFacts, seen: FileStatus) -> Option<StageErrorFacts> {
    match seen {
        FileStatus::Missing => Some(
            StageErrorFacts::Missing { owner: step.owner(), path: step.dest() },
        ),
        FileStatus::NotAFile => Some(
            StageErrorFacts::NotAFile { owner: step.owner(), path: step.dest() },
        ),
        FileStatus::File { mode } => if permissions(mode) != step.mode() {
            Some(
                StageErrorFacts::WrongMode {
                    owner: step.owner(),
                    path: step.dest(),
                    expected: step.mode(),
                    found: permissions(mode),
                },
            )
        } else {
            None
        },
    }
}

/// The first staged file that is not as planned.
pub open spec fn first_misplaced(steps: Seq<StepFacts>, seen: Seq<FileStatus>, n: int) -> Option<
    StageErrorFacts,
>
    decreases steps.len() - n,
{
    if n >= steps.len() {
        None
    } else if misplaced(steps[n], seen[n]) is Some {
        misplaced(steps[n], seen[n])
    } else {
        first_misplaced(steps, seen, n + 1)
    }
}

/// The first shim that was not created.
pub open spec fn first_missing_shim(
    links: Seq<(Seq<char>, Seq<char>)>,
    present: Seq<bool>,
    n: int,
) -> Option<StageErrorFacts>
    decreases links.len() - n,
{
    if n >= links.len() {
        None
    } else if !present[n] {
        Some(StageErrorFacts::MissingSymlink { path: links[n].0 })
    } else {
        first_missing_shim(links, present, n + 1)
    }
}

/// What is wrong with a staged tree, if anything: files first, then shims.
pub open spec fn verified(
    plan: PlanFacts,
    staging_root: Seq<char>,
    seen: Seq<FileStatus>,
    present: Seq<bool>,
) -> Option<StageErrorFacts> {
    let wrong = first_misplaced(plan.steps, seen, 0);
    if wrong is Some {
        wrong
    } else {
        first_missing_shim(shim_links(plan.symlinks, staging_root), present, 0)
    }
}

fn check_file(step: &PlanStep, seen: FileStatus) -> (r: Option<StageError>)
    ensures
        r.deep_view() == misplaced(step.deep_view(), seen),
{
    match seen {
        FileStatus::Missing => Some(
            StageError::Missing { owner: step.owner().to_owned(), path: step.dest().to_owned() },
        ),
        FileStatus::NotAFile => Some(
            StageError::NotAFile { owner: step.owner().to_owned(), path: step.dest().to_owned() },
        ),
        FileStatus::File { mode } => {
            let found = mode & 0o777;
            let expected = step.mode();
            if found != expected {
                Some(
                    StageError::WrongMode {
                        owner: step.owner().to_owned(),
                        path: step.dest().to_owned(),
                        expected,
                        found,
                    },
                )
            } else {
                None
            }
        },
    }
}

/// Checks a staged tree structurally, before anything is published.
///
/// `seen` is what stands at the destination of each step, `present` whether each shim is there.
/// Contents are deliberately not verified.
pub fn verify(
    plan: &InstallationPlan,
    staging_root: &str,
    seen: &Vec<FileStatus>,
    present: &Vec<bool>,
) -> (r: Result<(), StageError>)
    requires
        seen@.len() == plan.steps@.len(),
        present@.len() == plan.symlinks@.len(),
    ensures
        match r {
            Ok(_) => verified(plan.deep_view(), staging_root@, seen@, present@) is None,
            Err(e) => verified(plan.deep_view(), staging_root@, seen@, present@) == Some(
                e.deep_view(),
            ),
        },
{
    let ghost facts = plan.deep_view();
    let mut i: usize = 0;
    while i < plan.steps.len()
        invariant
            i <= plan.steps@.len(),
            seen@.len() == plan.steps@.len(),
            facts == plan.deep_view(),
            first_misplaced(facts.steps, seen@, 0) == first_misplaced(
                facts.steps,
                seen@,
                i as int,
            ),
        decreases plan.steps.len() - i,
    {
        assert(facts.steps[i as int] == plan.steps@[i as int].deep_view());
        if let Some(e) = check_file(&plan.steps[i], seen[i]) {
            return Err(e);
        }
        i += 1;
    }
    let links = create_symlinks(plan, staging_root);
    let ghost shims = shim_links(facts.symlinks, staging_root@);
    let mut j: usize = 0;
    while j < links.len()
        invariant
            j <= links@.len(),
            links.deep_view() == shims,
            present@.len() == links@.len(),
            first_missing_shim(shims, present@, 0) == first_missing_shim(
                shims,
                present@,
                j as int,
            ),
            verified(plan.deep_view(), staging_root@, seen@, present@) == first_missing_shim(
                shims,
                present@,
                0,
            ),
        decreases links.len() - j,
    {
        assert(shims[j as int] == links@[j as int].deep_view());
        if !present[j] {
            return Err(StageError::MissingSymlink { path: links[j].0.clone() });
        }
        j += 1;
    }
    Ok(())
}

} // verus!
