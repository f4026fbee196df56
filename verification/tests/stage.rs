//! Staging an installation: what is carried forward, what is run, what is checked.

use std::collections::{BTreeMap, BTreeSet};

use midenup::artifact::{Artifact, Artifacts};
use midenup::install::cargo::CargoError;
use midenup::install::execution::{execute, run, Action, Event, Execution};
use midenup::install::stage::{
    create_symlinks, prepare, seed, verify, FileStatus, Seed, StageError,
};
use midenup::manifest::{
    Channel, Component, ComponentKind, ExecutableComponent, InstallationMethod,
};
use midenup::plan::authority::ResolvedAuthority;
use midenup::plan::destination::{MODE_DATA, MODE_EXECUTABLE};
use midenup::plan::key::PlanKey;
use midenup::plan::planner::{build, InstallationPlan};
use midenup::plan::step::PlanStep;
use midenup::profile::Profile;
use midenup::resolve::Intent;
use midenup::state::{Output, RealizedMethod, Receipt};
use midenup::value::Extra;
use midenup::version::{Authority, Version};

const TARGET: &str = "aarch64-apple-darwin";

const STAGING: &str = "/root/staging";

/// A file system in memory.
#[derive(Clone, Default)]
struct Tree {
    files: BTreeMap<String, (Vec<u8>, u32)>,
    dirs: BTreeSet<String>,
    links: BTreeMap<String, String>,
    /// The steps that were performed, by owner.
    performed: Vec<String>,
}

impl Tree {
    fn write(&mut self, path: &str, contents: &[u8]) {
        self.files.insert(path.to_string(), (contents.to_vec(), 0o644));
    }

    fn read(&self, path: &str) -> Option<&[u8]> {
        self.files.get(path).map(|(contents, _)| contents.as_slice())
    }

    fn holds(&self, path: &str) -> bool {
        self.files.contains_key(path) || self.dirs.contains(path)
    }

    fn prepare(&mut self, into: &str) {
        self.dirs.extend(prepare(into));
    }

    fn seed(&mut self, plan: &InstallationPlan, into: &str, from: &Seed<'_>) {
        for (source, destination) in seed(plan, into, from) {
            if let Some(file) = self.files.get(&source).cloned() {
                self.files.insert(destination, file);
            }
        }
    }

    fn perform(&mut self, step: &PlanStep) -> Result<(), StageError> {
        self.performed.push(step.owner().to_string());
        match step {
            PlanStep::CopyLocal { src, dest, mode, .. } => match self.read(src) {
                Some(contents) => {
                    let contents = contents.to_vec();
                    self.files.insert(dest.clone(), (contents, *mode));
                    Ok(())
                },
                None => Err(StageError::Acquire(format!("cannot read '{src}'"))),
            },
            PlanStep::CargoBuild { dest, .. } => {
                self.files.insert(dest.clone(), (b"built".to_vec(), MODE_EXECUTABLE));
                Ok(())
            },
            _ => Err(StageError::Acquire("cannot be fetched".to_string())),
        }
    }

    /// Runs a plan to its end; what was produced, and how.
    fn execute(
        &mut self,
        plan: &InstallationPlan,
        staging: &str,
    ) -> Result<BTreeMap<String, RealizedMethod>, StageError> {
        let mut execution = Execution::start(plan);
        while !execution.is_done() {
            let event = match execution.action(plan) {
                Action::Probe { dest } => Event::Exists(self.holds(dest)),
                Action::Run { step } => Event::Finished(self.perform(step)),
                Action::Extract { steps } => {
                    for step in steps {
                        self.files.insert(step.dest().to_string(), (b"package".to_vec(), MODE_DATA));
                    }
                    Event::Finished(Ok(()))
                },
                Action::Link => {
                    for (link, target) in create_symlinks(plan, staging) {
                        self.links.entry(link).or_insert(target);
                    }
                    Event::Finished(Ok(()))
                },
                Action::Done => unreachable!("an execution that is done takes no action"),
            };
            execution = execute(plan, execution, event)?;
        }
        let realized = execution.realized();
        Ok((0..realized.len())
            .map(|i| (realized.key(i).clone(), *realized.value(i)))
            .collect())
    }

    fn verify(&self, plan: &InstallationPlan, staging: &str) -> Result<(), StageError> {
        let seen: Vec<FileStatus> = plan
            .steps
            .iter()
            .map(|step| match self.files.get(step.dest()) {
                Some((_, mode)) => FileStatus::File { mode: 0o100000 | *mode },
                None if self.dirs.contains(step.dest()) => FileStatus::NotAFile,
                None => FileStatus::Missing,
            })
            .collect();
        let present: Vec<bool> = create_symlinks(plan, staging)
            .iter()
            .map(|(link, _)| self.links.contains_key(link))
            .collect();
        verify(plan, staging, &seen, &present)
    }
}

fn registry() -> ResolvedAuthority {
    ResolvedAuthority::Registry { version: Version::new(0, 1, 0) }
}

/// A plan for one prebuilt executable and one package, both sourced from local files.
fn staged() -> (InstallationPlan, Tree) {
    let mut tree = Tree::default();
    tree.write("/root/sources/miden-vm", b"binary");
    tree.write("/root/sources/core.masp", b"package");

    let artifacts = |name: &str| {
        let mut artifacts = Artifacts::default();
        artifacts.insert(
            name.to_string(),
            Artifact::TargetAgnostic {
                uri: format!("file:///root/sources/{name}"),
                digest: None,
                archive: None,
                extra: Extra::default(),
            },
        );
        artifacts
    };
    let component = |name: &str, kind, artifacts| Component {
        name: name.to_string(),
        version: Authority::Registry { version: Version::new(0, 1, 0) },
        kind,
        profiles: vec![Profile::Minimal],
        requires: vec![],
        artifacts,
        extra: Extra::default(),
    };
    let channel = Channel::new(
        Version::new(0, 15, 0),
        vec![
            component(
                "vm",
                ComponentKind::Executable {
                    installation_method: InstallationMethod::Prebuilt,
                    spec: ExecutableComponent {
                        installed_executable: "miden-vm".to_string(),
                        ..Default::default()
                    },
                },
                artifacts("miden-vm"),
            ),
            component("core", ComponentKind::Package, artifacts("core.masp")),
        ],
    );
    let plan = build(
        &channel,
        &Intent::new(&[Profile::Complete], &[]),
        &vec![Ok(registry()), Ok(registry())],
        TARGET,
        STAGING,
    )
    .expect("should plan");
    (plan, tree)
}

#[test]
fn a_staged_tree_contains_every_planned_file() {
    let (plan, mut tree) = staged();
    tree.prepare(STAGING);
    tree.execute(&plan, STAGING).expect("should stage");
    tree.verify(&plan, STAGING).expect("should verify");

    assert_eq!(tree.read("/root/staging/bin/miden-vm").unwrap(), b"binary");
    assert_eq!(tree.read("/root/staging/lib/core.masp").unwrap(), b"package");
}

#[test]
fn the_planned_modes_are_applied() {
    let (plan, mut tree) = staged();
    tree.prepare(STAGING);
    tree.execute(&plan, STAGING).unwrap();

    assert_eq!(tree.files["/root/staging/bin/miden-vm"].1, MODE_EXECUTABLE);
    assert_eq!(
        tree.files["/root/staging/lib/core.masp"].1,
        MODE_DATA,
        "packages are data, not programs"
    );
}

#[test]
fn shims_are_created_and_point_into_bin() {
    let (plan, mut tree) = staged();
    tree.prepare(STAGING);
    tree.execute(&plan, STAGING).unwrap();

    let target = tree.links.get("/root/staging/opt/miden vm").expect("the shim must be a symlink");
    assert_eq!(
        target, "../bin/miden-vm",
        "relative, so it survives the publication directory being renamed"
    );
}

/// Verification must notice a file the plan promised but staging did not produce.
#[test]
fn a_missing_file_fails_verification() {
    let (plan, mut tree) = staged();
    tree.prepare(STAGING);
    tree.execute(&plan, STAGING).unwrap();

    tree.files.remove("/root/staging/lib/core.masp");
    let err = tree.verify(&plan, STAGING).expect_err("must fail");
    assert!(matches!(err, StageError::Missing { .. }), "{}", err.to_string());
    assert_eq!(
        err.to_string(),
        "component 'core' was installed, but '/root/staging/lib/core.masp' is missing"
    );
}

#[test]
fn a_wrong_mode_fails_verification() {
    let (plan, mut tree) = staged();
    tree.prepare(STAGING);
    tree.execute(&plan, STAGING).unwrap();

    tree.files.get_mut("/root/staging/bin/miden-vm").unwrap().1 = 0o644;
    let err = tree.verify(&plan, STAGING).expect_err("must fail");
    assert!(matches!(err, StageError::WrongMode { .. }), "{}", err.to_string());
    assert_eq!(
        err.to_string(),
        "component 'vm' installed '/root/staging/bin/miden-vm' with mode 644, expected 755"
    );
}

#[test]
fn a_missing_shim_fails_verification() {
    let (plan, mut tree) = staged();
    tree.prepare(STAGING);
    tree.execute(&plan, STAGING).unwrap();

    tree.links.remove("/root/staging/opt/miden vm");
    let err = tree.verify(&plan, STAGING).expect_err("must fail");
    assert!(matches!(err, StageError::MissingSymlink { .. }), "{}", err.to_string());
}

/// A directory where a file was planned must not pass: verification is against the exact
/// destination, not a containing directory that exists as soon as the tree is prepared.
#[test]
fn a_directory_where_a_file_was_planned_fails_verification() {
    let (plan, mut tree) = staged();
    tree.prepare(STAGING);
    tree.execute(&plan, STAGING).unwrap();

    let path = "/root/staging/lib/core.masp";
    tree.files.remove(path);
    tree.dirs.insert(path.to_string());

    let err = tree.verify(&plan, STAGING).expect_err("must fail");
    assert!(matches!(err, StageError::NotAFile { .. }), "{}", err.to_string());
}

/// Re-staging an already complete tree must be a no-op, which is what makes updates cheap.
#[test]
fn staging_is_idempotent() {
    let (plan, mut tree) = staged();
    tree.prepare(STAGING);
    tree.execute(&plan, STAGING).unwrap();

    // Mark the file so that acquiring it again would be detectable.
    let marked = "/root/staging/bin/miden-vm";
    tree.write(marked, b"marked");

    let again = tree.execute(&plan, STAGING).expect("re-staging must succeed");
    assert_eq!(tree.read(marked).unwrap(), b"marked", "an existing file must not be re-fetched");
    assert!(again.is_empty(), "nothing was produced the second time");
}

/// A previous publication with `bin/miden-vm`, `lib/core.masp` and a file it does not own.
fn previous_publication(tree: &mut Tree) -> (&'static str, Receipt) {
    let dir = "/root/previous";
    tree.prepare(dir);
    tree.write("/root/previous/bin/miden-vm", b"old-binary");
    tree.write("/root/previous/lib/core.masp", b"old-package");
    tree.write("/root/previous/lib/stray.masp", b"nobody-owns-me");

    let output = |path: &str, owner: &str, mode| Output {
        path: path.to_string(),
        owner: owner.to_string(),
        mode,
        realized: RealizedMethod::Prebuilt,
        digest: None,
    };
    let receipt = Receipt {
        publication_id: "previous".to_string(),
        plan_key: PlanKey::parse(&format!("pk1:{}", "a".repeat(64))).unwrap(),
        target: TARGET.to_string(),
        channel: Version::new(0, 15, 0),
        outputs: vec![
            output("bin/miden-vm", "vm", MODE_EXECUTABLE),
            output("lib/core.masp", "core", MODE_DATA),
        ],
    };
    (dir, receipt)
}

/// Seeding copies what the previous receipt owns and nothing else, so an unowned file sitting in the
/// old publication -- a leftover from an interrupted install, a file of a component since removed --
/// is not inherited by the new one.
#[test]
fn seeding_copies_only_paths_the_old_receipt_owns() {
    let (plan, mut tree) = staged();
    let (publication, receipt) = previous_publication(&mut tree);

    tree.prepare(STAGING);
    tree.seed(&plan, STAGING, &Seed { publication, receipt: &receipt, stale: &vec![] });

    assert_eq!(
        tree.read("/root/staging/bin/miden-vm").unwrap(),
        b"old-binary",
        "an owned, still-planned file must be carried forward"
    );
    assert!(
        !tree.holds("/root/staging/lib/stray.masp"),
        "an unowned file must not be carried forward"
    );
}

/// A file the previous publication owned but the new plan does not want is simply not seeded, which
/// is how a component removed upstream stops being installed.
#[test]
fn files_not_in_the_new_plan_are_not_seeded() {
    let (plan, mut tree) = staged();
    let (publication, mut receipt) = previous_publication(&mut tree);
    tree.write("/root/previous/bin/miden-debug", b"old-debug");
    receipt.outputs.push(Output {
        path: "bin/miden-debug".to_string(),
        owner: "debug".to_string(),
        mode: MODE_EXECUTABLE,
        realized: RealizedMethod::Prebuilt,
        digest: None,
    });

    tree.prepare(STAGING);
    tree.seed(&plan, STAGING, &Seed { publication, receipt: &receipt, stale: &vec![] });

    assert!(!tree.holds("/root/staging/bin/miden-debug"));
}

/// A component known to have changed must be re-acquired, not reused -- otherwise an update that
/// keeps a destination's name would silently keep its old contents.
#[test]
fn a_stale_component_is_re_acquired_rather_than_seeded() {
    let (plan, mut tree) = staged();
    let (publication, receipt) = previous_publication(&mut tree);

    tree.prepare(STAGING);
    let stale = vec!["vm".to_string()];
    tree.seed(&plan, STAGING, &Seed { publication, receipt: &receipt, stale: &stale });
    tree.execute(&plan, STAGING).unwrap();

    assert_eq!(
        tree.read("/root/staging/bin/miden-vm").unwrap(),
        b"binary",
        "a stale component must be re-acquired"
    );
    assert_eq!(
        tree.read("/root/staging/lib/core.masp").unwrap(),
        b"old-package",
        "an unchanged component must still be reused"
    );
}

/// Staging must never create `var/` inside a publication. It lives outside, keyed by channel,
/// precisely so that replacing a publication cannot touch it.
#[test]
fn staging_never_creates_var_inside_a_publication() {
    let (plan, mut tree) = staged();
    let (publication, receipt) = previous_publication(&mut tree);

    tree.prepare(STAGING);
    tree.seed(&plan, STAGING, &Seed { publication, receipt: &receipt, stale: &vec![] });
    tree.execute(&plan, STAGING).unwrap();

    assert!(!tree.holds("/root/staging/var"));
    assert_eq!(
        prepare("/s"),
        ["/s", "/s/bin", "/s/lib", "/s/etc", "/s/opt"].map(|dir| dir.to_string())
    );
}

/// Every destination the run produced is reported, so the receipt can record how each file was
/// really obtained rather than how the plan said it would be.
#[test]
fn execution_reports_how_each_destination_was_produced() {
    let (plan, mut tree) = staged();
    tree.prepare(STAGING);

    let realized = tree.execute(&plan, STAGING).unwrap();
    assert_eq!(realized.get("/root/staging/bin/miden-vm"), Some(&RealizedMethod::Prebuilt));
    assert_eq!(realized.get("/root/staging/lib/core.masp"), Some(&RealizedMethod::Prebuilt));
    assert_eq!(tree.performed, ["vm", "core"]);
}

fn copy(src: &str, fallback: Option<PlanStep>) -> PlanStep {
    PlanStep::CopyLocal {
        src: src.to_string(),
        dest: "/root/staging/bin/miden-vm".to_string(),
        mode: MODE_EXECUTABLE,
        owner: "vm".to_string(),
        archive: None,
        fallback: fallback.map(Box::new),
    }
}

/// A transfer failure with no declared fallback stays fatal.
#[test]
fn a_failed_transfer_without_a_fallback_is_fatal() {
    let (mut plan, mut tree) = staged();
    tree.prepare(STAGING);
    plan.steps[0] = copy("/root/does-not-exist", None);

    assert!(tree.execute(&plan, STAGING).is_err());
}

/// A failed transfer for a component declaring a fallback is recoverable, not fatal -- the fallback
/// carried by the step runs in its place, and what *actually* produced the file is reported, because
/// uninstall has to match the path really taken.
#[test]
fn a_taken_fallback_reports_its_own_method() {
    let (mut plan, mut tree) = staged();
    tree.prepare(STAGING);
    tree.write("/root/replacement", b"from-the-fallback");
    plan.steps[0] = copy("/root/does-not-exist", Some(copy("/root/replacement", None)));

    let realized = tree.execute(&plan, STAGING).expect("the fallback must be taken");
    let dest = "/root/staging/bin/miden-vm";
    assert_eq!(tree.read(dest).unwrap(), b"from-the-fallback");
    assert_eq!(realized.get(dest), Some(&RealizedMethod::Prebuilt));

    let (mut plan, mut tree) = staged();
    tree.prepare(STAGING);
    let built = PlanStep::CargoBuild {
        crate_name: "miden-vm".to_string(),
        authority: registry(),
        features: vec![],
        rustup_channel: None,
        expect_binary: "miden-vm".to_string(),
        dest: dest.to_string(),
        owner: "vm".to_string(),
    };
    plan.steps[0] = copy("/root/does-not-exist", Some(built));
    let realized = tree.execute(&plan, STAGING).expect("the fallback must be taken");
    assert_eq!(realized.get(dest), Some(&RealizedMethod::Cargo));
}

/// Only one retry: where the fallback fails too, its failure is reported.
#[test]
fn a_failed_fallback_is_fatal() {
    let (mut plan, mut tree) = staged();
    tree.prepare(STAGING);
    plan.steps[0] = copy("/root/one", Some(copy("/root/two", Some(copy("/root/three", None)))));
    let err = tree.execute(&plan, STAGING).unwrap_err();
    assert_eq!(err, StageError::Acquire("cannot read '/root/two'".to_string()));
    assert_eq!(tree.performed, ["vm", "vm"]);
}

fn extraction(dest: &str) -> PlanStep {
    PlanStep::ExtractPackage {
        crate_name: "miden-protocol".to_string(),
        authority: registry(),
        features: vec![],
        extractor: "x()".to_string(),
        dest: dest.to_string(),
        owner: "protocol".to_string(),
    }
}

/// An extraction cannot be run alone, so it cannot be a fallback.
#[test]
fn an_extraction_is_no_fallback() {
    let (mut plan, mut tree) = staged();
    tree.prepare(STAGING);
    let step = extraction("/root/staging/lib/protocol.masp");
    assert_eq!(
        run(&step),
        Err(StageError::UnsupportedFallback { owner: "protocol".to_string() })
    );
    plan.steps[0] = copy("/root/does-not-exist", Some(step));
    let err = tree.execute(&plan, STAGING).unwrap_err();
    assert_eq!(
        err.to_string(),
        "component 'protocol' declares a fallback that cannot be executed as one"
    );
}

/// Extractions are collected and performed together, after everything else.
#[test]
fn extractions_are_performed_together() {
    let (mut plan, mut tree) = staged();
    tree.prepare(STAGING);
    plan.steps.insert(0, extraction("/root/staging/lib/a.masp"));
    plan.steps.push(extraction("/root/staging/lib/b.masp"));

    let mut execution = Execution::start(&plan);
    let mut batches: Vec<usize> = vec![];
    let mut before: usize = 0;
    while !execution.is_done() {
        let event = match execution.action(&plan) {
            Action::Probe { .. } => Event::Exists(false),
            Action::Extract { steps } => {
                batches.push(steps.len());
                Event::Finished(Ok(()))
            },
            Action::Run { .. } => {
                before += 1;
                Event::Finished(Ok(()))
            },
            _ => Event::Finished(Ok(())),
        };
        execution = execute(&plan, execution, event).unwrap();
    }
    assert_eq!(batches, [2]);
    assert_eq!(before, 2);
    let realized = tree.execute(&plan, STAGING).unwrap();
    assert_eq!(realized.get("/root/staging/lib/a.masp"), Some(&RealizedMethod::Extracted));
    assert_eq!(realized.get("/root/staging/lib/b.masp"), Some(&RealizedMethod::Extracted));
    assert_eq!(realized.len(), 4);
}

/// A plan without steps only creates its shims.
#[test]
fn an_empty_plan_only_links() {
    let (mut plan, mut tree) = staged();
    plan.steps.clear();
    let execution = Execution::start(&plan);
    assert!(matches!(execution.action(&plan), Action::Link));
    assert!(tree.execute(&plan, STAGING).unwrap().is_empty());
    assert_eq!(tree.links.len(), 1);
}

#[test]
fn staging_errors_say_what_is_wrong() {
    let create =
        StageError::Create { path: "/s".to_string(), source: "permission denied".to_string() };
    assert_eq!(create.to_string(), "failed to create '/s': permission denied");
    let carried = StageError::Seed { path: "/s/bin/x".to_string(), source: "full".to_string() };
    assert_eq!(
        carried.to_string(),
        "failed to carry '/s/bin/x' forward from the previous installation: full"
    );
    let cargo = StageError::Cargo(CargoError::Spawn("not found".to_string()));
    assert_eq!(cargo.to_string(), "failed to run cargo: not found");
    assert_eq!(StageError::Extract("torn".to_string()).to_string(), "torn");
    let shim = StageError::MissingSymlink { path: "/s/opt/miden vm".to_string() };
    assert_eq!(shim.to_string(), "the shim '/s/opt/miden vm' was not created");
    let directory =
        StageError::NotAFile { owner: "vm".to_string(), path: "/s/bin/vm".to_string() };
    assert_eq!(
        directory.to_string(),
        "component 'vm' installed '/s/bin/vm', but it is not a regular file"
    );
}
