//! Installation plans.

use midenup::artifact::{Archive, ArchiveFormat, Artifact, Artifacts, InvalidArtifactError, Substitutions};
use midenup::exec::Executable;
use midenup::manifest::{
    Channel, Component, ComponentKind, ExecutableComponent, InstallationMethod,
    PackageInstallationMethod,
};
use midenup::plan::authority::{PinError, ResolvedAuthority};
use midenup::plan::destination::{validate_artifact_id, MODE_DATA, MODE_EXECUTABLE};
use midenup::plan::planner::{build, component_key, InstallationPlan, PlanError};
use midenup::plan::step::PlanStep;
use midenup::profile::Profile;
use midenup::resolve::{resolve, Intent};
use midenup::sorted::SortedMap;
use midenup::value::Extra;
use midenup::version::{Authority, GitTarget, Version};

const TARGET: &str = "aarch64-apple-darwin";

fn intent() -> Intent {
    Intent::new(&[Profile::Complete], &[])
}

fn agnostic(uri: &str) -> Artifact {
    Artifact::TargetAgnostic {
        uri: uri.to_string(),
        digest: None,
        archive: None,
        extra: Extra::default(),
    }
}

fn packaged(uri: &str, format: &str) -> Artifact {
    Artifact::TargetAgnostic {
        uri: uri.to_string(),
        digest: None,
        archive: Some(Archive { format: ArchiveFormat::parse(format), extra: Extra::default() }),
        extra: Extra::default(),
    }
}

/// A target-agnostic artifact published as a gzipped tarball.
fn archived(uri: &str) -> Artifact {
    packaged(uri, "tar.gz")
}

fn specific(uri: &str, targets: &[&str]) -> Artifact {
    let mut supported: SortedMap<Substitutions> = SortedMap::new();
    for target in targets {
        supported.insert(target.to_string(), Substitutions::default());
    }
    Artifact::TargetSpecific {
        uri: uri.to_string(),
        substitutions: None,
        targets: supported,
        digest: None,
        archive: None,
        extra: Extra::default(),
    }
}

fn component(name: &'static str, kind: ComponentKind, artifacts: &[(&str, Artifact)]) -> Component {
    let mut declared = Artifacts::default();
    for (id, artifact) in artifacts {
        declared.insert(id.to_string(), artifact.clone());
    }
    Component {
        name: name.to_string(),
        version: Authority::Registry { version: Version::new(0, 1, 0) },
        kind,
        profiles: vec![Profile::Minimal],
        requires: vec![],
        artifacts: declared,
        extra: Extra::default(),
    }
}

fn executable_kind(method: InstallationMethod, installed: &str) -> ComponentKind {
    ComponentKind::Executable {
        installation_method: method,
        spec: ExecutableComponent {
            installed_executable: installed.to_string(),
            ..Default::default()
        },
    }
}

fn cargo(crate_name: &str) -> InstallationMethod {
    InstallationMethod::Cargo {
        crate_name: crate_name.to_string(),
        rustup_channel: None,
        features: vec![],
    }
}

fn fallback(crate_name: &str) -> InstallationMethod {
    InstallationMethod::PrebuiltWithCargoFallback {
        crate_name: crate_name.to_string(),
        rustup_channel: None,
        features: vec![],
    }
}

fn channel(components: Vec<Component>) -> Channel {
    Channel::new(Version::new(0, 15, 0), components)
}

/// What pinning yields for an authority that needs no look at the outside.
fn pin(authority: &Authority) -> Result<ResolvedAuthority, PinError> {
    match authority {
        Authority::Registry { version } => {
            Ok(ResolvedAuthority::Registry { version: version.clone() })
        },
        Authority::Git {
            repository_url,
            subpath,
            target: GitTarget::Branch { latest_revision: Some(revision), .. },
        } => Ok(ResolvedAuthority::Git {
            url: repository_url.clone(),
            revision: revision.clone(),
            subpath: subpath.clone(),
        }),
        _ => Err(PinError { message: "cannot be pinned".to_string() }),
    }
}

fn planned(
    channel: &Channel,
    intent: &Intent,
    target: &str,
    sysroot: &str,
) -> Result<InstallationPlan, PlanError> {
    let pins = match resolve(channel, intent) {
        Ok(components) => components.iter().map(|c| pin(&c.version)).collect(),
        Err(_) => vec![],
    };
    build(channel, intent, &pins, target, sysroot)
}

fn plan_of(components: Vec<Component>) -> Result<InstallationPlan, PlanError> {
    planned(&channel(components), &intent(), TARGET, "/sysroot")
}

#[test]
fn a_prebuilt_executable_downloads_to_bin() {
    let plan = plan_of(vec![component(
        "vm",
        executable_kind(InstallationMethod::Prebuilt, "miden-vm"),
        &[("miden-vm", agnostic("https://example.invalid/vm"))],
    )])
    .expect("should plan");

    assert_eq!(plan.steps.len(), 1);
    assert!(matches!(&plan.steps[0], PlanStep::Download { dest, mode, .. }
        if dest == "/sysroot/bin/miden-vm" && *mode == MODE_EXECUTABLE));
}

#[test]
fn a_file_artifact_becomes_a_local_copy() {
    let plan = plan_of(vec![component(
        "vm",
        executable_kind(InstallationMethod::Prebuilt, "miden-vm"),
        &[("miden-vm", agnostic("file:///tmp/miden-vm"))],
    )])
    .expect("should plan");
    assert!(matches!(&plan.steps[0], PlanStep::CopyLocal { .. }));
}

/// A prebuilt component with no artifact for this target cannot be installed.
///
/// Planning must reject it outright: an empty artifact list yields an install that reports
/// success while placing no files.
#[test]
fn a_prebuilt_executable_without_target_support_fails() {
    let err = plan_of(vec![component(
        "vm",
        executable_kind(InstallationMethod::Prebuilt, "miden-vm"),
        &[(
            "miden-vm",
            specific("https://example.invalid/%target", &["x86_64-unknown-linux-gnu"]),
        )],
    )])
    .expect_err("must fail");
    assert!(matches!(err, PlanError::TargetUnsupported { .. }), "{}", err.to_string());
}

/// ...unless a Cargo fallback is declared, which is exactly what makes it recoverable.
#[test]
fn a_declared_fallback_turns_missing_target_support_into_a_cargo_build() {
    let plan = plan_of(vec![component(
        "vm",
        executable_kind(fallback("miden-vm"), "miden-vm"),
        &[(
            "miden-vm",
            specific("https://example.invalid/%target", &["x86_64-unknown-linux-gnu"]),
        )],
    )])
    .expect("should plan");

    assert!(matches!(&plan.steps[0], PlanStep::CargoBuild { expect_binary, .. }
        if expect_binary == "miden-vm"));
}

#[test]
fn a_fallback_prefers_the_artifact_when_the_target_is_supported() {
    let plan = plan_of(vec![component(
        "vm",
        executable_kind(fallback("miden-vm"), "miden-vm"),
        &[("miden-vm", specific("https://example.invalid/%target", &[TARGET]))],
    )])
    .expect("should plan");
    assert!(matches!(&plan.steps[0], PlanStep::Download { .. }));
}

/// ...but the declared fallback still travels with the transfer. An artifact that is listed
/// for this target and then 404s at execution time is exactly what the fallback is for, and the
/// executor cannot construct one on its own -- it holds no manifest.
#[test]
fn a_supported_target_still_carries_the_fallback_on_the_transfer_step() {
    let plan = plan_of(vec![component(
        "vm",
        executable_kind(fallback("miden-vm"), "miden-vm"),
        &[("miden-vm", specific("https://example.invalid/%target", &[TARGET]))],
    )])
    .expect("should plan");

    let fallback = plan.steps[0].fallback().expect("the transfer must carry its fallback");
    assert!(matches!(fallback, PlanStep::CargoBuild { expect_binary, dest, .. }
        if expect_binary == "miden-vm" && dest == plan.steps[0].dest()));
}

#[test]
fn a_cargo_executable_declaring_artifacts_is_rejected() {
    let err = plan_of(vec![component(
        "vm",
        executable_kind(cargo("miden-vm"), "miden-vm"),
        &[("miden-vm", agnostic("https://example.invalid/vm"))],
    )])
    .expect_err("must fail");
    assert!(matches!(err, PlanError::ArtifactCardinality { .. }), "{}", err.to_string());
}

/// An executable installs exactly one file, so its artifact must be named for that file --
/// otherwise the id and the installed name describe different things.
#[test]
fn an_executable_artifact_must_be_named_for_the_installed_binary() {
    let err = plan_of(vec![component(
        "vm",
        executable_kind(InstallationMethod::Prebuilt, "miden-vm"),
        &[("something-else", agnostic("https://example.invalid/vm"))],
    )])
    .expect_err("must fail");
    assert!(matches!(err, PlanError::ArtifactIdMismatch { .. }), "{}", err.to_string());
}

/// Same destination and mode as an unarchived artifact, plus the format to unpack.
#[test]
fn an_archived_artifact_carries_its_format_into_the_step() {
    let plan = plan_of(vec![component(
        "vm",
        executable_kind(InstallationMethod::Prebuilt, "miden-vm"),
        &[("miden-vm", archived("https://example.invalid/vm.tar.gz"))],
    )])
    .expect("should plan");

    match &plan.steps[0] {
        PlanStep::Download { dest, mode, archive, .. } => {
            assert_eq!(dest, "/sysroot/bin/miden-vm");
            assert_eq!(*mode, MODE_EXECUTABLE);
            assert_eq!(
                archive.as_ref().map(|format| format.as_str()),
                Some("tar.gz"),
                "the step must carry the archive format"
            );
        },
        other => panic!("expected a download, got {other:?}"),
    }
}

/// A local archive is a copy step carrying its format, as a fetched one is a download.
#[test]
fn a_local_archive_becomes_a_copy_carrying_its_format() {
    let plan = plan_of(vec![component(
        "vm",
        executable_kind(InstallationMethod::Prebuilt, "miden-vm"),
        &[("miden-vm", archived("file:///tmp/vm.tar.gz"))],
    )])
    .expect("should plan");

    assert!(matches!(&plan.steps[0], PlanStep::CopyLocal { archive: Some(_), .. }));
}

/// An unreadable container fails planning, rather than leaving the executor to discover it.
#[test]
fn an_unreadable_archive_format_fails_planning() {
    let artifact = packaged("https://example.invalid/vm.zip", "zip");

    let err = plan_of(vec![component(
        "vm",
        executable_kind(InstallationMethod::Prebuilt, "miden-vm"),
        &[("miden-vm", artifact)],
    )])
    .expect_err("must fail");
    assert!(
        matches!(
            err,
            PlanError::Artifact(
                InvalidArtifactError::UnsupportedArchiveFormat { .. }
            )
        ),
        "{}",
        err.to_string()
    );
}

/// Republishing an artifact as an archive changes the installed bytes, so it must reinstall.
#[test]
fn packaging_an_artifact_as_an_archive_changes_the_plan_key() {
    let key = |artifact: Artifact| {
        plan_of(vec![component(
            "vm",
            executable_kind(InstallationMethod::Prebuilt, "miden-vm"),
            &[("miden-vm", artifact)],
        )])
        .expect("should plan")
        .key
    };
    assert_ne!(
        key(agnostic("https://example.invalid/vm.tar.gz")),
        key(archived("https://example.invalid/vm.tar.gz")),
        "unpacking the same URI installs different bytes than fetching it whole"
    );
}

#[test]
fn a_package_installs_every_artifact_to_lib() {
    let plan = plan_of(vec![component(
        "core",
        ComponentKind::Package,
        &[
            ("core.masp", agnostic("https://example.invalid/core.masp")),
            ("extra.masp", agnostic("https://example.invalid/extra.masp")),
        ],
    )])
    .expect("should plan");

    assert_eq!(plan.steps.len(), 2, "every declared artifact must be installed");
    for step in &plan.steps {
        assert!(step.dest().starts_with("/sysroot/lib/"));
        assert_eq!(step.mode(), MODE_DATA, "packages are data, not programs");
    }
}

#[test]
fn a_package_with_no_artifacts_is_rejected() {
    let err =
        plan_of(vec![component("core", ComponentKind::Package, &[])]).expect_err("must fail");
    assert!(matches!(err, PlanError::ArtifactCardinality { .. }), "{}", err.to_string());
}

/// A partial install is not a success: if any declared artifact is missing for this target,
/// the plan cannot be built.
#[test]
fn a_package_missing_one_artifact_for_the_target_is_rejected() {
    let err = plan_of(vec![component(
        "core",
        ComponentKind::Package,
        &[
            ("core.masp", agnostic("https://example.invalid/core.masp")),
            (
                "other.masp",
                specific("https://example.invalid/%target", &["x86_64-unknown-linux-gnu"]),
            ),
        ],
    )])
    .expect_err("must fail");
    assert!(matches!(err, PlanError::TargetUnsupported { .. }), "{}", err.to_string());
}

#[test]
fn an_asset_installs_under_etc_by_component_name() {
    let plan = plan_of(vec![component(
        "node",
        ComponentKind::Asset,
        &[("docker-compose.yml", agnostic("https://example.invalid/dc.yml"))],
    )])
    .expect("should plan");

    assert_eq!(
        plan.steps[0].dest(),
        "/sysroot/etc/node/docker-compose.yml"
    );
}

/// A command may install nothing at all and is still a real component.
#[test]
fn a_command_with_no_artifacts_plans_no_steps() {
    let plan = plan_of(vec![component(
        "node",
        ComponentKind::Command {
            command_name: None,
            format: Executable::default_call_format(),
            subcommands: SortedMap::new(),
            aliases: SortedMap::new(),
        },
        &[],
    )])
    .expect("a command without artifacts is valid");
    assert!(plan.steps.is_empty());
}

#[test]
fn a_legacy_package_extracts_to_its_declared_filename() {
    let plan = plan_of(vec![component(
        "protocol",
        ComponentKind::LegacyPackage {
            installation_method: PackageInstallationMethod::Cargo {
                crate_name: "miden-protocol".to_string(),
                features: vec![],
                extractor: "x()".to_string(),
            },
            installed_package: Some("protocol.masp".to_string()),
        },
        &[],
    )])
    .expect("should plan");

    assert!(matches!(&plan.steps[0], PlanStep::ExtractPackage { dest, .. }
        if dest == "/sysroot/lib/protocol.masp"));
}

#[test]
fn a_legacy_package_declaring_artifacts_is_rejected() {
    let err = plan_of(vec![component(
        "protocol",
        ComponentKind::LegacyPackage {
            installation_method: PackageInstallationMethod::Cargo {
                crate_name: "miden-protocol".to_string(),
                features: vec![],
                extractor: "x()".to_string(),
            },
            installed_package: None,
        },
        &[("protocol.masp", agnostic("https://example.invalid/p.masp"))],
    )])
    .expect_err("must fail");
    assert!(matches!(err, PlanError::ArtifactCardinality { .. }), "{}", err.to_string());
}

/// Two components building one Cargo package cannot be updated or removed independently --
/// uninstalling one would take the other's binary with it.
#[test]
fn two_components_claiming_one_cargo_unit_are_rejected() {
    let err = plan_of(vec![
        component("first", executable_kind(cargo("shared"), "first-bin"), &[]),
        component("second", executable_kind(cargo("shared"), "second-bin"), &[]),
    ])
    .expect_err("must fail");
    assert!(matches!(err, PlanError::CargoUnitConflict { .. }), "{}", err.to_string());
}

#[test]
fn two_components_installing_to_one_path_are_rejected() {
    let err = plan_of(vec![
        component(
            "core",
            ComponentKind::Package,
            &[("shared.masp", agnostic("https://example.invalid/a"))],
        ),
        component(
            "other",
            ComponentKind::Package,
            &[("shared.masp", agnostic("https://example.invalid/b"))],
        ),
    ])
    .expect_err("must fail");
    assert!(matches!(err, PlanError::DestinationCollision { .. }), "{}", err.to_string());
}

#[test]
fn steps_are_emitted_in_dependency_order() {
    let mut dependent = component(
        "top",
        executable_kind(InstallationMethod::Prebuilt, "top-bin"),
        &[("top-bin", agnostic("https://example.invalid/top"))],
    );
    dependent.requires = vec!["base".to_string()];
    let base = component(
        "base",
        ComponentKind::Package,
        &[("base.masp", agnostic("https://example.invalid/base"))],
    );

    let plan = plan_of(vec![dependent, base]).expect("should plan");
    assert_eq!(plan.steps[0].owner(), "base", "dependencies must be installed first");
    assert_eq!(plan.steps[1].owner(), "top");
}

#[test]
fn an_unsupported_component_never_reaches_planning() {
    let unsupported = component(
        "futurething",
        ComponentKind::Unsupported {
            tag: "wasm-module".to_string(),
            body: Extra::default(),
        },
        &[],
    );
    // Selected implicitly: excluded, so the plan succeeds with nothing to do.
    let plan = plan_of(vec![unsupported.clone()]).expect("must not panic");
    assert!(plan.steps.is_empty());

    // Named explicitly: an error from the resolver, before planning.
    let err = planned(
        &channel(vec![unsupported]),
        &Intent::new(&[], &["futurething"]),
        TARGET,
        "/sysroot",
    )
    .expect_err("must fail");
    assert!(matches!(err, PlanError::Resolution(_)), "{}", err.to_string());
}

/// A branch must be pinned before the key is computed.
///
/// Two installs from "the tip of main" at different commits are different installations. If the key
/// saw the branch *name*, they would compare equal -- and an update would conclude nothing had
/// changed.
#[test]
fn a_branch_authority_is_pinned_before_the_key_is_computed() {
    let branch_component = |revision: &str| {
        let mut c = component("vm", executable_kind(cargo("fixture-vm"), "miden-vm"), &[]);
        c.version = Authority::Git {
            repository_url: "/repo".to_string(),
            subpath: None,
            target: GitTarget::Branch {
                name: "main".to_string(),
                latest_revision: Some(revision.to_string()),
            },
        };
        c
    };
    let first = "1111111111111111111111111111111111111111";
    let second = "2222222222222222222222222222222222222222";

    let before = plan_of(vec![branch_component(first)]).expect("should plan");

    // The step must carry the commit, not the branch name.
    match &before.steps[0] {
        PlanStep::CargoBuild { authority, .. } => {
            assert!(
                matches!(authority, ResolvedAuthority::Git { revision, .. } if revision == first)
            );
        },
        other => panic!("expected a cargo build, got {other:?}"),
    }

    // Move the branch. The same manifest must now produce a different key.
    let after = plan_of(vec![branch_component(second)]).expect("should plan");
    assert_ne!(
        before.key, after.key,
        "moving the branch must change the key; otherwise an update sees no change"
    );
}

/// The key identifies what is installed, not where. Moving `MIDENUP_HOME` must not change it.
#[test]
fn the_plan_key_is_independent_of_the_sysroot() {
    let make = |root: &str| {
        planned(
            &channel(vec![component(
                "vm",
                executable_kind(InstallationMethod::Prebuilt, "miden-vm"),
                &[("miden-vm", agnostic("https://example.invalid/vm"))],
            )]),
            &intent(),
            TARGET,
            root,
        )
        .unwrap()
    };

    let a = make("/one/place");
    let b = make("/somewhere/else/entirely");
    assert_eq!(a.key, b.key);
    assert_ne!(a.steps[0].dest(), b.steps[0].dest(), "but the steps are still absolute");
}

#[test]
fn the_plan_key_reflects_the_target() {
    let make = |target: &str| {
        planned(
            &channel(vec![component(
                "vm",
                executable_kind(InstallationMethod::Prebuilt, "miden-vm"),
                &[("miden-vm", agnostic("https://example.invalid/vm"))],
            )]),
            &intent(),
            target,
            "/sysroot",
        )
        .unwrap()
        .key
    };
    assert_ne!(make(TARGET), make("x86_64-unknown-linux-gnu"));
}

// Errors

#[test]
fn an_authority_that_cannot_be_pinned_fails_planning() {
    let mut c = component("vm", executable_kind(cargo("fixture-vm"), "miden-vm"), &[]);
    c.version = Authority::Path { path: "/src".to_string(), last_modification: None };
    let err = plan_of(vec![c]).expect_err("must fail");
    assert_eq!(err, PlanError::Pin(PinError { message: "cannot be pinned".to_string() }));
    assert_eq!(err.to_string(), "cannot be pinned");
}

#[test]
fn an_unsafe_artifact_id_has_no_destination() {
    for id in ["", ".", "..", "-x", "a/b", "a\\b", "a\0b"] {
        assert!(validate_artifact_id(id).is_err(), "{id:?}");
        let err = plan_of(vec![component(
            "core",
            ComponentKind::Package,
            &[(id, agnostic("https://example.invalid/core"))],
        )])
        .expect_err("must fail");
        assert!(matches!(err, PlanError::Destination(_)), "{id:?}");
    }
    assert!(validate_artifact_id("core.masp").is_ok());
}

#[test]
fn planning_errors_say_what_is_wrong() {
    let conflict = plan_of(vec![
        component("first", executable_kind(cargo("shared"), "first-bin"), &[]),
        component("second", executable_kind(cargo("shared"), "second-bin"), &[]),
    ])
    .unwrap_err();
    assert_eq!(
        conflict.to_string(),
        "components 'first' and 'second' both build Cargo package 'registry:0.1.0#shared'; midenup \
         cannot tell their outputs apart"
    );
    let unsupported = plan_of(vec![component(
        "vm",
        executable_kind(InstallationMethod::Prebuilt, "miden-vm"),
        &[("miden-vm", specific("https://example.invalid/%target", &["other"]))],
    )])
    .unwrap_err();
    assert_eq!(
        unsupported.to_string(),
        "component 'vm' has no artifact for target 'aarch64-apple-darwin', and does not declare a \
         Cargo fallback"
    );
    let named = plan_of(vec![component(
        "vm",
        executable_kind(InstallationMethod::Prebuilt, "miden-vm"),
        &[("something-else", agnostic("https://example.invalid/vm"))],
    )])
    .unwrap_err();
    assert_eq!(
        named.to_string(),
        "component 'vm' declares its artifact as 'something-else', but installs the executable \
         'miden-vm'; for an executable the artifact id must be the installed filename"
    );
    let unknown = planned(&channel(vec![]), &Intent::new(&[], &["vm"]), TARGET, "/sysroot");
    assert_eq!(unknown.unwrap_err().to_string(), "unknown component 'vm'");
}

// What enters the key

#[test]
fn runtime_metadata_does_not_enter_the_key() {
    let plain = component("vm", executable_kind(cargo("miden-vm"), "miden-vm"), &[]);
    let mut changed = plain.clone();
    if let ComponentKind::Executable { spec, .. } = &mut changed.kind {
        spec.aliases.insert("run".to_string(), Executable::default_call_format());
        spec.call_format = Some(Executable::default_call_format());
    }
    changed.requires = vec!["core".to_string()];
    changed.profiles = vec![];
    let pinned = pin(&plain.version);
    assert_eq!(
        component_key(&plain, &pinned, TARGET),
        component_key(&changed, &pinned, TARGET)
    );
    let elsewhere = Ok(ResolvedAuthority::Registry { version: Version::new(0, 2, 0) });
    assert_ne!(component_key(&plain, &pinned, TARGET), component_key(&plain, &elsewhere, TARGET));
}

#[test]
fn a_fallback_declares_its_shim() {
    let plan = plan_of(vec![component(
        "vm",
        executable_kind(cargo("miden-vm"), "miden-vm"),
        &[],
    )])
    .unwrap();
    assert_eq!(plan.symlinks.len(), 1);
    assert_eq!(plan.symlinks[0].name, "miden vm");
    assert_eq!(plan.symlinks[0].target_binary, "miden-vm");
    assert_eq!(plan.target, TARGET);
    assert_eq!(plan.channel.to_string(), "0.15.0");
}

#[test]
fn pinned_authorities_have_these_identities() {
    let registry = ResolvedAuthority::Registry { version: Version::new(1, 2, 3) };
    assert_eq!(registry.identity(), "registry:1.2.3");
    let git = ResolvedAuthority::Git {
        url: "https://example.invalid/r.git".to_string(),
        revision: "abc".to_string(),
        subpath: Some("crates/vm".to_string()),
    };
    assert_eq!(git.identity(), "git:https://example.invalid/r.git@abc:crates/vm");
    let path = ResolvedAuthority::Path { canonical: "/src".to_string(), mtime: Some(-17) };
    assert_eq!(path.identity(), "path:/src@-17");
}

// What is installed of what is declared

fn command() -> ComponentKind {
    ComponentKind::Command {
        command_name: None,
        format: Executable::default_call_format(),
        subcommands: SortedMap::new(),
        aliases: SortedMap::new(),
    }
}

/// What a command declares is installed, every file of it, or planning fails.
#[test]
fn a_command_installs_every_file_that_it_declares() {
    let plan = plan_of(vec![component(
        "node",
        command(),
        &[
            ("docker-compose.yml", agnostic("https://example.invalid/dc.yml")),
            ("telemetry.yml", specific("https://example.invalid/%target.yml", &[TARGET])),
        ],
    )])
    .expect("should plan");
    let dests: Vec<&str> = plan.steps.iter().map(|step| step.dest()).collect();
    assert_eq!(dests, ["/sysroot/etc/node/docker-compose.yml", "/sysroot/etc/node/telemetry.yml"]);

    let err = plan_of(vec![component(
        "node",
        command(),
        &[
            ("docker-compose.yml", agnostic("https://example.invalid/dc.yml")),
            ("telemetry.yml", specific("https://example.invalid/%target.yml", &["other"])),
        ],
    )])
    .expect_err("must fail");
    assert_eq!(
        err,
        PlanError::TargetUnsupported { component: "node".to_string(), target: TARGET.to_string() }
    );
}

/// What a command says of how it is run is not material.
#[test]
fn the_subcommands_of_a_command_do_not_enter_the_key() {
    let plain = component("node", command(), &[]);
    let mut changed = plain.clone();
    if let ComponentKind::Command { subcommands, .. } = &mut changed.kind {
        subcommands.insert("up".to_string(), Executable::default_call_format());
    }
    let pinned = pin(&plain.version);
    assert_eq!(component_key(&plain, &pinned, TARGET), component_key(&changed, &pinned, TARGET));
}

/// A collision is reported with both owners, be they one.
#[test]
fn a_component_that_collides_with_its_namesake_is_rejected() {
    let core = |uri: &str| component("core", ComponentKind::Package, &[("core.masp", agnostic(uri))]);
    let err = plan_of(vec![core("https://example.invalid/a"), core("https://example.invalid/b")])
        .expect_err("must fail");
    assert_eq!(
        err.to_string(),
        "components 'core' and 'core' both install to '/sysroot/lib/core.masp'"
    );
}

/// Two spellings of one path collide.
#[test]
fn collisions_are_found_component_by_component() {
    let asset = |name: &'static str| {
        component(name, ComponentKind::Asset, &[("a", agnostic("https://example.invalid/a"))])
    };
    let err = plan_of(vec![asset("x"), asset("./x")]).expect_err("must fail");
    assert!(matches!(err, PlanError::DestinationCollision { .. }), "{}", err.to_string());
}

/// Steps that differ only in how their paths are spelled are the same.
#[test]
fn steps_are_equal_by_what_they_do() {
    let copy = |src: &str, dest: &str, fallback: Option<PlanStep>| PlanStep::CopyLocal {
        src: src.to_string(),
        dest: dest.to_string(),
        mode: 0o644,
        owner: "core".to_string(),
        archive: None,
        fallback: fallback.map(Box::new),
    };
    let build = |source: &str, dest: &str, binary: &str| PlanStep::CargoBuild {
        crate_name: "miden-vm".to_string(),
        authority: ResolvedAuthority::Path { canonical: source.to_string(), mtime: Some(1) },
        features: vec![],
        rustup_channel: None,
        expect_binary: binary.to_string(),
        dest: dest.to_string(),
        owner: "vm".to_string(),
    };
    assert_eq!(copy("/a//b", "/c/d", None), copy("/a/b", "/c/./d", None));
    assert_ne!(copy("/a/b", "/c/d", None), copy("/a/b", "/c/e", None));
    assert_eq!(build("/src/", "/s/bin/vm", "vm"), build("/src", "/s//bin/vm", "vm"));
    assert_ne!(build("/src", "/s/bin/vm", "vm"), build("/src", "/s/bin/vm", "vm2"));
    assert_ne!(build("/src", "/s", "vm"), copy("/src", "/s", None));
    let fallback = |dest: &str| Some(build("/src", dest, "vm"));
    assert_eq!(copy("/a", "/b", fallback("/b/")), copy("/a", "/b", fallback("/b")));
    assert_ne!(copy("/a", "/b", fallback("/b")), copy("/a", "/b", fallback("/c")));
    assert_ne!(copy("/a", "/b", fallback("/b")), copy("/a", "/b", None));
}
