//! Building components with Cargo.

use midenup::install::cargo::{
    argv_for, binaries_in, bookkeeping, build, verify_outputs, CargoError, Exit,
};
use midenup::plan::authority::ResolvedAuthority;
use midenup::plan::step::PlanStep;
use midenup::version::Version;

fn step(authority: ResolvedAuthority, features: &[&str], channel: Option<&str>) -> PlanStep {
    PlanStep::CargoBuild {
        crate_name: "miden-vm".to_string(),
        authority,
        features: features.iter().map(|f| f.to_string()).collect(),
        rustup_channel: channel.map(|c| c.to_string()),
        expect_binary: "miden-vm".to_string(),
        dest: "/staging/bin/miden-vm".to_string(),
        owner: "vm".to_string(),
    }
}

fn registry() -> ResolvedAuthority {
    ResolvedAuthority::Registry { version: Version::new(0, 15, 0) }
}

fn names(list: &[&str]) -> Vec<String> {
    list.iter().map(|name| name.to_string()).collect()
}

/// An unset optional argument contributes nothing at all to the argv: no empty entry, and no
/// bare toolchain selector, ever reaches cargo.
#[test]
fn unset_optional_arguments_are_omitted_entirely() {
    let argv =
        argv_for(&step(registry(), &[], None), "/staging", false, true);

    assert!(!argv.iter().any(|a| a.is_empty()), "no empty argv entries: {argv:?}");
    assert!(!argv.iter().any(|a| a == "+"), "no bare toolchain flag: {argv:?}");
    assert!(!argv.iter().any(|a| a == "--features"), "no features flag when none declared");
}

/// A multi-binary crate would otherwise deposit every binary it defines into the toolchain.
#[test]
fn the_expected_binary_is_always_named() {
    let argv =
        argv_for(&step(registry(), &[], None), "/staging", false, true);
    let index = argv.iter().position(|a| a == "--bin").expect("--bin must be passed");
    assert_eq!(argv[index + 1], "miden-vm");
}

#[test]
fn a_rustup_channel_is_passed_first() {
    let argv = argv_for(
        &step(registry(), &[], Some("nightly")),
        "/staging",
        false,
        true,
    );
    assert_eq!(argv[0], "+nightly", "the toolchain selector must precede the subcommand");
}

#[test]
fn verbosity_suppresses_the_quiet_flag() {
    let quiet = argv_for(&step(registry(), &[], None), "/s", false, true);
    assert!(quiet.iter().any(|a| a == "--quiet"));

    let loud = argv_for(&step(registry(), &[], None), "/s", true, true);
    assert!(!loud.iter().any(|a| a == "--quiet"));
}

#[test]
fn the_debug_flag_selects_the_profile() {
    let dev = argv_for(&step(registry(), &[], None), "/s", false, true);
    let index = dev.iter().position(|a| a == "--profile").unwrap();
    assert_eq!(dev[index + 1], "dev");

    let release =
        argv_for(&step(registry(), &[], None), "/s", false, false);
    let index = release.iter().position(|a| a == "--profile").unwrap();
    assert_eq!(release[index + 1], "release");
}

#[test]
fn features_are_comma_joined() {
    let argv = argv_for(
        &step(registry(), &["std", "concurrent"], None),
        "/s",
        false,
        true,
    );
    let index = argv.iter().position(|a| a == "--features").unwrap();
    assert_eq!(argv[index + 1], "std,concurrent");
}

#[test]
fn a_registry_authority_passes_the_crate_and_version() {
    let argv = argv_for(&step(registry(), &[], None), "/s", false, true);
    assert!(argv.contains(&"miden-vm".to_string()));
    let index = argv.iter().position(|a| a == "--version").unwrap();
    assert_eq!(argv[index + 1], "0.15.0");
}

/// The authority was pinned during planning, so a git build always names a concrete commit.
#[test]
fn a_git_authority_passes_a_concrete_revision() {
    let authority = ResolvedAuthority::Git {
        url: "https://example.invalid/r.git".to_string(),
        revision: "abc123".to_string(),
        subpath: None,
    };
    let argv = argv_for(&step(authority, &[], None), "/s", false, true);

    let index = argv.iter().position(|a| a == "--rev").expect("--rev must be passed");
    assert_eq!(argv[index + 1], "abc123");
    assert!(!argv.iter().any(|a| a == "--branch"), "a branch must never reach cargo");
}

#[test]
fn a_path_authority_passes_the_canonical_path() {
    let authority = ResolvedAuthority::Path {
        canonical: "/src/miden-vm".to_string(),
        mtime: None,
    };
    let argv = argv_for(&step(authority, &[], None), "/s", false, true);
    let index = argv.iter().position(|a| a == "--path").unwrap();
    assert_eq!(argv[index + 1], "/src/miden-vm");
}

#[test]
fn the_staging_root_is_always_passed() {
    let argv =
        argv_for(&step(registry(), &[], None), "/staging", false, true);
    let index = argv.iter().position(|a| a == "--root").expect("--root must be passed");
    assert_eq!(argv[index + 1], "/staging");
}

#[test]
fn a_missing_expected_binary_is_an_error() {
    let err = verify_outputs(&vec![], &vec![], false, "c", "miden-vm", "/s/bin/miden-vm")
        .expect_err("must fail");
    assert!(matches!(err, CargoError::MissingBinary { .. }), "{}", err.to_string());
    assert_eq!(
        err.to_string(),
        "the build of 'c' did not produce the expected binary 'miden-vm' at '/s/bin/miden-vm'"
    );
}

/// An unexpected file in `bin/` would be published as though midenup owned it.
#[test]
fn unexpected_binaries_are_rejected() {
    let after = binaries_in(&names(&["stowaway", "miden-vm"]));
    let err = verify_outputs(&vec![], &after, true, "c", "miden-vm", "/s/bin/miden-vm")
        .expect_err("must fail");
    assert!(
        matches!(&err, CargoError::UnexpectedBinaries { unexpected, .. }
            if unexpected == &["stowaway".to_string()]),
        "{}",
        err.to_string()
    );
}

/// A binary another component already installed is not this build's doing.
///
/// The check is on the *delta* of `bin/` across the build, so in a toolchain with more than one
/// Cargo component each binary is attributed to the build that actually produced it.
#[test]
fn binaries_from_earlier_builds_are_not_attributed_to_this_one() {
    // Installed by an earlier component in the same staging tree.
    let before = binaries_in(&names(&["miden-client"]));
    // This build adds its own.
    let after = binaries_in(&names(&["miden-client", "miden-vm"]));

    verify_outputs(&before, &after, true, "fixture-vm", "miden-vm", "/s/bin/miden-vm")
        .expect("an earlier component's binary must not be attributed to this build");
}

/// Cargo's bookkeeping describes what Cargo put in a `--root`, not what midenup owns.
#[test]
fn cargo_bookkeeping_is_removed_before_publication() {
    let after = binaries_in(&names(&["miden-vm"]));
    verify_outputs(&vec![], &after, true, "c", "miden-vm", "/s/bin/miden-vm")
        .expect("should succeed");
    assert_eq!(bookkeeping("/s"), names(&["/s/.crates.toml", "/s/.crates2.json"]));
}

#[test]
fn a_non_build_step_produces_no_argv() {
    let step = PlanStep::Download {
        uri: "https://example.invalid/x".to_string(),
        dest: "/tmp/x".to_string(),
        mode: 0o755,
        owner: "x".to_string(),
        digest: None,
        archive: None,
        fallback: None,
    };
    assert!(argv_for(&step, "/s", false, true).is_empty());
    build(&step, &vec![], Err("never run".to_string()), &vec![], &vec![], false)
        .expect("a download is not a build");
}

#[test]
fn a_build_has_this_argv() {
    let argv = argv_for(
        &step(registry(), &["std", "concurrent"], Some("nightly")),
        "/staging",
        false,
        false,
    );
    assert_eq!(
        argv,
        names(&[
            "+nightly",
            "install",
            "--locked",
            "--profile",
            "release",
            "--quiet",
            "--bin",
            "miden-vm",
            "miden-vm",
            "--version",
            "0.15.0",
            "--features",
            "std,concurrent",
            "--root",
            "/staging",
        ])
    );
}

#[test]
fn a_build_fails_where_cargo_does() {
    let step = step(registry(), &[], None);
    let args = names(&["install", "miden-vm"]);
    let spawn = build(&step, &args, Err("not found".to_string()), &vec![], &vec![], false);
    assert_eq!(spawn, Err(CargoError::Spawn("not found".to_string())));
    let failed = Exit { success: false, status: "exit status: 101".to_string() };
    let err = build(&step, &args, Ok(failed), &vec![], &vec![], true).unwrap_err();
    assert_eq!(err.to_string(), "`cargo install miden-vm` exited with exit status: 101");
    let succeeded = Exit { success: true, status: "exit status: 0".to_string() };
    let missing = build(&step, &args, Ok(succeeded), &vec![], &vec![], false).unwrap_err();
    assert!(matches!(missing, CargoError::MissingBinary { .. }));
    let succeeded = Exit { success: true, status: "exit status: 0".to_string() };
    let after = names(&["miden-vm"]);
    assert_eq!(build(&step, &args, Ok(succeeded), &vec![], &after, true), Ok(()));
}

#[test]
fn listed_binaries_are_sorted_and_unique() {
    assert_eq!(binaries_in(&names(&["b", "a", "b"])), names(&["a", "b"]));
}
