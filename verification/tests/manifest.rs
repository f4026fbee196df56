//! Components of the first manifest schema, and their conversion.

use midenup::artifact::{Artifact, ArtifactUri};
use midenup::exec::Executable;
use midenup::manifest::upgrade::Conversions;
use midenup::manifest::v1;
use midenup::manifest::{
    Component, ComponentKind, InstallationMethod, ManifestError, PackageInstallationMethod,
};
use midenup::profile::Profile;
use midenup::version::{Authority, GitTarget, Version};

fn registry(name: &str) -> v1::Component {
    v1::Component::new(
        name.to_string(),
        v1::Authority::Cargo { package: None, version: Version::new(0, 16, 0) },
    )
}

fn path(modified: Option<i128>) -> v1::Authority {
    v1::Authority::Path {
        path: "src/vm".to_string(),
        crate_name: "miden-vm".to_string(),
        last_modification: modified,
    }
}

fn branch(revision: Option<&str>) -> v1::Authority {
    v1::Authority::Git {
        repository_url: "https://example.invalid/vm.git".to_string(),
        crate_name: "miden-vm".to_string(),
        subpath: None,
        target: GitTarget::Branch {
            name: "main".to_string(),
            latest_revision: revision.map(|r| r.to_string()),
        },
    }
}

/// Templates for every command that is declared.
fn converted(v: &v1::Component) -> Conversions {
    Conversions {
        call_format: Ok(Executable::default_call_format()),
        initialization: Ok(Executable::default_call_format()),
        aliases: (0..v.aliases.len()).map(|_| Ok(Executable::default_call_format())).collect(),
    }
}

fn upgrade(v: v1::Component) -> Component {
    let commands = converted(&v);
    Component::try_from(v, commands).unwrap()
}

// The first schema

#[test]
fn a_new_component_installs_an_executable_named_like_itself() {
    let c = registry("vm");
    assert_eq!(
        c.get_installed_file(),
        v1::InstalledFile::Executable { binary_name: "vm".to_string(), alias_only: false }
    );
    assert_eq!(c.get_cli_display(), "miden vm");
    assert_eq!(c.get_symlink_name(), "miden vm");
    assert_eq!(c.get_call_format(), [v1::CliCommand::Executable]);
    assert_eq!(c.get_installed_file().get_path_from("/toolchain"), "/toolchain/bin/vm");
}

/// The default file is named like the crate, which need not be named like the component.
#[test]
fn the_default_executable_is_named_like_the_crate() {
    let packaged = v1::Authority::Cargo {
        package: Some("miden-vm".to_string()),
        version: Version::new(0, 16, 0),
    };
    for version in [packaged, path(None), branch(None)] {
        let c = v1::Component::new("vm".to_string(), version);
        assert_eq!(
            c.get_installed_file(),
            v1::InstalledFile::Executable {
                binary_name: "miden-vm".to_string(),
                alias_only: false
            }
        );
        let ComponentKind::Executable { spec, .. } = upgrade(c).kind else {
            panic!("expected an executable")
        };
        assert_eq!(spec.installed_executable, "miden-vm");
    }
}

#[test]
fn declared_names_take_precedence() {
    let mut c = registry("core");
    c.set_installed_file(Some(v1::InstalledFile::Library {
        library_name: "core.masp".to_string(),
        library_struct: "CoreLibrary".to_string(),
    }));
    c.symlink_name = Some("miden-core".to_string());
    c.call_format = vec![v1::CliCommand::Verbatim("run".to_string()), v1::CliCommand::LibPath];
    let file = c.get_installed_file();
    assert_eq!(file.get_path_from("/toolchain"), "/toolchain/lib/core.masp");
    assert_eq!(file.to_string(), "core.masp");
    assert_eq!(file.get_library_struct(), Some("CoreLibrary"));
    assert_eq!(c.get_symlink_name(), "miden-core");
    assert_eq!(c.get_call_format().len(), 2);
    assert_eq!(c.get_call_format()[0].to_string(), "verbatim: run");
    assert_eq!(v1::CliCommand::Executable.to_string(), "executable");
    assert_eq!(v1::CliCommand::LibPath.to_string(), "lib_path");
    assert_eq!(v1::CliCommand::VarPath.to_string(), "var_path");
}

#[test]
fn every_compared_field_calls_for_an_update() {
    let base = registry("vm");
    assert!(base.is_up_to_date(&registry("vm")));
    assert!(base.is_up_to_date(&registry("another name")));

    let mut features = registry("vm");
    features.features = vec!["std".to_string()];
    let mut requires = registry("vm");
    requires.requires = vec!["core".to_string()];
    let mut channel = registry("vm");
    channel.rustup_channel = Some("nightly".to_string());
    let mut file = registry("vm");
    file.set_installed_file(Some(base.get_installed_file()));
    let mut version = registry("vm");
    version.version = v1::Authority::Cargo { package: None, version: Version::new(0, 17, 0) };
    let mut package = registry("vm");
    package.version =
        v1::Authority::Cargo { package: Some("p".to_string()), version: Version::new(0, 16, 0) };
    let mut optional = registry("vm");
    optional.optional = true;
    let mut call_format = registry("vm");
    call_format.call_format = vec![v1::CliCommand::LibPath];
    let mut aliases = registry("vm");
    aliases.aliases.insert("run".to_string(), vec![v1::CliCommand::Executable]);
    let mut symlink = registry("vm");
    symlink.symlink_name = Some("miden-vm".to_string());
    let mut initialization = registry("vm");
    initialization.initialization = vec!["init".to_string()];
    let mut artifacts = registry("vm");
    artifacts.artifacts.artifacts = vec!["https://example.invalid/core.masp".to_string()];
    for changed in [
        features,
        requires,
        channel,
        file,
        version,
        package,
        optional,
        call_format,
        aliases,
        symlink,
        initialization,
        artifacts,
    ] {
        assert!(changed.is_up_to_date(&changed), "{changed:?}");
        assert!(!changed.is_up_to_date(&base), "{changed:?}");
        assert!(!base.is_up_to_date(&changed), "{changed:?}");
    }
    let elsewhere = v1::Component::new("vm".to_string(), path(Some(1)));
    assert!(!base.is_up_to_date(&elsewhere), "authorities of different kinds");
}

#[test]
fn a_directory_is_current_until_it_is_modified() {
    let at = |modified| v1::Component::new("vm".to_string(), path(modified));
    assert!(at(Some(5)).is_up_to_date(&at(Some(5))));
    assert!(at(Some(5)).is_up_to_date(&at(Some(4))));
    assert!(!at(Some(5)).is_up_to_date(&at(Some(6))));
    assert!(!at(None).is_up_to_date(&at(Some(6))));
    assert!(!at(Some(5)).is_up_to_date(&at(None)));

    let spelled = |text: &str| {
        v1::Component::new(
            "vm".to_string(),
            v1::Authority::Path {
                path: text.to_string(),
                crate_name: "miden-vm".to_string(),
                last_modification: Some(1),
            },
        )
    };
    for same in ["/src//vm", "/src/vm/", "/src/./vm", "//src/vm/."] {
        assert!(spelled("/src/vm").is_up_to_date(&spelled(same)), "{same}");
    }
    let at_root = |text: &str| Authority::Path { path: text.to_string(), last_modification: None };
    for same in ["/src//vm", "/src/vm/", "/src/./vm", "//src/vm/."] {
        assert_eq!(spelled("/src/vm").version, spelled(same).version);
        assert_eq!(at_root("/src/vm"), at_root(same));
    }
    assert_ne!(at_root("/src/vm"), at_root("src/vm"));
    for other in ["src/vm", "./src/vm", "/src/vm/..", "/src"] {
        assert!(!spelled("/src/vm").is_up_to_date(&spelled(other)), "{other}");
    }
    assert!(!spelled("vm").is_up_to_date(&spelled("./vm")));
}

#[test]
fn a_branch_is_current_until_it_moves() {
    let at = |revision| v1::Component::new("vm".to_string(), branch(revision));
    assert!(at(Some("a")).is_up_to_date(&at(Some("a"))));
    assert!(!at(Some("a")).is_up_to_date(&at(Some("b"))));
    assert!(!at(None).is_up_to_date(&at(None)));
    let fixed = |target| {
        v1::Component::new(
            "vm".to_string(),
            v1::Authority::Git {
                repository_url: "https://example.invalid/vm.git".to_string(),
                crate_name: "miden-vm".to_string(),
                subpath: None,
                target,
            },
        )
    };
    let tag = |name: &str| fixed(GitTarget::Tag { name: name.to_string() });
    let commit = |hash: &str| fixed(GitTarget::Revision { hash: hash.to_string() });
    assert!(tag("v1").is_up_to_date(&tag("v1")));
    assert!(!tag("v1").is_up_to_date(&tag("v2")));
    assert!(commit("abc").is_up_to_date(&commit("abc")));
    assert!(!commit("abc").is_up_to_date(&commit("def")));
    assert!(!tag("abc").is_up_to_date(&commit("abc")));
}

/// Equality tells components apart that were added or removed, so it goes by the name.
#[test]
fn components_are_equal_by_name() {
    let mut changed = registry("vm");
    changed.optional = true;
    assert_eq!(registry("vm"), changed.clone());
    assert_ne!(registry("vm"), registry("core"));
    assert!(changed.clone().is_up_to_date(&changed));
    assert!(!registry("vm").is_up_to_date(&changed));
}

#[test]
fn syncing_records_what_was_looked_up() {
    let mut local = v1::Component::new("vm".to_string(), path(None));
    assert_eq!(
        local.sync_source("/work"),
        v1::SyncSource::Directory("/work/src/vm".to_string())
    );
    local.sync(Some(17), Some("ignored".to_string()));
    assert_eq!(local.version, path(Some(17)));

    let mut remote = v1::Component::new("vm".to_string(), branch(None));
    assert_eq!(
        remote.sync_source("/work"),
        v1::SyncSource::Branch {
            repository_url: "https://example.invalid/vm.git".to_string(),
            name: "main".to_string()
        }
    );
    remote.sync(Some(17), Some("abc".to_string()));
    assert_eq!(remote.version, branch(Some("abc")));

    let mut fixed = registry("vm");
    assert_eq!(fixed.sync_source("/work"), v1::SyncSource::Fixed);
    fixed.sync(Some(17), Some("abc".to_string()));
    assert_eq!(fixed.version, registry("vm").version);
    assert!(fixed.is_up_to_date(&registry("vm")));
}

// Conversion

#[test]
fn a_plain_component_becomes_a_cargo_executable() {
    let mut v = registry("vm");
    v.features = vec!["std".to_string()];
    v.rustup_channel = Some("nightly".to_string());
    v.requires = vec!["core".to_string()];
    let c = upgrade(v);
    assert_eq!(c.name, "vm");
    assert_eq!(c.requires, ["core"]);
    assert_eq!(c.profiles, [Profile::Minimal]);
    assert_eq!(c.version, Authority::Registry { version: Version::new(0, 16, 0) });
    assert_eq!(c.get_symlink_name(), Some("miden vm".to_string()));
    let ComponentKind::Executable { installation_method, spec } = &c.kind else {
        panic!("expected an executable")
    };
    assert_eq!(
        *installation_method,
        InstallationMethod::Cargo {
            crate_name: "vm".to_string(),
            rustup_channel: Some("nightly".to_string()),
            features: vec!["std".to_string()],
        }
    );
    assert_eq!(spec.installed_executable, "vm");
    assert!(spec.call_format.is_none() && spec.initialization.is_none() && !spec.hide);
    let mut optional = registry("vm");
    optional.optional = true;
    assert!(upgrade(optional).profiles.is_empty());
}

#[test]
fn an_alias_only_executable_becomes_a_cargo_extension() {
    let mut v = registry("cargo-miden");
    v.set_installed_file(Some(v1::InstalledFile::Executable {
        binary_name: "cargo-miden".to_string(),
        alias_only: true,
    }));
    v.aliases.insert("new".to_string(), vec![v1::CliCommand::Executable]);
    let c = upgrade(v);
    assert_eq!(c.get_symlink_name(), None);
    let ComponentKind::CargoExtension { spec, .. } = &c.kind else {
        panic!("expected a cargo extension")
    };
    assert!(spec.hide);
    assert_eq!(spec.aliases.key(0), "new");
}

#[test]
fn a_library_keeps_its_filename() {
    let mut v = v1::Component::new("core".to_string(), path(None));
    v.set_installed_file(Some(v1::InstalledFile::Library {
        library_name: "core.masp".to_string(),
        library_struct: "CoreLibrary".to_string(),
    }));
    let c = upgrade(v);
    assert_eq!(c.installed_package_name(), Some("core.masp".to_string()));
    let ComponentKind::LegacyPackage { installation_method, .. } = &c.kind else {
        panic!("expected a legacy package")
    };
    assert_eq!(
        *installation_method,
        PackageInstallationMethod::Cargo {
            crate_name: "miden-vm".to_string(),
            features: vec![],
            extractor: "CoreLibrary::default().as_ref()".to_string(),
        }
    );
}

#[test]
fn artifact_uris_become_templates() {
    let mut v = registry("vm");
    v.artifacts.artifacts = vec![
        "https://example.invalid/v0.16.0/miden-vm-aarch64-apple-darwin".to_string(),
        "https://example.invalid/v0.16.0/miden-vm-x86_64-unknown-linux-gnu".to_string(),
        "https://example.invalid/v0.16.0/core.masp".to_string(),
        "https://example.invalid/v0.16.0/notes.txt".to_string(),
    ];
    let c = upgrade(v);
    assert!(matches!(
        &c.kind,
        ComponentKind::Executable { installation_method: InstallationMethod::Prebuilt, .. }
    ));
    assert_eq!(c.artifacts.artifacts.len(), 2, "a file for no known target is left out");
    let vm = c.artifacts.artifacts.get("miden-vm").unwrap();
    let Artifact::TargetSpecific { uri, targets, .. } = vm else {
        panic!("a program is specific to its target")
    };
    assert_eq!(uri, "https://example.invalid/v%version/miden-vm-%target");
    assert_eq!(targets.len(), 2);
    for target in ["aarch64-apple-darwin", "x86_64-unknown-linux-gnu"] {
        assert!(targets.get(target).is_some(), "{target}");
    }
    let core = c.artifacts.artifacts.get("core.masp").unwrap();
    assert!(matches!(core, Artifact::TargetAgnostic { uri, .. }
        if uri == "https://example.invalid/v%version/core.masp"));

    // The templates read as they were declared.
    for target in ["aarch64-apple-darwin", "x86_64-unknown-linux-gnu"] {
        let resolved = vm.resolve_for("miden-vm", target, &c).unwrap().unwrap();
        assert_eq!(
            resolved.uri,
            ArtifactUri::Http(format!("https://example.invalid/v0.16.0/miden-vm-{target}"))
        );
    }
    let resolved = core.resolve_for("core.masp", "", &c).unwrap().unwrap();
    assert_eq!(
        resolved.uri.to_string(),
        "https://example.invalid/v0.16.0/core.masp"
    );
}

#[test]
fn a_malformed_command_names_its_component_and_field() {
    let mut v = registry("vm");
    v.call_format = vec![v1::CliCommand::Executable];
    let mut commands = converted(&v);
    commands.call_format = Err("empty".to_string());
    assert_eq!(
        Component::try_from(v, commands),
        Err(ManifestError::Invalid(
            "component 'vm' has an invalid call_format: empty".to_string()
        ))
    );

    let mut v = registry("vm");
    v.initialization = vec!["init".to_string()];
    let mut commands = converted(&v);
    commands.initialization = Err("empty".to_string());
    // Not declared, so of no consequence.
    commands.call_format = Err("unused".to_string());
    assert_eq!(
        Component::try_from(v, commands),
        Err(ManifestError::Invalid(
            "component 'vm' has an invalid initialization: empty".to_string()
        ))
    );

    let mut v = registry("vm");
    v.aliases.insert("run".to_string(), vec![]);
    let mut commands = converted(&v);
    commands.aliases[0] = Err("empty".to_string());
    let Err(ManifestError::Invalid(message)) = Component::try_from(v, commands) else {
        panic!("must fail")
    };
    assert!(message.starts_with("component 'vm' defines alias 'run' with an invalid"));
    assert!(message.ends_with("invocation: empty"));
}

// Versions

#[test]
fn versions_are_semantic() {
    assert_eq!(Version::new(0, 16, 2).to_string(), "0.16.2");
    let release = Version::parse("1.0.0").unwrap();
    let candidate = Version::parse("1.0.0-rc.1").unwrap();
    assert!(candidate.precedes(&release) && !release.precedes(&candidate));
    assert!(Version::new(0, 9, 0).precedes(&Version::new(0, 10, 0)));
    assert!(Version::new(1, 2, 3).precedes(&Version::new(2, 0, 0)));
    assert!(!Version::new(2, 0, 0).precedes(&Version::new(1, 2, 3)));
    assert!(Version::new(1, 2, 3).precedes(&Version::new(1, 2, 4)));
    assert!(!release.precedes(&release));
    assert_eq!(candidate.to_string(), "1.0.0-rc.1");
    for malformed in ["", "1", "1.0", "01.0.0", "mainnet", "1.0.0 "] {
        assert!(Version::parse(malformed).is_none(), "{malformed:?}");
    }
}
