//! Updates: what changed, what is decided, what is recorded.

use midenup::artifact::{Artifact, Artifacts};
use midenup::exec::Executable;
use midenup::manifest::{
    Channel, Component, ComponentKind, ExecutableComponent, InstallationMethod,
};
use midenup::plan::authority::{PinError, ResolvedAuthority};
use midenup::profile::Profile;
use midenup::resolve::{Intent, ResolutionError};
use midenup::sorted::SortedMap;
use midenup::state::{Installation, LocalState};
use midenup::update::channel::{
    carry_var_to, migrate, migration_of, update, update_installed_channel, update_network, var_dir,
    ChannelUpdate, MigrationStep, NetworkUpdate, UpdateScope, UpstreamChannel, UpstreamMatch,
    UserChannel, VarMove,
};
use midenup::update::error::UpdateError;
use midenup::update::record::record_logical_changes;
use midenup::update::{
    changes_for, classify, display_warnings, effective_intent, install_for_update,
    interactive_answer, questions, update_decision, work_for, ChangeClass, Changes,
    ComponentUpdateDecision, IntentUpdate, InteractiveResult, PathUpdate, UpdateAction, Work,
};
use midenup::value::{Extra, Number, Value};
use midenup::version::{Authority, Version};

const TARGET: &str = "aarch64-apple-darwin";

/// A prebuilt executable with one artifact, which is the shape most components have.
fn base() -> Component {
    let mut artifacts = Artifacts::default();
    artifacts.insert(
        "miden-vm".to_string(),
        Artifact::TargetAgnostic {
            uri: "https://example.invalid/v1/miden-vm".to_string(),
            digest: None,
            archive: None,
            extra: Extra::default(),
        },
    );

    Component {
        name: "vm".to_string(),
        version: Authority::Registry { version: Version::new(0, 1, 0) },
        kind: ComponentKind::Executable {
            installation_method: InstallationMethod::Prebuilt,
            spec: ExecutableComponent {
                installed_executable: "miden-vm".to_string(),
                ..Default::default()
            },
        },
        profiles: vec![Profile::Minimal],
        requires: vec![],
        artifacts,
        extra: Extra::default(),
    }
}

fn pin(component: &Component) -> Result<ResolvedAuthority, PinError> {
    match &component.version {
        Authority::Registry { version } => {
            Ok(ResolvedAuthority::Registry { version: version.clone() })
        },
        Authority::Path { path, last_modification } => {
            Ok(ResolvedAuthority::Path { canonical: path.clone(), mtime: *last_modification })
        },
        Authority::Git { .. } => Err(PinError { message: "unreachable".to_string() }),
    }
}

fn classify_pair(old: Component, new: Component) -> ChangeClass {
    classify(&old, &new, &pin(&old), &pin(&new), TARGET)
}

fn spec_of(component: &mut Component) -> &mut ExecutableComponent {
    match &mut component.kind {
        ComponentKind::Executable { spec, .. } => spec,
        _ => unreachable!("the fixture is an executable"),
    }
}

#[test]
fn an_identical_component_has_not_changed() {
    assert_eq!(classify_pair(base(), base()), ChangeClass::Unchanged);
}

/// A kind that only a newer build can install cannot be held against anything.
#[test]
fn a_component_of_an_unknown_kind_is_installation_impacting() {
    let mut unknown = base();
    unknown.kind = ComponentKind::Unsupported {
        tag: "hologram".to_string(),
        body: Extra::default(),
    };
    for (old, new) in [
        (unknown.clone(), base()),
        (base(), unknown.clone()),
        (unknown.clone(), unknown.clone()),
    ] {
        assert_eq!(classify_pair(old, new), ChangeClass::InstallationImpacting);
    }
}

/// Zero has no sign in a document, so a component that spells it otherwise is declared alike.
#[test]
fn an_unknown_field_changes_where_its_value_does() {
    let with = |number: Number| {
        let mut c = base();
        c.extra = Extra { members: vec![("level".to_string(), Value::Number(number))] };
        c
    };
    let double = |n: f64| with(Number::Double(n.to_bits()));
    assert_eq!(classify_pair(double(0.0), double(-0.0)), ChangeClass::Unchanged);
    assert_eq!(classify_pair(double(0.0), double(0.5)), ChangeClass::RuntimeMetadataOnly);
    assert_eq!(
        classify_pair(double(0.0), with(Number::Whole(0))),
        ChangeClass::RuntimeMetadataOnly
    );
    assert_eq!(classify_pair(base(), double(0.0)), ChangeClass::RuntimeMetadataOnly);
}

/// An artifact is a file in the publication, so a component whose artifact URI moves to a new
/// release must be reinstalled even though nothing else about it changed.
#[test]
fn an_artifact_only_change_is_installation_impacting() {
    let mut new = base();
    new.artifacts.insert(
        "miden-vm".to_string(),
        Artifact::TargetAgnostic {
            uri: "https://example.invalid/v2/miden-vm".to_string(),
            digest: None,
            archive: None,
            extra: Extra::default(),
        },
    );

    assert_eq!(classify_pair(base(), new), ChangeClass::InstallationImpacting);
}

#[test]
fn a_version_change_is_installation_impacting() {
    let mut new = base();
    new.version = Authority::Registry { version: Version::new(0, 2, 0) };
    assert_eq!(classify_pair(base(), new), ChangeClass::InstallationImpacting);
}

/// The `opt/` shims are real files, so their layout is material even though nothing else about the
/// component moved.
#[test]
fn a_symlink_layout_change_is_installation_impacting() {
    let mut new = base();
    spec_of(&mut new).symlink_name = Some("miden-vm-next".to_string());
    assert_eq!(classify_pair(base(), new), ChangeClass::InstallationImpacting);
}

/// An alias is resolved at dispatch and no installed file depends on it, so adding one to an
/// otherwise identical component must not force a reinstall.
#[test]
fn an_alias_only_change_is_runtime_metadata_only() {
    let mut new = base();
    spec_of(&mut new).aliases.insert("run".to_string(), Executable::default_call_format());

    assert_eq!(classify_pair(base(), new), ChangeClass::RuntimeMetadataOnly);
}

#[test]
fn a_requires_only_change_is_graph_only() {
    let mut new = base();
    new.requires = vec!["core".to_string()];
    assert_eq!(classify_pair(base(), new), ChangeClass::GraphOnly);
}

#[test]
fn a_profiles_only_change_is_graph_only() {
    let mut new = base();
    new.profiles = vec![Profile::Complete];
    assert_eq!(classify_pair(base(), new), ChangeClass::GraphOnly);
}

/// Where equality cannot be established, reinstalling is the safe direction to be wrong in.
#[test]
fn what_cannot_be_planned_is_installation_impacting() {
    let unpinned = Err(PinError { message: "no such directory".to_string() });
    let class = classify(&base(), &base(), &unpinned, &pin(&base()), TARGET);
    assert_eq!(class, ChangeClass::InstallationImpacting);
}

// Decisions

fn local(name: &str, modified: i128) -> Component {
    let mut c = base();
    c.name = name.to_string();
    c.version =
        Authority::Path { path: format!("/src/{name}"), last_modification: Some(modified) };
    c.kind = ComponentKind::Executable {
        installation_method: InstallationMethod::Cargo {
            crate_name: format!("miden-{name}"),
            rustup_channel: None,
            features: vec![],
        },
        spec: ExecutableComponent {
            installed_executable: format!("miden-{name}"),
            ..Default::default()
        },
    };
    c.artifacts = Artifacts::default();
    c
}

#[test]
fn an_answer_is_yes_cancel_or_no() {
    for yes in ["y", "y\n", "Y\r\n", "  y  ", "\u{3000}y\u{85}"] {
        assert_eq!(interactive_answer(yes), InteractiveResult::UpdateComponent, "{yes:?}");
    }
    for cancel in ["c\n", "C"] {
        assert_eq!(interactive_answer(cancel), InteractiveResult::Cancel, "{cancel:?}");
    }
    for no in ["", "\n", "n", "yes", "\u{a0}y!", "cancel"] {
        assert_eq!(interactive_answer(no), InteractiveResult::DontUpdateComponent, "{no:?}");
    }
    assert_eq!(interactive_answer("\u{2003}y\u{a0}"), InteractiveResult::UpdateComponent);
}

#[test]
fn only_path_components_are_asked_about() {
    let cancel = InteractiveResult::Cancel;
    assert_eq!(
        update_decision(&base(), PathUpdate::Interactive, cancel),
        ComponentUpdateDecision::Update
    );
    let c = local("vm", 1);
    assert_eq!(
        update_decision(&c, PathUpdate::Interactive, cancel),
        ComponentUpdateDecision::Abort
    );
    assert_eq!(
        update_decision(&c, PathUpdate::Interactive, InteractiveResult::DontUpdateComponent),
        ComponentUpdateDecision::Keep
    );
    assert_eq!(
        update_decision(&c, PathUpdate::Interactive, InteractiveResult::UpdateComponent),
        ComponentUpdateDecision::Update
    );
    assert_eq!(update_decision(&c, PathUpdate::All, cancel), ComponentUpdateDecision::Update);
    assert_eq!(update_decision(&c, PathUpdate::Off, cancel), ComponentUpdateDecision::Keep);
}

fn pins(
    installed: &[Component],
    upstream: &Channel,
) -> Vec<(Result<ResolvedAuthority, PinError>, Result<ResolvedAuthority, PinError>)> {
    installed
        .iter()
        .map(|old| {
            let new = upstream.components.iter().find(|c| c.name == old.name).unwrap_or(old);
            (pin(old), pin(new))
        })
        .collect()
}

/// An installation of five components and the channel that they are held against.
fn drifted() -> (Vec<Component>, Channel) {
    let mut metadata = base();
    metadata.name = "metadata".to_string();
    let mut renamed = metadata.clone();
    spec_of(&mut renamed).call_format = Some(Executable::default_call_format());
    let mut newer = base();
    newer.version = Authority::Registry { version: Version::new(0, 2, 0) };
    let mut withdrawn = base();
    withdrawn.name = "withdrawn".to_string();
    let installed =
        vec![base(), local("client", 1), withdrawn, metadata, local("debug", 1)];
    let upstream = Channel::new(
        Version::new(0, 15, 0),
        vec![newer, local("client", 2), renamed, local("debug", 2)],
    );
    (installed, upstream)
}

#[test]
fn changes_follow_the_policy() {
    let (installed, upstream) = drifted();
    let pins = pins(&installed, &upstream);
    let no = vec![InteractiveResult::DontUpdateComponent; 5];
    let off =
        changes_for(&installed, &upstream, &pins, TARGET, PathUpdate::Off, &no).unwrap();
    assert_eq!(off.stale, ["vm"]);
    assert_eq!(off.held_back, [local("client", 1), local("debug", 1)]);
    assert!(off.logical_only);

    let all = changes_for(&installed, &upstream, &pins, TARGET, PathUpdate::All, &no).unwrap();
    assert_eq!(all.stale, ["vm", "client", "debug"]);
    assert!(all.held_back.is_empty());
}

#[test]
fn the_user_is_asked_about_changed_path_components() {
    let (installed, upstream) = drifted();
    let pins = pins(&installed, &upstream);
    let asked = questions(&installed, &upstream, &pins, TARGET, PathUpdate::Interactive);
    assert_eq!(asked, [false, true, false, false, true]);
    let unasked = questions(&installed, &upstream, &pins, TARGET, PathUpdate::All);
    assert_eq!(unasked, [false; 5]);

    let mut answers = vec![InteractiveResult::Cancel; 5];
    answers[1] = InteractiveResult::UpdateComponent;
    answers[4] = InteractiveResult::DontUpdateComponent;
    let changes =
        changes_for(&installed, &upstream, &pins, TARGET, PathUpdate::Interactive, &answers)
            .unwrap();
    assert_eq!(changes.stale, ["vm", "client"]);
    assert_eq!(changes.held_back, [local("debug", 1)]);

    answers[4] = InteractiveResult::Cancel;
    let cancelled =
        changes_for(&installed, &upstream, &pins, TARGET, PathUpdate::Interactive, &answers);
    assert!(cancelled.is_none());
}

// Work

fn named(name: &str, requires: &[&str]) -> Component {
    let mut c = base();
    c.name = name.to_string();
    c.requires = requires.iter().map(|r| r.to_string()).collect();
    c
}

fn state_of(version: Version, components: Vec<Component>) -> LocalState {
    LocalState {
        installations: vec![Installation {
            channel: version,
            intent: Intent::new(&[Profile::Minimal], &[]),
            components,
        }],
    }
}

#[test]
fn work_is_measured_against_the_resolved_set() {
    let upstream =
        Channel::new(Version::new(0, 15, 0), vec![named("vm", &[]), named("core", &[])]);
    let up_to_date = state_of(Version::new(0, 15, 0), vec![named("core", &[]), named("vm", &[])]);
    let none = Changes::default();
    let keep = IntentUpdate::Preserve;
    assert_eq!(work_for(&upstream, &up_to_date, &none, &keep), Ok(Work::Nothing));

    let metadata = Changes { logical_only: true, ..Default::default() };
    assert_eq!(work_for(&upstream, &up_to_date, &metadata, &keep), Ok(Work::LogicalOnly));
    let wider = IntentUpdate::Replace(Intent::new(&[Profile::Complete], &[]));
    assert_eq!(work_for(&upstream, &up_to_date, &none, &wider), Ok(Work::LogicalOnly));
    let repeated = Intent::new(&[Profile::Minimal, Profile::Minimal], &[]);
    let again = IntentUpdate::Replace(repeated);
    assert_eq!(work_for(&upstream, &up_to_date, &none, &again), Ok(Work::Nothing));

    let stale = Changes { stale: vec!["vm".to_string()], ..Default::default() };
    assert_eq!(work_for(&upstream, &up_to_date, &stale, &keep), Ok(Work::Physical));
    let partial = state_of(Version::new(0, 15, 0), vec![named("core", &[])]);
    assert_eq!(work_for(&upstream, &partial, &none, &keep), Ok(Work::Physical));
    let elsewhere = state_of(Version::new(0, 14, 0), vec![]);
    assert_eq!(work_for(&upstream, &elsewhere, &none, &keep), Ok(Work::Physical));

    let unknown = IntentUpdate::Replace(Intent::new(&[], &["missing"]));
    assert_eq!(
        work_for(&upstream, &up_to_date, &none, &unknown),
        Err(ResolutionError::UnknownRoot { name: "missing".to_string() })
    );
}

#[test]
fn the_intent_is_the_recorded_one_unless_replaced() {
    let state = state_of(Version::new(0, 15, 0), vec![]);
    let recorded = effective_intent(&state, &Version::new(0, 15, 0), &IntentUpdate::Preserve);
    assert_eq!(recorded, Intent::new(&[Profile::Minimal], &[]));
    let absent = effective_intent(&state, &Version::new(0, 16, 0), &IntentUpdate::Preserve);
    assert_eq!(absent, Intent::new(&[], &[]));
    let replaced = IntentUpdate::Replace(Intent::new(&[], &["vm"]));
    assert_eq!(
        effective_intent(&state, &Version::new(0, 15, 0), &replaced),
        Intent::new(&[], &["vm"])
    );
}

#[test]
fn path_components_are_warned_about() {
    let upstream =
        Channel::new(Version::new(0, 15, 0), vec![named("vm", &[]), local("client", 1)]);
    let held = Changes { held_back: vec![local("client", 1)], ..Default::default() };
    let warnings = display_warnings(&upstream, &held, PathUpdate::Off).unwrap();
    assert_eq!(
        warnings.from_paths,
        [("miden-client".to_string(), "/src/client".to_string())]
    );
    assert!(warnings.hint);
    assert!(!display_warnings(&upstream, &held, PathUpdate::All).unwrap().hint);
    assert!(!display_warnings(&upstream, &Changes::default(), PathUpdate::Off).unwrap().hint);
    let registry = Channel::new(Version::new(0, 15, 0), vec![named("vm", &[])]);
    assert!(display_warnings(&registry, &held, PathUpdate::Off).is_none());

    let empty = LocalState { installations: vec![] };
    let action = install_for_update(
        &upstream,
        &empty,
        &IntentUpdate::Preserve,
        &Changes::default(),
        PathUpdate::All,
    );
    assert!(matches!(action, Ok(UpdateAction::Install { warnings: Some(_) })));
    let current = state_of(Version::new(0, 15, 0), vec![named("vm", &[])]);
    let nothing = install_for_update(
        &registry,
        &current,
        &IntentUpdate::Preserve,
        &Changes::default(),
        PathUpdate::All,
    );
    assert_eq!(nothing, Ok(UpdateAction::Nothing));
    let metadata = Changes { logical_only: true, ..Default::default() };
    let record = install_for_update(
        &registry,
        &current,
        &IntentUpdate::Preserve,
        &metadata,
        PathUpdate::All,
    );
    assert_eq!(record, Ok(UpdateAction::Record));
}

// Recording

#[test]
fn recording_keeps_what_was_pinned() {
    let mut upstream_vm = base();
    upstream_vm.requires = vec!["core".to_string()];
    upstream_vm.version = Authority::Registry { version: Version::new(9, 9, 9) };
    let upstream = Channel::new(
        Version::new(0, 15, 0),
        vec![upstream_vm, local("client", 2), local("debug", 2)],
    );
    let mut state = state_of(
        Version::new(0, 15, 0),
        vec![base(), local("client", 1), local("debug", 1), named("withdrawn", &[])],
    );
    let update = IntentUpdate::Replace(Intent::new(&[Profile::Complete], &[]));
    let held = vec![local("debug", 1)];
    record_logical_changes(&upstream, &mut state, &update, &held).unwrap();

    let installed = state.get(&Version::new(0, 15, 0)).unwrap();
    assert_eq!(installed.intent, Intent::new(&[Profile::Complete], &[]));
    let mut renewed = base();
    renewed.requires = vec!["core".to_string()];
    assert_eq!(installed.components[0], renewed, "the recorded authority stays");
    assert_eq!(installed.components[1], local("client", 1));
    assert_eq!(installed.components[2], local("debug", 1));
    assert_eq!(installed.components[3], named("withdrawn", &[]));
}

/// A component that the policy holds back still receives the updates that touch no file.
#[test]
fn a_held_back_component_follows_upstream_in_what_touches_no_file() {
    let mut recorded = local("client", 1);
    spec_of(&mut recorded).symlink_name = Some("miden client".to_string());
    let mut latest = local("client", 2);
    latest.requires = vec!["core".to_string()];
    latest.profiles = vec![];
    let spec = spec_of(&mut latest);
    spec.aliases.insert("run".to_string(), Executable::default_call_format());
    spec.call_format = Some(Executable::default_call_format());
    spec.initialization = Some(Executable::default_call_format());
    spec.installed_executable = "renamed".to_string();
    spec.symlink_name = Some("miden renamed".to_string());
    spec.hide = true;
    let upstream = Channel::new(Version::new(0, 15, 0), vec![latest.clone()]);
    let installed = vec![recorded.clone()];
    let pins = pins(&installed, &upstream);
    let no = vec![InteractiveResult::DontUpdateComponent];
    let changes =
        changes_for(&installed, &upstream, &pins, TARGET, PathUpdate::Off, &no).unwrap();
    assert!(changes.stale.is_empty());
    assert_eq!(changes.held_back, installed);
    assert!(changes.logical_only, "there is something to record");

    let mut state = state_of(Version::new(0, 15, 0), installed);
    let keep = IntentUpdate::Preserve;
    record_logical_changes(&upstream, &mut state, &keep, &changes.held_back).unwrap();
    let mut expected = recorded.clone();
    expected.requires = latest.requires.clone();
    expected.profiles = latest.profiles.clone();
    let spec = spec_of(&mut expected);
    spec.aliases.insert("run".to_string(), Executable::default_call_format());
    spec.call_format = Some(Executable::default_call_format());
    spec.initialization = Some(Executable::default_call_format());
    spec.hide = true;
    let kept = state.get(&Version::new(0, 15, 0)).unwrap().components[0].clone();
    assert_eq!(kept, expected, "what is installed stays, what is looked up follows");

    // The next update finds nothing more to record.
    let installed = vec![kept];
    let pins = self::pins(&installed, &upstream);
    let changes =
        changes_for(&installed, &upstream, &pins, TARGET, PathUpdate::Off, &no).unwrap();
    assert_eq!(changes.held_back.len(), 1);
    assert!(!changes.logical_only);
}

/// Hiding an executable without a named shim takes its shim away, which is a file.
#[test]
fn a_held_back_component_keeps_its_default_shim() {
    let mut latest = local("client", 2);
    spec_of(&mut latest).hide = true;
    let upstream = Channel::new(Version::new(0, 15, 0), vec![latest]);
    let mut state = state_of(Version::new(0, 15, 0), vec![local("client", 1)]);
    let held = vec![local("client", 1)];
    record_logical_changes(&upstream, &mut state, &IntentUpdate::Preserve, &held).unwrap();
    assert_eq!(state.get(&Version::new(0, 15, 0)).unwrap().components, held);
}

#[test]
fn recording_for_an_absent_channel_is_an_error() {
    let upstream = Channel::new(Version::new(0, 16, 0), vec![]);
    let mut state = state_of(Version::new(0, 15, 0), vec![base()]);
    let err =
        record_logical_changes(&upstream, &mut state, &IntentUpdate::Preserve, &vec![]).unwrap_err();
    assert_eq!(err.to_string(), "channel 0.16.0 is not installed");
    assert_eq!(state, state_of(Version::new(0, 15, 0), vec![base()]));
}

/// Where an update only records, the next one finds nothing to do.
#[test]
fn a_recorded_update_leaves_nothing_to_do() {
    let mut upstream_vm = base();
    spec_of(&mut upstream_vm).hide = true;
    let upstream = Channel::new(Version::new(0, 15, 0), vec![upstream_vm]);
    let mut state = state_of(Version::new(0, 15, 0), vec![base()]);
    let changes = Changes { logical_only: true, ..Default::default() };
    let keep = IntentUpdate::Preserve;
    assert_eq!(work_for(&upstream, &state, &changes, &keep), Ok(Work::LogicalOnly));
    record_logical_changes(&upstream, &mut state, &keep, &changes.held_back).unwrap();
    assert_eq!(work_for(&upstream, &state, &Changes::default(), &keep), Ok(Work::Nothing));
}

// Channels

#[test]
fn an_update_is_about_what_the_user_names() {
    let mut state = state_of(Version::new(0, 15, 0), vec![]);
    state.installations.push(Installation {
        channel: Version::new(0, 16, 0),
        intent: Intent::new(&[], &[]),
        components: vec![],
    });
    let network = UserChannel::Named("mainnet".to_string());
    assert_eq!(
        update(Some(&network), &state),
        Ok(UpdateScope::Network("mainnet".to_string()))
    );
    let version = UserChannel::Version(Version::new(0, 16, 0));
    assert_eq!(update(Some(&version), &state), Ok(UpdateScope::Installed(vec![1])));
    assert_eq!(update(None, &state), Ok(UpdateScope::Installed(vec![0, 1])));
    let absent = UserChannel::Version(Version::new(1, 0, 0));
    assert_eq!(
        update(Some(&absent), &state).unwrap_err().to_string(),
        "ERROR: No installed channel found with version 1.0.0"
    );
}

#[test]
fn a_network_follows_its_pointer() {
    let state = state_of(Version::new(0, 15, 0), vec![]);
    let channels = vec![
        Channel::new(Version::new(0, 9, 0), vec![]),
        Channel::new(Version::new(0, 15, 0), vec![]),
        Channel::new(Version::new(0, 16, 0), vec![]),
    ];
    let installed = Version::new(0, 15, 0);
    let at = |target: Version| {
        let mut networks: SortedMap<Version> = SortedMap::new();
        networks.insert("testnet".to_string(), Version::new(0, 1, 0));
        networks.insert("mainnet".to_string(), target);
        networks
    };
    let same = at(Version::new(0, 15, 0));
    let unmoved = update_network("mainnet", &same, &channels, Some(&installed), &state);
    assert_eq!(
        unmoved,
        Ok(NetworkUpdate::Unmoved { installation: &state.installations[0] })
    );
    let moved = |target: Version| {
        let networks = at(target);
        match update_network("mainnet", &networks, &channels, Some(&installed), &state) {
            Ok(NetworkUpdate::Moved { upstream, intent, moved_back }) => {
                assert_eq!(intent, Intent::new(&[Profile::Minimal], &[]));
                (upstream.name.to_string(), moved_back)
            },
            other => panic!("expected a move, got {other:?}"),
        }
    };
    assert_eq!(moved(Version::new(0, 16, 0)), ("0.16.0".to_string(), false));
    // Numerically smaller, though its text is larger.
    assert_eq!(moved(Version::new(0, 9, 0)), ("0.9.0".to_string(), true));

    let unknown = update_network("devnet", &same, &channels, Some(&installed), &state);
    assert_eq!(
        unknown.unwrap_err().to_string(),
        "unknown channel 'devnet'; known networks are mainnet, testnet"
    );
    let absent = update_network("mainnet", &same, &channels, None, &state);
    assert_eq!(
        absent.unwrap_err().to_string(),
        "mainnet is not installed. To install it, run:\n    midenup install mainnet\n"
    );
    let other = Version::new(0, 14, 0);
    let unrecorded = update_network("mainnet", &same, &channels, Some(&other), &state);
    assert_eq!(
        unrecorded.unwrap_err().to_string(),
        "toolchains/mainnet names 0.14.0, which is not in local state; reinstall with: midenup \
         install mainnet"
    );
    let gone = at(Version::new(2, 0, 0));
    let missing = update_network("mainnet", &gone, &channels, Some(&installed), &state);
    assert_eq!(
        missing,
        Err(UpdateError::NotUpstream {
            name: "mainnet".to_string(),
            target: "2.0.0".to_string()
        })
    );
}

#[test]
fn a_superseded_channel_is_migrated_once() {
    let state = state_of(Version::new(0, 15, 0), vec![]);
    let installation = &state.installations[0];
    let upstream = UpstreamChannel {
        channel: Channel::new(Version::new(0, 16, 0), vec![]),
        upstream_match: UpstreamMatch::Migrated { old_channel: Version::new(0, 15, 0) },
    };
    assert_eq!(migration_of(&upstream, installation), Some(Version::new(0, 15, 0)));
    assert_eq!(
        update_installed_channel(Some(&upstream), installation),
        ChannelUpdate::Migrate { old_channel: Version::new(0, 15, 0) }
    );
    let arrived = state_of(Version::new(0, 16, 0), vec![]);
    assert_eq!(migration_of(&upstream, &arrived.installations[0]), None);
    assert_eq!(
        update_installed_channel(Some(&upstream), &arrived.installations[0]),
        ChannelUpdate::Reconcile
    );
    assert_eq!(update_installed_channel(None, installation), ChannelUpdate::Nothing);
    assert_eq!(
        migrate(installation, &upstream.channel),
        [
            MigrationStep::Install { intent: Intent::new(&[Profile::Minimal], &[]) },
            MigrationStep::CarryVar { from: Version::new(0, 15, 0), to: Version::new(0, 16, 0) },
            MigrationStep::Uninstall { channel: Version::new(0, 15, 0), purge: false },
        ]
    );
}

#[test]
fn data_follows_a_migration_unless_it_would_be_merged() {
    let (from, to) = (Version::new(0, 15, 0), Version::new(0, 16, 0));
    assert_eq!(var_dir("/home", "mainnet"), "/home/var/mainnet");
    assert_eq!(
        carry_var_to("/home", &from, &to, true, false),
        VarMove::Rename {
            source: "/home/var/0.15.0".to_string(),
            destination: "/home/var/0.16.0".to_string()
        }
    );
    assert_eq!(carry_var_to("/home", &from, &to, true, true), VarMove::LeftInPlace);
    assert_eq!(carry_var_to("/home", &from, &to, false, false), VarMove::Nothing);
    assert_eq!(carry_var_to("/home", &from, &from, true, false), VarMove::Nothing);
}
