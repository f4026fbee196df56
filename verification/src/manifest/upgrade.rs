//! Converting components of the first manifest schema to the current one.

use vstd::prelude::*;

use crate::artifact::{Artifact, ArtifactFacts, Artifacts, Substitutions, SubstitutionsFacts};
use crate::exec::Executable;
use crate::manifest::v1;
use crate::manifest::v1::{FileFacts, InstalledFile, V1Facts};
use crate::manifest::{
    Component, ComponentFacts, ComponentKind, ExecutableComponent, ExecutableFacts,
    InstallationMethod, KindFacts, ManifestError, MethodFacts, PackageInstallationMethod,
    PackageMethodFacts,
};
use crate::profile::Profile;
use crate::sorted;
use crate::sorted::SortedMap;
use crate::text;
use crate::value::Extra;
use crate::version::{Authority, AuthorityFacts};

verus! {

// ---------------------------------------------------------------------------------------------
// Artifacts

/// An artifact URI with the component's version taken out of it, where the version is a registry
/// one.
pub open spec fn unversioned(raw: Seq<char>, authority: AuthorityFacts) -> Seq<char> {
    match authority {
        AuthorityFacts::Registry { version } => text::replaced(raw, version, "%version"@),
        _ => raw,
    }
}

/// The name that an artifact is installed as: the last segment of its URI, without the target.
pub open spec fn artifact_name(uri: Seq<char>) -> Seq<char> {
    let last = text::after_last(uri, '/');
    match text::without_suffix(last, "-aarch64-apple-darwin"@) {
        Some(name) => name,
        None => match text::without_suffix(last, "-x86_64-unknown-linux-gnu"@) {
            Some(name) => name,
            None => last,
        },
    }
}

/// Substitutions that substitute nothing.
pub open spec fn no_substitutions() -> SubstitutionsFacts {
    SubstitutionsFacts { basename: None, extension: None, extra: Map::empty() }
}

/// The artifacts with `target` added to those that the artifact `name` supports. An artifact that
/// is the same for every target stays as it is.
pub open spec fn with_target(
    artifacts: Seq<(Seq<char>, ArtifactFacts)>,
    name: Seq<char>,
    uri: Seq<char>,
    target: Seq<char>,
) -> Seq<(Seq<char>, ArtifactFacts)> {
    match sorted::lookup(artifacts, name) {
        None => sorted::put(
            artifacts,
            name,
            ArtifactFacts::TargetSpecific {
                uri,
                substitutions: None,
                targets: seq![(target, no_substitutions())],
                digest: None,
                archive: None,
                extra: Map::empty(),
            },
        ),
        Some(ArtifactFacts::TargetSpecific {
            uri,
            substitutions,
            targets,
            digest,
            archive,
            extra,
        }) => sorted::put(
            artifacts,
            name,
            ArtifactFacts::TargetSpecific {
                uri,
                substitutions,
                targets: sorted::put(targets, target, no_substitutions()),
                digest,
                archive,
                extra,
            },
        ),
        Some(ArtifactFacts::TargetAgnostic { .. }) => artifacts,
    }
}

/// The artifacts with one more URI taken in. A package is the same for every target; anything else
/// is taken in for the target that its URI names, and left out where it names none.
pub open spec fn with_artifact(
    artifacts: Seq<(Seq<char>, ArtifactFacts)>,
    raw: Seq<char>,
    authority: AuthorityFacts,
) -> Seq<(Seq<char>, ArtifactFacts)> {
    let uri = unversioned(raw, authority);
    let name = artifact_name(uri);
    if text::finishes_with(uri, ".masp"@) {
        sorted::put(
            artifacts,
            name,
            ArtifactFacts::TargetAgnostic {
                uri,
                digest: None,
                archive: None,
                extra: Map::empty(),
            },
        )
    } else if text::occurs_in(uri, "aarch64-apple-darwin"@) {
        with_target(
            artifacts,
            name,
            text::replaced(uri, "aarch64-apple-darwin"@, "%target"@),
            "aarch64-apple-darwin"@,
        )
    } else if text::occurs_in(uri, "x86_64-unknown-linux-gnu"@) {
        with_target(
            artifacts,
            name,
            text::replaced(uri, "x86_64-unknown-linux-gnu"@, "%target"@),
            "x86_64-unknown-linux-gnu"@,
        )
    } else {
        artifacts
    }
}

/// All the URIs taken in, one after the other.
pub open spec fn upgraded_artifacts(uris: Seq<Seq<char>>, authority: AuthorityFacts) -> Seq<
    (Seq<char>, ArtifactFacts),
>
    decreases uris.len(),
{
    if uris.len() == 0 {
        Seq::empty()
    } else {
        with_artifact(upgraded_artifacts(uris.drop_last(), authority), uris.last(), authority)
    }
}

fn file_name_of(uri: &str) -> (r: String)
    ensures
        r@ == artifact_name(uri@),
{
    let last = text::last_segment(uri, '/');
    match text::strip_suffix(last.as_str(), "-aarch64-apple-darwin") {
        Some(name) => name,
        None => match text::strip_suffix(last.as_str(), "-x86_64-unknown-linux-gnu") {
            Some(name) => name,
            None => last,
        },
    }
}

fn add_target(artifacts: &mut Artifacts, name: String, uri: String, target: &str)
    ensures
        final(artifacts).deep_view() == with_target(
            old(artifacts).deep_view(),
            name@,
            uri@,
            target@,
        ),
{
    let ghost declared = artifacts.artifacts@;
    let found = match artifacts.artifacts.get(name.as_str()) {
        Some(artifact) => Some(artifact.clone()),
        None => None,
    };
    proof {
        sorted::lookup_with_values(declared, name@, |v: Artifact| v.deep_view());
    }
    match found {
        None => {
            let mut targets: SortedMap<Substitutions> = SortedMap::new();
            let _ = targets.insert(target.to_owned(), Substitutions::default());
            assert(targets.deep_view() =~= seq![(target@, no_substitutions())]);
            artifacts.insert(
                name,
                Artifact::TargetSpecific {
                    uri,
                    substitutions: None,
                    targets,
                    digest: None,
                    archive: None,
                    extra: Extra::default(),
                },
            );
        },
        Some(Artifact::TargetSpecific { uri, substitutions, targets, digest, archive, extra }) => {
            let mut targets = targets;
            let ghost before = targets@;
            let empty = Substitutions::default();
            let ghost given = empty;
            let _ = targets.insert(target.to_owned(), empty);
            proof {
                sorted::put_with_values(
                    before,
                    target@,
                    given,
                    |v: Substitutions| v.deep_view(),
                );
            }
            artifacts.insert(
                name,
                Artifact::TargetSpecific { uri, substitutions, targets, digest, archive, extra },
            );
        },
        Some(Artifact::TargetAgnostic { .. }) => {},
    }
}

fn add_artifact(artifacts: &mut Artifacts, raw: &str, authority: &Authority)
    ensures
        final(artifacts).deep_view() == with_artifact(
            old(artifacts).deep_view(),
            raw@,
            authority.deep_view(),
        ),
{
    proof {
        reveal_strlit("aarch64-apple-darwin");
        reveal_strlit("x86_64-unknown-linux-gnu");
    }
    let uri = match authority {
        Authority::Registry { version } => text::replace(raw, version.as_str(), "%version"),
        _ => raw.to_owned(),
    };
    let name = file_name_of(uri.as_str());
    if text::ends_with(uri.as_str(), ".masp") {
        artifacts.insert(
            name,
            Artifact::TargetAgnostic { uri, digest: None, archive: None, extra: Extra::default() },
        );
    } else if text::contains(uri.as_str(), "aarch64-apple-darwin") {
        let uri = text::replace(uri.as_str(), "aarch64-apple-darwin", "%target");
        add_target(artifacts, name, uri, "aarch64-apple-darwin");
    } else if text::contains(uri.as_str(), "x86_64-unknown-linux-gnu") {
        let uri = text::replace(uri.as_str(), "x86_64-unknown-linux-gnu", "%target");
        add_target(artifacts, name, uri, "x86_64-unknown-linux-gnu");
    }
}

fn upgrade_artifacts(uris: &Vec<String>, authority: &Authority) -> (r: Artifacts)
    ensures
        r.deep_view() == upgraded_artifacts(uris.deep_view(), authority.deep_view()),
{
    let mut artifacts = Artifacts::default();
    let ghost all = uris.deep_view();
    let mut i: usize = 0;
    assert(all.take(0) =~= Seq::empty());
    while i < uris.len()
        invariant
            i <= uris@.len() == all.len(),
            all == uris.deep_view(),
            artifacts.deep_view() == upgraded_artifacts(all.take(i as int), authority.deep_view()),
        decreases uris.len() - i,
    {
        add_artifact(&mut artifacts, uris[i].as_str(), authority);
        proof {
            assert(all.take(i + 1).drop_last() =~= all.take(i as int));
            assert(all.take(i + 1).last() == all[i as int]);
        }
        i += 1;
    }
    assert(all.take(i as int) =~= all);
    artifacts
}

// ---------------------------------------------------------------------------------------------
// Commands

/// What became of a component's commands when each was turned into a template: the template, or
/// what is wrong with it.
pub struct Conversions {
    pub call_format: Result<Executable, String>,
    pub initialization: Result<Executable, String>,
    /// One for each alias, in the order of the aliases.
    pub aliases: Vec<Result<Executable, String>>,
}

/// A converted command.
pub open spec fn outcome(r: Result<Executable, String>) -> Result<Seq<Seq<char>>, Seq<char>> {
    match r {
        Ok(executable) => Ok(executable.deep_view()),
        Err(message) => Err(message@),
    }
}

/// What a [`Conversions`] holds.
pub struct ConversionFacts {
    pub call_format: Result<Seq<Seq<char>>, Seq<char>>,
    pub initialization: Result<Seq<Seq<char>>, Seq<char>>,
    pub aliases: Seq<Result<Seq<Seq<char>>, Seq<char>>>,
}

impl DeepView for Conversions {
    type V = ConversionFacts;

    open spec fn deep_view(&self) -> ConversionFacts {
        ConversionFacts {
            call_format: outcome(self.call_format),
            initialization: outcome(self.initialization),
            aliases: self.aliases@.map_values(|r: Result<Executable, String>| outcome(r)),
        }
    }
}

/// One converted command, or a message that names the component and the field at fault.
pub open spec fn converted(
    component: Seq<char>,
    field: Seq<char>,
    r: Result<Seq<Seq<char>>, Seq<char>>,
) -> Result<Seq<Seq<char>>, Seq<char>> {
    match r {
        Ok(command) => Ok(command),
        Err(message) => Err(
            "component '"@ + component + "' has an invalid "@ + field + ": "@ + message,
        ),
    }
}

/// A command that is converted only where one is declared.
pub open spec fn converted_if(
    declared: bool,
    component: Seq<char>,
    field: Seq<char>,
    r: Result<Seq<Seq<char>>, Seq<char>>,
) -> Result<Option<Seq<Seq<char>>>, Seq<char>> {
    if !declared {
        Ok(None)
    } else {
        match converted(component, field, r) {
            Ok(command) => Ok(Some(command)),
            Err(message) => Err(message),
        }
    }
}

/// The message for an alias that cannot be converted.
pub open spec fn invalid_alias(component: Seq<char>, alias: Seq<char>, message: Seq<char>) -> Seq<
    char,
> {
    "component '"@ + component + "' defines alias '"@ + alias
        + "' with an invalid                      invocation: "@ + message
}

/// The aliases with their converted commands; the first that cannot be converted fails all.
pub open spec fn converted_aliases(
    component: Seq<char>,
    names: Seq<Seq<char>>,
    commands: Seq<Result<Seq<Seq<char>>, Seq<char>>>,
    n: int,
) -> Result<Seq<(Seq<char>, Seq<Seq<char>>)>, Seq<char>>
    decreases n,
{
    if n <= 0 {
        Ok(Seq::empty())
    } else {
        match converted_aliases(component, names, commands, n - 1) {
            Err(message) => Err(message),
            Ok(done) => match commands[n - 1] {
                Err(message) => Err(invalid_alias(component, names[n - 1], message)),
                Ok(command) => Ok(done.push((names[n - 1], command))),
            },
        }
    }
}

/// The names of the aliases.
pub open spec fn alias_names<T>(aliases: Seq<(Seq<char>, T)>) -> Seq<Seq<char>> {
    Seq::new(aliases.len(), |i: int| aliases[i].0)
}

/// Converts one command expression, naming what failed.
fn convert(component: &str, field: &str, command: Result<Executable, String>) -> (r: Result<
    Executable,
    ManifestError,
>)
    ensures
        match r {
            Ok(e) => converted(component@, field@, outcome(command)) == Ok::<
                Seq<Seq<char>>,
                Seq<char>,
            >(e.deep_view()),
            Err(e) => converted(component@, field@, outcome(command)) == Err::<
                Seq<Seq<char>>,
                Seq<char>,
            >(e@),
        },
{
    match command {
        Ok(executable) => Ok(executable),
        Err(err) => {
            let mut message = "component '".to_owned();
            message.append(component);
            message.append("' has an invalid ");
            message.append(field);
            message.append(": ");
            message.append(err.as_str());
            Err(ManifestError::Invalid(message))
        },
    }
}

fn convert_if(
    declared: bool,
    component: &str,
    field: &str,
    command: Result<Executable, String>,
) -> (r: Result<Option<Executable>, ManifestError>)
    ensures
        match r {
            Ok(e) => converted_if(declared, component@, field@, outcome(command)) == Ok::<
                Option<Seq<Seq<char>>>,
                Seq<char>,
            >(e.deep_view()),
            Err(e) => converted_if(declared, component@, field@, outcome(command)) == Err::<
                Option<Seq<Seq<char>>>,
                Seq<char>,
            >(e@),
        },
{
    if !declared {
        return Ok(None);
    }
    match convert(component, field, command) {
        Ok(executable) => Ok(Some(executable)),
        Err(e) => Err(e),
    }
}

/// A failed alias fails all that follow.
proof fn failed_aliases(
    component: Seq<char>,
    names: Seq<Seq<char>>,
    commands: Seq<Result<Seq<Seq<char>>, Seq<char>>>,
    m: int,
    n: int,
)
    requires
        0 <= m <= n,
        converted_aliases(component, names, commands, m) is Err,
    ensures
        converted_aliases(component, names, commands, n) == converted_aliases(
            component,
            names,
            commands,
            m,
        ),
    decreases n - m,
{
    if m < n {
        failed_aliases(component, names, commands, m, n - 1);
    }
}

/// Converts the aliases.
fn convert_aliases(
    component: &str,
    aliases: &SortedMap<Vec<v1::CliCommand>>,
    commands: &Vec<Result<Executable, String>>,
) -> (r: Result<SortedMap<Executable>, ManifestError>)
    requires
        commands@.len() == aliases@.len(),
    ensures
        ({
            let facts = converted_aliases(
                component@,
                alias_names(aliases.deep_view()),
                commands@.map_values(|r: Result<Executable, String>| outcome(r)),
                aliases@.len() as int,
            );
            match r {
                Ok(map) => facts == Ok::<Seq<(Seq<char>, Seq<Seq<char>>)>, Seq<char>>(
                    map.deep_view(),
                ),
                Err(e) => facts == Err::<Seq<(Seq<char>, Seq<Seq<char>>)>, Seq<char>>(e@),
            }
        }),
{
    let ghost names = alias_names(aliases.deep_view());
    let ghost outcomes = commands@.map_values(|r: Result<Executable, String>| outcome(r));
    let mut map: SortedMap<Executable> = SortedMap::new();
    let n = aliases.len();
    let mut i: usize = 0;
    assert(map.deep_view() =~= Seq::empty());
    while i < n
        invariant
            i <= n == aliases@.len(),
            commands@.len() == n,
            names == alias_names(aliases.deep_view()),
            outcomes == commands@.map_values(|r: Result<Executable, String>| outcome(r)),
            sorted::keys_increase(aliases@),
            sorted::keys_increase(map@),
            map@.len() == i,
            forall|j: int| 0 <= j < i ==> (#[trigger] map@[j]).0 == names[j],
            converted_aliases(component@, names, outcomes, i as int) == Ok::<
                Seq<(Seq<char>, Seq<Seq<char>>)>,
                Seq<char>,
            >(map.deep_view()),
        decreases n - i,
    {
        let ghost before = map@;
        let ghost seen = map.deep_view();
        let alias = aliases.key(i);
        assert(names[i as int] == alias@);
        assert(outcomes[i as int] == outcome(commands@[i as int]));
        match &commands[i] {
            Ok(executable) => {
                let command = executable.clone();
                let ghost given = command;
                let _ = map.insert(alias.clone(), command);
                proof {
                    assert forall|j: int| 0 <= j < before.len() implies text::precedes(
                        (#[trigger] before[j]).0,
                        alias@,
                    ) by {
                        assert(before[j].0 == names[j]);
                        assert(names[j] == aliases@[j].0);
                        assert(text::precedes(aliases@[j].0, aliases@[i as int].0));
                    }
                    sorted::put_at_end(before, alias@, given);
                    assert(map.deep_view() =~= seen.push((alias@, given.deep_view())));
                }
            },
            Err(err) => {
                let mut message = "component '".to_owned();
                message.append(component);
                message.append("' defines alias '");
                message.append(alias.as_str());
                message.append("' with an invalid                      invocation: ");
                message.append(err.as_str());
                proof {
                    failed_aliases(component@, names, outcomes, i + 1, n as int);
                }
                return Err(ManifestError::Invalid(message));
            },
        }
        i += 1;
    }
    Ok(map)
}

// ---------------------------------------------------------------------------------------------
// Components

/// How an executable is installed: from its artifacts where it has any, else with Cargo.
pub open spec fn upgraded_method(
    v: V1Facts,
    artifacts: Seq<(Seq<char>, ArtifactFacts)>,
) -> MethodFacts {
    if artifacts.len() == 0 {
        MethodFacts::Cargo {
            crate_name: v1::crate_of(v),
            rustup_channel: v.rustup_channel,
            features: v.features,
        }
    } else {
        MethodFacts::Prebuilt
    }
}

/// What an executable declares, in the current schema. Commands are converted in a fixed order, and
/// the first that cannot be is the one that is reported.
pub open spec fn upgraded_executable(
    v: V1Facts,
    commands: ConversionFacts,
    installed_executable: Seq<char>,
    hide: bool,
) -> Result<ExecutableFacts, Seq<char>> {
    match converted_if(v.call_format.len() > 0, v.name, "call_format"@, commands.call_format) {
        Err(message) => Err(message),
        Ok(call_format) => match converted_if(
            v.initialization.len() > 0,
            v.name,
            "initialization"@,
            commands.initialization,
        ) {
            Err(message) => Err(message),
            Ok(initialization) => match converted_aliases(
                v.name,
                alias_names(v.aliases),
                commands.aliases,
                v.aliases.len() as int,
            ) {
                Err(message) => Err(message),
                Ok(aliases) => Ok(
                    ExecutableFacts {
                        symlink_name: v.symlink_name,
                        installed_executable,
                        call_format,
                        initialization,
                        aliases,
                        hide,
                    },
                ),
            },
        },
    }
}

/// What a component is, in the current schema.
pub open spec fn upgraded_kind(
    v: V1Facts,
    commands: ConversionFacts,
    artifacts: Seq<(Seq<char>, ArtifactFacts)>,
) -> Result<KindFacts, Seq<char>> {
    let method = upgraded_method(v, artifacts);
    match v.installed_file {
        None => match upgraded_executable(v, commands, v1::crate_of(v), false) {
            Err(message) => Err(message),
            Ok(spec) => Ok(KindFacts::Executable { installation_method: method, spec }),
        },
        Some(FileFacts::Executable { binary_name, alias_only }) => match upgraded_executable(
            v,
            commands,
            binary_name,
            alias_only,
        ) {
            Err(message) => Err(message),
            Ok(spec) => Ok(
                if alias_only {
                    KindFacts::CargoExtension { installation_method: method, spec }
                } else {
                    KindFacts::Executable { installation_method: method, spec }
                },
            ),
        },
        Some(FileFacts::Library { library_name, library_struct }) => Ok(
            if artifacts.len() == 0 {
                KindFacts::LegacyPackage {
                    installation_method: PackageMethodFacts::Cargo {
                        crate_name: v1::crate_of(v),
                        features: v.features,
                        extractor: library_struct + "::default().as_ref()"@,
                    },
                    installed_package: Some(library_name),
                }
            } else {
                KindFacts::Package
            },
        ),
    }
}

/// A component in the current schema.
pub open spec fn upgraded(v: V1Facts, commands: ConversionFacts) -> Result<
    ComponentFacts,
    Seq<char>,
> {
    let authority = v1::current_authority(v.version);
    let artifacts = upgraded_artifacts(v.artifacts, authority);
    match upgraded_kind(v, commands, artifacts) {
        Err(message) => Err(message),
        Ok(kind) => Ok(
            ComponentFacts {
                name: v.name,
                version: authority,
                kind,
                profiles: if v.optional {
                    Seq::empty()
                } else {
                    seq![Profile::Minimal]
                },
                requires: v.requires,
                artifacts,
                extra: Map::empty(),
            },
        ),
    }
}

fn crate_or(named: Option<String>, name: &String) -> (r: String)
    ensures
        r@ == match named {
            Some(named) => named@,
            None => name@,
        },
{
    match named {
        Some(named) => named,
        None => name.clone(),
    }
}

impl Component {
    /// Converts a component of the first schema, given what became of its commands.
    pub fn try_from(v: v1::Component, commands: Conversions) -> (r: Result<Self, ManifestError>)
        requires
            commands.aliases@.len() == v.aliases@.len(),
        ensures
            match r {
                Ok(c) => upgraded(v.deep_view(), commands.deep_view()) == Ok::<
                    ComponentFacts,
                    Seq<char>,
                >(c.deep_view()),
                Err(e) => upgraded(v.deep_view(), commands.deep_view()) == Err::<
                    ComponentFacts,
                    Seq<char>,
                >(e@),
            },
    {
        let ghost facts = v.deep_view();
        let ghost given = commands.deep_view();
        let v1::Component {
            name,
            version,
            optional,
            features,
            requires: needed,
            call_format,
            rustup_channel,
            installed_file,
            aliases,
            symlink_name,
            initialization,
            artifacts,
        } = v;
        let crate_name = crate_or(version.crate_name(), &name);
        let authority = version.into_current();
        let mut profiles: Vec<Profile> = Vec::new();
        if !optional {
            profiles.push(Profile::Minimal);
        }
        proof {
            assert(profiles.deep_view() =~= if optional {
                Seq::empty()
            } else {
                seq![Profile::Minimal]
            });
        }
        let artifacts = upgrade_artifacts(&artifacts.artifacts, &authority);
        let (binary_name, alias_only) = match installed_file {
            Some(InstalledFile::Library { library_struct, library_name }) => {
                let kind = if artifacts.is_empty() {
                    let mut extractor = library_struct;
                    extractor.append("::default().as_ref()");
                    ComponentKind::LegacyPackage {
                        installation_method: PackageInstallationMethod::Cargo {
                            crate_name,
                            features,
                            extractor,
                        },
                        installed_package: Some(library_name),
                    }
                } else {
                    ComponentKind::Package
                };
                return Ok(
                    Component {
                        name,
                        version: authority,
                        kind,
                        profiles,
                        requires: needed,
                        artifacts,
                        extra: Extra::default(),
                    },
                );
            },
            Some(InstalledFile::Executable { binary_name, alias_only }) => (
                binary_name,
                alias_only,
            ),
            None => (crate_name.clone(), false),
        };
        let installation_method = if artifacts.is_empty() {
            InstallationMethod::Cargo {
                crate_name,
                rustup_channel,
                features,
            }
        } else {
            InstallationMethod::Prebuilt
        };
        let call_format = match convert_if(
            call_format.len() > 0,
            name.as_str(),
            "call_format",
            commands.call_format,
        ) {
            Ok(call_format) => call_format,
            Err(e) => return Err(e),
        };
        let initialization = match convert_if(
            initialization.len() > 0,
            name.as_str(),
            "initialization",
            commands.initialization,
        ) {
            Ok(initialization) => initialization,
            Err(e) => return Err(e),
        };
        let aliases = match convert_aliases(name.as_str(), &aliases, &commands.aliases) {
            Ok(aliases) => aliases,
            Err(e) => return Err(e),
        };
        let spec = ExecutableComponent {
            symlink_name,
            installed_executable: binary_name,
            call_format,
            initialization,
            aliases,
            hide: alias_only,
        };
        let kind = if alias_only {
            ComponentKind::CargoExtension { installation_method, spec }
        } else {
            ComponentKind::Executable { installation_method, spec }
        };
        Ok(
            Component {
                name,
                version: authority,
                kind,
                profiles,
                requires: needed,
                artifacts,
                extra: Extra::default(),
            },
        )
    }
}

} // verus!
