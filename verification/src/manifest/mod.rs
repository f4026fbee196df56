//! The components and channels that a manifest declares.

pub mod conversion_laws;
pub mod document;
pub mod upgrade;
pub mod upgrade_laws;
pub mod v1;
pub mod v1_laws;

use vstd::prelude::*;

use crate::artifact::{ArtifactFacts, Artifacts};
use crate::exec::Executable;
use crate::profile::Profile;
use crate::sorted::SortedMap;
use crate::text;
use crate::value::{Extra, Json};
use crate::version::{Authority, AuthorityFacts, Version};

verus! {

/// Why a manifest is refused.
#[derive(Debug, PartialEq, Eq)]
pub enum ManifestError {
    Invalid(String),
}

impl View for ManifestError {
    type V = Seq<char>;

    open spec fn view(&self) -> Seq<char> {
        match self {
            ManifestError::Invalid(message) => message@,
        }
    }
}

/// How an executable is obtained.
#[derive(Debug, PartialEq, Eq, Hash)]
pub enum InstallationMethod {
    /// An artifact for the current target is required.
    Prebuilt,
    /// The artifact where there is one and the transfer succeeds, a Cargo build otherwise.
    PrebuiltWithCargoFallback {
        crate_name: String,
        rustup_channel: Option<String>,
        features: Vec<String>,
    },
    /// Always a Cargo build.
    Cargo { crate_name: String, rustup_channel: Option<String>, features: Vec<String> },
}

/// What an [`InstallationMethod`] holds.
#[verifier::ext_equal]
pub enum MethodFacts {
    Prebuilt,
    PrebuiltWithCargoFallback {
        crate_name: Seq<char>,
        rustup_channel: Option<Seq<char>>,
        features: Seq<Seq<char>>,
    },
    Cargo {
        crate_name: Seq<char>,
        rustup_channel: Option<Seq<char>>,
        features: Seq<Seq<char>>,
    },
}

impl DeepView for InstallationMethod {
    type V = MethodFacts;

    open spec fn deep_view(&self) -> MethodFacts {
        match self {
            InstallationMethod::Prebuilt => MethodFacts::Prebuilt,
            InstallationMethod::PrebuiltWithCargoFallback {
                crate_name,
                rustup_channel,
                features,
            } => MethodFacts::PrebuiltWithCargoFallback {
                crate_name: crate_name@,
                rustup_channel: rustup_channel.deep_view(),
                features: features.deep_view(),
            },
            InstallationMethod::Cargo { crate_name, rustup_channel, features } =>
                MethodFacts::Cargo {
                crate_name: crate_name@,
                rustup_channel: rustup_channel.deep_view(),
                features: features.deep_view(),
            },
        }
    }
}

impl Clone for InstallationMethod {
    fn clone(&self) -> (r: Self)
        ensures
            r.deep_view() == self.deep_view(),
    {
        match self {
            InstallationMethod::Prebuilt => InstallationMethod::Prebuilt,
            InstallationMethod::PrebuiltWithCargoFallback {
                crate_name,
                rustup_channel,
                features,
            } => InstallationMethod::PrebuiltWithCargoFallback {
                crate_name: crate_name.clone(),
                rustup_channel: rustup_channel.clone(),
                features: text::copy_all(features),
            },
            InstallationMethod::Cargo { crate_name, rustup_channel, features } =>
                InstallationMethod::Cargo {
                crate_name: crate_name.clone(),
                rustup_channel: rustup_channel.clone(),
                features: text::copy_all(features),
            },
        }
    }
}

/// How a package that is no artifact is obtained.
#[derive(Debug, PartialEq, Eq, Hash)]
pub enum PackageInstallationMethod {
    Prebuilt,
    /// Extracted from a crate by an expression compiled against it.
    Cargo { crate_name: String, features: Vec<String>, extractor: String },
}

/// What a [`PackageInstallationMethod`] holds.
#[verifier::ext_equal]
pub enum PackageMethodFacts {
    Prebuilt,
    Cargo { crate_name: Seq<char>, features: Seq<Seq<char>>, extractor: Seq<char> },
}

impl DeepView for PackageInstallationMethod {
    type V = PackageMethodFacts;

    open spec fn deep_view(&self) -> PackageMethodFacts {
        match self {
            PackageInstallationMethod::Prebuilt => PackageMethodFacts::Prebuilt,
            PackageInstallationMethod::Cargo { crate_name, features, extractor } =>
                PackageMethodFacts::Cargo {
                crate_name: crate_name@,
                features: features.deep_view(),
                extractor: extractor@,
            },
        }
    }
}

impl Clone for PackageInstallationMethod {
    fn clone(&self) -> (r: Self)
        ensures
            r.deep_view() == self.deep_view(),
    {
        match self {
            PackageInstallationMethod::Prebuilt => PackageInstallationMethod::Prebuilt,
            PackageInstallationMethod::Cargo { crate_name, features, extractor } =>
                PackageInstallationMethod::Cargo {
                crate_name: crate_name.clone(),
                features: text::copy_all(features),
                extractor: extractor.clone(),
            },
        }
    }
}

/// What an executable declares beside how it is obtained.
#[derive(Debug, PartialEq, Eq, Hash)]
pub struct ExecutableComponent {
    /// The name of the shim; derived from the component's name where it is absent.
    pub symlink_name: Option<String>,
    /// The exact name of the installed binary.
    pub installed_executable: String,
    pub call_format: Option<Executable>,
    /// Recorded, never run.
    pub initialization: Option<Executable>,
    pub aliases: SortedMap<Executable>,
    /// No direct invocation by the component's name.
    pub hide: bool,
}

/// What an [`ExecutableComponent`] holds.
#[verifier::ext_equal]
pub struct ExecutableFacts {
    pub symlink_name: Option<Seq<char>>,
    pub installed_executable: Seq<char>,
    pub call_format: Option<Seq<Seq<char>>>,
    pub initialization: Option<Seq<Seq<char>>>,
    pub aliases: Seq<(Seq<char>, Seq<Seq<char>>)>,
    pub hide: bool,
}

impl DeepView for ExecutableComponent {
    type V = ExecutableFacts;

    open spec fn deep_view(&self) -> ExecutableFacts {
        ExecutableFacts {
            symlink_name: self.symlink_name.deep_view(),
            installed_executable: self.installed_executable@,
            call_format: self.call_format.deep_view(),
            initialization: self.initialization.deep_view(),
            aliases: self.aliases.deep_view(),
            hide: self.hide,
        }
    }
}

/// A copy of a map of commands.
pub fn copy_commands(commands: &SortedMap<Executable>) -> (r: SortedMap<Executable>)
    ensures
        r.deep_view() == commands.deep_view(),
{
    let r = commands.clone();
    proof {
        assert forall|i: int| 0 <= i < r@.len() implies r.deep_view()[i]
            == commands.deep_view()[i] by {
            assert(r@[i].0 == commands@[i].0);
            assert(cloned(commands@[i].1, r@[i].1));
        }
        assert(r.deep_view() =~= commands.deep_view());
    }
    r
}

impl Clone for ExecutableComponent {
    fn clone(&self) -> (r: Self)
        ensures
            r.deep_view() == self.deep_view(),
    {
        ExecutableComponent {
            symlink_name: self.symlink_name.clone(),
            installed_executable: self.installed_executable.clone(),
            call_format: self.call_format.clone(),
            initialization: self.initialization.clone(),
            aliases: copy_commands(&self.aliases),
            hide: self.hide,
        }
    }
}

impl Default for ExecutableComponent {
    fn default() -> (r: Self)
        ensures
            r.deep_view() == (ExecutableFacts {
                symlink_name: None,
                installed_executable: Seq::empty(),
                call_format: None,
                initialization: None,
                aliases: Seq::empty(),
                hide: false,
            }),
    {
        let r = ExecutableComponent {
            symlink_name: None,
            installed_executable: String::new(),
            call_format: None,
            initialization: None,
            aliases: SortedMap::new(),
            hide: false,
        };
        assert(r.aliases.deep_view() =~= Seq::empty());
        r
    }
}

/// What a component is.
#[allow(inconsistent_fields)]
#[derive(Debug, PartialEq, Eq, Hash)]
pub enum ComponentKind {
    Executable { installation_method: InstallationMethod, spec: ExecutableComponent },
    CargoExtension { installation_method: InstallationMethod, spec: ExecutableComponent },
    Package,
    LegacyPackage {
        installation_method: PackageInstallationMethod,
        /// The exact output filename.
        installed_package: Option<String>,
    },
    Asset,
    Command {
        command_name: Option<String>,
        format: Executable,
        subcommands: SortedMap<Executable>,
        aliases: SortedMap<Executable>,
    },
    /// A kind that this build has never heard of. Its tag and body are kept as they were read.
    Unsupported { tag: String, body: Extra },
}

/// What a [`ComponentKind`] holds.
#[allow(inconsistent_fields)]
#[verifier::ext_equal]
pub enum KindFacts {
    Executable { installation_method: MethodFacts, spec: ExecutableFacts },
    CargoExtension { installation_method: MethodFacts, spec: ExecutableFacts },
    Package,
    LegacyPackage { installation_method: PackageMethodFacts, installed_package: Option<Seq<char>> },
    Asset,
    Command {
        command_name: Option<Seq<char>>,
        format: Seq<Seq<char>>,
        subcommands: Seq<(Seq<char>, Seq<Seq<char>>)>,
        aliases: Seq<(Seq<char>, Seq<Seq<char>>)>,
    },
    Unsupported { tag: Seq<char>, body: Map<Seq<char>, Json> },
}

impl DeepView for ComponentKind {
    type V = KindFacts;

    open spec fn deep_view(&self) -> KindFacts {
        match self {
            ComponentKind::Executable { installation_method, spec } => KindFacts::Executable {
                installation_method: installation_method.deep_view(),
                spec: spec.deep_view(),
            },
            ComponentKind::CargoExtension { installation_method, spec } =>
                KindFacts::CargoExtension {
                installation_method: installation_method.deep_view(),
                spec: spec.deep_view(),
            },
            ComponentKind::Package => KindFacts::Package,
            ComponentKind::LegacyPackage { installation_method, installed_package } =>
                KindFacts::LegacyPackage {
                installation_method: installation_method.deep_view(),
                installed_package: installed_package.deep_view(),
            },
            ComponentKind::Asset => KindFacts::Asset,
            ComponentKind::Command { command_name, format, subcommands, aliases } =>
                KindFacts::Command {
                command_name: command_name.deep_view(),
                format: format.deep_view(),
                subcommands: subcommands.deep_view(),
                aliases: aliases.deep_view(),
            },
            ComponentKind::Unsupported { tag, body } => KindFacts::Unsupported {
                tag: tag@,
                body: body@,
            },
        }
    }
}

impl Clone for ComponentKind {
    fn clone(&self) -> (r: Self)
        ensures
            r.deep_view() == self.deep_view(),
    {
        match self {
            ComponentKind::Executable { installation_method, spec } => ComponentKind::Executable {
                installation_method: installation_method.clone(),
                spec: spec.clone(),
            },
            ComponentKind::CargoExtension { installation_method, spec } =>
                ComponentKind::CargoExtension {
                installation_method: installation_method.clone(),
                spec: spec.clone(),
            },
            ComponentKind::Package => ComponentKind::Package,
            ComponentKind::LegacyPackage { installation_method, installed_package } =>
                ComponentKind::LegacyPackage {
                installation_method: installation_method.clone(),
                installed_package: installed_package.clone(),
            },
            ComponentKind::Asset => ComponentKind::Asset,
            ComponentKind::Command { command_name, format, subcommands, aliases } =>
                ComponentKind::Command {
                command_name: command_name.clone(),
                format: format.clone(),
                subcommands: copy_commands(subcommands),
                aliases: copy_commands(aliases),
            },
            ComponentKind::Unsupported { tag, body } => ComponentKind::Unsupported {
                tag: tag.clone(),
                body: body.clone(),
            },
        }
    }
}

/// The tag that a manifest names a kind by.
pub open spec fn kind_tag(kind: KindFacts) -> Seq<char> {
    match kind {
        KindFacts::Executable { .. } => "executable"@,
        KindFacts::CargoExtension { .. } => "cargo-extension"@,
        KindFacts::Package => "package"@,
        KindFacts::LegacyPackage { .. } => "legacy-package"@,
        KindFacts::Asset => "asset"@,
        KindFacts::Command { .. } => "command"@,
        KindFacts::Unsupported { tag, .. } => tag,
    }
}

impl ComponentKind {
    /// The tag that a manifest names this kind by.
    pub fn tag(&self) -> (r: &str)
        ensures
            r@ == kind_tag(self.deep_view()),
    {
        match self {
            ComponentKind::Executable { .. } => "executable",
            ComponentKind::CargoExtension { .. } => "cargo-extension",
            ComponentKind::Package => "package",
            ComponentKind::LegacyPackage { .. } => "legacy-package",
            ComponentKind::Asset => "asset",
            ComponentKind::Command { .. } => "command",
            ComponentKind::Unsupported { tag, .. } => tag.as_str(),
        }
    }
}

/// An installable component of a channel.
#[derive(Debug, PartialEq, Eq, Hash)]
pub struct Component {
    pub name: String,
    pub version: Authority,
    pub kind: ComponentKind,
    /// The profiles that select this component.
    pub profiles: Vec<Profile>,
    /// The components that this one needs.
    pub requires: Vec<String>,
    pub artifacts: Artifacts,
    pub extra: Extra,
}

/// What a [`Component`] holds.
#[verifier::ext_equal]
pub struct ComponentFacts {
    pub name: Seq<char>,
    pub version: AuthorityFacts,
    pub kind: KindFacts,
    pub profiles: Seq<Profile>,
    pub requires: Seq<Seq<char>>,
    pub artifacts: Seq<(Seq<char>, ArtifactFacts)>,
    pub extra: Map<Seq<char>, Json>,
}

impl DeepView for Component {
    type V = ComponentFacts;

    open spec fn deep_view(&self) -> ComponentFacts {
        ComponentFacts {
            name: self.name@,
            version: self.version.deep_view(),
            kind: self.kind.deep_view(),
            profiles: self.profiles.deep_view(),
            requires: self.requires.deep_view(),
            artifacts: self.artifacts.deep_view(),
            extra: self.extra@,
        }
    }
}

impl Clone for Component {
    fn clone(&self) -> (r: Self)
        ensures
            r.deep_view() == self.deep_view(),
    {
        let profiles = self.profiles.clone();
        assert(profiles.deep_view() =~= self.profiles.deep_view());
        Component {
            name: self.name.clone(),
            version: self.version.clone(),
            kind: self.kind.clone(),
            profiles,
            requires: text::copy_all(&self.requires),
            artifacts: self.artifacts.clone(),
            extra: self.extra.clone(),
        }
    }
}

/// The name of the shim that makes an executable reachable, if it gets one: the declared name,
/// else one made of the component's name, unless the component is hidden.
pub open spec fn shim_name(c: ComponentFacts) -> Option<Seq<char>> {
    match c.kind {
        KindFacts::Executable { spec, .. } | KindFacts::CargoExtension { spec, .. } => {
            match spec.symlink_name {
                Some(name) => Some(name),
                None => if spec.hide {
                    None
                } else {
                    Some("miden "@ + c.name)
                },
            }
        },
        _ => None,
    }
}

/// The filename that a legacy package is installed as: the declared one, else the component's
/// name with the package extension.
pub open spec fn package_name(c: ComponentFacts) -> Option<Seq<char>> {
    match c.kind {
        KindFacts::LegacyPackage { installed_package, .. } => Some(
            match installed_package {
                Some(name) => name,
                None => c.name + ".masp"@,
            },
        ),
        _ => None,
    }
}

/// The Cargo package that a component names, if it names one.
pub open spec fn cargo_package(c: ComponentFacts) -> Option<Seq<char>> {
    match c.kind {
        KindFacts::Executable { installation_method, .. } | KindFacts::CargoExtension {
            installation_method,
            ..
        } => match installation_method {
            MethodFacts::Prebuilt => None,
            MethodFacts::PrebuiltWithCargoFallback { crate_name, .. } => Some(crate_name),
            MethodFacts::Cargo { crate_name, .. } => Some(crate_name),
        },
        KindFacts::LegacyPackage { installation_method, .. } => match installation_method {
            PackageMethodFacts::Prebuilt => None,
            PackageMethodFacts::Cargo { crate_name, .. } => Some(crate_name),
        },
        _ => None,
    }
}

impl Component {
    /// What this component is.
    pub fn kind(&self) -> (r: &ComponentKind)
        ensures
            *r == self.kind,
    {
        &self.kind
    }

    /// The name of the shim in `opt/`, if the component gets one.
    pub fn get_symlink_name(&self) -> (r: Option<String>)
        ensures
            r.deep_view() == shim_name(self.deep_view()),
    {
        match &self.kind {
            ComponentKind::Executable { spec, .. } | ComponentKind::CargoExtension {
                spec,
                ..
            } => {
                match &spec.symlink_name {
                    Some(name) => Some(name.clone()),
                    None => {
                        if spec.hide {
                            None
                        } else {
                            let mut name = "miden ".to_owned();
                            name.append(self.name.as_str());
                            Some(name)
                        }
                    },
                }
            },
            _ => None,
        }
    }

    /// The filename that a legacy package is installed as.
    pub fn installed_package_name(&self) -> (r: Option<String>)
        ensures
            r.deep_view() == package_name(self.deep_view()),
    {
        match &self.kind {
            ComponentKind::LegacyPackage { installed_package, .. } => match installed_package {
                Some(name) => Some(name.clone()),
                None => {
                    let mut name = self.name.clone();
                    name.append(".masp");
                    Some(name)
                },
            },
            _ => None,
        }
    }

    /// The Cargo package that the component names, if it names one.
    pub fn crate_name(&self) -> (r: Option<String>)
        ensures
            r.deep_view() == cargo_package(self.deep_view()),
    {
        match &self.kind {
            ComponentKind::Executable { installation_method, .. }
            | ComponentKind::CargoExtension { installation_method, .. } => {
                match installation_method {
                    InstallationMethod::Prebuilt => None,
                    InstallationMethod::PrebuiltWithCargoFallback { crate_name, .. } => Some(
                        crate_name.clone(),
                    ),
                    InstallationMethod::Cargo { crate_name, .. } => Some(crate_name.clone()),
                }
            },
            ComponentKind::LegacyPackage { installation_method, .. } => {
                match installation_method {
                    PackageInstallationMethod::Prebuilt => None,
                    PackageInstallationMethod::Cargo { crate_name, .. } => Some(
                        crate_name.clone(),
                    ),
                }
            },
            _ => None,
        }
    }
}

/// A toolchain release: a version and its components.
#[derive(Debug, PartialEq, Eq, Hash)]
pub struct Channel {
    pub name: Version,
    pub components: Vec<Component>,
    /// The channels whose installations move to this one.
    pub migrates_from: Vec<Version>,
}

/// What a [`Channel`] holds.
#[verifier::ext_equal]
pub struct ChannelFacts {
    pub name: Seq<char>,
    pub components: Seq<ComponentFacts>,
    pub migrates_from: Seq<Seq<char>>,
}

impl DeepView for Channel {
    type V = ChannelFacts;

    open spec fn deep_view(&self) -> ChannelFacts {
        ChannelFacts {
            name: self.name@,
            components: self.components.deep_view(),
            migrates_from: self.migrates_from.deep_view(),
        }
    }
}

/// Copies some components.
pub fn copy_components(components: &Vec<Component>) -> (r: Vec<Component>)
    ensures
        r.deep_view() == components.deep_view(),
{
    let ghost all = components.deep_view();
    let mut r: Vec<Component> = Vec::new();
    let mut i: usize = 0;
    while i < components.len()
        invariant
            i <= components@.len(),
            all == components.deep_view(),
            r.deep_view() == all.take(i as int),
        decreases components.len() - i,
    {
        let ghost before = r.deep_view();
        r.push(components[i].clone());
        assert(r.deep_view() =~= before.push(all[i as int]));
        assert(all.take(i + 1) =~= all.take(i as int).push(all[i as int]));
        i += 1;
    }
    assert(all.take(i as int) =~= all);
    r
}

impl Clone for Channel {
    fn clone(&self) -> (r: Self)
        ensures
            r.deep_view() == self.deep_view(),
    {
        let migrates_from = self.migrates_from.clone();
        assert(migrates_from.deep_view() =~= self.migrates_from.deep_view()) by {
            assert forall|i: int| 0 <= i < migrates_from@.len() implies migrates_from.deep_view()[i]
                == self.migrates_from.deep_view()[i] by {
                assert(cloned(self.migrates_from@[i], migrates_from@[i]));
            }
        }
        Channel {
            name: self.name.clone(),
            components: copy_components(&self.components),
            migrates_from,
        }
    }
}

impl Channel {
    /// A channel that nothing migrates to.
    pub fn new(name: Version, components: Vec<Component>) -> (r: Self)
        ensures
            r.deep_view() == (ChannelFacts {
                name: name@,
                components: components.deep_view(),
                migrates_from: Seq::empty(),
            }),
    {
        let r = Channel { name, components, migrates_from: Vec::new() };
        assert(r.migrates_from.deep_view() =~= Seq::empty());
        r
    }
}

} // verus!
