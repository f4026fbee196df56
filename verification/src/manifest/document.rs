//! What a component's declaration says, and whether two say the same.
//!
//! An artifact counts as what is written for it: substitutions that substitute nothing are written
//! like none at all. What is written is compared as documents are: members have no order, and zero has
//! no sign.

use vstd::prelude::*;

use crate::artifact::document as artifact_document;
use crate::artifact::{Artifact, ArtifactFacts};
use crate::exec::Executable;
use crate::manifest::{
    Component, ComponentFacts, ComponentKind, ExecutableComponent, InstallationMethod, KindFacts,
    PackageInstallationMethod,
};
use crate::profile::Profile;
use crate::sorted::SortedMap;
use crate::text;
use crate::value;
use crate::value::Json;
use crate::version;
use crate::version::Authority;

verus! {

/// The artifacts as they are written, and as that counts.
pub open spec fn artifacts_written(artifacts: Seq<(Seq<char>, ArtifactFacts)>) -> Seq<
    (Seq<char>, Map<Seq<char>, Json>),
> {
    Seq::new(
        artifacts.len(),
        |i: int|
            (
                artifacts[i].0,
                value::members_meant(artifact_document::artifact_members(artifacts[i].1)),
            ),
    )
}

/// Whether two kinds are declared alike.
pub open spec fn kinds_alike(a: KindFacts, b: KindFacts) -> bool {
    match (a, b) {
        (
            KindFacts::Unsupported { tag: x, body: p },
            KindFacts::Unsupported { tag: y, body: q },
        ) => x == y && value::members_meant(p) == value::members_meant(q),
        _ => a == b,
    }
}

/// Whether two components are declared alike.
pub open spec fn declared_alike(a: ComponentFacts, b: ComponentFacts) -> bool {
    &&& a.name == b.name
    &&& a.version == b.version
    &&& kinds_alike(a.kind, b.kind)
    &&& a.profiles == b.profiles
    &&& a.requires == b.requires
    &&& artifacts_written(a.artifacts) == artifacts_written(b.artifacts)
    &&& value::members_meant(a.extra) == value::members_meant(b.extra)
}

fn same_authority(a: &Authority, b: &Authority) -> (r: bool)
    ensures
        r == (a.deep_view() == b.deep_view()),
{
    match (a, b) {
        (Authority::Registry { version: x }, Authority::Registry { version: y }) => x.same(y),
        (
            Authority::Git { repository_url: u, subpath: s, target: x },
            Authority::Git { repository_url: v, subpath: t, target: y },
        ) => *u == *v && text::same_option(s, t) && x.same(y),
        (
            Authority::Path { path: p, last_modification: x },
            Authority::Path { path: q, last_modification: y },
        ) => *p == *q && version::same_time(x, y),
        _ => false,
    }
}

fn same_method(a: &InstallationMethod, b: &InstallationMethod) -> (r: bool)
    ensures
        r == (a.deep_view() == b.deep_view()),
{
    match (a, b) {
        (InstallationMethod::Prebuilt, InstallationMethod::Prebuilt) => true,
        (
            InstallationMethod::PrebuiltWithCargoFallback {
                crate_name: c,
                rustup_channel: r,
                features: f,
            },
            InstallationMethod::PrebuiltWithCargoFallback {
                crate_name: d,
                rustup_channel: s,
                features: g,
            },
        ) => *c == *d && text::same_option(r, s) && text::same_all(f, g),
        (
            InstallationMethod::Cargo { crate_name: c, rustup_channel: r, features: f },
            InstallationMethod::Cargo { crate_name: d, rustup_channel: s, features: g },
        ) => *c == *d && text::same_option(r, s) && text::same_all(f, g),
        _ => false,
    }
}

fn same_package_method(a: &PackageInstallationMethod, b: &PackageInstallationMethod) -> (r: bool)
    ensures
        r == (a.deep_view() == b.deep_view()),
{
    match (a, b) {
        (PackageInstallationMethod::Prebuilt, PackageInstallationMethod::Prebuilt) => true,
        (
            PackageInstallationMethod::Cargo { crate_name: c, features: f, extractor: x },
            PackageInstallationMethod::Cargo { crate_name: d, features: g, extractor: y },
        ) => *c == *d && text::same_all(f, g) && *x == *y,
        _ => false,
    }
}

fn same_command(a: &Executable, b: &Executable) -> (r: bool)
    ensures
        r == (a.deep_view() == b.deep_view()),
{
    text::same_all(&a.words, &b.words)
}

fn same_optional_command(a: &Option<Executable>, b: &Option<Executable>) -> (r: bool)
    ensures
        r == (a.deep_view() == b.deep_view()),
{
    match (a, b) {
        (Some(a), Some(b)) => same_command(a, b),
        (None, None) => true,
        _ => false,
    }
}

fn same_commands(a: &SortedMap<Executable>, b: &SortedMap<Executable>) -> (r: bool)
    ensures
        r == (a.deep_view() == b.deep_view()),
{
    let n = a.len();
    let ghost (x, y) = (a.deep_view(), b.deep_view());
    if n != b.len() {
        assert(x.len() != y.len());
        return false;
    }
    let mut i: usize = 0;
    while i < n
        invariant
            i <= n == a@.len() == b@.len(),
            x == a.deep_view(),
            y == b.deep_view(),
            forall|k: int| 0 <= k < i ==> #[trigger] x[k] == y[k],
        decreases n - i,
    {
        if !text::same(a.key(i).as_str(), b.key(i).as_str()) || !same_command(
            a.value(i),
            b.value(i),
        ) {
            assert(x[i as int] != y[i as int]);
            return false;
        }
        assert(x[i as int] == y[i as int]);
        i += 1;
    }
    assert(x =~= y);
    true
}

fn same_spec(a: &ExecutableComponent, b: &ExecutableComponent) -> (r: bool)
    ensures
        r == (a.deep_view() == b.deep_view()),
{
    text::same_option(&a.symlink_name, &b.symlink_name) && a.installed_executable
        == b.installed_executable && same_optional_command(&a.call_format, &b.call_format)
        && same_optional_command(&a.initialization, &b.initialization) && same_commands(
        &a.aliases,
        &b.aliases,
    ) && a.hide == b.hide
}

fn same_kind(a: &ComponentKind, b: &ComponentKind) -> (r: bool)
    ensures
        r == kinds_alike(a.deep_view(), b.deep_view()),
{
    match (a, b) {
        (
            ComponentKind::Executable { installation_method: m, spec: s },
            ComponentKind::Executable { installation_method: n, spec: t },
        ) => same_method(m, n) && same_spec(s, t),
        (
            ComponentKind::CargoExtension { installation_method: m, spec: s },
            ComponentKind::CargoExtension { installation_method: n, spec: t },
        ) => same_method(m, n) && same_spec(s, t),
        (ComponentKind::Package, ComponentKind::Package) => true,
        (
            ComponentKind::LegacyPackage { installation_method: m, installed_package: x },
            ComponentKind::LegacyPackage { installation_method: n, installed_package: y },
        ) => same_package_method(m, n) && text::same_option(x, y),
        (ComponentKind::Asset, ComponentKind::Asset) => true,
        (
            ComponentKind::Command { command_name: c, format: f, subcommands: s, aliases: x },
            ComponentKind::Command { command_name: d, format: g, subcommands: t, aliases: y },
        ) => text::same_option(c, d) && same_command(f, g) && same_commands(s, t)
            && same_commands(x, y),
        (
            ComponentKind::Unsupported { tag: x, body: p },
            ComponentKind::Unsupported { tag: y, body: q },
        ) => *x == *y && value::same_members(&p.members, &q.members),
        _ => false,
    }
}

/// Whether two lists of profiles are the same.
pub fn same_profiles(a: &Vec<Profile>, b: &Vec<Profile>) -> (r: bool)
    ensures
        r == (a.deep_view() == b.deep_view()),
{
    let ghost (x, y) = (a.deep_view(), b.deep_view());
    if a.len() != b.len() {
        assert(x.len() != y.len());
        return false;
    }
    let mut i: usize = 0;
    while i < a.len()
        invariant
            i <= a@.len() == b@.len(),
            x == a.deep_view(),
            y == b.deep_view(),
            forall|k: int| 0 <= k < i ==> #[trigger] x[k] == y[k],
        decreases a.len() - i,
    {
        if a[i] != b[i] {
            assert(x[i as int] != y[i as int]);
            return false;
        }
        assert(x[i as int] == y[i as int]);
        i += 1;
    }
    assert(x =~= y);
    true
}

fn same_artifacts(a: &SortedMap<Artifact>, b: &SortedMap<Artifact>) -> (r: bool)
    ensures
        r == (artifacts_written(a.deep_view()) == artifacts_written(b.deep_view())),
{
    let n = a.len();
    let ghost (x, y) = (artifacts_written(a.deep_view()), artifacts_written(b.deep_view()));
    if n != b.len() {
        assert(x.len() != y.len());
        return false;
    }
    let mut i: usize = 0;
    while i < n
        invariant
            i <= n == a@.len() == b@.len(),
            x == artifacts_written(a.deep_view()),
            y == artifacts_written(b.deep_view()),
            forall|k: int| 0 <= k < i ==> #[trigger] x[k] == y[k],
        decreases n - i,
    {
        let written = a.value(i).clone().to_value();
        let other = b.value(i).clone().to_value();
        assert(value::meant(written.json()) == Json::Object(x[i as int].1));
        assert(value::meant(other.json()) == Json::Object(y[i as int].1));
        if !text::same(a.key(i).as_str(), b.key(i).as_str()) || !written.same(&other) {
            assert(x[i as int] != y[i as int]);
            return false;
        }
        assert(x[i as int] == y[i as int]);
        i += 1;
    }
    assert(x =~= y);
    true
}

impl Component {
    /// Whether two components are declared alike.
    pub fn same(&self, other: &Component) -> (r: bool)
        ensures
            r == declared_alike(self.deep_view(), other.deep_view()),
    {
        self.name == other.name && same_authority(&self.version, &other.version) && same_kind(
            &self.kind,
            &other.kind,
        ) && same_profiles(&self.profiles, &other.profiles) && text::same_all(
            &self.requires,
            &other.requires,
        ) && same_artifacts(&self.artifacts.artifacts, &other.artifacts.artifacts)
            && value::same_members(&self.extra.members, &other.extra.members)
    }
}

} // verus!
