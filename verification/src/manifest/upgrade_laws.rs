//! What holds of components converted from the first manifest schema.

use vstd::prelude::*;

use crate::artifact::resolution;
use crate::artifact::ArtifactFacts;
use crate::manifest;
use crate::manifest::upgrade;
use crate::manifest::upgrade::ConversionFacts;
use crate::manifest::v1;
use crate::manifest::v1::{FileFacts, V1Facts};
use crate::manifest::{ComponentFacts, KindFacts};
use crate::profile::Profile;
use crate::resolve;
use crate::sorted;
use crate::text;
use crate::version::AuthorityFacts;

verus! {

/// A converted component keeps its name, its authority and its requirements, belongs to the minimal
/// toolchain unless it is optional, and is of a kind that can be installed.
pub proof fn conversion_keeps_identity(v: V1Facts, commands: ConversionFacts)
    requires
        upgrade::upgraded(v, commands) is Ok,
    ensures
        ({
            let c = upgrade::upgraded(v, commands)->Ok_0;
            &&& c.name == v.name
            &&& c.version == v1::current_authority(v.version)
            &&& c.requires == v.requires
            &&& c.profiles.contains(Profile::Minimal) <==> !v.optional
            &&& resolve::is_supported(c)
        }),
{
    let c = upgrade::upgraded(v, commands)->Ok_0;
    if !v.optional {
        assert(c.profiles[0] == Profile::Minimal);
    }
}

/// A converted executable is reachable under the name that it had, unless it is meant to be run
/// under aliases only and declares no name.
pub proof fn conversion_keeps_shims(v: V1Facts, commands: ConversionFacts)
    requires
        upgrade::upgraded(v, commands) is Ok,
        !(v.installed_file matches Some(FileFacts::Library { .. })),
        v.installed_file matches Some(FileFacts::Executable { alias_only, .. }) ==> !alias_only
            || v.symlink_name is Some,
    ensures
        manifest::shim_name(upgrade::upgraded(v, commands)->Ok_0) == Some(
            match v.symlink_name {
                Some(name) => name,
                None => "miden "@ + v.name,
            },
        ),
{
}

/// A converted executable is installed under the filename that it had.
pub proof fn conversion_keeps_executables(v: V1Facts, commands: ConversionFacts)
    requires
        upgrade::upgraded(v, commands) is Ok,
        v1::file_of(v) is Executable,
    ensures
        match upgrade::upgraded(v, commands)->Ok_0.kind {
            KindFacts::Executable { spec, .. } => spec.installed_executable == v1::installed_name(
                v1::file_of(v),
            ),
            KindFacts::CargoExtension { spec, .. } => spec.installed_executable
                == v1::installed_name(v1::file_of(v)),
            _ => false,
        },
{
}

/// A converted library that cargo builds is installed under the filename that it declared.
pub proof fn conversion_keeps_filenames(v: V1Facts, commands: ConversionFacts)
    requires
        upgrade::upgraded(v, commands) is Ok,
        v.installed_file is Some,
        v.installed_file->0 is Library,
        v.artifacts.len() == 0,
    ensures
        manifest::package_name(upgrade::upgraded(v, commands)->Ok_0) == Some(
            v1::installed_name(v.installed_file->0),
        ),
{
}

/// The artifacts of a converted component are found by their names, each under one.
pub proof fn converted_artifacts_are_in_order(uris: Seq<Seq<char>>, authority: AuthorityFacts)
    ensures
        sorted::keys_increase(upgrade::upgraded_artifacts(uris, authority)),
    decreases uris.len(),
{
    if uris.len() > 0 {
        converted_artifacts_are_in_order(uris.drop_last(), authority);
        let before = upgrade::upgraded_artifacts(uris.drop_last(), authority);
        let uri = upgrade::unversioned(uris.last(), authority);
        let name = upgrade::artifact_name(uri);
        let after = upgrade::upgraded_artifacts(uris, authority);
        assert forall|artifact: ArtifactFacts|
            sorted::keys_increase(#[trigger] sorted::put(before, name, artifact)) by {
            sorted::put_keeps_order(before, name, artifact);
        }
    }
}

/// Whether a declared URI is that of a package, which is the same for every target.
pub open spec fn is_package(raw: Seq<char>, authority: AuthorityFacts) -> bool {
    text::finishes_with(upgrade::unversioned(raw, authority), ".masp"@)
}

/// The target that a declared URI names, if it names one.
pub open spec fn target_named(raw: Seq<char>, authority: AuthorityFacts) -> Option<Seq<char>> {
    let uri = upgrade::unversioned(raw, authority);
    if text::occurs_in(uri, "aarch64-apple-darwin"@) {
        Some("aarch64-apple-darwin"@)
    } else if text::occurs_in(uri, "x86_64-unknown-linux-gnu"@) {
        Some("x86_64-unknown-linux-gnu"@)
    } else {
        None
    }
}

/// Whether a declared URI is that of an artifact: a package, or a program for some target.
pub open spec fn names_artifact(raw: Seq<char>, authority: AuthorityFacts) -> bool {
    is_package(raw, authority) || target_named(raw, authority) is Some
}

/// The name that a declared URI is found under.
pub open spec fn name_of(raw: Seq<char>, authority: AuthorityFacts) -> Seq<char> {
    upgrade::artifact_name(upgrade::unversioned(raw, authority))
}

/// The URI of the artifact that a declared URI gives.
pub open spec fn template_of(raw: Seq<char>, authority: AuthorityFacts) -> Seq<char> {
    let uri = upgrade::unversioned(raw, authority);
    if is_package(raw, authority) || target_named(raw, authority) is None {
        uri
    } else {
        text::replaced(uri, target_named(raw, authority)->0, "%target"@)
    }
}

/// Whether an artifact has the form that a declared URI gives it, for whichever targets.
pub open spec fn has_form(
    artifact: ArtifactFacts,
    raw: Seq<char>,
    authority: AuthorityFacts,
) -> bool {
    match artifact {
        ArtifactFacts::TargetAgnostic { uri, digest, archive, extra } => {
            &&& is_package(raw, authority)
            &&& uri == template_of(raw, authority)
            &&& digest is None && archive is None && extra == Map::<
                Seq<char>,
                crate::value::Json,
            >::empty()
        },
        ArtifactFacts::TargetSpecific { uri, substitutions, targets, digest, archive, extra } => {
            &&& !is_package(raw, authority)
            &&& uri == template_of(raw, authority)
            &&& substitutions is None && digest is None && archive is None && extra == Map::<
                Seq<char>,
                crate::value::Json,
            >::empty()
            &&& sorted::keys_increase(targets)
            &&& forall|t: Seq<char>| #[trigger]
                sorted::has_key(targets, t) ==> sorted::lookup(targets, t) == Some(
                    upgrade::no_substitutions(),
                )
        },
    }
}

/// Whether the artifact `name` comes from the declared URI `j`.
pub open spec fn comes_from(
    uris: Seq<Seq<char>>,
    authority: AuthorityFacts,
    name: Seq<char>,
    artifact: ArtifactFacts,
    j: int,
) -> bool {
    &&& 0 <= j < uris.len()
    &&& names_artifact(uris[j], authority)
    &&& name_of(uris[j], authority) == name
    &&& has_form(artifact, uris[j], authority)
}

proof fn one_target(target: Seq<char>)
    ensures
        ({
            let targets = seq![(target, upgrade::no_substitutions())];
            &&& sorted::keys_increase(targets)
            &&& sorted::lookup(targets, target) == Some(upgrade::no_substitutions())
            &&& forall|t: Seq<char>| #[trigger] sorted::has_key(targets, t) ==> t == target
        }),
{
    let targets = seq![(target, upgrade::no_substitutions())];
    assert(sorted::holds(targets, target, 0));
}

/// Every converted artifact comes from a URI that was declared.
pub proof fn converted_artifacts_were_declared(
    uris: Seq<Seq<char>>,
    authority: AuthorityFacts,
    name: Seq<char>,
)
    ensures
        sorted::lookup(upgrade::upgraded_artifacts(uris, authority), name) matches Some(artifact)
            ==> exists|j: int| #[trigger] comes_from(uris, authority, name, artifact, j),
    decreases uris.len(),
{
    let after = upgrade::upgraded_artifacts(uris, authority);
    if uris.len() == 0 {
        assert forall|i: int| !sorted::holds(after, name, i) by {}
    } else {
        let (rest, raw) = (uris.drop_last(), uris.last());
        let before = upgrade::upgraded_artifacts(rest, authority);
        converted_artifacts_were_declared(rest, authority, name);
        converted_artifacts_are_in_order(rest, authority);
        if sorted::lookup(after, name) is Some {
            let artifact = sorted::lookup(after, name)->0;
            let own = name_of(raw, authority);
            assert forall|a: ArtifactFacts|
                sorted::lookup(#[trigger] sorted::put(before, own, a), name) == if name == own {
                    Some(a)
                } else {
                    sorted::lookup(before, name)
                } by {
                sorted::put_is_found(before, own, a, name);
            }
            if sorted::lookup(before, name) == Some(artifact) {
                let j = choose|j: int| #[trigger] comes_from(rest, authority, name, artifact, j);
                assert(comes_from(uris, authority, name, artifact, j));
            } else {
                assert(name == own);
                let n = uris.len() - 1;
                if let ArtifactFacts::TargetSpecific { targets, .. } = artifact {
                    let target = target_named(raw, authority)->0;
                    match sorted::lookup(before, name) {
                        None => {
                            one_target(target);
                            assert(comes_from(uris, authority, name, artifact, n));
                        },
                        Some(held) => {
                            let j = choose|j: int| #[trigger]
                                comes_from(rest, authority, name, held, j);
                            let listed = held->targets;
                            sorted::put_keeps_order(
                                listed,
                                target,
                                upgrade::no_substitutions(),
                            );
                            assert forall|t: Seq<char>| #[trigger]
                                sorted::has_key(targets, t) implies sorted::lookup(targets, t)
                                == Some(upgrade::no_substitutions()) by {
                                sorted::put_is_found(
                                    listed,
                                    target,
                                    upgrade::no_substitutions(),
                                    t,
                                );
                            }
                            assert(comes_from(uris, authority, name, artifact, j));
                        },
                    }
                } else {
                    assert(comes_from(uris, authority, name, artifact, n));
                }
            }
        }
    }
}

/// Whether a list of artifacts serves a declared URI: there is an artifact under its name, which is
/// the same for every target or lists the target that the URI names. A package is the same for every
/// target.
pub open spec fn serves(
    artifacts: Seq<(Seq<char>, ArtifactFacts)>,
    raw: Seq<char>,
    authority: AuthorityFacts,
) -> bool {
    match sorted::lookup(artifacts, name_of(raw, authority)) {
        None => false,
        Some(ArtifactFacts::TargetAgnostic { .. }) => true,
        Some(ArtifactFacts::TargetSpecific { targets, .. }) => !is_package(raw, authority)
            && sorted::has_key(targets, target_named(raw, authority)->0),
    }
}

/// Every declared URI of an artifact is found among the converted artifacts.
pub proof fn declared_uris_are_found(uris: Seq<Seq<char>>, authority: AuthorityFacts, i: int)
    requires
        0 <= i < uris.len(),
        names_artifact(uris[i], authority),
    ensures
        serves(upgrade::upgraded_artifacts(uris, authority), uris[i], authority),
    decreases uris.len(),
{
    let (rest, raw) = (uris.drop_last(), uris.last());
    let before = upgrade::upgraded_artifacts(rest, authority);
    let (own, name) = (name_of(raw, authority), name_of(uris[i], authority));
    converted_artifacts_are_in_order(rest, authority);
    converted_artifacts_were_declared(rest, authority, own);
    assert forall|a: ArtifactFacts|
        sorted::lookup(#[trigger] sorted::put(before, own, a), name) == if name == own {
            Some(a)
        } else {
            sorted::lookup(before, name)
        } by {
        sorted::put_is_found(before, own, a, name);
    }
    if i < rest.len() {
        declared_uris_are_found(rest, authority, i);
        assert(rest[i] == uris[i]);
    }
    if !is_package(raw, authority) && target_named(raw, authority) is Some {
        let target = target_named(raw, authority)->0;
        let wanted = target_named(uris[i], authority)->0;
        one_target(target);
        assert(sorted::holds(seq![(target, upgrade::no_substitutions())], target, 0));
        if let Some(ArtifactFacts::TargetSpecific { targets, .. }) = sorted::lookup(before, own) {
            let held = sorted::lookup(before, own)->0;
            let j = choose|j: int| #[trigger] comes_from(rest, authority, own, held, j);
            sorted::put_is_found(targets, target, upgrade::no_substitutions(), wanted);
        }
    }
}

/// A converted component has an artifact for every artifact URI that it declared.
pub proof fn conversion_keeps_artifacts(v: V1Facts, commands: ConversionFacts, i: int)
    requires
        upgrade::upgraded(v, commands) is Ok,
        0 <= i < v.artifacts.len(),
        names_artifact(v.artifacts[i], v1::current_authority(v.version)),
    ensures
        serves(
            upgrade::upgraded(v, commands)->Ok_0.artifacts,
            v.artifacts[i],
            v1::current_authority(v.version),
        ),
{
    declared_uris_are_found(v.artifacts, v1::current_authority(v.version), i);
}

/// Where the URIs that share a name differ in nothing but the target, a declared URI is found as it was
/// declared: under its name stands the artifact whose URI it is an instance of.
pub proof fn declared_uris_keep_their_form(uris: Seq<Seq<char>>, authority: AuthorityFacts, i: int)
    requires
        0 <= i < uris.len(),
        names_artifact(uris[i], authority),
        forall|j: int|
            0 <= j < uris.len() && names_artifact(#[trigger] uris[j], authority) && name_of(
                uris[j],
                authority,
            ) == name_of(uris[i], authority) ==> template_of(uris[j], authority) == template_of(
                uris[i],
                authority,
            ) && is_package(uris[j], authority) == is_package(uris[i], authority),
    ensures
        ({
            let found = sorted::lookup(
                upgrade::upgraded_artifacts(uris, authority),
                name_of(uris[i], authority),
            );
            &&& found is Some
            &&& has_form(found->0, uris[i], authority)
            &&& found->0 matches ArtifactFacts::TargetSpecific { targets, .. } ==> sorted::lookup(
                targets,
                target_named(uris[i], authority)->0,
            ) == Some(upgrade::no_substitutions())
        }),
{
    let name = name_of(uris[i], authority);
    declared_uris_are_found(uris, authority, i);
    converted_artifacts_were_declared(uris, authority, name);
    let found = sorted::lookup(upgrade::upgraded_artifacts(uris, authority), name)->0;
    let j = choose|j: int| #[trigger] comes_from(uris, authority, name, found, j);
    assert(names_artifact(uris[j], authority));
}

/// The URI of a package reads as it was declared once the version is substituted, where it held no
/// substitution of its own.
pub proof fn package_uris_read_as_declared(raw: Seq<char>, id: Seq<char>, c: ComponentFacts)
    requires
        c.version matches AuthorityFacts::Registry { version } ==> version.len() > 0,
        !text::occurs_in(raw, "%version"@),
        !text::occurs_in(raw, "%extension"@),
    ensures
        resolution::applied(
            resolution::agnostic_values(id, c),
            upgrade::unversioned(raw, c.version),
        ) == Ok::<Seq<char>, crate::artifact::InvalidArtifactFacts>(raw),
{
    version_is_restored(raw, c.version);
}

/// The URI of a program reads as it was declared once its target and the version are substituted,
/// where it held no substitution of its own.
pub proof fn program_uris_read_as_declared(
    raw: Seq<char>,
    id: Seq<char>,
    target: Seq<char>,
    c: ComponentFacts,
)
    requires
        c.version matches AuthorityFacts::Registry { version } ==> version.len() > 0,
        target.len() > 0,
        !text::occurs_in(raw, "%version"@),
        !text::occurs_in(raw, "%extension"@),
        !text::occurs_in(raw, "%basename"@),
        !text::occurs_in(upgrade::unversioned(raw, c.version), "%target"@),
    ensures
        resolution::applied(
            resolution::specific_values(id, target, c, upgrade::no_substitutions(), None),
            text::replaced(upgrade::unversioned(raw, c.version), target, "%target"@),
        ) == Ok::<Seq<char>, crate::artifact::InvalidArtifactFacts>(raw),
{
    reveal_strlit("%target");
    text::replacement_is_undone(upgrade::unversioned(raw, c.version), target, "%target"@);
    version_is_restored(raw, c.version);
    text::nothing_replaced(raw, "%basename"@, c.name);
}

proof fn version_is_restored(raw: Seq<char>, authority: AuthorityFacts)
    requires
        authority matches AuthorityFacts::Registry { version } ==> version.len() > 0,
        !text::occurs_in(raw, "%version"@),
    ensures
        ({
            let uri = upgrade::unversioned(raw, authority);
            if text::occurs_in(uri, "%version"@) {
                authority is Registry && text::replaced(uri, "%version"@, authority->version) == raw
            } else {
                uri == raw
            }
        }),
{
    reveal_strlit("%version");
    if let AuthorityFacts::Registry { version } = authority {
        let uri = upgrade::unversioned(raw, authority);
        text::replacement_is_undone(raw, version, "%version"@);
        if !text::occurs_in(uri, "%version"@) {
            text::nothing_replaced(uri, "%version"@, version);
        }
    }
}

} // verus!
