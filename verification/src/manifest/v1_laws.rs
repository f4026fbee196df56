//! What components of the first schema are, and when they are up to date.

use vstd::prelude::*;

use crate::manifest::v1;
use crate::manifest::v1::{FileFacts, V1AuthorityFacts, V1Facts};
use crate::manifest::{
    ComponentFacts, KindFacts, MethodFacts, PackageMethodFacts,
};
use crate::manifest;
use crate::path;
use crate::version::GitTargetFacts;

verus! {

/// Whether a source has stood still: a version or a commit is the same, the same branch is at the same
/// known commit, and the same directory was not modified since.
pub open spec fn stood_still(local: V1AuthorityFacts, upstream: V1AuthorityFacts) -> bool {
    match local {
        V1AuthorityFacts::Cargo { package, version } => upstream matches V1AuthorityFacts::Cargo {
            package: p,
            version: v,
        } && p == package && v == version,
        V1AuthorityFacts::Git { repository_url, crate_name, subpath, target } => upstream matches V1AuthorityFacts::Git {
            repository_url: u,
            crate_name: c,
            subpath: s,
            target: t,
        } && u == repository_url && c == crate_name && s == subpath && match target {
            GitTargetFacts::Branch { name, latest_revision } => t matches GitTargetFacts::Branch {
                name: n,
                latest_revision: r,
            } && n == name && latest_revision is Some && r == latest_revision,
            GitTargetFacts::Revision { hash } => t matches GitTargetFacts::Revision { hash: h } && h
                == hash,
            GitTargetFacts::Tag { name } => t matches GitTargetFacts::Tag { name: n } && n == name,
        },
        V1AuthorityFacts::Path { path, crate_name, last_modification } => upstream matches V1AuthorityFacts::Path {
            path: p,
            crate_name: c,
            last_modification: m,
        } && path::same_place(path, p) && c == crate_name && last_modification is Some && m is Some
            && m->0 <= last_modification->0,
    }
}

/// A component is up to date exactly where its source stood still and upstream declares the same of it
/// in every field but the name.
pub proof fn up_to_date_means_nothing_moved(local: V1Facts, upstream: V1Facts)
    ensures
        v1::up_to_date(local, upstream) <==> {
            &&& stood_still(local.version, upstream.version)
            &&& local.optional == upstream.optional
            &&& local.features == upstream.features
            &&& local.requires == upstream.requires
            &&& local.call_format == upstream.call_format
            &&& local.rustup_channel == upstream.rustup_channel
            &&& local.installed_file == upstream.installed_file
            &&& local.aliases == upstream.aliases
            &&& local.symlink_name == upstream.symlink_name
            &&& local.initialization == upstream.initialization
            &&& local.artifacts == upstream.artifacts
        },
{
}

/// A component installs the file that it declares, else a program that is named like its crate and is
/// not limited to aliases.
pub proof fn files_are_declared_or_named_like_the_crate(v: V1Facts)
    ensures
        v.installed_file matches Some(file) ==> v1::file_of(v) == file,
        v.installed_file is None ==> (v1::file_of(v) matches FileFacts::Executable {
            binary_name,
            alias_only,
        } && !alias_only && match v.version {
            V1AuthorityFacts::Cargo { package: Some(package), .. } => binary_name == package,
            V1AuthorityFacts::Cargo { package: None, .. } => binary_name == v.name,
            V1AuthorityFacts::Git { crate_name, .. } => binary_name == crate_name,
            V1AuthorityFacts::Path { crate_name, .. } => binary_name == crate_name,
        }),
{
}

/// A program lies in `bin/` and a library in `lib/`, each under its own name.
pub proof fn files_lie_by_their_kind(file: FileFacts, dir: Seq<char>)
    ensures
        match file {
            FileFacts::Executable { binary_name, .. } => v1::installed_path(file, dir)
                == path::below(path::below(dir, "bin"@), binary_name) && v1::installed_name(file)
                == binary_name,
            FileFacts::Library { library_name, .. } => v1::installed_path(file, dir) == path::below(
                path::below(dir, "lib"@),
                library_name,
            ) && v1::installed_name(file) == library_name,
        },
{
}

/// Looking up what moved sets the modification time of a directory and the commit of a branch, and
/// changes nothing else of any source.
pub proof fn only_moving_sources_are_looked_up(
    version: V1AuthorityFacts,
    modification: Option<i128>,
    revision: Option<Seq<char>>,
)
    ensures
        match version {
            V1AuthorityFacts::Path { path, crate_name, .. } => v1::synced(
                version,
                modification,
                revision,
            ) == (V1AuthorityFacts::Path { path, crate_name, last_modification: modification }),
            V1AuthorityFacts::Git {
                repository_url,
                crate_name,
                subpath,
                target: GitTargetFacts::Branch { name, .. },
            } => v1::synced(version, modification, revision) == (V1AuthorityFacts::Git {
                repository_url,
                crate_name,
                subpath,
                target: GitTargetFacts::Branch { name, latest_revision: revision },
            }),
            _ => v1::synced(version, modification, revision) == version,
        },
{
}

// ---------------------------------------------------------------------------------------------
// The current schema

/// A program has the shim that it names, else one named for the component unless it is hidden. Nothing
/// else has one.
pub proof fn only_programs_have_shims(c: ComponentFacts)
    ensures
        match crate::plan::content_laws::program_of(c.kind) {
            None => manifest::shim_name(c) is None,
            Some((_, spec)) => {
                &&& spec.symlink_name is Some ==> manifest::shim_name(c) == spec.symlink_name
                &&& spec.symlink_name is None && spec.hide ==> manifest::shim_name(c) is None
                &&& spec.symlink_name is None && !spec.hide ==> manifest::shim_name(c) == Some(
                    "miden "@ + c.name,
                )
            },
        },
{
}

/// A legacy package is installed under the filename that it declares, else under its own name. Nothing
/// else has such a filename.
pub proof fn only_legacy_packages_have_a_package_name(c: ComponentFacts)
    ensures
        !(c.kind is LegacyPackage) ==> manifest::package_name(c) is None,
        c.kind matches KindFacts::LegacyPackage { installed_package: Some(name), .. }
            ==> manifest::package_name(c) == Some(name),
        c.kind matches KindFacts::LegacyPackage { installed_package: None, .. }
            ==> manifest::package_name(c) == Some(c.name + ".masp"@),
{
}

/// A component names the crate that it is built from, or that it can fall back on; one that is only
/// fetched names none.
pub proof fn crates_are_named_by_what_builds_them(c: ComponentFacts)
    ensures
        match c.kind {
            KindFacts::Executable { installation_method: m, .. } => names_crate_of(
                m,
                manifest::cargo_package(c),
            ),
            KindFacts::CargoExtension { installation_method: m, .. } => names_crate_of(
                m,
                manifest::cargo_package(c),
            ),
            KindFacts::LegacyPackage {
                installation_method: PackageMethodFacts::Cargo { crate_name, .. },
                ..
            } => manifest::cargo_package(c) == Some(crate_name),
            _ => manifest::cargo_package(c) is None,
        },
{
}

/// Whether this is the crate that an installation method names.
pub open spec fn names_crate_of(m: MethodFacts, named: Option<Seq<char>>) -> bool {
    match m {
        MethodFacts::Prebuilt => named is None,
        MethodFacts::PrebuiltWithCargoFallback { crate_name, .. } => named == Some(crate_name),
        MethodFacts::Cargo { crate_name, .. } => named == Some(crate_name),
    }
}

/// Every kind has its own tag.
pub proof fn kinds_are_told_by_their_tags(c: ComponentFacts)
    ensures
        crate::plan::content_laws::is_tagged(c.kind, manifest::kind_tag(c.kind)),
{
}

} // verus!
