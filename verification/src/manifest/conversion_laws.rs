//! What a converted component has from the component that it was.

use vstd::prelude::*;

use crate::manifest::upgrade;
use crate::manifest::upgrade::ConversionFacts;
use crate::manifest::v1::{FileFacts, V1AuthorityFacts, V1Facts};
use crate::manifest::{KindFacts, MethodFacts, PackageMethodFacts};
use crate::plan::content_laws;
use crate::profile::Profile;
use crate::text;
use crate::version::AuthorityFacts;

verus! {

/// The crate that a component is built from: the one that its authority names, else its own name.
pub open spec fn is_built_from(v: V1Facts, crate_name: Seq<char>) -> bool {
    match v.version {
        V1AuthorityFacts::Cargo { package: Some(package), .. } => crate_name == package,
        V1AuthorityFacts::Cargo { package: None, .. } => crate_name == v.name,
        V1AuthorityFacts::Git { crate_name: named, .. } => crate_name == named,
        V1AuthorityFacts::Path { crate_name: named, .. } => crate_name == named,
    }
}

/// Whether a component installs a program.
pub open spec fn is_program(v: V1Facts) -> bool {
    !(v.installed_file matches Some(FileFacts::Library { .. }))
}

/// Whether a declared command is one that can be converted.
pub open spec fn converts(v: V1Facts, commands: ConversionFacts) -> bool {
    &&& v.call_format.len() > 0 ==> commands.call_format is Ok
    &&& v.initialization.len() > 0 ==> commands.initialization is Ok
    &&& forall|i: int| 0 <= i < v.aliases.len() ==> (#[trigger] commands.aliases[i]) is Ok
}

proof fn aliases_convert_one_by_one(
    component: Seq<char>,
    names: Seq<Seq<char>>,
    commands: Seq<Result<Seq<Seq<char>>, Seq<char>>>,
    n: int,
)
    requires
        0 <= n <= names.len(),
    ensures
        match upgrade::converted_aliases(component, names, commands, n) {
            Ok(done) => done.len() == n && forall|i: int|
                0 <= i < n ==> commands[i] is Ok && (#[trigger] done[i]) == (
                    names[i],
                    commands[i]->Ok_0,
                ),
            Err(message) => exists|i: int|
                0 <= i < n && (#[trigger] commands[i]) is Err && (forall|j: int|
                    0 <= j < i ==> (#[trigger] commands[j]) is Ok) && blames_alias(
                    message,
                    component,
                    names[i],
                    commands[i]->Err_0,
                ),
        },
    decreases n,
{
    if n > 0 {
        aliases_convert_one_by_one(component, names, commands, n - 1);
        match upgrade::converted_aliases(component, names, commands, n - 1) {
            Ok(done) => {
                assert forall|j: int| 0 <= j < n - 1 implies (#[trigger] commands[j]) is Ok by {
                    assert(done[j] == (names[j], commands[j]->Ok_0));
                }
                if commands[n - 1] is Err {
                    let message = upgrade::converted_aliases(component, names, commands, n)->Err_0;
                    assert(blames_alias(message, component, names[n - 1], commands[n - 1]->Err_0));
                }
            },
            Err(_) => {},
        }
    }
}

/// Whether a message says of an alias that its command is invalid, and why.
pub open spec fn blames_alias(
    message: Seq<char>,
    component: Seq<char>,
    alias: Seq<char>,
    reason: Seq<char>,
) -> bool {
    message == "component '"@ + component + "' defines alias '"@ + alias
        + "' with an invalid                      invocation: "@ + reason
}

/// Whether a message says of a field that its command is invalid, and why.
pub open spec fn blames_field(
    message: Seq<char>,
    component: Seq<char>,
    field: Seq<char>,
    reason: Seq<char>,
) -> bool {
    message == "component '"@ + component + "' has an invalid "@ + field + ": "@ + reason
}

/// Each command of a program is converted from the field of its own name: its call format and its
/// initialization where they are declared, and under each alias the command of that alias. A command
/// that is not declared stays away.
pub proof fn commands_keep_their_places(v: V1Facts, commands: ConversionFacts)
    requires
        upgrade::upgraded(v, commands) is Ok,
        is_program(v),
    ensures
        content_laws::program_of(upgrade::upgraded(v, commands)->Ok_0.kind) matches Some((_, spec)) && {
            &&& v.call_format.len() == 0 ==> spec.call_format is None
            &&& v.call_format.len() > 0 ==> (commands.call_format matches Ok(template)
                && spec.call_format == Some(template))
            &&& v.initialization.len() == 0 ==> spec.initialization is None
            &&& v.initialization.len() > 0 ==> (commands.initialization matches Ok(template)
                && spec.initialization == Some(template))
            &&& spec.aliases.len() == v.aliases.len()
            &&& forall|i: int|
                0 <= i < v.aliases.len() ==> (#[trigger] spec.aliases[i]).0 == v.aliases[i].0 && (
                commands.aliases[i] matches Ok(template) && spec.aliases[i].1 == template)
        },
{
    aliases_convert_one_by_one(
        v.name,
        upgrade::alias_names(v.aliases),
        commands.aliases,
        v.aliases.len() as int,
    );
}

/// A conversion succeeds exactly where every declared command of a program can be converted. A
/// library declares none that counts.
pub proof fn conversions_fail_for_commands_only(v: V1Facts, commands: ConversionFacts)
    ensures
        upgrade::upgraded(v, commands) is Ok <==> !is_program(v) || converts(v, commands),
{
    aliases_convert_one_by_one(
        v.name,
        upgrade::alias_names(v.aliases),
        commands.aliases,
        v.aliases.len() as int,
    );
    match upgrade::converted_aliases(
        v.name,
        upgrade::alias_names(v.aliases),
        commands.aliases,
        v.aliases.len() as int,
    ) {
        Ok(done) => {
            assert forall|i: int| 0 <= i < v.aliases.len() implies (
            #[trigger] commands.aliases[i]) is Ok by {
                assert(done[i].0 == v.aliases[i].0);
            }
        },
        Err(_) => {},
    }
}

/// A conversion that fails names the component, the command that is at fault and what is wrong with
/// it: the call format before the initialization, and that before the aliases, of which the first is
/// named.
pub proof fn failed_conversions_name_the_command(v: V1Facts, commands: ConversionFacts)
    requires
        upgrade::upgraded(v, commands) is Err,
    ensures
        ({
            let message = upgrade::upgraded(v, commands)->Err_0;
            if v.call_format.len() > 0 && commands.call_format is Err {
                blames_field(message, v.name, "call_format"@, commands.call_format->Err_0)
            } else if v.initialization.len() > 0 && commands.initialization is Err {
                blames_field(message, v.name, "initialization"@, commands.initialization->Err_0)
            } else {
                exists|i: int|
                    0 <= i < v.aliases.len() && (#[trigger] commands.aliases[i]) is Err && (forall|
                        j: int,
                    |
                        0 <= j < i ==> (#[trigger] commands.aliases[j]) is Ok) && blames_alias(
                        message,
                        v.name,
                        v.aliases[i].0,
                        commands.aliases[i]->Err_0,
                    )
            }
        }),
{
    aliases_convert_one_by_one(
        v.name,
        upgrade::alias_names(v.aliases),
        commands.aliases,
        v.aliases.len() as int,
    );
    let failed = upgrade::converted_aliases(
        v.name,
        upgrade::alias_names(v.aliases),
        commands.aliases,
        v.aliases.len() as int,
    );
    if failed is Err && !(v.call_format.len() > 0 && commands.call_format is Err) && !(
    v.initialization.len() > 0 && commands.initialization is Err) {
        let i = choose|i: int|
            0 <= i < v.aliases.len() && (#[trigger] commands.aliases[i]) is Err && (forall|j: int|
                0 <= j < i ==> (#[trigger] commands.aliases[j]) is Ok) && blames_alias(
                failed->Err_0,
                v.name,
                upgrade::alias_names(v.aliases)[i],
                commands.aliases[i]->Err_0,
            );
        assert(upgrade::alias_names(v.aliases)[i] == v.aliases[i].0);
    }
}

/// A program that is only run under aliases becomes a hidden Cargo extension, any other one an
/// executable that is not hidden. It is installed under the declared filename, else under that of its
/// crate, and keeps the name of its shim.
pub proof fn programs_stay_programs(v: V1Facts, commands: ConversionFacts)
    requires
        upgrade::upgraded(v, commands) is Ok,
        is_program(v),
    ensures
        ({
            let kind = upgrade::upgraded(v, commands)->Ok_0.kind;
            &&& content_laws::program_of(kind) matches Some((_, spec)) && {
                &&& spec.symlink_name == v.symlink_name
                &&& match v.installed_file {
                    Some(FileFacts::Executable { binary_name, alias_only }) => {
                        &&& spec.installed_executable == binary_name
                        &&& spec.hide == alias_only
                        &&& kind is CargoExtension <==> alias_only
                    },
                    _ => is_built_from(v, spec.installed_executable) && !spec.hide
                        && kind is Executable,
                }
            }
        }),
{
}

/// A program is prebuilt where it has artifacts, and built otherwise: from its own crate, with its
/// features and its toolchain.
pub proof fn programs_are_acquired_as_before(v: V1Facts, commands: ConversionFacts)
    requires
        upgrade::upgraded(v, commands) is Ok,
        is_program(v),
    ensures
        ({
            let c = upgrade::upgraded(v, commands)->Ok_0;
            content_laws::program_of(c.kind) matches Some((method, _)) && match method {
                MethodFacts::Prebuilt => c.artifacts.len() > 0,
                MethodFacts::Cargo { crate_name, rustup_channel, features } => {
                    &&& c.artifacts.len() == 0
                    &&& is_built_from(v, crate_name)
                    &&& rustup_channel == v.rustup_channel
                    &&& features == v.features
                },
                MethodFacts::PrebuiltWithCargoFallback { .. } => false,
            }
        }),
{
}

/// A library with artifacts becomes a package. One without is extracted from its crate, with its
/// features, by what its struct yields, under the filename that it had.
pub proof fn libraries_become_packages(v: V1Facts, commands: ConversionFacts)
    requires
        !is_program(v),
    ensures
        upgrade::upgraded(v, commands) matches Ok(c) && match c.kind {
            KindFacts::Package => c.artifacts.len() > 0,
            KindFacts::LegacyPackage {
                installation_method: PackageMethodFacts::Cargo { crate_name, features, extractor },
                installed_package,
            } => {
                &&& c.artifacts.len() == 0
                &&& is_built_from(v, crate_name)
                &&& features == v.features
                &&& v.installed_file matches Some(FileFacts::Library {
                    library_name,
                    library_struct,
                }) && installed_package == Some(library_name) && extractor == library_struct
                    + "::default().as_ref()"@
            },
            _ => false,
        },
{
}

/// A converted component has its name and its requirements, is part of the minimal toolchain unless it
/// is optional, and comes from where it came from: the same version, the same place in the same
/// repository, or the same directory as it was last seen.
pub proof fn sources_stay_where_they_are(v: V1Facts, commands: ConversionFacts)
    requires
        upgrade::upgraded(v, commands) is Ok,
    ensures
        ({
            let c = upgrade::upgraded(v, commands)->Ok_0;
            &&& c.extra == Map::<Seq<char>, crate::value::Json>::empty()
            &&& c.name == v.name
            &&& c.requires == v.requires
            &&& v.optional ==> c.profiles.len() == 0
            &&& !v.optional ==> c.profiles.len() == 1 && c.profiles[0] == Profile::Minimal
            &&& match (v.version, c.version) {
                (
                    V1AuthorityFacts::Cargo { version: a, .. },
                    AuthorityFacts::Registry { version: b },
                ) => a == b,
                (
                    V1AuthorityFacts::Git { repository_url: u, subpath: s, target: a, .. },
                    AuthorityFacts::Git { repository_url: w, subpath: t, target: b },
                ) => u == w && s == t && a == b,
                (
                    V1AuthorityFacts::Path { path: p, last_modification: a, .. },
                    AuthorityFacts::Path { path: q, last_modification: b },
                ) => p == q && a == b,
                _ => false,
            }
        }),
{
}

/// The version in an artifact's URI becomes a substitution where it is that of a registry, wherever it
/// occurs. Any other URI stays as it is.
pub proof fn versions_become_substitutions(raw: Seq<char>, authority: AuthorityFacts)
    ensures
        authority matches AuthorityFacts::Registry { version } ==> upgrade::unversioned(
            raw,
            authority,
        ) == text::replaced(raw, version, "%version"@),
        !(authority is Registry) ==> upgrade::unversioned(raw, authority) == raw,
{
}

/// The name of an artifact is what stands behind the last slash of its URI, without the target that
/// it ends in.
pub proof fn artifacts_are_named_by_their_file(dir: Seq<char>, name: Seq<char>)
    requires
        !name.contains('/'),
    ensures
        upgrade::artifact_name(dir + seq!['/'] + (name + "-aarch64-apple-darwin"@)) == name,
        upgrade::artifact_name(dir + seq!['/'] + (name + "-x86_64-unknown-linux-gnu"@)) == name,
        !text::finishes_with(name, "-aarch64-apple-darwin"@) && !text::finishes_with(
            name,
            "-x86_64-unknown-linux-gnu"@,
        ) ==> upgrade::artifact_name(dir + seq!['/'] + name) == name,
{
    reveal_strlit("-aarch64-apple-darwin");
    reveal_strlit("-x86_64-unknown-linux-gnu");
    let (a, b) = ("-aarch64-apple-darwin"@, "-x86_64-unknown-linux-gnu"@);
    assert(!a.contains('/'));
    assert(!b.contains('/'));
    assert(!(name + a).contains('/')) by {
        if (name + a).contains('/') {
            let i = choose|i: int| 0 <= i < (name + a).len() && (name + a)[i] == '/';
            if i < name.len() {
                assert(name[i] == '/');
            } else {
                assert(a[i - name.len()] == '/');
            }
        }
    }
    assert(!(name + b).contains('/')) by {
        if (name + b).contains('/') {
            let i = choose|i: int| 0 <= i < (name + b).len() && (name + b)[i] == '/';
            if i < name.len() {
                assert(name[i] == '/');
            } else {
                assert(b[i - name.len()] == '/');
            }
        }
    }
    behind_the_last_slash(dir, name + a);
    behind_the_last_slash(dir, name + b);
    behind_the_last_slash(dir, name);
    assert((name + a).take(name.len() as int) =~= name);
    assert((name + b).take(name.len() as int) =~= name);
    assert((name + a).skip(name.len() as int) =~= a);
    assert((name + b).skip(name.len() as int) =~= b);
    assert((name + b)[(name + b).len() - 1] == b[b.len() - 1]);
    assert((name + a)[(name + a).len() - 1] == a[a.len() - 1]);
}

proof fn behind_the_last_slash(dir: Seq<char>, tail: Seq<char>)
    requires
        !tail.contains('/'),
    ensures
        text::after_last(dir + seq!['/'] + tail, '/') == tail,
    decreases tail.len(),
{
    let s = dir + seq!['/'] + tail;
    if tail.len() == 0 {
        assert(s.last() == '/');
    } else {
        assert(s.last() == tail.last());
        assert(tail[tail.len() - 1] != '/');
        let d = tail.drop_last();
        assert(!d.contains('/')) by {
            if d.contains('/') {
                let i = choose|i: int| 0 <= i < d.len() && d[i] == '/';
                assert(tail[i] == '/');
            }
        }
        assert(s.drop_last() =~= dir + seq!['/'] + d);
        behind_the_last_slash(dir, d);
        assert(d.push(tail.last()) =~= tail);
    }
}

} // verus!
