//! What artifacts resolve to, by what they declare.

use vstd::prelude::*;

use crate::artifact;
use crate::artifact::resolution;
use crate::artifact::resolution::SubstituterFacts;
use crate::artifact::{
    ArchiveFacts, ArtifactFacts, FormatFacts, InvalidArtifactFacts, ResolvedFacts,
    SubstitutionsFacts, UriFacts,
};
use crate::manifest::{ComponentFacts, KindFacts};
use crate::sorted;
use crate::text;
use crate::version::AuthorityFacts;

verus! {

/// `s` with a mark replaced by a value, where there is a value.
pub open spec fn filled(s: Seq<char>, mark: Seq<char>, value: Option<Seq<char>>) -> Seq<char> {
    match value {
        Some(value) => text::replaced(s, mark, value),
        None => s,
    }
}

/// The version that a component has, if it comes from a registry.
pub open spec fn version_of(c: ComponentFacts) -> Option<Seq<char>> {
    match c.version {
        AuthorityFacts::Registry { version } => Some(version),
        _ => None,
    }
}

/// What a template becomes: the target, the version, the extension and the basename are put in, in
/// this order, each where it is known. It fails where a version or an extension is called for and
/// there is none, and only there.
pub proof fn templates_are_filled(s: SubstituterFacts, template: Seq<char>)
    ensures
        ({
            let targeted = filled(template, "%target"@, s.target);
            let versioned = filled(targeted, "%version"@, version_of(s.component));
            let extended = filled(versioned, "%extension"@, s.extension);
            match resolution::applied(s, template) {
                Ok(out) => out == filled(extended, "%basename"@, s.basename),
                Err(InvalidArtifactFacts::VersionUnavailable { id, component }) => {
                    &&& id == s.id
                    &&& component == s.component.name
                    &&& text::occurs_in(targeted, "%version"@)
                    &&& version_of(s.component) is None
                },
                Err(InvalidArtifactFacts::UndefinedSubstitution { id, component, substitution }) => {
                    &&& id == s.id
                    &&& component == s.component.name
                    &&& substitution == "%extension"@
                    &&& text::occurs_in(versioned, "%extension"@)
                    &&& s.extension is None
                },
                Err(_) => false,
            }
        }),
        ({
            let targeted = filled(template, "%target"@, s.target);
            let versioned = filled(targeted, "%version"@, version_of(s.component));
            text::occurs_in(targeted, "%version"@) && version_of(s.component) is None
                || text::occurs_in(versioned, "%extension"@) && s.extension is None
                ==> resolution::applied(s, template) is Err
        }),
{
    let targeted = filled(template, "%target"@, s.target);
    let versioned = filled(targeted, "%version"@, version_of(s.component));
    if !text::occurs_in(targeted, "%version"@) && version_of(s.component) is Some {
        text::nothing_replaced(targeted, "%version"@, version_of(s.component)->0);
    }
    if !text::occurs_in(versioned, "%extension"@) && s.extension is Some {
        text::nothing_replaced(versioned, "%extension"@, s.extension->0);
    }
}

/// What stands in for a mark: what is declared for the target, else what is declared for all of them.
pub open spec fn first_of(own: Option<Seq<char>>, common: Option<Seq<char>>) -> Option<Seq<char>> {
    if own is Some {
        own
    } else {
        common
    }
}

/// Whether a URI is what a scheme and a body make: a path of the file system, or an address.
pub open spec fn makes_uri(uri: UriFacts, scheme: Seq<char>, body: Seq<char>) -> bool {
    match uri {
        UriFacts::File(path) => scheme == "file"@ && path == body,
        UriFacts::Http(address) => (scheme == "http"@ || scheme == "https"@) && address == scheme
            + "://"@ + body,
    }
}

/// Whether what is resolved is packaged as declared.
pub open spec fn is_packaged(r: ResolvedFacts, archive: Option<ArchiveFacts>) -> bool {
    match archive {
        None => r.archive is None,
        Some(a) => a.format is TarGz && r.archive == Some(a.format),
    }
}

/// An artifact that is the same for every target is fetched from its URI with the version put in, and
/// with nothing else put in.
pub proof fn agnostic_artifacts_take_the_version(
    artifact: ArtifactFacts,
    id: Seq<char>,
    target: Seq<char>,
    c: ComponentFacts,
)
    requires
        artifact is TargetAgnostic,
        resolution::resolved(artifact, id, target, c) is Ok,
    ensures
        resolution::resolved(artifact, id, target, c) matches Ok(Some(r)) && {
            &&& is_packaged(r, artifact->TargetAgnostic_archive)
            &&& text::parted(artifact->TargetAgnostic_uri, "://"@) matches Some((scheme, rest))
                && makes_uri(r.uri, scheme, filled(rest, "%version"@, version_of(c)))
        },
{
    reveal_strlit("file");
    reveal_strlit("http");
    reveal_strlit("https");
    let (scheme, rest) = text::parted(artifact->TargetAgnostic_uri, "://"@)->0;
    templates_are_filled(resolution::agnostic_values(id, c), rest);
}

/// An artifact that is specific to its targets is fetched, for one that it declares, from its URI with
/// the target, the version, the extension and the basename put in. What is declared for the target
/// goes before what is declared for all, and the basename is the component's name where neither says
/// otherwise.
pub proof fn specific_artifacts_take_their_substitutions(
    artifact: ArtifactFacts,
    id: Seq<char>,
    target: Seq<char>,
    c: ComponentFacts,
    own: SubstitutionsFacts,
)
    requires
        artifact is TargetSpecific,
        resolution::resolved(artifact, id, target, c) is Ok,
        sorted::lookup(artifact->targets, target) == Some(own),
    ensures
        resolution::resolved(artifact, id, target, c) matches Ok(Some(r)) && {
            let common = artifact->substitutions;
            let extension = first_of(
                own.extension,
                match common {
                    Some(s) => s.extension,
                    None => None,
                },
            );
            let basename = first_of(
                own.basename,
                match common {
                    Some(s) => s.basename,
                    None => None,
                },
            );
            &&& is_packaged(r, artifact->TargetSpecific_archive)
            &&& text::parted(artifact->TargetSpecific_uri, "://"@) matches Some((scheme, rest)) && {
                &&& text::occurs_in(rest, "%target"@)
                &&& makes_uri(
                    r.uri,
                    scheme,
                    filled(
                        filled(
                            filled(
                                filled(rest, "%target"@, Some(target)),
                                "%version"@,
                                version_of(c),
                            ),
                            "%extension"@,
                            extension,
                        ),
                        "%basename"@,
                        Some(
                            match basename {
                                Some(basename) => basename,
                                None => c.name,
                            },
                        ),
                    ),
                )
            }
        },
{
    reveal_strlit("file");
    reveal_strlit("http");
    reveal_strlit("https");
    let (scheme, rest) = text::parted(artifact->TargetSpecific_uri, "://"@)->0;
    templates_are_filled(
        resolution::specific_values(id, target, c, own, artifact->substitutions),
        rest,
    );
}

/// What a declaration says of where an artifact is fetched from.
pub open spec fn uri_declared(artifact: ArtifactFacts) -> Seq<char> {
    match artifact {
        ArtifactFacts::TargetSpecific { uri, .. } => uri,
        ArtifactFacts::TargetAgnostic { uri, .. } => uri,
    }
}

/// What a declaration says of the packaging.
pub open spec fn archive_declared(artifact: ArtifactFacts) -> Option<ArchiveFacts> {
    match artifact {
        ArtifactFacts::TargetSpecific { archive, .. } => archive,
        ArtifactFacts::TargetAgnostic { archive, .. } => archive,
    }
}

/// Why an artifact cannot be resolved names the artifact and its component, and is about what is
/// there: no scheme, another scheme than a file's or an address's, a URI that does not vary with the
/// target, or a packaging that cannot be read.
pub proof fn failed_resolutions_say_why(
    artifact: ArtifactFacts,
    id: Seq<char>,
    target: Seq<char>,
    c: ComponentFacts,
    e: InvalidArtifactFacts,
)
    requires
        resolution::resolved(artifact, id, target, c) == Err::<
            Option<ResolvedFacts>,
            InvalidArtifactFacts,
        >(e),
    ensures
        ({
            let split = text::parted(uri_declared(artifact), "://"@);
            match e {
                InvalidArtifactFacts::MissingScheme { id: i, component } => i == id && component
                    == c.name && split is None,
                InvalidArtifactFacts::InvalidScheme { id: i, component, scheme } => {
                    &&& i == id && component == c.name
                    &&& split matches Some((s, _)) && s == scheme
                    &&& scheme != "file"@ && scheme != "http"@ && scheme != "https"@
                },
                InvalidArtifactFacts::MissingTarget { id: i, component, target: t } => {
                    &&& i == id && component == c.name && t == target
                    &&& artifact is TargetSpecific
                    &&& split matches Some((_, rest)) && !text::occurs_in(rest, "%target"@)
                },
                InvalidArtifactFacts::UnsupportedArchiveFormat { id: i, component, format } => {
                    &&& i == id && component == c.name
                    &&& archive_declared(artifact) matches Some(a) && a.format
                        == FormatFacts::Unsupported(format)
                },
                InvalidArtifactFacts::VersionUnavailable { id: i, component } => i == id && component
                    == c.name && version_of(c) is None,
                InvalidArtifactFacts::UndefinedSubstitution { id: i, component, substitution } => i
                    == id && component == c.name && substitution == "%extension"@,
            }
        }),
{
}

/// An artifact resolves where it is declared as it should be: with a scheme that can be fetched, a URI
/// that varies with the target where it has targets, a packaging that can be read, and nothing called
/// for that there is not.
pub proof fn well_declared_artifacts_resolve(
    artifact: ArtifactFacts,
    id: Seq<char>,
    target: Seq<char>,
    c: ComponentFacts,
    scheme: Seq<char>,
    rest: Seq<char>,
)
    requires
        text::parted(uri_declared(artifact), "://"@) == Some((scheme, rest)),
        scheme == "file"@ || scheme == "http"@ || scheme == "https"@,
        archive_declared(artifact) matches Some(a) ==> a.format is TarGz,
        artifact is TargetSpecific ==> text::occurs_in(rest, "%target"@),
        ({
            let targeted = if artifact is TargetSpecific {
                text::replaced(rest, "%target"@, target)
            } else {
                rest
            };
            &&& text::occurs_in(targeted, "%version"@) ==> version_of(c) is Some
            &&& !text::occurs_in(filled(targeted, "%version"@, version_of(c)), "%extension"@)
        }),
    ensures
        resolution::resolved(artifact, id, target, c) is Ok,
{
    match artifact {
        ArtifactFacts::TargetAgnostic { .. } => templates_are_filled(
            resolution::agnostic_values(id, c),
            rest,
        ),
        ArtifactFacts::TargetSpecific { substitutions, targets, .. } => {
            if sorted::lookup(targets, target) is Some {
                templates_are_filled(
                    resolution::specific_values(
                        id,
                        target,
                        c,
                        sorted::lookup(targets, target)->0,
                        substitutions,
                    ),
                    rest,
                );
            }
        },
    }
}

/// What a list of artifacts resolves to is exactly what each of them resolves to, under its id.
pub proof fn lists_resolve_one_by_one(
    artifacts: Seq<(Seq<char>, ArtifactFacts)>,
    target: Seq<char>,
    c: ComponentFacts,
    entry: (Seq<char>, ResolvedFacts),
)
    requires
        resolution::all_resolved(artifacts, target, c) is Ok,
    ensures
        resolution::all_resolved(artifacts, target, c)->Ok_0.contains(entry) <==> exists|i: int|
            0 <= i < artifacts.len() && resolves_to(#[trigger] artifacts[i], target, c, entry),
    decreases artifacts.len(),
{
    let all = resolution::all_resolved(artifacts, target, c)->Ok_0;
    if artifacts.len() > 0 {
        let d = artifacts.drop_last();
        let done = resolution::all_resolved(d, target, c)->Ok_0;
        lists_resolve_one_by_one(d, target, c, entry);
        if all.len() > done.len() {
            assert(all == done.push(all.last()));
            assert(all[all.len() - 1] == all.last());
            assert(resolves_to(artifacts.last(), target, c, all.last()));
        }
        if done.contains(entry) {
            let k = choose|k: int| 0 <= k < done.len() && done[k] == entry;
            assert(all[k] == entry);
            let i = choose|i: int| 0 <= i < d.len() && resolves_to(#[trigger] d[i], target, c, entry);
            assert(resolves_to(artifacts[i], target, c, entry));
        }
        if all.contains(entry) && !done.contains(entry) {
            let k = choose|k: int| 0 <= k < all.len() && all[k] == entry;
            assert(k < done.len() ==> done[k] == entry);
            assert(resolves_to(artifacts[artifacts.len() - 1], target, c, entry));
        }
        if exists|i: int|
            0 <= i < artifacts.len() && resolves_to(#[trigger] artifacts[i], target, c, entry) {
            let i = choose|i: int|
                0 <= i < artifacts.len() && resolves_to(#[trigger] artifacts[i], target, c, entry);
            if i < d.len() {
                assert(resolves_to(d[i], target, c, entry));
            } else {
                assert(all.last() == entry);
            }
        }
    }
}

/// What is resolved comes in the order of the artifacts: one more artifact adds at most one entry, and
/// at the end.
pub proof fn lists_resolve_in_order(
    artifacts: Seq<(Seq<char>, ArtifactFacts)>,
    declared: (Seq<char>, ArtifactFacts),
    target: Seq<char>,
    c: ComponentFacts,
)
    requires
        resolution::all_resolved(artifacts.push(declared), target, c) is Ok,
    ensures
        resolution::all_resolved(artifacts, target, c) is Ok,
        ({
            let before = resolution::all_resolved(artifacts, target, c)->Ok_0;
            let after = resolution::all_resolved(artifacts.push(declared), target, c)->Ok_0;
            after == before || (after.len() == before.len() + 1 && after.drop_last() == before
                && resolves_to(declared, target, c, after.last()))
        }),
{
    assert(artifacts.push(declared).drop_last() =~= artifacts);
    let before = resolution::all_resolved(artifacts, target, c)->Ok_0;
    let after = resolution::all_resolved(artifacts.push(declared), target, c)->Ok_0;
    if after != before {
        assert(after.drop_last() =~= before);
    }
}

/// Whether a declared artifact resolves to this, under its id.
pub open spec fn resolves_to(
    declared: (Seq<char>, ArtifactFacts),
    target: Seq<char>,
    c: ComponentFacts,
    entry: (Seq<char>, ResolvedFacts),
) -> bool {
    &&& entry.0 == declared.0
    &&& resolution::resolved(declared.1, declared.0, target, c) == Ok::<
        Option<ResolvedFacts>,
        InvalidArtifactFacts,
    >(Some(entry.1))
}

/// A list fails with the error of its first artifact that does.
pub proof fn lists_fail_with_their_first_error(
    artifacts: Seq<(Seq<char>, ArtifactFacts)>,
    target: Seq<char>,
    c: ComponentFacts,
)
    ensures
        match resolution::all_resolved(artifacts, target, c) {
            Ok(_) => forall|i: int|
                0 <= i < artifacts.len() ==> resolution::resolved(
                    (#[trigger] artifacts[i]).1,
                    artifacts[i].0,
                    target,
                    c,
                ) is Ok,
            Err(e) => exists|i: int|
                0 <= i < artifacts.len() && resolution::resolved(
                    (#[trigger] artifacts[i]).1,
                    artifacts[i].0,
                    target,
                    c,
                ) == Err::<Option<ResolvedFacts>, InvalidArtifactFacts>(e) && forall|j: int|
                    0 <= j < i ==> resolution::resolved(
                        (#[trigger] artifacts[j]).1,
                        artifacts[j].0,
                        target,
                        c,
                    ) is Ok,
        },
    decreases artifacts.len(),
{
    if artifacts.len() > 0 {
        let d = artifacts.drop_last();
        lists_fail_with_their_first_error(d, target, c);
        match resolution::all_resolved(d, target, c) {
            Ok(_) => {
                assert forall|i: int| 0 <= i < d.len() implies resolution::resolved(
                    (#[trigger] artifacts[i]).1,
                    artifacts[i].0,
                    target,
                    c,
                ) is Ok by {
                    assert(d[i] == artifacts[i]);
                }
                assert(artifacts[artifacts.len() - 1] == artifacts.last());
            },
            Err(e) => {
                let i = choose|i: int|
                    0 <= i < d.len() && resolution::resolved(
                        (#[trigger] d[i]).1,
                        d[i].0,
                        target,
                        c,
                    ) == Err::<Option<ResolvedFacts>, InvalidArtifactFacts>(e) && forall|j: int|
                        0 <= j < i ==> resolution::resolved(
                            (#[trigger] d[j]).1,
                            d[j].0,
                            target,
                            c,
                        ) is Ok;
                assert(artifacts[i] == d[i]);
                assert forall|j: int| 0 <= j < i implies resolution::resolved(
                    (#[trigger] artifacts[j]).1,
                    artifacts[j].0,
                    target,
                    c,
                ) is Ok by {
                    assert(d[j] == artifacts[j]);
                }
            },
        }
    }
}

/// By default a program installs the artifact that is named for its executable, and no other one; a
/// kind that cannot be installed installs none; and any other kind installs all that it declares.
pub proof fn defaults_follow_the_kind(
    artifacts: Seq<(Seq<char>, ArtifactFacts)>,
    target: Seq<char>,
    c: ComponentFacts,
    id: Seq<char>,
)
    ensures
        c.kind is Unsupported ==> (resolution::default_resolved(artifacts, target, c) matches Ok(
            none,
        ) && none.len() == 0),
        (c.kind matches KindFacts::Executable { spec, .. } && spec.installed_executable == id) || (
        c.kind matches KindFacts::CargoExtension { spec, .. } && spec.installed_executable == id)
            ==> match sorted::lookup(artifacts, id) {
            None => resolution::default_resolved(artifacts, target, c) matches Ok(none) && none.len()
                == 0,
            Some(a) => match resolution::resolved(a, id, target, c) {
                Err(e) => resolution::default_resolved(artifacts, target, c) == Err::<
                    Seq<(Seq<char>, ResolvedFacts)>,
                    InvalidArtifactFacts,
                >(e),
                Ok(None) => resolution::default_resolved(artifacts, target, c) matches Ok(none)
                    && none.len() == 0,
                Ok(Some(r)) => resolution::default_resolved(artifacts, target, c) matches Ok(one)
                    && one.len() == 1 && one[0] == (id, r),
            },
        },
        c.kind is Package || c.kind is LegacyPackage || c.kind is Asset || c.kind is Command
            ==> resolution::default_resolved(artifacts, target, c) == resolution::all_resolved(
            artifacts,
            target,
            c,
        ),
{
}

proof fn uris_one_by_one(
    artifact: ArtifactFacts,
    targets: Seq<(Seq<char>, SubstitutionsFacts)>,
    n: int,
    id: Seq<char>,
    c: ComponentFacts,
)
    requires
        artifact is TargetSpecific,
        artifact->targets == targets,
        sorted::keys_increase(targets),
        0 <= n <= targets.len(),
    ensures
        resolution::uris_up_to(artifact, targets, n, id, c) matches Ok(uris) ==> uris.len() == n
            && forall|i: int|
            0 <= i < n ==> fetches(artifact, id, targets[i].0, c, #[trigger] uris[i]),
    decreases n,
{
    if n > 0 {
        uris_one_by_one(artifact, targets, n - 1, id, c);
        sorted::keys_are_unique(targets, n - 1);
    }
}

/// Whether an artifact is fetched from a URI for a target.
pub open spec fn fetches(
    artifact: ArtifactFacts,
    id: Seq<char>,
    target: Seq<char>,
    c: ComponentFacts,
    uri: UriFacts,
) -> bool {
    resolution::resolved(artifact, id, target, c) matches Ok(Some(r)) && r.uri == uri
}

/// The URIs of an artifact are those of all the targets that it declares, each in its place; one that
/// is the same for every target has one.
pub proof fn uris_cover_every_target(artifact: ArtifactFacts, id: Seq<char>, c: ComponentFacts, i: int)
    requires
        resolution::all_uris(artifact, id, c) is Ok,
        artifact matches ArtifactFacts::TargetSpecific { targets, .. } ==> sorted::keys_increase(
            targets,
        ),
    ensures
        ({
            let uris = resolution::all_uris(artifact, id, c)->Ok_0;
            match artifact {
                ArtifactFacts::TargetAgnostic { .. } => uris.len() == 1 && fetches(
                    artifact,
                    id,
                    Seq::empty(),
                    c,
                    uris[0],
                ),
                ArtifactFacts::TargetSpecific { targets, .. } => uris.len() == targets.len() && (0
                    <= i < targets.len() ==> fetches(artifact, id, targets[i].0, c, uris[i])),
            }
        }),
{
    match artifact {
        ArtifactFacts::TargetAgnostic { .. } => {
            resolution::agnostic_artifacts_ignore_the_target(artifact, id, ""@, Seq::empty(), c);
        },
        ArtifactFacts::TargetSpecific { targets, .. } => {
            uris_one_by_one(artifact, targets, targets.len() as int, id, c);
        },
    }
}

/// A file is written with its scheme, an address as it is.
pub proof fn uris_are_written_with_their_scheme(uri: UriFacts)
    ensures
        match uri {
            UriFacts::File(path) => artifact::uri_text(uri) == "file://"@ + path,
            UriFacts::Http(address) => artifact::uri_text(uri) == address,
        },
{
}

/// The filename of an address is what stands behind its last slash, without white space around it.
pub proof fn addresses_end_in_a_filename(front: Seq<char>, name: Seq<char>)
    requires
        !name.contains('/'),
    ensures
        artifact::uri_file_name(UriFacts::Http(front + seq!['/'] + name)) == Some(
            text::trimmed(name),
        ),
        artifact::uri_file_name(UriFacts::Http(name)) is None,
        artifact::uri_file_name(UriFacts::File(front)) == crate::path::final_component(front),
{
    let s = front + seq!['/'] + name;
    crate::text_laws::the_last_segment(front, '/', name);
    assert(s[front.len() as int] == '/');
}

/// A digest is read exactly where a text is an algorithm, a colon and lower-case hexadecimal digits;
/// it is parted at the first colon.
pub proof fn digests_are_algorithm_and_digits(algorithm: Seq<char>, hex: Seq<char>)
    requires
        !algorithm.contains(':'),
    ensures
        artifact::digest_of(algorithm + seq![':'] + hex) is Ok <==> {
            &&& algorithm.len() > 0
            &&& hex.len() > 0
            &&& forall|i: int|
                0 <= i < hex.len() ==> ('0' <= #[trigger] hex[i] && hex[i] <= '9') || ('a'
                    <= hex[i] && hex[i] <= 'f')
        },
        artifact::digest_of(algorithm + seq![':'] + hex) matches Ok(d) ==> d.algorithm == algorithm
            && d.hex == hex,
        artifact::digest_of(algorithm) is Err,
        artifact::digest_of(algorithm + seq![':'] + hex) matches Err(e) ==> if algorithm.len() == 0 {
            e is Malformed && e->Malformed_0 == algorithm + seq![':'] + hex
        } else {
            e is NotHex && e->NotHex_0 == algorithm + seq![':'] + hex
        },
{
    reveal_strlit(":");
    let colon = ":"@;
    assert(colon =~= seq![':']);
    let s = algorithm + colon + hex;
    assert forall|i: int| 0 <= i < algorithm.len() implies !#[trigger] text::occurs_at(
        s,
        colon,
        i,
    ) by {
        if text::occurs_at(s, colon, i) {
            assert(s.subrange(i, i + 1)[0] == s[i]);
            assert(algorithm[i] == ':');
        }
    }
    crate::text_laws::parting_is_at_the_first(algorithm, colon, hex);
    if text::occurs_in(algorithm, colon) {
        let i = choose|i: int| #[trigger] text::occurs_at(algorithm, colon, i);
        assert(algorithm.subrange(i, i + 1)[0] == algorithm[i]);
    }
}

/// A packaging is told by its spelling: one is known, any other is kept as it is spelled and cannot be
/// read.
pub proof fn packagings_are_told_by_their_spelling(spelling: Seq<char>)
    ensures
        artifact::format_of(spelling) is TarGz <==> spelling == "tar.gz"@,
        spelling != "tar.gz"@ ==> artifact::format_of(spelling) == FormatFacts::Unsupported(spelling),
        artifact::spelling_of(FormatFacts::TarGz) == "tar.gz"@,
        artifact::spelling_of(FormatFacts::Unsupported(spelling)) == spelling,
{
}

} // verus!
