//! Resolving artifacts for a target: substituting into their URIs and checking what they are.

use vstd::prelude::*;

use crate::artifact;
use crate::artifact::{
    Archive, ArchiveFacts, ArchiveFormat, Artifact, ArtifactFacts, ArtifactUri, Artifacts, Digest,
    FormatFacts, InvalidArtifactError, InvalidArtifactFacts, ResolvedArtifact, ResolvedFacts,
    Substitutions, SubstitutionsFacts, UriFacts,
};
use crate::manifest::{Component, ComponentFacts, ComponentKind, KindFacts};
use crate::sorted;
use crate::text;
use crate::version::Authority;

verus! {

/// The substitution values available to one artifact resolved for one target.
pub struct SubstituterFacts {
    pub id: Seq<char>,
    pub component: ComponentFacts,
    /// `None` for a target-agnostic artifact, which has no target to substitute.
    pub target: Option<Seq<char>>,
    pub basename: Option<Seq<char>>,
    pub extension: Option<Seq<char>>,
}

/// `template` with every substitution that is defined for the artifact.
///
/// `%version` and `%extension` must resolve or fail. A `%basename` or `%target` with no value is
/// left verbatim.
pub open spec fn applied(s: SubstituterFacts, template: Seq<char>) -> Result<
    Seq<char>,
    InvalidArtifactFacts,
> {
    let targeted = match s.target {
        Some(target) => text::replaced(template, "%target"@, target),
        None => template,
    };
    if text::occurs_in(targeted, "%version"@) && !(s.component.version is Registry) {
        Err(InvalidArtifactFacts::VersionUnavailable { id: s.id, component: s.component.name })
    } else {
        let versioned = if text::occurs_in(targeted, "%version"@) {
            text::replaced(targeted, "%version"@, s.component.version->version)
        } else {
            targeted
        };
        if text::occurs_in(versioned, "%extension"@) && s.extension is None {
            Err(
                InvalidArtifactFacts::UndefinedSubstitution {
                    id: s.id,
                    component: s.component.name,
                    substitution: "%extension"@,
                },
            )
        } else {
            let extended = if text::occurs_in(versioned, "%extension"@) {
                text::replaced(versioned, "%extension"@, s.extension->0)
            } else {
                versioned
            };
            Ok(
                match s.basename {
                    Some(basename) => text::replaced(extended, "%basename"@, basename),
                    None => extended,
                },
            )
        }
    }
}

/// The URI made of a scheme and a body.
pub open spec fn typed_uri(s: SubstituterFacts, scheme: Seq<char>, rest: Seq<char>) -> Result<
    UriFacts,
    InvalidArtifactFacts,
> {
    if scheme == "file"@ {
        Ok(UriFacts::File(rest))
    } else if scheme == "http"@ || scheme == "https"@ {
        Ok(UriFacts::Http(scheme + "://"@ + rest))
    } else {
        Err(
            InvalidArtifactFacts::InvalidScheme { id: s.id, component: s.component.name, scheme },
        )
    }
}

/// The format of a declared archive, which must be one that this build can read.
pub open spec fn readable(s: SubstituterFacts, archive: Option<ArchiveFacts>) -> Result<
    Option<FormatFacts>,
    InvalidArtifactFacts,
> {
    match archive {
        None => Ok(None),
        Some(archive) => if archive.format is TarGz {
            Ok(Some(archive.format))
        } else {
            Err(
                InvalidArtifactFacts::UnsupportedArchiveFormat {
                    id: s.id,
                    component: s.component.name,
                    format: artifact::spelling_of(archive.format),
                },
            )
        },
    }
}

/// What an artifact resolves to once its scheme has been split off.
pub open spec fn assembled(
    s: SubstituterFacts,
    scheme: Seq<char>,
    template: Seq<char>,
    archive: Option<ArchiveFacts>,
) -> Result<Option<ResolvedFacts>, InvalidArtifactFacts> {
    match applied(s, template) {
        Err(e) => Err(e),
        Ok(rest) => match typed_uri(s, scheme, rest) {
            Err(e) => Err(e),
            Ok(uri) => match readable(s, archive) {
                Err(e) => Err(e),
                Ok(archive) => Ok(Some(ResolvedFacts { uri, archive })),
            },
        },
    }
}

/// The first of two optional values that is there.
pub open spec fn either(a: Option<Seq<char>>, b: Option<Seq<char>>) -> Option<Seq<char>> {
    match a {
        Some(a) => Some(a),
        None => b,
    }
}

/// The substitution values for an artifact that is the same for every target.
pub open spec fn agnostic_values(id: Seq<char>, component: ComponentFacts) -> SubstituterFacts {
    SubstituterFacts { id, component, target: None, basename: None, extension: None }
}

/// The substitution values for one target: those declared for it, else those declared for all, and
/// the component's name for the basename.
pub open spec fn specific_values(
    id: Seq<char>,
    target: Seq<char>,
    component: ComponentFacts,
    own: SubstitutionsFacts,
    common: Option<SubstitutionsFacts>,
) -> SubstituterFacts {
    let (basename, extension) = match common {
        Some(common) => (common.basename, common.extension),
        None => (None, None),
    };
    SubstituterFacts {
        id,
        component,
        target: Some(target),
        basename: Some(
            match either(own.basename, basename) {
                Some(basename) => basename,
                None => component.name,
            },
        ),
        extension: either(own.extension, extension),
    }
}

/// What an artifact resolves to for `target`; `None` where it does not support the target.
pub open spec fn resolved(
    artifact: ArtifactFacts,
    id: Seq<char>,
    target: Seq<char>,
    component: ComponentFacts,
) -> Result<Option<ResolvedFacts>, InvalidArtifactFacts> {
    match artifact {
        ArtifactFacts::TargetAgnostic { uri, archive, .. } => match text::parted(uri, "://"@) {
            None => Err(InvalidArtifactFacts::MissingScheme { id, component: component.name }),
            Some((scheme, rest)) => assembled(
                agnostic_values(id, component),
                scheme,
                rest,
                archive,
            ),
        },
        ArtifactFacts::TargetSpecific { uri, substitutions, targets, archive, .. } => match sorted::lookup(
            targets,
            target,
        ) {
            None => Ok(None),
            Some(own) => match text::parted(uri, "://"@) {
                None => Err(InvalidArtifactFacts::MissingScheme { id, component: component.name }),
                Some((scheme, rest)) => if !text::occurs_in(rest, "%target"@) {
                    Err(
                        InvalidArtifactFacts::MissingTarget {
                            id,
                            component: component.name,
                            target,
                        },
                    )
                } else {
                    assembled(
                        specific_values(id, target, component, own, substitutions),
                        scheme,
                        rest,
                        archive,
                    )
                },
            },
        },
    }
}

/// What a list of artifacts resolves to, in its order: the first that cannot be resolved fails
/// all, and those that do not support the target are left out.
pub open spec fn all_resolved(
    artifacts: Seq<(Seq<char>, ArtifactFacts)>,
    target: Seq<char>,
    component: ComponentFacts,
) -> Result<Seq<(Seq<char>, ResolvedFacts)>, InvalidArtifactFacts>
    decreases artifacts.len(),
{
    if artifacts.len() == 0 {
        Ok(Seq::empty())
    } else {
        match all_resolved(artifacts.drop_last(), target, component) {
            Err(e) => Err(e),
            Ok(done) => match resolved(
                artifacts.last().1,
                artifacts.last().0,
                target,
                component,
            ) {
                Err(e) => Err(e),
                Ok(None) => Ok(done),
                Ok(Some(r)) => Ok(done.push((artifacts.last().0, r))),
            },
        }
    }
}

/// What the artifact with the given id resolves to.
pub open spec fn one_resolved(
    artifacts: Seq<(Seq<char>, ArtifactFacts)>,
    id: Seq<char>,
    target: Seq<char>,
    component: ComponentFacts,
) -> Result<Option<ResolvedFacts>, InvalidArtifactFacts> {
    match sorted::lookup(artifacts, id) {
        None => Ok(None),
        Some(artifact) => resolved(artifact, id, target, component),
    }
}

/// The artifacts that a component installs by default.
pub open spec fn default_resolved(
    artifacts: Seq<(Seq<char>, ArtifactFacts)>,
    target: Seq<char>,
    component: ComponentFacts,
) -> Result<Seq<(Seq<char>, ResolvedFacts)>, InvalidArtifactFacts> {
    match component.kind {
        KindFacts::Asset | KindFacts::Command { .. } | KindFacts::LegacyPackage { .. }
        | KindFacts::Package => all_resolved(artifacts, target, component),
        KindFacts::CargoExtension { spec, .. } | KindFacts::Executable { spec, .. } => {
            let id = spec.installed_executable;
            match one_resolved(artifacts, id, target, component) {
                Err(e) => Err(e),
                Ok(None) => Ok(Seq::empty()),
                Ok(Some(r)) => Ok(seq![(id, r)]),
            }
        },
        KindFacts::Unsupported { .. } => Ok(Seq::empty()),
    }
}

/// The URIs of a target-specific artifact for its first `n` targets.
pub open spec fn uris_up_to(
    artifact: ArtifactFacts,
    targets: Seq<(Seq<char>, SubstitutionsFacts)>,
    n: int,
    id: Seq<char>,
    component: ComponentFacts,
) -> Result<Seq<UriFacts>, InvalidArtifactFacts>
    decreases n,
{
    if n <= 0 {
        Ok(Seq::empty())
    } else {
        match uris_up_to(artifact, targets, n - 1, id, component) {
            Err(e) => Err(e),
            Ok(done) => match resolved(artifact, id, targets[n - 1].0, component) {
                Err(e) => Err(e),
                Ok(None) => Ok(done),
                Ok(Some(r)) => Ok(done.push(r.uri)),
            },
        }
    }
}

/// Every URI that an artifact can be fetched from, over all the targets it declares.
pub open spec fn all_uris(
    artifact: ArtifactFacts,
    id: Seq<char>,
    component: ComponentFacts,
) -> Result<Seq<UriFacts>, InvalidArtifactFacts> {
    match artifact {
        ArtifactFacts::TargetAgnostic { .. } => match resolved(artifact, id, ""@, component) {
            Err(e) => Err(e),
            Ok(None) => Ok(Seq::empty()),
            Ok(Some(r)) => Ok(seq![r.uri]),
        },
        ArtifactFacts::TargetSpecific { targets, .. } => uris_up_to(
            artifact,
            targets,
            targets.len() as int,
            id,
            component,
        ),
    }
}

/// The substitution values available to one artifact resolved for one target.
///
/// Both shapes of artifact go through it, so neither can interpret a substitution differently.
struct Substituter<'a> {
    id: &'a str,
    component: &'a Component,
    target: Option<&'a str>,
    basename: Option<&'a str>,
    extension: Option<&'a str>,
}

impl<'a> Substituter<'a> {
    spec fn values(self) -> SubstituterFacts {
        SubstituterFacts {
            id: self.id@,
            component: self.component.deep_view(),
            target: self.target.deep_view(),
            basename: self.basename.deep_view(),
            extension: self.extension.deep_view(),
        }
    }

    /// Replaces every substitution defined for this artifact in `template`.
    fn apply(&self, template: &str) -> (r: Result<String, InvalidArtifactError>)
        ensures
            match r {
                Ok(out) => applied(self.values(), template@) == Ok::<
                    Seq<char>,
                    InvalidArtifactFacts,
                >(out@),
                Err(e) => applied(self.values(), template@) == Err::<
                    Seq<char>,
                    InvalidArtifactFacts,
                >(e.deep_view()),
            },
    {
        proof {
            reveal_strlit("%target");
            reveal_strlit("%version");
            reveal_strlit("%extension");
            reveal_strlit("%basename");
        }
        let mut out = match self.target {
            Some(target) => text::replace(template, "%target", target),
            None => template.to_owned(),
        };
        if text::contains(out.as_str(), "%version") {
            match &self.component.version {
                Authority::Registry { version } => {
                    out = text::replace(out.as_str(), "%version", version.as_str());
                },
                _ => {
                    return Err(
                        InvalidArtifactError::VersionUnavailable {
                            id: self.id.to_owned(),
                            component: self.component.name.clone(),
                        },
                    );
                },
            }
        }
        if text::contains(out.as_str(), "%extension") {
            match self.extension {
                Some(extension) => {
                    out = text::replace(out.as_str(), "%extension", extension);
                },
                None => {
                    return Err(
                        InvalidArtifactError::UndefinedSubstitution {
                            id: self.id.to_owned(),
                            component: self.component.name.clone(),
                            substitution: "%extension",
                        },
                    );
                },
            }
        }
        if let Some(basename) = self.basename {
            out = text::replace(out.as_str(), "%basename", basename);
        }
        Ok(out)
    }

    /// Reassembles a substituted URI body into a typed URI.
    fn uri(&self, scheme: &str, rest: &str) -> (r: Result<ArtifactUri, InvalidArtifactError>)
        ensures
            match r {
                Ok(uri) => typed_uri(self.values(), scheme@, rest@) == Ok::<
                    UriFacts,
                    InvalidArtifactFacts,
                >(uri.deep_view()),
                Err(e) => typed_uri(self.values(), scheme@, rest@) == Err::<
                    UriFacts,
                    InvalidArtifactFacts,
                >(e.deep_view()),
            },
    {
        if text::same(scheme, "file") {
            Ok(ArtifactUri::File(rest.to_owned()))
        } else if text::same(scheme, "http") || text::same(scheme, "https") {
            let mut uri = scheme.to_owned();
            uri.append("://");
            uri.append(rest);
            Ok(ArtifactUri::Http(uri))
        } else {
            Err(
                InvalidArtifactError::InvalidScheme {
                    id: self.id.to_owned(),
                    component: self.component.name.clone(),
                    scheme: scheme.to_owned(),
                },
            )
        }
    }

    /// Checks the declared format, rejecting one this build cannot read.
    fn archive(&self, archive: &Option<Archive>) -> (r: Result<
        Option<ArchiveFormat>,
        InvalidArtifactError,
    >)
        ensures
            match r {
                Ok(format) => readable(self.values(), archive.deep_view()) == Ok::<
                    Option<FormatFacts>,
                    InvalidArtifactFacts,
                >(format.deep_view()),
                Err(e) => readable(self.values(), archive.deep_view()) == Err::<
                    Option<FormatFacts>,
                    InvalidArtifactFacts,
                >(e.deep_view()),
            },
    {
        match archive {
            None => Ok(None),
            Some(archive) => {
                if !archive.format.is_supported() {
                    return Err(
                        InvalidArtifactError::UnsupportedArchiveFormat {
                            id: self.id.to_owned(),
                            component: self.component.name.clone(),
                            format: archive.format.to_string(),
                        },
                    );
                }
                Ok(Some(archive.format.clone()))
            },
        }
    }

    /// Substitutes, types the URI and checks the packaging.
    fn assemble(&self, scheme: &str, template: &str, archive: &Option<Archive>) -> (r: Result<
        Option<ResolvedArtifact>,
        InvalidArtifactError,
    >)
        ensures
            agrees(r, assembled(self.values(), scheme@, template@, archive.deep_view())),
    {
        let rest = match self.apply(template) {
            Ok(rest) => rest,
            Err(e) => return Err(e),
        };
        let uri = match self.uri(scheme, rest.as_str()) {
            Ok(uri) => uri,
            Err(e) => return Err(e),
        };
        let archive = match self.archive(archive) {
            Ok(archive) => archive,
            Err(e) => return Err(e),
        };
        Ok(Some(ResolvedArtifact { uri, archive }))
    }
}

/// Whether a result is the one that the facts give.
pub open spec fn agrees(
    r: Result<Option<ResolvedArtifact>, InvalidArtifactError>,
    facts: Result<Option<ResolvedFacts>, InvalidArtifactFacts>,
) -> bool {
    match r {
        Ok(resolved) => facts == Ok::<Option<ResolvedFacts>, InvalidArtifactFacts>(
            resolved.deep_view(),
        ),
        Err(e) => facts == Err::<Option<ResolvedFacts>, InvalidArtifactFacts>(e.deep_view()),
    }
}

/// Whether a list of results is the one that the facts give.
pub open spec fn agrees_all(
    r: Result<Vec<(&str, ResolvedArtifact)>, InvalidArtifactError>,
    facts: Result<Seq<(Seq<char>, ResolvedFacts)>, InvalidArtifactFacts>,
) -> bool {
    match r {
        Ok(resolved) => facts == Ok::<Seq<(Seq<char>, ResolvedFacts)>, InvalidArtifactFacts>(
            resolved.deep_view(),
        ),
        Err(e) => facts == Err::<Seq<(Seq<char>, ResolvedFacts)>, InvalidArtifactFacts>(
            e.deep_view(),
        ),
    }
}

fn borrowed(value: &Option<String>) -> (r: Option<&str>)
    ensures
        r.deep_view() == value.deep_view(),
{
    match value {
        Some(value) => Some(value.as_str()),
        None => None,
    }
}

impl Artifact {
    /// The declared content digest, if any.
    ///
    /// For an archived artifact it describes the archive as fetched, not the file installed out of
    /// it.
    pub fn digest(&self) -> (r: Option<&Digest>)
        ensures
            r.deep_view() == self.deep_view().digest(),
    {
        match self {
            Artifact::TargetSpecific { digest, .. } => digest.as_ref(),
            Artifact::TargetAgnostic { digest, .. } => digest.as_ref(),
        }
    }

    /// How the artifact is packaged at its URI, if it is not the bare file.
    pub fn archive(&self) -> (r: Option<&Archive>)
        ensures
            r.deep_view() == self.deep_view().archive(),
    {
        match self {
            Artifact::TargetSpecific { archive, .. } => archive.as_ref(),
            Artifact::TargetAgnostic { archive, .. } => archive.as_ref(),
        }
    }

    /// Resolves the artifact for `target`: its URI, and what it is packaged as.
    pub fn resolve_for(&self, id: &str, target: &str, component: &Component) -> (r: Result<
        Option<ResolvedArtifact>,
        InvalidArtifactError,
    >)
        ensures
            agrees(r, resolved(self.deep_view(), id@, target@, component.deep_view())),
    {
        match self {
            Artifact::TargetAgnostic { uri, archive, .. } => {
                let subs = Substituter {
                    id,
                    component,
                    target: None,
                    basename: None,
                    extension: None,
                };
                match text::split_once(uri.as_str(), "://") {
                    None => Err(
                        InvalidArtifactError::MissingScheme {
                            id: id.to_owned(),
                            component: component.name.clone(),
                        },
                    ),
                    Some((scheme, rest)) => subs.assemble(scheme.as_str(), rest.as_str(), archive),
                }
            },
            Artifact::TargetSpecific { uri, substitutions, targets, archive, .. } => {
                let own: &Substitutions = match targets.get(target) {
                    Some(own) => {
                        proof {
                            sorted::lookup_with_values(
                                targets@,
                                target@,
                                |v: Substitutions| v.deep_view(),
                            );
                        }
                        own
                    },
                    None => {
                        proof {
                            sorted::lookup_with_values(
                                targets@,
                                target@,
                                |v: Substitutions| v.deep_view(),
                            );
                        }
                        return Ok(None);
                    },
                };
                let (common_basename, common_extension) = match substitutions {
                    Some(common) => (borrowed(&common.basename), borrowed(&common.extension)),
                    None => (None, None),
                };
                let basename: &str = match &own.basename {
                    Some(basename) => basename.as_str(),
                    None => match common_basename {
                        Some(basename) => basename,
                        None => component.name.as_str(),
                    },
                };
                let extension: Option<&str> = match &own.extension {
                    Some(extension) => Some(extension.as_str()),
                    None => common_extension,
                };
                let subs = Substituter {
                    id,
                    component,
                    target: Some(target),
                    basename: Some(basename),
                    extension,
                };
                match text::split_once(uri.as_str(), "://") {
                    None => Err(
                        InvalidArtifactError::MissingScheme {
                            id: id.to_owned(),
                            component: component.name.clone(),
                        },
                    ),
                    Some((scheme, rest)) => {
                        // A URI that does not vary by target would resolve to the same file for
                        // every target it declares.
                        if !text::contains(rest.as_str(), "%target") {
                            return Err(
                                InvalidArtifactError::MissingTarget {
                                    id: id.to_owned(),
                                    component: component.name.clone(),
                                    target: target.to_owned(),
                                },
                            );
                        }
                        subs.assemble(scheme.as_str(), rest.as_str(), archive)
                    },
                }
            },
        }
    }

    /// Every URI that the artifact can be fetched from.
    pub fn get_uris_for(&self, id: &str, component: &Component) -> (r: Result<
        Vec<ArtifactUri>,
        InvalidArtifactError,
    >)
        ensures
            match r {
                Ok(uris) => all_uris(self.deep_view(), id@, component.deep_view()) == Ok::<
                    Seq<UriFacts>,
                    InvalidArtifactFacts,
                >(uris.deep_view()),
                Err(e) => all_uris(self.deep_view(), id@, component.deep_view()) == Err::<
                    Seq<UriFacts>,
                    InvalidArtifactFacts,
                >(e.deep_view()),
            },
    {
        let mut uris: Vec<ArtifactUri> = Vec::new();
        match self {
            Artifact::TargetAgnostic { .. } => {
                match self.resolve_for(id, "", component) {
                    Err(e) => return Err(e),
                    Ok(None) => {},
                    Ok(Some(resolved)) => uris.push(resolved.uri),
                }
                assert(uris.deep_view() =~= all_uris(
                    self.deep_view(),
                    id@,
                    component.deep_view(),
                )->Ok_0);
            },
            Artifact::TargetSpecific { targets, .. } => {
                let mut i: usize = 0;
                assert(uris.deep_view() =~= Seq::empty());
                let n = targets.len();
                while i < n
                    invariant
                        i <= n == targets@.len(),
                        self matches Artifact::TargetSpecific { targets: t, .. } && t == targets,
                        uris_up_to(
                            self.deep_view(),
                            targets.deep_view(),
                            i as int,
                            id@,
                            component.deep_view(),
                        ) == Ok::<Seq<UriFacts>, InvalidArtifactFacts>(uris.deep_view()),
                    decreases n - i,
                {
                    let ghost before = uris.deep_view();
                    let target = targets.key(i);
                    match self.resolve_for(id, target.as_str(), component) {
                        Err(e) => {
                            proof {
                                failed_uris(
                                    self.deep_view(),
                                    targets.deep_view(),
                                    i + 1,
                                    targets@.len() as int,
                                    id@,
                                    component.deep_view(),
                                );
                            }
                            return Err(e);
                        },
                        Ok(None) => {},
                        Ok(Some(resolved)) => {
                            let ghost uri = resolved.uri.deep_view();
                            uris.push(resolved.uri);
                            assert(uris.deep_view() =~= before.push(uri));
                        },
                    }
                    i += 1;
                }
            },
        }
        Ok(uris)
    }
}

/// A target that cannot be resolved fails the whole list.
proof fn failed_uris(
    artifact: ArtifactFacts,
    targets: Seq<(Seq<char>, SubstitutionsFacts)>,
    m: int,
    n: int,
    id: Seq<char>,
    component: ComponentFacts,
)
    requires
        0 <= m <= n,
        uris_up_to(artifact, targets, m, id, component) is Err,
    ensures
        uris_up_to(artifact, targets, n, id, component) == uris_up_to(
            artifact,
            targets,
            m,
            id,
            component,
        ),
    decreases n - m,
{
    if m < n {
        failed_uris(artifact, targets, m, n - 1, id, component);
    }
}

/// An artifact that cannot be resolved fails the whole list.
proof fn failed_artifacts(
    artifacts: Seq<(Seq<char>, ArtifactFacts)>,
    m: int,
    target: Seq<char>,
    component: ComponentFacts,
)
    requires
        0 <= m <= artifacts.len(),
        all_resolved(artifacts.take(m), target, component) is Err,
    ensures
        all_resolved(artifacts, target, component) == all_resolved(
            artifacts.take(m),
            target,
            component,
        ),
    decreases artifacts.len() - m,
{
    if m < artifacts.len() {
        assert(artifacts.take(m + 1).drop_last() =~= artifacts.take(m));
        failed_artifacts(artifacts, m + 1, target, component);
    } else {
        assert(artifacts.take(m) =~= artifacts);
    }
}

impl Artifacts {
    /// Whether nothing is declared.
    pub fn is_empty(&self) -> (r: bool)
        ensures
            r == (self.deep_view().len() == 0),
    {
        self.artifacts.is_empty()
    }

    /// Declares `artifact` under `id`, in place of what was there. Tells whether nothing was.
    pub fn insert(&mut self, id: String, artifact: Artifact) -> (r: bool)
        ensures
            final(self).deep_view() == sorted::put(
                old(self).deep_view(),
                id@,
                artifact.deep_view(),
            ),
            r == (sorted::lookup(old(self).deep_view(), id@) is None),
    {
        let ghost before = self.artifacts@;
        let held = self.artifacts.insert(id, artifact);
        proof {
            sorted::put_with_values(before, id@, artifact, |v: Artifact| v.deep_view());
            sorted::lookup_with_values(before, id@, |v: Artifact| v.deep_view());
        }
        held.is_none()
    }

    /// The `(artifact id, resolved artifact)` pairs that should be installed for `target`.
    ///
    /// The artifact id is the exact filename the artifact is installed as.
    pub fn get_default_artifacts_for_target<'a>(
        &'a self,
        target: &str,
        component: &'a Component,
    ) -> (r: Result<Vec<(&'a str, ResolvedArtifact)>, InvalidArtifactError>)
        ensures
            agrees_all(
                r,
                default_resolved(self.deep_view(), target@, component.deep_view()),
            ),
    {
        match component.kind() {
            ComponentKind::CargoExtension { spec, .. } | ComponentKind::Executable { spec, .. } => {
                let id: &'a str = spec.installed_executable.as_str();
                match self.get_artifact_for_target(id, target, component) {
                    Err(e) => Err(e),
                    Ok(found) => {
                        let mut list: Vec<(&'a str, ResolvedArtifact)> = Vec::new();
                        match found {
                            None => {
                                assert(list.deep_view() =~= Seq::empty());
                            },
                            Some(resolved) => {
                                let ghost facts = resolved.deep_view();
                                list.push((id, resolved));
                                assert(list.deep_view() =~= seq![(id@, facts)]);
                            },
                        }
                        Ok(list)
                    },
                }
            },
            // Never selected, so nothing is installed for it.
            ComponentKind::Unsupported { .. } => {
                let list: Vec<(&'a str, ResolvedArtifact)> = Vec::new();
                assert(list.deep_view() =~= Seq::empty());
                Ok(list)
            },
            ComponentKind::Asset | ComponentKind::Command { .. } | ComponentKind::LegacyPackage { .. }
            | ComponentKind::Package => self.get_artifacts_for_target(target, component),
        }
    }

    /// Every declared `(artifact id, resolved artifact)` pair available for `target`.
    pub fn get_artifacts_for_target(&self, target: &str, component: &Component) -> (r: Result<
        Vec<(&str, ResolvedArtifact)>,
        InvalidArtifactError,
    >)
        ensures
            agrees_all(r, all_resolved(self.deep_view(), target@, component.deep_view())),
    {
        let mut list: Vec<(&str, ResolvedArtifact)> = Vec::new();
        let n = self.artifacts.len();
        let ghost all = self.deep_view();
        let mut i: usize = 0;
        assert(list.deep_view() =~= Seq::empty());
        while i < n
            invariant
                i <= n == all.len(),
                all == self.deep_view(),
                all_resolved(all.take(i as int), target@, component.deep_view()) == Ok::<
                    Seq<(Seq<char>, ResolvedFacts)>,
                    InvalidArtifactFacts,
                >(list.deep_view()),
            decreases n - i,
        {
            let ghost before = list.deep_view();
            let id = self.artifacts.key(i).as_str();
            assert(all.take(i + 1).drop_last() =~= all.take(i as int));
            assert(all.take(i + 1).last() == all[i as int]);
            match self.artifacts.value(i).resolve_for(id, target, component) {
                Err(e) => {
                    proof {
                        failed_artifacts(all, i + 1, target@, component.deep_view());
                    }
                    return Err(e);
                },
                Ok(None) => {},
                Ok(Some(resolved)) => {
                    let ghost facts = resolved.deep_view();
                    list.push((id, resolved));
                    assert(list.deep_view() =~= before.push((id@, facts)));
                },
            }
            i += 1;
        }
        assert(all.take(i as int) =~= all);
        Ok(list)
    }

    /// What the artifact with the given id resolves to for `target`, if it is declared and supports
    /// the target.
    pub fn get_artifact_for_target(
        &self,
        id: &str,
        target: &str,
        component: &Component,
    ) -> (r: Result<Option<ResolvedArtifact>, InvalidArtifactError>)
        ensures
            agrees(r, one_resolved(self.deep_view(), id@, target@, component.deep_view())),
    {
        let found = self.artifacts.get(id);
        proof {
            sorted::lookup_with_values(self.artifacts@, id@, |v: Artifact| v.deep_view());
        }
        match found {
            None => Ok(None),
            Some(artifact) => artifact.resolve_for(id, target, component),
        }
    }
}

// ---------------------------------------------------------------------------------------------
// Laws

/// An artifact that is the same for every target resolves alike for all of them.
pub proof fn agnostic_artifacts_ignore_the_target(
    artifact: ArtifactFacts,
    id: Seq<char>,
    a: Seq<char>,
    b: Seq<char>,
    component: ComponentFacts,
)
    requires
        artifact is TargetAgnostic,
    ensures
        resolved(artifact, id, a, component) == resolved(artifact, id, b, component),
{
}

/// A target-specific artifact yields nothing, without an error, exactly for the targets it does not
/// declare.
pub proof fn undeclared_targets_yield_nothing(
    artifact: ArtifactFacts,
    id: Seq<char>,
    target: Seq<char>,
    component: ComponentFacts,
)
    ensures
        resolved(artifact, id, target, component) == Ok::<
            Option<ResolvedFacts>,
            InvalidArtifactFacts,
        >(None) <==> (artifact matches ArtifactFacts::TargetSpecific { targets, .. }
            && !sorted::has_key(targets, target)),
{
}

/// Only a format that this build can read gets through resolution.
pub proof fn resolved_archives_are_readable(
    artifact: ArtifactFacts,
    id: Seq<char>,
    target: Seq<char>,
    component: ComponentFacts,
)
    ensures
        resolved(artifact, id, target, component) matches Ok(Some(r)) ==> (r.archive matches Some(
            format,
        ) ==> format is TarGz) && (r.archive is Some <==> artifact.archive() is Some),
{
}

/// Of the component, only its name and its version enter a resolution.
pub proof fn resolution_reads_name_and_version(
    artifact: ArtifactFacts,
    id: Seq<char>,
    target: Seq<char>,
    a: ComponentFacts,
    b: ComponentFacts,
)
    requires
        a.name == b.name,
        a.version == b.version,
    ensures
        resolved(artifact, id, target, a) == resolved(artifact, id, target, b),
{
}

} // verus!
