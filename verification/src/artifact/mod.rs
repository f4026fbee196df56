//! Artifacts: where the files of a component are fetched from, and what they are packaged as.

pub mod document;
pub mod document_laws;
pub mod resolution;
pub mod resolution_laws;

use vstd::prelude::*;

use crate::path;
use crate::sorted::SortedMap;
use crate::text;
use crate::value::{Extra, Json};

verus! {

/// The format an artifact is packaged in.
#[derive(Debug, PartialEq, Eq, Hash)]
pub enum ArchiveFormat {
    /// A gzip-compressed tar archive.
    TarGz,
    /// A format this build cannot read. Recorded verbatim so it round-trips; rejected before an
    /// installation is planned for it.
    Unsupported(String),
}

/// What an [`ArchiveFormat`] holds.
#[verifier::ext_equal]
pub enum FormatFacts {
    TarGz,
    Unsupported(Seq<char>),
}

impl DeepView for ArchiveFormat {
    type V = FormatFacts;

    open spec fn deep_view(&self) -> FormatFacts {
        match self {
            ArchiveFormat::TarGz => FormatFacts::TarGz,
            ArchiveFormat::Unsupported(spelling) => FormatFacts::Unsupported(spelling@),
        }
    }
}

/// Whether two optional formats are the same.
pub fn same_format(a: &Option<ArchiveFormat>, b: &Option<ArchiveFormat>) -> (r: bool)
    ensures
        r == (a.deep_view() == b.deep_view()),
{
    match (a, b) {
        (Some(ArchiveFormat::TarGz), Some(ArchiveFormat::TarGz)) => true,
        (Some(ArchiveFormat::Unsupported(a)), Some(ArchiveFormat::Unsupported(b))) => *a == *b,
        (None, None) => true,
        _ => false,
    }
}

impl Clone for ArchiveFormat {
    fn clone(&self) -> (r: Self)
        ensures
            r.deep_view() == self.deep_view(),
    {
        match self {
            ArchiveFormat::TarGz => ArchiveFormat::TarGz,
            ArchiveFormat::Unsupported(spelling) => ArchiveFormat::Unsupported(spelling.clone()),
        }
    }
}

/// The format that a spelling names. An unrecognized one is a value, not a failure.
pub open spec fn format_of(spelling: Seq<char>) -> FormatFacts {
    if spelling == "tar.gz"@ {
        FormatFacts::TarGz
    } else {
        FormatFacts::Unsupported(spelling)
    }
}

/// How a format is spelled.
pub open spec fn spelling_of(format: FormatFacts) -> Seq<char> {
    match format {
        FormatFacts::TarGz => "tar.gz"@,
        FormatFacts::Unsupported(spelling) => spelling,
    }
}

impl ArchiveFormat {
    /// Interprets a declared spelling.
    pub fn parse(spelling: &str) -> (r: Self)
        ensures
            r.deep_view() == format_of(spelling@),
    {
        if text::same(spelling, "tar.gz") {
            ArchiveFormat::TarGz
        } else {
            ArchiveFormat::Unsupported(spelling.to_owned())
        }
    }

    /// Whether this build can read the format.
    pub fn is_supported(&self) -> (r: bool)
        ensures
            r == (self.deep_view() is TarGz),
    {
        match self {
            ArchiveFormat::TarGz => true,
            ArchiveFormat::Unsupported(_) => false,
        }
    }

    /// How the format is spelled.
    pub fn as_str(&self) -> (r: &str)
        ensures
            r@ == spelling_of(self.deep_view()),
    {
        match self {
            ArchiveFormat::TarGz => "tar.gz",
            ArchiveFormat::Unsupported(spelling) => spelling.as_str(),
        }
    }

    /// How the format is spelled.
    pub fn to_string(&self) -> (r: String)
        ensures
            r@ == spelling_of(self.deep_view()),
    {
        self.as_str().to_owned()
    }

    /// Every spelling an author may write.
    pub fn supported_spellings() -> (r: Vec<&'static str>)
        ensures
            r.deep_view() == seq!["tar.gz"@],
    {
        let mut r: Vec<&'static str> = Vec::new();
        r.push("tar.gz");
        assert(r.deep_view() =~= seq!["tar.gz"@]);
        r
    }
}

/// A format and its spelling name each other.
pub proof fn formats_round_trip(spelling: Seq<char>)
    ensures
        spelling_of(format_of(spelling)) == spelling,
{
}

/// How an artifact is packaged at its URI.
///
/// The archive must hold exactly one file, which is the artifact.
#[derive(Debug, PartialEq, Eq, Hash)]
pub struct Archive {
    pub format: ArchiveFormat,
    /// Fields declared by a newer schema that this build does not recognize.
    pub extra: Extra,
}

/// What an [`Archive`] holds.
#[verifier::ext_equal]
pub struct ArchiveFacts {
    pub format: FormatFacts,
    pub extra: Map<Seq<char>, Json>,
}

impl DeepView for Archive {
    type V = ArchiveFacts;

    open spec fn deep_view(&self) -> ArchiveFacts {
        ArchiveFacts { format: self.format.deep_view(), extra: self.extra@ }
    }
}

impl Clone for Archive {
    fn clone(&self) -> (r: Self)
        ensures
            r.deep_view() == self.deep_view(),
    {
        Archive { format: self.format.clone(), extra: self.extra.clone() }
    }
}

/// A content digest declared for an artifact, e.g. `sha256:9f86d081...`.
///
/// Checked for its shape, recorded and round-tripped; never verified against downloaded bytes.
#[derive(Debug, PartialEq, Eq, Hash)]
pub struct Digest {
    pub algorithm: String,
    pub hex: String,
}

/// What a [`Digest`] holds.
#[verifier::ext_equal]
pub struct DigestFacts {
    pub algorithm: Seq<char>,
    pub hex: Seq<char>,
}

impl DeepView for Digest {
    type V = DigestFacts;

    open spec fn deep_view(&self) -> DigestFacts {
        DigestFacts { algorithm: self.algorithm@, hex: self.hex@ }
    }
}

/// Whether two optional digests are the same.
pub fn same_digest(a: &Option<Digest>, b: &Option<Digest>) -> (r: bool)
    ensures
        r == (a.deep_view() == b.deep_view()),
{
    match (a, b) {
        (Some(a), Some(b)) => a.algorithm == b.algorithm && a.hex == b.hex,
        (None, None) => true,
        _ => false,
    }
}

impl Clone for Digest {
    fn clone(&self) -> (r: Self)
        ensures
            r.deep_view() == self.deep_view(),
    {
        Digest { algorithm: self.algorithm.clone(), hex: self.hex.clone() }
    }
}

/// Why a text is no digest.
#[derive(Debug, PartialEq, Eq)]
pub enum InvalidDigestError {
    Malformed(String),
    NotHex(String),
}

/// What an [`InvalidDigestError`] holds.
pub enum InvalidDigestFacts {
    Malformed(Seq<char>),
    NotHex(Seq<char>),
}

impl DeepView for InvalidDigestError {
    type V = InvalidDigestFacts;

    open spec fn deep_view(&self) -> InvalidDigestFacts {
        match self {
            InvalidDigestError::Malformed(s) => InvalidDigestFacts::Malformed(s@),
            InvalidDigestError::NotHex(s) => InvalidDigestFacts::NotHex(s@),
        }
    }
}

impl InvalidDigestError {
    /// What went wrong, in words.
    pub fn to_string(&self) -> (s: String)
        ensures
            s@ == match self.deep_view() {
                InvalidDigestFacts::Malformed(raw) => "invalid digest '"@ + raw
                    + "': expected the form '<algorithm>:<hex>'"@,
                InvalidDigestFacts::NotHex(raw) => "invalid digest '"@ + raw
                    + "': the digest value must be non-empty lowercase hex"@,
            },
    {
        let mut s = "invalid digest '".to_owned();
        match self {
            InvalidDigestError::Malformed(raw) => {
                s.append(raw.as_str());
                s.append("': expected the form '<algorithm>:<hex>'");
            },
            InvalidDigestError::NotHex(raw) => {
                s.append(raw.as_str());
                s.append("': the digest value must be non-empty lowercase hex");
            },
        }
        s
    }
}

/// Whether a character is a lower-case hexadecimal digit.
pub open spec fn is_hex_digit(c: char) -> bool {
    ('0' <= c && c <= '9') || ('a' <= c && c <= 'f')
}

/// Whether a text is a digest value: at least one lower-case hexadecimal digit, and nothing else.
pub open spec fn is_hex(s: Seq<char>) -> bool {
    s.len() > 0 && forall|i: int| 0 <= i < s.len() ==> is_hex_digit(#[trigger] s[i])
}

/// The digest that a text declares.
pub open spec fn digest_of(s: Seq<char>) -> Result<DigestFacts, InvalidDigestFacts> {
    match text::parted(s, ":"@) {
        None => Err(InvalidDigestFacts::Malformed(s)),
        Some((algorithm, hex)) => if algorithm.len() == 0 {
            Err(InvalidDigestFacts::Malformed(s))
        } else if !is_hex(hex) {
            Err(InvalidDigestFacts::NotHex(s))
        } else {
            Ok(DigestFacts { algorithm, hex })
        },
    }
}

/// A digest as text.
pub open spec fn digest_text(d: DigestFacts) -> Seq<char> {
    d.algorithm + ":"@ + d.hex
}

/// A digest that was read is written as it was read.
pub proof fn digests_round_trip(s: Seq<char>)
    requires
        digest_of(s) is Ok,
    ensures
        digest_text(digest_of(s)->Ok_0) == s,
{
    text::parted_rejoins(s, ":"@);
}

fn all_hex(s: &str) -> (r: bool)
    ensures
        r == is_hex(s@),
{
    let chars = text::characters(s);
    if chars.len() == 0 {
        return false;
    }
    let mut i: usize = 0;
    while i < chars.len()
        invariant
            chars@ == s@,
            i <= chars@.len(),
            forall|k: int| 0 <= k < i ==> is_hex_digit(#[trigger] s@[k]),
        decreases chars.len() - i,
    {
        let c = chars[i];
        if !(('0' <= c && c <= '9') || ('a' <= c && c <= 'f')) {
            assert(!is_hex_digit(s@[i as int]));
            return false;
        }
        i += 1;
    }
    true
}

impl Digest {
    /// Reads a digest.
    pub fn from_str(s: &str) -> (r: Result<Self, InvalidDigestError>)
        ensures
            match r {
                Ok(d) => digest_of(s@) == Ok::<DigestFacts, InvalidDigestFacts>(d.deep_view()),
                Err(e) => digest_of(s@) == Err::<DigestFacts, InvalidDigestFacts>(e.deep_view()),
            },
    {
        match text::split_once(s, ":") {
            None => Err(InvalidDigestError::Malformed(s.to_owned())),
            Some((algorithm, hex)) => {
                if algorithm.as_str().is_empty() {
                    return Err(InvalidDigestError::Malformed(s.to_owned()));
                }
                if !all_hex(hex.as_str()) {
                    return Err(InvalidDigestError::NotHex(s.to_owned()));
                }
                Ok(Digest { algorithm, hex })
            },
        }
    }

    /// The digest as text.
    pub fn to_string(&self) -> (s: String)
        ensures
            s@ == digest_text(self.deep_view()),
    {
        let mut s = self.algorithm.clone();
        s.append(":");
        s.append(self.hex.as_str());
        s
    }
}

/// The value of user-defined substitutions in [`Artifact`] definitions.
#[derive(Debug, PartialEq, Eq, Hash)]
pub struct Substitutions {
    /// The value of `%basename`; the component's name where it is absent.
    pub basename: Option<String>,
    /// The value of `%extension`.
    pub extension: Option<String>,
    /// Fields declared by a newer schema that this build does not recognize.
    pub extra: Extra,
}

/// What a [`Substitutions`] holds.
#[verifier::ext_equal]
pub struct SubstitutionsFacts {
    pub basename: Option<Seq<char>>,
    pub extension: Option<Seq<char>>,
    pub extra: Map<Seq<char>, Json>,
}

impl DeepView for Substitutions {
    type V = SubstitutionsFacts;

    open spec fn deep_view(&self) -> SubstitutionsFacts {
        SubstitutionsFacts {
            basename: self.basename.deep_view(),
            extension: self.extension.deep_view(),
            extra: self.extra@,
        }
    }
}

impl Clone for Substitutions {
    fn clone(&self) -> (r: Self)
        ensures
            r.deep_view() == self.deep_view(),
    {
        Substitutions {
            basename: self.basename.clone(),
            extension: self.extension.clone(),
            extra: self.extra.clone(),
        }
    }
}

impl Default for Substitutions {
    fn default() -> (r: Self)
        ensures
            r.deep_view() == (SubstitutionsFacts {
                basename: None,
                extension: None,
                extra: Map::empty(),
            }),
    {
        Substitutions { basename: None, extension: None, extra: Extra::default() }
    }
}

/// A URI used to fetch an artifact, and what is fetched.
#[derive(Debug, PartialEq, Eq, Hash)]
pub enum Artifact {
    /// An artifact compiled for a specific target.
    TargetSpecific {
        /// The URI, with substitutions: `%version`, `%basename`, `%extension`, and `%target`, which
        /// is required.
        uri: String,
        /// Substitutions that apply to all targets.
        substitutions: Option<Substitutions>,
        /// The supported targets, and the substitutions that apply to each.
        targets: SortedMap<Substitutions>,
        digest: Option<Digest>,
        /// How the artifact is packaged at that URI, if it is not the bare file.
        archive: Option<Archive>,
        extra: Extra,
    },
    /// An artifact that is the same for every target. Its URI may contain `%version`.
    TargetAgnostic { uri: String, digest: Option<Digest>, archive: Option<Archive>, extra: Extra },
}

/// What an [`Artifact`] holds.
#[verifier::ext_equal]
pub enum ArtifactFacts {
    TargetSpecific {
        uri: Seq<char>,
        substitutions: Option<SubstitutionsFacts>,
        targets: Seq<(Seq<char>, SubstitutionsFacts)>,
        digest: Option<DigestFacts>,
        archive: Option<ArchiveFacts>,
        extra: Map<Seq<char>, Json>,
    },
    TargetAgnostic {
        uri: Seq<char>,
        digest: Option<DigestFacts>,
        archive: Option<ArchiveFacts>,
        extra: Map<Seq<char>, Json>,
    },
}

impl ArtifactFacts {
    /// The declared digest.
    pub open spec fn digest(self) -> Option<DigestFacts> {
        match self {
            ArtifactFacts::TargetSpecific { digest, .. } => digest,
            ArtifactFacts::TargetAgnostic { digest, .. } => digest,
        }
    }

    /// The declared packaging.
    pub open spec fn archive(self) -> Option<ArchiveFacts> {
        match self {
            ArtifactFacts::TargetSpecific { archive, .. } => archive,
            ArtifactFacts::TargetAgnostic { archive, .. } => archive,
        }
    }
}

impl DeepView for Artifact {
    type V = ArtifactFacts;

    open spec fn deep_view(&self) -> ArtifactFacts {
        match self {
            Artifact::TargetSpecific { uri, substitutions, targets, digest, archive, extra } =>
                ArtifactFacts::TargetSpecific {
                uri: uri@,
                substitutions: substitutions.deep_view(),
                targets: targets.deep_view(),
                digest: digest.deep_view(),
                archive: archive.deep_view(),
                extra: extra@,
            },
            Artifact::TargetAgnostic { uri, digest, archive, extra } =>
                ArtifactFacts::TargetAgnostic {
                uri: uri@,
                digest: digest.deep_view(),
                archive: archive.deep_view(),
                extra: extra@,
            },
        }
    }
}

fn copy_targets(targets: &SortedMap<Substitutions>) -> (r: SortedMap<Substitutions>)
    ensures
        r.deep_view() == targets.deep_view(),
{
    let r = targets.clone();
    proof {
        assert forall|i: int| 0 <= i < r@.len() implies r.deep_view()[i]
            == targets.deep_view()[i] by {
            assert(r@[i].0 == targets@[i].0);
            assert(cloned(targets@[i].1, r@[i].1));
        }
        assert(r.deep_view() =~= targets.deep_view());
    }
    r
}

impl Clone for Artifact {
    fn clone(&self) -> (r: Self)
        ensures
            r.deep_view() == self.deep_view(),
    {
        match self {
            Artifact::TargetSpecific { uri, substitutions, targets, digest, archive, extra } =>
                Artifact::TargetSpecific {
                uri: uri.clone(),
                substitutions: substitutions.clone(),
                targets: copy_targets(targets),
                digest: digest.clone(),
                archive: archive.clone(),
                extra: extra.clone(),
            },
            Artifact::TargetAgnostic { uri, digest, archive, extra } => Artifact::TargetAgnostic {
                uri: uri.clone(),
                digest: digest.clone(),
                archive: archive.clone(),
                extra: extra.clone(),
            },
        }
    }
}

/// Where an artifact is fetched from.
#[derive(Debug)]
pub enum ArtifactUri {
    File(String),
    Http(String),
}

/// What an [`ArtifactUri`] holds.
#[verifier::ext_equal]
pub enum UriFacts {
    File(Seq<char>),
    Http(Seq<char>),
}

impl DeepView for ArtifactUri {
    type V = UriFacts;

    open spec fn deep_view(&self) -> UriFacts {
        match self {
            ArtifactUri::File(path) => UriFacts::File(path@),
            ArtifactUri::Http(uri) => UriFacts::Http(uri@),
        }
    }
}

/// Whether two URIs are the same. Files are, where their paths are, component by component.
pub open spec fn uris_alike(a: UriFacts, b: UriFacts) -> bool {
    match (a, b) {
        (UriFacts::File(x), UriFacts::File(y)) => path::same_place(x, y),
        _ => a == b,
    }
}

impl PartialEq for ArtifactUri {
    fn eq(&self, other: &Self) -> (r: bool) {
        match (self, other) {
            (ArtifactUri::File(x), ArtifactUri::File(y)) => path::same(x.as_str(), y.as_str()),
            (ArtifactUri::Http(x), ArtifactUri::Http(y)) => *x == *y,
            _ => false,
        }
    }
}

impl vstd::std_specs::cmp::PartialEqSpecImpl for ArtifactUri {
    open spec fn obeys_eq_spec() -> bool {
        true
    }

    open spec fn eq_spec(&self, other: &Self) -> bool {
        uris_alike(self.deep_view(), other.deep_view())
    }
}

impl Eq for ArtifactUri {

}

impl Clone for ArtifactUri {
    fn clone(&self) -> (r: Self)
        ensures
            r.deep_view() == self.deep_view(),
    {
        match self {
            ArtifactUri::File(path) => ArtifactUri::File(path.clone()),
            ArtifactUri::Http(uri) => ArtifactUri::Http(uri.clone()),
        }
    }
}

/// A URI as text.
pub open spec fn uri_text(uri: UriFacts) -> Seq<char> {
    match uri {
        UriFacts::File(path) => "file://"@ + path,
        UriFacts::Http(uri) => uri,
    }
}

/// The filename that a URI ends in.
pub open spec fn uri_file_name(uri: UriFacts) -> Option<Seq<char>> {
    match uri {
        UriFacts::File(path) => path::final_component(path),
        UriFacts::Http(uri) => if uri.contains('/') {
            Some(text::trimmed(text::after_last(uri, '/')))
        } else {
            None
        },
    }
}

impl ArtifactUri {
    /// The filename that the URI ends in.
    pub fn file_name(&self) -> (r: Option<String>)
        ensures
            r.deep_view() == uri_file_name(self.deep_view()),
    {
        match self {
            ArtifactUri::File(path) => path::file_name(path.as_str()),
            ArtifactUri::Http(uri) => {
                let last = text::last_segment(uri.as_str(), '/');
                proof {
                    text::last_segment_marks(uri@, '/');
                }
                if text::same(last.as_str(), uri.as_str()) {
                    None
                } else {
                    Some(text::trim(last.as_str()))
                }
            },
        }
    }

    /// The URI as text.
    pub fn to_string(&self) -> (s: String)
        ensures
            s@ == uri_text(self.deep_view()),
    {
        match self {
            ArtifactUri::File(path) => {
                let mut s = "file://".to_owned();
                s.append(path.as_str());
                s
            },
            ArtifactUri::Http(uri) => uri.clone(),
        }
    }
}

/// An artifact resolved for one target: where to fetch it, and what it is packaged as.
#[derive(Debug, PartialEq, Eq)]
pub struct ResolvedArtifact {
    pub uri: ArtifactUri,
    /// Present when the fetched bytes are an archive rather than the file itself. Only a readable
    /// format gets this far.
    pub archive: Option<ArchiveFormat>,
}

/// What a [`ResolvedArtifact`] holds.
#[verifier::ext_equal]
pub struct ResolvedFacts {
    pub uri: UriFacts,
    pub archive: Option<FormatFacts>,
}

impl DeepView for ResolvedArtifact {
    type V = ResolvedFacts;

    open spec fn deep_view(&self) -> ResolvedFacts {
        ResolvedFacts { uri: self.uri.deep_view(), archive: self.archive.deep_view() }
    }
}

impl Clone for ResolvedArtifact {
    fn clone(&self) -> (r: Self)
        ensures
            r.deep_view() == self.deep_view(),
    {
        ResolvedArtifact { uri: self.uri.clone(), archive: self.archive.clone() }
    }
}

/// Why an artifact cannot be resolved.
#[derive(Debug, PartialEq, Eq)]
pub enum InvalidArtifactError {
    MissingScheme { id: String, component: String },
    InvalidScheme { id: String, component: String, scheme: String },
    VersionUnavailable { id: String, component: String },
    UndefinedSubstitution { id: String, component: String, substitution: &'static str },
    MissingTarget { id: String, component: String, target: String },
    UnsupportedArchiveFormat { id: String, component: String, format: String },
}

/// What an [`InvalidArtifactError`] holds.
#[verifier::ext_equal]
pub enum InvalidArtifactFacts {
    MissingScheme { id: Seq<char>, component: Seq<char> },
    InvalidScheme { id: Seq<char>, component: Seq<char>, scheme: Seq<char> },
    VersionUnavailable { id: Seq<char>, component: Seq<char> },
    UndefinedSubstitution { id: Seq<char>, component: Seq<char>, substitution: Seq<char> },
    MissingTarget { id: Seq<char>, component: Seq<char>, target: Seq<char> },
    UnsupportedArchiveFormat { id: Seq<char>, component: Seq<char>, format: Seq<char> },
}

impl DeepView for InvalidArtifactError {
    type V = InvalidArtifactFacts;

    open spec fn deep_view(&self) -> InvalidArtifactFacts {
        match self {
            InvalidArtifactError::MissingScheme { id, component } =>
                InvalidArtifactFacts::MissingScheme { id: id@, component: component@ },
            InvalidArtifactError::InvalidScheme { id, component, scheme } =>
                InvalidArtifactFacts::InvalidScheme {
                id: id@,
                component: component@,
                scheme: scheme@,
            },
            InvalidArtifactError::VersionUnavailable { id, component } =>
                InvalidArtifactFacts::VersionUnavailable { id: id@, component: component@ },
            InvalidArtifactError::UndefinedSubstitution { id, component, substitution } =>
                InvalidArtifactFacts::UndefinedSubstitution {
                id: id@,
                component: component@,
                substitution: substitution@,
            },
            InvalidArtifactError::MissingTarget { id, component, target } =>
                InvalidArtifactFacts::MissingTarget {
                id: id@,
                component: component@,
                target: target@,
            },
            InvalidArtifactError::UnsupportedArchiveFormat { id, component, format } =>
                InvalidArtifactFacts::UnsupportedArchiveFormat {
                id: id@,
                component: component@,
                format: format@,
            },
        }
    }
}

/// What went wrong with an artifact, in words.
pub open spec fn invalid_artifact_text(e: InvalidArtifactFacts) -> Seq<char> {
    match e {
        InvalidArtifactFacts::MissingScheme { id, component } =>
            "invalid artifact: no uri scheme for artifact "@ + id + " of "@ + component,
        InvalidArtifactFacts::InvalidScheme { id, component, scheme } =>
            "invalid artifact: invalid scheme for artifact "@ + id + " of "@ + component
            + ": expected file://, http://, or https://, got '"@ + scheme + "'"@,
        InvalidArtifactFacts::VersionUnavailable { id, component } =>
            "invalid artifact: %version substitution is invalid for artifact "@ + id + " of "@
            + component + ": component has no known semantic version"@,
        InvalidArtifactFacts::UndefinedSubstitution { id, component, substitution } =>
            "invalid artifact: "@ + substitution + " is not defined for artifact "@ + id + " of "@
            + component,
        InvalidArtifactFacts::MissingTarget { id, component, target } =>
            "invalid artifact: uri is missing %target substitution for artifact "@ + id + " of "@
            + component + " when target is '"@ + target + "'"@,
        InvalidArtifactFacts::UnsupportedArchiveFormat { id, component, format } =>
            "invalid artifact: artifact "@ + id + " of "@ + component + " is packaged as '"@
            + format + "', which this version of midenup cannot read"@,
    }
}

impl InvalidArtifactError {
    /// What went wrong, in words.
    pub fn to_string(&self) -> (s: String)
        ensures
            s@ == invalid_artifact_text(self.deep_view()),
    {
        match self {
            InvalidArtifactError::MissingScheme { id, component } => {
                let mut s = "invalid artifact: no uri scheme for artifact ".to_owned();
                s.append(id.as_str());
                s.append(" of ");
                s.append(component.as_str());
                s
            },
            InvalidArtifactError::InvalidScheme { id, component, scheme } => {
                let mut s = "invalid artifact: invalid scheme for artifact ".to_owned();
                s.append(id.as_str());
                s.append(" of ");
                s.append(component.as_str());
                s.append(": expected file://, http://, or https://, got '");
                s.append(scheme.as_str());
                s.append("'");
                s
            },
            InvalidArtifactError::VersionUnavailable { id, component } => {
                let mut s =
                    "invalid artifact: %version substitution is invalid for artifact ".to_owned();
                s.append(id.as_str());
                s.append(" of ");
                s.append(component.as_str());
                s.append(": component has no known semantic version");
                s
            },
            InvalidArtifactError::UndefinedSubstitution { id, component, substitution } => {
                let mut s = "invalid artifact: ".to_owned();
                s.append(substitution);
                s.append(" is not defined for artifact ");
                s.append(id.as_str());
                s.append(" of ");
                s.append(component.as_str());
                s
            },
            InvalidArtifactError::MissingTarget { id, component, target } => {
                let mut s =
                    "invalid artifact: uri is missing %target substitution for artifact ".to_owned();
                s.append(id.as_str());
                s.append(" of ");
                s.append(component.as_str());
                s.append(" when target is '");
                s.append(target.as_str());
                s.append("'");
                s
            },
            InvalidArtifactError::UnsupportedArchiveFormat { id, component, format } => {
                let mut s = "invalid artifact: artifact ".to_owned();
                s.append(id.as_str());
                s.append(" of ");
                s.append(component.as_str());
                s.append(" is packaged as '");
                s.append(format.as_str());
                s.append("', which this version of midenup cannot read");
                s
            },
        }
    }
}

/// All the artifacts that a component declares, by the filename they are installed as.
#[derive(Debug, PartialEq, Eq, Hash)]
pub struct Artifacts {
    pub artifacts: SortedMap<Artifact>,
}

impl DeepView for Artifacts {
    type V = Seq<(Seq<char>, ArtifactFacts)>;

    open spec fn deep_view(&self) -> Seq<(Seq<char>, ArtifactFacts)> {
        self.artifacts.deep_view()
    }
}

impl Clone for Artifacts {
    fn clone(&self) -> (r: Self)
        ensures
            r.deep_view() == self.deep_view(),
    {
        let artifacts = self.artifacts.clone();
        proof {
            assert forall|i: int| 0 <= i < artifacts@.len() implies artifacts.deep_view()[i]
                == self.artifacts.deep_view()[i] by {
                assert(artifacts@[i].0 == self.artifacts@[i].0);
                assert(cloned(self.artifacts@[i].1, artifacts@[i].1));
            }
            assert(artifacts.deep_view() =~= self.artifacts.deep_view());
        }
        Artifacts { artifacts }
    }
}

impl Default for Artifacts {
    fn default() -> (r: Self)
        ensures
            r.deep_view() == Seq::<(Seq<char>, ArtifactFacts)>::empty(),
    {
        let r = Artifacts { artifacts: SortedMap::new() };
        assert(r.deep_view() =~= Seq::<(Seq<char>, ArtifactFacts)>::empty());
        r
    }
}

} // verus!
