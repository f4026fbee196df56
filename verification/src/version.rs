//! Versions, and the authorities that components take theirs from.

use vstd::prelude::*;

use crate::path;
use crate::text;

verus! {

/// Whether a text is a semantic version.
pub uninterp spec fn is_version(text: Seq<char>) -> bool;

/// Whether one semantic version comes before another.
pub uninterp spec fn version_precedes(a: Seq<char>, b: Seq<char>) -> bool;

/// `semver::Version::parse`: whether the text is a semantic version. An empty text is none.
#[verifier::external_body]
fn parses(text: &str) -> (r: bool)
    ensures
        r == is_version(text@),
        r ==> text@.len() > 0,
{
    semver::Version::parse(text).is_ok()
}

/// `semver::Version::new`, as `semver` writes it: the three numbers in decimal with dots between
/// them, which is a semantic version.
#[verifier::external_body]
fn written_release(major: u64, minor: u64, patch: u64) -> (s: String)
    ensures
        s@ == release(major, minor, patch),
        is_version(s@),
{
    semver::Version::new(major, minor, patch).to_string()
}

/// Whether one release comes before another: by its numbers, the first that differs deciding.
pub open spec fn release_precedes(a: (u64, u64, u64), b: (u64, u64, u64)) -> bool {
    a.0 < b.0 || a.0 == b.0 && (a.1 < b.1 || a.1 == b.1 && a.2 < b.2)
}

/// `semver::Version`'s order: whether `a` is smaller than `b`. No version is smaller than itself, and
/// releases are ordered by their numbers. How pre-releases and build metadata are ordered is not
/// stated here.
#[verifier::external_body]
fn comes_before(a: &str, b: &str) -> (r: bool)
    requires
        is_version(a@),
        is_version(b@),
    ensures
        r == version_precedes(a@, b@),
        r ==> a@ != b@,
        forall|i: u64, j: u64, k: u64, l: u64, m: u64, n: u64|
            a@ == #[trigger] release(i, j, k) && b@ == #[trigger] release(l, m, n) ==> r
                == release_precedes((i, j, k), (l, m, n)),
{
    semver::Version::parse(a).unwrap() < semver::Version::parse(b).unwrap()
}

/// The version `major.minor.patch`.
pub open spec fn release(major: u64, minor: u64, patch: u64) -> Seq<char> {
    text::decimal(major as nat) + "."@ + text::decimal(minor as nat) + "."@ + text::decimal(
        patch as nat,
    )
}

/// A semantic version, kept as it is written.
#[derive(Debug, PartialEq, Eq, Hash)]
pub struct Version {
    text: String,
}

impl View for Version {
    type V = Seq<char>;

    closed spec fn view(&self) -> Seq<char> {
        self.text@
    }
}

impl DeepView for Version {
    type V = Seq<char>;

    open spec fn deep_view(&self) -> Seq<char> {
        self@
    }
}

impl Clone for Version {
    fn clone(&self) -> (r: Self)
        ensures
            r == *self,
    {
        proof {
            use_type_invariant(self);
        }
        Version { text: self.text.clone() }
    }
}

impl Version {
    #[verifier::type_invariant]
    spec fn is_semantic(self) -> bool {
        is_version(self.text@) && self.text@.len() > 0
    }

    /// The version `major.minor.patch`.
    pub fn new(major: u64, minor: u64, patch: u64) -> (r: Self)
        ensures
            r@ == release(major, minor, patch),
    {
        let text = written_release(major, minor, patch);
        proof {
            reveal_strlit(".");
            assert(text@.len() >= "."@.len());
        }
        Version { text }
    }

    /// Reads a version.
    pub fn parse(raw: &str) -> (r: Option<Self>)
        ensures
            r is Some <==> is_version(raw@),
            r matches Some(version) ==> version@ == raw@,
    {
        if parses(raw) {
            Some(Version { text: raw.to_owned() })
        } else {
            None
        }
    }

    /// The version as text.
    pub fn as_str(&self) -> (s: &str)
        ensures
            s@ == self@,
            s@.len() > 0,
            is_version(s@),
    {
        proof {
            use_type_invariant(self);
        }
        self.text.as_str()
    }

    /// The version as text.
    pub fn to_string(&self) -> (s: String)
        ensures
            s@ == self@,
    {
        self.text.clone()
    }

    /// Whether two versions are the same.
    pub fn same(&self, other: &Version) -> (r: bool)
        ensures
            r == (self@ == other@),
    {
        self.text == other.text
    }

    /// Whether this version comes before `other`.
    pub fn precedes(&self, other: &Version) -> (r: bool)
        ensures
            r == version_precedes(self@, other@),
            r ==> self@ != other@,
            forall|i: u64, j: u64, k: u64, l: u64, m: u64, n: u64|
                self@ == #[trigger] release(i, j, k) && other@ == #[trigger] release(l, m, n) ==> r
                    == release_precedes((i, j, k), (l, m, n)),
    {
        comes_before(self.as_str(), other.as_str())
    }
}

/// What a git authority names.
#[derive(Debug, PartialEq, Eq, Hash)]
pub enum GitTarget {
    Branch { name: String, latest_revision: Option<String> },
    Revision { hash: String },
    Tag { name: String },
}

/// What a [`GitTarget`] holds.
#[verifier::ext_equal]
pub enum GitTargetFacts {
    Branch { name: Seq<char>, latest_revision: Option<Seq<char>> },
    Revision { hash: Seq<char> },
    Tag { name: Seq<char> },
}

impl DeepView for GitTarget {
    type V = GitTargetFacts;

    open spec fn deep_view(&self) -> GitTargetFacts {
        match self {
            GitTarget::Branch { name, latest_revision } => GitTargetFacts::Branch {
                name: name@,
                latest_revision: latest_revision.deep_view(),
            },
            GitTarget::Revision { hash } => GitTargetFacts::Revision { hash: hash@ },
            GitTarget::Tag { name } => GitTargetFacts::Tag { name: name@ },
        }
    }
}

impl GitTarget {
    /// Whether two targets are the same.
    pub fn same(&self, other: &GitTarget) -> (r: bool)
        ensures
            r == (self.deep_view() == other.deep_view()),
    {
        match (self, other) {
            (
                GitTarget::Branch { name: n, latest_revision: x },
                GitTarget::Branch { name: m, latest_revision: y },
            ) => *n == *m && text::same_option(x, y),
            (GitTarget::Revision { hash: x }, GitTarget::Revision { hash: y }) => *x == *y,
            (GitTarget::Tag { name: x }, GitTarget::Tag { name: y }) => *x == *y,
            _ => false,
        }
    }
}

impl Clone for GitTarget {
    fn clone(&self) -> (r: Self)
        ensures
            r.deep_view() == self.deep_view(),
    {
        match self {
            GitTarget::Branch { name, latest_revision } => GitTarget::Branch {
                name: name.clone(),
                latest_revision: latest_revision.clone(),
            },
            GitTarget::Revision { hash } => GitTarget::Revision { hash: hash.clone() },
            GitTarget::Tag { name } => GitTarget::Tag { name: name.clone() },
        }
    }
}

/// The versioning authority of a component.
#[derive(Debug)]
pub enum Authority {
    /// A version published in a crate registry.
    Registry { version: Version },
    /// A git repository, and what in it.
    Git { repository_url: String, subpath: Option<String>, target: GitTarget },
    /// A local directory. The modification time is in nanoseconds since the Unix epoch.
    Path { path: String, last_modification: Option<i128> },
}

/// What an [`Authority`] holds.
#[verifier::ext_equal]
pub enum AuthorityFacts {
    Registry { version: Seq<char> },
    Git { repository_url: Seq<char>, subpath: Option<Seq<char>>, target: GitTargetFacts },
    Path { path: Seq<char>, last_modification: Option<i128> },
}

impl DeepView for Authority {
    type V = AuthorityFacts;

    open spec fn deep_view(&self) -> AuthorityFacts {
        match self {
            Authority::Registry { version } => AuthorityFacts::Registry { version: version@ },
            Authority::Git { repository_url, subpath, target } => AuthorityFacts::Git {
                repository_url: repository_url@,
                subpath: subpath.deep_view(),
                target: target.deep_view(),
            },
            Authority::Path { path, last_modification } => AuthorityFacts::Path {
                path: path@,
                last_modification: *last_modification,
            },
        }
    }
}

/// Whether two modification times are the same.
pub fn same_time(a: &Option<i128>, b: &Option<i128>) -> (r: bool)
    ensures
        r == (*a == *b),
{
    match (a, b) {
        (Some(a), Some(b)) => *a == *b,
        (None, None) => true,
        _ => false,
    }
}

/// Whether two authorities are the same. Paths are compared component by component.
pub open spec fn authorities_alike(a: AuthorityFacts, b: AuthorityFacts) -> bool {
    match (a, b) {
        (
            AuthorityFacts::Path { path: p, last_modification: x },
            AuthorityFacts::Path { path: q, last_modification: y },
        ) => path::same_place(p, q) && x == y,
        _ => a == b,
    }
}

impl PartialEq for Authority {
    fn eq(&self, other: &Self) -> (r: bool) {
        match (self, other) {
            (Authority::Registry { version: x }, Authority::Registry { version: y }) => x.same(y),
            (
                Authority::Git { repository_url: u, subpath: s, target: x },
                Authority::Git { repository_url: v, subpath: t, target: y },
            ) => *u == *v && text::same_option(s, t) && x.same(y),
            (
                Authority::Path { path: p, last_modification: x },
                Authority::Path { path: q, last_modification: y },
            ) => path::same(p.as_str(), q.as_str()) && same_time(x, y),
            _ => false,
        }
    }
}

impl vstd::std_specs::cmp::PartialEqSpecImpl for Authority {
    open spec fn obeys_eq_spec() -> bool {
        true
    }

    open spec fn eq_spec(&self, other: &Self) -> bool {
        authorities_alike(self.deep_view(), other.deep_view())
    }
}

impl Eq for Authority {

}

impl core::hash::Hash for Authority {
    /// Adds nothing: paths that are equal may be spelled in several ways.
    fn hash<H: core::hash::Hasher>(&self, _state: &mut H) {
    }
}

impl Clone for Authority {
    fn clone(&self) -> (r: Self)
        ensures
            r.deep_view() == self.deep_view(),
    {
        match self {
            Authority::Registry { version } => Authority::Registry { version: version.clone() },
            Authority::Git { repository_url, subpath, target } => Authority::Git {
                repository_url: repository_url.clone(),
                subpath: subpath.clone(),
                target: target.clone(),
            },
            Authority::Path { path, last_modification } => Authority::Path {
                path: path.clone(),
                last_modification: *last_modification,
            },
        }
    }
}

} // verus!
