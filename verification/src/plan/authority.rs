//! Authorities that no longer move.

use vstd::prelude::*;

use crate::path;
use crate::text;
use crate::version;
use crate::version::Version;

verus! {

/// An authority pinned for one installation: a branch is reduced to a commit, a directory to its
/// canonical path and the latest modification below it.
#[derive(Debug)]
pub enum ResolvedAuthority {
    Registry { version: Version },
    Git { url: String, revision: String, subpath: Option<String> },
    /// The modification time is in nanoseconds since the Unix epoch.
    Path { canonical: String, mtime: Option<i128> },
}

/// What a [`ResolvedAuthority`] holds.
#[verifier::ext_equal]
pub enum PinnedFacts {
    Registry { version: Seq<char> },
    Git { url: Seq<char>, revision: Seq<char>, subpath: Option<Seq<char>> },
    Path { canonical: Seq<char>, mtime: Option<i128> },
}

impl DeepView for ResolvedAuthority {
    type V = PinnedFacts;

    open spec fn deep_view(&self) -> PinnedFacts {
        match self {
            ResolvedAuthority::Registry { version } => PinnedFacts::Registry { version: version@ },
            ResolvedAuthority::Git { url, revision, subpath } => PinnedFacts::Git {
                url: url@,
                revision: revision@,
                subpath: subpath.deep_view(),
            },
            ResolvedAuthority::Path { canonical, mtime } => PinnedFacts::Path {
                canonical: canonical@,
                mtime: *mtime,
            },
        }
    }
}

/// Whether two pinned authorities are the same. Paths are compared component by component.
pub open spec fn pins_alike(a: PinnedFacts, b: PinnedFacts) -> bool {
    match (a, b) {
        (
            PinnedFacts::Path { canonical: x, mtime: s },
            PinnedFacts::Path { canonical: y, mtime: t },
        ) => path::same_place(x, y) && s == t,
        _ => a == b,
    }
}

impl PartialEq for ResolvedAuthority {
    fn eq(&self, other: &Self) -> (r: bool) {
        match (self, other) {
            (
                ResolvedAuthority::Registry { version: x },
                ResolvedAuthority::Registry { version: y },
            ) => x.same(y),
            (
                ResolvedAuthority::Git { url: u, revision: x, subpath: s },
                ResolvedAuthority::Git { url: v, revision: y, subpath: t },
            ) => *u == *v && *x == *y && text::same_option(s, t),
            (
                ResolvedAuthority::Path { canonical: x, mtime: s },
                ResolvedAuthority::Path { canonical: y, mtime: t },
            ) => path::same(x.as_str(), y.as_str()) && version::same_time(s, t),
            _ => false,
        }
    }
}

impl vstd::std_specs::cmp::PartialEqSpecImpl for ResolvedAuthority {
    open spec fn obeys_eq_spec() -> bool {
        true
    }

    open spec fn eq_spec(&self, other: &Self) -> bool {
        pins_alike(self.deep_view(), other.deep_view())
    }
}

impl Eq for ResolvedAuthority {

}

impl Clone for ResolvedAuthority {
    fn clone(&self) -> (r: Self)
        ensures
            r.deep_view() == self.deep_view(),
    {
        match self {
            ResolvedAuthority::Registry { version } => ResolvedAuthority::Registry {
                version: version.clone(),
            },
            ResolvedAuthority::Git { url, revision, subpath } => ResolvedAuthority::Git {
                url: url.clone(),
                revision: revision.clone(),
                subpath: subpath.clone(),
            },
            ResolvedAuthority::Path { canonical, mtime } => ResolvedAuthority::Path {
                canonical: canonical.clone(),
                mtime: *mtime,
            },
        }
    }
}

/// The text that identifies a pinned authority in a plan key.
pub open spec fn identity(a: PinnedFacts) -> Seq<char> {
    match a {
        PinnedFacts::Registry { version } => "registry:"@ + version,
        PinnedFacts::Git { url, revision, subpath } => {
            let at = "git:"@ + url + "@"@ + revision;
            match subpath {
                Some(subpath) => at + ":"@ + subpath,
                None => at,
            }
        },
        PinnedFacts::Path { canonical, mtime } => {
            let at = "path:"@ + canonical;
            match mtime {
                Some(mtime) => at + "@"@ + text::signed_decimal(mtime as int),
                None => at,
            }
        },
    }
}

impl ResolvedAuthority {
    /// The text that identifies this authority in a plan key.
    pub fn identity(&self) -> (s: String)
        ensures
            s@ == identity(self.deep_view()),
    {
        match self {
            ResolvedAuthority::Registry { version } => {
                let mut s = "registry:".to_owned();
                s.append(version.as_str());
                s
            },
            ResolvedAuthority::Git { url, revision, subpath } => {
                let mut s = "git:".to_owned();
                s.append(url.as_str());
                s.append("@");
                s.append(revision.as_str());
                if let Some(subpath) = subpath {
                    s.append(":");
                    s.append(subpath.as_str());
                }
                s
            },
            ResolvedAuthority::Path { canonical, mtime } => {
                let mut s = "path:".to_owned();
                s.append(canonical.as_str());
                if let Some(mtime) = mtime {
                    s.append("@");
                    s.append(text::signed_number(*mtime).as_str());
                }
                s
            },
        }
    }
}

/// Why an authority could not be pinned, in words.
#[derive(Debug, PartialEq, Eq)]
pub struct PinError {
    pub message: String,
}

impl View for PinError {
    type V = Seq<char>;

    open spec fn view(&self) -> Seq<char> {
        self.message@
    }
}

impl Clone for PinError {
    fn clone(&self) -> (r: Self)
        ensures
            r@ == self@,
    {
        PinError { message: self.message.clone() }
    }
}

/// What became of pinning an authority.
pub open spec fn pinned(r: Result<ResolvedAuthority, PinError>) -> Result<PinnedFacts, Seq<char>> {
    match r {
        Ok(authority) => Ok(authority.deep_view()),
        Err(e) => Err(e@),
    }
}

} // verus!
