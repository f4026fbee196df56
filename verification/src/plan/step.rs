//! The steps of an installation.

use vstd::prelude::*;

use crate::artifact;
use crate::artifact::{ArchiveFormat, Digest, DigestFacts, FormatFacts};
use crate::path;
use crate::plan::authority;
use crate::plan::authority::{PinnedFacts, ResolvedAuthority};
use crate::plan::destination;
use crate::text;

verus! {

/// An `opt/` shim: `opt/<name>` pointing at `bin/<target_binary>`.
#[derive(Debug, PartialEq, Eq)]
pub struct SymlinkSpec {
    pub name: String,
    pub target_binary: String,
}

impl DeepView for SymlinkSpec {
    type V = (Seq<char>, Seq<char>);

    open spec fn deep_view(&self) -> (Seq<char>, Seq<char>) {
        (self.name@, self.target_binary@)
    }
}

impl Clone for SymlinkSpec {
    fn clone(&self) -> (r: Self)
        ensures
            r.deep_view() == self.deep_view(),
    {
        SymlinkSpec { name: self.name.clone(), target_binary: self.target_binary.clone() }
    }
}

/// One thing the executor must do. Every path is final.
#[derive(Debug)]
pub enum PlanStep {
    /// Fetch over HTTP(S).
    Download {
        uri: String,
        dest: String,
        mode: u32,
        owner: String,
        /// Recorded in the receipt, never verified.
        digest: Option<Digest>,
        /// Set when the fetched bytes are an archive to unpack the artifact from.
        archive: Option<ArchiveFormat>,
        /// What to do instead if the transfer fails.
        fallback: Option<Box<PlanStep>>,
    },
    /// Copy from the local filesystem.
    CopyLocal {
        src: String,
        dest: String,
        mode: u32,
        owner: String,
        archive: Option<ArchiveFormat>,
        fallback: Option<Box<PlanStep>>,
    },
    /// Build with `cargo install`.
    CargoBuild {
        crate_name: String,
        authority: ResolvedAuthority,
        features: Vec<String>,
        rustup_channel: Option<String>,
        /// The binary the build must produce.
        expect_binary: String,
        dest: String,
        owner: String,
    },
    /// Extract a Miden package from a Rust crate.
    ExtractPackage {
        crate_name: String,
        authority: ResolvedAuthority,
        features: Vec<String>,
        extractor: String,
        dest: String,
        owner: String,
    },
}

/// What a [`PlanStep`] holds.
#[verifier::ext_equal]
pub enum StepFacts {
    Download {
        uri: Seq<char>,
        dest: Seq<char>,
        mode: u32,
        owner: Seq<char>,
        digest: Option<DigestFacts>,
        archive: Option<FormatFacts>,
        fallback: Option<Box<StepFacts>>,
    },
    CopyLocal {
        src: Seq<char>,
        dest: Seq<char>,
        mode: u32,
        owner: Seq<char>,
        archive: Option<FormatFacts>,
        fallback: Option<Box<StepFacts>>,
    },
    CargoBuild {
        crate_name: Seq<char>,
        authority: PinnedFacts,
        features: Seq<Seq<char>>,
        rustup_channel: Option<Seq<char>>,
        expect_binary: Seq<char>,
        dest: Seq<char>,
        owner: Seq<char>,
    },
    ExtractPackage {
        crate_name: Seq<char>,
        authority: PinnedFacts,
        features: Seq<Seq<char>>,
        extractor: Seq<char>,
        dest: Seq<char>,
        owner: Seq<char>,
    },
}

impl PlanStep {
    /// What this step holds.
    pub open spec fn facts(self) -> StepFacts
        decreases self,
    {
        match self {
            PlanStep::Download { uri, dest, mode, owner, digest, archive, fallback } =>
                StepFacts::Download {
                uri: uri@,
                dest: dest@,
                mode,
                owner: owner@,
                digest: digest.deep_view(),
                archive: archive.deep_view(),
                fallback: match fallback {
                    Some(step) => Some(Box::new((*step).facts())),
                    None => None,
                },
            },
            PlanStep::CopyLocal { src, dest, mode, owner, archive, fallback } =>
                StepFacts::CopyLocal {
                src: src@,
                dest: dest@,
                mode,
                owner: owner@,
                archive: archive.deep_view(),
                fallback: match fallback {
                    Some(step) => Some(Box::new((*step).facts())),
                    None => None,
                },
            },
            PlanStep::CargoBuild {
                crate_name,
                authority,
                features,
                rustup_channel,
                expect_binary,
                dest,
                owner,
            } => StepFacts::CargoBuild {
                crate_name: crate_name@,
                authority: authority.deep_view(),
                features: features.deep_view(),
                rustup_channel: rustup_channel.deep_view(),
                expect_binary: expect_binary@,
                dest: dest@,
                owner: owner@,
            },
            PlanStep::ExtractPackage { crate_name, authority, features, extractor, dest, owner } =>
                StepFacts::ExtractPackage {
                crate_name: crate_name@,
                authority: authority.deep_view(),
                features: features.deep_view(),
                extractor: extractor@,
                dest: dest@,
                owner: owner@,
            },
        }
    }
}

impl DeepView for PlanStep {
    type V = StepFacts;

    open spec fn deep_view(&self) -> StepFacts {
        self.facts()
    }
}

/// Whether two steps are the same. Paths are compared component by component.
pub open spec fn steps_alike(a: StepFacts, b: StepFacts) -> bool
    decreases a,
{
    match (a, b) {
        (
            StepFacts::Download {
                uri: u,
                dest: p,
                mode: m,
                owner: o,
                digest: d,
                archive: x,
                fallback: f,
            },
            StepFacts::Download {
                uri: v,
                dest: q,
                mode: n,
                owner: w,
                digest: e,
                archive: y,
                fallback: g,
            },
        ) => {
            &&& u == v
            &&& path::same_place(p, q)
            &&& m == n
            &&& o == w
            &&& d == e
            &&& x == y
            &&& match (f, g) {
                (Some(f), Some(g)) => steps_alike(*f, *g),
                (None, None) => true,
                _ => false,
            }
        },
        (
            StepFacts::CopyLocal { src: s, dest: p, mode: m, owner: o, archive: x, fallback: f },
            StepFacts::CopyLocal { src: t, dest: q, mode: n, owner: w, archive: y, fallback: g },
        ) => {
            &&& path::same_place(s, t)
            &&& path::same_place(p, q)
            &&& m == n
            &&& o == w
            &&& x == y
            &&& match (f, g) {
                (Some(f), Some(g)) => steps_alike(*f, *g),
                (None, None) => true,
                _ => false,
            }
        },
        (
            StepFacts::CargoBuild { authority: s, dest: p, .. },
            StepFacts::CargoBuild { authority: t, dest: q, .. },
        ) => authority::pins_alike(s, t) && path::same_place(p, q) && a->CargoBuild_crate_name
            == b->CargoBuild_crate_name && a->CargoBuild_features == b->CargoBuild_features
            && a->rustup_channel == b->rustup_channel && a->expect_binary == b->expect_binary
            && a.owner() == b.owner(),
        (
            StepFacts::ExtractPackage { authority: s, dest: p, .. },
            StepFacts::ExtractPackage { authority: t, dest: q, .. },
        ) => authority::pins_alike(s, t) && path::same_place(p, q) && a->ExtractPackage_crate_name
            == b->ExtractPackage_crate_name && a->ExtractPackage_features
            == b->ExtractPackage_features && a->extractor == b->extractor && a.owner() == b.owner(),
        _ => false,
    }
}

fn same_fallback(a: &Option<Box<PlanStep>>, b: &Option<Box<PlanStep>>) -> (r: bool)
    ensures
        r == (match (*a, *b) {
            (Some(a), Some(b)) => steps_alike(a.facts(), b.facts()),
            (None, None) => true,
            _ => false,
        }),
    decreases a,
{
    match (a, b) {
        (Some(a), Some(b)) => a.same(b),
        (None, None) => true,
        _ => false,
    }
}

impl PlanStep {
    /// Whether two steps are the same.
    fn same(&self, other: &PlanStep) -> (r: bool)
        ensures
            r == steps_alike(self.facts(), other.facts()),
        decreases self,
    {
        match (self, other) {
            (
                PlanStep::Download {
                    uri: u,
                    dest: p,
                    mode: m,
                    owner: o,
                    digest: d,
                    archive: x,
                    fallback: f,
                },
                PlanStep::Download {
                    uri: v,
                    dest: q,
                    mode: n,
                    owner: w,
                    digest: e,
                    archive: y,
                    fallback: g,
                },
            ) => *u == *v && path::same(p.as_str(), q.as_str()) && *m == *n && *o == *w
                && artifact::same_digest(d, e) && artifact::same_format(x, y) && same_fallback(f, g),
            (
                PlanStep::CopyLocal { src: s, dest: p, mode: m, owner: o, archive: x, fallback: f },
                PlanStep::CopyLocal { src: t, dest: q, mode: n, owner: w, archive: y, fallback: g },
            ) => path::same(s.as_str(), t.as_str()) && path::same(p.as_str(), q.as_str()) && *m == *n
                && *o == *w && artifact::same_format(x, y) && same_fallback(f, g),
            (
                PlanStep::CargoBuild {
                    crate_name: c,
                    authority: s,
                    features: f,
                    rustup_channel: x,
                    expect_binary: k,
                    dest: p,
                    owner: o,
                },
                PlanStep::CargoBuild {
                    crate_name: d,
                    authority: t,
                    features: g,
                    rustup_channel: y,
                    expect_binary: l,
                    dest: q,
                    owner: w,
                },
            ) => *c == *d && *s == *t && text::same_all(f, g) && text::same_option(x, y) && *k == *l
                && path::same(p.as_str(), q.as_str()) && *o == *w,
            (
                PlanStep::ExtractPackage {
                    crate_name: c,
                    authority: s,
                    features: f,
                    extractor: x,
                    dest: p,
                    owner: o,
                },
                PlanStep::ExtractPackage {
                    crate_name: d,
                    authority: t,
                    features: g,
                    extractor: y,
                    dest: q,
                    owner: w,
                },
            ) => *c == *d && *s == *t && text::same_all(f, g) && *x == *y && path::same(
                p.as_str(),
                q.as_str(),
            ) && *o == *w,
            _ => false,
        }
    }
}

impl PartialEq for PlanStep {
    fn eq(&self, other: &Self) -> (r: bool) {
        self.same(other)
    }
}

impl vstd::std_specs::cmp::PartialEqSpecImpl for PlanStep {
    open spec fn obeys_eq_spec() -> bool {
        true
    }

    open spec fn eq_spec(&self, other: &Self) -> bool {
        steps_alike(self.facts(), other.facts())
    }
}

impl Eq for PlanStep {

}

impl StepFacts {
    /// The component that the step installs for.
    pub open spec fn owner(self) -> Seq<char> {
        match self {
            StepFacts::Download { owner, .. } => owner,
            StepFacts::CopyLocal { owner, .. } => owner,
            StepFacts::CargoBuild { owner, .. } => owner,
            StepFacts::ExtractPackage { owner, .. } => owner,
        }
    }

    /// The path that the step produces.
    pub open spec fn dest(self) -> Seq<char> {
        match self {
            StepFacts::Download { dest, .. } => dest,
            StepFacts::CopyLocal { dest, .. } => dest,
            StepFacts::CargoBuild { dest, .. } => dest,
            StepFacts::ExtractPackage { dest, .. } => dest,
        }
    }

    /// The source that the step builds from.
    pub open spec fn authority(self) -> Option<PinnedFacts> {
        match self {
            StepFacts::CargoBuild { authority, .. } => Some(authority),
            StepFacts::ExtractPackage { authority, .. } => Some(authority),
            _ => None,
        }
    }

    /// The step to run instead if this one fails.
    pub open spec fn fallback(self) -> Option<StepFacts> {
        match self {
            StepFacts::Download { fallback, .. } => match fallback {
                Some(step) => Some(*step),
                None => None,
            },
            StepFacts::CopyLocal { fallback, .. } => match fallback {
                Some(step) => Some(*step),
                None => None,
            },
            _ => None,
        }
    }

    /// The mode that the produced file must end up with.
    pub open spec fn mode(self) -> u32 {
        match self {
            StepFacts::Download { mode, .. } => mode,
            StepFacts::CopyLocal { mode, .. } => mode,
            StepFacts::CargoBuild { .. } => destination::MODE_EXECUTABLE,
            StepFacts::ExtractPackage { .. } => destination::MODE_DATA,
        }
    }
}

impl PlanStep {
    /// The component this step installs for.
    pub fn owner(&self) -> (r: &str)
        ensures
            r@ == self.deep_view().owner(),
    {
        match self {
            PlanStep::Download { owner, .. } => owner.as_str(),
            PlanStep::CopyLocal { owner, .. } => owner.as_str(),
            PlanStep::CargoBuild { owner, .. } => owner.as_str(),
            PlanStep::ExtractPackage { owner, .. } => owner.as_str(),
        }
    }

    /// The exact path this step produces.
    pub fn dest(&self) -> (r: &str)
        ensures
            r@ == self.deep_view().dest(),
    {
        match self {
            PlanStep::Download { dest, .. } => dest.as_str(),
            PlanStep::CopyLocal { dest, .. } => dest.as_str(),
            PlanStep::CargoBuild { dest, .. } => dest.as_str(),
            PlanStep::ExtractPackage { dest, .. } => dest.as_str(),
        }
    }

    /// The source this step builds from, for steps that build.
    pub fn authority(&self) -> (r: Option<&ResolvedAuthority>)
        ensures
            r.deep_view() == self.deep_view().authority(),
    {
        match self {
            PlanStep::CargoBuild { authority, .. } => Some(authority),
            PlanStep::ExtractPackage { authority, .. } => Some(authority),
            PlanStep::Download { .. } => None,
            PlanStep::CopyLocal { .. } => None,
        }
    }

    /// The step to run instead if this one fails, if any.
    pub fn fallback(&self) -> (r: Option<&PlanStep>)
        ensures
            r.deep_view() == self.deep_view().fallback(),
    {
        match self {
            PlanStep::Download { fallback, .. } => match fallback {
                Some(step) => Some(&**step),
                None => None,
            },
            PlanStep::CopyLocal { fallback, .. } => match fallback {
                Some(step) => Some(&**step),
                None => None,
            },
            PlanStep::CargoBuild { .. } => None,
            PlanStep::ExtractPackage { .. } => None,
        }
    }

    /// The mode the produced file must end up with.
    pub fn mode(&self) -> (r: u32)
        ensures
            r == self.deep_view().mode(),
    {
        match self {
            PlanStep::Download { mode, .. } => *mode,
            PlanStep::CopyLocal { mode, .. } => *mode,
            // Anything Cargo produces is a program.
            PlanStep::CargoBuild { .. } => destination::MODE_EXECUTABLE,
            PlanStep::ExtractPackage { .. } => destination::MODE_DATA,
        }
    }
}

} // verus!
