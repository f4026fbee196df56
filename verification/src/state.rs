//! What is recorded of an installation.

use vstd::prelude::*;

use crate::artifact;
use crate::artifact::{Digest, DigestFacts};
use crate::manifest;
use crate::manifest::{Component, ComponentFacts};
use crate::path;
use crate::plan::key::PlanKey;
use crate::resolve::{Intent, IntentFacts};
use crate::version::Version;

verus! {

/// How an installed file was actually produced.
#[derive(Debug, Clone, Copy, PartialEq, Eq, Structural)]
pub enum RealizedMethod {
    Prebuilt,
    Cargo,
    Extracted,
}

impl DeepView for RealizedMethod {
    type V = RealizedMethod;

    open spec fn deep_view(&self) -> RealizedMethod {
        *self
    }
}

/// A file that an installation owns.
#[derive(Debug)]
pub struct Output {
    /// Relative to the publication.
    pub path: String,
    /// The component that it was installed for.
    pub owner: String,
    pub mode: u32,
    pub realized: RealizedMethod,
    pub digest: Option<Digest>,
}

/// What an [`Output`] holds.
#[verifier::ext_equal]
pub struct OutputFacts {
    pub path: Seq<char>,
    pub owner: Seq<char>,
    pub mode: u32,
    pub realized: RealizedMethod,
    pub digest: Option<DigestFacts>,
}

impl DeepView for Output {
    type V = OutputFacts;

    open spec fn deep_view(&self) -> OutputFacts {
        OutputFacts {
            path: self.path@,
            owner: self.owner@,
            mode: self.mode,
            realized: self.realized,
            digest: self.digest.deep_view(),
        }
    }
}

/// Whether two outputs are the same. Paths are compared component by component.
pub open spec fn outputs_alike(a: OutputFacts, b: OutputFacts) -> bool {
    path::same_place(a.path, b.path) && a == (OutputFacts { path: a.path, ..b })
}

impl PartialEq for Output {
    fn eq(&self, other: &Self) -> (r: bool) {
        path::same(self.path.as_str(), other.path.as_str()) && self.owner == other.owner && self.mode
            == other.mode && self.realized == other.realized && artifact::same_digest(
            &self.digest,
            &other.digest,
        )
    }
}

impl vstd::std_specs::cmp::PartialEqSpecImpl for Output {
    open spec fn obeys_eq_spec() -> bool {
        true
    }

    open spec fn eq_spec(&self, other: &Self) -> bool {
        outputs_alike(self.deep_view(), other.deep_view())
    }
}

impl Eq for Output {

}

/// What a publication owns, and what it was made from.
#[derive(Debug, PartialEq, Eq)]
pub struct Receipt {
    pub publication_id: String,
    pub plan_key: PlanKey,
    pub target: String,
    pub channel: Version,
    pub outputs: Vec<Output>,
}

/// An installed channel.
#[derive(Debug, PartialEq, Eq)]
pub struct Installation {
    pub channel: Version,
    /// What the user asked for.
    pub intent: Intent,
    /// What is installed, as it was declared when it was.
    pub components: Vec<Component>,
}

/// What an [`Installation`] holds.
#[verifier::ext_equal]
pub struct InstallationFacts {
    pub channel: Seq<char>,
    pub intent: IntentFacts,
    pub components: Seq<ComponentFacts>,
}

impl DeepView for Installation {
    type V = InstallationFacts;

    open spec fn deep_view(&self) -> InstallationFacts {
        InstallationFacts {
            channel: self.channel@,
            intent: self.intent.deep_view(),
            components: self.components.deep_view(),
        }
    }
}

impl Clone for Installation {
    fn clone(&self) -> (r: Self)
        ensures
            r.deep_view() == self.deep_view(),
    {
        Installation {
            channel: self.channel.clone(),
            intent: self.intent.clone(),
            components: manifest::copy_components(&self.components),
        }
    }
}

/// Everything that is installed.
#[derive(Debug, PartialEq, Eq)]
pub struct LocalState {
    pub installations: Vec<Installation>,
}

impl DeepView for LocalState {
    type V = Seq<InstallationFacts>;

    open spec fn deep_view(&self) -> Seq<InstallationFacts> {
        self.installations.deep_view()
    }
}

/// Whether position `i` holds the installation of a channel.
pub open spec fn installed_at(state: Seq<InstallationFacts>, channel: Seq<char>, i: int) -> bool {
    &&& 0 <= i < state.len()
    &&& state[i].channel == channel
    &&& forall|j: int| 0 <= j < i ==> (#[trigger] state[j]).channel != channel
}

/// Whether a channel is installed.
pub open spec fn is_installed(state: Seq<InstallationFacts>, channel: Seq<char>) -> bool {
    exists|i: int| installed_at(state, channel, i)
}

/// The installation of a channel.
pub open spec fn installation_of(state: Seq<InstallationFacts>, channel: Seq<char>) -> Option<
    InstallationFacts,
> {
    if is_installed(state, channel) {
        Some(state[choose|i: int| installed_at(state, channel, i)])
    } else {
        None
    }
}

/// A channel is installed at one position only.
pub proof fn installed_once(state: Seq<InstallationFacts>, channel: Seq<char>, i: int)
    requires
        installed_at(state, channel, i),
    ensures
        is_installed(state, channel),
        installation_of(state, channel) == Some(state[i]),
        forall|j: int| installed_at(state, channel, j) ==> i == j,
{
    assert forall|j: int| installed_at(state, channel, j) implies i == j by {
        if j < i {
            assert(state[j].channel != channel);
        } else if i < j {
            assert(state[i].channel != channel);
        }
    }
}

impl LocalState {
    /// The position of the installation of `channel`.
    pub fn position(&self, channel: &Version) -> (r: Option<usize>)
        ensures
            match r {
                Some(i) => installed_at(self.deep_view(), channel@, i as int),
                None => !is_installed(self.deep_view(), channel@),
            },
    {
        let ghost all = self.deep_view();
        let mut i: usize = 0;
        while i < self.installations.len()
            invariant
                i <= self.installations@.len(),
                all == self.deep_view(),
                forall|j: int| 0 <= j < i ==> (#[trigger] all[j]).channel != channel@,
            decreases self.installations.len() - i,
        {
            assert(all[i as int] == self.installations@[i as int].deep_view());
            if self.installations[i].channel.same(channel) {
                return Some(i);
            }
            i += 1;
        }
        None
    }

    /// The installation of `channel`.
    pub fn get(&self, channel: &Version) -> (r: Option<&Installation>)
        ensures
            r.deep_view() == installation_of(self.deep_view(), channel@),
    {
        match self.position(channel) {
            Some(i) => {
                proof {
                    installed_once(self.deep_view(), channel@, i as int);
                }
                Some(&self.installations[i])
            },
            None => None,
        }
    }
}

} // verus!
