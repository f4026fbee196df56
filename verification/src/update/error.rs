//! Why an update cannot be made.

use vstd::prelude::*;

use crate::text;

verus! {

/// Why an update cannot be made.
#[derive(Debug, PartialEq, Eq)]
pub enum UpdateError {
    /// The user named a version that is not installed.
    NoSuchInstallation { version: String },
    /// The user named a network that upstream does not have.
    UnknownNetwork { name: String, known: Vec<String> },
    /// The network is not installed.
    NetworkNotInstalled { name: String },
    /// The network's link names a channel that is not recorded as installed.
    NotInState { name: String, installed: String },
    /// The network names a channel that upstream does not have.
    NotUpstream { name: String, target: String },
    /// The channel to record changes of is not installed.
    NotInstalled { channel: String },
}

/// What an [`UpdateError`] holds.
#[verifier::ext_equal]
pub enum UpdateErrorFacts {
    NoSuchInstallation { version: Seq<char> },
    UnknownNetwork { name: Seq<char>, known: Seq<Seq<char>> },
    NetworkNotInstalled { name: Seq<char> },
    NotInState { name: Seq<char>, installed: Seq<char> },
    NotUpstream { name: Seq<char>, target: Seq<char> },
    NotInstalled { channel: Seq<char> },
}

impl DeepView for UpdateError {
    type V = UpdateErrorFacts;

    open spec fn deep_view(&self) -> UpdateErrorFacts {
        match self {
            UpdateError::NoSuchInstallation { version } => UpdateErrorFacts::NoSuchInstallation {
                version: version@,
            },
            UpdateError::UnknownNetwork { name, known } => UpdateErrorFacts::UnknownNetwork {
                name: name@,
                known: known.deep_view(),
            },
            UpdateError::NetworkNotInstalled { name } => UpdateErrorFacts::NetworkNotInstalled {
                name: name@,
            },
            UpdateError::NotInState { name, installed } => UpdateErrorFacts::NotInState {
                name: name@,
                installed: installed@,
            },
            UpdateError::NotUpstream { name, target } => UpdateErrorFacts::NotUpstream {
                name: name@,
                target: target@,
            },
            UpdateError::NotInstalled { channel } => UpdateErrorFacts::NotInstalled {
                channel: channel@,
            },
        }
    }
}

/// Why an update cannot be made, in words.
pub open spec fn update_error_text(e: UpdateErrorFacts) -> Seq<char> {
    match e {
        UpdateErrorFacts::NoSuchInstallation { version } =>
            "ERROR: No installed channel found with version "@ + version,
        UpdateErrorFacts::UnknownNetwork { name, known } => "unknown channel '"@ + name
            + "'; known networks are "@ + text::joined(known, ", "@),
        UpdateErrorFacts::NetworkNotInstalled { name } => name
            + " is not installed. To install it, run:\n    midenup install "@ + name + "\n"@,
        UpdateErrorFacts::NotInState { name, installed } => "toolchains/"@ + name + " names "@
            + installed + ", which is not in local state; reinstall with: midenup install "@ + name,
        UpdateErrorFacts::NotUpstream { name, target } => "network '"@ + name
            + "' names channel "@ + target + ", which is not upstream"@,
        UpdateErrorFacts::NotInstalled { channel } => "channel "@ + channel + " is not installed"@,
    }
}

impl UpdateError {
    /// Why the update cannot be made, in words.
    pub fn to_string(&self) -> (s: String)
        ensures
            s@ == update_error_text(self.deep_view()),
    {
        match self {
            UpdateError::NoSuchInstallation { version } => {
                let mut s = "ERROR: No installed channel found with version ".to_owned();
                s.append(version.as_str());
                s
            },
            UpdateError::UnknownNetwork { name, known } => {
                let mut s = "unknown channel '".to_owned();
                s.append(name.as_str());
                s.append("'; known networks are ");
                s.append(text::join(known, ", ").as_str());
                s
            },
            UpdateError::NetworkNotInstalled { name } => {
                let mut s = name.clone();
                s.append(" is not installed. To install it, run:\n    midenup install ");
                s.append(name.as_str());
                s.append("\n");
                s
            },
            UpdateError::NotInState { name, installed } => {
                let mut s = "toolchains/".to_owned();
                s.append(name.as_str());
                s.append(" names ");
                s.append(installed.as_str());
                s.append(", which is not in local state; reinstall with: midenup install ");
                s.append(name.as_str());
                s
            },
            UpdateError::NotUpstream { name, target } => {
                let mut s = "network '".to_owned();
                s.append(name.as_str());
                s.append("' names channel ");
                s.append(target.as_str());
                s.append(", which is not upstream");
                s
            },
            UpdateError::NotInstalled { channel } => {
                let mut s = "channel ".to_owned();
                s.append(channel.as_str());
                s.append(" is not installed");
                s
            },
        }
    }
}

} // verus!
