//! Which channels an update is about, and where they move.

use vstd::prelude::*;

use crate::manifest::{Channel, ChannelFacts};
use crate::path;
use crate::resolve::{Intent, IntentFacts};
use crate::sorted;
use crate::sorted::SortedMap;
use crate::state;
use crate::state::{Installation, InstallationFacts, LocalState};
use crate::update::error::{UpdateError, UpdateErrorFacts};
use crate::version;
use crate::version::Version;

verus! {

// ---------------------------------------------------------------------------------------------
// What the user names

/// How a user names a channel.
#[derive(Debug, PartialEq, Eq)]
pub enum UserChannel {
    /// A network, which names a channel that can change.
    Named(String),
    Version(Version),
}

/// What a [`UserChannel`] holds.
#[verifier::ext_equal]
pub enum UserChannelFacts {
    Named(Seq<char>),
    Version(Seq<char>),
}

impl DeepView for UserChannel {
    type V = UserChannelFacts;

    open spec fn deep_view(&self) -> UserChannelFacts {
        match self {
            UserChannel::Named(name) => UserChannelFacts::Named(name@),
            UserChannel::Version(version) => UserChannelFacts::Version(version@),
        }
    }
}

/// What an update is about.
#[derive(Debug, PartialEq, Eq)]
pub enum UpdateScope {
    Network(String),
    /// The installations at these positions, in this order.
    Installed(Vec<usize>),
}

/// Whether a scope is the one that the user asks for: everything installed where they name nothing.
pub open spec fn scoped(
    channel: Option<UserChannelFacts>,
    state: Seq<InstallationFacts>,
    r: Result<UpdateScope, UpdateError>,
) -> bool {
    match channel {
        Some(UserChannelFacts::Named(name)) => r matches Ok(UpdateScope::Network(network))
            && network@ == name,
        Some(UserChannelFacts::Version(version)) => if state::is_installed(state, version) {
            r matches Ok(UpdateScope::Installed(positions)) && positions@.len() == 1
                && state::installed_at(state, version, positions@[0] as int)
        } else {
            r matches Err(e) && e.deep_view() == (UpdateErrorFacts::NoSuchInstallation { version })
        },
        None => r matches Ok(UpdateScope::Installed(positions)) && positions@ == Seq::new(
            state.len(),
            |i: int| i as usize,
        ),
    }
}

/// Decides what an update is about.
pub fn update(channel: Option<&UserChannel>, state: &LocalState) -> (r: Result<
    UpdateScope,
    UpdateError,
>)
    ensures
        scoped(channel.deep_view(), state.deep_view(), r),
{
    match channel {
        Some(UserChannel::Named(name)) => Ok(UpdateScope::Network(name.clone())),
        Some(UserChannel::Version(version)) => match state.position(version) {
            Some(i) => {
                proof {
                    state::installed_once(state.deep_view(), version@, i as int);
                }
                let mut positions: Vec<usize> = Vec::new();
                positions.push(i);
                Ok(UpdateScope::Installed(positions))
            },
            None => Err(UpdateError::NoSuchInstallation { version: version.to_string() }),
        },
        None => {
            let mut positions: Vec<usize> = Vec::new();
            let mut i: usize = 0;
            while i < state.installations.len()
                invariant
                    i <= state.installations@.len(),
                    positions@.len() == i,
                    forall|j: int| 0 <= j < i ==> #[trigger] positions@[j] == j,
                decreases state.installations.len() - i,
            {
                positions.push(i);
                i += 1;
            }
            assert(positions@ =~= Seq::new(state.deep_view().len(), |i: int| i as usize));
            Ok(UpdateScope::Installed(positions))
        },
    }
}

// ---------------------------------------------------------------------------------------------
// Networks

/// Whether position `i` holds the channel with the given name.
pub open spec fn channel_at(channels: Seq<ChannelFacts>, name: Seq<char>, i: int) -> bool {
    &&& 0 <= i < channels.len()
    &&& channels[i].name == name
    &&& forall|j: int| 0 <= j < i ==> (#[trigger] channels[j]).name != name
}

/// The channel with the given name.
pub open spec fn channel_named(channels: Seq<ChannelFacts>, name: Seq<char>) -> Option<
    ChannelFacts,
> {
    if exists|i: int| channel_at(channels, name, i) {
        Some(channels[choose|i: int| channel_at(channels, name, i)])
    } else {
        None
    }
}

/// Finds the channel with the given name.
pub fn get_channel_by_name<'a>(channels: &'a Vec<Channel>, name: &Version) -> (r: Option<
    &'a Channel,
>)
    ensures
        r.deep_view() == channel_named(channels.deep_view(), name@),
{
    let ghost all = channels.deep_view();
    let mut i: usize = 0;
    while i < channels.len()
        invariant
            i <= channels@.len(),
            all == channels.deep_view(),
            forall|j: int| 0 <= j < i ==> (#[trigger] all[j]).name != name@,
        decreases channels.len() - i,
    {
        assert(all[i as int] == channels@[i as int].deep_view());
        if channels[i].name.same(name) {
            proof {
                assert(channel_at(all, name@, i as int));
                let j = choose|j: int| channel_at(all, name@, j);
                if i < j {
                    assert(all[i as int].name != name@);
                }
            }
            return Some(&channels[i]);
        }
        i += 1;
    }
    None
}

/// What an update does about a network.
#[derive(Debug, PartialEq, Eq)]
pub enum NetworkUpdate<'a> {
    /// The network names the channel that is installed. The channel's own components may still have
    /// changed.
    Unmoved { installation: &'a Installation },
    /// The network names another channel: that one is installed with the intent of the present one,
    /// and the network's link is pointed at it.
    Moved { upstream: &'a Channel, intent: Intent, moved_back: bool },
}

/// What a [`NetworkUpdate`] holds.
#[verifier::ext_equal]
pub enum NetworkFacts {
    Unmoved { installation: InstallationFacts },
    Moved { upstream: ChannelFacts, intent: IntentFacts, moved_back: bool },
}

impl<'a> DeepView for NetworkUpdate<'a> {
    type V = NetworkFacts;

    open spec fn deep_view(&self) -> NetworkFacts {
        match self {
            NetworkUpdate::Unmoved { installation } => NetworkFacts::Unmoved {
                installation: installation.deep_view(),
            },
            NetworkUpdate::Moved { upstream, intent, moved_back } => NetworkFacts::Moved {
                upstream: upstream.deep_view(),
                intent: intent.deep_view(),
                moved_back: *moved_back,
            },
        }
    }
}

/// The names in a table.
pub open spec fn table_names<T>(table: Seq<(Seq<char>, T)>) -> Seq<Seq<char>> {
    Seq::new(table.len(), |i: int| table[i].0)
}

/// What an update does about a network, given the channel that its link names.
///
/// The network's table is authoritative in both directions: where it names an earlier channel than
/// the installed one, that is where the network goes.
pub open spec fn followed(
    name: Seq<char>,
    networks: Seq<(Seq<char>, Seq<char>)>,
    channels: Seq<ChannelFacts>,
    installed: Option<Seq<char>>,
    state: Seq<InstallationFacts>,
) -> Result<NetworkFacts, UpdateErrorFacts> {
    match (sorted::lookup(networks, name), installed) {
        (None, _) => Err(
            UpdateErrorFacts::UnknownNetwork { name, known: table_names(networks) },
        ),
        (_, None) => Err(UpdateErrorFacts::NetworkNotInstalled { name }),
        (Some(target), Some(present)) => match state::installation_of(state, present) {
            None => Err(UpdateErrorFacts::NotInState { name, installed: present }),
            Some(installation) => if present == target {
                Ok(NetworkFacts::Unmoved { installation })
            } else {
                match channel_named(channels, target) {
                    None => Err(UpdateErrorFacts::NotUpstream { name, target }),
                    Some(upstream) => Ok(
                        NetworkFacts::Moved {
                            upstream,
                            intent: installation.intent,
                            moved_back: version::version_precedes(target, present),
                        },
                    ),
                }
            },
        },
    }
}

fn names_in(networks: &SortedMap<Version>) -> (r: Vec<String>)
    ensures
        r.deep_view() == table_names(networks.deep_view()),
{
    let n = networks.len();
    let mut names: Vec<String> = Vec::new();
    let mut i: usize = 0;
    while i < n
        invariant
            i <= n == networks@.len(),
            names@.len() == i,
            forall|j: int| 0 <= j < i ==> (#[trigger] names@[j])@ == networks@[j].0,
        decreases n - i,
    {
        names.push(networks.key(i).clone());
        i += 1;
    }
    assert(names.deep_view() =~= table_names(networks.deep_view()));
    names
}

/// Decides what an update does about a network, given the channel that its link names.
pub fn update_network<'a>(
    name: &str,
    networks: &SortedMap<Version>,
    channels: &'a Vec<Channel>,
    installed: Option<&Version>,
    state: &'a LocalState,
) -> (r: Result<NetworkUpdate<'a>, UpdateError>)
    ensures
        match r {
            Ok(done) => followed(
                name@,
                networks.deep_view(),
                channels.deep_view(),
                installed.deep_view(),
                state.deep_view(),
            ) == Ok::<NetworkFacts, UpdateErrorFacts>(done.deep_view()),
            Err(e) => followed(
                name@,
                networks.deep_view(),
                channels.deep_view(),
                installed.deep_view(),
                state.deep_view(),
            ) == Err::<NetworkFacts, UpdateErrorFacts>(e.deep_view()),
        },
{
    let found = networks.get(name);
    proof {
        sorted::lookup_with_values(networks@, name@, |v: Version| v.deep_view());
    }
    let target = match found {
        Some(target) => target,
        None => {
            return Err(
                UpdateError::UnknownNetwork { name: name.to_owned(), known: names_in(networks) },
            );
        },
    };
    let present = match installed {
        Some(present) => present,
        None => return Err(UpdateError::NetworkNotInstalled { name: name.to_owned() }),
    };
    let installation = match state.get(present) {
        Some(installation) => installation,
        None => {
            return Err(
                UpdateError::NotInState { name: name.to_owned(), installed: present.to_string() },
            );
        },
    };
    if present.same(target) {
        return Ok(NetworkUpdate::Unmoved { installation });
    }
    match get_channel_by_name(channels, target) {
        None => Err(UpdateError::NotUpstream { name: name.to_owned(), target: target.to_string() }),
        Some(upstream) => Ok(
            NetworkUpdate::Moved {
                upstream,
                intent: installation.intent.clone(),
                moved_back: target.precedes(present),
            },
        ),
    }
}

// ---------------------------------------------------------------------------------------------
// Installed channels

/// How a channel was found upstream.
#[derive(Debug, PartialEq, Eq)]
pub enum UpstreamMatch {
    /// It is the channel itself.
    UpstreamCounterpart,
    /// It is the one that supersedes the channel.
    Migrated { old_channel: Version },
}

/// A channel found upstream.
#[derive(Debug, PartialEq, Eq)]
pub struct UpstreamChannel {
    pub channel: Channel,
    pub upstream_match: UpstreamMatch,
}

/// The channel that is superseded, if there is one. A channel that has been migrated to already is
/// not migrated to again.
pub open spec fn superseded(upstream: UpstreamChannel, installed: Seq<char>) -> Option<Seq<char>> {
    match upstream.upstream_match {
        UpstreamMatch::UpstreamCounterpart => None,
        UpstreamMatch::Migrated { old_channel } => if upstream.channel.name@ != installed {
            Some(old_channel@)
        } else {
            None
        },
    }
}

/// The channel that `upstream` supersedes, if this really is a migration.
pub fn migration_of(upstream: &UpstreamChannel, installation: &Installation) -> (r: Option<Version>)
    ensures
        r.deep_view() == superseded(*upstream, installation.deep_view().channel),
{
    match &upstream.upstream_match {
        UpstreamMatch::UpstreamCounterpart => None,
        UpstreamMatch::Migrated { old_channel } => {
            if upstream.channel.name.same(&installation.channel) {
                None
            } else {
                Some(old_channel.clone())
            }
        },
    }
}

/// What an update does about an installed channel.
#[derive(Debug, PartialEq, Eq)]
pub enum ChannelUpdate {
    /// The channel is absent upstream: there is nothing to hold it against.
    Nothing,
    /// The channel is superseded.
    Migrate { old_channel: Version },
    /// The channel is held against upstream, component by component.
    Reconcile,
}

/// Decides what an update does about an installed channel.
pub fn update_installed_channel(
    upstream: Option<&UpstreamChannel>,
    installation: &Installation,
) -> (r: ChannelUpdate)
    ensures
        match r {
            ChannelUpdate::Nothing => upstream is None,
            ChannelUpdate::Migrate { old_channel } => upstream is Some && superseded(
                *upstream->0,
                installation.deep_view().channel,
            ) == Some(old_channel@),
            ChannelUpdate::Reconcile => upstream is Some && superseded(
                *upstream->0,
                installation.deep_view().channel,
            ) is None,
        },
{
    match upstream {
        None => ChannelUpdate::Nothing,
        Some(found) => match migration_of(found, installation) {
            Some(old_channel) => ChannelUpdate::Migrate { old_channel },
            None => ChannelUpdate::Reconcile,
        },
    }
}

/// One step of carrying an installation to the channel that supersedes its own.
#[derive(Debug, PartialEq, Eq)]
pub enum MigrationStep {
    /// Install the new channel with this intent, which is resolved against it.
    Install { intent: Intent },
    /// Let the data follow.
    CarryVar { from: Version, to: Version },
    /// Remove the old channel.
    Uninstall { channel: Version, purge: bool },
}

/// What a [`MigrationStep`] holds.
#[verifier::ext_equal]
pub enum MigrationFacts {
    Install { intent: IntentFacts },
    CarryVar { from: Seq<char>, to: Seq<char> },
    Uninstall { channel: Seq<char>, purge: bool },
}

impl DeepView for MigrationStep {
    type V = MigrationFacts;

    open spec fn deep_view(&self) -> MigrationFacts {
        match self {
            MigrationStep::Install { intent } => MigrationFacts::Install {
                intent: intent.deep_view(),
            },
            MigrationStep::CarryVar { from, to } => MigrationFacts::CarryVar {
                from: from@,
                to: to@,
            },
            MigrationStep::Uninstall { channel, purge } => MigrationFacts::Uninstall {
                channel: channel@,
                purge: *purge,
            },
        }
    }
}

/// How an installation is carried to the channel named `to`. The new channel is installed first and
/// the old one removed last, so an interruption leaves both. The data has a new name by then, so
/// nothing is purged.
pub open spec fn migration(installation: InstallationFacts, to: Seq<char>) -> Seq<MigrationFacts> {
    seq![
        MigrationFacts::Install { intent: installation.intent },
        MigrationFacts::CarryVar { from: installation.channel, to },
        MigrationFacts::Uninstall { channel: installation.channel, purge: false },
    ]
}

/// The steps that carry an installation to the channel that supersedes its own, each to be taken
/// only after the one before it succeeded.
pub fn migrate(installation: &Installation, upstream: &Channel) -> (r: Vec<MigrationStep>)
    ensures
        r.deep_view() == migration(installation.deep_view(), upstream.deep_view().name),
{
    let mut steps: Vec<MigrationStep> = Vec::new();
    steps.push(MigrationStep::Install { intent: installation.intent.clone() });
    steps.push(
        MigrationStep::CarryVar {
            from: installation.channel.clone(),
            to: upstream.name.clone(),
        },
    );
    steps.push(
        MigrationStep::Uninstall { channel: installation.channel.clone(), purge: false },
    );
    assert(steps.deep_view() =~= migration(installation.deep_view(), upstream.name@));
    steps
}

// ---------------------------------------------------------------------------------------------
// Data directories

/// Where the data of a selector lies.
pub open spec fn var_path(home: Seq<char>, selector: Seq<char>) -> Seq<char> {
    path::below(path::below(home, "var"@), selector)
}

/// Where the data of a selector lies.
pub fn var_dir(home: &str, selector: &str) -> (r: String)
    ensures
        r@ == var_path(home@, selector@),
{
    path::join(path::join(home, "var").as_str(), selector)
}

/// What happens to the data of a channel that is superseded.
#[derive(Debug, PartialEq, Eq)]
pub enum VarMove {
    Nothing,
    /// The user has data under the new name already, and the two are not merged.
    LeftInPlace,
    Rename { source: String, destination: String },
}

/// What a [`VarMove`] holds.
#[verifier::ext_equal]
pub enum VarMoveFacts {
    Nothing,
    LeftInPlace,
    Rename { source: Seq<char>, destination: Seq<char> },
}

impl DeepView for VarMove {
    type V = VarMoveFacts;

    open spec fn deep_view(&self) -> VarMoveFacts {
        match self {
            VarMove::Nothing => VarMoveFacts::Nothing,
            VarMove::LeftInPlace => VarMoveFacts::LeftInPlace,
            VarMove::Rename { source, destination } => VarMoveFacts::Rename {
                source: source@,
                destination: destination@,
            },
        }
    }
}

/// What happens to the data of a channel that is superseded by `to`.
pub open spec fn var_moved(
    home: Seq<char>,
    from: Seq<char>,
    to: Seq<char>,
    source_is_dir: bool,
    destination_exists: bool,
) -> VarMoveFacts {
    if from == to || !source_is_dir {
        VarMoveFacts::Nothing
    } else if destination_exists {
        VarMoveFacts::LeftInPlace
    } else {
        VarMoveFacts::Rename { source: var_path(home, from), destination: var_path(home, to) }
    }
}

/// Decides what happens to the data of a channel that is superseded by `to`, given what is there.
pub fn carry_var_to(
    home: &str,
    from: &Version,
    to: &Version,
    source_is_dir: bool,
    destination_exists: bool,
) -> (r: VarMove)
    ensures
        r.deep_view() == var_moved(home@, from@, to@, source_is_dir, destination_exists),
{
    if from.same(to) || !source_is_dir {
        VarMove::Nothing
    } else if destination_exists {
        VarMove::LeftInPlace
    } else {
        VarMove::Rename {
            source: var_dir(home, from.as_str()),
            destination: var_dir(home, to.as_str()),
        }
    }
}

} // verus!
