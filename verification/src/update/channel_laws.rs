//! Where an update leads, by what the user names and by what upstream has.

use vstd::prelude::*;

use crate::manifest::ChannelFacts;
use crate::path;
use crate::sorted;
use crate::state::InstallationFacts;
use crate::update::channel;
use crate::update::channel::{
    MigrationFacts, NetworkFacts, UpdateScope, UpstreamChannel, UpstreamMatch, UserChannelFacts,
    VarMoveFacts,
};
use crate::update::error::{UpdateError, UpdateErrorFacts};
use crate::update::work_laws;
use crate::version;

verus! {

/// Where the user names nothing, everything that is installed is updated, in the order in which it is
/// recorded. A network is left as it is named. A version is updated where it is recorded, alone, and
/// refused by its name where it is not.
pub proof fn updates_are_about_what_is_named(
    named: Option<UserChannelFacts>,
    state: Seq<InstallationFacts>,
    r: Result<UpdateScope, UpdateError>,
    p: int,
)
    requires
        channel::scoped(named, state, r),
        state.len() <= usize::MAX,
    ensures
        named is None ==> (r matches Ok(UpdateScope::Installed(positions)) && positions@.len()
            == state.len() && (0 <= p < state.len() ==> positions@[p] == p)),
        named matches Some(UserChannelFacts::Named(name)) ==> (r matches Ok(
            UpdateScope::Network(network),
        ) && network@ == name),
        named matches Some(UserChannelFacts::Version(v)) ==> {
            &&& work_laws::recorded_at(state, v, p) ==> (r matches Ok(
                UpdateScope::Installed(positions),
            ) && positions@.len() == 1 && positions@[0] == p)
            &&& work_laws::recorded_nowhere(state, v) ==> (r matches Err(e) && e.deep_view() == (
            UpdateErrorFacts::NoSuchInstallation { version: v }))
        },
{
    if let Some(UserChannelFacts::Version(v)) = named {
        work_laws::the_first_record_counts(state, v, p);
        if work_laws::recorded_at(state, v, p) {
            assert(crate::state::installed_at(state, v, p));
            crate::state::installed_once(state, v, p);
        } else if work_laws::recorded_nowhere(state, v) {
            if crate::state::is_installed(state, v) {
                let i = choose|i: int| crate::state::installed_at(state, v, i);
                assert(state[i].channel == v);
            }
        }
    }
}

/// Whether `q` is where upstream has a channel: the first of that name.
pub open spec fn offered_at(channels: Seq<ChannelFacts>, name: Seq<char>, q: int) -> bool {
    &&& 0 <= q < channels.len()
    &&& channels[q].name == name
    &&& forall|j: int| 0 <= j < q ==> (#[trigger] channels[j]).name != name
}

proof fn the_first_offer_counts(channels: Seq<ChannelFacts>, name: Seq<char>, q: int)
    ensures
        offered_at(channels, name, q) ==> channel::channel_named(channels, name) == Some(
            channels[q],
        ),
        (forall|j: int| 0 <= j < channels.len() ==> (#[trigger] channels[j]).name != name)
            ==> channel::channel_named(channels, name) is None,
{
    if offered_at(channels, name, q) {
        assert(channel::channel_at(channels, name, q));
        let i = choose|i: int| channel::channel_at(channels, name, i);
        if i < q {
            assert(channels[i].name != name);
        } else if q < i {
            assert(channels[q].name != name);
        }
    }
    if forall|j: int| 0 <= j < channels.len() ==> (#[trigger] channels[j]).name != name {
        if exists|i: int| channel::channel_at(channels, name, i) {
            let i = choose|i: int| channel::channel_at(channels, name, i);
            assert(channels[i].name == name);
        }
    }
}

/// A network that has moved leads to the channel that it names now, with the intent of the one that is
/// installed, and it is said whether that is an earlier one. A network that has not moved is
/// reconciled where it is.
pub proof fn networks_lead_to_their_channel(
    name: Seq<char>,
    networks: Seq<(Seq<char>, Seq<char>)>,
    channels: Seq<ChannelFacts>,
    present: Seq<char>,
    state: Seq<InstallationFacts>,
    target: Seq<char>,
    p: int,
    q: int,
)
    requires
        sorted::lookup(networks, name) == Some(target),
        work_laws::recorded_at(state, present, p),
    ensures
        present == target ==> channel::followed(name, networks, channels, Some(present), state)
            == Ok::<NetworkFacts, UpdateErrorFacts>(
            NetworkFacts::Unmoved { installation: state[p] },
        ),
        present != target && offered_at(channels, target, q) ==> channel::followed(
            name,
            networks,
            channels,
            Some(present),
            state,
        ) == Ok::<NetworkFacts, UpdateErrorFacts>(
            NetworkFacts::Moved {
                upstream: channels[q],
                intent: state[p].intent,
                moved_back: version::version_precedes(target, present),
            },
        ),
{
    work_laws::the_first_record_counts(state, present, p);
    the_first_offer_counts(channels, target, q);
}

/// A network is refused where upstream does not know it, which names those that it does; where it is
/// not installed; where its link names a channel that is not recorded; and where it has moved to a
/// channel that upstream does not have. What comes first of these is what is said.
pub proof fn refused_networks_say_why(
    name: Seq<char>,
    networks: Seq<(Seq<char>, Seq<char>)>,
    channels: Seq<ChannelFacts>,
    installed: Option<Seq<char>>,
    state: Seq<InstallationFacts>,
    p: int,
    k: int,
)
    ensures
        ({
            let r = channel::followed(name, networks, channels, installed, state);
            &&& sorted::lookup(networks, name) is None ==> {
                &&& r matches Err(UpdateErrorFacts::UnknownNetwork { name: n, known }) && n == name
                    && known.len() == networks.len() && (0 <= k < networks.len() ==> known[k]
                    == networks[k].0)
            }
            &&& sorted::lookup(networks, name) is Some && installed is None ==> r == Err::<
                NetworkFacts,
                UpdateErrorFacts,
            >(UpdateErrorFacts::NetworkNotInstalled { name })
            &&& sorted::lookup(networks, name) is Some && installed is Some
                && work_laws::recorded_nowhere(state, installed->0) ==> r == Err::<
                NetworkFacts,
                UpdateErrorFacts,
            >(UpdateErrorFacts::NotInState { name, installed: installed->0 })
            &&& sorted::lookup(networks, name) is Some && installed is Some
                && work_laws::recorded_at(state, installed->0, p) && sorted::lookup(networks, name)->0
                != installed->0 && (forall|j: int|
                0 <= j < channels.len() ==> (#[trigger] channels[j]).name != sorted::lookup(
                    networks,
                    name,
                )->0) ==> r == Err::<NetworkFacts, UpdateErrorFacts>(
                UpdateErrorFacts::NotUpstream { name, target: sorted::lookup(networks, name)->0 },
            )
        }),
{
    if installed is Some {
        work_laws::the_first_record_counts(state, installed->0, p);
        if sorted::lookup(networks, name) is Some {
            the_first_offer_counts(channels, sorted::lookup(networks, name)->0, 0);
        }
    }
}

/// A channel is migrated exactly where upstream found another one that supersedes it, and then the one
/// that is superseded is the one that upstream names.
pub proof fn only_superseded_channels_migrate(upstream: UpstreamChannel, installed: Seq<char>)
    ensures
        match upstream.upstream_match {
            UpstreamMatch::UpstreamCounterpart => channel::superseded(upstream, installed) is None,
            UpstreamMatch::Migrated { old_channel } => if upstream.channel.name@ == installed {
                channel::superseded(upstream, installed) is None
            } else {
                channel::superseded(upstream, installed) == Some(old_channel@)
            },
        },
{
}

/// A migration installs the new channel with the intent of the old one before anything else, lets the
/// data follow, and removes the old channel at last, without its data.
pub proof fn migrations_remove_the_old_channel_last(installation: InstallationFacts, to: Seq<char>)
    ensures
        ({
            let steps = channel::migration(installation, to);
            &&& steps.len() == 3
            &&& steps[0] matches MigrationFacts::Install { intent } && intent == installation.intent
            &&& steps[1] matches MigrationFacts::CarryVar { from, to: new } && from
                == installation.channel && new == to
            &&& steps[2] matches MigrationFacts::Uninstall { channel: gone, purge } && gone
                == installation.channel && !purge
        }),
{
}

/// The data of a channel is renamed to that of the channel that supersedes it, where there is data and
/// none under the new name. Existing data is never touched, and where there is nothing to move nothing
/// is.
pub proof fn data_is_renamed_or_left(
    home: Seq<char>,
    from: Seq<char>,
    to: Seq<char>,
    source_is_dir: bool,
    destination_exists: bool,
)
    ensures
        ({
            let moved = channel::var_moved(home, from, to, source_is_dir, destination_exists);
            &&& moved is Rename <==> from != to && source_is_dir && !destination_exists
            &&& moved is LeftInPlace <==> from != to && source_is_dir && destination_exists
            &&& moved is Nothing <==> from == to || !source_is_dir
            &&& moved matches VarMoveFacts::Rename { source, destination } ==> source
                == path::below(path::below(home, "var"@), from) && destination == path::below(
                path::below(home, "var"@),
                to,
            )
        }),
{
}

} // verus!
