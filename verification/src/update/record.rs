//! Recording what changed where no installed file reflects it.

use vstd::prelude::*;

use crate::manifest::{Channel, ChannelFacts, Component, ComponentFacts};
use crate::resolve::IntentFacts;
use crate::state;
use crate::state::{Installation, InstallationFacts, LocalState};
use crate::update;
use crate::update::error::{UpdateError, UpdateErrorFacts};
use crate::update::hold;
use crate::update::{IntentUpdate, IntentUpdateFacts};

verus! {

/// What is recorded of a component: what upstream says, under the recorded authority. Only that one
/// carries what was pinned at install time: a branch's commit, a path's modification time.
///
/// One that is held back keeps what it installs and follows upstream in the rest. One that is absent
/// upstream stays as it is recorded.
pub open spec fn renewed(
    c: ComponentFacts,
    upstream: Seq<ComponentFacts>,
    held_back: Seq<ComponentFacts>,
) -> ComponentFacts {
    match update::counterpart(upstream, c.name) {
        Some(new) => if update::names(held_back).contains(c.name) {
            hold::following(c, new)
        } else {
            ComponentFacts { version: c.version, ..new }
        },
        None => c,
    }
}

/// An installation with what upstream says recorded.
pub open spec fn refreshed(
    installation: InstallationFacts,
    upstream: Seq<ComponentFacts>,
    intent: IntentFacts,
    held_back: Seq<ComponentFacts>,
) -> InstallationFacts {
    InstallationFacts {
        channel: installation.channel,
        intent,
        components: Seq::new(
            installation.components.len(),
            |i: int| renewed(installation.components[i], upstream, held_back),
        ),
    }
}

fn renew(component: &Component, upstream: &Vec<Component>, held_back: &Vec<Component>) -> (r:
    Component)
    ensures
        r.deep_view() == renewed(
            component.deep_view(),
            upstream.deep_view(),
            held_back.deep_view(),
        ),
{
    match update::find(upstream, component.name.as_str()) {
        Some(new) => {
            if crate::resolve::position_of(held_back, component.name.as_str()).is_some() {
                hold::follow(component, new)
            } else {
                let mut renewed = new.clone();
                renewed.version = component.version.clone();
                renewed
            }
        },
        None => component.clone(),
    }
}

/// The recorded state with what upstream says of a channel.
pub open spec fn recorded(
    state: Seq<InstallationFacts>,
    upstream: ChannelFacts,
    update: IntentUpdateFacts,
    held_back: Seq<ComponentFacts>,
) -> Seq<InstallationFacts> {
    let i = choose|i: int| state::installed_at(state, upstream.name, i);
    state.update(
        i,
        refreshed(
            state[i],
            upstream.components,
            update::intended(state, upstream.name, update),
            held_back,
        ),
    )
}

/// Records selection and metadata changes of an installed channel.
pub fn record_logical_changes(
    upstream: &Channel,
    state: &mut LocalState,
    update: &IntentUpdate,
    held_back: &Vec<Component>,
) -> (r: Result<(), UpdateError>)
    ensures
        r is Ok <==> state::is_installed(old(state).deep_view(), upstream.deep_view().name),
        match r {
            Ok(_) => final(state).deep_view() == recorded(
                old(state).deep_view(),
                upstream.deep_view(),
                update.deep_view(),
                held_back.deep_view(),
            ),
            Err(e) => e.deep_view() == (UpdateErrorFacts::NotInstalled {
                channel: upstream.deep_view().name,
            }) && final(state).deep_view() == old(state).deep_view(),
        },
{
    let intent = update::effective_intent(state, &upstream.name, update);
    let ghost before = state.deep_view();
    let i = match state.position(&upstream.name) {
        Some(i) => i,
        None => return Err(UpdateError::NotInstalled { channel: upstream.name.to_string() }),
    };
    proof {
        state::installed_once(before, upstream.name@, i as int);
    }
    let ghost known = upstream.deep_view().components;
    let ghost kept = held_back.deep_view();
    let recorded = &state.installations[i];
    let ghost all = before[i as int].components;
    assert(all == recorded.components.deep_view());
    let mut components: Vec<Component> = Vec::new();
    let mut k: usize = 0;
    while k < recorded.components.len()
        invariant
            k <= recorded.components@.len(),
            all == recorded.components.deep_view(),
            known == upstream.deep_view().components,
            kept == held_back.deep_view(),
            components@.len() == k,
            forall|j: int| 0 <= j < k ==> (#[trigger] components.deep_view()[j]) == renewed(
                all[j],
                known,
                kept,
            ),
        decreases recorded.components.len() - k,
    {
        let ghost so_far = components.deep_view();
        assert(all[k as int] == recorded.components@[k as int].deep_view());
        components.push(renew(&recorded.components[k], &upstream.components, held_back));
        assert(components.deep_view().take(k as int) =~= so_far);
        assert forall|j: int| 0 <= j < k + 1 implies (#[trigger] components.deep_view()[j])
            == renewed(all[j], known, kept) by {
            if j < k {
                assert(so_far[j] == components.deep_view()[j]);
            }
        }
        k += 1;
    }
    let channel = recorded.channel.clone();
    let ghost wanted = refreshed(before[i as int], known, intent.deep_view(), kept);
    let installation = Installation { channel, intent, components };
    assert(installation.deep_view() =~= wanted);
    state.installations.set(i, installation);
    assert(state.deep_view() =~= before.update(i as int, wanted));
    Ok(())
}

} // verus!
