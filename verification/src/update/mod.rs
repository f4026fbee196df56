//! Bringing an installed channel up to date with upstream.
//!
//! An update owns two decisions: which components have to be acquired anew, and which intent the
//! result is recorded under. What the installed set should be follows from resolving that intent
//! against the upstream channel.

use vstd::prelude::*;

pub mod channel;
pub mod channel_laws;
pub mod decision_laws;
pub mod error;
pub mod hold;
pub mod laws;
pub mod record;
pub mod work_laws;

use crate::manifest::document;
use crate::manifest::{Channel, ChannelFacts, Component, ComponentFacts};
use crate::plan::authority;
use crate::plan::authority::{PinError, PinnedFacts, ResolvedAuthority};
use crate::plan::planner;
use crate::resolve;
use crate::resolve::{Intent, IntentFacts, ResolutionError, ResolutionFacts};
use crate::state;
use crate::state::{InstallationFacts, LocalState};
use crate::text;
use crate::version::{Authority, AuthorityFacts, Version};

verus! {

// ---------------------------------------------------------------------------------------------
// What changed

/// How a component changed between what is installed and what upstream now says.
#[derive(Debug, Clone, Copy, PartialEq, Eq, Structural)]
pub enum ChangeClass {
    /// Its files have to be replaced: its contribution to the plan key changed.
    InstallationImpacting,
    /// Its requirements or profiles: what gets selected, not what its files look like.
    GraphOnly,
    /// What is recorded and looked up when a command is run; no installed file depends on it.
    RuntimeMetadataOnly,
    /// Nothing at all.
    Unchanged,
}

/// How `new` differs from the installed `old`. Where the key of either cannot be computed, equality
/// cannot be established, and reinstalling is the safe direction to be wrong in.
pub open spec fn classified(
    old: ComponentFacts,
    new: ComponentFacts,
    old_pin: Result<PinnedFacts, Seq<char>>,
    new_pin: Result<PinnedFacts, Seq<char>>,
    target: Seq<char>,
) -> ChangeClass {
    let old_key = planner::component_key_facts(old, old_pin, target);
    let new_key = planner::component_key_facts(new, new_pin, target);
    if old_key is Err || new_key is Err || old_key->Ok_0 != new_key->Ok_0 {
        ChangeClass::InstallationImpacting
    } else if old.requires != new.requires || old.profiles != new.profiles {
        ChangeClass::GraphOnly
    } else if document::declared_alike(old, new) {
        ChangeClass::Unchanged
    } else {
        ChangeClass::RuntimeMetadataOnly
    }
}

/// Classifies `new` against the installed `old`, given what became of pinning their authorities.
pub fn classify(
    old_component: &Component,
    new: &Component,
    old_pin: &Result<ResolvedAuthority, PinError>,
    new_pin: &Result<ResolvedAuthority, PinError>,
    target: &str,
) -> (r: ChangeClass)
    ensures
        r == classified(
            old_component.deep_view(),
            new.deep_view(),
            authority::pinned(*old_pin),
            authority::pinned(*new_pin),
            target@,
        ),
{
    let old_key = match planner::component_key(old_component, old_pin, target) {
        Ok(key) => key,
        Err(_) => return ChangeClass::InstallationImpacting,
    };
    let new_key = match planner::component_key(new, new_pin, target) {
        Ok(key) => key,
        Err(_) => return ChangeClass::InstallationImpacting,
    };
    if !text::same(old_key.to_string().as_str(), new_key.to_string().as_str()) {
        return ChangeClass::InstallationImpacting;
    }
    if !text::same_all(&old_component.requires, &new.requires) || !document::same_profiles(
        &old_component.profiles,
        &new.profiles,
    ) {
        return ChangeClass::GraphOnly;
    }
    if old_component.same(new) {
        ChangeClass::Unchanged
    } else {
        ChangeClass::RuntimeMetadataOnly
    }
}

// ---------------------------------------------------------------------------------------------
// What the user decides

/// What happens to components that are installed from a path.
#[derive(Debug, Clone, Copy, PartialEq, Eq, Structural)]
pub enum PathUpdate {
    /// The user is asked about each.
    Interactive,
    All,
    Off,
}

/// What the user answers.
#[derive(Debug, Clone, Copy, PartialEq, Eq, Structural)]
pub enum InteractiveResult {
    /// Cancel the update altogether.
    Cancel,
    UpdateComponent,
    DontUpdateComponent,
}

/// What happens to one component.
#[derive(Debug, Clone, Copy, PartialEq, Eq, Structural)]
pub enum ComponentUpdateDecision {
    /// Abort the update entirely.
    Abort,
    /// Keep what is installed.
    Keep,
    /// Take what upstream has.
    Update,
}

/// What a line of input answers: anything but yes and cancel is a no.
pub open spec fn answer_in(input: Seq<char>) -> InteractiveResult {
    let said = text::ascii_lowered(text::trimmed(input));
    if said == "y"@ {
        InteractiveResult::UpdateComponent
    } else if said == "c"@ {
        InteractiveResult::Cancel
    } else {
        InteractiveResult::DontUpdateComponent
    }
}

/// Reads an answer.
pub fn interactive_answer(input: &str) -> (r: InteractiveResult)
    ensures
        r == answer_in(input@),
{
    let said = text::to_ascii_lowercase(text::trim(input).as_str());
    if text::same(said.as_str(), "y") {
        InteractiveResult::UpdateComponent
    } else if text::same(said.as_str(), "c") {
        InteractiveResult::Cancel
    } else {
        InteractiveResult::DontUpdateComponent
    }
}

/// What happens to a component with the given authority whose files would have to be replaced.
///
/// Taking a component away from the filesystem can be irreversible, so one that is installed from a
/// path is replaced only where the policy or the user says so.
pub open spec fn decided(
    version: AuthorityFacts,
    policy: PathUpdate,
    answer: InteractiveResult,
) -> ComponentUpdateDecision {
    if !(version is Path) {
        ComponentUpdateDecision::Update
    } else {
        match policy {
            PathUpdate::All => ComponentUpdateDecision::Update,
            PathUpdate::Off => ComponentUpdateDecision::Keep,
            PathUpdate::Interactive => match answer {
                InteractiveResult::Cancel => ComponentUpdateDecision::Abort,
                InteractiveResult::UpdateComponent => ComponentUpdateDecision::Update,
                InteractiveResult::DontUpdateComponent => ComponentUpdateDecision::Keep,
            },
        }
    }
}

/// Decides about one component. The answer counts only where the policy asks for one.
pub fn update_decision(
    component: &Component,
    policy: PathUpdate,
    answer: InteractiveResult,
) -> (r: ComponentUpdateDecision)
    ensures
        r == decided(component.deep_view().version, policy, answer),
{
    match &component.version {
        Authority::Registry { .. } => ComponentUpdateDecision::Update,
        Authority::Git { .. } => ComponentUpdateDecision::Update,
        Authority::Path { .. } => match policy {
            PathUpdate::Interactive => match answer {
                InteractiveResult::Cancel => ComponentUpdateDecision::Abort,
                InteractiveResult::UpdateComponent => ComponentUpdateDecision::Update,
                InteractiveResult::DontUpdateComponent => ComponentUpdateDecision::Keep,
            },
            PathUpdate::All => ComponentUpdateDecision::Update,
            PathUpdate::Off => ComponentUpdateDecision::Keep,
        },
    }
}

// ---------------------------------------------------------------------------------------------
// What an update has to do

/// The component of a channel with the given name.
pub open spec fn counterpart(components: Seq<ComponentFacts>, name: Seq<char>) -> Option<
    ComponentFacts,
> {
    if exists|i: int| resolve::first_named(components, name, i) {
        Some(components[choose|i: int| resolve::first_named(components, name, i)])
    } else {
        None
    }
}

proof fn counterpart_at(components: Seq<ComponentFacts>, name: Seq<char>, i: int)
    requires
        resolve::first_named(components, name, i),
    ensures
        counterpart(components, name) == Some(components[i]),
{
    let j = choose|j: int| resolve::first_named(components, name, j);
    if j < i {
        assert(components[j].name != name);
    } else if i < j {
        assert(components[i].name != name);
    }
}

/// Finds the component of a channel with the given name.
pub fn find<'a>(components: &'a Vec<Component>, name: &str) -> (r: Option<&'a Component>)
    ensures
        r.deep_view() == counterpart(components.deep_view(), name@),
{
    match resolve::position_of(components, name) {
        Some(i) => {
            proof {
                counterpart_at(components.deep_view(), name@, i as int);
            }
            Some(&components[i])
        },
        None => {
            assert forall|i: int| !resolve::first_named(components.deep_view(), name@, i) by {
                if resolve::first_named(components.deep_view(), name@, i) {
                    assert(components.deep_view()[i].name == name@);
                }
            }
            None
        },
    }
}

/// What became of pinning the authorities of an installed component and of its counterpart.
pub open spec fn pin_facts(
    pins: Seq<(Result<ResolvedAuthority, PinError>, Result<ResolvedAuthority, PinError>)>,
) -> Seq<(Result<PinnedFacts, Seq<char>>, Result<PinnedFacts, Seq<char>>)> {
    Seq::new(
        pins.len(),
        |i: int| (authority::pinned(pins[i].0), authority::pinned(pins[i].1)),
    )
}

/// How the installed component `i` changed. One that is absent upstream did not: whether it stays is
/// decided by resolving the intent.
pub open spec fn change_at(
    installed: Seq<ComponentFacts>,
    upstream: Seq<ComponentFacts>,
    pins: Seq<(Result<PinnedFacts, Seq<char>>, Result<PinnedFacts, Seq<char>>)>,
    target: Seq<char>,
    i: int,
) -> ChangeClass {
    match counterpart(upstream, installed[i].name) {
        Some(new) => classified(installed[i], new, pins[i].0, pins[i].1, target),
        None => ChangeClass::Unchanged,
    }
}

/// What an update has to do beyond resolving the intent again.
#[derive(Debug, PartialEq, Eq)]
pub struct Changes {
    /// The names of components whose files must be acquired anew.
    pub stale: Vec<String>,
    /// The components that the policy leaves alone, as they are installed.
    pub held_back: Vec<Component>,
    /// Whether anything changed that is recorded but that no file reflects.
    pub logical_only: bool,
}

/// What [`Changes`] hold.
#[verifier::ext_equal]
pub struct ChangesFacts {
    pub stale: Seq<Seq<char>>,
    pub held_back: Seq<ComponentFacts>,
    pub logical_only: bool,
}

impl DeepView for Changes {
    type V = ChangesFacts;

    open spec fn deep_view(&self) -> ChangesFacts {
        ChangesFacts {
            stale: self.stale.deep_view(),
            held_back: self.held_back.deep_view(),
            logical_only: self.logical_only,
        }
    }
}

/// No change at all.
pub open spec fn no_changes() -> ChangesFacts {
    ChangesFacts { stale: Seq::empty(), held_back: Seq::empty(), logical_only: false }
}

impl Default for Changes {
    fn default() -> (r: Self)
        ensures
            r.deep_view() == no_changes(),
    {
        let r = Changes { stale: Vec::new(), held_back: Vec::new(), logical_only: false };
        assert(r.deep_view() =~= no_changes());
        r
    }
}

/// Whether the installed component `i`, were it held back, would still have to follow upstream.
pub open spec fn follows(
    installed: Seq<ComponentFacts>,
    upstream: Seq<ComponentFacts>,
    i: int,
) -> bool {
    match counterpart(upstream, installed[i].name) {
        Some(new) => !document::declared_alike(hold::following(installed[i], new), installed[i]),
        None => false,
    }
}

/// The changes with one more component considered. A component that is held back may still have
/// something to record.
pub open spec fn considered(
    before: ChangesFacts,
    installed: ComponentFacts,
    change: ChangeClass,
    follows: bool,
    policy: PathUpdate,
    answer: InteractiveResult,
) -> Option<ChangesFacts> {
    match change {
        ChangeClass::Unchanged => Some(before),
        ChangeClass::GraphOnly => Some(ChangesFacts { logical_only: true, ..before }),
        ChangeClass::RuntimeMetadataOnly => Some(ChangesFacts { logical_only: true, ..before }),
        ChangeClass::InstallationImpacting => match decided(installed.version, policy, answer) {
            ComponentUpdateDecision::Abort => None,
            ComponentUpdateDecision::Keep => Some(
                ChangesFacts {
                    held_back: before.held_back.push(installed),
                    logical_only: before.logical_only || follows,
                    ..before
                },
            ),
            ComponentUpdateDecision::Update => Some(
                ChangesFacts { stale: before.stale.push(installed.name), ..before },
            ),
        },
    }
}

/// What the first `n` installed components make an update do; nothing where the user cancelled.
pub open spec fn changes(
    installed: Seq<ComponentFacts>,
    upstream: Seq<ComponentFacts>,
    pins: Seq<(Result<PinnedFacts, Seq<char>>, Result<PinnedFacts, Seq<char>>)>,
    target: Seq<char>,
    policy: PathUpdate,
    answers: Seq<InteractiveResult>,
    n: int,
) -> Option<ChangesFacts>
    decreases n,
{
    if n <= 0 {
        Some(no_changes())
    } else {
        match changes(installed, upstream, pins, target, policy, answers, n - 1) {
            None => None,
            Some(before) => considered(
                before,
                installed[n - 1],
                change_at(installed, upstream, pins, target, n - 1),
                follows(installed, upstream, n - 1),
                policy,
                answers[n - 1],
            ),
        }
    }
}

fn change_of(
    installed: &Component,
    upstream: &Vec<Component>,
    pins: &(Result<ResolvedAuthority, PinError>, Result<ResolvedAuthority, PinError>),
    target: &str,
) -> (r: ChangeClass)
    ensures
        r == (match counterpart(upstream.deep_view(), installed.deep_view().name) {
            Some(new) => classified(
                installed.deep_view(),
                new,
                authority::pinned(pins.0),
                authority::pinned(pins.1),
                target@,
            ),
            None => ChangeClass::Unchanged,
        }),
{
    match find(upstream, installed.name.as_str()) {
        Some(new) => classify(installed, new, &pins.0, &pins.1, target),
        None => ChangeClass::Unchanged,
    }
}

fn must_follow(installed: &Component, upstream: &Vec<Component>) -> (r: bool)
    ensures
        r == (match counterpart(upstream.deep_view(), installed.deep_view().name) {
            Some(new) => !document::declared_alike(
                hold::following(installed.deep_view(), new),
                installed.deep_view(),
            ),
            None => false,
        }),
{
    match find(upstream, installed.name.as_str()) {
        Some(new) => !hold::follow(installed, new).same(installed),
        None => false,
    }
}

/// Whether the user has to be asked about the installed component `i`.
pub open spec fn asks(
    installed: Seq<ComponentFacts>,
    upstream: Seq<ComponentFacts>,
    pins: Seq<(Result<PinnedFacts, Seq<char>>, Result<PinnedFacts, Seq<char>>)>,
    target: Seq<char>,
    policy: PathUpdate,
    i: int,
) -> bool {
    &&& policy == PathUpdate::Interactive
    &&& installed[i].version is Path
    &&& change_at(installed, upstream, pins, target, i) == ChangeClass::InstallationImpacting
}

/// Which of the installed components the user has to be asked about.
pub fn questions(
    installed: &Vec<Component>,
    upstream: &Channel,
    pins: &Vec<(Result<ResolvedAuthority, PinError>, Result<ResolvedAuthority, PinError>)>,
    target: &str,
    policy: PathUpdate,
) -> (r: Vec<bool>)
    requires
        pins@.len() == installed@.len(),
    ensures
        r@ == Seq::new(
            installed@.len(),
            |i: int|
                asks(
                    installed.deep_view(),
                    upstream.deep_view().components,
                    pin_facts(pins@),
                    target@,
                    policy,
                    i,
                ),
        ),
{
    let ghost (all, known, pinned) = (
        installed.deep_view(),
        upstream.deep_view().components,
        pin_facts(pins@),
    );
    let mut asked: Vec<bool> = Vec::new();
    let mut i: usize = 0;
    while i < installed.len()
        invariant
            i <= installed@.len() == pins@.len(),
            all == installed.deep_view(),
            known == upstream.deep_view().components,
            pinned == pin_facts(pins@),
            asked@.len() == i,
            forall|j: int| 0 <= j < i ==> #[trigger] asked@[j] == asks(
                all,
                known,
                pinned,
                target@,
                policy,
                j,
            ),
        decreases installed.len() - i,
    {
        assert(all[i as int] == installed@[i as int].deep_view());
        let from_path = match &installed[i].version {
            Authority::Path { .. } => true,
            _ => false,
        };
        let ask = from_path && policy == PathUpdate::Interactive && change_of(
            &installed[i],
            &upstream.components,
            &pins[i],
            target,
        ) == ChangeClass::InstallationImpacting;
        asked.push(ask);
        i += 1;
    }
    asked
}

/// Decides which components have to be acquired anew, given the user's answers. Nothing where the
/// user cancelled.
pub fn changes_for(
    installed: &Vec<Component>,
    upstream: &Channel,
    pins: &Vec<(Result<ResolvedAuthority, PinError>, Result<ResolvedAuthority, PinError>)>,
    target: &str,
    policy: PathUpdate,
    answers: &Vec<InteractiveResult>,
) -> (r: Option<Changes>)
    requires
        pins@.len() == installed@.len(),
        answers@.len() == installed@.len(),
    ensures
        r.deep_view() == changes(
            installed.deep_view(),
            upstream.deep_view().components,
            pin_facts(pins@),
            target@,
            policy,
            answers@,
            installed@.len() as int,
        ),
{
    let ghost (all, known, pinned) = (
        installed.deep_view(),
        upstream.deep_view().components,
        pin_facts(pins@),
    );
    let mut found = Changes::default();
    let mut i: usize = 0;
    while i < installed.len()
        invariant
            i <= installed@.len() == pins@.len() == answers@.len(),
            all == installed.deep_view(),
            known == upstream.deep_view().components,
            pinned == pin_facts(pins@),
            changes(all, known, pinned, target@, policy, answers@, i as int) == Some(
                found.deep_view(),
            ),
        decreases installed.len() - i,
    {
        assert(all[i as int] == installed@[i as int].deep_view());
        let ghost before = found.deep_view();
        let change = change_of(&installed[i], &upstream.components, &pins[i], target);
        assert(change == change_at(all, known, pinned, target@, i as int));
        match change {
            ChangeClass::Unchanged => {},
            ChangeClass::GraphOnly => {
                found.logical_only = true;
            },
            ChangeClass::RuntimeMetadataOnly => {
                found.logical_only = true;
            },
            ChangeClass::InstallationImpacting => {
                match update_decision(&installed[i], policy, answers[i]) {
                    ComponentUpdateDecision::Abort => {
                        proof {
                            cancelled_for_good(
                                all,
                                known,
                                pinned,
                                target@,
                                policy,
                                answers@,
                                i + 1,
                                all.len() as int,
                            );
                        }
                        return None;
                    },
                    ComponentUpdateDecision::Keep => {
                        found.held_back.push(installed[i].clone());
                        if must_follow(&installed[i], &upstream.components) {
                            found.logical_only = true;
                        }
                        assert(found.held_back.deep_view() =~= before.held_back.push(
                            all[i as int],
                        ));
                    },
                    ComponentUpdateDecision::Update => {
                        found.stale.push(installed[i].name.clone());
                        assert(found.stale.deep_view() =~= before.stale.push(all[i as int].name));
                    },
                }
            },
        }
        assert(considered(
            before,
            all[i as int],
            change,
            follows(all, known, i as int),
            policy,
            answers@[i as int],
        ) == Some(found.deep_view()));
        i += 1;
    }
    Some(found)
}

proof fn cancelled_for_good(
    installed: Seq<ComponentFacts>,
    upstream: Seq<ComponentFacts>,
    pins: Seq<(Result<PinnedFacts, Seq<char>>, Result<PinnedFacts, Seq<char>>)>,
    target: Seq<char>,
    policy: PathUpdate,
    answers: Seq<InteractiveResult>,
    n: int,
    m: int,
)
    requires
        0 < n <= m,
        changes(installed, upstream, pins, target, policy, answers, n) is None,
    ensures
        changes(installed, upstream, pins, target, policy, answers, m) is None,
    decreases m - n,
{
    if n < m {
        cancelled_for_good(installed, upstream, pins, target, policy, answers, n, m - 1);
    }
}

// ---------------------------------------------------------------------------------------------
// How much work that is

/// Which intent the result is recorded under.
#[derive(Debug, PartialEq, Eq)]
pub enum IntentUpdate {
    /// The one that is recorded.
    Preserve,
    Replace(Intent),
}

/// What an [`IntentUpdate`] holds.
#[verifier::ext_equal]
pub enum IntentUpdateFacts {
    Preserve,
    Replace(IntentFacts),
}

impl DeepView for IntentUpdate {
    type V = IntentUpdateFacts;

    open spec fn deep_view(&self) -> IntentUpdateFacts {
        match self {
            IntentUpdate::Preserve => IntentUpdateFacts::Preserve,
            IntentUpdate::Replace(intent) => IntentUpdateFacts::Replace(intent.deep_view()),
        }
    }
}

/// The intent that the result is recorded under. Where nothing is recorded, nothing was asked for.
pub open spec fn intended(
    state: Seq<InstallationFacts>,
    channel: Seq<char>,
    update: IntentUpdateFacts,
) -> IntentFacts {
    match update {
        IntentUpdateFacts::Replace(intent) => intent,
        IntentUpdateFacts::Preserve => match state::installation_of(state, channel) {
            Some(installation) => installation.intent,
            None => IntentFacts { profiles: Seq::empty(), roots: Seq::empty() },
        },
    }
}

/// The intent that the result is recorded under.
pub fn effective_intent(state: &LocalState, channel: &Version, update: &IntentUpdate) -> (r: Intent)
    ensures
        r.deep_view() == intended(state.deep_view(), channel@, update.deep_view()),
{
    match update {
        IntentUpdate::Replace(intent) => intent.clone(),
        IntentUpdate::Preserve => match state.get(channel) {
            Some(installation) => installation.intent.clone(),
            None => {
                let intent = Intent { profiles: Vec::new(), roots: Vec::new() };
                assert(intent.deep_view() =~= (IntentFacts {
                    profiles: Seq::empty(),
                    roots: Seq::empty(),
                }));
                intent
            },
        },
    }
}

/// How much an update needs.
#[derive(Debug, Clone, Copy, PartialEq, Eq, Structural)]
pub enum Work {
    /// Stage and publish.
    Physical,
    /// Record, and nothing else.
    LogicalOnly,
    Nothing,
}

/// The names of some components.
pub open spec fn names(components: Seq<ComponentFacts>) -> Set<Seq<char>> {
    Set::new(|name: Seq<char>| resolve::declares(components, name))
}

/// How much an update needs. The installed set is held against the resolved one, not against what
/// changed: resolving the same intent against a new channel can add or drop components.
pub open spec fn work(
    upstream: ChannelFacts,
    state: Seq<InstallationFacts>,
    changes: ChangesFacts,
    update: IntentUpdateFacts,
) -> Result<Work, ResolutionFacts> {
    let intent = intended(state, upstream.name, update);
    match state::installation_of(state, upstream.name) {
        None => Ok(Work::Physical),
        Some(installed) => if changes.stale.len() > 0 {
            Ok(Work::Physical)
        } else {
            match resolve::resolved(upstream.components, intent) {
                Err(e) => Err(e),
                Ok(order) => if names(installed.components) != names(
                    resolve::picked(upstream.components, order),
                ) {
                    Ok(Work::Physical)
                } else if changes.logical_only || !resolve::intents_alike(
                    installed.intent,
                    intent,
                ) {
                    Ok(Work::LogicalOnly)
                } else {
                    Ok(Work::Nothing)
                },
            }
        },
    }
}

fn named_within(components: &Vec<Component>, others: &Vec<&Component>) -> (r: bool)
    ensures
        r == names(components.deep_view()).subset_of(names(others.deep_view())),
{
    let ghost (all, within) = (components.deep_view(), others.deep_view());
    let mut i: usize = 0;
    while i < components.len()
        invariant
            i <= components@.len(),
            all == components.deep_view(),
            within == others.deep_view(),
            forall|j: int| 0 <= j < i ==> resolve::declares(within, (#[trigger] all[j]).name),
        decreases components.len() - i,
    {
        assert(all[i as int] == components@[i as int].deep_view());
        let mut found = false;
        let mut k: usize = 0;
        while k < others.len()
            invariant
                k <= others@.len(),
                i < components@.len(),
                all == components.deep_view(),
                within == others.deep_view(),
                all[i as int] == components@[i as int].deep_view(),
                found == exists|j: int|
                    0 <= j < k && (#[trigger] within[j]).name == all[i as int].name,
            decreases others.len() - k,
        {
            assert(within[k as int] == others@[k as int].deep_view());
            if text::same(others[k].name.as_str(), components[i].name.as_str()) {
                found = true;
            }
            k += 1;
        }
        if !found {
            assert(names(all).contains(all[i as int].name));
            assert(!names(within).contains(all[i as int].name));
            return false;
        }
        i += 1;
    }
    true
}

fn names_within(others: &Vec<&Component>, components: &Vec<Component>) -> (r: bool)
    ensures
        r == names(others.deep_view()).subset_of(names(components.deep_view())),
{
    let ghost (all, within) = (others.deep_view(), components.deep_view());
    let mut i: usize = 0;
    while i < others.len()
        invariant
            i <= others@.len(),
            all == others.deep_view(),
            within == components.deep_view(),
            forall|j: int| 0 <= j < i ==> resolve::declares(within, (#[trigger] all[j]).name),
        decreases others.len() - i,
    {
        assert(all[i as int] == others@[i as int].deep_view());
        if resolve::position_of(components, others[i].name.as_str()).is_none() {
            assert(names(all).contains(all[i as int].name));
            assert(!names(within).contains(all[i as int].name));
            return false;
        }
        i += 1;
    }
    true
}

/// Decides how much an update needs.
pub fn work_for(
    upstream: &Channel,
    state: &LocalState,
    changes: &Changes,
    update: &IntentUpdate,
) -> (r: Result<Work, ResolutionError>)
    ensures
        match r {
            Ok(w) => work(
                upstream.deep_view(),
                state.deep_view(),
                changes.deep_view(),
                update.deep_view(),
            ) == Ok::<Work, ResolutionFacts>(w),
            Err(e) => work(
                upstream.deep_view(),
                state.deep_view(),
                changes.deep_view(),
                update.deep_view(),
            ) == Err::<Work, ResolutionFacts>(e.deep_view()),
        },
{
    if changes.stale.len() > 0 {
        assert(changes.deep_view().stale.len() > 0);
        return Ok(Work::Physical);
    }
    let installed = match state.get(&upstream.name) {
        Some(installed) => installed,
        None => return Ok(Work::Physical),
    };
    let intent = effective_intent(state, &upstream.name, update);
    let resolved = match resolve::resolve(upstream, &intent) {
        Ok(resolved) => resolved,
        Err(e) => return Err(e),
    };
    let ghost (x, y) = (names(installed.components.deep_view()), names(resolved.deep_view()));
    if !named_within(&installed.components, &resolved) || !names_within(
        &resolved,
        &installed.components,
    ) {
        assert(x != y);
        return Ok(Work::Physical);
    }
    assert(x =~= y);
    if changes.logical_only || !installed.intent.same(&intent) {
        return Ok(Work::LogicalOnly);
    }
    Ok(Work::Nothing)
}

/// The components of a channel that come from a path and that cargo builds: what each is called and
/// where it comes from.
pub open spec fn from_paths(components: Seq<ComponentFacts>) -> Seq<(Seq<char>, Seq<char>)>
    decreases components.len(),
{
    if components.len() == 0 {
        Seq::empty()
    } else {
        let before = from_paths(components.drop_last());
        let c = components.last();
        match (c.version, crate::manifest::cargo_package(c)) {
            (AuthorityFacts::Path { path, .. }, Some(crate_name)) => before.push((crate_name, path)),
            _ => before,
        }
    }
}

/// What the user is told before path-managed components are installed.
#[derive(Debug, PartialEq, Eq)]
pub struct Warnings {
    /// What is installed from where.
    pub from_paths: Vec<(String, String)>,
    /// Whether to say how the held-back ones can be updated.
    pub hint: bool,
}

/// What [`Warnings`] hold.
#[verifier::ext_equal]
pub struct WarningFacts {
    pub from_paths: Seq<(Seq<char>, Seq<char>)>,
    pub hint: bool,
}

impl DeepView for Warnings {
    type V = WarningFacts;

    open spec fn deep_view(&self) -> WarningFacts {
        WarningFacts { from_paths: self.from_paths.deep_view(), hint: self.hint }
    }
}

/// What the user is told, if anything.
pub open spec fn warned(
    upstream: ChannelFacts,
    changes: ChangesFacts,
    policy: PathUpdate,
) -> Option<WarningFacts> {
    let listed = from_paths(upstream.components);
    if listed.len() == 0 {
        None
    } else {
        Some(
            WarningFacts {
                from_paths: listed,
                hint: policy == PathUpdate::Off && changes.held_back.len() > 0,
            },
        )
    }
}

/// What to tell the user before an update installs anything.
pub fn display_warnings(upstream: &Channel, changes: &Changes, policy: PathUpdate) -> (r: Option<
    Warnings,
>)
    ensures
        r.deep_view() == warned(upstream.deep_view(), changes.deep_view(), policy),
{
    let ghost all = upstream.deep_view().components;
    let mut listed: Vec<(String, String)> = Vec::new();
    let mut i: usize = 0;
    assert(all.take(0) =~= Seq::empty());
    assert(listed.deep_view() =~= from_paths(all.take(0)));
    while i < upstream.components.len()
        invariant
            i <= upstream.components@.len(),
            all == upstream.deep_view().components,
            listed.deep_view() == from_paths(all.take(i as int)),
        decreases upstream.components.len() - i,
    {
        let component = &upstream.components[i];
        let ghost before = listed.deep_view();
        assert(all[i as int] == component.deep_view());
        assert(all.take(i + 1).drop_last() =~= all.take(i as int));
        assert(all.take(i + 1).last() == all[i as int]);
        if let Authority::Path { path, .. } = &component.version {
            if let Some(crate_name) = component.crate_name() {
                let ghost entry = (crate_name@, path@);
                listed.push((crate_name, path.clone()));
                assert(listed.deep_view() =~= before.push(entry));
            }
        }
        i += 1;
    }
    assert(all.take(i as int) =~= all);
    if listed.len() == 0 {
        return None;
    }
    let hint = policy == PathUpdate::Off && changes.held_back.len() > 0;
    Some(Warnings { from_paths: listed, hint })
}

/// What an update does about a channel.
#[derive(Debug, PartialEq, Eq)]
pub enum UpdateAction {
    /// Install the channel, after telling the user what is to be told.
    Install { warnings: Option<Warnings> },
    /// Record what changed: no staging and no new publication.
    Record,
    /// The channel is up to date.
    Nothing,
}

/// What an [`UpdateAction`] holds.
#[verifier::ext_equal]
pub enum ActionFacts {
    Install { warnings: Option<WarningFacts> },
    Record,
    Nothing,
}

impl DeepView for UpdateAction {
    type V = ActionFacts;

    open spec fn deep_view(&self) -> ActionFacts {
        match self {
            UpdateAction::Install { warnings } => ActionFacts::Install {
                warnings: warnings.deep_view(),
            },
            UpdateAction::Record => ActionFacts::Record,
            UpdateAction::Nothing => ActionFacts::Nothing,
        }
    }
}

/// What an update does about a channel.
pub open spec fn acted(
    upstream: ChannelFacts,
    state: Seq<InstallationFacts>,
    update: IntentUpdateFacts,
    changes: ChangesFacts,
    policy: PathUpdate,
) -> Result<ActionFacts, ResolutionFacts> {
    match work(upstream, state, changes, update) {
        Err(e) => Err(e),
        Ok(Work::Physical) => Ok(
            ActionFacts::Install { warnings: warned(upstream, changes, policy) },
        ),
        Ok(Work::LogicalOnly) => Ok(ActionFacts::Record),
        Ok(Work::Nothing) => Ok(ActionFacts::Nothing),
    }
}

/// Decides what an update does about a channel: the install, unless less than that is needed.
pub fn install_for_update(
    upstream: &Channel,
    state: &LocalState,
    update: &IntentUpdate,
    changes: &Changes,
    policy: PathUpdate,
) -> (r: Result<UpdateAction, ResolutionError>)
    ensures
        match r {
            Ok(action) => acted(
                upstream.deep_view(),
                state.deep_view(),
                update.deep_view(),
                changes.deep_view(),
                policy,
            ) == Ok::<ActionFacts, ResolutionFacts>(action.deep_view()),
            Err(e) => acted(
                upstream.deep_view(),
                state.deep_view(),
                update.deep_view(),
                changes.deep_view(),
                policy,
            ) == Err::<ActionFacts, ResolutionFacts>(e.deep_view()),
        },
{
    match work_for(upstream, state, changes, update) {
        Err(e) => Err(e),
        Ok(Work::Physical) => Ok(
            UpdateAction::Install { warnings: display_warnings(upstream, changes, policy) },
        ),
        Ok(Work::LogicalOnly) => Ok(UpdateAction::Record),
        Ok(Work::Nothing) => Ok(UpdateAction::Nothing),
    }
}

} // verus!
