//! What results stand for, and when two values count as one.

use vstd::prelude::*;

use crate::artifact;
use crate::artifact::resolution;
use crate::artifact::{
    InvalidArtifactError, InvalidArtifactFacts, ResolvedArtifact, ResolvedFacts, UriFacts,
};
use crate::exec::Executable;
use crate::install::archive;
use crate::install::archive::{ArchiveError, ArchiveErrorFacts};
use crate::install::cargo;
use crate::install::cargo::Exit;
use crate::install::execution;
use crate::install::execution::{EventFacts, Phase};
use crate::manifest::upgrade;
use crate::manifest::{ChannelFacts, ComponentFacts};
use crate::path;
use crate::plan::authority;
use crate::plan::authority::{PinError, PinnedFacts, ResolvedAuthority};
use crate::plan::planner;
use crate::plan::planner::{InstallationPlan, PlanError, PlanErrorFacts, PlanFacts};
use crate::plan::step;
use crate::plan::step::StepFacts;
use crate::resolve;
use crate::resolve::IntentFacts;
use crate::text;
use crate::update;
use crate::value;
use crate::value::Json;
use crate::version;
use crate::version::AuthorityFacts;

verus! {

// ---------------------------------------------------------------------------------------------
// Results

/// A resolution hands out what was resolved, all of it, and the very error where there is one.
pub proof fn resolutions_are_handed_out_whole(
    r: Result<Option<ResolvedArtifact>, InvalidArtifactError>,
    facts: Result<Option<ResolvedFacts>, InvalidArtifactFacts>,
)
    requires
        resolution::agrees(r, facts),
    ensures
        match (r, facts) {
            (Ok(Some(a)), Ok(Some(b))) => a.uri.deep_view() == b.uri && a.archive.deep_view()
                == b.archive,
            (Ok(None), Ok(None)) => true,
            (Err(e), Err(f)) => e.deep_view() == f,
            _ => false,
        },
{
}

/// A list of resolutions hands out each one in its place, under its id.
pub proof fn lists_are_handed_out_in_order(
    r: Result<Vec<(&str, ResolvedArtifact)>, InvalidArtifactError>,
    facts: Result<Seq<(Seq<char>, ResolvedFacts)>, InvalidArtifactFacts>,
    i: int,
)
    requires
        resolution::agrees_all(r, facts),
    ensures
        match (r, facts) {
            (Ok(a), Ok(b)) => a@.len() == b.len() && (0 <= i < b.len() ==> a@[i].0@ == b[i].0
                && a@[i].1.deep_view() == b[i].1),
            (Err(e), Err(f)) => e.deep_view() == f,
            _ => false,
        },
{
    if let Ok(a) = r {
        if 0 <= i < a@.len() {
            assert(a.deep_view()[i] == a@[i].deep_view());
        }
    }
}

/// What is read out of an archive is handed out as it was read, and the very error where there is one.
pub proof fn files_are_handed_out_whole(
    r: Result<Vec<u8>, ArchiveError>,
    facts: Result<Seq<u8>, ArchiveErrorFacts>,
)
    requires
        archive::yields(r, facts),
    ensures
        match (r, facts) {
            (Ok(a), Ok(b)) => a@ == b,
            (Err(e), Err(f)) => e.deep_view() == f,
            _ => false,
        },
{
}

/// A plan is handed out with every step and every shim in its place, or with the very error.
pub proof fn plans_are_handed_out_whole(
    r: Result<InstallationPlan, PlanError>,
    facts: Result<PlanFacts, PlanErrorFacts>,
    i: int,
)
    requires
        planner::plans(r, facts),
    ensures
        match (r, facts) {
            (Ok(a), Ok(b)) => {
                &&& a.target@ == b.target
                &&& a.channel@ == b.channel
                &&& a.key@ == b.key
                &&& a.steps@.len() == b.steps.len()
                &&& 0 <= i < b.steps.len() ==> a.steps@[i].deep_view() == b.steps[i]
                &&& a.symlinks@.len() == b.symlinks.len()
                &&& 0 <= i < b.symlinks.len() ==> a.symlinks@[i].name@ == b.symlinks[i].0
                    && a.symlinks@[i].target_binary@ == b.symlinks[i].1
            },
            (Err(e), Err(f)) => e.deep_view() == f,
            _ => false,
        },
{
    if let Ok(a) = r {
        if 0 <= i < a.steps@.len() {
            assert(a.steps.deep_view()[i] == a.steps@[i].deep_view());
        }
        if 0 <= i < a.symlinks@.len() {
            assert(a.symlinks.deep_view()[i] == a.symlinks@[i].deep_view());
        }
    }
}

/// What became of pinning counts in its place: the pinned authority, or the message; of a pair, the
/// installed one in front.
pub proof fn pins_count_in_their_places(
    pins: Seq<Result<ResolvedAuthority, PinError>>,
    pairs: Seq<(Result<ResolvedAuthority, PinError>, Result<ResolvedAuthority, PinError>)>,
    i: int,
)
    ensures
        planner::pins_facts(pins).len() == pins.len(),
        0 <= i < pins.len() ==> match pins[i] {
            Ok(a) => planner::pins_facts(pins)[i] == Ok::<PinnedFacts, Seq<char>>(a.deep_view()),
            Err(e) => planner::pins_facts(pins)[i] == Err::<PinnedFacts, Seq<char>>(e@),
        },
        update::pin_facts(pairs).len() == pairs.len(),
        0 <= i < pairs.len() ==> update::pin_facts(pairs)[i].0 == authority::pinned(pairs[i].0)
            && update::pin_facts(pairs)[i].1 == authority::pinned(pairs[i].1),
{
}

/// What was seen of a run of cargo, of an archive's entries, of an entry's contents and of a converted
/// command counts as it is.
pub proof fn observations_count_as_they_are(
    ran: Result<Exit, String>,
    listing: Result<Vec<Result<bool, String>>, String>,
    contents: Result<Vec<u8>, String>,
    command: Result<Executable, String>,
    i: int,
)
    ensures
        match ran {
            Ok(exit) => cargo::run_facts(ran) == Ok::<(bool, Seq<char>), Seq<char>>(
                (exit.success, exit.status@),
            ),
            Err(message) => cargo::run_facts(ran) == Err::<(bool, Seq<char>), Seq<char>>(message@),
        },
        match listing {
            Ok(entries) => archive::listing_facts(listing) matches Ok(all) && all.len()
                == entries@.len() && (0 <= i < all.len() ==> match entries@[i] {
                Ok(regular) => all[i] == Ok::<bool, Seq<char>>(regular),
                Err(reason) => all[i] == Err::<bool, Seq<char>>(reason@),
            }),
            Err(reason) => archive::listing_facts(listing) matches Err(r) && r == reason@,
        },
        match contents {
            Ok(bytes) => archive::contents_facts(contents) == Ok::<Seq<u8>, Seq<char>>(bytes@),
            Err(reason) => archive::contents_facts(contents) == Err::<Seq<u8>, Seq<char>>(reason@),
        },
        match command {
            Ok(template) => upgrade::outcome(command) == Ok::<Seq<Seq<char>>, Seq<char>>(
                template.words.deep_view(),
            ),
            Err(message) => upgrade::outcome(command) == Err::<Seq<Seq<char>>, Seq<char>>(message@),
        },
{
}

/// The files of a directory are those that its listing names, each once and in the order of their
/// names.
pub proof fn directories_are_listed_once(
    listing: Seq<Seq<char>>,
    names: Seq<Seq<char>>,
    i: int,
    j: int,
    name: Seq<char>,
)
    requires
        cargo::names_of(listing, names),
    ensures
        0 <= i < j < names.len() ==> text::precedes(names[i], names[j]),
        names.contains(name) <==> listing.contains(name),
{
}

/// A phase waits for an answer while it looks for a file, for nothing once all is done, and otherwise
/// for the end of what is being done.
pub proof fn phases_wait_for_what_they_asked(phase: Phase, event: EventFacts)
    ensures
        execution::awaits(phase, event) <==> match phase {
            Phase::Probing => event is Exists,
            Phase::Running | Phase::FallingBack | Phase::Extracting | Phase::Linking => event is Finished,
            Phase::Done => false,
        },
{
}

/// What an intent selects from a channel is planned, in the order in which it is resolved and under the
/// channel's name; an intent that cannot be resolved fails with that very error.
pub proof fn plans_are_made_of_what_is_resolved(
    channel: ChannelFacts,
    intent: IntentFacts,
    pins: Seq<Result<PinnedFacts, Seq<char>>>,
    target: Seq<char>,
    sysroot: Seq<char>,
    chosen: Seq<ComponentFacts>,
)
    ensures
        match resolve::resolved(channel.components, intent) {
            Err(e) => planner::planned_from(channel, intent, pins, target, sysroot) == Err::<
                PlanFacts,
                PlanErrorFacts,
            >(PlanErrorFacts::Resolution(e)),
            Ok(order) => chosen.len() == order.len() && (forall|i: int|
                0 <= i < order.len() ==> #[trigger] chosen[i] == channel.components[order[i]])
                ==> planner::planned_from(channel, intent, pins, target, sysroot)
                == planner::planned(channel.name, chosen, pins, target, sysroot),
        },
{
    if let Ok(order) = resolve::resolved(channel.components, intent) {
        if chosen.len() == order.len() && (forall|i: int|
            0 <= i < order.len() ==> #[trigger] chosen[i] == channel.components[order[i]]) {
            assert(chosen =~= resolve::picked(channel.components, order));
        }
    }
}

// ---------------------------------------------------------------------------------------------
// When two values count as one

/// Documents that are neither numbers, lists nor objects count as they are; lists count item by item,
/// in their order.
pub proof fn lists_are_compared_by_item(a: Seq<Json>, b: Seq<Json>, j: Json)
    ensures
        value::meant(Json::List(a)) == value::meant(Json::List(b)) <==> a.len() == b.len() && forall|
            i: int,
        | 0 <= i < a.len() ==> value::meant(#[trigger] a[i]) == value::meant(b[i]),
        j is Null || j is Bool || j is Text ==> value::meant(j) == j,
        value::meant(Json::List(a)) is List,
        j is Number <==> value::meant(j) is Number,
        j is Object <==> value::meant(j) is Object,
{
    let (x, y) = (value::items_meant(a), value::items_meant(b));
    if value::meant(Json::List(a)) == value::meant(Json::List(b)) {
        assert(x == y);
        assert(x.len() == a.len() && y.len() == b.len());
        assert forall|i: int| 0 <= i < a.len() implies value::meant(#[trigger] a[i])
            == value::meant(b[i]) by {
            assert(x[i] == y[i]);
        }
    }
    if a.len() == b.len() && (forall|i: int|
        0 <= i < a.len() ==> value::meant(#[trigger] a[i]) == value::meant(b[i])) {
        assert(x =~= y);
    }
}

/// Two URIs are one where they are the same place of the file system or the same address; two sources
/// where they are the same but for how a directory is spelled.
pub proof fn only_the_spelling_of_paths_is_ignored(
    u: UriFacts,
    v: UriFacts,
    a: AuthorityFacts,
    b: AuthorityFacts,
    p: PinnedFacts,
    q: PinnedFacts,
)
    ensures
        artifact::uris_alike(u, v) <==> match (u, v) {
            (UriFacts::File(x), UriFacts::File(y)) => path::same_place(x, y),
            (UriFacts::Http(x), UriFacts::Http(y)) => x == y,
            _ => false,
        },
        version::authorities_alike(a, b) <==> match (a, b) {
            (AuthorityFacts::Registry { version: x }, AuthorityFacts::Registry { version: y }) => x
                == y,
            (
                AuthorityFacts::Git { repository_url: x, subpath: s, target: t },
                AuthorityFacts::Git { repository_url: y, subpath: r, target: w },
            ) => x == y && s == r && t == w,
            (
                AuthorityFacts::Path { path: x, last_modification: s },
                AuthorityFacts::Path { path: y, last_modification: t },
            ) => path::same_place(x, y) && s == t,
            _ => false,
        },
        authority::pins_alike(p, q) <==> match (p, q) {
            (PinnedFacts::Registry { version: x }, PinnedFacts::Registry { version: y }) => x == y,
            (
                PinnedFacts::Git { url: x, revision: s, subpath: t },
                PinnedFacts::Git { url: y, revision: r, subpath: w },
            ) => x == y && s == r && t == w,
            (
                PinnedFacts::Path { canonical: x, mtime: s },
                PinnedFacts::Path { canonical: y, mtime: t },
            ) => path::same_place(x, y) && s == t,
            _ => false,
        },
{
}

/// Two steps are one where they do the same for the same component: the kinds of both are the same, all
/// that they hold is the same but for how paths are spelled, and so is what they fall back on.
pub proof fn steps_are_one_where_they_do_the_same(a: StepFacts, b: StepFacts)
    ensures
        step::steps_alike(a, b) ==> a.owner() == b.owner() && a.mode() == b.mode()
            && path::same_place(a.dest(), b.dest()) && match (a, b) {
            (
                StepFacts::Download { uri: u, digest: d, archive: x, .. },
                StepFacts::Download { uri: v, digest: e, archive: y, .. },
            ) => u == v && d == e && x == y,
            (
                StepFacts::CopyLocal { src: s, archive: x, .. },
                StepFacts::CopyLocal { src: t, archive: y, .. },
            ) => path::same_place(s, t) && x == y,
            (
                StepFacts::CargoBuild {
                    crate_name: c,
                    features: f,
                    rustup_channel: x,
                    expect_binary: k,
                    authority: p,
                    ..
                },
                StepFacts::CargoBuild {
                    crate_name: d,
                    features: g,
                    rustup_channel: y,
                    expect_binary: l,
                    authority: q,
                    ..
                },
            ) => c == d && f == g && x == y && k == l && authority::pins_alike(p, q),
            (
                StepFacts::ExtractPackage {
                    crate_name: c,
                    features: f,
                    extractor: x,
                    authority: p,
                    ..
                },
                StepFacts::ExtractPackage {
                    crate_name: d,
                    features: g,
                    extractor: y,
                    authority: q,
                    ..
                },
            ) => c == d && f == g && x == y && authority::pins_alike(p, q),
            _ => false,
        },
        step::steps_alike(a, b) ==> match (a.fallback(), b.fallback()) {
            (Some(f), Some(g)) => step::steps_alike(f, g),
            (None, None) => true,
            _ => false,
        },
        step::steps_alike(a, a),
    decreases a,
{
    match a {
        StepFacts::Download { fallback: Some(f), .. } => steps_are_one_where_they_do_the_same(
            *f,
            *f,
        ),
        StepFacts::CopyLocal { fallback: Some(f), .. } => steps_are_one_where_they_do_the_same(
            *f,
            *f,
        ),
        _ => {},
    }
}

/// Two intents are one where they ask for the same profiles and the same components.
pub proof fn intents_are_one_where_they_ask_for_the_same(
    a: IntentFacts,
    b: IntentFacts,
    profile: crate::profile::Profile,
    name: Seq<char>,
)
    requires
        resolve::intents_alike(a, b),
    ensures
        a.profiles.contains(profile) <==> b.profiles.contains(profile),
        a.roots.contains(name) <==> b.roots.contains(name),
{
    assert(a.profiles.to_set().contains(profile) == b.profiles.to_set().contains(profile));
    assert(a.roots.to_set().contains(name) == b.roots.to_set().contains(name));
}

} // verus!
