//! What an execution does about each thing that happens.

use vstd::prelude::*;

use crate::install::execution;
use crate::install::execution::{ActionFacts, EventFacts, ExecutionFacts, Phase};
use crate::install::stage::StageErrorFacts;
use crate::plan::content_laws;
use crate::plan::step::StepFacts;
use crate::sorted;
use crate::state::RealizedMethod;

verus! {

/// How a step produces its file when it is performed.
pub open spec fn is_how(step: StepFacts, method: RealizedMethod) -> bool {
    match step {
        StepFacts::Download { .. } => method == RealizedMethod::Prebuilt,
        StepFacts::CopyLocal { .. } => method == RealizedMethod::Prebuilt,
        StepFacts::CargoBuild { .. } => method == RealizedMethod::Cargo,
        StepFacts::ExtractPackage { .. } => method == RealizedMethod::Extracted,
    }
}

/// Where a step puts its file.
pub open spec fn place_of(step: StepFacts) -> Seq<char> {
    match step {
        StepFacts::Download { dest, .. } => dest,
        StepFacts::CopyLocal { dest, .. } => dest,
        StepFacts::CargoBuild { dest, .. } => dest,
        StepFacts::ExtractPackage { dest, .. } => dest,
    }
}

/// Whether what is reported is what was before, and of one more place how its file was produced.
pub open spec fn reports_one_more(
    before: Seq<(Seq<char>, RealizedMethod)>,
    after: Seq<(Seq<char>, RealizedMethod)>,
    place: Seq<char>,
    step: StepFacts,
) -> bool {
    &&& sorted::lookup(after, place) matches Some(method) && is_how(step, method)
    &&& forall|other: Seq<char>|
        other != place ==> #[trigger] sorted::lookup(after, other) == sorted::lookup(before, other)
}

/// Whether nothing is done with the current step any more: what is done next is to look for the next
/// one, or what comes behind the last.
pub open spec fn goes_on(
    s: ExecutionFacts,
    next: ExecutionFacts,
    steps: Seq<StepFacts>,
) -> bool {
    &&& next.index == s.index + 1
    &&& if next.index < steps.len() {
        execution::due(next, steps) == (ActionFacts::Probe { dest: place_of(steps[next.index]) })
    } else if next.pending.len() > 0 {
        execution::due(next, steps) is Extract
    } else {
        execution::due(next, steps) is Link
    }
}

/// An execution starts by looking for the first step's file, with nothing collected and nothing
/// reported.
pub proof fn executions_start_with_the_first_step(steps: Seq<StepFacts>)
    ensures
        ({
            let s = execution::started(steps);
            &&& s.pending.len() == 0
            &&& s.realized.len() == 0
            &&& s.index == 0
            &&& if steps.len() > 0 {
                execution::due(s, steps) == (ActionFacts::Probe { dest: place_of(steps[0]) })
            } else {
                execution::due(s, steps) is Link
            }
        }),
{
}

/// A step whose file is in place is passed over: nothing is run for it, collected of it or reported of
/// it.
pub proof fn files_in_place_are_left_alone(s: ExecutionFacts, steps: Seq<StepFacts>)
    requires
        execution::fits(s, steps),
        s.phase is Probing,
    ensures
        execution::advanced(s, EventFacts::Exists(true), steps) matches Ok(next) && {
            &&& goes_on(s, next, steps)
            &&& next.pending == s.pending
            &&& next.realized == s.realized
        },
{
}

/// A step whose file is missing is performed at once, unless it is an extraction: that one is put
/// behind those that have been collected.
pub proof fn missing_files_are_produced(s: ExecutionFacts, steps: Seq<StepFacts>)
    requires
        execution::fits(s, steps),
        s.phase is Probing,
    ensures
        execution::advanced(s, EventFacts::Exists(false), steps) matches Ok(next) && {
            &&& next.realized == s.realized
            &&& if steps[s.index] is ExtractPackage {
                goes_on(s, next, steps) && next.pending == s.pending.push(s.index)
            } else {
                &&& next.index == s.index
                &&& next.pending == s.pending
                &&& execution::due(next, steps) == (ActionFacts::Run { step: steps[s.index] })
            }
        },
{
}

/// A step that succeeds is reported as produced the way that such a step produces its file, and the
/// execution goes on. So is a fallback, which is reported as what it is itself, under the place of the
/// step that it stands in for.
pub proof fn success_is_reported(s: ExecutionFacts, steps: Seq<StepFacts>)
    requires
        execution::fits(s, steps),
        s.phase is Running || s.phase is FallingBack,
    ensures
        ({
            let step = steps[s.index];
            let performed = if s.phase is Running {
                step
            } else {
                content_laws::instead_of(step)->0
            };
            execution::advanced(s, EventFacts::Finished(Ok(())), steps) matches Ok(next) && {
                &&& goes_on(s, next, steps)
                &&& next.pending == s.pending
                &&& reports_one_more(s.realized, next.realized, place_of(step), performed)
            }
        }),
{
    content_laws::steps_say_what_they_hold(steps[s.index]);
    let step = steps[s.index];
    let performed = if s.phase is Running {
        step
    } else {
        content_laws::instead_of(step)->0
    };
    let method = execution::method_of(performed)->Ok_0;
    let next = execution::advanced(s, EventFacts::Finished(Ok(())), steps)->Ok_0;
    assert(next.realized == sorted::put(s.realized, place_of(step), method));
    sorted::put_is_found(s.realized, place_of(step), method, place_of(step));
    assert forall|other: Seq<char>| other != place_of(step) implies #[trigger] sorted::lookup(
        next.realized,
        other,
    ) == sorted::lookup(s.realized, other) by {
        sorted::put_is_found(s.realized, place_of(step), method, other);
    }
}

/// A step that fails and has something to fall back on does not end the execution, whatever kind of
/// transfer it is: the fallback is performed next, with nothing reported of the failure.
pub proof fn failures_fall_back(s: ExecutionFacts, steps: Seq<StepFacts>, e: StageErrorFacts)
    requires
        execution::fits(s, steps),
        s.phase is Running,
        content_laws::instead_of(steps[s.index]) is Some,
        !(content_laws::instead_of(steps[s.index])->0 is ExtractPackage),
    ensures
        execution::advanced(s, EventFacts::Finished(Err(e)), steps) matches Ok(next) && {
            &&& execution::due(next, steps) == (ActionFacts::Run {
                step: content_laws::instead_of(steps[s.index])->0,
            })
            &&& next.index == s.index
            &&& next.pending == s.pending
            &&& next.realized == s.realized
        },
{
    content_laws::steps_say_what_they_hold(steps[s.index]);
}

/// Any other failure ends the execution with its own error: that of a step with nothing to fall back
/// on, of a fallback, of the extractions, or of the shims. An extraction cannot be fallen back on, and
/// its owner is named where one is declared so.
pub proof fn other_failures_are_final(s: ExecutionFacts, steps: Seq<StepFacts>, e: StageErrorFacts)
    requires
        execution::fits(s, steps),
        !(s.phase is Probing) && !(s.phase is Done),
        s.phase is Running && content_laws::instead_of(steps[s.index]) is Some
            ==> content_laws::instead_of(steps[s.index])->0 is ExtractPackage,
    ensures
        execution::advanced(s, EventFacts::Finished(Err(e)), steps) == Err::<
            ExecutionFacts,
            StageErrorFacts,
        >(
            if s.phase is Running && content_laws::instead_of(steps[s.index]) is Some {
                StageErrorFacts::UnsupportedFallback {
                    owner: content_laws::instead_of(steps[s.index])->0->ExtractPackage_owner,
                }
            } else {
                e
            },
        ),
{
    content_laws::steps_say_what_they_hold(steps[s.index]);
}

/// The extractions are performed together, behind all other steps, and as they were collected. Once
/// they are, each is reported, and the shims are next.
pub proof fn extractions_come_together(s: ExecutionFacts, steps: Seq<StepFacts>, k: int)
    requires
        execution::fits(s, steps),
        s.phase is Extracting,
    ensures
        s.index == steps.len(),
        s.pending.len() > 0,
        ({
            let listed = execution::due(s, steps)->steps;
            &&& execution::due(s, steps) is Extract
            &&& listed.len() == s.pending.len()
            &&& 0 <= k < listed.len() ==> listed[k] == steps[s.pending[k]]
                && listed[k] is ExtractPackage
        }),
        execution::advanced(s, EventFacts::Finished(Ok(())), steps) matches Ok(next) && {
            &&& execution::due(next, steps) is Link
            &&& next.index == s.index
            &&& 0 <= k < s.pending.len() ==> sorted::lookup(
                next.realized,
                place_of(steps[s.pending[k]]),
            ) == Some(RealizedMethod::Extracted)
            &&& forall|place: Seq<char>|
                (forall|j: int|
                    0 <= j < s.pending.len() ==> place_of(steps[#[trigger] s.pending[j]]) != place)
                    ==> #[trigger] sorted::lookup(next.realized, place) == sorted::lookup(
                    s.realized,
                    place,
                )
        },
{
    let n = s.pending.len() as int;
    let next = execution::advanced(s, EventFacts::Finished(Ok(())), steps)->Ok_0;
    if 0 <= k < n {
        extracted_places(s.realized, s.pending, steps, n, place_of(steps[s.pending[k]]));
    }
    assert forall|place: Seq<char>|
        (forall|j: int|
            0 <= j < n ==> place_of(steps[#[trigger] s.pending[j]]) != place) implies #[trigger] sorted::lookup(
        next.realized,
        place,
    ) == sorted::lookup(s.realized, place) by {
        extracted_places(s.realized, s.pending, steps, n, place);
    }
}

proof fn extracted_places(
    realized: Seq<(Seq<char>, RealizedMethod)>,
    pending: Seq<int>,
    steps: Seq<StepFacts>,
    n: int,
    place: Seq<char>,
)
    requires
        sorted::keys_increase(realized),
        0 <= n <= pending.len(),
    ensures
        sorted::keys_increase(execution::with_extracted(realized, pending, steps, n)),
        (exists|j: int| 0 <= j < n && place_of(steps[#[trigger] pending[j]]) == place)
            ==> sorted::lookup(
            execution::with_extracted(realized, pending, steps, n),
            place,
        ) == Some(RealizedMethod::Extracted),
        !(exists|j: int| 0 <= j < n && place_of(steps[#[trigger] pending[j]]) == place)
            ==> sorted::lookup(
            execution::with_extracted(realized, pending, steps, n),
            place,
        ) == sorted::lookup(realized, place),
    decreases n,
{
    if n > 0 {
        extracted_places(realized, pending, steps, n - 1, place);
        let before = execution::with_extracted(realized, pending, steps, n - 1);
        let dest = steps[pending[n - 1]].dest();
        content_laws::steps_say_what_they_hold(steps[pending[n - 1]]);
        assert(dest == place_of(steps[pending[n - 1]]));
        sorted::put_keeps_order(before, dest, RealizedMethod::Extracted);
        sorted::put_is_found(before, dest, RealizedMethod::Extracted, place);
        if exists|j: int| 0 <= j < n && place_of(steps[#[trigger] pending[j]]) == place {
            let j = choose|j: int| 0 <= j < n && place_of(steps[#[trigger] pending[j]]) == place;
            if j < n - 1 {
                assert(0 <= j < n - 1 && place_of(steps[pending[j]]) == place);
            }
        }
    }
}

/// Once the shims are there, everything is done, and what was reported stays.
pub proof fn shims_come_last(s: ExecutionFacts, steps: Seq<StepFacts>)
    requires
        execution::fits(s, steps),
        s.phase is Linking,
    ensures
        s.index == steps.len(),
        execution::due(s, steps) is Link,
        execution::advanced(s, EventFacts::Finished(Ok(())), steps) matches Ok(next) && {
            &&& execution::due(next, steps) is Done
            &&& next.realized == s.realized
            &&& next.index == s.index
        },
{
}

/// Only steps that fetch or build can be performed alone, and each produces its file in its own way.
pub proof fn only_extractions_are_batched(step: StepFacts)
    ensures
        match execution::method_of(step) {
            Ok(method) => !(step is ExtractPackage) && is_how(step, method),
            Err(e) => step is ExtractPackage && e == (StageErrorFacts::UnsupportedFallback {
                owner: step->ExtractPackage_owner,
            }),
        },
{
}

/// While a step is looked for, performed or fallen back from, it is that step that is waited for.
pub proof fn actions_are_about_the_current_step(s: ExecutionFacts, steps: Seq<StepFacts>)
    requires
        execution::fits(s, steps),
    ensures
        match s.phase {
            Phase::Probing => execution::due(s, steps) == (ActionFacts::Probe {
                dest: place_of(steps[s.index]),
            }),
            Phase::Running => execution::due(s, steps) == (ActionFacts::Run {
                step: steps[s.index],
            }),
            Phase::FallingBack => content_laws::instead_of(steps[s.index]) is Some
                && execution::due(s, steps) == (ActionFacts::Run {
                step: content_laws::instead_of(steps[s.index])->0,
            }),
            Phase::Extracting => execution::due(s, steps) is Extract,
            Phase::Linking => execution::due(s, steps) is Link,
            Phase::Done => execution::due(s, steps) is Done,
        },
{
    if s.index < steps.len() {
        content_laws::steps_say_what_they_hold(steps[s.index]);
    }
}

} // verus!
