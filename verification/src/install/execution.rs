//! Running the steps of a plan.
//!
//! A step whose destination already exists is skipped: it was carried forward from the previous
//! publication. The question is put for the step's exact destination, never for a containing
//! directory. A step that fails is replaced by its declared fallback, once. Extractions are
//! collected, so that every package sharing a crate is extracted together.
//!
//! The caller performs each action and reports what came of it.

use vstd::prelude::*;

use crate::install::stage::{StageError, StageErrorFacts};
use crate::path;
use crate::plan::plan_laws;
use crate::plan::planner::InstallationPlan;
use crate::plan::step::{PlanStep, StepFacts};
use crate::sorted;
use crate::sorted::SortedMap;
use crate::state::RealizedMethod;

verus! {

/// How a step's output is produced when the step is run, or why the step cannot be run alone.
pub open spec fn method_of(step: StepFacts) -> Result<RealizedMethod, StageErrorFacts> {
    match step {
        StepFacts::Download { .. } | StepFacts::CopyLocal { .. } => Ok(RealizedMethod::Prebuilt),
        StepFacts::CargoBuild { .. } => Ok(RealizedMethod::Cargo),
        StepFacts::ExtractPackage { owner, .. } => Err(
            StageErrorFacts::UnsupportedFallback { owner },
        ),
    }
}

/// How a step's output is produced when the step is run. Extractions are batched, so one cannot be
/// run alone, and can never be a fallback.
pub fn run(step: &PlanStep) -> (r: Result<RealizedMethod, StageError>)
    ensures
        match r {
            Ok(method) => method_of(step.deep_view()) == Ok::<RealizedMethod, StageErrorFacts>(
                method,
            ),
            Err(e) => method_of(step.deep_view()) == Err::<RealizedMethod, StageErrorFacts>(
                e.deep_view(),
            ),
        },
{
    match step {
        PlanStep::Download { .. } => Ok(RealizedMethod::Prebuilt),
        PlanStep::CopyLocal { .. } => Ok(RealizedMethod::Prebuilt),
        PlanStep::CargoBuild { .. } => Ok(RealizedMethod::Cargo),
        PlanStep::ExtractPackage { owner, .. } => Err(
            StageError::UnsupportedFallback { owner: owner.clone() },
        ),
    }
}

/// What an execution waits for.
#[derive(Debug, Clone, Copy, PartialEq, Eq, Structural)]
pub enum Phase {
    /// Whether the destination of the current step exists.
    Probing,
    /// The outcome of the current step.
    Running,
    /// The outcome of the current step's fallback.
    FallingBack,
    /// The outcome of the collected extractions.
    Extracting,
    /// The outcome of creating the shims.
    Linking,
    /// Nothing: everything is done.
    Done,
}

/// How far the steps of a plan have been run.
#[derive(Debug)]
pub struct Execution {
    phase: Phase,
    index: usize,
    pending: Vec<usize>,
    realized: SortedMap<RealizedMethod>,
}

/// What an [`Execution`] holds.
#[verifier::ext_equal]
pub struct ExecutionFacts {
    pub phase: Phase,
    /// The position of the current step.
    pub index: int,
    /// The positions of the collected extractions.
    pub pending: Seq<int>,
    /// How each destination was actually produced.
    pub realized: Seq<(Seq<char>, RealizedMethod)>,
}

impl View for Execution {
    type V = ExecutionFacts;

    closed spec fn view(&self) -> ExecutionFacts {
        ExecutionFacts {
            phase: self.phase,
            index: self.index as int,
            pending: self.pending@.map_values(|i: usize| i as int),
            realized: self.realized@,
        }
    }
}

/// What came of an action.
#[derive(Debug)]
pub enum Event {
    /// Whether the destination exists.
    Exists(bool),
    /// Whether the action succeeded.
    Finished(Result<(), StageError>),
}

/// What an [`Event`] holds.
pub enum EventFacts {
    Exists(bool),
    Finished(Result<(), StageErrorFacts>),
}

impl DeepView for Event {
    type V = EventFacts;

    open spec fn deep_view(&self) -> EventFacts {
        match self {
            Event::Exists(exists) => EventFacts::Exists(*exists),
            Event::Finished(Ok(_)) => EventFacts::Finished(Ok(())),
            Event::Finished(Err(e)) => EventFacts::Finished(Err(e.deep_view())),
        }
    }
}

/// Whether a phase waits for an event of this kind.
pub open spec fn awaits(phase: Phase, event: EventFacts) -> bool {
    match phase {
        Phase::Probing => event is Exists,
        Phase::Done => false,
        _ => event is Finished,
    }
}

/// Whether a state can be reached while running `steps`.
pub open spec fn fits(s: ExecutionFacts, steps: Seq<StepFacts>) -> bool {
    &&& 0 <= s.index <= steps.len()
    &&& s.phase is Probing || s.phase is Running || s.phase is FallingBack ==> s.index
        < steps.len()
    &&& s.phase is Extracting || s.phase is Linking || s.phase is Done ==> s.index == steps.len()
    &&& s.phase is Running ==> method_of(steps[s.index]) is Ok
    &&& s.phase is FallingBack ==> steps[s.index].fallback() is Some && method_of(
        steps[s.index].fallback()->0,
    ) is Ok
    &&& s.phase is Extracting ==> s.pending.len() > 0
    &&& forall|k: int|
        0 <= k < s.pending.len() ==> 0 <= #[trigger] s.pending[k] < s.index && (
        steps[s.pending[k]] is ExtractPackage)
    &&& sorted::keys_increase(s.realized)
}

/// The phase in which the step at `index` is taken up, or what comes after the last.
pub open spec fn phase_at(index: int, pending: Seq<int>, steps: Seq<StepFacts>) -> Phase {
    if index < steps.len() {
        Phase::Probing
    } else if pending.len() > 0 {
        Phase::Extracting
    } else {
        Phase::Linking
    }
}

/// The state once the current step is settled.
pub open spec fn moved_on(
    s: ExecutionFacts,
    pending: Seq<int>,
    realized: Seq<(Seq<char>, RealizedMethod)>,
    steps: Seq<StepFacts>,
) -> ExecutionFacts {
    ExecutionFacts {
        phase: phase_at(s.index + 1, pending, steps),
        index: s.index + 1,
        pending,
        realized,
    }
}

/// What was produced, with the first `n` collected extractions.
pub open spec fn with_extracted(
    realized: Seq<(Seq<char>, RealizedMethod)>,
    pending: Seq<int>,
    steps: Seq<StepFacts>,
    n: int,
) -> Seq<(Seq<char>, RealizedMethod)>
    decreases n,
{
    if n <= 0 {
        realized
    } else {
        sorted::put(
            with_extracted(realized, pending, steps, n - 1),
            steps[pending[n - 1]].dest(),
            RealizedMethod::Extracted,
        )
    }
}

/// The state after an event, or the error that ends the execution.
pub open spec fn advanced(s: ExecutionFacts, event: EventFacts, steps: Seq<StepFacts>) -> Result<
    ExecutionFacts,
    StageErrorFacts,
> {
    let step = steps[s.index];
    match s.phase {
        Phase::Probing => if event->Exists_0 {
            Ok(moved_on(s, s.pending, s.realized, steps))
        } else if step is ExtractPackage {
            Ok(moved_on(s, s.pending.push(s.index), s.realized, steps))
        } else {
            Ok(ExecutionFacts { phase: Phase::Running, ..s })
        },
        Phase::Running => match event->Finished_0 {
            Ok(_) => Ok(
                moved_on(
                    s,
                    s.pending,
                    sorted::put(s.realized, step.dest(), method_of(step)->Ok_0),
                    steps,
                ),
            ),
            Err(e) => match step.fallback() {
                None => Err(e),
                Some(fallback) => match method_of(fallback) {
                    Ok(_) => Ok(ExecutionFacts { phase: Phase::FallingBack, ..s }),
                    Err(unsupported) => Err(unsupported),
                },
            },
        },
        Phase::FallingBack => match event->Finished_0 {
            Ok(_) => Ok(
                moved_on(
                    s,
                    s.pending,
                    sorted::put(
                        s.realized,
                        step.dest(),
                        method_of(step.fallback()->0)->Ok_0,
                    ),
                    steps,
                ),
            ),
            Err(e) => Err(e),
        },
        Phase::Extracting => match event->Finished_0 {
            Ok(_) => Ok(
                ExecutionFacts {
                    phase: Phase::Linking,
                    realized: with_extracted(
                        s.realized,
                        s.pending,
                        steps,
                        s.pending.len() as int,
                    ),
                    ..s
                },
            ),
            Err(e) => Err(e),
        },
        Phase::Linking => match event->Finished_0 {
            Ok(_) => Ok(ExecutionFacts { phase: Phase::Done, ..s }),
            Err(e) => Err(e),
        },
        Phase::Done => Ok(s),
    }
}

/// The state in which an execution starts.
pub open spec fn started(steps: Seq<StepFacts>) -> ExecutionFacts {
    ExecutionFacts {
        phase: phase_at(0, Seq::empty(), steps),
        index: 0,
        pending: Seq::empty(),
        realized: Seq::empty(),
    }
}

/// What the caller is to do next.
#[derive(Debug)]
pub enum Action<'a> {
    /// Look whether this path exists.
    Probe { dest: &'a str },
    /// Perform this step.
    Run { step: &'a PlanStep },
    /// Perform these extractions, as one.
    Extract { steps: Vec<&'a PlanStep> },
    /// Create the shims.
    Link,
    /// Stop.
    Done,
}

/// What an [`Action`] holds.
#[verifier::ext_equal]
pub enum ActionFacts {
    Probe { dest: Seq<char> },
    Run { step: StepFacts },
    Extract { steps: Seq<StepFacts> },
    Link,
    Done,
}

impl<'a> Action<'a> {
    /// What this action holds.
    pub open spec fn facts(self) -> ActionFacts {
        match self {
            Action::Probe { dest } => ActionFacts::Probe { dest: dest@ },
            Action::Run { step } => ActionFacts::Run { step: step.deep_view() },
            Action::Extract { steps } => ActionFacts::Extract { steps: steps.deep_view() },
            Action::Link => ActionFacts::Link,
            Action::Done => ActionFacts::Done,
        }
    }
}

/// What is to be done in a state.
pub open spec fn due(s: ExecutionFacts, steps: Seq<StepFacts>) -> ActionFacts {
    match s.phase {
        Phase::Probing => ActionFacts::Probe { dest: steps[s.index].dest() },
        Phase::Running => ActionFacts::Run { step: steps[s.index] },
        Phase::FallingBack => ActionFacts::Run { step: steps[s.index].fallback()->0 },
        Phase::Extracting => ActionFacts::Extract {
            steps: Seq::new(s.pending.len(), |k: int| steps[s.pending[k]]),
        },
        Phase::Linking => ActionFacts::Link,
        Phase::Done => ActionFacts::Done,
    }
}

fn phase_of(index: usize, pending: &Vec<usize>, steps: &Vec<PlanStep>) -> (r: Phase)
    ensures
        r == phase_at(
            index as int,
            pending@.map_values(|i: usize| i as int),
            steps.deep_view(),
        ),
{
    if index < steps.len() {
        Phase::Probing
    } else if pending.len() > 0 {
        Phase::Extracting
    } else {
        Phase::Linking
    }
}

impl Execution {
    /// An execution of `plan` that has done nothing yet.
    pub fn start(plan: &InstallationPlan) -> (r: Self)
        ensures
            r@ == started(plan.deep_view().steps),
            fits(r@, plan.deep_view().steps),
    {
        let pending: Vec<usize> = Vec::new();
        let realized: SortedMap<RealizedMethod> = SortedMap::new();
        let phase = phase_of(0, &pending, &plan.steps);
        let r = Execution { phase, index: 0, pending, realized };
        assert(r@ =~= started(plan.deep_view().steps)) by {
            assert(r@.pending =~= Seq::empty());
        }
        r
    }

    /// What the caller is to do next.
    pub fn action<'a>(&self, plan: &'a InstallationPlan) -> (r: Action<'a>)
        requires
            fits(self@, plan.deep_view().steps),
        ensures
            r.facts() == due(self@, plan.deep_view().steps),
    {
        let ghost steps = plan.deep_view().steps;
        match self.phase {
            Phase::Probing => {
                assert(steps[self.index as int] == plan.steps@[self.index as int].deep_view());
                Action::Probe { dest: plan.steps[self.index].dest() }
            },
            Phase::Running => {
                assert(steps[self.index as int] == plan.steps@[self.index as int].deep_view());
                Action::Run { step: &plan.steps[self.index] }
            },
            Phase::FallingBack => {
                assert(steps[self.index as int] == plan.steps@[self.index as int].deep_view());
                let fallback = plan.steps[self.index].fallback();
                Action::Run { step: fallback.unwrap() }
            },
            Phase::Extracting => {
                let mut list: Vec<&'a PlanStep> = Vec::new();
                let ghost wanted = Seq::new(
                    self@.pending.len(),
                    |k: int| steps[self@.pending[k]],
                );
                let mut k: usize = 0;
                while k < self.pending.len()
                    invariant
                        k <= self.pending@.len(),
                        steps == plan.deep_view().steps,
                        fits(self@, steps),
                        list@.len() == k,
                        forall|j: int|
                            0 <= j < k ==> *(#[trigger] list@[j])
                                == plan.steps@[self.pending@[j] as int],
                    decreases self.pending.len() - k,
                {
                    assert(self@.pending[k as int] == self.pending@[k as int]);
                    list.push(&plan.steps[self.pending[k]]);
                    k += 1;
                }
                proof {
                    assert forall|j: int| 0 <= j < list.deep_view().len() implies list.deep_view()[j]
                        == wanted[j] by {
                        assert(*list@[j] == plan.steps@[self.pending@[j] as int]);
                        assert(self@.pending[j] == self.pending@[j]);
                    }
                    assert(list.deep_view() =~= wanted);
                }
                Action::Extract { steps: list }
            },
            Phase::Linking => Action::Link,
            Phase::Done => Action::Done,
        }
    }

    /// Whether everything is done.
    pub fn is_done(&self) -> (r: bool)
        ensures
            r == (self@.phase is Done),
    {
        match self.phase {
            Phase::Done => true,
            _ => false,
        }
    }

    /// How each destination was actually produced.
    pub fn realized(&self) -> (r: &SortedMap<RealizedMethod>)
        ensures
            r@ == self@.realized,
    {
        &self.realized
    }
}

/// The answer in an event that brings one.
fn answer(event: Event) -> (r: bool)
    requires
        event.deep_view() is Exists,
    ensures
        event.deep_view() == EventFacts::Exists(r),
{
    match event {
        Event::Exists(exists) => exists,
        Event::Finished(_) => vstd::pervasive::unreached(),
    }
}

/// The outcome in an event that brings one.
fn outcome(event: Event) -> (r: Result<(), StageError>)
    requires
        event.deep_view() is Finished,
    ensures
        event.deep_view() == match r {
            Ok(_) => EventFacts::Finished(Ok(())),
            Err(e) => EventFacts::Finished(Err(e.deep_view())),
        },
{
    match event {
        Event::Finished(outcome) => outcome,
        Event::Exists(_) => vstd::pervasive::unreached(),
    }
}

/// Takes an execution one event further.
pub fn execute(plan: &InstallationPlan, state: Execution, event: Event) -> (r: Result<
    Execution,
    StageError,
>)
    requires
        fits(state@, plan.deep_view().steps),
        awaits(state@.phase, event.deep_view()),
    ensures
        match r {
            Ok(next) => advanced(state@, event.deep_view(), plan.deep_view().steps) == Ok::<
                ExecutionFacts,
                StageErrorFacts,
            >(next@) && fits(next@, plan.deep_view().steps),
            Err(e) => advanced(state@, event.deep_view(), plan.deep_view().steps) == Err::<
                ExecutionFacts,
                StageErrorFacts,
            >(e.deep_view()),
        },
{
    let ghost steps = plan.deep_view().steps;
    let ghost before = state@;
    let Execution { phase, index, pending, realized } = state;
    let mut pending = pending;
    let mut realized = realized;
    proof {
        if index < steps.len() {
            assert(index < plan.steps.len());
            assert(steps[index as int] == plan.steps@[index as int].deep_view());
        }
    }
    match phase {
        Phase::Probing => {
            let exists = answer(event);
            if !exists {
                let extraction = match &plan.steps[index] {
                    PlanStep::ExtractPackage { .. } => true,
                    _ => false,
                };
                if !extraction {
                    return Ok(Execution { phase: Phase::Running, index, pending, realized });
                }
                let ghost held = pending@.map_values(|i: usize| i as int);
                pending.push(index);
                assert(pending@.map_values(|i: usize| i as int) =~= held.push(index as int));
            }
            let phase = phase_of(index + 1, &pending, &plan.steps);
            Ok(Execution { phase, index: index + 1, pending, realized })
        },
        Phase::Running => {
            match outcome(event) {
                Ok(_) => {
                    let step = &plan.steps[index];
                    let method = match run(step) {
                        Ok(method) => method,
                        Err(e) => return Err(e),
                    };
                    let _ = realized.insert(step.dest().to_owned(), method);
                    let phase = phase_of(index + 1, &pending, &plan.steps);
                    Ok(Execution { phase, index: index + 1, pending, realized })
                },
                Err(e) => {
                    // A declared fallback makes an unavailable artifact recoverable. Only one
                    // retry.
                    match plan.steps[index].fallback() {
                        None => Err(e),
                        Some(fallback) => match run(fallback) {
                            Ok(_) => Ok(
                                Execution {
                                    phase: Phase::FallingBack,
                                    index,
                                    pending,
                                    realized,
                                },
                            ),
                            Err(unsupported) => Err(unsupported),
                        },
                    }
                },
            }
        },
        Phase::FallingBack => {
            match outcome(event) {
                Ok(_) => {
                    let step = &plan.steps[index];
                    let method = match run(step.fallback().unwrap()) {
                        Ok(method) => method,
                        Err(e) => return Err(e),
                    };
                    let _ = realized.insert(step.dest().to_owned(), method);
                    let phase = phase_of(index + 1, &pending, &plan.steps);
                    Ok(Execution { phase, index: index + 1, pending, realized })
                },
                Err(e) => Err(e),
            }
        },
        Phase::Extracting => {
            match outcome(event) {
                Ok(_) => {
                    let mut k: usize = 0;
                    while k < pending.len()
                        invariant
                            k <= pending@.len(),
                            steps == plan.deep_view().steps,
                            before.pending == pending@.map_values(|i: usize| i as int),
                            fits(before, steps),
                            realized@ == with_extracted(
                                before.realized,
                                before.pending,
                                steps,
                                k as int,
                            ),
                            sorted::keys_increase(realized@),
                        decreases pending.len() - k,
                    {
                        assert(before.pending[k as int] == pending@[k as int]);
                        let step = &plan.steps[pending[k]];
                        assert(steps[pending@[k as int] as int] == step.deep_view());
                        let _ = realized.insert(
                            step.dest().to_owned(),
                            RealizedMethod::Extracted,
                        );
                        k += 1;
                    }
                    Ok(Execution { phase: Phase::Linking, index, pending, realized })
                },
                Err(e) => Err(e),
            }
        },
        Phase::Linking => {
            match outcome(event) {
                Ok(_) => Ok(Execution { phase: Phase::Done, index, pending, realized }),
                Err(e) => Err(e),
            }
        },
        Phase::Done => Ok(Execution { phase: Phase::Done, index, pending, realized }),
    }
}

// ---------------------------------------------------------------------------------------------
// Laws

/// How many events an execution can still take.
pub open spec fn remaining(s: ExecutionFacts, steps: Seq<StepFacts>) -> int {
    3 * (steps.len() - s.index) + match s.phase {
        Phase::Probing => 2,
        Phase::Running => 1,
        Phase::FallingBack => 0,
        Phase::Extracting => 2,
        Phase::Linking => 1,
        Phase::Done => 0int,
    }
}

/// Every event brings an execution closer to its end.
pub proof fn executions_end(s: ExecutionFacts, event: EventFacts, steps: Seq<StepFacts>)
    requires
        fits(s, steps),
        awaits(s.phase, event),
    ensures
        advanced(s, event, steps) matches Ok(next) ==> 0 <= remaining(next, steps) < remaining(
            s,
            steps,
        ),
{
}

/// How a step was settled.
pub enum Settled {
    /// Its destination was in place already.
    Skipped,
    /// It was performed.
    Ran,
    /// It failed, and its fallback was performed.
    FellBack,
    /// It was collected, to be extracted with the others.
    Collected,
}

/// How the steps were settled that have been, after one more event.
pub open spec fn settled_after(
    s: ExecutionFacts,
    event: EventFacts,
    steps: Seq<StepFacts>,
    settled: Seq<Settled>,
) -> Seq<Settled> {
    match s.phase {
        Phase::Probing => if event->Exists_0 {
            settled.push(Settled::Skipped)
        } else if steps[s.index] is ExtractPackage {
            settled.push(Settled::Collected)
        } else {
            settled
        },
        Phase::Running => if event->Finished_0 is Ok {
            settled.push(Settled::Ran)
        } else {
            settled
        },
        Phase::FallingBack => if event->Finished_0 is Ok {
            settled.push(Settled::FellBack)
        } else {
            settled
        },
        _ => settled,
    }
}

/// How a settled step's destination was produced, if the execution produced it. `extracted` tells
/// whether the collected steps have been extracted.
pub open spec fn produced(step: StepFacts, settled: Settled, extracted: bool) -> Option<
    RealizedMethod,
> {
    match settled {
        Settled::Skipped => None,
        Settled::Ran => Some(method_of(step)->Ok_0),
        Settled::FellBack => Some(method_of(step.fallback()->0)->Ok_0),
        Settled::Collected => if extracted {
            Some(RealizedMethod::Extracted)
        } else {
            None
        },
    }
}

/// Whether the collected steps have been extracted, if there are any.
pub open spec fn past_extraction(s: ExecutionFacts) -> bool {
    s.phase is Linking || s.phase is Done
}

/// Whether what is reported of an execution is what it did: under the destination of every settled
/// step stands how it was produced, and no other destination is reported.
pub open spec fn accounts(
    s: ExecutionFacts,
    steps: Seq<StepFacts>,
    settled: Seq<Settled>,
) -> bool {
    &&& settled.len() == s.index
    &&& forall|i: int|
        0 <= i < s.index ==> (#[trigger] settled[i] is Collected <==> s.pending.contains(i))
    &&& forall|i: int|
        0 <= i < s.index ==> sorted::lookup(s.realized, (#[trigger] steps[i]).dest()) == produced(
            steps[i],
            settled[i],
            past_extraction(s),
        )
    &&& forall|d: Seq<char>| #[trigger]
        sorted::has_key(s.realized, d) ==> exists|i: int|
            0 <= i < s.index && (#[trigger] steps[i]).dest() == d
}

proof fn extracted_are_reported(
    realized: Seq<(Seq<char>, RealizedMethod)>,
    pending: Seq<int>,
    steps: Seq<StepFacts>,
    n: int,
    d: Seq<char>,
)
    requires
        sorted::keys_increase(realized),
        0 <= n <= pending.len(),
    ensures
        sorted::keys_increase(with_extracted(realized, pending, steps, n)),
        sorted::lookup(with_extracted(realized, pending, steps, n), d) == if exists|k: int|
            0 <= k < n && steps[#[trigger] pending[k]].dest() == d {
            Some(RealizedMethod::Extracted)
        } else {
            sorted::lookup(realized, d)
        },
    decreases n,
{
    if n > 0 {
        extracted_are_reported(realized, pending, steps, n - 1, d);
        let before = with_extracted(realized, pending, steps, n - 1);
        let dest = steps[pending[n - 1]].dest();
        sorted::put_keeps_order(before, dest, RealizedMethod::Extracted);
        sorted::put_is_found(before, dest, RealizedMethod::Extracted, d);
        if exists|k: int| 0 <= k < n && steps[#[trigger] pending[k]].dest() == d {
            let k = choose|k: int| 0 <= k < n && steps[#[trigger] pending[k]].dest() == d;
            if k < n - 1 {
                assert(0 <= k < n - 1 && steps[pending[k]].dest() == d);
            }
        }
    }
}

proof fn exclusive_destinations_differ(steps: Seq<StepFacts>)
    requires
        plan_laws::destinations_are_exclusive(steps),
    ensures
        forall|i: int, j: int|
            0 <= i < steps.len() && 0 <= j < steps.len() && i != j ==> (#[trigger] steps[i]).dest()
                != (#[trigger] steps[j]).dest(),
{
    assert forall|i: int, j: int| 0 <= i < steps.len() && 0 <= j < steps.len() && i != j implies (
    #[trigger] steps[i]).dest() != (#[trigger] steps[j]).dest() by {
        assert(i < j ==> !path::same_place(steps[i].dest(), steps[j].dest()));
        assert(j < i ==> !path::same_place(steps[j].dest(), steps[i].dest()));
    }
}

proof fn settling_accounts(
    s: ExecutionFacts,
    steps: Seq<StepFacts>,
    settled: Seq<Settled>,
    how: Settled,
    next: ExecutionFacts,
)
    requires
        fits(s, steps),
        plan_laws::destinations_are_exclusive(steps),
        accounts(s, steps, settled),
        s.index < steps.len(),
        !past_extraction(s),
        next == moved_on(
            s,
            if how is Collected {
                s.pending.push(s.index)
            } else {
                s.pending
            },
            if how is Ran || how is FellBack {
                sorted::put(
                    s.realized,
                    steps[s.index].dest(),
                    produced(steps[s.index], how, false)->0,
                )
            } else {
                s.realized
            },
            steps,
        ),
    ensures
        accounts(next, steps, settled.push(how)),
{
    let step = steps[s.index];
    let now = settled.push(how);
    exclusive_destinations_differ(steps);
    assert(!sorted::has_key(s.realized, step.dest())) by {
        if sorted::has_key(s.realized, step.dest()) {
            let i = choose|i: int| 0 <= i < s.index && (#[trigger] steps[i]).dest() == step.dest();
            assert(steps[i].dest() != step.dest());
        }
    }
    assert forall|i: int| 0 <= i < next.index implies (#[trigger] now[i] is Collected
        <==> next.pending.contains(i)) by {
        if i < s.index {
            assert(now[i] == settled[i]);
            if s.pending.contains(i) {
                let k = choose|k: int| 0 <= k < s.pending.len() && s.pending[k] == i;
                assert(next.pending[k] == i);
            }
        } else if how is Collected {
            assert(next.pending[s.pending.len() as int] == i);
        }
    }
    assert forall|i: int| 0 <= i < next.index implies sorted::lookup(
        next.realized,
        (#[trigger] steps[i]).dest(),
    ) == produced(steps[i], now[i], past_extraction(next)) by {
        if how is Ran || how is FellBack {
            sorted::put_is_found(
                s.realized,
                step.dest(),
                produced(step, how, false)->0,
                steps[i].dest(),
            );
        }
        if now[i] is Collected {
            assert(next.pending.contains(i));
            assert(next.pending.len() > 0);
        }
        if i < s.index {
            assert(now[i] == settled[i]);
        }
    }
    assert forall|d: Seq<char>| #[trigger] sorted::has_key(next.realized, d) implies exists|i: int|
        0 <= i < next.index && (#[trigger] steps[i]).dest() == d by {
        if how is Ran || how is FellBack {
            sorted::put_is_found(s.realized, step.dest(), produced(step, how, false)->0, d);
        }
        if d == step.dest() {
            assert(steps[s.index].dest() == d);
        }
    }
}

/// What an execution reports stays true with every event, since no destination is produced twice.
pub proof fn events_are_accounted_for(
    s: ExecutionFacts,
    event: EventFacts,
    steps: Seq<StepFacts>,
    settled: Seq<Settled>,
)
    requires
        fits(s, steps),
        awaits(s.phase, event),
        plan_laws::destinations_are_exclusive(steps),
        accounts(s, steps, settled),
        advanced(s, event, steps) is Ok,
    ensures
        fits(advanced(s, event, steps)->Ok_0, steps),
        accounts(
            advanced(s, event, steps)->Ok_0,
            steps,
            settled_after(s, event, steps, settled),
        ),
{
    let next = advanced(s, event, steps)->Ok_0;
    let now = settled_after(s, event, steps, settled);
    match s.phase {
        Phase::Probing | Phase::Running | Phase::FallingBack => {
            if now.len() > settled.len() {
                sorted::put_keeps_order(
                    s.realized,
                    steps[s.index].dest(),
                    produced(steps[s.index], now.last(), false)->0,
                );
                settling_accounts(s, steps, settled, now.last(), next);
            }
        },
        Phase::Extracting => {
            let n = s.pending.len() as int;
            exclusive_destinations_differ(steps);
            extracted_are_reported(s.realized, s.pending, steps, n, Seq::empty());
            assert forall|i: int| 0 <= i < next.index implies sorted::lookup(
                next.realized,
                (#[trigger] steps[i]).dest(),
            ) == produced(steps[i], now[i], true) by {
                extracted_are_reported(s.realized, s.pending, steps, n, steps[i].dest());
                assert(now[i] is Collected <==> s.pending.contains(i));
                if s.pending.contains(i) {
                    let k = choose|k: int| 0 <= k < n && s.pending[k] == i;
                    assert(steps[s.pending[k]].dest() == steps[i].dest());
                }
                if exists|k: int| 0 <= k < n && steps[#[trigger] s.pending[k]].dest()
                    == steps[i].dest() {
                    let k = choose|k: int|
                        0 <= k < n && steps[#[trigger] s.pending[k]].dest() == steps[i].dest();
                    assert(s.pending[k] == i);
                }
            }
            assert forall|d: Seq<char>| #[trigger] sorted::has_key(next.realized, d) implies exists|
                i: int,
            | 0 <= i < next.index && (#[trigger] steps[i]).dest() == d by {
                extracted_are_reported(s.realized, s.pending, steps, n, d);
                if !sorted::has_key(s.realized, d) {
                    let k = choose|k: int| 0 <= k < n && steps[#[trigger] s.pending[k]].dest() == d;
                    assert(steps[s.pending[k]].dest() == d);
                }
            }
        },
        _ => {},
    }
}

/// The state after all the events, with how each step was settled; nothing where the execution ended
/// in an error, or an event was not waited for.
pub open spec fn run_through(steps: Seq<StepFacts>, events: Seq<EventFacts>) -> Option<
    (ExecutionFacts, Seq<Settled>),
>
    decreases events.len(),
{
    if events.len() == 0 {
        Some((started(steps), Seq::empty()))
    } else {
        match run_through(steps, events.drop_last()) {
            Some((s, settled)) => if !awaits(s.phase, events.last()) {
                None
            } else {
                match advanced(s, events.last(), steps) {
                    Ok(next) => Some((next, settled_after(s, events.last(), steps, settled))),
                    Err(_) => None,
                }
            },
            None => None,
        }
    }
}

/// Over a whole run, from its start through any events, the report is what was done. So once a run is
/// done, every destination that was not found in place is reported as produced by its step, by the
/// step's fallback where that was taken, or by extraction; and no other destination is reported.
pub proof fn runs_account_for_every_step(steps: Seq<StepFacts>, events: Seq<EventFacts>)
    requires
        plan_laws::destinations_are_exclusive(steps),
        run_through(steps, events) is Some,
    ensures
        ({
            let (s, settled) = run_through(steps, events)->0;
            &&& fits(s, steps)
            &&& accounts(s, steps, settled)
            &&& s.phase is Done ==> settled.len() == steps.len() && forall|i: int|
                0 <= i < steps.len() ==> sorted::lookup(
                    s.realized,
                    (#[trigger] steps[i]).dest(),
                ) == produced(steps[i], settled[i], true)
        }),
    decreases events.len(),
{
    if events.len() == 0 {
        let s = started(steps);
        assert forall|d: Seq<char>| !#[trigger] sorted::has_key(s.realized, d) by {
            if sorted::has_key(s.realized, d) {
                let i = choose|i: int| sorted::holds(s.realized, d, i);
            }
        }
    } else {
        runs_account_for_every_step(steps, events.drop_last());
        let (s, settled) = run_through(steps, events.drop_last())->0;
        events_are_accounted_for(s, events.last(), steps, settled);
    }
}

} // verus!
