//! What holds of staged trees as a whole.

use vstd::prelude::*;

use crate::install::stage;
use crate::install::stage::FileStatus;
use crate::path;
use crate::plan::planner::PlanFacts;
use crate::plan::step::StepFacts;
use crate::state::OutputFacts;

verus! {

/// Whether a copy carries an output of the previous publication forward.
pub open spec fn carries(
    copy: (Seq<char>, Seq<char>),
    into: Seq<char>,
    publication: Seq<char>,
    output: OutputFacts,
) -> bool {
    copy == (path::below(publication, output.path), path::below(into, output.path))
}

/// Only what the previous receipt owns is carried forward, only where the new plan installs it, and
/// never for a component whose files have to be acquired anew.
pub proof fn only_owned_files_are_carried(
    steps: Seq<StepFacts>,
    into: Seq<char>,
    publication: Seq<char>,
    stale: Seq<Seq<char>>,
    outputs: Seq<OutputFacts>,
    i: int,
)
    requires
        0 <= i < stage::carried(steps, into, publication, stale, outputs).len(),
    ensures
        ({
            let copy = stage::carried(steps, into, publication, stale, outputs)[i];
            exists|k: int|
                0 <= k < outputs.len() && carries(copy, into, publication, #[trigger] outputs[k])
                    && !stale.contains(outputs[k].owner) && stage::installs_to(steps, copy.1)
        }),
    decreases outputs.len(),
{
    if outputs.len() > 0 {
        let before = stage::carried(steps, into, publication, stale, outputs.drop_last());
        if i < before.len() {
            only_owned_files_are_carried(steps, into, publication, stale, outputs.drop_last(), i);
            let copy = before[i];
            let k = choose|k: int|
                0 <= k < outputs.drop_last().len() && carries(
                    copy,
                    into,
                    publication,
                    #[trigger] outputs.drop_last()[k],
                ) && !stale.contains(outputs.drop_last()[k].owner) && stage::installs_to(
                    steps,
                    copy.1,
                );
            assert(outputs[k] == outputs.drop_last()[k]);
        } else {
            assert(outputs[outputs.len() - 1] == outputs.last());
        }
    }
}

/// Everything that the previous receipt owns and the new plan installs is carried forward, unless its
/// component has to be acquired anew.
pub proof fn owned_files_are_carried(
    steps: Seq<StepFacts>,
    into: Seq<char>,
    publication: Seq<char>,
    stale: Seq<Seq<char>>,
    outputs: Seq<OutputFacts>,
    k: int,
)
    requires
        0 <= k < outputs.len(),
        stage::is_carried(steps, into, stale, outputs[k]),
    ensures
        ({
            let copies = stage::carried(steps, into, publication, stale, outputs);
            exists|i: int|
                0 <= i < copies.len() && carries(
                    #[trigger] copies[i],
                    into,
                    publication,
                    outputs[k],
                )
        }),
    decreases outputs.len(),
{
    let copies = stage::carried(steps, into, publication, stale, outputs);
    if k == outputs.len() - 1 {
        assert(outputs.last() == outputs[k]);
        assert(carries(copies[copies.len() - 1], into, publication, outputs[k]));
    } else {
        let before = stage::carried(steps, into, publication, stale, outputs.drop_last());
        assert(outputs.drop_last()[k] == outputs[k]);
        owned_files_are_carried(steps, into, publication, stale, outputs.drop_last(), k);
        let i = choose|i: int|
            0 <= i < before.len() && carries(#[trigger] before[i], into, publication, outputs[k]);
        assert(copies[i] == before[i]);
    }
}

/// A staged tree passes exactly where every planned file is a regular file with the planned mode and
/// every shim is there.
pub proof fn a_verified_tree_is_complete(
    plan: PlanFacts,
    staging_root: Seq<char>,
    seen: Seq<FileStatus>,
    present: Seq<bool>,
)
    requires
        seen.len() == plan.steps.len(),
        present.len() == plan.symlinks.len(),
    ensures
        stage::verified(plan, staging_root, seen, present) is None <==> {
            &&& forall|i: int|
                0 <= i < plan.steps.len() ==> (#[trigger] seen[i] matches FileStatus::File { mode }
                    && stage::permissions(mode) == plan.steps[i].mode())
            &&& forall|i: int| 0 <= i < plan.symlinks.len() ==> #[trigger] present[i]
        },
{
    files_pass(plan.steps, seen, 0);
    shims_pass(stage::shim_links(plan.symlinks, staging_root), present, 0);
}

proof fn files_pass(steps: Seq<StepFacts>, seen: Seq<FileStatus>, n: int)
    requires
        0 <= n <= steps.len() == seen.len(),
    ensures
        stage::first_misplaced(steps, seen, n) is None <==> forall|i: int|
            n <= i < steps.len() ==> (#[trigger] seen[i] matches FileStatus::File { mode }
                && stage::permissions(mode) == steps[i].mode()),
    decreases steps.len() - n,
{
    if n < steps.len() {
        files_pass(steps, seen, n + 1);
        assert(stage::misplaced(steps[n], seen[n]) is None <==> (
        seen[n] matches FileStatus::File { mode } && stage::permissions(mode) == steps[n].mode()));
    }
}

proof fn shims_pass(links: Seq<(Seq<char>, Seq<char>)>, present: Seq<bool>, n: int)
    requires
        0 <= n <= links.len() == present.len(),
    ensures
        stage::first_missing_shim(links, present, n) is None <==> forall|i: int|
            n <= i < links.len() ==> #[trigger] present[i],
    decreases links.len() - n,
{
    if n < links.len() {
        shims_pass(links, present, n + 1);
    }
}

} // verus!
