//! What is carried into a staged tree, and what is wrong with one.

use vstd::prelude::*;

use crate::install::execution_laws;
use crate::install::stage;
use crate::install::stage::{FileStatus, StageErrorFacts};
use crate::path;
use crate::plan::content_laws;
use crate::plan::planner::PlanFacts;
use crate::plan::step::StepFacts;
use crate::state::OutputFacts;

verus! {

/// Whether a plan has a step for a place.
pub open spec fn has_step_for(steps: Seq<StepFacts>, place: Seq<char>) -> bool {
    exists|i: int|
        0 <= i < steps.len() && path::same_place(
            execution_laws::place_of(#[trigger] steps[i]),
            place,
        )
}

/// A file of the previous publication is carried over exactly where its component is not to be acquired
/// anew and the plan has a step for its place; from where it was to where that step would put it.
pub proof fn files_are_carried_where_they_are_wanted(
    steps: Seq<StepFacts>,
    into: Seq<char>,
    publication: Seq<char>,
    stale: Seq<Seq<char>>,
    outputs: Seq<OutputFacts>,
    copy: (Seq<char>, Seq<char>),
)
    ensures
        stage::carried(steps, into, publication, stale, outputs).contains(copy) <==> exists|k: int|
            0 <= k < outputs.len() && is_wanted(
                steps,
                into,
                publication,
                stale,
                #[trigger] outputs[k],
                copy,
            ),
        stage::carried(steps, into, publication, stale, outputs).len() <= outputs.len(),
    decreases outputs.len(),
{
    let copies = stage::carried(steps, into, publication, stale, outputs);
    if outputs.len() > 0 {
        let d = outputs.drop_last();
        let before = stage::carried(steps, into, publication, stale, d);
        let last = outputs.last();
        files_are_carried_where_they_are_wanted(steps, into, publication, stale, d, copy);
        wanted_alike(steps, path::below(into, last.path));
        if copies.len() > before.len() {
            assert(copies == before.push(copies.last()));
            assert(copies[copies.len() - 1] == copies.last());
            assert(is_wanted(steps, into, publication, stale, last, copies.last()));
        }
        if before.contains(copy) {
            let i = choose|i: int| 0 <= i < before.len() && before[i] == copy;
            assert(copies[i] == copy);
            let k = choose|k: int|
                0 <= k < d.len() && is_wanted(
                    steps,
                    into,
                    publication,
                    stale,
                    #[trigger] d[k],
                    copy,
                );
            assert(is_wanted(steps, into, publication, stale, outputs[k], copy));
        }
        if copies.contains(copy) && !before.contains(copy) {
            let i = choose|i: int| 0 <= i < copies.len() && copies[i] == copy;
            assert(i < before.len() ==> before[i] == copy);
            assert(is_wanted(
                steps,
                into,
                publication,
                stale,
                outputs[outputs.len() - 1],
                copy,
            ));
        }
        if exists|k: int|
            0 <= k < outputs.len() && is_wanted(
                steps,
                into,
                publication,
                stale,
                #[trigger] outputs[k],
                copy,
            ) {
            let k = choose|k: int|
                0 <= k < outputs.len() && is_wanted(
                    steps,
                    into,
                    publication,
                    stale,
                    #[trigger] outputs[k],
                    copy,
                );
            if k < d.len() {
                assert(is_wanted(steps, into, publication, stale, d[k], copy));
            } else {
                assert(copies.last() == copy);
            }
        }
    }
}

/// Files are carried over in the order of the receipt: one more output adds at most one copy, and at the
/// end.
pub proof fn files_are_carried_in_order(
    steps: Seq<StepFacts>,
    into: Seq<char>,
    publication: Seq<char>,
    stale: Seq<Seq<char>>,
    outputs: Seq<OutputFacts>,
    output: OutputFacts,
)
    ensures
        ({
            let before = stage::carried(steps, into, publication, stale, outputs);
            let after = stage::carried(steps, into, publication, stale, outputs.push(output));
            after == before || (after.len() == before.len() + 1 && after.drop_last() == before
                && is_wanted(steps, into, publication, stale, output, after.last()))
        }),
{
    assert(outputs.push(output).drop_last() =~= outputs);
    wanted_alike(steps, path::below(into, output.path));
    let before = stage::carried(steps, into, publication, stale, outputs);
    let after = stage::carried(steps, into, publication, stale, outputs.push(output));
    if after != before {
        assert(after.drop_last() =~= before);
    }
}

/// Whether an output is wanted, and this is how it is carried over.
pub open spec fn is_wanted(
    steps: Seq<StepFacts>,
    into: Seq<char>,
    publication: Seq<char>,
    stale: Seq<Seq<char>>,
    output: OutputFacts,
    copy: (Seq<char>, Seq<char>),
) -> bool {
    &&& !stale.contains(output.owner)
    &&& has_step_for(steps, path::below(into, output.path))
    &&& copy.0 == path::below(publication, output.path)
    &&& copy.1 == path::below(into, output.path)
}

proof fn wanted_alike(steps: Seq<StepFacts>, place: Seq<char>)
    ensures
        stage::installs_to(steps, place) == has_step_for(steps, place),
{
    if stage::installs_to(steps, place) {
        let i = choose|i: int|
            0 <= i < steps.len() && path::same_place((#[trigger] steps[i]).dest(), place);
        content_laws::steps_say_what_they_hold(steps[i]);
        assert(path::same_place(execution_laws::place_of(steps[i]), place));
    }
    if has_step_for(steps, place) {
        let i = choose|i: int|
            0 <= i < steps.len() && path::same_place(
                execution_laws::place_of(#[trigger] steps[i]),
                place,
            );
        content_laws::steps_say_what_they_hold(steps[i]);
        assert(path::same_place(steps[i].dest(), place));
    }
}

/// Every shim of a plan is a link in `opt/`, of the shim's name, that leads to the program in the `bin/`
/// beside it.
pub proof fn shims_lead_to_their_programs(
    symlinks: Seq<(Seq<char>, Seq<char>)>,
    root: Seq<char>,
    i: int,
)
    requires
        0 <= i < symlinks.len(),
    ensures
        stage::shim_links(symlinks, root).len() == symlinks.len(),
        stage::shim_links(symlinks, root)[i].0 == path::below(
            path::below(root, "opt"@),
            symlinks[i].0,
        ),
        symlinks[i].1.len() > 0 && symlinks[i].1[0] != '/' ==> stage::shim_links(
            symlinks,
            root,
        )[i].1 == "../bin/"@ + symlinks[i].1,
{
    reveal_strlit("..");
    reveal_strlit("bin");
    reveal_strlit("../bin/");
    let bin = path::below(".."@, "bin"@);
    assert(bin =~= ".."@.push('/') + "bin"@);
    assert(bin.push('/') =~= "../bin/"@);
}

/// Which step a file is for, and how its mode counts: the last nine bits of what was seen.
pub open spec fn is_as_planned(step: StepFacts, seen: FileStatus) -> bool {
    let mode = match step {
        StepFacts::Download { mode, .. } => mode,
        StepFacts::CopyLocal { mode, .. } => mode,
        StepFacts::CargoBuild { .. } => 0o755u32,
        StepFacts::ExtractPackage { .. } => 0o644u32,
    };
    seen matches FileStatus::File { mode: found } && found % 512 == mode
}

proof fn nine_bits(mode: u32)
    ensures
        stage::permissions(mode) == mode % 512,
{
    assert(mode & 0o777 == mode % 512) by (bit_vector);
}

/// Who a step is for.
pub open spec fn owner_of(step: StepFacts) -> Seq<char> {
    match step {
        StepFacts::Download { owner, .. } => owner,
        StepFacts::CopyLocal { owner, .. } => owner,
        StepFacts::CargoBuild { owner, .. } => owner,
        StepFacts::ExtractPackage { owner, .. } => owner,
    }
}

/// Whether an error says of a step what is wrong with its file.
pub open spec fn blames(e: StageErrorFacts, step: StepFacts, seen: FileStatus) -> bool {
    match seen {
        FileStatus::Missing => e matches StageErrorFacts::Missing { owner, path } && owner
            == owner_of(step) && path == execution_laws::place_of(step),
        FileStatus::NotAFile => e matches StageErrorFacts::NotAFile { owner, path } && owner
            == owner_of(step) && path == execution_laws::place_of(step),
        FileStatus::File { mode } => e matches StageErrorFacts::WrongMode {
            owner,
            path,
            expected,
            found,
        } && owner == owner_of(step) && path == execution_laws::place_of(step) && found == mode
            % 512 && is_as_planned(step, FileStatus::File { mode: expected }) && expected < 512,
    }
}

proof fn first_wrong_file(steps: Seq<StepFacts>, seen: Seq<FileStatus>, n: int)
    requires
        0 <= n <= steps.len(),
        seen.len() == steps.len(),
        forall|i: int| 0 <= i < n ==> is_as_planned(#[trigger] steps[i], seen[i]),
        forall|i: int|
            0 <= i < steps.len() ==> (#[trigger] steps[i]).mode() < 512,
    ensures
        match stage::first_misplaced(steps, seen, n) {
            None => forall|i: int|
                0 <= i < steps.len() ==> is_as_planned(#[trigger] steps[i], seen[i]),
            Some(e) => exists|i: int|
                0 <= i < steps.len() && !is_as_planned(#[trigger] steps[i], seen[i]) && blames(
                    e,
                    steps[i],
                    seen[i],
                ) && forall|j: int| 0 <= j < i ==> is_as_planned(#[trigger] steps[j], seen[j]),
        },
    decreases steps.len() - n,
{
    if n < steps.len() {
        content_laws::steps_say_what_they_hold(steps[n]);
        if let FileStatus::File { mode } = seen[n] {
            nine_bits(mode);
        }
        if stage::misplaced(steps[n], seen[n]) is Some {
            let e = stage::misplaced(steps[n], seen[n])->0;
            assert(steps[n].mode() % 512 == steps[n].mode());
            assert(blames(e, steps[n], seen[n]));
            assert(!is_as_planned(steps[n], seen[n]));
        } else {
            first_wrong_file(steps, seen, n + 1);
        }
    }
}

proof fn first_absent_shim(links: Seq<(Seq<char>, Seq<char>)>, present: Seq<bool>, n: int)
    requires
        0 <= n <= links.len(),
        present.len() == links.len(),
        forall|i: int| 0 <= i < n ==> #[trigger] present[i],
    ensures
        match stage::first_missing_shim(links, present, n) {
            None => forall|i: int| 0 <= i < links.len() ==> #[trigger] present[i],
            Some(e) => exists|i: int|
                0 <= i < links.len() && !#[trigger] present[i] && e == (
                StageErrorFacts::MissingSymlink { path: links[i].0 }) && forall|j: int|
                    0 <= j < i ==> #[trigger] present[j],
        },
    decreases links.len() - n,
{
    if n < links.len() && present[n] {
        first_absent_shim(links, present, n + 1);
    }
}

/// A tree is refused for its first file that is not as planned, which names the component and the
/// place, and what is wrong: the file is missing, is no file, or has another mode. Where all files are
/// as planned it is refused for its first shim that is missing.
pub proof fn refused_trees_name_the_fault(
    plan: PlanFacts,
    root: Seq<char>,
    seen: Seq<FileStatus>,
    present: Seq<bool>,
)
    requires
        seen.len() == plan.steps.len(),
        present.len() == plan.symlinks.len(),
        forall|i: int| 0 <= i < plan.steps.len() ==> (#[trigger] plan.steps[i]).mode() < 512,
    ensures
        match stage::verified(plan, root, seen, present) {
            None => (forall|i: int|
                0 <= i < plan.steps.len() ==> is_as_planned(#[trigger] plan.steps[i], seen[i])) && (
            forall|i: int| 0 <= i < plan.symlinks.len() ==> #[trigger] present[i]),
            Some(e) => if forall|i: int|
                0 <= i < plan.steps.len() ==> is_as_planned(#[trigger] plan.steps[i], seen[i]) {
                exists|i: int|
                    0 <= i < plan.symlinks.len() && !#[trigger] present[i] && e == (
                    StageErrorFacts::MissingSymlink {
                        path: path::below(path::below(root, "opt"@), plan.symlinks[i].0),
                    }) && forall|j: int| 0 <= j < i ==> #[trigger] present[j]
            } else {
                exists|i: int|
                    0 <= i < plan.steps.len() && !is_as_planned(#[trigger] plan.steps[i], seen[i])
                        && blames(e, plan.steps[i], seen[i]) && forall|j: int|
                        0 <= j < i ==> is_as_planned(#[trigger] plan.steps[j], seen[j])
            },
        },
{
    first_wrong_file(plan.steps, seen, 0);
    let links = stage::shim_links(plan.symlinks, root);
    first_absent_shim(links, present, 0);
    if stage::first_misplaced(plan.steps, seen, 0) is None {
        match stage::first_missing_shim(links, present, 0) {
            Some(e) => {
                let i = choose|i: int|
                    0 <= i < links.len() && !#[trigger] present[i] && e == (
                    StageErrorFacts::MissingSymlink { path: links[i].0 }) && forall|j: int|
                        0 <= j < i ==> #[trigger] present[j];
                shims_lead_to_their_programs(plan.symlinks, root, i);
                assert(!present[i]);
            },
            None => {},
        }
    }
}

} // verus!
