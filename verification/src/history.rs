//! Whole runs: what holds of everything that was asked and told from the start on.
use vstd::prelude::*;
use vstd::string::*;

use crate::exchange::{Action, Event, Step};
use crate::model::{FileInfo, OperationMode};
use crate::plan::{found_equal, law_plan_covers_all_files, Planner};
use crate::promises::{
    law_dry_run_deletes_nothing, law_only_verified_duplicates_are_deleted,
    law_trash_is_used_as_asked,
};
use crate::run::follows;
use crate::scan::{path_list, paths_at};
use crate::state::{Phase, Run};
use crate::text::texts;

verus! {

/// One step of a run: what it was told, what it asked for then, and its state after that.
pub struct Moment {
    pub event: Event,
    pub step: Step,
    pub run: Run,
}

/// The state of a run after its first `n` steps.
pub open spec fn run_after(start: Run, history: Seq<Moment>, n: int) -> Run {
    if n == 0 {
        start
    } else {
        history[n - 1].run
    }
}

/// Whether `m` is a step that the run `before` can make.
pub open spec fn continues(before: Run, m: Moment) -> bool {
    &&& m.run.wf()
    &&& m.run.config == before.config
    &&& m.run.platform == before.platform
    &&& follows(before, m.event, m.run, m.step)
}

/// Whether `history` is what happens in a run that starts as `start`.
pub open spec fn is_history(start: Run, history: Seq<Moment>) -> bool {
    &&& start.wf()
    &&& start.phase is Inspecting
    &&& forall|n: int|
        0 <= n < history.len() ==> #[trigger] continues(run_after(start, history, n), history[n])
}

/// Whether the run asked to have the files at `left` and `right` compared, and was told at
/// once, in step `t`, that they are equal.
pub open spec fn told_equal(
    history: Seq<Moment>,
    t: int,
    left: Seq<char>,
    right: Seq<char>,
) -> bool {
    &&& 1 <= t < history.len()
    &&& history[t].event == Event::Compared(true)
    &&& history[t - 1].step.action matches Action::Compare { left: l, right: r }
    &&& l@ == left
    &&& r@ == right
}

/// The planner of a run that has one.
pub open spec fn planner_of(phase: Phase) -> Option<Planner> {
    match phase {
        Phase::Comparing { planner } => Some(planner),
        Phase::Reporting { planner, plan } => Some(planner),
        Phase::Deleting { planner, plan } => Some(planner),
        Phase::Recording { planner, plan, deleted, failed } => Some(planner),
        Phase::Summarizing { source, plan, artifacts } => Some(source@),
        _ => None,
    }
}

/// The planner's answers do not change but by an answer to its question.
proof fn lemma_answers_in_one_step(before: Run, m: Moment)
    requires
        before.wf(),
        continues(before, m),
        planner_of(m.run.phase) is Some,
    ensures
        ({
            let after = planner_of(m.run.phase)->0;
            ||| after.answers@ == Map::<(usize, usize), bool>::empty()
            ||| planner_of(before.phase) matches Some(planner) && {
                &&& after.files@ == planner.files@
                &&& after.answers@ == planner.answers@ || (before.phase is Comparing
                    && m.event is Compared && after.answers@ == planner.answers@.insert(
                    planner.question()->0,
                    m.event->Compared_0,
                ))
            }
        }),
{
    reveal(follows);
}

/// While a run waits for the answer to a question, the last thing it asked was that
/// question.
proof fn lemma_last_action_is_the_question(before: Run, m: Moment)
    requires
        before.wf(),
        continues(before, m),
        m.run.phase is Comparing,
    ensures
        ({
            let planner = m.run.phase->Comparing_planner;
            &&& planner.question() is Some
            &&& m.step.action matches Action::Compare { left, right }
            &&& left@ == planner.files@[(planner.question()->0).0 as int].file_path@
            &&& right@ == planner.files@[(planner.question()->0).1 as int].file_path@
        }),
{
    reveal(follows);
}

/// Whether each pair of files that a planner holds for equal was found so in the first `n`
/// steps.
spec fn has_grounds(history: Seq<Moment>, n: int, planner: Planner) -> bool {
    forall|a: usize, b: usize| #[trigger]
        found_equal(planner.answers@, a, b) ==> exists|t: int|
            t < n && #[trigger] told_equal(
                history,
                t,
                planner.files@[a as int].file_path@,
                planner.files@[b as int].file_path@,
            )
}

proof fn lemma_answers_have_grounds(start: Run, history: Seq<Moment>, n: int)
    requires
        is_history(start, history),
        0 <= n <= history.len(),
    ensures
        run_after(start, history, n).wf(),
        planner_of(run_after(start, history, n).phase) matches Some(planner) ==> has_grounds(
            history,
            n,
            planner,
        ),
    decreases n,
{
    if n > 0 {
        lemma_answers_have_grounds(start, history, n - 1);
        let before = run_after(start, history, n - 1);
        let m = history[n - 1];
        assert(continues(before, m));
        if let Some(planner) = planner_of(m.run.phase) {
            lemma_answers_in_one_step(before, m);
            assert forall|a: usize, b: usize| #[trigger]
                found_equal(planner.answers@, a, b) implies exists|t: int|
                t < n && #[trigger] told_equal(
                    history,
                    t,
                    planner.files@[a as int].file_path@,
                    planner.files@[b as int].file_path@,
                ) by {
                let earlier = planner_of(before.phase)->0;
                let left = planner.files@[a as int].file_path@;
                let right = planner.files@[b as int].file_path@;
                if found_equal(earlier.answers@, a, b) {
                    let t = choose|t: int|
                        t < n - 1 && #[trigger] told_equal(history, t, left, right);
                    assert(told_equal(history, t, left, right));
                } else {
                    assert(before.phase is Comparing);
                    assert(earlier.question()->0 == (a, b));
                    assert(m.event == Event::Compared(true));
                    assert(n - 1 > 0);
                    assert(continues(run_after(start, history, n - 2), history[n - 2]));
                    lemma_answers_have_grounds(start, history, n - 2);
                    lemma_last_action_is_the_question(
                        run_after(start, history, n - 2),
                        history[n - 2],
                    );
                    assert(told_equal(history, n - 1, left, right));
                }
            }
        }
    }
}

/// Whether no two files have one path.
pub open spec fn has_distinct_paths(files: Seq<FileInfo>) -> bool {
    path_list(files).no_duplicates()
}

/// Where paths are distinct, the path of a file is none of those of other files.
proof fn lemma_kept_path_is_no_other(files: Seq<FileInfo>, planned: Seq<usize>, kept: usize)
    requires
        has_distinct_paths(files),
        kept < files.len(),
        forall|k: int| 0 <= k < planned.len() ==> #[trigger] planned[k] < files.len(),
        !planned.contains(kept),
    ensures
        !paths_at(files, planned).contains(files[kept as int].file_path@),
{
    let paths = paths_at(files, planned);
    if paths.contains(files[kept as int].file_path@) {
        let j = choose|j: int| 0 <= j < paths.len() && paths[j] == files[kept as int].file_path@;
        assert(planned[j] < files.len());
        assert(path_list(files)[planned[j] as int] == path_list(files)[kept as int]);
        assert(planned.contains(kept));
    }
}

/// What a run deletes, in one step.
proof fn lemma_deletion(before: Run, m: Moment, k: int)
    requires
        before.wf(),
        continues(before, m),
        m.step.action matches Action::Delete { paths, use_trash } && 0 <= k < paths@.len(),
    ensures
        before.phase matches Phase::Reporting { planner, plan } && {
            let doomed = plan.planned_deletions@[k];
            let kept = planner.home@[doomed as int];
            &&& texts(m.step.action->paths@) == paths_at(planner.files@, plan.planned_deletions@)
            &&& k < plan.planned_deletions@.len()
            &&& kept < planner.files@.len()
            &&& plan.kept@.contains(kept)
            &&& !plan.planned_deletions@.contains(kept)
            &&& found_equal(planner.answers@, doomed, kept)
            &&& forall|j: int|
                0 <= j < plan.planned_deletions@.len() ==> #[trigger] plan.planned_deletions@[j]
                    < planner.files@.len()
        },
{
    reveal(follows);
    law_only_verified_duplicates_are_deleted(before, m.event, m.run, m.step, k);
    if let Phase::Reporting { planner, plan } = before.phase {
        law_plan_covers_all_files(planner.files@, planner.home@, plan);
        assert forall|j: int|
            0 <= j < plan.planned_deletions@.len() implies #[trigger] plan.planned_deletions@[j]
            < planner.files@.len() by {
            assert(plan.planned_deletions@.contains(plan.planned_deletions@[j]));
        }
    }
}

/// Byte-for-byte verification before deletion: whenever a run, from its start on, comes to
/// delete files, then for each of them it has had a comparison with a file that it keeps,
/// and was told that the two are equal. Where no two scanned files have one path, that file
/// is none of those deleted.
pub proof fn law_nothing_is_deleted_unverified(start: Run, history: Seq<Moment>, n: int, k: int)
    requires
        is_history(start, history),
        0 <= n < history.len(),
        history[n].step.action matches Action::Delete { paths, use_trash } && 0 <= k
            < paths@.len(),
    ensures
        run_after(start, history, n).phase matches Phase::Reporting { planner, plan }
            && exists|kept: usize, t: int|
            {
                &&& #[trigger] plan.kept@.contains(kept)
                &&& t < n
                &&& #[trigger] told_equal(
                    history,
                    t,
                    texts(history[n].step.action->paths@)[k],
                    planner.files@[kept as int].file_path@,
                )
                &&& has_distinct_paths(planner.files@) ==> !texts(
                    history[n].step.action->paths@,
                ).contains(planner.files@[kept as int].file_path@)
            },
{
    let before = run_after(start, history, n);
    let m = history[n];
    lemma_answers_have_grounds(start, history, n);
    assert(continues(before, m));
    lemma_deletion(before, m, k);
    if let Phase::Reporting { planner, plan } = before.phase {
        let files = planner.files@;
        let paths = m.step.action->paths;
        let doomed = plan.planned_deletions@[k];
        let kept = planner.home@[doomed as int];
        assert(texts(paths@)[k] == files[doomed as int].file_path@);
        assert(found_equal(planner.answers@, doomed, kept));
        let t = choose|t: int|
            t < n && #[trigger] told_equal(
                history,
                t,
                files[doomed as int].file_path@,
                files[kept as int].file_path@,
            );
        assert(texts(paths@) == paths_at(files, plan.planned_deletions@));
        assert(told_equal(history, t, texts(paths@)[k], files[kept as int].file_path@));
        assert(plan.kept@.contains(kept));
        if has_distinct_paths(files) {
            lemma_kept_path_is_no_other(files, plan.planned_deletions@, kept);
        }
    }
}

/// A run keeps to the configuration and the platform that it was started with.
proof fn lemma_configuration_stays(start: Run, history: Seq<Moment>, n: int)
    requires
        is_history(start, history),
        0 <= n <= history.len(),
    ensures
        run_after(start, history, n).wf(),
        run_after(start, history, n).config == start.config,
        run_after(start, history, n).platform == start.platform,
    decreases n,
{
    if n > 0 {
        lemma_configuration_stays(start, history, n - 1);
        assert(continues(run_after(start, history, n - 1), history[n - 1]));
    }
}

/// In a whole run, files are deleted only where the run was started to apply its plan, and
/// they go to the trash exactly where it was started to move them there.
pub proof fn law_run_deletes_as_it_was_asked(start: Run, history: Seq<Moment>, n: int)
    requires
        is_history(start, history),
        0 <= n < history.len(),
    ensures
        history[n].step.action matches Action::Delete { paths, use_trash } ==> {
            &&& start.config.mode == OperationMode::Apply
            &&& use_trash == start.config.use_trash
        },
{
    let before = run_after(start, history, n);
    let m = history[n];
    lemma_configuration_stays(start, history, n);
    assert(continues(before, m));
    law_trash_is_used_as_asked(before, m.event, m.run, m.step);
    if start.config.mode == OperationMode::DryRun {
        law_dry_run_deletes_nothing(before, m.event, m.run, m.step);
    }
}

} // verus!
