//! When two runs come to one result.
use vstd::prelude::*;
use vstd::string::*;

use crate::again::{
    adds_nothing, is_settled, law_plan_is_made_again, lemma_plan_is_reported, lemma_reporting,
    lemma_run_adds_nothing, lemma_same_records, offers, takes_up,
};
use crate::exchange::{is_report, Action, Event, Folder};
use crate::faithful::law_prefilter_and_interruption_change_no_plan;
use crate::history::{continues, is_history, run_after, Moment};
use crate::model::{records, FileInfo, RunArtifacts, ALL_FILES_CSV};
use crate::resume::number_after;
use crate::scan::path_list;
use crate::select::{ascending, lemma_ascending, picked};
use crate::stages::planning::lemma_plan_in_range;
use crate::state::{Phase, Run};
use crate::success::{
    finds_occupied_folder, is_answered, is_free_step, is_over, is_too_much, is_unhindered,
    law_fresh_run_is_unhindered, law_result_is_that_of_the_plan, law_unhindered_run_finishes,
    result_of, saved_paths,
};
use crate::table::{csv_bytes, file_table, saved_files};
use crate::text::{text_options, texts};
use crate::truth::{is_sound, is_truthful, lemma_truth_is_kept, Truth};

verus! {

// ---------------------------------------------------------------------------
// The prefilter, and interruptions
// ---------------------------------------------------------------------------

/// Whether two results agree on the files: the same paths were found and are kept, the same
/// files are planned for deletion, and there are as many sets of duplicates.
pub open spec fn plan_the_same(a: RunArtifacts, b: RunArtifacts) -> bool {
    &&& path_list(a.all_files@) == path_list(b.all_files@)
    &&& path_list(a.kept_files@) == path_list(b.kept_files@)
    &&& records(a.planned_deletions@) == records(b.planned_deletions@)
    &&& a.summary.duplicate_sets == b.summary.duplicate_sets
}

/// Selections from lists with the same paths have the same paths.
proof fn lemma_picked_paths(files: Seq<FileInfo>, others: Seq<FileInfo>, indices: Seq<usize>)
    requires
        path_list(files) == path_list(others),
        forall|k: int| 0 <= k < indices.len() ==> #[trigger] indices[k] < files.len(),
    ensures
        path_list(picked(files, indices)) == path_list(picked(others, indices)),
{
    let s = path_list(picked(files, indices));
    let t = path_list(picked(others, indices));
    assert(path_list(files).len() == files.len());
    assert(path_list(others).len() == others.len());
    assert forall|k: int| 0 <= k < s.len() implies s[k] == t[k] by {
        assert(indices[k] < files.len());
        assert(path_list(files)[indices[k] as int] == path_list(others)[indices[k] as int]);
    }
    assert(s =~= t);
}

/// Two runs with a result that scan the same candidates and are told the truth plan the same.
proof fn lemma_results_agree(
    truth: Truth,
    first: Run,
    history: Seq<Moment>,
    second: Run,
    later: Seq<Moment>,
)
    requires
        truth.listing is Some,
        is_sound(truth),
        is_history(first, history),
        is_history(second, later),
        is_truthful(truth, history),
        is_truthful(truth, later),
        first.config.keep_rule@ == second.config.keep_rule@,
        first.platform == second.platform,
        result_of(history) is Some,
        result_of(later) is Some,
    ensures
        plan_the_same(result_of(history)->0, result_of(later)->0),
{
    let n = law_result_is_that_of_the_plan(first, history);
    let m = law_result_is_that_of_the_plan(second, later);
    law_prefilter_and_interruption_change_no_plan(truth, first, history, n, second, later, m);
    lemma_truth_is_kept(truth, first, history, n);
    let planner = run_after(first, history, n).phase->Reporting_planner;
    let other = run_after(second, later, m).phase->Reporting_planner;
    let plan = run_after(first, history, n).phase->Reporting_plan;
    lemma_plan_in_range(planner, plan);
    lemma_picked_paths(planner.files@, other.files@, plan.kept@);
}

/// The fast prefilter saves work, not results: where two runs scan the same candidates anew, by
/// one keep rule, into free output folders, and are answered in full and truly, both come to a
/// result, and the results plan the same, whether the runs use the prefilter or not.
pub proof fn law_prefilter_changes_no_result(
    truth: Truth,
    first: Run,
    history: Seq<Moment>,
    second: Run,
    later: Seq<Moment>,
)
    requires
        truth.listing is Some,
        is_sound(truth),
        is_history(first, history),
        is_history(second, later),
        is_answered(history),
        is_answered(later),
        is_truthful(truth, history),
        is_truthful(truth, later),
        is_over(history),
        is_over(later),
        first.config.keep_rule@ == second.config.keep_rule@,
        first.platform == second.platform,
        !first.config.resume,
        !second.config.resume,
        !finds_occupied_folder(history),
        !finds_occupied_folder(later),
    ensures
        result_of(history) matches Some(a) && (result_of(later) matches Some(b) && plan_the_same(
            a,
            b,
        )),
{
    law_fresh_run_is_unhindered(first, history);
    law_fresh_run_is_unhindered(second, later);
    law_unhindered_run_finishes(first, history);
    law_unhindered_run_finishes(second, later);
    lemma_results_agree(truth, first, history, second, later);
}

/// An interruption changes no result: a run that takes up the checkpoints of a scan, in whose
/// way nothing stands, and that is answered in full and truly, comes to a result, and it plans
/// what a run plans that has scanned the same candidates without an interruption.
pub proof fn law_interruption_changes_no_result(
    truth: Truth,
    first: Run,
    history: Seq<Moment>,
    second: Run,
    later: Seq<Moment>,
)
    requires
        truth.listing is Some,
        is_sound(truth),
        is_history(first, history),
        is_history(second, later),
        is_answered(history),
        is_answered(later),
        is_truthful(truth, history),
        is_truthful(truth, later),
        is_over(history),
        is_over(later),
        first.config.keep_rule@ == second.config.keep_rule@,
        first.platform == second.platform,
        !first.config.resume,
        !finds_occupied_folder(history),
        second.config.resume,
        is_unhindered(second, later),
    ensures
        result_of(history) matches Some(a) && (result_of(later) matches Some(b) && plan_the_same(
            a,
            b,
        )),
{
    law_fresh_run_is_unhindered(first, history);
    law_unhindered_run_finishes(first, history);
    law_unhindered_run_finishes(second, later);
    lemma_results_agree(truth, first, history, second, later);
}

// ---------------------------------------------------------------------------
// The plan that was reviewed
// ---------------------------------------------------------------------------

/// The contents of the table of all files of a result.
pub open spec fn all_files_table(result: RunArtifacts) -> Seq<u8> {
    csv_bytes(file_table(records(result.all_files@)))
}

/// Whether a run writes the table of all files with the given contents.
pub open spec fn writes_all_files(history: Seq<Moment>, data: Seq<u8>) -> bool {
    exists|t: int|
        0 <= t < history.len() && ((#[trigger] history[t]).step.action matches Action::Write(tables)
            && tables@.len() > 0 && tables@[0].folder == Folder::Output && tables@[0].name@
            == ALL_FILES_CSV@ && tables@[0].data@ == data)
}

/// Whether no checkpoint that a run finds has the last number that there is.
pub open spec fn leaves_numbers(history: Seq<Moment>) -> bool {
    forall|t: int|
        0 <= t < history.len() ==> ((#[trigger] history[t]).event matches Event::Saved {
            all_files,
            stems,
        } ==> number_after(text_options(stems@)) <= usize::MAX)
}

/// Where every candidate is known there are not too many.
proof fn lemma_not_too_much(candidates: Seq<Seq<char>>, known: Seq<FileInfo>)
    requires
        known.len() <= usize::MAX,
        candidates.len() <= usize::MAX,
        forall|k: int|
            0 <= k < candidates.len() ==> path_list(known).contains(#[trigger] candidates[k]),
    ensures
        !is_too_much(candidates, saved_paths(records(known))),
{
    let paths = saved_paths(records(known));
    assert(paths =~= path_list(known)) by {
        assert(records(known).len() == known.len());
        assert forall|i: int| 0 <= i < known.len() implies paths[i] == path_list(known)[i] by {
            assert(records(known)[i] == known[i]@);
        }
    }
    let want = |i: int| !paths.contains(candidates[i]);
    lemma_ascending(candidates.len(), want);
    let rest = ascending(candidates.len(), want);
    if rest.len() > 0 {
        assert(want(rest[0] as int));
        assert(path_list(known).contains(candidates[rest[0] as int]));
    }
    paths.lemma_cardinality_of_set();
}

/// Nothing stands in the way of a run that takes up a finished table.
proof fn lemma_table_is_no_obstacle(
    truth: Truth,
    known: Seq<FileInfo>,
    table: Seq<u8>,
    start: Run,
    history: Seq<Moment>,
)
    requires
        known.len() <= usize::MAX,
        is_history(start, history),
        start.config.resume,
        is_truthful(truth, history),
        is_settled(truth, start.config.fast_prefilter, known),
        saved_files(table) == Some(records(known)),
        takes_up(history, table, path_list(known)),
        leaves_numbers(history),
    ensures
        is_unhindered(start, history),
{
    assert forall|t: int| 0 <= t < history.len() implies #[trigger] is_free_step(
        start,
        history,
        t,
    ) by {
        lemma_run_adds_nothing(truth, known, table, start, history, t);
        lemma_truth_is_kept(truth, start, history, t);
        let run = run_after(start, history, t);
        let event = history[t].event;
        reveal(adds_nothing);
        reveal(offers);
        assert(offers(event, table, path_list(known)));
        if let (Phase::Listing { candidates }, Event::Saved { all_files, stems }) = (
            run.phase,
            event,
        ) {
            let all = texts(candidates@);
            assert(all.len() == candidates.len());
            assert forall|k: int| 0 <= k < all.len() implies path_list(known).contains(
                #[trigger] all[k],
            ) by {
                assert(all[k] == candidates@[k]@);
            }
            lemma_not_too_much(all, known);
        }
    }
}

/// Selections of the same from lists of the same files are the same.
proof fn lemma_picked_records(files: Seq<FileInfo>, others: Seq<FileInfo>, indices: Seq<usize>)
    requires
        records(files) == records(others),
        forall|k: int| 0 <= k < indices.len() ==> #[trigger] indices[k] < files.len(),
    ensures
        records(picked(files, indices)) == records(picked(others, indices)),
{
    lemma_same_records(files, others);
    let s = records(picked(files, indices));
    let t = records(picked(others, indices));
    assert forall|k: int| 0 <= k < s.len() implies s[k] == t[k] by {
        assert(indices[k] < files.len());
        assert(files[indices[k] as int]@ == others[indices[k] as int]@);
    }
    assert(s =~= t);
}

/// The plan that is applied is the plan that was reviewed: where a run has come to a result, it
/// has written the table of all its files. Where another run, by the same keep rule and with the
/// prefilter used or not as before, resumes from that table and finds no candidate that is not
/// in it, and is answered in full, it comes to a result too: the same files are known, kept and
/// planned for deletion, and there are as many sets of duplicates. What both are told of
/// fingerprints, hashes, times and comparisons is true of the same files, which have not changed
/// in between.
pub proof fn law_reviewed_plan_is_applied(
    truth: Truth,
    first: Run,
    history: Seq<Moment>,
    second: Run,
    later: Seq<Moment>,
)
    requires
        truth.listing is None,
        is_history(first, history),
        is_history(second, later),
        is_truthful(truth, history),
        is_truthful(truth, later),
        result_of(history) matches Some(a) && takes_up(
            later,
            all_files_table(a),
            path_list(a.all_files@),
        ),
        is_answered(later),
        is_over(later),
        leaves_numbers(later),
        first.config.keep_rule@ == second.config.keep_rule@,
        first.config.fast_prefilter == second.config.fast_prefilter,
        first.platform == second.platform,
        second.config.resume,
    ensures
        result_of(history) matches Some(a) && writes_all_files(history, all_files_table(a)) && (
        result_of(later) matches Some(b) && {
            &&& records(a.all_files@) == records(b.all_files@)
            &&& records(a.kept_files@) == records(b.kept_files@)
            &&& records(a.planned_deletions@) == records(b.planned_deletions@)
            &&& a.summary.duplicate_sets == b.summary.duplicate_sets
        }),
{
    let a = result_of(history)->0;
    let table = all_files_table(a);
    let n = law_result_is_that_of_the_plan(first, history);
    let run = run_after(first, history, n);
    let known = run.phase->Reporting_planner.files@;
    let plan = run.phase->Reporting_plan;
    lemma_truth_is_kept(truth, first, history, n - 1);
    lemma_truth_is_kept(truth, first, history, n);
    assert(continues(run_after(first, history, n - 1), history[n - 1]));
    lemma_plan_is_reported(run_after(first, history, n - 1), history[n - 1]);
    lemma_reporting(truth, run);
    let tables = history[n - 1].step.action->Write_0;
    assert(is_report(tables@[0], Folder::Output, ALL_FILES_CSV@, known));
    assert(tables@[0].data@ == table);
    lemma_table_is_no_obstacle(truth, known, table, second, later);
    law_unhindered_run_finishes(second, later);
    let m = law_result_is_that_of_the_plan(second, later);
    law_plan_is_made_again(truth, first, history, n, second, later, m);
    let others = run_after(second, later, m).phase->Reporting_planner.files@;
    lemma_plan_in_range(run.phase->Reporting_planner, plan);
    lemma_picked_records(known, others, plan.kept@);
    lemma_picked_records(known, others, plan.planned_deletions@);
}

} // verus!
