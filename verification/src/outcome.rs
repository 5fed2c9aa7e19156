//! What came of a run: the deletions that worked, those that failed, and the summary.
use vstd::prelude::*;
use vstd::string::*;

use crate::model::{
    progress, reported, FailedDeletionRecord, FileInfo, KeepRule, ProgressRecord, ProgressUpdate,
    RunArtifacts, RunConfig, RunStage, RunSummary,
};
use crate::number::{count_text, decimal};
use crate::plan::DedupPlan;
use crate::select::{pick, picked};

verus! {

// ---------------------------------------------------------------------------
// Deletions
// ---------------------------------------------------------------------------

/// The files that were deleted: those whose deletion gave no error.
pub open spec fn deleted_of(
    planned: Seq<FileInfo>,
    errors: Seq<Option<String>>,
) -> Seq<FileInfo>
    decreases planned.len(),
{
    if planned.len() == 0 {
        Seq::empty()
    } else {
        let before = deleted_of(planned.drop_last(), errors.drop_last());
        match errors.last() {
            None => before.push(planned.last()),
            Some(_) => before,
        }
    }
}

/// The files that could not be deleted, each with its error.
pub open spec fn failed_of(
    planned: Seq<FileInfo>,
    errors: Seq<Option<String>>,
) -> Seq<FailedDeletionRecord>
    decreases planned.len(),
{
    if planned.len() == 0 {
        Seq::empty()
    } else {
        let before = failed_of(planned.drop_last(), errors.drop_last());
        match errors.last() {
            None => before,
            Some(error) => before.push(
                FailedDeletionRecord { file_path: planned.last().file_path, error },
            ),
        }
    }
}

/// The message on the first `done` of `total` deletions.
pub open spec fn deletion_message(done: int, total: int) -> Seq<char> {
    "Applying deletion plan: "@ + decimal(done) + " of "@ + decimal(total)
}

/// The report on the first `done` deletions.
pub open spec fn deletion_report(
    planned: Seq<FileInfo>,
    errors: Seq<Option<String>>,
    done: int,
) -> ProgressRecord {
    ProgressRecord {
        stage: RunStage::Deleting,
        message: deletion_message(done, planned.len() as int),
        discovered_files: None,
        processed_files: 0,
        planned_deletions: planned.len() as usize,
        deleted_files: deleted_of(planned.take(done), errors.take(done)).len() as usize,
    }
}

/// The reports on a list of deletions, one for each.
pub open spec fn deletion_reports(
    planned: Seq<FileInfo>,
    errors: Seq<Option<String>>,
) -> Seq<ProgressRecord> {
    Seq::new(planned.len(), |k: int| deletion_report(planned, errors, k + 1))
}

/// What came of a list of deletions.
#[derive(Debug)]
pub struct DeletionOutcome {
    pub deleted: Vec<FileInfo>,
    pub failed: Vec<FailedDeletionRecord>,
    pub reports: Vec<ProgressUpdate>,
}

/// Every planned deletion either worked or failed.
pub proof fn law_deletions_are_accounted_for(
    planned: Seq<FileInfo>,
    errors: Seq<Option<String>>,
)
    requires
        errors.len() == planned.len(),
    ensures
        deleted_of(planned, errors).len() + failed_of(planned, errors).len() == planned.len(),
    decreases planned.len(),
{
    if planned.len() > 0 {
        law_deletions_are_accounted_for(planned.drop_last(), errors.drop_last());
    }
}

/// What came of the deletion of `planned`, given the error, if any, of each deletion.
pub fn record_deletions(planned: &Vec<FileInfo>, errors: &Vec<Option<String>>) -> (r:
    DeletionOutcome)
    requires
        errors@.len() == planned@.len(),
    ensures
        r.deleted@ == deleted_of(planned@, errors@),
        r.failed@ == failed_of(planned@, errors@),
        reported(r.reports@) == deletion_reports(planned@, errors@),
{
    let n: usize = planned.len();
    let mut deleted: Vec<FileInfo> = Vec::new();
    let mut failed: Vec<FailedDeletionRecord> = Vec::new();
    let mut reports: Vec<ProgressUpdate> = Vec::new();
    let mut i: usize = 0;
    proof {
        assert(planned@.take(0) =~= Seq::empty());
    }
    while i < n
        invariant
            n == planned@.len(),
            n == errors@.len(),
            i <= n,
            deleted@ == deleted_of(planned@.take(i as int), errors@.take(i as int)),
            failed@ == failed_of(planned@.take(i as int), errors@.take(i as int)),
            reports@.len() == i,
            forall|k: int|
                0 <= k < i ==> #[trigger] reports@[k]@ == deletion_report(
                    planned@,
                    errors@,
                    k + 1,
                ),
        decreases n - i,
    {
        proof {
            assert(planned@.take(i + 1).drop_last() =~= planned@.take(i as int));
            assert(errors@.take(i + 1).drop_last() =~= errors@.take(i as int));
            law_deletions_are_accounted_for(planned@.take(i + 1), errors@.take(i + 1));
        }
        match &errors[i] {
            None => deleted.push(planned[i].clone()),
            Some(error) => failed.push(
                FailedDeletionRecord {
                    file_path: planned[i].file_path.clone(),
                    error: error.clone(),
                },
            ),
        }
        i = i + 1;
        let message: String = "Applying deletion plan: ".to_string().concat(
            count_text(deleted.len() + failed.len()).as_str(),
        ).concat(" of ").concat(count_text(n).as_str());
        reports.push(progress(RunStage::Deleting, message, None, 0, n, deleted.len()));
        assert(reports@[i - 1]@ == deletion_report(planned@, errors@, i as int));
    }
    proof {
        assert(planned@.take(i as int) =~= planned@);
        assert(errors@.take(i as int) =~= errors@);
        assert(reported(reports@) =~= deletion_reports(planned@, errors@));
    }
    DeletionOutcome { deleted, failed, reports }
}

// ---------------------------------------------------------------------------
// Summary
// ---------------------------------------------------------------------------

/// Whether `a` is what a run ends with that scanned `files`, made the plan `plan`, and
/// deleted `deleted` but could not delete `failed`.
pub open spec fn is_result(
    a: RunArtifacts,
    config: RunConfig,
    files: Seq<FileInfo>,
    plan: DedupPlan,
    deleted: Seq<FileInfo>,
    failed: Seq<FailedDeletionRecord>,
) -> bool {
    &&& a.all_files@ == files
    &&& a.kept_files@ == picked(files, plan.kept@)
    &&& a.planned_deletions@ == picked(files, plan.planned_deletions@)
    &&& a.deleted_files@ == deleted
    &&& a.failed_deletions@ == failed
    &&& a.summary.mode == config.mode
    &&& a.summary.root_dir@ == config.root_dir@
    &&& a.summary.output_dir@ == config.output_dir@
    &&& a.summary.keep_rule@ == config.keep_rule.caption()
    &&& a.summary.discovered_files == files.len()
    &&& a.summary.scanned_files == files.len()
    &&& a.summary.kept_files == plan.kept@.len()
    &&& a.summary.planned_deletions == plan.planned_deletions@.len()
    &&& a.summary.deleted_files == deleted.len()
    &&& a.summary.failed_deletions == failed.len()
    &&& a.summary.duplicate_sets == plan.duplicate_sets
}

/// What a run ends with.
pub fn gather_result(
    config: &RunConfig,
    files: Vec<FileInfo>,
    plan: &DedupPlan,
    deleted: Vec<FileInfo>,
    failed: Vec<FailedDeletionRecord>,
) -> (r: RunArtifacts)
    requires
        forall|k: int| 0 <= k < plan.kept@.len() ==> #[trigger] plan.kept@[k] < files@.len(),
        forall|k: int|
            0 <= k < plan.planned_deletions@.len() ==> #[trigger] plan.planned_deletions@[k]
                < files@.len(),
    ensures
        is_result(r, *config, files@, *plan, deleted@, failed@),
{
    let kept_files = pick(&files, &plan.kept);
    let planned_deletions = pick(&files, &plan.planned_deletions);
    let summary = RunSummary {
        mode: config.mode,
        root_dir: config.root_dir.clone(),
        output_dir: config.output_dir.clone(),
        keep_rule: config.keep_rule.label(),
        discovered_files: files.len(),
        scanned_files: files.len(),
        kept_files: plan.kept.len(),
        planned_deletions: plan.planned_deletions.len(),
        deleted_files: deleted.len(),
        failed_deletions: failed.len(),
        duplicate_sets: plan.duplicate_sets,
    };
    RunArtifacts {
        summary,
        all_files: files,
        kept_files,
        planned_deletions,
        deleted_files: deleted,
        failed_deletions: failed,
    }
}

// ---------------------------------------------------------------------------
// Laws
// ---------------------------------------------------------------------------

/// A deletion that gave no error counts as deleted, with the whole record of the file, and
/// not as failed; one that gave an error counts as failed, with the path of the file and
/// that error, and not as deleted.
pub proof fn law_outcome_of_a_deletion(file: FileInfo, error: String)
    ensures
        deleted_of(seq![file], seq![None]) == seq![file],
        failed_of(seq![file], seq![None]) == Seq::<FailedDeletionRecord>::empty(),
        deleted_of(seq![file], seq![Some(error)]) == Seq::<FileInfo>::empty(),
        failed_of(seq![file], seq![Some(error)]) == seq![
            FailedDeletionRecord { file_path: file.file_path, error },
        ],
{
    let empty = Seq::<FileInfo>::empty();
    assert(seq![file].drop_last() =~= empty);
    let none = Seq::<FailedDeletionRecord>::empty();
    assert(deleted_of(empty, seq![None::<String>].drop_last()) =~= empty);
    assert(failed_of(empty, seq![None::<String>].drop_last()) =~= none);
    assert(deleted_of(empty, seq![Some(error)].drop_last()) =~= empty);
    assert(failed_of(empty, seq![Some(error)].drop_last()) =~= none);
}

/// What came of a deletion does not depend on the others, and is told in the order in which
/// the files were deleted: what came of two lists of deletions, one after the other, is what
/// came of the first, and then what came of the second.
pub proof fn law_deletions_are_told_in_turn(
    planned: Seq<FileInfo>,
    errors: Seq<Option<String>>,
    more: Seq<FileInfo>,
    later: Seq<Option<String>>,
)
    requires
        errors.len() == planned.len(),
        later.len() == more.len(),
    ensures
        deleted_of(planned + more, errors + later) == deleted_of(planned, errors) + deleted_of(
            more,
            later,
        ),
        failed_of(planned + more, errors + later) == failed_of(planned, errors) + failed_of(
            more,
            later,
        ),
    decreases more.len(),
{
    if more.len() == 0 {
        assert(planned + more =~= planned);
        assert(errors + later =~= errors);
        assert(deleted_of(planned, errors) + deleted_of(more, later) =~= deleted_of(
            planned,
            errors,
        ));
        assert(failed_of(planned, errors) + failed_of(more, later) =~= failed_of(planned, errors));
    } else {
        law_deletions_are_told_in_turn(planned, errors, more.drop_last(), later.drop_last());
        assert((planned + more).drop_last() =~= planned + more.drop_last());
        assert((errors + later).drop_last() =~= errors + later.drop_last());
        assert((planned + more).last() == more.last());
        assert((errors + later).last() == later.last());
        assert(deleted_of(planned + more, errors + later) =~= deleted_of(planned, errors)
            + deleted_of(more, later));
        assert(failed_of(planned + more, errors + later) =~= failed_of(planned, errors)
            + failed_of(more, later));
    }
}

/// Where every deletion worked, all files are deleted and none failed; where none worked,
/// none is deleted, and of every file it is told that it failed, and why.
pub proof fn law_all_or_none_deleted(planned: Seq<FileInfo>, errors: Seq<Option<String>>)
    requires
        errors.len() == planned.len(),
    ensures
        (forall|k: int| 0 <= k < errors.len() ==> (#[trigger] errors[k]) is None) ==> deleted_of(
            planned,
            errors,
        ) == planned && failed_of(planned, errors).len() == 0,
        (forall|k: int| 0 <= k < errors.len() ==> (#[trigger] errors[k]) is Some) ==> deleted_of(
            planned,
            errors,
        ).len() == 0 && failed_of(planned, errors) == Seq::new(
            planned.len(),
            |k: int|
                FailedDeletionRecord { file_path: planned[k].file_path, error: errors[k]->0 },
        ),
    decreases planned.len(),
{
    if planned.len() > 0 {
        let p = planned.drop_last();
        let e = errors.drop_last();
        law_all_or_none_deleted(p, e);
        if forall|k: int| 0 <= k < errors.len() ==> (#[trigger] errors[k]) is None {
            assert forall|k: int| 0 <= k < e.len() implies (#[trigger] e[k]) is None by {
                assert(errors[k] is None);
            }
            assert(errors[errors.len() - 1] is None);
            assert(deleted_of(planned, errors) =~= planned);
        }
        if forall|k: int| 0 <= k < errors.len() ==> (#[trigger] errors[k]) is Some {
            assert forall|k: int| 0 <= k < e.len() implies (#[trigger] e[k]) is Some by {
                assert(errors[k] is Some);
            }
            assert(errors[errors.len() - 1] is Some);
            assert(failed_of(planned, errors) =~= Seq::new(
                planned.len(),
                |k: int|
                    FailedDeletionRecord { file_path: planned[k].file_path, error: errors[k]->0 },
            ));
        }
    }
}

/// After each deletion it is reported how many are done, of how many that are planned, and
/// how many files are deleted: one more exactly where the last deletion gave no error.
pub proof fn law_deletions_are_reported(
    planned: Seq<FileInfo>,
    errors: Seq<Option<String>>,
    done: int,
)
    requires
        errors.len() == planned.len(),
        planned.len() <= usize::MAX,
        0 <= done < planned.len(),
    ensures
        deletion_reports(planned, errors).len() == planned.len(),
        deletion_reports(planned, errors)[done].message == "Applying deletion plan: "@ + decimal(
            done + 1,
        ) + " of "@ + decimal(planned.len() as int),
        deletion_reports(planned, errors)[done].stage == RunStage::Deleting,
        deletion_reports(planned, errors)[done].planned_deletions == planned.len(),
        deletion_reports(planned, errors)[done].discovered_files is None,
        deletion_reports(planned, errors)[done].processed_files == 0,
        deletion_reports(planned, errors)[done].deleted_files == (if done == 0 {
            0
        } else {
            deletion_reports(planned, errors)[done - 1].deleted_files as int
        }) + (if errors[done] is None {
            1int
        } else {
            0
        }),
{
    let p = planned.take(done + 1);
    let e = errors.take(done + 1);
    assert(p.drop_last() =~= planned.take(done));
    assert(e.drop_last() =~= errors.take(done));
    assert(e.last() == errors[done]);
    law_deletions_are_accounted_for(p, e);
    law_deletions_are_accounted_for(planned.take(done), errors.take(done));
    if done == 0 {
        assert(planned.take(0) =~= Seq::empty());
    }
}

/// The summary of a run says what the run was set up for, and counts what the result holds:
/// as many files as were scanned, kept, planned for deletion, deleted and not deleted.
pub proof fn law_summary_counts_the_result(
    a: RunArtifacts,
    config: RunConfig,
    files: Seq<FileInfo>,
    plan: DedupPlan,
    deleted: Seq<FileInfo>,
    failed: Seq<FailedDeletionRecord>,
)
    requires
        is_result(a, config, files, plan, deleted, failed),
    ensures
        a.summary.mode == config.mode,
        a.summary.root_dir@ == config.root_dir@,
        a.summary.output_dir@ == config.output_dir@,
        a.summary.keep_rule@ == match config.keep_rule {
            KeepRule::OldestCreated => "Oldest created"@,
            KeepRule::NewestModified => "Newest modified"@,
            KeepRule::PreferPath(folder) => "Prefer path ("@ + folder@ + ")"@,
        },
        a.summary.discovered_files == a.all_files@.len(),
        a.summary.scanned_files == a.all_files@.len(),
        a.summary.kept_files == a.kept_files@.len(),
        a.summary.planned_deletions == a.planned_deletions@.len(),
        a.summary.deleted_files == a.deleted_files@.len(),
        a.summary.failed_deletions == a.failed_deletions@.len(),
        a.all_files@ == files,
        a.deleted_files@ == deleted,
        a.failed_deletions@ == failed,
        forall|k: int|
            0 <= k < plan.kept@.len() ==> #[trigger] a.kept_files@[k]
                == files[plan.kept@[k] as int],
        forall|k: int|
            0 <= k < plan.planned_deletions@.len() ==> #[trigger] a.planned_deletions@[k]
                == files[plan.planned_deletions@[k] as int],
{
}

/// Of every planned deletion it is told what came of it: a file whose deletion gave no error
/// is among the deleted, and of any other its path and its error are among the failures.
pub proof fn law_each_deletion_is_told(
    planned: Seq<FileInfo>,
    errors: Seq<Option<String>>,
    k: int,
)
    requires
        errors.len() == planned.len(),
        0 <= k < planned.len(),
    ensures
        errors[k] is None ==> deleted_of(planned, errors).contains(planned[k]),
        errors[k] matches Some(error) ==> failed_of(planned, errors).contains(
            (FailedDeletionRecord { file_path: planned[k].file_path, error }),
        ),
    decreases planned.len(),
{
    let p = planned.drop_last();
    let e = errors.drop_last();
    let deleted = deleted_of(planned, errors);
    let failed = failed_of(planned, errors);
    if k < p.len() {
        law_each_deletion_is_told(p, e, k);
        assert(p[k] == planned[k] && e[k] == errors[k]);
        match errors[k] {
            None => {
                let before = deleted_of(p, e);
                let j = choose|j: int| 0 <= j < before.len() && before[j] == planned[k];
                assert(deleted[j] == planned[k]);
            },
            Some(error) => {
                let before = failed_of(p, e);
                let record = FailedDeletionRecord { file_path: planned[k].file_path, error };
                let j = choose|j: int| 0 <= j < before.len() && before[j] == record;
                assert(failed[j] == record);
            },
        }
    } else {
        match errors[k] {
            None => {
                assert(deleted[deleted.len() - 1] == planned[k]);
            },
            Some(error) => {
                assert(failed[failed.len() - 1] == (FailedDeletionRecord {
                    file_path: planned[k].file_path,
                    error,
                }));
            },
        }
    }
}

} // verus!
