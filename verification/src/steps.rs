//! What a run does at each of its steps: what it asks for next, given what it was told.
use vstd::prelude::*;
use vstd::string::*;

use crate::exchange::{
    law_samples_name_their_files, sample_views, Action, Event, Failure, Folder, Step,
};
use crate::model::{
    records, reported, FailedDeletionRecord, FileInfo, FileRecord, FineTimes, KeepRuleRecord,
    OperationMode, Platform, ProgressRecord, RunArtifacts, RunConfig, RunStage,
};
use crate::number::decimal;
use crate::outcome::{law_deletions_are_accounted_for, law_each_deletion_is_told};
use crate::paths::checkpoint_number;
use crate::plan::{is_hashed, leads, lemma_plan_order_holds, DedupPlan, Planner};
use crate::prefilter::{
    contested_indices, is_contested, law_same_sizes_are_fingerprinted,
    law_shared_fingerprints_are_hashed, law_times_of_duplicates_are_asked_for, shares_size,
};
use crate::promises::law_known_files_are_not_read_again;
use crate::rank::{
    is_by_path, is_path_sorted, keep_leq, lemma_content_key_order, lemma_path_sorted, plan_order,
};
use crate::resume::{
    all_saved, contents_of, first_of_each, has_path, law_checkpoints_are_read_by_number,
    law_each_path_is_loaded_once, law_next_number_follows_the_last, number_after,
};
use crate::run::follows;
use crate::scan::{
    found, law_each_file_gets_its_own_hash, law_each_file_gets_its_own_times,
    law_fresh_scan_leaves_no_candidate_out, law_hashing_changes_only_hashes, path_list, paths_at,
    portion, with_hashes,
};
use crate::select::{ascending, lemma_ascending, picked};
use crate::stages::planning::{begins_planning, planning_note, times_files};
use crate::stages::resuming::resumes_scan;
use crate::stages::scanning::begins_scan;
use crate::state::{no_reports, Phase, Run, Scan};
use crate::table::{csv_bytes, failure_table, saved_files, summary_lines};
use crate::text::{text_option, text_options, texts};

verus! {

// ---------------------------------------------------------------------------
// The beginning
// ---------------------------------------------------------------------------

/// An output folder that has something in it is refused, with a message that names it,
/// unless the run resumes. Any other is used, and created where it is missing.
pub proof fn law_occupied_output_folder_is_refused(
    before: Run,
    present: bool,
    occupied: bool,
    after: Run,
    step: Step,
)
    requires
        before.phase is Inspecting,
        follows(before, Event::OutputDir { present, occupied }, after, step),
    ensures
        present && occupied && !before.config.resume ==> {
            &&& after.phase is Ended
            &&& step.action matches Action::Fail(Failure::Refused(text)) && text@
                == "Output directory already exists and is not empty: "@
                + before.config.output_dir@ + ". Choose a new folder or enable resume."@
        },
        !present || !occupied || before.config.resume ==> {
            &&& after.phase is Creating
            &&& step.action == (Action::CreateDirs { output_missing: !present })
        },
{
    reveal(follows);
}

/// Once the folders are there, the candidates are asked for.
pub proof fn law_folders_come_before_candidates(before: Run, after: Run, step: Step)
    requires
        before.phase is Creating,
        follows(before, Event::Done, after, step),
    ensures
        after.phase is Discovering,
        step.action == Action::Discover,
        reported(step.reports@) == seq![
            ProgressRecord {
                stage: RunStage::Discovering,
                message: "Discovering files"@,
                discovered_files: None,
                processed_files: 0,
                planned_deletions: 0,
                deleted_files: 0,
            },
        ],
{
    reveal(follows);
}

/// A run that resumes asks for what was saved; any other begins with the first candidates,
/// as many as a portion has, and leaves none out.
pub proof fn law_candidates_are_scanned(
    before: Run,
    candidates: Vec<String>,
    after: Run,
    step: Step,
)
    requires
        before.wf(),
        before.phase is Discovering,
        follows(before, Event::Candidates(candidates), after, step),
    ensures
        before.config.resume ==> {
            &&& after.phase == (Phase::Listing { candidates })
            &&& step.action == Action::ListSaved
        },
        !before.config.resume && candidates@.len() > 0 ==> {
            &&& step.action matches Action::ReadMetadata(next) && {
                &&& next@.len() == if before.config.checkpoint_interval < candidates@.len() {
                    before.config.checkpoint_interval as int
                } else {
                    candidates@.len() as int
                }
                &&& forall|k: int| 0 <= k < next@.len() ==> #[trigger] next@[k] == k
            }
            &&& after.phase matches Phase::Scanning { scan } && {
                &&& scan.done == 0
                &&& scan.next_index == 0
                &&& scan.files@.len() == 0
                &&& scan.remaining@.len() == candidates@.len()
                &&& forall|k: int|
                    0 <= k < candidates@.len() ==> #[trigger] scan.remaining@[k] == k
            }
        },
        before.config.resume || candidates@.len() > 0 ==> reported(step.reports@) == seq![
            ProgressRecord {
                stage: RunStage::Scanning,
                message: "Found "@ + decimal(candidates@.len() as int) + " candidate files"@,
                discovered_files: Some(candidates.len()),
                processed_files: 0,
                planned_deletions: 0,
                deleted_files: 0,
            },
        ],
{
    reveal(follows);
    let names = texts(candidates@);
    assert(candidates.len() == candidates@.len());
    law_fresh_scan_leaves_no_candidate_out(names);
    assert(path_list(Seq::<FileInfo>::empty()).to_set() =~= Set::<Seq<char>>::empty());
    if !before.config.resume && candidates@.len() > 0 {
        if let Action::ReadMetadata(next) = step.action {
            assert forall|k: int| 0 <= k < next@.len() implies #[trigger] next@[k] == k by {}
        }
    }
}

// ---------------------------------------------------------------------------
// The scan
// ---------------------------------------------------------------------------

/// What is found in a portion is saved at once: a checkpoint under the next number, with the
/// files that were found and no others, in the order of their paths.
pub proof fn law_found_files_are_saved(
    before: Run,
    scan: Scan,
    replies: Vec<Option<FileInfo>>,
    after: Run,
    step: Step,
)
    requires
        before.wf(),
        before.phase == (Phase::Scanning { scan }),
        follows(before, Event::Metadata(replies), after, step),
        replies@.len() == if before.config.checkpoint_interval < scan.remaining@.len() - scan.done {
            before.config.checkpoint_interval as int
        } else {
            scan.remaining@.len() - scan.done
        },
        found(replies@).len() > 0,
        found(replies@).len() <= usize::MAX,
        scan.next_index < usize::MAX,
    ensures
        after.phase matches Phase::Checkpointing { scan: s, batch } && {
            &&& s@ == scan@
            &&& batch@.len() == found(replies@).len()
            &&& is_by_path(batch@)
            &&& forall|file: FileInfo| #[trigger]
                batch@.contains(file) <==> found(replies@).contains(file)
            &&& step.action matches Action::Write(tables) && {
                &&& tables@.len() == 1
                &&& tables@[0].folder == Folder::Checkpoints
                &&& tables@[0].name@ == "checkpoint_"@ + decimal(scan.next_index as int) + ".csv"@
                &&& saved_files(tables@[0].data@) == Some(records(batch@))
            }
        },
{
    reveal(follows);
    let files = found(replies@);
    if let Phase::Checkpointing { scan: s, batch } = after.phase {
        let order = lemma_path_sorted(batch@, files);
        assert forall|file: FileInfo| #[trigger] batch@.contains(file) <==> files.contains(
            file,
        ) by {
            if batch@.contains(file) {
                let k = choose|k: int| 0 <= k < batch@.len() && batch@[k] == file;
                assert(files[order[k] as int] == file);
            }
            if files.contains(file) {
                let i = choose|i: int| 0 <= i < files.len() && files[i] == file;
                assert(order.contains(i as usize));
                let k = choose|k: int| 0 <= k < order.len() && order[k] == i as usize;
                assert(batch@[k] == file);
            }
        }
    }
}

/// Replies that do not fit what was asked for end the run.
pub proof fn law_unfit_replies_end_a_run(before: Run, event: Event, after: Run, step: Step)
    requires
        follows(before, event, after, step),
        match before.phase {
            Phase::Inspecting => !(event is OutputDir),
            Phase::Creating => !(event is Done),
            Phase::Discovering => !(event is Candidates),
            Phase::Listing { .. } => !(event is Saved),
            Phase::Loading { .. } => !(event is CheckpointData),
            Phase::Scanning { .. } => !(event is Metadata),
            Phase::Checkpointing { .. } => !(event is Done),
            Phase::Fingerprinting { .. } => !(event is Prints),
            Phase::Hashing { .. } => !(event is Hashes),
            Phase::Timing { .. } => !(event is Times),
            Phase::Comparing { .. } => !(event is Compared),
            Phase::Reporting { .. } => !(event is Done),
            Phase::Deleting { .. } => !(event is Deleted),
            Phase::Recording { .. } => !(event is Done),
            Phase::Summarizing { .. } => !(event is Done),
            Phase::Ended => true,
        },
    ensures
        after.phase is Ended,
        step.action == Action::Fail(Failure::UnexpectedReply),
        step.reports@.len() == 0,
{
    reveal(follows);
    assert(reported(step.reports@).len() == step.reports@.len());
}

/// Once a checkpoint is saved, the scan goes on behind the portion that it is of: nothing
/// that is known is forgotten, the next checkpoint gets the next number, and the next
/// candidates are read.
pub proof fn law_scan_goes_on(
    before: Run,
    scan: Scan,
    batch: Vec<FileInfo>,
    after: Run,
    step: Step,
)
    requires
        before.wf(),
        before.phase == (Phase::Checkpointing { scan, batch }),
        follows(before, Event::Done, after, step),
        scan.done + before.config.checkpoint_interval < scan.remaining@.len(),
    ensures
        ({
            let done = scan.done + before.config.checkpoint_interval;
            let left = scan.remaining@.len() - done;
            let indexed = scan.files@.len() + batch@.len();
            &&& after.phase matches Phase::Scanning { scan: s } && {
                &&& s.done == done
                &&& s.remaining@ == scan.remaining@
                &&& s.files@ == scan.files@ + batch@
                &&& s.already == scan.already
                &&& s.next_index == scan.next_index + 1
            }
            &&& step.action matches Action::ReadMetadata(next) && {
                &&& next@.len() == if before.config.checkpoint_interval < left {
                    before.config.checkpoint_interval as int
                } else {
                    left
                }
                &&& forall|k: int|
                    0 <= k < next@.len() ==> #[trigger] next@[k] == scan.remaining@[done + k]
            }
            &&& reported(step.reports@) == seq![
                ProgressRecord {
                    stage: RunStage::Scanning,
                    message: "Indexed "@ + decimal(indexed as int) + " of "@ + decimal(
                        if indexed < scan.remaining@.len() {
                            scan.remaining@.len() as int
                        } else {
                            indexed as int
                        },
                    ) + " files"@,
                    discovered_files: Some((scan.already + scan.remaining@.len()) as usize),
                    processed_files: indexed as usize,
                    planned_deletions: 0,
                    deleted_files: 0,
                },
            ]
        }),
{
    reveal(follows);
}

/// A portion in which nothing can be read is passed over: no checkpoint is written, and the
/// scan goes on behind it.
pub proof fn law_unreadable_portions_are_passed_over(
    before: Run,
    scan: Scan,
    replies: Vec<Option<FileInfo>>,
    after: Run,
    step: Step,
)
    requires
        before.wf(),
        before.phase == (Phase::Scanning { scan }),
        follows(before, Event::Metadata(replies), after, step),
        scan.done + before.config.checkpoint_interval < scan.remaining@.len(),
        replies@.len() == before.config.checkpoint_interval,
        found(replies@).len() == 0,
    ensures
        after.phase matches Phase::Scanning { scan: s } && {
            &&& s.done == scan.done + before.config.checkpoint_interval
            &&& s.remaining@ == scan.remaining@
            &&& s.files@ == scan.files@
            &&& s.next_index == scan.next_index
        },
        step.action is ReadMetadata,
{
    reveal(follows);
    assert(scan.files@ + Seq::<FileInfo>::empty() =~= scan.files@);
}

// ---------------------------------------------------------------------------
// The end
// ---------------------------------------------------------------------------

/// A finished plan is reported in three tables: all files, those that are kept, and those
/// that are planned for deletion.
pub proof fn law_plan_is_reported(before: Run, identical: bool, after: Run, step: Step)
    requires
        before.wf(),
        before.phase is Comparing,
        follows(before, Event::Compared(identical), after, step),
    ensures
        after.phase matches Phase::Reporting { planner, plan } ==> {
            &&& step.action matches Action::Write(tables) && {
                &&& tables@.len() == 3
                &&& tables@[0].folder == Folder::Output
                &&& tables@[1].folder == Folder::Output
                &&& tables@[2].folder == Folder::Output
                &&& tables@[0].name@ == "all_files.csv"@
                &&& tables@[1].name@ == "kept_files.csv"@
                &&& tables@[2].name@ == "planned_deletions.csv"@
                &&& saved_files(tables@[0].data@) == Some(records(planner.files@))
                &&& saved_files(tables@[1].data@) == Some(
                    records(picked(planner.files@, plan.kept@)),
                )
                &&& saved_files(tables@[2].data@) == Some(
                    records(picked(planner.files@, plan.planned_deletions@)),
                )
            }
            &&& reported(step.reports@) == seq![
                ProgressRecord {
                    stage: RunStage::Saving,
                    message: "Writing scan reports"@,
                    discovered_files: Some(planner.files.len()),
                    processed_files: planner.files.len(),
                    planned_deletions: plan.planned_deletions.len(),
                    deleted_files: 0,
                },
            ]
        },
{
    reveal(follows);
    if let Phase::Reporting { planner, plan } = after.phase {
        assert(planner.files.len() == planner.files@.len());
        assert(plan.planned_deletions.len() == plan.planned_deletions@.len());
    }
}

/// What came of the deletions is reported in two tables: the files that were deleted, which
/// are those whose deletion gave no error, and the others, with their errors.
pub proof fn law_deletions_are_recorded(
    before: Run,
    planner: Planner,
    plan: DedupPlan,
    errors: Vec<Option<String>>,
    after: Run,
    step: Step,
    k: int,
)
    requires
        before.wf(),
        before.phase == (Phase::Deleting { planner, plan }),
        follows(before, Event::Deleted(errors), after, step),
        errors@.len() == plan.planned_deletions@.len(),
        0 <= k < errors@.len(),
    ensures
        after.phase matches Phase::Recording { planner: p, plan: q, deleted, failed } && {
            let file = planner.files@[plan.planned_deletions@[k] as int];
            &&& p == planner
            &&& q == plan
            &&& deleted@.len() + failed@.len() == plan.planned_deletions@.len()
            &&& errors@[k] is None ==> deleted@.contains(file)
            &&& errors@[k] matches Some(error) ==> failed@.contains(
                (FailedDeletionRecord { file_path: file.file_path, error }),
            )
            &&& step.action matches Action::Write(tables) && {
                &&& tables@.len() == 2
                &&& tables@[0].folder == Folder::Output
                &&& tables@[1].folder == Folder::Output
                &&& tables@[0].name@ == "deleted_files.csv"@
                &&& tables@[1].name@ == "failed_deletions.csv"@
                &&& saved_files(tables@[0].data@) == Some(records(deleted@))
                &&& tables@[1].data@ == csv_bytes(failure_table(failed@))
            }
            &&& step.reports@.len() == errors@.len() + 1
            &&& step.reports@[k]@.message == "Applying deletion plan: "@ + decimal(k + 1) + " of "@
                + decimal(errors@.len() as int)
            &&& step.reports@.last()@ == (ProgressRecord {
                stage: RunStage::Saving,
                message: "Writing deletion results"@,
                discovered_files: Some(planner.files.len()),
                processed_files: planner.files.len(),
                planned_deletions: plan.planned_deletions.len(),
                deleted_files: deleted.len(),
            })
        },
{
    reveal(follows);
    let planned = picked(planner.files@, plan.planned_deletions@);
    law_deletions_are_accounted_for(planned, errors@);
    law_each_deletion_is_told(planned, errors@, k);
    assert(planner.files.len() == planner.files@.len());
    assert(plan.planned_deletions.len() == plan.planned_deletions@.len());
    if let Phase::Recording { planner: p, plan: q, deleted, failed } = after.phase {
        assert(deleted.len() == deleted@.len());
    }
    assert(reported(step.reports@).len() == step.reports@.len());
    assert(reported(step.reports@)[k] == step.reports@[k]@);
    assert(reported(step.reports@).last() == step.reports@.last()@);
    assert(planned[k] == planner.files@[plan.planned_deletions@[k] as int]);
}

/// A dry run ends with its plan: the summary is written next, and tells of no deletion.
pub proof fn law_dry_run_ends_with_its_plan(
    before: Run,
    planner: Planner,
    plan: DedupPlan,
    after: Run,
    step: Step,
)
    requires
        before.wf(),
        before.config.mode == OperationMode::DryRun,
        before.phase == (Phase::Reporting { planner, plan }),
        follows(before, Event::Done, after, step),
    ensures
        after.phase matches Phase::Summarizing { source, plan: q, artifacts } && {
            &&& artifacts.all_files@ == planner.files@
            &&& artifacts.kept_files@ == picked(planner.files@, plan.kept@)
            &&& artifacts.planned_deletions@ == picked(planner.files@, plan.planned_deletions@)
            &&& artifacts.deleted_files@.len() == 0
            &&& artifacts.failed_deletions@.len() == 0
            &&& artifacts.summary.mode == OperationMode::DryRun
            &&& artifacts.summary.deleted_files == 0
            &&& artifacts.summary.failed_deletions == 0
            &&& artifacts.summary.duplicate_sets == plan.duplicate_sets
            &&& step.action matches Action::WriteSummary(text) && text@ == summary_lines(
                artifacts.summary,
            )
        },
{
    reveal(follows);
}

/// Once the deletions are recorded, the summary is written, of exactly the deletions that
/// were recorded.
pub proof fn law_recorded_deletions_are_summed_up(
    before: Run,
    planner: Planner,
    plan: DedupPlan,
    deleted: Vec<FileInfo>,
    failed: Vec<FailedDeletionRecord>,
    after: Run,
    step: Step,
)
    requires
        before.wf(),
        before.phase == (Phase::Recording { planner, plan, deleted, failed }),
        follows(before, Event::Done, after, step),
    ensures
        after.phase matches Phase::Summarizing { source, plan: q, artifacts } && {
            &&& artifacts.all_files@ == planner.files@
            &&& artifacts.kept_files@ == picked(planner.files@, plan.kept@)
            &&& artifacts.planned_deletions@ == picked(planner.files@, plan.planned_deletions@)
            &&& artifacts.deleted_files@ == deleted@
            &&& artifacts.failed_deletions@ == failed@
            &&& artifacts.summary.mode == before.config.mode
            &&& artifacts.summary.root_dir@ == before.config.root_dir@
            &&& artifacts.summary.output_dir@ == before.config.output_dir@
            &&& artifacts.summary.scanned_files == planner.files@.len()
            &&& artifacts.summary.kept_files == plan.kept@.len()
            &&& artifacts.summary.planned_deletions == plan.planned_deletions@.len()
            &&& artifacts.summary.deleted_files == deleted@.len()
            &&& artifacts.summary.failed_deletions == failed@.len()
            &&& artifacts.summary.duplicate_sets == plan.duplicate_sets
            &&& step.action matches Action::WriteSummary(text) && text@ == summary_lines(
                artifacts.summary,
            )
        },
{
    reveal(follows);
}

/// Once the summary is written, the run is over, with the result that was summed up.
pub proof fn law_run_ends_with_what_was_summed_up(
    before: Run,
    source: Ghost<Planner>,
    plan: DedupPlan,
    artifacts: RunArtifacts,
    after: Run,
    step: Step,
)
    requires
        before.wf(),
        before.phase == (Phase::Summarizing { source, plan, artifacts }),
        follows(before, Event::Done, after, step),
    ensures
        after.phase is Ended,
        step.action == Action::Finish(artifacts),
        reported(step.reports@) == seq![
            ProgressRecord {
                stage: RunStage::Complete,
                message: "Run complete"@,
                discovered_files: Some(artifacts.summary.discovered_files),
                processed_files: artifacts.summary.scanned_files,
                planned_deletions: artifacts.summary.planned_deletions,
                deleted_files: artifacts.summary.deleted_files,
            },
        ],
{
    reveal(follows);
}

// ---------------------------------------------------------------------------
// Saved data
// ---------------------------------------------------------------------------

/// Where a run resumes and there is no table of all files, the checkpoints are read, all of
/// them, in the order of their numbers, and new ones get the numbers behind them.
pub proof fn law_checkpoints_are_read_in_order(
    before: Run,
    candidates: Vec<String>,
    stems: Vec<Option<String>>,
    after: Run,
    step: Step,
)
    requires
        before.phase == (Phase::Listing { candidates }),
        follows(before, Event::Saved { all_files: None, stems }, after, step),
        number_after(text_options(stems@)) <= usize::MAX,
    ensures
        step.action matches Action::ReadCheckpoints(entries) && {
            &&& entries@.no_duplicates()
            &&& forall|i: usize| #[trigger]
                entries@.contains(i) <==> i < stems@.len() && stems@[i as int] is Some
                    && checkpoint_number(stems@[i as int]->0@) is Some
            &&& forall|j: int, k: int|
                #![trigger entries@[j], entries@[k]]
                0 <= j < k < entries@.len() ==> checkpoint_number(stems@[entries@[j] as int]->0@)->0
                    <= checkpoint_number(stems@[entries@[k] as int]->0@)->0
            &&& after.phase matches Phase::Loading { candidates: c, wanted, next_index } && {
                &&& c == candidates
                &&& wanted == entries@.len()
                &&& forall|i: int|
                    #![trigger stems@[i]]
                    0 <= i < stems@.len() && stems@[i] is Some ==> (checkpoint_number(
                        stems@[i]->0@,
                    ) matches Some(n) ==> n < next_index)
            }
        },
{
    reveal(follows);
    assert(stems.len() == stems@.len());
    let names = text_options(stems@);
    if let Action::ReadCheckpoints(entries) = step.action {
        law_checkpoints_are_read_by_number(names, entries@);
        law_next_number_follows_the_last(names);
        assert forall|i: usize| #[trigger] entries@.contains(i) <==> i < stems@.len()
            && stems@[i as int] is Some && checkpoint_number(stems@[i as int]->0@) is Some by {
            if i < stems@.len() {
                assert(names[i as int] == text_option(stems@[i as int]));
            }
        }
        assert forall|j: int, k: int|
            #![trigger entries@[j], entries@[k]]
            0 <= j < k < entries@.len() implies checkpoint_number(
            stems@[entries@[j] as int]->0@,
        )->0 <= checkpoint_number(stems@[entries@[k] as int]->0@)->0 by {
            assert(entries@.contains(entries@[j]) && entries@.contains(entries@[k]));
            assert(names[entries@[j] as int] == text_option(stems@[entries@[j] as int]));
            assert(names[entries@[k] as int] == text_option(stems@[entries@[k] as int]));
        }
        assert forall|i: int|
            #![trigger stems@[i]]
            0 <= i < stems@.len() && stems@[i] is Some implies (checkpoint_number(
            stems@[i]->0@,
        ) matches Some(n) ==> n < number_after(names)) by {
            assert(names[i] == text_option(stems@[i]));
        }
    }
}

/// Whether a step looks at a candidate that none of the saved files is.
spec fn reads_only_unknown(
    candidates: Seq<String>,
    saved: Seq<FileRecord>,
    next: Seq<usize>,
) -> bool {
    forall|k: int|
        0 <= k < next.len() ==> #[trigger] next[k] < candidates.len() && !has_path(
            saved,
            candidates[next[k] as int]@,
        )
}

proof fn lemma_reads_only_unknown(
    before: Run,
    candidates: Vec<String>,
    saved: Seq<FileRecord>,
    next_index: int,
    after: Run,
    step: Step,
)
    requires
        before.config.checkpoint_interval > 0,
        resumes_scan(
            before.config,
            before.platform,
            texts(candidates@),
            saved,
            next_index,
            after,
            step,
        ),
    ensures
        step.action matches Action::ReadMetadata(next) ==> reads_only_unknown(
            candidates@,
            saved,
            next@,
        ) && after.phase is Scanning && records(after.phase->Scanning_scan.files@) == saved
            && after.phase->Scanning_scan.next_index == next_index,
{
    let names = texts(candidates@);
    assert(candidates.len() == candidates@.len());
    let files = choose|files: Seq<FileInfo>|
        records(files) == saved && #[trigger] begins_scan(
            before.config,
            before.platform,
            names,
            files,
            next_index,
            no_reports(),
            after,
            step,
        );
    if let Action::ReadMetadata(next) = step.action {
        assert forall|k: int| 0 <= k < next@.len() implies #[trigger] next@[k] < candidates@.len()
            && !has_path(saved, candidates@[next@[k] as int]@) by {
            law_known_files_are_not_read_again(
                before.config,
                before.platform,
                names,
                files,
                next_index,
                no_reports(),
                after,
                step,
                k,
            );
            let path = names[next@[k] as int];
            assert(path == candidates@[next@[k] as int]@);
            if has_path(saved, path) {
                let i = choose|i: int|
                    0 <= i < saved.len() && (#[trigger] saved[i]).file_path == path;
                assert(files[i].file_path@ == path);
                assert(path_list(files)[i] == path);
                assert(path_list(files).contains(path));
            }
        }
    }
}

/// A table of all files spares the run what it holds: its files are taken as they are, hashes
/// included, and no candidate is read that is one of them.
pub proof fn law_saved_table_is_taken_up(
    before: Run,
    candidates: Vec<String>,
    data: Vec<u8>,
    stems: Vec<Option<String>>,
    saved: Seq<FileRecord>,
    after: Run,
    step: Step,
)
    requires
        before.wf(),
        before.phase == (Phase::Listing { candidates }),
        follows(before, Event::Saved { all_files: Some(data), stems }, after, step),
        saved_files(data@) == Some(saved),
        number_after(text_options(stems@)) <= usize::MAX,
    ensures
        step.action matches Action::ReadMetadata(next) ==> {
            &&& after.phase matches Phase::Scanning { scan } && records(scan.files@) == saved && (
            forall|i: int|
                #![trigger stems@[i]]
                0 <= i < stems@.len() && stems@[i] is Some ==> (checkpoint_number(
                    stems@[i]->0@,
                ) matches Some(n) ==> n < scan.next_index))
            &&& forall|k: int|
                0 <= k < next@.len() ==> #[trigger] next@[k] < candidates@.len() && forall|i: int|
                    0 <= i < saved.len() ==> (#[trigger] saved[i]).file_path
                        != candidates@[next@[k] as int]@
        },
{
    reveal(follows);
    let names = text_options(stems@);
    law_next_number_follows_the_last(names);
    assert forall|i: int|
        #![trigger stems@[i]]
        0 <= i < stems@.len() && stems@[i] is Some implies (checkpoint_number(
        stems@[i]->0@,
    ) matches Some(n) ==> n < number_after(names)) by {
        assert(names[i] == text_option(stems@[i]));
    }
    lemma_reads_only_unknown(
        before,
        candidates,
        saved,
        number_after(text_options(stems@)),
        after,
        step,
    );
}

/// So do checkpoints: their files are taken, each path once, and no candidate is read that is
/// one of them.
pub proof fn law_saved_checkpoints_are_taken_up(
    before: Run,
    candidates: Vec<String>,
    wanted: usize,
    next_index: usize,
    data: Vec<Vec<u8>>,
    saved: Seq<FileRecord>,
    after: Run,
    step: Step,
)
    requires
        before.wf(),
        before.phase == (Phase::Loading { candidates, wanted, next_index }),
        follows(before, Event::CheckpointData(data), after, step),
        data@.len() == wanted,
        all_saved(contents_of(data@)) == Some(saved),
    ensures
        step.action matches Action::ReadMetadata(next) ==> {
            &&& after.phase matches Phase::Scanning { scan } && records(scan.files@)
                == first_of_each(saved) && scan.next_index == next_index
            &&& forall|k: int|
                0 <= k < next@.len() ==> #[trigger] next@[k] < candidates@.len() && forall|i: int|
                    0 <= i < saved.len() ==> (#[trigger] saved[i]).file_path
                        != candidates@[next@[k] as int]@
        },
{
    reveal(follows);
    law_each_path_is_loaded_once(saved);
    lemma_reads_only_unknown(
        before,
        candidates,
        first_of_each(saved),
        next_index as int,
        after,
        step,
    );
    if let Action::ReadMetadata(next) = step.action {
        assert forall|k: int| 0 <= k < next@.len() implies #[trigger] next@[k] < candidates@.len()
            && forall|i: int|
            0 <= i < saved.len() ==> (#[trigger] saved[i]).file_path
                != candidates@[next@[k] as int]@ by {
            let path = candidates@[next@[k] as int]@;
            assert(!has_path(first_of_each(saved), path));
            assert(!has_path(saved, path));
        }
    }
}

/// The files that checkpoints hold are counted, each path once, and reported as loaded.
pub proof fn law_loaded_files_are_reported(
    before: Run,
    candidates: Vec<String>,
    wanted: usize,
    next_index: usize,
    data: Vec<Vec<u8>>,
    saved: Seq<FileRecord>,
    after: Run,
    step: Step,
)
    requires
        before.wf(),
        before.phase == (Phase::Loading { candidates, wanted, next_index }),
        follows(before, Event::CheckpointData(data), after, step),
        data@.len() == wanted,
        all_saved(contents_of(data@)) == Some(saved),
        step.action is ReadMetadata,
    ensures
        after.phase matches Phase::Scanning { scan } && {
            let n = first_of_each(saved).len();
            &&& scan.already == n
            &&& n > 0 ==> reported(step.reports@) == seq![
                ProgressRecord {
                    stage: RunStage::Scanning,
                    message: "Loaded "@ + decimal(n as int) + " files from saved scan data"@,
                    discovered_files: Some((n + scan.remaining@.len()) as usize),
                    processed_files: n as usize,
                    planned_deletions: 0,
                    deleted_files: 0,
                },
            ]
            &&& n == 0 ==> step.reports@.len() == 0
        },
{
    reveal(follows);
    let records_loaded = first_of_each(saved);
    law_each_path_is_loaded_once(saved);
    let files = choose|files: Seq<FileInfo>|
        records(files) == records_loaded && #[trigger] begins_scan(
            before.config,
            before.platform,
            texts(candidates@),
            files,
            next_index as int,
            no_reports(),
            after,
            step,
        );
    let paths = path_list(files);
    assert(paths.no_duplicates()) by {
        assert forall|i: int, j: int|
            0 <= i < paths.len() && 0 <= j < paths.len() && i != j implies paths[i] != paths[j] by {
            assert(paths[i] == records_loaded[i].file_path);
            assert(paths[j] == records_loaded[j].file_path);
            if i < j {
                assert(records_loaded[i].file_path != records_loaded[j].file_path);
            } else {
                assert(records_loaded[j].file_path != records_loaded[i].file_path);
            }
        }
    }
    paths.unique_seq_to_set();
    assert(reported(step.reports@).len() == step.reports@.len());
}

/// Saved data that cannot be read ends the run.
pub proof fn law_spoiled_data_ends_a_run(
    before: Run,
    candidates: Vec<String>,
    data: Vec<u8>,
    stems: Vec<Option<String>>,
    after: Run,
    step: Step,
)
    requires
        before.phase == (Phase::Listing { candidates }),
        follows(before, Event::Saved { all_files: Some(data), stems }, after, step),
        saved_files(data@) is None,
    ensures
        after.phase is Ended,
        step.action matches Action::Fail(Failure::SavedData(_)),
{
    reveal(follows);
}

// ---------------------------------------------------------------------------
// Hashing
// ---------------------------------------------------------------------------

/// Without the prefilter, every file without a hash is to be hashed once the scan is over,
/// in their order and in portions.
pub proof fn law_all_unhashed_files_are_hashed(
    before: Run,
    scan: Scan,
    batch: Vec<FileInfo>,
    after: Run,
    step: Step,
    i: usize,
)
    requires
        before.wf(),
        before.phase == (Phase::Checkpointing { scan, batch }),
        follows(before, Event::Done, after, step),
        scan.done + before.config.checkpoint_interval >= scan.remaining@.len(),
        !before.config.fast_prefilter,
        scan.files@.len() + batch@.len() <= usize::MAX,
        i < scan.files@.len() + batch@.len(),
        (scan.files@ + batch@)[i as int].xxhash@.len() == 0,
    ensures
        after.phase matches Phase::Hashing { files, targets, done } && {
            &&& files@ == scan.files@ + batch@
            &&& done == 0
            &&& targets@.contains(i)
            &&& forall|k: int|
                0 <= k < targets@.len() ==> files@[#[trigger] targets@[k] as int].xxhash@.len() == 0
            &&& reported(step.reports@).last() == (ProgressRecord {
                stage: RunStage::Hashing,
                message: "Hashing all indexed files"@,
                discovered_files: Some(targets.len()),
                processed_files: 0,
                planned_deletions: 0,
                deleted_files: 0,
            })
            &&& step.action matches Action::Hash(paths) && {
                &&& paths@.len() == if before.config.checkpoint_interval < targets@.len() {
                    before.config.checkpoint_interval as int
                } else {
                    targets@.len() as int
                }
                &&& forall|k: int|
                    0 <= k < paths@.len() ==> (#[trigger] paths@[k])@
                        == files@[targets@[k] as int].file_path@
            }
        },
{
    reveal(follows);
    let files = scan.files@ + batch@;
    let unhashed = |k: int| !is_hashed(files[k]);
    lemma_ascending(files.len(), unhashed);
    let targets = ascending(files.len(), unhashed);
    assert(unhashed(i as int));
    assert(targets.contains(i));
    if let Action::Hash(paths) = step.action {
        assert(texts(paths@).len() == paths@.len());
        assert forall|k: int| 0 <= k < paths@.len() implies (#[trigger] paths@[k])@
            == files[targets[k] as int].file_path@ by {
            assert(texts(paths@)[k] == paths@[k]@);
        }
    }
}

/// Once hashes have come, each goes to the file that it was asked of, and the next files are
/// hashed: none twice, and none left out.
pub proof fn law_hashing_goes_on(
    before: Run,
    files: Vec<FileInfo>,
    targets: Vec<usize>,
    done: usize,
    replies: Vec<Option<String>>,
    after: Run,
    step: Step,
    k: int,
)
    requires
        before.wf(),
        before.phase == (Phase::Hashing { files, targets, done }),
        follows(before, Event::Hashes(replies), after, step),
        replies@.len() == before.config.checkpoint_interval,
        done + before.config.checkpoint_interval < targets@.len(),
        targets@.no_duplicates(),
        0 <= k < replies@.len(),
    ensures
        after.phase matches Phase::Hashing { files: f, targets: t, done: d } && {
            let i = targets@[done + k] as int;
            &&& t@ == targets@
            &&& d == done + before.config.checkpoint_interval
            &&& f@.len() == files@.len()
            &&& replies@[k] matches Some(hash) ==> f@[i].xxhash == hash
            &&& replies@[k] is None ==> f@[i] == files@[i]
            &&& f@[i].file_path == files@[i].file_path
            &&& f@[i].file_size == files@[i].file_size
            &&& reported(step.reports@) == seq![
                ProgressRecord {
                    stage: RunStage::Hashing,
                    message: "Hashed "@ + decimal(d as int) + " of "@ + decimal(
                        targets@.len() as int,
                    ) + " candidate files"@,
                    discovered_files: Some(targets.len()),
                    processed_files: d,
                    planned_deletions: 0,
                    deleted_files: 0,
                },
            ]
            &&& step.action matches Action::Hash(paths) && forall|j: int|
                0 <= j < paths@.len() ==> (#[trigger] paths@[j])@ == f@[targets@[d
                    + j] as int].file_path@
        },
{
    reveal(follows);
    let interval = before.config.checkpoint_interval as int;
    let asked = portion(targets@, done as int, interval);
    let next = with_hashes(files@, asked, replies@);
    assert(targets.len() == targets@.len());
    assert forall|j: int| 0 <= j < asked.len() implies #[trigger] asked[j] < files@.len() by {
        assert(asked[j] == targets@[done + j]);
    }
    assert(asked.no_duplicates()) by {
        assert forall|a: int, b: int| 0 <= a < asked.len() && 0 <= b < asked.len() && a
            != b implies asked[a] != asked[b] by {
            assert(asked[a] == targets@[done + a]);
            assert(asked[b] == targets@[done + b]);
        }
    }
    assert(asked[k] == targets@[done + k]);
    law_each_file_gets_its_own_hash(files@, asked, replies@, k);
    law_hashing_changes_only_hashes(files@, asked, replies@, asked[k] as int);
    if let Action::Hash(paths) = step.action {
        let later = portion(targets@, done + interval, interval);
        assert(texts(paths@).len() == paths@.len());
        assert forall|j: int| 0 <= j < paths@.len() implies (#[trigger] paths@[j])@
            == next[targets@[done + interval + j] as int].file_path@ by {
            assert(texts(paths@)[j] == paths@[j]@);
            assert(later[j] == targets@[done + interval + j]);
        }
    }
}

/// With the prefilter, once the scan is over, fingerprints are taken of exactly those files
/// without a hash whose size another such file has; where there are none, planning begins at
/// once.
pub proof fn law_prefilter_begins_with_same_sizes(
    before: Run,
    scan: Scan,
    batch: Vec<FileInfo>,
    after: Run,
    step: Step,
    i: usize,
)
    requires
        before.wf(),
        before.phase == (Phase::Checkpointing { scan, batch }),
        follows(before, Event::Done, after, step),
        scan.done + before.config.checkpoint_interval >= scan.remaining@.len(),
        before.config.fast_prefilter,
        scan.files@.len() + batch@.len() <= usize::MAX,
        i < scan.files@.len() + batch@.len(),
    ensures
        ({
            let known = scan.files@ + batch@;
            let wanted = known[i as int].xxhash@.len() == 0 && exists|j: int|
                0 <= j < known.len() && j != i && (#[trigger] known[j]).xxhash@.len() == 0
                    && known[j].file_size == known[i as int].file_size;
            &&& wanted ==> after.phase is Fingerprinting
            &&& !(step.action is Hash)
            &&& after.phase matches Phase::Fingerprinting { files, targets, prints } ==> {
                &&& files@ == known
                &&& prints@.len() == 0
                &&& targets@.contains(i) <==> wanted
                &&& reported(step.reports@).last() == (ProgressRecord {
                    stage: RunStage::Hashing,
                    message: "Fingerprinting same-size candidates"@,
                    discovered_files: Some(targets.len()),
                    processed_files: 0,
                    planned_deletions: 0,
                    deleted_files: 0,
                })
                &&& step.action matches Action::Fingerprint(samples) && {
                    &&& samples@.len() == if before.config.checkpoint_interval < targets@.len() {
                        before.config.checkpoint_interval as int
                    } else {
                        targets@.len() as int
                    }
                    &&& forall|k: int|
                        0 <= k < samples@.len() ==> (#[trigger] samples@[k]).path@
                            == files@[targets@[k] as int].file_path@ && samples@[k].size
                            == files@[targets@[k] as int].file_size
                }
            }
        }),
{
    reveal(follows);
    let known = scan.files@ + batch@;
    law_same_sizes_are_fingerprinted(known, i);
    let targets = ascending(known.len(), |k: int| shares_size(known, k));
    if let Action::Fingerprint(samples) = step.action {
        let first = portion(targets, 0, before.config.checkpoint_interval as int);
        assert(sample_views(samples@).len() == samples@.len());
        assert forall|k: int| 0 <= k < samples@.len() implies (#[trigger] samples@[k]).path@
            == known[targets[k] as int].file_path@ && samples@[k].size
            == known[targets[k] as int].file_size by {
            law_samples_name_their_files(known, first, samples@, k);
            assert(first[k] == targets[k]);
        }
    }
}

/// Fingerprints are kept as they come, and taken of the next files until all are there; then
/// files are hashed whose size and fingerprint another one has, and no others.
pub proof fn law_fingerprinting_goes_on(
    before: Run,
    files: Vec<FileInfo>,
    targets: Vec<usize>,
    prints: Vec<Option<String>>,
    replies: Vec<Option<String>>,
    after: Run,
    step: Step,
    k: int,
)
    requires
        before.wf(),
        before.phase == (Phase::Fingerprinting { files, targets, prints }),
        follows(before, Event::Prints(replies), after, step),
        replies@.len() == if before.config.checkpoint_interval < targets@.len() - prints@.len() {
            before.config.checkpoint_interval as int
        } else {
            targets@.len() - prints@.len()
        },
        0 <= k < targets@.len(),
    ensures
        ({
            let all = prints@ + replies@;
            let wanted = all[k] is Some && exists|m: int|
                0 <= m < targets@.len() && m != k && (#[trigger] all[m]) is Some && all[m]->0@
                    == all[k]->0@ && files@[targets@[m] as int].file_size
                    == files@[targets@[k] as int].file_size;
            &&& all.len() < targets@.len() ==> {
                &&& after.phase matches Phase::Fingerprinting { files: f, targets: t, prints: p }
                    && f@ == files@ && t@ == targets@ && p@ == all
                &&& reported(step.reports@) == seq![
                    ProgressRecord {
                        stage: RunStage::Hashing,
                        message: "Fingerprinted "@ + decimal(all.len() as int) + " of "@ + decimal(
                                targets@.len() as int,
                            ) + " same-size candidates"@,
                        discovered_files: Some(targets.len()),
                        processed_files: all.len() as usize,
                        planned_deletions: 0,
                        deleted_files: 0,
                    },
                ]
                &&& step.action matches Action::Fingerprint(samples) && forall|j: int|
                    0 <= j < samples@.len() ==> (#[trigger] samples@[j]).path@
                        == files@[targets@[all.len() + j] as int].file_path@
            }
            &&& all.len() == targets@.len() ==> {
                &&& wanted ==> after.phase is Hashing
                &&& after.phase matches Phase::Hashing { files: f, targets: t, done } ==> {
                    &&& f@ == files@
                    &&& done == 0
                    &&& t@.contains(targets@[k]) <==> wanted
                    &&& reported(step.reports@).last() == (ProgressRecord {
                        stage: RunStage::Hashing,
                        message: "Hashing fingerprint matches"@,
                        discovered_files: Some(t.len()),
                        processed_files: 0,
                        planned_deletions: 0,
                        deleted_files: 0,
                    })
                }
            }
        }),
{
    reveal(follows);
    let interval = before.config.checkpoint_interval as int;
    let all = prints@ + replies@;
    assert(targets.len() == targets@.len());
    let shares = |i: int| shares_size(files@, i);
    lemma_ascending(files@.len(), shares);
    if all.len() < targets@.len() {
        if let Action::Fingerprint(samples) = step.action {
            let next = portion(targets@, all.len() as int, interval);
            assert(sample_views(samples@).len() == samples@.len());
            assert forall|j: int| 0 <= j < samples@.len() implies (#[trigger] samples@[j]).path@
                == files@[targets@[all.len() + j] as int].file_path@ by {
                law_samples_name_their_files(files@, next, samples@, j);
                assert(next[j] == targets@[all.len() + j]);
            }
        }
    } else {
        law_shared_fingerprints_are_hashed(files@, targets@, all, k);
    }
}

// ---------------------------------------------------------------------------
// Planning
// ---------------------------------------------------------------------------

/// Only files that share size and hash are compared: a file that has not been settled, and
/// one that is kept so far and that the keep rule would rather keep.
pub proof fn law_only_likely_duplicates_are_compared(
    planner: Planner,
    rule: KeepRuleRecord,
    platform: Platform,
)
    requires
        planner.wf(rule, platform),
        planner.files@.len() <= usize::MAX,
    ensures
        planner.question() matches Some((a, b)) ==> {
            &&& a != b
            &&& a < planner.files@.len()
            &&& b < planner.files@.len()
            &&& planner.files@[a as int].xxhash@.len() > 0
            &&& planner.files@[a as int].file_size == planner.files@[b as int].file_size
            &&& planner.files@[a as int].xxhash@ == planner.files@[b as int].xxhash@
            &&& planner.home@[b as int] == b
            &&& keep_leq(planner.files@, planner.fine@, rule, platform, b, a)
        },
{
    if let Some((a, b)) = planner.question() {
        let files = planner.files@;
        let order = planner.order@;
        let q = planner.position as int;
        let r = planner.leaders@[planner.cursor as int] as int;
        lemma_plan_order_holds(order, files, planner.fine@, rule, platform);
        assert(leads(files, order, planner.home@, r, q));
        assert(order[q] < files.len() && order[r] < files.len());
        let leq = plan_order(files, planner.fine@, rule, platform);
        assert(leq(order[r], order[q]));
        lemma_content_key_order(files[order[r] as int], files[order[q] as int]);
    }
}

/// An answer settles what it was asked of: found equal, the file gets the kept one as its
/// home; found different, no home changes. Nothing else that the planner knows changes.
pub proof fn law_answers_are_taken_as_given(
    before: Run,
    planner: Planner,
    identical: bool,
    after: Run,
    step: Step,
)
    requires
        before.wf(),
        before.phase == (Phase::Comparing { planner }),
        follows(before, Event::Compared(identical), after, step),
    ensures
        ({
            let (a, b) = planner.question()->0;
            let next = match after.phase {
                Phase::Comparing { planner } => planner,
                Phase::Reporting { planner, plan } => planner,
                _ => planner,
            };
            &&& after.phase is Comparing || after.phase is Reporting
            &&& next.files == planner.files
            &&& next.fine == planner.fine
            &&& identical ==> next.home@ == planner.home@.update(a as int, b)
            &&& !identical ==> next.home@ == planner.home@
        }),
{
    reveal(follows);
}

/// Before files compete to be kept, their times are read, of all of them.
pub proof fn law_times_reach_the_planner(
    before: Run,
    files: Vec<FileInfo>,
    targets: Vec<usize>,
    replies: Vec<Option<FineTimes>>,
    after: Run,
    step: Step,
    k: int,
)
    requires
        before.wf(),
        before.phase == (Phase::Timing { files, targets }),
        follows(before, Event::Times(replies), after, step),
        replies@.len() == targets@.len(),
        0 <= k < targets@.len(),
    ensures
        ({
            let planner = match after.phase {
                Phase::Comparing { planner } => Some(planner),
                Phase::Reporting { planner, plan } => Some(planner),
                _ => None,
            };
            &&& planner matches Some(p) && {
                &&& p.files@ == files@
                &&& p.fine@.len() == files@.len()
                &&& replies@[k] matches Some(times) ==> p.fine@[targets@[k] as int] == times
                &&& replies@[k] is None ==> p.fine@[targets@[k] as int].created == 0
                    && p.fine@[targets@[k] as int].modified == 0
            }
        }),
{
    reveal(follows);
    let contested = |i: int| is_contested(files@, i);
    lemma_ascending(files@.len(), contested);
    assert(targets@[k] < files@.len());
    law_each_file_gets_its_own_times(files@.len(), targets@, replies@, targets@[k] as int);
}

// ---------------------------------------------------------------------------
// Between the stages
// ---------------------------------------------------------------------------

/// A reply with another number of items than was asked for ends the run.
pub proof fn law_wrong_number_of_replies_ends_a_run(
    before: Run,
    event: Event,
    after: Run,
    step: Step,
)
    requires
        before.wf(),
        follows(before, event, after, step),
        ({
            let interval = before.config.checkpoint_interval as int;
            match (before.phase, event) {
                (Phase::Loading { candidates, wanted, next_index }, Event::CheckpointData(data)) =>
                    data@.len() != wanted,
                (Phase::Scanning { scan }, Event::Metadata(replies)) => {
                    let left = scan.remaining@.len() - scan.done;
                    replies@.len() != if interval < left {
                        interval
                    } else {
                        left
                    }
                },
                (Phase::Fingerprinting { files, targets, prints }, Event::Prints(replies)) => {
                    let left = targets@.len() - prints@.len();
                    replies@.len() != if interval < left {
                        interval
                    } else {
                        left
                    }
                },
                (Phase::Hashing { files, targets, done }, Event::Hashes(replies)) => {
                    let left = targets@.len() - done;
                    replies@.len() != if interval < left {
                        interval
                    } else {
                        left
                    }
                },
                (Phase::Timing { files, targets }, Event::Times(replies)) => replies@.len()
                    != targets@.len(),
                (Phase::Deleting { planner, plan }, Event::Deleted(errors)) => errors@.len()
                    != plan.planned_deletions@.len(),
                _ => false,
            }
        }),
    ensures
        after.phase is Ended,
        step.action == Action::Fail(Failure::UnexpectedReply),
{
    reveal(follows);
}

/// The files that are planned for, once planning has begun.
pub open spec fn files_to_plan(phase: Phase) -> Option<Seq<FileInfo>> {
    match phase {
        Phase::Timing { files, targets } => Some(files@),
        Phase::Comparing { planner } => Some(planner.files@),
        Phase::Reporting { planner, plan } => Some(planner.files@),
        _ => None,
    }
}

/// Whether planning has begun for exactly these files, in the order of their paths.
pub open spec fn is_planning_for(phase: Phase, files: Seq<FileInfo>) -> bool {
    &&& files_to_plan(phase) matches Some(sorted)
    &&& sorted.len() == files.len()
    &&& is_by_path(sorted)
    &&& forall|file: FileInfo| #[trigger] sorted.contains(file) <==> files.contains(file)
}

proof fn lemma_planning_begins(
    config: RunConfig,
    platform: Platform,
    files: Seq<FileInfo>,
    reports: Seq<ProgressRecord>,
    after: Run,
    step: Step,
)
    requires
        files.len() <= usize::MAX,
        begins_planning(config, platform, files, reports, after, step),
    ensures
        is_planning_for(after.phase, files),
        reported(step.reports@).len() > reports.len(),
        reported(step.reports@).take(reports.len() as int) == reports,
        reported(step.reports@)[reports.len() as int] == (ProgressRecord {
            stage: RunStage::Planning,
            message: "Verifying duplicates and building plan"@,
            discovered_files: Some(files.len() as usize),
            processed_files: files.len() as usize,
            planned_deletions: 0,
            deleted_files: 0,
        }),
        after.phase matches Phase::Timing { files: f, targets } ==> {
            &&& targets@ == contested_indices(f@)
            &&& step.action matches Action::ReadTimes(paths) && texts(paths@) == paths_at(
                f@,
                targets@,
            )
        },
{
    let all = reports.push(planning_note(files.len()));
    let sorted = choose|sorted: Seq<FileInfo>|
        is_path_sorted(sorted, files) && #[trigger] times_files(
            config,
            platform,
            sorted,
            all,
            after,
            step,
        );
    assert(all.take(reports.len() as int) =~= reports);
    let order = lemma_path_sorted(sorted, files);
    assert(files_to_plan(after.phase) == Some(sorted));
    assert forall|file: FileInfo| #[trigger] sorted.contains(file) <==> files.contains(file) by {
        if sorted.contains(file) {
            let k = choose|k: int| 0 <= k < sorted.len() && sorted[k] == file;
            assert(files[order[k] as int] == file);
        }
        if files.contains(file) {
            let i = choose|i: int| 0 <= i < files.len() && files[i] == file;
            assert(order.contains(i as usize));
            let k = choose|k: int| 0 <= k < order.len() && order[k] == i as usize;
            assert(sorted[k] == file);
        }
    }
    if after.phase is Reporting {
        assert(reported(step.reports@).drop_last() =~= all);
        assert(reported(step.reports@).take(reports.len() as int) =~= reports);
    }
}

proof fn lemma_hashing_is_over(
    before: Run,
    files: Vec<FileInfo>,
    targets: Vec<usize>,
    done: usize,
    replies: Vec<Option<String>>,
    after: Run,
    step: Step,
)
    requires
        before.wf(),
        before.phase == (Phase::Hashing { files, targets, done }),
        follows(before, Event::Hashes(replies), after, step),
        done + before.config.checkpoint_interval >= targets@.len(),
        replies@.len() == targets@.len() - done,
    ensures
        is_planning_for(after.phase, with_hashes(files@, targets@.skip(done as int), replies@)),
        after.phase matches Phase::Timing { files: f, targets: t } ==> {
            &&& t@ == contested_indices(f@)
            &&& step.action matches Action::ReadTimes(paths) && texts(paths@) == paths_at(f@, t@)
        },
        ({
            let sent = reported(step.reports@);
            &&& sent.len() >= 2
            &&& sent[0] == (ProgressRecord {
                stage: RunStage::Hashing,
                message: "Hashed "@ + decimal(targets@.len() as int) + " of "@ + decimal(
                    targets@.len() as int,
                ) + " candidate files"@,
                discovered_files: Some(targets.len()),
                processed_files: targets.len(),
                planned_deletions: 0,
                deleted_files: 0,
            })
            &&& sent[1] == (ProgressRecord {
                stage: RunStage::Planning,
                message: "Verifying duplicates and building plan"@,
                discovered_files: Some(files.len()),
                processed_files: files.len(),
                planned_deletions: 0,
                deleted_files: 0,
            })
        }),
{
    reveal(follows);
    let interval = before.config.checkpoint_interval as int;
    let asked = portion(targets@, done as int, interval);
    assert(asked =~= targets@.skip(done as int));
    assert(targets.len() == targets@.len());
    assert(files.len() == files@.len());
    let next = with_hashes(files@, asked, replies@);
    assert forall|j: int| 0 <= j < asked.len() implies #[trigger] asked[j] < files@.len() by {
        assert(asked[j] == targets@[done + j]);
    }
    if files@.len() > 0 {
        law_hashing_changes_only_hashes(files@, asked, replies@, 0);
    } else {
        assert(targets@[done as int] < files@.len());
    }
    let told = ProgressRecord {
        stage: RunStage::Hashing,
        message: "Hashed "@ + decimal(targets@.len() as int) + " of "@ + decimal(
            targets@.len() as int,
        ) + " candidate files"@,
        discovered_files: Some(targets.len()),
        processed_files: targets.len(),
        planned_deletions: 0,
        deleted_files: 0,
    };
    lemma_planning_begins(before.config, before.platform, next, seq![told], after, step);
    let sent = reported(step.reports@);
    assert(sent.take(1)[0] == sent[0]);
}

/// Once the last hashes have come, planning begins: for all files that are known, with the
/// hashes that were taken, in the order of their paths. How many are hashed is reported, and
/// that planning begins.
pub proof fn law_planning_follows_hashing(
    before: Run,
    files: Vec<FileInfo>,
    targets: Vec<usize>,
    done: usize,
    replies: Vec<Option<String>>,
    after: Run,
    step: Step,
)
    requires
        before.wf(),
        before.phase == (Phase::Hashing { files, targets, done }),
        follows(before, Event::Hashes(replies), after, step),
        done + before.config.checkpoint_interval >= targets@.len(),
        replies@.len() == targets@.len() - done,
    ensures
        is_planning_for(after.phase, with_hashes(files@, targets@.skip(done as int), replies@)),
        ({
            let sent = reported(step.reports@);
            &&& sent.len() >= 2
            &&& sent[0] == (ProgressRecord {
                stage: RunStage::Hashing,
                message: "Hashed "@ + decimal(targets@.len() as int) + " of "@ + decimal(
                    targets@.len() as int,
                ) + " candidate files"@,
                discovered_files: Some(targets.len()),
                processed_files: targets.len(),
                planned_deletions: 0,
                deleted_files: 0,
            })
            &&& sent[1] == (ProgressRecord {
                stage: RunStage::Planning,
                message: "Verifying duplicates and building plan"@,
                discovered_files: Some(files.len()),
                processed_files: files.len(),
                planned_deletions: 0,
                deleted_files: 0,
            })
        }),
{
    lemma_hashing_is_over(before, files, targets, done, replies, after, step);
}

/// The times are asked of exactly those files that share size and hash with another, under
/// their own paths.
pub proof fn law_times_are_asked_of_duplicates(
    before: Run,
    files: Vec<FileInfo>,
    targets: Vec<usize>,
    done: usize,
    replies: Vec<Option<String>>,
    after: Run,
    step: Step,
    i: usize,
)
    requires
        before.wf(),
        before.phase == (Phase::Hashing { files, targets, done }),
        follows(before, Event::Hashes(replies), after, step),
        done + before.config.checkpoint_interval >= targets@.len(),
        replies@.len() == targets@.len() - done,
    ensures
        after.phase matches Phase::Timing { files: f, targets: t } ==> {
            &&& t@.contains(i) <==> {
                &&& i < f@.len()
                &&& f@[i as int].xxhash@.len() > 0
                &&& exists|j: int|
                    0 <= j < f@.len() && j != i && (#[trigger] f@[j]).file_size
                        == f@[i as int].file_size && f@[j].xxhash@ == f@[i as int].xxhash@
            }
            &&& step.action matches Action::ReadTimes(paths) && {
                &&& paths@.len() == t@.len()
                &&& forall|k: int|
                    0 <= k < paths@.len() ==> (#[trigger] paths@[k])@
                        == f@[t@[k] as int].file_path@
            }
        },
{
    lemma_hashing_is_over(before, files, targets, done, replies, after, step);
    if let Phase::Timing { files: f, targets: t } = after.phase {
        assert(f.len() == f@.len());
        law_times_of_duplicates_are_asked_for(f@, i);
        if let Action::ReadTimes(paths) = step.action {
            assert(texts(paths@).len() == paths@.len());
            assert forall|k: int| 0 <= k < paths@.len() implies (#[trigger] paths@[k])@
                == f@[t@[k] as int].file_path@ by {
                assert(texts(paths@)[k] == paths@[k]@);
            }
        }
    }
}

} // verus!
