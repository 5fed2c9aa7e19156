//! From the finished plan to the end: the deletions, and the summary.
use vstd::prelude::*;
use vstd::string::*;

use crate::exchange::{
    add_report, failure_report, file_report, is_failure_report, is_report, note, Action, Folder,
    Report, Step,
};
use crate::model::{
    reported, FailedDeletionRecord, FileInfo, OperationMode, Platform, ProgressUpdate, RunArtifacts,
    RunConfig, RunStage, DELETED_FILES_CSV, FAILED_DELETIONS_CSV,
};
use crate::outcome::{
    deleted_of, deletion_reports, failed_of, gather_result, is_result,
    law_deletions_are_accounted_for, record_deletions,
};
use crate::plan::{DedupPlan, Planner};
use crate::scan::{paths_at, paths_of};
use crate::select::{pick, picked};
use crate::stages::planning::lemma_plan_in_range;
use crate::state::{accounts, is_planned, no_reports, reject, rejects, Phase, Run};
use crate::table::{summary_lines, summary_text};
use crate::text::texts;

verus! {

/// The summary is written.
pub open spec fn summarizes(
    config: RunConfig,
    planner: Planner,
    plan: DedupPlan,
    deleted: Seq<FileInfo>,
    failed: Seq<FailedDeletionRecord>,
    after: Run,
    step: Step,
) -> bool {
    &&& after.phase matches Phase::Summarizing { source, plan: q, artifacts }
    &&& source@ == planner
    &&& q == plan
    &&& is_result(artifacts, config, planner.files@, plan, deleted, failed)
    &&& step.action matches Action::WriteSummary(text)
    &&& text@ == summary_lines(artifacts.summary)
    &&& reported(step.reports@) == no_reports()
}

pub(crate) fn summarize(
    config: RunConfig,
    platform: Platform,
    planner: Planner,
    plan: DedupPlan,
    deleted: Vec<FileInfo>,
    failed: Vec<FailedDeletionRecord>,
) -> (r: (Run, Step))
    requires
        config.checkpoint_interval > 0,
        is_planned(planner, plan, config, platform),
        accounts(config, plan, deleted@.len(), failed@.len()),
    ensures
        r.0.wf(),
        r.0.config == config,
        r.0.platform == platform,
        summarizes(config, planner, plan, deleted@, failed@, r.0, r.1),
{
    let ghost whole = planner;
    proof {
        lemma_plan_in_range(planner, plan);
    }
    let artifacts = gather_result(&config, planner.files, &plan, deleted, failed);
    let text = summary_text(&artifacts.summary);
    let reports: Vec<ProgressUpdate> = Vec::new();
    assert(reported(reports@) =~= no_reports());
    (
        Run {
            config,
            platform,
            phase: Phase::Summarizing { source: Ghost(whole), plan, artifacts },
        },
        Step { reports, action: Action::WriteSummary(text) },
    )
}

/// The reports on the plan are written: a dry run is over, and otherwise what is planned
/// is deleted.
pub open spec fn carries_out(
    config: RunConfig,
    planner: Planner,
    plan: DedupPlan,
    after: Run,
    step: Step,
) -> bool {
    match config.mode {
        OperationMode::DryRun => summarizes(
            config,
            planner,
            plan,
            Seq::empty(),
            Seq::empty(),
            after,
            step,
        ),
        OperationMode::Apply => {
            &&& after.phase == (Phase::Deleting { planner, plan })
            &&& step.action matches Action::Delete { paths, use_trash }
            &&& texts(paths@) == paths_at(planner.files@, plan.planned_deletions@)
            &&& use_trash == config.use_trash
            &&& reported(step.reports@) == no_reports()
        },
    }
}

pub(crate) fn carry_out(
    config: RunConfig,
    platform: Platform,
    planner: Planner,
    plan: DedupPlan,
) -> (r: (Run, Step))
    requires
        config.checkpoint_interval > 0,
        is_planned(planner, plan, config, platform),
    ensures
        r.0.wf(),
        r.0.config == config,
        r.0.platform == platform,
        carries_out(config, planner, plan, r.0, r.1),
{
    match config.mode {
        OperationMode::DryRun => {
            let deleted: Vec<FileInfo> = Vec::new();
            let failed: Vec<FailedDeletionRecord> = Vec::new();
            assert(deleted@ =~= Seq::empty());
            assert(failed@ =~= Seq::empty());
            summarize(config, platform, planner, plan, deleted, failed)
        },
        OperationMode::Apply => {
            proof {
                lemma_plan_in_range(planner, plan);
            }
            let paths = paths_of(&planner.files, &plan.planned_deletions);
            let use_trash: bool = config.use_trash;
            let reports: Vec<ProgressUpdate> = Vec::new();
            assert(reported(reports@) =~= no_reports());
            (
                Run { config, platform, phase: Phase::Deleting { planner, plan } },
                Step { reports, action: Action::Delete { paths, use_trash } },
            )
        },
    }
}

/// The outcome of the deletions has come: it is written down.
pub open spec fn takes_deletions(
    planner: Planner,
    plan: DedupPlan,
    errors: Seq<Option<String>>,
    after: Run,
    step: Step,
) -> bool {
    let files = planner.files@;
    let planned = picked(files, plan.planned_deletions@);
    if errors.len() != planned.len() {
        rejects(after, step)
    } else {
        &&& after.phase matches Phase::Recording { planner: p, plan: q, deleted, failed }
        &&& p == planner
        &&& q == plan
        &&& deleted@ == deleted_of(planned, errors)
        &&& failed@ == failed_of(planned, errors)
        &&& step.action matches Action::Write(tables)
        &&& tables@.len() == 2
        &&& is_report(tables@[0], Folder::Output, DELETED_FILES_CSV@, deleted@)
        &&& is_failure_report(tables@[1], FAILED_DELETIONS_CSV@, failed@)
        &&& reported(step.reports@) == deletion_reports(planned, errors).push(
            note(
                RunStage::Saving,
                "Writing deletion results"@,
                Some(files.len() as usize),
                files.len() as int,
                planned.len() as int,
                deleted@.len() as int,
            ),
        )
    }
}

pub(crate) fn take_deletions(
    config: RunConfig,
    platform: Platform,
    planner: Planner,
    plan: DedupPlan,
    errors: Vec<Option<String>>,
) -> (r: (Run, Step))
    requires
        config.checkpoint_interval > 0,
        config.mode == OperationMode::Apply,
        is_planned(planner, plan, config, platform),
    ensures
        r.0.wf(),
        r.0.config == config,
        r.0.platform == platform,
        takes_deletions(planner, plan, errors@, r.0, r.1),
{
    if errors.len() != plan.planned_deletions.len() {
        return reject(config, platform);
    }
    proof {
        lemma_plan_in_range(planner, plan);
    }
    let planned = pick(&planner.files, &plan.planned_deletions);
    let outcome = record_deletions(&planned, &errors);
    proof {
        law_deletions_are_accounted_for(planned@, errors@);
    }
    let deleted = outcome.deleted;
    let failed = outcome.failed;
    let mut reports = outcome.reports;
    let n: usize = planner.files.len();
    add_report(
        &mut reports,
        RunStage::Saving,
        "Writing deletion results".to_string(),
        Some(n),
        n,
        planned.len(),
        deleted.len(),
    );
    let mut tables: Vec<Report> = Vec::new();
    tables.push(file_report(Folder::Output, DELETED_FILES_CSV.to_string(), &deleted));
    tables.push(failure_report(FAILED_DELETIONS_CSV.to_string(), &failed));
    (
        Run { config, platform, phase: Phase::Recording { planner, plan, deleted, failed } },
        Step { reports, action: Action::Write(tables) },
    )
}

/// The summary is written: the run is over.
pub open spec fn finishes(artifacts: RunArtifacts, after: Run, step: Step) -> bool {
    &&& after.phase is Ended
    &&& step.action == Action::Finish(artifacts)
    &&& reported(step.reports@) == seq![
        note(
            RunStage::Complete,
            "Run complete"@,
            Some(artifacts.summary.discovered_files),
            artifacts.summary.scanned_files as int,
            artifacts.summary.planned_deletions as int,
            artifacts.summary.deleted_files as int,
        ),
    ]
}

pub(crate) fn finish(
    config: RunConfig,
    platform: Platform,
    artifacts: RunArtifacts,
) -> (r: (Run, Step))
    requires
        config.checkpoint_interval > 0,
    ensures
        r.0.wf(),
        r.0.config == config,
        r.0.platform == platform,
        finishes(artifacts, r.0, r.1),
{
    let mut reports: Vec<ProgressUpdate> = Vec::new();
    assert(reported(reports@) =~= no_reports());
    add_report(
        &mut reports,
        RunStage::Complete,
        "Run complete".to_string(),
        Some(artifacts.summary.discovered_files),
        artifacts.summary.scanned_files,
        artifacts.summary.planned_deletions,
        artifacts.summary.deleted_files,
    );
    let ghost sent = reported(reports@);
    assert(sent =~= seq![sent[0]]);
    (
        Run { config, platform, phase: Phase::Ended },
        Step { reports, action: Action::Finish(artifacts) },
    )
}

} // verus!
