//! From the last hash to the finished plan: the comparisons, and the reports on the plan.
use vstd::prelude::*;
use vstd::string::*;

use crate::exchange::{
    add_report, file_report, is_report, note, picked_report, Action, Folder, Report, Step,
};
use crate::model::{
    reported, FileInfo, FineTimes, Platform, ProgressRecord, ProgressUpdate, RunConfig, RunStage,
    ALL_FILES_CSV, KEPT_FILES_CSV, PLANNED_DELETIONS_CSV,
};
use crate::plan::{is_assignment, is_plan, law_plan_covers_all_files, DedupPlan, Planner};
use crate::prefilter::{contested_files, contested_indices, is_contested};
use crate::rank::{is_path_sorted, path_sorted};
use crate::scan::{assign_times, paths_at, paths_of, with_times};
use crate::select::{lemma_ascending, picked};
use crate::state::{no_reports, reject, rejects, Phase, Run};
use crate::text::texts;

verus! {

/// The plan is complete: the tables of all files, of those kept and of those to delete
/// are written.
pub open spec fn completes_plan(
    planner: Planner,
    reports: Seq<ProgressRecord>,
    after: Run,
    step: Step,
) -> bool {
    let files = planner.files@;
    &&& after.phase matches Phase::Reporting { planner: p, plan }
    &&& p == planner
    &&& is_assignment(files, planner.order@, planner.home@, planner.answers@)
    &&& is_plan(plan, files, planner.home@)
    &&& step.action matches Action::Write(tables)
    &&& tables@.len() == 3
    &&& is_report(tables@[0], Folder::Output, ALL_FILES_CSV@, files)
    &&& is_report(tables@[1], Folder::Output, KEPT_FILES_CSV@, picked(files, plan.kept@))
    &&& is_report(
        tables@[2],
        Folder::Output,
        PLANNED_DELETIONS_CSV@,
        picked(files, plan.planned_deletions@),
    )
    &&& reported(step.reports@) == reports.push(
        note(
            RunStage::Saving,
            "Writing scan reports"@,
            Some(files.len() as usize),
            files.len() as int,
            plan.planned_deletions@.len() as int,
            0,
        ),
    )
}

/// The next question is asked, or the plan is complete.
pub open spec fn continues_planning(
    planner: Planner,
    reports: Seq<ProgressRecord>,
    after: Run,
    step: Step,
) -> bool {
    match planner.question() {
        Some((a, b)) => {
            &&& after.phase == (Phase::Comparing { planner })
            &&& step.action matches Action::Compare { left, right }
            &&& left@ == planner.files@[a as int].file_path@
            &&& right@ == planner.files@[b as int].file_path@
            &&& reported(step.reports@) == reports
        },
        None => completes_plan(planner, reports, after, step),
    }
}

pub(crate) proof fn lemma_plan_in_range(planner: Planner, plan: DedupPlan)
    requires
        planner.files@.len() <= usize::MAX,
        planner.home@.len() == planner.files@.len(),
        is_plan(plan, planner.files@, planner.home@),
    ensures
        forall|k: int|
            0 <= k < plan.kept@.len() ==> #[trigger] plan.kept@[k] < planner.files@.len(),
        forall|k: int|
            0 <= k < plan.planned_deletions@.len() ==> #[trigger] plan.planned_deletions@[k]
                < planner.files@.len(),
{
    law_plan_covers_all_files(planner.files@, planner.home@, plan);
    assert forall|k: int| 0 <= k < plan.kept@.len() implies #[trigger] plan.kept@[k]
        < planner.files@.len() by {
        assert(plan.kept@.contains(plan.kept@[k]));
    }
    assert forall|k: int|
        0 <= k < plan.planned_deletions@.len() implies #[trigger] plan.planned_deletions@[k]
        < planner.files@.len() by {
        assert(plan.planned_deletions@.contains(plan.planned_deletions@[k]));
    }
}

fn continue_planning(
    config: RunConfig,
    platform: Platform,
    planner: Planner,
    reports: Vec<ProgressUpdate>,
) -> (r: (Run, Step))
    requires
        config.checkpoint_interval > 0,
        planner.wf(config.keep_rule@, platform),
    ensures
        r.0.wf(),
        r.0.config == config,
        r.0.platform == platform,
        continues_planning(planner, reported(reports@), r.0, r.1),
{
    let mut reports = reports;
    match planner.pending(&config.keep_rule, platform) {
        Some((a, b)) => {
            let left = planner.files[a].file_path.clone();
            let right = planner.files[b].file_path.clone();
            (
                Run { config, platform, phase: Phase::Comparing { planner } },
                Step { reports, action: Action::Compare { left, right } },
            )
        },
        None => {
            let plan = planner.plan(&config.keep_rule, platform);
            let n: usize = planner.files.len();
            proof {
                lemma_plan_in_range(planner, plan);
            }
            add_report(
                &mut reports,
                RunStage::Saving,
                "Writing scan reports".to_string(),
                Some(n),
                n,
                plan.planned_deletions.len(),
                0,
            );
            let mut tables: Vec<Report> = Vec::new();
            tables.push(
                file_report(Folder::Output, ALL_FILES_CSV.to_string(), &planner.files),
            );
            tables.push(
                picked_report(
                    Folder::Output,
                    KEPT_FILES_CSV.to_string(),
                    &planner.files,
                    &plan.kept,
                ),
            );
            tables.push(
                picked_report(
                    Folder::Output,
                    PLANNED_DELETIONS_CSV.to_string(),
                    &planner.files,
                    &plan.planned_deletions,
                ),
            );
            (
                Run { config, platform, phase: Phase::Reporting { planner, plan } },
                Step { reports, action: Action::Write(tables) },
            )
        },
    }
}

/// Planning for `files`, sorted by path, begins.
pub open spec fn starts_planning(
    config: RunConfig,
    platform: Platform,
    files: Seq<FileInfo>,
    fine: Seq<FineTimes>,
    reports: Seq<ProgressRecord>,
    after: Run,
    step: Step,
) -> bool {
    exists|planner: Planner|
        #![trigger continues_planning(planner, reports, after, step)]
        planner.starts(files, fine, config.keep_rule@, platform) && continues_planning(
            planner,
            reports,
            after,
            step,
        )
}

fn start_planning(
    config: RunConfig,
    platform: Platform,
    files: Vec<FileInfo>,
    fine: Vec<FineTimes>,
    reports: Vec<ProgressUpdate>,
) -> (r: (Run, Step))
    requires
        config.checkpoint_interval > 0,
        fine@.len() == files@.len(),
    ensures
        r.0.wf(),
        r.0.config == config,
        r.0.platform == platform,
        starts_planning(config, platform, files@, fine@, reported(reports@), r.0, r.1),
{
    let ghost sofar = reported(reports@);
    let ghost listed = files@;
    let ghost times = fine@;
    let planner = Planner::new(files, fine, &config.keep_rule, platform);
    let ghost begun = planner;
    let r = continue_planning(config, platform, planner, reports);
    proof {
        assert(begun.starts(listed, times, config.keep_rule@, platform));
        assert(continues_planning(begun, sofar, r.0, r.1));
    }
    r
}

/// The report that planning for `n` files begins.
pub open spec fn planning_note(n: nat) -> ProgressRecord {
    note(
        RunStage::Planning,
        "Verifying duplicates and building plan"@,
        Some(n as usize),
        n as int,
        0,
        0,
    )
}

/// The files are sorted: where some compete to be kept, their times are asked for, and
/// planning begins otherwise.
pub open spec fn times_files(
    config: RunConfig,
    platform: Platform,
    files: Seq<FileInfo>,
    reports: Seq<ProgressRecord>,
    after: Run,
    step: Step,
) -> bool {
    let targets = contested_indices(files);
    if targets.len() == 0 {
        starts_planning(
            config,
            platform,
            files,
            with_times(files.len(), targets, Seq::empty()),
            reports,
            after,
            step,
        )
    } else {
        &&& after.phase matches Phase::Timing { files: f, targets: t }
        &&& f@ == files
        &&& t@ == targets
        &&& step.action matches Action::ReadTimes(paths)
        &&& texts(paths@) == paths_at(files, targets)
        &&& reported(step.reports@) == reports
    }
}

/// The scan is over: `files` are sorted by path, and planning begins.
pub open spec fn begins_planning(
    config: RunConfig,
    platform: Platform,
    files: Seq<FileInfo>,
    reports: Seq<ProgressRecord>,
    after: Run,
    step: Step,
) -> bool {
    exists|sorted: Seq<FileInfo>|
        is_path_sorted(sorted, files) && #[trigger] times_files(
            config,
            platform,
            sorted,
            reports.push(planning_note(files.len())),
            after,
            step,
        )
}

pub(crate) fn begin_planning(
    config: RunConfig,
    platform: Platform,
    files: Vec<FileInfo>,
    reports: Vec<ProgressUpdate>,
) -> (r: (Run, Step))
    requires
        config.checkpoint_interval > 0,
    ensures
        r.0.wf(),
        r.0.config == config,
        r.0.platform == platform,
        begins_planning(config, platform, files@, reported(reports@), r.0, r.1),
{
    let mut reports = reports;
    let n: usize = files.len();
    add_report(
        &mut reports,
        RunStage::Planning,
        "Verifying duplicates and building plan".to_string(),
        Some(n),
        n,
        0,
        0,
    );
    let sorted = path_sorted(&files);
    let ghost order = sorted@;
    let ghost sofar = reported(reports@);
    let targets = contested_files(&sorted);
    if targets.len() == 0 {
        let replies: Vec<Option<FineTimes>> = Vec::new();
        assert(replies@ =~= Seq::empty());
        let fine = assign_times(sorted.len(), &targets, &replies);
        let r = start_planning(config, platform, sorted, fine, reports);
        assert(times_files(config, platform, order, sofar, r.0, r.1));
        r
    } else {
        let m: usize = sorted.len();
        let paths = paths_of(&sorted, &targets);
        let r = (
            Run { config, platform, phase: Phase::Timing { files: sorted, targets } },
            Step { reports, action: Action::ReadTimes(paths) },
        );
        assert(times_files(config, platform, order, sofar, r.0, r.1));
        r
    }
}

/// The times that were asked for have come: planning begins.
pub open spec fn takes_times(
    config: RunConfig,
    platform: Platform,
    files: Seq<FileInfo>,
    targets: Seq<usize>,
    replies: Seq<Option<FineTimes>>,
    after: Run,
    step: Step,
) -> bool {
    if replies.len() != targets.len() {
        rejects(after, step)
    } else {
        starts_planning(
            config,
            platform,
            files,
            with_times(files.len(), targets, replies),
            no_reports(),
            after,
            step,
        )
    }
}

pub(crate) fn take_times(
    config: RunConfig,
    platform: Platform,
    files: Vec<FileInfo>,
    targets: Vec<usize>,
    replies: Vec<Option<FineTimes>>,
) -> (r: (Run, Step))
    requires
        config.checkpoint_interval > 0,
        targets@ == contested_indices(files@),
    ensures
        r.0.wf(),
        r.0.config == config,
        r.0.platform == platform,
        takes_times(config, platform, files@, targets@, replies@, r.0, r.1),
{
    if replies.len() != targets.len() {
        return reject(config, platform);
    }
    let n: usize = files.len();
    proof {
        lemma_ascending(files@.len(), |i: int| is_contested(files@, i));
    }
    let reports: Vec<ProgressUpdate> = Vec::new();
    assert(reported(reports@) =~= no_reports());
    let fine = assign_times(n, &targets, &replies);
    start_planning(config, platform, files, fine, reports)
}

/// The answer to the planner's question has come.
pub open spec fn takes_answer(
    config: RunConfig,
    platform: Platform,
    planner: Planner,
    identical: bool,
    after: Run,
    step: Step,
) -> bool {
    exists|next: Planner|
        next.takes(planner, identical, config.keep_rule@, platform)
            && #[trigger] continues_planning(next, no_reports(), after, step)
}

pub(crate) fn take_answer(
    config: RunConfig,
    platform: Platform,
    planner: Planner,
    identical: bool,
) -> (r: (Run, Step))
    requires
        config.checkpoint_interval > 0,
        planner.wf(config.keep_rule@, platform),
        planner.question() is Some,
    ensures
        r.0.wf(),
        r.0.config == config,
        r.0.platform == platform,
        takes_answer(config, platform, planner, identical, r.0, r.1),
{
    let ghost before = planner;
    let mut planner = planner;
    planner.answer(identical, &config.keep_rule, platform);
    let ghost next = planner;
    let reports: Vec<ProgressUpdate> = Vec::new();
    assert(reported(reports@) =~= no_reports());
    let r = continue_planning(config, platform, planner, reports);
    proof {
        assert(next.takes(before, identical, config.keep_rule@, platform));
        assert(continues_planning(next, no_reports(), r.0, r.1));
    }
    r
}

} // verus!
