//! The state of a run, and what holds of it between any two steps.
use vstd::prelude::*;
use vstd::string::*;

use crate::exchange::{Action, Failure, Step};
use crate::model::{
    reported, FailedDeletionRecord, FileInfo, OperationMode, Platform, ProgressRecord,
    ProgressUpdate, RunArtifacts, RunConfig,
};
use crate::outcome::is_result;
use crate::plan::{is_assignment, is_plan, DedupPlan, Planner};
use crate::prefilter::{contested_indices, shares_size};
use crate::scan::portion_end;
use crate::select::ascending;

verus! {

/// How far a scan of the candidates has come.
pub struct Scan {
    /// The candidates to look at.
    pub remaining: Vec<usize>,
    /// How many of `remaining` have been looked at.
    pub done: usize,
    /// The files that are known.
    pub files: Vec<FileInfo>,
    /// How many paths were known before the scan.
    pub already: usize,
    /// The number of the next checkpoint.
    pub next_index: usize,
}

/// The contents of a [`Scan`].
#[verifier::ext_equal]
pub struct ScanRecord {
    pub remaining: Seq<usize>,
    pub done: int,
    pub files: Seq<FileInfo>,
    pub already: int,
    pub next_index: int,
}

impl View for Scan {
    type V = ScanRecord;

    open spec fn view(&self) -> ScanRecord {
        ScanRecord {
            remaining: self.remaining@,
            done: self.done as int,
            files: self.files@,
            already: self.already as int,
            next_index: self.next_index as int,
        }
    }
}

impl ScanRecord {
    /// Everything that is to be scanned can be counted.
    pub open spec fn countable(self) -> bool {
        self.already + self.remaining.len() <= usize::MAX
    }

    /// The scan after its next portion, in which `batch` was found and saved.
    pub open spec fn advanced(self, interval: int, batch: Seq<FileInfo>) -> ScanRecord {
        ScanRecord {
            done: portion_end(self.done, interval, self.remaining.len() as int),
            files: self.files + batch,
            next_index: if batch.len() > 0 {
                self.next_index + 1
            } else {
                self.next_index
            },
            ..self
        }
    }
}

/// What a run is waiting for.
pub enum Phase {
    /// For what is known of the output folder.
    Inspecting,
    /// For the folders to be created.
    Creating,
    /// For the candidates.
    Discovering,
    /// For the list of saved scan data.
    Listing { candidates: Vec<String> },
    /// For the contents of `wanted` checkpoints.
    Loading { candidates: Vec<String>, wanted: usize, next_index: usize },
    /// For the metadata of the next portion.
    Scanning { scan: Scan },
    /// For the checkpoint with `batch`, the files of the next portion, to be written.
    Checkpointing { scan: Scan, batch: Vec<FileInfo> },
    /// For the fingerprints of the next portion of `targets`.
    Fingerprinting { files: Vec<FileInfo>, targets: Vec<usize>, prints: Vec<Option<String>> },
    /// For the hashes of the next portion of `targets`.
    Hashing { files: Vec<FileInfo>, targets: Vec<usize>, done: usize },
    /// For the fine times of the files at `targets`.
    Timing { files: Vec<FileInfo>, targets: Vec<usize> },
    /// For the answer to the planner's question.
    Comparing { planner: Planner },
    /// For the reports on the plan to be written.
    Reporting { planner: Planner, plan: DedupPlan },
    /// For the outcome of the deletions.
    Deleting { planner: Planner, plan: DedupPlan },
    /// For the reports on the deletions to be written.
    Recording {
        planner: Planner,
        plan: DedupPlan,
        deleted: Vec<FileInfo>,
        failed: Vec<FailedDeletionRecord>,
    },
    /// For the summary to be written.
    Summarizing { source: Ghost<Planner>, plan: DedupPlan, artifacts: RunArtifacts },
    /// For nothing: the run is over.
    Ended,
}

/// A run.
pub struct Run {
    pub config: RunConfig,
    pub platform: Platform,
    pub phase: Phase,
}

/// Whether some other file has the size of file `i`.
pub open spec fn has_same_size(files: Seq<FileInfo>, i: int) -> bool {
    exists|j: int|
        0 <= j < files.len() && j != i && (#[trigger] files[j]).file_size == files[i].file_size
}

/// Whether the plan is complete and comes of the planner's comparisons.
pub open spec fn is_planned(
    planner: Planner,
    plan: DedupPlan,
    config: RunConfig,
    platform: Platform,
) -> bool {
    &&& planner.wf(config.keep_rule@, platform)
    &&& planner.question() is None
    &&& planner.files@.len() <= usize::MAX
    &&& is_assignment(planner.files@, planner.order@, planner.home@, planner.answers@)
    &&& is_plan(plan, planner.files@, planner.home@)
}

/// Whether the deletions that were carried out account for the plan: all of it where the
/// run applies the plan, and none in a dry run.
pub open spec fn accounts(config: RunConfig, plan: DedupPlan, deleted: nat, failed: nat) -> bool {
    deleted + failed == if config.mode == OperationMode::Apply {
        plan.planned_deletions@.len()
    } else {
        0
    }
}

impl Run {
    /// What holds between any two steps.
    pub open spec fn wf(&self) -> bool {
        &&& self.config.checkpoint_interval > 0
        &&& match self.phase {
            Phase::Scanning { scan } => scan@.countable() && scan.done < scan.remaining@.len(),
            Phase::Checkpointing { scan, batch } => {
                &&& scan@.countable()
                &&& scan.done < scan.remaining@.len()
                &&& scan.next_index < usize::MAX
                &&& batch@.len() > 0
            },
            Phase::Fingerprinting { files, targets, prints } => {
                &&& files@.len() <= usize::MAX
                &&& targets@ == ascending(files@.len(), |i: int| shares_size(files@, i))
                &&& prints@.len() < targets@.len()
                &&& self.config.fast_prefilter
            },
            Phase::Hashing { files, targets, done } => {
                &&& files@.len() <= usize::MAX
                &&& done < targets@.len()
                &&& forall|k: int|
                    0 <= k < targets@.len() ==> #[trigger] targets@[k] < files@.len()
                &&& self.config.fast_prefilter ==> forall|k: int|
                    0 <= k < targets@.len() ==> has_same_size(
                        files@,
                        #[trigger] targets@[k] as int,
                    )
            },
            Phase::Timing { files, targets } => {
                &&& files@.len() <= usize::MAX
                &&& targets@ == contested_indices(files@)
                &&& targets@.len() > 0
            },
            Phase::Comparing { planner } => {
                &&& planner.wf(self.config.keep_rule@, self.platform)
                &&& planner.question() is Some
            },
            Phase::Reporting { planner, plan } => is_planned(
                planner,
                plan,
                self.config,
                self.platform,
            ),
            Phase::Deleting { planner, plan } => {
                &&& is_planned(planner, plan, self.config, self.platform)
                &&& self.config.mode == OperationMode::Apply
            },
            Phase::Recording { planner, plan, deleted, failed } => {
                &&& is_planned(planner, plan, self.config, self.platform)
                &&& self.config.mode == OperationMode::Apply
                &&& accounts(self.config, plan, deleted@.len(), failed@.len())
            },
            Phase::Summarizing { source, plan, artifacts } => {
                &&& is_planned(source@, plan, self.config, self.platform)
                &&& is_result(
                    artifacts,
                    self.config,
                    source@.files@,
                    plan,
                    artifacts.deleted_files@,
                    artifacts.failed_deletions@,
                )
                &&& accounts(
                    self.config,
                    plan,
                    artifacts.deleted_files@.len(),
                    artifacts.failed_deletions@.len(),
                )
            },
            _ => true,
        }
    }
}

/// No reports.
pub open spec fn no_reports() -> Seq<ProgressRecord> {
    Seq::empty()
}

// ---------------------------------------------------------------------------
// Ends
// ---------------------------------------------------------------------------

/// The run ends without a result.
pub open spec fn halts(reports: Seq<ProgressRecord>, after: Run, step: Step) -> bool {
    &&& after.phase is Ended
    &&& step.action is Fail
    &&& reported(step.reports@) == reports
}

pub(crate) fn halt(
    config: RunConfig,
    platform: Platform,
    reports: Vec<ProgressUpdate>,
    failure: Failure,
) -> (r: (Run, Step))
    requires
        config.checkpoint_interval > 0,
    ensures
        r.0.wf(),
        r.0.config == config,
        r.0.platform == platform,
        halts(reported(reports@), r.0, r.1),
        r.1.action == Action::Fail(failure),
{
    (Run { config, platform, phase: Phase::Ended }, Step { reports, action: Action::Fail(failure) })
}

/// The event is no reply to the last action: the run ends.
pub open spec fn rejects(after: Run, step: Step) -> bool {
    halts(no_reports(), after, step) && step.action == Action::Fail(Failure::UnexpectedReply)
}

pub(crate) fn reject(config: RunConfig, platform: Platform) -> (r: (Run, Step))
    requires
        config.checkpoint_interval > 0,
    ensures
        r.0.wf(),
        r.0.config == config,
        r.0.platform == platform,
        rejects(r.0, r.1),
{
    let reports: Vec<ProgressUpdate> = Vec::new();
    assert(reported(reports@) =~= no_reports());
    halt(config, platform, reports, Failure::UnexpectedReply)
}

} // verus!
