//! A run: from the inspection of the output folder to the summary.
//!
//! A run decides, and its surroundings act: each step takes the reply to the last action
//! and gives the next action.
use vstd::prelude::*;
use vstd::string::*;

use crate::config::{config_fault, ConfigError, PathFacts};
use crate::exchange::{add_report, note, Action, Event, Step};
use crate::history::is_history;
use crate::model::{reported, Platform, ProgressUpdate, RunConfig, RunStage};
use crate::resume::contents_of;
use crate::stages::beginning::{
    discover, discovers, take_candidates, take_output_dir, takes_candidates, takes_output_dir,
};
use crate::stages::ending::{
    carries_out, carry_out, finish, finishes, summarize, summarizes, take_deletions,
    takes_deletions,
};
use crate::stages::hashing::{take_hashes, take_prints, takes_hashes, takes_prints};
use crate::stages::planning::{take_answer, take_times, takes_answer, takes_times};
use crate::stages::resuming::{take_checkpoints, take_saved, takes_checkpoints, takes_saved};
use crate::stages::scanning::{save_checkpoint, saves_checkpoint, take_metadata, takes_metadata};
use crate::state::{no_reports, reject, rejects, Phase, Run};
use crate::text::{text_options, texts};

verus! {

/// Whether `after` and `step` follow from `event` in the run `before`.
#[verifier::opaque]
pub open spec fn follows(before: Run, event: Event, after: Run, step: Step) -> bool {
    let config = before.config;
    let platform = before.platform;
    match (before.phase, event) {
        (Phase::Inspecting, Event::OutputDir { present, occupied }) => takes_output_dir(
            config,
            present,
            occupied,
            after,
            step,
        ),
        (Phase::Creating, Event::Done) => discovers(after, step),
        (Phase::Discovering, Event::Candidates(candidates)) => takes_candidates(
            config,
            platform,
            candidates,
            after,
            step,
        ),
        (Phase::Listing { candidates }, Event::Saved { all_files, stems }) => takes_saved(
            config,
            platform,
            candidates,
            all_files,
            text_options(stems@),
            after,
            step,
        ),
        (
            Phase::Loading { candidates, wanted, next_index },
            Event::CheckpointData(data),
        ) => takes_checkpoints(
            config,
            platform,
            texts(candidates@),
            wanted as int,
            next_index as int,
            contents_of(data@),
            after,
            step,
        ),
        (Phase::Scanning { scan }, Event::Metadata(replies)) => takes_metadata(
            config,
            platform,
            scan@,
            replies@,
            after,
            step,
        ),
        (Phase::Checkpointing { scan, batch }, Event::Done) => saves_checkpoint(
            config,
            platform,
            scan@,
            batch@,
            after,
            step,
        ),
        (
            Phase::Fingerprinting { files, targets, prints },
            Event::Prints(replies),
        ) => takes_prints(
            config,
            platform,
            files@,
            targets@,
            prints@,
            replies@,
            after,
            step,
        ),
        (Phase::Hashing { files, targets, done }, Event::Hashes(replies)) => takes_hashes(
            config,
            platform,
            files@,
            targets@,
            done as int,
            replies@,
            after,
            step,
        ),
        (Phase::Timing { files, targets }, Event::Times(replies)) => takes_times(
            config,
            platform,
            files@,
            targets@,
            replies@,
            after,
            step,
        ),
        (Phase::Comparing { planner }, Event::Compared(identical)) => takes_answer(
            config,
            platform,
            planner,
            identical,
            after,
            step,
        ),
        (Phase::Reporting { planner, plan }, Event::Done) => carries_out(
            config,
            planner,
            plan,
            after,
            step,
        ),
        (Phase::Deleting { planner, plan }, Event::Deleted(errors)) => takes_deletions(
            planner,
            plan,
            errors@,
            after,
            step,
        ),
        (Phase::Recording { planner, plan, deleted, failed }, Event::Done) => summarizes(
            config,
            planner,
            plan,
            deleted@,
            failed@,
            after,
            step,
        ),
        (Phase::Summarizing { source, plan, artifacts }, Event::Done) => finishes(
            artifacts,
            after,
            step,
        ),
        _ => rejects(after, step),
    }
}

/// Whether `run` and `step` are the start of a run with this configuration: nothing is done
/// yet, and the output folder is to be inspected.
pub open spec fn is_start(config: RunConfig, platform: Platform, run: Run, step: Step) -> bool {
    &&& run.wf()
    &&& run.config == config
    &&& run.platform == platform
    &&& run.phase is Inspecting
    &&& step.action == Action::InspectOutputDir
    &&& reported(step.reports@) == seq![
        note(RunStage::Preparing, "Preparing output directory"@, None, 0, 0, 0),
    ]
}

/// A run starts with a look at its output folder, and keeps the configuration that it is
/// given; it has asked for nothing else yet.
pub proof fn law_runs_start_with_the_output_folder(
    config: RunConfig,
    platform: Platform,
    run: Run,
    step: Step,
)
    requires
        is_start(config, platform, run, step),
    ensures
        is_history(run, Seq::empty()),
        run.config == config,
        run.platform == platform,
        step.action == Action::InspectOutputDir,
        step.reports@.len() == 1,
        step.reports@[0].stage == RunStage::Preparing,
        step.reports@[0].message@ == "Preparing output directory"@,
{
    assert(reported(step.reports@).len() == step.reports@.len());
    assert(reported(step.reports@)[0] == step.reports@[0]@);
}

impl Run {
    /// Starts a run, where the configuration is usable.
    pub fn new(config: RunConfig, facts: PathFacts, platform: Platform) -> (r: Result<
        (Run, Step),
        ConfigError,
    >)
        ensures
            match r {
                Ok((run, step)) => {
                    &&& config_fault(config@, facts) is None
                    &&& is_start(config, platform, run, step)
                    &&& run.wf()
                    &&& run.config == config
                    &&& run.platform == platform
                    &&& run.phase is Inspecting
                    &&& step.action == Action::InspectOutputDir
                    &&& reported(step.reports@) == seq![
                        note(
                            RunStage::Preparing,
                            "Preparing output directory"@,
                            None,
                            0,
                            0,
                            0,
                        ),
                    ]
                },
                Err(e) => config_fault(config@, facts) == Some(e@),
            },
    {
        match config.validate(facts) {
            Ok(()) => {},
            Err(e) => {
                return Err(e);
            },
        }
        let mut reports: Vec<ProgressUpdate> = Vec::new();
        assert(reported(reports@) =~= no_reports());
        add_report(
            &mut reports,
            RunStage::Preparing,
            "Preparing output directory".to_string(),
            None,
            0,
            0,
            0,
        );
        let ghost sent = reported(reports@);
        assert(sent =~= seq![sent[0]]);
        Ok(
            (
                Run { config, platform, phase: Phase::Inspecting },
                Step { reports, action: Action::InspectOutputDir },
            ),
        )
    }

    /// Takes the reply to the last action, and says what is to be done next.
    pub fn step(self, event: Event) -> (r: (Run, Step))
        requires
            self.wf(),
        ensures
            r.0.wf(),
            r.0.config == self.config,
            r.0.platform == self.platform,
            follows(self, event, r.0, r.1),
    {
        reveal(follows);
        let config = self.config;
        let platform = self.platform;
        match (self.phase, event) {
            (Phase::Inspecting, Event::OutputDir { present, occupied }) => take_output_dir(
                config,
                platform,
                present,
                occupied,
            ),
            (Phase::Creating, Event::Done) => discover(config, platform),
            (Phase::Discovering, Event::Candidates(candidates)) => take_candidates(
                config,
                platform,
                candidates,
            ),
            (Phase::Listing { candidates }, Event::Saved { all_files, stems }) => take_saved(
                config,
                platform,
                candidates,
                all_files,
                stems,
            ),
            (
                Phase::Loading { candidates, wanted, next_index },
                Event::CheckpointData(data),
            ) => take_checkpoints(config, platform, candidates, wanted, next_index, data),
            (Phase::Scanning { scan }, Event::Metadata(replies)) => take_metadata(
                config,
                platform,
                scan,
                replies,
            ),
            (Phase::Checkpointing { scan, batch }, Event::Done) => save_checkpoint(
                config,
                platform,
                scan,
                batch,
            ),
            (
                Phase::Fingerprinting { files, targets, prints },
                Event::Prints(replies),
            ) => take_prints(config, platform, files, targets, prints, replies),
            (Phase::Hashing { files, targets, done }, Event::Hashes(replies)) => take_hashes(
                config,
                platform,
                files,
                targets,
                done,
                replies,
            ),
            (Phase::Timing { files, targets }, Event::Times(replies)) => take_times(
                config,
                platform,
                files,
                targets,
                replies,
            ),
            (Phase::Comparing { planner }, Event::Compared(identical)) => take_answer(
                config,
                platform,
                planner,
                identical,
            ),
            (Phase::Reporting { planner, plan }, Event::Done) => carry_out(
                config,
                platform,
                planner,
                plan,
            ),
            (Phase::Deleting { planner, plan }, Event::Deleted(errors)) => take_deletions(
                config,
                platform,
                planner,
                plan,
                errors,
            ),
            (Phase::Recording { planner, plan, deleted, failed }, Event::Done) => summarize(
                config,
                platform,
                planner,
                plan,
                deleted,
                failed,
            ),
            (Phase::Summarizing { source, plan, artifacts }, Event::Done) => finish(
                config,
                platform,
                artifacts,
            ),
            _ => reject(config, platform),
        }
    }
}

} // verus!
