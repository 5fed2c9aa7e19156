//! From the start to the scan: the output folder, and the candidates.
use vstd::prelude::*;
use vstd::string::*;

use crate::exchange::{
    add_report, count_line, count_message, note, refusal, refusal_text, Action, Failure, Step,
};
use crate::model::{reported, FileInfo, Platform, ProgressUpdate, RunConfig, RunStage};
use crate::stages::scanning::{begin_scan, begins_scan};
use crate::state::{halt, halts, no_reports, Phase, Run};
use crate::text::texts;

verus! {

/// The output folder has been inspected: it is refused where something is in it and the
/// run does not resume.
pub open spec fn takes_output_dir(
    config: RunConfig,
    present: bool,
    occupied: bool,
    after: Run,
    step: Step,
) -> bool {
    if present && occupied && !config.resume {
        &&& halts(no_reports(), after, step)
        &&& step.action matches Action::Fail(Failure::Refused(text))
        &&& text@ == refusal(config.output_dir@)
    } else {
        &&& after.phase is Creating
        &&& step.action == (Action::CreateDirs { output_missing: !present })
        &&& reported(step.reports@) == no_reports()
    }
}

pub(crate) fn take_output_dir(
    config: RunConfig,
    platform: Platform,
    present: bool,
    occupied: bool,
) -> (r: (Run, Step))
    requires
        config.checkpoint_interval > 0,
    ensures
        r.0.wf(),
        r.0.config == config,
        r.0.platform == platform,
        takes_output_dir(config, present, occupied, r.0, r.1),
{
    let reports: Vec<ProgressUpdate> = Vec::new();
    assert(reported(reports@) =~= no_reports());
    if present && occupied && !config.resume {
        let text = refusal_text(config.output_dir.as_str());
        return halt(config, platform, reports, Failure::Refused(text));
    }
    (
        Run { config, platform, phase: Phase::Creating },
        Step { reports, action: Action::CreateDirs { output_missing: !present } },
    )
}

/// The folders are there: the candidates are asked for.
pub open spec fn discovers(after: Run, step: Step) -> bool {
    &&& after.phase is Discovering
    &&& step.action == Action::Discover
    &&& reported(step.reports@) == seq![
        note(RunStage::Discovering, "Discovering files"@, None, 0, 0, 0),
    ]
}

pub(crate) fn discover(config: RunConfig, platform: Platform) -> (r: (Run, Step))
    requires
        config.checkpoint_interval > 0,
    ensures
        r.0.wf(),
        r.0.config == config,
        r.0.platform == platform,
        discovers(r.0, r.1),
{
    let mut reports: Vec<ProgressUpdate> = Vec::new();
    assert(reported(reports@) =~= no_reports());
    add_report(
        &mut reports,
        RunStage::Discovering,
        "Discovering files".to_string(),
        None,
        0,
        0,
        0,
    );
    let ghost sent = reported(reports@);
    assert(sent =~= seq![sent[0]]);
    (
        Run { config, platform, phase: Phase::Discovering },
        Step { reports, action: Action::Discover },
    )
}

/// The candidates have come: saved data is asked for where the run resumes, and the scan
/// begins otherwise.
pub open spec fn takes_candidates(
    config: RunConfig,
    platform: Platform,
    candidates: Vec<String>,
    after: Run,
    step: Step,
) -> bool {
    let reports = seq![
        note(
            RunStage::Scanning,
            count_message("Found "@, candidates@.len() as int, " candidate files"@),
            Some(candidates@.len() as usize),
            0,
            0,
            0,
        ),
    ];
    if config.resume {
        &&& after.phase == (Phase::Listing { candidates })
        &&& step.action == Action::ListSaved
        &&& reported(step.reports@) == reports
    } else {
        begins_scan(
            config,
            platform,
            texts(candidates@),
            Seq::empty(),
            0,
            reports,
            after,
            step,
        )
    }
}

pub(crate) fn take_candidates(
    config: RunConfig,
    platform: Platform,
    candidates: Vec<String>,
) -> (r: (Run, Step))
    requires
        config.checkpoint_interval > 0,
    ensures
        r.0.wf(),
        r.0.config == config,
        r.0.platform == platform,
        takes_candidates(config, platform, candidates, r.0, r.1),
{
    let n: usize = candidates.len();
    let mut reports: Vec<ProgressUpdate> = Vec::new();
    assert(reported(reports@) =~= no_reports());
    add_report(
        &mut reports,
        RunStage::Scanning,
        count_line("Found ", n, " candidate files"),
        Some(n),
        0,
        0,
        0,
    );
    let ghost sent = reported(reports@);
    assert(sent =~= seq![sent[0]]);
    if config.resume {
        (
            Run { config, platform, phase: Phase::Listing { candidates } },
            Step { reports, action: Action::ListSaved },
        )
    } else {
        let files: Vec<FileInfo> = Vec::new();
        assert(files@ =~= Seq::empty());
        begin_scan(config, platform, &candidates, files, 0, reports)
    }
}

} // verus!
