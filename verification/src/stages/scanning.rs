//! The scan of the candidates, in portions, each with its checkpoint.
use vstd::prelude::*;
use vstd::string::*;

use crate::exchange::{
    add_report, count_line, count_message, file_report, is_report, note, share_line, share_message,
    Action, Failure, Folder, Report, Step,
};
use crate::model::{
    reported, FileInfo, Platform, ProgressRecord, ProgressUpdate, RunConfig, RunStage,
};
use crate::rank::{is_path_sorted, path_sorted};
use crate::resume::{checkpoint_file, checkpoint_name};
use crate::scan::{
    collect_found, found, lemma_portion, next_portion, path_list, portion, remaining_candidates,
    unscanned,
};
use crate::stages::hashing::{begin_hashing, begins_hashing};
use crate::state::{halt, halts, no_reports, reject, rejects, Phase, Run, Scan, ScanRecord};
use crate::text::texts;

verus! {

/// The next portion of the candidates is looked at, or, where none is left, hashing
/// begins.
pub open spec fn continues_scan(
    config: RunConfig,
    platform: Platform,
    scan: ScanRecord,
    reports: Seq<ProgressRecord>,
    after: Run,
    step: Step,
) -> bool {
    if scan.done < scan.remaining.len() {
        &&& after.phase matches Phase::Scanning { scan: s }
        &&& s@ == scan
        &&& step.action matches Action::ReadMetadata(next)
        &&& next@ == portion(scan.remaining, scan.done, config.checkpoint_interval as int)
        &&& reported(step.reports@) == reports
    } else {
        begins_hashing(config, platform, scan.files, reports, after, step)
    }
}

fn continue_scan(
    config: RunConfig,
    platform: Platform,
    scan: Scan,
    reports: Vec<ProgressUpdate>,
) -> (r: (Run, Step))
    requires
        config.checkpoint_interval > 0,
        scan@.countable(),
        scan.done <= scan.remaining@.len(),
    ensures
        r.0.wf(),
        r.0.config == config,
        r.0.platform == platform,
        continues_scan(config, platform, scan@, reported(reports@), r.0, r.1),
{
    if scan.done < scan.remaining.len() {
        let next = next_portion(&scan.remaining, scan.done, config.checkpoint_interval);
        (
            Run { config, platform, phase: Phase::Scanning { scan } },
            Step { reports, action: Action::ReadMetadata(next) },
        )
    } else {
        begin_hashing(config, platform, scan.files, reports)
    }
}

/// The scan of `candidates` begins, where `files` are known already.
pub open spec fn begins_scan(
    config: RunConfig,
    platform: Platform,
    candidates: Seq<Seq<char>>,
    files: Seq<FileInfo>,
    next_index: int,
    reports: Seq<ProgressRecord>,
    after: Run,
    step: Step,
) -> bool {
    let already = path_list(files).to_set().len();
    let remaining = unscanned(candidates, files);
    if already + remaining.len() > usize::MAX {
        halts(reports, after, step) && step.action == Action::Fail(Failure::TooManyFiles)
    } else {
        continues_scan(
            config,
            platform,
            ScanRecord { remaining, done: 0, files, already: already as int, next_index },
            if already > 0 {
                reports.push(
                    note(
                        RunStage::Scanning,
                        count_message("Loaded "@, already as int, " files from saved scan data"@),
                        Some((already + remaining.len()) as usize),
                        already as int,
                        0,
                        0,
                    ),
                )
            } else {
                reports
            },
            after,
            step,
        )
    }
}

pub(crate) fn begin_scan(
    config: RunConfig,
    platform: Platform,
    candidates: &Vec<String>,
    files: Vec<FileInfo>,
    next_index: usize,
    reports: Vec<ProgressUpdate>,
) -> (r: (Run, Step))
    requires
        config.checkpoint_interval > 0,
    ensures
        r.0.wf(),
        r.0.config == config,
        r.0.platform == platform,
        begins_scan(
            config,
            platform,
            texts(candidates@),
            files@,
            next_index as int,
            reported(reports@),
            r.0,
            r.1,
        ),
{
    let mut reports = reports;
    let (already, remaining): (usize, Vec<usize>) = remaining_candidates(candidates, &files);
    let total: usize = match already.checked_add(remaining.len()) {
        Some(total) => total,
        None => {
            return halt(config, platform, reports, Failure::TooManyFiles);
        },
    };
    if already > 0 {
        add_report(
            &mut reports,
            RunStage::Scanning,
            count_line("Loaded ", already, " files from saved scan data"),
            Some(total),
            already,
            0,
            0,
        );
    }
    let scan = Scan { remaining, done: 0, files, already, next_index };
    continue_scan(config, platform, scan, reports)
}

/// The metadata of a portion has come: the files that were found are written to a
/// checkpoint, sorted by path.
pub open spec fn takes_metadata(
    config: RunConfig,
    platform: Platform,
    scan: ScanRecord,
    replies: Seq<Option<FileInfo>>,
    after: Run,
    step: Step,
) -> bool {
    let interval = config.checkpoint_interval as int;
    if replies.len() != portion(scan.remaining, scan.done, interval).len() {
        rejects(after, step)
    } else if found(replies).len() == 0 {
        continues_scan(
            config,
            platform,
            scan.advanced(interval, Seq::empty()),
            no_reports(),
            after,
            step,
        )
    } else if scan.next_index >= usize::MAX {
        halts(no_reports(), after, step) && step.action == Action::Fail(
            Failure::TooManyCheckpoints,
        )
    } else {
        &&& after.phase matches Phase::Checkpointing { scan: s, batch }
        &&& s@ == scan
        &&& is_path_sorted(batch@, found(replies))
        &&& step.action matches Action::Write(tables)
        &&& tables@.len() == 1
        &&& is_report(
            tables@[0],
            Folder::Checkpoints,
            checkpoint_file(scan.next_index),
            batch@,
        )
        &&& reported(step.reports@) == no_reports()
    }
}

pub(crate) fn take_metadata(
    config: RunConfig,
    platform: Platform,
    scan: Scan,
    replies: Vec<Option<FileInfo>>,
) -> (r: (Run, Step))
    requires
        config.checkpoint_interval > 0,
        scan@.countable(),
        scan.done < scan.remaining@.len(),
    ensures
        r.0.wf(),
        r.0.config == config,
        r.0.platform == platform,
        takes_metadata(config, platform, scan@, replies@, r.0, r.1),
{
    let ghost before = scan@;
    let next = next_portion(&scan.remaining, scan.done, config.checkpoint_interval);
    proof {
        lemma_portion(before.remaining, before.done, config.checkpoint_interval as int);
    }
    if replies.len() != next.len() {
        return reject(config, platform);
    }
    let reports: Vec<ProgressUpdate> = Vec::new();
    assert(reported(reports@) =~= no_reports());
    let some = collect_found(&replies);
    if some.len() == 0 {
        let mut scan = scan;
        scan.done = scan.done + next.len();
        assert(scan@ =~= before.advanced(config.checkpoint_interval as int, Seq::empty()));
        return continue_scan(config, platform, scan, reports);
    }
    if scan.next_index == usize::MAX {
        return halt(config, platform, reports, Failure::TooManyCheckpoints);
    }
    let batch = path_sorted(&some);
    let mut tables: Vec<Report> = Vec::new();
    tables.push(file_report(Folder::Checkpoints, checkpoint_name(scan.next_index), &batch));
    (
        Run { config, platform, phase: Phase::Checkpointing { scan, batch } },
        Step { reports, action: Action::Write(tables) },
    )
}

/// The larger of two numbers.
pub open spec fn larger(a: int, b: int) -> int {
    if a < b {
        b
    } else {
        a
    }
}

/// The report on a scan that has found `files`.
pub open spec fn indexing_note(scan: ScanRecord) -> ProgressRecord {
    note(
        RunStage::Scanning,
        share_message(
            "Indexed "@,
            scan.files.len() as int,
            larger(scan.files.len() as int, scan.remaining.len() as int),
            " files"@,
        ),
        Some((scan.already + scan.remaining.len()) as usize),
        scan.files.len() as int,
        0,
        0,
    )
}

/// The checkpoint of a portion is written: the scan goes on.
pub open spec fn saves_checkpoint(
    config: RunConfig,
    platform: Platform,
    scan: ScanRecord,
    batch: Seq<FileInfo>,
    after: Run,
    step: Step,
) -> bool {
    let next = scan.advanced(config.checkpoint_interval as int, batch);
    continues_scan(config, platform, next, seq![indexing_note(next)], after, step)
}

pub(crate) fn save_checkpoint(
    config: RunConfig,
    platform: Platform,
    scan: Scan,
    batch: Vec<FileInfo>,
) -> (r: (Run, Step))
    requires
        config.checkpoint_interval > 0,
        scan@.countable(),
        scan.done < scan.remaining@.len(),
        scan.next_index < usize::MAX,
        batch@.len() > 0,
    ensures
        r.0.wf(),
        r.0.config == config,
        r.0.platform == platform,
        saves_checkpoint(config, platform, scan@, batch@, r.0, r.1),
{
    let ghost before = scan@;
    let ghost new_files = batch@;
    let n: usize = scan.remaining.len();
    proof {
        lemma_portion(before.remaining, before.done, config.checkpoint_interval as int);
    }
    let next = next_portion(&scan.remaining, scan.done, config.checkpoint_interval);
    let mut scan = scan;
    let mut batch = batch;
    scan.files.append(&mut batch);
    scan.done = scan.done + next.len();
    scan.next_index = scan.next_index + 1;
    assert(scan@ =~= before.advanced(config.checkpoint_interval as int, new_files));
    let count: usize = scan.files.len();
    let shown: usize = if count < n {
        n
    } else {
        count
    };
    let mut reports: Vec<ProgressUpdate> = Vec::new();
    assert(reported(reports@) =~= no_reports());
    add_report(
        &mut reports,
        RunStage::Scanning,
        share_line("Indexed ", count, shown, " files"),
        Some(scan.already + n),
        count,
        0,
        0,
    );
    assert(reported(reports@) =~= seq![indexing_note(scan@)]);
    continue_scan(config, platform, scan, reports)
}

} // verus!
