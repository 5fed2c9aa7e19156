//! The start of a resumed scan: what saved data gives.
use vstd::prelude::*;
use vstd::string::*;

use crate::exchange::{Action, Failure, Step};
use crate::model::{records, reported, FileInfo, FileRecord, Platform, ProgressUpdate, RunConfig};
use crate::order::is_sorting;
use crate::resume::{
    checkpoint_entries, checkpoint_order, contents_of, is_first_fault, lemma_fault_loads_nothing,
    load_checkpoints, loaded_files, next_checkpoint_index, number_after, number_order,
};
use crate::stages::scanning::{begin_scan, begins_scan};
use crate::state::{halt, halts, no_reports, reject, rejects, Phase, Run};
use crate::table::{decode_files, is_table_error, saved_files};
use crate::text::{text_options, texts};

verus! {

/// The scan begins with the files that saved data holds.
pub open spec fn resumes_scan(
    config: RunConfig,
    platform: Platform,
    candidates: Seq<Seq<char>>,
    saved: Seq<FileRecord>,
    next_index: int,
    after: Run,
    step: Step,
) -> bool {
    exists|files: Seq<FileInfo>|
        records(files) == saved && #[trigger] begins_scan(
            config,
            platform,
            candidates,
            files,
            next_index,
            no_reports(),
            after,
            step,
        )
}

fn resume_scan(
    config: RunConfig,
    platform: Platform,
    candidates: &Vec<String>,
    files: Vec<FileInfo>,
    next_index: usize,
) -> (r: (Run, Step))
    requires
        config.checkpoint_interval > 0,
    ensures
        r.0.wf(),
        r.0.config == config,
        r.0.platform == platform,
        resumes_scan(
            config,
            platform,
            texts(candidates@),
            records(files@),
            next_index as int,
            r.0,
            r.1,
        ),
{
    let reports: Vec<ProgressUpdate> = Vec::new();
    let ghost loaded = files@;
    assert(reported(reports@) =~= no_reports());
    let r = begin_scan(config, platform, candidates, files, next_index, reports);
    proof {
        assert(begins_scan(
            config,
            platform,
            texts(candidates@),
            loaded,
            next_index as int,
            no_reports(),
            r.0,
            r.1,
        ));
    }
    r
}

/// The list of saved data has come: the table of all files is taken where there is one,
/// and the checkpoints, in the order of their numbers, where there is none.
pub open spec fn takes_saved(
    config: RunConfig,
    platform: Platform,
    candidates: Vec<String>,
    all_files: Option<Vec<u8>>,
    stems: Seq<Option<Seq<char>>>,
    after: Run,
    step: Step,
) -> bool {
    match all_files {
        Some(data) => match saved_files(data@) {
            Some(saved) => if number_after(stems) > usize::MAX {
                halts(no_reports(), after, step) && step.action == Action::Fail(
                    Failure::TooManyCheckpoints,
                )
            } else {
                resumes_scan(
                    config,
                    platform,
                    texts(candidates@),
                    saved,
                    number_after(stems),
                    after,
                    step,
                )
            },
            None => {
                &&& halts(no_reports(), after, step)
                &&& step.action matches Action::Fail(Failure::SavedData(e))
                &&& is_table_error(data@, e)
            },
        },
        None => if number_after(stems) > usize::MAX {
            halts(no_reports(), after, step) && step.action == Action::Fail(
                Failure::TooManyCheckpoints,
            )
        } else {
            &&& after.phase matches Phase::Loading { candidates: c, wanted, next_index }
            &&& c == candidates
            &&& next_index == number_after(stems)
            &&& step.action matches Action::ReadCheckpoints(entries)
            &&& is_sorting(entries@, checkpoint_entries(stems), number_order(stems))
            &&& wanted == entries@.len()
            &&& reported(step.reports@) == no_reports()
        },
    }
}

pub(crate) fn take_saved(
    config: RunConfig,
    platform: Platform,
    candidates: Vec<String>,
    all_files: Option<Vec<u8>>,
    stems: Vec<Option<String>>,
) -> (r: (Run, Step))
    requires
        config.checkpoint_interval > 0,
    ensures
        r.0.wf(),
        r.0.config == config,
        r.0.platform == platform,
        takes_saved(
            config,
            platform,
            candidates,
            all_files,
            text_options(stems@),
            r.0,
            r.1,
        ),
{
    let reports: Vec<ProgressUpdate> = Vec::new();
    assert(reported(reports@) =~= no_reports());
    match all_files {
        Some(data) => match decode_files(data.as_slice()) {
            Ok(files) => match next_checkpoint_index(&stems) {
                Some(next_index) => resume_scan(config, platform, &candidates, files, next_index),
                None => halt(config, platform, reports, Failure::TooManyCheckpoints),
            },
            Err(e) => halt(config, platform, reports, Failure::SavedData(e)),
        },
        None => match next_checkpoint_index(&stems) {
            Some(next_index) => {
                let entries = checkpoint_order(&stems);
                let wanted: usize = entries.len();
                (
                    Run {
                        config,
                        platform,
                        phase: Phase::Loading { candidates, wanted, next_index },
                    },
                    Step { reports, action: Action::ReadCheckpoints(entries) },
                )
            },
            None => halt(config, platform, reports, Failure::TooManyCheckpoints),
        },
    }
}

/// The contents of the checkpoints have come: the scan begins with the files in them.
pub open spec fn takes_checkpoints(
    config: RunConfig,
    platform: Platform,
    candidates: Seq<Seq<char>>,
    wanted: int,
    next_index: int,
    data: Seq<Seq<u8>>,
    after: Run,
    step: Step,
) -> bool {
    if data.len() != wanted {
        rejects(after, step)
    } else {
        match loaded_files(data) {
            Some(saved) => resumes_scan(
                config,
                platform,
                candidates,
                saved,
                next_index,
                after,
                step,
            ),
            None => {
                &&& halts(no_reports(), after, step)
                &&& step.action matches Action::Fail(Failure::SavedData(e))
                &&& exists|i: int| is_first_fault(data, i, e)
            },
        }
    }
}

pub(crate) fn take_checkpoints(
    config: RunConfig,
    platform: Platform,
    candidates: Vec<String>,
    wanted: usize,
    next_index: usize,
    data: Vec<Vec<u8>>,
) -> (r: (Run, Step))
    requires
        config.checkpoint_interval > 0,
    ensures
        r.0.wf(),
        r.0.config == config,
        r.0.platform == platform,
        takes_checkpoints(
            config,
            platform,
            texts(candidates@),
            wanted as int,
            next_index as int,
            contents_of(data@),
            r.0,
            r.1,
        ),
{
    if data.len() != wanted {
        return reject(config, platform);
    }
    match load_checkpoints(&data) {
        Ok(files) => resume_scan(config, platform, &candidates, files, next_index),
        Err(e) => {
            proof {
                let all = contents_of(data@);
                let i = choose|i: int| is_first_fault(all, i, e);
                lemma_fault_loads_nothing(all, i, e);
            }
            let reports: Vec<ProgressUpdate> = Vec::new();
            assert(reported(reports@) =~= no_reports());
            halt(config, platform, reports, Failure::SavedData(e))
        },
    }
}

} // verus!
