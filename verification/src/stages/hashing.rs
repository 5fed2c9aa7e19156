//! From the finished scan to the last hash: fingerprints, then full hashes.
use vstd::prelude::*;
use vstd::string::*;

use crate::exchange::{
    add_report, note, sample_list, sample_views, samples_of, share_line, share_message, Action,
    Step,
};
use crate::model::{
    reported, FileInfo, Platform, ProgressRecord, ProgressUpdate, RunConfig, RunStage,
};
use crate::plan::is_hashed;
use crate::prefilter::{
    collect_full_hash_targets, full_hash_choice, lemma_choice_is_sorted, same_size_candidates,
    shares_size, unhashed_files,
};
use crate::scan::{
    assign_hashes, law_hashing_changes_only_hashes, lemma_portion, next_portion, paths_at, paths_of,
    portion, portion_end, with_hashes,
};
use crate::select::{ascending, lemma_ascending};
use crate::stages::planning::{begin_planning, begins_planning};
use crate::state::{has_same_size, no_reports, reject, rejects, Phase, Run};
use crate::text::texts;

verus! {

/// The next portion of `targets` is hashed, or, where none is left, planning begins.
pub open spec fn continues_hashing(
    config: RunConfig,
    platform: Platform,
    files: Seq<FileInfo>,
    targets: Seq<usize>,
    done: int,
    reports: Seq<ProgressRecord>,
    after: Run,
    step: Step,
) -> bool {
    if done < targets.len() {
        &&& after.phase matches Phase::Hashing { files: f, targets: t, done: d }
        &&& f@ == files
        &&& t@ == targets
        &&& d == done
        &&& step.action matches Action::Hash(paths)
        &&& texts(paths@) == paths_at(
            files,
            portion(targets, done, config.checkpoint_interval as int),
        )
        &&& reported(step.reports@) == reports
    } else {
        begins_planning(config, platform, files, reports, after, step)
    }
}

fn continue_hashing(
    config: RunConfig,
    platform: Platform,
    files: Vec<FileInfo>,
    targets: Vec<usize>,
    done: usize,
    reports: Vec<ProgressUpdate>,
) -> (r: (Run, Step))
    requires
        config.checkpoint_interval > 0,
        done <= targets@.len(),
        forall|k: int| 0 <= k < targets@.len() ==> #[trigger] targets@[k] < files@.len(),
        config.fast_prefilter ==> forall|k: int|
            0 <= k < targets@.len() ==> has_same_size(files@, #[trigger] targets@[k] as int),
    ensures
        r.0.wf(),
        r.0.config == config,
        r.0.platform == platform,
        continues_hashing(
            config,
            platform,
            files@,
            targets@,
            done as int,
            reported(reports@),
            r.0,
            r.1,
        ),
{
    let n: usize = files.len();
    if done < targets.len() {
        let next = next_portion(&targets, done, config.checkpoint_interval);
        proof {
            lemma_portion(targets@, done as int, config.checkpoint_interval as int);
        }
        let paths = paths_of(&files, &next);
        (
            Run { config, platform, phase: Phase::Hashing { files, targets, done } },
            Step { reports, action: Action::Hash(paths) },
        )
    } else {
        begin_planning(config, platform, files, reports)
    }
}

/// The full hashes of the files at `targets` are to be taken, where there are any.
pub open spec fn begins_full_hashes(
    config: RunConfig,
    platform: Platform,
    files: Seq<FileInfo>,
    targets: Seq<usize>,
    message: Seq<char>,
    reports: Seq<ProgressRecord>,
    after: Run,
    step: Step,
) -> bool {
    continues_hashing(
        config,
        platform,
        files,
        targets,
        0,
        if targets.len() > 0 {
            reports.push(
                note(RunStage::Hashing, message, Some(targets.len() as usize), 0, 0, 0),
            )
        } else {
            reports
        },
        after,
        step,
    )
}

fn begin_full_hashes(
    config: RunConfig,
    platform: Platform,
    files: Vec<FileInfo>,
    targets: Vec<usize>,
    message: &str,
    reports: Vec<ProgressUpdate>,
) -> (r: (Run, Step))
    requires
        config.checkpoint_interval > 0,
        forall|k: int| 0 <= k < targets@.len() ==> #[trigger] targets@[k] < files@.len(),
        config.fast_prefilter ==> forall|k: int|
            0 <= k < targets@.len() ==> has_same_size(files@, #[trigger] targets@[k] as int),
    ensures
        r.0.wf(),
        r.0.config == config,
        r.0.platform == platform,
        begins_full_hashes(
            config,
            platform,
            files@,
            targets@,
            message@,
            reported(reports@),
            r.0,
            r.1,
        ),
{
    let mut reports = reports;
    let n: usize = targets.len();
    if n > 0 {
        add_report(&mut reports, RunStage::Hashing, message.to_string(), Some(n), 0, 0, 0);
    }
    continue_hashing(config, platform, files, targets, 0, reports)
}

/// The fingerprints of the next portion of `targets` are taken, or, where none is left,
/// the files that share their fingerprint are hashed.
pub open spec fn continues_fingerprinting(
    config: RunConfig,
    platform: Platform,
    files: Seq<FileInfo>,
    targets: Seq<usize>,
    prints: Seq<Option<String>>,
    reports: Seq<ProgressRecord>,
    after: Run,
    step: Step,
) -> bool {
    if prints.len() < targets.len() {
        &&& after.phase matches Phase::Fingerprinting { files: f, targets: t, prints: p }
        &&& f@ == files
        &&& t@ == targets
        &&& p@ == prints
        &&& step.action matches Action::Fingerprint(samples)
        &&& sample_views(samples@) == sample_list(
            files,
            portion(targets, prints.len() as int, config.checkpoint_interval as int),
        )
        &&& reported(step.reports@) == reports
    } else {
        begins_full_hashes(
            config,
            platform,
            files,
            full_hash_choice(files, targets, prints),
            "Hashing fingerprint matches"@,
            reports,
            after,
            step,
        )
    }
}

proof fn lemma_sharing_files(files: Seq<FileInfo>, targets: Seq<usize>)
    requires
        files.len() <= usize::MAX,
        targets == ascending(files.len(), |i: int| shares_size(files, i)),
    ensures
        forall|j: int, k: int| 0 <= j < k < targets.len() ==> targets[j] < targets[k],
        forall|k: int|
            0 <= k < targets.len() ==> #[trigger] targets[k] < files.len() && has_same_size(
                files,
                targets[k] as int,
            ),
{
    let shares = |i: int| shares_size(files, i);
    lemma_ascending(files.len(), shares);
    assert forall|k: int| 0 <= k < targets.len() implies #[trigger] targets[k] < files.len()
        && has_same_size(files, targets[k] as int) by {
        assert(shares(targets[k] as int));
    }
}

fn continue_fingerprinting(
    config: RunConfig,
    platform: Platform,
    files: Vec<FileInfo>,
    targets: Vec<usize>,
    prints: Vec<Option<String>>,
    reports: Vec<ProgressUpdate>,
) -> (r: (Run, Step))
    requires
        config.checkpoint_interval > 0,
        config.fast_prefilter,
        targets@ == ascending(files@.len(), |i: int| shares_size(files@, i)),
        prints@.len() <= targets@.len(),
    ensures
        r.0.wf(),
        r.0.config == config,
        r.0.platform == platform,
        continues_fingerprinting(
            config,
            platform,
            files@,
            targets@,
            prints@,
            reported(reports@),
            r.0,
            r.1,
        ),
{
    let n: usize = files.len();
    proof {
        lemma_sharing_files(files@, targets@);
    }
    if prints.len() < targets.len() {
        let next = next_portion(&targets, prints.len(), config.checkpoint_interval);
        proof {
            lemma_portion(targets@, prints@.len() as int, config.checkpoint_interval as int);
        }
        let samples = samples_of(&files, &next);
        (
            Run { config, platform, phase: Phase::Fingerprinting { files, targets, prints } },
            Step { reports, action: Action::Fingerprint(samples) },
        )
    } else {
        let chosen = collect_full_hash_targets(&files, &targets, &prints);
        proof {
            lemma_choice_is_sorted(files@, targets@, prints@, chosen@);
            assert forall|k: int| 0 <= k < chosen@.len() implies has_same_size(
                files@,
                #[trigger] chosen@[k] as int,
            ) by {
                let m = choose|m: int| 0 <= m < targets@.len() && targets@[m] == chosen@[k];
                assert(has_same_size(files@, targets@[m] as int));
            }
        }
        begin_full_hashes(
            config,
            platform,
            files,
            chosen,
            "Hashing fingerprint matches",
            reports,
        )
    }
}

/// The hashes that are needed are taken: of every file, or, with the fast prefilter, of
/// those that share their size, and then their fingerprint, with another.
pub open spec fn begins_hashing(
    config: RunConfig,
    platform: Platform,
    files: Seq<FileInfo>,
    reports: Seq<ProgressRecord>,
    after: Run,
    step: Step,
) -> bool {
    if config.fast_prefilter {
        let targets = ascending(files.len(), |i: int| shares_size(files, i));
        if targets.len() == 0 {
            begins_planning(config, platform, files, reports, after, step)
        } else {
            continues_fingerprinting(
                config,
                platform,
                files,
                targets,
                Seq::empty(),
                reports.push(
                    note(
                        RunStage::Hashing,
                        "Fingerprinting same-size candidates"@,
                        Some(targets.len() as usize),
                        0,
                        0,
                        0,
                    ),
                ),
                after,
                step,
            )
        }
    } else {
        begins_full_hashes(
            config,
            platform,
            files,
            ascending(files.len(), |i: int| !is_hashed(files[i])),
            "Hashing all indexed files"@,
            reports,
            after,
            step,
        )
    }
}

pub(crate) fn begin_hashing(
    config: RunConfig,
    platform: Platform,
    files: Vec<FileInfo>,
    reports: Vec<ProgressUpdate>,
) -> (r: (Run, Step))
    requires
        config.checkpoint_interval > 0,
    ensures
        r.0.wf(),
        r.0.config == config,
        r.0.platform == platform,
        begins_hashing(config, platform, files@, reported(reports@), r.0, r.1),
{
    if config.fast_prefilter {
        let targets = same_size_candidates(&files);
        let n: usize = targets.len();
        if n == 0 {
            begin_planning(config, platform, files, reports)
        } else {
            let mut reports = reports;
            add_report(
                &mut reports,
                RunStage::Hashing,
                "Fingerprinting same-size candidates".to_string(),
                Some(n),
                0,
                0,
                0,
            );
            let prints: Vec<Option<String>> = Vec::new();
            assert(prints@ =~= Seq::empty());
            continue_fingerprinting(config, platform, files, targets, prints, reports)
        }
    } else {
        let targets = unhashed_files(&files);
        begin_full_hashes(config, platform, files, targets, "Hashing all indexed files", reports)
    }
}

/// The fingerprints of a portion have come.
pub open spec fn takes_prints(
    config: RunConfig,
    platform: Platform,
    files: Seq<FileInfo>,
    targets: Seq<usize>,
    prints: Seq<Option<String>>,
    replies: Seq<Option<String>>,
    after: Run,
    step: Step,
) -> bool {
    let asked = portion(targets, prints.len() as int, config.checkpoint_interval as int);
    let all = prints + replies;
    if replies.len() != asked.len() {
        rejects(after, step)
    } else {
        continues_fingerprinting(
            config,
            platform,
            files,
            targets,
            all,
            seq![
                note(
                    RunStage::Hashing,
                    share_message(
                        "Fingerprinted "@,
                        all.len() as int,
                        targets.len() as int,
                        " same-size candidates"@,
                    ),
                    Some(targets.len() as usize),
                    all.len() as int,
                    0,
                    0,
                ),
            ],
            after,
            step,
        )
    }
}

pub(crate) fn take_prints(
    config: RunConfig,
    platform: Platform,
    files: Vec<FileInfo>,
    targets: Vec<usize>,
    prints: Vec<Option<String>>,
    replies: Vec<Option<String>>,
) -> (r: (Run, Step))
    requires
        config.checkpoint_interval > 0,
        config.fast_prefilter,
        targets@ == ascending(files@.len(), |i: int| shares_size(files@, i)),
        prints@.len() < targets@.len(),
    ensures
        r.0.wf(),
        r.0.config == config,
        r.0.platform == platform,
        takes_prints(config, platform, files@, targets@, prints@, replies@, r.0, r.1),
{
    let asked = next_portion(&targets, prints.len(), config.checkpoint_interval);
    proof {
        lemma_portion(targets@, prints@.len() as int, config.checkpoint_interval as int);
    }
    if replies.len() != asked.len() {
        return reject(config, platform);
    }
    let total: usize = targets.len();
    let mut all = prints;
    let mut replies = replies;
    all.append(&mut replies);
    let mut reports: Vec<ProgressUpdate> = Vec::new();
    assert(reported(reports@) =~= no_reports());
    add_report(
        &mut reports,
        RunStage::Hashing,
        share_line("Fingerprinted ", all.len(), total, " same-size candidates"),
        Some(total),
        all.len(),
        0,
        0,
    );
    let ghost sent = reported(reports@);
    assert(sent =~= seq![sent[0]]);
    continue_fingerprinting(config, platform, files, targets, all, reports)
}

/// The hashes of a portion have come.
pub open spec fn takes_hashes(
    config: RunConfig,
    platform: Platform,
    files: Seq<FileInfo>,
    targets: Seq<usize>,
    done: int,
    replies: Seq<Option<String>>,
    after: Run,
    step: Step,
) -> bool {
    let interval = config.checkpoint_interval as int;
    let asked = portion(targets, done, interval);
    let hashed = portion_end(done, interval, targets.len() as int);
    if replies.len() != asked.len() {
        rejects(after, step)
    } else {
        continues_hashing(
            config,
            platform,
            with_hashes(files, asked, replies),
            targets,
            hashed,
            seq![
                note(
                    RunStage::Hashing,
                    share_message(
                        "Hashed "@,
                        hashed,
                        targets.len() as int,
                        " candidate files"@,
                    ),
                    Some(targets.len() as usize),
                    hashed,
                    0,
                    0,
                ),
            ],
            after,
            step,
        )
    }
}

/// Hashes leave the sizes as they are.
proof fn lemma_same_size_kept(
    files: Seq<FileInfo>,
    targets: Seq<usize>,
    hashes: Seq<Option<String>>,
    i: int,
)
    requires
        hashes.len() == targets.len(),
        forall|k: int| 0 <= k < targets.len() ==> #[trigger] targets[k] < files.len(),
        0 <= i < files.len(),
        has_same_size(files, i),
    ensures
        has_same_size(with_hashes(files, targets, hashes), i),
{
    let j = choose|j: int|
        0 <= j < files.len() && j != i && (#[trigger] files[j]).file_size == files[i].file_size;
    law_hashing_changes_only_hashes(files, targets, hashes, i);
    law_hashing_changes_only_hashes(files, targets, hashes, j);
    assert(with_hashes(files, targets, hashes)[j].file_size == files[j].file_size);
}

pub(crate) fn take_hashes(
    config: RunConfig,
    platform: Platform,
    files: Vec<FileInfo>,
    targets: Vec<usize>,
    done: usize,
    replies: Vec<Option<String>>,
) -> (r: (Run, Step))
    requires
        config.checkpoint_interval > 0,
        done < targets@.len(),
        forall|k: int| 0 <= k < targets@.len() ==> #[trigger] targets@[k] < files@.len(),
        config.fast_prefilter ==> forall|k: int|
            0 <= k < targets@.len() ==> has_same_size(files@, #[trigger] targets@[k] as int),
    ensures
        r.0.wf(),
        r.0.config == config,
        r.0.platform == platform,
        takes_hashes(config, platform, files@, targets@, done as int, replies@, r.0, r.1),
{
    let ghost before = files@;
    let asked = next_portion(&targets, done, config.checkpoint_interval);
    proof {
        lemma_portion(targets@, done as int, config.checkpoint_interval as int);
    }
    if replies.len() != asked.len() {
        return reject(config, platform);
    }
    let total: usize = targets.len();
    let hashed: usize = done + asked.len();
    let mut files = files;
    assign_hashes(&mut files, &asked, &replies);
    proof {
        if config.fast_prefilter {
            assert forall|k: int| 0 <= k < targets@.len() implies has_same_size(
                files@,
                #[trigger] targets@[k] as int,
            ) by {
                assert(has_same_size(before, targets@[k] as int));
                lemma_same_size_kept(before, asked@, replies@, targets@[k] as int);
            }
        }
    }
    let mut reports: Vec<ProgressUpdate> = Vec::new();
    assert(reported(reports@) =~= no_reports());
    add_report(
        &mut reports,
        RunStage::Hashing,
        share_line("Hashed ", hashed, total, " candidate files"),
        Some(total),
        hashed,
        0,
        0,
    );
    let ghost sent = reported(reports@);
    assert(sent =~= seq![sent[0]]);
    continue_hashing(config, platform, files, targets, hashed, reports)
}

} // verus!
