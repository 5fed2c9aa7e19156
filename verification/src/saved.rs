//! What the checkpoints of a scan hold.
use vstd::prelude::*;
use vstd::string::*;

use crate::exchange::{
    count_message, is_report, note, share_message, Action, Event, Folder, Report, Step,
};
use crate::history::{continues, is_history, planner_of, run_after, Moment};
use crate::model::{
    records, FileInfo, FileRecord, Platform, ProgressRecord, RunConfig, RunStage,
};
use crate::order::is_sorting;
use crate::plan::{is_hashed, Planner};
use crate::prefilter::{contested_indices, full_hash_choice, shares_size};
use crate::promises::law_every_run_ends;
use crate::rank::{is_path_sorted, lemma_path_sorted_length, path_order};
use crate::resume::{
    all_saved, checkpoint_file, contents_of, first_of_each, has_path, loaded_files,
};
use crate::run::follows;
use crate::scan::{
    found, law_hashing_changes_only_hashes, lemma_portion, path_list, portion, portion_end,
    unscanned, with_hashes, with_times,
};
use crate::select::{ascending, lemma_ascending_all, picked};
use crate::stages::hashing::{
    begins_full_hashes, begins_hashing, continues_fingerprinting, continues_hashing,
};
use crate::stages::planning::{
    begins_planning, continues_planning, planning_note, times_files,
};
use crate::stages::scanning::{begins_scan, continues_scan, indexing_note};
use crate::state::{no_reports, Phase, Run, ScanRecord};
use crate::table::saved_files;
use crate::text::texts;
use crate::truth::{
    awaits, bare, is_file_at, is_part, is_true_batch, is_true_of_scan, is_true_scan,
    is_true_scan_step, lemma_advanced, lemma_awaits, lemma_first_scan, lemma_true_batch,
    makes_sense, none_hashed, scan_holds, scans_truthfully, Listing,
};

verus! {

// ---------------------------------------------------------------------------
// What is written
// ---------------------------------------------------------------------------

/// The checkpoints that an action writes.
pub open spec fn checkpoints_in(action: Action) -> Seq<Report> {
    match action {
        Action::Write(tables) => if tables@.len() > 0 && tables@[0].folder == Folder::Checkpoints {
            tables@
        } else {
            Seq::empty()
        },
        _ => Seq::empty(),
    }
}

/// The checkpoints that are written in the first `n` steps, one after the other.
pub open spec fn written(history: Seq<Moment>, n: int) -> Seq<Report>
    decreases n,
{
    if n <= 0 {
        Seq::empty()
    } else {
        written(history, n - 1) + checkpoints_in(history[n - 1].step.action)
    }
}

/// The contents of a list of written files.
pub open spec fn data_of(reports: Seq<Report>) -> Seq<Seq<u8>> {
    Seq::new(reports.len(), |k: int| reports[k].data@)
}

/// The files of a list without their hashes.
pub open spec fn bares(files: Seq<FileInfo>) -> Seq<FileRecord> {
    Seq::new(files.len(), |i: int| bare(files[i]@))
}

proof fn lemma_unhashed_are_bare(files: Seq<FileInfo>)
    requires
        none_hashed(files),
    ensures
        records(files) == bares(files),
{
    assert forall|i: int| 0 <= i < files.len() implies records(files)[i] == bares(files)[i] by {
        assert(files[i]@.xxhash =~= Seq::empty());
        assert(bare(files[i]@) =~= files[i]@);
    }
    assert(records(files) =~= bares(files));
}

// ---------------------------------------------------------------------------
// From the scan to the plan
// ---------------------------------------------------------------------------

/// Whether a run goes on with the files `files`.
spec fn goes_on_with(run: Run, files: Seq<FileInfo>) -> bool {
    match run.phase {
        Phase::Fingerprinting { files: f, targets, prints } => f@ == files,
        Phase::Hashing { files: f, targets, done } => f@ == files,
        Phase::Timing { files: f, targets } => is_path_sorted(f@, files),
        _ => planner_of(run.phase) matches Some(planner) && is_path_sorted(planner.files@, files),
    }
}

proof fn lemma_planning_goes_on(
    config: RunConfig,
    platform: Platform,
    files: Seq<FileInfo>,
    reports: Seq<ProgressRecord>,
    after: Run,
    step: Step,
)
    requires
        begins_planning(config, platform, files, reports, after, step),
    ensures
        goes_on_with(after, files),
{
    let sent = reports.push(planning_note(files.len()));
    let sorted = choose|sorted: Seq<FileInfo>|
        is_path_sorted(sorted, files) && #[trigger] times_files(
            config,
            platform,
            sorted,
            sent,
            after,
            step,
        );
    let targets = contested_indices(sorted);
    if targets.len() == 0 {
        let fine = with_times(sorted.len(), targets, Seq::empty());
        let planner = choose|planner: Planner|
            #![trigger continues_planning(planner, sent, after, step)]
            planner.starts(sorted, fine, config.keep_rule@, platform) && continues_planning(
                planner,
                sent,
                after,
                step,
            );
        assert(planner_of(after.phase) == Some(planner));
    }
}

proof fn lemma_hashing_goes_on(
    config: RunConfig,
    platform: Platform,
    files: Seq<FileInfo>,
    targets: Seq<usize>,
    done: int,
    reports: Seq<ProgressRecord>,
    after: Run,
    step: Step,
)
    requires
        continues_hashing(config, platform, files, targets, done, reports, after, step),
    ensures
        goes_on_with(after, files),
{
    if done >= targets.len() {
        lemma_planning_goes_on(config, platform, files, reports, after, step);
    }
}

proof fn lemma_full_hashes_go_on(
    config: RunConfig,
    platform: Platform,
    files: Seq<FileInfo>,
    targets: Seq<usize>,
    message: Seq<char>,
    reports: Seq<ProgressRecord>,
    after: Run,
    step: Step,
)
    requires
        begins_full_hashes(config, platform, files, targets, message, reports, after, step),
    ensures
        goes_on_with(after, files),
{
    let sent = if targets.len() > 0 {
        reports.push(note(RunStage::Hashing, message, Some(targets.len() as usize), 0, 0, 0))
    } else {
        reports
    };
    lemma_hashing_goes_on(config, platform, files, targets, 0, sent, after, step);
}

proof fn lemma_fingerprinting_goes_on(
    config: RunConfig,
    platform: Platform,
    files: Seq<FileInfo>,
    targets: Seq<usize>,
    prints: Seq<Option<String>>,
    reports: Seq<ProgressRecord>,
    after: Run,
    step: Step,
)
    requires
        continues_fingerprinting(config, platform, files, targets, prints, reports, after, step),
    ensures
        goes_on_with(after, files),
{
    if prints.len() >= targets.len() {
        lemma_full_hashes_go_on(
            config,
            platform,
            files,
            full_hash_choice(files, targets, prints),
            "Hashing fingerprint matches"@,
            reports,
            after,
            step,
        );
    }
}

proof fn lemma_scanned_files_go_on(
    config: RunConfig,
    platform: Platform,
    files: Seq<FileInfo>,
    reports: Seq<ProgressRecord>,
    after: Run,
    step: Step,
)
    requires
        begins_hashing(config, platform, files, reports, after, step),
    ensures
        goes_on_with(after, files),
{
    if config.fast_prefilter {
        let targets = ascending(files.len(), |i: int| shares_size(files, i));
        if targets.len() == 0 {
            lemma_planning_goes_on(config, platform, files, reports, after, step);
        } else {
            assert(after.phase is Fingerprinting);
        }
    } else {
        lemma_full_hashes_go_on(
            config,
            platform,
            files,
            ascending(files.len(), |i: int| !is_hashed(files[i])),
            "Hashing all indexed files"@,
            reports,
            after,
            step,
        );
    }
}

// ---------------------------------------------------------------------------
// What is written is what was found
// ---------------------------------------------------------------------------

/// Lists with the same elements as often give such lists when each element is replaced.
proof fn lemma_replaced_alike<A, B>(s: Seq<A>, t: Seq<A>, f: spec_fn(A) -> B)
    requires
        s.to_multiset() == t.to_multiset(),
    ensures
        s.map_values(f).to_multiset() == t.map_values(f).to_multiset(),
    decreases s.len(),
{
    broadcast use vstd::seq_lib::group_to_multiset_ensures;
    broadcast use vstd::multiset::group_multiset_axioms;

    assert(s.len() == s.to_multiset().len());
    assert(t.len() == t.to_multiset().len());
    if s.len() == 0 {
        assert(s.map_values(f) =~= t.map_values(f));
    } else {
        let x = s[s.len() - 1];
        assert(s.contains(x));
        assert(s.to_multiset().count(x) > 0);
        assert(t.contains(x));
        let k = choose|k: int| 0 <= k < t.len() && t[k] == x;
        let a = s.remove(s.len() - 1);
        let b = t.remove(k);
        assert(a.to_multiset() =~= s.to_multiset().remove(x));
        assert(b.to_multiset() =~= t.to_multiset().remove(x));
        lemma_replaced_alike(a, b, f);
        let p = s.map_values(f);
        let q = t.map_values(f);
        assert(p.remove(s.len() - 1) =~= a.map_values(f));
        assert(q.remove(k) =~= b.map_values(f));
        assert(p.contains(p[s.len() - 1]) && q.contains(q[k]));
        assert(p.to_multiset() =~= a.map_values(f).to_multiset().insert(f(x)));
        assert(q.to_multiset() =~= b.map_values(f).to_multiset().insert(f(x)));
    }
}

/// Sorting changes no file.
proof fn lemma_sorted_bares(files: Seq<FileInfo>, sorted: Seq<FileInfo>)
    requires
        files.len() <= usize::MAX,
        is_path_sorted(sorted, files),
    ensures
        bares(sorted).to_multiset() == bares(files).to_multiset(),
{
    let every = |i: int| true;
    let all = ascending(files.len(), every);
    lemma_ascending_all(files.len(), every);
    let order = choose|order: Seq<usize>|
        is_sorting(order, all, path_order(files)) && sorted == #[trigger] picked(files, order);
    let f = |i: usize| bare(files[i as int]@);
    lemma_replaced_alike(order, all, f);
    assert(order.map_values(f) =~= bares(sorted));
    assert(all.map_values(f) =~= bares(files));
}

/// Whether `saved`, from `count` checkpoints, are the files that a run has found.
spec fn is_kept_in(run: Run, saved: Seq<FileRecord>, count: int) -> bool {
    match run.phase {
        Phase::Inspecting | Phase::Creating | Phase::Discovering => saved.len() == 0 && count == 0,
        Phase::Listing { .. } | Phase::Loading { .. } => false,
        Phase::Scanning { scan } => saved == bares(scan.files@) && count == scan.next_index,
        Phase::Checkpointing { scan, batch } => saved == bares(scan.files@) + bares(batch@)
            && count == scan.next_index + 1,
        Phase::Fingerprinting { files, targets, prints } => saved == bares(files@),
        Phase::Hashing { files, targets, done } => saved == bares(files@),
        Phase::Timing { files, targets } => saved.to_multiset() == bares(files@).to_multiset(),
        _ => planner_of(run.phase) matches Some(planner) ==> saved.to_multiset() == bares(
            planner.files@,
        ).to_multiset(),
    }
}

/// A run that goes on with the files that were saved has those that were saved.
proof fn lemma_kept_on(run: Run, files: Seq<FileInfo>, saved: Seq<FileRecord>, count: int)
    requires
        files.len() <= usize::MAX,
        goes_on_with(run, files),
        saved == bares(files),
    ensures
        is_kept_in(run, saved, count),
{
    match run.phase {
        Phase::Timing { files: f, targets } => {
            lemma_sorted_bares(files, f@);
        },
        _ => {
            if let Some(planner) = planner_of(run.phase) {
                lemma_sorted_bares(files, planner.files@);
            }
        },
    }
}

/// A list that a run goes on with fits into memory.
proof fn lemma_carried_files_fit(run: Run, files: Seq<FileInfo>)
    requires
        goes_on_with(run, files),
    ensures
        files.len() <= usize::MAX,
{
    match run.phase {
        Phase::Fingerprinting { files: f, targets, prints } => {
            assert(f.len() == files.len());
        },
        Phase::Hashing { files: f, targets, done } => {
            assert(f.len() == files.len());
        },
        Phase::Timing { files: f, targets } => {
            lemma_path_sorted_length(f@, files);
            assert(f.len() == files.len());
        },
        _ => {
            let planner = planner_of(run.phase)->0;
            lemma_path_sorted_length(planner.files@, files);
            assert(planner.files.len() == files.len());
        },
    }
}

/// A checkpoint is written exactly where the run then waits for it.
proof fn lemma_checkpoint_written(before: Run, m: Moment)
    requires
        before.wf(),
        continues(before, m),
    ensures
        m.run.phase !is Checkpointing ==> checkpoints_in(m.step.action) == Seq::<Report>::empty(),
        m.run.phase matches Phase::Checkpointing { scan, batch } ==> {
            let reports = checkpoints_in(m.step.action);
            &&& before.phase matches Phase::Scanning { scan: s } && s@ == scan@
            &&& reports.len() == 1
            &&& is_report(
                reports[0],
                Folder::Checkpoints,
                checkpoint_file(scan.next_index as int),
                batch@,
            )
        },
{
    reveal(follows);
    if let Phase::Checkpointing { scan, batch } = m.run.phase {
        assert(before.phase is Scanning);
        let s = before.phase->Scanning_scan;
        assert(s@.next_index == scan@.next_index);
    }
}

proof fn lemma_scan_kept(
    config: RunConfig,
    platform: Platform,
    scan: ScanRecord,
    reports: Seq<ProgressRecord>,
    after: Run,
    step: Step,
)
    requires
        continues_scan(config, platform, scan, reports, after, step),
    ensures
        is_kept_in(after, bares(scan.files), scan.next_index),
{
    if scan.done < scan.remaining.len() {
        let s = after.phase->Scanning_scan;
        assert(s@.files == scan.files && s@.next_index == scan.next_index);
    } else {
        lemma_scanned_files_go_on(config, platform, scan.files, reports, after, step);
        lemma_carried_files_fit(after, scan.files);
        lemma_kept_on(after, scan.files, bares(scan.files), scan.next_index);
    }
}

proof fn lemma_kept_in_scanning(before: Run, m: Moment, saved: Seq<FileRecord>, count: int)
    requires
        before.wf(),
        continues(before, m),
        is_kept_in(before, saved, count),
        before.phase is Scanning || before.phase is Checkpointing,
        m.run.phase !is Checkpointing,
    ensures
        is_kept_in(m.run, saved, count),
{
    reveal(follows);
    let interval = before.config.checkpoint_interval as int;
    match (before.phase, m.event) {
        (Phase::Scanning { scan }, Event::Metadata(replies)) => {
            let asked = portion(scan.remaining@, scan.done as int, interval);
            if replies@.len() == asked.len() && found(replies@).len() == 0 {
                let next = scan@.advanced(interval, Seq::empty());
                assert(next.files =~= scan.files@);
                lemma_scan_kept(
                    before.config,
                    before.platform,
                    next,
                    no_reports(),
                    m.run,
                    m.step,
                );
            }
        },
        (Phase::Checkpointing { scan, batch }, Event::Done) => {
            let next = scan@.advanced(interval, batch@);
            assert(bares(next.files) =~= bares(scan.files@) + bares(batch@));
            lemma_scan_kept(
                before.config,
                before.platform,
                next,
                seq![indexing_note(next)],
                m.run,
                m.step,
            );
        },
        _ => {},
    }
}

/// Hashing changes nothing but hashes.
proof fn lemma_hashed_bares(
    files: Seq<FileInfo>,
    targets: Seq<usize>,
    hashes: Seq<Option<String>>,
)
    requires
        files.len() > 0,
        hashes.len() == targets.len(),
        forall|k: int| 0 <= k < targets.len() ==> #[trigger] targets[k] < files.len(),
    ensures
        bares(with_hashes(files, targets, hashes)) == bares(files),
{
    law_hashing_changes_only_hashes(files, targets, hashes, 0);
    let next = with_hashes(files, targets, hashes);
    assert forall|i: int| 0 <= i < files.len() implies bares(next)[i] == bares(files)[i] by {
        law_hashing_changes_only_hashes(files, targets, hashes, i);
        assert(bare(next[i]@) =~= bare(files[i]@));
    }
    assert(bares(next) =~= bares(files));
}

proof fn lemma_kept_in_hashing(before: Run, m: Moment, saved: Seq<FileRecord>, count: int)
    requires
        before.wf(),
        continues(before, m),
        is_kept_in(before, saved, count),
        before.phase is Fingerprinting || before.phase is Hashing,
    ensures
        is_kept_in(m.run, saved, count),
{
    reveal(follows);
    let interval = before.config.checkpoint_interval as int;
    match (before.phase, m.event) {
        (Phase::Fingerprinting { files, targets, prints }, Event::Prints(replies)) => {
            let asked = portion(targets@, prints@.len() as int, interval);
            let all = prints@ + replies@;
            if replies@.len() == asked.len() {
                let sent = seq![
                    note(
                        RunStage::Hashing,
                        share_message(
                            "Fingerprinted "@,
                            all.len() as int,
                            targets@.len() as int,
                            " same-size candidates"@,
                        ),
                        Some(targets@.len() as usize),
                        all.len() as int,
                        0,
                        0,
                    ),
                ];
                lemma_fingerprinting_goes_on(
                    before.config,
                    before.platform,
                    files@,
                    targets@,
                    all,
                    sent,
                    m.run,
                    m.step,
                );
                lemma_kept_on(m.run, files@, saved, count);
            }
        },
        (Phase::Hashing { files, targets, done }, Event::Hashes(replies)) => {
            let asked = portion(targets@, done as int, interval);
            lemma_portion(targets@, done as int, interval);
            if replies@.len() == asked.len() {
                let hashed = portion_end(done as int, interval, targets@.len() as int);
                let sent = seq![
                    note(
                        RunStage::Hashing,
                        share_message(
                            "Hashed "@,
                            hashed,
                            targets@.len() as int,
                            " candidate files"@,
                        ),
                        Some(targets@.len() as usize),
                        hashed,
                        0,
                        0,
                    ),
                ];
                let next = with_hashes(files@, asked, replies@);
                assert(targets@[done as int] < files@.len());
                assert forall|k: int| 0 <= k < asked.len() implies #[trigger] asked[k]
                    < files@.len() by {
                    assert(asked[k] == targets@[done + k]);
                }
                lemma_hashed_bares(files@, asked, replies@);
                lemma_hashing_goes_on(
                    before.config,
                    before.platform,
                    next,
                    targets@,
                    hashed,
                    sent,
                    m.run,
                    m.step,
                );
                lemma_carried_files_fit(m.run, next);
                lemma_kept_on(m.run, next, saved, count);
            }
        },
        _ => {},
    }
}

proof fn lemma_kept_in_planning(before: Run, m: Moment, saved: Seq<FileRecord>, count: int)
    requires
        before.wf(),
        continues(before, m),
        is_kept_in(before, saved, count),
        before.phase is Timing || planner_of(before.phase) is Some || before.phase is Ended,
    ensures
        is_kept_in(m.run, saved, count),
{
    reveal(follows);
    match (before.phase, m.event) {
        (Phase::Timing { files, targets }, Event::Times(replies)) => {
            if replies@.len() == targets@.len() {
                let fine = with_times(files@.len(), targets@, replies@);
                let planner = choose|planner: Planner|
                    #![trigger continues_planning(planner, no_reports(), m.run, m.step)]
                    planner.starts(files@, fine, before.config.keep_rule@, before.platform)
                        && continues_planning(planner, no_reports(), m.run, m.step);
                assert(planner_of(m.run.phase) == Some(planner));
            }
        },
        (Phase::Comparing { planner }, Event::Compared(identical)) => {
            let next = choose|next: Planner|
                next.takes(planner, identical, before.config.keep_rule@, before.platform)
                    && #[trigger] continues_planning(next, no_reports(), m.run, m.step);
            assert(planner_of(m.run.phase) == Some(next));
        },
        _ => {},
    }
}

proof fn lemma_kept_before_scanning(before: Run, m: Moment, saved: Seq<FileRecord>, count: int)
    requires
        before.wf(),
        !before.config.resume,
        continues(before, m),
        is_kept_in(before, saved, count),
        before.phase is Inspecting || before.phase is Creating || before.phase is Discovering,
    ensures
        is_kept_in(m.run, saved, count),
{
    reveal(follows);
    if let (Phase::Discovering, Event::Candidates(candidates)) = (before.phase, m.event) {
        let files = Seq::<FileInfo>::empty();
        let all = texts(candidates@);
        let already = path_list(files).to_set().len();
        assert(path_list(files) =~= Seq::empty());
        assert(path_list(files).to_set() =~= Set::<Seq<char>>::empty());
        let remaining = unscanned(all, files);
        let sent = seq![
            note(
                RunStage::Scanning,
                count_message("Found "@, candidates@.len() as int, " candidate files"@),
                Some(candidates@.len() as usize),
                0,
                0,
                0,
            ),
        ];
        assert(begins_scan(
            before.config,
            before.platform,
            all,
            files,
            0,
            sent,
            m.run,
            m.step,
        ));
        if already + remaining.len() <= usize::MAX {
            let scan = ScanRecord { remaining, done: 0, files, already: 0, next_index: 0 };
            lemma_scan_kept(before.config, before.platform, scan, sent, m.run, m.step);
            assert(bares(files) =~= saved);
        }
    }
}

// ---------------------------------------------------------------------------
// What was found is what there is
// ---------------------------------------------------------------------------

proof fn lemma_scan_goes_on(
    listing: Listing,
    config: RunConfig,
    platform: Platform,
    scan: ScanRecord,
    reports: Seq<ProgressRecord>,
    after: Run,
    step: Step,
)
    requires
        continues_scan(config, platform, scan, reports, after, step),
        is_true_scan(listing, scan),
    ensures
        scan_holds(listing, after),
{
    if scan.done >= scan.remaining.len() {
        lemma_scanned_files_go_on(config, platform, scan.files, reports, after, step);
    }
}

/// What a scan knows stays true with each true reply.
proof fn lemma_scan_stays_true(listing: Listing, before: Run, m: Moment, asked: Action)
    requires
        makes_sense(listing),
        before.wf(),
        !before.config.resume,
        continues(before, m),
        before.phase !is Listing,
        before.phase !is Loading,
        awaits(before, asked),
        is_true_of_scan(listing, asked, m.event),
        scan_holds(listing, before),
    ensures
        scan_holds(listing, m.run),
{
    reveal(awaits);
    reveal(follows);
    let config = before.config;
    let platform = before.platform;
    let interval = config.checkpoint_interval as int;
    match (before.phase, m.event) {
        (Phase::Discovering, Event::Candidates(candidates)) => {
            lemma_first_scan_holds(listing, before, m, candidates);
        },
        (Phase::Scanning { scan }, Event::Metadata(replies)) => {
            lemma_portion(scan.remaining@, scan.done as int, interval);
            if found(replies@).len() == 0 {
                let none = Seq::<FileInfo>::empty();
                lemma_true_batch(listing, scan@, interval, replies@, none);
                lemma_advanced(listing, scan@, interval, none);
                lemma_scan_goes_on(
                    listing,
                    config,
                    platform,
                    scan@.advanced(interval, none),
                    no_reports(),
                    m.run,
                    m.step,
                );
            } else if scan.next_index < usize::MAX {
                let batch = m.run.phase->Checkpointing_batch;
                lemma_true_batch(listing, scan@, interval, replies@, batch@);
            }
        },
        (Phase::Checkpointing { scan, batch }, Event::Done) => {
            lemma_advanced(listing, scan@, interval, batch@);
            let next = scan@.advanced(interval, batch@);
            lemma_scan_goes_on(
                listing,
                config,
                platform,
                next,
                seq![indexing_note(next)],
                m.run,
                m.step,
            );
        },
        _ => {
            if before.phase !is Ended {
                law_every_run_ends(before, m.event, m.run, m.step);
            }
        },
    }
}

proof fn lemma_first_scan_holds(
    listing: Listing,
    before: Run,
    m: Moment,
    candidates: Vec<String>,
)
    requires
        makes_sense(listing),
        before.wf(),
        !before.config.resume,
        continues(before, m),
        before.phase is Discovering,
        m.event == Event::Candidates(candidates),
        texts(candidates@) == listing.candidates,
    ensures
        scan_holds(listing, m.run),
{
    reveal(follows);
    let files = Seq::<FileInfo>::empty();
    let all = texts(candidates@);
    assert(all.len() == candidates.len());
    let already = path_list(files).to_set().len();
    assert(path_list(files) =~= Seq::empty());
    assert(records(files) =~= Seq::empty());
    assert(path_list(files).to_set() =~= Set::<Seq<char>>::empty());
    let remaining = unscanned(all, files);
    let sent = seq![
        note(
            RunStage::Scanning,
            count_message("Found "@, candidates@.len() as int, " candidate files"@),
            Some(candidates@.len() as usize),
            0,
            0,
            0,
        ),
    ];
    assert(begins_scan(before.config, before.platform, all, files, 0, sent, m.run, m.step));
    if already + remaining.len() <= usize::MAX {
        let scan = ScanRecord { remaining, done: 0, files, already: 0, next_index: 0 };
        lemma_first_scan(listing, scan);
        lemma_scan_goes_on(
            listing,
            before.config,
            before.platform,
            scan,
            sent,
            m.run,
            m.step,
        );
    }
}

/// Whether saved files are among those that there are to scan, each path once.
spec fn is_true_part(listing: Listing, saved: Seq<FileRecord>) -> bool {
    &&& is_part(listing, saved)
    &&& forall|i: int, j: int|
        0 <= i < j < saved.len() ==> (#[trigger] saved[i]).file_path != (
        #[trigger] saved[j]).file_path
}

/// What is saved with one more portion is among what there is to scan.
proof fn lemma_batch_is_part(
    listing: Listing,
    scan: ScanRecord,
    interval: int,
    batch: Seq<FileInfo>,
)
    requires
        makes_sense(listing),
        interval > 0,
        0 <= scan.done < scan.remaining.len(),
        is_true_scan(listing, scan),
        is_true_batch(listing, scan, interval, batch),
    ensures
        is_true_part(listing, bares(scan.files) + bares(batch)),
{
    lemma_advanced(listing, scan, interval, batch);
    let files = scan.advanced(interval, batch).files;
    let saved = bares(scan.files) + bares(batch);
    let paths = path_list(files);
    assert(saved =~= bares(files));
    assert forall|i: int| 0 <= i < saved.len() implies (listing.metadata)(
        (#[trigger] saved[i]).file_path,
    ) == Some(saved[i]) && listing.candidates.contains(saved[i].file_path) by {
        assert(is_file_at(listing, listing.candidates, files[i]));
        assert(saved[i] == bare(files[i]@));
    }
    assert forall|i: int, j: int| 0 <= i < j < saved.len() implies (#[trigger] saved[i]).file_path
        != (#[trigger] saved[j]).file_path by {
        assert(paths[i] != paths[j]);
        assert(saved[i] == bare(files[i]@) && saved[j] == bare(files[j]@));
    }
}

/// What is saved after one more step.
proof fn lemma_kept_in_one_step(
    listing: Listing,
    before: Run,
    m: Moment,
    saved: Seq<FileRecord>,
    count: int,
)
    requires
        makes_sense(listing),
        before.wf(),
        !before.config.resume,
        continues(before, m),
        scan_holds(listing, m.run),
        is_kept_in(before, saved, count),
    ensures
        m.run.phase !is Checkpointing ==> is_kept_in(m.run, saved, count),
        m.run.phase matches Phase::Checkpointing { scan, batch } ==> {
            &&& is_kept_in(m.run, saved + records(batch@), count + 1)
            &&& is_true_part(listing, saved + records(batch@))
            &&& count == scan.next_index
        },
{
    lemma_checkpoint_written(before, m);
    if let Phase::Checkpointing { scan, batch } = m.run.phase {
        let s = before.phase->Scanning_scan;
        assert(s@.files == scan@.files && s@.next_index == scan@.next_index);
        lemma_unhashed_are_bare(batch@);
        lemma_batch_is_part(
            listing,
            scan@,
            m.run.config.checkpoint_interval as int,
            batch@,
        );
    } else {
        match before.phase {
            Phase::Inspecting | Phase::Creating | Phase::Discovering => {
                lemma_kept_before_scanning(before, m, saved, count);
            },
            Phase::Listing { .. } | Phase::Loading { .. } => {},
            Phase::Scanning { .. } | Phase::Checkpointing { .. } => {
                lemma_kept_in_scanning(before, m, saved, count);
            },
            Phase::Fingerprinting { .. } | Phase::Hashing { .. } => {
                lemma_kept_in_hashing(before, m, saved, count);
            },
            _ => {
                lemma_kept_in_planning(before, m, saved, count);
            },
        }
    }
}

/// Whether the checkpoints written so far are numbered from zero on, and hold what a run has
/// found, which is among what there is.
#[verifier::opaque]
spec fn holds_the_scan(listing: Listing, run: Run, reports: Seq<Report>) -> bool {
    &&& scan_holds(listing, run)
    &&& forall|k: int|
        0 <= k < reports.len() ==> (#[trigger] reports[k]).name@ == checkpoint_file(k)
    &&& all_saved(data_of(reports)) matches Some(saved) && is_kept_in(
        run,
        saved,
        reports.len() as int,
    ) && is_true_part(listing, saved)
}

proof fn lemma_scan_is_held(listing: Listing, start: Run, history: Seq<Moment>, n: int)
    requires
        makes_sense(listing),
        is_history(start, history),
        scans_truthfully(listing, history),
        !start.config.resume,
        0 <= n <= history.len(),
    ensures
        run_after(start, history, n).wf(),
        run_after(start, history, n).config == start.config,
        n > 0 ==> awaits(run_after(start, history, n), history[n - 1].step.action),
        holds_the_scan(listing, run_after(start, history, n), written(history, n)),
    decreases n,
{
    if n > 0 {
        lemma_scan_is_held(listing, start, history, n - 1);
        let before = run_after(start, history, n - 1);
        let m = history[n - 1];
        assert(continues(before, m));
        lemma_awaits(before, m);
        let asked = if n == 1 {
            Action::InspectOutputDir
        } else {
            history[n - 2].step.action
        };
        if n == 1 {
            assert(awaits(before, asked)) by {
                reveal(awaits);
            }
        } else {
            assert(is_true_scan_step(listing, history, n - 1));
        }
        lemma_held_in_one_step(listing, before, m, asked, written(history, n - 1));
    } else {
        reveal(holds_the_scan);
        assert(data_of(written(history, n)) =~= Seq::empty());
    }
}

proof fn lemma_held_in_one_step(
    listing: Listing,
    before: Run,
    m: Moment,
    asked: Action,
    reports: Seq<Report>,
)
    requires
        makes_sense(listing),
        before.wf(),
        !before.config.resume,
        continues(before, m),
        awaits(before, asked),
        is_true_of_scan(listing, asked, m.event),
        holds_the_scan(listing, before, reports),
    ensures
        holds_the_scan(listing, m.run, reports + checkpoints_in(m.step.action)),
{
    reveal(holds_the_scan);
    let saved = all_saved(data_of(reports))->0;
    let count = reports.len() as int;
    let new = checkpoints_in(m.step.action);
    let all = reports + new;
    lemma_checkpoint_written(before, m);
    lemma_scan_stays_true(listing, before, m, asked);
    lemma_kept_in_one_step(listing, before, m, saved, count);
    if m.run.phase is Checkpointing {
        let batch = m.run.phase->Checkpointing_batch;
        let data = data_of(all);
        assert(data.drop_last() =~= data_of(reports));
        assert(data.last() == new[0].data@);
        assert(saved_files(data.last()) == Some(records(batch@)));
        assert(all_saved(data) == Some(saved + records(batch@)));
        assert forall|k: int| 0 <= k < all.len() implies (#[trigger] all[k]).name@
            == checkpoint_file(k) by {
            if k < count {
                assert(all[k] == reports[k]);
            } else {
                assert(all[k] == new[0]);
            }
        }
    } else {
        assert(all =~= reports);
    }
}

/// Where no path comes twice, the first of each path are all.
proof fn lemma_first_of_each_is_all(files: Seq<FileRecord>)
    requires
        forall|i: int, j: int|
            0 <= i < j < files.len() ==> (#[trigger] files[i]).file_path != (
            #[trigger] files[j]).file_path,
    ensures
        first_of_each(files) == files,
    decreases files.len(),
{
    if files.len() > 0 {
        let before = files.drop_last();
        assert forall|i: int, j: int| 0 <= i < j < before.len() implies (
        #[trigger] before[i]).file_path != (#[trigger] before[j]).file_path by {
            assert(files[i].file_path != files[j].file_path);
        }
        lemma_first_of_each_is_all(before);
        if has_path(before, files.last().file_path) {
            let i = choose|i: int|
                0 <= i < before.len() && (#[trigger] before[i]).file_path
                    == files.last().file_path;
            assert(files[i].file_path != files[files.len() - 1].file_path);
        }
        assert(files =~= before.push(files.last()));
    } else {
        assert(files =~= Seq::empty());
    }
}

/// Checkpoints let a run be resumed: those that a scan writes are numbered from zero on, and in
/// the order of their numbers they load back as exactly the files that it found, each once and
/// none hashed. Nothing but what there is to scan need be told truly: it does not matter whether
/// files can be hashed later on.
pub proof fn law_checkpoints_hold_the_scan(
    listing: Listing,
    start: Run,
    history: Seq<Moment>,
    n: int,
)
    requires
        makes_sense(listing),
        is_history(start, history),
        scans_truthfully(listing, history),
        !start.config.resume,
        0 <= n <= history.len(),
        planner_of(run_after(start, history, n).phase) is Some,
    ensures
        ({
            let reports = written(history, n);
            let planner = planner_of(run_after(start, history, n).phase)->0;
            &&& forall|k: int|
                0 <= k < reports.len() ==> (#[trigger] reports[k]).name@ == checkpoint_file(k)
            &&& loaded_files(data_of(reports)) matches Some(files) && files.to_multiset() == bares(
                planner.files@,
            ).to_multiset()
        }),
{
    lemma_scan_is_held(listing, start, history, n);
    reveal(holds_the_scan);
    lemma_first_of_each_is_all(all_saved(data_of(written(history, n)))->0);
}

/// A scan can be taken up wherever it was interrupted: at every step of a run that scans anew,
/// the checkpoints that it has written load back, and what they hold is among what there is to
/// scan, as it is. So a run that resumes from them is told the truth. During the scan they hold
/// all that has been found.
pub proof fn law_interrupted_scan_can_be_taken_up(
    listing: Listing,
    start: Run,
    history: Seq<Moment>,
    n: int,
    entries: Vec<usize>,
    data: Vec<Vec<u8>>,
)
    requires
        makes_sense(listing),
        is_history(start, history),
        scans_truthfully(listing, history),
        !start.config.resume,
        0 <= n <= history.len(),
        contents_of(data@) == data_of(written(history, n)),
    ensures
        is_true_of_scan(listing, Action::ReadCheckpoints(entries), Event::CheckpointData(data)),
        run_after(start, history, n).phase matches Phase::Scanning { scan } ==> loaded_files(
            data_of(written(history, n)),
        ) == Some(records(scan.files@)),
{
    lemma_scan_is_held(listing, start, history, n);
    reveal(holds_the_scan);
    lemma_first_of_each_is_all(all_saved(data_of(written(history, n)))->0);
    if let Phase::Scanning { scan } = run_after(start, history, n).phase {
        lemma_unhashed_are_bare(scan.files@);
    }
}

} // verus!
