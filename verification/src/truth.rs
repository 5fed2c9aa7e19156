//! Runs that are told the truth: what the replies come to where each of them says how things
//! are.
use vstd::prelude::*;
use vstd::string::*;

use crate::exchange::{
    count_message, note, sample_list, sample_views, share_message, Action, Event, Step,
};
use crate::hashing::{content_hash, fingerprint_of, law_content_hash_is_not_empty};
use crate::history::{
    continues, has_distinct_paths, is_history, planner_of, run_after, Moment,
};
use crate::model::{
    records, FileInfo, FileRecord, FineTimes, Platform, ProgressRecord, RunConfig, RunStage,
};
use crate::plan::{is_hashed, Planner};
use crate::prefilter::{
    chosen, contested_indices, full_hash_choice, is_contested, shares_print, shares_size,
};
use crate::rank::{is_by_path, is_path_sorted, lemma_path_sorted, lemma_path_sorted_length};
use crate::resume::{
    all_saved, contents_of, law_each_path_is_loaded_once, loaded_files, number_after,
};
use crate::run::follows;
use crate::scan::{
    found, law_hashing_changes_only_hashes, lemma_portion, path_list, paths_at, portion,
    portion_end, unscanned, whole_seconds, with_hashes, with_times,
};
use crate::select::{ascending, lemma_ascending};
use crate::stages::hashing::{
    begins_full_hashes, begins_hashing, continues_fingerprinting, continues_hashing,
};
use crate::stages::planning::{
    begins_planning, continues_planning, planning_note, starts_planning, times_files,
};
use crate::stages::resuming::resumes_scan;
use crate::stages::scanning::{begins_scan, continues_scan, indexing_note};
use crate::state::{no_reports, Phase, Run, ScanRecord};
use crate::table::saved_files;
use crate::text::{text_option, text_options, texts};

verus! {

// ---------------------------------------------------------------------------
// True replies
// ---------------------------------------------------------------------------

/// What there is to scan: the paths of the candidates, and for each path the file there, not
/// hashed yet, where it can be read.
pub struct Listing {
    pub candidates: Seq<Seq<char>>,
    pub metadata: spec_fn(Seq<char>) -> Option<FileRecord>,
}

/// How things are: the contents of the file at each path, by how much its times are past the
/// whole seconds, and, where it is claimed to be known, what there is to scan. Where it is, a
/// run that resumes has no saved data but checkpoints.
pub struct Truth {
    pub contents: spec_fn(Seq<char>) -> Seq<u8>,
    pub times: spec_fn(Seq<char>) -> FineTimes,
    pub listing: Option<Listing>,
}

/// What a reply on a candidate says.
pub open spec fn record_option(reply: Option<FileInfo>) -> Option<FileRecord> {
    match reply {
        Some(file) => Some(file@),
        None => None,
    }
}

/// Whether saved files are among those that there are to scan.
pub open spec fn is_part(listing: Listing, saved: Seq<FileRecord>) -> bool {
    forall|i: int|
        0 <= i < saved.len() ==> {
            &&& (listing.metadata)((#[trigger] saved[i]).file_path) == Some(saved[i])
            &&& listing.candidates.contains(saved[i].file_path)
        }
}

/// Whether what a run is `told` of what there is to scan, in reply to what it `asked` for, is so
/// and complete.
pub open spec fn is_true_of_scan(listing: Listing, asked: Action, told: Event) -> bool {
    match (asked, told) {
        (Action::Discover, Event::Candidates(candidates)) => texts(candidates@)
            == listing.candidates,
        (Action::ListSaved, Event::Saved { all_files, stems }) => all_files is None,
        (Action::ReadCheckpoints(entries), Event::CheckpointData(data)) => loaded_files(
            contents_of(data@),
        ) matches Some(saved) && is_part(listing, saved),
        (Action::ReadMetadata(wanted), Event::Metadata(replies)) => {
            &&& replies@.len() == wanted@.len()
            &&& forall|k: int|
                0 <= k < wanted@.len() ==> record_option(#[trigger] replies@[k]) == (
                listing.metadata)(listing.candidates[wanted@[k] as int])
        },
        _ => true,
    }
}

/// Whether what a run is `told` of the files themselves, in reply to what it `asked` for, is so
/// and complete.
pub open spec fn is_true_of_files(truth: Truth, asked: Action, told: Event) -> bool {
    match (asked, told) {
        (Action::Fingerprint(samples), Event::Prints(prints)) => {
            &&& prints@.len() == samples@.len()
            &&& forall|k: int|
                0 <= k < samples@.len() ==> text_option(#[trigger] prints@[k]) == Some(
                    fingerprint_of((truth.contents)(samples@[k].path@)),
                )
        },
        (Action::Hash(paths), Event::Hashes(hashes)) => {
            &&& hashes@.len() == paths@.len()
            &&& forall|k: int|
                0 <= k < paths@.len() ==> text_option(#[trigger] hashes@[k]) == Some(
                    content_hash((truth.contents)(paths@[k]@)),
                )
        },
        (Action::ReadTimes(paths), Event::Times(times)) => {
            &&& times@.len() == paths@.len()
            &&& forall|k: int|
                0 <= k < paths@.len() ==> #[trigger] times@[k] == Some(
                    (truth.times)(paths@[k]@),
                )
        },
        (Action::Compare { left, right }, Event::Compared(identical)) => identical == ((
        truth.contents)(left@) == (truth.contents)(right@)),
        _ => true,
    }
}

/// Whether what a run is `told` in reply to what it `asked` for is so, and complete.
pub open spec fn is_true_reply(truth: Truth, asked: Action, told: Event) -> bool {
    &&& truth.listing matches Some(listing) ==> is_true_of_scan(listing, asked, told)
    &&& is_true_of_files(truth, asked, told)
}

/// Whether the reply in step `t` of a history, to what was asked for before, is true.
pub open spec fn is_true_step(truth: Truth, history: Seq<Moment>, t: int) -> bool {
    is_true_reply(truth, history[t - 1].step.action, history[t].event)
}

/// Whether every reply in a history is true.
pub open spec fn is_truthful(truth: Truth, history: Seq<Moment>) -> bool {
    forall|t: int| 1 <= t < history.len() ==> #[trigger] is_true_step(truth, history, t)
}

/// Whether the reply in step `t` of a history, where it is about what there is to scan, is true.
pub open spec fn is_true_scan_step(listing: Listing, history: Seq<Moment>, t: int) -> bool {
    is_true_of_scan(listing, history[t - 1].step.action, history[t].event)
}

/// Whether every reply in a history on what there is to scan is true. Nothing is claimed of the
/// fingerprints, hashes, times and comparisons.
pub open spec fn scans_truthfully(listing: Listing, history: Seq<Moment>) -> bool {
    forall|t: int| 1 <= t < history.len() ==> #[trigger] is_true_scan_step(listing, history, t)
}

/// Whether what there is to scan makes sense: no candidate comes twice, and what is known of
/// a file is its path, and no hash.
pub open spec fn makes_sense(listing: Listing) -> bool {
    &&& listing.candidates.no_duplicates()
    &&& forall|path: Seq<char>| #[trigger]
        (listing.metadata)(path) matches Some(file) ==> {
            &&& file.file_path == path
            &&& file.xxhash.len() == 0
        }
}

/// Whether what there is to scan makes sense, and every file has its true size.
pub open spec fn is_sound(truth: Truth) -> bool {
    truth.listing matches Some(listing) ==> {
        &&& makes_sense(listing)
        &&& forall|path: Seq<char>| #[trigger]
            (listing.metadata)(path) matches Some(file) ==> file.file_size == (truth.contents)(
                path,
            ).len()
    }
}

// ---------------------------------------------------------------------------
// What holds of the files
// ---------------------------------------------------------------------------

/// A file without its hash.
pub open spec fn bare(file: FileRecord) -> FileRecord {
    FileRecord { xxhash: Seq::empty(), ..file }
}

/// Whether two files share size and fingerprint.
pub open spec fn looks_alike(truth: Truth, files: Seq<FileInfo>, i: int, j: int) -> bool {
    &&& i != j
    &&& files[i].file_size == files[j].file_size
    &&& fingerprint_of((truth.contents)(files[i].file_path@)) == fingerprint_of(
        (truth.contents)(files[j].file_path@),
    )
}

/// Whether a file is to be hashed: without the prefilter, every one; with it, one that looks
/// like another, which, where the scan has taken up saved data, is not hashed yet.
pub open spec fn owes_hash(truth: Truth, fast: bool, files: Seq<FileInfo>, i: int) -> bool {
    !fast || exists|j: int|
        0 <= j < files.len() && #[trigger] looks_alike(truth, files, i, j) && (
        truth.listing is Some || !is_hashed(files[j]))
}

/// Whether the files that are to be hashed and are not yet are among `pending`.
pub open spec fn only_pending(
    truth: Truth,
    fast: bool,
    files: Seq<FileInfo>,
    pending: Seq<usize>,
) -> bool {
    forall|i: int|
        0 <= i < files.len() && #[trigger] owes_hash(truth, fast, files, i) && !is_hashed(files[i])
            ==> pending.contains(i as usize)
}

/// Whether no file is hashed.
pub open spec fn none_hashed(files: Seq<FileInfo>) -> bool {
    forall|i: int| 0 <= i < files.len() ==> !is_hashed(#[trigger] files[i])
}

/// Whether every hash is that of the file's contents.
pub open spec fn hashes_are_true(truth: Truth, files: Seq<FileInfo>) -> bool {
    forall|i: int|
        0 <= i < files.len() && is_hashed(#[trigger] files[i]) ==> files[i].xxhash@
            == content_hash((truth.contents)(files[i].file_path@))
}

/// Whether a file is, but for its hash, the one that there is at one of `paths`.
pub open spec fn is_file_at(listing: Listing, paths: Seq<Seq<char>>, file: FileInfo) -> bool {
    &&& (listing.metadata)(file.file_path@) == Some(bare(file@))
    &&& paths.contains(file.file_path@)
}

/// Whether `files` are the files that there are at `paths`, but for their hashes.
pub open spec fn are_found_at(
    listing: Listing,
    paths: Seq<Seq<char>>,
    files: Seq<FileInfo>,
) -> bool {
    &&& has_distinct_paths(files)
    &&& forall|i: int|
        0 <= i < files.len() ==> is_file_at(listing, paths, #[trigger] files[i])
    &&& forall|k: int|
        0 <= k < paths.len() && (listing.metadata)(#[trigger] paths[k]) is Some
            ==> path_list(files).contains(paths[k])
}

/// Whether `files` are the files that there are at the candidates, but for those at `rest`
/// and for their hashes.
pub open spec fn covers_but(
    listing: Listing,
    rest: Seq<Seq<char>>,
    files: Seq<FileInfo>,
) -> bool {
    &&& has_distinct_paths(files)
    &&& forall|i: int|
        0 <= i < files.len() ==> is_file_at(listing, listing.candidates, #[trigger] files[i])
            && !rest.contains(files[i].file_path@)
    &&& forall|k: int|
        0 <= k < listing.candidates.len() && (listing.metadata)(
            #[trigger] listing.candidates[k],
        ) is Some && !rest.contains(listing.candidates[k]) ==> path_list(files).contains(
            listing.candidates[k],
        )
}

/// The candidates at the given indices.
pub open spec fn candidates_at(listing: Listing, indices: Seq<usize>) -> Seq<Seq<char>> {
    Seq::new(indices.len(), |k: int| listing.candidates[indices[k] as int])
}

/// Whether `files` are all the files that there are to scan.
pub open spec fn is_complete(truth: Truth, files: Seq<FileInfo>) -> bool {
    truth.listing matches Some(listing) ==> are_found_at(listing, listing.candidates, files)
}

/// What holds of the files once the hashes are taken.
pub open spec fn is_ready(truth: Truth, fast: bool, files: Seq<FileInfo>) -> bool {
    &&& only_pending(truth, fast, files, Seq::empty())
    &&& is_complete(truth, files)
    &&& truth.listing is Some ==> hashes_are_true(truth, files)
}

/// Whether `fine` are the true times of the files that compete to be kept.
pub open spec fn times_are_true(
    truth: Truth,
    files: Seq<FileInfo>,
    fine: Seq<FineTimes>,
) -> bool {
    &&& fine.len() == files.len()
    &&& forall|i: int|
        0 <= i < files.len() ==> #[trigger] fine[i] == if is_contested(files, i) {
            (truth.times)(files[i].file_path@)
        } else {
            whole_seconds()
        }
}

/// Whether each answer says whether the two files have equal contents.
pub open spec fn answers_are_true(truth: Truth, planner: Planner) -> bool {
    forall|a: usize, b: usize| #[trigger]
        planner.answers@.dom().contains((a, b)) ==> {
            &&& a < planner.files@.len()
            &&& b < planner.files@.len()
            &&& planner.answers@[(a, b)] == ((truth.contents)(
                planner.files@[a as int].file_path@,
            ) == (truth.contents)(planner.files@[b as int].file_path@))
        }
}

/// What holds of a planner.
pub open spec fn plans_truly(truth: Truth, fast: bool, planner: Planner) -> bool {
    &&& is_ready(truth, fast, planner.files@)
    &&& is_by_path(planner.files@)
    &&& times_are_true(truth, planner.files@, planner.fine@)
    &&& answers_are_true(truth, planner)
}

/// What holds of a scan: what is known is what there is, but for the candidates that are still
/// to be looked at.
pub open spec fn is_true_scan(listing: Listing, scan: ScanRecord) -> bool {
    &&& scan.remaining.no_duplicates()
    &&& forall|k: int|
        0 <= k < scan.remaining.len() ==> #[trigger] scan.remaining[k] < listing.candidates.len()
    &&& 0 <= scan.done <= scan.remaining.len()
    &&& covers_but(listing, candidates_at(listing, scan.remaining.skip(scan.done)), scan.files)
    &&& none_hashed(scan.files)
}

/// What holds of the files of the next portion of a scan: they are those that there are.
pub open spec fn is_true_batch(
    listing: Listing,
    scan: ScanRecord,
    interval: int,
    batch: Seq<FileInfo>,
) -> bool {
    &&& are_found_at(
        listing,
        candidates_at(listing, portion(scan.remaining, scan.done, interval)),
        batch,
    )
    &&& none_hashed(batch)
}

/// What holds of a run while it scans, where it was told the truth of what there is to scan.
pub open spec fn scan_holds(listing: Listing, run: Run) -> bool {
    match run.phase {
        Phase::Scanning { scan } => is_true_scan(listing, scan@),
        Phase::Checkpointing { scan, batch } => {
            &&& is_true_scan(listing, scan@)
            &&& is_true_batch(
                listing,
                scan@,
                run.config.checkpoint_interval as int,
                batch@,
            )
        },
        _ => true,
    }
}

/// What holds of a run whose replies have all been true.
#[verifier::opaque]
pub open spec fn holds(truth: Truth, run: Run) -> bool {
    let fast = run.config.fast_prefilter;
    match run.phase {
        Phase::Listing { candidates } => truth.listing matches Some(listing) ==> texts(candidates@)
            == listing.candidates,
        Phase::Loading { candidates, wanted, next_index } => truth.listing matches Some(listing)
            ==> texts(candidates@) == listing.candidates,
        Phase::Scanning { .. } | Phase::Checkpointing { .. } => truth.listing matches Some(listing)
            ==> scan_holds(listing, run),
        Phase::Fingerprinting { files, targets, prints } => {
            &&& prints_are_true(truth, files@, targets@, prints@)
            &&& is_complete(truth, files@)
            &&& truth.listing is Some ==> none_hashed(files@)
        },
        Phase::Hashing { files, targets, done } => {
            &&& only_pending(truth, fast, files@, targets@.skip(done as int))
            &&& is_complete(truth, files@)
            &&& truth.listing is Some ==> hashes_are_true(truth, files@)
        },
        Phase::Timing { files, targets } => is_ready(truth, fast, files@) && is_by_path(files@),
        _ => planner_of(run.phase) matches Some(planner) ==> plans_truly(truth, fast, planner),
    }
}

/// Whether the fingerprints are those of the files' contents.
pub open spec fn prints_are_true(
    truth: Truth,
    files: Seq<FileInfo>,
    targets: Seq<usize>,
    prints: Seq<Option<String>>,
) -> bool {
    forall|k: int|
        0 <= k < prints.len() ==> text_option(#[trigger] prints[k]) == Some(
            fingerprint_of((truth.contents)(files[targets[k] as int].file_path@)),
        )
}

// ---------------------------------------------------------------------------
// Planning
// ---------------------------------------------------------------------------

proof fn lemma_starts_planning(
    truth: Truth,
    config: RunConfig,
    platform: Platform,
    files: Seq<FileInfo>,
    fine: Seq<FineTimes>,
    reports: Seq<ProgressRecord>,
    after: Run,
    step: Step,
)
    requires
        after.config == config,
        starts_planning(config, platform, files, fine, reports, after, step),
        is_ready(truth, config.fast_prefilter, files),
        is_by_path(files),
        times_are_true(truth, files, fine),
    ensures
        holds(truth, after),
{
    reveal(holds);
    let planner = choose|planner: Planner|
        #![trigger continues_planning(planner, reports, after, step)]
        planner.starts(files, fine, config.keep_rule@, platform) && continues_planning(
            planner,
            reports,
            after,
            step,
        );
    assert(plans_truly(truth, config.fast_prefilter, planner));
    assert(planner_of(after.phase) == Some(planner));
}

/// The fine times of the files at `targets` are those that were told.
proof fn lemma_with_times(
    n: nat,
    targets: Seq<usize>,
    replies: Seq<Option<FineTimes>>,
    i: int,
)
    requires
        replies.len() == targets.len(),
        targets.no_duplicates(),
        forall|k: int| 0 <= k < targets.len() ==> #[trigger] targets[k] < n,
        forall|k: int| 0 <= k < targets.len() ==> #[trigger] replies[k] is Some,
        0 <= i < n,
    ensures
        with_times(n, targets, replies).len() == n,
        !targets.contains(i as usize) ==> with_times(n, targets, replies)[i] == whole_seconds(),
        forall|k: int|
            0 <= k < targets.len() && #[trigger] targets[k] == i ==> with_times(
                n,
                targets,
                replies,
            )[i] == replies[k]->0,
    decreases targets.len(),
{
    if targets.len() > 0 {
        let t = targets.drop_last();
        let r = replies.drop_last();
        assert forall|k: int| 0 <= k < t.len() implies #[trigger] t[k] < n by {
            assert(targets[k] == t[k]);
        }
        assert forall|k: int| 0 <= k < t.len() implies #[trigger] r[k] is Some by {
            assert(replies[k] == r[k]);
        }
        lemma_with_times(n, t, r, i);
        assert(replies[targets.len() - 1] is Some);
        assert(targets[targets.len() - 1] < n);
        if t.contains(i as usize) {
            let k = choose|k: int| 0 <= k < t.len() && t[k] == i as usize;
            assert(targets[k] == i as usize);
        }
        assert(targets.contains(targets.last()));
        assert forall|k: int| 0 <= k < targets.len() && #[trigger] targets[k] == i implies with_times(
            n,
            targets,
            replies,
        )[i] == replies[k]->0 by {
            if k < t.len() {
                assert(t[k] == i);
                assert(targets.last() != i);
            }
        }
    }
}

/// The true times of the contested files, where they have been told.
proof fn lemma_times_told(
    truth: Truth,
    files: Seq<FileInfo>,
    targets: Seq<usize>,
    replies: Seq<Option<FineTimes>>,
)
    requires
        files.len() <= usize::MAX,
        targets == contested_indices(files),
        replies.len() == targets.len(),
        forall|k: int|
            0 <= k < targets.len() ==> #[trigger] replies[k] == Some(
                (truth.times)(files[targets[k] as int].file_path@),
            ),
    ensures
        times_are_true(truth, files, with_times(files.len(), targets, replies)),
{
    let n = files.len();
    let want = |i: int| is_contested(files, i);
    lemma_ascending(n, want);
    let fine = with_times(n, targets, replies);
    if n == 0 {
        assert(targets.len() == 0);
    } else {
        lemma_with_times(n, targets, replies, 0);
    }
    assert forall|i: int| 0 <= i < n implies #[trigger] fine[i] == if is_contested(files, i) {
        (truth.times)(files[i].file_path@)
    } else {
        whole_seconds()
    } by {
        lemma_with_times(n, targets, replies, i);
        assert(want(i) == is_contested(files, i));
        if is_contested(files, i) {
            assert(targets.contains(i as usize));
            let k = choose|k: int| 0 <= k < targets.len() && targets[k] == i as usize;
            assert(targets[k] == i);
        }
    }
}

proof fn lemma_times_files(
    truth: Truth,
    config: RunConfig,
    platform: Platform,
    files: Seq<FileInfo>,
    reports: Seq<ProgressRecord>,
    after: Run,
    step: Step,
)
    requires
        after.config == config,
        files.len() <= usize::MAX,
        times_files(config, platform, files, reports, after, step),
        is_ready(truth, config.fast_prefilter, files),
        is_by_path(files),
    ensures
        holds(truth, after),
{
    reveal(holds);
    let targets = contested_indices(files);
    if targets.len() == 0 {
        lemma_times_told(truth, files, targets, Seq::empty());
        lemma_starts_planning(
            truth,
            config,
            platform,
            files,
            with_times(files.len(), targets, Seq::empty()),
            reports,
            after,
            step,
        );
    }
}

/// What holds of files holds of them in the order of paths.
proof fn lemma_sorting_keeps_ready(
    truth: Truth,
    fast: bool,
    files: Seq<FileInfo>,
    sorted: Seq<FileInfo>,
)
    requires
        files.len() <= usize::MAX,
        is_path_sorted(sorted, files),
        is_ready(truth, fast, files),
    ensures
        is_ready(truth, fast, sorted),
        is_by_path(sorted),
{
    let order = lemma_path_sorted(sorted, files);
    assert forall|i: int|
        0 <= i < sorted.len() && #[trigger] owes_hash(truth, fast, sorted, i) implies is_hashed(
        sorted[i],
    ) by {
        let k = order[i] as int;
        assert(sorted[i] == files[k]);
        if fast {
            let j = choose|j: int|
                0 <= j < sorted.len() && #[trigger] looks_alike(truth, sorted, i, j) && (
                truth.listing is Some || !is_hashed(sorted[j]));
            assert(sorted[j] == files[order[j] as int]);
            assert(order[i] != order[j]);
            assert(looks_alike(truth, files, k, order[j] as int));
        }
        assert(owes_hash(truth, fast, files, k));
    }
    if let Some(listing) = truth.listing {
        lemma_found_sorted(listing, listing.candidates, files, sorted);
        assert forall|i: int|
            0 <= i < sorted.len() && is_hashed(#[trigger] sorted[i]) implies sorted[i].xxhash@
            == content_hash((truth.contents)(sorted[i].file_path@)) by {
            assert(sorted[i] == files[order[i] as int]);
        }
    }
}

proof fn lemma_found_sorted(
    listing: Listing,
    wanted: Seq<Seq<char>>,
    files: Seq<FileInfo>,
    sorted: Seq<FileInfo>,
)
    requires
        files.len() <= usize::MAX,
        is_path_sorted(sorted, files),
        are_found_at(listing, wanted, files),
    ensures
        are_found_at(listing, wanted, sorted),
{
    let order = lemma_path_sorted(sorted, files);
    let paths = path_list(files);
    let others = path_list(sorted);
    assert forall|i: int, j: int| 0 <= i < others.len() && 0 <= j < others.len() && i != j implies
    others[i] != others[j] by {
        assert(order[i] != order[j]);
        assert(others[i] == paths[order[i] as int]);
        assert(others[j] == paths[order[j] as int]);
    }
    assert forall|i: int| 0 <= i < sorted.len() implies is_file_at(
        listing,
        wanted,
        #[trigger] sorted[i],
    ) by {
        assert(sorted[i] == files[order[i] as int]);
    }
    assert forall|k: int|
        0 <= k < wanted.len() && (listing.metadata)(
            #[trigger] wanted[k],
        ) is Some implies others.contains(wanted[k]) by {
        assert(paths.contains(wanted[k]));
        let i = choose|i: int| 0 <= i < paths.len() && paths[i] == wanted[k];
        assert(order.contains(i as usize));
        let j = choose|j: int| 0 <= j < order.len() && order[j] == i as usize;
        assert(others[j] == wanted[k]);
    }
}

/// A list that planning begins with fits into memory.
pub(crate) proof fn lemma_planned_files_fit(
    config: RunConfig,
    platform: Platform,
    files: Seq<FileInfo>,
    reports: Seq<ProgressRecord>,
    after: Run,
    step: Step,
)
    requires
        begins_planning(config, platform, files, reports, after, step),
    ensures
        files.len() <= usize::MAX,
{
    let sent = reports.push(planning_note(files.len()));
    let sorted = choose|sorted: Seq<FileInfo>|
        is_path_sorted(sorted, files) && #[trigger] times_files(
            config,
            platform,
            sorted,
            sent,
            after,
            step,
        );
    lemma_path_sorted_length(sorted, files);
    let targets = contested_indices(sorted);
    if targets.len() == 0 {
        let fine = with_times(sorted.len(), targets, Seq::empty());
        let planner = choose|planner: Planner|
            #![trigger continues_planning(planner, sent, after, step)]
            planner.starts(sorted, fine, config.keep_rule@, platform) && continues_planning(
                planner,
                sent,
                after,
                step,
            );
        assert(planner.files@ == sorted);
        assert(planner.files.len() == sorted.len());
    } else {
        assert(after.phase->Timing_files.len() == sorted.len());
    }
}

proof fn lemma_begins_planning(
    truth: Truth,
    config: RunConfig,
    platform: Platform,
    files: Seq<FileInfo>,
    reports: Seq<ProgressRecord>,
    after: Run,
    step: Step,
)
    requires
        after.config == config,
        begins_planning(config, platform, files, reports, after, step),
        is_ready(truth, config.fast_prefilter, files),
    ensures
        holds(truth, after),
{
    reveal(holds);
    lemma_planned_files_fit(config, platform, files, reports, after, step);
    let sent = reports.push(planning_note(files.len()));
    let sorted = choose|sorted: Seq<FileInfo>|
        is_path_sorted(sorted, files) && #[trigger] times_files(
            config,
            platform,
            sorted,
            sent,
            after,
            step,
        );
    lemma_sorting_keeps_ready(truth, config.fast_prefilter, files, sorted);
    lemma_path_sorted(sorted, files);
    lemma_times_files(truth, config, platform, sorted, sent, after, step);
}

// ---------------------------------------------------------------------------
// Hashing
// ---------------------------------------------------------------------------

proof fn lemma_continues_hashing(
    truth: Truth,
    config: RunConfig,
    platform: Platform,
    files: Seq<FileInfo>,
    targets: Seq<usize>,
    done: int,
    reports: Seq<ProgressRecord>,
    after: Run,
    step: Step,
)
    requires
        after.config == config,
        0 <= done <= targets.len(),
        continues_hashing(config, platform, files, targets, done, reports, after, step),
        only_pending(truth, config.fast_prefilter, files, targets.skip(done)),
        is_complete(truth, files),
        truth.listing is Some ==> hashes_are_true(truth, files),
    ensures
        holds(truth, after),
{
    reveal(holds);
    if done == targets.len() {
        assert(targets.skip(done) =~= Seq::empty());
        lemma_begins_planning(truth, config, platform, files, reports, after, step);
    }
}

/// True hashes are given to the files that were to be hashed, and nothing else changes.
proof fn lemma_true_hashes(
    truth: Truth,
    files: Seq<FileInfo>,
    targets: Seq<usize>,
    hashes: Seq<Option<String>>,
    i: int,
)
    requires
        files.len() <= usize::MAX,
        hashes.len() == targets.len(),
        forall|k: int| 0 <= k < targets.len() ==> #[trigger] targets[k] < files.len(),
        forall|k: int|
            0 <= k < targets.len() ==> text_option(#[trigger] hashes[k]) == Some(
                content_hash((truth.contents)(files[targets[k] as int].file_path@)),
            ),
        0 <= i < files.len(),
    ensures
        targets.contains(i as usize) ==> with_hashes(files, targets, hashes)[i].xxhash@
            == content_hash((truth.contents)(files[i].file_path@)),
    decreases targets.len(),
{
    if targets.len() > 0 {
        let t = targets.drop_last();
        let h = hashes.drop_last();
        assert forall|k: int| 0 <= k < t.len() implies #[trigger] t[k] < files.len() by {
            assert(targets[k] == t[k]);
        }
        assert forall|k: int| 0 <= k < t.len() implies text_option(#[trigger] h[k]) == Some(
            content_hash((truth.contents)(files[t[k] as int].file_path@)),
        ) by {
            assert(hashes[k] == h[k]);
        }
        lemma_true_hashes(truth, files, t, h, i);
        let last = targets.last() as int;
        assert(targets[targets.len() - 1] < files.len());
        assert(hashes[targets.len() - 1] is Some);
        law_hashing_changes_only_hashes(files, t, h, last);
        law_hashing_changes_only_hashes(files, t, h, i);
        if targets.contains(i as usize) && i != last {
            let k = choose|k: int| 0 <= k < targets.len() && targets[k] == i as usize;
            assert(t[k] == i as usize);
        }
    }
}

proof fn lemma_hashes_told(
    truth: Truth,
    fast: bool,
    files: Seq<FileInfo>,
    targets: Seq<usize>,
    done: int,
    interval: int,
    hashes: Seq<Option<String>>,
)
    requires
        files.len() <= usize::MAX,
        interval > 0,
        0 <= done < targets.len(),
        forall|k: int| 0 <= k < targets.len() ==> #[trigger] targets[k] < files.len(),
        hashes.len() == portion(targets, done, interval).len(),
        forall|k: int|
            0 <= k < hashes.len() ==> text_option(#[trigger] hashes[k]) == Some(
                content_hash(
                    (truth.contents)(
                        files[portion(targets, done, interval)[k] as int].file_path@,
                    ),
                ),
            ),
        only_pending(truth, fast, files, targets.skip(done)),
        is_complete(truth, files),
        truth.listing is Some ==> hashes_are_true(truth, files),
    ensures
        ({
            let next = with_hashes(files, portion(targets, done, interval), hashes);
            &&& only_pending(
                truth,
                fast,
                next,
                targets.skip(portion_end(done, interval, targets.len() as int)),
            )
            &&& is_complete(truth, next)
            &&& truth.listing is Some ==> hashes_are_true(truth, next)
        }),
{
    let asked = portion(targets, done, interval);
    let end = portion_end(done, interval, targets.len() as int);
    let next = with_hashes(files, asked, hashes);
    lemma_portion(targets, done, interval);
    assert forall|k: int| 0 <= k < asked.len() implies #[trigger] asked[k] < files.len() by {
        assert(asked[k] == targets[done + k]);
    }
    if files.len() > 0 {
        law_hashing_changes_only_hashes(files, asked, hashes, 0);
    } else {
        assert(targets[done] < files.len());
    }
    assert forall|i: int| #![trigger next[i]] 0 <= i < files.len() implies {
        &&& bare(next[i]@) == bare(files[i]@)
        &&& is_hashed(files[i]) ==> is_hashed(next[i])
        &&& asked.contains(i as usize) ==> is_hashed(next[i]) && next[i].xxhash@ == content_hash(
            (truth.contents)(files[i].file_path@),
        )
        &&& !asked.contains(i as usize) ==> next[i] == files[i]
    } by {
        law_hashing_changes_only_hashes(files, asked, hashes, i);
        lemma_true_hashes(truth, files, asked, hashes, i);
        law_content_hash_is_not_empty((truth.contents)(files[i].file_path@));
        assert(bare(next[i]@) =~= bare(files[i]@));
    }
    assert forall|i: int|
        0 <= i < next.len() && #[trigger] owes_hash(truth, fast, next, i) && !is_hashed(
            next[i],
        ) implies targets.skip(end).contains(i as usize) by {
        assert(bare(next[i]@) == bare(files[i]@));
        assert(!is_hashed(files[i]));
        if fast {
            let j = choose|j: int|
                0 <= j < next.len() && #[trigger] looks_alike(truth, next, i, j) && (
                truth.listing is Some || !is_hashed(next[j]));
            assert(bare(next[j]@) == bare(files[j]@));
            assert(next[i]@.file_path == bare(next[i]@).file_path);
            assert(next[i]@.file_size == bare(next[i]@).file_size);
            assert(next[j]@.file_path == bare(next[j]@).file_path);
            assert(next[j]@.file_size == bare(next[j]@).file_size);
            assert(looks_alike(truth, files, i, j));
        }
        assert(owes_hash(truth, fast, files, i));
        assert(targets.skip(done).contains(i as usize));
        let p = choose|p: int|
            0 <= p < targets.skip(done).len() && targets.skip(done)[p] == i as usize;
        if done + p < end {
            assert(asked[p] == i as usize);
            assert(asked.contains(i as usize));
        }
        assert(targets.skip(end)[done + p - end] == i as usize);
    }
    if let Some(listing) = truth.listing {
        assert forall|i: int| 0 <= i < next.len() implies (#[trigger] next[i]).file_path@
            == files[i].file_path@ by {
            assert(bare(next[i]@).file_path == bare(files[i]@).file_path);
        }
        assert(path_list(next) =~= path_list(files));
        assert forall|i: int| 0 <= i < next.len() implies is_file_at(
            listing,
            listing.candidates,
            #[trigger] next[i],
        ) by {
            assert(files[i].file_path@ == next[i].file_path@);
            assert(is_file_at(listing, listing.candidates, files[i]));
        }
    }
}

/// A file that shares its fingerprint is chosen.
proof fn lemma_chosen(
    files: Seq<FileInfo>,
    targets: Seq<usize>,
    prints: Seq<Option<String>>,
    k: int,
)
    requires
        targets.len() <= usize::MAX,
        0 <= k < targets.len(),
        shares_print(files, targets, prints, k),
    ensures
        full_hash_choice(files, targets, prints).contains(targets[k]),
{
    let want = |k: int| shares_print(files, targets, prints, k);
    let s = ascending(targets.len(), want);
    lemma_ascending(targets.len(), want);
    assert(want(k));
    assert(s.contains(k as usize));
    let x = choose|x: int| 0 <= x < s.len() && s[x] == k as usize;
    assert(chosen(targets, s)[x] == targets[k]);
}

/// Every file that is to be hashed is chosen by its fingerprint.
proof fn lemma_choice_is_enough(
    truth: Truth,
    files: Seq<FileInfo>,
    targets: Seq<usize>,
    prints: Seq<Option<String>>,
)
    requires
        files.len() <= usize::MAX,
        targets == ascending(files.len(), |i: int| shares_size(files, i)),
        prints.len() == targets.len(),
        prints_are_true(truth, files, targets, prints),
        truth.listing is Some ==> none_hashed(files),
    ensures
        only_pending(truth, true, files, full_hash_choice(files, targets, prints)),
{
    let same = |i: int| shares_size(files, i);
    lemma_ascending(files.len(), same);
    assert forall|i: int|
        0 <= i < files.len() && #[trigger] owes_hash(truth, true, files, i) && !is_hashed(
            files[i],
        ) implies full_hash_choice(files, targets, prints).contains(i as usize) by {
        let j = choose|j: int|
            0 <= j < files.len() && #[trigger] looks_alike(truth, files, i, j) && (
            truth.listing is Some || !is_hashed(files[j]));
        assert(!is_hashed(files[j]));
        assert(same(i));
        assert(same(j));
        assert(targets.contains(i as usize) && targets.contains(j as usize));
        let k = choose|k: int| 0 <= k < targets.len() && targets[k] == i as usize;
        let m = choose|m: int| 0 <= m < targets.len() && targets[m] == j as usize;
        assert(text_option(prints[k]) == text_option(prints[m]));
        assert(shares_print(files, targets, prints, k));
        lemma_chosen(files, targets, prints, k);
    }
}

proof fn lemma_continues_fingerprinting(
    truth: Truth,
    config: RunConfig,
    platform: Platform,
    files: Seq<FileInfo>,
    targets: Seq<usize>,
    prints: Seq<Option<String>>,
    reports: Seq<ProgressRecord>,
    after: Run,
    step: Step,
)
    requires
        after.config == config,
        config.fast_prefilter,
        files.len() <= usize::MAX,
        targets == ascending(files.len(), |i: int| shares_size(files, i)),
        prints.len() <= targets.len(),
        continues_fingerprinting(config, platform, files, targets, prints, reports, after, step),
        prints_are_true(truth, files, targets, prints),
        is_complete(truth, files),
        truth.listing is Some ==> none_hashed(files),
    ensures
        holds(truth, after),
{
    reveal(holds);
    if prints.len() == targets.len() {
        let choice = full_hash_choice(files, targets, prints);
        lemma_choice_is_enough(truth, files, targets, prints);
        lemma_begins_full_hashes(
            truth,
            config,
            platform,
            files,
            choice,
            "Hashing fingerprint matches"@,
            reports,
            after,
            step,
        );
    }
}

proof fn lemma_begins_full_hashes(
    truth: Truth,
    config: RunConfig,
    platform: Platform,
    files: Seq<FileInfo>,
    targets: Seq<usize>,
    message: Seq<char>,
    reports: Seq<ProgressRecord>,
    after: Run,
    step: Step,
)
    requires
        after.config == config,
        begins_full_hashes(config, platform, files, targets, message, reports, after, step),
        only_pending(truth, config.fast_prefilter, files, targets),
        is_complete(truth, files),
        truth.listing is Some ==> none_hashed(files),
    ensures
        holds(truth, after),
{
    reveal(holds);
    assert(targets.skip(0) =~= targets);
    let sent = if targets.len() > 0 {
        reports.push(
            note(
                RunStage::Hashing,
                message,
                Some(targets.len() as usize),
                0,
                0,
                0,
            ),
        )
    } else {
        reports
    };
    lemma_continues_hashing(truth, config, platform, files, targets, 0, sent, after, step);
}

/// A list that hashing begins with fits into memory.
pub(crate) proof fn lemma_hashed_files_fit(
    config: RunConfig,
    platform: Platform,
    files: Seq<FileInfo>,
    reports: Seq<ProgressRecord>,
    after: Run,
    step: Step,
)
    requires
        begins_hashing(config, platform, files, reports, after, step),
    ensures
        files.len() <= usize::MAX,
{
    if config.fast_prefilter {
        let targets = ascending(files.len(), |i: int| shares_size(files, i));
        if targets.len() == 0 {
            lemma_planned_files_fit(config, platform, files, reports, after, step);
        } else {
            assert(after.phase->Fingerprinting_files.len() == files.len());
        }
    } else {
        let targets = ascending(files.len(), |i: int| !is_hashed(files[i]));
        if targets.len() == 0 {
            lemma_planned_files_fit(config, platform, files, reports, after, step);
        } else {
            assert(after.phase->Hashing_files.len() == files.len());
        }
    }
}

proof fn lemma_begins_hashing(
    truth: Truth,
    config: RunConfig,
    platform: Platform,
    files: Seq<FileInfo>,
    reports: Seq<ProgressRecord>,
    after: Run,
    step: Step,
)
    requires
        after.config == config,
        begins_hashing(config, platform, files, reports, after, step),
        is_complete(truth, files),
        truth.listing is Some ==> none_hashed(files),
    ensures
        holds(truth, after),
{
    reveal(holds);
    lemma_hashed_files_fit(config, platform, files, reports, after, step);
    if config.fast_prefilter {
        let same = |i: int| shares_size(files, i);
        let targets = ascending(files.len(), same);
        lemma_ascending(files.len(), same);
        if targets.len() == 0 {
            lemma_choice_is_enough(truth, files, targets, Seq::empty());
            assert(full_hash_choice(files, targets, Seq::empty()) =~= Seq::empty());
            lemma_begins_planning(truth, config, platform, files, reports, after, step);
        } else {
            assert(after.phase is Fingerprinting);
        }
    } else {
        let want = |i: int| !is_hashed(files[i]);
        let targets = ascending(files.len(), want);
        lemma_ascending(files.len(), want);
        assert forall|i: int|
            0 <= i < files.len() && #[trigger] owes_hash(truth, false, files, i) && !is_hashed(
                files[i],
            ) implies targets.contains(i as usize) by {
            assert(want(i));
        }
        lemma_begins_full_hashes(
            truth,
            config,
            platform,
            files,
            targets,
            "Hashing all indexed files"@,
            reports,
            after,
            step,
        );
    }
}

// ---------------------------------------------------------------------------
// Scanning
// ---------------------------------------------------------------------------

proof fn lemma_continues_scan(
    truth: Truth,
    config: RunConfig,
    platform: Platform,
    scan: ScanRecord,
    reports: Seq<ProgressRecord>,
    after: Run,
    step: Step,
)
    requires
        after.config == config,
        continues_scan(config, platform, scan, reports, after, step),
        truth.listing matches Some(listing) ==> is_true_scan(listing, scan),
    ensures
        holds(truth, after),
{
    reveal(holds);
    if scan.done >= scan.remaining.len() {
        if let Some(listing) = truth.listing {
            let rest = candidates_at(listing, scan.remaining.skip(scan.done));
            assert(rest.len() == 0);
            assert forall|k: int|
                0 <= k < listing.candidates.len() && (listing.metadata)(
                    #[trigger] listing.candidates[k],
                ) is Some implies path_list(scan.files).contains(listing.candidates[k]) by {
                assert(!rest.contains(listing.candidates[k]));
            }
        }
        lemma_begins_hashing(truth, config, platform, scan.files, reports, after, step);
    }
}

/// A scan looks at every candidate that is not known.
proof fn lemma_begins_scan(
    truth: Truth,
    config: RunConfig,
    platform: Platform,
    candidates: Seq<Seq<char>>,
    files: Seq<FileInfo>,
    next_index: int,
    reports: Seq<ProgressRecord>,
    after: Run,
    step: Step,
)
    requires
        is_sound(truth),
        after.config == config,
        candidates.len() <= usize::MAX,
        truth.listing matches Some(listing) ==> {
            &&& listing.candidates == candidates
            &&& is_part(listing, records(files))
            &&& has_distinct_paths(files)
        },
        begins_scan(config, platform, candidates, files, next_index, reports, after, step),
    ensures
        holds(truth, after),
{
    reveal(holds);
    let paths = path_list(files);
    let already = paths.to_set().len();
    let remaining = unscanned(candidates, files);
    if already + remaining.len() <= usize::MAX {
        let sent = if already > 0 {
            reports.push(
                note(
                    RunStage::Scanning,
                    count_message("Loaded "@, already as int, " files from saved scan data"@),
                    Some((already + remaining.len()) as usize),
                    already as int,
                    0,
                    0,
                ),
            )
        } else {
            reports
        };
        let scan = ScanRecord { remaining, done: 0, files, already: already as int, next_index };
        if let Some(listing) = truth.listing {
            lemma_first_scan(listing, scan);
        }
        lemma_continues_scan(truth, config, platform, scan, sent, after, step);
    }
}

/// What holds of a scan before it has looked at anything.
pub(crate) proof fn lemma_first_scan(listing: Listing, scan: ScanRecord)
    requires
        makes_sense(listing),
        listing.candidates.len() <= usize::MAX,
        is_part(listing, records(scan.files)),
        has_distinct_paths(scan.files),
        scan.remaining == unscanned(listing.candidates, scan.files),
        scan.done == 0,
    ensures
        is_true_scan(listing, scan),
{
    let candidates = listing.candidates;
    let files = scan.files;
    let paths = path_list(files);
    let want = |i: int| !paths.contains(candidates[i]);
    lemma_ascending(candidates.len(), want);
    assert(scan.remaining == ascending(candidates.len(), want));
    assert(scan.remaining.skip(0) =~= scan.remaining);
    let rest = candidates_at(listing, scan.remaining);
    assert(records(files).len() == files.len());
    assert forall|i: int| 0 <= i < files.len() implies is_file_at(
        listing,
        candidates,
        #[trigger] files[i],
    ) && !rest.contains(files[i].file_path@) && !is_hashed(files[i]) by {
        assert(records(files)[i] == files[i]@);
        assert(files[i]@.xxhash =~= Seq::empty());
        assert(bare(files[i]@) =~= files[i]@);
        if rest.contains(files[i].file_path@) {
            let k = choose|k: int| 0 <= k < rest.len() && rest[k] == files[i].file_path@;
            assert(want(scan.remaining[k] as int));
            assert(paths[i] == files[i].file_path@);
        }
    }
    assert forall|k: int|
        0 <= k < candidates.len() && (listing.metadata)(#[trigger] candidates[k]) is Some
            && !rest.contains(candidates[k]) implies paths.contains(candidates[k]) by {
        if want(k) {
            assert(scan.remaining.contains(k as usize));
            let m = choose|m: int| 0 <= m < scan.remaining.len() && scan.remaining[m] == k as usize;
            assert(rest[m] == candidates[k]);
        }
    }
}

/// The files found are those of the candidates that were asked for.
proof fn lemma_found(
    listing: Listing,
    wanted: Seq<Seq<char>>,
    replies: Seq<Option<FileInfo>>,
)
    requires
        makes_sense(listing),
        wanted.no_duplicates(),
        replies.len() == wanted.len(),
        forall|k: int|
            0 <= k < replies.len() ==> record_option(#[trigger] replies[k]) == (listing.metadata)(
                wanted[k],
            ),
    ensures
        are_found_at(listing, wanted, found(replies)),
        none_hashed(found(replies)),
    decreases replies.len(),
{
    if replies.len() > 0 {
        let r = replies.drop_last();
        let w = wanted.drop_last();
        let path = wanted[wanted.len() - 1];
        assert forall|k: int| 0 <= k < r.len() implies record_option(#[trigger] r[k]) == (
        listing.metadata)(w[k]) by {
            assert(replies[k] == r[k]);
        }
        lemma_found(listing, w, r);
        let before = found(r);
        let last = replies[replies.len() - 1];
        assert(record_option(last) == (listing.metadata)(path));
        let one = match last {
            Some(file) => seq![file],
            None => Seq::empty(),
        };
        assert(found(replies) =~= before + one);
        assert(are_found_at(listing, seq![path], one)) by {
            if let Some(file) = last {
                assert(file@.file_path == path);
                assert(file@.xxhash =~= Seq::empty());
                assert(bare(file@) =~= file@);
                assert(seq![path][0] == one[0].file_path@);
                assert(path_list(one)[0] == path);
            }
        }
        assert(none_hashed(one));
        assert(wanted =~= w + seq![path]);
        lemma_found_joined(listing, w, seq![path], before, one);
    }
}

proof fn lemma_found_joined(
    listing: Listing,
    wanted: Seq<Seq<char>>,
    more: Seq<Seq<char>>,
    files: Seq<FileInfo>,
    others: Seq<FileInfo>,
)
    requires
        (wanted + more).no_duplicates(),
        are_found_at(listing, wanted, files),
        are_found_at(listing, more, others),
    ensures
        are_found_at(listing, wanted + more, files + others),
{
    let all = files + others;
    let paths = path_list(all);
    let asked = wanted + more;
    assert forall|i: int| 0 <= i < all.len() implies is_file_at(listing, asked, #[trigger] all[i])
        by {
        if i < files.len() {
            assert(all[i] == files[i]);
            let k = choose|k: int| 0 <= k < wanted.len() && wanted[k] == files[i].file_path@;
            assert(asked[k] == all[i].file_path@);
        } else {
            let j = i - files.len();
            assert(all[i] == others[j]);
            let k = choose|k: int| 0 <= k < more.len() && more[k] == others[j].file_path@;
            assert(asked[wanted.len() + k] == all[i].file_path@);
        }
    }
    assert forall|i: int, j: int| 0 <= i < j < paths.len() implies paths[i] != paths[j] by {
        if j < files.len() {
            assert(path_list(files)[i] != path_list(files)[j]);
        } else if i >= files.len() {
            assert(path_list(others)[i - files.len()] != path_list(others)[j - files.len()]);
        } else {
            let x = files[i];
            let y = others[j - files.len()];
            let k = choose|k: int| 0 <= k < wanted.len() && wanted[k] == x.file_path@;
            let m = choose|m: int| 0 <= m < more.len() && more[m] == y.file_path@;
            assert(asked[k] != asked[wanted.len() + m]);
        }
    }
    assert forall|k: int|
        0 <= k < asked.len() && (listing.metadata)(
            #[trigger] asked[k],
        ) is Some implies paths.contains(asked[k]) by {
        if k < wanted.len() {
            assert(path_list(files).contains(wanted[k]));
            let i = choose|i: int|
                0 <= i < path_list(files).len() && path_list(files)[i] == wanted[k];
            assert(paths[i] == asked[k]);
        } else {
            assert(path_list(others).contains(more[k - wanted.len()]));
            let i = choose|i: int|
                0 <= i < path_list(others).len() && path_list(others)[i] == more[k
                    - wanted.len()];
            assert(paths[files.len() + i] == asked[k]);
        }
    }
}

/// What was found at the next of the candidates is known from then on.
proof fn lemma_covers_more(
    listing: Listing,
    wanted: Seq<Seq<char>>,
    rest: Seq<Seq<char>>,
    files: Seq<FileInfo>,
    batch: Seq<FileInfo>,
)
    requires
        (wanted + rest).no_duplicates(),
        forall|k: int|
            0 <= k < wanted.len() ==> listing.candidates.contains(#[trigger] wanted[k]),
        covers_but(listing, wanted + rest, files),
        are_found_at(listing, wanted, batch),
    ensures
        covers_but(listing, rest, files + batch),
{
    let all = files + batch;
    let paths = path_list(all);
    let left = wanted + rest;
    let candidates = listing.candidates;
    assert forall|i: int| 0 <= i < all.len() implies is_file_at(
        listing,
        candidates,
        #[trigger] all[i],
    ) && !rest.contains(all[i].file_path@) by {
        let path = all[i].file_path@;
        if i < files.len() {
            assert(all[i] == files[i]);
            if rest.contains(path) {
                let k = choose|k: int| 0 <= k < rest.len() && rest[k] == path;
                assert(left[wanted.len() + k] == path);
            }
        } else {
            assert(all[i] == batch[i - files.len()]);
            let k = choose|k: int| 0 <= k < wanted.len() && wanted[k] == path;
            assert(candidates.contains(wanted[k]));
            assert(left[k] == path);
            if rest.contains(path) {
                let m = choose|m: int| 0 <= m < rest.len() && rest[m] == path;
                assert(left[wanted.len() + m] == path);
            }
        }
    }
    assert forall|i: int, j: int| 0 <= i < j < paths.len() implies paths[i] != paths[j] by {
        if j < files.len() {
            assert(path_list(files)[i] != path_list(files)[j]);
        } else if i >= files.len() {
            assert(path_list(batch)[i - files.len()] != path_list(batch)[j - files.len()]);
        } else {
            let y = batch[j - files.len()];
            let m = choose|m: int| 0 <= m < wanted.len() && wanted[m] == y.file_path@;
            assert(left[m] == y.file_path@);
            assert(left.contains(y.file_path@));
            assert(!left.contains(files[i].file_path@));
        }
    }
    assert forall|k: int|
        0 <= k < candidates.len() && (listing.metadata)(#[trigger] candidates[k]) is Some
            && !rest.contains(candidates[k]) implies paths.contains(candidates[k]) by {
        let path = candidates[k];
        if left.contains(path) {
            let m = choose|m: int| 0 <= m < left.len() && left[m] == path;
            if m >= wanted.len() {
                assert(rest[m - wanted.len()] == path);
            }
            assert(wanted[m] == path);
            assert(path_list(batch).contains(wanted[m]));
            let i = choose|i: int| 0 <= i < path_list(batch).len() && path_list(batch)[i] == path;
            assert(paths[files.len() + i] == path);
        } else {
            assert(path_list(files).contains(path));
            let i = choose|i: int| 0 <= i < path_list(files).len() && path_list(files)[i] == path;
            assert(paths[i] == path);
        }
    }
}

/// Candidates with different indices are different.
proof fn lemma_candidates_differ(listing: Listing, indices: Seq<usize>)
    requires
        listing.candidates.no_duplicates(),
        indices.no_duplicates(),
        forall|k: int| 0 <= k < indices.len() ==> #[trigger] indices[k] < listing.candidates.len(),
    ensures
        candidates_at(listing, indices).no_duplicates(),
{
    let paths = candidates_at(listing, indices);
    assert forall|i: int, j: int| 0 <= i < paths.len() && 0 <= j < paths.len() && i != j implies
    paths[i] != paths[j] by {
        assert(indices[i] != indices[j]);
    }
}

/// A scan that has found and saved `batch` goes on.
pub(crate) proof fn lemma_advanced(
    listing: Listing,
    scan: ScanRecord,
    interval: int,
    batch: Seq<FileInfo>,
)
    requires
        makes_sense(listing),
        interval > 0,
        0 <= scan.done < scan.remaining.len(),
        is_true_scan(listing, scan),
        is_true_batch(listing, scan, interval, batch),
    ensures
        is_true_scan(listing, scan.advanced(interval, batch)),
{
    lemma_portion(scan.remaining, scan.done, interval);
    let next = scan.advanced(interval, batch);
    let asked = portion(scan.remaining, scan.done, interval);
    let left = scan.remaining.skip(scan.done);
    let rest = scan.remaining.skip(next.done);
    assert(left =~= asked + rest);
    assert(candidates_at(listing, left) =~= candidates_at(listing, asked) + candidates_at(
        listing,
        rest,
    ));
    lemma_candidates_differ(listing, left);
    let wanted = candidates_at(listing, asked);
    assert forall|k: int| 0 <= k < wanted.len() implies listing.candidates.contains(
        #[trigger] wanted[k],
    ) by {
        assert(asked[k] == scan.remaining[scan.done + k]);
    }
    lemma_covers_more(listing, wanted, candidates_at(listing, rest), scan.files, batch);
    assert forall|i: int| 0 <= i < next.files.len() implies !is_hashed(
        #[trigger] next.files[i],
    ) by {
        if i < scan.files.len() {
            assert(next.files[i] == scan.files[i]);
        } else {
            assert(next.files[i] == batch[i - scan.files.len()]);
        }
    }
}

/// The files of a portion are those that there are, in whatever order they came.
pub(crate) proof fn lemma_true_batch(
    listing: Listing,
    scan: ScanRecord,
    interval: int,
    replies: Seq<Option<FileInfo>>,
    batch: Seq<FileInfo>,
)
    requires
        makes_sense(listing),
        interval > 0,
        0 <= scan.done < scan.remaining.len(),
        is_true_scan(listing, scan),
        replies.len() <= usize::MAX,
        replies.len() == portion(scan.remaining, scan.done, interval).len(),
        forall|k: int|
            0 <= k < replies.len() ==> record_option(#[trigger] replies[k]) == (listing.metadata)(
                listing.candidates[portion(scan.remaining, scan.done, interval)[k] as int],
            ),
        is_path_sorted(batch, found(replies)) || (found(replies).len() == 0 && batch.len() == 0),
    ensures
        is_true_batch(listing, scan, interval, batch),
{
    let asked = portion(scan.remaining, scan.done, interval);
    lemma_portion(scan.remaining, scan.done, interval);
    let wanted = candidates_at(listing, asked);
    assert forall|k: int| 0 <= k < replies.len() implies record_option(#[trigger] replies[k]) == (
    listing.metadata)(wanted[k]) by {
        assert(wanted[k] == listing.candidates[asked[k] as int]);
    }
    lemma_candidates_differ(listing, asked);
    lemma_found(listing, wanted, replies);
    lemma_found_fits(replies);
    if found(replies).len() == 0 && batch.len() == 0 {
        assert(batch =~= found(replies));
    } else {
        lemma_found_sorted(listing, wanted, found(replies), batch);
        let order = lemma_path_sorted(batch, found(replies));
        assert forall|i: int| 0 <= i < batch.len() implies !is_hashed(#[trigger] batch[i]) by {
            assert(batch[i] == found(replies)[order[i] as int]);
        }
    }
}

proof fn lemma_found_fits(replies: Seq<Option<FileInfo>>)
    ensures
        found(replies).len() <= replies.len(),
    decreases replies.len(),
{
    if replies.len() > 0 {
        lemma_found_fits(replies.drop_last());
    }
}

// ---------------------------------------------------------------------------
// Whole runs
// ---------------------------------------------------------------------------

/// Whether the last thing that a run asked for is what it is waiting for.
#[verifier::opaque]
pub open spec fn awaits(run: Run, asked: Action) -> bool {
    let interval = run.config.checkpoint_interval as int;
    match run.phase {
        Phase::Inspecting => asked is InspectOutputDir,
        Phase::Creating => asked is CreateDirs,
        Phase::Discovering => asked is Discover,
        Phase::Listing { candidates } => asked is ListSaved,
        Phase::Loading { candidates, wanted, next_index } => {
            &&& asked matches Action::ReadCheckpoints(entries)
            &&& entries@.len() == wanted
        },
        Phase::Checkpointing { scan, batch } => asked is Write,
        Phase::Scanning { scan } => {
            &&& asked matches Action::ReadMetadata(next)
            &&& next@ == portion(scan.remaining@, scan.done as int, interval)
        },
        Phase::Fingerprinting { files, targets, prints } => {
            &&& asked matches Action::Fingerprint(samples)
            &&& sample_views(samples@) == sample_list(
                files@,
                portion(targets@, prints@.len() as int, interval),
            )
        },
        Phase::Hashing { files, targets, done } => {
            &&& asked matches Action::Hash(paths)
            &&& texts(paths@) == paths_at(files@, portion(targets@, done as int, interval))
        },
        Phase::Timing { files, targets } => {
            &&& asked matches Action::ReadTimes(paths)
            &&& texts(paths@) == paths_at(files@, targets@)
        },
        Phase::Comparing { planner } => {
            &&& asked matches Action::Compare { left, right }
            &&& planner.question() matches Some((a, b))
            &&& left@ == planner.files@[a as int].file_path@
            &&& right@ == planner.files@[b as int].file_path@
        },
        Phase::Reporting { planner, plan } => asked is Write,
        Phase::Deleting { planner, plan } => {
            &&& asked matches Action::Delete { paths, use_trash }
            &&& paths@.len() == plan.planned_deletions@.len()
        },
        Phase::Recording { planner, plan, deleted, failed } => asked is Write,
        Phase::Summarizing { source, plan, artifacts } => asked is WriteSummary,
        Phase::Ended => asked is Finish || asked is Fail,
    }
}

pub(crate) proof fn lemma_awaits(before: Run, m: Moment)
    requires
        before.wf(),
        continues(before, m),
    ensures
        awaits(m.run, m.step.action),
{
    reveal(awaits);
    reveal(follows);
    if let Phase::Deleting { planner, plan } = m.run.phase {
        let paths = m.step.action->paths;
        assert(texts(paths@).len() == paths@.len());
        assert(paths_at(planner.files@, plan.planned_deletions@).len()
            == plan.planned_deletions@.len());
    }
}

/// What a run is told while it waits for that.
pub open spec fn is_told(truth: Truth, run: Run, told: Event) -> bool {
    exists|asked: Action| awaits(run, asked) && #[trigger] is_true_reply(truth, asked, told)
}

proof fn lemma_told(truth: Truth, run: Run, asked: Action, told: Event)
    requires
        awaits(run, asked),
        is_true_reply(truth, asked, told),
    ensures
        is_told(truth, run, told),
{
}

/// The fingerprints that have been told are true.
pub(crate) proof fn lemma_prints_told(truth: Truth, before: Run, m: Moment)
    requires
        before.wf(),
        holds(truth, before),
        is_told(truth, before, m.event),
    ensures
        before.phase matches Phase::Fingerprinting { files, targets, prints } ==> (
        m.event matches Event::Prints(replies) ==> replies@.len() == portion(
            targets@,
            prints@.len() as int,
            before.config.checkpoint_interval as int,
        ).len() && prints_are_true(truth, files@, targets@, prints@ + replies@)),
{
    reveal(holds);
    reveal(awaits);
    let asked = choose|asked: Action|
        awaits(before, asked) && #[trigger] is_true_reply(truth, asked, m.event);
    if let (Phase::Fingerprinting { files, targets, prints }, Event::Prints(replies)) = (
        before.phase,
        m.event,
    ) {
        let from = prints@.len() as int;
        let interval = before.config.checkpoint_interval as int;
        let next = portion(targets@, from, interval);
        lemma_portion(targets@, from, interval);
        let all = prints@ + replies@;
        let samples = asked->Fingerprint_0;
        assert(sample_views(samples@).len() == samples@.len());
        assert(sample_list(files@, next).len() == next.len());
        assert forall|k: int| 0 <= k < all.len() implies text_option(#[trigger] all[k]) == Some(
            fingerprint_of((truth.contents)(files@[targets@[k] as int].file_path@)),
        ) by {
            if k < from {
                assert(all[k] == prints@[k]);
            } else {
                assert(all[k] == replies@[k - from]);
                assert(sample_views(samples@)[k - from].0 == samples@[k - from].path@);
                assert(sample_list(files@, next)[k - from].0
                    == files@[next[k - from] as int].file_path@);
                assert(next[k - from] == targets@[k]);
            }
        }
    }
}

proof fn lemma_step_in_planning(truth: Truth, before: Run, m: Moment)
    requires
        before.wf(),
        continues(before, m),
        holds(truth, before),
        is_told(truth, before, m.event),
        before.phase is Timing || planner_of(before.phase) is Some,
    ensures
        holds(truth, m.run),
{
    reveal(holds);
    reveal(awaits);
    reveal(follows);
    let asked = choose|asked: Action|
        awaits(before, asked) && #[trigger] is_true_reply(truth, asked, m.event);
    match (before.phase, m.event) {
        (Phase::Timing { files, targets }, Event::Times(replies)) => {
            if replies@.len() == targets@.len() {
                let paths = asked->ReadTimes_0;
                assert forall|k: int| 0 <= k < targets@.len() implies #[trigger] replies@[k]
                    == Some((truth.times)(files@[targets@[k] as int].file_path@)) by {
                    assert(texts(paths@)[k] == paths@[k]@);
                    assert(paths_at(files@, targets@)[k]
                        == files@[targets@[k] as int].file_path@);
                }
                lemma_times_told(truth, files@, targets@, replies@);
                lemma_starts_planning(
                    truth,
                    before.config,
                    before.platform,
                    files@,
                    with_times(files@.len(), targets@, replies@),
                    no_reports(),
                    m.run,
                    m.step,
                );
            }
        },
        (Phase::Comparing { planner }, Event::Compared(identical)) => {
            let next = choose|next: Planner|
                next.takes(planner, identical, before.config.keep_rule@, before.platform)
                    && #[trigger] continues_planning(next, no_reports(), m.run, m.step);
            assert(planner.files.len() == planner.files@.len());
            planner.lemma_question_in_range(before.config.keep_rule@, before.platform);
            assert(plans_truly(truth, before.config.fast_prefilter, next));
            assert(planner_of(m.run.phase) == Some(next));
        },
        _ => {},
    }
}

proof fn lemma_step_in_hashing(truth: Truth, before: Run, m: Moment)
    requires
        before.wf(),
        continues(before, m),
        holds(truth, before),
        is_told(truth, before, m.event),
        before.phase is Fingerprinting || before.phase is Hashing,
    ensures
        holds(truth, m.run),
{
    reveal(holds);
    reveal(awaits);
    reveal(follows);
    let asked = choose|asked: Action|
        awaits(before, asked) && #[trigger] is_true_reply(truth, asked, m.event);
    let interval = before.config.checkpoint_interval as int;
    match (before.phase, m.event) {
        (Phase::Fingerprinting { files, targets, prints }, Event::Prints(replies)) => {
            let from = prints@.len() as int;
            let next = portion(targets@, from, interval);
            lemma_portion(targets@, from, interval);
            if replies@.len() == next.len() {
                let all = prints@ + replies@;
                lemma_prints_told(truth, before, m);
                let sent = seq![
                    note(
                        RunStage::Hashing,
                        share_message(
                            "Fingerprinted "@,
                            all.len() as int,
                            targets@.len() as int,
                            " same-size candidates"@,
                        ),
                        Some(targets@.len() as usize),
                        all.len() as int,
                        0,
                        0,
                    ),
                ];
                lemma_continues_fingerprinting(
                    truth,
                    before.config,
                    before.platform,
                    files@,
                    targets@,
                    all,
                    sent,
                    m.run,
                    m.step,
                );
            }
        },
        (Phase::Hashing { files, targets, done }, Event::Hashes(replies)) => {
            let next = portion(targets@, done as int, interval);
            lemma_portion(targets@, done as int, interval);
            if replies@.len() == next.len() {
                let paths = asked->Hash_0;
                assert forall|k: int| 0 <= k < replies@.len() implies text_option(
                    #[trigger] replies@[k],
                ) == Some(
                    content_hash((truth.contents)(files@[next[k] as int].file_path@)),
                ) by {
                    assert(texts(paths@)[k] == paths@[k]@);
                    assert(paths_at(files@, next)[k] == files@[next[k] as int].file_path@);
                }
                let fast = before.config.fast_prefilter;
                lemma_hashes_told(truth, fast, files@, targets@, done as int, interval, replies@);
                let hashed = portion_end(done as int, interval, targets@.len() as int);
                let sent = seq![
                    note(
                        RunStage::Hashing,
                        share_message(
                            "Hashed "@,
                            hashed,
                            targets@.len() as int,
                            " candidate files"@,
                        ),
                        Some(targets@.len() as usize),
                        hashed,
                        0,
                        0,
                    ),
                ];
                lemma_continues_hashing(
                    truth,
                    before.config,
                    before.platform,
                    with_hashes(files@, next, replies@),
                    targets@,
                    hashed,
                    sent,
                    m.run,
                    m.step,
                );
            }
        },
        _ => {},
    }
}

proof fn lemma_step_in_scanning(truth: Truth, before: Run, m: Moment)
    requires
        is_sound(truth),
        before.wf(),
        continues(before, m),
        holds(truth, before),
        is_told(truth, before, m.event),
        before.phase is Scanning || before.phase is Checkpointing,
    ensures
        holds(truth, m.run),
{
    reveal(holds);
    reveal(awaits);
    reveal(follows);
    let asked = choose|asked: Action|
        awaits(before, asked) && #[trigger] is_true_reply(truth, asked, m.event);
    let interval = before.config.checkpoint_interval as int;
    match (before.phase, m.event) {
        (Phase::Scanning { scan }, Event::Metadata(replies)) => {
            let next = portion(scan.remaining@, scan.done as int, interval);
            lemma_portion(scan.remaining@, scan.done as int, interval);
            if replies@.len() == next.len() {
                if found(replies@).len() == 0 {
                    let none = Seq::<FileInfo>::empty();
                    if let Some(listing) = truth.listing {
                        lemma_true_batch(listing, scan@, interval, replies@, none);
                        lemma_advanced(listing, scan@, interval, none);
                    }
                    lemma_continues_scan(
                        truth,
                        before.config,
                        before.platform,
                        scan@.advanced(interval, none),
                        no_reports(),
                        m.run,
                        m.step,
                    );
                } else if scan.next_index < usize::MAX {
                    if let Some(listing) = truth.listing {
                        let batch = m.run.phase->Checkpointing_batch;
                        lemma_true_batch(listing, scan@, interval, replies@, batch@);
                    }
                }
            }
        },
        (Phase::Checkpointing { scan, batch }, Event::Done) => {
            if let Some(listing) = truth.listing {
                lemma_advanced(listing, scan@, interval, batch@);
            }
            let next = scan@.advanced(interval, batch@);
            lemma_continues_scan(
                truth,
                before.config,
                before.platform,
                next,
                seq![indexing_note(next)],
                m.run,
                m.step,
            );
        },
        _ => {},
    }
}

proof fn lemma_step_before_scanning(truth: Truth, before: Run, m: Moment)
    requires
        is_sound(truth),
        before.wf(),
        continues(before, m),
        holds(truth, before),
        is_told(truth, before, m.event),
        before.phase is Inspecting || before.phase is Creating || before.phase is Discovering,
    ensures
        holds(truth, m.run),
{
    reveal(holds);
    reveal(awaits);
    reveal(follows);
    let asked = choose|asked: Action|
        awaits(before, asked) && #[trigger] is_true_reply(truth, asked, m.event);
    if let (Phase::Discovering, Event::Candidates(candidates)) = (before.phase, m.event) {
        if !before.config.resume {
            assert(texts(candidates@).len() == candidates.len());
            let sent = seq![
                note(
                    RunStage::Scanning,
                    count_message("Found "@, candidates@.len() as int, " candidate files"@),
                    Some(candidates@.len() as usize),
                    0,
                    0,
                    0,
                ),
            ];
            let none = Seq::<FileInfo>::empty();
            assert(path_list(none) =~= Seq::empty());
            assert(records(none) =~= Seq::empty());
            lemma_begins_scan(
                truth,
                before.config,
                before.platform,
                texts(candidates@),
                none,
                0,
                sent,
                m.run,
                m.step,
            );
        }
    }
}

/// What holds of a run that starts from a list of known files.
proof fn lemma_resumes_scan(
    truth: Truth,
    config: RunConfig,
    platform: Platform,
    candidates: Seq<Seq<char>>,
    saved: Seq<FileRecord>,
    next_index: int,
    after: Run,
    step: Step,
)
    requires
        is_sound(truth),
        after.config == config,
        candidates.len() <= usize::MAX,
        truth.listing matches Some(listing) ==> {
            &&& listing.candidates == candidates
            &&& is_part(listing, saved)
            &&& forall|i: int, j: int|
                0 <= i < j < saved.len() ==> (#[trigger] saved[i]).file_path != (
                #[trigger] saved[j]).file_path
        },
        resumes_scan(config, platform, candidates, saved, next_index, after, step),
    ensures
        holds(truth, after),
{
    let files = choose|files: Seq<FileInfo>|
        records(files) == saved && #[trigger] begins_scan(
            config,
            platform,
            candidates,
            files,
            next_index,
            no_reports(),
            after,
            step,
        );
    if truth.listing is Some {
        let paths = path_list(files);
        assert(saved.len() == files.len());
        assert forall|i: int, j: int| 0 <= i < j < paths.len() implies paths[i] != paths[j] by {
            assert(saved[i] == files[i]@ && saved[j] == files[j]@);
        }
    }
    lemma_begins_scan(
        truth,
        config,
        platform,
        candidates,
        files,
        next_index,
        no_reports(),
        after,
        step,
    );
}

proof fn lemma_step_in_resuming(truth: Truth, before: Run, m: Moment)
    requires
        is_sound(truth),
        before.wf(),
        continues(before, m),
        holds(truth, before),
        is_told(truth, before, m.event),
        before.phase is Listing || before.phase is Loading,
    ensures
        holds(truth, m.run),
{
    reveal(holds);
    reveal(awaits);
    reveal(follows);
    let asked = choose|asked: Action|
        awaits(before, asked) && #[trigger] is_true_reply(truth, asked, m.event);
    match (before.phase, m.event) {
        (Phase::Listing { candidates }, Event::Saved { all_files: Some(data), stems }) => {
            assert(texts(candidates@).len() == candidates.len());
            if let Some(saved) = saved_files(data@) {
                let index = number_after(text_options(stems@));
                if index <= usize::MAX {
                    lemma_resumes_scan(
                        truth,
                        before.config,
                        before.platform,
                        texts(candidates@),
                        saved,
                        index,
                        m.run,
                        m.step,
                    );
                }
            }
        },
        (Phase::Loading { candidates, wanted, next_index }, Event::CheckpointData(data)) => {
            assert(texts(candidates@).len() == candidates.len());
            if data@.len() == wanted {
                if let Some(saved) = loaded_files(contents_of(data@)) {
                    law_each_path_is_loaded_once(all_saved(contents_of(data@))->0);
                    lemma_resumes_scan(
                        truth,
                        before.config,
                        before.platform,
                        texts(candidates@),
                        saved,
                        next_index as int,
                        m.run,
                        m.step,
                    );
                }
            }
        },
        _ => {},
    }
}

proof fn lemma_step(truth: Truth, before: Run, m: Moment)
    requires
        is_sound(truth),
        before.wf(),
        continues(before, m),
        holds(truth, before),
        is_told(truth, before, m.event),
    ensures
        holds(truth, m.run),
{
    match before.phase {
        Phase::Inspecting | Phase::Creating | Phase::Discovering => {
            lemma_step_before_scanning(truth, before, m);
        },
        Phase::Listing { .. } | Phase::Loading { .. } => {
            lemma_step_in_resuming(truth, before, m);
        },
        Phase::Scanning { .. } | Phase::Checkpointing { .. } => {
            lemma_step_in_scanning(truth, before, m);
        },
        Phase::Fingerprinting { .. } | Phase::Hashing { .. } => {
            lemma_step_in_hashing(truth, before, m);
        },
        Phase::Ended => {
            reveal(follows);
        },
        _ => {
            lemma_step_in_planning(truth, before, m);
        },
    }
}

/// As long as a run is told the truth, what it holds is true.
pub(crate) proof fn lemma_truth_is_kept(truth: Truth, start: Run, history: Seq<Moment>, n: int)
    requires
        is_sound(truth),
        is_history(start, history),
        is_truthful(truth, history),
        0 <= n <= history.len(),
    ensures
        run_after(start, history, n).wf(),
        run_after(start, history, n).config == start.config,
        run_after(start, history, n).platform == start.platform,
        holds(truth, run_after(start, history, n)),
        n > 0 ==> awaits(run_after(start, history, n), history[n - 1].step.action),
        n < history.len() ==> is_told(truth, run_after(start, history, n), history[n].event),
    decreases n,
{
    if n > 0 {
        lemma_truth_is_kept(truth, start, history, n - 1);
        let before = run_after(start, history, n - 1);
        let m = history[n - 1];
        assert(continues(before, m));
        lemma_awaits(before, m);
        lemma_step(truth, before, m);
    } else {
        reveal(holds);
    }
    if n < history.len() {
        let run = run_after(start, history, n);
        let told = history[n].event;
        if n == 0 {
            let asked = Action::InspectOutputDir;
            assert(is_true_reply(truth, asked, told));
            assert(awaits(run, asked)) by {
                reveal(awaits);
            }
            lemma_told(truth, run, asked, told);
        } else {
            assert(is_true_step(truth, history, n));
            lemma_told(truth, run, history[n - 1].step.action, told);
        }
    }
}

} // verus!
