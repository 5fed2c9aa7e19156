//! What every run promises: what it deletes, what it hashes, what it looks at, and that
//! it comes to an end.
use vstd::prelude::*;
use vstd::string::*;

use crate::exchange::{sample_views, Action, Event, Step};
use crate::model::{
    records, FileInfo, OperationMode, Platform, ProgressRecord, RunArtifacts, RunConfig,
};
use crate::plan::{
    found_equal, is_hashed, law_deletions_are_verified, law_no_content_is_lost,
    law_plan_covers_all_files, Planner,
};
use crate::prefilter::shares_size;
use crate::resume::number_after;
use crate::run::follows;
use crate::scan::{path_list, portion, portion_end};
use crate::select::{ascending, lemma_ascending};
use crate::stages::planning::{begins_planning, completes_plan};
use crate::stages::resuming::{resumes_scan, takes_saved};
use crate::stages::scanning::begins_scan;
use crate::state::{has_same_size, Phase, Run};
use crate::text::texts;

verus! {

// ---------------------------------------------------------------------------
// Deletions
// ---------------------------------------------------------------------------

proof fn lemma_deletion_follows_reports(before: Run, event: Event, after: Run, step: Step)
    requires
        before.wf(),
        follows(before, event, after, step),
        step.action is Delete,
    ensures
        before.phase is Reporting,
        before.config.mode == OperationMode::Apply,
{
    reveal(follows);
}

/// A dry run deletes nothing.
pub proof fn law_dry_run_deletes_nothing(before: Run, event: Event, after: Run, step: Step)
    requires
        before.wf(),
        before.config.mode == OperationMode::DryRun,
        follows(before, event, after, step),
    ensures
        !(step.action is Delete),
{
    reveal(follows);
    if step.action is Delete {
        lemma_deletion_follows_reports(before, event, after, step);
    }
}

/// Files go to the trash exactly where the run was set up to move them there.
pub proof fn law_trash_is_used_as_asked(before: Run, event: Event, after: Run, step: Step)
    requires
        before.wf(),
        follows(before, event, after, step),
    ensures
        step.action matches Action::Delete { paths, use_trash } ==> use_trash
            == before.config.use_trash,
{
    reveal(follows);
    if step.action is Delete {
        lemma_deletion_follows_reports(before, event, after, step);
    }
}

/// A run that applies its plan deletes the whole of it: once the reports on the plan are
/// written, the paths of all files that are planned for deletion, each once and no others.
pub proof fn law_apply_deletes_the_whole_plan(before: Run, after: Run, step: Step)
    requires
        before.wf(),
        before.config.mode == OperationMode::Apply,
        before.phase is Reporting,
        follows(before, Event::Done, after, step),
    ensures
        before.phase matches Phase::Reporting { planner, plan }
            && step.action matches Action::Delete { paths, use_trash } && {
            &&& use_trash == before.config.use_trash
            &&& paths@.len() == plan.planned_deletions@.len()
            &&& forall|k: int|
                0 <= k < paths@.len() ==> (#[trigger] paths@[k])@
                    == planner.files@[plan.planned_deletions@[k] as int].file_path@
        },
{
    reveal(follows);
    if let Phase::Reporting { planner, plan } = before.phase {
        if let Action::Delete { paths, use_trash } = step.action {
            assert(texts(paths@).len() == plan.planned_deletions@.len());
            assert forall|k: int| 0 <= k < paths@.len() implies (#[trigger] paths@[k])@
                == planner.files@[plan.planned_deletions@[k] as int].file_path@ by {
                assert(texts(paths@)[k] == paths@[k]@);
            }
        }
    }
}

/// What is deleted has been verified: each file that a run has deleted is one of those
/// planned for deletion, and was compared with a file that is kept, and found equal.
pub proof fn law_only_verified_duplicates_are_deleted(
    before: Run,
    event: Event,
    after: Run,
    step: Step,
    k: int,
)
    requires
        before.wf(),
        follows(before, event, after, step),
        step.action matches Action::Delete { paths, use_trash } && 0 <= k < paths@.len(),
    ensures
        before.phase matches Phase::Reporting { planner, plan } && {
            let doomed = plan.planned_deletions@[k];
            let kept = planner.home@[doomed as int];
            &&& k < plan.planned_deletions@.len()
            &&& step.action->paths@[k]@ == planner.files@[doomed as int].file_path@
            &&& plan.kept@.contains(kept)
            &&& !plan.planned_deletions@.contains(kept)
            &&& found_equal(planner.answers@, doomed, kept)
        },
{
    reveal(follows);
    lemma_deletion_follows_reports(before, event, after, step);
    if let Phase::Reporting { planner, plan } = before.phase {
        let files = planner.files@;
        let paths = step.action->paths;
        assert(texts(paths@)[k] == paths@[k]@);
        assert(texts(paths@).len() == plan.planned_deletions@.len());
        let doomed = plan.planned_deletions@[k];
        law_plan_covers_all_files(files, planner.home@, plan);
        assert(plan.planned_deletions@.contains(doomed));
        law_deletions_are_verified(
            files,
            planner.fine@,
            before.config.keep_rule@,
            before.platform,
            planner.order@,
            planner.home@,
            planner.answers@,
            doomed,
        );
        let kept = planner.home@[doomed as int];
        assert(plan.kept@.contains(kept));
        assert(!plan.planned_deletions@.contains(kept));
    }
}

/// Deleting what a run has deleted loses nothing: where files that were found equal have
/// equal contents, the contents of every scanned file are those of a file that is kept.
pub proof fn law_no_content_is_lost_by_a_run(
    before: Run,
    event: Event,
    after: Run,
    step: Step,
    contents: spec_fn(usize) -> Seq<u8>,
    i: usize,
)
    requires
        before.wf(),
        follows(before, event, after, step),
        step.action is Delete,
        before.phase matches Phase::Reporting { planner, plan } ==> i < planner.files@.len() && (
        forall|a: usize, b: usize| #[trigger]
            found_equal(planner.answers@, a, b) ==> contents(a) == contents(b)),
    ensures
        before.phase matches Phase::Reporting { planner, plan } && exists|k: usize| #[trigger]
            plan.kept@.contains(k) && contents(k) == contents(i),
{
    reveal(follows);
    lemma_deletion_follows_reports(before, event, after, step);
    if let Phase::Reporting { planner, plan } = before.phase {
        law_no_content_is_lost(
            planner.files@,
            planner.fine@,
            before.config.keep_rule@,
            before.platform,
            planner.order@,
            planner.home@,
            planner.answers@,
            plan,
            contents,
            i,
        );
    }
}

/// A comparison that a run asks for is that of the two files of the planner's question.
pub proof fn law_comparisons_are_the_questions(before: Run, event: Event, after: Run, step: Step)
    requires
        before.wf(),
        follows(before, event, after, step),
        step.action is Compare,
    ensures
        after.phase matches Phase::Comparing { planner } && planner.question() matches Some((a, b))
            && step.action->left@ == planner.files@[a as int].file_path@
            && step.action->right@ == planner.files@[b as int].file_path@,
{
    reveal(follows);
}

/// The files that were found equal are those whose comparison said so: each reply is
/// recorded under the question that it answers, and nothing else is.
pub proof fn law_answers_come_from_comparisons(
    before: Run,
    identical: bool,
    after: Run,
    step: Step,
)
    requires
        before.wf(),
        before.phase is Comparing,
        follows(before, Event::Compared(identical), after, step),
    ensures
        ({
            let asked = before.phase->Comparing_planner;
            match after.phase {
                Phase::Comparing { planner } => planner.answers@ == asked.answers@.insert(
                    asked.question()->0,
                    identical,
                ),
                Phase::Reporting { planner, plan } => planner.answers@ == asked.answers@.insert(
                    asked.question()->0,
                    identical,
                ),
                _ => false,
            }
        }),
{
    reveal(follows);
}

// ---------------------------------------------------------------------------
// Results
// ---------------------------------------------------------------------------

/// The counts of a finished run add up: every scanned file is kept or planned for
/// deletion, and every planned deletion was carried out or failed, or, in a dry run, none
/// was tried.
pub proof fn law_results_add_up(before: Run, event: Event, after: Run, step: Step)
    requires
        before.wf(),
        follows(before, event, after, step),
        step.action is Finish,
    ensures
        ({
            let a: RunArtifacts = step.action->Finish_0;
            &&& a.summary.kept_files + a.summary.planned_deletions == a.summary.scanned_files
            &&& a.summary.scanned_files == a.all_files@.len()
            &&& a.summary.kept_files == a.kept_files@.len()
            &&& a.summary.planned_deletions == a.planned_deletions@.len()
            &&& a.summary.deleted_files == a.deleted_files@.len()
            &&& a.summary.failed_deletions == a.failed_deletions@.len()
            &&& a.summary.deleted_files + a.summary.failed_deletions == if before.config.mode
                == OperationMode::Apply {
                a.summary.planned_deletions as int
            } else {
                0
            }
        }),
{
    reveal(follows);
    if let Phase::Summarizing { source, plan, artifacts } = before.phase {
        law_plan_covers_all_files(source@.files@, source@.home@, plan);
    }
}

// ---------------------------------------------------------------------------
// Hashing
// ---------------------------------------------------------------------------

/// With the fast prefilter, no file is hashed, nor is a fingerprint of it taken, unless
/// some other file has its size.
pub proof fn law_fast_prefilter_hashes_only_same_size_files(
    before: Run,
    event: Event,
    after: Run,
    step: Step,
    k: int,
)
    requires
        before.wf(),
        after.wf(),
        before.config == after.config,
        before.config.fast_prefilter,
        follows(before, event, after, step),
    ensures
        step.action matches Action::Hash(paths) ==> 0 <= k < paths@.len() ==> exists|i: int|
            paths@[k]@ == (#[trigger] after.phase->Hashing_files@[i]).file_path@ && has_same_size(
                after.phase->Hashing_files@,
                i,
            ),
        step.action matches Action::Fingerprint(samples) ==> 0 <= k < samples@.len() ==> exists|
            i: int,
        |
            samples@[k].path@ == (#[trigger] after.phase->Fingerprinting_files@[i]).file_path@
                && has_same_size(after.phase->Fingerprinting_files@, i),
{
    reveal(follows);
    let interval = before.config.checkpoint_interval as int;
    if let Action::Hash(paths) = step.action {
        if 0 <= k < paths@.len() {
            assert(after.phase is Hashing);
            if let Phase::Hashing { files, targets, done } = after.phase {
                let part = portion(targets@, done as int, interval);
                assert(texts(paths@)[k] == paths@[k]@);
                assert(texts(paths@).len() == part.len());
                assert(part[k] == targets@[done + k]);
                assert(has_same_size(files@, targets@[done + k] as int));
                assert(files@[targets@[done + k] as int].file_path@ == paths@[k]@);
            }
        }
    }
    if let Action::Fingerprint(samples) = step.action {
        if 0 <= k < samples@.len() {
            assert(after.phase is Fingerprinting);
            if let Phase::Fingerprinting { files, targets, prints } = after.phase {
                let part = portion(targets@, prints@.len() as int, interval);
                assert(sample_views(samples@)[k].0 == samples@[k].path@);
                assert(sample_views(samples@).len() == part.len());
                let shares = |i: int| shares_size(files@, i);
                lemma_ascending(files@.len(), shares);
                assert(part[k] == targets@[prints@.len() + k]);
                assert(shares(targets@[prints@.len() + k] as int));
                assert(has_same_size(files@, targets@[prints@.len() + k] as int));
                assert(files@[targets@[prints@.len() + k] as int].file_path@ == samples@[k].path@);
            }
        }
    }
}

// ---------------------------------------------------------------------------
// Scanning
// ---------------------------------------------------------------------------

/// A resumed run does not look again at what it knows: no candidate is read whose path is
/// that of a file that saved data holds.
pub proof fn law_known_files_are_not_read_again(
    config: RunConfig,
    platform: Platform,
    candidates: Seq<Seq<char>>,
    files: Seq<FileInfo>,
    next_index: int,
    reports: Seq<ProgressRecord>,
    after: Run,
    step: Step,
    k: int,
)
    requires
        candidates.len() <= usize::MAX,
        config.checkpoint_interval > 0,
        begins_scan(config, platform, candidates, files, next_index, reports, after, step),
        step.action matches Action::ReadMetadata(wanted) && 0 <= k < wanted@.len(),
    ensures
        step.action->ReadMetadata_0@[k] < candidates.len(),
        !path_list(files).contains(candidates[step.action->ReadMetadata_0@[k] as int]),
{
    let fresh = |i: int| !path_list(files).contains(candidates[i]);
    lemma_ascending(candidates.len(), fresh);
    let wanted = step.action->ReadMetadata_0;
    assert(wanted@[k] == ascending(candidates.len(), fresh)[k]);
}

/// Portions leave nothing out: the rest of a list is its next portion and what comes after
/// that.
pub proof fn law_portions_leave_nothing_out(items: Seq<usize>, from: int, interval: int)
    requires
        0 <= from <= items.len(),
        interval > 0,
    ensures
        items.skip(from) == portion(items, from, interval) + items.skip(
            portion_end(from, interval, items.len() as int),
        ),
{
    assert(items.skip(from) =~= portion(items, from, interval) + items.skip(
        portion_end(from, interval, items.len() as int),
    ));
}

/// A run can be resumed from its reports: the table of all files that a run writes gives a
/// resumed run the files, hashes included, that the first one planned for.
pub proof fn law_reports_can_be_resumed_from(
    planner: Planner,
    reports: Seq<ProgressRecord>,
    written: Run,
    writing: Step,
    config: RunConfig,
    platform: Platform,
    candidates: Vec<String>,
    data: Vec<u8>,
    stems: Seq<Option<Seq<char>>>,
    after: Run,
    step: Step,
)
    requires
        completes_plan(planner, reports, written, writing),
        writing.action->Write_0@[0].data@ == data@,
        takes_saved(config, platform, candidates, Some(data), stems, after, step),
        number_after(stems) <= usize::MAX,
    ensures
        resumes_scan(
            config,
            platform,
            texts(candidates@),
            records(planner.files@),
            number_after(stems),
            after,
            step,
        ),
{
}

/// Where every candidate is known and every known file is hashed, a resumed run plans at
/// once: of a file it reads nothing but its times and, to compare it, its contents.
pub proof fn law_complete_scan_is_planned_at_once(
    config: RunConfig,
    platform: Platform,
    candidates: Seq<Seq<char>>,
    files: Seq<FileInfo>,
    next_index: int,
    reports: Seq<ProgressRecord>,
    after: Run,
    step: Step,
)
    requires
        candidates.len() <= usize::MAX,
        files.len() <= usize::MAX,
        forall|i: int|
            0 <= i < candidates.len() ==> path_list(files).contains(#[trigger] candidates[i]),
        forall|i: int| 0 <= i < files.len() ==> is_hashed(#[trigger] files[i]),
        begins_scan(config, platform, candidates, files, next_index, reports, after, step),
    ensures
        step.action matches Action::Fail(failure) && failure is TooManyFiles || exists|
            sofar: Seq<ProgressRecord>,
        | #[trigger] begins_planning(config, platform, files, sofar, after, step),
{
    let fresh = |i: int| !path_list(files).contains(candidates[i]);
    let unhashed = |i: int| !is_hashed(files[i]);
    let shares = |i: int| shares_size(files, i);
    lemma_ascending(candidates.len(), fresh);
    lemma_ascending(files.len(), unhashed);
    lemma_ascending(files.len(), shares);
    let rest = ascending(candidates.len(), fresh);
    if rest.len() > 0 {
        assert(fresh(rest[0] as int));
        assert(path_list(files).contains(candidates[rest[0] as int]));
    }
    let to_hash = ascending(files.len(), unhashed);
    if to_hash.len() > 0 {
        assert(unhashed(to_hash[0] as int));
        assert(is_hashed(files[to_hash[0] as int]));
    }
    let to_print = ascending(files.len(), shares);
    if to_print.len() > 0 {
        assert(shares(to_print[0] as int));
        assert(is_hashed(files[to_print[0] as int]));
    }
}

// ---------------------------------------------------------------------------
// The end
// ---------------------------------------------------------------------------

/// How many kinds of phases a run may still come to.
pub open spec fn stages_left(phase: Phase) -> nat {
    match phase {
        Phase::Inspecting => 13,
        Phase::Creating => 12,
        Phase::Discovering => 11,
        Phase::Listing { .. } => 10,
        Phase::Loading { .. } => 9,
        Phase::Scanning { .. } => 8,
        Phase::Checkpointing { .. } => 8,
        Phase::Fingerprinting { .. } => 7,
        Phase::Hashing { .. } => 6,
        Phase::Timing { .. } => 5,
        Phase::Comparing { .. } => 4,
        Phase::Reporting { .. } => 3,
        Phase::Deleting { .. } => 2,
        Phase::Recording { .. } => 2,
        Phase::Summarizing { .. } => 1,
        Phase::Ended => 0,
    }
}

/// How much of the work of a phase is left.
pub open spec fn work_left(phase: Phase) -> int {
    match phase {
        Phase::Scanning { scan } => 2 * (scan.remaining@.len() - scan.done) + 1,
        Phase::Checkpointing { scan, batch } => 2 * (scan.remaining@.len() - scan.done),
        Phase::Fingerprinting { files, targets, prints } => targets@.len() - prints@.len(),
        Phase::Hashing { files, targets, done } => targets@.len() - done,
        Phase::Comparing { planner } => planner.order@.len() - planner.position,
        Phase::Deleting { .. } => 1,
        _ => 0,
    }
}

/// How many kept files the current file may still have to be compared with.
pub open spec fn comparisons_left(phase: Phase) -> int {
    match phase {
        Phase::Comparing { planner } => planner.order@.len() - planner.cursor,
        _ => 0,
    }
}

proof fn lemma_ascending_is_short(s: Seq<usize>, bound: int)
    requires
        0 <= bound,
        forall|k: int| 0 <= k < s.len() ==> #[trigger] s[k] < bound,
        forall|j: int, k: int| 0 <= j < k < s.len() ==> s[j] < s[k],
    ensures
        s.len() <= bound,
    decreases s.len(),
{
    if s.len() > 0 {
        lemma_ascending_is_short(s.drop_last(), s.last() as int);
    }
}

proof fn lemma_comparisons_left(run: Run)
    requires
        run.wf(),
    ensures
        comparisons_left(run.phase) >= 0,
{
    if let Phase::Comparing { planner } = run.phase {
        assert(planner.leaders_known());
        lemma_ascending_is_short(planner.leaders@, planner.position as int);
    }
}

/// Every run comes to an end: with each step there is less left of it to do.
pub proof fn law_every_run_ends(before: Run, event: Event, after: Run, step: Step)
    requires
        before.wf(),
        after.wf(),
        before.config == after.config,
        before.platform == after.platform,
        !(before.phase is Ended),
        follows(before, event, after, step),
    ensures
        work_left(after.phase) >= 0,
        comparisons_left(after.phase) >= 0,
        ({
            ||| stages_left(after.phase) < stages_left(before.phase)
            ||| stages_left(after.phase) == stages_left(before.phase) && work_left(after.phase)
                < work_left(before.phase)
            ||| stages_left(after.phase) == stages_left(before.phase) && work_left(after.phase)
                == work_left(before.phase) && comparisons_left(after.phase) < comparisons_left(
                before.phase,
            )
        }),
{
    reveal(follows);
    lemma_comparisons_left(after);
}

} // verus!
