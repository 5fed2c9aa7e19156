//! Runs that are made again: when two runs come to one plan.
use vstd::prelude::*;
use vstd::string::*;

use crate::exchange::{count_message, is_report, note, share_message, Action, Event, Folder, Step};
use crate::hashing::fingerprint_of;
use crate::history::{continues, is_history, planner_of, run_after, Moment};
use crate::model::{
    records, FileInfo, KeepRuleRecord, Platform, ProgressRecord, RunConfig, RunStage,
    ALL_FILES_CSV,
};
use crate::plan::{
    is_assignment, is_hashed, is_plan, is_plan_order, law_same_files_same_plan, DedupPlan, Planner,
};
use crate::prefilter::{full_hash_choice, is_contested, shares_print, shares_size};
use crate::rank::{is_by_path, is_path_sorted, lemma_by_path_stays, same_content_key};
use crate::resume::number_after;
use crate::run::follows;
use crate::scan::{lemma_portion, path_list, portion, unscanned};
use crate::select::{ascending, lemma_ascending};
use crate::stages::hashing::begins_hashing;
use crate::stages::planning::{begins_planning, planning_note, times_files};
use crate::stages::resuming::resumes_scan;
use crate::stages::scanning::begins_scan;
use crate::state::{no_reports, Phase, Run};
use crate::table::saved_files;
use crate::text::{text_lt, text_option, text_options, texts};
use crate::truth::{
    holds, is_told, is_truthful, lemma_hashed_files_fit, lemma_planned_files_fit,
    lemma_prints_told, lemma_truth_is_kept, looks_alike, only_pending, owes_hash, plans_truly,
    prints_are_true, Truth,
};

verus! {

// ---------------------------------------------------------------------------
// A run that takes up the table of another
// ---------------------------------------------------------------------------

/// Whether an event tells of no candidate but those at `paths`, and, where it tells of saved
/// data, of the table `table`.
#[verifier::opaque]
pub open spec fn offers(event: Event, table: Seq<u8>, paths: Seq<Seq<char>>) -> bool {
    match event {
        Event::Candidates(candidates) => forall|k: int|
            0 <= k < candidates@.len() ==> paths.contains(#[trigger] candidates@[k]@),
        Event::Saved { all_files, stems } => all_files matches Some(data) && data@ == table,
        _ => true,
    }
}

/// Whether a history is that of a run that finds the table `table`, and no candidate but those
/// at `paths`.
pub open spec fn takes_up(history: Seq<Moment>, table: Seq<u8>, paths: Seq<Seq<char>>) -> bool {
    forall|t: int|
        0 <= t < history.len() ==> offers((#[trigger] history[t]).event, table, paths)
}

/// What is known to be in the table that a run takes up: files in the order of paths, of
/// which none is still to be hashed.
pub open spec fn is_settled(truth: Truth, fast: bool, known: Seq<FileInfo>) -> bool {
    &&& truth.listing is None
    &&& is_by_path(known)
    &&& only_pending(truth, fast, known, Seq::empty())
}

/// Whether a run has no files but those known.
#[verifier::opaque]
pub open spec fn adds_nothing(known: Seq<FileInfo>, run: Run) -> bool {
    match run.phase {
        Phase::Listing { candidates } => forall|k: int|
            0 <= k < candidates@.len() ==> path_list(known).contains(
                #[trigger] candidates@[k]@,
            ),
        Phase::Loading { .. } => false,
        Phase::Scanning { .. } => false,
        Phase::Checkpointing { .. } => false,
        Phase::Hashing { .. } => false,
        Phase::Fingerprinting { files, targets, prints } => records(files@) == records(known),
        Phase::Timing { files, targets } => records(files@) == records(known),
        _ => planner_of(run.phase) matches Some(planner) ==> records(planner.files@) == records(
            known,
        ),
    }
}

pub(crate) proof fn lemma_same_records(files: Seq<FileInfo>, known: Seq<FileInfo>)
    requires
        records(files) == records(known),
    ensures
        files.len() == known.len(),
        forall|i: int|
            #![trigger files[i]]
            #![trigger known[i]]
            0 <= i < files.len() ==> files[i]@ == known[i]@,
        path_list(files) == path_list(known),
        is_by_path(known) ==> is_by_path(files),
{
    assert(records(files).len() == files.len());
    assert(records(known).len() == known.len());
    assert forall|i: int|
        #![trigger files[i]]
        #![trigger known[i]]
        0 <= i < files.len() implies files[i]@ == known[i]@ by {
        assert(records(files)[i] == files[i]@);
        assert(records(known)[i] == known[i]@);
    }
    assert forall|i: int| 0 <= i < files.len() implies path_list(files)[i] == path_list(
        known,
    )[i] by {
        assert(files[i]@ == known[i]@);
    }
    assert(path_list(files) =~= path_list(known));
    if is_by_path(known) {
        assert forall|i: int, j: int|
            #![trigger files[i], files[j]]
            0 <= i < j < files.len() implies text_lt(
            files[i].file_path@,
            files[j].file_path@,
        ) || files[i].file_path@ == files[j].file_path@ by {
            assert(files[i]@ == known[i]@ && files[j]@ == known[j]@);
        }
    }
}

/// What is still to be hashed depends on nothing but what is known of the files.
proof fn lemma_settled_alike(
    truth: Truth,
    fast: bool,
    files: Seq<FileInfo>,
    known: Seq<FileInfo>,
    i: int,
)
    requires
        records(files) == records(known),
        is_settled(truth, fast, known),
        0 <= i < files.len(),
        owes_hash(truth, fast, files, i),
    ensures
        is_hashed(files[i]),
{
    lemma_same_records(files, known);
    assert(files[i]@ == known[i]@);
    if fast {
        let j = choose|j: int|
            0 <= j < files.len() && #[trigger] looks_alike(truth, files, i, j) && (
            truth.listing is Some || !is_hashed(files[j]));
        assert(files[j]@ == known[j]@);
        assert(looks_alike(truth, known, i, j));
    }
    assert(owes_hash(truth, fast, known, i));
}

proof fn lemma_planning_adds_nothing(
    known: Seq<FileInfo>,
    config: RunConfig,
    platform: Platform,
    files: Seq<FileInfo>,
    reports: Seq<ProgressRecord>,
    after: Run,
    step: Step,
)
    requires
        records(files) == records(known),
        is_by_path(known),
        begins_planning(config, platform, files, reports, after, step),
    ensures
        adds_nothing(known, after),
{
    reveal(adds_nothing);
    lemma_planned_files_fit(config, platform, files, reports, after, step);
    lemma_same_records(files, known);
    let sent = reports.push(planning_note(files.len()));
    let sorted = choose|sorted: Seq<FileInfo>|
        is_path_sorted(sorted, files) && #[trigger] times_files(
            config,
            platform,
            sorted,
            sent,
            after,
            step,
        );
    lemma_by_path_stays(files, sorted);
}

/// Nothing is chosen by its fingerprint where nothing is left to be hashed.
proof fn lemma_choice_is_empty(
    truth: Truth,
    known: Seq<FileInfo>,
    files: Seq<FileInfo>,
    targets: Seq<usize>,
    prints: Seq<Option<String>>,
)
    requires
        files.len() <= usize::MAX,
        records(files) == records(known),
        is_settled(truth, true, known),
        targets == ascending(files.len(), |i: int| shares_size(files, i)),
        prints.len() == targets.len(),
        prints_are_true(truth, files, targets, prints),
    ensures
        full_hash_choice(files, targets, prints).len() == 0,
{
    let same = |i: int| shares_size(files, i);
    lemma_ascending(files.len(), same);
    let want = |k: int| shares_print(files, targets, prints, k);
    lemma_ascending(targets.len(), want);
    let s = ascending(targets.len(), want);
    if s.len() > 0 {
        let k = s[0] as int;
        assert(want(k));
        let m = choose|m: int|
            0 <= m < targets.len() && m != k && text_option(#[trigger] prints[m]) == text_option(
                prints[k],
            ) && files[targets[m] as int].file_size == files[targets[k] as int].file_size;
        let i = targets[k] as int;
        let j = targets[m] as int;
        assert(same(i) && same(j));
        assert(i != j);
        assert(text_option(prints[k]) == Some(
            fingerprint_of((truth.contents)(files[i].file_path@)),
        ));
        assert(looks_alike(truth, files, i, j));
        assert(owes_hash(truth, true, files, i));
        lemma_settled_alike(truth, true, files, known, i);
    }
}

proof fn lemma_hashing_adds_nothing(
    truth: Truth,
    known: Seq<FileInfo>,
    config: RunConfig,
    platform: Platform,
    files: Seq<FileInfo>,
    reports: Seq<ProgressRecord>,
    after: Run,
    step: Step,
)
    requires
        records(files) == records(known),
        is_settled(truth, config.fast_prefilter, known),
        begins_hashing(config, platform, files, reports, after, step),
    ensures
        adds_nothing(known, after),
{
    reveal(adds_nothing);
    lemma_hashed_files_fit(config, platform, files, reports, after, step);
    if config.fast_prefilter {
        let targets = ascending(files.len(), |i: int| shares_size(files, i));
        if targets.len() == 0 {
            lemma_planning_adds_nothing(known, config, platform, files, reports, after, step);
        } else {
            assert(after.phase is Fingerprinting);
        }
    } else {
        let want = |i: int| !is_hashed(files[i]);
        lemma_ascending(files.len(), want);
        let targets = ascending(files.len(), want);
        if targets.len() > 0 {
            let i = targets[0] as int;
            assert(want(i));
            assert(owes_hash(truth, false, files, i));
            lemma_settled_alike(truth, false, files, known, i);
        }
        lemma_planning_adds_nothing(known, config, platform, files, reports, after, step);
    }
}

proof fn lemma_resuming_adds_nothing(
    truth: Truth,
    known: Seq<FileInfo>,
    config: RunConfig,
    platform: Platform,
    candidates: Seq<Seq<char>>,
    next_index: int,
    after: Run,
    step: Step,
)
    requires
        is_settled(truth, config.fast_prefilter, known),
        candidates.len() <= usize::MAX,
        forall|k: int|
            0 <= k < candidates.len() ==> path_list(known).contains(#[trigger] candidates[k]),
        resumes_scan(config, platform, candidates, records(known), next_index, after, step),
    ensures
        adds_nothing(known, after),
{
    reveal(adds_nothing);
    let files = choose|files: Seq<FileInfo>|
        records(files) == records(known) && #[trigger] begins_scan(
            config,
            platform,
            candidates,
            files,
            next_index,
            no_reports(),
            after,
            step,
        );
    lemma_same_records(files, known);
    let already = path_list(files).to_set().len();
    let want = |i: int| !path_list(files).contains(candidates[i]);
    lemma_ascending(candidates.len(), want);
    let remaining = unscanned(candidates, files);
    assert(remaining == ascending(candidates.len(), want));
    if remaining.len() > 0 {
        let k = remaining[0] as int;
        assert(want(k));
        assert(path_list(known).contains(candidates[k]));
        assert(false);
    }
    if already + remaining.len() <= usize::MAX {
        let sent = if already > 0 {
            no_reports().push(
                note(
                    RunStage::Scanning,
                    count_message("Loaded "@, already as int, " files from saved scan data"@),
                    Some((already + remaining.len()) as usize),
                    already as int,
                    0,
                    0,
                ),
            )
        } else {
            no_reports()
        };
        lemma_hashing_adds_nothing(truth, known, config, platform, files, sent, after, step);
    }
}

proof fn lemma_step_adds_nothing(
    truth: Truth,
    known: Seq<FileInfo>,
    table: Seq<u8>,
    before: Run,
    m: Moment,
)
    requires
        before.wf(),
        before.config.resume,
        continues(before, m),
        is_settled(truth, before.config.fast_prefilter, known),
        saved_files(table) == Some(records(known)),
        offers(m.event, table, path_list(known)),
        holds(truth, before),
        is_told(truth, before, m.event),
        adds_nothing(known, before),
    ensures
        adds_nothing(known, m.run),
{
    reveal(adds_nothing);
    reveal(follows);
    reveal(offers);
    match (before.phase, m.event) {
        (Phase::Listing { candidates }, Event::Saved { all_files: Some(data), stems }) => {
            let index = number_after(text_options(stems@));
            if index <= usize::MAX {
                let all = texts(candidates@);
                assert(all.len() == candidates.len());
                assert forall|k: int| 0 <= k < all.len() implies path_list(known).contains(
                    #[trigger] all[k],
                ) by {
                    assert(all[k] == candidates@[k]@);
                }
                lemma_resuming_adds_nothing(
                    truth,
                    known,
                    before.config,
                    before.platform,
                    all,
                    index,
                    m.run,
                    m.step,
                );
            }
        },
        (Phase::Fingerprinting { files, targets, prints }, Event::Prints(replies)) => {
            lemma_prints_told(truth, before, m);
            lemma_printing_adds_nothing(truth, known, before, m);
        },
        _ => {},
    }
}

proof fn lemma_printing_adds_nothing(truth: Truth, known: Seq<FileInfo>, before: Run, m: Moment)
    requires
        before.wf(),
        continues(before, m),
        is_settled(truth, before.config.fast_prefilter, known),
        adds_nothing(known, before),
        before.phase matches Phase::Fingerprinting { files, targets, prints } && (
        m.event matches Event::Prints(replies) && replies@.len() == portion(
            targets@,
            prints@.len() as int,
            before.config.checkpoint_interval as int,
        ).len() && prints_are_true(truth, files@, targets@, prints@ + replies@)),
    ensures
        adds_nothing(known, m.run),
{
    reveal(adds_nothing);
    reveal(follows);
    if let (Phase::Fingerprinting { files, targets, prints }, Event::Prints(replies)) = (
        before.phase,
        m.event,
    ) {
        let all = prints@ + replies@;
        lemma_portion(
            targets@,
            prints@.len() as int,
            before.config.checkpoint_interval as int,
        );
        if all.len() == targets@.len() {
            lemma_choice_is_empty(truth, known, files@, targets@, all);
            let sent = seq![
                note(
                    RunStage::Hashing,
                    share_message(
                        "Fingerprinted "@,
                        all.len() as int,
                        targets@.len() as int,
                        " same-size candidates"@,
                    ),
                    Some(targets@.len() as usize),
                    all.len() as int,
                    0,
                    0,
                ),
            ];
            lemma_planning_adds_nothing(
                known,
                before.config,
                before.platform,
                files@,
                sent,
                m.run,
                m.step,
            );
        }
    }
}

pub(crate) proof fn lemma_run_adds_nothing(
    truth: Truth,
    known: Seq<FileInfo>,
    table: Seq<u8>,
    start: Run,
    history: Seq<Moment>,
    n: int,
)
    requires
        is_history(start, history),
        start.config.resume,
        is_truthful(truth, history),
        is_settled(truth, start.config.fast_prefilter, known),
        saved_files(table) == Some(records(known)),
        takes_up(history, table, path_list(known)),
        0 <= n <= history.len(),
    ensures
        adds_nothing(known, run_after(start, history, n)),
    decreases n,
{
    if n > 0 {
        lemma_run_adds_nothing(truth, known, table, start, history, n - 1);
        lemma_truth_is_kept(truth, start, history, n - 1);
        let before = run_after(start, history, n - 1);
        let m = history[n - 1];
        assert(continues(before, m));
        lemma_step_adds_nothing(truth, known, table, before, m);
    } else {
        reveal(adds_nothing);
    }
}

/// A finished plan is reported, and the first report is the table of all files.
pub(crate) proof fn lemma_plan_is_reported(before: Run, m: Moment)
    requires
        before.wf(),
        continues(before, m),
        m.run.phase is Reporting,
    ensures
        m.step.action matches Action::Write(tables) && tables@.len() == 3 && is_report(
            tables@[0],
            Folder::Output,
            ALL_FILES_CSV@,
            m.run.phase->Reporting_planner.files@,
        ),
{
    reveal(follows);
}

/// Files that are alike compete alike.
proof fn lemma_contested_alike(files: Seq<FileInfo>, others: Seq<FileInfo>, i: int)
    requires
        records(files) == records(others),
        0 <= i < files.len(),
    ensures
        is_contested(files, i) == is_contested(others, i),
{
    lemma_same_records(files, others);
    assert(files[i]@ == others[i]@);
    if is_contested(files, i) {
        let j = choose|j: int|
            0 <= j < files.len() && j != i && same_content_key(#[trigger] files[j], files[i]);
        assert(files[j]@ == others[j]@);
        assert(same_content_key(others[j], others[i]));
    }
    if is_contested(others, i) {
        let j = choose|j: int|
            0 <= j < others.len() && j != i && same_content_key(#[trigger] others[j], others[i]);
        assert(files[j]@ == others[j]@);
        assert(same_content_key(files[j], files[i]));
    }
}

/// Two planners that are told the truth about the same files come to one plan.
proof fn lemma_one_plan(
    truth: Truth,
    fast: bool,
    rule: KeepRuleRecord,
    platform: Platform,
    planner: Planner,
    other: Planner,
    plan: DedupPlan,
    other_plan: DedupPlan,
)
    requires
        records(planner.files@) == records(other.files@),
        planner.files@.len() <= usize::MAX,
        plans_truly(truth, fast, planner),
        plans_truly(truth, fast, other),
        is_plan_order(planner.order@, planner.files@, planner.fine@, rule, platform),
        is_plan_order(other.order@, other.files@, other.fine@, rule, platform),
        is_assignment(planner.files@, planner.order@, planner.home@, planner.answers@),
        is_assignment(other.files@, other.order@, other.home@, other.answers@),
        is_plan(plan, planner.files@, planner.home@),
        is_plan(other_plan, other.files@, other.home@),
    ensures
        plan.kept@ == other_plan.kept@,
        plan.planned_deletions@ == other_plan.planned_deletions@,
        plan.duplicate_sets == other_plan.duplicate_sets,
{
    let files = planner.files@;
    let others = other.files@;
    lemma_same_records(files, others);
    assert forall|i: int| 0 <= i < files.len() implies planner.fine@[i] == other.fine@[i] by {
        lemma_contested_alike(files, others, i);
        assert(files[i]@ == others[i]@);
    }
    assert(planner.fine@ =~= other.fine@);
    assert forall|a: usize, b: usize| #[trigger]
        planner.answers@.dom().contains((a, b)) && other.answers@.dom().contains(
            (a, b),
        ) implies planner.answers@[(a, b)] == other.answers@[(a, b)] by {
        assert(files[a as int]@ == others[a as int]@);
        assert(files[b as int]@ == others[b as int]@);
    }
    law_same_files_same_plan(
        files,
        others,
        planner.fine@,
        rule,
        platform,
        planner.order@,
        other.order@,
        planner.home@,
        other.home@,
        planner.answers@,
        other.answers@,
        plan,
        other_plan,
    );
}

/// Dry-run first and apply the same plan later: where a run resumes from the table of all
/// files that another has written, and finds no candidate that is not in it, the two hold the
/// same files and come to the same plan. The two take files by the same keep rule and hash
/// them, or not, alike; the second may apply what the first did not. What both are told, in
/// full, of fingerprints, hashes, times and comparisons is that of the same files, which have
/// not changed in between.
pub proof fn law_plan_is_made_again(
    truth: Truth,
    first: Run,
    history: Seq<Moment>,
    n: int,
    second: Run,
    later: Seq<Moment>,
    m: int,
)
    requires
        truth.listing is None,
        is_history(first, history),
        is_history(second, later),
        is_truthful(truth, history),
        is_truthful(truth, later),
        first.config.keep_rule@ == second.config.keep_rule@,
        first.config.fast_prefilter == second.config.fast_prefilter,
        first.platform == second.platform,
        second.config.resume,
        0 < n <= history.len(),
        0 <= m <= later.len(),
        run_after(first, history, n).phase is Reporting,
        run_after(second, later, m).phase is Reporting,
        history[n - 1].step.action matches Action::Write(tables) && takes_up(
            later,
            tables@[0].data@,
            path_list(run_after(first, history, n).phase->Reporting_planner.files@),
        ),
    ensures
        run_after(first, history, n).phase matches Phase::Reporting { planner, plan } && (
        run_after(second, later, m).phase matches Phase::Reporting {
            planner: other,
            plan: other_plan,
        } && {
            &&& records(planner.files@) == records(other.files@)
            &&& plan.kept@ == other_plan.kept@
            &&& plan.planned_deletions@ == other_plan.planned_deletions@
            &&& plan.duplicate_sets == other_plan.duplicate_sets
        }),
{
    let fast = first.config.fast_prefilter;
    let before = run_after(first, history, n - 1);
    lemma_truth_is_kept(truth, first, history, n - 1);
    lemma_truth_is_kept(truth, first, history, n);
    lemma_truth_is_kept(truth, second, later, m);
    assert(continues(before, history[n - 1]));
    lemma_plan_is_reported(before, history[n - 1]);
    let known = run_after(first, history, n).phase->Reporting_planner.files@;
    let table = history[n - 1].step.action->Write_0@[0].data@;
    lemma_reporting(truth, run_after(first, history, n));
    lemma_reporting(truth, run_after(second, later, m));
    lemma_run_adds_nothing(truth, known, table, second, later, m);
    assert(records(run_after(second, later, m).phase->Reporting_planner.files@) == records(known))
        by {
        reveal(adds_nothing);
    }
    lemma_one_plan(
        truth,
        fast,
        first.config.keep_rule@,
        first.platform,
        run_after(first, history, n).phase->Reporting_planner,
        run_after(second, later, m).phase->Reporting_planner,
        run_after(first, history, n).phase->Reporting_plan,
        run_after(second, later, m).phase->Reporting_plan,
    );
}

/// What holds of a run that has finished its plan.
pub(crate) proof fn lemma_reporting(truth: Truth, run: Run)
    requires
        run.wf(),
        run.phase is Reporting,
        holds(truth, run),
    ensures
        ({
            let planner = run.phase->Reporting_planner;
            let plan = run.phase->Reporting_plan;
            let rule = run.config.keep_rule@;
            &&& planner.files@.len() <= usize::MAX
            &&& plans_truly(truth, run.config.fast_prefilter, planner)
            &&& is_plan_order(planner.order@, planner.files@, planner.fine@, rule, run.platform)
            &&& is_assignment(planner.files@, planner.order@, planner.home@, planner.answers@)
            &&& is_plan(plan, planner.files@, planner.home@)
        }),
{
    reveal(holds);
}

} // verus!
