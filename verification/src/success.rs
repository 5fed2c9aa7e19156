//! When a run comes to a result.
use vstd::prelude::*;
use vstd::string::*;

use crate::exchange::{count_message, note, sample_list, sample_views, Action, Event, Step};
use crate::history::{continues, is_history, run_after, Moment};
use crate::model::{
    records, FileInfo, FileRecord, Platform, ProgressRecord, RunArtifacts, RunConfig, RunStage,
};
use crate::outcome::is_result;
use crate::plan::{DedupPlan, Planner};
use crate::promises::{comparisons_left, law_every_run_ends, stages_left, work_left};
use crate::resume::{contents_of, loaded_files, number_after};
use crate::run::follows;
use crate::scan::{found, lemma_portion, path_list, paths_at, portion};
use crate::select::{ascending, lemma_ascending, lemma_ascending_congruent};
use crate::stages::resuming::resumes_scan;
use crate::stages::scanning::begins_scan;
use crate::state::{no_reports, Phase, Run};
use crate::table::saved_files;
use crate::text::{text_options, texts};
use crate::truth::{awaits, lemma_awaits};

verus! {

// ---------------------------------------------------------------------------
// Replies that fit
// ---------------------------------------------------------------------------

/// Whether what a run is `told` is a reply to what it `asked` for: of the kind that was asked
/// for, and with one answer to each part of it. An end takes no reply.
pub open spec fn fits(asked: Action, told: Event) -> bool {
    match (asked, told) {
        (Action::InspectOutputDir, Event::OutputDir { .. }) => true,
        (Action::CreateDirs { .. }, Event::Done) => true,
        (Action::Discover, Event::Candidates(_)) => true,
        (Action::ListSaved, Event::Saved { .. }) => true,
        (Action::ReadCheckpoints(entries), Event::CheckpointData(data)) => data@.len()
            == entries@.len(),
        (Action::ReadMetadata(wanted), Event::Metadata(replies)) => replies@.len() == wanted@.len(),
        (Action::Write(_), Event::Done) => true,
        (Action::Fingerprint(samples), Event::Prints(prints)) => prints@.len() == samples@.len(),
        (Action::Hash(paths), Event::Hashes(hashes)) => hashes@.len() == paths@.len(),
        (Action::ReadTimes(paths), Event::Times(times)) => times@.len() == paths@.len(),
        (Action::Compare { .. }, Event::Compared(_)) => true,
        (Action::Delete { paths, use_trash }, Event::Deleted(errors)) => errors@.len()
            == paths@.len(),
        (Action::WriteSummary(_), Event::Done) => true,
        _ => false,
    }
}

/// Whether the reply in step `t` of a history fits what was asked for before. A run starts by
/// asking for the output folder.
pub open spec fn fits_step(history: Seq<Moment>, t: int) -> bool {
    if t == 0 {
        fits(Action::InspectOutputDir, history[t].event)
    } else {
        fits(history[t - 1].step.action, history[t].event)
    }
}

/// Whether every reply in a history fits.
pub open spec fn is_answered(history: Seq<Moment>) -> bool {
    forall|t: int| 0 <= t < history.len() ==> #[trigger] fits_step(history, t)
}

// ---------------------------------------------------------------------------
// What can stand in the way
// ---------------------------------------------------------------------------

/// The paths of saved files.
pub open spec fn saved_paths(saved: Seq<FileRecord>) -> Seq<Seq<char>> {
    Seq::new(saved.len(), |i: int| saved[i].file_path)
}

/// Whether the known paths and the candidates that are not known are more than can be counted.
pub open spec fn is_too_much(candidates: Seq<Seq<char>>, known: Seq<Seq<char>>) -> bool {
    known.to_set().len() + ascending(
        candidates.len(),
        |i: int| !known.contains(candidates[i]),
    ).len() > usize::MAX
}

/// Whether the saved files, if any can be read, cannot be gone on with.
pub open spec fn is_obstructive(
    candidates: Seq<Seq<char>>,
    saved: Option<Seq<FileRecord>>,
) -> bool {
    match saved {
        Some(files) => is_too_much(candidates, saved_paths(files)),
        None => true,
    }
}

/// Whether an event stops a run: something is in the output folder of a run that does not
/// resume, saved data cannot be read, or there are more files, or more checkpoints, than can be
/// counted.
pub open spec fn is_obstacle(run: Run, event: Event) -> bool {
    match (run.phase, event) {
        (Phase::Inspecting, Event::OutputDir { present, occupied }) => present && occupied
            && !run.config.resume,
        (Phase::Listing { candidates }, Event::Saved { all_files, stems }) => {
            ||| number_after(text_options(stems@)) > usize::MAX
            ||| all_files matches Some(data) && is_obstructive(
                texts(candidates@),
                saved_files(data@),
            )
        },
        (
            Phase::Loading { candidates, wanted, next_index },
            Event::CheckpointData(data),
        ) => is_obstructive(texts(candidates@), loaded_files(contents_of(data@))),
        (Phase::Scanning { scan }, Event::Metadata(replies)) => scan.next_index >= usize::MAX
            && found(replies@).len() > 0,
        _ => false,
    }
}

/// Whether nothing stands in the way of a run in its step `t`.
pub open spec fn is_free_step(start: Run, history: Seq<Moment>, t: int) -> bool {
    !is_obstacle(run_after(start, history, t), history[t].event)
}

/// Whether nothing stands in the way of a run.
pub open spec fn is_unhindered(start: Run, history: Seq<Moment>) -> bool {
    forall|t: int| 0 <= t < history.len() ==> #[trigger] is_free_step(start, history, t)
}

/// Whether a run is over.
pub open spec fn is_over(history: Seq<Moment>) -> bool {
    history.len() > 0 && history.last().run.phase is Ended
}

/// What a run has come to.
pub open spec fn result_of(history: Seq<Moment>) -> Option<RunArtifacts> {
    match history.last().step.action {
        Action::Finish(artifacts) => if history.len() > 0 {
            Some(artifacts)
        } else {
            None
        },
        _ => None,
    }
}

// ---------------------------------------------------------------------------
// Steps
// ---------------------------------------------------------------------------

/// A scan begins unless there is too much to count.
proof fn lemma_scan_fails(
    config: RunConfig,
    platform: Platform,
    candidates: Seq<Seq<char>>,
    files: Seq<FileInfo>,
    next_index: int,
    reports: Seq<ProgressRecord>,
    after: Run,
    step: Step,
)
    requires
        begins_scan(config, platform, candidates, files, next_index, reports, after, step),
    ensures
        step.action is Fail <==> is_too_much(candidates, path_list(files)),
        after.phase is Ended <==> step.action is Fail,
        step.action !is Finish,
{
    let known = path_list(files);
    lemma_ascending_congruent(
        candidates.len(),
        |i: int| !path_list(files).contains(candidates[i]),
        |i: int| !known.contains(candidates[i]),
    );
}

proof fn lemma_resumption_fails(
    config: RunConfig,
    platform: Platform,
    candidates: Seq<Seq<char>>,
    saved: Seq<FileRecord>,
    next_index: int,
    after: Run,
    step: Step,
)
    requires
        resumes_scan(config, platform, candidates, saved, next_index, after, step),
    ensures
        step.action is Fail <==> is_too_much(candidates, saved_paths(saved)),
        after.phase is Ended <==> step.action is Fail,
        step.action !is Finish,
{
    let files = choose|files: Seq<FileInfo>|
        records(files) == saved && #[trigger] begins_scan(
            config,
            platform,
            candidates,
            files,
            next_index,
            no_reports(),
            after,
            step,
        );
    assert(saved.len() == files.len());
    assert forall|i: int| 0 <= i < saved.len() implies saved_paths(saved)[i] == path_list(
        files,
    )[i] by {
        assert(saved[i] == files[i]@);
    }
    assert(saved_paths(saved) =~= path_list(files));
    lemma_scan_fails(
        config,
        platform,
        candidates,
        files,
        next_index,
        no_reports(),
        after,
        step,
    );
}

proof fn lemma_stop_before_scanning(before: Run, m: Moment, asked: Action)
    requires
        before.wf(),
        continues(before, m),
        awaits(before, asked),
        fits(asked, m.event),
        before.phase is Inspecting || before.phase is Creating || before.phase is Discovering
            || before.phase is Listing || before.phase is Loading,
    ensures
        m.run.phase is Ended <==> is_obstacle(before, m.event),
        m.step.action !is Finish,
{
    reveal(awaits);
    reveal(follows);
    let config = before.config;
    let platform = before.platform;
    match (before.phase, m.event) {
        (Phase::Discovering, Event::Candidates(candidates)) => {
            if !config.resume {
                let none = Seq::<FileInfo>::empty();
                let known = path_list(none);
                let all = texts(candidates@);
                assert(known =~= Seq::empty());
                assert(known.to_set() =~= Set::<Seq<char>>::empty());
                assert(all.len() == candidates.len());
                lemma_ascending(all.len(), |i: int| !known.contains(all[i]));
                let sent = seq![
                    note(
                        RunStage::Scanning,
                        count_message("Found "@, candidates@.len() as int, " candidate files"@),
                        Some(candidates@.len() as usize),
                        0,
                        0,
                        0,
                    ),
                ];
                lemma_scan_fails(config, platform, all, none, 0, sent, m.run, m.step);
            }
        },
        (Phase::Listing { candidates }, Event::Saved { all_files: Some(data), stems }) => {
            let index = number_after(text_options(stems@));
            if let Some(saved) = saved_files(data@) {
                if index <= usize::MAX {
                    lemma_resumption_fails(
                        config,
                        platform,
                        texts(candidates@),
                        saved,
                        index,
                        m.run,
                        m.step,
                    );
                }
            }
        },
        (Phase::Loading { candidates, wanted, next_index }, Event::CheckpointData(data)) => {
            assert(contents_of(data@).len() == wanted);
            if let Some(saved) = loaded_files(contents_of(data@)) {
                lemma_resumption_fails(
                    config,
                    platform,
                    texts(candidates@),
                    saved,
                    next_index as int,
                    m.run,
                    m.step,
                );
            }
        },
        _ => {},
    }
}

proof fn lemma_stop_in_scanning(before: Run, m: Moment, asked: Action)
    requires
        before.wf(),
        continues(before, m),
        awaits(before, asked),
        fits(asked, m.event),
        before.phase is Scanning || before.phase is Checkpointing,
    ensures
        m.run.phase is Ended <==> is_obstacle(before, m.event),
        m.step.action !is Finish,
{
    reveal(awaits);
    reveal(follows);
}

proof fn lemma_stop_in_hashing(before: Run, m: Moment, asked: Action)
    requires
        before.wf(),
        continues(before, m),
        awaits(before, asked),
        fits(asked, m.event),
        before.phase is Fingerprinting || before.phase is Hashing,
    ensures
        m.run.phase !is Ended,
        m.step.action !is Finish,
{
    reveal(awaits);
    reveal(follows);
    let interval = before.config.checkpoint_interval as int;
    if let Phase::Fingerprinting { files, targets, prints } = before.phase {
        let samples = asked->Fingerprint_0;
        let next = portion(targets@, prints@.len() as int, interval);
        assert(sample_views(samples@).len() == samples@.len());
        assert(sample_list(files@, next).len() == next.len());
    }
    if let Phase::Hashing { files, targets, done } = before.phase {
        let paths = asked->Hash_0;
        let next = portion(targets@, done as int, interval);
        assert(texts(paths@).len() == paths@.len());
        assert(paths_at(files@, next).len() == next.len());
    }
}

proof fn lemma_stop_in_planning(before: Run, m: Moment, asked: Action)
    requires
        before.wf(),
        continues(before, m),
        awaits(before, asked),
        fits(asked, m.event),
        before.phase is Timing || before.phase is Comparing || before.phase is Reporting
            || before.phase is Deleting || before.phase is Recording
            || before.phase is Summarizing,
    ensures
        m.run.phase is Ended <==> before.phase is Summarizing,
        m.step.action is Finish <==> before.phase is Summarizing,
{
    reveal(awaits);
    reveal(follows);
    if let Phase::Timing { files, targets } = before.phase {
        let paths = asked->ReadTimes_0;
        assert(texts(paths@).len() == paths@.len());
        assert(paths_at(files@, targets@).len() == targets@.len());
    }
}

/// A run fails only for a reason: a reply that fits what it asked for stops it exactly where it
/// tells of an obstacle, and otherwise the run goes on, until, with its summary written, it
/// finishes.
pub proof fn law_only_obstacles_stop_a_run(before: Run, m: Moment, asked: Action)
    requires
        before.wf(),
        continues(before, m),
        awaits(before, asked),
        fits(asked, m.event),
    ensures
        m.step.action is Fail <==> is_obstacle(before, m.event),
        m.step.action is Finish <==> before.phase is Summarizing,
        m.run.phase is Ended <==> m.step.action is Fail || m.step.action is Finish,
{
    lemma_awaits(before, m);
    reveal(awaits);
    match before.phase {
        Phase::Inspecting
        | Phase::Creating
        | Phase::Discovering
        | Phase::Listing { .. }
        | Phase::Loading { .. } => {
            lemma_stop_before_scanning(before, m, asked);
        },
        Phase::Scanning { .. } | Phase::Checkpointing { .. } => {
            lemma_stop_in_scanning(before, m, asked);
        },
        Phase::Fingerprinting { .. } | Phase::Hashing { .. } => {
            lemma_stop_in_hashing(before, m, asked);
        },
        Phase::Ended => {},
        _ => {
            lemma_stop_in_planning(before, m, asked);
        },
    }
}

// ---------------------------------------------------------------------------
// Whole runs
// ---------------------------------------------------------------------------

/// In every step a run is told what fits what it is waiting for.
proof fn lemma_fitting_reply(start: Run, history: Seq<Moment>, n: int) -> (asked: Action)
    requires
        is_history(start, history),
        is_answered(history),
        0 <= n < history.len(),
    ensures
        run_after(start, history, n).wf(),
        run_after(start, history, n).config == start.config,
        run_after(start, history, n).platform == start.platform,
        continues(run_after(start, history, n), history[n]),
        awaits(run_after(start, history, n), asked),
        fits(asked, history[n].event),
    decreases n,
{
    assert(continues(run_after(start, history, n), history[n]));
    assert(fits_step(history, n));
    if n == 0 {
        let asked = Action::InspectOutputDir;
        assert(awaits(start, asked)) by {
            reveal(awaits);
        }
        asked
    } else {
        lemma_fitting_reply(start, history, n - 1);
        let before = run_after(start, history, n - 1);
        assert(continues(before, history[n - 1]));
        lemma_awaits(before, history[n - 1]);
        history[n - 1].step.action
    }
}

/// A run succeeds where nothing stands in its way: where every reply fits what was asked for,
/// and none tells of an obstacle, no step fails, and a run that is over has come to a result.
pub proof fn law_unhindered_run_finishes(start: Run, history: Seq<Moment>)
    requires
        is_history(start, history),
        is_answered(history),
        is_unhindered(start, history),
    ensures
        forall|n: int| 0 <= n < history.len() ==> (#[trigger] history[n]).step.action !is Fail,
        is_over(history) ==> result_of(history) is Some,
{
    assert forall|n: int| 0 <= n < history.len() implies (
    #[trigger] history[n]).step.action !is Fail by {
        let asked = lemma_fitting_reply(start, history, n);
        assert(is_free_step(start, history, n));
        law_only_obstacles_stop_a_run(run_after(start, history, n), history[n], asked);
    }
    if is_over(history) {
        let n = history.len() - 1;
        let asked = lemma_fitting_reply(start, history, n);
        law_only_obstacles_stop_a_run(run_after(start, history, n), history[n], asked);
        assert(history[n].step.action !is Fail);
    }
}

/// The state of a run after its first `n` steps, of which there is no end.
pub open spec fn run_at(start: Run, steps: spec_fn(int) -> Moment, n: int) -> Run {
    if n == 0 {
        start
    } else {
        steps(n - 1).run
    }
}

/// No run goes on for ever: however it is answered, it comes to its end.
pub proof fn law_no_run_is_endless(start: Run, steps: spec_fn(int) -> Moment)
    requires
        start.wf(),
        forall|n: int| 0 <= n ==> #[trigger] continues(run_at(start, steps, n), steps(n)),
    ensures
        exists|n: int| 0 <= n && (#[trigger] steps(n)).run.phase is Ended,
{
    assert(continues(run_at(start, steps, 0), steps(0)));
    lemma_end_comes(start, steps, 0);
}

proof fn lemma_end_comes(start: Run, steps: spec_fn(int) -> Moment, n: int)
    requires
        forall|n: int| 0 <= n ==> #[trigger] continues(run_at(start, steps, n), steps(n)),
        0 <= n,
    ensures
        exists|k: int| 0 <= k && (#[trigger] steps(k)).run.phase is Ended,
    decreases
            stages_left(steps(n).run.phase),
            work_left(steps(n).run.phase),
            comparisons_left(steps(n).run.phase),
{
    if steps(n).run.phase !is Ended {
        let before = run_at(start, steps, n + 1);
        let m = steps(n + 1);
        assert(continues(run_at(start, steps, n), steps(n)));
        assert(continues(before, m));
        law_every_run_ends(before, m.event, m.run, m.step);
        lemma_end_comes(start, steps, n + 1);
    }
}

// ---------------------------------------------------------------------------
// Runs that scan anew
// ---------------------------------------------------------------------------

/// Whether a run has used no more numbers for checkpoints than it has looked at candidates.
spec fn is_counted(run: Run) -> bool {
    match run.phase {
        Phase::Listing { .. } | Phase::Loading { .. } => false,
        Phase::Scanning { scan } => scan.next_index <= scan.done,
        Phase::Checkpointing { scan, batch } => scan.next_index <= scan.done,
        _ => true,
    }
}

proof fn lemma_counting_goes_on(before: Run, m: Moment)
    requires
        before.wf(),
        !before.config.resume,
        continues(before, m),
        is_counted(before),
    ensures
        is_counted(m.run),
        m.run.phase !is Inspecting,
{
    if before.phase is Ended {
        reveal(follows);
    } else {
        law_every_run_ends(before, m.event, m.run, m.step);
        match before.phase {
            Phase::Inspecting | Phase::Creating | Phase::Discovering => {
                reveal(follows);
            },
            Phase::Scanning { scan } => {
                reveal(follows);
                lemma_portion(
                    scan.remaining@,
                    scan.done as int,
                    before.config.checkpoint_interval as int,
                );
                if let Phase::Scanning { scan: s } = m.run.phase {
                    assert(s@.done == s.done && s@.next_index == s.next_index);
                }
            },
            Phase::Checkpointing { scan, batch } => {
                reveal(follows);
                lemma_portion(
                    scan.remaining@,
                    scan.done as int,
                    before.config.checkpoint_interval as int,
                );
                if let Phase::Scanning { scan: s } = m.run.phase {
                    assert(s@.done == s.done && s@.next_index == s.next_index);
                }
            },
            _ => {},
        }
    }
}

proof fn lemma_fresh_run_is_counted(start: Run, history: Seq<Moment>, n: int)
    requires
        is_history(start, history),
        !start.config.resume,
        0 <= n <= history.len(),
    ensures
        run_after(start, history, n).wf(),
        run_after(start, history, n).config == start.config,
        is_counted(run_after(start, history, n)),
        n > 0 ==> run_after(start, history, n).phase !is Inspecting,
    decreases n,
{
    if n > 0 {
        lemma_fresh_run_is_counted(start, history, n - 1);
        assert(continues(run_after(start, history, n - 1), history[n - 1]));
        lemma_counting_goes_on(run_after(start, history, n - 1), history[n - 1]);
    }
}

/// Whether a run is told at its start that something is in the output folder.
pub open spec fn finds_occupied_folder(history: Seq<Moment>) -> bool {
    history.len() > 0 && (history[0].event matches Event::OutputDir { present, occupied }
        && present && occupied)
}

/// Nothing stands in the way of a run that scans anew but something in its output folder.
pub proof fn law_fresh_run_is_unhindered(start: Run, history: Seq<Moment>)
    requires
        is_history(start, history),
        !start.config.resume,
        !finds_occupied_folder(history),
    ensures
        is_unhindered(start, history),
{
    assert forall|t: int| 0 <= t < history.len() implies #[trigger] is_free_step(
        start,
        history,
        t,
    ) by {
        lemma_fresh_run_is_counted(start, history, t);
        let run = run_after(start, history, t);
        if let Phase::Scanning { scan } = run.phase {
            assert(scan.remaining.len() == scan.remaining@.len());
        }
    }
}

// ---------------------------------------------------------------------------
// Results
// ---------------------------------------------------------------------------

/// Whether a run had made the plan `plan`, by `planner`, at some step up to `n`.
spec fn was_planned(
    start: Run,
    history: Seq<Moment>,
    n: int,
    planner: Planner,
    plan: DedupPlan,
) -> bool {
    exists|k: int|
        0 <= k <= n && #[trigger] run_after(start, history, k).phase == (Phase::Reporting {
            planner,
            plan,
        })
}

/// The plan that a run has made, once it has made one.
spec fn plan_in(phase: Phase) -> Option<(Planner, DedupPlan)> {
    match phase {
        Phase::Reporting { planner, plan } => Some((planner, plan)),
        Phase::Deleting { planner, plan } => Some((planner, plan)),
        Phase::Recording { planner, plan, deleted, failed } => Some((planner, plan)),
        Phase::Summarizing { source, plan, artifacts } => Some((source@, plan)),
        _ => None,
    }
}

proof fn lemma_plan_is_kept(before: Run, m: Moment)
    requires
        before.wf(),
        continues(before, m),
        plan_in(m.run.phase) is Some,
    ensures
        m.run.phase is Reporting || plan_in(m.run.phase) == plan_in(before.phase),
{
    reveal(follows);
}

proof fn lemma_plan_was_made(start: Run, history: Seq<Moment>, n: int)
    requires
        is_history(start, history),
        0 <= n <= history.len(),
    ensures
        run_after(start, history, n).wf(),
        run_after(start, history, n).config == start.config,
        run_after(start, history, n).platform == start.platform,
        plan_in(run_after(start, history, n).phase) matches Some((planner, plan)) ==> was_planned(
            start,
            history,
            n,
            planner,
            plan,
        ),
    decreases n,
{
    if n > 0 {
        lemma_plan_was_made(start, history, n - 1);
        let before = run_after(start, history, n - 1);
        let m = history[n - 1];
        assert(continues(before, m));
        if let Some((planner, plan)) = plan_in(m.run.phase) {
            lemma_plan_is_kept(before, m);
            if m.run.phase is Reporting {
                assert(run_after(start, history, n).phase == (Phase::Reporting { planner, plan }));
            } else {
                let k = choose|k: int|
                    0 <= k <= n - 1 && #[trigger] run_after(start, history, k).phase == (
                    Phase::Reporting { planner, plan });
                assert(run_after(start, history, k).phase == (Phase::Reporting { planner, plan }));
            }
        }
    }
}

proof fn lemma_finish(before: Run, m: Moment)
    requires
        before.wf(),
        continues(before, m),
        m.step.action is Finish,
    ensures
        before.phase matches Phase::Summarizing { source, plan, artifacts } && m.step.action
            == Action::Finish(artifacts),
{
    reveal(follows);
}

/// A result is that of a plan: what a run comes to is what the plan says that it made and
/// reported on before.
pub proof fn law_result_is_that_of_the_plan(start: Run, history: Seq<Moment>) -> (n: int)
    requires
        is_history(start, history),
        result_of(history) is Some,
    ensures
        0 < n <= history.len(),
        run_after(start, history, n).phase matches Phase::Reporting { planner, plan } && is_result(
            result_of(history)->0,
            start.config,
            planner.files@,
            plan,
            (result_of(history)->0).deleted_files@,
            (result_of(history)->0).failed_deletions@,
        ),
{
    let last = history.len() - 1;
    let before = run_after(start, history, last);
    assert(continues(before, history[last]));
    lemma_plan_was_made(start, history, last);
    lemma_finish(before, history[last]);
    let (planner, plan) = plan_in(before.phase)->0;
    let n = choose|k: int|
        0 <= k <= last && #[trigger] run_after(start, history, k).phase == (Phase::Reporting {
            planner,
            plan,
        });
    assert(run_after(start, history, n).phase == (Phase::Reporting { planner, plan }));
    n
}

} // verus!
