//! The state behind the window: the form, the last run, and what is shown of the current
//! one.
use vstd::prelude::*;
use vstd::string::*;

use crate::config::{config_fault, PathFacts};
use crate::display::{format_seconds, seconds_text, start_record, starting_progress};
use crate::form::{FormFault, RunForm};
use crate::model::{
    ConfigRecord, OperationMode, ProgressUpdate, RunArtifacts, RunConfig, RunStage,
};
use crate::text::{law_lists_are_split_at_commas, law_white_space_around_is_trimmed, trimmed};

verus! {

/// What the window shows and remembers.
#[derive(Debug)]
pub struct Dashboard {
    pub form: RunForm,
    /// Whether a run is under way.
    pub running: bool,
    pub last_result: Option<RunArtifacts>,
    pub last_config: Option<RunConfig>,
    pub latest_progress: Option<ProgressUpdate>,
    pub status_message: String,
    pub table_filter: String,
}

/// The buttons that start a run.
#[derive(Debug, Clone, Copy, PartialEq, Eq, Structural)]
pub enum Button {
    PlanDryRun,
    ApplyPlan,
    FreshApply,
}

/// What a run tells the window.
#[derive(Debug)]
pub enum Message {
    Progress(ProgressUpdate),
    /// The run is over, with a result or with the text of an error.
    Finished(Result<RunArtifacts, String>, RunConfig),
}

/// What is shown when a run is over.
pub open spec fn finished_text(time: Seq<char>, output_dir: Seq<char>) -> Seq<char> {
    "Finished in "@ + time + ". Reports saved to "@ + output_dir
}

/// Whether `after` is `before` after one message, where `time` is how long the run took.
pub open spec fn heard(
    before: Dashboard,
    message: Message,
    time: Seq<char>,
    after: Dashboard,
) -> bool {
    &&& after.form == before.form
    &&& after.table_filter == before.table_filter
    &&& match message {
        Message::Progress(update) => {
            &&& after.running == before.running
            &&& after.last_result == before.last_result
            &&& after.last_config == before.last_config
            &&& after.latest_progress == Some(update)
            &&& after.status_message@ == update.message@
        },
        Message::Finished(Ok(artifacts), config) => {
            &&& !after.running
            &&& after.last_result == Some(artifacts)
            &&& after.last_config == Some(config)
            &&& after.latest_progress == before.latest_progress
            &&& after.status_message@ == finished_text(time, artifacts.summary.output_dir@)
        },
        Message::Finished(Err(error), config) => {
            &&& !after.running
            &&& after.last_result == before.last_result
            &&& after.last_config == before.last_config
            &&& after.latest_progress == before.latest_progress
            &&& after.status_message@ == error@
        },
    }
}

/// Whether `after` is `before` after the messages, one after the other.
pub open spec fn heard_all(
    before: Dashboard,
    messages: Seq<Message>,
    time: Seq<char>,
    after: Dashboard,
) -> bool
    decreases messages.len(),
{
    if messages.len() == 0 {
        after == before
    } else {
        exists|middle: Dashboard|
            #![trigger heard(middle, messages.last(), time, after)]
            heard_all(before, messages.drop_last(), time, middle) && heard(
                middle,
                messages.last(),
                time,
                after,
            )
    }
}

/// How many files the last run scanned, kept, planned to delete and deleted.
#[derive(Debug, Clone, Copy, PartialEq, Eq, Structural)]
pub struct Metrics {
    pub scanned: usize,
    pub kept: usize,
    pub planned: usize,
    pub deleted: usize,
}

impl Dashboard {
    /// Whether this is the window at the start, with the folder that is suggested for the
    /// reports.
    pub open spec fn is_fresh(&self, output_dir: String) -> bool {
        &&& self.form.root_dir@.len() == 0
        &&& self.form.output_dir == output_dir
        &&& self.form.include_filters@.len() == 0
        &&& self.form.exclude_filters@.len() == 0
        &&& self.form.keep_rule_index == 0
        &&& self.form.prefer_path@.len() == 0
        &&& self.form.fast_prefilter
        &&& !self.form.resume
        &&& !self.running
        &&& self.last_result is None
        &&& self.last_config is None
        &&& self.latest_progress is None
        &&& self.table_filter@.len() == 0
    }

    /// The window at the start, with the folder that is suggested for the reports.
    pub fn new(output_dir: String) -> (r: Dashboard)
        ensures
            r.is_fresh(output_dir),
            r.form.root_dir@.len() == 0,
            r.form.output_dir == output_dir,
            r.form.include_filters@.len() == 0,
            r.form.exclude_filters@.len() == 0,
            r.form.keep_rule_index == 0,
            r.form.prefer_path@.len() == 0,
            r.form.fast_prefilter,
            !r.form.resume,
            !r.running,
            r.last_result is None,
            r.last_config is None,
            r.latest_progress is None,
            r.status_message@ == "Choose a folder and start with a safe dry run."@,
            r.table_filter@.len() == 0,
    {
        Dashboard {
            form: RunForm {
                root_dir: String::new(),
                output_dir,
                include_filters: String::new(),
                exclude_filters: String::new(),
                keep_rule_index: 0,
                prefer_path: String::new(),
                fast_prefilter: true,
                resume: false,
            },
            running: false,
            last_result: None,
            last_config: None,
            latest_progress: None,
            status_message: "Choose a folder and start with a safe dry run.".to_string(),
            table_filter: String::new(),
        }
    }

    /// Whether everything but the state of the current run is as in `other`.
    pub open spec fn same_background(&self, other: Dashboard) -> bool {
        &&& self.form == other.form
        &&& self.last_result == other.last_result
        &&& self.last_config == other.last_config
        &&& self.table_filter == other.table_filter
    }

    /// Whether this is `before` after a run in the mode `mode` was started.
    pub open spec fn has_started(
        &self,
        before: Dashboard,
        mode: OperationMode,
        status: Seq<char>,
    ) -> bool {
        &&& self.same_background(before)
        &&& self.running
        &&& self.status_message@ == status
        &&& self.latest_progress matches Some(update) && update@ == start_record(mode)
    }

    /// Whether a start of a run as the form describes it gives `r`, and leaves `after`.
    pub open spec fn takes_start(
        &self,
        mode: OperationMode,
        force_resume: bool,
        facts: PathFacts,
        r: Option<RunConfig>,
        after: Dashboard,
    ) -> bool {
        let wanted = self.form.described(mode, force_resume);
        match r {
            Some(config) => {
                &&& self.form.missing() is None
                &&& config_fault(wanted, facts) is None
                &&& config@ == wanted
                &&& after.has_started(
                    *self,
                    mode,
                    match mode {
                        OperationMode::DryRun => "Planning duplicates..."@,
                        OperationMode::Apply => "Applying deletion workflow..."@,
                    },
                )
            },
            None => {
                &&& after.same_background(*self)
                &&& after.running == self.running
                &&& after.latest_progress == self.latest_progress
                &&& match self.form.missing() {
                    Some(fault) => after.status_message@ == fault.message(),
                    None => {
                        &&& config_fault(wanted, facts) matches Some(fault)
                        &&& after.status_message@ == fault.message()
                    },
                }
            },
        }
    }

    /// Starts a run as the form describes it: gives its configuration where it is usable,
    /// and shows what is wrong with it otherwise. `facts` says what the file system holds
    /// at the paths of the form.
    pub fn start_run(&mut self, mode: OperationMode, force_resume: bool, facts: PathFacts) -> (r:
        Option<RunConfig>)
        ensures
            old(self).takes_start(mode, force_resume, facts, r, *final(self)),
    {
        match self.form.build_config(mode, force_resume, facts) {
            Ok(config) => {
                self.status_message = match mode {
                    OperationMode::DryRun => "Planning duplicates...".to_string(),
                    OperationMode::Apply => "Applying deletion workflow...".to_string(),
                };
                self.latest_progress = Some(starting_progress(mode));
                self.running = true;
                Some(config)
            },
            Err(e) => {
                self.status_message = e.message();
                None
            },
        }
    }

    /// The configuration that carries out the plan of the last run: that of the last run,
    /// but with deletions, and resumed from its reports.
    pub open spec fn plan_config(&self) -> Option<ConfigRecord> {
        match self.last_config {
            Some(config) => Some(
                ConfigRecord { mode: OperationMode::Apply, resume: true, ..config@ },
            ),
            None => None,
        }
    }

    /// Whether a start of a run that carries out the plan of the last one gives `r`, and
    /// leaves `after`.
    pub open spec fn takes_plan(&self, r: Option<RunConfig>, after: Dashboard) -> bool {
        match r {
            Some(config) => {
                &&& self.plan_config() == Some(config@)
                &&& after.has_started(*self, OperationMode::Apply, "Applying current plan..."@)
            },
            None => self.plan_config() is None && after == *self,
        }
    }

    /// Starts a run that carries out the plan of the last one, and gives its configuration.
    /// Where there was no run, nothing happens.
    pub fn apply_existing_plan(&mut self) -> (r: Option<RunConfig>)
        ensures
            old(self).takes_plan(r, *final(self)),
    {
        match &self.last_config {
            Some(last) => {
                let mut config = last.clone();
                config.mode = OperationMode::Apply;
                config.resume = true;
                self.status_message = "Applying current plan...".to_string();
                self.latest_progress = Some(starting_progress(OperationMode::Apply));
                self.running = true;
                Some(config)
            },
            None => None,
        }
    }

    /// Whether there is a plan to carry out: the last run planned deletions, and none is
    /// under way.
    pub open spec fn plan_is_ready(&self) -> bool {
        &&& self.last_result matches Some(result) && result.summary.planned_deletions > 0
        &&& !self.running
    }

    /// Whether there is a plan to carry out.
    pub fn can_apply_plan(&self) -> (r: bool)
        ensures
            r == self.plan_is_ready(),
    {
        match &self.last_result {
            Some(result) => result.summary.planned_deletions > 0 && !self.running,
            None => false,
        }
    }

    /// Whether a click on a button gives `r`, and leaves `after`.
    pub open spec fn takes_click(
        &self,
        button: Button,
        facts: PathFacts,
        r: Option<RunConfig>,
        after: Dashboard,
    ) -> bool {
        let is_idle = !self.running;
        match button {
            Button::PlanDryRun if is_idle => self.takes_start(
                OperationMode::DryRun,
                false,
                facts,
                r,
                after,
            ),
            Button::FreshApply if is_idle => self.takes_start(
                OperationMode::Apply,
                false,
                facts,
                r,
                after,
            ),
            Button::ApplyPlan if self.plan_is_ready() => self.takes_plan(r, after),
            _ => r is None && after == *self,
        }
    }

    /// Takes a click on a button: gives the configuration of the run that it starts, if it
    /// starts one. While a run is under way no click starts another. `facts` says what the
    /// file system holds at the paths of the form.
    pub fn click(&mut self, button: Button, facts: PathFacts) -> (r: Option<RunConfig>)
        ensures
            old(self).takes_click(button, facts, r, *final(self)),
            old(self).running ==> r is None && *final(self) == *old(self),
            r matches Some(config) ==> {
                &&& final(self).running
                &&& config.mode == match button {
                    Button::PlanDryRun => OperationMode::DryRun,
                    _ => OperationMode::Apply,
                }
            },
            !old(self).running ==> match button {
                Button::PlanDryRun => old(self).takes_start(
                    OperationMode::DryRun,
                    false,
                    facts,
                    r,
                    *final(self),
                ),
                Button::FreshApply => old(self).takes_start(
                    OperationMode::Apply,
                    false,
                    facts,
                    r,
                    *final(self),
                ),
                Button::ApplyPlan => if old(self).plan_is_ready() {
                    old(self).takes_plan(r, *final(self))
                } else {
                    r is None && *final(self) == *old(self)
                },
            },
    {
        if self.running {
            return None;
        }
        match button {
            Button::PlanDryRun => self.start_run(OperationMode::DryRun, false, facts),
            Button::FreshApply => self.start_run(OperationMode::Apply, false, facts),
            Button::ApplyPlan => if self.can_apply_plan() {
                self.apply_existing_plan()
            } else {
                None
            },
        }
    }

    /// The counts of the last run; all zero where there was none.
    pub open spec fn last_counts(&self) -> Metrics {
        match self.last_result {
            Some(result) => Metrics {
                scanned: result.summary.scanned_files,
                kept: result.summary.kept_files,
                planned: result.summary.planned_deletions,
                deleted: result.summary.deleted_files,
            },
            None => Metrics { scanned: 0, kept: 0, planned: 0, deleted: 0 },
        }
    }

    /// The counts of the last run.
    pub fn metrics(&self) -> (r: Metrics)
        ensures
            r == self.last_counts(),
            match self.last_result {
                Some(result) => {
                    &&& r.scanned == result.summary.scanned_files
                    &&& r.kept == result.summary.kept_files
                    &&& r.planned == result.summary.planned_deletions
                    &&& r.deleted == result.summary.deleted_files
                },
                None => r == (Metrics { scanned: 0, kept: 0, planned: 0, deleted: 0 }),
            },
    {
        match &self.last_result {
            Some(result) => Metrics {
                scanned: result.summary.scanned_files,
                kept: result.summary.kept_files,
                planned: result.summary.planned_deletions,
                deleted: result.summary.deleted_files,
            },
            None => Metrics { scanned: 0, kept: 0, planned: 0, deleted: 0 },
        }
    }

    /// Takes one message, where `time` is how long the run has taken.
    fn hear(&mut self, message: Message, time: &str)
        ensures
            heard(*old(self), message, time@, *final(self)),
    {
        match message {
            Message::Progress(update) => {
                self.status_message = update.message.clone();
                self.latest_progress = Some(update);
            },
            Message::Finished(Ok(artifacts), config) => {
                self.status_message = "Finished in ".to_string().concat(time).concat(
                    ". Reports saved to ",
                ).concat(artifacts.summary.output_dir.as_str());
                self.last_config = Some(config);
                self.last_result = Some(artifacts);
                self.running = false;
            },
            Message::Finished(Err(error), _) => {
                self.status_message = error;
                self.running = false;
            },
        }
    }

    /// Takes what the run has told since the last time, where `time` is how long the run
    /// has taken.
    pub fn take_messages(&mut self, messages: Vec<Message>, time: &str)
        ensures
            heard_all(*old(self), messages@, time@, *final(self)),
    {
        let ghost all = messages@;
        let ghost before = *self;
        let mut rest = messages;
        let mut reversed: Vec<Message> = Vec::new();
        while rest.len() > 0
            invariant
                rest@.len() + reversed@.len() == all.len(),
                rest@ == all.take(rest@.len() as int),
                forall|k: int|
                    0 <= k < reversed@.len() ==> #[trigger] reversed@[k] == all[all.len() - 1 - k],
            decreases rest@.len(),
        {
            let ghost was = rest@;
            if let Some(message) = rest.pop() {
                proof {
                    assert(was.last() == all[was.len() - 1]);
                    assert(rest@ =~= all.take(rest@.len() as int));
                }
                reversed.push(message);
            }
        }
        proof {
            assert(all.take(0) =~= Seq::empty());
        }
        while reversed.len() > 0
            invariant
                reversed@.len() <= all.len(),
                forall|k: int|
                    0 <= k < reversed@.len() ==> #[trigger] reversed@[k] == all[all.len() - 1 - k],
                heard_all(before, all.take(all.len() - reversed@.len()), time@, *self),
            decreases reversed@.len(),
        {
            let ghost middle = *self;
            let ghost done = all.len() - reversed@.len();
            let ghost next = reversed@.last();
            if let Some(message) = reversed.pop() {
                self.hear(message, time);
            }
            proof {
                let seen = all.take(done + 1);
                assert(seen.drop_last() =~= all.take(done));
                assert(seen.last() == next);
                assert(heard(middle, seen.last(), time@, *self));
                assert(heard_all(before, seen, time@, *self));
            }
        }
        proof {
            assert(all.take(all.len() as int) =~= all);
        }
    }

    /// Takes what the run has told since the last time, where the run has taken so many
    /// seconds and nanoseconds.
    pub fn poll_background_messages(&mut self, messages: Vec<Message>, seconds: u64, nanos: u32)
        requires
            nanos < 1_000_000_000,
        ensures
            heard_all(
                *old(self),
                messages@,
                seconds_text(seconds, nanos) + "s"@,
                *final(self),
            ),
    {
        let time = format_seconds(seconds, nanos).concat("s");
        self.take_messages(messages, time.as_str());
    }
}

/// Carrying out a plan deletes, and reads the reports that the plan came with: nothing else
/// changes in the configuration.
pub proof fn law_plan_is_carried_out_as_shown(dashboard: Dashboard)
    requires
        dashboard.last_config is Some,
    ensures
        dashboard.plan_config() matches Some(config) && {
            let last = (dashboard.last_config->0)@;
            &&& config.mode == OperationMode::Apply
            &&& config.resume
            &&& config.root_dir == last.root_dir
            &&& config.output_dir == last.output_dir
            &&& config.keep_rule == last.keep_rule
            &&& config.fast_prefilter == last.fast_prefilter
            &&& config.include_filters == last.include_filters
            &&& config.exclude_filters == last.exclude_filters
            &&& config.follow_symlinks == last.follow_symlinks
            &&& config.use_trash == last.use_trash
            &&& config.checkpoint_interval == last.checkpoint_interval
        },
{
}

/// What a message changes: a report on progress is shown and ends nothing; a result is kept,
/// with the configuration that it came of, and ends the run; an error is shown and ends the
/// run, and the last result stays. The form and the filter of the lists are never touched.
pub proof fn law_what_a_message_changes(
    before: Dashboard,
    message: Message,
    time: Seq<char>,
    after: Dashboard,
)
    requires
        heard(before, message, time, after),
    ensures
        after.form == before.form,
        after.table_filter == before.table_filter,
        message matches Message::Progress(update) ==> {
            &&& after.latest_progress == Some(update)
            &&& after.status_message@ == update.message@
            &&& after.running == before.running
            &&& after.last_result == before.last_result
            &&& after.last_config == before.last_config
        },
        message matches Message::Finished(result, config) ==> {
            &&& !after.running
            &&& after.latest_progress == before.latest_progress
            &&& match result {
                Ok(artifacts) => {
                    &&& after.last_result == Some(artifacts)
                    &&& after.last_config == Some(config)
                    &&& after.status_message@ == "Finished in "@ + time + ". Reports saved to "@
                        + artifacts.summary.output_dir@
                },
                Err(error) => {
                    &&& after.last_result == before.last_result
                    &&& after.last_config == before.last_config
                    &&& after.status_message@ == error@
                },
            }
        },
{
}

/// Messages are heard one after the other: hearing one more is hearing the others, and then
/// that one; hearing none changes nothing.
pub proof fn law_messages_are_heard_in_turn(
    before: Dashboard,
    messages: Seq<Message>,
    last: Message,
    time: Seq<char>,
    after: Dashboard,
)
    ensures
        heard_all(before, Seq::empty(), time, after) <==> after == before,
        heard_all(before, messages.push(last), time, after) <==> exists|middle: Dashboard|
            #![trigger heard(middle, last, time, after)]
            heard_all(before, messages, time, middle) && heard(middle, last, time, after),
{
    let all = messages.push(last);
    assert(all.drop_last() =~= messages);
    assert(all.last() == last);
}

/// A start that is granted starts a run, and one that is refused starts none: it says why.
/// Neither touches the form, the last result, or the filter of the lists.
pub proof fn law_starts_are_granted_or_refused(
    before: Dashboard,
    mode: OperationMode,
    force_resume: bool,
    facts: PathFacts,
    r: Option<RunConfig>,
    after: Dashboard,
)
    requires
        before.takes_start(mode, force_resume, facts, r, after),
    ensures
        after.form == before.form,
        after.last_result == before.last_result,
        after.last_config == before.last_config,
        after.table_filter == before.table_filter,
        r matches Some(config) ==> {
            &&& after.running
            &&& config.mode == mode
            &&& config.root_dir@ == trimmed(before.form.root_dir@)
            &&& config.output_dir@ == trimmed(before.form.output_dir@)
            &&& config.fast_prefilter == before.form.fast_prefilter
            &&& config.resume == (force_resume || before.form.resume)
            &&& !config.use_trash
            &&& after.status_message@ == if mode == OperationMode::Apply {
                "Applying deletion workflow..."@
            } else {
                "Planning duplicates..."@
            }
            &&& after.latest_progress matches Some(update) && update.stage == RunStage::Preparing
                && update.processed_files == 0 && update.message@ == (if mode
                == OperationMode::Apply {
                "Starting apply run..."@
            } else {
                "Starting dry run..."@
            })
        },
        r is None ==> after.running == before.running && after.latest_progress
            == before.latest_progress,
        r is None <==> before.form.missing() is Some || config_fault(
            before.form.described(mode, force_resume),
            facts,
        ) is Some,
{
    if let Some(config) = r {
        assert(config@.mode == mode);
        assert(config@.resume == (force_resume || before.form.resume));
        if let Some(update) = after.latest_progress {
            assert(update@.message == update.message@);
        }
    }
}

/// There is a plan to carry out exactly where no run is under way and the last one planned
/// to delete something.
pub proof fn law_when_a_plan_is_ready(dashboard: Dashboard)
    ensures
        dashboard.running ==> !dashboard.plan_is_ready(),
        dashboard.last_result is None ==> !dashboard.plan_is_ready(),
        dashboard.last_result matches Some(result) ==> (dashboard.plan_is_ready() <==> {
            &&& !dashboard.running
            &&& result.summary.planned_deletions != 0
        }),
{
}

/// Carrying out a plan starts a run that deletes, and says so; it touches neither the form
/// nor the last result. Without a last run nothing changes.
pub proof fn law_plans_are_started(before: Dashboard, r: Option<RunConfig>, after: Dashboard)
    requires
        before.takes_plan(r, after),
    ensures
        r is Some <==> before.last_config is Some,
        r is None ==> after == before,
        r matches Some(config) ==> {
            let last = before.last_config->0;
            &&& config.mode == OperationMode::Apply
            &&& config.resume
            &&& config.root_dir@ == last.root_dir@
            &&& config.output_dir@ == last.output_dir@
            &&& config.keep_rule@ == last.keep_rule@
            &&& config.use_trash == last.use_trash
            &&& config.fast_prefilter == last.fast_prefilter
            &&& config.checkpoint_interval == last.checkpoint_interval
            &&& after.running
            &&& after.form == before.form
            &&& after.last_result == before.last_result
            &&& after.last_config == before.last_config
            &&& after.table_filter == before.table_filter
            &&& after.status_message@ == "Applying current plan..."@
            &&& after.latest_progress matches Some(update) && update.message@
                == "Starting apply run..."@ && update.stage == RunStage::Preparing
        },
{
    if let Some(config) = r {
        let last = (before.last_config->0)@;
        assert(config@.mode == OperationMode::Apply);
        assert(config@.resume);
        assert(config@.root_dir == last.root_dir);
        assert(config@.output_dir == last.output_dir);
        assert(config@.keep_rule == last.keep_rule);
        assert(config@.use_trash == last.use_trash);
        assert(config@.fast_prefilter == last.fast_prefilter);
        assert(config@.checkpoint_interval == last.checkpoint_interval);
        if let Some(update) = after.latest_progress {
            assert(update@.message == update.message@);
        }
    }
}

/// What the buttons do: the first plans and deletes nothing, the second carries out the plan
/// of the last run, where there is one, and the third scans anew and deletes; neither of the
/// two that scan resumes unless the form says so. While a run is under way no button does
/// anything.
pub proof fn law_what_the_buttons_do(
    before: Dashboard,
    button: Button,
    facts: PathFacts,
    r: Option<RunConfig>,
    after: Dashboard,
)
    requires
        before.takes_click(button, facts, r, after),
    ensures
        before.running ==> r is None && after == before,
        r matches Some(config) ==> {
            &&& after.running
            &&& button == Button::PlanDryRun ==> config.mode == OperationMode::DryRun
                && config.resume == before.form.resume
            &&& button == Button::FreshApply ==> config.mode == OperationMode::Apply
                && config.resume == before.form.resume
            &&& button == Button::ApplyPlan ==> config.mode == OperationMode::Apply
                && config.resume
        },
        button == Button::ApplyPlan && r is Some ==> before.last_result is Some
            && before.last_config is Some,
        button == Button::ApplyPlan && !before.running && before.last_config is Some && (
        before.last_result matches Some(result) && result.summary.planned_deletions > 0)
            ==> r is Some,
        button != Button::ApplyPlan && !before.running ==> (r is Some
            <==> before.form.missing() is None && config_fault(
            before.form.described(
                if button == Button::PlanDryRun {
                    OperationMode::DryRun
                } else {
                    OperationMode::Apply
                },
                false,
            ),
            facts,
        ) is None),
{
    if let Some(config) = r {
        assert(config@.mode == config.mode);
        assert(config@.resume == config.resume);
    }
}

/// The counts that are shown are those of the last result, each under its own name, and zero
/// before there is one.
pub proof fn law_counts_are_those_of_the_last_result(dashboard: Dashboard)
    ensures
        dashboard.last_result matches Some(result) ==> {
            &&& dashboard.last_counts().scanned == result.summary.scanned_files
            &&& dashboard.last_counts().kept == result.summary.kept_files
            &&& dashboard.last_counts().planned == result.summary.planned_deletions
            &&& dashboard.last_counts().deleted == result.summary.deleted_files
        },
        dashboard.last_result is None ==> {
            &&& dashboard.last_counts().scanned == 0
            &&& dashboard.last_counts().kept == 0
            &&& dashboard.last_counts().planned == 0
            &&& dashboard.last_counts().deleted == 0
        },
{
}

/// A window at the start is safe: it has no run under way and no plan to carry out, and what
/// its form describes, once the folder to scan is chosen, keeps the oldest files, with the
/// prefilter, and takes up no earlier run.
pub proof fn law_fresh_window_is_safe(dashboard: Dashboard, output_dir: String)
    requires
        dashboard.is_fresh(output_dir),
    ensures
        !dashboard.running,
        !dashboard.plan_is_ready(),
        dashboard.plan_config() is None,
        dashboard.latest_progress is None,
        dashboard.table_filter@.len() == 0,
        dashboard.form.missing() == Some(FormFault::NoRoot),
        ({
            let config = dashboard.form.described(OperationMode::DryRun, false);
            &&& config.output_dir == trimmed(output_dir@)
            &&& config.keep_rule is OldestCreated
            &&& config.fast_prefilter
            &&& !config.resume
            &&& config.include_filters.len() == 0
            &&& config.exclude_filters.len() == 0
        }),
{
    law_lists_are_split_at_commas(Seq::empty(), Seq::empty());
    assert(dashboard.form.include_filters@ =~= Seq::empty());
    assert(dashboard.form.exclude_filters@ =~= Seq::empty());
    assert(dashboard.form.root_dir@ =~= Seq::empty());
    law_white_space_around_is_trimmed(Seq::empty(), Seq::empty(), Seq::empty());
    assert(Seq::<char>::empty() + Seq::<char>::empty() + Seq::<char>::empty()
        =~= Seq::<char>::empty());
}

} // verus!
