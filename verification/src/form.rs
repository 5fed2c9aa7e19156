//! The form in which a run is set up.
use vstd::prelude::*;
use vstd::string::*;

use crate::config::{config_fault, ConfigError, Fault, PathFacts};
use crate::model::{ConfigRecord, KeepRule, KeepRuleRecord, OperationMode, RunConfig};
use crate::text::{listed, split_filters, texts, trim_text, trimmed};

verus! {

/// How many files a run that is started from the form handles between two reports.
pub const FORM_PROGRESS_INTERVAL: usize = 100;

/// The fields of the form. `keep_rule_index` is the place of the keep rule in the list
/// that the form offers.
#[derive(Debug, PartialEq, Eq)]
pub struct RunForm {
    pub root_dir: String,
    pub output_dir: String,
    pub include_filters: String,
    pub exclude_filters: String,
    pub keep_rule_index: usize,
    pub prefer_path: String,
    pub fast_prefilter: bool,
    pub resume: bool,
}

/// Why a form gives no configuration.
#[derive(Debug, PartialEq, Eq)]
pub enum FormError {
    NoRoot,
    NoOutput,
    NoPreferred,
    Config(ConfigError),
}

/// The contents of a [`FormError`].
pub enum FormFault {
    NoRoot,
    NoOutput,
    NoPreferred,
    Config(Fault),
}

impl View for FormError {
    type V = FormFault;

    open spec fn view(&self) -> FormFault {
        match self {
            FormError::NoRoot => FormFault::NoRoot,
            FormError::NoOutput => FormFault::NoOutput,
            FormError::NoPreferred => FormFault::NoPreferred,
            FormError::Config(e) => FormFault::Config(e@),
        }
    }
}

impl FormFault {
    /// The message that tells a user of the fault.
    pub open spec fn message(self) -> Seq<char> {
        match self {
            FormFault::NoRoot => "Choose a folder to scan first."@,
            FormFault::NoOutput => "Choose a report folder first."@,
            FormFault::NoPreferred => "Choose a preferred folder for the selected keep rule."@,
            FormFault::Config(fault) => fault.message(),
        }
    }
}

impl FormError {
    /// The message that tells a user of the error.
    pub fn message(&self) -> (r: String)
        ensures
            r@ == self@.message(),
    {
        match self {
            FormError::NoRoot => "Choose a folder to scan first.".to_string(),
            FormError::NoOutput => "Choose a report folder first.".to_string(),
            FormError::NoPreferred => {
                "Choose a preferred folder for the selected keep rule.".to_string()
            },
            FormError::Config(e) => e.message(),
        }
    }
}

impl RunForm {
    /// What is missing in the form, if anything is.
    pub open spec fn missing(&self) -> Option<FormFault> {
        if trimmed(self.root_dir@).len() == 0 {
            Some(FormFault::NoRoot)
        } else if trimmed(self.output_dir@).len() == 0 {
            Some(FormFault::NoOutput)
        } else if self.keep_rule_index == 2 && trimmed(self.prefer_path@).len() == 0 {
            Some(FormFault::NoPreferred)
        } else {
            None
        }
    }

    /// The configuration that the form describes.
    pub open spec fn described(&self, mode: OperationMode, force_resume: bool) -> ConfigRecord {
        ConfigRecord {
            root_dir: trimmed(self.root_dir@),
            output_dir: trimmed(self.output_dir@),
            mode,
            keep_rule: if self.keep_rule_index == 0 {
                KeepRuleRecord::OldestCreated
            } else if self.keep_rule_index == 1 {
                KeepRuleRecord::NewestModified
            } else {
                KeepRuleRecord::PreferPath(trimmed(self.prefer_path@))
            },
            fast_prefilter: self.fast_prefilter,
            include_filters: listed(self.include_filters@),
            exclude_filters: listed(self.exclude_filters@),
            follow_symlinks: false,
            use_trash: false,
            resume: force_resume || self.resume,
            checkpoint_interval: FORM_PROGRESS_INTERVAL,
        }
    }

    /// The configuration that the form describes, where nothing is missing in it.
    pub fn draft_config(&self, mode: OperationMode, force_resume: bool) -> (r: Result<
        RunConfig,
        FormError,
    >)
        ensures
            match r {
                Ok(config) => self.missing() is None && config@ == self.described(
                    mode,
                    force_resume,
                ),
                Err(e) => self.missing() == Some(e@),
            },
            r matches Ok(config) ==> {
                &&& config.root_dir@ == trimmed(self.root_dir@)
                &&& config.output_dir@ == trimmed(self.output_dir@)
                &&& config.mode == mode
                &&& match config.keep_rule {
                    KeepRule::OldestCreated => self.keep_rule_index == 0,
                    KeepRule::NewestModified => self.keep_rule_index == 1,
                    KeepRule::PreferPath(folder) => self.keep_rule_index >= 2 && folder@ == trimmed(
                        self.prefer_path@,
                    ),
                }
                &&& config.fast_prefilter == self.fast_prefilter
                &&& texts(config.include_filters@) == listed(self.include_filters@)
                &&& texts(config.exclude_filters@) == listed(self.exclude_filters@)
                &&& !config.follow_symlinks
                &&& !config.use_trash
                &&& config.resume == (force_resume || self.resume)
                &&& config.checkpoint_interval == FORM_PROGRESS_INTERVAL
            },
    {
        let root_dir = trim_text(self.root_dir.as_str());
        let output_dir = trim_text(self.output_dir.as_str());
        let prefer_path = trim_text(self.prefer_path.as_str());
        if root_dir.as_str().is_empty() {
            return Err(FormError::NoRoot);
        }
        if output_dir.as_str().is_empty() {
            return Err(FormError::NoOutput);
        }
        if self.keep_rule_index == 2 && prefer_path.as_str().is_empty() {
            return Err(FormError::NoPreferred);
        }
        let keep_rule = if self.keep_rule_index == 0 {
            KeepRule::OldestCreated
        } else if self.keep_rule_index == 1 {
            KeepRule::NewestModified
        } else {
            KeepRule::PreferPath(prefer_path)
        };
        Ok(
            RunConfig {
                root_dir,
                output_dir,
                mode,
                keep_rule,
                fast_prefilter: self.fast_prefilter,
                include_filters: split_filters(self.include_filters.as_str()),
                exclude_filters: split_filters(self.exclude_filters.as_str()),
                follow_symlinks: false,
                use_trash: false,
                resume: force_resume || self.resume,
                checkpoint_interval: FORM_PROGRESS_INTERVAL,
            },
        )
    }

    /// The configuration that the form describes, where it is usable. `facts` says what the
    /// file system holds at the paths of the draft.
    pub fn build_config(&self, mode: OperationMode, force_resume: bool, facts: PathFacts) -> (r:
        Result<RunConfig, FormError>)
        ensures
            ({
                let wanted = self.described(mode, force_resume);
                match r {
                    Ok(config) => {
                        &&& self.missing() is None
                        &&& config_fault(wanted, facts) is None
                        &&& config@ == wanted
                    },
                    Err(e) => match self.missing() {
                        Some(fault) => e@ == fault,
                        None => config_fault(wanted, facts) matches Some(fault) && e@
                            == FormFault::Config(fault),
                    },
                }
            }),
            r matches Ok(config) ==> {
                &&& config.root_dir@ == trimmed(self.root_dir@)
                &&& config.output_dir@ == trimmed(self.output_dir@)
                &&& config.mode == mode
                &&& config.fast_prefilter == self.fast_prefilter
                &&& texts(config.include_filters@) == listed(self.include_filters@)
                &&& texts(config.exclude_filters@) == listed(self.exclude_filters@)
                &&& !config.follow_symlinks
                &&& !config.use_trash
                &&& config.resume == (force_resume || self.resume)
            },
    {
        match self.draft_config(mode, force_resume) {
            Ok(config) => match config.validate(facts) {
                Ok(()) => Ok(config),
                Err(e) => Err(FormError::Config(e)),
            },
            Err(e) => Err(e),
        }
    }

    /// The name of the chosen keep rule.
    pub open spec fn rule_name(&self) -> Seq<char> {
        if self.keep_rule_index == 0 {
            "Oldest created"@
        } else if self.keep_rule_index == 1 {
            "Newest modified"@
        } else {
            "Prefer a folder"@
        }
    }

    /// The name of the chosen keep rule.
    pub fn keep_rule_label(&self) -> (r: &'static str)
        ensures
            r@ == self.rule_name(),
    {
        if self.keep_rule_index == 0 {
            "Oldest created"
        } else if self.keep_rule_index == 1 {
            "Newest modified"
        } else {
            "Prefer a folder"
        }
    }
}

/// A form can be used once its folders are filled in: the folder to scan, the folder for
/// the reports, and, for the rule that prefers a folder, that one. The first that is missing
/// is asked for. White space fills in nothing.
pub proof fn law_what_a_form_misses(form: RunForm)
    ensures
        ({
            let root = trimmed(form.root_dir@).len() > 0;
            let output = trimmed(form.output_dir@).len() > 0;
            let preferred = trimmed(form.prefer_path@).len() > 0;
            &&& form.missing() is None <==> root && output && (form.keep_rule_index == 2
                ==> preferred)
            &&& form.missing() == Some(FormFault::NoRoot) <==> !root
            &&& form.missing() == Some(FormFault::NoOutput) <==> root && !output
            &&& form.missing() == Some(FormFault::NoPreferred) <==> root && output
                && form.keep_rule_index == 2 && !preferred
        }),
{
}

/// What a form describes is what is filled in, without the white space around it: the
/// folders, the rule at its place in the list, and the parts of the two lists of filters. A
/// run from the form neither follows links nor uses the trash, and it resumes where the form
/// or the button says so.
pub proof fn law_form_describes_what_is_filled_in(
    form: RunForm,
    mode: OperationMode,
    force_resume: bool,
)
    ensures
        ({
            let config = form.described(mode, force_resume);
            &&& config.root_dir == trimmed(form.root_dir@)
            &&& config.output_dir == trimmed(form.output_dir@)
            &&& config.mode == mode
            &&& form.keep_rule_index == 0 ==> config.keep_rule is OldestCreated
            &&& form.keep_rule_index == 1 ==> config.keep_rule is NewestModified
            &&& form.keep_rule_index == 2 ==> config.keep_rule == KeepRuleRecord::PreferPath(
                trimmed(form.prefer_path@),
            )
            &&& config.fast_prefilter == form.fast_prefilter
            &&& config.include_filters == listed(form.include_filters@)
            &&& config.exclude_filters == listed(form.exclude_filters@)
            &&& !config.follow_symlinks
            &&& !config.use_trash
            &&& config.resume == (force_resume || form.resume)
            &&& config.checkpoint_interval == 100
        }),
{
}

/// The label of the rule that is chosen is that of the rule which the form describes.
pub proof fn law_label_is_that_of_the_rule(form: RunForm, mode: OperationMode, resume: bool)
    ensures
        form.rule_name() == match form.described(mode, resume).keep_rule {
            KeepRuleRecord::OldestCreated => "Oldest created"@,
            KeepRuleRecord::NewestModified => "Newest modified"@,
            KeepRuleRecord::PreferPath(_) => "Prefer a folder"@,
        },
{
}

/// What a form misses is told as what to choose; a fault of the configuration is told as it
/// is told everywhere.
pub proof fn law_missing_fields_are_asked_for(fault: Fault)
    ensures
        FormFault::NoRoot.message() == "Choose a folder to scan first."@,
        FormFault::NoOutput.message() == "Choose a report folder first."@,
        FormFault::NoPreferred.message()
            == "Choose a preferred folder for the selected keep rule."@,
        FormFault::Config(fault).message() == fault.message(),
{
}

} // verus!
