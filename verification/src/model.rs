//! The data of a run: files, configuration, progress and results.
use vstd::prelude::*;
use vstd::string::*;

use crate::text::{text_eq, texts};

verus! {

/// Folder, under the working directory, that suggested report folders are created in.
pub const OUTPUT_ROOT_DIR: &'static str = "output";

/// Folder, under the output folder, that holds the checkpoints.
pub const CHECKPOINT_DIR: &'static str = "checkpoints";

pub const ALL_FILES_CSV: &'static str = "all_files.csv";

pub const KEPT_FILES_CSV: &'static str = "kept_files.csv";

pub const PLANNED_DELETIONS_CSV: &'static str = "planned_deletions.csv";

pub const DELETED_FILES_CSV: &'static str = "deleted_files.csv";

pub const FAILED_DELETIONS_CSV: &'static str = "failed_deletions.csv";

pub const SUMMARY_TXT: &'static str = "summary.txt";

pub const DEFAULT_CHECKPOINT_INTERVAL: usize = 500;

/// How many bytes of a file's start, and of its end, its fingerprint is taken from.
pub const SAMPLE_FINGERPRINT_BYTES: usize = 65536;

/// One scanned file. `xxhash` is empty until the file has been hashed.
#[derive(Debug, PartialEq, Eq)]
pub struct FileInfo {
    pub file_path: String,
    pub file_size: u64,
    pub xxhash: String,
    pub created_time: i64,
    pub modified_time: i64,
    pub file_name: String,
}

/// The contents of a [`FileInfo`].
pub struct FileRecord {
    pub file_path: Seq<char>,
    pub file_size: u64,
    pub xxhash: Seq<char>,
    pub created_time: i64,
    pub modified_time: i64,
    pub file_name: Seq<char>,
}

impl View for FileInfo {
    type V = FileRecord;

    open spec fn view(&self) -> FileRecord {
        FileRecord {
            file_path: self.file_path@,
            file_size: self.file_size,
            xxhash: self.xxhash@,
            created_time: self.created_time,
            modified_time: self.modified_time,
            file_name: self.file_name@,
        }
    }
}

impl Clone for FileInfo {
    fn clone(&self) -> (r: Self)
        ensures
            r == *self,
    {
        FileInfo {
            file_path: self.file_path.clone(),
            file_size: self.file_size,
            xxhash: self.xxhash.clone(),
            created_time: self.created_time,
            modified_time: self.modified_time,
            file_name: self.file_name.clone(),
        }
    }
}

/// By how many nanoseconds the times of a file are past the whole seconds that are recorded
/// of it.
#[derive(Debug, Clone, Copy, PartialEq, Eq, Structural)]
pub struct FineTimes {
    pub created: u32,
    pub modified: u32,
}

/// The contents of a list of files.
pub open spec fn records(files: Seq<FileInfo>) -> Seq<FileRecord> {
    Seq::new(files.len(), |i: int| files[i]@)
}

/// A file that could not be deleted, and why.
#[derive(Debug, PartialEq, Eq)]
pub struct FailedDeletionRecord {
    pub file_path: String,
    pub error: String,
}

impl Clone for FailedDeletionRecord {
    fn clone(&self) -> (r: Self)
        ensures
            r == *self,
    {
        FailedDeletionRecord { file_path: self.file_path.clone(), error: self.error.clone() }
    }
}

/// Whether a run only plans deletions or also carries them out.
#[derive(Debug, Clone, Copy, PartialEq, Eq, Structural)]
pub enum OperationMode {
    DryRun,
    Apply,
}

impl OperationMode {
    /// The mode's name.
    pub open spec fn name(self) -> Seq<char> {
        match self {
            OperationMode::DryRun => "dry-run"@,
            OperationMode::Apply => "apply"@,
        }
    }

    /// The mode's name.
    pub fn as_str(self) -> (r: &'static str)
        ensures
            r@ == self.name(),
    {
        match self {
            OperationMode::DryRun => "dry-run",
            OperationMode::Apply => "apply",
        }
    }
}

/// Which file of a set of duplicates is kept.
#[derive(Debug, PartialEq, Eq)]
pub enum KeepRule {
    OldestCreated,
    NewestModified,
    PreferPath(String),
}

impl Clone for KeepRule {
    fn clone(&self) -> (r: Self)
        ensures
            r == *self,
    {
        match self {
            KeepRule::OldestCreated => KeepRule::OldestCreated,
            KeepRule::NewestModified => KeepRule::NewestModified,
            KeepRule::PreferPath(path) => KeepRule::PreferPath(path.clone()),
        }
    }
}

impl KeepRule {
    /// The rule's name on the command line.
    pub open spec fn flag(self) -> Seq<char> {
        match self {
            KeepRule::OldestCreated => "oldest-created"@,
            KeepRule::NewestModified => "newest-modified"@,
            KeepRule::PreferPath(_) => "prefer-path"@,
        }
    }

    /// The rule as it is shown to people.
    pub open spec fn caption(self) -> Seq<char> {
        match self {
            KeepRule::OldestCreated => "Oldest created"@,
            KeepRule::NewestModified => "Newest modified"@,
            KeepRule::PreferPath(path) => "Prefer path ("@ + path@ + ")"@,
        }
    }

    /// The rule's name on the command line.
    pub fn cli_value(&self) -> (r: &'static str)
        ensures
            r@ == self.flag(),
    {
        match self {
            KeepRule::OldestCreated => "oldest-created",
            KeepRule::NewestModified => "newest-modified",
            KeepRule::PreferPath(_) => "prefer-path",
        }
    }

    /// The rule as it is shown to people.
    pub fn label(&self) -> (r: String)
        ensures
            r@ == self.caption(),
    {
        match self {
            KeepRule::OldestCreated => "Oldest created".to_string(),
            KeepRule::NewestModified => "Newest modified".to_string(),
            KeepRule::PreferPath(path) => "Prefer path (".to_string().concat(path.as_str()).concat(
                ")",
            ),
        }
    }
}

/// The conventions that paths follow.
#[derive(Debug, Clone, Copy, PartialEq, Eq, Structural)]
pub enum Platform {
    Unix,
    Windows,
}

/// What a run does, and to which folder.
#[derive(Debug, PartialEq, Eq)]
pub struct RunConfig {
    pub root_dir: String,
    pub output_dir: String,
    pub mode: OperationMode,
    pub keep_rule: KeepRule,
    pub fast_prefilter: bool,
    pub include_filters: Vec<String>,
    pub exclude_filters: Vec<String>,
    pub follow_symlinks: bool,
    pub use_trash: bool,
    pub resume: bool,
    pub checkpoint_interval: usize,
}

/// The contents of a [`RunConfig`].
pub struct ConfigRecord {
    pub root_dir: Seq<char>,
    pub output_dir: Seq<char>,
    pub mode: OperationMode,
    pub keep_rule: KeepRuleRecord,
    pub fast_prefilter: bool,
    pub include_filters: Seq<Seq<char>>,
    pub exclude_filters: Seq<Seq<char>>,
    pub follow_symlinks: bool,
    pub use_trash: bool,
    pub resume: bool,
    pub checkpoint_interval: usize,
}

impl View for RunConfig {
    type V = ConfigRecord;

    open spec fn view(&self) -> ConfigRecord {
        ConfigRecord {
            root_dir: self.root_dir@,
            output_dir: self.output_dir@,
            mode: self.mode,
            keep_rule: self.keep_rule@,
            fast_prefilter: self.fast_prefilter,
            include_filters: texts(self.include_filters@),
            exclude_filters: texts(self.exclude_filters@),
            follow_symlinks: self.follow_symlinks,
            use_trash: self.use_trash,
            resume: self.resume,
            checkpoint_interval: self.checkpoint_interval,
        }
    }
}

/// A copy of a list of strings.
pub fn clone_texts(v: &Vec<String>) -> (r: Vec<String>)
    ensures
        r@ == v@,
{
    let mut r: Vec<String> = Vec::new();
    let mut i: usize = 0;
    while i < v.len()
        invariant
            i <= v@.len(),
            r@ == v@.take(i as int),
        decreases v@.len() - i,
    {
        r.push(v[i].clone());
        i = i + 1;
        assert(r@ =~= v@.take(i as int));
    }
    assert(r@ =~= v@);
    r
}

impl Clone for RunConfig {
    fn clone(&self) -> (r: Self)
        ensures
            r@ == self@,
    {
        RunConfig {
            root_dir: self.root_dir.clone(),
            output_dir: self.output_dir.clone(),
            mode: self.mode,
            keep_rule: self.keep_rule.clone(),
            fast_prefilter: self.fast_prefilter,
            include_filters: clone_texts(&self.include_filters),
            exclude_filters: clone_texts(&self.exclude_filters),
            follow_symlinks: self.follow_symlinks,
            use_trash: self.use_trash,
            resume: self.resume,
            checkpoint_interval: self.checkpoint_interval,
        }
    }
}

/// The counts that a run ends with.
#[derive(Debug, PartialEq, Eq)]
pub struct RunSummary {
    pub mode: OperationMode,
    pub root_dir: String,
    pub output_dir: String,
    pub keep_rule: String,
    pub discovered_files: usize,
    pub scanned_files: usize,
    pub kept_files: usize,
    pub planned_deletions: usize,
    pub deleted_files: usize,
    pub failed_deletions: usize,
    pub duplicate_sets: usize,
}

/// Everything that a run ends with.
#[derive(Debug, PartialEq, Eq)]
pub struct RunArtifacts {
    pub summary: RunSummary,
    pub all_files: Vec<FileInfo>,
    pub kept_files: Vec<FileInfo>,
    pub planned_deletions: Vec<FileInfo>,
    pub deleted_files: Vec<FileInfo>,
    pub failed_deletions: Vec<FailedDeletionRecord>,
}

impl Clone for RunSummary {
    fn clone(&self) -> (r: Self)
        ensures
            r == *self,
    {
        RunSummary {
            mode: self.mode,
            root_dir: self.root_dir.clone(),
            output_dir: self.output_dir.clone(),
            keep_rule: self.keep_rule.clone(),
            discovered_files: self.discovered_files,
            scanned_files: self.scanned_files,
            kept_files: self.kept_files,
            planned_deletions: self.planned_deletions,
            deleted_files: self.deleted_files,
            failed_deletions: self.failed_deletions,
            duplicate_sets: self.duplicate_sets,
        }
    }
}

/// A copy of a list of files.
pub fn clone_files(v: &Vec<FileInfo>) -> (r: Vec<FileInfo>)
    ensures
        r@ == v@,
{
    let mut r: Vec<FileInfo> = Vec::new();
    let mut i: usize = 0;
    while i < v.len()
        invariant
            i <= v@.len(),
            r@ == v@.take(i as int),
        decreases v@.len() - i,
    {
        r.push(v[i].clone());
        i = i + 1;
        assert(r@ =~= v@.take(i as int));
    }
    assert(r@ =~= v@);
    r
}

/// A copy of a list of failed deletions.
pub fn clone_failures(v: &Vec<FailedDeletionRecord>) -> (r: Vec<FailedDeletionRecord>)
    ensures
        r@ == v@,
{
    let mut r: Vec<FailedDeletionRecord> = Vec::new();
    let mut i: usize = 0;
    while i < v.len()
        invariant
            i <= v@.len(),
            r@ == v@.take(i as int),
        decreases v@.len() - i,
    {
        r.push(v[i].clone());
        i = i + 1;
        assert(r@ =~= v@.take(i as int));
    }
    assert(r@ =~= v@);
    r
}

impl Clone for RunArtifacts {
    fn clone(&self) -> (r: Self)
        ensures
            r.summary == self.summary,
            r.all_files@ == self.all_files@,
            r.kept_files@ == self.kept_files@,
            r.planned_deletions@ == self.planned_deletions@,
            r.deleted_files@ == self.deleted_files@,
            r.failed_deletions@ == self.failed_deletions@,
    {
        RunArtifacts {
            summary: self.summary.clone(),
            all_files: clone_files(&self.all_files),
            kept_files: clone_files(&self.kept_files),
            planned_deletions: clone_files(&self.planned_deletions),
            deleted_files: clone_files(&self.deleted_files),
            failed_deletions: clone_failures(&self.failed_deletions),
        }
    }
}

/// The stages of a run.
#[derive(Debug, Clone, Copy, PartialEq, Eq, Structural)]
pub enum RunStage {
    Preparing,
    Discovering,
    Scanning,
    Hashing,
    Planning,
    Deleting,
    Saving,
    Complete,
}

/// A report on how far a run has come.
#[derive(Debug, PartialEq, Eq)]
pub struct ProgressUpdate {
    pub stage: RunStage,
    pub message: String,
    pub discovered_files: Option<usize>,
    pub processed_files: usize,
    pub planned_deletions: usize,
    pub deleted_files: usize,
}

impl Clone for ProgressUpdate {
    fn clone(&self) -> (r: Self)
        ensures
            r == *self,
    {
        ProgressUpdate {
            stage: self.stage,
            message: self.message.clone(),
            discovered_files: self.discovered_files,
            processed_files: self.processed_files,
            planned_deletions: self.planned_deletions,
            deleted_files: self.deleted_files,
        }
    }
}

/// The contents of a [`ProgressUpdate`].
pub struct ProgressRecord {
    pub stage: RunStage,
    pub message: Seq<char>,
    pub discovered_files: Option<usize>,
    pub processed_files: usize,
    pub planned_deletions: usize,
    pub deleted_files: usize,
}

impl View for ProgressUpdate {
    type V = ProgressRecord;

    open spec fn view(&self) -> ProgressRecord {
        ProgressRecord {
            stage: self.stage,
            message: self.message@,
            discovered_files: self.discovered_files,
            processed_files: self.processed_files,
            planned_deletions: self.planned_deletions,
            deleted_files: self.deleted_files,
        }
    }
}

/// The contents of a list of progress reports.
pub open spec fn reported(updates: Seq<ProgressUpdate>) -> Seq<ProgressRecord> {
    Seq::new(updates.len(), |i: int| updates[i]@)
}

/// A progress report with the given contents.
pub fn progress(
    stage: RunStage,
    message: String,
    discovered_files: Option<usize>,
    processed_files: usize,
    planned_deletions: usize,
    deleted_files: usize,
) -> (r: ProgressUpdate)
    ensures
        r@ == (ProgressRecord {
            stage,
            message: message@,
            discovered_files,
            processed_files,
            planned_deletions,
            deleted_files,
        }),
{
    ProgressUpdate {
        stage,
        message,
        discovered_files,
        processed_files,
        planned_deletions,
        deleted_files,
    }
}

/// The keep rule that a name from the command line stands for.
pub open spec fn named_rule(
    name: Seq<char>,
    prefer_path: Option<Seq<char>>,
) -> Result<KeepRuleRecord, RuleError> {
    if name == "oldest-created"@ {
        Ok(KeepRuleRecord::OldestCreated)
    } else if name == "newest-modified"@ {
        Ok(KeepRuleRecord::NewestModified)
    } else if name == "prefer-path"@ {
        match prefer_path {
            Some(path) => Ok(KeepRuleRecord::PreferPath(path)),
            None => Err(RuleError::MissingPath),
        }
    } else {
        Err(RuleError::Unsupported)
    }
}

/// The contents of a [`KeepRule`].
pub enum KeepRuleRecord {
    OldestCreated,
    NewestModified,
    PreferPath(Seq<char>),
}

impl View for KeepRule {
    type V = KeepRuleRecord;

    open spec fn view(&self) -> KeepRuleRecord {
        match self {
            KeepRule::OldestCreated => KeepRuleRecord::OldestCreated,
            KeepRule::NewestModified => KeepRuleRecord::NewestModified,
            KeepRule::PreferPath(path) => KeepRuleRecord::PreferPath(path@),
        }
    }
}

/// Why a name stands for no keep rule.
#[derive(Debug, Clone, Copy, PartialEq, Eq, Structural)]
pub enum RuleError {
    Unsupported,
    MissingPath,
}

/// The keep rule that a name from the command line stands for.
pub fn parse_keep_rule(name: &str, prefer_path: Option<String>) -> (r: Result<KeepRule, RuleError>)
    ensures
        match r {
            Ok(rule) => Ok(rule@),
            Err(e) => Err(e),
        } == named_rule(
            name@,
            match prefer_path {
                Some(path) => Some(path@),
                None => None,
            },
        ),
{
    if text_eq(name, "oldest-created") {
        Ok(KeepRule::OldestCreated)
    } else if text_eq(name, "newest-modified") {
        Ok(KeepRule::NewestModified)
    } else if text_eq(name, "prefer-path") {
        match prefer_path {
            Some(path) => Ok(KeepRule::PreferPath(path)),
            None => Err(RuleError::MissingPath),
        }
    } else {
        Err(RuleError::Unsupported)
    }
}

/// A keep rule's name on the command line stands for the rule again.
pub proof fn law_rule_name_parses_back(rule: KeepRule)
    ensures
        named_rule(
            rule.flag(),
            match rule {
                KeepRule::PreferPath(path) => Some(path@),
                _ => None,
            },
        ) == Ok::<KeepRuleRecord, RuleError>(rule@),
{
    reveal_strlit("oldest-created");
    reveal_strlit("newest-modified");
    reveal_strlit("prefer-path");
    assert("oldest-created"@[0] != "newest-modified"@[0]);
    assert("prefer-path"@[0] != "oldest-created"@[0]);
    assert("prefer-path"@[0] != "newest-modified"@[0]);
}

/// Each of the three names stands for its own rule, whatever path comes with it; the third
/// takes the path along, and is refused without one. No other name stands for a rule.
pub proof fn law_names_of_rules(name: Seq<char>, path: Option<Seq<char>>)
    ensures
        named_rule(name, path) == Ok::<KeepRuleRecord, RuleError>(KeepRuleRecord::OldestCreated)
            <==> name == "oldest-created"@,
        named_rule(name, path) == Ok::<KeepRuleRecord, RuleError>(KeepRuleRecord::NewestModified)
            <==> name == "newest-modified"@,
        named_rule(name, path) matches Ok(KeepRuleRecord::PreferPath(folder)) ==> name
            == "prefer-path"@ && path == Some(folder),
        name == "prefer-path"@ && path is Some ==> named_rule(name, path) == Ok::<
            KeepRuleRecord,
            RuleError,
        >(KeepRuleRecord::PreferPath(path->0)),
        named_rule(name, path) == Err::<KeepRuleRecord, RuleError>(RuleError::MissingPath) <==> name
            == "prefer-path"@ && path is None,
        named_rule(name, path) == Err::<KeepRuleRecord, RuleError>(RuleError::Unsupported) <==> name
            != "oldest-created"@ && name != "newest-modified"@ && name != "prefer-path"@,
{
    reveal_strlit("oldest-created");
    reveal_strlit("newest-modified");
    reveal_strlit("prefer-path");
    assert("oldest-created"@[0] != "newest-modified"@[0]);
    assert("prefer-path"@[0] != "oldest-created"@[0]);
    assert("prefer-path"@[0] != "newest-modified"@[0]);
}

/// The contents of a file's record, of a configuration, of a keep rule and of a report are
/// those of its own fields, each under its own name.
pub proof fn law_contents_of_records(
    file: FileInfo,
    config: RunConfig,
    rule: KeepRule,
    update: ProgressUpdate,
)
    ensures
        file@.file_path == file.file_path@,
        file@.file_size == file.file_size,
        file@.xxhash == file.xxhash@,
        file@.created_time == file.created_time,
        file@.modified_time == file.modified_time,
        file@.file_name == file.file_name@,
        config@.root_dir == config.root_dir@,
        config@.output_dir == config.output_dir@,
        config@.mode == config.mode,
        config@.keep_rule == config.keep_rule@,
        config@.fast_prefilter == config.fast_prefilter,
        config@.include_filters == texts(config.include_filters@),
        config@.exclude_filters == texts(config.exclude_filters@),
        config@.follow_symlinks == config.follow_symlinks,
        config@.use_trash == config.use_trash,
        config@.resume == config.resume,
        config@.checkpoint_interval == config.checkpoint_interval,
        rule is OldestCreated <==> rule@ is OldestCreated,
        rule is NewestModified <==> rule@ is NewestModified,
        rule matches KeepRule::PreferPath(folder) ==> rule@ == KeepRuleRecord::PreferPath(folder@),
        update@.stage == update.stage,
        update@.message == update.message@,
        update@.discovered_files == update.discovered_files,
        update@.processed_files == update.processed_files,
        update@.planned_deletions == update.planned_deletions,
        update@.deleted_files == update.deleted_files,
{
}

/// The contents of a list are those of its items, in their order.
pub proof fn law_contents_of_lists(files: Seq<FileInfo>, updates: Seq<ProgressUpdate>, i: int)
    ensures
        records(files).len() == files.len(),
        0 <= i < files.len() ==> records(files)[i] == files[i]@,
        reported(updates).len() == updates.len(),
        0 <= i < updates.len() ==> reported(updates)[i] == updates[i]@,
{
}

/// Keep rules are shown with their own names, the rule by folder with its folder.
pub proof fn law_captions_of_rules(folder: String)
    ensures
        KeepRule::OldestCreated.caption() == "Oldest created"@,
        KeepRule::NewestModified.caption() == "Newest modified"@,
        KeepRule::PreferPath(folder).caption() == "Prefer path ("@ + folder@ + ")"@,
        KeepRule::OldestCreated.flag() == "oldest-created"@,
        KeepRule::NewestModified.flag() == "newest-modified"@,
        KeepRule::PreferPath(folder).flag() == "prefer-path"@,
        OperationMode::DryRun.name() == "dry-run"@,
        OperationMode::Apply.name() == "apply"@,
{
}

} // verus!
