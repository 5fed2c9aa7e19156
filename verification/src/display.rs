//! Texts and figures that tell a user how a run is doing.
use vstd::prelude::*;
use vstd::string::*;

use crate::model::{
    progress, FileInfo, OperationMode, ProgressRecord, ProgressUpdate, RunStage, RunSummary,
};
use crate::number::{count_text, decimal, decimal_text};
use crate::select::{ascending, lemma_ascending_congruent};
use crate::text::{
    contains_text, has_text, is_white_space, law_white_space_around_is_trimmed, lowercase,
    lowercase_text, text_option, texts, trim_text, trimmed,
};

verus! {

// ---------------------------------------------------------------------------
// Durations
// ---------------------------------------------------------------------------

/// Seconds with one decimal place: a name for what the formatting of
/// `std::time::Duration::as_secs_f32` gives.
pub uninterp spec fn seconds_text(seconds: u64, nanos: u32) -> Seq<char>;

/// The text that `std::time::Duration::as_secs_f32` gives when it is formatted with one
/// decimal place. The contract claims only that it depends on nothing but the duration.
#[verifier::external_body]
pub(crate) fn format_seconds(seconds: u64, nanos: u32) -> (r: String)
    requires
        nanos < 1_000_000_000,
    ensures
        r@ == seconds_text(seconds, nanos),
{
    format!("{:.1}", std::time::Duration::new(seconds, nanos).as_secs_f32())
}

/// A number with at least two digits.
pub open spec fn two_digits(n: int) -> Seq<char> {
    if n < 10 {
        "0"@ + decimal(n)
    } else {
        decimal(n)
    }
}

/// A number with at least two digits.
fn two_digit_text(n: u64) -> (r: String)
    ensures
        r@ == two_digits(n as int),
{
    if n < 10 {
        "0".to_string().concat(decimal_text(n).as_str())
    } else {
        decimal_text(n)
    }
}

/// A duration: below a minute as `short` has it, and then in minutes and seconds, with
/// hours before them where there are any.
pub open spec fn duration_form(seconds: int, short: Seq<char>) -> Seq<char> {
    if seconds < 60 {
        short
    } else if seconds < 3600 {
        two_digits(seconds / 60) + ":"@ + two_digits(seconds % 60)
    } else {
        two_digits(seconds / 3600) + ":"@ + two_digits((seconds % 3600) / 60) + ":"@ + two_digits(
            seconds % 60,
        )
    }
}

/// A duration of so many whole seconds, which below a minute reads `short`.
pub fn duration_text(seconds: u64, short: String) -> (r: String)
    ensures
        r@ == duration_form(seconds as int, short@),
{
    if seconds < 60 {
        short
    } else if seconds < 3600 {
        two_digit_text(seconds / 60).concat(":").concat(two_digit_text(seconds % 60).as_str())
    } else {
        two_digit_text(seconds / 3600).concat(":").concat(
            two_digit_text((seconds % 3600) / 60).as_str(),
        ).concat(":").concat(two_digit_text(seconds % 60).as_str())
    }
}

/// A duration, given in seconds and nanoseconds.
pub fn format_duration(seconds: u64, nanos: u32) -> (r: String)
    requires
        nanos < 1_000_000_000,
    ensures
        r@ == duration_form(seconds as int, seconds_text(seconds, nanos) + "s"@),
{
    duration_text(seconds, format_seconds(seconds, nanos).concat("s"))
}

// ---------------------------------------------------------------------------
// Progress
// ---------------------------------------------------------------------------

/// The report that a run is about to start.
pub open spec fn start_record(mode: OperationMode) -> ProgressRecord {
    ProgressRecord {
        stage: RunStage::Preparing,
        message: match mode {
            OperationMode::DryRun => "Starting dry run..."@,
            OperationMode::Apply => "Starting apply run..."@,
        },
        discovered_files: None,
        processed_files: 0,
        planned_deletions: 0,
        deleted_files: 0,
    }
}

/// The report that a run is about to start.
pub fn starting_progress(mode: OperationMode) -> (r: ProgressUpdate)
    ensures
        r@ == start_record(mode),
{
    let message: String = match mode {
        OperationMode::DryRun => "Starting dry run...".to_string(),
        OperationMode::Apply => "Starting apply run...".to_string(),
    };
    progress(RunStage::Preparing, message, None, 0, 0, 0)
}

/// The text in the progress bar.
pub open spec fn bar_text(latest: Option<ProgressUpdate>, is_running: bool) -> Seq<char> {
    match latest {
        Some(update) => update.message@,
        None => if is_running {
            "Starting background worker..."@
        } else {
            "No active run"@
        },
    }
}

/// The text in the progress bar.
pub fn progress_bar_text(latest: &Option<ProgressUpdate>, is_running: bool) -> (r: String)
    ensures
        r@ == bar_text(*latest, is_running),
{
    match latest {
        Some(update) => update.message.clone(),
        None => if is_running {
            "Starting background worker...".to_string()
        } else {
            "No active run".to_string()
        },
    }
}

/// The name of a stage.
pub open spec fn stage_name(stage: RunStage) -> Seq<char> {
    match stage {
        RunStage::Preparing => "Preparing"@,
        RunStage::Discovering => "Discovering"@,
        RunStage::Scanning => "Scanning"@,
        RunStage::Hashing => "Hashing"@,
        RunStage::Planning => "Planning"@,
        RunStage::Deleting => "Deleting"@,
        RunStage::Saving => "Saving"@,
        RunStage::Complete => "Complete"@,
    }
}

/// The name of a stage.
pub fn run_stage_label(stage: RunStage) -> (r: &'static str)
    ensures
        r@ == stage_name(stage),
{
    match stage {
        RunStage::Preparing => "Preparing",
        RunStage::Discovering => "Discovering",
        RunStage::Scanning => "Scanning",
        RunStage::Hashing => "Hashing",
        RunStage::Planning => "Planning",
        RunStage::Deleting => "Deleting",
        RunStage::Saving => "Saving",
        RunStage::Complete => "Complete",
    }
}

/// Two numbers with texts before them.
pub open spec fn pair_of_counts(a: Seq<char>, m: int, b: Seq<char>, n: int) -> Seq<char> {
    a + decimal(m) + b + decimal(n)
}

fn pair_text(a: &str, m: usize, b: &str, n: usize) -> (r: String)
    ensures
        r@ == pair_of_counts(a@, m as int, b@, n as int),
{
    a.to_string().concat(count_text(m).as_str()).concat(b).concat(count_text(n).as_str())
}

/// The counts that a report gives.
pub open spec fn counts_form(p: ProgressRecord) -> Seq<char> {
    let processed = p.processed_files as int;
    let planned = p.planned_deletions as int;
    let deleted = p.deleted_files as int;
    match p.stage {
        RunStage::Scanning => match p.discovered_files {
            Some(total) if total > 0 => pair_of_counts("Files: "@, processed, " / "@, total as int),
            _ => "Files: "@ + decimal(processed) + " scanned"@,
        },
        RunStage::Hashing => match p.discovered_files {
            Some(total) if total > 0 => pair_of_counts(
                "Hashed: "@,
                processed,
                " / "@,
                total as int,
            ),
            _ => "Hashed: "@ + decimal(processed),
        },
        RunStage::Deleting => pair_of_counts("Deleted: "@, deleted, " / "@, planned),
        RunStage::Planning => "Scanned: "@ + decimal(processed) + " files"@,
        RunStage::Saving => pair_of_counts("Planned: "@, planned, " | Deleted: "@, deleted),
        RunStage::Complete => pair_of_counts("Scanned: "@, processed, " | Deleted: "@, deleted),
        _ => "Waiting for file counts"@,
    }
}

/// The counts that a report gives.
pub fn progress_counts_text(p: &ProgressUpdate) -> (r: String)
    ensures
        r@ == counts_form(p@),
{
    match p.stage {
        RunStage::Scanning => match p.discovered_files {
            Some(total) if total > 0 => pair_text("Files: ", p.processed_files, " / ", total),
            _ => "Files: ".to_string().concat(count_text(p.processed_files).as_str()).concat(
                " scanned",
            ),
        },
        RunStage::Hashing => match p.discovered_files {
            Some(total) if total > 0 => pair_text("Hashed: ", p.processed_files, " / ", total),
            _ => "Hashed: ".to_string().concat(count_text(p.processed_files).as_str()),
        },
        RunStage::Deleting => pair_text(
            "Deleted: ",
            p.deleted_files,
            " / ",
            p.planned_deletions,
        ),
        RunStage::Planning => "Scanned: ".to_string().concat(
            count_text(p.processed_files).as_str(),
        ).concat(" files"),
        RunStage::Saving => pair_text(
            "Planned: ",
            p.planned_deletions,
            " | Deleted: ",
            p.deleted_files,
        ),
        RunStage::Complete => pair_text(
            "Scanned: ",
            p.processed_files,
            " | Deleted: ",
            p.deleted_files,
        ),
        _ => "Waiting for file counts".to_string(),
    }
}

/// How full the progress bar is: `base` hundredths, and of `span` further hundredths the
/// share `done / total`. It is never more than full.
#[derive(Debug, Clone, Copy, PartialEq, Eq, Structural)]
pub struct Gauge {
    pub base: u32,
    pub span: u32,
    pub done: usize,
    pub total: usize,
}

/// A fixed gauge.
pub open spec fn fixed_gauge(base: u32) -> Gauge {
    Gauge { base, span: 0, done: 0, total: 1 }
}

fn fixed(base: u32) -> (r: Gauge)
    ensures
        r == fixed_gauge(base),
{
    Gauge { base, span: 0, done: 0, total: 1 }
}

/// How full the progress bar is.
pub open spec fn gauge_of(latest: Option<ProgressUpdate>, is_running: bool) -> Gauge {
    match latest {
        Some(p) => match p.stage {
            RunStage::Preparing => fixed_gauge(4),
            RunStage::Discovering => fixed_gauge(8),
            RunStage::Scanning => match p.discovered_files {
                Some(total) if total > 0 => Gauge {
                    base: 10,
                    span: 45,
                    done: p.processed_files,
                    total,
                },
                _ => fixed_gauge(15),
            },
            RunStage::Hashing => match p.discovered_files {
                Some(total) if total > 0 => Gauge {
                    base: 58,
                    span: 18,
                    done: p.processed_files,
                    total,
                },
                _ => fixed_gauge(62),
            },
            RunStage::Planning => fixed_gauge(80),
            RunStage::Deleting => if p.planned_deletions > 0 {
                Gauge { base: 84, span: 11, done: p.deleted_files, total: p.planned_deletions }
            } else {
                fixed_gauge(88)
            },
            RunStage::Saving => fixed_gauge(96),
            RunStage::Complete => fixed_gauge(100),
        },
        None => if is_running {
            fixed_gauge(2)
        } else {
            fixed_gauge(0)
        },
    }
}

/// How full the progress bar is.
pub fn progress_gauge(latest: &Option<ProgressUpdate>, is_running: bool) -> (r: Gauge)
    ensures
        r == gauge_of(*latest, is_running),
        r.total > 0,
{
    match latest {
        Some(p) => match p.stage {
            RunStage::Preparing => fixed(4),
            RunStage::Discovering => fixed(8),
            RunStage::Scanning => match p.discovered_files {
                Some(total) if total > 0 => Gauge {
                    base: 10,
                    span: 45,
                    done: p.processed_files,
                    total,
                },
                _ => fixed(15),
            },
            RunStage::Hashing => match p.discovered_files {
                Some(total) if total > 0 => Gauge {
                    base: 58,
                    span: 18,
                    done: p.processed_files,
                    total,
                },
                _ => fixed(62),
            },
            RunStage::Planning => fixed(80),
            RunStage::Deleting => if p.planned_deletions > 0 {
                Gauge { base: 84, span: 11, done: p.deleted_files, total: p.planned_deletions }
            } else {
                fixed(88)
            },
            RunStage::Saving => fixed(96),
            RunStage::Complete => fixed(100),
        },
        None => if is_running {
            fixed(2)
        } else {
            fixed(0)
        },
    }
}

impl Gauge {
    /// How full the bar is, in hundredths times `total`: the numerator of a fraction whose
    /// denominator is `total`. It is never more than full.
    pub open spec fn level(self) -> int {
        let level = self.base * self.total + self.span * self.done;
        if level > 100 * self.total {
            100 * self.total
        } else {
            level
        }
    }

    /// Whether the bar is no fuller than another.
    pub open spec fn no_fuller(self, other: Gauge) -> bool {
        self.level() * other.total <= other.level() * self.total
    }
}

/// The place of a stage in a run.
pub open spec fn stage_place(stage: RunStage) -> int {
    match stage {
        RunStage::Preparing => 0,
        RunStage::Discovering => 1,
        RunStage::Scanning => 2,
        RunStage::Hashing => 3,
        RunStage::Planning => 4,
        RunStage::Deleting => 5,
        RunStage::Saving => 6,
        RunStage::Complete => 7,
    }
}

/// Whether a report counts no more done than there is to do.
pub open spec fn counts_fit(p: ProgressUpdate) -> bool {
    &&& p.discovered_files matches Some(total) ==> p.processed_files <= total
    &&& p.deleted_files <= p.planned_deletions
}

/// The least and the most hundredths that a stage fills.
spec fn stage_range(stage: RunStage) -> (int, int) {
    match stage {
        RunStage::Preparing => (4, 4),
        RunStage::Discovering => (8, 8),
        RunStage::Scanning => (10, 55),
        RunStage::Hashing => (58, 76),
        RunStage::Planning => (80, 80),
        RunStage::Deleting => (84, 95),
        RunStage::Saving => (96, 96),
        RunStage::Complete => (100, 100),
    }
}

proof fn lemma_stage_range(p: ProgressUpdate, is_running: bool)
    requires
        counts_fit(p),
    ensures
        ({
            let g = gauge_of(Some(p), is_running);
            &&& g.total > 0
            &&& stage_range(p.stage).0 * g.total <= g.level() <= stage_range(p.stage).1 * g.total
        }),
{
    let g = gauge_of(Some(p), is_running);
    let (least, most) = stage_range(p.stage);
    assert(least * g.total <= g.base * g.total + g.span * g.done <= most * g.total)
        by (nonlinear_arith)
        requires
            least <= g.base,
            g.base + g.span <= most,
            g.done <= g.total,
    ;
    assert(most * g.total <= 100 * g.total) by (nonlinear_arith)
        requires
            most <= 100,
    ;
}

/// The bar stays within its bounds: it is full at the end of a run, and empty where there
/// was none.
pub proof fn law_gauge_stays_within_bounds(latest: Option<ProgressUpdate>, is_running: bool)
    ensures
        gauge_of(latest, is_running).total > 0,
        0 <= gauge_of(latest, is_running).level() <= 100 * gauge_of(latest, is_running).total,
        latest matches Some(p) && p.stage == RunStage::Complete ==> gauge_of(
            latest,
            is_running,
        ).level() == 100 * gauge_of(latest, is_running).total,
        latest is None && !is_running ==> gauge_of(latest, is_running).level() == 0,
{
    let g = gauge_of(latest, is_running);
    assert(0 <= g.span * g.done) by (nonlinear_arith);
    assert(0 <= g.base * g.total) by (nonlinear_arith);
    if latest is None && !is_running {
        assert(g.base * g.total + g.span * g.done == 0) by (nonlinear_arith)
            requires
                g.base == 0,
                g.span == 0,
        ;
    }
}

/// The bar never goes back: not from one stage to a later one, and not within a stage while
/// the count of what is done grows.
pub proof fn law_gauge_never_goes_back(p: ProgressUpdate, q: ProgressUpdate, is_running: bool)
    requires
        counts_fit(p),
        counts_fit(q),
        stage_place(p.stage) < stage_place(q.stage) || (p.stage == q.stage && p.discovered_files
            == q.discovered_files && p.planned_deletions == q.planned_deletions
            && p.processed_files <= q.processed_files && p.deleted_files <= q.deleted_files),
    ensures
        gauge_of(Some(p), is_running).no_fuller(gauge_of(Some(q), is_running)),
{
    let g = gauge_of(Some(p), is_running);
    let h = gauge_of(Some(q), is_running);
    lemma_stage_range(p, is_running);
    lemma_stage_range(q, is_running);
    if p.stage == q.stage {
        assert(g.span * g.done <= h.span * h.done) by (nonlinear_arith)
            requires
                g.span == h.span,
                g.done <= h.done,
        ;
        assert(g.level() <= h.level());
        assert(g.level() * h.total <= h.level() * g.total) by (nonlinear_arith)
            requires
                g.level() <= h.level(),
                g.total == h.total,
        ;
    } else {
        let most = stage_range(p.stage).1;
        let least = stage_range(q.stage).0;
        assert(g.level() * h.total <= h.level() * g.total) by (nonlinear_arith)
            requires
                g.level() <= most * g.total,
                least * h.total <= h.level(),
                most <= least,
                g.total > 0,
                h.total > 0,
        ;
    }
}

/// How much of how much is done, where the time that is left can be told from it.
pub open spec fn measured(p: ProgressUpdate) -> Option<(usize, usize)> {
    let (done, total) = match p.stage {
        RunStage::Scanning | RunStage::Hashing => (
            p.processed_files,
            match p.discovered_files {
                Some(total) => total,
                None => 0,
            },
        ),
        RunStage::Deleting => (p.deleted_files, p.planned_deletions),
        _ => (0, 0),
    };
    if 0 < done < total {
        Some((done, total))
    } else {
        None
    }
}

/// How much of how much is done, where the time that is left can be told from it.
pub fn measured_progress(p: &ProgressUpdate) -> (r: Option<(usize, usize)>)
    ensures
        r == measured(*p),
{
    let (done, total): (usize, usize) = match p.stage {
        RunStage::Scanning | RunStage::Hashing => (
            p.processed_files,
            match p.discovered_files {
                Some(total) => total,
                None => 0,
            },
        ),
        RunStage::Deleting => (p.deleted_files, p.planned_deletions),
        _ => (0, 0),
    };
    if 0 < done && done < total {
        Some((done, total))
    } else {
        None
    }
}

// ---------------------------------------------------------------------------
// Lists of files
// ---------------------------------------------------------------------------

/// How many files a list shows at most.
pub const LIST_LIMIT: usize = 120;

/// Whether a list that is filtered by `needle` has a file with the path `path`.
pub open spec fn is_listed(path: Seq<char>, needle: Seq<char>) -> bool {
    needle.len() == 0 || contains_text(lowercase_text(path), needle)
}

/// The first files that a filtered list shows.
pub open spec fn shown_files(files: Seq<FileInfo>, needle: Seq<char>) -> Seq<usize>
    decreases files.len(),
{
    if files.len() == 0 {
        Seq::empty()
    } else {
        let before = shown_files(files.drop_last(), needle);
        if before.len() < LIST_LIMIT && is_listed(files.last().file_path@, needle) {
            before.push((files.len() - 1) as usize)
        } else {
            before
        }
    }
}

/// A list of files as it is shown.
#[derive(Debug)]
pub struct FileListing {
    pub heading: String,
    /// The files to show.
    pub shown: Vec<usize>,
    /// What stands in place of the files where none is shown.
    pub placeholder: Option<String>,
    /// What stands below the files where some are not shown.
    pub footer: Option<String>,
}

/// What a list is searched for where its filter is `filter`.
pub open spec fn searched_text(filter: Seq<char>) -> Seq<char> {
    lowercase_text(trimmed(filter))
}

/// What stands above a list of so many files.
pub open spec fn list_heading(title: Seq<char>, count: int) -> Seq<char> {
    title + " ("@ + decimal(count) + ")"@
}

/// What stands in place of the files where none is shown.
pub open spec fn list_placeholder(shown: int) -> Option<Seq<char>> {
    if shown == 0 {
        Some("No matching files for the current filter."@)
    } else {
        None
    }
}

/// What stands below the files where some are not shown.
pub open spec fn list_footer(shown: int, count: int) -> Option<Seq<char>> {
    if shown < count {
        Some("Showing "@ + decimal(shown) + " of "@ + decimal(count) + " items"@)
    } else {
        None
    }
}

/// The files that a list under the title `title` shows, filtered by `filter`.
pub fn list_files(title: &str, files: &Vec<FileInfo>, filter: &str) -> (r: FileListing)
    ensures
        r.heading@ == title@ + " ("@ + decimal(files@.len() as int) + ")"@,
        r.heading@ == list_heading(title@, files@.len() as int),
        text_option(r.placeholder) == list_placeholder(r.shown@.len() as int),
        text_option(r.footer) == list_footer(r.shown@.len() as int, files@.len() as int),
        r.shown@ == shown_files(files@, lowercase_text(trimmed(filter@))),
        r.shown@ == shown_files(files@, searched_text(filter@)),
        match r.placeholder {
            Some(text) => r.shown@.len() == 0 && text@
                == "No matching files for the current filter."@,
            None => r.shown@.len() > 0,
        },
        match r.footer {
            Some(text) => files@.len() > r.shown@.len() && text@ == "Showing "@ + decimal(
                r.shown@.len() as int,
            ) + " of "@ + decimal(files@.len() as int) + " items"@,
            None => files@.len() <= r.shown@.len(),
        },
{
    let needle = lowercase(trim_text(filter).as_str());
    let n: usize = files.len();
    let mut shown: Vec<usize> = Vec::new();
    let mut i: usize = 0;
    proof {
        assert(files@.take(0) =~= Seq::empty());
    }
    while i < n
        invariant
            n == files@.len(),
            i <= n,
            shown@ == shown_files(files@.take(i as int), needle@),
        decreases n - i,
    {
        proof {
            assert(files@.take(i + 1).drop_last() =~= files@.take(i as int));
        }
        if shown.len() < LIST_LIMIT && (needle.as_str().is_empty() || has_text(
            lowercase(files[i].file_path.as_str()).as_str(),
            needle.as_str(),
        )) {
            shown.push(i);
        }
        i = i + 1;
    }
    proof {
        assert(files@.take(n as int) =~= files@);
    }
    let heading = title.to_string().concat(" (").concat(count_text(n).as_str()).concat(")");
    let placeholder: Option<String> = if shown.len() == 0 {
        Some("No matching files for the current filter.".to_string())
    } else {
        None
    };
    let footer: Option<String> = if n > shown.len() {
        Some(
            "Showing ".to_string().concat(count_text(shown.len()).as_str()).concat(" of ").concat(
                count_text(n).as_str(),
            ).concat(" items"),
        )
    } else {
        None
    };
    FileListing { heading, shown, placeholder, footer }
}

// ---------------------------------------------------------------------------
// Command line
// ---------------------------------------------------------------------------

/// What the command line prints at the end of a run. `plan_path` is where the table of
/// planned deletions is.
pub open spec fn closing_lines(s: RunSummary, plan_path: Seq<char>) -> Seq<Seq<char>> {
    let head = seq![
        "Mode: "@ + s.mode.name(),
        "Scanned files: "@ + decimal(s.scanned_files as int),
        "Kept files: "@ + decimal(s.kept_files as int),
        "Planned deletions: "@ + decimal(s.planned_deletions as int),
    ];
    match s.mode {
        OperationMode::Apply => head + seq![
            "Deleted files: "@ + decimal(s.deleted_files as int),
            "Failed deletions: "@ + decimal(s.failed_deletions as int),
        ],
        OperationMode::DryRun => head + seq!["Dry-run complete. Review "@ + plan_path],
    }
}

/// What the command line prints at the end of a run.
pub fn closing_report(s: &RunSummary, plan_path: &str) -> (r: Vec<String>)
    ensures
        texts(r@) == closing_lines(*s, plan_path@),
{
    let mut r: Vec<String> = Vec::new();
    r.push("Mode: ".to_string().concat(s.mode.as_str()));
    r.push("Scanned files: ".to_string().concat(count_text(s.scanned_files).as_str()));
    r.push("Kept files: ".to_string().concat(count_text(s.kept_files).as_str()));
    r.push("Planned deletions: ".to_string().concat(count_text(s.planned_deletions).as_str()));
    match s.mode {
        OperationMode::Apply => {
            r.push("Deleted files: ".to_string().concat(count_text(s.deleted_files).as_str()));
            r.push(
                "Failed deletions: ".to_string().concat(count_text(s.failed_deletions).as_str()),
            );
        },
        OperationMode::DryRun => {
            r.push("Dry-run complete. Review ".to_string().concat(plan_path));
        },
    }
    assert(texts(r@) =~= closing_lines(*s, plan_path@));
    r
}

// ---------------------------------------------------------------------------
// Laws
// ---------------------------------------------------------------------------

/// A duration is told in hours, minutes and seconds, each with two digits at least: without
/// the hours where there are none, and as a number of seconds below a minute.
pub proof fn law_durations(hours: int, minutes: int, seconds: int, short: Seq<char>)
    requires
        0 <= hours,
        0 <= minutes < 60,
        0 <= seconds < 60,
    ensures
        ({
            let told = duration_form(3600 * hours + 60 * minutes + seconds, short);
            let h = if hours < 10 {
                "0"@ + decimal(hours)
            } else {
                decimal(hours)
            };
            let m = if minutes < 10 {
                "0"@ + decimal(minutes)
            } else {
                decimal(minutes)
            };
            let s = if seconds < 10 {
                "0"@ + decimal(seconds)
            } else {
                decimal(seconds)
            };
            &&& hours == 0 && minutes == 0 ==> told == short
            &&& hours == 0 && minutes > 0 ==> told == m + ":"@ + s
            &&& hours > 0 ==> told == h + ":"@ + m + ":"@ + s
        }),
{
    let all = 3600 * hours + 60 * minutes + seconds;
    assert(all % 60 == seconds) by (nonlinear_arith)
        requires
            all == 3600 * hours + 60 * minutes + seconds,
            0 <= seconds < 60,
    ;
    assert(all % 3600 == 60 * minutes + seconds) by (nonlinear_arith)
        requires
            all == 3600 * hours + 60 * minutes + seconds,
            0 <= seconds < 60,
            0 <= minutes < 60,
    ;
    assert(all / 3600 == hours) by (nonlinear_arith)
        requires
            all == 3600 * hours + 60 * minutes + seconds,
            0 <= seconds < 60,
            0 <= minutes < 60,
    ;
    assert((60 * minutes + seconds) / 60 == minutes) by (nonlinear_arith)
        requires
            0 <= seconds < 60,
            0 <= minutes < 60,
    ;
}

/// A run that is about to start counts nothing, and says whether it will delete files.
pub proof fn law_starting_reports(mode: OperationMode)
    ensures
        start_record(mode).stage == RunStage::Preparing,
        start_record(mode).discovered_files is None,
        start_record(mode).processed_files == 0,
        start_record(mode).planned_deletions == 0,
        start_record(mode).deleted_files == 0,
        mode == OperationMode::Apply ==> start_record(mode).message == "Starting apply run..."@,
        mode == OperationMode::DryRun ==> start_record(mode).message == "Starting dry run..."@,
{
}

/// The progress bar shows the message of the last report, whatever the stage, and only
/// before the first report says whether a run is under way.
pub proof fn law_bar_shows_the_last_message(p: ProgressUpdate, is_running: bool)
    ensures
        bar_text(Some(p), is_running) == p.message@,
        bar_text(None, true) == "Starting background worker..."@,
        bar_text(None, false) == "No active run"@,
{
}

/// The counts of a report are told with the numbers of that report: what is processed of
/// what was discovered, what is deleted of what is planned.
pub proof fn law_counts_are_those_of_the_report(p: ProgressRecord)
    ensures
        ({
            let processed = decimal(p.processed_files as int);
            let planned = decimal(p.planned_deletions as int);
            let deleted = decimal(p.deleted_files as int);
            let total = match p.discovered_files {
                Some(total) => total,
                None => 0,
            };
            counts_form(p) == match p.stage {
                RunStage::Preparing => "Waiting for file counts"@,
                RunStage::Discovering => "Waiting for file counts"@,
                RunStage::Scanning => if total == 0 {
                    "Files: "@ + processed + " scanned"@
                } else {
                    "Files: "@ + processed + " / "@ + decimal(total as int)
                },
                RunStage::Hashing => if total == 0 {
                    "Hashed: "@ + processed
                } else {
                    "Hashed: "@ + processed + " / "@ + decimal(total as int)
                },
                RunStage::Planning => "Scanned: "@ + processed + " files"@,
                RunStage::Deleting => "Deleted: "@ + deleted + " / "@ + planned,
                RunStage::Saving => "Planned: "@ + planned + " | Deleted: "@ + deleted,
                RunStage::Complete => "Scanned: "@ + processed + " | Deleted: "@ + deleted,
            }
        }),
{
}

/// How full the bar is, in hundredths: each stage has its own part of the bar, and while
/// files are scanned, hashed or deleted it fills in proportion to what is done.
pub proof fn law_gauge_fills_in_proportion(p: ProgressUpdate, is_running: bool)
    requires
        p.discovered_files matches Some(total) ==> p.processed_files <= total,
        p.deleted_files <= p.planned_deletions,
    ensures
        ({
            let g = gauge_of(Some(p), is_running);
            let total = match p.discovered_files {
                Some(total) => total,
                None => 0,
            };
            match p.stage {
                RunStage::Preparing => g.level() == 4 * g.total,
                RunStage::Discovering => g.level() == 8 * g.total,
                RunStage::Scanning => if total == 0 {
                    g.level() == 15 * g.total
                } else {
                    g.total == total && g.level() == 10 * total + 45 * p.processed_files
                },
                RunStage::Hashing => if total == 0 {
                    g.level() == 62 * g.total
                } else {
                    g.total == total && g.level() == 58 * total + 18 * p.processed_files
                },
                RunStage::Planning => g.level() == 80 * g.total,
                RunStage::Deleting => if p.planned_deletions == 0 {
                    g.level() == 88 * g.total
                } else {
                    g.total == p.planned_deletions && g.level() == 84 * p.planned_deletions + 11
                        * p.deleted_files
                },
                RunStage::Saving => g.level() == 96 * g.total,
                RunStage::Complete => g.level() == 100 * g.total,
            }
        }),
        gauge_of(None, true).level() == 2 * gauge_of(None, true).total,
        gauge_of(None, false).level() == 0,
{
    let g = gauge_of(Some(p), is_running);
    lemma_stage_range(p, is_running);
    let base = g.base as int;
    let span = g.span as int;
    let done = g.done as int;
    let total = g.total as int;
    assert(0 <= span * done <= span * total) by (nonlinear_arith)
        requires
            0 <= done <= total,
            0 <= span,
    ;
    assert(base * total + span * total <= 100 * total) by (nonlinear_arith)
        requires
            base + span <= 100,
            0 <= total,
    ;
    assert(g.level() == base * total + span * done);
    match p.stage {
        RunStage::Scanning => {
            assert(base == 10 ==> base * total == 10 * total);
            assert(span == 45 ==> span * done == 45 * done);
        },
        RunStage::Hashing => {
            assert(base == 58 ==> base * total == 58 * total);
            assert(span == 18 ==> span * done == 18 * done);
        },
        RunStage::Deleting => {
            assert(base == 84 ==> base * total == 84 * total);
            assert(span == 11 ==> span * done == 11 * done);
        },
        _ => {},
    }
}

/// The time that is left can be told from a report exactly where something, but not all, is
/// done of what is to be scanned, hashed or deleted.
pub proof fn law_what_is_measured(p: ProgressUpdate)
    ensures
        ({
            let counts_files = p.stage == RunStage::Scanning || p.stage == RunStage::Hashing;
            let under_way = p.discovered_files is Some && 0 < p.processed_files
                < p.discovered_files->0;
            &&& counts_files && under_way ==> measured(p) == Some(
                (p.processed_files, p.discovered_files->0),
            )
            &&& counts_files && !under_way ==> measured(p) is None
            &&& p.stage == RunStage::Deleting && 0 < p.deleted_files < p.planned_deletions
                ==> measured(p) == Some((p.deleted_files, p.planned_deletions))
            &&& p.stage == RunStage::Deleting && !(0 < p.deleted_files < p.planned_deletions)
                ==> measured(p) is None
            &&& !counts_files && p.stage != RunStage::Deleting ==> measured(p) is None
        }),
{
}

/// A list shows the first files whose path contains what is looked for, without regard to
/// case, in their order, up to a limit; where nothing is looked for, every file counts.
pub proof fn law_first_matching_files_are_shown(files: Seq<FileInfo>, needle: Seq<char>)
    requires
        files.len() <= usize::MAX,
    ensures
        LIST_LIMIT == 120,
        ({
            let matching = ascending(
                files.len(),
                |i: int|
                    needle.len() == 0 || contains_text(lowercase_text(files[i].file_path@), needle),
            );
            &&& matching.len() <= LIST_LIMIT ==> shown_files(files, needle) == matching
            &&& matching.len() > LIST_LIMIT ==> shown_files(files, needle) == matching.take(
                LIST_LIMIT as int,
            )
        }),
    decreases files.len(),
{
    let matches = |i: int|
        needle.len() == 0 || contains_text(lowercase_text(files[i].file_path@), needle);
    let matching = ascending(files.len(), matches);
    if files.len() > 0 {
        let before = files.drop_last();
        law_first_matching_files_are_shown(before, needle);
        let earlier = |i: int|
            needle.len() == 0 || contains_text(lowercase_text(before[i].file_path@), needle);
        lemma_ascending_congruent(before.len(), matches, earlier);
        let least = ascending(before.len(), earlier);
        assert(matches(files.len() - 1) == is_listed(files.last().file_path@, needle));
        if matches(files.len() - 1) {
            assert(matching == least.push((files.len() - 1) as usize));
            if least.len() >= LIST_LIMIT {
                assert(matching.take(LIST_LIMIT as int) =~= least.take(LIST_LIMIT as int));
                assert(least.take(least.len() as int) =~= least);
            }
        } else {
            assert(matching == least);
        }
    }
}

/// The command line closes with the mode and the counts of the run: after a dry run it says
/// where the planned deletions are, and otherwise how many files were deleted and how many
/// were not.
pub proof fn law_closing_lines(s: RunSummary, plan_path: Seq<char>)
    ensures
        ({
            let lines = closing_lines(s, plan_path);
            &&& lines[0] == "Mode: "@ + (if s.mode == OperationMode::Apply {
                "apply"@
            } else {
                "dry-run"@
            })
            &&& lines[1] == "Scanned files: "@ + decimal(s.scanned_files as int)
            &&& lines[2] == "Kept files: "@ + decimal(s.kept_files as int)
            &&& lines[3] == "Planned deletions: "@ + decimal(s.planned_deletions as int)
            &&& s.mode == OperationMode::Apply ==> {
                &&& lines.len() == 6
                &&& lines[4] == "Deleted files: "@ + decimal(s.deleted_files as int)
                &&& lines[5] == "Failed deletions: "@ + decimal(s.failed_deletions as int)
            }
            &&& s.mode == OperationMode::DryRun ==> {
                &&& lines.len() == 5
                &&& lines[4] == "Dry-run complete. Review "@ + plan_path
            }
        }),
{
}

/// A list is searched for the text of its filter in lower case, without the white space
/// around it.
pub proof fn law_filters_of_lists_are_trimmed(
    before: Seq<char>,
    text: Seq<char>,
    after: Seq<char>,
)
    requires
        forall|i: int| 0 <= i < before.len() ==> is_white_space(#[trigger] before[i]),
        forall|i: int| 0 <= i < after.len() ==> is_white_space(#[trigger] after[i]),
        text.len() > 0 ==> !is_white_space(text[0]) && !is_white_space(text.last()),
    ensures
        searched_text(before + text + after) == lowercase_text(text),
{
    law_white_space_around_is_trimmed(before, text, after);
}

/// Each stage is shown under its own name.
pub proof fn law_names_of_stages()
    ensures
        stage_name(RunStage::Preparing) == "Preparing"@,
        stage_name(RunStage::Discovering) == "Discovering"@,
        stage_name(RunStage::Scanning) == "Scanning"@,
        stage_name(RunStage::Hashing) == "Hashing"@,
        stage_name(RunStage::Planning) == "Planning"@,
        stage_name(RunStage::Deleting) == "Deleting"@,
        stage_name(RunStage::Saving) == "Saving"@,
        stage_name(RunStage::Complete) == "Complete"@,
{
}

/// No two stages have one name.
pub proof fn law_stages_have_their_own_names(a: RunStage, b: RunStage)
    requires
        a != b,
    ensures
        stage_name(a) != stage_name(b),
{
    reveal_strlit("Preparing");
    reveal_strlit("Discovering");
    reveal_strlit("Scanning");
    reveal_strlit("Hashing");
    reveal_strlit("Planning");
    reveal_strlit("Deleting");
    reveal_strlit("Saving");
    reveal_strlit("Complete");
    assert("Preparing"@[1] == 'r');
    assert("Planning"@[1] == 'l');
    assert("Discovering"@[1] == 'i');
    assert("Deleting"@[1] == 'e');
    assert("Scanning"@[1] == 'c');
    assert("Saving"@[1] == 'a');
    assert("Hashing"@[0] == 'H');
    assert("Saving"@[0] == 'S');
    assert("Complete"@[1] == 'o');
}

/// A list is headed by its title and the number of all its files, shown or not. Below the
/// files it says how many of how many are shown, exactly where some are not; where none is
/// shown, it says so in their place.
pub proof fn law_lists_say_what_they_show(title: Seq<char>, shown: int, count: int)
    requires
        0 <= shown <= count,
    ensures
        list_heading(title, count) == title + " ("@ + decimal(count) + ")"@,
        list_footer(shown, count) is None <==> shown == count,
        shown < count ==> list_footer(shown, count) == Some(
            "Showing "@ + decimal(shown) + " of "@ + decimal(count) + " items"@,
        ),
        list_placeholder(shown) is None <==> shown > 0,
        list_placeholder(0) == Some("No matching files for the current filter."@),
{
}

} // verus!
