//! What a run asks of its surroundings, what it is told, and what it reports.
use vstd::prelude::*;
use vstd::string::*;

use crate::model::{
    progress, records, reported, FailedDeletionRecord, FileInfo, FineTimes, ProgressRecord,
    ProgressUpdate, RunArtifacts, RunStage,
};
use crate::number::{count_text, decimal};
use crate::select::{pick, picked};
use crate::table::{
    csv_bytes, csv_table, encode_failures, encode_files, failure_table, file_table, saved_files,
    TableError,
};

verus! {

// ---------------------------------------------------------------------------
// Actions and events
// ---------------------------------------------------------------------------

/// A folder that a run writes to.
#[derive(Debug, Clone, Copy, PartialEq, Eq, Structural)]
pub enum Folder {
    /// The output folder.
    Output,
    /// The checkpoint folder in the output folder.
    Checkpoints,
}

/// A file to write.
#[derive(Debug)]
pub struct Report {
    pub folder: Folder,
    pub name: String,
    pub data: Vec<u8>,
}

/// A file to take a fingerprint of.
#[derive(Debug)]
pub struct Sample {
    pub path: String,
    pub size: u64,
}

/// Why a run ends without a result.
pub enum Failure {
    /// The output folder may not be used; the text says why.
    Refused(String),
    /// Saved scan data cannot be read.
    SavedData(TableError),
    /// There are more files than can be counted.
    TooManyFiles,
    /// There is no number left for another checkpoint.
    TooManyCheckpoints,
    /// The last event is no reply to the last action.
    UnexpectedReply,
}

/// What a run asks its surroundings to do.
pub enum Action {
    /// Say whether the output folder exists, and whether something is in it.
    InspectOutputDir,
    /// Create the checkpoint folder, and the output folder before it where it is missing.
    CreateDirs { output_missing: bool },
    /// List the candidate files.
    Discover,
    /// Read the table of all files, and list the checkpoint folder.
    ListSaved,
    /// Read the entries of the checkpoint folder with these numbers.
    ReadCheckpoints(Vec<usize>),
    /// Read the metadata of the candidates with these numbers.
    ReadMetadata(Vec<usize>),
    /// Write these files, one after the other.
    Write(Vec<Report>),
    /// Take the fingerprints of these files.
    Fingerprint(Vec<Sample>),
    /// Take the hashes of these files.
    Hash(Vec<String>),
    /// Say by how much the times of these files are past the whole seconds.
    ReadTimes(Vec<String>),
    /// Compare two files byte by byte.
    Compare { left: String, right: String },
    /// Delete these files.
    Delete { paths: Vec<String>, use_trash: bool },
    /// Write the summary.
    WriteSummary(String),
    /// The run is over.
    Finish(RunArtifacts),
    /// The run is over, without a result.
    Fail(Failure),
}

/// What a run is told in reply to an action.
pub enum Event {
    OutputDir { present: bool, occupied: bool },
    /// What was asked for has been done.
    Done,
    /// The paths of the candidates.
    Candidates(Vec<String>),
    /// The contents of the table of all files, where there is one, and the names, without
    /// extension, of the entries of the checkpoint folder.
    Saved { all_files: Option<Vec<u8>>, stems: Vec<Option<String>> },
    /// The contents of the checkpoints that were asked for.
    CheckpointData(Vec<Vec<u8>>),
    /// The candidates that were asked for, but for those that cannot be read.
    Metadata(Vec<Option<FileInfo>>),
    /// The fingerprints that were asked for, but for those that cannot be taken.
    Prints(Vec<Option<String>>),
    /// The hashes that were asked for, but for those that cannot be taken.
    Hashes(Vec<Option<String>>),
    /// The times that were asked for, but for those that cannot be read.
    Times(Vec<Option<FineTimes>>),
    /// Whether the two files were found equal.
    Compared(bool),
    /// The errors, if any, of the deletions that were asked for.
    Deleted(Vec<Option<String>>),
}

/// What follows from an event: reports, then an action.
pub struct Step {
    pub reports: Vec<ProgressUpdate>,
    pub action: Action,
}

// ---------------------------------------------------------------------------
// Files to write
// ---------------------------------------------------------------------------

/// Whether `r` is the table of `files`, under the name `name`. It reads back as `files`.
pub open spec fn is_report(
    r: Report,
    folder: Folder,
    name: Seq<char>,
    files: Seq<FileInfo>,
) -> bool {
    &&& r.folder == folder
    &&& r.name@ == name
    &&& r.data@ == csv_bytes(file_table(records(files)))
    &&& saved_files(r.data@) == Some(records(files))
}

/// The table of `files`, under the name `name`.
pub fn file_report(folder: Folder, name: String, files: &Vec<FileInfo>) -> (r: Report)
    ensures
        is_report(r, folder, name@, files@),
{
    let data = encode_files(files);
    Report { folder, name, data }
}

/// The table of the files at `indices`, under the name `name`.
pub fn picked_report(
    folder: Folder,
    name: String,
    files: &Vec<FileInfo>,
    indices: &Vec<usize>,
) -> (r: Report)
    requires
        forall|k: int| 0 <= k < indices@.len() ==> #[trigger] indices@[k] < files@.len(),
    ensures
        is_report(r, folder, name@, picked(files@, indices@)),
{
    let chosen = pick(files, indices);
    file_report(folder, name, &chosen)
}

/// Whether `r` is the table of the deletions that failed, under the name `name`.
pub open spec fn is_failure_report(
    r: Report,
    name: Seq<char>,
    failed: Seq<FailedDeletionRecord>,
) -> bool {
    &&& r.folder == Folder::Output
    &&& r.name@ == name
    &&& r.data@ == csv_bytes(failure_table(failed))
    &&& csv_table(r.data@) == Some(
        (Some(failure_table(failed)[0]), failure_table(failed).drop_first()),
    )
}

/// The table of the deletions that failed, under the name `name`.
pub fn failure_report(name: String, failed: &Vec<FailedDeletionRecord>) -> (r: Report)
    ensures
        is_failure_report(r, name@, failed@),
{
    let data = encode_failures(failed);
    Report { folder: Folder::Output, name, data }
}

/// The path and the size of the files at the given indices.
pub open spec fn sample_list(files: Seq<FileInfo>, indices: Seq<usize>) -> Seq<(Seq<char>, u64)> {
    Seq::new(
        indices.len(),
        |k: int| (files[indices[k] as int].file_path@, files[indices[k] as int].file_size),
    )
}

/// What a list of samples names.
pub open spec fn sample_views(samples: Seq<Sample>) -> Seq<(Seq<char>, u64)> {
    Seq::new(samples.len(), |k: int| (samples[k].path@, samples[k].size))
}

/// The files at the given indices, to take fingerprints of.
pub fn samples_of(files: &Vec<FileInfo>, indices: &Vec<usize>) -> (r: Vec<Sample>)
    requires
        forall|k: int| 0 <= k < indices@.len() ==> #[trigger] indices@[k] < files@.len(),
    ensures
        sample_views(r@) == sample_list(files@, indices@),
{
    let mut r: Vec<Sample> = Vec::new();
    let mut i: usize = 0;
    while i < indices.len()
        invariant
            i <= indices@.len(),
            forall|k: int| 0 <= k < indices@.len() ==> #[trigger] indices@[k] < files@.len(),
            r@.len() == i,
            forall|k: int|
                0 <= k < i ==> (#[trigger] r@[k]).path@ == files@[indices@[k] as int].file_path@
                    && r@[k].size == files@[indices@[k] as int].file_size,
        decreases indices@.len() - i,
    {
        let file = &files[indices[i]];
        r.push(Sample { path: file.file_path.clone(), size: file.file_size });
        i = i + 1;
    }
    assert(sample_views(r@) =~= sample_list(files@, indices@));
    r
}

// ---------------------------------------------------------------------------
// Reports
// ---------------------------------------------------------------------------

/// A progress report.
pub open spec fn note(
    stage: RunStage,
    message: Seq<char>,
    discovered_files: Option<usize>,
    processed_files: int,
    planned_deletions: int,
    deleted_files: int,
) -> ProgressRecord {
    ProgressRecord {
        stage,
        message,
        discovered_files,
        processed_files: processed_files as usize,
        planned_deletions: planned_deletions as usize,
        deleted_files: deleted_files as usize,
    }
}

/// Adds a report to a list of reports.
pub fn add_report(
    reports: &mut Vec<ProgressUpdate>,
    stage: RunStage,
    message: String,
    discovered_files: Option<usize>,
    processed_files: usize,
    planned_deletions: usize,
    deleted_files: usize,
)
    ensures
        reported(final(reports)@) == reported(old(reports)@).push(
            note(
                stage,
                message@,
                discovered_files,
                processed_files as int,
                planned_deletions as int,
                deleted_files as int,
            ),
        ),
{
    let ghost before = reported(reports@);
    let update = progress(
        stage,
        message,
        discovered_files,
        processed_files,
        planned_deletions,
        deleted_files,
    );
    let ghost last = update@;
    reports.push(update);
    assert(reported(reports@) =~= before.push(last));
}

/// A text with a number in it.
pub open spec fn count_message(before: Seq<char>, n: int, after: Seq<char>) -> Seq<char> {
    before + decimal(n) + after
}

/// A text with a number in it.
pub fn count_line(before: &str, n: usize, after: &str) -> (r: String)
    ensures
        r@ == count_message(before@, n as int, after@),
{
    before.to_string().concat(count_text(n).as_str()).concat(after)
}

/// A text that says how much of how much there is.
pub open spec fn share_message(before: Seq<char>, done: int, total: int, after: Seq<char>) -> Seq<
    char,
> {
    before + decimal(done) + " of "@ + decimal(total) + after
}

/// A text that says how much of how much there is.
pub fn share_line(before: &str, done: usize, total: usize, after: &str) -> (r: String)
    ensures
        r@ == share_message(before@, done as int, total as int, after@),
{
    before.to_string().concat(count_text(done).as_str()).concat(" of ").concat(
        count_text(total).as_str(),
    ).concat(after)
}

/// Why an output folder may not be used.
pub open spec fn refusal(output_dir: Seq<char>) -> Seq<char> {
    "Output directory already exists and is not empty: "@ + output_dir
        + ". Choose a new folder or enable resume."@
}

/// Why an output folder may not be used.
pub fn refusal_text(output_dir: &str) -> (r: String)
    ensures
        r@ == refusal(output_dir@),
{
    "Output directory already exists and is not empty: ".to_string().concat(output_dir).concat(
        ". Choose a new folder or enable resume.",
    )
}

/// A report of a table says where the table is to be written, and under what name, and what
/// it holds reads back as the files that it is of.
pub proof fn law_reports_read_back(
    r: Report,
    folder: Folder,
    name: Seq<char>,
    files: Seq<FileInfo>,
)
    requires
        is_report(r, folder, name, files),
    ensures
        r.folder == folder,
        r.name@ == name,
        saved_files(r.data@) == Some(records(files)),
{
}

/// Numbers in messages are told in full, between the texts around them.
pub proof fn law_messages_tell_numbers(
    before: Seq<char>,
    done: int,
    total: int,
    after: Seq<char>,
)
    ensures
        count_message(before, total, after) == before + decimal(total) + after,
        share_message(before, done, total, after) == before + decimal(done) + " of "@ + decimal(
            total,
        ) + after,
{
}

/// A fingerprint is asked of each file under its own path, with its own size.
pub proof fn law_samples_name_their_files(
    files: Seq<FileInfo>,
    indices: Seq<usize>,
    samples: Seq<Sample>,
    k: int,
)
    requires
        sample_views(samples) == sample_list(files, indices),
        0 <= k < indices.len(),
    ensures
        samples.len() == indices.len(),
        samples[k].path@ == files[indices[k] as int].file_path@,
        samples[k].size == files[indices[k] as int].file_size,
{
    assert(sample_views(samples).len() == samples.len());
    assert(sample_views(samples)[k] == sample_list(files, indices)[k]);
}

} // verus!
