//! Whole runs, against a file system in memory.
use duplicate_file_deletor::config::PathFacts;
use duplicate_file_deletor::exchange::{Action, Event, Failure, Folder};
use duplicate_file_deletor::hashing::{
    fingerprint, sample_plan, ContentHasher, FileComparison, Verdict,
};
use duplicate_file_deletor::metadata::{
    fine_times, process_file_metadata, FileFacts, Timestamp,
};
use duplicate_file_deletor::model::{
    FileInfo, KeepRule, OperationMode, Platform, ProgressUpdate, RunArtifacts, RunConfig, RunStage,
    SAMPLE_FINGERPRINT_BYTES,
};
use duplicate_file_deletor::paths::accepts_file;
use duplicate_file_deletor::resume::load_checkpoints;
use duplicate_file_deletor::state::Run;
use std::collections::BTreeMap;

#[derive(Clone)]
struct StoredFile {
    contents: Vec<u8>,
    created: u64,
    modified: u64,
}

/// A file system with files below a root folder, and the files in an output folder.
#[derive(Default)]
struct World {
    files: BTreeMap<String, StoredFile>,
    output: Option<BTreeMap<String, Vec<u8>>>,
    unreadable: Vec<String>,
    unhashable: Vec<String>,
    undeletable: Vec<String>,
    clock: u64,
    metadata_reads: usize,
    hashed: Vec<String>,
    fingerprinted: Vec<String>,
    deletions: usize,
    summary: String,
    updates: Vec<ProgressUpdate>,
}

fn root_path(prefix: &str) -> String {
    format!("/tmp/duplicate_file_deletor_{}", prefix)
}

/// A time, given in nanoseconds after the Unix epoch.
fn timestamp(nanos: u64) -> Timestamp {
    Timestamp::Unix {
        seconds: nanos / 1_000_000_000,
        nanos: (nanos % 1_000_000_000) as u32,
    }
}

impl World {
    fn new() -> World {
        World {
            output: Some(BTreeMap::new()),
            clock: 1_700_000_000_100_000_000,
            ..World::default()
        }
    }

    fn write(&mut self, path: String, contents: &[u8]) {
        self.clock += 1_000;
        self.files.insert(
            path,
            StoredFile {
                contents: contents.to_vec(),
                created: self.clock,
                modified: self.clock,
            },
        );
    }

    fn read(&self, path: &str) -> Option<&StoredFile> {
        if self.unreadable.iter().any(|p| p == path) {
            return None;
        }
        self.files.get(path)
    }

    fn stored(&self, name: &str) -> Option<Vec<u8>> {
        self.output.as_ref().and_then(|dir| dir.get(name)).cloned()
    }

    fn checkpoint_names(&self) -> Vec<String> {
        self.output
            .iter()
            .flat_map(|dir| dir.keys())
            .filter_map(|name| name.strip_prefix("checkpoints/"))
            .map(|name| name.to_string())
            .collect()
    }

    fn discover(&self, config: &RunConfig) -> Vec<String> {
        let root = format!("{}/", config.root_dir);
        self.files
            .keys()
            .filter(|path| path.starts_with(&root))
            .filter(|path| {
                accepts_file(
                    path.as_str(),
                    config.output_dir.as_str(),
                    &config.include_filters,
                    &config.exclude_filters,
                    Platform::Unix,
                )
            })
            .cloned()
            .collect()
    }

    fn metadata(&mut self, path: &str) -> Option<FileInfo> {
        self.metadata_reads += 1;
        let file = self.read(path)?;
        process_file_metadata(FileFacts {
            path: path.to_string(),
            file_name: path.rsplit('/').next().map(|name| name.to_string()),
            len: file.contents.len() as u64,
            created: Some(timestamp(file.created)),
            modified: Some(timestamp(file.modified)),
        })
        .ok()
    }

    fn print(&self, path: &str, size: u64) -> Option<String> {
        let contents = &self.read(path)?.contents;
        let plan = sample_plan(size);
        let first = contents.get(..plan.first)?;
        let last = contents.get(contents.len().checked_sub(plan.last)?..)?;
        Some(fingerprint(first, last))
    }

    fn hash(&self, path: &str) -> Option<String> {
        if self.unhashable.iter().any(|p| p == path) {
            return None;
        }
        let mut hasher = ContentHasher::new();
        for chunk in self.read(path)?.contents.chunks(8192) {
            hasher.feed(chunk);
        }
        Some(hasher.finish())
    }

    fn identical(&self, left: &str, right: &str) -> bool {
        let (Some(left), Some(right)) = (self.read(left), self.read(right)) else {
            return false;
        };
        let (mut comparison, mut verdict) =
            FileComparison::begin(left.contents.len() as u64, right.contents.len() as u64);
        let mut lefts = left.contents.chunks(8192);
        let mut rights = right.contents.chunks(8192);
        while verdict == Verdict::Undecided {
            verdict = comparison.feed(
                lefts.next().unwrap_or_default(),
                rights.next().unwrap_or_default(),
            );
        }
        verdict == Verdict::Identical
    }

    fn delete(&mut self, path: &str) -> Option<String> {
        self.deletions += 1;
        if self.undeletable.iter().any(|p| p == path) {
            return Some("permission denied".to_string());
        }
        match self.files.remove(path) {
            Some(_) => None,
            None => Some("no such file".to_string()),
        }
    }

    fn perform(&mut self, action: Action, config: &RunConfig) -> Result<Event, Outcome> {
        Ok(match action {
            Action::InspectOutputDir => Event::OutputDir {
                present: self.output.is_some(),
                occupied: self.output.iter().any(|dir| !dir.is_empty()),
            },
            Action::CreateDirs { output_missing } => {
                assert_eq!(output_missing, self.output.is_none());
                self.output.get_or_insert_with(BTreeMap::new);
                Event::Done
            }
            Action::Discover => Event::Candidates(self.discover(config)),
            Action::ListSaved => Event::Saved {
                all_files: self.stored("all_files.csv"),
                stems: self
                    .checkpoint_names()
                    .iter()
                    .map(|name| name.rsplit_once('.').map(|(stem, _)| stem.to_string()))
                    .collect(),
            },
            Action::ReadCheckpoints(entries) => {
                let names = self.checkpoint_names();
                Event::CheckpointData(
                    entries
                        .iter()
                        .map(|entry| {
                            self.stored(&format!("checkpoints/{}", names[*entry]))
                                .expect("checkpoint")
                        })
                        .collect(),
                )
            }
            Action::ReadMetadata(wanted) => {
                let candidates = self.discover(config);
                Event::Metadata(
                    wanted
                        .iter()
                        .map(|index| self.metadata(&candidates[*index]))
                        .collect(),
                )
            }
            Action::Write(reports) => {
                let dir = self.output.as_mut().expect("output folder");
                for report in reports {
                    let name = match report.folder {
                        Folder::Output => report.name,
                        Folder::Checkpoints => format!("checkpoints/{}", report.name),
                    };
                    dir.insert(name, report.data);
                }
                Event::Done
            }
            Action::Fingerprint(samples) => {
                self.fingerprinted
                    .extend(samples.iter().map(|sample| sample.path.clone()));
                Event::Prints(
                    samples
                        .iter()
                        .map(|sample| self.print(&sample.path, sample.size))
                        .collect(),
                )
            }
            Action::Hash(paths) => {
                self.hashed.extend(paths.iter().cloned());
                Event::Hashes(paths.iter().map(|path| self.hash(path)).collect())
            }
            Action::ReadTimes(paths) => Event::Times(
                paths
                    .iter()
                    .map(|path| {
                        let file = self.read(path)?;
                        Some(fine_times(
                            Some(timestamp(file.created)),
                            Some(timestamp(file.modified)),
                        ))
                    })
                    .collect(),
            ),
            Action::Compare { left, right } => Event::Compared(self.identical(&left, &right)),
            Action::Delete { paths, use_trash } => {
                assert_eq!(use_trash, config.use_trash);
                Event::Deleted(paths.iter().map(|path| self.delete(path)).collect())
            }
            Action::WriteSummary(text) => {
                self.summary = text;
                Event::Done
            }
            Action::Finish(artifacts) => return Err(Outcome::Finished(artifacts)),
            Action::Fail(failure) => return Err(Outcome::Failed(failure)),
        })
    }
}

enum Outcome {
    Finished(RunArtifacts),
    Failed(Failure),
}

fn drive(world: &mut World, config: &RunConfig) -> Outcome {
    let facts = PathFacts {
        root_exists: true,
        root_is_dir: true,
        preferred_exists: true,
    };
    let (mut run, mut step) =
        Run::new(config.clone(), facts, Platform::Unix).expect("usable configuration");
    loop {
        world.updates.extend(step.reports);
        let event = match world.perform(step.action, config) {
            Ok(event) => event,
            Err(outcome) => return outcome,
        };
        let next = run.step(event);
        run = next.0;
        step = next.1;
    }
}

fn run(world: &mut World, config: &RunConfig) -> RunArtifacts {
    match drive(world, config) {
        Outcome::Finished(artifacts) => artifacts,
        Outcome::Failed(_) => panic!("the run should finish"),
    }
}

fn config(root: &str, output: &str) -> RunConfig {
    RunConfig {
        root_dir: root_path(root),
        output_dir: root_path(output),
        mode: OperationMode::DryRun,
        keep_rule: KeepRule::OldestCreated,
        fast_prefilter: true,
        include_filters: Vec::new(),
        exclude_filters: Vec::new(),
        follow_symlinks: false,
        use_trash: false,
        resume: false,
        checkpoint_interval: 100,
    }
}

#[test]
fn fast_prefilter_only_hashes_same_size_groups() {
    let mut world = World::new();
    let mut config = config("fast_prefilter_root", "fast_prefilter_output");
    config.checkpoint_interval = 2;
    let root = config.root_dir.clone();
    world.write(format!("{root}/a.txt"), b"same");
    world.write(format!("{root}/b.txt"), b"same");
    world.write(format!("{root}/c.txt"), b"diff");
    world.write(format!("{root}/d.txt"), b"unique-size");

    let artifacts = run(&mut world, &config);
    let unique = artifacts
        .all_files
        .iter()
        .find(|file| file.file_name == "d.txt")
        .expect("unique file should be scanned");
    assert!(unique.xxhash.is_empty());
    assert_eq!(artifacts.summary.planned_deletions, 1);
}

#[test]
fn hash_all_files_mode_hashes_unique_sizes_too() {
    let mut world = World::new();
    let mut config = config("hash_all_root", "hash_all_output");
    config.fast_prefilter = false;
    config.checkpoint_interval = 2;
    let root = config.root_dir.clone();
    world.write(format!("{root}/a.txt"), b"same");
    world.write(format!("{root}/b.txt"), b"same");
    world.write(format!("{root}/d.txt"), b"unique-size");

    let artifacts = run(&mut world, &config);
    let unique = artifacts
        .all_files
        .iter()
        .find(|file| file.file_name == "d.txt")
        .expect("unique file should be scanned");
    assert!(!unique.xxhash.is_empty());
}

#[test]
fn fast_prefilter_skips_full_hash_when_same_size_files_fingerprint_differ() {
    let mut world = World::new();
    let mut config = config("fingerprint_skip_root", "fingerprint_skip_output");
    config.checkpoint_interval = 2;
    let root = config.root_dir.clone();
    world.write(format!("{root}/a.txt"), b"abcd");
    world.write(format!("{root}/b.txt"), b"wxyz");

    let artifacts = run(&mut world, &config);
    assert_eq!(artifacts.summary.planned_deletions, 0);
    assert!(artifacts
        .all_files
        .iter()
        .all(|file| file.xxhash.is_empty()));
}

#[test]
fn fast_prefilter_falls_back_to_full_hash_when_samples_match() {
    let mut world = World::new();
    let mut config = config("fingerprint_match_root", "fingerprint_match_output");
    config.checkpoint_interval = 2;
    let root = config.root_dir.clone();

    let first = vec![b'a'; SAMPLE_FINGERPRINT_BYTES];
    let middle_left = vec![b'x'; 1024];
    let middle_right = vec![b'y'; 1024];
    let last = vec![b'z'; SAMPLE_FINGERPRINT_BYTES];

    let mut left = Vec::new();
    left.extend_from_slice(&first);
    left.extend_from_slice(&middle_left);
    left.extend_from_slice(&last);

    let mut right = Vec::new();
    right.extend_from_slice(&first);
    right.extend_from_slice(&middle_right);
    right.extend_from_slice(&last);

    world.write(format!("{root}/left.bin"), &left);
    world.write(format!("{root}/right.bin"), &right);

    let artifacts = run(&mut world, &config);
    assert_eq!(artifacts.summary.planned_deletions, 0);
    assert!(artifacts
        .all_files
        .iter()
        .all(|file| !file.xxhash.is_empty()));
}

#[test]
fn apply_mode_deletes_duplicate_files() {
    let mut world = World::new();
    let mut config = config("apply_root", "apply_output");
    config.mode = OperationMode::Apply;
    let root = config.root_dir.clone();
    world.write(format!("{root}/a.txt"), b"duplicate content");
    world.write(format!("{root}/b.txt"), b"duplicate content");
    world.write(format!("{root}/c.txt"), b"unique");

    let artifacts = run(&mut world, &config);
    assert_eq!(artifacts.summary.deleted_files, 1);
    assert_eq!(artifacts.summary.failed_deletions, 0);
    let a_exists = world.files.contains_key(&format!("{root}/a.txt"));
    let b_exists = world.files.contains_key(&format!("{root}/b.txt"));
    assert!(
        a_exists ^ b_exists,
        "exactly one of a.txt/b.txt should be deleted"
    );
    assert!(
        world.files.contains_key(&format!("{root}/c.txt")),
        "unique file should not be deleted"
    );
}

#[test]
fn include_filter_restricts_scanned_files() {
    let mut world = World::new();
    let mut config = config("include_root", "include_output");
    config.include_filters = vec![".txt".to_string()];
    let root = config.root_dir.clone();
    world.write(format!("{root}/a.txt"), b"same");
    world.write(format!("{root}/b.txt"), b"same");
    world.write(format!("{root}/a.log"), b"same");

    let artifacts = run(&mut world, &config);
    assert!(
        artifacts
            .all_files
            .iter()
            .all(|f| f.file_name.ends_with(".txt")),
        "only .txt files should be scanned"
    );
    assert_eq!(artifacts.summary.planned_deletions, 1);
}

#[test]
fn exclude_filter_skips_matching_files() {
    let mut world = World::new();
    let mut config = config("exclude_root", "exclude_output");
    config.fast_prefilter = false;
    config.exclude_filters = vec!["skip_".to_string()];
    let root = config.root_dir.clone();
    world.write(format!("{root}/a.txt"), b"same");
    world.write(format!("{root}/b.txt"), b"same");
    world.write(format!("{root}/skip_this.txt"), b"same");

    let artifacts = run(&mut world, &config);
    assert!(
        !artifacts
            .all_files
            .iter()
            .any(|f| f.file_name.starts_with("skip_")),
        "files matching exclude filter must not be scanned"
    );
}

#[test]
fn keep_rule_newest_modified_keeps_most_recently_changed() {
    let mut world = World::new();
    let mut config = config("newest_mod_root", "newest_mod_output");
    config.keep_rule = KeepRule::NewestModified;
    config.fast_prefilter = false;
    let root = config.root_dir.clone();
    let content = b"identical bytes";
    world.write(format!("{root}/old.txt"), content);
    world.clock += 50_000_000;
    world.write(format!("{root}/new.txt"), content);

    let artifacts = run(&mut world, &config);
    assert_eq!(artifacts.summary.planned_deletions, 1);
    let deleted = &artifacts.planned_deletions[0];
    assert_eq!(
        deleted.file_name, "old.txt",
        "oldest-modified file should be deleted, got {}",
        deleted.file_name
    );
}

#[test]
fn times_within_one_second_decide_what_is_kept() {
    for (rule, kept) in [
        (KeepRule::NewestModified, "b.txt"),
        (KeepRule::OldestCreated, "a.txt"),
    ] {
        for swapped in [false, true] {
            let mut world = World::new();
            let mut config = config("fine_root", "fine_output");
            config.keep_rule = rule.clone();
            let root = config.root_dir.clone();
            let (older, newer) = if swapped { ("b.txt", "a.txt") } else { ("a.txt", "b.txt") };
            world.write(format!("{root}/{older}"), b"identical bytes");
            world.clock += 50_000_000;
            world.write(format!("{root}/{newer}"), b"identical bytes");
            let artifacts = run(&mut world, &config);
            assert_eq!(
                artifacts.all_files[0].modified_time,
                artifacts.all_files[1].modified_time
            );
            let expected = match (kept, swapped) {
                ("b.txt", false) | ("a.txt", true) => "b.txt",
                _ => "a.txt",
            };
            assert_eq!(artifacts.kept_files[0].file_name, expected);
            assert_eq!(artifacts.planned_deletions.len(), 1);

            config.resume = true;
            config.mode = OperationMode::Apply;
            let applied = run(&mut world, &config);
            assert_eq!(applied.deleted_files, artifacts.planned_deletions);
        }
    }
}

#[test]
fn keep_rule_prefer_path_keeps_file_in_preferred_dir() {
    let mut world = World::new();
    let mut config = config("prefer_path_root", "prefer_path_output");
    config.fast_prefilter = false;
    let root = config.root_dir.clone();
    let preferred = format!("{root}/preferred");
    let other = format!("{root}/other");
    config.keep_rule = KeepRule::PreferPath(preferred.clone());
    let content = b"same content here";
    world.write(format!("{preferred}/file.txt"), content);
    world.write(format!("{other}/file.txt"), content);

    let artifacts = run(&mut world, &config);
    assert_eq!(artifacts.summary.planned_deletions, 1);
    let kept = artifacts
        .kept_files
        .iter()
        .find(|f| f.file_name == "file.txt")
        .expect("kept file should exist");
    assert!(
        kept.file_path.to_lowercase().contains("preferred"),
        "preferred path file should be kept, got {}",
        kept.file_path
    );
}

#[test]
fn resume_reuses_previously_scanned_files() {
    let mut world = World::new();
    let mut config = config("resume_root", "resume_output");
    config.fast_prefilter = false;
    config.checkpoint_interval = 1;
    let root = config.root_dir.clone();
    world.write(format!("{root}/a.txt"), b"same");
    world.write(format!("{root}/b.txt"), b"same");
    world.write(format!("{root}/c.txt"), b"unique content xyz");
    let first = run(&mut world, &config);

    let mut resume_config = config.clone();
    resume_config.resume = true;
    let reads = world.metadata_reads;
    let second = run(&mut world, &resume_config);

    assert_eq!(
        first.summary.planned_deletions, second.summary.planned_deletions,
        "resumed run should produce the same plan as the original"
    );
    assert_eq!(world.metadata_reads, reads);
    assert_eq!(first.all_files, second.all_files);
    assert_eq!(first.kept_files, second.kept_files);
}

#[test]
fn occupied_output_folder_is_refused_unless_resumed() {
    let mut world = World::new();
    let mut config = config("refused_root", "refused_output");
    world
        .output
        .as_mut()
        .expect("output folder")
        .insert("notes.txt".to_string(), b"mine".to_vec());
    match drive(&mut world, &config) {
        Outcome::Failed(Failure::Refused(text)) => assert_eq!(
            text,
            "Output directory already exists and is not empty: /tmp/duplicate_file_deletor_refused_output. Choose a new folder or enable resume."
        ),
        _ => panic!("the folder should be refused"),
    }
    config.resume = true;
    assert_eq!(run(&mut world, &config).summary.scanned_files, 0);
    world.output = None;
    config.resume = false;
    assert_eq!(run(&mut world, &config).summary.scanned_files, 0);
}

#[test]
fn resume_takes_checkpoints_where_no_scan_was_finished() {
    let mut world = World::new();
    let mut config = config("interrupted_root", "interrupted_output");
    config.checkpoint_interval = 2;
    let root = config.root_dir.clone();
    for name in ["a", "b", "c", "d", "e"] {
        world.write(format!("{root}/{name}.txt"), b"same");
    }
    run(&mut world, &config);
    let dir = world.output.as_mut().expect("output folder");
    dir.retain(|name, _| name.starts_with("checkpoints/"));
    assert_eq!(dir.len(), 3);
    dir.remove("checkpoints/checkpoint_2.csv");
    dir.insert("checkpoints/notes.csv".to_string(), b"no table".to_vec());

    config.resume = true;
    world.metadata_reads = 0;
    world.updates.clear();
    let artifacts = run(&mut world, &config);
    assert_eq!(world.metadata_reads, 1);
    assert_eq!(artifacts.summary.scanned_files, 5);
    assert_eq!(artifacts.summary.planned_deletions, 4);
    assert!(world
        .updates
        .iter()
        .any(|update| update.message == "Loaded 4 files from saved scan data"
            && update.discovered_files == Some(5)
            && update.processed_files == 4));
    assert!(world.stored("checkpoints/checkpoint_2.csv").is_some());
}

#[test]
fn checkpoints_are_merged_in_the_order_of_their_numbers() {
    let header = "file_path,file_size,xxhash,created_time,modified_time,file_name\n";
    let mut world = World::new();
    let mut config = config("merged_root", "merged_output");
    config.resume = true;
    let root = config.root_dir.clone();
    let dir = world.output.as_mut().expect("output folder");
    for (index, size) in [(10, 30), (9, 20)] {
        dir.insert(
            format!("checkpoints/checkpoint_{index}.csv"),
            format!("{header}{root}/a.txt,{size},,1,2,a.txt\n").into_bytes(),
        );
    }
    let artifacts = run(&mut world, &config);
    assert_eq!(artifacts.all_files.len(), 1);
    assert_eq!(artifacts.all_files[0].file_size, 20);

    world.output = Some(BTreeMap::new());
    world
        .output
        .as_mut()
        .expect("output folder")
        .insert(
            "checkpoints/checkpoint_10.csv".to_string(),
            header.as_bytes().to_vec(),
        );
    world.write(format!("{root}/b.txt"), b"new");
    run(&mut world, &config);
    assert!(world.stored("checkpoints/checkpoint_11.csv").is_some());
}

#[test]
fn damaged_saved_data_ends_the_run() {
    for data in [&b"file_path,file_size\n\"/a"[..], &b"file_path,file_size,xxhash,created_time,modified_time,file_name\n/a,many,,1,2,a\n"[..]] {
        let mut world = World::new();
        let mut config = config("damaged_root", "damaged_output");
        config.resume = true;
        world
            .output
            .as_mut()
            .expect("output folder")
            .insert("all_files.csv".to_string(), data.to_vec());
        assert!(matches!(
            drive(&mut world, &config),
            Outcome::Failed(Failure::SavedData(_))
        ));
        let table = world
            .output
            .as_mut()
            .expect("output folder")
            .remove("all_files.csv")
            .expect("table");
        world
            .output
            .as_mut()
            .expect("output folder")
            .insert("checkpoints/checkpoint_0.csv".to_string(), table);
        assert!(matches!(
            drive(&mut world, &config),
            Outcome::Failed(Failure::SavedData(_))
        ));
    }
}

#[test]
fn checkpoint_numbers_run_out() {
    let mut world = World::new();
    let mut config = config("numbers_root", "numbers_output");
    config.resume = true;
    let root = config.root_dir.clone();
    let header = b"file_path,file_size,xxhash,created_time,modified_time,file_name\n".to_vec();
    let dir = world.output.as_mut().expect("output folder");
    dir.insert(
        format!("checkpoints/checkpoint_{}.csv", usize::MAX),
        header.clone(),
    );
    assert!(matches!(
        drive(&mut world, &config),
        Outcome::Failed(Failure::TooManyCheckpoints)
    ));
    let dir = world.output.as_mut().expect("output folder");
    dir.clear();
    dir.insert(
        format!("checkpoints/checkpoint_{}.csv", usize::MAX - 1),
        header,
    );
    assert_eq!(run(&mut world, &config).summary.scanned_files, 0);
    world
        .output
        .as_mut()
        .expect("output folder")
        .remove("all_files.csv");
    world.write(format!("{root}/a.txt"), b"new");
    assert!(matches!(
        drive(&mut world, &config),
        Outcome::Failed(Failure::TooManyCheckpoints)
    ));
}

#[test]
fn replies_that_answer_nothing_end_the_run() {
    let facts = PathFacts {
        root_exists: true,
        root_is_dir: true,
        preferred_exists: true,
    };
    let (run, _) = Run::new(config("r", "o"), facts, Platform::Unix).expect("usable");
    let (run, step) = run.step(Event::Done);
    assert!(matches!(
        step.action,
        Action::Fail(Failure::UnexpectedReply)
    ));
    let (_, step) = run.step(Event::Done);
    assert!(matches!(
        step.action,
        Action::Fail(Failure::UnexpectedReply)
    ));
    let (run, _) = Run::new(config("r", "o"), facts, Platform::Unix).expect("usable");
    let (run, _) = run.step(Event::OutputDir {
        present: false,
        occupied: false,
    });
    let (run, _) = run.step(Event::Done);
    let (run, step) = run.step(Event::Candidates(vec!["/r/a".to_string()]));
    assert!(matches!(step.action, Action::ReadMetadata(wanted) if wanted == vec![0]));
    let (_, step) = run.step(Event::Metadata(Vec::new()));
    assert!(matches!(
        step.action,
        Action::Fail(Failure::UnexpectedReply)
    ));
}

#[test]
fn dry_run_writes_its_reports_and_deletes_nothing() {
    let mut world = World::new();
    let config = config("dry_root", "dry_output");
    let root = config.root_dir.clone();
    world.write(format!("{root}/b.txt"), b"same");
    world.write(format!("{root}/a.txt"), b"same");
    world.write(format!("{root}/z.txt"), b"other");

    let artifacts = run(&mut world, &config);
    assert_eq!(world.deletions, 0);
    assert_eq!(world.files.len(), 3);
    assert_eq!(artifacts.kept_files.len(), 2);
    assert_eq!(artifacts.kept_files[0].file_name, "b.txt");
    assert_eq!(artifacts.planned_deletions[0].file_name, "a.txt");
    assert_eq!(artifacts.summary.duplicate_sets, 1);
    assert_eq!(
        world.summary,
        format!("mode: dry-run\nroot_dir: {root}\noutput_dir: {}\nkeep_rule: Oldest created\ndiscovered_files: 3\nscanned_files: 3\nkept_files: 2\nplanned_deletions: 1\ndeleted_files: 0\nfailed_deletions: 0\nduplicate_sets: 1\n", config.output_dir)
    );
    let names: Vec<String> = world
        .output
        .as_ref()
        .expect("output folder")
        .keys()
        .cloned()
        .collect();
    assert_eq!(
        names,
        [
            "all_files.csv",
            "checkpoints/checkpoint_0.csv",
            "kept_files.csv",
            "planned_deletions.csv"
        ]
    );
    assert_eq!(
        world.hashed,
        [format!("{root}/a.txt"), format!("{root}/b.txt")]
    );
    assert_eq!(world.fingerprinted, world.hashed);
}

#[test]
fn reports_follow_the_run() {
    let mut world = World::new();
    let mut config = config("reports_root", "reports_output");
    config.mode = OperationMode::Apply;
    config.checkpoint_interval = 2;
    let root = config.root_dir.clone();
    for name in ["a", "b", "c"] {
        world.write(format!("{root}/{name}.txt"), b"same");
    }
    world.undeletable.push(format!("{root}/b.txt"));

    let artifacts = run(&mut world, &config);
    let seen: Vec<(RunStage, &str, Option<usize>, usize, usize, usize)> = world
        .updates
        .iter()
        .map(|u| {
            (
                u.stage,
                u.message.as_str(),
                u.discovered_files,
                u.processed_files,
                u.planned_deletions,
                u.deleted_files,
            )
        })
        .collect();
    assert_eq!(
        seen,
        vec![
            (RunStage::Preparing, "Preparing output directory", None, 0, 0, 0),
            (RunStage::Discovering, "Discovering files", None, 0, 0, 0),
            (RunStage::Scanning, "Found 3 candidate files", Some(3), 0, 0, 0),
            (RunStage::Scanning, "Indexed 2 of 3 files", Some(3), 2, 0, 0),
            (RunStage::Scanning, "Indexed 3 of 3 files", Some(3), 3, 0, 0),
            (RunStage::Hashing, "Fingerprinting same-size candidates", Some(3), 0, 0, 0),
            (RunStage::Hashing, "Fingerprinted 2 of 3 same-size candidates", Some(3), 2, 0, 0),
            (RunStage::Hashing, "Fingerprinted 3 of 3 same-size candidates", Some(3), 3, 0, 0),
            (RunStage::Hashing, "Hashing fingerprint matches", Some(3), 0, 0, 0),
            (RunStage::Hashing, "Hashed 2 of 3 candidate files", Some(3), 2, 0, 0),
            (RunStage::Hashing, "Hashed 3 of 3 candidate files", Some(3), 3, 0, 0),
            (RunStage::Planning, "Verifying duplicates and building plan", Some(3), 3, 0, 0),
            (RunStage::Saving, "Writing scan reports", Some(3), 3, 2, 0),
            (RunStage::Deleting, "Applying deletion plan: 1 of 2", None, 0, 2, 0),
            (RunStage::Deleting, "Applying deletion plan: 2 of 2", None, 0, 2, 1),
            (RunStage::Saving, "Writing deletion results", Some(3), 3, 2, 1),
            (RunStage::Complete, "Run complete", Some(3), 3, 2, 1),
        ]
    );
    assert_eq!(artifacts.summary.deleted_files, 1);
    assert_eq!(artifacts.summary.failed_deletions, 1);
    assert_eq!(artifacts.summary.kept_files, 1);
    assert_eq!(artifacts.summary.planned_deletions, 2);
    assert_eq!(
        artifacts.failed_deletions[0].file_path,
        format!("{root}/b.txt")
    );
    assert_eq!(artifacts.failed_deletions[0].error, "permission denied");
    assert_eq!(artifacts.deleted_files[0].file_name, "c.txt");
    assert_eq!(
        world.stored("failed_deletions.csv").expect("report"),
        format!("file_path,error\n{root}/b.txt,permission denied\n").into_bytes()
    );
}

#[test]
fn hash_of_all_files_is_reported_as_such() {
    let mut world = World::new();
    let mut config = config("all_root", "all_output");
    config.fast_prefilter = false;
    let root = config.root_dir.clone();
    world.write(format!("{root}/a.txt"), b"one");
    run(&mut world, &config);
    assert!(world
        .updates
        .iter()
        .any(|u| u.message == "Hashing all indexed files" && u.discovered_files == Some(1)));
    assert!(world.fingerprinted.is_empty());
}

#[test]
fn unreadable_files_are_never_deleted() {
    let mut world = World::new();
    let mut config = config("unreadable_root", "unreadable_output");
    config.mode = OperationMode::Apply;
    let root = config.root_dir.clone();
    world.write(format!("{root}/a.txt"), b"same");
    world.write(format!("{root}/b.txt"), b"same");
    world.unreadable.push(format!("{root}/b.txt"));
    let artifacts = run(&mut world, &config);
    assert_eq!(artifacts.summary.scanned_files, 1);
    assert_eq!(world.files.len(), 2);

    // Saved data claims that the two are alike; they cannot be compared.
    let header = "file_path,file_size,xxhash,created_time,modified_time,file_name\n";
    world.output = Some(BTreeMap::from([(
        "all_files.csv".to_string(),
        format!("{header}{root}/a.txt,4,beef,1,1,a.txt\n{root}/b.txt,4,beef,1,1,b.txt\n")
            .into_bytes(),
    )]));
    config.resume = true;
    let artifacts = run(&mut world, &config);
    assert_eq!(artifacts.summary.scanned_files, 2);
    assert_eq!(artifacts.summary.planned_deletions, 0);
    assert_eq!(world.deletions, 0);
}

#[test]
fn files_with_one_hash_and_other_contents_are_kept() {
    let mut world = World::new();
    let mut config = config("collision_root", "collision_output");
    config.resume = true;
    let root = config.root_dir.clone();
    for (name, contents) in [
        ("a.txt", b"abcd"),
        ("b.txt", b"wxyz"),
        ("c.txt", b"abcd"),
        ("d.txt", b"wxyz"),
        ("e.txt", b"abcd"),
    ] {
        world.write(format!("{root}/{name}"), contents);
    }
    let mut table =
        "file_path,file_size,xxhash,created_time,modified_time,file_name\n".to_string();
    for name in ["a.txt", "b.txt", "c.txt", "d.txt", "e.txt"] {
        table.push_str(&format!("{root}/{name},4,beef,1,1,{name}\n"));
    }
    world
        .output
        .as_mut()
        .expect("output folder")
        .insert("all_files.csv".to_string(), table.into_bytes());
    let artifacts = run(&mut world, &config);
    assert_eq!(artifacts.clone(), artifacts);
    let names = |files: &[FileInfo]| -> Vec<String> {
        files.iter().map(|file| file.file_name.clone()).collect()
    };
    assert_eq!(names(&artifacts.kept_files), ["a.txt", "b.txt"]);
    assert_eq!(
        names(&artifacts.planned_deletions),
        ["c.txt", "d.txt", "e.txt"]
    );
    assert_eq!(artifacts.summary.duplicate_sets, 2);
}

/// A folder with two groups of equal files, files that only share a size, and others.
fn mixed_world(root: &str) -> World {
    let mut world = World::new();
    world.write(format!("{root}/a.txt"), b"same");
    world.write(format!("{root}/z.txt"), b"same");
    world.write(format!("{root}/m.txt"), b"same");
    world.write(format!("{root}/b.txt"), b"diff");
    world.write(format!("{root}/c.txt"), b"unique content xyz");
    world.write(format!("{root}/d.txt"), b"twofold");
    world.write(format!("{root}/e.txt"), b"twofold");
    world.write(format!("{root}/f.txt"), b"");
    world
}

fn paths(files: &[FileInfo]) -> Vec<String> {
    files.iter().map(|file| file.file_path.clone()).collect()
}

#[test]
fn prefilter_changes_no_plan() {
    for rule in [
        KeepRule::OldestCreated,
        KeepRule::NewestModified,
        KeepRule::PreferPath("/tmp/duplicate_file_deletor_either_root/m".to_string()),
    ] {
        let mut config = config("either_root", "either_output");
        config.keep_rule = rule;
        config.checkpoint_interval = 3;
        let mut filtered = mixed_world(&config.root_dir);
        let mut whole = mixed_world(&config.root_dir);
        let with = run(&mut filtered, &config);
        config.fast_prefilter = false;
        let without = run(&mut whole, &config);
        assert_eq!(with.planned_deletions.len(), 3);
        assert_eq!(with.planned_deletions, without.planned_deletions);
        assert_eq!(paths(&with.kept_files), paths(&without.kept_files));
        assert_eq!(with.summary.duplicate_sets, 2);
        assert_eq!(without.summary.duplicate_sets, 2);
        assert_eq!(whole.hashed.len(), 8);
        assert_eq!(filtered.hashed.len(), 5);
    }
}

#[test]
fn dry_run_is_applied_later_as_planned() {
    let mut config = config("later_root", "later_output");
    config.keep_rule = KeepRule::NewestModified;
    let mut world = mixed_world(&config.root_dir);
    let planned = run(&mut world, &config);
    let hashed = world.hashed.len();

    config.resume = true;
    config.mode = OperationMode::Apply;
    let applied = run(&mut world, &config);
    assert_eq!(applied.all_files, planned.all_files);
    assert_eq!(applied.kept_files, planned.kept_files);
    assert_eq!(applied.planned_deletions, planned.planned_deletions);
    assert_eq!(applied.deleted_files, planned.planned_deletions);
    assert_eq!(applied.summary.duplicate_sets, planned.summary.duplicate_sets);
    assert_eq!(world.hashed.len(), hashed);
    assert_eq!(world.files.len(), 5);
    assert!(world.read(&format!("{}/m.txt", config.root_dir)).is_some());
    assert!(world.read(&format!("{}/e.txt", config.root_dir)).is_some());
}

#[test]
fn interrupted_scan_comes_to_the_same_plan() {
    let mut config = config("broken_off_root", "broken_off_output");
    config.checkpoint_interval = 3;
    let mut whole = mixed_world(&config.root_dir);
    let expected = run(&mut whole, &config);
    for kept in 0..4 {
        let mut world = mixed_world(&config.root_dir);
        let dir = world.output.as_mut().expect("output folder");
        for index in 0..kept {
            let name = format!("checkpoints/checkpoint_{index}.csv");
            if let Some(data) = whole.stored(&name) {
                dir.insert(name, data);
            }
        }
        config.resume = true;
        let resumed = run(&mut world, &config);
        assert_eq!(resumed.all_files, expected.all_files);
        assert_eq!(resumed.kept_files, expected.kept_files);
        assert_eq!(resumed.planned_deletions, expected.planned_deletions);
        assert_eq!(
            resumed.summary.duplicate_sets,
            expected.summary.duplicate_sets
        );
    }
}

#[test]
fn checkpoints_hold_the_scanned_files() {
    let mut config = config("kept_scan_root", "kept_scan_output");
    config.checkpoint_interval = 3;
    let mut world = mixed_world(&config.root_dir);
    let artifacts = run(&mut world, &config);
    let data: Vec<Vec<u8>> = (0..3)
        .map(|index| {
            world
                .stored(&format!("checkpoints/checkpoint_{index}.csv"))
                .expect("checkpoint")
        })
        .collect();
    assert_eq!(world.checkpoint_names().len(), 3);
    let Ok(mut loaded) = load_checkpoints(&data) else {
        panic!("the checkpoints should be read")
    };
    loaded.sort_by(|a, b| a.file_path.cmp(&b.file_path));
    assert!(loaded.iter().all(|file| file.xxhash.is_empty()));
    let mut scanned = artifacts.all_files.clone();
    for file in scanned.iter_mut() {
        file.xxhash = String::new();
    }
    assert_eq!(loaded, scanned);
}

#[test]
fn one_of_each_contents_is_kept() {
    let mut config = config("one_of_each_root", "one_of_each_output");
    config.keep_rule = KeepRule::NewestModified;
    let mut world = mixed_world(&config.root_dir);
    let artifacts = run(&mut world, &config);
    let mut contents: Vec<Vec<u8>> = artifacts
        .kept_files
        .iter()
        .map(|file| world.files[&file.file_path].contents.clone())
        .collect();
    contents.sort();
    contents.dedup();
    assert_eq!(contents.len(), artifacts.kept_files.len());
    assert_eq!(contents.len(), 5);
    for file in &artifacts.planned_deletions {
        let doomed = &world.files[&file.file_path];
        assert!(artifacts.kept_files.iter().any(|kept| {
            let other = &world.files[&kept.file_path];
            other.contents == doomed.contents && other.modified > doomed.modified
        }));
    }
}

#[test]
fn checkpoints_hold_files_that_cannot_be_hashed() {
    let mut config = config("unhashed_root", "unhashed_output");
    config.checkpoint_interval = 3;
    let mut world = mixed_world(&config.root_dir);
    world.unhashable = vec![format!("{}/a.txt", config.root_dir)];
    let artifacts = run(&mut world, &config);
    assert_eq!(artifacts.summary.planned_deletions, 2);
    let data: Vec<Vec<u8>> = (0..3)
        .map(|index| {
            world
                .stored(&format!("checkpoints/checkpoint_{index}.csv"))
                .expect("checkpoint")
        })
        .collect();
    let Ok(loaded) = load_checkpoints(&data) else {
        panic!("the checkpoints should be read")
    };
    let mut found = paths(&loaded);
    found.sort();
    assert_eq!(found, paths(&artifacts.all_files));
    assert!(loaded.iter().all(|file| file.xxhash.is_empty()));
}

#[test]
fn only_obstacles_keep_a_run_from_its_result() {
    for (present, occupied, resume) in [
        (false, false, false),
        (true, false, false),
        (true, true, false),
        (true, true, true),
    ] {
        let mut config = config("obstacle_root", "obstacle_output");
        config.resume = resume;
        let mut world = mixed_world(&config.root_dir);
        world.output = if present { Some(BTreeMap::new()) } else { None };
        if occupied {
            let dir = world.output.as_mut().expect("output folder");
            dir.insert("notes.txt".to_string(), b"notes".to_vec());
        }
        let finished = matches!(drive(&mut world, &config), Outcome::Finished(_));
        assert_eq!(finished, !occupied || resume);
    }
}
