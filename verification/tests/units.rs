//! The parts of the library, one by one.
use duplicate_file_deletor::config::{
    program_name, usage, wants_help, CliArgs, ConfigError, PathFacts, Places,
};
use duplicate_file_deletor::dashboard::{Button, Dashboard, Message, Metrics};
use duplicate_file_deletor::display::{
    closing_report, duration_text, format_duration, list_files, measured_progress,
    progress_bar_text, progress_counts_text, progress_gauge, run_stage_label, starting_progress,
    Gauge,
};
use duplicate_file_deletor::form::{FormError, RunForm};
use duplicate_file_deletor::hashing::{
    fingerprint, sample_plan, ContentHasher, FileComparison, SamplePlan, Verdict,
};
use duplicate_file_deletor::metadata::{
    fine_times, process_file_metadata, system_time_to_unix, FileFacts, MetadataError, Timestamp,
};
use duplicate_file_deletor::model::{
    parse_keep_rule, progress, FailedDeletionRecord, FileInfo, FineTimes, KeepRule, OperationMode, Platform,
    ProgressUpdate, RuleError, RunArtifacts, RunConfig, RunStage, RunSummary, CHECKPOINT_DIR,
    DEFAULT_CHECKPOINT_INTERVAL, OUTPUT_ROOT_DIR, SAMPLE_FINGERPRINT_BYTES, SUMMARY_TXT,
};
use duplicate_file_deletor::number::{
    count_text, decimal_text, hex_text, parse_count, parse_signed, parse_unsigned, signed_text,
};
use duplicate_file_deletor::outcome::record_deletions;
use duplicate_file_deletor::paths::{
    accepts_file, checkpoint_index, is_output_path, is_system_protected_path,
    normalize_dir_prefix, normalize_path_string, path_matches_filters,
};
use duplicate_file_deletor::plan::Planner;
use duplicate_file_deletor::prefilter::{
    collect_full_hash_targets, contested_files, same_size_candidates, unhashed_files,
};
use duplicate_file_deletor::rank::path_sorted;
use duplicate_file_deletor::resume::{
    checkpoint_name, checkpoint_order, load_checkpoints, next_checkpoint_index,
};
use duplicate_file_deletor::scan::{assign_hashes, collect_found, next_portion, remaining_candidates};
use duplicate_file_deletor::table::{
    decode_files, encode_failures, encode_files, files_of_table, summary_text, TableError,
};
use duplicate_file_deletor::text::{split_filters, text_less, trim_text, white_space};

fn file(path: &str, size: u64, hash: &str, created: i64, modified: i64) -> FileInfo {
    FileInfo {
        file_path: path.to_string(),
        file_size: size,
        xxhash: hash.to_string(),
        created_time: created,
        modified_time: modified,
        file_name: path.rsplit('/').next().unwrap_or_default().to_string(),
    }
}

fn words(list: &[&str]) -> Vec<String> {
    list.iter().map(|word| word.to_string()).collect()
}

fn all_there() -> PathFacts {
    PathFacts {
        root_exists: true,
        root_is_dir: true,
        preferred_exists: true,
    }
}

// ---------------------------------------------------------------------------
// Tables
// ---------------------------------------------------------------------------

#[test]
fn csv_round_trip_preserves_all_fields() {
    let original = vec![
        FileInfo {
            file_path: "/tmp/a.txt".to_string(),
            file_size: 42,
            xxhash: "deadbeef".to_string(),
            created_time: 1_000_000,
            modified_time: 2_000_000,
            file_name: "a.txt".to_string(),
        },
        FileInfo {
            file_path: "/tmp/b.txt".to_string(),
            file_size: 0,
            xxhash: String::new(),
            created_time: 3_000_000,
            modified_time: 4_000_000,
            file_name: "b.txt".to_string(),
        },
    ];

    let data = encode_files(&original);
    let loaded = match decode_files(&data) {
        Ok(files) => files,
        Err(_) => panic!("the table should be read back"),
    };

    assert_eq!(original.len(), loaded.len());
    for (expected, got) in original.iter().zip(loaded.iter()) {
        assert_eq!(expected, got);
    }
}

#[test]
fn csv_text_is_exact() {
    let files = vec![file("/t/a, \"b\".txt", 7, "ff", -3, 4)];
    assert_eq!(
        String::from_utf8(encode_files(&files)).unwrap(),
        "file_path,file_size,xxhash,created_time,modified_time,file_name\n\"/t/a, \"\"b\"\".txt\",7,ff,-3,4,\"a, \"\"b\"\".txt\"\n"
    );
    assert_eq!(
        String::from_utf8(encode_files(&Vec::new())).unwrap(),
        "file_path,file_size,xxhash,created_time,modified_time,file_name\n"
    );
    let failed = vec![FailedDeletionRecord {
        file_path: "/t/a".to_string(),
        error: "line\nbreak".to_string(),
    }];
    assert_eq!(
        String::from_utf8(encode_failures(&failed)).unwrap(),
        "file_path,error\n/t/a,\"line\nbreak\"\n"
    );
}

#[test]
fn csv_round_trip_of_unusual_names() {
    let files = vec![
        file("/t/line\nbreak\r.txt", u64::MAX, "0", i64::MIN, i64::MAX),
        file("/t/ spaces ,\"quotes\"", 0, "", 0, -1),
        file("", 1, "é", 1, 1),
    ];
    let Ok(loaded) = decode_files(&encode_files(&files)) else {
        panic!("the table should be read back")
    };
    assert_eq!(loaded, files);
}

#[test]
fn columns_are_found_by_name() {
    let data = b"file_name,file_path,modified_time,created_time,xxhash,file_size,note\nn,p,2,1,h,3,x\n";
    let Ok(loaded) = decode_files(data) else {
        panic!("the table should be read")
    };
    assert_eq!(
        loaded,
        vec![FileInfo {
            file_path: "p".to_string(),
            file_size: 3,
            xxhash: "h".to_string(),
            created_time: 1,
            modified_time: 2,
            file_name: "n".to_string(),
        }]
    );
}

#[test]
fn tables_that_are_no_file_tables_are_refused() {
    let head = "file_path,file_size,xxhash,created_time,modified_time,file_name\n";
    let missing = "file_path,file_size,xxhash,created_time,modified_time\n/a,1,,1,1\n";
    assert!(matches!(
        decode_files(missing.as_bytes()),
        Err(TableError::Row(0))
    ));
    let second = format!("{head}/a,1,,1,1,a\n/b,-1,,1,1,b\n");
    assert!(matches!(
        decode_files(second.as_bytes()),
        Err(TableError::Row(1))
    ));
    let uneven = format!("{head}/a,1\n");
    assert!(matches!(
        decode_files(uneven.as_bytes()),
        Err(TableError::Csv(_))
    ));
    let no_text = [head.as_bytes(), b"\xff,1,,1,1,a\n"].concat();
    assert!(matches!(decode_files(&no_text), Err(TableError::Csv(_))));
    assert!(matches!(decode_files(b""), Ok(files) if files.is_empty()));
    assert_eq!(
        files_of_table(&None, &vec![words(&["/a", "1", "", "1", "1", "a"])]),
        Ok(vec![file("/a", 1, "", 1, 1)])
    );
}

#[test]
fn summary_has_a_line_for_each_count() {
    let summary = summary_of(OperationMode::Apply);
    assert_eq!(
        summary_text(&summary),
        "mode: apply\nroot_dir: /r\noutput_dir: /o\nkeep_rule: Oldest created\ndiscovered_files: 9\nscanned_files: 9\nkept_files: 5\nplanned_deletions: 4\ndeleted_files: 3\nfailed_deletions: 1\nduplicate_sets: 2\n"
    );
}

fn summary_of(mode: OperationMode) -> RunSummary {
    RunSummary {
        mode,
        root_dir: "/r".to_string(),
        output_dir: "/o".to_string(),
        keep_rule: KeepRule::OldestCreated.label(),
        discovered_files: 9,
        scanned_files: 9,
        kept_files: 5,
        planned_deletions: 4,
        deleted_files: 3,
        failed_deletions: 1,
        duplicate_sets: 2,
    }
}

// ---------------------------------------------------------------------------
// Text and numbers
// ---------------------------------------------------------------------------

#[test]
fn white_space_is_that_of_unicode() {
    for c in '\0'..=char::MAX {
        assert_eq!(white_space(c), c.is_whitespace(), "{:?}", c);
    }
}

#[test]
fn text_is_trimmed_and_split() {
    assert_eq!(trim_text("\u{2003} a b \t\n"), "a b");
    assert_eq!(trim_text(" \t"), "");
    assert_eq!(split_filters(" .txt, ,a b ,,c"), words(&[".txt", "a b", "c"]));
    assert_eq!(split_filters(""), Vec::<String>::new());
    assert_eq!(split_filters(" , "), Vec::<String>::new());
    assert_eq!(split_filters("a , b,c d"), [split_filters("a "), split_filters(" b,c d")].concat());
    assert_eq!(split_filters(&split_filters(" x,, y ").join(",")), words(&["x", "y"]));
}

#[test]
fn text_is_ordered_as_strings_are() {
    let list = ["", "A", "a", "a\u{301}", "ab", "b", "\u{7f}", "é", "\u{ffff}", "\u{10000}"];
    for a in list {
        for b in list {
            assert_eq!(text_less(a, b), a < b, "{:?} {:?}", a, b);
        }
    }
}

#[test]
fn numbers_are_written_and_read() {
    for n in [0, 1, 9, 10, 16, 255, 1_000_000, u64::MAX] {
        assert_eq!(decimal_text(n), n.to_string());
        assert_eq!(hex_text(n), format!("{:x}", n));
        assert_eq!(parse_unsigned(&n.to_string(), 10), Some(n));
    }
    for n in [i64::MIN, -10, -1, 0, 7, i64::MAX] {
        assert_eq!(signed_text(n), n.to_string());
        assert_eq!(parse_signed(&n.to_string(), 10), Some(n));
    }
    assert_eq!(count_text(12), "12");
    for text in ["", "+", "-", "-1", "+7", "007", "1 ", "0x1", "18446744073709551615", "18446744073709551616"] {
        assert_eq!(parse_count(text), text.parse::<usize>().ok(), "{}", text);
        assert_eq!(parse_unsigned(text, 10), text.parse::<u64>().ok(), "{}", text);
        assert_eq!(parse_signed(text, 10), text.parse::<i64>().ok(), "{}", text);
    }
}

// ---------------------------------------------------------------------------
// Paths
// ---------------------------------------------------------------------------

#[test]
fn paths_are_normalized_for_the_platform() {
    assert_eq!(normalize_path_string("/A\\B/Ç", Platform::Unix), "/a/b/ç");
    assert_eq!(
        normalize_path_string("C:/Users\\Me", Platform::Windows),
        "c:\\users\\me"
    );
    assert_eq!(normalize_dir_prefix("/Out", Platform::Unix), "/out/");
    assert_eq!(normalize_dir_prefix("/Out/", Platform::Unix), "/out/");
    assert_eq!(normalize_dir_prefix("C:/Out", Platform::Windows), "c:\\out\\");
}

#[test]
fn output_folder_is_told_from_its_neighbours() {
    assert!(is_output_path("/data/out", "/data/out", Platform::Unix));
    assert!(is_output_path("/data/OUT/a.csv", "/data/out/", Platform::Unix));
    assert!(is_output_path("/data/out", "/data/out/", Platform::Unix));
    assert!(!is_output_path("/data/output.txt", "/data/out", Platform::Unix));
    assert!(!is_output_path("/data", "/data/out", Platform::Unix));
}

#[test]
fn filters_ignore_case_and_exclusion_wins() {
    let txt = words(&[".TXT"]);
    let none: Vec<String> = Vec::new();
    assert!(path_matches_filters("/a/B.txt", &txt, &none, Platform::Unix));
    assert!(!path_matches_filters("/a/b.log", &txt, &none, Platform::Unix));
    assert!(!path_matches_filters("/a/b.txt", &txt, &words(&["/A/"]), Platform::Unix));
    assert!(path_matches_filters("/a/b.log", &none, &none, Platform::Unix));
    let slashed = words(&["a\\b"]);
    assert!(path_matches_filters("/r/a\\b.txt", &slashed, &none, Platform::Unix));
    assert!(!path_matches_filters("/r/a\\b.txt", &none, &slashed, Platform::Unix));
    assert!(path_matches_filters("C:\\A\\b.txt", &words(&["a\\B"]), &none, Platform::Windows));
    assert!(path_matches_filters("C:/A/b.txt", &words(&["a\\B"]), &none, Platform::Windows));
    assert!(path_matches_filters("C:/A/b.txt", &words(&["A/b"]), &none, Platform::Windows));
    assert!(!path_matches_filters("C:\\A\\b.txt", &words(&["a/B"]), &none, Platform::Windows));
    assert!(!path_matches_filters("/r/a", &words(&["\\r\\a"]), &none, Platform::Unix));
    assert!(path_matches_filters("/r/a", &none, &words(&["\\r\\a"]), Platform::Unix));
    assert!(path_matches_filters("/r/\u{391}\u{3a3}\u{391}", &words(&["\u{391}\u{3a3}"]), &none, Platform::Unix));
    assert!(!path_matches_filters("/a/b.log", &none, &words(&[""]), Platform::Unix));
    assert!(accepts_file("/a/b.txt", "/o", &txt, &none, Platform::Unix));
    assert!(!accepts_file("/o/b.txt", "/o", &txt, &none, Platform::Unix));
}

#[test]
fn system_folders_are_protected_on_windows() {
    for path in [
        "C:/Windows/System32/a.dll",
        "c:\\windows\\SysWOW64\\a.dll",
        "C:\\Windows\\WinSxS\\x",
        "D:\\$Recycle.Bin\\x",
        "D:\\System Volume Information\\x",
    ] {
        assert!(is_system_protected_path(path, Platform::Windows), "{}", path);
        assert!(!is_system_protected_path(path, Platform::Unix));
    }
    assert!(!is_system_protected_path("C:\\Users\\a", Platform::Windows));
    assert!(!accepts_file(
        "C:\\Windows\\System32\\a.dll",
        "D:\\o",
        &Vec::new(),
        &Vec::new(),
        Platform::Windows
    ));
}

// ---------------------------------------------------------------------------
// Checkpoints
// ---------------------------------------------------------------------------

#[test]
fn checkpoint_names_are_read_back() {
    assert_eq!(checkpoint_name(12), "checkpoint_12.csv");
    assert_eq!(checkpoint_index("checkpoint_12"), Some(12));
    assert_eq!(checkpoint_index("checkpoint_"), None);
    assert_eq!(checkpoint_index("checkpoint_1a"), None);
    assert_eq!(checkpoint_index("Checkpoint_1"), None);
    assert_eq!(checkpoint_index("checkpoint_18446744073709551616"), None);
}

#[test]
fn checkpoints_are_taken_by_number() {
    let stems = vec![
        Some("checkpoint_10".to_string()),
        None,
        Some("notes".to_string()),
        Some("checkpoint_2".to_string()),
        Some("checkpoint_02".to_string()),
    ];
    assert_eq!(checkpoint_order(&stems), vec![3, 4, 0]);
    assert_eq!(next_checkpoint_index(&stems), Some(11));
    assert_eq!(next_checkpoint_index(&Vec::new()), Some(0));
    let full = vec![Some(format!("checkpoint_{}", usize::MAX))];
    assert_eq!(next_checkpoint_index(&full), None);
}

#[test]
fn first_checkpoint_with_a_path_counts() {
    let first = vec![file("/a", 1, "", 1, 1), file("/b", 2, "", 1, 1)];
    let second = vec![file("/b", 3, "", 1, 1), file("/c", 4, "", 1, 1)];
    let Ok(loaded) = load_checkpoints(&vec![encode_files(&first), encode_files(&second)]) else {
        panic!("the checkpoints should be read")
    };
    assert_eq!(
        loaded,
        vec![first[0].clone(), first[1].clone(), second[1].clone()]
    );
    assert!(matches!(
        load_checkpoints(&vec![encode_files(&first), b"a,b\n1\n".to_vec()]),
        Err(TableError::Csv(_))
    ));
}

// ---------------------------------------------------------------------------
// Scanning
// ---------------------------------------------------------------------------

#[test]
fn known_candidates_are_left_out() {
    let known = vec![file("/b", 1, "", 1, 1), file("/b", 1, "", 1, 1), file("/x", 1, "", 1, 1)];
    let (already, rest) = remaining_candidates(&words(&["/a", "/b", "/c"]), &known);
    assert_eq!(already, 2);
    assert_eq!(rest, vec![0, 2]);
}

#[test]
fn portions_cover_a_list() {
    let items: Vec<usize> = vec![4, 5, 6, 7, 8];
    assert_eq!(next_portion(&items, 0, 2), vec![4, 5]);
    assert_eq!(next_portion(&items, 4, 2), vec![8]);
    assert_eq!(next_portion(&items, 0, usize::MAX), items);
    assert_eq!(next_portion(&items, 5, 2), Vec::<usize>::new());
}

#[test]
fn files_that_cannot_be_read_are_skipped() {
    let a = file("/a", 1, "", 1, 1);
    assert_eq!(collect_found(&vec![None, Some(a.clone()), None]), vec![a]);
}

#[test]
fn hashes_go_to_their_files() {
    let mut files = vec![file("/a", 1, "", 1, 1), file("/b", 1, "x", 1, 1), file("/c", 1, "", 1, 1)];
    assign_hashes(
        &mut files,
        &vec![2, 0],
        &vec![Some("cc".to_string()), None],
    );
    assert_eq!(
        files,
        vec![file("/a", 1, "", 1, 1), file("/b", 1, "x", 1, 1), file("/c", 1, "cc", 1, 1)]
    );
}

#[test]
fn metadata_fills_unknown_times_from_each_other() {
    let facts = |created, modified| FileFacts {
        path: "/t/a.txt".to_string(),
        file_name: Some("a.txt".to_string()),
        len: 5,
        created,
        modified,
    };
    let one = Some(Timestamp::Unix { seconds: 1, nanos: 5 });
    let two = Some(Timestamp::Unix { seconds: 2, nanos: 999_999_999 });
    assert_eq!(process_file_metadata(facts(one, two)), Ok(file("/t/a.txt", 5, "", 1, 2)));
    assert_eq!(process_file_metadata(facts(None, two)), Ok(file("/t/a.txt", 5, "", 2, 2)));
    assert_eq!(process_file_metadata(facts(one, None)), Ok(file("/t/a.txt", 5, "", 1, 1)));
    assert_eq!(process_file_metadata(facts(None, None)), Err(MetadataError::NoTime));
    assert_eq!(
        process_file_metadata(facts(one, Some(Timestamp::BeforeEpoch))),
        Err(MetadataError::BeforeEpoch)
    );
    let fine = |created, modified| FineTimes { created, modified };
    assert_eq!(fine_times(one, two), fine(5, 999_999_999));
    assert_eq!(fine_times(None, two), fine(999_999_999, 999_999_999));
    assert_eq!(fine_times(one, Some(Timestamp::BeforeEpoch)), fine(5, 0));
    assert_eq!(fine_times(None, None), fine(0, 0));
    let nameless = FileFacts {
        file_name: None,
        ..facts(None, None)
    };
    assert_eq!(process_file_metadata(nameless), Err(MetadataError::InvalidName));
    for seconds in [0, i64::MAX as u64, i64::MAX as u64 + 1, u64::MAX] {
        assert_eq!(
            system_time_to_unix(Some(Timestamp::Unix { seconds, nanos: 999_999_999 })),
            Ok(seconds as i64)
        );
    }
}

// ---------------------------------------------------------------------------
// Hashing
// ---------------------------------------------------------------------------

#[test]
fn hashes_are_those_of_xxh3() {
    let hash = |pieces: &[&[u8]]| {
        let mut hasher = ContentHasher::new();
        for piece in pieces {
            hasher.feed(piece);
        }
        hasher.finish()
    };
    assert_eq!(hash(&[]), "2d06800538d394c2");
    assert_eq!(hash(&[b"sa", b"me"]), hash(&[b"same"]));
    assert_eq!(
        hash(&[b"same"]),
        format!("{:x}", xxhash_rust::xxh3::xxh3_64(b"same"))
    );
    assert_ne!(hash(&[b"same"]), hash(&[b"diff"]));
}

#[test]
fn samples_are_taken_from_both_ends_of_large_files() {
    let limit = SAMPLE_FINGERPRINT_BYTES;
    let plan = |first, last| SamplePlan { first, last };
    assert_eq!(sample_plan(0), plan(0, 0));
    assert_eq!(sample_plan(10), plan(10, 0));
    assert_eq!(sample_plan(limit as u64), plan(limit, 0));
    assert_eq!(sample_plan(2 * limit as u64), plan(limit, 0));
    assert_eq!(sample_plan(2 * limit as u64 + 1), plan(limit, limit));
    assert_eq!(sample_plan(u64::MAX), plan(limit, limit));
    assert_eq!(
        fingerprint(b"ab", b"cd"),
        format!("{:x}", xxhash_rust::xxh3::xxh3_64(b"abcd"))
    );
}

#[test]
fn comparison_reads_until_a_difference_or_the_end() {
    assert_eq!(FileComparison::begin(1, 2).1, Verdict::Different);
    let (mut same, verdict) = FileComparison::begin(3, 3);
    assert_eq!(verdict, Verdict::Undecided);
    assert_eq!(same.feed(b"ab", b"ab"), Verdict::Undecided);
    assert_eq!(same.feed(b"c", b"c"), Verdict::Undecided);
    assert_eq!(same.feed(b"", b""), Verdict::Identical);
    let (mut other, _) = FileComparison::begin(3, 3);
    assert_eq!(other.feed(b"ab", b"ac"), Verdict::Different);
    let (mut short, _) = FileComparison::begin(3, 3);
    assert_eq!(short.feed(b"ab", b"a"), Verdict::Different);
}

// ---------------------------------------------------------------------------
// Choosing and planning
// ---------------------------------------------------------------------------

#[test]
fn only_files_that_share_size_and_print_are_chosen() {
    let files = vec![
        file("/a", 4, "", 1, 1),
        file("/b", 5, "", 1, 1),
        file("/c", 4, "", 1, 1),
        file("/d", 4, "known", 1, 1),
        file("/e", 5, "known", 1, 1),
        file("/f", 4, "", 1, 1),
    ];
    assert_eq!(unhashed_files(&files), vec![0, 1, 2, 5]);
    let candidates = same_size_candidates(&files);
    assert_eq!(candidates, vec![0, 2, 5]);
    let print = |text: &str| Some(text.to_string());
    assert_eq!(
        collect_full_hash_targets(&files, &candidates, &vec![print("p"), None, print("p")]),
        vec![0, 5]
    );
    assert_eq!(
        collect_full_hash_targets(&files, &candidates, &vec![print("p"), None, None]),
        Vec::<usize>::new()
    );
    assert_eq!(
        collect_full_hash_targets(&files, &vec![0, 1], &vec![print("p"), print("p")]),
        Vec::<usize>::new()
    );
    let sizes: Vec<FileInfo> = [4, 4, 4, 4, 5].iter().map(|size| file("/s", *size, "", 1, 1)).collect();
    assert_eq!(
        collect_full_hash_targets(
            &sizes,
            &vec![3, 2, 0, 1, 4],
            &vec![print("b"), print("a"), print("a"), None, print("a")]
        ),
        vec![0, 2]
    );
    assert_eq!(contested_files(&files), Vec::<usize>::new());
    let twins = vec![file("/a", 4, "h", 1, 1), file("/b", 4, "", 1, 1), file("/c", 4, "h", 1, 1), file("/d", 5, "h", 1, 1)];
    assert_eq!(contested_files(&twins), vec![0, 2]);
}

fn plan_of(
    files: Vec<FileInfo>,
    rule: &KeepRule,
    equal: impl Fn(&FileInfo, &FileInfo) -> bool,
) -> (Vec<String>, Vec<String>, usize) {
    let all = files.clone();
    let fine = vec![FineTimes { created: 0, modified: 0 }; files.len()];
    let mut planner = Planner::new(files, fine, rule, Platform::Unix);
    while let Some((a, b)) = planner.pending(rule, Platform::Unix) {
        planner.answer(equal(&all[a], &all[b]), rule, Platform::Unix);
    }
    let plan = planner.plan(rule, Platform::Unix);
    let names = |list: &[usize]| -> Vec<String> {
        list.iter().map(|index| all[*index].file_path.clone()).collect()
    };
    (
        names(&plan.kept),
        names(&plan.planned_deletions),
        plan.duplicate_sets,
    )
}

#[test]
fn keep_rules_choose_the_file_that_stays() {
    let files = vec![
        file("/x/a", 4, "h", 30, 10),
        file("/p/b", 4, "h", 20, 30),
        file("/x/c", 4, "h", 10, 20),
        file("/x/d", 4, "h", 10, 20),
    ];
    let yes = |_: &FileInfo, _: &FileInfo| true;
    let kept = |rule: KeepRule| plan_of(files.clone(), &rule, yes).0;
    assert_eq!(kept(KeepRule::OldestCreated), words(&["/x/c"]));
    assert_eq!(kept(KeepRule::NewestModified), words(&["/p/b"]));
    assert_eq!(kept(KeepRule::PreferPath("/P".to_string())), words(&["/p/b"]));
    assert_eq!(kept(KeepRule::PreferPath("/none".to_string())), words(&["/x/c"]));
    let (_, planned, sets) = plan_of(files.clone(), &KeepRule::OldestCreated, yes);
    assert_eq!(planned, words(&["/p/b", "/x/a", "/x/d"]));
    assert_eq!(sets, 1);
}

#[test]
fn order_of_files_does_not_change_the_plan() {
    let files = vec![
        file("/x/a", 4, "h", 30, 10),
        file("/p/b", 4, "h", 20, 30),
        file("/x/c", 4, "h", 10, 20),
        file("/x/d", 4, "h", 10, 20),
        file("/x/e", 5, "h", 10, 20),
        file("/x/f", 5, "h", 5, 20),
        file("/x/g", 5, "", 5, 20),
    ];
    let equal = |a: &FileInfo, b: &FileInfo| (a.file_path == "/x/d") == (b.file_path == "/x/d");
    for rule in [
        KeepRule::OldestCreated,
        KeepRule::NewestModified,
        KeepRule::PreferPath("/p".to_string()),
    ] {
        let expected = plan_of(files.clone(), &rule, equal);
        assert_eq!(expected.2, 2);
        for shift in 1..files.len() {
            let mut turned = files.clone();
            turned.rotate_left(shift);
            assert_eq!(plan_of(turned.clone(), &rule, equal), expected);
            turned.reverse();
            assert_eq!(plan_of(turned, &rule, equal), expected);
        }
    }
}

#[test]
fn nothing_is_planned_without_a_comparison() {
    let files = vec![
        file("/a", 4, "h", 1, 1),
        file("/b", 4, "h", 1, 1),
        file("/c", 4, "", 1, 1),
        file("/d", 4, "", 1, 1),
        file("/e", 5, "h", 1, 1),
    ];
    let (kept, planned, sets) = plan_of(files, &KeepRule::OldestCreated, |_, _| false);
    assert_eq!(kept, words(&["/a", "/b", "/c", "/d", "/e"]));
    assert!(planned.is_empty());
    assert_eq!(sets, 0);
}

#[test]
fn files_are_sorted_by_path() {
    let sorted = path_sorted(&vec![
        file("/b", 1, "", 1, 1),
        file("/a/z", 2, "", 1, 1),
        file("/B", 3, "", 1, 1),
        file("/b", 4, "", 1, 1),
    ]);
    let sizes: Vec<u64> = sorted.iter().map(|file| file.file_size).collect();
    assert_eq!(sizes, vec![3, 2, 1, 4]);
    assert_eq!(path_sorted(&sorted), sorted);
}

#[test]
fn deletions_are_accounted_for() {
    let planned = vec![file("/a", 1, "h", 1, 1), file("/b", 1, "h", 1, 1)];
    let outcome = record_deletions(&planned, &vec![Some("busy".to_string()), None]);
    assert_eq!(outcome.deleted, vec![planned[1].clone()]);
    assert_eq!(
        outcome.failed,
        vec![FailedDeletionRecord {
            file_path: "/a".to_string(),
            error: "busy".to_string()
        }]
    );
    assert_eq!(outcome.reports.len(), 2);
    assert_eq!(outcome.reports[0].message, "Applying deletion plan: 1 of 2");
    assert_eq!(outcome.reports[1].deleted_files, 1);
}

// ---------------------------------------------------------------------------
// Configuration
// ---------------------------------------------------------------------------

fn parse(list: &[&str]) -> Result<CliArgs, ConfigError> {
    CliArgs::parse(&words(list))
}

fn parsed(list: &[&str]) -> CliArgs {
    parse(list).expect("arguments should be understood")
}

#[test]
fn command_line_defaults_to_a_dry_run() {
    let args = parsed(&["bin", "/data"]);
    assert_eq!(
        args,
        CliArgs {
            root_dir: Some("/data".to_string()),
            output_dir: None,
            mode: OperationMode::DryRun,
            keep_name: "oldest-created".to_string(),
            prefer_path: None,
            fast_prefilter: true,
            include_filters: Vec::new(),
            exclude_filters: Vec::new(),
            follow_symlinks: false,
            use_trash: false,
            resume: false,
        }
    );
}

#[test]
fn command_line_takes_every_flag() {
    let expected = CliArgs {
        root_dir: Some("/data".to_string()),
        output_dir: Some("/out=1".to_string()),
        mode: OperationMode::Apply,
        keep_name: "prefer-path".to_string(),
        prefer_path: Some("/p".to_string()),
        fast_prefilter: false,
        include_filters: words(&["a", "b"]),
        exclude_filters: words(&["--c"]),
        follow_symlinks: true,
        use_trash: true,
        resume: true,
    };
    assert_eq!(
        parsed(&[
            "bin", "--path", "/data", "--output-dir", "/out=1", "--keep", "prefer-path",
            "--prefer-path", "/p", "--fast-prefilter", "--hash-all-files", "--include", "a",
            "--include", "b", "--exclude", "--c", "--dry-run", "--apply", "--resume",
            "--follow-symlinks", "--use-trash",
        ]),
        expected
    );
    assert_eq!(
        parsed(&[
            "bin", "--path=/data", "--output-dir=/out=1", "--keep=prefer-path",
            "--prefer-path=/p", "--hash-all-files", "--include=a", "--include=b", "--exclude=--c",
            "--apply", "--resume", "--follow-symlinks", "--use-trash",
        ]),
        expected
    );
    assert_eq!(parsed(&["bin", "--path=", "--dry-run"]).root_dir, Some(String::new()));
    assert!(parsed(&["bin", "/d", "--hash-all-files", "--fast-prefilter"]).fast_prefilter);
    assert_eq!(parsed(&["bin", "/d", "--apply", "--dry-run"]).mode, OperationMode::DryRun);
}

#[test]
fn command_line_errors_are_explained() {
    let message = |list: &[&str]| match parse(list) {
        Ok(_) => panic!("arguments should be refused"),
        Err(e) => e.message(),
    };
    let help = usage("bin");
    assert_eq!(message(&["bin", "--path"]), format!("Missing value for --path\n\n{help}"));
    assert_eq!(message(&["bin", "--apply=1"]), format!("Unknown flag: --apply=1\n\n{help}"));
    assert_eq!(message(&["bin", "-x"]), format!("Unknown flag: -x\n\n{help}"));
    assert_eq!(
        message(&["bin", "/a", "/b"]),
        format!("Unexpected positional argument: /b\n\n{help}")
    );
    assert_eq!(message(&["bin"]), format!("Missing root directory\n\n{help}"));
    assert_eq!(
        message(&[]),
        format!("Missing root directory\n\n{}", usage("duplicate-file-deletor-cli"))
    );
    assert!(help.starts_with("Usage:\n  bin --path <directory> [options]\n  bin <directory> [options]\n\nOptions:\n  --apply "));
    assert!(help.ends_with("\n  -h, --help                 Show help"));
    assert_eq!(program_name(&words(&["x", "y"])), "x");
    assert!(wants_help(&words(&["x", "--apply", "-h"])));
    assert!(wants_help(&words(&["x", "--help"])));
    assert!(!wants_help(&words(&["x", "help"])));
}

#[test]
fn configuration_from_the_command_line() {
    let places = Places {
        root_dir: "/abs/data".to_string(),
        output_dir: "/abs/out".to_string(),
        prefer_dir: None,
    };
    let config = RunConfig::from_args(
        &parsed(&["bin", "data", "--include", "x", "--keep", "newest-modified"]),
        &places,
        all_there(),
    )
    .expect("usable");
    assert_eq!(
        config,
        RunConfig {
            root_dir: "/abs/data".to_string(),
            output_dir: "/abs/out".to_string(),
            mode: OperationMode::DryRun,
            keep_rule: KeepRule::NewestModified,
            fast_prefilter: true,
            include_filters: words(&["x"]),
            exclude_filters: Vec::new(),
            follow_symlinks: false,
            use_trash: false,
            resume: false,
            checkpoint_interval: DEFAULT_CHECKPOINT_INTERVAL,
        }
    );
    let refused = |list: &[&str], places: &Places, facts: PathFacts| {
        let args = parsed(list);
        match RunConfig::from_args(&args, places, facts) {
            Ok(_) => panic!("the configuration should be refused"),
            Err(e) => (args.check().err().map(|e| e.message()), e.message()),
        }
    };
    let text = "--resume requires an explicit --output-dir".to_string();
    assert_eq!(
        refused(&["bin", "d", "--resume"], &places, all_there()),
        (Some(text.clone()), text)
    );
    let text = "Unsupported keep rule: best".to_string();
    assert_eq!(
        refused(&["bin", "d", "--keep=best"], &places, all_there()),
        (Some(text.clone()), text)
    );
    let text = "--keep prefer-path requires --prefer-path".to_string();
    assert_eq!(
        refused(&["bin", "d", "--keep=prefer-path"], &places, all_there()),
        (Some(text.clone()), text)
    );
    let preferring = Places {
        prefer_dir: Some("/abs/p".to_string()),
        root_dir: "/abs/data".to_string(),
        output_dir: "/abs/out".to_string(),
    };
    let gone = PathFacts {
        preferred_exists: false,
        ..all_there()
    };
    assert_eq!(
        refused(&["bin", "d", "--keep=prefer-path", "--prefer-path=p"], &preferring, gone),
        (None, "Preferred path does not exist: /abs/p".to_string())
    );
}

#[test]
fn configurations_are_validated() {
    let good = RunConfig {
        root_dir: "/r".to_string(),
        output_dir: "/o".to_string(),
        mode: OperationMode::DryRun,
        keep_rule: KeepRule::PreferPath("/p".to_string()),
        fast_prefilter: true,
        include_filters: Vec::new(),
        exclude_filters: Vec::new(),
        follow_symlinks: false,
        use_trash: false,
        resume: false,
        checkpoint_interval: 1,
    };
    let fault = |config: &RunConfig, facts: PathFacts| {
        config.validate(facts).err().map(|e| e.message())
    };
    let text = |text: &str| Some(text.to_string());
    assert_eq!(fault(&good, all_there()), None);
    let mut config = good.clone();
    config.root_dir = String::new();
    assert_eq!(fault(&config, all_there()), text("Root directory is required"));
    let mut config = good.clone();
    config.output_dir = String::new();
    assert_eq!(fault(&config, all_there()), text("Output directory is required"));
    let facts = PathFacts { root_exists: false, ..all_there() };
    assert_eq!(fault(&good, facts), text("Root directory does not exist: /r"));
    let facts = PathFacts { root_is_dir: false, ..all_there() };
    assert_eq!(fault(&good, facts), text("Root path is not a directory: /r"));
    let mut config = good.clone();
    config.checkpoint_interval = 0;
    assert_eq!(
        fault(&config, all_there()),
        text("checkpoint_interval must be greater than 0")
    );
    let mut config = good.clone();
    config.keep_rule = KeepRule::PreferPath(String::new());
    assert_eq!(
        fault(&config, all_there()),
        text("Preferred path is required for the selected keep rule")
    );
    let facts = PathFacts { preferred_exists: false, ..all_there() };
    assert_eq!(fault(&good, facts), text("Preferred path does not exist: /p"));
    let mut config = good.clone();
    config.keep_rule = KeepRule::OldestCreated;
    assert_eq!(fault(&config, facts), None);
}

#[test]
fn names_and_labels() {
    assert_eq!(OperationMode::DryRun.as_str(), "dry-run");
    assert_eq!(OperationMode::Apply.as_str(), "apply");
    for (rule, name, label) in [
        (KeepRule::OldestCreated, "oldest-created", "Oldest created"),
        (KeepRule::NewestModified, "newest-modified", "Newest modified"),
        (KeepRule::PreferPath("/p".to_string()), "prefer-path", "Prefer path (/p)"),
    ] {
        assert_eq!(rule.cli_value(), name);
        assert_eq!(rule.label(), label);
        assert_eq!(parse_keep_rule(name, Some("/p".to_string())), Ok(rule));
    }
    assert_eq!(parse_keep_rule("prefer-path", None), Err(RuleError::MissingPath));
    assert_eq!(parse_keep_rule("Oldest", None), Err(RuleError::Unsupported));
    assert_eq!(OUTPUT_ROOT_DIR, "output");
    assert_eq!(CHECKPOINT_DIR, "checkpoints");
    assert_eq!(SUMMARY_TXT, "summary.txt");
}

// ---------------------------------------------------------------------------
// Display
// ---------------------------------------------------------------------------

#[test]
fn durations_are_formatted() {
    assert_eq!(format_duration(0, 0), "0.0s");
    assert_eq!(format_duration(5, 300_000_000), "5.3s");
    assert_eq!(format_duration(59, 999_000_000), "60.0s");
    assert_eq!(format_duration(60, 900_000_000), "01:00");
    assert_eq!(format_duration(3_599, 0), "59:59");
    assert_eq!(format_duration(3_600, 0), "01:00:00");
    assert_eq!(format_duration(363_661, 0), "101:01:01");
    assert_eq!(duration_text(7, "soon".to_string()), "soon");
    assert_eq!(duration_text(70, "soon".to_string()), "01:10");
}

fn update(stage: RunStage, total: Option<usize>, done: usize, planned: usize, deleted: usize) -> ProgressUpdate {
    progress(stage, "message".to_string(), total, done, planned, deleted)
}

#[test]
fn progress_is_told_in_words() {
    let start = starting_progress(OperationMode::DryRun);
    assert_eq!(start.stage, RunStage::Preparing);
    assert_eq!(start.message, "Starting dry run...");
    assert_eq!(starting_progress(OperationMode::Apply).message, "Starting apply run...");
    assert_eq!(progress_bar_text(&Some(start), true), "Starting dry run...");
    assert_eq!(progress_bar_text(&None, true), "Starting background worker...");
    assert_eq!(progress_bar_text(&None, false), "No active run");
    for (stage, name) in [
        (RunStage::Preparing, "Preparing"),
        (RunStage::Discovering, "Discovering"),
        (RunStage::Scanning, "Scanning"),
        (RunStage::Hashing, "Hashing"),
        (RunStage::Planning, "Planning"),
        (RunStage::Deleting, "Deleting"),
        (RunStage::Saving, "Saving"),
        (RunStage::Complete, "Complete"),
    ] {
        assert_eq!(run_stage_label(stage), name);
    }
    let counts = |stage, total| progress_counts_text(&update(stage, total, 3, 7, 2));
    assert_eq!(counts(RunStage::Scanning, Some(9)), "Files: 3 / 9");
    assert_eq!(counts(RunStage::Scanning, Some(0)), "Files: 3 scanned");
    assert_eq!(counts(RunStage::Scanning, None), "Files: 3 scanned");
    assert_eq!(counts(RunStage::Hashing, Some(9)), "Hashed: 3 / 9");
    assert_eq!(counts(RunStage::Hashing, None), "Hashed: 3");
    assert_eq!(counts(RunStage::Deleting, None), "Deleted: 2 / 7");
    assert_eq!(counts(RunStage::Planning, Some(9)), "Scanned: 3 files");
    assert_eq!(counts(RunStage::Saving, Some(9)), "Planned: 7 | Deleted: 2");
    assert_eq!(counts(RunStage::Complete, Some(9)), "Scanned: 3 | Deleted: 2");
    assert_eq!(counts(RunStage::Preparing, None), "Waiting for file counts");
    assert_eq!(counts(RunStage::Discovering, None), "Waiting for file counts");
}

#[test]
fn progress_is_told_in_figures() {
    let full = |gauge: Gauge| {
        f64::from(gauge.base) / 100.0
            + f64::from(gauge.span) / 100.0 * (gauge.done as f64 / gauge.total as f64)
    };
    let gauge = |stage, total, planned| {
        full(progress_gauge(&Some(update(stage, total, 5, planned, 2)), true))
    };
    let close = |a: f64, b: f64| assert!((a - b).abs() < 1e-9, "{} {}", a, b);
    close(gauge(RunStage::Preparing, None, 0), 0.04);
    close(gauge(RunStage::Discovering, None, 0), 0.08);
    close(gauge(RunStage::Scanning, Some(10), 0), 0.325);
    close(gauge(RunStage::Scanning, Some(0), 0), 0.15);
    close(gauge(RunStage::Hashing, Some(10), 0), 0.67);
    close(gauge(RunStage::Hashing, None, 0), 0.62);
    close(gauge(RunStage::Planning, None, 0), 0.80);
    close(gauge(RunStage::Deleting, None, 4), 0.895);
    close(gauge(RunStage::Deleting, None, 0), 0.88);
    close(gauge(RunStage::Saving, None, 0), 0.96);
    close(gauge(RunStage::Complete, None, 0), 1.0);
    close(full(progress_gauge(&None, true)), 0.02);
    close(full(progress_gauge(&None, false)), 0.0);

    let measure = |stage, total, done| measured_progress(&update(stage, total, done, 8, 2));
    assert_eq!(measure(RunStage::Scanning, Some(10), 5), Some((5, 10)));
    assert_eq!(measure(RunStage::Hashing, Some(10), 5), Some((5, 10)));
    assert_eq!(measure(RunStage::Scanning, Some(10), 0), None);
    assert_eq!(measure(RunStage::Scanning, Some(10), 10), None);
    assert_eq!(measure(RunStage::Scanning, None, 5), None);
    assert_eq!(measure(RunStage::Deleting, None, 5), Some((2, 8)));
    assert_eq!(measure(RunStage::Planning, Some(10), 5), None);
}

#[test]
fn gauge_only_rises() {
    let mut updates = vec![update(RunStage::Preparing, None, 0, 0, 0)];
    updates.push(update(RunStage::Discovering, None, 0, 0, 0));
    updates.extend((0..=4).map(|done| update(RunStage::Scanning, Some(4), done, 0, 0)));
    updates.extend((0..=4).map(|done| update(RunStage::Hashing, Some(4), done, 0, 0)));
    updates.push(update(RunStage::Planning, Some(4), 4, 0, 0));
    updates.extend((0..=3).map(|deleted| update(RunStage::Deleting, Some(4), 4, 3, deleted)));
    updates.push(update(RunStage::Saving, Some(4), 4, 3, 3));
    updates.push(update(RunStage::Complete, Some(4), 4, 3, 3));
    let level = |gauge: Gauge| {
        f64::from(gauge.base) + f64::from(gauge.span) * gauge.done as f64 / gauge.total as f64
    };
    let mut last = 0.0;
    for update in updates {
        let now = level(progress_gauge(&Some(update), true));
        assert!(last <= now && now <= 100.0);
        last = now;
    }
    assert_eq!(last, 100.0);
}

#[test]
fn lists_are_filtered_and_cut_off() {
    let files = vec![file("/x/A.txt", 1, "", 1, 1), file("/x/b.log", 1, "", 1, 1)];
    let listing = list_files("Kept files", &files, "  .TXT ");
    assert_eq!(listing.heading, "Kept files (2)");
    assert_eq!(listing.shown, vec![0]);
    assert_eq!(listing.placeholder, None);
    assert_eq!(listing.footer, Some("Showing 1 of 2 items".to_string()));
    let listing = list_files("Kept files", &files, "nothing");
    assert!(listing.shown.is_empty());
    assert_eq!(
        listing.placeholder,
        Some("No matching files for the current filter.".to_string())
    );
    assert_eq!(listing.footer, Some("Showing 0 of 2 items".to_string()));
    assert_eq!(list_files("Kept files", &files, " ").footer, None);
    let many: Vec<FileInfo> = (0..130).map(|i| file(&format!("/x/{i}"), 1, "", 1, 1)).collect();
    let listing = list_files("Kept files", &many, "");
    assert_eq!(listing.shown, (0..120).collect::<Vec<usize>>());
    assert_eq!(listing.footer, Some("Showing 120 of 130 items".to_string()));
}

#[test]
fn command_line_prints_the_counts() {
    assert_eq!(
        closing_report(&summary_of(OperationMode::Apply), "/o/plan.csv"),
        words(&[
            "Mode: apply",
            "Scanned files: 9",
            "Kept files: 5",
            "Planned deletions: 4",
            "Deleted files: 3",
            "Failed deletions: 1",
        ])
    );
    assert_eq!(
        closing_report(&summary_of(OperationMode::DryRun), "/o/plan.csv")[4..],
        words(&["Dry-run complete. Review /o/plan.csv"])[..]
    );
}

// ---------------------------------------------------------------------------
// Form and dashboard
// ---------------------------------------------------------------------------

fn form() -> RunForm {
    RunForm {
        root_dir: " /r ".to_string(),
        output_dir: "/o\t".to_string(),
        include_filters: "a, b".to_string(),
        exclude_filters: String::new(),
        keep_rule_index: 0,
        prefer_path: "  /p".to_string(),
        fast_prefilter: true,
        resume: false,
    }
}

#[test]
fn form_describes_a_configuration() {
    let config = form()
        .build_config(OperationMode::Apply, true, all_there())
        .expect("usable");
    assert_eq!(
        config,
        RunConfig {
            root_dir: "/r".to_string(),
            output_dir: "/o".to_string(),
            mode: OperationMode::Apply,
            keep_rule: KeepRule::OldestCreated,
            fast_prefilter: true,
            include_filters: words(&["a", "b"]),
            exclude_filters: Vec::new(),
            follow_symlinks: false,
            use_trash: false,
            resume: true,
            checkpoint_interval: 100,
        }
    );
    let rule = |index| {
        let mut form = form();
        form.keep_rule_index = index;
        let label = form.keep_rule_label();
        let config = form.draft_config(OperationMode::DryRun, false).expect("complete");
        assert!(!config.resume);
        (label, config.keep_rule)
    };
    let preferred = KeepRule::PreferPath("/p".to_string());
    assert_eq!(rule(0), ("Oldest created", KeepRule::OldestCreated));
    assert_eq!(rule(1), ("Newest modified", KeepRule::NewestModified));
    assert_eq!(rule(2), ("Prefer a folder", preferred.clone()));
    assert_eq!(rule(3), ("Prefer a folder", preferred));
}

#[test]
fn incomplete_forms_are_refused() {
    let fault = |form: &RunForm, facts: PathFacts| {
        form.build_config(OperationMode::DryRun, false, facts)
            .expect_err("the form should be refused")
    };
    let mut no_root = form();
    no_root.root_dir = "  ".to_string();
    assert_eq!(fault(&no_root, all_there()), FormError::NoRoot);
    assert_eq!(FormError::NoRoot.message(), "Choose a folder to scan first.");
    let mut no_output = form();
    no_output.output_dir = String::new();
    assert_eq!(fault(&no_output, all_there()), FormError::NoOutput);
    assert_eq!(FormError::NoOutput.message(), "Choose a report folder first.");
    let mut no_folder = form();
    no_folder.keep_rule_index = 2;
    no_folder.prefer_path = " ".to_string();
    assert_eq!(fault(&no_folder, all_there()), FormError::NoPreferred);
    assert_eq!(
        FormError::NoPreferred.message(),
        "Choose a preferred folder for the selected keep rule."
    );
    let gone = PathFacts { root_exists: false, ..all_there() };
    assert_eq!(fault(&form(), gone).message(), "Root directory does not exist: /r");
}

fn result(planned: usize) -> RunArtifacts {
    let mut summary = summary_of(OperationMode::DryRun);
    summary.planned_deletions = planned;
    RunArtifacts {
        summary,
        all_files: Vec::new(),
        kept_files: Vec::new(),
        planned_deletions: Vec::new(),
        deleted_files: Vec::new(),
        failed_deletions: Vec::new(),
    }
}

#[test]
fn dashboard_follows_a_run() {
    let mut board = Dashboard::new("/out/now".to_string());
    assert_eq!(board.status_message, "Choose a folder and start with a safe dry run.");
    assert_eq!(board.form.output_dir, "/out/now");
    assert!(board.form.fast_prefilter && !board.form.resume && !board.running);
    assert_eq!(board.metrics(), Metrics { scanned: 0, kept: 0, planned: 0, deleted: 0 });
    assert!(board.apply_existing_plan().is_none());

    assert!(board.start_run(OperationMode::DryRun, false, all_there()).is_none());
    assert_eq!(board.status_message, "Choose a folder to scan first.");
    assert!(!board.running && board.latest_progress.is_none());

    board.form = form();
    let gone = PathFacts { root_is_dir: false, ..all_there() };
    assert!(board.start_run(OperationMode::DryRun, false, gone).is_none());
    assert_eq!(board.status_message, "Root path is not a directory: /r");

    let config = board
        .start_run(OperationMode::DryRun, false, all_there())
        .expect("the run should start");
    assert_eq!(board.status_message, "Planning duplicates...");
    assert!(board.running && !board.can_apply_plan());

    board.poll_background_messages(
        vec![
            Message::Progress(update(RunStage::Scanning, Some(2), 1, 0, 0)),
            Message::Finished(Ok(result(4)), config.clone()),
        ],
        75,
        400_000_000,
    );
    assert_eq!(board.status_message, "Finished in 75.4s. Reports saved to /o");
    assert!(!board.running && board.can_apply_plan());
    assert_eq!(
        board.latest_progress.as_ref().map(|update| update.stage),
        Some(RunStage::Scanning)
    );
    assert_eq!(board.metrics(), Metrics { scanned: 9, kept: 5, planned: 4, deleted: 3 });

    let mut expected = config.clone();
    expected.mode = OperationMode::Apply;
    expected.resume = true;
    assert_eq!(board.apply_existing_plan(), Some(expected));
    assert_eq!(board.status_message, "Applying current plan...");
    assert!(board.running && !board.can_apply_plan());

    board.take_messages(vec![Message::Finished(Err("no disk".to_string()), config)], "1.0s");
    assert_eq!(board.status_message, "no disk");
    assert!(!board.running && board.can_apply_plan());

    board.last_result = Some(result(0));
    assert!(!board.can_apply_plan());
    assert!(board.click(Button::ApplyPlan, all_there()).is_none());
    assert!(!board.running);
    board.last_result = Some(result(1));
    let started = board.click(Button::ApplyPlan, all_there()).expect("the plan should start");
    assert_eq!(started.mode, OperationMode::Apply);
    for button in [Button::PlanDryRun, Button::ApplyPlan, Button::FreshApply] {
        assert!(board.click(button, all_there()).is_none());
        assert_eq!(board.status_message, "Applying current plan...");
    }
    board.running = false;
    assert_eq!(
        board.click(Button::PlanDryRun, all_there()).map(|config| config.mode),
        Some(OperationMode::DryRun)
    );
    board.running = false;
    assert_eq!(
        board.click(Button::FreshApply, all_there()).map(|config| config.mode),
        Some(OperationMode::Apply)
    );
    board.running = false;
    board.start_run(OperationMode::Apply, false, all_there());
    assert_eq!(board.status_message, "Applying deletion workflow...");
}
