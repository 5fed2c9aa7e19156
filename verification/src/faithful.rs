//! What a plan comes to that rests on true replies: one file of each contents is kept, the one
//! that the keep rule prefers.
use vstd::prelude::*;
use vstd::string::*;

use crate::agree::is_made_by;
use crate::history::{is_history, run_after, Moment};
use crate::model::{records, FileInfo, FileRecord, KeepRuleRecord, Platform};
use crate::order::{law_there_is_one_sorting, lemma_strictly_ascending_unique};
use crate::plan::{
    created_no_later, doomed_indices, duplicated_indices, has_duplicate, is_hashed, kept_indices,
    law_deletions_are_verified, law_kept_files_differ, law_plan_covers_all_files,
    lemma_sorting_transfers, modified_no_earlier, DedupPlan, Planner,
};
use crate::prefilter::is_contested;
use crate::rank::{
    is_by_path, keep_leq, law_preferred_paths_start_in_the_folder, lemma_content_key_order,
    lemma_path_order_total, lemma_plan_order_total, lemma_text_order, path_order, plan_order,
    same_content_key, starts_in,
};
use crate::scan::path_list;
use crate::select::{lemma_ascending, lemma_ascending_congruent, picked};
use crate::state::{Phase, Run};
use crate::text::text_lt;
use crate::truth::{
    answers_are_true, are_found_at, bare, hashes_are_true, holds, is_file_at, is_sound, is_truthful,
    lemma_truth_is_kept, looks_alike, owes_hash, plans_truly, Listing, Truth,
};

verus! {

// ---------------------------------------------------------------------------
// Plans
// ---------------------------------------------------------------------------

/// Whether two files have the same contents.
pub open spec fn are_twins(truth: Truth, files: Seq<FileInfo>, i: int, j: int) -> bool {
    i != j && (truth.contents)(files[i].file_path@) == (truth.contents)(files[j].file_path@)
}

/// Whether what a planner knows is so, and it knows the hash of every file that has the
/// contents of another.
pub open spec fn knows(truth: Truth, planner: Planner) -> bool {
    let files = planner.files@;
    &&& hashes_are_true(truth, files)
    &&& answers_are_true(truth, planner)
    &&& forall|i: int|
        0 <= i < files.len() ==> (#[trigger] files[i]).file_size == (truth.contents)(
            files[i].file_path@,
        ).len()
    &&& forall|i: int, j: int|
        0 <= i < files.len() && 0 <= j < files.len() && #[trigger] are_twins(truth, files, i, j)
            ==> is_hashed(files[i])
}

/// Twins share size and hash.
proof fn lemma_twins_share_key(truth: Truth, planner: Planner, i: int, j: int)
    requires
        knows(truth, planner),
        0 <= i < planner.files@.len(),
        0 <= j < planner.files@.len(),
        are_twins(truth, planner.files@, i, j),
    ensures
        is_hashed(planner.files@[i]),
        is_hashed(planner.files@[j]),
        same_content_key(planner.files@[i], planner.files@[j]),
        same_content_key(planner.files@[j], planner.files@[i]),
{
    let files = planner.files@;
    assert(are_twins(truth, files, j, i));
    assert(files[i].file_size == (truth.contents)(files[i].file_path@).len());
    assert(files[j].file_size == (truth.contents)(files[j].file_path@).len());
}

/// Of two files with the same contents at most one is kept.
pub proof fn law_kept_files_have_different_contents(
    truth: Truth,
    plan: DedupPlan,
    planner: Planner,
    rule: KeepRuleRecord,
    platform: Platform,
    a: usize,
    b: usize,
)
    requires
        is_made_by(plan, planner, rule, platform),
        knows(truth, planner),
        plan.kept@.contains(a),
        plan.kept@.contains(b),
        a != b,
    ensures
        (truth.contents)(planner.files@[a as int].file_path@) != (truth.contents)(
            planner.files@[b as int].file_path@,
        ),
{
    let files = planner.files@;
    law_plan_covers_all_files(files, planner.home@, plan);
    if are_twins(truth, files, a as int, b as int) {
        lemma_twins_share_key(truth, planner, a as int, b as int);
        let leq = plan_order(files, planner.fine@, rule, platform);
        lemma_plan_order_total(files, planner.fine@, rule, platform);
        lemma_content_key_order(files[a as int], files[b as int]);
        lemma_content_key_order(files[b as int], files[a as int]);
        let (x, y) = if leq(a, b) {
            (a, b)
        } else {
            (b, a)
        };
        assert(leq(x, y));
        law_kept_files_differ(
            files,
            planner.fine@,
            rule,
            platform,
            planner.order@,
            planner.home@,
            planner.answers@,
            x,
            y,
        );
        assert(planner.answers@.dom().contains((y, x)));
    }
}

/// A file that is planned for deletion has the contents of the file that is kept for it.
proof fn lemma_doomed_has_twin(
    truth: Truth,
    plan: DedupPlan,
    planner: Planner,
    rule: KeepRuleRecord,
    platform: Platform,
    d: usize,
)
    requires
        is_made_by(plan, planner, rule, platform),
        knows(truth, planner),
        d < planner.files@.len(),
        planner.home@[d as int] != d,
    ensures
        planner.home@[d as int] < planner.files@.len(),
        plan.kept@.contains(planner.home@[d as int]),
        are_twins(truth, planner.files@, d as int, planner.home@[d as int] as int),
        keep_leq(planner.files@, planner.fine@, rule, platform, planner.home@[d as int], d),
{
    law_plan_covers_all_files(planner.files@, planner.home@, plan);
    law_deletions_are_verified(
        planner.files@,
        planner.fine@,
        rule,
        platform,
        planner.order@,
        planner.home@,
        planner.answers@,
        d,
    );
    assert(planner.answers@.dom().contains((d, planner.home@[d as int])));
}

/// The keep rule decides: a file is planned for deletion exactly where another file has the same
/// contents and the rule prefers that one.
pub proof fn law_rule_decides_among_equal_files(
    truth: Truth,
    plan: DedupPlan,
    planner: Planner,
    rule: KeepRuleRecord,
    platform: Platform,
    i: usize,
)
    requires
        is_made_by(plan, planner, rule, platform),
        knows(truth, planner),
        i < planner.files@.len(),
    ensures
        plan.planned_deletions@.contains(i) <==> exists|j: usize|
            j < planner.files@.len() && are_twins(truth, planner.files@, i as int, j as int)
                && #[trigger] keep_leq(planner.files@, planner.fine@, rule, platform, j, i),
{
    let files = planner.files@;
    let fine = planner.fine@;
    law_plan_covers_all_files(files, planner.home@, plan);
    if planner.home@[i as int] != i {
        lemma_doomed_has_twin(truth, plan, planner, rule, platform, i);
        assert(keep_leq(files, fine, rule, platform, planner.home@[i as int], i));
    } else if exists|j: usize|
        j < files.len() && are_twins(truth, files, i as int, j as int) && #[trigger] keep_leq(
            files,
            fine,
            rule,
            platform,
            j,
            i,
        ) {
        let j = choose|j: usize|
            j < files.len() && are_twins(truth, files, i as int, j as int) && #[trigger] keep_leq(
                files,
                fine,
                rule,
                platform,
                j,
                i,
            );
        assert(plan.kept@.contains(i));
        let h = planner.home@[j as int];
        if h == j {
            assert(plan.kept@.contains(j));
            law_kept_files_have_different_contents(truth, plan, planner, rule, platform, i, j);
        } else {
            lemma_doomed_has_twin(truth, plan, planner, rule, platform, j);
            if h != i {
                law_kept_files_have_different_contents(truth, plan, planner, rule, platform, i, h);
            } else {
                let leq = plan_order(files, fine, rule, platform);
                lemma_plan_order_total(files, fine, rule, platform);
                lemma_twins_share_key(truth, planner, i as int, j as int);
                assert(leq(i, j) && leq(j, i));
            }
        }
        assert(false);
    }
}

/// What the rules by time are named after: of two files with the same contents, the one that was
/// modified earlier is planned for deletion where the newest is to be kept, and the one that was
/// created later where the oldest is, though the two times be in one second.
pub proof fn law_times_decide_among_equal_files(
    truth: Truth,
    plan: DedupPlan,
    planner: Planner,
    rule: KeepRuleRecord,
    platform: Platform,
    i: usize,
    j: usize,
)
    requires
        is_made_by(plan, planner, rule, platform),
        knows(truth, planner),
        i < planner.files@.len(),
        j < planner.files@.len(),
        are_twins(truth, planner.files@, i as int, j as int),
    ensures
        rule == KeepRuleRecord::NewestModified && !modified_no_earlier(
            planner.files@,
            planner.fine@,
            i as int,
            j as int,
        ) ==> plan.planned_deletions@.contains(i),
        rule == KeepRuleRecord::OldestCreated && !created_no_later(
            planner.files@,
            planner.fine@,
            i as int,
            j as int,
        ) ==> plan.planned_deletions@.contains(i),
{
    law_rule_decides_among_equal_files(truth, plan, planner, rule, platform, i);
    if (rule == KeepRuleRecord::NewestModified && !modified_no_earlier(
        planner.files@,
        planner.fine@,
        i as int,
        j as int,
    )) || (rule == KeepRuleRecord::OldestCreated && !created_no_later(
        planner.files@,
        planner.fine@,
        i as int,
        j as int,
    )) {
        assert(keep_leq(planner.files@, planner.fine@, rule, platform, j, i));
    }
}

/// What the rule by folder is named after: of two files with the same contents, one that
/// starts with the preferred folder and one that does not, the latter is planned for
/// deletion. Where both do, or neither does, the one that was created later is.
pub proof fn law_folder_decides_among_equal_files(
    truth: Truth,
    plan: DedupPlan,
    planner: Planner,
    folder: Seq<char>,
    platform: Platform,
    i: usize,
    j: usize,
)
    requires
        is_made_by(plan, planner, KeepRuleRecord::PreferPath(folder), platform),
        knows(truth, planner),
        i < planner.files@.len(),
        j < planner.files@.len(),
        are_twins(truth, planner.files@, i as int, j as int),
    ensures
        ({
            let one = planner.files@[i as int];
            let other = planner.files@[j as int];
            let one_is_there = starts_in(one.file_path@, folder, platform);
            let other_is_there = starts_in(other.file_path@, folder, platform);
            let one_is_younger = one.created_time > other.created_time || (one.created_time
                == other.created_time && planner.fine@[i as int].created
                > planner.fine@[j as int].created);
            &&& other_is_there && !one_is_there ==> plan.planned_deletions@.contains(i)
            &&& other_is_there == one_is_there && one_is_younger
                ==> plan.planned_deletions@.contains(i)
        }),
{
    let rule = KeepRuleRecord::PreferPath(folder);
    let files = planner.files@;
    law_rule_decides_among_equal_files(truth, plan, planner, rule, platform, i);
    law_preferred_paths_start_in_the_folder(files[i as int].file_path@, folder, platform);
    law_preferred_paths_start_in_the_folder(files[j as int].file_path@, folder, platform);
    if keep_leq(files, planner.fine@, rule, platform, j, i) {
        assert(plan.planned_deletions@.contains(i));
    }
}

/// Of two files with the same contents, between which the rule does not decide, the one
/// whose path comes later is planned for deletion.
pub proof fn law_path_decides_where_the_rule_does_not(
    truth: Truth,
    plan: DedupPlan,
    planner: Planner,
    rule: KeepRuleRecord,
    platform: Platform,
    i: usize,
    j: usize,
)
    requires
        is_made_by(plan, planner, rule, platform),
        knows(truth, planner),
        i < planner.files@.len(),
        j < planner.files@.len(),
        are_twins(truth, planner.files@, i as int, j as int),
        match rule {
            KeepRuleRecord::OldestCreated => planner.files@[i as int].created_time
                == planner.files@[j as int].created_time && planner.fine@[i as int].created
                == planner.fine@[j as int].created,
            KeepRuleRecord::NewestModified => planner.files@[i as int].modified_time
                == planner.files@[j as int].modified_time && planner.fine@[i as int].modified
                == planner.fine@[j as int].modified,
            KeepRuleRecord::PreferPath(folder) => planner.files@[i as int].created_time
                == planner.files@[j as int].created_time && planner.fine@[i as int].created
                == planner.fine@[j as int].created && starts_in(
                planner.files@[i as int].file_path@,
                folder,
                platform,
            ) == starts_in(planner.files@[j as int].file_path@, folder, platform),
        },
        text_lt(planner.files@[j as int].file_path@, planner.files@[i as int].file_path@),
    ensures
        plan.planned_deletions@.contains(i),
{
    let files = planner.files@;
    law_rule_decides_among_equal_files(truth, plan, planner, rule, platform, i);
    if let KeepRuleRecord::PreferPath(folder) = rule {
        law_preferred_paths_start_in_the_folder(files[i as int].file_path@, folder, platform);
        law_preferred_paths_start_in_the_folder(files[j as int].file_path@, folder, platform);
    }
    assert(keep_leq(files, planner.fine@, rule, platform, j, i));
}

/// Where one of the files with the same contents starts with the preferred folder, the one
/// that is kept does too.
pub proof fn law_kept_file_is_in_the_preferred_folder(
    truth: Truth,
    plan: DedupPlan,
    planner: Planner,
    folder: Seq<char>,
    platform: Platform,
    kept: usize,
    j: usize,
)
    requires
        is_made_by(plan, planner, KeepRuleRecord::PreferPath(folder), platform),
        knows(truth, planner),
        plan.kept@.contains(kept),
        kept < planner.files@.len(),
        j < planner.files@.len(),
        are_twins(truth, planner.files@, kept as int, j as int),
        starts_in(planner.files@[j as int].file_path@, folder, platform),
    ensures
        starts_in(planner.files@[kept as int].file_path@, folder, platform),
        plan.planned_deletions@.contains(j),
{
    law_folder_decides_among_equal_files(truth, plan, planner, folder, platform, kept, j);
    law_plan_covers_all_files(planner.files@, planner.home@, plan);
    if plan.kept@.contains(j) {
        let rule = KeepRuleRecord::PreferPath(folder);
        law_kept_files_have_different_contents(truth, plan, planner, rule, platform, kept, j);
    }
}

/// A kept file has duplicates exactly where another file has its contents.
pub proof fn law_duplicates_are_equal_files(
    truth: Truth,
    plan: DedupPlan,
    planner: Planner,
    rule: KeepRuleRecord,
    platform: Platform,
    h: usize,
)
    requires
        is_made_by(plan, planner, rule, platform),
        knows(truth, planner),
        h < planner.files@.len(),
    ensures
        duplicated_indices(planner.home@).contains(h) <==> plan.kept@.contains(h) && exists|j: int|
            0 <= j < planner.files@.len() && #[trigger] are_twins(
                truth,
                planner.files@,
                h as int,
                j,
            ),
{
    let files = planner.files@;
    let home = planner.home@;
    law_plan_covers_all_files(files, home, plan);
    let dup = |h: int| has_duplicate(home, h);
    lemma_ascending(home.len(), dup);
    assert(dup(h as int) == has_duplicate(home, h as int));
    if has_duplicate(home, h as int) {
        let i = choose|i: int| 0 <= i < home.len() && i != h && #[trigger] home[i] == h;
        lemma_doomed_has_twin(truth, plan, planner, rule, platform, i as usize);
        assert(are_twins(truth, files, h as int, i));
    }
    if plan.kept@.contains(h) && exists|j: int|
        0 <= j < files.len() && #[trigger] are_twins(truth, files, h as int, j) {
        let j = choose|j: int| 0 <= j < files.len() && #[trigger] are_twins(
            truth,
            files,
            h as int,
            j,
        );
        if home[j] == j {
            assert(plan.kept@.contains(j as usize));
            law_kept_files_have_different_contents(
                truth,
                plan,
                planner,
                rule,
                platform,
                h,
                j as usize,
            );
        }
        lemma_doomed_has_twin(truth, plan, planner, rule, platform, j as usize);
        if home[j] != h {
            law_kept_files_have_different_contents(
                truth,
                plan,
                planner,
                rule,
                platform,
                h,
                home[j],
            );
        }
        assert(home[j] == h as int);
    }
}

// ---------------------------------------------------------------------------
// Runs
// ---------------------------------------------------------------------------

/// A run that was told the truth of all that there is to scan knows what it takes.
proof fn lemma_run_knows(truth: Truth, run: Run)
    requires
        truth.listing is Some,
        is_sound(truth),
        run.wf(),
        run.phase is Reporting,
        holds(truth, run),
    ensures
        ({
            let planner = run.phase->Reporting_planner;
            let plan = run.phase->Reporting_plan;
            &&& is_made_by(plan, planner, run.config.keep_rule@, run.platform)
            &&& plans_truly(truth, run.config.fast_prefilter, planner)
            &&& knows(truth, planner)
        }),
{
    reveal(holds);
    let planner = run.phase->Reporting_planner;
    let files = planner.files@;
    let listing = truth.listing->0;
    let fast = run.config.fast_prefilter;
    assert(are_found_at(listing, listing.candidates, files));
    assert forall|i: int| 0 <= i < files.len() implies (#[trigger] files[i]).file_size == (
    truth.contents)(files[i].file_path@).len() by {
        assert(is_file_at(listing, listing.candidates, files[i]));
        assert(bare(files[i]@).file_size == files[i].file_size);
    }
    assert forall|i: int, j: int|
        0 <= i < files.len() && 0 <= j < files.len() && #[trigger] are_twins(
            truth,
            files,
            i,
            j,
        ) implies is_hashed(files[i]) by {
        assert(files[i].file_size == files[j].file_size);
        assert(looks_alike(truth, files, i, j));
        assert(owes_hash(truth, fast, files, i));
    }
}

/// A run keeps exactly one file of each contents, the one that the keep rule prefers: where it
/// scans anew, or takes up the checkpoints of a scan, and is told the truth, no two files that
/// it keeps have the same contents, and a file is planned for deletion exactly where the rule
/// prefers another with its contents.
pub proof fn law_one_of_equal_files_is_kept(
    truth: Truth,
    start: Run,
    history: Seq<Moment>,
    n: int,
    i: usize,
)
    requires
        truth.listing is Some,
        is_sound(truth),
        is_history(start, history),
        is_truthful(truth, history),
        0 <= n <= history.len(),
        run_after(start, history, n).phase matches Phase::Reporting { planner, plan } && i
            < planner.files@.len(),
    ensures
        run_after(start, history, n).phase matches Phase::Reporting { planner, plan } && {
            &&& plan.planned_deletions@.contains(i) <==> exists|j: usize|
                j < planner.files@.len() && are_twins(truth, planner.files@, i as int, j as int)
                    && #[trigger] keep_leq(
                    planner.files@,
                    planner.fine@,
                    start.config.keep_rule@,
                    start.platform,
                    j,
                    i,
                )
            &&& plan.kept@.contains(i) ==> forall|j: usize| #[trigger]
                plan.kept@.contains(j) && j != i ==> (truth.contents)(
                    planner.files@[j as int].file_path@,
                ) != (truth.contents)(planner.files@[i as int].file_path@)
        },
{
    lemma_truth_is_kept(truth, start, history, n);
    let run = run_after(start, history, n);
    lemma_run_knows(truth, run);
    let planner = run.phase->Reporting_planner;
    let plan = run.phase->Reporting_plan;
    let rule = start.config.keep_rule@;
    law_rule_decides_among_equal_files(truth, plan, planner, rule, start.platform, i);
    if plan.kept@.contains(i) {
        assert forall|j: usize| #[trigger] plan.kept@.contains(j) && j != i implies (
        truth.contents)(planner.files@[j as int].file_path@) != (truth.contents)(
            planner.files@[i as int].file_path@,
        ) by {
            law_kept_files_have_different_contents(
                truth,
                plan,
                planner,
                rule,
                start.platform,
                i,
                j,
            );
        }
    }
}

/// Whether two lists hold the same files but for their hashes.
spec fn differ_in_hashes(files: Seq<FileInfo>, others: Seq<FileInfo>) -> bool {
    &&& files.len() == others.len()
    &&& forall|i: int|
        #![trigger files[i]]
        #![trigger others[i]]
        0 <= i < files.len() ==> bare(files[i]@) == bare(others[i]@)
}

/// Complete lists in the order of paths are the same files, but for their hashes.
proof fn lemma_complete_lists_alike(
    listing: Listing,
    files: Seq<FileInfo>,
    others: Seq<FileInfo>,
)
    requires
        are_found_at(listing, listing.candidates, files),
        are_found_at(listing, listing.candidates, others),
        is_by_path(files),
        is_by_path(others),
    ensures
        differ_in_hashes(files, others),
        path_list(files) == path_list(others),
{
    let s = path_list(files);
    let t = path_list(others);
    let lt = |x: Seq<char>, y: Seq<char>| text_lt(x, y);
    assert forall|x: Seq<char>, y: Seq<char>| #[trigger] lt(x, y) implies !lt(y, x) by {
        lemma_text_order(x, y);
    }
    assert forall|i: int, j: int| 0 <= i < j < s.len() implies lt(#[trigger] s[i], #[trigger] s[j])
        by {
        assert(s[i] == files[i].file_path@ && s[j] == files[j].file_path@);
        assert(s[i] != s[j]);
    }
    assert forall|i: int, j: int| 0 <= i < j < t.len() implies lt(#[trigger] t[i], #[trigger] t[j])
        by {
        assert(t[i] == others[i].file_path@ && t[j] == others[j].file_path@);
        assert(t[i] != t[j]);
    }
    assert forall|x: Seq<char>| #[trigger] s.contains(x) <==> t.contains(x) by {
        if s.contains(x) {
            lemma_complete_list_has(listing, files, others, x);
        }
        if t.contains(x) {
            lemma_complete_list_has(listing, others, files, x);
        }
    }
    lemma_strictly_ascending_unique(s, t, lt);
    assert forall|i: int|
        #![trigger files[i]]
        #![trigger others[i]]
        0 <= i < files.len() implies bare(files[i]@) == bare(others[i]@) by {
        assert(s[i] == t[i]);
        assert(is_file_at(listing, listing.candidates, files[i]));
        assert(is_file_at(listing, listing.candidates, others[i]));
    }
}

proof fn lemma_complete_list_has(
    listing: Listing,
    files: Seq<FileInfo>,
    others: Seq<FileInfo>,
    path: Seq<char>,
)
    requires
        are_found_at(listing, listing.candidates, files),
        are_found_at(listing, listing.candidates, others),
        path_list(files).contains(path),
    ensures
        path_list(others).contains(path),
{
    let i = choose|i: int| 0 <= i < path_list(files).len() && path_list(files)[i] == path;
    assert(is_file_at(listing, listing.candidates, files[i]));
    let k = choose|k: int|
        0 <= k < listing.candidates.len() && listing.candidates[k] == files[i].file_path@;
    assert(path_list(others).contains(listing.candidates[k]));
}

/// The keep rule prefers alike among files with the same contents.
proof fn lemma_preferences_alike(
    truth: Truth,
    fast: bool,
    planner: Planner,
    other_fast: bool,
    other: Planner,
    rule: KeepRuleRecord,
    platform: Platform,
    i: usize,
    j: usize,
)
    requires
        knows(truth, planner),
        knows(truth, other),
        plans_truly(truth, fast, planner),
        plans_truly(truth, other_fast, other),
        differ_in_hashes(planner.files@, other.files@),
        i < planner.files@.len(),
        j < planner.files@.len(),
        are_twins(truth, planner.files@, i as int, j as int),
    ensures
        are_twins(truth, other.files@, i as int, j as int),
        keep_leq(planner.files@, planner.fine@, rule, platform, j, i) == keep_leq(
            other.files@,
            other.fine@,
            rule,
            platform,
            j,
            i,
        ),
{
    let files = planner.files@;
    let others = other.files@;
    let a = i as int;
    let b = j as int;
    lemma_bare_fields(files[a]@, others[a]@);
    lemma_bare_fields(files[b]@, others[b]@);
    assert(are_twins(truth, others, a, b));
    lemma_twins_share_key(truth, planner, a, b);
    lemma_twins_share_key(truth, other, a, b);
    assert(is_contested(files, a) && is_contested(files, b));
    assert(is_contested(others, a) && is_contested(others, b));
    assert(planner.fine@[a] == other.fine@[a]);
    assert(planner.fine@[b] == other.fine@[b]);
}

proof fn lemma_bare_fields(x: FileRecord, y: FileRecord)
    requires
        bare(x) == bare(y),
    ensures
        x.file_path == y.file_path,
        x.file_size == y.file_size,
        x.created_time == y.created_time,
        x.modified_time == y.modified_time,
        x.file_name == y.file_name,
        x.xxhash == y.xxhash ==> x == y,
{
    assert(bare(x).file_path == bare(y).file_path);
    assert(bare(x).file_size == bare(y).file_size);
    assert(bare(x).created_time == bare(y).created_time);
    assert(bare(x).modified_time == bare(y).modified_time);
    assert(bare(x).file_name == bare(y).file_name);
}

/// What is planned for deletion in one plan is in the other.
proof fn lemma_doomed_alike(
    truth: Truth,
    fast: bool,
    plan: DedupPlan,
    planner: Planner,
    other_fast: bool,
    other_plan: DedupPlan,
    other: Planner,
    rule: KeepRuleRecord,
    platform: Platform,
    i: usize,
)
    requires
        is_made_by(plan, planner, rule, platform),
        is_made_by(other_plan, other, rule, platform),
        knows(truth, planner),
        knows(truth, other),
        plans_truly(truth, fast, planner),
        plans_truly(truth, other_fast, other),
        differ_in_hashes(planner.files@, other.files@),
        i < planner.files@.len(),
        planner.home@[i as int] != i,
    ensures
        other.home@[i as int] != i,
        planner.files@[i as int]@ == other.files@[i as int]@,
{
    let files = planner.files@;
    let others = other.files@;
    law_plan_covers_all_files(others, other.home@, other_plan);
    lemma_doomed_has_twin(truth, plan, planner, rule, platform, i);
    let j = planner.home@[i as int];
    lemma_preferences_alike(truth, fast, planner, other_fast, other, rule, platform, i, j);
    law_rule_decides_among_equal_files(truth, other_plan, other, rule, platform, i);
    assert(other_plan.planned_deletions@.contains(i));
    lemma_twins_share_key(truth, planner, i as int, j as int);
    lemma_twins_share_key(truth, other, i as int, j as int);
    assert(bare(files[i as int]@) == bare(others[i as int]@));
    lemma_bare_fields(files[i as int]@, others[i as int]@);
}

/// What has duplicates in one plan has some in the other.
proof fn lemma_duplicated_alike(
    truth: Truth,
    fast: bool,
    plan: DedupPlan,
    planner: Planner,
    other_fast: bool,
    other_plan: DedupPlan,
    other: Planner,
    rule: KeepRuleRecord,
    platform: Platform,
    h: usize,
)
    requires
        is_made_by(plan, planner, rule, platform),
        is_made_by(other_plan, other, rule, platform),
        knows(truth, planner),
        knows(truth, other),
        plans_truly(truth, fast, planner),
        plans_truly(truth, other_fast, other),
        differ_in_hashes(planner.files@, other.files@),
        differ_in_hashes(other.files@, planner.files@),
        h < planner.files@.len(),
        has_duplicate(planner.home@, h as int),
    ensures
        has_duplicate(other.home@, h as int),
{
    let files = planner.files@;
    let others = other.files@;
    let dup = |h: int| has_duplicate(planner.home@, h);
    let other_dup = |h: int| has_duplicate(other.home@, h);
    lemma_ascending(planner.home@.len(), dup);
    lemma_ascending(other.home@.len(), other_dup);
    law_plan_covers_all_files(files, planner.home@, plan);
    law_plan_covers_all_files(others, other.home@, other_plan);
    assert(dup(h as int));
    assert(duplicated_indices(planner.home@).contains(h));
    law_duplicates_are_equal_files(truth, plan, planner, rule, platform, h);
    law_duplicates_are_equal_files(truth, other_plan, other, rule, platform, h);
    let j = choose|j: int| 0 <= j < files.len() && #[trigger] are_twins(truth, files, h as int, j);
    lemma_preferences_alike(
        truth,
        fast,
        planner,
        other_fast,
        other,
        rule,
        platform,
        h,
        j as usize,
    );
    if other.home@[h as int] != h {
        lemma_doomed_alike(
            truth,
            other_fast,
            other_plan,
            other,
            fast,
            plan,
            planner,
            rule,
            platform,
            h,
        );
    }
    assert(other_plan.kept@.contains(h));
    assert(are_twins(truth, others, h as int, j));
    assert(duplicated_indices(other.home@).contains(h));
    assert(other_dup(h as int));
}

/// Two planners that know all that there is to know of the same files come to one plan.
proof fn lemma_knowing_planners_agree(
    truth: Truth,
    fast: bool,
    plan: DedupPlan,
    planner: Planner,
    other_fast: bool,
    other_plan: DedupPlan,
    other: Planner,
    rule: KeepRuleRecord,
    platform: Platform,
)
    requires
        is_made_by(plan, planner, rule, platform),
        is_made_by(other_plan, other, rule, platform),
        knows(truth, planner),
        knows(truth, other),
        plans_truly(truth, fast, planner),
        plans_truly(truth, other_fast, other),
        differ_in_hashes(planner.files@, other.files@),
        path_list(planner.files@) == path_list(other.files@),
    ensures
        plan.kept@ == other_plan.kept@,
        plan.planned_deletions@ == other_plan.planned_deletions@,
        records(picked(planner.files@, plan.planned_deletions@)) == records(
            picked(other.files@, other_plan.planned_deletions@),
        ),
        plan.duplicate_sets == other_plan.duplicate_sets,
{
    let files = planner.files@;
    let others = other.files@;
    let home = planner.home@;
    let other_home = other.home@;
    let n = files.len();
    assert(differ_in_hashes(others, files));
    assert forall|i: int| 0 <= i < n implies (#[trigger] home[i] != i) == (other_home[i] != i) by {
        if home[i] != i {
            lemma_doomed_alike(
                truth,
                fast,
                plan,
                planner,
                other_fast,
                other_plan,
                other,
                rule,
                platform,
                i as usize,
            );
        }
        if other_home[i] != i {
            lemma_doomed_alike(
                truth,
                other_fast,
                other_plan,
                other,
                fast,
                plan,
                planner,
                rule,
                platform,
                i as usize,
            );
        }
    }
    assert forall|h: int| 0 <= h < n implies #[trigger] has_duplicate(home, h) == has_duplicate(
        other_home,
        h,
    ) by {
        if has_duplicate(home, h) {
            lemma_duplicated_alike(
                truth,
                fast,
                plan,
                planner,
                other_fast,
                other_plan,
                other,
                rule,
                platform,
                h as usize,
            );
        }
        if has_duplicate(other_home, h) {
            lemma_duplicated_alike(
                truth,
                other_fast,
                other_plan,
                other,
                fast,
                plan,
                planner,
                rule,
                platform,
                h as usize,
            );
        }
    }
    let own = |i: int| home[i] == i;
    let apart = |i: int| home[i] != i;
    lemma_ascending_congruent(n, own, |i: int| other_home[i] == i);
    lemma_ascending_congruent(n, apart, |i: int| other_home[i] != i);
    lemma_ascending_congruent(
        n,
        |h: int| has_duplicate(home, h),
        |h: int| has_duplicate(other_home, h),
    );
    lemma_ascending(n, own);
    lemma_ascending(n, apart);
    assert forall|i: usize, j: usize| i < n && j < n implies #[trigger] path_order(files)(i, j)
        == path_order(others)(i, j) by {
        assert(path_list(files)[i as int] == path_list(others)[i as int]);
        assert(path_list(files)[j as int] == path_list(others)[j as int]);
    }
    lemma_sorting_transfers(
        plan.kept@,
        kept_indices(home),
        n,
        path_order(files),
        path_order(others),
    );
    lemma_sorting_transfers(
        plan.planned_deletions@,
        doomed_indices(home),
        n,
        path_order(files),
        path_order(others),
    );
    lemma_path_order_total(others);
    law_there_is_one_sorting(plan.kept@, other_plan.kept@, kept_indices(home), path_order(others));
    law_there_is_one_sorting(
        plan.planned_deletions@,
        other_plan.planned_deletions@,
        doomed_indices(home),
        path_order(others),
    );
    law_plan_covers_all_files(files, home, plan);
    let planned = plan.planned_deletions@;
    assert forall|k: int| 0 <= k < planned.len() implies files[planned[k] as int]@
        == others[planned[k] as int]@ by {
        assert(planned.contains(planned[k]));
        lemma_doomed_alike(
            truth,
            fast,
            plan,
            planner,
            other_fast,
            other_plan,
            other,
            rule,
            platform,
            planned[k],
        );
    }
    assert(records(picked(files, planned)) =~= records(picked(others, planned)));
}

/// Neither the fast prefilter nor an interruption changes the plan: two runs that scan the same
/// candidates by one keep rule, and are told the truth, come to the same plan, whether they use
/// the prefilter or not, and whether they scan anew or take up the checkpoints of a scan. The
/// same paths are known, kept and planned for deletion, and there are as many sets of
/// duplicates.
pub proof fn law_prefilter_and_interruption_change_no_plan(
    truth: Truth,
    first: Run,
    history: Seq<Moment>,
    n: int,
    second: Run,
    later: Seq<Moment>,
    m: int,
)
    requires
        truth.listing is Some,
        is_sound(truth),
        is_history(first, history),
        is_history(second, later),
        is_truthful(truth, history),
        is_truthful(truth, later),
        first.config.keep_rule@ == second.config.keep_rule@,
        first.platform == second.platform,
        0 <= n <= history.len(),
        0 <= m <= later.len(),
        run_after(first, history, n).phase is Reporting,
        run_after(second, later, m).phase is Reporting,
    ensures
        run_after(first, history, n).phase matches Phase::Reporting { planner, plan } && (
        run_after(second, later, m).phase matches Phase::Reporting {
            planner: other,
            plan: other_plan,
        } && {
            &&& path_list(planner.files@) == path_list(other.files@)
            &&& plan.kept@ == other_plan.kept@
            &&& plan.planned_deletions@ == other_plan.planned_deletions@
            &&& records(picked(planner.files@, plan.planned_deletions@)) == records(
                picked(other.files@, other_plan.planned_deletions@),
            )
            &&& plan.duplicate_sets == other_plan.duplicate_sets
        }),
{
    lemma_truth_is_kept(truth, first, history, n);
    lemma_truth_is_kept(truth, second, later, m);
    let run = run_after(first, history, n);
    let other_run = run_after(second, later, m);
    lemma_run_knows(truth, run);
    lemma_run_knows(truth, other_run);
    let planner = run.phase->Reporting_planner;
    let other = other_run.phase->Reporting_planner;
    let listing = truth.listing->0;
    lemma_complete_lists_alike(listing, planner.files@, other.files@);
    lemma_knowing_planners_agree(
        truth,
        first.config.fast_prefilter,
        run.phase->Reporting_plan,
        planner,
        second.config.fast_prefilter,
        other_run.phase->Reporting_plan,
        other,
        first.config.keep_rule@,
        first.platform,
    );
}

} // verus!
