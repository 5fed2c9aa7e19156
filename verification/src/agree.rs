//! Plans for the same files, listed in any order.
use vstd::prelude::*;
use vstd::string::*;

use crate::history::has_distinct_paths;
use crate::model::{records, FileInfo, FileRecord, FineTimes, KeepRuleRecord, Platform};
use crate::order::{is_sorting, lemma_sorting_keeps, lemma_strictly_ascending_unique};
use crate::plan::{
    doomed_indices, duplicated_indices, found_different, found_equal, has_duplicate, is_assignment,
    is_hashed, is_plan, is_plan_order, joins, kept_indices, law_deletions_are_verified, leads,
    lemma_plan_order_holds, settled, stands_alone, DedupPlan, Planner,
};
use crate::rank::{keep_key, key_lt, lemma_text_order, path_order, plan_order};
use crate::scan::{path_list, paths_at};
use crate::select::{lemma_ascending, picked};
use crate::text::text_lt;

verus! {

/// Whether a planner, finished, has come to `plan`.
pub open spec fn is_made_by(
    plan: DedupPlan,
    planner: Planner,
    rule: KeepRuleRecord,
    platform: Platform,
) -> bool {
    &&& planner.files@.len() <= usize::MAX
    &&& planner.fine@.len() == planner.files@.len()
    &&& is_plan_order(planner.order@, planner.files@, planner.fine@, rule, platform)
    &&& is_assignment(planner.files@, planner.order@, planner.home@, planner.answers@)
    &&& is_plan(plan, planner.files@, planner.home@)
}

/// Whether the fine times that a planner goes by are those at the files' paths.
pub open spec fn goes_by(planner: Planner, times: spec_fn(Seq<char>) -> FineTimes) -> bool {
    forall|i: int|
        0 <= i < planner.files@.len() ==> #[trigger] planner.fine@[i] == times(
            planner.files@[i].file_path@,
        )
}

/// Whether the comparisons that a planner has had came out as `same` says of the two paths.
pub open spec fn compares_by(
    planner: Planner,
    same: spec_fn(Seq<char>, Seq<char>) -> bool,
) -> bool {
    forall|a: usize, b: usize| #[trigger]
        planner.answers@.dom().contains((a, b)) ==> planner.answers@[(a, b)] == same(
            planner.files@[a as int].file_path@,
            planner.files@[b as int].file_path@,
        )
}

/// Whether two lists hold the same files, in whatever order, with no path twice.
pub open spec fn is_rearranged(files: Seq<FileInfo>, others: Seq<FileInfo>) -> bool {
    &&& has_distinct_paths(files)
    &&& records(files).to_multiset() == records(others).to_multiset()
}

/// Whether a file is one of the list.
spec fn is_listed(file: FileRecord, files: Seq<FileInfo>) -> bool {
    exists|i: int| 0 <= i < files.len() && (#[trigger] files[i])@ == file
}

/// Where a file is in the list.
spec fn index_in(file: FileRecord, files: Seq<FileInfo>) -> int {
    choose|i: int| 0 <= i < files.len() && (#[trigger] files[i])@ == file
}

/// In a list with distinct paths a path belongs to one file.
proof fn lemma_path_is_unique(files: Seq<FileInfo>, i: int, j: int)
    requires
        has_distinct_paths(files),
        0 <= i < files.len(),
        0 <= j < files.len(),
        files[i].file_path@ == files[j].file_path@,
    ensures
        i == j,
{
    assert(path_list(files)[i] == path_list(files)[j]);
}

/// The same files are in both lists, and the other has no path twice either.
proof fn lemma_rearranged(files: Seq<FileInfo>, others: Seq<FileInfo>)
    requires
        is_rearranged(files, others),
    ensures
        is_rearranged(others, files),
        forall|i: int| 0 <= i < files.len() ==> is_listed((#[trigger] files[i])@, others),
        forall|j: int| 0 <= j < others.len() ==> is_listed((#[trigger] others[j])@, files),
{
    broadcast use vstd::seq_lib::group_to_multiset_ensures;

    let s = records(files);
    let t = records(others);
    assert(s.len() == files.len());
    assert(t.len() == others.len());
    assert forall|i: int| 0 <= i < files.len() implies is_listed(
        (#[trigger] files[i])@,
        others,
    ) by {
        assert(s[i] == files[i]@);
        assert(s.contains(files[i]@));
        assert(t.to_multiset().count(files[i]@) > 0);
        let j = choose|j: int| 0 <= j < t.len() && t[j] == files[i]@;
        assert(others[j]@ == files[i]@);
    }
    assert forall|j: int| 0 <= j < others.len() implies is_listed(
        (#[trigger] others[j])@,
        files,
    ) by {
        assert(t[j] == others[j]@);
        assert(t.contains(others[j]@));
        assert(s.to_multiset().count(others[j]@) > 0);
        let i = choose|i: int| 0 <= i < s.len() && s[i] == others[j]@;
        assert(files[i]@ == others[j]@);
    }
    assert forall|i: int, j: int| 0 <= i < s.len() && 0 <= j < s.len() && i != j implies s[i]
        != s[j] by {
        if s[i] == s[j] {
            lemma_path_is_unique(files, i, j);
        }
    }
    s.lemma_multiset_has_no_duplicates();
    t.lemma_multiset_has_no_duplicates_conv();
    let paths = path_list(others);
    assert forall|i: int, j: int| 0 <= i < paths.len() && 0 <= j < paths.len() && i != j implies
    paths[i] != paths[j] by {
        if paths[i] == paths[j] {
            assert(t[i] != t[j]);
            assert(is_listed(others[i]@, files) && is_listed(others[j]@, files));
            let x = index_in(others[i]@, files);
            let y = index_in(others[j]@, files);
            lemma_path_is_unique(files, x, y);
        }
    }
}

/// Whether the keep rule takes one file before another: by size and hash, then by what the
/// rule goes by, then by path.
spec fn is_taken_before(
    x: FileRecord,
    y: FileRecord,
    times: spec_fn(Seq<char>) -> FineTimes,
    rule: KeepRuleRecord,
    platform: Platform,
) -> bool {
    let a = keep_key(x, times(x.file_path), rule, platform);
    let b = keep_key(y, times(y.file_path), rule, platform);
    x.file_size < y.file_size || (x.file_size == y.file_size && (text_lt(x.xxhash, y.xxhash) || (
    x.xxhash == y.xxhash && (key_lt(a, b) || (a == b && text_lt(x.file_path, y.file_path))))))
}

/// The files in the order in which a planner takes them.
spec fn taken(planner: Planner) -> Seq<FileRecord> {
    records(picked(planner.files@, planner.order@))
}

proof fn lemma_taken_ascends(
    plan: DedupPlan,
    planner: Planner,
    rule: KeepRuleRecord,
    platform: Platform,
    times: spec_fn(Seq<char>) -> FineTimes,
)
    requires
        is_made_by(plan, planner, rule, platform),
        has_distinct_paths(planner.files@),
        goes_by(planner, times),
    ensures
        taken(planner).len() == planner.order@.len(),
        forall|p: int, q: int|
            0 <= p < q < taken(planner).len() ==> is_taken_before(
                #[trigger] taken(planner)[p],
                #[trigger] taken(planner)[q],
                times,
                rule,
                platform,
            ),
{
    let files = planner.files@;
    let order = planner.order@;
    lemma_plan_order_holds(order, files, planner.fine@, rule, platform);
    let s = taken(planner);
    assert forall|p: int, q: int| 0 <= p < q < s.len() implies is_taken_before(
        #[trigger] s[p],
        #[trigger] s[q],
        times,
        rule,
        platform,
    ) by {
        let i = order[p];
        let j = order[q];
        assert(i != j);
        assert(s[p] == files[i as int]@ && s[q] == files[j as int]@);
        assert(plan_order(files, planner.fine@, rule, platform)(i, j));
        assert(i < files.len() && j < files.len());
        assert(planner.fine@[i as int] == times(files[i as int].file_path@));
        assert(planner.fine@[j as int] == times(files[j as int].file_path@));
        if files[i as int].file_path@ == files[j as int].file_path@ {
            lemma_path_is_unique(files, i as int, j as int);
        }
    }
}

proof fn lemma_taken_contained(
    plan: DedupPlan,
    planner: Planner,
    other_plan: DedupPlan,
    other: Planner,
    rule: KeepRuleRecord,
    platform: Platform,
    x: FileRecord,
)
    requires
        is_made_by(plan, planner, rule, platform),
        is_made_by(other_plan, other, rule, platform),
        is_rearranged(planner.files@, other.files@),
        taken(planner).contains(x),
    ensures
        taken(other).contains(x),
{
    lemma_rearranged(planner.files@, other.files@);
    lemma_plan_order_holds(planner.order@, planner.files@, planner.fine@, rule, platform);
    lemma_plan_order_holds(other.order@, other.files@, other.fine@, rule, platform);
    let p = choose|p: int| 0 <= p < taken(planner).len() && taken(planner)[p] == x;
    let i = planner.order@[p] as int;
    assert(planner.files@[i]@ == x);
    assert(is_hashed(planner.files@[i]));
    assert(is_listed(x, other.files@));
    let j = index_in(x, other.files@);
    assert(is_hashed(other.files@[j]));
    assert(other.order@.contains(j as usize));
    let q = choose|q: int| 0 <= q < other.order@.len() && other.order@[q] == j as usize;
    assert(taken(other)[q] == x);
}

/// Both planners take the files in one order.
proof fn lemma_taken_alike(
    plan: DedupPlan,
    planner: Planner,
    other_plan: DedupPlan,
    other: Planner,
    rule: KeepRuleRecord,
    platform: Platform,
    times: spec_fn(Seq<char>) -> FineTimes,
)
    requires
        is_made_by(plan, planner, rule, platform),
        is_made_by(other_plan, other, rule, platform),
        is_rearranged(planner.files@, other.files@),
        goes_by(planner, times),
        goes_by(other, times),
    ensures
        planner.order@.len() == other.order@.len(),
        forall|q: int|
            #![trigger planner.order@[q]]
            #![trigger other.order@[q]]
            0 <= q < planner.order@.len() ==> planner.files@[planner.order@[q] as int]@
                == other.files@[other.order@[q] as int]@,
{
    lemma_rearranged(planner.files@, other.files@);
    lemma_taken_ascends(plan, planner, rule, platform, times);
    lemma_taken_ascends(other_plan, other, rule, platform, times);
    let s = taken(planner);
    let t = taken(other);
    let lt = |x: FileRecord, y: FileRecord| is_taken_before(x, y, times, rule, platform);
    assert forall|x: FileRecord, y: FileRecord| #[trigger] lt(x, y) implies !lt(y, x) by {
        lemma_text_order(x.xxhash, y.xxhash);
        lemma_text_order(y.xxhash, x.xxhash);
        lemma_text_order(x.file_path, y.file_path);
        lemma_text_order(y.file_path, x.file_path);
    }
    assert forall|x: FileRecord| #[trigger] s.contains(x) <==> t.contains(x) by {
        if s.contains(x) {
            lemma_taken_contained(plan, planner, other_plan, other, rule, platform, x);
        }
        if t.contains(x) {
            lemma_taken_contained(other_plan, other, plan, planner, rule, platform, x);
        }
    }
    lemma_strictly_ascending_unique(s, t, lt);
    assert forall|q: int|
        #![trigger planner.order@[q]]
        #![trigger other.order@[q]]
        0 <= q < planner.order@.len() implies planner.files@[planner.order@[q] as int]@
        == other.files@[other.order@[q] as int]@ by {
        assert(s[q] == t[q]);
    }
}

/// Whether the file that a planner takes at position `q` has that at position `r` for its
/// home.
spec fn is_home(planner: Planner, q: int, r: int) -> bool {
    planner.home@[planner.order@[q] as int] == planner.order@[r]
}

/// By position, both planners give the files the same homes.
proof fn lemma_homes_by_position(
    planner: Planner,
    other: Planner,
    same: spec_fn(Seq<char>, Seq<char>) -> bool,
    q: int,
)
    requires
        planner.order@.no_duplicates(),
        other.order@.no_duplicates(),
        planner.order@.len() == other.order@.len(),
        forall|q: int|
            #![trigger planner.order@[q]]
            #![trigger other.order@[q]]
            0 <= q < planner.order@.len() ==> planner.files@[planner.order@[q] as int]@
                == other.files@[other.order@[q] as int]@,
        is_assignment(planner.files@, planner.order@, planner.home@, planner.answers@),
        is_assignment(other.files@, other.order@, other.home@, other.answers@),
        compares_by(planner, same),
        compares_by(other, same),
        0 <= q < planner.order@.len(),
    ensures
        forall|p: int, r: int|
            0 <= p <= q && 0 <= r < planner.order@.len() ==> (#[trigger] is_home(planner, p, r)
                <==> is_home(other, p, r)),
    decreases q,
{
    if q > 0 {
        lemma_homes_by_position(planner, other, same, q - 1);
    }
    let files = planner.files@;
    let others = other.files@;
    let order = planner.order@;
    let other_order = other.order@;
    let home = planner.home@;
    let other_home = other.home@;
    let answers = planner.answers@;
    let other_answers = other.answers@;
    assert forall|r: int| #![trigger order[r]] 0 <= r < q implies leads(files, order, home, r, q)
        == leads(others, other_order, other_home, r, q) by {
        assert(is_home(planner, r, r) <==> is_home(other, r, r));
        assert(files[order[r] as int]@ == others[other_order[r] as int]@);
        assert(files[order[q] as int]@ == others[other_order[q] as int]@);
    }
    assert forall|r: int| #![trigger order[r]] 0 <= r < q implies !(found_equal(
        answers,
        order[q],
        order[r],
    ) && found_different(other_answers, other_order[q], other_order[r])) && !(found_different(
        answers,
        order[q],
        order[r],
    ) && found_equal(other_answers, other_order[q], other_order[r])) by {
        assert(files[order[r] as int]@ == others[other_order[r] as int]@);
        assert(files[order[q] as int]@ == others[other_order[q] as int]@);
        assert(answers.dom().contains((order[q], order[r])) ==> answers[(order[q], order[r])]
            == same(files[order[q] as int].file_path@, files[order[r] as int].file_path@));
        assert(other_answers.dom().contains((other_order[q], other_order[r]))
            ==> other_answers[(other_order[q], other_order[r])] == same(
            others[other_order[q] as int].file_path@,
            others[other_order[r] as int].file_path@,
        ));
    }
    assert(order[q] == order[q] && other_order[q] == other_order[q]);
    assert(settled(files, order, home, answers, q));
    assert(settled(others, other_order, other_home, other_answers, q));
    if stands_alone(files, order, home, answers, q) {
        if !stands_alone(others, other_order, other_home, other_answers, q) {
            let r = choose|r: int| joins(others, other_order, other_home, other_answers, q, r);
            assert(leads(files, order, home, r, q));
            assert(found_different(answers, order[q], order[r]));
            assert(false);
        }
    } else {
        let r = choose|r: int| joins(files, order, home, answers, q, r);
        assert(order[r] == order[r]);
        assert(leads(others, other_order, other_home, r, q));
        if stands_alone(others, other_order, other_home, other_answers, q) {
            assert(found_different(other_answers, other_order[q], other_order[r]));
            assert(false);
        } else {
            let s = choose|s: int| joins(others, other_order, other_home, other_answers, q, s);
            assert(order[s] == order[s]);
            assert(leads(files, order, home, s, q));
            if r < s {
                assert(found_different(other_answers, other_order[q], other_order[r]));
                assert(false);
            }
            if s < r {
                assert(found_different(answers, order[q], order[s]));
                assert(false);
            }
        }
    }
}

/// Whether two plans are made by one rule for the same files, with the same times and the same
/// outcomes of comparisons.
spec fn are_for_the_same(
    plan: DedupPlan,
    planner: Planner,
    other_plan: DedupPlan,
    other: Planner,
    rule: KeepRuleRecord,
    platform: Platform,
    times: spec_fn(Seq<char>) -> FineTimes,
    same: spec_fn(Seq<char>, Seq<char>) -> bool,
) -> bool {
    &&& is_made_by(plan, planner, rule, platform)
    &&& is_made_by(other_plan, other, rule, platform)
    &&& is_rearranged(planner.files@, other.files@)
    &&& is_rearranged(other.files@, planner.files@)
    &&& goes_by(planner, times)
    &&& goes_by(other, times)
    &&& compares_by(planner, same)
    &&& compares_by(other, same)
}

/// A file that another is a duplicate of is hashed, as that one is.
proof fn lemma_duplicate_is_hashed(
    plan: DedupPlan,
    planner: Planner,
    rule: KeepRuleRecord,
    platform: Platform,
    i: int,
)
    requires
        is_made_by(plan, planner, rule, platform),
        0 <= i < planner.files@.len(),
        planner.home@[i] != i,
    ensures
        is_hashed(planner.files@[i]),
        planner.home@[i] < planner.files@.len(),
        is_hashed(planner.files@[planner.home@[i] as int]),
{
    law_deletions_are_verified(
        planner.files@,
        planner.fine@,
        rule,
        platform,
        planner.order@,
        planner.home@,
        planner.answers@,
        i as usize,
    );
}

/// A file is kept by one plan where it is kept by the other, and has duplicates in one where it
/// has some in the other.
proof fn lemma_fates_alike(
    plan: DedupPlan,
    planner: Planner,
    other_plan: DedupPlan,
    other: Planner,
    rule: KeepRuleRecord,
    platform: Platform,
    times: spec_fn(Seq<char>) -> FineTimes,
    same: spec_fn(Seq<char>, Seq<char>) -> bool,
    i: int,
    j: int,
)
    requires
        are_for_the_same(plan, planner, other_plan, other, rule, platform, times, same),
        0 <= i < planner.files@.len(),
        0 <= j < other.files@.len(),
        planner.files@[i]@ == other.files@[j]@,
    ensures
        planner.home@[i] == i <==> other.home@[j] == j,
        has_duplicate(planner.home@, i) ==> has_duplicate(other.home@, j),
{
    let files = planner.files@;
    let others = other.files@;
    let order = planner.order@;
    let other_order = other.order@;
    lemma_plan_order_holds(order, files, planner.fine@, rule, platform);
    lemma_plan_order_holds(other_order, others, other.fine@, rule, platform);
    lemma_taken_alike(plan, planner, other_plan, other, rule, platform, times);
    if is_hashed(files[i]) {
        assert(order.contains(i as usize));
        let q = choose|q: int| 0 <= q < order.len() && order[q] == i as usize;
        lemma_homes_by_position(planner, other, same, order.len() - 1);
        assert(others[other_order[q] as int]@ == others[j]@);
        assert(other_order[q] < others.len());
        lemma_path_is_unique(others, other_order[q] as int, j);
        assert(is_home(planner, q, q) <==> is_home(other, q, q));
        if has_duplicate(planner.home@, i) {
            let x = choose|x: int|
                0 <= x < planner.home@.len() && x != i && #[trigger] planner.home@[x] == i;
            lemma_duplicate_is_hashed(plan, planner, rule, platform, x);
            assert(order.contains(x as usize));
            let p = choose|p: int| 0 <= p < order.len() && order[p] == x as usize;
            assert(is_home(planner, p, q));
            assert(is_home(other, p, q));
            assert(other_order[p] != other_order[q]);
            assert(other_order[p] < others.len());
            assert(other.home@[other_order[p] as int] == j);
        }
    } else {
        assert(!is_hashed(others[j]));
        assert(planner.home@[i] == i && other.home@[j] == j);
        if has_duplicate(planner.home@, i) {
            let x = choose|x: int|
                0 <= x < planner.home@.len() && x != i && #[trigger] planner.home@[x] == i;
            lemma_duplicate_is_hashed(plan, planner, rule, platform, x);
        }
    }
}

/// The order of records by path.
spec fn by_path() -> spec_fn(FileRecord, FileRecord) -> bool {
    |x: FileRecord, y: FileRecord| text_lt(x.file_path, y.file_path)
}

/// A selection of files, sorted by path, is in the strict order of paths.
proof fn lemma_selection_ascends(files: Seq<FileInfo>, out: Seq<usize>, items: Seq<usize>)
    requires
        has_distinct_paths(files),
        items.no_duplicates(),
        forall|k: int| 0 <= k < items.len() ==> #[trigger] items[k] < files.len(),
        is_sorting(out, items, path_order(files)),
    ensures
        records(picked(files, out)).len() == out.len(),
        forall|k: int| 0 <= k < out.len() ==> #[trigger] out[k] < files.len(),
        forall|p: int, q: int|
            0 <= p < q < out.len() ==> by_path()(
                #[trigger] records(picked(files, out))[p],
                #[trigger] records(picked(files, out))[q],
            ),
{
    lemma_sorting_keeps(out, items, path_order(files));
    assert forall|k: int| 0 <= k < out.len() implies #[trigger] out[k] < files.len() by {
        assert(out.contains(out[k]));
        assert(items.contains(out[k]));
    }
    let s = records(picked(files, out));
    assert forall|p: int, q: int| 0 <= p < q < out.len() implies by_path()(
        #[trigger] s[p],
        #[trigger] s[q],
    ) by {
        assert(path_order(files)(out[p], out[q]));
        assert(out[p] != out[q]);
        assert(out[p] < files.len() && out[q] < files.len());
        if files[out[p] as int].file_path@ == files[out[q] as int].file_path@ {
            lemma_path_is_unique(files, out[p] as int, out[q] as int);
        }
    }
}

/// Selections of the same files, sorted by path, are one list.
proof fn lemma_selections_alike(
    files: Seq<FileInfo>,
    others: Seq<FileInfo>,
    out: Seq<usize>,
    items: Seq<usize>,
    other_out: Seq<usize>,
    other_items: Seq<usize>,
)
    requires
        has_distinct_paths(files),
        has_distinct_paths(others),
        items.no_duplicates(),
        other_items.no_duplicates(),
        forall|k: int| 0 <= k < items.len() ==> #[trigger] items[k] < files.len(),
        forall|k: int| 0 <= k < other_items.len() ==> #[trigger] other_items[k] < others.len(),
        is_sorting(out, items, path_order(files)),
        is_sorting(other_out, other_items, path_order(others)),
        forall|i: usize, j: usize|
            #![trigger items.contains(i), other_items.contains(j)]
            i < files.len() && j < others.len() && files[i as int]@ == others[j as int]@ ==> (
            items.contains(i) <==> other_items.contains(j)),
        forall|i: int| 0 <= i < files.len() ==> is_listed((#[trigger] files[i])@, others),
        forall|j: int| 0 <= j < others.len() ==> is_listed((#[trigger] others[j])@, files),
        files.len() <= usize::MAX,
        others.len() <= usize::MAX,
    ensures
        records(picked(files, out)) == records(picked(others, other_out)),
{
    lemma_selection_ascends(files, out, items);
    lemma_selection_ascends(others, other_out, other_items);
    lemma_sorting_keeps(out, items, path_order(files));
    lemma_sorting_keeps(other_out, other_items, path_order(others));
    let s = records(picked(files, out));
    let t = records(picked(others, other_out));
    let lt = by_path();
    assert forall|x: FileRecord, y: FileRecord| #[trigger] lt(x, y) implies !lt(y, x) by {
        lemma_text_order(x.file_path, y.file_path);
    }
    assert forall|x: FileRecord| #[trigger] s.contains(x) <==> t.contains(x) by {
        if s.contains(x) {
            let p = choose|p: int| 0 <= p < s.len() && s[p] == x;
            let i = out[p];
            assert(files[i as int]@ == x);
            assert(is_listed(x, others));
            let j = index_in(x, others) as usize;
            assert(out.contains(i));
            assert(items.contains(i));
            assert(other_items.contains(j));
            assert(other_out.contains(j));
            let q = choose|q: int| 0 <= q < other_out.len() && other_out[q] == j;
            assert(t[q] == x);
        }
        if t.contains(x) {
            let q = choose|q: int| 0 <= q < t.len() && t[q] == x;
            let j = other_out[q];
            assert(others[j as int]@ == x);
            assert(is_listed(x, files));
            let i = index_in(x, files) as usize;
            assert(other_out.contains(j));
            assert(other_items.contains(j));
            assert(items.contains(i));
            assert(out.contains(i));
            let p = choose|p: int| 0 <= p < out.len() && out[p] == i;
            assert(s[p] == x);
        }
    }
    lemma_strictly_ascending_unique(s, t, lt);
}

/// The paths of the files with duplicates in one plan are those in the other.
proof fn lemma_duplicated_paths(
    plan: DedupPlan,
    planner: Planner,
    other_plan: DedupPlan,
    other: Planner,
    rule: KeepRuleRecord,
    platform: Platform,
    times: spec_fn(Seq<char>) -> FineTimes,
    same: spec_fn(Seq<char>, Seq<char>) -> bool,
    path: Seq<char>,
)
    requires
        are_for_the_same(plan, planner, other_plan, other, rule, platform, times, same),
        paths_at(planner.files@, duplicated_indices(planner.home@)).contains(path),
    ensures
        paths_at(other.files@, duplicated_indices(other.home@)).contains(path),
{
    let dup = |h: int| has_duplicate(planner.home@, h);
    let other_dup = |h: int| has_duplicate(other.home@, h);
    let d = duplicated_indices(planner.home@);
    let e = duplicated_indices(other.home@);
    lemma_ascending(planner.home@.len(), dup);
    lemma_ascending(other.home@.len(), other_dup);
    let paths = paths_at(planner.files@, d);
    let k = choose|k: int| 0 <= k < paths.len() && paths[k] == path;
    let i = d[k] as int;
    assert(dup(i));
    lemma_rearranged(planner.files@, other.files@);
    assert(is_listed(planner.files@[i]@, other.files@));
    let j = index_in(planner.files@[i]@, other.files@);
    lemma_fates_alike(
        plan,
        planner,
        other_plan,
        other,
        rule,
        platform,
        times,
        same,
        i,
        j,
    );
    assert(other_dup(j));
    assert(e.contains(j as usize));
    let m = choose|m: int| 0 <= m < e.len() && e[m] == j as usize;
    assert(paths_at(other.files@, e)[m] == path);
}

/// The paths of files with duplicates, each once.
proof fn lemma_duplicated_paths_once(
    plan: DedupPlan,
    planner: Planner,
    rule: KeepRuleRecord,
    platform: Platform,
)
    requires
        is_made_by(plan, planner, rule, platform),
        has_distinct_paths(planner.files@),
    ensures
        paths_at(planner.files@, duplicated_indices(planner.home@)).to_set().len()
            == plan.duplicate_sets,
{
    let dup = |h: int| has_duplicate(planner.home@, h);
    let d = duplicated_indices(planner.home@);
    lemma_ascending(planner.home@.len(), dup);
    let paths = paths_at(planner.files@, d);
    assert forall|i: int, j: int| 0 <= i < paths.len() && 0 <= j < paths.len() && i != j implies
    paths[i] != paths[j] by {
        assert(d[i] != d[j]);
        assert(d[i] < planner.files@.len() && d[j] < planner.files@.len());
        if paths[i] == paths[j] {
            lemma_path_is_unique(planner.files@, d[i] as int, d[j] as int);
        }
    }
    paths.unique_seq_to_set();
}

/// A plan does not depend on the order in which the files are listed: where no two of them have
/// one path, the same files, with the same times and the same outcomes of comparisons, are kept
/// and planned for deletion, and there are as many sets of duplicates.
pub proof fn law_plan_does_not_depend_on_order(
    plan: DedupPlan,
    planner: Planner,
    other_plan: DedupPlan,
    other: Planner,
    rule: KeepRuleRecord,
    platform: Platform,
    times: spec_fn(Seq<char>) -> FineTimes,
    same: spec_fn(Seq<char>, Seq<char>) -> bool,
)
    requires
        is_made_by(plan, planner, rule, platform),
        is_made_by(other_plan, other, rule, platform),
        is_rearranged(planner.files@, other.files@),
        goes_by(planner, times),
        goes_by(other, times),
        compares_by(planner, same),
        compares_by(other, same),
    ensures
        records(picked(planner.files@, plan.kept@)) == records(
            picked(other.files@, other_plan.kept@),
        ),
        records(picked(planner.files@, plan.planned_deletions@)) == records(
            picked(other.files@, other_plan.planned_deletions@),
        ),
        plan.duplicate_sets == other_plan.duplicate_sets,
{
    let files = planner.files@;
    let others = other.files@;
    lemma_rearranged(files, others);
    let kept = kept_indices(planner.home@);
    let other_kept = kept_indices(other.home@);
    let doomed = doomed_indices(planner.home@);
    let other_doomed = doomed_indices(other.home@);
    lemma_ascending(planner.home@.len(), |i: int| planner.home@[i] == i);
    lemma_ascending(planner.home@.len(), |i: int| planner.home@[i] != i);
    lemma_ascending(other.home@.len(), |i: int| other.home@[i] == i);
    lemma_ascending(other.home@.len(), |i: int| other.home@[i] != i);
    assert forall|i: usize, j: usize|
        #![trigger kept.contains(i), other_kept.contains(j)]
        i < files.len() && j < others.len() && files[i as int]@ == others[j as int]@ implies (
    kept.contains(i) <==> other_kept.contains(j)) by {
        lemma_fates_alike(
            plan,
            planner,
            other_plan,
            other,
            rule,
            platform,
            times,
            same,
            i as int,
            j as int,
        );
    }
    assert forall|i: usize, j: usize|
        #![trigger doomed.contains(i), other_doomed.contains(j)]
        i < files.len() && j < others.len() && files[i as int]@ == others[j as int]@ implies (
    doomed.contains(i) <==> other_doomed.contains(j)) by {
        lemma_fates_alike(
            plan,
            planner,
            other_plan,
            other,
            rule,
            platform,
            times,
            same,
            i as int,
            j as int,
        );
    }
    lemma_selections_alike(files, others, plan.kept@, kept, other_plan.kept@, other_kept);
    lemma_selections_alike(
        files,
        others,
        plan.planned_deletions@,
        doomed,
        other_plan.planned_deletions@,
        other_doomed,
    );
    let paths = paths_at(files, duplicated_indices(planner.home@));
    let other_paths = paths_at(others, duplicated_indices(other.home@));
    assert forall|path: Seq<char>| #[trigger] paths.to_set().contains(path)
        <==> other_paths.to_set().contains(path) by {
        if paths.contains(path) {
            lemma_duplicated_paths(
                plan,
                planner,
                other_plan,
                other,
                rule,
                platform,
                times,
                same,
                path,
            );
        }
        if other_paths.contains(path) {
            lemma_duplicated_paths(
                other_plan,
                other,
                plan,
                planner,
                rule,
                platform,
                times,
                same,
                path,
            );
        }
    }
    assert(paths.to_set() =~= other_paths.to_set());
    lemma_duplicated_paths_once(plan, planner, rule, platform);
    lemma_duplicated_paths_once(other_plan, other, rule, platform);
}

} // verus!
