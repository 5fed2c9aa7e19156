//! The orders of files: by path, and by content and keep rule.
use vstd::prelude::*;
use vstd::relations::*;
use vstd::string::*;

use crate::model::{FileInfo, FileRecord, FineTimes, KeepRule, KeepRuleRecord, Platform};
use crate::order::{
    is_sorting, law_there_is_one_sorting, lemma_sorting_keeps, order_of, sorted_indices, Ranking,
};
use crate::paths::{normalize_dir_prefix, normalize_path_string, normalized, normalized_dir};
use crate::select::{ascending, lemma_ascending, lemma_ascending_all, pick, picked};
use crate::text::{
    begins_with, has_prefix, lemma_text_lt_irreflexive, lemma_text_lt_total,
    lemma_text_lt_transitive, lowercase_text, text_less, text_lt, with_replaced,
};

verus! {

// ---------------------------------------------------------------------------
// By path
// ---------------------------------------------------------------------------

/// Order by path; files with one path stay as they are.
pub open spec fn path_leq(files: Seq<FileInfo>, i: usize, j: usize) -> bool {
    let a = files[i as int].file_path@;
    let b = files[j as int].file_path@;
    text_lt(a, b) || (a == b && i <= j)
}

/// The order of files by path.
pub open spec fn path_order(files: Seq<FileInfo>) -> spec_fn(usize, usize) -> bool {
    |i: usize, j: usize| path_leq(files, i, j)
}

/// The order by path is total.
pub proof fn lemma_path_order_total(files: Seq<FileInfo>)
    ensures
        total_ordering(path_order(files)),
{
    let leq = path_order(files);
    assert forall|x: usize, y: usize| #[trigger] leq(x, y) && #[trigger] leq(y, x) implies x
        == y by {
        lemma_text_order(files[x as int].file_path@, files[y as int].file_path@);
    }
    assert forall|x: usize, y: usize, z: usize| #[trigger] leq(x, y) && #[trigger] leq(
        y,
        z,
    ) implies leq(x, z) by {
        lemma_text_chain(
            files[x as int].file_path@,
            files[y as int].file_path@,
            files[z as int].file_path@,
        );
    }
    assert forall|x: usize, y: usize| #[trigger] leq(x, y) || #[trigger] leq(y, x) by {
        lemma_text_order(files[x as int].file_path@, files[y as int].file_path@);
    }
}

/// Exactly one of two texts comes first, or they are equal.
pub proof fn lemma_text_order(a: Seq<char>, b: Seq<char>)
    ensures
        text_lt(a, b) ==> a != b && !text_lt(b, a),
        a == b || text_lt(a, b) || text_lt(b, a),
{
    lemma_text_lt_total(a, b);
    lemma_text_lt_irreflexive(a);
    if text_lt(a, b) && text_lt(b, a) {
        lemma_text_lt_transitive(a, b, a);
    }
}

proof fn lemma_text_chain(a: Seq<char>, b: Seq<char>, c: Seq<char>)
    ensures
        text_lt(a, b) && text_lt(b, c) ==> text_lt(a, c),
{
    if text_lt(a, b) && text_lt(b, c) {
        lemma_text_lt_transitive(a, b, c);
    }
}

/// Ranks files by path.
pub struct PathRank<'a> {
    pub files: &'a Vec<FileInfo>,
}

impl<'a> Ranking for PathRank<'a> {
    open spec fn extent(&self) -> nat {
        self.files@.len()
    }

    open spec fn leq(&self, i: usize, j: usize) -> bool {
        path_leq(self.files@, i, j)
    }

    proof fn lemma_total(&self) {
        lemma_path_order_total(self.files@);
        assert(path_order(self.files@) =~= |i: usize, j: usize| self.leq(i, j));
    }

    fn in_order(&self, i: usize, j: usize) -> (r: bool) {
        let a = &self.files[i].file_path;
        let b = &self.files[j].file_path;
        if *a == *b {
            proof {
                lemma_text_lt_irreflexive(a@);
            }
            i <= j
        } else {
            text_less(a.as_str(), b.as_str())
        }
    }
}

/// Sorts a list of indices of files by path.
pub fn sort_by_path(files: &Vec<FileInfo>, indices: &Vec<usize>) -> (out: Vec<usize>)
    requires
        forall|k: int| 0 <= k < indices@.len() ==> #[trigger] indices@[k] < files@.len(),
    ensures
        is_sorting(out@, indices@, path_order(files@)),
{
    let rank = PathRank { files };
    let out = sorted_indices(indices, &rank);
    proof {
        assert(order_of(rank) =~= path_order(files@));
    }
    out
}

/// Whether `out` is `files` sorted by path, files with one path staying in their order.
pub open spec fn is_path_sorted(out: Seq<FileInfo>, files: Seq<FileInfo>) -> bool {
    exists|order: Seq<usize>|
        is_sorting(order, ascending(files.len(), |i: int| true), path_order(files)) && out
            == #[trigger] picked(files, order)
}

/// `files` sorted by path, files with one path staying in their order.
pub fn path_sorted(files: &Vec<FileInfo>) -> (out: Vec<FileInfo>)
    ensures
        is_path_sorted(out@, files@),
        out@.len() == files@.len(),
{
    let mut all: Vec<usize> = Vec::new();
    let mut i: usize = 0;
    let ghost every = |i: int| true;
    while i < files.len()
        invariant
            i <= files@.len(),
            every == (|i: int| true),
            all@ == ascending(i as nat, every),
        decreases files@.len() - i,
    {
        all.push(i);
        i = i + 1;
    }
    proof {
        lemma_ascending(files@.len(), every);
        lemma_ascending_all(files@.len(), every);
    }
    let order = sort_by_path(files, &all);
    proof {
        lemma_sorting_keeps(order@, all@, path_order(files@));
        assert forall|k: int| 0 <= k < order@.len() implies #[trigger] order@[k] < files@.len() by {
            assert(order@.contains(order@[k]));
            assert(all@.contains(order@[k]));
        }
    }
    pick(files, &order)
}

/// There is only one sorting by path.
pub proof fn law_sorting_by_path_is_unique(a: Seq<FileInfo>, b: Seq<FileInfo>, files: Seq<FileInfo>)
    requires
        is_path_sorted(a, files),
        is_path_sorted(b, files),
    ensures
        a == b,
{
    let all = ascending(files.len(), |i: int| true);
    let p = choose|p: Seq<usize>|
        is_sorting(p, all, path_order(files)) && a == #[trigger] picked(files, p);
    let q = choose|q: Seq<usize>|
        is_sorting(q, all, path_order(files)) && b == #[trigger] picked(files, q);
    lemma_path_order_total(files);
    law_there_is_one_sorting(p, q, all, path_order(files));
}

/// Whether a list is in the order of paths.
pub open spec fn is_by_path(files: Seq<FileInfo>) -> bool {
    forall|i: int, j: int|
        #![trigger files[i], files[j]]
        0 <= i < j < files.len() ==> text_lt(files[i].file_path@, files[j].file_path@)
            || files[i].file_path@ == files[j].file_path@
}

/// A sorting by path has as many files.
pub proof fn lemma_path_sorted_length(sorted: Seq<FileInfo>, files: Seq<FileInfo>)
    requires
        is_path_sorted(sorted, files),
    ensures
        sorted.len() == files.len(),
{
    let every = |i: int| true;
    let all = ascending(files.len(), every);
    lemma_ascending_all(files.len(), every);
    let order = choose|order: Seq<usize>|
        is_sorting(order, all, path_order(files)) && sorted == #[trigger] picked(files, order);
    lemma_sorting_keeps(order, all, path_order(files));
}

/// A sorting by path takes each file once, in the order of paths.
pub proof fn lemma_path_sorted(sorted: Seq<FileInfo>, files: Seq<FileInfo>) -> (order: Seq<usize>)
    requires
        files.len() <= usize::MAX,
        is_path_sorted(sorted, files),
    ensures
        sorted.len() == files.len(),
        sorted == picked(files, order),
        order.len() == files.len(),
        order.no_duplicates(),
        forall|k: int| 0 <= k < order.len() ==> #[trigger] order[k] < files.len(),
        forall|i: usize| i < files.len() ==> #[trigger] order.contains(i),
        is_by_path(sorted),
{
    let every = |i: int| true;
    let all = ascending(files.len(), every);
    lemma_ascending_all(files.len(), every);
    lemma_ascending(files.len(), every);
    let order = choose|order: Seq<usize>|
        is_sorting(order, all, path_order(files)) && sorted == #[trigger] picked(files, order);
    lemma_sorting_keeps(order, all, path_order(files));
    assert forall|k: int| 0 <= k < order.len() implies #[trigger] order[k] < files.len() by {
        assert(order.contains(order[k]));
        assert(all.contains(order[k]));
    }
    assert forall|i: usize| i < files.len() implies #[trigger] order.contains(i) by {
        assert(every(i as int));
        assert(all.contains(i));
    }
    assert forall|i: int, j: int|
        #![trigger sorted[i], sorted[j]]
        0 <= i < j < sorted.len() implies text_lt(sorted[i].file_path@, sorted[j].file_path@)
        || sorted[i].file_path@ == sorted[j].file_path@ by {
        assert(path_order(files)(order[i], order[j]));
    }
    order
}

/// A list in the order of paths is its own sorting.
pub proof fn lemma_by_path_stays(files: Seq<FileInfo>, sorted: Seq<FileInfo>)
    requires
        files.len() <= usize::MAX,
        is_by_path(files),
        is_path_sorted(sorted, files),
    ensures
        sorted == files,
{
    let every = |i: int| true;
    let all = ascending(files.len(), every);
    lemma_ascending_all(files.len(), every);
    let order = choose|order: Seq<usize>|
        is_sorting(order, all, path_order(files)) && sorted == #[trigger] picked(files, order);
    assert forall|i: int, j: int| 0 <= i < j < all.len() implies #[trigger] path_order(files)(
        all[i],
        all[j],
    ) by {
        assert(text_lt(files[i].file_path@, files[j].file_path@) || files[i].file_path@
            == files[j].file_path@);
    }
    assert(is_sorting(all, all, path_order(files)));
    lemma_path_order_total(files);
    law_there_is_one_sorting(all, order, all, path_order(files));
    assert(sorted =~= files);
}

/// Sorting by path again changes nothing.
pub proof fn law_sorting_by_path_is_idempotent(
    once: Seq<FileInfo>,
    twice: Seq<FileInfo>,
    files: Seq<FileInfo>,
)
    requires
        files.len() <= usize::MAX,
        is_path_sorted(once, files),
        is_path_sorted(twice, once),
    ensures
        twice == once,
{
    lemma_path_sorted(once, files);
    lemma_by_path_stays(once, twice);
}

// ---------------------------------------------------------------------------
// By content and keep rule
// ---------------------------------------------------------------------------

/// Whether a path lies below the preferred folder.
pub open spec fn is_preferred(path: Seq<char>, folder: Seq<char>, platform: Platform) -> bool {
    begins_with(normalized(path, platform), normalized_dir(folder, platform))
}

/// What a keep rule goes by before it looks at the path: files below the preferred
/// folder first, then the oldest creation, or the newest modification, first.
pub open spec fn keep_key(
    file: FileRecord,
    fine: FineTimes,
    rule: KeepRuleRecord,
    platform: Platform,
) -> (int, int, int) {
    match rule {
        KeepRuleRecord::OldestCreated => (0, file.created_time as int, fine.created as int),
        KeepRuleRecord::NewestModified => (
            0,
            -(file.modified_time as int),
            -(fine.modified as int),
        ),
        KeepRuleRecord::PreferPath(folder) => (
            if is_preferred(file.file_path, folder, platform) {
                0
            } else {
                1
            },
            file.created_time as int,
            fine.created as int,
        ),
    }
}

/// Whether one key comes before another.
pub open spec fn key_lt(a: (int, int, int), b: (int, int, int)) -> bool {
    a.0 < b.0 || (a.0 == b.0 && (a.1 < b.1 || (a.1 == b.1 && a.2 < b.2)))
}

/// Whether the keep rule would rather keep file `i` than file `j`, or they are one.
pub open spec fn keep_leq(
    files: Seq<FileInfo>,
    fine: Seq<FineTimes>,
    rule: KeepRuleRecord,
    platform: Platform,
    i: usize,
    j: usize,
) -> bool {
    let a = keep_key(files[i as int]@, fine[i as int], rule, platform);
    let b = keep_key(files[j as int]@, fine[j as int], rule, platform);
    key_lt(a, b) || (a == b && path_leq(files, i, j))
}

/// Whether two files have one size and one hash.
pub open spec fn same_content_key(a: FileInfo, b: FileInfo) -> bool {
    a.file_size == b.file_size && a.xxhash@ == b.xxhash@
}

/// Whether a file's size and hash come before another's.
pub open spec fn content_key_lt(a: FileInfo, b: FileInfo) -> bool {
    a.file_size < b.file_size || (a.file_size == b.file_size && text_lt(a.xxhash@, b.xxhash@))
}

/// Order by size and hash, and by the keep rule among files that share both.
pub open spec fn plan_leq(
    files: Seq<FileInfo>,
    fine: Seq<FineTimes>,
    rule: KeepRuleRecord,
    platform: Platform,
    i: usize,
    j: usize,
) -> bool {
    let a = files[i as int];
    let b = files[j as int];
    content_key_lt(a, b) || (same_content_key(a, b) && keep_leq(files, fine, rule, platform, i, j))
}

/// The order by size, hash and keep rule.
pub open spec fn plan_order(
    files: Seq<FileInfo>,
    fine: Seq<FineTimes>,
    rule: KeepRuleRecord,
    platform: Platform,
) -> spec_fn(usize, usize) -> bool {
    |i: usize, j: usize| plan_leq(files, fine, rule, platform, i, j)
}

/// Sizes and hashes are totally ordered.
pub proof fn lemma_content_key_order(a: FileInfo, b: FileInfo)
    ensures
        content_key_lt(a, b) ==> !same_content_key(a, b) && !content_key_lt(b, a),
        same_content_key(a, b) || content_key_lt(a, b) || content_key_lt(b, a),
{
    lemma_text_order(a.xxhash@, b.xxhash@);
    lemma_text_order(b.xxhash@, a.xxhash@);
}

/// The order of sizes and hashes is transitive.
pub proof fn lemma_content_key_chain(a: FileInfo, b: FileInfo, c: FileInfo)
    ensures
        content_key_lt(a, b) && content_key_lt(b, c) ==> content_key_lt(a, c),
{
    lemma_text_chain(a.xxhash@, b.xxhash@, c.xxhash@);
}

/// The order by size, hash and keep rule is total.
pub proof fn lemma_plan_order_total(
    files: Seq<FileInfo>,
    fine: Seq<FineTimes>,
    rule: KeepRuleRecord,
    platform: Platform,
)
    ensures
        total_ordering(plan_order(files, fine, rule, platform)),
{
    let leq = plan_order(files, fine, rule, platform);
    let by_path = path_order(files);
    lemma_path_order_total(files);
    assert forall|x: usize| #[trigger] leq(x, x) by {
        assert(by_path(x, x));
    }
    assert forall|x: usize, y: usize| #[trigger] leq(x, y) && #[trigger] leq(y, x) implies x
        == y by {
        lemma_content_key_order(files[x as int], files[y as int]);
        lemma_content_key_order(files[y as int], files[x as int]);
        assert(by_path(x, y) && by_path(y, x));
    }
    assert forall|x: usize, y: usize, z: usize| #[trigger] leq(x, y) && #[trigger] leq(
        y,
        z,
    ) implies leq(x, z) by {
        lemma_content_key_chain(files[x as int], files[y as int], files[z as int]);
        assert(by_path(x, y) && by_path(y, z) ==> by_path(x, z));
    }
    assert forall|x: usize, y: usize| #[trigger] leq(x, y) || #[trigger] leq(y, x) by {
        lemma_content_key_order(files[x as int], files[y as int]);
        assert(by_path(x, y) || by_path(y, x));
    }
}

/// Ranks files by size and hash, then by a keep rule. `preferred` tells which files lie
/// below the preferred folder, where the rule has one.
pub struct PlanRank<'a> {
    pub files: &'a Vec<FileInfo>,
    pub fine: &'a Vec<FineTimes>,
    pub rule: &'a KeepRule,
    pub platform: Platform,
    pub preferred: Vec<bool>,
}

impl<'a> PlanRank<'a> {
    /// Whether `preferred` says of every file whether it is.
    pub open spec fn informed(&self) -> bool {
        &&& self.fine@.len() == self.files@.len()
        &&& self.rule@ matches KeepRuleRecord::PreferPath(folder) ==> {
            &&& self.preferred@.len() == self.files@.len()
            &&& forall|i: int|
                0 <= i < self.files@.len() ==> #[trigger] self.preferred@[i] == is_preferred(
                    self.files@[i].file_path@,
                    folder,
                    self.platform,
                )
        }
    }

    fn key(&self, i: usize) -> (r: (i64, i128, i64))
        requires
            i < self.files@.len(),
            self.informed(),
        ensures
            ({
                let key = keep_key(
                    self.files@[i as int]@,
                    self.fine@[i as int],
                    self.rule@,
                    self.platform,
                );
                r.0 == key.0 && r.1 == key.1 && r.2 == key.2
            }),
    {
        match self.rule {
            KeepRule::OldestCreated => (
                0,
                self.files[i].created_time as i128,
                self.fine[i].created as i64,
            ),
            KeepRule::NewestModified => (
                0,
                -(self.files[i].modified_time as i128),
                -(self.fine[i].modified as i64),
            ),
            KeepRule::PreferPath(_) => (
                if self.preferred[i] {
                    0
                } else {
                    1
                },
                self.files[i].created_time as i128,
                self.fine[i].created as i64,
            ),
        }
    }
}

impl<'a> Ranking for PlanRank<'a> {
    open spec fn extent(&self) -> nat {
        if self.informed() {
            self.files@.len()
        } else {
            0
        }
    }

    open spec fn leq(&self, i: usize, j: usize) -> bool {
        plan_leq(self.files@, self.fine@, self.rule@, self.platform, i, j)
    }

    proof fn lemma_total(&self) {
        lemma_plan_order_total(self.files@, self.fine@, self.rule@, self.platform);
        assert(plan_order(self.files@, self.fine@, self.rule@, self.platform) =~= |i: usize, j: usize|
            self.leq(i, j));
    }

    fn in_order(&self, i: usize, j: usize) -> (r: bool) {
        let a = &self.files[i];
        let b = &self.files[j];
        if a.file_size != b.file_size {
            return a.file_size < b.file_size;
        }
        if !(a.xxhash == b.xxhash) {
            return text_less(a.xxhash.as_str(), b.xxhash.as_str());
        }
        proof {
            lemma_text_lt_irreflexive(a.xxhash@);
        }
        let x = self.key(i);
        let y = self.key(j);
        if x.0 != y.0 {
            return x.0 < y.0;
        }
        if x.1 != y.1 {
            return x.1 < y.1;
        }
        if x.2 != y.2 {
            return x.2 < y.2;
        }
        let by_path = PathRank { files: self.files };
        by_path.in_order(i, j)
    }
}

/// Which files lie below the preferred folder, where the rule has one.
fn preferred_files(files: &Vec<FileInfo>, rule: &KeepRule, platform: Platform) -> (r: Vec<bool>)
    ensures
        rule@ matches KeepRuleRecord::PreferPath(folder) ==> {
            &&& r@.len() == files@.len()
            &&& forall|i: int|
                0 <= i < files@.len() ==> #[trigger] r@[i] == is_preferred(
                    files@[i].file_path@,
                    folder,
                    platform,
                )
        },
{
    let mut r: Vec<bool> = Vec::new();
    if let KeepRule::PreferPath(folder) = rule {
        let prefix = normalize_dir_prefix(folder.as_str(), platform);
        let mut i: usize = 0;
        while i < files.len()
            invariant
                i <= files@.len(),
                r@.len() == i,
                prefix@ == normalized_dir(folder@, platform),
                forall|k: int|
                    0 <= k < i ==> #[trigger] r@[k] == is_preferred(
                        files@[k].file_path@,
                        folder@,
                        platform,
                    ),
            decreases files@.len() - i,
        {
            let path = normalize_path_string(files[i].file_path.as_str(), platform);
            r.push(has_prefix(path.as_str(), prefix.as_str()));
            i = i + 1;
        }
    }
    r
}

/// Sorts a list of indices of files by size, hash and keep rule.
pub fn sort_for_plan(
    files: &Vec<FileInfo>,
    fine: &Vec<FineTimes>,
    indices: &Vec<usize>,
    rule: &KeepRule,
    platform: Platform,
) -> (out: Vec<usize>)
    requires
        fine@.len() == files@.len(),
        forall|k: int| 0 <= k < indices@.len() ==> #[trigger] indices@[k] < files@.len(),
    ensures
        is_sorting(out@, indices@, plan_order(files@, fine@, rule@, platform)),
{
    let preferred = preferred_files(files, rule, platform);
    let rank = PlanRank { files, fine, rule, platform, preferred };
    let out = sorted_indices(indices, &rank);
    proof {
        assert(order_of(rank) =~= plan_order(files@, fine@, rule@, platform));
    }
    out
}

// ---------------------------------------------------------------------------
// The preferred folder
// ---------------------------------------------------------------------------

/// Whether a path starts with a folder and a separator, once both are in lower case and
/// their separators of one kind.
pub open spec fn starts_in(path: Seq<char>, folder: Seq<char>, platform: Platform) -> bool {
    match platform {
        Platform::Unix => {
            let text = lowercase_text(with_replaced(path, '\\', '/'));
            let value = lowercase_text(with_replaced(folder, '\\', '/'));
            let start = if value.len() > 0 && value.last() == '/' {
                value
            } else {
                value.push('/')
            };
            text.len() >= start.len() && text.take(start.len() as int) == start
        },
        Platform::Windows => {
            let text = lowercase_text(with_replaced(path, '/', '\\'));
            let value = lowercase_text(with_replaced(folder, '/', '\\'));
            let start = if value.len() > 0 && value.last() == '\\' {
                value
            } else {
                value.push('\\')
            };
            text.len() >= start.len() && text.take(start.len() as int) == start
        },
    }
}

/// A path is preferred exactly where it starts with the preferred folder and a separator.
pub proof fn law_preferred_paths_start_in_the_folder(
    path: Seq<char>,
    folder: Seq<char>,
    platform: Platform,
)
    ensures
        is_preferred(path, folder, platform) == starts_in(path, folder, platform),
{
    let text = normalized(path, platform);
    let start = normalized_dir(folder, platform);
    if text.len() >= start.len() {
        assert(text.take(start.len() as int) =~= text.subrange(0, start.len() as int));
    }
}

/// Whatever lies below the preferred folder is preferred, in however many folders below it:
/// a path that is, in lower case and with one kind of separator, the folder, a separator and
/// any text.
pub proof fn law_all_below_the_folder_is_preferred(
    path: Seq<char>,
    folder: Seq<char>,
    platform: Platform,
    rest: Seq<char>,
)
    requires
        match platform {
            Platform::Unix => {
                let value = lowercase_text(with_replaced(folder, '\\', '/'));
                lowercase_text(with_replaced(path, '\\', '/')) == if value.len() > 0
                    && value.last() == '/' {
                    value + rest
                } else {
                    value + seq!['/'] + rest
                }
            },
            Platform::Windows => {
                let value = lowercase_text(with_replaced(folder, '/', '\\'));
                lowercase_text(with_replaced(path, '/', '\\')) == if value.len() > 0
                    && value.last() == '\\' {
                    value + rest
                } else {
                    value + seq!['\\'] + rest
                }
            },
        },
    ensures
        is_preferred(path, folder, platform),
{
    let text = normalized(path, platform);
    let start = normalized_dir(folder, platform);
    assert(text.subrange(0, start.len() as int) =~= start);
}

} // verus!
