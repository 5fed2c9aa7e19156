//! The steps of a scan: which candidates are still to be looked at, in which portions,
//! and what becomes of the replies.
use vstd::hash_set::StringHashSet;
use vstd::prelude::*;
use vstd::string::*;

use crate::model::{FileInfo, FineTimes};
use crate::select::{ascending, lemma_ascending, lemma_ascending_all};
use crate::text::texts;

verus! {

// ---------------------------------------------------------------------------
// Portions
// ---------------------------------------------------------------------------

/// Where a portion of at most `interval` entries that begins at `from` ends.
pub open spec fn portion_end(from: int, interval: int, len: int) -> int {
    if from + interval < len {
        from + interval
    } else {
        len
    }
}

/// The portion of `items` that begins at `from`.
pub open spec fn portion(items: Seq<usize>, from: int, interval: int) -> Seq<usize> {
    items.subrange(from, portion_end(from, interval, items.len() as int))
}

/// The portion of `items` that begins at `from`: at most `interval` of them.
pub fn next_portion(items: &Vec<usize>, from: usize, interval: usize) -> (r: Vec<usize>)
    requires
        from <= items@.len(),
    ensures
        r@ == portion(items@, from as int, interval as int),
{
    let n: usize = items.len();
    let to: usize = if interval < n - from {
        from + interval
    } else {
        n
    };
    let mut r: Vec<usize> = Vec::new();
    let mut i: usize = from;
    while i < to
        invariant
            from <= i <= to <= items@.len(),
            r@ == items@.subrange(from as int, i as int),
        decreases to - i,
    {
        r.push(items[i]);
        i = i + 1;
        assert(r@ =~= items@.subrange(from as int, i as int));
    }
    r
}

/// Portions make progress and stay within the list.
pub proof fn lemma_portion(items: Seq<usize>, from: int, interval: int)
    requires
        0 <= from < items.len(),
        interval > 0,
    ensures
        from < portion_end(from, interval, items.len() as int) <= items.len(),
        portion(items, from, interval).len() == portion_end(from, interval, items.len() as int)
            - from,
        forall|k: int|
            0 <= k < portion(items, from, interval).len() ==> #[trigger] portion(
                items,
                from,
                interval,
            )[k] == items[from + k],
{
}

// ---------------------------------------------------------------------------
// Candidates
// ---------------------------------------------------------------------------

/// The paths of a list of files.
pub open spec fn path_list(files: Seq<FileInfo>) -> Seq<Seq<char>> {
    Seq::new(files.len(), |i: int| files[i].file_path@)
}

/// The candidates that are none of `files`.
pub open spec fn unscanned(candidates: Seq<Seq<char>>, files: Seq<FileInfo>) -> Seq<usize> {
    ascending(candidates.len(), |i: int| !path_list(files).contains(candidates[i]))
}

/// The candidates that are none of `files`, and how many paths `files` have.
pub fn remaining_candidates(candidates: &Vec<String>, files: &Vec<FileInfo>) -> (r: (
    usize,
    Vec<usize>,
))
    ensures
        r.0 == path_list(files@).to_set().len(),
        r.1@ == unscanned(texts(candidates@), files@),
{
    let mut seen: StringHashSet = StringHashSet::new();
    let ghost paths = path_list(files@);
    let mut i: usize = 0;
    proof {
        assert(paths.take(0).to_set() =~= Set::<Seq<char>>::empty());
    }
    while i < files.len()
        invariant
            i <= files@.len(),
            paths == path_list(files@),
            seen@ == paths.take(i as int).to_set(),
        decreases files@.len() - i,
    {
        seen.insert(files[i].file_path.clone());
        proof {
            let before = paths.take(i as int);
            let after = paths.take(i + 1);
            assert(after =~= before.push(paths[i as int]));
            assert forall|p: Seq<char>| #[trigger]
                after.to_set().contains(p) <==> before.to_set().insert(paths[i as int]).contains(
                    p,
                ) by {
                if after.contains(p) {
                    let k = choose|k: int| 0 <= k < after.len() && after[k] == p;
                    if k < before.len() {
                        assert(before[k] == p);
                    }
                }
                if before.contains(p) {
                    let k = choose|k: int| 0 <= k < before.len() && before[k] == p;
                    assert(after[k] == p);
                }
                assert(after[before.len() as int] == paths[i as int]);
            }
            assert(after.to_set() =~= before.to_set().insert(paths[i as int]));
        }
        i = i + 1;
    }
    proof {
        assert(paths.take(i as int) =~= paths);
    }
    let ghost all = texts(candidates@);
    let ghost want = |i: int| !paths.contains(all[i]);
    let mut rest: Vec<usize> = Vec::new();
    let mut j: usize = 0;
    while j < candidates.len()
        invariant
            j <= candidates@.len(),
            all == texts(candidates@),
            want == (|i: int| !paths.contains(all[i])),
            seen@ == paths.to_set(),
            rest@ == ascending(j as nat, want),
        decreases candidates@.len() - j,
    {
        if !seen.contains(candidates[j].as_str()) {
            rest.push(j);
        }
        j = j + 1;
    }
    (seen.len(), rest)
}

/// The files that were found: those of a list of replies that are there.
pub open spec fn found(replies: Seq<Option<FileInfo>>) -> Seq<FileInfo>
    decreases replies.len(),
{
    if replies.len() == 0 {
        Seq::empty()
    } else {
        match replies.last() {
            Some(file) => found(replies.drop_last()).push(file),
            None => found(replies.drop_last()),
        }
    }
}

/// The files that were found.
pub fn collect_found(replies: &Vec<Option<FileInfo>>) -> (r: Vec<FileInfo>)
    ensures
        r@ == found(replies@),
{
    let mut r: Vec<FileInfo> = Vec::new();
    let mut i: usize = 0;
    proof {
        assert(replies@.take(0) =~= Seq::empty());
    }
    while i < replies.len()
        invariant
            i <= replies@.len(),
            r@ == found(replies@.take(i as int)),
        decreases replies@.len() - i,
    {
        proof {
            assert(replies@.take(i + 1).drop_last() =~= replies@.take(i as int));
        }
        if let Some(file) = &replies[i] {
            r.push(file.clone());
        }
        i = i + 1;
    }
    proof {
        assert(replies@.take(i as int) =~= replies@);
    }
    r
}

// ---------------------------------------------------------------------------
// Hashes
// ---------------------------------------------------------------------------

/// A file with its hash.
pub open spec fn with_hash(file: FileInfo, hash: String) -> FileInfo {
    FileInfo { xxhash: hash, ..file }
}

/// The files after those at `targets` were given the hashes that could be taken.
pub open spec fn with_hashes(
    files: Seq<FileInfo>,
    targets: Seq<usize>,
    hashes: Seq<Option<String>>,
) -> Seq<FileInfo>
    decreases targets.len(),
{
    if targets.len() == 0 {
        files
    } else {
        let before = with_hashes(files, targets.drop_last(), hashes.drop_last());
        let i = targets.last() as int;
        match hashes.last() {
            Some(hash) => before.update(i, with_hash(before[i], hash)),
            None => before,
        }
    }
}

/// Gives the files at `targets` the hashes that could be taken.
pub fn assign_hashes(files: &mut Vec<FileInfo>, targets: &Vec<usize>, hashes: &Vec<Option<String>>)
    requires
        hashes@.len() == targets@.len(),
        forall|k: int| 0 <= k < targets@.len() ==> #[trigger] targets@[k] < old(files)@.len(),
    ensures
        final(files)@ == with_hashes(old(files)@, targets@, hashes@),
        final(files)@.len() == old(files)@.len(),
{
    let ghost before = files@;
    let mut i: usize = 0;
    while i < targets.len()
        invariant
            i <= targets@.len(),
            hashes@.len() == targets@.len(),
            files@.len() == before.len(),
            forall|k: int| 0 <= k < targets@.len() ==> #[trigger] targets@[k] < before.len(),
            files@ == with_hashes(before, targets@.take(i as int), hashes@.take(i as int)),
        decreases targets@.len() - i,
    {
        proof {
            assert(targets@.take(i + 1).drop_last() =~= targets@.take(i as int));
            assert(hashes@.take(i + 1).drop_last() =~= hashes@.take(i as int));
        }
        if let Some(hash) = &hashes[i] {
            let at: usize = targets[i];
            let file = files[at].clone();
            files.set(
                at,
                FileInfo {
                    file_path: file.file_path,
                    file_size: file.file_size,
                    xxhash: hash.clone(),
                    created_time: file.created_time,
                    modified_time: file.modified_time,
                    file_name: file.file_name,
                },
            );
        }
        i = i + 1;
    }
    proof {
        assert(targets@.take(i as int) =~= targets@);
        assert(hashes@.take(i as int) =~= hashes@);
    }
}

/// Hashing touches nothing but the hashes of the files that were to be hashed.
pub proof fn law_hashing_changes_only_hashes(
    files: Seq<FileInfo>,
    targets: Seq<usize>,
    hashes: Seq<Option<String>>,
    i: int,
)
    requires
        hashes.len() == targets.len(),
        forall|k: int| 0 <= k < targets.len() ==> #[trigger] targets[k] < files.len(),
        0 <= i < files.len(),
    ensures
        with_hashes(files, targets, hashes).len() == files.len(),
        with_hashes(files, targets, hashes)[i] == with_hash(
            files[i],
            with_hashes(files, targets, hashes)[i].xxhash,
        ),
        !targets.contains(i as usize) ==> with_hashes(files, targets, hashes)[i] == files[i],
    decreases targets.len(),
{
    if targets.len() > 0 {
        let t = targets.drop_last();
        assert forall|k: int| 0 <= k < t.len() implies #[trigger] t[k] < files.len() by {
            assert(targets[k] == t[k]);
        }
        law_hashing_changes_only_hashes(files, t, hashes.drop_last(), i);
        if t.contains(i as usize) {
            let k = choose|k: int| 0 <= k < t.len() && t[k] == i as usize;
            assert(targets[k] == i as usize);
        }
        assert(targets[targets.len() - 1] == targets.last());
    }
}

// ---------------------------------------------------------------------------
// Times
// ---------------------------------------------------------------------------

/// The fine times of a file that nothing finer is known of.
pub open spec fn whole_seconds() -> FineTimes {
    FineTimes { created: 0, modified: 0 }
}

/// The fine times of `n` files, where those of the files at `targets` were asked for.
pub open spec fn with_times(
    n: nat,
    targets: Seq<usize>,
    replies: Seq<Option<FineTimes>>,
) -> Seq<FineTimes>
    decreases targets.len(),
{
    if targets.len() == 0 {
        Seq::new(n, |i: int| whole_seconds())
    } else {
        let before = with_times(n, targets.drop_last(), replies.drop_last());
        match replies.last() {
            Some(times) => before.update(targets.last() as int, times),
            None => before,
        }
    }
}

/// The fine times of `n` files, where those of the files at `targets` were asked for.
pub fn assign_times(n: usize, targets: &Vec<usize>, replies: &Vec<Option<FineTimes>>) -> (r: Vec<
    FineTimes,
>)
    requires
        replies@.len() == targets@.len(),
        forall|k: int| 0 <= k < targets@.len() ==> #[trigger] targets@[k] < n,
    ensures
        r@ == with_times(n as nat, targets@, replies@),
        r@.len() == n,
{
    let mut r: Vec<FineTimes> = Vec::new();
    let mut i: usize = 0;
    while i < n
        invariant
            i <= n,
            r@.len() == i,
            forall|k: int| 0 <= k < i ==> #[trigger] r@[k] == whole_seconds(),
        decreases n - i,
    {
        r.push(FineTimes { created: 0, modified: 0 });
        i = i + 1;
    }
    proof {
        assert(r@ =~= with_times(n as nat, targets@.take(0), replies@.take(0)));
    }
    let mut j: usize = 0;
    while j < targets.len()
        invariant
            j <= targets@.len(),
            replies@.len() == targets@.len(),
            r@.len() == n,
            forall|k: int| 0 <= k < targets@.len() ==> #[trigger] targets@[k] < n,
            r@ == with_times(n as nat, targets@.take(j as int), replies@.take(j as int)),
        decreases targets@.len() - j,
    {
        proof {
            assert(targets@.take(j + 1).drop_last() =~= targets@.take(j as int));
            assert(replies@.take(j + 1).drop_last() =~= replies@.take(j as int));
        }
        if let Some(times) = replies[j] {
            r.set(targets[j], times);
        }
        j = j + 1;
    }
    proof {
        assert(targets@.take(j as int) =~= targets@);
        assert(replies@.take(j as int) =~= replies@);
    }
    r
}

/// The paths of the files at the given indices.
pub open spec fn paths_at(files: Seq<FileInfo>, indices: Seq<usize>) -> Seq<Seq<char>> {
    Seq::new(indices.len(), |k: int| files[indices[k] as int].file_path@)
}

/// The paths of the files at the given indices.
pub fn paths_of(files: &Vec<FileInfo>, indices: &Vec<usize>) -> (r: Vec<String>)
    requires
        forall|k: int| 0 <= k < indices@.len() ==> #[trigger] indices@[k] < files@.len(),
    ensures
        texts(r@) == paths_at(files@, indices@),
{
    let mut r: Vec<String> = Vec::new();
    let mut i: usize = 0;
    while i < indices.len()
        invariant
            i <= indices@.len(),
            forall|k: int| 0 <= k < indices@.len() ==> #[trigger] indices@[k] < files@.len(),
            r@.len() == i,
            forall|k: int|
                0 <= k < i ==> #[trigger] r@[k]@ == files@[indices@[k] as int].file_path@,
        decreases indices@.len() - i,
    {
        r.push(files[indices[i]].file_path.clone());
        i = i + 1;
    }
    assert(texts(r@) =~= paths_at(files@, indices@));
    r
}

// ---------------------------------------------------------------------------
// Laws
// ---------------------------------------------------------------------------

/// A portion is the next items, in their order: as many as a portion has, or as many as are
/// left where there are fewer.
pub proof fn law_portion_is_the_next_items(items: Seq<usize>, from: int, interval: int)
    requires
        0 <= from <= items.len(),
        0 <= interval,
    ensures
        portion(items, from, interval).len() == if interval < items.len() - from {
            interval
        } else {
            items.len() - from
        },
        forall|k: int|
            0 <= k < portion(items, from, interval).len() ==> #[trigger] portion(
                items,
                from,
                interval,
            )[k] == items[from + k],
        portion_end(from, interval, items.len() as int) == from + portion(
            items,
            from,
            interval,
        ).len(),
{
}

/// A candidate is to be looked at exactly where none of the known files has its path.
pub proof fn law_unknown_candidates_are_scanned(
    candidates: Seq<Seq<char>>,
    files: Seq<FileInfo>,
    i: usize,
)
    requires
        candidates.len() <= usize::MAX,
    ensures
        unscanned(candidates, files).contains(i) <==> i < candidates.len() && forall|k: int|
            0 <= k < files.len() ==> (#[trigger] files[k]).file_path@ != candidates[i as int],
{
    let is_new = |i: int| !path_list(files).contains(candidates[i]);
    lemma_ascending(candidates.len(), is_new);
    let paths = path_list(files);
    if i < candidates.len() {
        assert(is_new(i as int) <==> forall|k: int|
            0 <= k < files.len() ==> (#[trigger] files[k]).file_path@ != candidates[i as int]) by {
            if paths.contains(candidates[i as int]) {
                let k = choose|k: int| 0 <= k < paths.len() && paths[k] == candidates[i as int];
                assert(files[k].file_path@ == candidates[i as int]);
            } else {
                assert forall|k: int| 0 <= k < files.len() implies (#[trigger] files[k]).file_path@
                    != candidates[i as int] by {
                    assert(paths[k] == files[k].file_path@);
                    assert(paths.contains(paths[k]));
                }
            }
        }
    }
}

/// Where nothing is known, all candidates are looked at, in their order.
pub proof fn law_fresh_scan_leaves_no_candidate_out(candidates: Seq<Seq<char>>)
    requires
        candidates.len() <= usize::MAX,
    ensures
        unscanned(candidates, Seq::empty()).len() == candidates.len(),
        forall|k: int|
            0 <= k < candidates.len() ==> #[trigger] unscanned(candidates, Seq::empty())[k] == k,
{
    let files = Seq::<FileInfo>::empty();
    let is_new = |i: int| !path_list(files).contains(candidates[i]);
    lemma_ascending_all(candidates.len(), is_new);
    assert(unscanned(candidates, files) == ascending(candidates.len(), is_new));
}

/// What can be read is found, as it was read, and what cannot be read is left out.
pub proof fn law_what_can_be_read_is_found(file: FileInfo)
    ensures
        found(seq![Some(file)]) == seq![file],
        found(seq![None::<FileInfo>]) == Seq::<FileInfo>::empty(),
{
    assert(seq![Some(file)].drop_last() =~= Seq::empty());
    assert(seq![None::<FileInfo>].drop_last() =~= Seq::empty());
    assert(found(Seq::empty()) =~= Seq::<FileInfo>::empty());
}

/// Files are found in the order of the candidates, and one that cannot be read hides no
/// other: what two lists of candidates give, one after the other, is what the first gives,
/// and then what the second gives.
pub proof fn law_files_are_found_in_turn(
    replies: Seq<Option<FileInfo>>,
    more: Seq<Option<FileInfo>>,
)
    ensures
        found(replies + more) == found(replies) + found(more),
    decreases more.len(),
{
    if more.len() == 0 {
        assert(replies + more =~= replies);
        assert(found(replies) + found(more) =~= found(replies));
    } else {
        law_files_are_found_in_turn(replies, more.drop_last());
        assert((replies + more).drop_last() =~= replies + more.drop_last());
        assert((replies + more).last() == more.last());
        assert(found(replies + more) =~= found(replies) + found(more));
    }
}

/// Each file gets the hash that was taken of it, and no other field of it changes; a file
/// whose hash could not be taken stays as it is.
pub proof fn law_each_file_gets_its_own_hash(
    files: Seq<FileInfo>,
    targets: Seq<usize>,
    hashes: Seq<Option<String>>,
    k: int,
)
    requires
        hashes.len() == targets.len(),
        targets.no_duplicates(),
        forall|j: int| 0 <= j < targets.len() ==> #[trigger] targets[j] < files.len(),
        0 <= k < targets.len(),
    ensures
        ({
            let before = files[targets[k] as int];
            let after = with_hashes(files, targets, hashes)[targets[k] as int];
            &&& after.file_path == before.file_path
            &&& after.file_size == before.file_size
            &&& after.created_time == before.created_time
            &&& after.modified_time == before.modified_time
            &&& after.file_name == before.file_name
            &&& hashes[k] matches Some(hash) ==> after.xxhash == hash
            &&& hashes[k] is None ==> after.xxhash == before.xxhash
        }),
    decreases targets.len(),
{
    let t = targets.drop_last();
    let h = hashes.drop_last();
    assert forall|j: int| 0 <= j < t.len() implies #[trigger] t[j] < files.len() by {
        assert(t[j] == targets[j]);
    }
    let i = targets[k] as int;
    law_hashing_changes_only_hashes(files, t, h, i);
    law_hashing_changes_only_hashes(files, targets, hashes, i);
    if k < t.len() {
        assert(t[k] == targets[k]);
        law_each_file_gets_its_own_hash(files, t, h, k);
        assert(targets.last() != targets[k]);
        assert(targets.last() < files.len());
    } else {
        assert(!t.contains(targets[k]));
    }
}

/// Each file gets the times that were read of it; a file whose times could not be read, or
/// were not asked for, counts as of the whole second.
pub proof fn law_each_file_gets_its_own_times(
    n: nat,
    targets: Seq<usize>,
    replies: Seq<Option<FineTimes>>,
    i: int,
)
    requires
        replies.len() == targets.len(),
        targets.no_duplicates(),
        forall|j: int| 0 <= j < targets.len() ==> #[trigger] targets[j] < n,
        0 <= i < n <= usize::MAX,
    ensures
        with_times(n, targets, replies).len() == n,
        forall|k: int| #![trigger targets[k]]
            0 <= k < targets.len() && targets[k] == i ==> match replies[k] {
                Some(times) => with_times(n, targets, replies)[i] == times,
                None => with_times(n, targets, replies)[i].created == 0 && with_times(
                    n,
                    targets,
                    replies,
                )[i].modified == 0,
            },
        !targets.contains(i as usize) ==> with_times(n, targets, replies)[i].created == 0
            && with_times(n, targets, replies)[i].modified == 0,
    decreases targets.len(),
{
    if targets.len() > 0 {
        let t = targets.drop_last();
        let r = replies.drop_last();
        assert forall|j: int| 0 <= j < t.len() implies #[trigger] t[j] < n by {
            assert(t[j] == targets[j]);
        }
        law_each_file_gets_its_own_times(n, t, r, i);
        assert(targets.last() < n);
        if targets.last() == i {
            assert(!t.contains(i as usize)) by {
                if t.contains(i as usize) {
                    let j = choose|j: int| 0 <= j < t.len() && t[j] == i as usize;
                    assert(targets[j] == targets[t.len() as int]);
                }
            }
        } else {
            assert(targets.contains(i as usize) ==> t.contains(i as usize)) by {
                if targets.contains(i as usize) {
                    let j = choose|j: int| 0 <= j < targets.len() && targets[j] == i as usize;
                    assert(t[j] == i as usize);
                }
            }
            assert(t.contains(i as usize) ==> targets.contains(i as usize)) by {
                if t.contains(i as usize) {
                    let j = choose|j: int| 0 <= j < t.len() && t[j] == i as usize;
                    assert(targets[j] == i as usize);
                }
            }
        }
        assert forall|k: int| #![trigger targets[k]]
            0 <= k < targets.len() && targets[k] == i implies match replies[k] {
            Some(times) => with_times(n, targets, replies)[i] == times,
            None => with_times(n, targets, replies)[i].created == 0 && with_times(
                n,
                targets,
                replies,
            )[i].modified == 0,
        } by {
            if k < t.len() {
                assert(t[k] == targets[k]);
            }
        }
    }
}

} // verus!
