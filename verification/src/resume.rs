//! Saved scan data: the checkpoints of an interrupted run, and what a resumed run takes
//! from them.
use vstd::hash_set::StringHashSet;
use vstd::prelude::*;
use vstd::relations::*;
use vstd::string::*;

use crate::model::{records, FileInfo, FileRecord};
use crate::number::{
    all_digits, count_text, decimal, digit_worth, lemma_decimal_reads_back,
};
use crate::order::{is_sorting, lemma_sorting_keeps, order_of, sorted_indices, Ranking};
use crate::paths::{checkpoint_index, checkpoint_number};
use crate::select::{ascending, lemma_ascending};
use crate::table::{decode_files, is_table_error, saved_files, TableError};
use crate::text::{begins_with, text_option, text_options};

verus! {

// ---------------------------------------------------------------------------
// Names of checkpoints
// ---------------------------------------------------------------------------

/// The name of a checkpoint, without its extension.
pub open spec fn checkpoint_stem(index: int) -> Seq<char> {
    "checkpoint_"@ + decimal(index)
}

/// The file name of a checkpoint.
pub open spec fn checkpoint_file(index: int) -> Seq<char> {
    checkpoint_stem(index) + ".csv"@
}

/// The file name of a checkpoint.
pub fn checkpoint_name(index: usize) -> (r: String)
    ensures
        r@ == checkpoint_file(index as int),
{
    "checkpoint_".to_string().concat(count_text(index).as_str()).concat(".csv")
}

/// The name of a checkpoint gives back its number.
pub proof fn law_checkpoint_name_reads_back(index: usize)
    ensures
        checkpoint_number(checkpoint_stem(index as int)) == Some(index),
{
    let stem = checkpoint_stem(index as int);
    let prefix = "checkpoint_"@;
    assert(stem.subrange(0, prefix.len() as int) =~= prefix);
    assert(begins_with(stem, prefix));
    assert(stem.skip(prefix.len() as int) =~= decimal(index as int));
    lemma_decimal_reads_back(index as int);
}

/// The number of a checkpoint, from its name without extension where it has one.
pub open spec fn stem_number(stem: Option<Seq<char>>) -> Option<usize> {
    match stem {
        Some(stem) => checkpoint_number(stem),
        None => None,
    }
}

/// The number that the next checkpoint gets: the least above those in use.
pub open spec fn number_after(stems: Seq<Option<Seq<char>>>) -> int
    decreases stems.len(),
{
    if stems.len() == 0 {
        0
    } else {
        let before = number_after(stems.drop_last());
        match stem_number(stems.last()) {
            Some(n) => if n + 1 > before {
                n + 1
            } else {
                before
            },
            None => before,
        }
    }
}

/// A new checkpoint replaces none that is there: its number is above theirs.
pub proof fn law_new_checkpoint_replaces_none(stems: Seq<Option<Seq<char>>>, i: int)
    requires
        0 <= i < stems.len(),
    ensures
        stem_number(stems[i]) matches Some(n) ==> n < number_after(stems),
    decreases stems.len(),
{
    if i < stems.len() - 1 {
        law_new_checkpoint_replaces_none(stems.drop_last(), i);
        assert(stems.drop_last()[i] == stems[i]);
    }
}

/// The number that the next checkpoint gets, given the names, without extension, of what
/// is in the checkpoint folder. `None` where that number is out of range.
pub fn next_checkpoint_index(stems: &Vec<Option<String>>) -> (r: Option<usize>)
    ensures
        match r {
            Some(n) => n == number_after(text_options(stems@)),
            None => number_after(text_options(stems@)) > usize::MAX,
        },
{
    let ghost all = text_options(stems@);
    let mut next: Option<usize> = Some(0);
    let mut i: usize = 0;
    while i < stems.len()
        invariant
            i <= stems@.len(),
            all == text_options(stems@),
            match next {
                Some(n) => n == number_after(all.take(i as int)),
                None => number_after(all.take(i as int)) == usize::MAX + 1,
            },
        decreases stems@.len() - i,
    {
        proof {
            assert(all.take(i + 1).drop_last() =~= all.take(i as int));
            assert(all.take(i + 1).last() == text_option(stems@[i as int]));
        }
        let number: Option<usize> = match &stems[i] {
            Some(stem) => checkpoint_index(stem.as_str()),
            None => None,
        };
        if let Some(n) = number {
            if let Some(m) = next {
                if n >= m {
                    next = n.checked_add(1);
                }
            }
        }
        i = i + 1;
    }
    proof {
        assert(all.take(i as int) =~= all);
    }
    next
}

// ---------------------------------------------------------------------------
// The order of checkpoints
// ---------------------------------------------------------------------------

/// Order by the number of the checkpoint; entries with one number stay as they are.
pub open spec fn number_leq(stems: Seq<Option<Seq<char>>>, i: usize, j: usize) -> bool {
    match (stem_number(stems[i as int]), stem_number(stems[j as int])) {
        (Some(a), Some(b)) => a < b || (a == b && i <= j),
        (Some(_), None) => false,
        (None, Some(_)) => true,
        (None, None) => i <= j,
    }
}

/// The order of checkpoints by number.
pub open spec fn number_order(stems: Seq<Option<Seq<char>>>) -> spec_fn(usize, usize) -> bool {
    |i: usize, j: usize| number_leq(stems, i, j)
}

/// The entries of the checkpoint folder that are checkpoints.
pub open spec fn checkpoint_entries(stems: Seq<Option<Seq<char>>>) -> Seq<usize> {
    ascending(stems.len(), |i: int| stem_number(stems[i]) is Some)
}

struct NumberRank<'a> {
    numbers: &'a Vec<Option<usize>>,
    stems: Ghost<Seq<Option<Seq<char>>>>,
}

impl<'a> NumberRank<'a> {
    spec fn numbered(&self) -> bool {
        &&& self.numbers@.len() == self.stems@.len()
        &&& forall|i: int|
            0 <= i < self.numbers@.len() ==> #[trigger] self.numbers@[i] == stem_number(
                self.stems@[i],
            )
    }
}

impl<'a> Ranking for NumberRank<'a> {
    closed spec fn extent(&self) -> nat {
        if self.numbered() {
            self.numbers@.len()
        } else {
            0
        }
    }

    closed spec fn leq(&self, i: usize, j: usize) -> bool {
        number_leq(self.stems@, i, j)
    }

    proof fn lemma_total(&self) {
        let leq = |i: usize, j: usize| self.leq(i, j);
        assert(total_ordering(leq));
    }

    fn in_order(&self, i: usize, j: usize) -> (r: bool) {
        match (self.numbers[i], self.numbers[j]) {
            (Some(a), Some(b)) => a < b || (a == b && i <= j),
            (Some(_), None) => false,
            (None, Some(_)) => true,
            (None, None) => i <= j,
        }
    }
}

/// The entries of the checkpoint folder that are checkpoints, by number, given the names
/// of all entries without extension.
pub fn checkpoint_order(stems: &Vec<Option<String>>) -> (r: Vec<usize>)
    ensures
        is_sorting(
            r@,
            checkpoint_entries(text_options(stems@)),
            number_order(text_options(stems@)),
        ),
{
    let ghost all = text_options(stems@);
    let ghost is_checkpoint = |i: int| stem_number(all[i]) is Some;
    let mut numbers: Vec<Option<usize>> = Vec::new();
    let mut entries: Vec<usize> = Vec::new();
    let n: usize = stems.len();
    let mut i: usize = 0;
    while i < n
        invariant
            n == stems@.len(),
            i <= n,
            all == text_options(stems@),
            is_checkpoint == (|i: int| stem_number(all[i]) is Some),
            numbers@.len() == i,
            forall|k: int| 0 <= k < i ==> #[trigger] numbers@[k] == stem_number(all[k]),
            entries@ == ascending(i as nat, is_checkpoint),
        decreases n - i,
    {
        let number: Option<usize> = match &stems[i] {
            Some(stem) => checkpoint_index(stem.as_str()),
            None => None,
        };
        if number.is_some() {
            entries.push(i);
        }
        numbers.push(number);
        i = i + 1;
    }
    proof {
        lemma_ascending(n as nat, is_checkpoint);
    }
    let rank = NumberRank { numbers: &numbers, stems: Ghost(all) };
    let r = sorted_indices(&entries, &rank);
    proof {
        assert(order_of(rank) =~= number_order(all));
    }
    r
}

// ---------------------------------------------------------------------------
// What checkpoints hold
// ---------------------------------------------------------------------------

/// Whether a path is that of one of `files`.
pub open spec fn has_path(files: Seq<FileRecord>, path: Seq<char>) -> bool {
    exists|i: int| 0 <= i < files.len() && (#[trigger] files[i]).file_path == path
}

/// The files of a list, without those whose path an earlier one has.
pub open spec fn first_of_each(files: Seq<FileRecord>) -> Seq<FileRecord>
    decreases files.len(),
{
    if files.len() == 0 {
        Seq::empty()
    } else {
        let before = first_of_each(files.drop_last());
        if has_path(files.drop_last(), files.last().file_path) {
            before
        } else {
            before.push(files.last())
        }
    }
}

/// The files that a list of saved tables holds, one table after the other. `None` where
/// one of them is no table of files.
pub open spec fn all_saved(data: Seq<Seq<u8>>) -> Option<Seq<FileRecord>>
    decreases data.len(),
{
    if data.len() == 0 {
        Some(Seq::empty())
    } else {
        match (all_saved(data.drop_last()), saved_files(data.last())) {
            (Some(before), Some(files)) => Some(before + files),
            _ => None,
        }
    }
}

/// The bytes of a list of files' contents.
pub open spec fn contents_of(data: Seq<Vec<u8>>) -> Seq<Seq<u8>> {
    Seq::new(data.len(), |i: int| data[i]@)
}

/// The files that checkpoints hold, each path once.
pub open spec fn loaded_files(data: Seq<Seq<u8>>) -> Option<Seq<FileRecord>> {
    match all_saved(data) {
        Some(files) => Some(first_of_each(files)),
        None => None,
    }
}

/// Whether the `i`-th table is the first that is no table of files, and `e` says why.
pub open spec fn is_first_fault(data: Seq<Seq<u8>>, i: int, e: TableError) -> bool {
    &&& 0 <= i < data.len()
    &&& all_saved(data.take(i)) is Some
    &&& is_table_error(data[i], e)
}

/// Where a table is no table of files, nothing is loaded.
pub proof fn lemma_fault_loads_nothing(data: Seq<Seq<u8>>, i: int, e: TableError)
    requires
        is_first_fault(data, i, e),
    ensures
        loaded_files(data) is None,
{
    assert(data.take(i + 1).last() == data[i]);
    lemma_all_saved_fails_early(data, i + 1);
}

proof fn lemma_all_saved_fails_early(data: Seq<Seq<u8>>, i: int)
    requires
        0 <= i <= data.len(),
        all_saved(data.take(i)) is None,
    ensures
        all_saved(data) is None,
    decreases data.len() - i,
{
    if i < data.len() {
        assert(data.take(i + 1).drop_last() =~= data.take(i));
        lemma_all_saved_fails_early(data, i + 1);
    } else {
        assert(data.take(i) =~= data);
    }
}

/// The files that checkpoints hold, given the contents of the checkpoints in the order
/// of their numbers. Of files with one path the first is taken.
pub fn load_checkpoints(data: &Vec<Vec<u8>>) -> (r: Result<Vec<FileInfo>, TableError>)
    ensures
        match r {
            Ok(files) => loaded_files(contents_of(data@)) == Some(records(files@)),
            Err(e) => exists|i: int| is_first_fault(contents_of(data@), i, e),
        },
{
    let ghost all = contents_of(data@);
    let mut files: Vec<FileInfo> = Vec::new();
    let mut seen: StringHashSet = StringHashSet::new();
    let ghost mut passed: Seq<FileRecord> = Seq::empty();
    let mut i: usize = 0;
    proof {
        assert(all.take(0) =~= Seq::empty());
        assert(records(files@) =~= first_of_each(passed));
    }
    while i < data.len()
        invariant
            i <= data@.len(),
            all == contents_of(data@),
            all_saved(all.take(i as int)) == Some(passed),
            records(files@) == first_of_each(passed),
            forall|path: Seq<char>| #[trigger] seen@.contains(path) <==> has_path(passed, path),
        decreases data@.len() - i,
    {
        proof {
            assert(all.take(i + 1).drop_last() =~= all.take(i as int));
            assert(all.take(i + 1).last() == data@[i as int]@);
        }
        let batch = match decode_files(data[i].as_slice()) {
            Ok(batch) => batch,
            Err(e) => {
                assert(is_first_fault(all, i as int, e));
                return Err(e);
            },
        };
        let ghost before = passed;
        let mut j: usize = 0;
        proof {
            assert(before + records(batch@).take(0) =~= before);
        }
        while j < batch.len()
            invariant
                j <= batch@.len(),
                passed == before + records(batch@).take(j as int),
                records(files@) == first_of_each(passed),
                forall|path: Seq<char>| #[trigger]
                    seen@.contains(path) <==> has_path(passed, path),
            decreases batch@.len() - j,
        {
            let ghost sofar = passed;
            let ghost old_files = files@;
            let ghost old_seen = seen@;
            proof {
                passed = sofar.push(batch@[j as int]@);
                assert(passed.drop_last() =~= sofar);
                assert(passed =~= before + records(batch@).take(j + 1));
            }
            if seen.insert(batch[j].file_path.clone()) {
                files.push(batch[j].clone());
                assert(records(files@) =~= records(old_files).push(batch@[j as int]@));
            }
            proof {
                assert forall|path: Seq<char>| #[trigger] seen@.contains(path) <==> has_path(
                    passed,
                    path,
                ) by {
                    if has_path(sofar, path) {
                        let k = choose|k: int|
                            0 <= k < sofar.len() && (#[trigger] sofar[k]).file_path == path;
                        assert(passed[k].file_path == path);
                    }
                    if path == batch@[j as int].file_path@ {
                        assert(passed[sofar.len() as int].file_path == path);
                    }
                    if has_path(passed, path) {
                        let k = choose|k: int|
                            0 <= k < passed.len() && (#[trigger] passed[k]).file_path == path;
                        if k < sofar.len() {
                            assert(sofar[k].file_path == path);
                        }
                    }
                }
            }
            j = j + 1;
        }
        proof {
            assert(records(batch@).take(j as int) =~= records(batch@));
        }
        i = i + 1;
    }
    proof {
        assert(all.take(i as int) =~= all);
    }
    Ok(files)
}

/// Of the files that checkpoints hold, every path is loaded, and none twice.
pub proof fn law_each_path_is_loaded_once(files: Seq<FileRecord>)
    ensures
        forall|path: Seq<char>| #[trigger]
            has_path(first_of_each(files), path) <==> has_path(files, path),
        forall|i: int, j: int|
            0 <= i < j < first_of_each(files).len() ==> (#[trigger] first_of_each(
                files,
            )[i]).file_path != (#[trigger] first_of_each(files)[j]).file_path,
    decreases files.len(),
{
    if files.len() > 0 {
        let before = files.drop_last();
        let last = files.last();
        let out = first_of_each(files);
        law_each_path_is_loaded_once(before);
        assert forall|path: Seq<char>| #[trigger] has_path(out, path) <==> has_path(
            files,
            path,
        ) by {
            if has_path(out, path) {
                let k = choose|k: int| 0 <= k < out.len() && (#[trigger] out[k]).file_path == path;
                if k < first_of_each(before).len() {
                    assert(first_of_each(before)[k].file_path == path);
                    assert(has_path(first_of_each(before), path));
                } else {
                    assert(files[before.len() as int].file_path == path);
                }
            }
            if has_path(before, path) {
                let k = choose|k: int|
                    0 <= k < before.len() && (#[trigger] before[k]).file_path == path;
                assert(files[k].file_path == path);
                assert(has_path(first_of_each(before), path));
                let m = choose|m: int|
                    0 <= m < first_of_each(before).len() && (#[trigger] first_of_each(
                        before,
                    )[m]).file_path == path;
                assert(out[m].file_path == path);
            }
            if has_path(files, path) {
                let k = choose|k: int|
                    0 <= k < files.len() && (#[trigger] files[k]).file_path == path;
                if k < before.len() {
                    assert(before[k].file_path == path);
                } else if !has_path(before, path) {
                    assert(out[first_of_each(before).len() as int].file_path == path);
                }
            }
        }
        if !has_path(before, last.file_path) {
            assert forall|i: int, j: int| 0 <= i < j < out.len() implies (#[trigger] out[i]).file_path
                != (#[trigger] out[j]).file_path by {
                if j == first_of_each(before).len() {
                    if out[i].file_path == last.file_path {
                        assert(first_of_each(before)[i].file_path == last.file_path);
                        assert(has_path(first_of_each(before), last.file_path));
                    }
                } else {
                    assert(first_of_each(before)[i].file_path != first_of_each(
                        before,
                    )[j].file_path);
                }
            }
        }
    }
}

/// A checkpoint holds what was written to it: where checkpoints were written one after the
/// other, the files of all of them come back, each path once.
pub proof fn law_checkpoints_read_back(batches: Seq<Seq<FileRecord>>, data: Seq<Seq<u8>>)
    requires
        data.len() == batches.len(),
        forall|i: int| 0 <= i < data.len() ==> saved_files(#[trigger] data[i]) == Some(batches[i]),
    ensures
        loaded_files(data) == Some(first_of_each(batches.flatten())),
{
    lemma_all_saved(batches, data);
}

proof fn lemma_all_saved(batches: Seq<Seq<FileRecord>>, data: Seq<Seq<u8>>)
    requires
        data.len() == batches.len(),
        forall|i: int| 0 <= i < data.len() ==> saved_files(#[trigger] data[i]) == Some(batches[i]),
    ensures
        all_saved(data) == Some(batches.flatten()),
    decreases data.len(),
{
    batches.lemma_flatten_and_flatten_alt_are_equivalent();
    if data.len() > 0 {
        assert forall|i: int| 0 <= i < data.drop_last().len() implies saved_files(
            #[trigger] data.drop_last()[i],
        ) == Some(batches.drop_last()[i]) by {
            assert(data.drop_last()[i] == data[i]);
        }
        lemma_all_saved(batches.drop_last(), data.drop_last());
        batches.drop_last().lemma_flatten_and_flatten_alt_are_equivalent();
        assert(saved_files(data[data.len() - 1]) == Some(batches.last()));
    }
}

// ---------------------------------------------------------------------------
// Laws
// ---------------------------------------------------------------------------

/// Checkpoints are named by their number: the word, the digits of the number, and the
/// extension of a table.
pub proof fn law_names_of_checkpoints(index: usize)
    ensures
        checkpoint_file(index as int) == "checkpoint_"@ + decimal(index as int) + ".csv"@,
        checkpoint_number("checkpoint_"@ + decimal(index as int)) == Some(index),
{
    law_checkpoint_name_reads_back(index);
}

/// What is not named like a checkpoint is none: a name that does not begin with the word, or
/// has anything but digits, after a plus at most, behind it.
pub proof fn law_other_names_are_no_checkpoints(name: Seq<char>, k: int)
    ensures
        !begins_with(name, "checkpoint_"@) ==> checkpoint_number(name) is None,
        name == "checkpoint_"@ ==> checkpoint_number(name) is None,
        begins_with(name, "checkpoint_"@) && 12 <= k < name.len() && !('0' <= name[k] <= '9')
            ==> checkpoint_number(name) is None,
        begins_with(name, "checkpoint_"@) && 11 < name.len() && !('0' <= name[11] <= '9')
            && name[11] != '+' ==> checkpoint_number(name) is None,
        stem_number(None) is None,
{
    reveal_strlit("checkpoint_");
    let prefix = "checkpoint_"@;
    assert(prefix.len() == 11);
    let rest = name.skip(11);
    if name == prefix {
        assert(rest.len() == 0);
    }
    if begins_with(name, prefix) && 11 < name.len() {
        assert(name[11] == rest[0]);
        let signed = rest[0] == '+';
        let body = if signed {
            rest.drop_first()
        } else {
            rest
        };
        if 12 <= k < name.len() && !('0' <= name[k] <= '9') {
            let j = if signed {
                k - 12
            } else {
                k - 11
            };
            assert(body[j] == name[k]);
            assert(digit_worth(body[j]) >= 10);
            assert(!all_digits(body, 10));
        }
        if !('0' <= name[11] <= '9') && name[11] != '+' {
            assert(body[0] == name[11]);
            assert(digit_worth(body[0]) >= 10);
            assert(!all_digits(body, 10));
        }
    }
}

/// The number of the next checkpoint is the least that is above all those in use: it follows
/// one of them, or is zero where there are none.
pub proof fn law_next_number_follows_the_last(stems: Seq<Option<Seq<char>>>)
    ensures
        forall|i: int| #![trigger stems[i]]
            0 <= i < stems.len() ==> (stem_number(stems[i]) matches Some(n) ==> n < number_after(
                stems,
            )),
        number_after(stems) == 0 || exists|i: int| #![trigger stems[i]]
            0 <= i < stems.len() && (stem_number(stems[i]) matches Some(n) && n + 1
                == number_after(stems)),
        number_after(stems) == 0 <==> forall|i: int| #![trigger stems[i]]
            0 <= i < stems.len() ==> stem_number(stems[i]) is None,
    decreases stems.len(),
{
    assert forall|i: int| #![trigger stems[i]] 0 <= i < stems.len() implies (stem_number(
        stems[i],
    ) matches Some(n) ==> n < number_after(stems)) by {
        law_new_checkpoint_replaces_none(stems, i);
    }
    if stems.len() > 0 {
        let before = stems.drop_last();
        law_next_number_follows_the_last(before);
        if number_after(stems) == number_after(before) && number_after(before) != 0 {
            let i = choose|i: int| #![trigger before[i]]
                0 <= i < before.len() && (stem_number(before[i]) matches Some(n) && n + 1
                    == number_after(before));
            assert(stems[i] == before[i]);
        } else if number_after(stems) != 0 {
            let i = stems.len() - 1;
            assert(stems[i] == stems.last());
        }
        if number_after(stems) != 0 {
            let i = choose|i: int| #![trigger stems[i]]
                0 <= i < stems.len() && (stem_number(stems[i]) matches Some(n) && n + 1
                    == number_after(stems));
            assert(stem_number(stems[i]) is Some);
        }
    }
}

/// Checkpoints are read by their numbers, not by their names as texts: the entries that are
/// checkpoints, each once and no others, in the order of their numbers.
pub proof fn law_checkpoints_are_read_by_number(stems: Seq<Option<Seq<char>>>, order: Seq<usize>)
    requires
        stems.len() <= usize::MAX,
        is_sorting(order, checkpoint_entries(stems), number_order(stems)),
    ensures
        order.no_duplicates(),
        forall|i: usize| #[trigger]
            order.contains(i) <==> i < stems.len() && stems[i as int] is Some && checkpoint_number(
                stems[i as int]->0,
            ) is Some,
        forall|j: int, k: int|
            #![trigger order[j], order[k]]
            0 <= j < k < order.len() ==> checkpoint_number(stems[order[j] as int]->0)->0
                <= checkpoint_number(stems[order[k] as int]->0)->0,
{
    let is_one = |i: int| stem_number(stems[i]) is Some;
    let entries = checkpoint_entries(stems);
    lemma_ascending(stems.len(), is_one);
    lemma_sorting_keeps(order, entries, number_order(stems));
    assert forall|i: usize| #[trigger] order.contains(i) <==> i < stems.len()
        && stems[i as int] is Some && checkpoint_number(stems[i as int]->0) is Some by {
        assert(order.contains(i) <==> entries.contains(i));
        assert(entries.contains(i) <==> i < stems.len() && is_one(i as int));
    }
    assert forall|j: int, k: int|
        #![trigger order[j], order[k]]
        0 <= j < k < order.len() implies checkpoint_number(stems[order[j] as int]->0)->0
        <= checkpoint_number(stems[order[k] as int]->0)->0 by {
        assert(order.contains(order[j]) && order.contains(order[k]));
        assert(number_order(stems)(order[j], order[k]));
    }
}

/// Of files with one path, the first that was saved counts: the record that is loaded for a
/// path is that of the first file with it.
pub proof fn law_first_record_of_a_path_counts(files: Seq<FileRecord>, i: int)
    requires
        0 <= i < files.len(),
    ensures
        first_of_each(files).contains(files[i]) || has_path(files.take(i), files[i].file_path),
        !has_path(files.take(i), files[i].file_path) ==> first_of_each(files).contains(files[i]),
        forall|k: int|
            0 <= k < first_of_each(files).len() ==> exists|j: int|
                0 <= j < files.len() && files[j] == #[trigger] first_of_each(files)[k]
                    && !has_path(files.take(j), #[trigger] files[j].file_path),
    decreases files.len(),
{
    let before = files.drop_last();
    let out = first_of_each(before);
    let all = first_of_each(files);
    if i < before.len() {
        law_first_record_of_a_path_counts(before, i);
        assert(before.take(i) =~= files.take(i));
        assert(before[i] == files[i]);
        if out.contains(files[i]) {
            let k = choose|k: int| 0 <= k < out.len() && out[k] == files[i];
            assert(all[k] == files[i]);
        }
    } else {
        assert(files.take(i) =~= before);
        if !has_path(before, files[i].file_path) {
            assert(all[out.len() as int] == files[i]);
        }
        if before.len() > 0 {
            law_first_record_of_a_path_counts(before, 0);
        }
    }
    assert forall|k: int| 0 <= k < all.len() implies exists|j: int|
        0 <= j < files.len() && files[j] == #[trigger] all[k] && !has_path(
            files.take(j),
            #[trigger] files[j].file_path,
        ) by {
        if k < out.len() {
            assert(all[k] == out[k]);
            let j = choose|j: int|
                0 <= j < before.len() && before[j] == out[k] && !has_path(
                    before.take(j),
                    #[trigger] before[j].file_path,
                );
            assert(before.take(j) =~= files.take(j));
            assert(files[j] == all[k] && !has_path(files.take(j), files[j].file_path));
        } else {
            let j = files.len() - 1;
            assert(files.take(j) =~= before);
            assert(files[j] == all[k] && !has_path(files.take(j), files[j].file_path));
        }
    }
}

/// What is saved is loaded table by table, in the order of the tables, and only where every
/// one of them can be read.
pub proof fn law_tables_are_loaded_in_turn(data: Seq<Seq<u8>>, more: Seq<u8>)
    ensures
        all_saved(Seq::empty()) == Some(Seq::<FileRecord>::empty()),
        all_saved(data.push(more)) == match (all_saved(data), saved_files(more)) {
            (Some(before), Some(files)) => Some(before + files),
            _ => None,
        },
        loaded_files(data) is Some <==> all_saved(data) is Some,
        all_saved(data) matches Some(files) ==> loaded_files(data) == Some(first_of_each(files)),
{
    assert(data.push(more).drop_last() =~= data);
}

} // verus!
