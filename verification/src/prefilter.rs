//! Which files are worth hashing: only a file that shares its size, and then its
//! fingerprint, with another can have a duplicate.
use vstd::hash_map::StringHashMap;
use vstd::prelude::*;
use vstd::string::*;

use crate::hashing::fingerprint_of;
use crate::model::FileInfo;
use crate::number::{decimal, decimal_text, digits, lemma_digits_injective, lemma_digits_worth};
use crate::order::{
    is_sorting, law_there_is_one_sorting, lemma_sorting_keeps, order_of, sorted_indices, Ranking,
};
use crate::plan::is_hashed;
use crate::rank::same_content_key;
use crate::select::{ascending, lemma_ascending};
use crate::text::text_option;

verus! {

// ---------------------------------------------------------------------------
// Twins: entries of a list that share a key
// ---------------------------------------------------------------------------

/// Whether entry `k` has a key that another of the first `n` entries has too.
pub open spec fn has_twin(keys: Seq<Option<String>>, n: int, k: int) -> bool {
    keys[k] is Some && exists|m: int|
        0 <= m < n && m != k && text_option(#[trigger] keys[m]) == text_option(keys[k])
}

/// The entries that share their key with another.
fn twins(keys: &Vec<Option<String>>) -> (r: Vec<bool>)
    ensures
        r@.len() == keys@.len(),
        forall|k: int|
            0 <= k < keys@.len() ==> (#[trigger] r@[k] <==> has_twin(
                keys@,
                keys@.len() as int,
                k,
            )),
{
    let n: usize = keys.len();
    let mut flags: Vec<bool> = Vec::new();
    let mut first: StringHashMap<usize> = StringHashMap::new();
    let mut i: usize = 0;
    while i < n
        invariant
            n == keys@.len(),
            i <= n,
            flags@.len() == i,
            forall|k: int|
                0 <= k < i ==> (#[trigger] flags@[k] <==> has_twin(keys@, i as int, k)),
            forall|k: int|
                #![trigger keys@[k]]
                0 <= k < i && keys@[k] is Some ==> first@.dom().contains(keys@[k]->0@),
            forall|s: Seq<char>| #[trigger]
                first@.dom().contains(s) ==> first@[s] < i && text_option(
                    keys@[first@[s] as int],
                ) == Some(s),
        decreases n - i,
    {
        let ghost before = flags@;
        match &keys[i] {
            Some(key) => {
                let known: Option<usize> = match first.get(key.as_str()) {
                    Some(k) => Some(*k),
                    None => None,
                };
                match known {
                    Some(f) => {
                        flags.set(f, true);
                        flags.push(true);
                        proof {
                            assert(text_option(keys@[f as int]) == text_option(keys@[i as int]));
                            assert forall|k: int| 0 <= k < i + 1 implies (#[trigger] flags@[k]
                                <==> has_twin(keys@, i + 1, k)) by {
                                if k < i {
                                    assert(before[k] <==> has_twin(keys@, i as int, k));
                                    if k == f {
                                        assert(has_twin(keys@, i + 1, k));
                                    } else if has_twin(keys@, i + 1, k) {
                                        let m = choose|m: int|
                                            0 <= m < i + 1 && m != k && text_option(
                                                #[trigger] keys@[m],
                                            ) == text_option(keys@[k]);
                                        if m == i {
                                            assert(text_option(keys@[f as int]) == text_option(
                                                keys@[k],
                                            ));
                                        }
                                        assert(has_twin(keys@, i as int, k));
                                    } else {
                                        if before[k] {
                                            let m = choose|m: int|
                                                0 <= m < i && m != k && text_option(
                                                    #[trigger] keys@[m],
                                                ) == text_option(keys@[k]);
                                            assert(text_option(keys@[m]) == text_option(keys@[k]));
                                        }
                                    }
                                }
                            }
                        }
                    },
                    None => {
                        first.insert(key.clone(), i);
                        flags.push(false);
                        proof {
                            assert forall|k: int| 0 <= k < i + 1 implies (#[trigger] flags@[k]
                                <==> has_twin(keys@, i + 1, k)) by {
                                if k < i {
                                    assert(before[k] <==> has_twin(keys@, i as int, k));
                                    if has_twin(keys@, i + 1, k) {
                                        let m = choose|m: int|
                                            0 <= m < i + 1 && m != k && text_option(
                                                #[trigger] keys@[m],
                                            ) == text_option(keys@[k]);
                                        assert(text_option(keys@[m]) == text_option(keys@[k]));
                                        assert(m != i);
                                    }
                                    if before[k] {
                                        let m = choose|m: int|
                                            0 <= m < i && m != k && text_option(
                                                #[trigger] keys@[m],
                                            ) == text_option(keys@[k]);
                                        assert(text_option(keys@[m]) == text_option(keys@[k]));
                                    }
                                } else if has_twin(keys@, i + 1, k) {
                                    let m = choose|m: int|
                                        0 <= m < i + 1 && m != k && text_option(
                                            #[trigger] keys@[m],
                                        ) == text_option(keys@[k]);
                                    assert(text_option(keys@[m]) == text_option(keys@[k]));
                                }
                            }
                        }
                    },
                }
            },
            None => {
                flags.push(false);
                proof {
                    assert forall|k: int| 0 <= k < i + 1 implies (#[trigger] flags@[k]
                        <==> has_twin(keys@, i + 1, k)) by {
                        if k < i {
                            assert(before[k] <==> has_twin(keys@, i as int, k));
                            if has_twin(keys@, i + 1, k) {
                                let m = choose|m: int|
                                    0 <= m < i + 1 && m != k && text_option(#[trigger] keys@[m])
                                        == text_option(keys@[k]);
                                assert(text_option(keys@[m]) == text_option(keys@[k]));
                            }
                            if before[k] {
                                let m = choose|m: int|
                                    0 <= m < i && m != k && text_option(#[trigger] keys@[m])
                                        == text_option(keys@[k]);
                                assert(text_option(keys@[m]) == text_option(keys@[k]));
                            }
                        }
                    }
                }
            },
        }
        i = i + 1;
    }
    flags
}

// ---------------------------------------------------------------------------
// Size
// ---------------------------------------------------------------------------

/// Whether file `i` is unhashed and has the size of another unhashed file.
pub open spec fn shares_size(files: Seq<FileInfo>, i: int) -> bool {
    !is_hashed(files[i]) && exists|j: int|
        0 <= j < files.len() && j != i && !is_hashed(#[trigger] files[j]) && files[j].file_size
            == files[i].file_size
}

/// The unhashed files that share their size with another one, in ascending order: the
/// others can have no duplicate among the unhashed.
pub fn same_size_candidates(files: &Vec<FileInfo>) -> (r: Vec<usize>)
    ensures
        r@ == ascending(files@.len(), |i: int| shares_size(files@, i)),
        r@.len() <= files@.len(),
        forall|k: int| 0 <= k < r@.len() ==> #[trigger] r@[k] < files@.len(),
        r@.no_duplicates(),
{
    let n: usize = files.len();
    let mut keys: Vec<Option<String>> = Vec::new();
    let mut i: usize = 0;
    while i < n
        invariant
            n == files@.len(),
            i <= n,
            keys@.len() == i,
            forall|k: int|
                0 <= k < i ==> text_option(#[trigger] keys@[k]) == if is_hashed(files@[k]) {
                    None
                } else {
                    Some(decimal(files@[k].file_size as int))
                },
        decreases n - i,
    {
        if files[i].xxhash.as_str().is_empty() {
            keys.push(Some(decimal_text(files[i].file_size)));
        } else {
            keys.push(None);
        }
        i = i + 1;
    }
    let flags = twins(&keys);
    proof {
        assert forall|k: int| 0 <= k < n implies (#[trigger] flags@[k] <==> shares_size(
            files@,
            k,
        )) by {
            assert(text_option(keys@[k]) is Some <==> !is_hashed(files@[k]));
            if flags@[k] {
                let m = choose|m: int|
                    0 <= m < n && m != k && text_option(#[trigger] keys@[m]) == text_option(
                        keys@[k],
                    );
                assert(text_option(keys@[m]) is Some);
                lemma_digits_injective(
                    files@[m].file_size as nat,
                    files@[k].file_size as nat,
                    10,
                );
                assert(!is_hashed(files@[m]));
            }
            if shares_size(files@, k) {
                let j = choose|j: int|
                    0 <= j < files@.len() && j != k && !is_hashed(#[trigger] files@[j])
                        && files@[j].file_size == files@[k].file_size;
                assert(text_option(keys@[j]) == text_option(keys@[k]));
            }
        }
    }
    let ghost want = |i: int| shares_size(files@, i);
    let mut r: Vec<usize> = Vec::new();
    let mut j: usize = 0;
    while j < n
        invariant
            n == files@.len(),
            flags@.len() == n,
            j <= n,
            want == (|i: int| shares_size(files@, i)),
            forall|k: int| 0 <= k < n ==> (#[trigger] flags@[k] <==> shares_size(files@, k)),
            r@ == ascending(j as nat, want),
        decreases n - j,
    {
        if flags[j] {
            r.push(j);
        }
        j = j + 1;
    }
    proof {
        lemma_ascending(n as nat, want);
    }
    r
}

/// The unhashed files, in ascending order.
pub fn unhashed_files(files: &Vec<FileInfo>) -> (r: Vec<usize>)
    ensures
        r@ == ascending(files@.len(), |i: int| !is_hashed(files@[i])),
        r@.len() <= files@.len(),
        forall|k: int| 0 <= k < r@.len() ==> #[trigger] r@[k] < files@.len(),
        r@.no_duplicates(),
{
    let n: usize = files.len();
    let ghost want = |i: int| !is_hashed(files@[i]);
    let mut r: Vec<usize> = Vec::new();
    let mut j: usize = 0;
    while j < n
        invariant
            n == files@.len(),
            j <= n,
            want == (|i: int| !is_hashed(files@[i])),
            r@ == ascending(j as nat, want),
        decreases n - j,
    {
        if files[j].xxhash.as_str().is_empty() {
            r.push(j);
        }
        j = j + 1;
    }
    proof {
        lemma_ascending(n as nat, want);
    }
    r
}

// ---------------------------------------------------------------------------
// Fingerprint
// ---------------------------------------------------------------------------

/// Whether the file of entry `k` has a fingerprint, and another of the files has that
/// fingerprint and the same size.
pub open spec fn shares_print(
    files: Seq<FileInfo>,
    targets: Seq<usize>,
    prints: Seq<Option<String>>,
    k: int,
) -> bool {
    prints[k] is Some && exists|m: int|
        0 <= m < targets.len() && m != k && text_option(#[trigger] prints[m]) == text_option(
            prints[k],
        ) && files[targets[m] as int].file_size == files[targets[k] as int].file_size
}

/// The entries of `items` at the given positions.
pub open spec fn chosen(items: Seq<usize>, positions: Seq<usize>) -> Seq<usize> {
    Seq::new(positions.len(), |j: int| items[positions[j] as int])
}

/// The files whose fingerprint calls for a full hash.
pub open spec fn full_hash_choice(
    files: Seq<FileInfo>,
    targets: Seq<usize>,
    prints: Seq<Option<String>>,
) -> Seq<usize> {
    chosen(targets, ascending(targets.len(), |k: int| shares_print(files, targets, prints, k)))
}

/// The order of indices by size.
pub open spec fn ascending_order() -> spec_fn(usize, usize) -> bool {
    |i: usize, j: usize| i <= j
}

struct IndexRank {
    n: usize,
}

impl Ranking for IndexRank {
    closed spec fn extent(&self) -> nat {
        self.n as nat
    }

    closed spec fn leq(&self, i: usize, j: usize) -> bool {
        i <= j
    }

    proof fn lemma_total(&self) {
    }

    fn in_order(&self, i: usize, j: usize) -> (r: bool) {
        i <= j
    }
}

/// Of targets in ascending order the choice is in ascending order, so it is its own sorting.
pub proof fn lemma_choice_is_sorted(
    files: Seq<FileInfo>,
    targets: Seq<usize>,
    prints: Seq<Option<String>>,
    out: Seq<usize>,
)
    requires
        targets.len() <= usize::MAX,
        forall|j: int, k: int| 0 <= j < k < targets.len() ==> targets[j] < targets[k],
        is_sorting(out, full_hash_choice(files, targets, prints), ascending_order()),
    ensures
        out == full_hash_choice(files, targets, prints),
{
    let want = |k: int| shares_print(files, targets, prints, k);
    lemma_ascending(targets.len(), want);
    let s = ascending(targets.len(), want);
    let choice = full_hash_choice(files, targets, prints);
    assert forall|i: int, j: int| 0 <= i < j < choice.len() implies #[trigger] ascending_order()(
        choice[i],
        choice[j],
    ) by {
        assert(s[i] < s[j]);
        assert(s[i] < targets.len() && s[j] < targets.len());
    }
    assert(is_sorting(choice, choice, ascending_order()));
    law_there_is_one_sorting(out, choice, choice, ascending_order());
}

/// The text of a size and a fingerprint together.
spec fn pair_text(size: int, print: Seq<char>) -> Seq<char> {
    decimal(size) + "/"@ + print
}

proof fn lemma_pair_text_injective(a: nat, p: Seq<char>, b: nat, q: Seq<char>)
    requires
        pair_text(a as int, p) == pair_text(b as int, q),
    ensures
        a == b,
        p == q,
{
    reveal_strlit("/");
    let x = digits(a, 10);
    let y = digits(b, 10);
    lemma_digits_worth(a, 10);
    lemma_digits_worth(b, 10);
    let s = pair_text(a as int, p);
    assert(s =~= x + "/"@ + p);
    assert(s =~= y + "/"@ + q);
    if x.len() < y.len() {
        assert(s[x.len() as int] == '/');
        assert(s[x.len() as int] == y[x.len() as int]);
    }
    if y.len() < x.len() {
        assert(s[y.len() as int] == '/');
        assert(s[y.len() as int] == x[y.len() as int]);
    }
    assert(x =~= s.take(x.len() as int));
    assert(y =~= s.take(x.len() as int));
    lemma_digits_injective(a, b, 10);
    assert(p =~= s.skip(x.len() as int + 1));
    assert(q =~= s.skip(x.len() as int + 1));
}

/// The files to hash in full, in ascending order: those that share size and fingerprint
/// with another. A file whose fingerprint could not be taken is left out.
pub fn collect_full_hash_targets(
    files: &Vec<FileInfo>,
    targets: &Vec<usize>,
    prints: &Vec<Option<String>>,
) -> (r: Vec<usize>)
    requires
        prints@.len() == targets@.len(),
        forall|k: int| 0 <= k < targets@.len() ==> #[trigger] targets@[k] < files@.len(),
    ensures
        is_sorting(r@, full_hash_choice(files@, targets@, prints@), ascending_order()),
        forall|k: int|
            0 <= k < r@.len() ==> #[trigger] r@[k] < files@.len() && targets@.contains(r@[k]),
{
    let n: usize = targets.len();
    let mut keys: Vec<Option<String>> = Vec::new();
    let mut i: usize = 0;
    while i < n
        invariant
            n == targets@.len(),
            n == prints@.len(),
            forall|k: int| 0 <= k < targets@.len() ==> #[trigger] targets@[k] < files@.len(),
            i <= n,
            keys@.len() == i,
            forall|k: int|
                0 <= k < i ==> text_option(#[trigger] keys@[k]) == match prints@[k] {
                    None => None,
                    Some(print) => Some(
                        pair_text(files@[targets@[k] as int].file_size as int, print@),
                    ),
                },
        decreases n - i,
    {
        match &prints[i] {
            Some(print) => {
                let key = decimal_text(files[targets[i]].file_size).concat("/").concat(
                    print.as_str(),
                );
                keys.push(Some(key));
            },
            None => {
                keys.push(None);
            },
        }
        i = i + 1;
    }
    let flags = twins(&keys);
    let ghost want = |k: int| shares_print(files@, targets@, prints@, k);
    proof {
        assert forall|k: int| 0 <= k < n implies (#[trigger] flags@[k] <==> shares_print(
            files@,
            targets@,
            prints@,
            k,
        )) by {
            assert(text_option(keys@[k]) is Some <==> prints@[k] is Some);
            if flags@[k] {
                let m = choose|m: int|
                    0 <= m < n && m != k && text_option(#[trigger] keys@[m]) == text_option(
                        keys@[k],
                    );
                assert(text_option(keys@[m]) is Some);
                lemma_pair_text_injective(
                    files@[targets@[m] as int].file_size as nat,
                    prints@[m]->0@,
                    files@[targets@[k] as int].file_size as nat,
                    prints@[k]->0@,
                );
                assert(text_option(prints@[m]) == text_option(prints@[k]));
            }
            if shares_print(files@, targets@, prints@, k) {
                let m = choose|m: int|
                    0 <= m < n && m != k && text_option(#[trigger] prints@[m]) == text_option(
                        prints@[k],
                    ) && files@[targets@[m] as int].file_size
                        == files@[targets@[k] as int].file_size;
                assert(prints@[m] is Some);
                assert(text_option(keys@[m]) == text_option(keys@[k]));
            }
        }
    }
    let mut r: Vec<usize> = Vec::new();
    let mut j: usize = 0;
    while j < n
        invariant
            n == targets@.len(),
            flags@.len() == n,
            j <= n,
            want == (|k: int| shares_print(files@, targets@, prints@, k)),
            forall|k: int|
                0 <= k < n ==> (#[trigger] flags@[k] <==> shares_print(
                    files@,
                    targets@,
                    prints@,
                    k,
                )),
            r@ == chosen(targets@, ascending(j as nat, want)),
        decreases n - j,
    {
        if flags[j] {
            r.push(targets[j]);
            proof {
                assert(chosen(targets@, ascending(j as nat, want).push(j)) =~= chosen(
                    targets@,
                    ascending(j as nat, want),
                ).push(targets@[j as int]));
            }
        }
        j = j + 1;
    }
    proof {
        lemma_ascending(n as nat, want);
        let s = ascending(n as nat, want);
        assert forall|k: int| 0 <= k < r@.len() implies #[trigger] r@[k] < files@.len()
            && targets@.contains(r@[k]) by {
            assert(s[k] < n);
            assert(r@[k] == targets@[s[k] as int]);
        }
    }
    let rank = IndexRank { n: files.len() };
    let out = sorted_indices(&r, &rank);
    proof {
        assert(order_of(rank) =~= ascending_order());
        lemma_sorting_keeps(out@, r@, ascending_order());
        assert forall|k: int| 0 <= k < out@.len() implies #[trigger] out@[k] < files@.len()
            && targets@.contains(out@[k]) by {
            assert(out@.contains(out@[k]));
            assert(r@.contains(out@[k]));
            let m = choose|m: int| 0 <= m < r@.len() && r@[m] == out@[k];
            assert(r@[m] < files@.len() && targets@.contains(r@[m]));
        }
    }
    out
}

/// The prefilter passes over no duplicate. Two unhashed files with the same contents are
/// both among the files that share a size, and, where both have been given their
/// fingerprints, both among the files to hash in full.
pub proof fn law_prefilter_misses_no_duplicate(
    files: Seq<FileInfo>,
    contents: spec_fn(int) -> Seq<u8>,
    i: int,
    j: int,
    targets: Seq<usize>,
    prints: Seq<Option<String>>,
    k: int,
    m: int,
)
    requires
        files.len() <= usize::MAX,
        0 <= i < files.len(),
        0 <= j < files.len(),
        i != j,
        !is_hashed(files[i]),
        !is_hashed(files[j]),
        files[i].file_size == contents(i).len(),
        files[j].file_size == contents(j).len(),
        contents(i) == contents(j),
        prints.len() == targets.len(),
        targets.len() <= usize::MAX,
        0 <= k < targets.len(),
        0 <= m < targets.len(),
        targets[k] == i,
        targets[m] == j,
        text_option(prints[k]) == Some(fingerprint_of(contents(i))),
        text_option(prints[m]) == Some(fingerprint_of(contents(j))),
    ensures
        ascending(files.len(), |i: int| shares_size(files, i)).contains(i as usize),
        ascending(files.len(), |i: int| shares_size(files, i)).contains(j as usize),
        full_hash_choice(files, targets, prints).contains(i as usize),
        full_hash_choice(files, targets, prints).contains(j as usize),
{
    let same = |i: int| shares_size(files, i);
    lemma_ascending(files.len(), same);
    assert(same(i) && same(j));
    assert(ascending(files.len(), same).contains(i as usize));
    assert(ascending(files.len(), same).contains(j as usize));
    let want = |k: int| shares_print(files, targets, prints, k);
    let s = ascending(targets.len(), want);
    lemma_ascending(targets.len(), want);
    assert(want(k)) by {
        assert(text_option(prints[m]) == text_option(prints[k]));
    }
    assert(want(m)) by {
        assert(text_option(prints[k]) == text_option(prints[m]));
    }
    assert(s.contains(k as usize) && s.contains(m as usize));
    let x = choose|x: int| 0 <= x < s.len() && s[x] == k;
    let y = choose|y: int| 0 <= y < s.len() && s[y] == m;
    assert(chosen(targets, s)[x] == i);
    assert(chosen(targets, s)[y] == j);
}

// ---------------------------------------------------------------------------
// Files that compete to be kept
// ---------------------------------------------------------------------------

/// Whether another file has the size and the hash of file `i`.
pub open spec fn is_contested(files: Seq<FileInfo>, i: int) -> bool {
    is_hashed(files[i]) && exists|j: int|
        0 <= j < files.len() && j != i && same_content_key(#[trigger] files[j], files[i])
}

/// The files that share size and hash with another.
pub open spec fn contested_indices(files: Seq<FileInfo>) -> Seq<usize> {
    ascending(files.len(), |i: int| is_contested(files, i))
}

/// The files that share size and hash with another.
pub fn contested_files(files: &Vec<FileInfo>) -> (r: Vec<usize>)
    ensures
        r@ == contested_indices(files@),
        forall|k: int| 0 <= k < r@.len() ==> #[trigger] r@[k] < files@.len(),
{
    let n: usize = files.len();
    let mut keys: Vec<Option<String>> = Vec::new();
    let mut i: usize = 0;
    while i < n
        invariant
            n == files@.len(),
            i <= n,
            keys@.len() == i,
            forall|k: int|
                0 <= k < i ==> text_option(#[trigger] keys@[k]) == if is_hashed(files@[k]) {
                    Some(pair_text(files@[k].file_size as int, files@[k].xxhash@))
                } else {
                    None
                },
        decreases n - i,
    {
        if files[i].xxhash.as_str().is_empty() {
            keys.push(None);
        } else {
            let key = decimal_text(files[i].file_size).concat("/").concat(
                files[i].xxhash.as_str(),
            );
            keys.push(Some(key));
        }
        i = i + 1;
    }
    let flags = twins(&keys);
    let ghost want = |i: int| is_contested(files@, i);
    proof {
        assert forall|k: int| 0 <= k < n implies (#[trigger] flags@[k] <==> is_contested(
            files@,
            k,
        )) by {
            assert(text_option(keys@[k]) is Some <==> is_hashed(files@[k]));
            if flags@[k] {
                let m = choose|m: int|
                    0 <= m < n && m != k && text_option(#[trigger] keys@[m]) == text_option(
                        keys@[k],
                    );
                assert(text_option(keys@[m]) is Some);
                lemma_pair_text_injective(
                    files@[m].file_size as nat,
                    files@[m].xxhash@,
                    files@[k].file_size as nat,
                    files@[k].xxhash@,
                );
                assert(same_content_key(files@[m], files@[k]));
            }
            if is_contested(files@, k) {
                let m = choose|m: int|
                    0 <= m < n && m != k && same_content_key(#[trigger] files@[m], files@[k]);
                assert(is_hashed(files@[m]));
                assert(text_option(keys@[m]) == text_option(keys@[k]));
            }
        }
    }
    let mut r: Vec<usize> = Vec::new();
    let mut j: usize = 0;
    while j < n
        invariant
            n == files@.len(),
            flags@.len() == n,
            j <= n,
            want == (|i: int| is_contested(files@, i)),
            forall|k: int|
                0 <= k < n ==> (#[trigger] flags@[k] <==> is_contested(files@, k)),
            r@ == ascending(j as nat, want),
        decreases n - j,
    {
        if flags[j] {
            r.push(j);
        }
        j = j + 1;
    }
    proof {
        lemma_ascending(n as nat, want);
    }
    r
}

// ---------------------------------------------------------------------------
// What is chosen
// ---------------------------------------------------------------------------

/// Fingerprints are taken of exactly those files without a hash that have the size of
/// another file without a hash.
pub proof fn law_same_sizes_are_fingerprinted(files: Seq<FileInfo>, i: usize)
    requires
        files.len() <= usize::MAX,
    ensures
        ascending(files.len(), |k: int| shares_size(files, k)).contains(i) <==> {
            &&& i < files.len()
            &&& files[i as int].xxhash@.len() == 0
            &&& exists|j: int|
                0 <= j < files.len() && j != i && (#[trigger] files[j]).xxhash@.len() == 0
                    && files[j].file_size == files[i as int].file_size
        },
{
    let shares = |k: int| shares_size(files, k);
    lemma_ascending(files.len(), shares);
    let chosen = ascending(files.len(), shares);
    assert(chosen.contains(i) <==> i < files.len() && shares(i as int));
    if i < files.len() && shares_size(files, i as int) {
        let j = choose|j: int|
            0 <= j < files.len() && j != i && !is_hashed(#[trigger] files[j]) && files[j].file_size
                == files[i as int].file_size;
        assert(files[j].xxhash@.len() == 0);
    }
}

/// Of the files with fingerprints, exactly those are hashed whose size and fingerprint
/// another of them has. One whose fingerprint could not be taken is not.
pub proof fn law_shared_fingerprints_are_hashed(
    files: Seq<FileInfo>,
    targets: Seq<usize>,
    prints: Seq<Option<String>>,
    k: int,
)
    requires
        targets.len() <= usize::MAX,
        targets.no_duplicates(),
        prints.len() == targets.len(),
        0 <= k < targets.len(),
    ensures
        full_hash_choice(files, targets, prints).contains(targets[k]) <==> {
            &&& prints[k] is Some
            &&& exists|m: int|
                0 <= m < targets.len() && m != k && (#[trigger] prints[m]) is Some && prints[m]->0@
                    == prints[k]->0@ && files[targets[m] as int].file_size
                    == files[targets[k] as int].file_size
        },
{
    let shares = |j: int| shares_print(files, targets, prints, j);
    lemma_ascending(targets.len(), shares);
    let positions = ascending(targets.len(), shares);
    let choice = full_hash_choice(files, targets, prints);
    assert(choice.contains(targets[k]) <==> shares(k)) by {
        if shares(k) {
            assert(positions.contains(k as usize));
            let p = choose|p: int| 0 <= p < positions.len() && positions[p] == k as usize;
            assert(choice[p] == targets[k]);
        }
        if choice.contains(targets[k]) {
            let p = choose|p: int| 0 <= p < choice.len() && choice[p] == targets[k];
            assert(targets[positions[p] as int] == targets[k]);
            assert(positions[p] == k);
            assert(shares(positions[p] as int));
        }
    }
    if shares(k) {
        let m = choose|m: int|
            0 <= m < targets.len() && m != k && text_option(#[trigger] prints[m]) == text_option(
                prints[k],
            ) && files[targets[m] as int].file_size == files[targets[k] as int].file_size;
        assert(prints[m] is Some && prints[m]->0@ == prints[k]->0@);
    }
    if prints[k] is Some && exists|m: int|
        0 <= m < targets.len() && m != k && (#[trigger] prints[m]) is Some && prints[m]->0@
            == prints[k]->0@ && files[targets[m] as int].file_size
            == files[targets[k] as int].file_size {
        let m = choose|m: int|
            0 <= m < targets.len() && m != k && (#[trigger] prints[m]) is Some && prints[m]->0@
                == prints[k]->0@ && files[targets[m] as int].file_size
                == files[targets[k] as int].file_size;
        assert(text_option(prints[m]) == text_option(prints[k]));
    }
}

/// The times are asked of exactly those hashed files whose size and hash another file has.
pub proof fn law_times_of_duplicates_are_asked_for(files: Seq<FileInfo>, i: usize)
    requires
        files.len() <= usize::MAX,
    ensures
        contested_indices(files).contains(i) <==> {
            &&& i < files.len()
            &&& files[i as int].xxhash@.len() > 0
            &&& exists|j: int|
                0 <= j < files.len() && j != i && (#[trigger] files[j]).file_size
                    == files[i as int].file_size && files[j].xxhash@ == files[i as int].xxhash@
        },
{
    let contested = |k: int| is_contested(files, k);
    lemma_ascending(files.len(), contested);
    assert(contested_indices(files).contains(i) <==> i < files.len() && contested(i as int));
    if i < files.len() && is_contested(files, i as int) {
        let j = choose|j: int|
            0 <= j < files.len() && j != i && same_content_key(
                #[trigger] files[j],
                files[i as int],
            );
        assert(files[j].file_size == files[i as int].file_size);
    }
    if i < files.len() && (exists|j: int|
        0 <= j < files.len() && j != i && (#[trigger] files[j]).file_size
            == files[i as int].file_size && files[j].xxhash@ == files[i as int].xxhash@) {
        let j = choose|j: int|
            0 <= j < files.len() && j != i && (#[trigger] files[j]).file_size
                == files[i as int].file_size && files[j].xxhash@ == files[i as int].xxhash@;
        assert(same_content_key(files[j], files[i as int]));
    }
}

} // verus!
