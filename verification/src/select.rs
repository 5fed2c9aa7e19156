//! Index lists: the ascending lists of the indices that have some property.
use vstd::prelude::*;

use crate::model::FileInfo;

verus! {

/// The indices below `n` with the property `keep`, in ascending order.
pub open spec fn ascending(n: nat, keep: spec_fn(int) -> bool) -> Seq<usize>
    decreases n,
{
    if n == 0 {
        Seq::empty()
    } else {
        let before = ascending((n - 1) as nat, keep);
        if keep(n - 1) {
            before.push((n - 1) as usize)
        } else {
            before
        }
    }
}

/// The list holds exactly the indices with the property, each once, in ascending order.
pub proof fn lemma_ascending(n: nat, keep: spec_fn(int) -> bool)
    requires
        n <= usize::MAX,
    ensures
        ascending(n, keep).len() <= n,
        forall|x: usize| #[trigger]
            ascending(n, keep).contains(x) <==> x < n && keep(x as int),
        forall|k: int|
            0 <= k < ascending(n, keep).len() ==> #[trigger] ascending(n, keep)[k] < n && keep(
                ascending(n, keep)[k] as int,
            ),
        forall|j: int, k: int|
            0 <= j < k < ascending(n, keep).len() ==> ascending(n, keep)[j] < ascending(n, keep)[k],
        ascending(n, keep).no_duplicates(),
    decreases n,
{
    if n > 0 {
        let m = (n - 1) as nat;
        lemma_ascending(m, keep);
        let before = ascending(m, keep);
        let all = ascending(n, keep);
        if keep(n - 1) {
            assert forall|x: usize| #[trigger] all.contains(x) <==> x < n && keep(x as int) by {
                if all.contains(x) {
                    let k = choose|k: int| 0 <= k < all.len() && all[k] == x;
                    if k < before.len() {
                        assert(before[k] == x);
                        assert(before.contains(x));
                    }
                }
                if x < n && keep(x as int) {
                    if x < m {
                        assert(before.contains(x));
                        let k = choose|k: int| 0 <= k < before.len() && before[k] == x;
                        assert(all[k] == x);
                    } else {
                        assert(all[before.len() as int] == x);
                    }
                }
            }
        }
    }
}

/// Indices with a property and those without it make up all.
pub proof fn lemma_ascending_parts(
    n: nat,
    keep: spec_fn(int) -> bool,
    other: spec_fn(int) -> bool,
)
    requires
        forall|i: int| 0 <= i < n ==> #[trigger] keep(i) != other(i),
    ensures
        ascending(n, keep).len() + ascending(n, other).len() == n,
    decreases n,
{
    if n > 0 {
        lemma_ascending_parts((n - 1) as nat, keep, other);
        assert(keep(n - 1) != other(n - 1));
    }
}

/// Properties that agree below `n` select the same indices.
pub proof fn lemma_ascending_congruent(
    n: nat,
    keep: spec_fn(int) -> bool,
    other: spec_fn(int) -> bool,
)
    requires
        forall|i: int| 0 <= i < n ==> #[trigger] keep(i) == other(i),
    ensures
        ascending(n, keep) == ascending(n, other),
    decreases n,
{
    if n > 0 {
        lemma_ascending_congruent((n - 1) as nat, keep, other);
        assert(keep(n - 1) == other(n - 1));
    }
}

/// Where every index has the property, the list is that of all indices.
pub proof fn lemma_ascending_all(n: nat, every: spec_fn(int) -> bool)
    requires
        forall|i: int| 0 <= i < n ==> #[trigger] every(i),
    ensures
        ascending(n, every).len() == n,
        n <= usize::MAX ==> forall|k: int| 0 <= k < n ==> #[trigger] ascending(n, every)[k] == k,
    decreases n,
{
    if n > 0 {
        lemma_ascending_all((n - 1) as nat, every);
        assert(every(n - 1));
    }
}

/// The files at the given indices.
pub open spec fn picked(files: Seq<FileInfo>, indices: Seq<usize>) -> Seq<FileInfo> {
    Seq::new(indices.len(), |k: int| files[indices[k] as int])
}

/// Copies of the files at the given indices.
pub fn pick(files: &Vec<FileInfo>, indices: &Vec<usize>) -> (r: Vec<FileInfo>)
    requires
        forall|k: int| 0 <= k < indices@.len() ==> #[trigger] indices@[k] < files@.len(),
    ensures
        r@ == picked(files@, indices@),
{
    let mut r: Vec<FileInfo> = Vec::new();
    let mut k: usize = 0;
    while k < indices.len()
        invariant
            k <= indices@.len(),
            forall|j: int| 0 <= j < indices@.len() ==> #[trigger] indices@[j] < files@.len(),
            r@ == picked(files@, indices@).take(k as int),
        decreases indices@.len() - k,
    {
        r.push(files[indices[k]].clone());
        k = k + 1;
        assert(r@ =~= picked(files@, indices@).take(k as int));
    }
    assert(r@ =~= picked(files@, indices@));
    r
}

} // verus!
