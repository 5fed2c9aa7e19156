//! Sorting of index lists by a ranking.
use vstd::prelude::*;
use vstd::relations::*;
use vstd::seq_lib::*;

verus! {

/// A total order of the indices of some list.
pub trait Ranking {
    /// How many indices there are to rank.
    spec fn extent(&self) -> nat;

    /// Whether `i` ranks no later than `j`.
    spec fn leq(&self, i: usize, j: usize) -> bool;

    /// The ranking is a total order: two indices that rank alike are one.
    proof fn lemma_total(&self)
        ensures
            total_ordering(|i: usize, j: usize| self.leq(i, j)),
    ;

    /// Whether `i` ranks no later than `j`.
    fn in_order(&self, i: usize, j: usize) -> (r: bool)
        requires
            i < self.extent(),
            j < self.extent(),
        ensures
            r == self.leq(i, j),
    ;
}

/// Whether `out` lists the indices of `items`, each as often as there, in the order
/// `leq`.
pub open spec fn is_sorting(
    out: Seq<usize>,
    items: Seq<usize>,
    leq: spec_fn(usize, usize) -> bool,
) -> bool {
    &&& sorted_by(out, leq)
    &&& out.to_multiset() == items.to_multiset()
}

/// The order of a ranking.
pub open spec fn order_of<R: Ranking>(rank: R) -> spec_fn(usize, usize) -> bool {
    |i: usize, j: usize| rank.leq(i, j)
}

/// A sorting holds the same indices, as many of them, and no index twice that was there
/// once.
pub proof fn lemma_sorting_keeps(
    out: Seq<usize>,
    items: Seq<usize>,
    leq: spec_fn(usize, usize) -> bool,
)
    requires
        is_sorting(out, items, leq),
    ensures
        out.len() == items.len(),
        forall|x: usize| out.contains(x) <==> items.contains(x),
        items.no_duplicates() ==> out.no_duplicates(),
{
    broadcast use vstd::seq_lib::group_to_multiset_ensures;

    assert(out.len() == out.to_multiset().len());
    assert(items.len() == items.to_multiset().len());
    assert forall|x: usize| out.contains(x) <==> items.contains(x) by {
        assert(out.contains(x) <==> out.to_multiset().count(x) > 0);
        assert(items.contains(x) <==> items.to_multiset().count(x) > 0);
    }
    if items.no_duplicates() {
        items.lemma_multiset_has_no_duplicates();
        out.lemma_multiset_has_no_duplicates_conv();
    }
}

/// There is only one sorting of a list.
pub proof fn law_there_is_one_sorting(
    a: Seq<usize>,
    b: Seq<usize>,
    items: Seq<usize>,
    leq: spec_fn(usize, usize) -> bool,
)
    requires
        total_ordering(leq),
        is_sorting(a, items, leq),
        is_sorting(b, items, leq),
    ensures
        a == b,
{
    lemma_sorted_unique(a, b, leq);
}

fn merge<R: Ranking>(a: &Vec<usize>, b: &Vec<usize>, rank: &R) -> (out: Vec<usize>)
    requires
        forall|k: int| 0 <= k < a@.len() ==> #[trigger] a@[k] < rank.extent(),
        forall|k: int| 0 <= k < b@.len() ==> #[trigger] b@[k] < rank.extent(),
        sorted_by(a@, order_of(*rank)),
        sorted_by(b@, order_of(*rank)),
    ensures
        is_sorting(out@, a@ + b@, order_of(*rank)),
{
    broadcast use vstd::seq_lib::group_to_multiset_ensures;
    broadcast use vstd::multiset::group_multiset_axioms;

    let ghost leq = order_of(*rank);
    let mut out: Vec<usize> = Vec::new();
    let mut i: usize = 0;
    let mut j: usize = 0;
    proof {
        rank.lemma_total();
        assert(leq =~= |i: usize, j: usize| rank.leq(i, j));
        assert(a@.take(0) =~= Seq::empty());
        assert(b@.take(0) =~= Seq::empty());
        assert(a@.take(0) + b@.take(0) =~= out@);
    }
    while i < a.len() || j < b.len()
        invariant
            forall|k: int| 0 <= k < a@.len() ==> #[trigger] a@[k] < rank.extent(),
            forall|k: int| 0 <= k < b@.len() ==> #[trigger] b@[k] < rank.extent(),
            leq == order_of(*rank),
            total_ordering(leq),
            sorted_by(a@, leq),
            sorted_by(b@, leq),
            i <= a@.len(),
            j <= b@.len(),
            sorted_by(out@, leq),
            out@.to_multiset() == (a@.take(i as int) + b@.take(j as int)).to_multiset(),
            forall|k: int, m: int| 0 <= k < out@.len() && i <= m < a@.len() ==> leq(out@[k], a@[m]),
            forall|k: int, m: int| 0 <= k < out@.len() && j <= m < b@.len() ==> leq(out@[k], b@[m]),
        decreases a@.len() - i + b@.len() - j,
    {
        let from_a: bool = if i < a.len() && j < b.len() {
            rank.in_order(a[i], b[j])
        } else {
            i < a.len()
        };
        let ghost before = out@;
        let ghost merged = a@.take(i as int) + b@.take(j as int);
        proof {
            before.to_multiset_ensures();
            merged.to_multiset_ensures();
        }
        if from_a {
            out.push(a[i]);
            proof {
                assert(out@ == before.push(a@[i as int]));
                assert(out@.to_multiset() == before.to_multiset().insert(a@[i as int]));
                if j < b@.len() {
                    assert(leq(a@[i as int], b@[j as int]));
                    assert forall|m: int| j <= m < b@.len() implies leq(a@[i as int], b@[m]) by {
                        if m > j {
                            assert(leq(b@[j as int], b@[m]));
                        }
                    }
                }
                assert(a@.take(i + 1) + b@.take(j as int) =~= merged.insert(i as int, a@[i as int]));
                lemma_insert_to_multiset(merged, i as int, a@[i as int]);
            }
            i = i + 1;
        } else {
            out.push(b[j]);
            proof {
                assert(out@ == before.push(b@[j as int]));
                assert(out@.to_multiset() == before.to_multiset().insert(b@[j as int]));
                assert(merged.push(b@[j as int]).to_multiset() == merged.to_multiset().insert(
                    b@[j as int],
                ));
                if i < a@.len() {
                    assert(!leq(a@[i as int], b@[j as int]));
                    assert(leq(b@[j as int], a@[i as int]));
                    assert forall|m: int| i <= m < a@.len() implies leq(b@[j as int], a@[m]) by {
                        if m > i {
                            assert(leq(a@[i as int], a@[m]));
                        }
                    }
                }
                assert(a@.take(i as int) + b@.take(j + 1) =~= merged.push(b@[j as int]));
            }
            j = j + 1;
        }
    }
    proof {
        assert(a@.take(i as int) + b@.take(j as int) =~= a@ + b@);
    }
    out
}

proof fn lemma_insert_to_multiset(s: Seq<usize>, at: int, x: usize)
    requires
        0 <= at <= s.len(),
    ensures
        s.insert(at, x).to_multiset() == s.to_multiset().insert(x),
{
    broadcast use vstd::seq_lib::group_to_multiset_ensures;
    broadcast use vstd::multiset::group_multiset_axioms;

    let t = s.insert(at, x);
    assert(t.remove(at) =~= s);
    assert(t[at] == x);
    assert(t.contains(x));
    assert(s.to_multiset() =~= t.to_multiset().remove(x));
    assert(t.to_multiset() =~= s.to_multiset().insert(x));
}

/// Sorts a list of indices by `rank`.
pub fn sorted_indices<R: Ranking>(items: &Vec<usize>, rank: &R) -> (out: Vec<usize>)
    requires
        forall|k: int| 0 <= k < items@.len() ==> #[trigger] items@[k] < rank.extent(),
    ensures
        is_sorting(out@, items@, order_of(*rank)),
    decreases items@.len(),
{
    let n: usize = items.len();
    if n < 2 {
        let mut out: Vec<usize> = Vec::new();
        if n == 1 {
            out.push(items[0]);
        }
        assert(out@ =~= items@);
        return out;
    }
    let half: usize = n / 2;
    let mut left: Vec<usize> = Vec::new();
    let mut right: Vec<usize> = Vec::new();
    let mut i: usize = 0;
    while i < n
        invariant
            n == items@.len(),
            half < n,
            i <= n,
            left@ == items@.take(if i <= half {
                i as int
            } else {
                half as int
            }),
            right@ == if i <= half {
                Seq::empty()
            } else {
                items@.subrange(half as int, i as int)
            },
        decreases n - i,
    {
        if i < half {
            left.push(items[i]);
            assert(left@ =~= items@.take(i + 1));
        } else {
            right.push(items[i]);
            assert(right@ =~= items@.subrange(half as int, i + 1));
        }
        i = i + 1;
    }
    proof {
        assert(left@ + right@ =~= items@);
        assert forall|k: int| 0 <= k < left@.len() implies #[trigger] left@[k] < rank.extent() by {
            assert(left@[k] == items@[k]);
        }
        assert forall|k: int| 0 <= k < right@.len() implies #[trigger] right@[k]
            < rank.extent() by {
            assert(right@[k] == items@[half + k]);
        }
    }
    let a = sorted_indices(&left, rank);
    let b = sorted_indices(&right, rank);
    proof {
        lemma_sorting_in_extent(a@, left@, *rank);
        lemma_sorting_in_extent(b@, right@, *rank);
    }
    let out = merge(&a, &b, rank);
    proof {
        lemma_multiset_commutative(a@, b@);
        lemma_multiset_commutative(left@, right@);
    }
    out
}

proof fn lemma_sorting_in_extent<R: Ranking>(out: Seq<usize>, items: Seq<usize>, rank: R)
    requires
        is_sorting(out, items, order_of(rank)),
        forall|k: int| 0 <= k < items.len() ==> #[trigger] items[k] < rank.extent(),
    ensures
        forall|k: int| 0 <= k < out.len() ==> #[trigger] out[k] < rank.extent(),
{
    lemma_sorting_keeps(out, items, order_of(rank));
    assert forall|k: int| 0 <= k < out.len() implies #[trigger] out[k] < rank.extent() by {
        assert(out.contains(out[k]));
        assert(items.contains(out[k]));
    }
}

/// Two strictly ascending lists of the same elements are one list.
pub proof fn lemma_strictly_ascending_unique<A>(s: Seq<A>, t: Seq<A>, lt: spec_fn(A, A) -> bool)
    requires
        forall|i: int, j: int| 0 <= i < j < s.len() ==> lt(#[trigger] s[i], #[trigger] s[j]),
        forall|i: int, j: int| 0 <= i < j < t.len() ==> lt(#[trigger] t[i], #[trigger] t[j]),
        forall|x: A, y: A| #[trigger] lt(x, y) ==> !lt(y, x),
        forall|x: A| #[trigger] s.contains(x) <==> t.contains(x),
    ensures
        s == t,
    decreases s.len(),
{
    if s.len() == 0 {
        if t.len() > 0 {
            assert(t.contains(t[0]));
            assert(s.contains(t[0]));
        }
        assert(s =~= t);
    } else {
        let x = s[s.len() - 1];
        assert(s.contains(x));
        assert(t.contains(x));
        let k = choose|k: int| 0 <= k < t.len() && t[k] == x;
        let y = t[t.len() - 1];
        assert(t.contains(y));
        assert(s.contains(y));
        let j = choose|j: int| 0 <= j < s.len() && s[j] == y;
        if k < t.len() - 1 {
            assert(lt(t[k], t[t.len() - 1]));
            if j < s.len() - 1 {
                assert(lt(s[j], s[s.len() - 1]));
            }
            assert(false);
        }
        let a = s.drop_last();
        let b = t.drop_last();
        assert forall|z: A| #[trigger] a.contains(z) <==> b.contains(z) by {
            if a.contains(z) {
                let m = choose|m: int| 0 <= m < a.len() && a[m] == z;
                assert(s[m] == z);
                assert(lt(s[m], s[s.len() - 1]));
                assert(s.contains(z));
                assert(t.contains(z));
                let o = choose|o: int| 0 <= o < t.len() && t[o] == z;
                assert(o != t.len() - 1);
                assert(b[o] == z);
            }
            if b.contains(z) {
                let m = choose|m: int| 0 <= m < b.len() && b[m] == z;
                assert(t[m] == z);
                assert(lt(t[m], t[t.len() - 1]));
                assert(t.contains(z));
                assert(s.contains(z));
                let o = choose|o: int| 0 <= o < s.len() && s[o] == z;
                assert(o != s.len() - 1);
                assert(a[o] == z);
            }
        }
        assert forall|i: int, j: int| 0 <= i < j < a.len() implies lt(
            #[trigger] a[i],
            #[trigger] a[j],
        ) by {
            assert(lt(s[i], s[j]));
        }
        assert forall|i: int, j: int| 0 <= i < j < b.len() implies lt(
            #[trigger] b[i],
            #[trigger] b[j],
        ) by {
            assert(lt(t[i], t[j]));
        }
        lemma_strictly_ascending_unique(a, b, lt);
        assert(s =~= a.push(x));
        assert(t =~= b.push(x));
    }
}

} // verus!
