//! Ordering by score, highest first; equal scores keep their order.

use crate::binary64::Binary64;
use vstd::prelude::*;

verus! {

/// Whether the item at `i` comes before the item at `j`: its score is higher, or the scores are
/// the same and it came first.
pub open spec fn precedes(scores: Seq<Binary64>, i: int, j: int) -> bool {
    scores[i].total_rank() > scores[j].total_rank() || (scores[i].total_rank()
        == scores[j].total_rank() && i < j)
}

/// Whether a list of positions is in order.
pub open spec fn in_order(scores: Seq<Binary64>, order: Seq<usize>) -> bool {
    forall|a: int, b: int|
        0 <= a < b < order.len() ==> precedes(scores, order[a] as int, order[b] as int)
}

/// The position of every score, each once, highest score first.
pub open spec fn is_ranking(scores: Seq<Binary64>, order: Seq<usize>) -> bool {
    &&& order.len() == scores.len()
    &&& forall|a: int| 0 <= a < order.len() ==> (#[trigger] order[a]) < scores.len()
    &&& in_order(scores, order)
}

/// There is only one ranking of given scores.
pub proof fn ranking_is_unique(scores: Seq<Binary64>, x: Seq<usize>, y: Seq<usize>)
    requires
        is_ranking(scores, x),
        is_ranking(scores, y),
    ensures
        x == y,
{
    lemma_ranking_covers(scores, x);
    lemma_ranking_covers(scores, y);
    lemma_same_ranking(scores, x, y, x.len() as int);
    assert(x.take(x.len() as int) =~= x);
    assert(y.take(x.len() as int) =~= y);
}

proof fn lemma_ranking_covers(scores: Seq<Binary64>, order: Seq<usize>)
    requires
        is_ranking(scores, order),
    ensures
        forall|i: usize| i < scores.len() ==> order.contains(i),
{
    assert(order.no_duplicates()) by {
        assert forall|a: int, b: int| 0 <= a < order.len() && 0 <= b < order.len() && a != b implies
            order[a] != order[b] by {
            if a < b {
                assert(precedes(scores, order[a] as int, order[b] as int));
            } else {
                assert(precedes(scores, order[b] as int, order[a] as int));
            }
        }
    }
    assert forall|i: usize| i < scores.len() implies order.contains(i) by {
        lemma_all_hit(order, scores.len(), i);
    }
}

/// Distinct numbers below their own count leave none of them out.
proof fn lemma_all_hit(order: Seq<usize>, n: nat, i: usize)
    requires
        order.no_duplicates(),
        order.len() == n,
        i < n,
        forall|a: int| 0 <= a < order.len() ==> (#[trigger] order[a]) < n,
    ensures
        order.contains(i),
{
    let hit = order.to_set();
    let wanted = Set::new(|k: usize| k < n);
    order.unique_seq_to_set();
    let every = (usize::MAX + 1) as nat;
    lemma_below(every, i);
    vstd::set_lib::lemma_len_subset(hit, Set::new(|k: usize| k < every));
    lemma_below(n, i);
    assert(hit.subset_of(wanted)) by {
        assert forall|k: usize| hit.contains(k) implies wanted.contains(k) by {
            let a = choose|a: int| 0 <= a < order.len() && order[a] == k;
            assert(order[a] < n);
        }
    }
    vstd::set_lib::lemma_subset_equality(hit, wanted);
    assert(wanted.contains(i));
}

proof fn lemma_below(n: nat, i: usize)
    requires
        n <= usize::MAX + 1,
    ensures
        Set::new(|k: usize| k < n).finite(),
        Set::new(|k: usize| k < n).len() == n,
    decreases n,
{
    let all = Set::new(|k: usize| k < n);
    if n == 0 {
        assert(all =~= Set::empty());
    } else {
        let fewer = Set::new(|k: usize| k < (n - 1) as nat);
        lemma_below((n - 1) as nat, i);
        assert(all =~= fewer.insert((n - 1) as usize));
    }
}

proof fn lemma_same_ranking(scores: Seq<Binary64>, x: Seq<usize>, y: Seq<usize>, count: int)
    requires
        is_ranking(scores, x),
        is_ranking(scores, y),
        forall|i: usize| i < scores.len() ==> x.contains(i),
        forall|i: usize| i < scores.len() ==> y.contains(i),
        0 <= count <= x.len(),
    ensures
        x.take(count) == y.take(count),
    decreases count,
{
    if count > 0 {
        lemma_same_ranking(scores, x, y, count - 1);
        let k = count - 1;
        assert forall|i: int| 0 <= i < k implies x[i] == y[i] by {
            assert(x.take(k)[i] == y.take(k)[i]);
        }
        if x[k] != y[k] {
            assert(y.contains(x[k]));
            assert(x.contains(y[k]));
            let b = choose|b: int| 0 <= b < y.len() && y[b] == x[k];
            let a = choose|a: int| 0 <= a < x.len() && x[a] == y[k];
            if b < k {
                assert(x[b] == x[k]);
                assert(precedes(scores, x[b] as int, x[k] as int));
            }
            if a < k {
                assert(y[a] == y[k]);
                assert(precedes(scores, y[a] as int, y[k] as int));
            }
            assert(precedes(scores, y[k] as int, y[b] as int));
            assert(precedes(scores, x[k] as int, x[a] as int));
            assert(false);
        }
        assert(x.take(count) =~= x.take(k).push(x[k]));
        assert(y.take(count) =~= y.take(k).push(y[k]));
    }
}

fn goes_first(scores: &Vec<Binary64>, i: usize, j: usize) -> (r: bool)
    requires
        i < scores.len(),
        j < scores.len(),
    ensures
        r == precedes(scores@, i as int, j as int),
{
    if scores[j].total_lt(scores[i]) {
        true
    } else if scores[i].total_lt(scores[j]) {
        false
    } else {
        i < j
    }
}

/// Merges two lists of positions that are in order; every position of the first list is below
/// every position of the second.
fn merge(scores: &Vec<Binary64>, a: Vec<usize>, b: Vec<usize>) -> (r: Vec<usize>)
    requires
        forall|i: int| 0 <= i < a.len() ==> (#[trigger] a[i]) < scores.len(),
        forall|i: int| 0 <= i < b.len() ==> (#[trigger] b[i]) < scores.len(),
        forall|i: int, j: int| 0 <= i < a.len() && 0 <= j < b.len() ==> a[i] < b[j],
        in_order(scores@, a@),
        in_order(scores@, b@),
        a.len() + b.len() <= usize::MAX,
    ensures
        r.len() == a.len() + b.len(),
        in_order(scores@, r@),
        forall|i: int| 0 <= i < r.len() ==> a@.contains(#[trigger] r[i]) || b@.contains(r[i]),
{
    let mut r: Vec<usize> = Vec::new();
    let mut i: usize = 0;
    let mut j: usize = 0;
    while i < a.len() || j < b.len()
        invariant
            i <= a.len(),
            j <= b.len(),
            r.len() == i + j,
            a.len() + b.len() <= usize::MAX,
            forall|k: int| 0 <= k < a.len() ==> (#[trigger] a[k]) < scores.len(),
            forall|k: int| 0 <= k < b.len() ==> (#[trigger] b[k]) < scores.len(),
            forall|k: int, l: int| 0 <= k < a.len() && 0 <= l < b.len() ==> a[k] < b[l],
            in_order(scores@, a@),
            in_order(scores@, b@),
            in_order(scores@, r@),
            forall|k: int| 0 <= k < r.len() ==> a@.contains(#[trigger] r[k]) || b@.contains(r[k]),
            forall|k: int, l: int|
                0 <= k < r.len() && i <= l < a.len() ==> precedes(
                    scores@,
                    r[k] as int,
                    a[l] as int,
                ),
            forall|k: int, l: int|
                0 <= k < r.len() && j <= l < b.len() ==> precedes(
                    scores@,
                    r[k] as int,
                    b[l] as int,
                ),
        decreases a.len() + b.len() - i - j,
    {
        let ghost before = r@;
        if j >= b.len() || (i < a.len() && goes_first(scores, a[i], b[j])) {
            proof {
                assert(a@.contains(a[i as int]));
                assert forall|l: int| j <= l < b.len() implies precedes(
                    scores@,
                    a[i as int] as int,
                    b[l] as int,
                ) by {
                    if l > j {
                        assert(precedes(scores@, b[j as int] as int, b[l] as int));
                    }
                }
            }
            r.push(a[i]);
            i = i + 1;
        } else {
            proof {
                assert(b@.contains(b[j as int]));
                assert forall|l: int| i <= l < a.len() implies precedes(
                    scores@,
                    b[j as int] as int,
                    a[l] as int,
                ) by {
                    if l > i {
                        assert(precedes(scores@, a[i as int] as int, a[l] as int));
                    }
                }
            }
            r.push(b[j]);
            j = j + 1;
        }
        proof {
            assert forall|x: int, y: int| 0 <= x < y < r.len() implies precedes(
                scores@,
                r[x] as int,
                r[y] as int,
            ) by {
                if y < before.len() {
                    assert(precedes(scores@, before[x] as int, before[y] as int));
                }
            }
        }
    }
    r
}

/// The positions from `from` to `to`, highest score first.
fn rank_between(scores: &Vec<Binary64>, from: usize, to: usize) -> (r: Vec<usize>)
    requires
        from <= to <= scores.len(),
    ensures
        r.len() == to - from,
        forall|a: int| 0 <= a < r.len() ==> from <= (#[trigger] r[a]) < to,
        in_order(scores@, r@),
    decreases to - from,
{
    if to - from <= 1 {
        let mut r: Vec<usize> = Vec::new();
        if from < to {
            r.push(from);
        }
        return r;
    }
    let middle: usize = from + (to - from) / 2;
    let a = rank_between(scores, from, middle);
    let b = rank_between(scores, middle, to);
    let r = merge(scores, a, b);
    proof {
        assert forall|k: int| 0 <= k < r.len() implies from <= (#[trigger] r[k]) < to by {
            if a@.contains(r[k]) {
                let x = choose|x: int| 0 <= x < a.len() && a[x] == r[k];
                assert(from <= a[x] < middle);
            } else {
                let x = choose|x: int| 0 <= x < b.len() && b[x] == r[k];
                assert(middle <= b[x] < to);
            }
        }
    }
    r
}

/// The positions of all scores, highest score first; equal scores keep their order.
pub fn rank_descending(scores: &Vec<Binary64>) -> (r: Vec<usize>)
    ensures
        is_ranking(scores@, r@),
{
    rank_between(scores, 0, scores.len())
}

/// Whether `sorted` holds the items by their scores, highest first; equal scores keep their order.
pub open spec fn sorted_by<T>(items: Seq<T>, scores: Seq<Binary64>, sorted: Seq<T>) -> bool {
    exists|order: Seq<usize>|
        #[trigger] is_ranking(scores, order) && sorted.len() == items.len() && forall|i: int|
            0 <= i < sorted.len() ==> #[trigger] sorted[i] == items[order[i] as int]
}

/// Sorts items by their scores, highest first; equal scores keep their order.
pub fn sort_descending<T>(items: Vec<T>, scores: &Vec<Binary64>) -> (r: Vec<T>)
    requires
        items.len() == scores.len(),
    ensures
        sorted_by(items@, scores@, r@),
{
    let order = rank_descending(scores);
    let ghost all = items@;
    let mut slots: Vec<Option<T>> = Vec::new();
    for item in iter: items
        invariant
            slots.len() == iter.index(),
            iter.seq() == all,
            forall|i: int| 0 <= i < slots.len() ==> #[trigger] slots[i] == Some(all[i]),
    {
        slots.push(Some(item));
    }
    let mut r: Vec<T> = Vec::new();
    let mut k: usize = 0;
    while k < order.len()
        invariant
            k <= order.len(),
            r.len() == k,
            slots.len() == all.len(),
            scores.len() == all.len(),
            is_ranking(scores@, order@),
            forall|i: int| 0 <= i < k ==> #[trigger] r[i] == all[order[i] as int],
            forall|a: int|
                k <= a < order.len() ==> #[trigger] slots[order[a] as int] == Some(
                    all[order[a] as int],
                ),
        decreases order.len() - k,
    {
        let at: usize = order[k];
        proof {
            assert forall|a: int| k < a < order.len() implies order[a] != order[k as int] by {
                assert(precedes(scores@, order[k as int] as int, order[a] as int));
            }
        }
        let taken = slots[at].take();
        if let Some(item) = taken {
            r.push(item);
        }
        k = k + 1;
    }
    r
}

} // verus!
