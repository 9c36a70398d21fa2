//! Ranking of keyed rows: the `ORDER BY value DESC LIMIT k` step of every
//! ranked query of the store.

use vstd::prelude::*;

verus! {

/// The number of rows a ranked query returns: `min(k, n)`.
pub open spec fn take_count(k: nat, n: nat) -> nat {
    if k < n {
        k
    } else {
        n
    }
}

/// `sel` lists, best first, the positions of the `min(k, |vals|)` largest values of
/// `vals`: positions are distinct and in range, their values do not increase along
/// `sel`, and no position left out holds a value above any position taken.
/// Which of several equal values is taken is left open.
pub open spec fn is_top_k(vals: Seq<u64>, k: nat, sel: Seq<usize>) -> bool {
    &&& sel.len() == take_count(k, vals.len())
    &&& forall|i: int| 0 <= i < sel.len() ==> #[trigger] sel[i] < vals.len()
    &&& forall|i: int, j: int| 0 <= i < j < sel.len() ==> #[trigger] sel[i] != #[trigger] sel[j]
    &&& forall|i: int, j: int|
        0 <= i < j < sel.len() ==> vals[#[trigger] sel[i] as int] >= vals[#[trigger] sel[j] as int]
    &&& forall|c: int, i: int|
        0 <= c < vals.len() && !sel.contains(c as usize) && 0 <= i < sel.len() ==> #[trigger] vals[c]
            <= vals[#[trigger] sel[i] as int]
    &&& k >= vals.len() ==> forall|c: usize| c < vals.len() ==> #[trigger] sel.contains(c)
}

/// Position, within `rem`, of a largest value of `vals` among the positions `rem` lists.
fn position_of_max(vals: &Vec<u64>, rem: &Vec<usize>) -> (p: usize)
    requires
        rem.len() > 0,
        forall|i: int| 0 <= i < rem.len() ==> #[trigger] rem[i] < vals.len(),
    ensures
        p < rem.len(),
        forall|j: int| 0 <= j < rem.len() ==> vals[#[trigger] rem[j] as int] <= vals[rem[p as int] as int],
{
    let mut best: usize = 0;
    let mut j: usize = 1;
    while j < rem.len()
        invariant
            1 <= j <= rem.len(),
            best < j,
            forall|i: int| 0 <= i < rem.len() ==> #[trigger] rem[i] < vals.len(),
            forall|q: int| 0 <= q < j ==> vals[#[trigger] rem[q] as int] <= vals[rem[best as int] as int],
        decreases rem.len() - j,
    {
        if vals[rem[j]] > vals[rem[best]] {
            best = j;
        }
        j = j + 1;
    }
    best
}

/// Selects the positions of the `min(k, |vals|)` largest values, best first.
pub fn top_k(vals: &Vec<u64>, k: usize) -> (sel: Vec<usize>)
    ensures
        is_top_k(vals@, k as nat, sel@),
{
    let n = vals.len();
    let target: usize = if k < n {
        k
    } else {
        n
    };
    let mut rem: Vec<usize> = Vec::new();
    let mut i: usize = 0;
    while i < n
        invariant
            n == vals.len(),
            i <= n,
            rem@.len() == i,
            forall|q: int| 0 <= q < i ==> #[trigger] rem@[q] == q,
        decreases n - i,
    {
        rem.push(i);
        i = i + 1;
    }
    let mut sel: Vec<usize> = Vec::new();
    assert forall|c: usize| c < n implies #[trigger] sel@.contains(c) || rem@.contains(c) by {
        assert(rem@[c as int] == c);
    }
    while sel.len() < target
        invariant
            n == vals.len(),
            target <= n,
            target == take_count(k as nat, n as nat),
            sel.len() <= target,
            sel.len() + rem.len() == n,
            forall|q: int| 0 <= q < sel.len() ==> #[trigger] sel[q] < n,
            forall|q: int| 0 <= q < rem.len() ==> #[trigger] rem[q] < n,
            forall|c: usize| c < n ==> #[trigger] sel@.contains(c) || rem@.contains(c),
            forall|a: int, b: int| 0 <= a < b < sel.len() ==> #[trigger] sel[a] != #[trigger] sel[b],
            forall|a: int, b: int| 0 <= a < b < rem.len() ==> #[trigger] rem[a] != #[trigger] rem[b],
            forall|a: int, b: int|
                0 <= a < sel.len() && 0 <= b < rem.len() ==> #[trigger] sel[a] != #[trigger] rem[b],
            forall|a: int, b: int|
                0 <= a < b < sel.len() ==> vals[#[trigger] sel[a] as int] >= vals[#[trigger] sel[b] as int],
            forall|a: int, b: int|
                0 <= a < sel.len() && 0 <= b < rem.len() ==> vals[#[trigger] rem[b] as int] <= vals[#[trigger] sel[a] as int],
        decreases target - sel.len(),
    {
        let p = position_of_max(vals, &rem);
        let ghost old_rem = rem@;
        let ghost old_sel = sel@;
        let m = rem.swap_remove(p);
        sel.push(m);
        assert forall|b: int| 0 <= b < rem.len() implies #[trigger] rem@[b] == (if b == p {
            old_rem.last()
        } else {
            old_rem[b]
        }) by {}
        assert forall|c: usize| c < n implies #[trigger] sel@.contains(c) || rem@.contains(c) by {
            if old_sel.contains(c) {
                let w = choose|w: int| 0 <= w < old_sel.len() && old_sel[w] == c;
                assert(sel@[w] == c);
            } else {
                assert(old_rem.contains(c));
                let w = choose|w: int| 0 <= w < old_rem.len() && old_rem[w] == c;
                if w == p {
                    assert(sel@[sel.len() - 1] == c);
                } else if w == old_rem.len() - 1 {
                    assert(rem@[p as int] == c);
                } else {
                    assert(rem@[w] == c);
                }
            }
        }
    }
    assert(k >= n ==> rem@.len() == 0);
    assert forall|c: int, q: int|
        0 <= c < vals@.len() && !sel@.contains(c as usize) && 0 <= q < sel@.len() implies #[trigger] vals@[c]
        <= vals@[#[trigger] sel@[q] as int] by {
        assert(sel@.contains(c as usize) || rem@.contains(c as usize));
        let w = choose|w: int| 0 <= w < rem@.len() && rem@[w] == c as usize;
        assert(vals[rem@[w] as int] <= vals[sel@[q] as int]);
    }
    sel
}


/// Two rankings of the same values list the same values in the same order; they
/// can differ only in which of several equal values they take.
pub proof fn lemma_top_k_values_agree(vals: Seq<u64>, k: nat, sel1: Seq<usize>, sel2: Seq<usize>)
    requires
        is_top_k(vals, k, sel1),
        is_top_k(vals, k, sel2),
    ensures
        sel1.len() == sel2.len(),
        forall|i: int|
            0 <= i < sel1.len() ==> vals[#[trigger] sel1[i] as int] == vals[sel2[i] as int],
{
    assert forall|i: int| 0 <= i < sel1.len() implies vals[#[trigger] sel1[i] as int] == vals[sel2[i] as int] by {
        lemma_top_k_not_above(vals, k, sel1, sel2, i);
        lemma_top_k_not_above(vals, k, sel2, sel1, i);
    }
}

/// The `i`-th value of one ranking is not above the `i`-th value of another: else
/// the `i + 1` positions that the first ranks up to `i` would all have to sit among
/// the first `i` positions of the second.
proof fn lemma_top_k_not_above(vals: Seq<u64>, k: nat, sel1: Seq<usize>, sel2: Seq<usize>, i: int)
    requires
        is_top_k(vals, k, sel1),
        is_top_k(vals, k, sel2),
        0 <= i < sel1.len(),
    ensures
        vals[sel1[i] as int] <= vals[sel2[i] as int],
{
    if vals[sel1[i] as int] > vals[sel2[i] as int] {
        let a = sel1.take(i + 1);
        let b = sel2.take(i);
        assert forall|x: usize| a.to_set().contains(x) implies b.to_set().contains(x) by {
            assert(a.contains(x));
            let j = choose|j: int| 0 <= j < a.len() && a[j] == x;
            assert(sel1[j] == x);
            assert(vals[sel1[j] as int] >= vals[sel1[i] as int]);
            if !sel2.contains(x) {
                assert(vals[x as int] <= vals[sel2[i] as int]);
                assert(false);
            }
            let w = choose|w: int| 0 <= w < sel2.len() && sel2[w] == x;
            if w >= i {
                if w > i {
                    assert(vals[sel2[i] as int] >= vals[sel2[w] as int]);
                }
                assert(false);
            }
            assert(b[w] == x);
            assert(b.contains(x));
        }
        assert(a.no_duplicates()) by {
            assert forall|p: int, q: int| 0 <= p < a.len() && 0 <= q < a.len() && p != q implies a[p]
                != a[q] by {
                if p < q {
                    assert(sel1[p] != sel1[q]);
                } else {
                    assert(sel1[q] != sel1[p]);
                }
            }
        }
        a.unique_seq_to_set();
        b.lemma_cardinality_of_set();
        vstd::set_lib::lemma_len_subset(a.to_set(), b.to_set());
    }
}

} // verus!
