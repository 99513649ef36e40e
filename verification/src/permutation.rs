//! Bijection checks on a solver's index permutation, and the scatter
//! that places each input element at its assigned tour position.

use vstd::prelude::*;
use vstd::multiset::Multiset;

verus! {

/// `p` assigns to each original index `i < n` a tour position `p[i]`,
/// every position in `{0, ..., n-1}` being used exactly once.
pub open spec fn is_bijection(p: Seq<usize>, n: nat) -> bool {
    &&& p.len() == n
    &&& forall|i: int| 0 <= i < n ==> p[i] < n
    &&& forall|i: int, j: int| 0 <= i < n && 0 <= j < n && i != j ==> p[i] != p[j]
    &&& forall|k: usize| k < n ==> #[trigger] p.contains(k)
}

/// Decides whether the first `n` entries of `perm` form a bijection
/// over the tour positions `{0, ..., n-1}`.
pub fn check_bijection(perm: &Vec<usize>, n: usize) -> (ok: bool)
    requires
        n <= perm@.len(),
    ensures
        ok == is_bijection(perm@.take(n as int), n as nat),
{
    let mut seen: Vec<bool> = Vec::new();
    let mut k: usize = 0;
    while k < n
        invariant
            k <= n,
            seen@.len() == k,
            forall|j: int| 0 <= j < k ==> !seen@[j],
        decreases n - k,
    {
        seen.push(false);
        k = k + 1;
    }
    let mut i: usize = 0;
    while i < n
        invariant
            i <= n,
            n <= perm@.len(),
            seen@.len() == n,
            forall|j: int| 0 <= j < i ==> perm@[j] < n,
            forall|j: int, l: int| 0 <= j < i && 0 <= l < i && j != l ==> perm@[j] != perm@[l],
            forall|k2: int| 0 <= k2 < n ==>
                (seen@[k2] <==> exists|j: int| 0 <= j < i && #[trigger] perm@[j] == k2 as usize),
        decreases n - i,
    {
        let pos = perm[i];
        if pos >= n {
            proof {
                assert(perm@.take(n as int)[i as int] == perm@[i as int]);
            }
            return false;
        }
        if seen[pos] {
            proof {
                let prefix = perm@.take(n as int);
                let j = choose|j: int| 0 <= j < i && #[trigger] perm@[j] == pos;
                assert(prefix[j] == pos && prefix[i as int] == pos && j != i);
            }
            return false;
        }
        seen[pos] = true;
        i = i + 1;
    }
    let mut k: usize = 0;
    while k < n
        invariant
            k <= n,
            n <= perm@.len(),
            seen@.len() == n,
            forall|j: int| 0 <= j < n ==> perm@[j] < n,
            forall|j: int, l: int| 0 <= j < n && 0 <= l < n && j != l ==> perm@[j] != perm@[l],
            forall|k2: int| 0 <= k2 < n ==>
                (seen@[k2] <==> exists|j: int| 0 <= j < n && #[trigger] perm@[j] == k2 as usize),
            forall|j: int| 0 <= j < k ==> seen@[j],
        decreases n - k,
    {
        if !seen[k] {
            proof {
                let prefix = perm@.take(n as int);
                assert forall|j: int| 0 <= j < n implies prefix[j] != k by {
                    assert(prefix[j] == perm@[j]);
                }
                assert(!prefix.contains(k));
            }
            return false;
        }
        k = k + 1;
    }
    proof {
        let prefix = perm@.take(n as int);
        assert forall|j: int| 0 <= j < n implies prefix[j] < n by {
            assert(prefix[j] == perm@[j]);
        }
        assert forall|k2: usize| k2 < n implies #[trigger] prefix.contains(k2) by {
            assert(seen@[k2 as int]);
            let j = choose|j: int| 0 <= j < n && #[trigger] perm@[j] == k2;
            assert(prefix[j] == k2);
        }
    }
    true
}

/// Scatter step: the element at original index `i` moves to tour position
/// `perm[i]`. Applying the assignment as a scatter (not a gather) is what
/// makes `perm[i]` mean "tour position of stop `i`".
pub fn apply_permutation<T>(items: Vec<T>, perm: &Vec<usize>) -> (out: Vec<T>)
    requires
        items@.len() <= perm@.len(),
        is_bijection(perm@.take(items@.len() as int), items@.len() as nat),
    ensures
        out@.len() == items@.len(),
        forall|i: int| #![trigger perm@[i]] 0 <= i < items@.len() ==> out@[perm@[i] as int] == items@[i],
{
    let ghost orig = items@;
    let n = items.len();
    proof {
        let prefix = perm@.take(n as int);
        assert forall|j: int| 0 <= j < n implies perm@[j] < n by {
            assert(prefix[j] == perm@[j]);
        }
        assert forall|j: int, l: int| 0 <= j < n && 0 <= l < n && j != l implies
            perm@[j] != perm@[l] by {
            assert(prefix[j] == perm@[j] && prefix[l] == perm@[l]);
        }
    }
    let mut items = items;
    let mut slots: Vec<Option<T>> = Vec::new();
    let mut k: usize = 0;
    while k < n
        invariant
            k <= n,
            slots@.len() == k,
        decreases n - k,
    {
        slots.push(None);
        k = k + 1;
    }
    let mut i: usize = n;
    while i > 0
        invariant
            i <= n,
            n == orig.len(),
            n <= perm@.len(),
            items@ == orig.take(i as int),
            slots@.len() == n,
            forall|j: int| 0 <= j < n ==> perm@[j] < n,
            forall|j: int, l: int| 0 <= j < n && 0 <= l < n && j != l ==> perm@[j] != perm@[l],
            forall|j: int| i <= j < n ==> slots@[perm@[j] as int] == Some(orig[j]),
        decreases i,
    {
        i = i - 1;
        proof {
            assert(orig.take(i as int + 1).drop_last() =~= orig.take(i as int));
            assert(orig.take(i as int + 1).last() == orig[i as int]);
        }
        let x = items.pop().unwrap();
        let pos = perm[i];
        slots[pos] = Some(x);
    }
    let ghost full = slots@;
    proof {
        let prefix = perm@.take(n as int);
        assert forall|k2: int| 0 <= k2 < n implies full[k2] is Some by {
            assert(prefix.contains(k2 as usize));
            let j = choose|j: int| 0 <= j < prefix.len() && prefix[j] == k2 as usize;
            assert(perm@[j] == k2 as usize);
            assert(full[perm@[j] as int] == Some(orig[j]));
        }
    }
    let mut out: Vec<T> = Vec::new();
    let mut k: usize = 0;
    while k < n
        invariant
            k <= n,
            n == full.len(),
            slots@ == full.skip(k as int),
            out@.len() == k,
            forall|k2: int| 0 <= k2 < n ==> full[k2] is Some,
            forall|k2: int| 0 <= k2 < k ==> full[k2] == Some(out@[k2]),
        decreases n - k,
    {
        let s = slots.remove(0);
        proof {
            assert(s == full.skip(k as int)[0]);
            assert(s == full[k as int]);
            assert(full.skip(k as int).remove(0) =~= full.skip(k as int + 1));
        }
        match s {
            Some(x) => {
                out.push(x);
            },
            None => {
                proof {
                    assert(false);
                }
            },
        }
        k = k + 1;
    }
    proof {
        assert forall|i2: int| 0 <= i2 < n implies out@[perm@[i2] as int] == orig[i2] by {
            assert(full[perm@[i2] as int] == Some(orig[i2]));
            assert(full[perm@[i2] as int] == Some(out@[perm@[i2] as int]));
        }
    }
    out
}

/// Law: a scatter by the identity permutation leaves the sequence
/// unchanged — reordered labels equal the input names, and the route
/// keeps its original order.
pub proof fn lemma_identity_scatter<T>(items: Seq<T>, perm: Seq<usize>, out: Seq<T>)
    requires
        items.len() <= usize::MAX,
        perm.len() >= items.len(),
        forall|i: int| 0 <= i < items.len() ==> #[trigger] perm[i] == i as usize,
        out.len() == items.len(),
        forall|i: int| 0 <= i < items.len() ==> out[perm[i] as int] == items[i],
    ensures
        out == items,
{
    assert forall|i: int| 0 <= i < items.len() implies out[i] == items[i] by {
        assert(perm[i] == i as usize);
        assert(out[perm[i] as int] == items[i]);
    }
    assert(out =~= items);
}

/// Law: a scatter by a bijection is a pure rearrangement — the output
/// holds the same multiset of values as the input, none gained, none
/// lost, none duplicated.
pub proof fn lemma_scatter_is_rearrangement<T>(items: Seq<T>, perm: Seq<usize>, out: Seq<T>)
    requires
        items.len() <= usize::MAX,
        is_bijection(perm, items.len() as nat),
        out.len() == items.len(),
        forall|i: int| 0 <= i < items.len() ==> out[perm[i] as int] == items[i],
    ensures
        out.to_multiset() == items.to_multiset(),
    decreases items.len(),
{
    broadcast use vstd::seq_lib::group_to_multiset_ensures;
    broadcast use vstd::multiset::group_multiset_axioms;

    let n = items.len() as int;
    if n == 0 {
        assert(out =~= items);
    } else {
        assert(perm.contains((n - 1) as usize));
        let i0 = choose|i: int| 0 <= i < n && perm[i] == (n - 1) as usize;

        let items2 = items.remove(i0);
        let perm2 = perm.remove(i0);
        let out2 = out.drop_last();

        items.remove_ensures(i0);
        perm.remove_ensures(i0);

        assert forall|j: int| 0 <= j < n - 1 implies perm2[j] < n - 1 by {
            if j < i0 {
                assert(perm2[j] == perm[j]);
            } else {
                assert(perm2[j] == perm[j + 1]);
            }
        }
        assert forall|j: int, l: int| 0 <= j < n - 1 && 0 <= l < n - 1 && j != l implies
            perm2[j] != perm2[l] by {
            let j_orig: int = if j < i0 { j } else { j + 1 };
            let l_orig: int = if l < i0 { l } else { l + 1 };
            assert(perm2[j] == perm[j_orig] && perm2[l] == perm[l_orig]);
        }
        assert forall|k: usize| k < n - 1 implies #[trigger] perm2.contains(k) by {
            assert(perm.contains(k));
            let i = choose|i: int| 0 <= i < perm.len() && perm[i] == k;
            assert(perm[i0] == (n - 1) as usize);
            assert(i != i0);
            if i < i0 {
                assert(perm2[i] == k);
            } else {
                assert(perm2[i - 1] == k);
            }
        }
        assert forall|j: int| 0 <= j < n - 1 implies out2[perm2[j] as int] == items2[j] by {
            let j_orig: int = if j < i0 { j } else { j + 1 };
            assert(perm2[j] == perm[j_orig]);
            assert(items2[j] == items[j_orig]);
            assert(out[perm[j_orig] as int] == items[j_orig]);
            assert(perm[j_orig] < n && perm[j_orig] != (n - 1) as usize);
            assert(out2[perm[j_orig] as int] == out[perm[j_orig] as int]);
        }

        lemma_scatter_is_rearrangement(items2, perm2, out2);

        let v = items[i0];
        assert(out[perm[i0] as int] == v);
        assert(perm[i0] as int == n - 1);
        assert(out2 =~= out.remove(n - 1));
        assert(items2.to_multiset() == items.to_multiset().remove(v));
        assert(out2.to_multiset() == out.to_multiset().remove(out[n - 1]));
        assert(out[n - 1] == v);

        assert(items.contains(v)) by {
            assert(items[i0] == v);
        }
        assert(out.contains(v)) by {
            assert(out[n - 1] == v);
        }
        assert(items.to_multiset().count(v) > 0);
        assert(out.to_multiset().count(v) > 0);

        assert forall|a: T| out.to_multiset().count(a) == items.to_multiset().count(a) by {
            assert(out.to_multiset().remove(v).count(a) == items.to_multiset().remove(v).count(a));
            assert(Multiset::singleton(v).count(v) == 1);
            if a != v {
                assert(Multiset::singleton(v).count(a) == 0);
            }
        }
        assert(out.to_multiset() =~= items.to_multiset());
    }
}

} // verus!
