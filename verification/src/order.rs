//! Ordering accounts by a key and then by name.

use crate::text::{chars_lt, seq_lt};
use vstd::prelude::*;

verus! {

pub proof fn lemma_seq_lt_irreflexive(a: Seq<char>)
    ensures
        !seq_lt(a, a),
    decreases a.len(),
{
    if a.len() > 0 {
        lemma_seq_lt_irreflexive(a.drop_first());
    }
}

pub proof fn lemma_seq_lt_asymmetric(a: Seq<char>, b: Seq<char>)
    ensures
        !(seq_lt(a, b) && seq_lt(b, a)),
    decreases a.len(),
{
    if a.len() > 0 && b.len() > 0 && a[0] == b[0] {
        lemma_seq_lt_asymmetric(a.drop_first(), b.drop_first());
    }
}

pub proof fn lemma_seq_lt_transitive(a: Seq<char>, b: Seq<char>, c: Seq<char>)
    requires
        seq_lt(a, b),
        seq_lt(b, c),
    ensures
        seq_lt(a, c),
    decreases a.len(),
{
    if a.len() > 0 && b.len() > 0 && c.len() > 0 && a[0] == b[0] && b[0] == c[0] {
        lemma_seq_lt_transitive(a.drop_first(), b.drop_first(), c.drop_first());
    }
}

pub proof fn lemma_seq_lt_total(a: Seq<char>, b: Seq<char>)
    requires
        a != b,
    ensures
        seq_lt(a, b) || seq_lt(b, a),
    decreases a.len(),
{
    if a.len() > 0 && b.len() > 0 {
        if a[0] == b[0] {
            assert(a.drop_first() != b.drop_first()) by {
                if a.drop_first() == b.drop_first() {
                    assert(a =~= seq![a[0]] + a.drop_first());
                    assert(b =~= seq![b[0]] + b.drop_first());
                }
            }
            lemma_seq_lt_total(a.drop_first(), b.drop_first());
        } else {
            assert((a[0] as int) != (b[0] as int));
        }
    } else if a.len() == 0 && b.len() == 0 {
        assert(a =~= b);
    }
}

/// An account's sort key: an optional text, then the account's name.
pub type SortKey = (Option<Seq<char>>, Seq<char>);

/// `a` comes strictly before `b`: no text before any text, texts and then names in
/// lexicographic order.
pub open spec fn key_lt(a: SortKey, b: SortKey) -> bool {
    match (a.0, b.0) {
        (None, Some(_)) => true,
        (Some(_), None) => false,
        (Some(x), Some(y)) => seq_lt(x, y) || (x == y && seq_lt(a.1, b.1)),
        (None, None) => seq_lt(a.1, b.1),
    }
}

pub proof fn lemma_key_lt_order(a: SortKey, b: SortKey, c: SortKey)
    ensures
        !key_lt(a, a),
        !(key_lt(a, b) && key_lt(b, a)),
        key_lt(a, b) && key_lt(b, c) ==> key_lt(a, c),
        a != b ==> key_lt(a, b) || key_lt(b, a),
{
    lemma_seq_lt_irreflexive(a.1);
    if let Some(x) = a.0 {
        lemma_seq_lt_irreflexive(x);
    }
    lemma_seq_lt_asymmetric(a.1, b.1);
    if let (Some(x), Some(y)) = (a.0, b.0) {
        lemma_seq_lt_asymmetric(x, y);
        if x != y {
            lemma_seq_lt_total(x, y);
        }
    }
    if a != b && a.0 == b.0 {
        assert(a.1 != b.1);
        lemma_seq_lt_total(a.1, b.1);
    }
    if key_lt(a, b) && key_lt(b, c) {
        if seq_lt(a.1, b.1) && seq_lt(b.1, c.1) {
            lemma_seq_lt_transitive(a.1, b.1, c.1);
        }
        if let (Some(x), Some(y), Some(z)) = (a.0, b.0, c.0) {
            if seq_lt(x, y) && seq_lt(y, z) {
                lemma_seq_lt_transitive(x, y, z);
            }
        }
    }
}

/// The key of an exec key.
pub open spec fn key_view(k: (Option<Vec<char>>, Vec<char>)) -> SortKey {
    (
        match k.0 {
            Some(t) => Some(t@),
            None => None,
        },
        k.1@,
    )
}

/// `a` comes strictly before `b`.
pub fn key_less(a: &(Option<Vec<char>>, Vec<char>), b: &(Option<Vec<char>>, Vec<char>)) -> (r: bool)
    ensures
        r == key_lt(key_view(*a), key_view(*b)),
{
    match (&a.0, &b.0) {
        (None, Some(_)) => true,
        (Some(_), None) => false,
        (Some(x), Some(y)) => {
            if chars_lt(x.as_slice(), y.as_slice()) {
                true
            } else if chars_lt(y.as_slice(), x.as_slice()) {
                false
            } else {
                proof {
                    if x@ != y@ {
                        lemma_seq_lt_total(x@, y@);
                    }
                }
                chars_lt(a.1.as_slice(), b.1.as_slice())
            }
        },
        (None, None) => chars_lt(a.1.as_slice(), b.1.as_slice()),
    }
}

/// The positions `0..n`, each exactly once.
pub open spec fn is_permutation(order: Seq<usize>, n: nat) -> bool {
    &&& order.len() == n
    &&& forall|i: int| 0 <= i < order.len() ==> #[trigger] order[i] < n
    &&& forall|i: int, j: int| 0 <= i < j < order.len() ==> order[i] != order[j]
}

/// The keys taken in the given order never go down.
pub open spec fn sorted_by(keys: Seq<SortKey>, order: Seq<usize>) -> bool {
    forall|i: int, j: int|
        0 <= i < j < order.len() ==> !key_lt(keys[order[j] as int], keys[order[i] as int])
}

/// The order in which the keys are sorted (a stable insertion sort).
pub fn sort_order(keys: &Vec<(Option<Vec<char>>, Vec<char>)>) -> (r: Vec<usize>)
    ensures
        is_permutation(r@, keys@.len()),
        sorted_by(keys@.map_values(|k: (Option<Vec<char>>, Vec<char>)| key_view(k)), r@),
{
    let ghost kv = keys@.map_values(|k: (Option<Vec<char>>, Vec<char>)| key_view(k));
    let mut out: Vec<usize> = Vec::new();
    let mut i: usize = 0;
    while i < keys.len()
        invariant
            i <= keys@.len(),
            kv == keys@.map_values(|k: (Option<Vec<char>>, Vec<char>)| key_view(k)),
            is_permutation(out@, i as nat),
            sorted_by(kv, out@),
        decreases keys@.len() - i,
    {
        // The first position whose key is strictly after key i.
        let mut p: usize = 0;
        while p < out.len() && !key_less(&keys[i], &keys[out[p]])
            invariant
                p <= out@.len(),
                is_permutation(out@, i as nat),
                i < keys@.len(),
                kv == keys@.map_values(|k: (Option<Vec<char>>, Vec<char>)| key_view(k)),
                forall|q: int| 0 <= q < p ==> !key_lt(kv[i as int], #[trigger] kv[out@[q] as int]),
            decreases out@.len() - p,
        {
            p = p + 1;
        }
        let ghost pre = out@;
        proof {
            if p < out@.len() {
                assert(key_lt(kv[i as int], kv[out@[p as int] as int]));
            }
        }
        out.insert(p, i);
        proof {
            assert(out@ == pre.insert(p as int, i));
            assert forall|a: int, b: int| 0 <= a < b < out@.len() implies !key_lt(
                kv[out@[b] as int],
                kv[out@[a] as int],
            ) by {
                let ka = kv[out@[a] as int];
                let kb = kv[out@[b] as int];
                if a < p && b == p {
                    lemma_key_lt_order(ka, kb, kb);
                    if ka != kb {
                        assert(!key_lt(kb, ka));
                    }
                } else if a == p && b > p {
                    // kb is at or after the first key strictly after key i.
                    let first = kv[pre[p as int] as int];
                    assert(key_lt(ka, first));
                    if b - 1 > p {
                        assert(!key_lt(kb, first));
                    }
                    lemma_key_lt_order(kb, ka, first);
                    lemma_key_lt_order(ka, first, kb);
                    lemma_key_lt_order(kb, first, ka);
                    if ka != kb && kb != first {
                        lemma_key_lt_order(first, kb, ka);
                    }
                } else if a < p && b < p {
                    assert(out@[a] == pre[a] && out@[b] == pre[b]);
                } else if a < p && b > p {
                    assert(out@[a] == pre[a] && out@[b] == pre[b - 1]);
                } else {
                    assert(out@[a] == pre[a - 1] && out@[b] == pre[b - 1]);
                }
            }
            assert forall|a: int, b: int| 0 <= a < b < out@.len() implies out@[a] != out@[b] by {
                if a < p {
                    assert(out@[a] == pre[a]);
                } else if a > p {
                    assert(out@[a] == pre[a - 1]);
                }
                if b < p {
                    assert(out@[b] == pre[b]);
                } else if b > p {
                    assert(out@[b] == pre[b - 1]);
                }
            }
            assert forall|a: int| 0 <= a < out@.len() implies #[trigger] out@[a] < i + 1 by {
                if a < p {
                    assert(out@[a] == pre[a]);
                } else if a > p {
                    assert(out@[a] == pre[a - 1]);
                }
            }
        }
        i = i + 1;
    }
    out
}

/// The items taken in the given order.
pub fn permute<T>(items: Vec<T>, order: &Vec<usize>) -> (r: Vec<T>)
    requires
        is_permutation(order@, items@.len()),
    ensures
        r@.len() == order@.len(),
        forall|i: int| 0 <= i < order@.len() ==> r@[i] == items@[#[trigger] order@[i] as int],
{
    let ghost orig = items@;
    let mut slots: Vec<Option<T>> = Vec::new();
    let mut items = items;
    while items.len() > 0
        invariant
            items@.len() + slots@.len() == orig.len(),
            forall|j: int| 0 <= j < items@.len() ==> items@[j] == orig[j],
            forall|j: int| 0 <= j < slots@.len() ==> #[trigger] slots@[j] == Some(orig[orig.len() - 1 - j]),
        decreases items@.len(),
    {
        let x = items.pop().unwrap();
        slots.push(Some(x));
    }
    // slots now hold the items in reverse order.
    let n = slots.len();
    let mut out: Vec<T> = Vec::new();
    let mut i: usize = 0;
    while i < order.len()
        invariant
            n == orig.len(),
            slots@.len() == n,
            is_permutation(order@, n as nat),
            i <= order@.len(),
            out@.len() == i,
            forall|j: int| 0 <= j < i ==> out@[j] == orig[#[trigger] order@[j] as int],
            forall|j: int|
                0 <= j < n ==> (#[trigger] slots@[j] is Some <==> !(exists|q: int|
                    0 <= q < i && order@[q] == n - 1 - j)),
            forall|j: int| 0 <= j < n && (#[trigger] slots@[j]) is Some ==> slots@[j] == Some(orig[n - 1 - j]),
        decreases order@.len() - i,
    {
        let k = order[i];
        let s = n - 1 - k;
        assert(slots@[s as int] is Some) by {
            if exists|q: int| 0 <= q < i && order@[q] == n - 1 - s {
                let q = choose|q: int| 0 <= q < i && order@[q] == n - 1 - s;
                assert(order@[q] == order@[i as int]);
            }
        }
        let mut taken: Option<T> = None;
        std::mem::swap(&mut taken, &mut slots[s]);
        out.push(taken.unwrap());
        proof {
            assert forall|j: int|
                0 <= j < n implies (#[trigger] slots@[j] is Some <==> !(exists|q: int|
                0 <= q < i + 1 && order@[q] == n - 1 - j)) by {
                if j == s {
                    assert(order@[i as int] == n - 1 - j);
                } else {
                    if exists|q: int| 0 <= q < i + 1 && order@[q] == n - 1 - j {
                        let q = choose|q: int| 0 <= q < i + 1 && order@[q] == n - 1 - j;
                        assert(q != i);
                    }
                }
            }
        }
        i = i + 1;
    }
    out
}

} // verus!
