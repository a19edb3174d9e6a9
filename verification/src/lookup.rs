//! Positions of keys in sequences, the ground of every lookup by name or by
//! identifier.

use vstd::prelude::*;

verus! {

/// The first position at or after `i` at which `keys` holds `k`.
pub open spec fn position_from<K>(keys: Seq<K>, k: K, i: int) -> Option<int>
    decreases keys.len() - i,
{
    if i < 0 || i >= keys.len() {
        None
    } else if keys[i] == k {
        Some(i)
    } else {
        position_from(keys, k, i + 1)
    }
}

/// The first position at which `keys` holds `k`.
pub open spec fn position<K>(keys: Seq<K>, k: K) -> Option<int> {
    position_from(keys, k, 0)
}

/// The position at which `keys` holds `k`, where it holds it exactly once.
pub open spec fn unique_position<K>(keys: Seq<K>, k: K) -> Option<int> {
    match position(keys, k) {
        Some(i) => if position_from(keys, k, i + 1) is None {
            Some(i)
        } else {
            None
        },
        None => None,
    }
}

/// The position named by a 1-based index into a sequence of `len` items.
pub open spec fn index_position(len: nat, n: int) -> Option<int> {
    if 1 <= n <= len {
        Some(n - 1)
    } else {
        None
    }
}

/// What `position_from` finds is the first occurrence at or after `i`, and it
/// finds nothing only where there is none.
pub proof fn lemma_position_from<K>(keys: Seq<K>, k: K, i: int)
    requires
        0 <= i,
    ensures
        match position_from(keys, k, i) {
            Some(p) => i <= p < keys.len() && keys[p] == k && forall|j: int|
                i <= j < p ==> keys[j] != k,
            None => forall|j: int| i <= j < keys.len() ==> keys[j] != k,
        },
    decreases keys.len() - i,
{
    if i < keys.len() && keys[i] != k {
        lemma_position_from(keys, k, i + 1);
    }
}

/// A key that occurs at `p` and nowhere between `i` and `p` is found at `p`.
pub proof fn lemma_position_found<K>(keys: Seq<K>, k: K, i: int, p: int)
    requires
        0 <= i <= p < keys.len(),
        keys[p] == k,
        forall|j: int| i <= j < p ==> keys[j] != k,
    ensures
        position_from(keys, k, i) == Some(p),
    decreases p - i,
{
    if i < p {
        lemma_position_found(keys, k, i + 1, p);
    }
}

/// `unique_position` finds `p` exactly where `p` is the only occurrence.
pub proof fn lemma_unique_position<K>(keys: Seq<K>, k: K)
    ensures
        match unique_position(keys, k) {
            Some(p) => 0 <= p < keys.len() && keys[p] == k && forall|j: int|
                0 <= j < keys.len() && j != p ==> keys[j] != k,
            None => (forall|j: int| 0 <= j < keys.len() ==> keys[j] != k) || exists|a: int, b: int|
                0 <= a < b < keys.len() && keys[a] == k && keys[b] == k,
        },
{
    lemma_position_from(keys, k, 0);
    match position(keys, k) {
        Some(i) => {
            lemma_position_from(keys, k, i + 1);
            match position_from(keys, k, i + 1) {
                Some(b) => {
                    assert(0 <= i < b < keys.len() && keys[i] == k && keys[b] == k);
                },
                None => {},
            }
        },
        None => {},
    }
}

} // verus!
