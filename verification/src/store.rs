use vstd::prelude::*;

verus! {

// The entity store keeps each kind of record in a sequence in which every
// record is addressed by a deterministic derived key, and no two records
// share a key.  These helpers say what it means for a key to be present,
// which index it stands at, and how presence and indices move under the three
// store operations: updating a record in place, creating one, destroying one.

/// Some record in `s` carries key `k`.
pub open spec fn seq_has<T, K>(s: Seq<T>, key: spec_fn(T) -> K, k: K) -> bool {
    exists|i: int| 0 <= i < s.len() && #[trigger] key(s[i]) == k
}

/// The index of the record carrying key `k` (unique when keys are unique).
pub open spec fn seq_index_of<T, K>(s: Seq<T>, key: spec_fn(T) -> K, k: K) -> int {
    choose|i: int| 0 <= i < s.len() && #[trigger] key(s[i]) == k
}

/// No two records of `s` share a key.
pub open spec fn seq_key_unique<T, K>(s: Seq<T>, key: spec_fn(T) -> K) -> bool {
    forall|i: int, j: int|
        0 <= i < s.len() && 0 <= j < s.len() && #[trigger] key(s[i]) == #[trigger] key(s[j])
            ==> i == j
}

/// A record that visibly stands at index `i` is the one its key addresses.
pub proof fn lemma_seq_index<T, K>(s: Seq<T>, key: spec_fn(T) -> K, i: int)
    requires
        seq_key_unique(s, key),
        0 <= i < s.len(),
    ensures
        seq_has(s, key, key(s[i])),
        seq_index_of(s, key, key(s[i])) == i,
{
    assert(seq_has(s, key, key(s[i])));
    let j = seq_index_of(s, key, key(s[i]));
    assert(0 <= j < s.len() && key(s[j]) == key(s[i]));
}

/// Updating the record at index `i` without changing its key: every key keeps
/// its presence and its index; every other record keeps its value.
pub proof fn lemma_seq_update<T, K>(s: Seq<T>, key: spec_fn(T) -> K, i: int, x: T)
    requires
        seq_key_unique(s, key),
        0 <= i < s.len(),
        key(x) == key(s[i]),
    ensures
        seq_key_unique(s.update(i, x), key),
        forall|k: K| seq_has(s.update(i, x), key, k) == seq_has(s, key, k),
        forall|k: K|
            seq_has(s, key, k) ==> seq_index_of(s.update(i, x), key, k) == seq_index_of(s, key, k),
{
    let s2 = s.update(i, x);
    assert forall|m: int| 0 <= m < s2.len() implies #[trigger] key(s2[m]) == key(s[m]) by {
        if m != i {
            assert(s2[m] == s[m]);
        }
    }
    assert forall|k: K| seq_has(s2, key, k) == seq_has(s, key, k) by {
        if seq_has(s, key, k) {
            let j = seq_index_of(s, key, k);
            assert(0 <= j < s.len() && key(s[j]) == k);
            assert(key(s2[j]) == k);
            assert(seq_has(s2, key, k));
        }
        if seq_has(s2, key, k) {
            let j = seq_index_of(s2, key, k);
            assert(0 <= j < s2.len() && key(s2[j]) == k);
            assert(key(s[j]) == k);
            assert(seq_has(s, key, k));
        }
    }
    assert forall|k: K| seq_has(s, key, k) implies seq_index_of(s2, key, k) == seq_index_of(
        s,
        key,
        k,
    ) by {
        let j = seq_index_of(s, key, k);
        assert(0 <= j < s.len() && key(s[j]) == k);
        let j2 = seq_index_of(s2, key, k);
        assert(0 <= j2 < s2.len() && key(s2[j2]) == k);
        assert(key(s[j2]) == k);
    }
}

/// Creating a record under a key not yet taken: the new key becomes present
/// at the end; every other key keeps its presence, index and record.
pub proof fn lemma_seq_push<T, K>(s: Seq<T>, key: spec_fn(T) -> K, x: T)
    requires
        seq_key_unique(s, key),
        !seq_has(s, key, key(x)),
    ensures
        seq_key_unique(s.push(x), key),
        seq_has(s.push(x), key, key(x)),
        seq_index_of(s.push(x), key, key(x)) == s.len(),
        forall|k: K| k != key(x) ==> seq_has(s.push(x), key, k) == seq_has(s, key, k),
        forall|k: K|
            k != key(x) && seq_has(s, key, k) ==> seq_index_of(s.push(x), key, k) == seq_index_of(
                s,
                key,
                k,
            ),
{
    let s2 = s.push(x);
    assert(s2[s.len() as int] == x);
    assert forall|m: int| 0 <= m < s.len() implies #[trigger] key(s2[m]) == key(s[m]) by {
        assert(s2[m] == s[m]);
    }
    assert forall|m: int, n: int|
        0 <= m < s2.len() && 0 <= n < s2.len() && #[trigger] key(s2[m]) == #[trigger] key(s2[n])
            implies m == n by {
        if m < s.len() && n < s.len() {
            assert(key(s[m]) == key(s[n]));
        } else if m < s.len() && n == s.len() {
            assert(key(s[m]) == key(x));
            assert(seq_has(s, key, key(x)));
        } else if m == s.len() && n < s.len() {
            assert(key(s[n]) == key(x));
            assert(seq_has(s, key, key(x)));
        }
    }
    assert(seq_has(s2, key, key(x)));
    lemma_seq_index(s2, key, s.len() as int);
    assert forall|k: K| k != key(x) implies seq_has(s2, key, k) == seq_has(s, key, k) by {
        if seq_has(s, key, k) {
            let j = seq_index_of(s, key, k);
            assert(0 <= j < s.len() && key(s[j]) == k);
            assert(key(s2[j]) == k);
        }
        if seq_has(s2, key, k) {
            let j = seq_index_of(s2, key, k);
            assert(0 <= j < s2.len() && key(s2[j]) == k);
            assert(j != s.len());
            assert(key(s[j]) == k);
        }
    }
    assert forall|k: K| k != key(x) && seq_has(s, key, k) implies seq_index_of(s2, key, k)
        == seq_index_of(s, key, k) by {
        let j = seq_index_of(s, key, k);
        assert(0 <= j < s.len() && key(s[j]) == k);
        assert(key(s2[j]) == k);
        let j2 = seq_index_of(s2, key, k);
        assert(0 <= j2 < s2.len() && key(s2[j2]) == k);
        assert(j2 != s.len());
        assert(key(s[j2]) == k);
    }
}

/// Destroying the record at index `i`: its key is gone; every other key keeps
/// its presence and its record (indices after `i` shift down by one).
pub proof fn lemma_seq_remove<T, K>(s: Seq<T>, key: spec_fn(T) -> K, i: int)
    requires
        seq_key_unique(s, key),
        0 <= i < s.len(),
    ensures
        seq_key_unique(s.remove(i), key),
        !seq_has(s.remove(i), key, key(s[i])),
        forall|k: K| k != key(s[i]) ==> seq_has(s.remove(i), key, k) == seq_has(s, key, k),
        forall|k: K|
            k != key(s[i]) && seq_has(s, key, k) ==> s.remove(i)[seq_index_of(s.remove(i), key, k)]
                == s[seq_index_of(s, key, k)],
{
    let s2 = s.remove(i);
    assert forall|m: int| 0 <= m < s2.len() implies #[trigger] key(s2[m]) == key(
        s[if m < i { m } else { m + 1 }],
    ) by {
        if m < i {
            assert(s2[m] == s[m]);
        } else {
            assert(s2[m] == s[m + 1]);
        }
    }
    assert forall|m: int, n: int|
        0 <= m < s2.len() && 0 <= n < s2.len() && #[trigger] key(s2[m]) == #[trigger] key(s2[n])
            implies m == n by {
        let m0 = if m < i { m } else { m + 1 };
        let n0 = if n < i { n } else { n + 1 };
        assert(key(s[m0]) == key(s[n0]));
        assert(m0 == n0);
    }
    assert forall|j: int| 0 <= j < s2.len() implies #[trigger] key(s2[j]) != key(s[i]) by {
        let j0 = if j < i { j } else { j + 1 };
        assert(key(s2[j]) == key(s[j0]));
        if key(s[j0]) == key(s[i]) {
            assert(j0 == i);
        }
    }
    assert forall|k: K| k != key(s[i]) implies seq_has(s2, key, k) == seq_has(s, key, k) by {
        if seq_has(s, key, k) {
            let j = seq_index_of(s, key, k);
            assert(0 <= j < s.len() && key(s[j]) == k);
            assert(j != i);
            if j < i {
                assert(key(s2[j]) == k);
            } else {
                assert(key(s2[j - 1]) == k);
            }
            assert(seq_has(s2, key, k));
        }
        if seq_has(s2, key, k) {
            let j = seq_index_of(s2, key, k);
            assert(0 <= j < s2.len() && key(s2[j]) == k);
            let j0 = if j < i { j } else { j + 1 };
            assert(key(s[j0]) == k);
            assert(seq_has(s, key, k));
        }
    }
    assert forall|k: K| k != key(s[i]) && seq_has(s, key, k) implies s2[seq_index_of(s2, key, k)]
        == s[seq_index_of(s, key, k)] by {
        let j = seq_index_of(s, key, k);
        assert(0 <= j < s.len() && key(s[j]) == k);
        assert(j != i);
        let j2 = seq_index_of(s2, key, k);
        assert(0 <= j2 < s2.len() && key(s2[j2]) == k);
        let j0 = if j2 < i { j2 } else { j2 + 1 };
        assert(key(s[j0]) == k);
        assert(j0 == j);
        if j2 < i {
            assert(s2[j2] == s[j2]);
        } else {
            assert(s2[j2] == s[j2 + 1]);
        }
    }
}

} // verus!
