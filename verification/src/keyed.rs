//! A sequence of entries addressed by a key, with unique keys.
//!
//! The registries of this crate hold their entries in a vector and
//! look them up by a key field. This module gives that shape one
//! model: membership, the entry behind a key, and how both react to
//! appending, replacing and removing entries.

use vstd::prelude::*;

verus! {

/// An entry type that carries its own key.
pub trait Keyed<K> {
    /// The key this entry is addressed by.
    spec fn key(self) -> K;
}

/// No two entries share a key.
pub open spec fn keys_unique<K, T: Keyed<K>>(s: Seq<T>) -> bool {
    forall|i: int, j: int|
        0 <= i < j < s.len() ==> (#[trigger] s[i]).key() != (#[trigger] s[j]).key()
}

/// Some entry carries this key.
pub open spec fn has_key<K, T: Keyed<K>>(s: Seq<T>, k: K) -> bool {
    exists|i: int| 0 <= i < s.len() && (#[trigger] s[i]).key() == k
}

/// Position of the entry carrying this key, when there is one.
pub open spec fn index_of_key<K, T: Keyed<K>>(s: Seq<T>, k: K) -> int {
    choose|i: int| 0 <= i < s.len() && (#[trigger] s[i]).key() == k
}

/// The entry carrying this key, when there is one.
pub open spec fn entry_of_key<K, T: Keyed<K>>(s: Seq<T>, k: K) -> T {
    s[index_of_key(s, k)]
}

/// With unique keys, the entry at a position is the entry found for
/// its key.
pub proof fn lemma_entry_at<K, T: Keyed<K>>(s: Seq<T>, i: int)
    requires
        keys_unique(s),
        0 <= i < s.len(),
    ensures
        has_key(s, s[i].key()),
        index_of_key(s, s[i].key()) == i,
        entry_of_key(s, s[i].key()) == s[i],
{
    assert(has_key(s, s[i].key()));
    let j = index_of_key(s, s[i].key());
    assert(0 <= j < s.len() && s[j].key() == s[i].key());
    if j < i {
        assert(s[j].key() != s[i].key());
    } else if i < j {
        assert(s[i].key() != s[j].key());
    }
}

/// Appending an entry with a fresh key leaves every other key's view
/// of the sequence unchanged.
pub proof fn lemma_push_entry<K, T: Keyed<K>>(s: Seq<T>, e: T, k: K)
    requires
        keys_unique(s),
        !has_key(s, e.key()),
    ensures
        keys_unique(s.push(e)),
        has_key(s.push(e), e.key()),
        entry_of_key(s.push(e), e.key()) == e,
        k != e.key() ==> has_key(s.push(e), k) == has_key(s, k),
        k != e.key() && has_key(s, k) ==> entry_of_key(s.push(e), k) == entry_of_key(s, k),
{
    let t = s.push(e);
    assert forall|i: int, j: int| 0 <= i < j < t.len() implies (#[trigger] t[i]).key() != (
    #[trigger] t[j]).key() by {
        if j == s.len() {
            assert(t[i] == s[i]);
            if t[i].key() == e.key() {
                assert(has_key(s, e.key()));
            }
        } else {
            assert(t[i] == s[i] && t[j] == s[j]);
        }
    }
    assert(t[s.len() as int] == e);
    lemma_entry_at(t, s.len() as int);
    if k != e.key() && has_key(s, k) {
        let i = index_of_key(s, k);
        assert(0 <= i < s.len() && s[i].key() == k);
        assert(t[i] == s[i]);
        lemma_entry_at(t, i);
        lemma_entry_at(s, i);
    }
    if k != e.key() && has_key(t, k) {
        let i = index_of_key(t, k);
        assert(0 <= i < t.len() && t[i].key() == k);
        assert(i < s.len());
        assert(has_key(s, k));
    }
}

/// Replacing an entry by one with the same key makes the replacement
/// the entry found for that key and leaves every other key's view
/// unchanged.
pub proof fn lemma_update_entry<K, T: Keyed<K>>(s: Seq<T>, i: int, e: T, k: K)
    requires
        keys_unique(s),
        0 <= i < s.len(),
        e.key() == s[i].key(),
    ensures
        keys_unique(s.update(i, e)),
        has_key(s.update(i, e), e.key()),
        entry_of_key(s.update(i, e), e.key()) == e,
        k != e.key() ==> has_key(s.update(i, e), k) == has_key(s, k),
        k != e.key() && has_key(s, k) ==> entry_of_key(s.update(i, e), k) == entry_of_key(s, k),
{
    let t = s.update(i, e);
    assert forall|p: int, q: int| 0 <= p < q < t.len() implies (#[trigger] t[p]).key() != (
    #[trigger] t[q]).key() by {
        assert(t[p].key() == s[p].key() && t[q].key() == s[q].key());
    }
    lemma_entry_at(t, i);
    if k != e.key() && has_key(s, k) {
        let w = index_of_key(s, k);
        assert(0 <= w < s.len() && s[w].key() == k);
        assert(w != i);
        assert(t[w] == s[w]);
        lemma_entry_at(t, w);
        lemma_entry_at(s, w);
    }
    if k != e.key() && has_key(t, k) {
        let w = index_of_key(t, k);
        assert(0 <= w < t.len() && t[w].key() == k);
        assert(w != i);
        assert(s[w].key() == k);
        assert(has_key(s, k));
    }
}

/// Removing an entry removes exactly its key: every other key's view
/// of the sequence is unchanged.
pub proof fn lemma_remove_entry<K, T: Keyed<K>>(s: Seq<T>, i: int, k: K)
    requires
        keys_unique(s),
        0 <= i < s.len(),
    ensures
        keys_unique(s.remove(i)),
        !has_key(s.remove(i), s[i].key()),
        k != s[i].key() ==> has_key(s.remove(i), k) == has_key(s, k),
        k != s[i].key() && has_key(s, k) ==> entry_of_key(s.remove(i), k) == entry_of_key(s, k),
{
    let t = s.remove(i);
    assert forall|p: int, q: int| 0 <= p < q < t.len() implies (#[trigger] t[p]).key() != (
    #[trigger] t[q]).key() by {
        let p0 = if p < i {
            p
        } else {
            p + 1
        };
        let q0 = if q < i {
            q
        } else {
            q + 1
        };
        assert(t[p] == s[p0] && t[q] == s[q0]);
    }
    if has_key(t, s[i].key()) {
        let w = index_of_key(t, s[i].key());
        assert(0 <= w < t.len() && t[w].key() == s[i].key());
        let w0 = if w < i {
            w
        } else {
            w + 1
        };
        assert(t[w] == s[w0]);
        assert(w0 != i);
        if w0 < i {
            assert(s[w0].key() != s[i].key());
        } else {
            assert(s[i].key() != s[w0].key());
        }
    }
    if k != s[i].key() && has_key(s, k) {
        let w = index_of_key(s, k);
        assert(0 <= w < s.len() && s[w].key() == k);
        assert(w != i);
        let w1 = if w < i {
            w
        } else {
            w - 1
        };
        assert(t[w1] == s[w]);
        assert(has_key(t, k));
        lemma_entry_at(t, w1);
        lemma_entry_at(s, w);
    }
    if k != s[i].key() && has_key(t, k) {
        let w = index_of_key(t, k);
        assert(0 <= w < t.len() && t[w].key() == k);
        let w0 = if w < i {
            w
        } else {
            w + 1
        };
        assert(t[w] == s[w0]);
        assert(w0 != i);
        assert(has_key(s, k));
    }
}

} // verus!
