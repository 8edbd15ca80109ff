//! In-memory cache with per-entry time-to-live.
//!
//! Entries are addressed by a string key and carry their creation time
//! and a TTL in seconds; a TTL of zero never expires. Expiry depends
//! on the clock, so every operation that consults it also exists in a
//! form that takes the clock reading as an argument and is verified
//! for every value of it.

use vstd::prelude::*;

use crate::clock::now_seconds;
use crate::keyed::entry_of_key;
use crate::keyed::has_key;
use crate::keyed::index_of_key;
use crate::keyed::keys_unique;
use crate::keyed::lemma_entry_at;
use crate::keyed::lemma_push_entry;
use crate::keyed::lemma_remove_entry;
use crate::keyed::lemma_update_entry;
use crate::keyed::Keyed;

verus! {

/// One cached value with its expiry metadata.
#[derive(Debug)]
pub struct CacheEntry {
    /// The cached bytes.
    pub data: Vec<u8>,
    /// Clock reading at creation, in seconds.
    pub created_at: u64,
    /// Seconds until expiry; zero means no expiration.
    pub ttl_seconds: u64,
}

/// Whether an entry has outlived its TTL at a given clock reading. An
/// entry with TTL zero never expires; a clock that stepped backwards
/// leaves entries alive.
pub open spec fn spec_expired(e: CacheEntry, now: u64) -> bool {
    e.ttl_seconds != 0 && now > e.created_at && now - e.created_at > e.ttl_seconds
}

/// Copies a byte vector; written out so that the copy is known to hold
/// the same bytes.
fn clone_bytes(v: &Vec<u8>) -> (r: Vec<u8>)
    ensures
        r@ == v@,
{
    let mut r: Vec<u8> = Vec::new();
    let n = v.len();
    let mut i: usize = 0;
    while i < n
        invariant
            n == v@.len(),
            i <= n,
            r@ == v@.take(i as int),
        decreases n - i,
    {
        r.push(v[i]);
        proof {
            assert(v@.take(i + 1) =~= v@.take(i as int).push(v@[i as int]));
        }
        i = i + 1;
    }
    proof {
        assert(v@.take(n as int) =~= v@);
    }
    r
}

impl CacheEntry {
    /// An entry created at a given clock reading.
    pub fn new_at(data: Vec<u8>, ttl_seconds: u64, now: u64) -> (r: CacheEntry)
        ensures
            r == (CacheEntry { data, created_at: now, ttl_seconds }),
    {
        CacheEntry { data, created_at: now, ttl_seconds }
    }

    /// An entry created against the live clock.
    pub fn new(data: Vec<u8>, ttl_seconds: u64) -> (r: CacheEntry)
        ensures
            r.data == data,
            r.ttl_seconds == ttl_seconds,
    {
        let now = now_seconds();
        CacheEntry::new_at(data, ttl_seconds, now)
    }

    /// Whether this entry is expired at a given clock reading.
    pub fn is_expired_at(&self, now: u64) -> (r: bool)
        ensures
            r == spec_expired(*self, now),
    {
        if self.ttl_seconds == 0 {
            false
        } else if now <= self.created_at {
            false
        } else {
            now - self.created_at > self.ttl_seconds
        }
    }

    /// Whether this entry is expired against the live clock.
    pub fn is_expired(&self) -> (r: bool)
        ensures
            exists|now: u64| r == spec_expired(*self, now),
    {
        let now = now_seconds();
        let r = self.is_expired_at(now);
        proof {
            assert(r == spec_expired(*self, now));
        }
        r
    }
}

/// One slot of the cache: a key and its entry.
#[derive(Debug)]
pub struct CacheSlot {
    /// The key the entry is addressed by.
    pub key: String,
    /// The entry itself.
    pub entry: CacheEntry,
}

impl Keyed<Seq<char>> for CacheSlot {
    open spec fn key(self) -> Seq<char> {
        self.key@
    }
}

/// Counters describing the cache's traffic.
#[derive(Clone, Copy, Debug, PartialEq, Eq, Structural)]
pub struct CacheStats {
    /// Lookups answered from the store.
    pub l1_hits: u64,
    /// Lookups that found nothing live.
    pub l1_misses: u64,
    /// Entries evicted by an eviction policy; none exists here.
    pub evictions: u64,
    /// Lookups made in total.
    pub total_operations: u64,
    /// Number of entries after the last write.
    pub l1_size: usize,
}

impl Default for CacheStats {
    /// All counters at zero.
    fn default() -> (r: CacheStats)
        ensures
            r == (CacheStats {
                l1_hits: 0,
                l1_misses: 0,
                evictions: 0,
                total_operations: 0,
                l1_size: 0,
            }),
    {
        CacheStats { l1_hits: 0, l1_misses: 0, evictions: 0, total_operations: 0, l1_size: 0 }
    }
}

/// The bytes behind an optional lookup answer.
pub open spec fn view_bytes(r: Option<Vec<u8>>) -> Option<Seq<u8>> {
    match r {
        Some(d) => Some(d@),
        None => None,
    }
}

/// An in-memory cache with per-entry TTL and traffic counters.
pub struct CacheEngine {
    /// The entries, one slot per key.
    pub slots: Vec<CacheSlot>,
    /// Traffic counters.
    pub stats: CacheStats,
}

/// A counter stepped by one, wrapping at the top as a fixed-width
/// register does.
pub open spec fn wrap_inc(v: u64) -> u64 {
    ((v + 1) % 0x1_0000_0000_0000_0000) as u64
}

impl CacheEngine {
    /// Unique keys: each key addresses at most one slot.
    pub open spec fn wf(self) -> bool {
        keys_unique(self.slots@)
    }

    /// The live entry behind a key, if the key is present at all;
    /// presence here does not ask whether the entry is expired.
    pub open spec fn spec_entry(self, key: Seq<char>) -> Option<CacheEntry> {
        if has_key(self.slots@, key) {
            Some(entry_of_key(self.slots@, key).entry)
        } else {
            None
        }
    }

    /// A fresh, empty cache.
    pub fn new() -> (r: CacheEngine)
        ensures
            r.wf(),
            r.slots@ == Seq::<CacheSlot>::empty(),
            r.stats == (CacheStats {
                l1_hits: 0,
                l1_misses: 0,
                evictions: 0,
                total_operations: 0,
                l1_size: 0,
            }),
    {
        let r = CacheEngine { slots: Vec::new(), stats: CacheStats::default() };
        proof {
            assert(r.slots@ =~= Seq::<CacheSlot>::empty());
        }
        r
    }

    /// Position of a key's slot.
    fn position_of(&self, key: &str) -> (r: Option<usize>)
        ensures
            match r {
                Some(i) => i < self.slots@.len() && self.slots@[i as int].key@ == key@,
                None => !has_key(self.slots@, key@),
            },
    {
        let wanted = key.to_owned();
        let n = self.slots.len();
        let mut k: usize = 0;
        while k < n
            invariant
                n == self.slots@.len(),
                k <= n,
                wanted@ == key@,
                forall|j: int| 0 <= j < k ==> (#[trigger] self.slots@[j]).key@ != key@,
            decreases n - k,
        {
            if self.slots[k].key == wanted {
                return Some(k);
            }
            k = k + 1;
        }
        proof {
            if has_key(self.slots@, key@) {
                let w = index_of_key(self.slots@, key@);
                assert(0 <= w < self.slots@.len() && self.slots@[w].key() == key@);
            }
        }
        None
    }

    /// What one lookup at a clock reading does: a live entry is a hit
    /// and its bytes come back; an expired entry is dropped and, like
    /// an absent key, answers a miss. Exactly one lookup is counted.
    pub open spec fn get_transition(
        pre: CacheEngine,
        post: CacheEngine,
        key: Seq<char>,
        now: u64,
        r: Option<Seq<u8>>,
    ) -> bool {
        &&& post.stats.total_operations == wrap_inc(pre.stats.total_operations)
        &&& post.stats.evictions == pre.stats.evictions
        &&& post.stats.l1_size == pre.stats.l1_size
        &&& (match pre.spec_entry(key) {
            Some(e) => {
                if !spec_expired(e, now) {
                    &&& r == Some(e.data@)
                    &&& post.slots@ == pre.slots@
                    &&& post.stats.l1_hits == wrap_inc(pre.stats.l1_hits)
                    &&& post.stats.l1_misses == pre.stats.l1_misses
                } else {
                    &&& r is None
                    &&& post.spec_entry(key) is None
                    &&& post.stats.l1_hits == pre.stats.l1_hits
                    &&& post.stats.l1_misses == wrap_inc(pre.stats.l1_misses)
                    &&& forall|other: Seq<char>|
                        other != key ==> #[trigger] post.spec_entry(other) == pre.spec_entry(
                            other,
                        )
                }
            },
            None => {
                &&& r is None
                &&& post.slots@ == pre.slots@
                &&& post.stats.l1_hits == pre.stats.l1_hits
                &&& post.stats.l1_misses == wrap_inc(pre.stats.l1_misses)
            },
        })
    }

    /// Looks a key up at a given clock reading.
    pub fn get_at(&mut self, key: &str, now: u64) -> (r: Option<Vec<u8>>)
        requires
            old(self).wf(),
        ensures
            final(self).wf(),
            Self::get_transition(*old(self), *final(self), key@, now, view_bytes(r)),
    {
        self.stats.total_operations = self.stats.total_operations.wrapping_add(1);
        let pos = self.position_of(key);
        match pos {
            Some(i) => {
                proof {
                    lemma_entry_at(self.slots@, i as int);
                }
                if !self.slots[i].entry.is_expired_at(now) {
                    let data = clone_bytes(&self.slots[i].entry.data);
                    self.stats.l1_hits = self.stats.l1_hits.wrapping_add(1);
                    Some(data)
                } else {
                    let ghost pre = self.slots@;
                    let _ = self.slots.remove(i);
                    self.stats.l1_misses = self.stats.l1_misses.wrapping_add(1);
                    proof {
                        assert(self.slots@ == pre.remove(i as int));
                        assert forall|other: Seq<char>| other != key@ implies #[trigger]
                        self.spec_entry(other) == old(self).spec_entry(other) by {
                            lemma_remove_entry(pre, i as int, other);
                        }
                        lemma_remove_entry(pre, i as int, key@);
                    }
                    None
                }
            },
            None => {
                self.stats.l1_misses = self.stats.l1_misses.wrapping_add(1);
                None
            },
        }
    }

    /// Looks a key up against the live clock: expiry is decided by
    /// whatever reading the environment gave.
    pub fn get(&mut self, key: &str) -> (r: Option<Vec<u8>>)
        requires
            old(self).wf(),
        ensures
            final(self).wf(),
            exists|now: u64|
                #[trigger] Self::get_transition(
                    *old(self),
                    *final(self),
                    key@,
                    now,
                    view_bytes(r),
                ),
    {
        let now = now_seconds();
        let r = self.get_at(key, now);
        proof {
            assert(Self::get_transition(*old(self), *self, key@, now, view_bytes(r)));
        }
        r
    }

    /// Stores a value under a key at a given clock reading, replacing
    /// any earlier entry of that key, and records the new size.
    pub fn set_at(&mut self, key: &str, value: Vec<u8>, ttl_seconds: u64, now: u64)
        requires
            old(self).wf(),
        ensures
            final(self).wf(),
            final(self).spec_entry(key@) == Some(
                (CacheEntry { data: value, created_at: now, ttl_seconds }),
            ),
            forall|other: Seq<char>|
                other != key@ ==> #[trigger] final(self).spec_entry(other) == old(
                    self,
                ).spec_entry(other),
            final(self).stats == (CacheStats {
                l1_size: final(self).slots@.len() as usize,
                ..old(self).stats
            }),
            old(self).spec_entry(key@) is Some ==> final(self).slots@.len() == old(
                self,
            ).slots@.len(),
            old(self).spec_entry(key@) is None ==> final(self).slots@.len() == old(
                self,
            ).slots@.len() + 1,
    {
        let entry = CacheEntry::new_at(value, ttl_seconds, now);
        let pos = self.position_of(key);
        match pos {
            Some(i) => {
                proof {
                    lemma_entry_at(self.slots@, i as int);
                }
                let slot = CacheSlot { key: key.to_owned(), entry };
                let ghost pre = self.slots@;
                self.slots[i] = slot;
                let size = self.slots.len();
                self.stats.l1_size = size;
                proof {
                    assert(self.slots@ == pre.update(i as int, slot));
                    lemma_update_entry(pre, i as int, slot, key@);
                    assert forall|other: Seq<char>| other != key@ implies #[trigger]
                    self.spec_entry(other) == old(self).spec_entry(other) by {
                        lemma_update_entry(pre, i as int, slot, other);
                    }
                }
            },
            None => {
                let slot = CacheSlot { key: key.to_owned(), entry };
                let ghost pre = self.slots@;
                self.slots.push(slot);
                let size = self.slots.len();
                self.stats.l1_size = size;
                proof {
                    assert(self.slots@ == pre.push(slot));
                    lemma_push_entry(pre, slot, key@);
                    assert forall|other: Seq<char>| other != key@ implies #[trigger]
                    self.spec_entry(other) == old(self).spec_entry(other) by {
                        lemma_push_entry(pre, slot, other);
                    }
                }
            },
        }
    }

    /// Stores a value against the live clock; the entry's creation
    /// time is whatever reading the environment gave.
    pub fn set(&mut self, key: &str, value: Vec<u8>, ttl_seconds: u64)
        requires
            old(self).wf(),
        ensures
            final(self).wf(),
            final(self).spec_entry(key@) matches Some(e) && e.data == value && e.ttl_seconds
                == ttl_seconds,
            forall|other: Seq<char>|
                other != key@ ==> #[trigger] final(self).spec_entry(other) == old(
                    self,
                ).spec_entry(other),
            final(self).stats == (CacheStats {
                l1_size: final(self).slots@.len() as usize,
                ..old(self).stats
            }),
    {
        let now = now_seconds();
        self.set_at(key, value, ttl_seconds, now);
    }

    /// Drops a key's entry; answers whether one existed. The recorded
    /// size is refreshed, the traffic counters are not touched.
    pub fn delete(&mut self, key: &str) -> (r: bool)
        requires
            old(self).wf(),
        ensures
            final(self).wf(),
            r == (old(self).spec_entry(key@) is Some),
            final(self).spec_entry(key@) is None,
            forall|other: Seq<char>|
                other != key@ ==> #[trigger] final(self).spec_entry(other) == old(
                    self,
                ).spec_entry(other),
            final(self).stats == (CacheStats {
                l1_size: final(self).slots@.len() as usize,
                ..old(self).stats
            }),
            r ==> final(self).slots@.len() == old(self).slots@.len() - 1,
            !r ==> final(self).slots@ == old(self).slots@,
    {
        let pos = self.position_of(key);
        let existed = match pos {
            Some(i) => {
                proof {
                    lemma_entry_at(self.slots@, i as int);
                }
                let ghost pre = self.slots@;
                let _ = self.slots.remove(i);
                let size = self.slots.len();
                self.stats.l1_size = size;
                proof {
                    assert(self.slots@ == pre.remove(i as int));
                    lemma_remove_entry(pre, i as int, key@);
                    assert forall|other: Seq<char>| other != key@ implies #[trigger]
                    self.spec_entry(other) == old(self).spec_entry(other) by {
                        lemma_remove_entry(pre, i as int, other);
                    }
                }
                true
            },
            None => {
                let size = self.slots.len();
                self.stats.l1_size = size;
                false
            },
        };
        existed
    }

    /// Drops every entry and records a size of zero; the traffic
    /// counters keep their history.
    pub fn clear(&mut self)
        requires
            old(self).wf(),
        ensures
            final(self).wf(),
            final(self).slots@ == Seq::<CacheSlot>::empty(),
            forall|key: Seq<char>| #[trigger] final(self).spec_entry(key) is None,
            final(self).stats == (CacheStats { l1_size: 0, ..old(self).stats }),
    {
        self.slots.clear();
        self.stats.l1_size = 0;
        proof {
            assert(self.slots@ =~= Seq::<CacheSlot>::empty());
        }
    }

    /// The traffic counters as last recorded.
    pub fn get_stats(&self) -> (r: CacheStats)
        ensures
            r == self.stats,
    {
        self.stats
    }
}

} // verus!
