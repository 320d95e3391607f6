//! TTL response cache.
//!
//! Maps a request key (a normalized request URL) to the last payload fetched
//! for it, together with an absolute expiry time in milliseconds. A read at
//! or past the expiry time is a miss, indistinguishable from an absent key;
//! expired entries are not removed, only superseded by the next write.
//!
//! Like the rate limiter, the cache never reads a clock: `get` and `put`
//! take the current reading of the caller's millisecond clock.

use vstd::prelude::*;
use crate::text::str_eq;

verus! {

/// One cached response: the payload stored for `key`, valid strictly before
/// `expires_at_ms`.
pub struct CacheEntry {
    pub key: String,
    pub payload: String,
    pub expires_at_ms: u64,
}

/// A keyed collection of cache entries with pairwise distinct keys.
pub struct ResponseCache {
    pub entries: Vec<CacheEntry>,
}

impl ResponseCache {
    /// Well-formedness: no two entries share a key.
    pub open spec fn wf(self) -> bool {
        forall|i: int, j: int|
            0 <= i < j < self.entries@.len() ==> self.entries@[i].key@ != self.entries@[j].key@
    }

    pub open spec fn contains_key(self, k: Seq<char>) -> bool {
        exists|i: int| 0 <= i < self.entries@.len() && self.entries@[i].key@ == k
    }

    /// Index of the entry holding `k` (unique when `wf` holds).
    pub open spec fn key_index(self, k: Seq<char>) -> int {
        choose|i: int| 0 <= i < self.entries@.len() && self.entries@[i].key@ == k
    }

    pub open spec fn entry_payload(self, k: Seq<char>) -> Seq<char> {
        self.entries@[self.key_index(k)].payload@
    }

    pub open spec fn entry_expiry(self, k: Seq<char>) -> int {
        self.entries@[self.key_index(k)].expires_at_ms as int
    }

    /// What a read of key `k` at clock reading `now_ms` yields: the stored
    /// payload while the entry is strictly before its expiry, otherwise
    /// nothing.
    pub open spec fn spec_get(self, k: Seq<char>, now_ms: u64) -> Option<Seq<char>> {
        if self.contains_key(k) && (now_ms as int) < self.entry_expiry(k) {
            Some(self.entry_payload(k))
        } else {
            None
        }
    }

    /// An empty cache.
    pub fn new() -> (r: ResponseCache)
        ensures
            r.wf(),
            r.entries@.len() == 0,
            forall|k: Seq<char>| !r.contains_key(k),
    {
        ResponseCache { entries: Vec::new() }
    }

    /// Look up `key` at clock reading `now_ms`; an expired or absent entry
    /// is a miss.
    pub fn get(&self, key: &str, now_ms: u64) -> (r: Option<String>)
        requires
            self.wf(),
        ensures
            (match r {
                Some(p) => self.spec_get(key@, now_ms) == Some(p@),
                None => self.spec_get(key@, now_ms) is None,
            }),
    {
        let n = self.entries.len();
        let mut i: usize = 0;
        while i < n
            invariant
                n == self.entries@.len(),
                0 <= i <= n,
                self.wf(),
                forall|j: int| 0 <= j < i ==> self.entries@[j].key@ != key@,
            decreases n - i,
        {
            let e = &self.entries[i];
            if str_eq(e.key.as_str(), key) {
                proof {
                    self.lemma_key_index_is(key@, i as int);
                }
                if now_ms < e.expires_at_ms {
                    return Some(e.payload.clone());
                } else {
                    return None;
                }
            }
            i = i + 1;
        }
        proof {
            assert(!self.contains_key(key@));
        }
        None
    }

    /// Store `payload` under `key`, valid for `ttl_ms` milliseconds from
    /// `now_ms`; any previous entry for `key` is overwritten, all other
    /// entries are untouched.
    #[verifier::loop_isolation(false)]
    pub fn put(&mut self, key: &str, payload: &str, ttl_ms: u64, now_ms: u64)
        requires
            old(self).wf(),
            now_ms + ttl_ms <= u64::MAX,
        ensures
            final(self).wf(),
            final(self).contains_key(key@),
            final(self).entry_payload(key@) == payload@,
            final(self).entry_expiry(key@) == now_ms + ttl_ms,
            forall|k: Seq<char>|
                k != key@ ==> (#[trigger] final(self).contains_key(k) <==> old(
                    self,
                ).contains_key(k)),
            forall|k: Seq<char>|
                k != key@ && old(self).contains_key(k) ==> #[trigger] final(self).entry_payload(k)
                    == old(self).entry_payload(k) && final(self).entry_expiry(k) == old(
                    self,
                ).entry_expiry(k),
    {
        let entry = CacheEntry {
            key: key.to_owned(),
            payload: payload.to_owned(),
            expires_at_ms: now_ms + ttl_ms,
        };
        let ghost pre = *self;
        let n = self.entries.len();
        let mut i: usize = 0;
        while i < n
            invariant
                *self == pre,
                n == self.entries@.len(),
                0 <= i <= n,
                self.wf(),
                forall|j: int| 0 <= j < i ==> self.entries@[j].key@ != key@,
                entry.key@ == key@,
                entry.payload@ == payload@,
                entry.expires_at_ms == now_ms + ttl_ms,
            decreases n - i,
        {
            if str_eq(self.entries[i].key.as_str(), key) {
                proof {
                    pre.lemma_key_index_is(key@, i as int);
                }
                self.entries.remove(i);
                self.entries.insert(i, entry);
                proof {
                    assert(self.entries@ =~= pre.entries@.update(i as int, entry));
                    assert forall|a: int, b: int|
                        0 <= a < b < self.entries@.len() implies self.entries@[a].key@
                        != self.entries@[b].key@ by {
                        assert(pre.entries@[a].key@ != pre.entries@[b].key@);
                    }
                    self.lemma_key_index_is(key@, i as int);
                    assert forall|k: Seq<char>| k != key@ implies (self.contains_key(k)
                        <==> pre.contains_key(k)) by {
                        if self.contains_key(k) {
                            let a = self.key_index(k);
                            assert(pre.entries@[a].key@ == k);
                        }
                        if pre.contains_key(k) {
                            let a = pre.key_index(k);
                            assert(self.entries@[a].key@ == k);
                        }
                    }
                    assert forall|k: Seq<char>| k != key@ && pre.contains_key(k) implies
                        self.entry_payload(k) == pre.entry_payload(k) && self.entry_expiry(k)
                        == pre.entry_expiry(k) by {
                        let a = pre.key_index(k);
                        assert(self.entries@[a].key@ == k);
                        self.lemma_key_index_is(k, a);
                    }
                }
                return ;
            }
            i = i + 1;
        }
        self.entries.push(entry);
        proof {
            let m = self.entries@.len() - 1;
            assert(self.entries@ =~= pre.entries@.push(entry));
            assert forall|a: int, b: int|
                0 <= a < b < self.entries@.len() implies self.entries@[a].key@
                != self.entries@[b].key@ by {
                if b < m {
                    assert(pre.entries@[a].key@ != pre.entries@[b].key@);
                } else {
                    assert(pre.entries@[a].key@ != key@);
                }
            }
            self.lemma_key_index_is(key@, m);
            assert forall|k: Seq<char>| k != key@ implies (self.contains_key(k)
                <==> pre.contains_key(k)) by {
                if self.contains_key(k) {
                    let a = self.key_index(k);
                    assert(a < m);
                    assert(pre.entries@[a].key@ == k);
                }
                if pre.contains_key(k) {
                    let a = pre.key_index(k);
                    assert(self.entries@[a].key@ == k);
                }
            }
            assert forall|k: Seq<char>| k != key@ && pre.contains_key(k) implies
                self.entry_payload(k) == pre.entry_payload(k) && self.entry_expiry(k)
                == pre.entry_expiry(k) by {
                let a = pre.key_index(k);
                assert(self.entries@[a].key@ == k);
                self.lemma_key_index_is(k, a);
            }
        }
    }

    /// When `wf` holds and `k` is present at index `i`, that index is the
    /// one the model reads.
    pub proof fn lemma_key_index_is(self, k: Seq<char>, i: int)
        requires
            self.wf(),
            0 <= i < self.entries@.len(),
            self.entries@[i].key@ == k,
        ensures
            self.contains_key(k),
            self.key_index(k) == i,
    {
        let j = self.key_index(k);
        if j != i {
            if j < i {
                assert(self.entries@[j].key@ != self.entries@[i].key@);
            } else {
                assert(self.entries@[i].key@ != self.entries@[j].key@);
            }
        }
    }

    /// TTL law: an entry is readable exactly while the clock is strictly
    /// before its expiry; from the expiry on, a read misses. Together with
    /// the contract of `put` (which sets the expiry to `now + ttl`), an
    /// entry written with a positive TTL is retrievable immediately and
    /// absent once the TTL has elapsed.
    pub proof fn lemma_ttl_visibility(self, k: Seq<char>, probe_ms: u64)
        requires
            self.wf(),
            self.contains_key(k),
        ensures
            (probe_ms as int) < self.entry_expiry(k) ==> self.spec_get(k, probe_ms) == Some(
                self.entry_payload(k),
            ),
            (probe_ms as int) >= self.entry_expiry(k) ==> self.spec_get(k, probe_ms) is None,
    {
    }
}

} // verus!
