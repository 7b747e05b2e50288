//! The per-client token-bucket rate limiter guarding the HTTP entry
//! points: one bucket of capacity one per observed client key, refilled
//! once per configured interval.
//!
//! A configured interval of zero disables limiting entirely. The caller
//! supplies the clock as a seconds value. Idle buckets are reclaimed by
//! [`RateLimiter::sweep`], so sustained traffic from distinct clients does
//! not grow the state without bound: the caller runs the sweep
//! periodically.

use vstd::prelude::*;

use crate::ip::IpKey;

verus! {

/// The last admission time of a key among `entries`, if the key holds a
/// bucket.
pub open spec fn spec_bucket(entries: Seq<(IpKey, u64)>, key: IpKey) -> Option<u64>
    decreases entries.len(),
{
    if entries.len() == 0 {
        None
    } else if entries[0].0 == key {
        Some(entries[0].1)
    } else {
        spec_bucket(entries.drop_first(), key)
    }
}

/// Each key holds at most one bucket.
pub open spec fn spec_unique_keys(entries: Seq<(IpKey, u64)>) -> bool {
    forall|i: int, j: int| 0 <= i < j < entries.len() ==> entries[i].0 != entries[j].0
}

/// Whether a request is admitted: limiting is off, the key is new, or the
/// refill interval has passed since the key's last admission.
pub open spec fn spec_admits(last: Option<u64>, interval: u64, now: u64) -> bool {
    interval == 0 || match last {
        None => true,
        Some(t) => now >= t + interval,
    }
}

proof fn lemma_bucket_absent(entries: Seq<(IpKey, u64)>, key: IpKey)
    requires
        forall|i: int| 0 <= i < entries.len() ==> entries[i].0 != key,
    ensures
        spec_bucket(entries, key) is None,
    decreases entries.len(),
{
    if entries.len() > 0 {
        lemma_bucket_absent(entries.drop_first(), key);
    }
}

proof fn lemma_bucket_push(entries: Seq<(IpKey, u64)>, key: IpKey, entry: (IpKey, u64))
    ensures
        entry.0 == key && spec_bucket(entries, key) is None ==> spec_bucket(
            entries.push(entry),
            key,
        ) == Some(entry.1),
        entry.0 != key ==> spec_bucket(entries.push(entry), key) == spec_bucket(entries, key),
        spec_bucket(entries, key) is Some ==> spec_bucket(entries.push(entry), key) == spec_bucket(
            entries,
            key,
        ),
    decreases entries.len(),
{
    if entries.len() == 0 {
        assert(entries.push(entry).len() == 1);
        assert(entries.push(entry)[0] == entry);
        assert(entries.push(entry).drop_first() =~= Seq::<(IpKey, u64)>::empty());
        assert(spec_bucket(Seq::<(IpKey, u64)>::empty(), key) is None);
        assert(spec_bucket(entries, key) is None);
    } else {
        assert(entries.push(entry)[0] == entries[0]);
        assert(entries.push(entry).drop_first() =~= entries.drop_first().push(entry));
        lemma_bucket_push(entries.drop_first(), key, entry);
    }
}

/// A bucket found by scanning is the bucket the spec names: position `i`
/// holds the first occurrence of its key.
proof fn lemma_bucket_at(entries: Seq<(IpKey, u64)>, i: int)
    requires
        0 <= i < entries.len(),
        forall|j: int| 0 <= j < i ==> entries[j].0 != entries[i].0,
    ensures
        spec_bucket(entries, entries[i].0) == Some(entries[i].1),
    decreases i,
{
    if i > 0 {
        lemma_bucket_at(entries.drop_first(), i - 1);
    }
}

/// Removing position `i` never touches another key's bucket.
proof fn lemma_bucket_remove(entries: Seq<(IpKey, u64)>, i: int, key: IpKey)
    requires
        0 <= i < entries.len(),
        entries[i].0 != key,
    ensures
        spec_bucket(entries.remove(i), key) == spec_bucket(entries, key),
    decreases entries.len(),
{
    if i == 0 {
        assert(entries.remove(0) =~= entries.drop_first());
    } else if entries.len() > 0 {
        assert(entries.remove(i).drop_first() =~= entries.drop_first().remove(i - 1));
        if entries[0].0 != key {
            lemma_bucket_remove(entries.drop_first(), i - 1, key);
        }
    }
}

/// The rate limiter: the configured refill interval in seconds, and one
/// bucket per key. An interval of zero makes every call a pass-through.
#[derive(Debug, Clone)]
pub struct RateLimiter {
    pub interval: u64,
    pub entries: Vec<(IpKey, u64)>,
}

impl RateLimiter {
    /// The state is well formed: one bucket per key.
    pub open spec fn wf(&self) -> bool {
        spec_unique_keys(self.entries@)
    }

    /// A fresh limiter with the configured seconds-per-request interval
    /// and no buckets.
    pub fn new(interval: u64) -> (r: RateLimiter)
        ensures
            r.wf(),
            r.interval == interval,
            r.entries@.len() == 0,
    {
        RateLimiter { interval, entries: Vec::new() }
    }

    /// Decides one request: admitted exactly when limiting is off, the key
    /// is new, or the interval has passed since the key's last admission.
    /// An admission stamps the key's bucket with `now`; a rejection, and
    /// any call with limiting off, leaves the state as it was. No other
    /// key's bucket ever moves.
    pub fn acquire(&mut self, key: IpKey, now: u64) -> (admitted: bool)
        requires
            old(self).wf(),
        ensures
            final(self).wf(),
            final(self).interval == old(self).interval,
            admitted == spec_admits(spec_bucket(old(self).entries@, key), old(self).interval, now),
            (admitted && old(self).interval > 0) ==> spec_bucket(final(self).entries@, key)
                == Some(now),
            !(admitted && old(self).interval > 0) ==> final(self).entries == old(self).entries,
            forall|k2: IpKey|
                k2 != key ==> spec_bucket(final(self).entries@, k2) == spec_bucket(
                    old(self).entries@,
                    k2,
                ),
    {
        if self.interval == 0 {
            return true;
        }
        let n = self.entries.len();
        let mut i: usize = 0;
        while i < n
            invariant
                i <= n,
                n == self.entries.len(),
                self.interval == old(self).interval,
                self.entries == old(self).entries,
                self.interval > 0,
                self.wf(),
                forall|j: int| 0 <= j < i ==> self.entries@[j].0 != key,
            decreases n - i,
        {
            if self.entries[i].0 == key {
                let last = self.entries[i].1;
                proof {
                    lemma_bucket_at(self.entries@, i as int);
                }
                let refill_at = last.checked_add(self.interval);
                let admitted = match refill_at {
                    Some(t) => now >= t,
                    None => false,
                };
                if admitted {
                    let ghost pre = self.entries@;
                    self.entries.remove(i);
                    self.entries.push((key, now));
                    proof {
                        let mid = pre.remove(i as int);
                        assert(self.entries@ =~= mid.push((key, now)));
                        assert forall|j: int| 0 <= j < mid.len() implies mid[j].0 != key by {
                            if j < i {
                                assert(mid[j] == pre[j]);
                            } else {
                                assert(mid[j] == pre[j + 1]);
                                assert(pre[i as int].0 == key);
                                assert(pre[i as int].0 != pre[j + 1].0);
                            }
                        }
                        lemma_bucket_absent(mid, key);
                        lemma_bucket_push(mid, key, (key, now));
                        assert forall|k2: IpKey| k2 != key implies spec_bucket(self.entries@, k2)
                            == spec_bucket(pre, k2) by {
                            lemma_bucket_remove(pre, i as int, k2);
                            lemma_bucket_push(mid, k2, (key, now));
                        }
                        assert forall|a: int, b: int|
                            0 <= a < b < self.entries@.len() implies self.entries@[a].0
                            != self.entries@[b].0 by {
                            if b < self.entries@.len() - 1 {
                                if a < i {
                                    assert(mid[a] == pre[a]);
                                } else {
                                    assert(mid[a] == pre[a + 1]);
                                }
                                if b < i {
                                    assert(mid[b] == pre[b]);
                                } else {
                                    assert(mid[b] == pre[b + 1]);
                                }
                            } else {
                                assert(self.entries@[b].0 == key);
                                assert(self.entries@[a] == mid[a]);
                                assert(mid[a].0 != key);
                            }
                        }
                    }
                }
                return admitted;
            }
            i = i + 1;
        }
        proof {
            lemma_bucket_absent(self.entries@, key);
        }
        let ghost pre = self.entries@;
        self.entries.push((key, now));
        proof {
            lemma_bucket_push(pre, key, (key, now));
            assert forall|k2: IpKey| k2 != key implies spec_bucket(self.entries@, k2)
                == spec_bucket(pre, k2) by {
                lemma_bucket_push(pre, k2, (key, now));
            }
            assert forall|a: int, b: int|
                0 <= a < b < self.entries@.len() implies self.entries@[a].0
                != self.entries@[b].0 by {
                if b == self.entries@.len() - 1 {
                    assert(self.entries@[a] == pre[a]);
                    assert(pre[a].0 != key);
                } else {
                    assert(self.entries@[a] == pre[a]);
                    assert(self.entries@[b] == pre[b]);
                }
            }
        }
        true
    }

    /// Reclaims every bucket whose interval has already passed: such a
    /// bucket admits its next request anyway, so dropping it changes no
    /// decision, and the state stays bounded by the number of keys seen
    /// within one interval.
    pub fn sweep(&mut self, now: u64)
        requires
            old(self).wf(),
        ensures
            final(self).wf(),
            final(self).interval == old(self).interval,
            forall|k: IpKey|
                spec_bucket(final(self).entries@, k) == (match spec_bucket(
                    old(self).entries@,
                    k,
                ) {
                    Some(t) => if spec_admits(Some(t), old(self).interval, now) {
                        None::<u64>
                    } else {
                        Some(t)
                    },
                    None => None::<u64>,
                }),
    {
        let interval = self.interval;
        let n = self.entries.len();
        let mut kept: Vec<(IpKey, u64)> = Vec::new();
        let mut i: usize = 0;
        while i < n
            invariant
                i <= n,
                n == self.entries.len(),
                self.interval == old(self).interval,
                self.entries == old(self).entries,
                interval == self.interval,
                spec_unique_keys(self.entries@),
                spec_unique_keys(kept@),
                forall|j: int|
                    #![trigger kept@[j]]
                    0 <= j < kept@.len() ==> exists|t: int|
                        0 <= t < i && kept@[j] == #[trigger] self.entries@[t],
                forall|k: IpKey|
                    spec_bucket(kept@, k) == (match spec_bucket(self.entries@.take(i as int), k) {
                        Some(t) => if spec_admits(Some(t), interval, now) {
                            None::<u64>
                        } else {
                            Some(t)
                        },
                        None => None::<u64>,
                    }),
            decreases n - i,
        {
            let entry = self.entries[i];
            let refill_at = entry.1.checked_add(interval);
            let expired = match refill_at {
                Some(t) => now >= t,
                None => false,
            };
            let still_throttling = interval != 0 && !expired;
            let ghost pre_kept = kept@;
            if still_throttling {
                kept.push(entry);
            }
            proof {
                let taken = self.entries@.take(i + 1);
                assert(taken.drop_last() =~= self.entries@.take(i as int));
                assert(taken.last() == self.entries@[i as int]);
                assert forall|k: IpKey|
                    spec_bucket(kept@, k) == (match spec_bucket(taken, k) {
                        Some(t) => if spec_admits(Some(t), interval, now) {
                            None::<u64>
                        } else {
                            Some(t)
                        },
                        None => None::<u64>,
                    }) by {
                    lemma_bucket_take_step(self.entries@, i as int, k);
                    if still_throttling {
                        lemma_bucket_push(pre_kept, k, entry);
                        if k == entry.0 {
                            assert forall|j: int| 0 <= j < i implies self.entries@[j].0 != k by {}
                            lemma_bucket_take_absent(self.entries@, i as int, k);
                            lemma_bucket_absent(pre_kept, k);
                        }
                    } else {
                        if k == entry.0 {
                            lemma_bucket_take_absent(self.entries@, i as int, k);
                            lemma_bucket_absent(pre_kept, k);
                        }
                    }
                }
                if still_throttling {
                    assert forall|a: int, b: int|
                        0 <= a < b < kept@.len() implies kept@[a].0 != kept@[b].0 by {
                        if b == kept@.len() - 1 {
                            let ta = choose|t: int|
                                0 <= t < i && pre_kept[a] == self.entries@[t];
                            assert(kept@[a] == self.entries@[ta]);
                            assert(kept@[b] == self.entries@[i as int]);
                        }
                    }
                }
            }
            i = i + 1;
        }
        proof {
            assert(self.entries@.take(n as int) =~= self.entries@);
        }
        self.entries = kept;
    }
}

/// If a key does not occur among the first `i` entries, its bucket over
/// that prefix is empty.
proof fn lemma_bucket_take_absent(entries: Seq<(IpKey, u64)>, i: int, key: IpKey)
    requires
        0 <= i <= entries.len(),
        forall|j: int| 0 <= j < i ==> entries[j].0 != key,
    ensures
        spec_bucket(entries.take(i), key) is None,
{
    assert forall|j: int| 0 <= j < entries.take(i).len() implies entries.take(i)[j].0 != key by {}
    lemma_bucket_absent(entries.take(i), key);
}

/// Extending a scanned prefix by one entry extends its buckets by that
/// entry's key alone.
proof fn lemma_bucket_take_step(entries: Seq<(IpKey, u64)>, i: int, key: IpKey)
    requires
        0 <= i < entries.len(),
    ensures
        entries[i].0 != key ==> spec_bucket(entries.take(i + 1), key) == spec_bucket(
            entries.take(i),
            key,
        ),
        entries[i].0 == key && spec_bucket(entries.take(i), key) is None ==> spec_bucket(
            entries.take(i + 1),
            key,
        ) == Some(entries[i].1),
        spec_bucket(entries.take(i), key) is Some ==> spec_bucket(entries.take(i + 1), key)
            == spec_bucket(entries.take(i), key),
{
    assert(entries.take(i + 1) =~= entries.take(i).push(entries[i]));
    lemma_bucket_push(entries.take(i), key, entries[i]);
}

// ------------------------------------------------------------------
// The admission window, as facts about the decision
// ------------------------------------------------------------------

/// With limiting on, a key's first request is admitted; a second request
/// within the interval after an admission at `t0` is rejected; and the
/// request at `t0 + interval` is admitted again.
pub proof fn lemma_rate_limit_window(interval: u64, t0: u64, t1: u64)
    requires
        interval > 0,
        t1 < t0 + interval,
    ensures
        spec_admits(None::<u64>, interval, t0),
        !spec_admits(Some(t0), interval, t1),
        t0 + interval <= u64::MAX ==> spec_admits(
            Some(t0),
            interval,
            (t0 + interval) as u64,
        ),
{
}

} // verus!
