//! The eviction sweeper: visits the shards in round-robin order and removes
//! the entries whose deadline has passed.
use vstd::prelude::*;
use crate::cache::{swept, EvictingCache};

verus! {

/// The sweeper's position among `buckets` shards.
pub struct EvictingWorker {
    current_bucket: usize,
    buckets: usize,
}

impl EvictingWorker {
    #[verifier::type_invariant]
    spec fn well_formed(&self) -> bool {
        self.current_bucket < self.buckets
    }

    /// The shard that the next sweep visits.
    pub closed spec fn spec_current(&self) -> nat {
        self.current_bucket as nat
    }

    /// The number of shards visited in turn.
    pub closed spec fn spec_buckets(&self) -> nat {
        self.buckets as nat
    }

    /// A sweeper over `buckets` shards, starting at `current_bucket`; nothing
    /// where there is no such shard.
    pub fn new(buckets: usize, current_bucket: usize) -> (r: Option<EvictingWorker>)
        ensures
            r is Some <==> current_bucket < buckets,
            r matches Some(w) ==> w.spec_current() == current_bucket && w.spec_buckets()
                == buckets,
    {
        if current_bucket < buckets {
            Some(EvictingWorker { current_bucket, buckets })
        } else {
            None
        }
    }

    /// A sweeper over the shards of `cache`, starting at the first.
    pub fn over(cache: &EvictingCache) -> (r: EvictingWorker)
        requires
            cache.wf(),
        ensures
            r.spec_current() == 0,
            r.spec_buckets() == cache.spec_buckets(),
    {
        EvictingWorker { current_bucket: 0, buckets: cache.buckets() }
    }

    /// The shard that the next sweep visits.
    pub fn current_bucket(&self) -> (r: usize)
        ensures
            r == self.spec_current(),
            r < self.spec_buckets(),
    {
        proof {
            use_type_invariant(self);
        }
        self.current_bucket
    }

    /// Removes from the current shard of `cache` every entry that is not live
    /// at `now`, and leaves the other shards as they were.
    pub fn evict_at(&self, cache: &mut EvictingCache, now: u64)
        requires
            old(cache).wf(),
            self.spec_buckets() == old(cache).spec_buckets(),
        ensures
            final(cache).wf(),
            final(cache).spec_buckets() == old(cache).spec_buckets(),
            final(cache).shard_views() == swept(
                old(cache).shard_views(),
                self.spec_current() as int,
                now,
            ),
    {
        proof {
            use_type_invariant(self);
        }
        cache.evict_shard_at(self.current_bucket, now);
    }

    /// Removes from the current shard of `cache` every entry that is not live
    /// now on the cache's clock, and leaves the other shards as they were.
    pub fn evict(&self, cache: &mut EvictingCache)
        requires
            old(cache).wf(),
            self.spec_buckets() == old(cache).spec_buckets(),
        ensures
            final(cache).wf(),
            final(cache).spec_buckets() == old(cache).spec_buckets(),
            exists|now: u64|
                final(cache).shard_views() == swept(
                    old(cache).shard_views(),
                    self.spec_current() as int,
                    now,
                ),
    {
        let now = cache.clock().now();
        self.evict_at(cache, now);
    }

    /// Moves on to the next shard, wrapping round after the last.
    pub fn advance(&mut self)
        ensures
            final(self).spec_buckets() == old(self).spec_buckets(),
            final(self).spec_current() == (old(self).spec_current() + 1) % old(self).spec_buckets(),
    {
        proof {
            use_type_invariant(&*self);
        }
        let next = if self.current_bucket + 1 == self.buckets {
            proof {
                vstd::arithmetic::div_mod::lemma_mod_self_0(self.buckets as int);
            }
            0
        } else {
            proof {
                vstd::arithmetic::div_mod::lemma_small_mod(
                    (self.current_bucket + 1) as nat,
                    self.buckets as nat,
                );
            }
            self.current_bucket + 1
        };
        self.current_bucket = next;
    }

    /// One step of the sweeper: sweeps the current shard of `cache` now, then
    /// moves on to the next.
    pub fn step(&mut self, cache: &mut EvictingCache)
        requires
            old(cache).wf(),
            old(self).spec_buckets() == old(cache).spec_buckets(),
        ensures
            final(cache).wf(),
            final(cache).spec_buckets() == old(cache).spec_buckets(),
            exists|now: u64|
                final(cache).shard_views() == swept(
                    old(cache).shard_views(),
                    old(self).spec_current() as int,
                    now,
                ),
            final(self).spec_buckets() == old(self).spec_buckets(),
            final(self).spec_current() == (old(self).spec_current() + 1) % old(self).spec_buckets(),
    {
        self.evict(cache);
        self.advance();
    }
}

} // verus!
