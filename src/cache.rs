//! The cache facade: a fixed array of shards, with every key routed to
//! exactly one shard by a hash of its bytes.
use std::collections::hash_map::DefaultHasher;
use std::hash::Hasher;
use vstd::prelude::*;
use vstd::std_specs::hash::DefaultHasherAdditionalSpecFns;
use vstd::utf8::encode_utf8;
use crate::clock::Clock;
use crate::expiry::{ticks_after, Expiry};
use crate::laws::{empty_shards, lemma_empty_shards, lemma_routed_read, lemma_routed_sweep, lemma_routed_write};
use crate::shard::{apply_command, live_entries, lookup, opt_view, Command, Shard, Status, StoreView};

verus! {

/// The hash of a key: the default hasher fed the key's UTF-8 bytes.
pub open spec fn key_hash(key: Seq<char>) -> u64 {
    DefaultHasher::spec_finish(seq![encode_utf8(key)])
}

/// The shard that `key` is routed to among `buckets` shards.
pub open spec fn shard_of(key: Seq<char>, buckets: nat) -> nat
    recommends
        buckets > 0,
{
    (key_hash(key) as nat) % buckets
}

/// The shard that `key` is routed to among `buckets` shards.
pub fn bucket_of(key: &String, buckets: usize) -> (r: usize)
    requires
        buckets > 0,
    ensures
        r as nat == shard_of(key@, buckets as nat),
        r < buckets,
{
    let mut hasher = DefaultHasher::new();
    hasher.write(key.as_str().as_bytes());
    let hash = hasher.finish();
    (hash % (buckets as u64)) as usize
}

/// The errors of the cache.
#[derive(Clone, Copy, Debug, PartialEq, Eq, Structural)]
pub enum CacheError {
    /// The cache was asked for zero shards.
    InvalidConfiguration,
    /// A queued write got no reply in time.
    QueueUnavailable,
}

/// The outcome of a queued write from the reply it got: applied, or, where
/// no reply came in time, the queue is unavailable.
pub fn outcome_of_reply(reply: Option<Status>) -> (r: Result<(), CacheError>)
    ensures
        reply is Some <==> r is Ok,
        reply is None ==> r == Err::<(), CacheError>(CacheError::QueueUnavailable),
{
    match reply {
        Some(_) => Ok(()),
        None => Err(CacheError::QueueUnavailable),
    }
}

/// Every shard in `shards` holds only keys routed to it.
pub open spec fn all_routed(shards: Seq<StoreView>) -> bool {
    forall|i: int, k: Seq<char>|
        0 <= i < shards.len() && #[trigger] shards[i].contains_key(k) ==> shard_of(
            k,
            shards.len(),
        ) == i
}

/// The contents of the whole store: each key as the shard it is routed to
/// holds it.
pub open spec fn merged(shards: Seq<StoreView>) -> StoreView {
    Map::new(
        |k: Seq<char>| shards[shard_of(k, shards.len()) as int].contains_key(k),
        |k: Seq<char>| shards[shard_of(k, shards.len()) as int][k],
    )
}

/// The shards `shards` after a sweep of shard `i` at `now`.
pub open spec fn swept(shards: Seq<StoreView>, i: int, now: u64) -> Seq<StoreView> {
    shards.update(i, live_entries(shards[i], now))
}

/// A sharded, TTL-aware cache: a fixed array of shards, with every key
/// routed to exactly one of them by `shard_of`.
///
/// The cache owns its shards: reads take `&self`, writes `&mut self`. To
/// share one cache between threads, put each shard under a lock of its own
/// and route with `bucket_of`; every shard operation is a `Shard` method
/// with an exact contract.
pub struct EvictingCache {
    shards: Vec<Shard>,
    clock: Clock,
}

impl View for EvictingCache {
    type V = StoreView;

    /// Every key with its value and deadline, across all shards.
    closed spec fn view(&self) -> StoreView {
        merged(self.shard_views())
    }
}

impl EvictingCache {
    /// The contents of each shard, in shard order.
    pub closed spec fn shard_views(&self) -> Seq<StoreView> {
        self.shards@.map_values(|s: Shard| s@)
    }

    /// The number of shards.
    pub closed spec fn spec_buckets(&self) -> nat {
        self.shards@.len()
    }

    /// At least one shard; every shard is well formed and holds only the
    /// keys routed to it.
    pub closed spec fn wf(&self) -> bool {
        &&& self.shards@.len() > 0
        &&& forall|i: int| 0 <= i < self.shards@.len() ==> (#[trigger] self.shards@[i]).wf()
        &&& all_routed(self.shard_views())
    }

    /// A cache of `buckets` empty shards; zero shards is a configuration error.
    pub fn new(buckets: usize) -> (r: Result<EvictingCache, CacheError>)
        ensures
            buckets == 0 <==> r is Err,
            r is Err ==> r == Err::<EvictingCache, CacheError>(CacheError::InvalidConfiguration),
            r matches Ok(c) ==> c.wf() && c.spec_buckets() == buckets && c@ == Map::<
                Seq<char>,
                crate::expiry::ValueView,
            >::empty() && c.shard_views() == empty_shards(buckets as nat),
    {
        if buckets == 0 {
            return Err(CacheError::InvalidConfiguration);
        }
        let mut shards: Vec<Shard> = Vec::with_capacity(buckets);
        let mut i: usize = 0;
        while i < buckets
            invariant
                i <= buckets,
                shards@.len() == i,
                forall|j: int| 0 <= j < i ==> (#[trigger] shards@[j]).wf(),
                forall|j: int| 0 <= j < i ==> (#[trigger] shards@[j])@ == Map::<
                    Seq<char>,
                    crate::expiry::ValueView,
                >::empty(),
            decreases buckets - i,
        {
            shards.push(Shard::new());
            i = i + 1;
        }
        let c = EvictingCache { shards, clock: Clock::new() };
        proof {
            assert(c.shard_views() =~= empty_shards(buckets as nat));
            lemma_empty_shards(buckets as nat);
        }
        Ok(c)
    }

    /// The number of shards.
    pub fn buckets(&self) -> (r: usize)
        requires
            self.wf(),
        ensures
            r == self.spec_buckets(),
            r > 0,
    {
        self.shards.len()
    }

    /// The clock that the cache's deadlines are read against.
    pub fn clock(&self) -> (r: Clock) {
        self.clock
    }

    /// The shard that `key` is routed to.
    pub fn index_of(&self, key: &String) -> (r: usize)
        requires
            self.wf(),
        ensures
            r as nat == shard_of(key@, self.spec_buckets()),
            r < self.spec_buckets(),
    {
        bucket_of(key, self.shards.len())
    }

    /// The value of `key` at tick `now`: present and live, or nothing.
    /// Never changes the cache.
    pub fn get_at(&self, key: &String, now: u64) -> (r: Option<String>)
        requires
            self.wf(),
        ensures
            opt_view(r) == lookup(self@, key@, now),
    {
        let index = self.index_of(key);
        let r = self.shards[index].get(key, now);
        proof {
            assert(self.shards@[index as int]@ == self.shard_views()[index as int]);
            lemma_routed_read(self.shard_views(), key@, now);
        }
        r
    }

    /// The value of `key` now, read on the cache's clock: present and live,
    /// or nothing. Never changes the cache.
    pub fn get(&self, key: String) -> (r: Option<String>)
        requires
            self.wf(),
        ensures
            exists|now: u64| opt_view(r) == lookup(self@, key@, now),
    {
        let now = self.clock.now();
        self.get_at(&key, now)
    }

    /// Whether `key` is held, live or not. Expired entries stay held until a
    /// sweep or a delete removes them.
    pub fn holds(&self, key: &String) -> (r: bool)
        requires
            self.wf(),
        ensures
            r == self@.contains_key(key@),
    {
        let index = self.index_of(key);
        proof {
            assert(self.shards@[index as int]@ == self.shard_views()[index as int]);
        }
        self.shards[index].contains(key)
    }

    /// The number of keys that shard `index` holds, live or not.
    pub fn shard_len(&self, index: usize) -> (r: usize)
        requires
            self.wf(),
            index < self.spec_buckets(),
        ensures
            r == self.shard_views()[index as int].len(),
    {
        proof {
            assert(self.shards@[index as int]@ == self.shard_views()[index as int]);
        }
        self.shards[index].len()
    }

    /// Applies a write to the shard of its key, and replies.
    pub fn apply(&mut self, command: Command) -> (r: Status)
        requires
            old(self).wf(),
        ensures
            final(self).wf(),
            final(self).spec_buckets() == old(self).spec_buckets(),
            final(self)@ == apply_command(old(self)@, command),
            final(self).shard_views() == old(self).shard_views().update(
                shard_of(command.key_view(), old(self).spec_buckets()) as int,
                apply_command(
                    old(self).shard_views()[shard_of(command.key_view(), old(self).spec_buckets()) as int],
                    command,
                ),
            ),
            r == Status::Applied,
    {
        let ghost pre = old(self).shard_views();
        let ghost c = command;
        let index = self.index_of(command.key());
        let mut shard = Shard::new();
        self.shards.set_and_swap(index, &mut shard);
        let r = shard.apply(command);
        self.shards.set_and_swap(index, &mut shard);
        proof {
            assert(self.shard_views() =~= pre.update(index as int, apply_command(pre[index as int], c)));
            lemma_routed_write(pre, c);
            assert forall|i: int| 0 <= i < self.shards@.len() implies (#[trigger] self.shards@[i]).wf() by {
                if i != index {
                    assert(self.shards@[i] == old(self).shards@[i]);
                }
            }
        }
        r
    }

    /// Stores `value` under `key` with the given deadline, in the shard of
    /// `key`; the other shards and keys are left as they were.
    pub fn put_with_expiry(&mut self, key: String, value: String, expiry: Expiry)
        requires
            old(self).wf(),
        ensures
            final(self).wf(),
            final(self).spec_buckets() == old(self).spec_buckets(),
            final(self)@ == old(self)@.insert(key@, (value@, expiry@)),
            final(self).shard_views() == old(self).shard_views().update(
                shard_of(key@, old(self).spec_buckets()) as int,
                old(self).shard_views()[shard_of(key@, old(self).spec_buckets()) as int].insert(
                    key@,
                    (value@, expiry@),
                ),
            ),
    {
        self.apply(Command::Put { key, value, expiry });
    }

    /// Stores `value` under `key` with no deadline.
    pub fn put(&mut self, key: String, value: String)
        requires
            old(self).wf(),
        ensures
            final(self).wf(),
            final(self).spec_buckets() == old(self).spec_buckets(),
            final(self)@ == old(self)@.insert(key@, (value@, None::<u64>)),
    {
        self.put_with_expiry(key, value, Expiry::never());
    }

    /// Stores `value` under `key`, live for `ttl` ticks from now on the
    /// cache's clock; a `ttl` of zero stores it already expired.
    pub fn put_with_ttl(&mut self, key: String, value: String, ttl: u64)
        requires
            old(self).wf(),
        ensures
            final(self).wf(),
            final(self).spec_buckets() == old(self).spec_buckets(),
            exists|now: u64|
                final(self)@ == old(self)@.insert(key@, (value@, Some(ticks_after(now, ttl as int)))),
    {
        let now = self.clock.now();
        let ghost k = key@;
        let ghost v = value@;
        self.put_with_expiry(key, value, Expiry::after_nanos(now, ttl));
        assert(self@ == old(self)@.insert(k, (v, Some(ticks_after(now, ttl as int)))));
    }

    /// Removes `key`; removing a key that is not held is no error.
    pub fn delete(&mut self, key: String)
        requires
            old(self).wf(),
        ensures
            final(self).wf(),
            final(self).spec_buckets() == old(self).spec_buckets(),
            final(self)@ == old(self)@.remove(key@),
    {
        self.apply(Command::Delete { key });
    }

    /// Removes from shard `index` every entry that is not live at `now`; the
    /// other shards are left as they were.
    pub fn evict_shard_at(&mut self, index: usize, now: u64)
        requires
            old(self).wf(),
            index < old(self).spec_buckets(),
        ensures
            final(self).wf(),
            final(self).spec_buckets() == old(self).spec_buckets(),
            final(self).shard_views() == swept(old(self).shard_views(), index as int, now),
            final(self)@ == Map::new(
                |k: Seq<char>| old(self)@.contains_key(k) && (shard_of(k, old(self).spec_buckets()) != index
                    || crate::expiry::live_at(old(self)@[k].1, now)),
                |k: Seq<char>| old(self)@[k],
            ),
    {
        let ghost pre = old(self).shard_views();
        let mut shard = Shard::new();
        self.shards.set_and_swap(index, &mut shard);
        shard.evict(now);
        self.shards.set_and_swap(index, &mut shard);
        proof {
            assert(self.shard_views() =~= swept(pre, index as int, now));
            lemma_routed_sweep(pre, index as int, now, Seq::empty(), now);
            assert forall|i: int| 0 <= i < self.shards@.len() implies (#[trigger] self.shards@[i]).wf() by {
                if i != index {
                    assert(self.shards@[i] == old(self).shards@[i]);
                }
            }
        }
    }
}

} // verus!
