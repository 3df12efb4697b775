//! One partition of the key space: a map from key to expiring value.
//!
//! The entries are held as a list with distinct keys; the model of a shard
//! is the map from each key to its value and deadline.
use vstd::prelude::*;
use crate::expiry::{live_at, Expiry, ValueRef, ValueView};

verus! {

/// The model of a shard's contents: each key's value and deadline.
pub type StoreView = Map<Seq<char>, ValueView>;

/// What a read of `key` at `now` returns from contents `m`: the value when
/// the key is present and live, else nothing.
pub open spec fn lookup(m: StoreView, key: Seq<char>, now: u64) -> Option<Seq<char>> {
    if m.contains_key(key) && live_at(m[key].1, now) {
        Some(m[key].0)
    } else {
        None
    }
}

/// The entries of `m` that are live at `now`.
pub open spec fn live_entries(m: StoreView, now: u64) -> StoreView {
    Map::new(|k: Seq<char>| m.contains_key(k) && live_at(m[k].1, now), |k: Seq<char>| m[k])
}

/// The model of an optional string.
pub open spec fn opt_view(r: Option<String>) -> Option<Seq<char>> {
    match r {
        Some(s) => Some(s@),
        None => None,
    }
}

/// The reply to a queued write.
#[derive(Clone, Copy, Debug, PartialEq, Eq, Structural)]
pub enum Status {
    Applied,
}

/// A write, as queued for the single consumer of a shard.
pub enum Command {
    Put { key: String, value: String, expiry: Expiry },
    Delete { key: String },
}

impl Command {
    /// The key that the command writes.
    pub open spec fn key_view(&self) -> Seq<char> {
        match self {
            Command::Put { key, .. } => key@,
            Command::Delete { key } => key@,
        }
    }

    /// The value that the command stores; empty for a delete.
    pub open spec fn value_view(&self) -> Seq<char> {
        match self {
            Command::Put { value, .. } => value@,
            Command::Delete { .. } => Seq::empty(),
        }
    }

    /// The key the command writes.
    pub fn key(&self) -> (r: &String)
        ensures
            r@ == self.key_view(),
    {
        match self {
            Command::Put { key, .. } => key,
            Command::Delete { key } => key,
        }
    }
}

/// The contents `m` after the write `c`.
pub open spec fn apply_command(m: StoreView, c: Command) -> StoreView {
    match c {
        Command::Put { key, value, expiry } => m.insert(key@, (value@, expiry@)),
        Command::Delete { key } => m.remove(key@),
    }
}

/// The contents `m` after the writes `cs`, applied in order.
pub open spec fn replay(m: StoreView, cs: Seq<Command>) -> StoreView
    decreases cs.len(),
{
    if cs.len() == 0 {
        m
    } else {
        apply_command(replay(m, cs.drop_last()), cs.last())
    }
}

struct Slot {
    key: String,
    item: ValueRef,
}

impl Slot {
    fn duplicate(&self) -> (r: Slot)
        ensures
            r.key@ == self.key@,
            r.item@ == self.item@,
    {
        Slot { key: self.key.clone(), item: self.item.duplicate() }
    }
}

/// A partition of the key space.
pub struct Shard {
    slots: Vec<Slot>,
}

impl View for Shard {
    type V = StoreView;

    closed spec fn view(&self) -> StoreView {
        Map::new(|k: Seq<char>| self.holds(k), |k: Seq<char>| self.slots@[self.slot_of(k)].item@)
    }
}

impl Shard {
    closed spec fn key_at(&self, i: int) -> Seq<char> {
        self.slots@[i].key@
    }

    closed spec fn holds(&self, k: Seq<char>) -> bool {
        exists|i: int| 0 <= i < self.slots@.len() && self.key_at(i) == k
    }

    closed spec fn slot_of(&self, k: Seq<char>) -> int {
        choose|i: int| 0 <= i < self.slots@.len() && self.key_at(i) == k
    }

    /// No key is held twice.
    pub closed spec fn wf(&self) -> bool {
        forall|i: int, j: int|
            0 <= i < self.slots@.len() && 0 <= j < self.slots@.len() && i != j
                ==> #[trigger] self.key_at(i) != #[trigger] self.key_at(j)
    }

    proof fn lemma_slot(&self, i: int)
        requires
            self.wf(),
            0 <= i < self.slots@.len(),
        ensures
            self.holds(self.key_at(i)),
            self.slot_of(self.key_at(i)) == i,
            self@.contains_key(self.key_at(i)),
            self@[self.key_at(i)] == self.slots@[i].item@,
    {
        let k = self.key_at(i);
        assert(self.holds(k));
        let j = self.slot_of(k);
        assert(self.key_at(j) == k);
    }

    /// An empty shard.
    pub fn new() -> (r: Shard)
        ensures
            r.wf(),
            r@ == Map::<Seq<char>, ValueView>::empty(),
    {
        let r = Shard { slots: Vec::new() };
        assert(r@ =~= Map::<Seq<char>, ValueView>::empty());
        r
    }

    fn find(&self, key: &String) -> (r: Option<usize>)
        requires
            self.wf(),
        ensures
            match r {
                Some(i) => i < self.slots@.len() && self.key_at(i as int) == key@,
                None => !self@.contains_key(key@),
            },
    {
        let n = self.slots.len();
        let mut i: usize = 0;
        while i < n
            invariant
                n == self.slots@.len(),
                i <= n,
                forall|j: int| 0 <= j < i ==> self.key_at(j) != key@,
            decreases n - i,
        {
            if self.slots[i].key == *key {
                return Some(i);
            }
            i = i + 1;
        }
        None
    }

    /// Whether `key` is held, live or not.
    pub fn contains(&self, key: &String) -> (r: bool)
        requires
            self.wf(),
        ensures
            r == self@.contains_key(key@),
    {
        match self.find(key) {
            Some(i) => {
                proof {
                    self.lemma_slot(i as int);
                }
                true
            },
            None => false,
        }
    }

    /// `post` is `pre` with slot `i` holding `k` and `v`: either `i` is the
    /// slot that already held `k`, or `k` was not held and `i` is a new slot
    /// at the end.
    proof fn lemma_placed(pre: Shard, post: Shard, i: int, k: Seq<char>, v: ValueView)
        requires
            pre.wf(),
            0 <= i <= pre.slots@.len(),
            i < pre.slots@.len() ==> pre.key_at(i) == k && post.slots@.len() == pre.slots@.len(),
            i == pre.slots@.len() ==> !pre@.contains_key(k) && post.slots@.len() == i + 1,
            post.key_at(i) == k,
            post.slots@[i].item@ == v,
            forall|j: int| 0 <= j < post.slots@.len() && j != i ==> post.slots@[j] == pre.slots@[j],
        ensures
            post.wf(),
            post@ == pre@.insert(k, v),
    {
        let n = pre.slots@.len() as int;
        assert forall|a: int, b: int|
            0 <= a < post.slots@.len() && 0 <= b < post.slots@.len() && a != b
                implies #[trigger] post.key_at(a) != #[trigger] post.key_at(b) by {
            if a != i && b != i {
                assert(pre.key_at(a) == post.key_at(a));
                assert(pre.key_at(b) == post.key_at(b));
            } else if a != i {
                assert(pre.key_at(a) == post.key_at(a));
                pre.lemma_slot(a);
            } else {
                assert(pre.key_at(b) == post.key_at(b));
                pre.lemma_slot(b);
            }
        }
        assert forall|x: Seq<char>| #[trigger] post@.contains_key(x)
            == pre@.insert(k, v).contains_key(x) by {
            if x != k && post.holds(x) {
                let j = post.slot_of(x);
                assert(pre.key_at(j) == x);
            }
            if x != k && pre.holds(x) {
                let j = pre.slot_of(x);
                assert(j != i);
                assert(post.key_at(j) == x);
            }
            if x == k {
                post.lemma_slot(i);
            }
        }
        assert forall|x: Seq<char>| #[trigger] post@.contains_key(x)
            implies post@[x] == pre@.insert(k, v)[x] by {
            let j = post.slot_of(x);
            post.lemma_slot(j);
            if x != k {
                assert(j != i);
                assert(pre.key_at(j) == x);
                pre.lemma_slot(j);
            } else {
                post.lemma_slot(i);
            }
        }
        assert(post@ =~= pre@.insert(k, v));
    }

    /// Stores `item` under `key`, replacing what the key held.
    pub fn put(&mut self, key: String, item: ValueRef)
        requires
            old(self).wf(),
        ensures
            final(self).wf(),
            final(self)@ == old(self)@.insert(key@, item@),
    {
        let ghost pre = *self;
        let ghost k = key@;
        let ghost v = item@;
        match self.find(&key) {
            Some(i) => {
                self.slots.set(i, Slot { key, item });
                proof {
                    Shard::lemma_placed(pre, *self, i as int, k, v);
                }
            },
            None => {
                self.slots.push(Slot { key, item });
                proof {
                    Shard::lemma_placed(pre, *self, pre.slots@.len() as int, k, v);
                }
            },
        }
    }

    /// The number of keys held, live or not.
    pub fn len(&self) -> (r: usize)
        requires
            self.wf(),
        ensures
            self@.dom().finite(),
            r == self@.len(),
    {
        proof {
            let keys = self.slots@.map_values(|s: Slot| s.key@);
            assert forall|a: int, b: int| 0 <= a < keys.len() && 0 <= b < keys.len() && a != b
                implies keys[a] != keys[b] by {
                assert(keys[a] == self.key_at(a));
                assert(keys[b] == self.key_at(b));
            }
            assert(keys.no_duplicates());
            keys.unique_seq_to_set();
            assert forall|x: Seq<char>| #[trigger] self@.dom().contains(x) == keys.to_set().contains(x) by {
                if self.holds(x) {
                    let j = self.slot_of(x);
                    assert(keys[j] == x);
                }
                if keys.to_set().contains(x) {
                    let j = choose|j: int| 0 <= j < keys.len() && keys[j] == x;
                    assert(self.key_at(j) == x);
                }
            }
            assert(self@.dom() =~= keys.to_set());
        }
        self.slots.len()
    }

    /// Removes `key` and what it held; a key that is not held is no error.
    pub fn delete(&mut self, key: &String)
        requires
            old(self).wf(),
        ensures
            final(self).wf(),
            final(self)@ == old(self)@.remove(key@),
    {
        let ghost pre = *self;
        let ghost k = key@;
        match self.find(key) {
            Some(i) => {
                let _ = self.slots.remove(i);
                proof {
                    let i = i as int;
                    assert forall|a: int| 0 <= a < self.slots@.len()
                        implies #[trigger] self.key_at(a) == pre.key_at(if a < i { a } else { a + 1 }) by {}
                    assert forall|a: int, b: int|
                        0 <= a < self.slots@.len() && 0 <= b < self.slots@.len() && a != b
                            implies #[trigger] self.key_at(a) != #[trigger] self.key_at(b) by {
                        assert(self.key_at(a) == pre.key_at(if a < i { a } else { a + 1 }));
                        assert(self.key_at(b) == pre.key_at(if b < i { b } else { b + 1 }));
                    }
                    assert forall|x: Seq<char>| #[trigger] self@.contains_key(x)
                        == pre@.remove(k).contains_key(x) by {
                        if self.holds(x) {
                            let j = self.slot_of(x);
                            let pj = if j < i { j } else { j + 1 };
                            assert(pre.key_at(pj) == x);
                            pre.lemma_slot(i);
                            pre.lemma_slot(pj);
                        }
                        if x != k && pre.holds(x) {
                            let j = pre.slot_of(x);
                            assert(j != i);
                            let sj = if j < i { j } else { j - 1 };
                            assert(self.key_at(sj) == x);
                        }
                    }
                    assert forall|x: Seq<char>| #[trigger] self@.contains_key(x)
                        implies self@[x] == pre@.remove(k)[x] by {
                        let j = self.slot_of(x);
                        self.lemma_slot(j);
                        let pj = if j < i { j } else { j + 1 };
                        assert(pre.key_at(pj) == x);
                        pre.lemma_slot(pj);
                    }
                    assert(self@ =~= pre@.remove(k));
                }
            },
            None => {
                assert(self@ =~= pre@.remove(k));
            },
        }
    }

    /// Applies a queued write.
    pub fn apply(&mut self, command: Command) -> (r: Status)
        requires
            old(self).wf(),
        ensures
            final(self).wf(),
            final(self)@ == apply_command(old(self)@, command),
            r == Status::Applied,
    {
        match command {
            Command::Put { key, value, expiry } => self.put(key, ValueRef::new(value, expiry)),
            Command::Delete { key } => self.delete(&key),
        }
        Status::Applied
    }

    /// The value of `key` when it is held and live at `now`.
    pub fn get(&self, key: &String, now: u64) -> (r: Option<String>)
        requires
            self.wf(),
        ensures
            opt_view(r) == lookup(self@, key@, now),
    {
        match self.find(key) {
            Some(i) => {
                proof {
                    self.lemma_slot(i as int);
                }
                if self.slots[i].item.is_live(now) {
                    Some(self.slots[i].item.value().clone())
                } else {
                    None
                }
            },
            None => None,
        }
    }

    /// Removes every entry that is not live at `now`, and keeps the others.
    pub fn evict(&mut self, now: u64)
        requires
            old(self).wf(),
        ensures
            final(self).wf(),
            final(self)@ == live_entries(old(self)@, now),
    {
        let ghost pre = *self;
        let n = self.slots.len();
        let mut kept: Vec<Slot> = Vec::new();
        let ghost mut src: Seq<int> = Seq::empty();
        let mut i: usize = 0;
        while i < n
            invariant
                *self == pre,
                pre.wf(),
                n == pre.slots@.len(),
                i <= n,
                src.len() == kept@.len(),
                forall|j: int| 0 <= j < src.len() ==> 0 <= #[trigger] src[j] < i,
                forall|j: int| 0 <= j < src.len() ==> kept@[j].key@ == pre.key_at(#[trigger] src[j]),
                forall|j: int| 0 <= j < src.len() ==> kept@[j].item@ == pre.slots@[#[trigger] src[j]].item@,
                forall|j: int| 0 <= j < src.len() ==> live_at(pre.slots@[#[trigger] src[j]].item@.1, now),
                forall|a: int, b: int| 0 <= a < b < src.len() ==> #[trigger] src[a] < #[trigger] src[b],
                forall|p: int| 0 <= p < i && live_at(pre.slots@[p].item@.1, now)
                    ==> exists|j: int| 0 <= j < src.len() && #[trigger] src[j] == p,
            decreases n - i,
        {
            let ghost prev = src;
            if self.slots[i].item.is_live(now) {
                let slot = self.slots[i].duplicate();
                kept.push(slot);
                proof {
                    src = src.push(i as int);
                }
            }
            proof {
                assert forall|p: int| 0 <= p < i + 1 && live_at(pre.slots@[p].item@.1, now)
                    implies exists|j: int| 0 <= j < src.len() && #[trigger] src[j] == p by {
                    if p < i {
                        let j = choose|j: int| 0 <= j < prev.len() && #[trigger] prev[j] == p;
                        assert(src[j] == prev[j]);
                    } else {
                        assert(src[prev.len() as int] == p);
                    }
                }
            }
            i = i + 1;
        }
        self.slots = kept;
        proof {
            assert forall|a: int| 0 <= a < self.slots@.len()
                implies #[trigger] self.key_at(a) == pre.key_at(src[a]) by {}
            assert forall|a: int, b: int|
                0 <= a < self.slots@.len() && 0 <= b < self.slots@.len() && a != b
                    implies #[trigger] self.key_at(a) != #[trigger] self.key_at(b) by {
                assert(self.key_at(a) == pre.key_at(src[a]));
                assert(self.key_at(b) == pre.key_at(src[b]));
                if a < b {
                    assert(src[a] < src[b]);
                } else {
                    assert(src[b] < src[a]);
                }
            }
            let target = live_entries(pre@, now);
            assert forall|x: Seq<char>| #[trigger] self@.contains_key(x)
                == target.contains_key(x) by {
                if self.holds(x) {
                    let j = self.slot_of(x);
                    assert(self.key_at(j) == pre.key_at(src[j]));
                    pre.lemma_slot(src[j]);
                }
                if target.contains_key(x) {
                    let p = pre.slot_of(x);
                    pre.lemma_slot(p);
                    let j = choose|j: int| 0 <= j < src.len() && #[trigger] src[j] == p;
                    assert(self.key_at(j) == pre.key_at(src[j]));
                }
            }
            assert forall|x: Seq<char>| #[trigger] self@.contains_key(x)
                implies self@[x] == target[x] by {
                let j = self.slot_of(x);
                self.lemma_slot(j);
                assert(self.key_at(j) == pre.key_at(src[j]));
                pre.lemma_slot(src[j]);
            }
            assert(self@ =~= target);
        }
    }
}

} // verus!
