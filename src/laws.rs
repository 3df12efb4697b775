//! Laws of the cache's reads, writes and sweeps, stated over the model of a
//! shard's contents that the operations' contracts use.
use vstd::prelude::*;
use crate::cache::{all_routed, merged, shard_of};
use crate::expiry::{live_at, ticks_after, Expiry, ValueView};
use crate::shard::{apply_command, live_entries, lookup, replay, Command, StoreView};

verus! {

/// A key that is not held reads as absent, at any time.
pub proof fn lemma_absent_key_reads_none(m: StoreView, key: Seq<char>, now: u64)
    requires
        !m.contains_key(key),
    ensures
        lookup(m, key, now) is None,
{
}

/// Starting from an empty shard, a key that none of the writes `cs` names
/// reads as absent, at any time.
pub proof fn lemma_never_written_reads_none(cs: Seq<Command>, key: Seq<char>, now: u64)
    requires
        forall|i: int| 0 <= i < cs.len() ==> (#[trigger] cs[i]).key_view() != key,
    ensures
        !replay(Map::empty(), cs).contains_key(key),
        lookup(replay(Map::empty(), cs), key, now) is None,
    decreases cs.len(),
{
    if cs.len() > 0 {
        let shorter = cs.drop_last();
        assert forall|i: int| 0 <= i < shorter.len() implies (#[trigger] shorter[i]).key_view()
            != key by {
            assert(shorter[i] == cs[i]);
        }
        lemma_never_written_reads_none(shorter, key, now);
        assert(cs.last().key_view() != key) by {
            assert(cs[cs.len() - 1] == cs.last());
        }
    }
}

/// Writing one key leaves the reads of every other key as they were: a key
/// that no write has named stays absent.
pub proof fn lemma_other_writes_leave_key_unread(m: StoreView, c: Command, key: Seq<char>, now: u64)
    requires
        c.key_view() != key,
    ensures
        lookup(apply_command(m, c), key, now) == lookup(m, key, now),
{
}

/// A value stored with no deadline reads back, at any later time.
pub proof fn lemma_put_reads_back(m: StoreView, key: Seq<char>, value: Seq<char>, now: u64)
    ensures
        lookup(m.insert(key, (value, None)), key, now) == Some(value),
{
}

/// A value stored with a time-to-live of zero at `put_at` is absent to
/// every read from `put_at` on.
pub proof fn lemma_zero_ttl_reads_none(
    m: StoreView,
    key: Seq<char>,
    value: Seq<char>,
    put_at: u64,
    now: u64,
)
    requires
        put_at <= now,
    ensures
        lookup(m.insert(key, (value, Some(ticks_after(put_at, 0)))), key, now) is None,
{
}

/// A value stored at `put_at` with a time-to-live of `ttl` ticks reads back
/// before `put_at + ttl`, and is absent from then on.
pub proof fn lemma_ttl_reads_until_deadline(
    m: StoreView,
    key: Seq<char>,
    value: Seq<char>,
    put_at: u64,
    ttl: u64,
    now: u64,
)
    requires
        put_at <= now,
        put_at + ttl <= u64::MAX,
    ensures
        now < put_at + ttl ==> lookup(m.insert(key, (value, Some(ticks_after(put_at, ttl as int)))), key, now)
            == Some(value),
        now >= put_at + ttl ==> lookup(m.insert(key, (value, Some(ticks_after(put_at, ttl as int)))), key, now)
            is None,
{
}

/// A sweep at `swept_at` changes no read made at `swept_at` or later: what a
/// read returns does not depend on whether the sweeper has run.
pub proof fn lemma_sweep_invisible_to_reads(m: StoreView, swept_at: u64, key: Seq<char>, now: u64)
    requires
        swept_at <= now,
    ensures
        lookup(live_entries(m, swept_at), key, now) == lookup(m, key, now),
{
}

/// A read of `key` from the shard it is routed to is a read of the whole
/// store.
pub proof fn lemma_routed_read(shards: Seq<StoreView>, key: Seq<char>, now: u64)
    requires
        shards.len() > 0,
    ensures
        lookup(shards[shard_of(key, shards.len()) as int], key, now) == lookup(
            merged(shards),
            key,
            now,
        ),
{
}

/// A write applied to the shard its key is routed to is that write applied
/// to the whole store, and every shard still holds only its own keys.
pub proof fn lemma_routed_write(shards: Seq<StoreView>, c: Command)
    requires
        shards.len() > 0,
        all_routed(shards),
    ensures
        ({
            let i = shard_of(c.key_view(), shards.len()) as int;
            let after = shards.update(i, apply_command(shards[i], c));
            all_routed(after) && merged(after) == apply_command(merged(shards), c)
        }),
{
    let n = shards.len();
    let i = shard_of(c.key_view(), n) as int;
    let after = shards.update(i, apply_command(shards[i], c));
    assert forall|j: int, k: Seq<char>|
        0 <= j < after.len() && #[trigger] after[j].contains_key(k) implies shard_of(k, after.len())
        == j by {
        if j == i && k == c.key_view() {
        } else {
            assert(shards[j].contains_key(k));
        }
    }
    assert(merged(after) =~= apply_command(merged(shards), c));
}

/// Sweeping shard `i` at `swept_at` removes from the whole store exactly the
/// entries of that shard that are not live then, and changes no read made
/// at `swept_at` or later.
pub proof fn lemma_routed_sweep(shards: Seq<StoreView>, i: int, swept_at: u64, key: Seq<char>, now: u64)
    requires
        shards.len() > 0,
        all_routed(shards),
        0 <= i < shards.len(),
        swept_at <= now,
    ensures
        ({
            let before = merged(shards);
            let after = shards.update(i, live_entries(shards[i], swept_at));
            &&& all_routed(after)
            &&& merged(after) == Map::new(
                |k: Seq<char>| before.contains_key(k) && (shard_of(k, shards.len()) != i
                    || live_at(before[k].1, swept_at)),
                |k: Seq<char>| before[k],
            )
            &&& lookup(merged(after), key, now) == lookup(before, key, now)
        }),
{
    let n = shards.len();
    let before = merged(shards);
    let after = shards.update(i, live_entries(shards[i], swept_at));
    assert forall|j: int, k: Seq<char>|
        0 <= j < after.len() && #[trigger] after[j].contains_key(k) implies shard_of(k, after.len())
        == j by {
        assert(shards[j].contains_key(k));
    }
    let expected = Map::new(
        |k: Seq<char>| before.contains_key(k) && (shard_of(k, n) != i || live_at(
            before[k].1,
            swept_at,
        )),
        |k: Seq<char>| before[k],
    );
    assert(merged(after) =~= expected);
}

/// `n` empty shards.
pub open spec fn empty_shards(n: nat) -> Seq<StoreView> {
    Seq::new(n, |i: int| Map::<Seq<char>, ValueView>::empty())
}

/// The shards after the writes `cs`, in order, each applied to the shard its
/// key is routed to.
pub open spec fn replay_routed(shards: Seq<StoreView>, cs: Seq<Command>) -> Seq<StoreView>
    decreases cs.len(),
{
    if cs.len() == 0 {
        shards
    } else {
        let prev = replay_routed(shards, cs.drop_last());
        let i = shard_of(cs.last().key_view(), prev.len()) as int;
        prev.update(i, apply_command(prev[i], cs.last()))
    }
}

/// Writes applied each to the shard their key is routed to act on the whole
/// store as on one map, and every shard keeps only its own keys.
pub proof fn lemma_routed_replay(shards: Seq<StoreView>, cs: Seq<Command>)
    requires
        shards.len() > 0,
        all_routed(shards),
    ensures
        replay_routed(shards, cs).len() == shards.len(),
        all_routed(replay_routed(shards, cs)),
        merged(replay_routed(shards, cs)) == replay(merged(shards), cs),
    decreases cs.len(),
{
    if cs.len() > 0 {
        lemma_routed_replay(shards, cs.drop_last());
        lemma_routed_write(replay_routed(shards, cs.drop_last()), cs.last());
    }
}

/// A store of `n` empty shards holds nothing.
pub proof fn lemma_empty_shards(n: nat)
    requires
        n > 0,
    ensures
        all_routed(empty_shards(n)),
        merged(empty_shards(n)) == Map::<Seq<char>, ValueView>::empty(),
{
    assert(merged(empty_shards(n)) =~= Map::<Seq<char>, ValueView>::empty());
}

/// In a store of `n` shards that started empty, a key that none of the
/// writes `cs` names reads as absent from its shard, at any time.
pub proof fn lemma_store_never_written_reads_none(n: nat, cs: Seq<Command>, key: Seq<char>, now: u64)
    requires
        n > 0,
        forall|i: int| 0 <= i < cs.len() ==> (#[trigger] cs[i]).key_view() != key,
    ensures
        lookup(replay_routed(empty_shards(n), cs)[shard_of(key, n) as int], key, now) is None,
{
    lemma_empty_shards(n);
    lemma_routed_replay(empty_shards(n), cs);
    lemma_never_written_reads_none(cs, key, now);
    lemma_routed_read(replay_routed(empty_shards(n), cs), key, now);
}

/// In a store of `n` shards that started empty, a value stored at `put_at`
/// with a time-to-live of `ttl` ticks, with no later write of its key, reads
/// back from its shard before `put_at + ttl` and is absent from then on.
pub proof fn lemma_store_ttl_reads_until_deadline(
    n: nat,
    before: Seq<Command>,
    key: String,
    value: String,
    expiry: Expiry,
    put_at: u64,
    ttl: u64,
    now: u64,
)
    requires
        n > 0,
        expiry@ == Some(ticks_after(put_at, ttl as int)),
        put_at <= now,
        put_at + ttl <= u64::MAX,
    ensures
        ({
            let cs = before.push(Command::Put { key, value, expiry });
            let shard = replay_routed(empty_shards(n), cs)[shard_of(key@, n) as int];
            &&& now < put_at + ttl ==> lookup(shard, key@, now) == Some(value@)
            &&& now >= put_at + ttl ==> lookup(shard, key@, now) is None
        }),
{
    let c = Command::Put { key, value, expiry };
    let cs = before.push(c);
    lemma_empty_shards(n);
    lemma_routed_replay(empty_shards(n), cs);
    lemma_routed_read(replay_routed(empty_shards(n), cs), key@, now);
    assert(cs.drop_last() =~= before);
    lemma_ttl_reads_until_deadline(replay(Map::empty(), before), key@, value@, put_at, ttl, now);
}

/// Deleting a key that is not held leaves the contents unchanged.
pub proof fn lemma_delete_absent_is_noop(m: StoreView, key: Seq<char>)
    requires
        !m.contains_key(key),
    ensures
        m.remove(key) == m,
{
    assert(m.remove(key) =~= m);
}

/// Of two writes to one key, the later one decides what the key holds.
pub proof fn lemma_last_write_wins(m: StoreView, key: Seq<char>, first: ValueView, second: ValueView)
    ensures
        m.insert(key, first).insert(key, second) == m.insert(key, second),
{
    assert(m.insert(key, first).insert(key, second) =~= m.insert(key, second));
}

/// Writes applied in queue order: when the last write to `key` stores `value`
/// with no deadline, the key reads `value`, whatever came before.
pub proof fn lemma_queue_order_decides(
    m: StoreView,
    before: Seq<Command>,
    last: Command,
    after: Seq<Command>,
    now: u64,
)
    requires
        last matches Command::Put { expiry, .. } && expiry@ is None,
        forall|i: int| 0 <= i < after.len() ==> (#[trigger] after[i]).key_view() != last.key_view(),
    ensures
        lookup(replay(m, before.push(last) + after), last.key_view(), now) == Some(
            last.value_view(),
        ),
    decreases after.len(),
{
    let key = last.key_view();
    if after.len() == 0 {
        assert(before.push(last) + after =~= before.push(last));
        assert(before.push(last).drop_last() =~= before);
    } else {
        let cs = before.push(last) + after;
        let shorter = after.drop_last();
        assert(cs.drop_last() =~= before.push(last) + shorter);
        assert forall|i: int| 0 <= i < shorter.len() implies (#[trigger] shorter[i]).key_view()
            != key by {
            assert(shorter[i] == after[i]);
        }
        lemma_queue_order_decides(m, before, last, shorter, now);
        assert(cs.last() == after.last());
        assert(after.last().key_view() != key) by {
            assert(after[after.len() - 1] == after.last());
        }
        lemma_other_writes_leave_key_unread(replay(m, cs.drop_last()), cs.last(), key, now);
    }
}

/// Sweeps at times that do not go backwards leave exactly the entries that
/// are live at the time of the last sweep.
pub proof fn lemma_repeated_sweeps_keep_live(m: StoreView, first: u64, second: u64)
    requires
        first <= second,
    ensures
        live_entries(live_entries(m, first), second) == live_entries(m, second),
{
    assert(live_entries(live_entries(m, first), second) =~= live_entries(m, second));
}

} // verus!
