use std::sync::{Arc, Mutex};

use learning_rust::cache::{bucket_of, outcome_of_reply, CacheError, EvictingCache};
use learning_rust::clock::Clock;
use learning_rust::expiry::{Expiry, ValueRef, NANOS_PER_SECOND};
use learning_rust::shard::{Command, Shard, Status};
use learning_rust::sweeper::EvictingWorker;

fn text(s: &str) -> String {
    String::from(s)
}

fn wait_nanos(clock: &Clock, nanos: u64) {
    let until = clock.now() + nanos;
    while clock.now() < until {
        std::hint::spin_loop();
    }
}

fn runtime() -> tokio::runtime::Runtime {
    tokio::runtime::Builder::new_multi_thread().worker_threads(8).build().unwrap()
}

#[test]
fn test_get_value_by_an_existing_key() {
    let mut evicting_cache = EvictingCache::new(64).unwrap();
    evicting_cache.put(String::from("disk_type"), String::from("SSD"));

    let value = evicting_cache.get(String::from("disk_type"));
    assert_eq!(String::from("SSD"), value.unwrap());
}

#[test]
fn test_get_value_by_an_non_existing_key() {
    let mut evicting_cache = EvictingCache::new(64).unwrap();
    evicting_cache.put(String::from("disk_type"), String::from("SSD"));

    let value = evicting_cache.get(String::from("non_existing"));
    assert!(value.is_none());
}

#[test]
fn test_get_value_by_an_expired_value_of_key() {
    let mut evicting_cache = EvictingCache::new(64).unwrap();
    let now = evicting_cache.clock().now();
    evicting_cache.put_with_expiry(String::from("disk_type"), String::from("SSD"), Expiry::after_nanos(now, 0));

    let value = evicting_cache.get(String::from("disk_type"));
    assert!(value.is_none());
}

#[test]
fn test_a_non_expiry_with_a_never_expiring_value() {
    let clock = Clock::new();
    let value_ref = ValueRef::new(String::from("some value"), Expiry::never());
    let has_expired = value_ref.has_expired(clock.now());

    assert_eq!(false, has_expired);
}

#[test]
fn test_a_non_expiry_with_an_expiring_value() {
    let clock = Clock::new();
    let value_ref = ValueRef::new(String::from("some value"), Expiry::after_seconds(clock.now(), 10));
    let has_expired = value_ref.has_expired(clock.now());

    assert_eq!(false, has_expired);
}

#[test]
fn test_an_expiry() {
    let clock = Clock::new();
    let start = clock.now();
    let value_ref = ValueRef::new(String::from("some value"), Expiry::after_seconds(start, 1));
    let two_seconds_later = start + 2 * NANOS_PER_SECOND;

    let has_expired = value_ref.has_expired(two_seconds_later);
    assert_eq!(true, has_expired);
}

#[test]
fn expiry_is_reached_exactly_at_the_deadline() {
    let value_ref = ValueRef::new(text("v"), Expiry::after_nanos(100, 5));
    assert_eq!(Some(105), value_ref.deadline());
    assert!(!value_ref.has_expired(104));
    assert!(value_ref.has_expired(105));
    assert_eq!("v", value_ref.value());
}

#[test]
fn expiry_saturates_at_the_largest_tick() {
    assert_eq!(Some(u64::MAX), Expiry::after_nanos(u64::MAX - 1, 10).deadline());
    assert_eq!(Some(u64::MAX), Expiry::after_seconds(0, u64::MAX).deadline());
    assert_eq!(Some(3 * NANOS_PER_SECOND + 7), Expiry::after_seconds(7, 3).deadline());
    assert_eq!(None, Expiry::never().deadline());
}

#[test]
fn clock_does_not_go_backwards() {
    let clock = Clock::new();
    let first = clock.now();
    let mut second = clock.now();
    while second == first {
        second = clock.now();
    }
    assert!(second > first);
}

#[test]
fn zero_shards_is_a_configuration_error() {
    assert_eq!(CacheError::InvalidConfiguration, EvictingCache::new(0).err().unwrap());
    assert_eq!(1, EvictingCache::new(1).unwrap().buckets());
}

#[test]
fn routing_is_deterministic_and_in_range() {
    let mut cache = EvictingCache::new(16).unwrap();
    let mut used = vec![false; 16];
    for i in 0..200 {
        let key = format!("key{}", i);
        let index = cache.index_of(&key);
        assert!(index < 16);
        assert_eq!(index, cache.index_of(&key));
        assert_eq!(index, bucket_of(&key, 16));
        used[index] = true;
    }
    assert!(used.iter().filter(|u| **u).count() > 8);
    assert_eq!(0, bucket_of(&text("anything"), 1));
}

#[test]
fn a_key_never_put_reads_none() {
    let mut cache = EvictingCache::new(4).unwrap();
    assert_eq!(None, cache.get(text("k")));
    cache.put(text("other"), text("v"));
    assert_eq!(None, cache.get(text("k")));
}

#[test]
fn a_put_without_ttl_reads_back() {
    let mut cache = EvictingCache::new(4).unwrap();
    cache.put(text("k"), text("v"));
    assert_eq!(Some(text("v")), cache.get(text("k")));
    wait_nanos(&cache.clock(), 5_000_000);
    assert_eq!(Some(text("v")), cache.get(text("k")));
}

#[test]
fn a_zero_ttl_is_expired_at_once() {
    let mut cache = EvictingCache::new(4).unwrap();
    cache.put_with_ttl(text("k"), text("v"), 0);
    assert_eq!(None, cache.get(text("k")));
}

#[test]
fn a_ttl_entry_reads_until_its_deadline() {
    let mut cache = EvictingCache::new(4).unwrap();
    cache.put_with_ttl(text("k"), text("v"), 200_000_000);
    assert_eq!(Some(text("v")), cache.get(text("k")));
    wait_nanos(&cache.clock(), 300_000_000);
    assert_eq!(None, cache.get(text("k")));
}

#[test]
fn a_ttl_entry_expires_on_a_shard_at_given_times() {
    let mut shard = Shard::new();
    let key = text("k");
    shard.put(key.clone(), ValueRef::new(text("v"), Expiry::after_nanos(1_000, 500)));
    assert_eq!(Some(text("v")), shard.get(&key, 1_000));
    assert_eq!(Some(text("v")), shard.get(&key, 1_499));
    assert_eq!(None, shard.get(&key, 1_500));
    shard.evict(1_200);
    assert_eq!(Some(text("v")), shard.get(&key, 1_499));
    shard.evict(1_500);
    assert_eq!(None, shard.get(&key, 1_500));
    assert!(!shard.contains(&key));
}

#[test]
fn deleting_an_absent_key_changes_nothing() {
    let mut cache = EvictingCache::new(2).unwrap();
    cache.put(text("a"), text("1"));
    cache.delete(text("missing"));
    assert_eq!(Some(text("1")), cache.get(text("a")));
    assert_eq!(None, cache.get(text("missing")));

    let mut shard = Shard::new();
    shard.put(text("a"), ValueRef::new(text("1"), Expiry::never()));
    shard.delete(&text("missing"));
    assert_eq!(1, shard.len());
    assert_eq!(Some(text("1")), shard.get(&text("a"), 0));
}

#[test]
fn delete_removes_a_present_key() {
    let mut cache = EvictingCache::new(2).unwrap();
    cache.put(text("a"), text("1"));
    cache.put(text("b"), text("2"));
    cache.delete(text("a"));
    assert_eq!(None, cache.get(text("a")));
    assert_eq!(Some(text("2")), cache.get(text("b")));
}

#[test]
fn the_later_put_to_a_key_wins() {
    let mut cache = EvictingCache::new(3).unwrap();
    cache.put(text("k"), text("v1"));
    cache.put(text("k"), text("v2"));
    assert_eq!(Some(text("v2")), cache.get(text("k")));

    let mut shard = Shard::new();
    shard.put(text("k"), ValueRef::new(text("v1"), Expiry::never()));
    shard.put(text("k"), ValueRef::new(text("v2"), Expiry::never()));
    assert_eq!(1, shard.len());
    assert_eq!(Some(text("v2")), shard.get(&text("k"), 0));
}

#[test]
fn queued_commands_apply_in_order() {
    let mut cache = EvictingCache::new(2).unwrap();
    let put = |v: &str| Command::Put { key: text("key1"), value: text(v), expiry: Expiry::never() };
    assert_eq!(Status::Applied, cache.apply(put("value1")));
    assert_eq!(Some(text("value1")), cache.get(text("key1")));
    assert_eq!(Status::Applied, cache.apply(put("value2")));
    assert_eq!(Some(text("value2")), cache.get(text("key1")));
    assert_eq!(Status::Applied, cache.apply(Command::Delete { key: text("key1") }));
    assert_eq!(None, cache.get(text("key1")));
    let key = text("key1");
    assert_eq!(&key, Command::Delete { key: key.clone() }.key());
}

#[test]
fn concurrent_puts_of_one_key_leave_one_of_the_values() {
    let cache = Arc::new(Mutex::new(EvictingCache::new(1).unwrap()));
    let rt = runtime();
    let handles: Vec<_> = (0..4)
        .map(|t| {
            let cache = cache.clone();
            rt.spawn_blocking(move || {
                for i in 0..200 {
                    cache.lock().unwrap().put(text("k"), format!("v{}-{}", t, i));
                }
            })
        })
        .collect();
    for handle in handles {
        rt.block_on(handle).unwrap();
    }
    let last = cache.lock().unwrap().get(text("k")).unwrap();
    assert!((0..4).any(|t| last == format!("v{}-199", t)));
}

#[test]
fn sweeping_leaves_exactly_the_live_entries() {
    let mut shard = Shard::new();
    let second = NANOS_PER_SECOND;
    shard.put(text("a"), ValueRef::new(text("1"), Expiry::after_seconds(0, 1)));
    shard.put(text("b"), ValueRef::new(text("2"), Expiry::never()));
    shard.evict(2 * second);
    assert_eq!(1, shard.len());
    assert!(!shard.contains(&text("a")));
    assert!(shard.contains(&text("b")));
    shard.evict(3 * second);
    assert_eq!(1, shard.len());
}

#[test]
fn test_eviction() {
    let mut cache = EvictingCache::new(1).unwrap();
    let now = cache.clock().now();
    cache.put_with_expiry(text("expired"), text("expired_value"), Expiry::after_nanos(now, 0));
    cache.put_with_expiry(text("living"), text("living_value"), Expiry::never());
    assert!(cache.holds(&text("expired")));
    let mut worker = EvictingWorker::over(&cache);
    for _ in 0..3 {
        worker.step(&mut cache);
    }

    assert_eq!(1, cache.shard_len(0));
    assert_eq!(false, cache.holds(&text("expired")));
    assert_eq!(true, cache.holds(&text("living")));
    assert_eq!(None, cache.get(text("expired")));
    assert_eq!(Some(text("living_value")), cache.get(text("living")));
}

#[test]
fn an_expired_entry_stays_held_until_swept() {
    let mut cache = EvictingCache::new(4).unwrap();
    cache.put_with_ttl(text("k"), text("v"), 0);
    assert_eq!(None, cache.get(text("k")));
    assert!(cache.holds(&text("k")));
    let mut worker = EvictingWorker::over(&cache);
    for _ in 0..4 {
        worker.step(&mut cache);
    }
    assert!(!cache.holds(&text("k")));
    assert!(!cache.holds(&text("never_put")));
}

#[test]
fn the_sweeper_visits_shards_round_robin() {
    let mut cache = EvictingCache::new(3).unwrap();
    let mut worker = EvictingWorker::new(cache.buckets(), 1).unwrap();
    assert_eq!(1, worker.current_bucket());
    worker.step(&mut cache);
    assert_eq!(2, worker.current_bucket());
    worker.advance();
    assert_eq!(0, worker.current_bucket());
    worker.evict(&mut cache);
    assert_eq!(0, worker.current_bucket());
    assert!(EvictingWorker::new(3, 3).is_none());
}

#[test]
fn eight_callers_put_a_thousand_keys_into_one_shard() {
    let cache = Arc::new(Mutex::new(EvictingCache::new(1).unwrap()));
    let rt = runtime();
    let handles: Vec<_> = (0..8)
        .map(|t| {
            let cache = cache.clone();
            rt.spawn_blocking(move || {
                for i in (t..1000).step_by(8) {
                    cache.lock().unwrap().put(format!("key{}", i), format!("first{}", i));
                    cache.lock().unwrap().put(format!("key{}", i), format!("value{}", i));
                }
            })
        })
        .collect();
    for handle in handles {
        rt.block_on(handle).unwrap();
    }
    for i in 0..1000 {
        assert_eq!(Some(format!("value{}", i)), cache.lock().unwrap().get(format!("key{}", i)));
    }
}

#[test]
fn a_missing_reply_means_the_queue_is_unavailable() {
    assert_eq!(Err(CacheError::QueueUnavailable), outcome_of_reply(None));
    assert_eq!(Ok(()), outcome_of_reply(Some(Status::Applied)));
}

#[test]
fn get_at_reads_at_the_given_tick() {
    let mut cache = EvictingCache::new(8).unwrap();
    cache.put_with_expiry(text("k"), text("v"), Expiry::after_nanos(100, 50));
    assert_eq!(Some(text("v")), cache.get_at(&text("k"), 149));
    assert_eq!(None, cache.get_at(&text("k"), 150));
    assert_eq!(None, cache.get_at(&text("other"), 0));
}

#[test]
fn a_sweep_touches_only_the_current_shard() {
    let mut cache = EvictingCache::new(2).unwrap();
    let mut keys = vec![None, None];
    for i in 0..100 {
        let key = format!("key{}", i);
        let index = cache.index_of(&key);
        if keys[index].is_none() {
            keys[index] = Some(key);
        }
    }
    let first = keys[0].clone().unwrap();
    let second = keys[1].clone().unwrap();
    cache.put_with_expiry(first.clone(), text("a"), Expiry::after_nanos(0, 0));
    cache.put_with_expiry(second.clone(), text("b"), Expiry::after_nanos(0, 0));
    cache.evict_shard_at(0, 10);
    assert!(!cache.holds(&first));
    assert!(cache.holds(&second));
    assert_eq!(0, cache.shard_len(0));
    assert_eq!(1, cache.shard_len(1));
}

#[test]
fn queued_puts_of_two_keys_both_land() {
    let mut cache = EvictingCache::new(2).unwrap();
    let put = |k: &str, v: &str| Command::Put { key: text(k), value: text(v), expiry: Expiry::never() };
    assert_eq!(Status::Applied, cache.apply(put("key1", "value1")));
    assert_eq!(Status::Applied, cache.apply(put("key2", "value2")));
    assert_eq!(Some(text("value1")), cache.get(text("key1")));
    assert_eq!(Some(text("value2")), cache.get(text("key2")));
    assert_eq!(Status::Applied, cache.apply(Command::Delete { key: text("absent") }));
    assert!(!cache.holds(&text("absent")));
    assert!(cache.holds(&text("key1")));
}
