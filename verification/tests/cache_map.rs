use ronaldos_core::cache_map::CacheMap;

fn values<const N: usize>(cache: &CacheMap<u8, &'static str, N>) -> Vec<&'static str> {
    let mut iterator = cache.iter();
    let mut seen = Vec::new();
    while let Some(value) = iterator.next() {
        seen.push(value);
    }
    seen
}

#[test]
fn test_iterator() {
    let mut cache = CacheMap::<u8, &str, 3>::new();
    cache.insert(&1, "1");
    cache.insert(&2, "2");
    cache.insert(&3, "3");
    assert_eq!(cache.last(), Some(2));
    assert_eq!(cache.first(), Some(0));
    assert_eq!(vec!["1", "2", "3"], values(&cache));
}

#[test]
fn test_insertion_below_capacity() {
    let mut cache = CacheMap::<u8, &str, 3>::new();
    cache.insert(&1, "1");
    cache.insert(&1, "1");
    assert_eq!(vec!["1"], values(&cache));
    assert_eq!(*cache.slot(0), "1");
    assert_eq!(*cache.slot(1), "");
    assert_eq!(*cache.slot(2), "");
    cache.insert(&2, "2");
    assert_eq!(vec!["1", "2"], values(&cache));
    assert_eq!(*cache.slot(0), "1");
    assert_eq!(*cache.slot(1), "2");
    assert_eq!(*cache.slot(2), "");
    cache.insert(&2, "2");
    assert_eq!(vec!["1", "2"], values(&cache));
    assert_eq!(*cache.slot(0), "1");
    assert_eq!(*cache.slot(1), "2");
    assert_eq!(*cache.slot(2), "");
    cache.insert(&3, "3");
    assert_eq!(vec!["1", "2", "3"], values(&cache));
    assert_eq!(*cache.slot(0), "1");
    assert_eq!(*cache.slot(1), "2");
    assert_eq!(*cache.slot(2), "3");
}

#[test]
fn resinserting_results_in_update() {
    let mut cache = CacheMap::<u8, &str, 3>::new();
    cache.insert(&1, "1");
    cache.insert(&2, "2");
    cache.insert(&3, "3");
    assert_eq!(vec!["1", "2", "3"], values(&cache));
    cache.insert(&2, "test2");
    assert_eq!(vec!["1", "3", "test2"], values(&cache));
    assert_eq!(*cache.slot(1), "test2");
    assert_eq!(cache.last(), Some(1));
    assert_eq!(cache.first(), Some(0));
}

#[test]
fn overflow_result_in_purge_of_oldest() {
    let mut cache = CacheMap::<u8, &str, 3>::new();
    cache.insert(&1, "1");
    cache.insert(&2, "2");
    cache.insert(&3, "3");
    cache.insert(&5, "5");
    assert_eq!(vec!["2", "3", "5"], values(&cache));
    cache.insert(&3, "nr3");
    assert_eq!(vec!["2", "5", "nr3"], values(&cache));
}

#[test]
fn get_updates_history() {
    let mut cache = CacheMap::<u8, &str, 3>::new();
    cache.insert(&1, "1");
    cache.insert(&2, "2");
    cache.insert(&3, "3");
    cache.get(&1);
    assert_eq!(vec!["2", "3", "1"], values(&cache));
    cache.get(&3);
    assert_eq!(vec!["2", "1", "3"], values(&cache));
    cache.get(&2);
    assert_eq!(vec!["1", "3", "2"], values(&cache));
}

#[test]
fn update_then_overflow_follows_recency() {
    let mut cache = CacheMap::<u8, &str, 3>::new();
    cache.insert(&1, "a");
    cache.insert(&2, "b");
    cache.insert(&3, "c");
    assert_eq!(vec!["a", "b", "c"], values(&cache));
    cache.insert(&2, "bb");
    assert_eq!(vec!["a", "c", "bb"], values(&cache));
    cache.insert(&4, "d");
    assert_eq!(vec!["c", "bb", "d"], values(&cache));
    assert_eq!(cache.get(&1), None);
}

#[test]
fn insert_returns_the_stored_value() {
    let mut cache = CacheMap::<u8, &str, 2>::new();
    assert_eq!(*cache.insert(&7, "seven"), "seven");
    assert_eq!(*cache.insert(&7, "again"), "again");
}

#[test]
fn get_returns_the_value_or_nothing() {
    let mut cache = CacheMap::<u8, &str, 2>::new();
    assert_eq!(cache.get(&1), None);
    cache.insert(&1, "one");
    assert_eq!(cache.get(&1), Some(&"one"));
    assert_eq!(cache.get(&2), None);
    assert_eq!(vec!["one"], values(&cache));
}

#[test]
fn empty_cache_has_no_first_and_no_last() {
    let cache = CacheMap::<u8, &str, 3>::new();
    assert_eq!(cache.first(), None);
    assert_eq!(cache.last(), None);
    assert!(values(&cache).is_empty());
}

#[test]
fn live_entries_never_exceed_capacity() {
    let mut cache = CacheMap::<u32, u32, 4>::new();
    for round in 0..50u32 {
        cache.insert(&(round * 7 % 11), round);
        let mut iterator = cache.iter();
        let mut count = 0;
        while iterator.next().is_some() {
            count += 1;
        }
        assert!(count <= 4);
    }
}

#[test]
fn overflow_evicts_exactly_the_least_recently_touched() {
    let mut cache = CacheMap::<u8, u8, 4>::new();
    for key in 1..=4u8 {
        cache.insert(&key, key);
    }
    cache.get(&1);
    cache.insert(&5, 5);
    assert_eq!(cache.get_hashed(0), None);
    assert_eq!(cache.get(&2), None);
    assert_eq!(cache.get(&3), Some(&3));
    assert_eq!(cache.get(&4), Some(&4));
    assert_eq!(cache.get(&1), Some(&1));
    assert_eq!(cache.get(&5), Some(&5));
}

#[test]
fn promoted_entry_survives_until_it_is_oldest_again() {
    let mut cache = CacheMap::<u8, &str, 2>::new();
    cache.insert(&1, "1");
    cache.insert(&2, "2");
    cache.get(&1);
    cache.insert(&3, "3");
    assert_eq!(vec!["1", "3"], {
        let mut iterator = cache.iter();
        let mut seen = Vec::new();
        while let Some(value) = iterator.next() {
            seen.push(value);
        }
        seen
    });
    cache.insert(&4, "4");
    assert_eq!(cache.get(&1), None);
}

#[test]
fn reinsert_keeps_the_entry_count() {
    let mut cache = CacheMap::<u8, &str, 3>::new();
    cache.insert(&1, "1");
    cache.insert(&2, "2");
    cache.insert(&1, "one");
    let mut iterator = cache.iter();
    assert_eq!(iterator.next(), Some("2"));
    assert_eq!(iterator.next(), Some("one"));
    assert_eq!(iterator.next(), None);
    assert_eq!(iterator.next(), None);
}

#[test]
fn capacity_one_recycles_its_only_slot() {
    let mut cache = CacheMap::<u8, &str, 1>::new();
    cache.insert(&1, "1");
    assert_eq!(cache.first(), Some(0));
    assert_eq!(cache.last(), Some(0));
    cache.insert(&2, "2");
    assert_eq!(cache.first(), Some(0));
    assert_eq!(cache.last(), Some(0));
    assert_eq!(*cache.slot(0), "2");
    assert_eq!(cache.get(&1), None);
    assert_eq!(cache.get(&2), Some(&"2"));
}

#[test]
fn hashed_entries_are_found_by_their_hash() {
    let mut cache = CacheMap::<str, u32, 2>::new();
    cache.insert_hashed(10, 1);
    cache.insert_hashed(20, 2);
    assert_eq!(cache.get_hashed(10), Some(&1));
    cache.insert_hashed(30, 3);
    assert_eq!(cache.get_hashed(20), None);
    assert_eq!(cache.get_hashed(10), Some(&1));
    assert_eq!(cache.get_hashed(30), Some(&3));
}

#[test]
fn keys_of_different_content_do_not_share_an_entry() {
    let mut cache = CacheMap::<str, u32, 4>::new();
    cache.insert("a.ts", 1);
    cache.insert("b.ts", 2);
    assert_eq!(cache.get("a.ts"), Some(&1));
    assert_eq!(cache.get("b.ts"), Some(&2));
    assert_eq!(cache.get("c.ts"), None);
}
