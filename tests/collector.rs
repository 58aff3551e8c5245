use std::collections::BTreeMap;

use pprof::collector::{merge_entries, Bucket, Collector, Entry, HashCounter, SampleKey, BUCKETS};
use pprof::frames::{Frame, UnresolvedFrames};

fn add_map<T: std::cmp::Ord + Copy>(hashmap: &mut BTreeMap<T, isize>, entry: &Entry<T>) {
    match hashmap.get_mut(&entry.item) {
        None => {
            hashmap.insert(entry.item, entry.count);
        }
        Some(count) => *count += entry.count,
    }
}

#[test]
fn stack_hash_counter() {
    let mut stack_hash_counter = HashCounter::<usize>::default();
    stack_hash_counter.add(0, 1);
    stack_hash_counter.add(1, 1);
    stack_hash_counter.add(1, 1);

    stack_hash_counter.iter().into_iter().for_each(|item| {
        if item.item == 0 {
            assert_eq!(item.count, 1);
        } else if item.item == 1 {
            assert_eq!(item.count, 2);
        } else {
            unreachable!();
        }
    });
}

#[test]
fn evict_test() {
    let mut stack_hash_counter = HashCounter::<usize>::default();
    let mut real_map = BTreeMap::new();

    for item in 0..(1 << 10) * 4 {
        for _ in 0..(item % 4) {
            match stack_hash_counter.add(item, 1) {
                None => {}
                Some(evict) => {
                    add_map(&mut real_map, &evict);
                }
            }
        }
    }

    stack_hash_counter.iter().into_iter().for_each(|entry| {
        add_map(&mut real_map, entry);
    });

    for item in 0..(1 << 10) * 4 {
        let count = (item % 4) as isize;
        match real_map.get(&item) {
            Some(item) => {
                assert_eq!(*item, count);
            }
            None => {
                assert_eq!(count, 0);
            }
        }
    }
}

#[test]
fn collector_test() {
    let mut collector = Collector::new().unwrap();
    let mut real_map = BTreeMap::new();

    for item in 0..(1 << 12) * 4 {
        for _ in 0..(item % 4) {
            collector.add(item, 1).unwrap();
        }
    }

    collector.try_iter().unwrap().into_iter().for_each(|entry| {
        add_map(&mut real_map, entry);
    });

    for item in 0..(1 << 12) * 4 {
        let count = (item % 4) as isize;
        match real_map.get(&item) {
            Some(value) => {
                assert_eq!(count, *value);
            }
            None => {
                assert_eq!(count, 0);
            }
        }
    }
}

#[test]
fn collector_report_sums_by_key() {
    // Keys 0..4096*4, key k added (k mod 4) times; the merged report holds
    // exactly k mod 4 under every key with a positive count.
    let mut collector = Collector::new().unwrap();
    for item in 0..BUCKETS * 4 {
        for _ in 0..(item % 4) {
            collector.add(item, 1).unwrap();
        }
    }
    let entries = collector.try_iter().unwrap();
    let merged = merge_entries(&entries);
    let mut seen = BTreeMap::new();
    for e in merged.iter() {
        assert!(seen.insert(e.item, e.count).is_none());
    }
    for item in 0..BUCKETS * 4 {
        let expected = (item % 4) as isize;
        assert_eq!(seen.get(&item).copied().unwrap_or(0), expected);
    }
}

#[test]
fn full_bucket_evicts_first_smallest() {
    let mut bucket = Bucket::<usize>::new();
    assert!(bucket.add(10, 5).is_none());
    assert!(bucket.add(11, 2).is_none());
    assert!(bucket.add(12, 2).is_none());
    assert!(bucket.add(13, 7).is_none());
    assert_eq!(bucket.len(), 4);
    let evicted = bucket.add(14, 1).unwrap();
    assert_eq!(evicted.item, 11);
    assert_eq!(evicted.count, 2);
    assert_eq!(bucket.len(), 4);
    let mut it = bucket.iter();
    let mut items = Vec::new();
    while let Some(e) = it.next() {
        items.push((e.item, e.count));
    }
    assert_eq!(items, vec![(10, 5), (14, 1), (12, 2), (13, 7)]);
}

#[test]
fn resident_key_accumulates() {
    let mut bucket = Bucket::<usize>::new();
    assert!(bucket.add(3, 4).is_none());
    assert!(bucket.add(3, -1).is_none());
    let mut it = bucket.iter();
    let e = it.next().unwrap();
    assert_eq!((e.item, e.count), (3, 3));
    assert!(it.next().is_none());
}

#[test]
fn overflowing_sum_is_handed_back() {
    let mut bucket = Bucket::<usize>::new();
    assert!(bucket.add(1, isize::MAX).is_none());
    let back = bucket.add(1, 1).unwrap();
    assert_eq!((back.item, back.count), (1, 1));
    let mut it = bucket.iter();
    assert_eq!(it.next().unwrap().count, isize::MAX);
}

#[test]
fn few_keys_never_evict() {
    let mut collector = Collector::<usize>::new().unwrap();
    for round in 0..100 {
        for key in [7usize, 9, 4096 + 7] {
            collector.add(key, (round % 3) as isize).unwrap();
        }
    }
    let entries = collector.try_iter().unwrap();
    assert_eq!(entries.len(), 3);
    for e in entries {
        assert_eq!(e.count, 99);
    }
}

#[test]
fn merge_skips_non_positive_and_caps() {
    let a = Entry { item: 1usize, count: 3 };
    let b = Entry { item: 2usize, count: -4 };
    let c = Entry { item: 1usize, count: 5 };
    let d = Entry { item: 3usize, count: isize::MAX };
    let e = Entry { item: 3usize, count: 2 };
    let merged = merge_entries(&vec![&a, &b, &c, &d, &e]);
    let got: Vec<(usize, isize)> = merged.iter().map(|e| (e.item, e.count)).collect();
    assert_eq!(got, vec![(1, 8), (3, isize::MAX)]);
}

#[test]
fn stacks_compare_by_symbol_address_and_thread() {
    let f1 = [Frame { ip: 100, symbol_address: 90 }, Frame { ip: 200, symbol_address: 190 }];
    let f2 = [Frame { ip: 101, symbol_address: 90 }, Frame { ip: 205, symbol_address: 190 }];
    let a = UnresolvedFrames::new(&f1, b"main", 7, 1);
    let b = UnresolvedFrames::new(&f2, b"other", 7, 2);
    let c = UnresolvedFrames::new(&f2, b"main", 8, 1);
    assert!(a.same_key(&b));
    assert_eq!(a.key_hash(), b.key_hash());
    assert!(!a.same_key(&c));
    let mut collector = Collector::new().unwrap();
    collector.add(a, 1).unwrap();
    collector.add(b, 1).unwrap();
    collector.add(c, 1).unwrap();
    let entries = collector.try_iter().unwrap();
    let merged = merge_entries(&entries);
    assert_eq!(merged.len(), 2);
    let total: isize = merged.iter().map(|e| e.count).sum();
    assert_eq!(total, 3);
}


// A key of four integers of different widths.
type AlignTest = (u16, u32, u64, u64);

// collector_align_test uses a bigger item to test the alignment of the collector
#[test]
fn collector_align_test() {
    let mut collector = Collector::new().unwrap();
    let mut real_map = BTreeMap::new();

    for item in 0..(1 << 12) * 4 {
        for _ in 0..(item % 4) {
            let key: AlignTest = (item as u16, item as u32, item as u64, item as u64);
            collector.add(key, 1).unwrap();
        }
    }

    collector.try_iter().unwrap().into_iter().for_each(|entry| {
        add_map(&mut real_map, entry);
    });

    for item in 0..(1 << 12) * 4 {
        let count = (item % 4) as isize;
        let align_item: AlignTest = (item as u16, item as u32, item as u64, item as u64);
        match real_map.get(&align_item) {
            Some(value) => {
                assert_eq!(count, *value);
            }
            None => {
                assert_eq!(count, 0);
            }
        }
    }
}
