use bumpalo::Bump;
use index_scheduler::cache::{
    FrozenBTreeMap,
    compute_bucket_from_hash, merge_caches_sorted, merge_two, spill_entry_to_sorter,
    transpose_and_freeze_caches, BalancedCaches,
};
use index_scheduler::del_add::{sides_present, DelAddBbbul, DelAddRoaringBitmap};
use index_scheduler::order::{compare_bytes, Rank};
use index_scheduler::sorted_map::SortedMap;
use roaring::RoaringBitmap;
use std::hash::BuildHasher;

fn bitmap(ids: &[u32]) -> RoaringBitmap {
    ids.iter().copied().collect()
}

fn delta(del: Option<&[u32]>, add: Option<&[u32]>) -> DelAddRoaringBitmap {
    DelAddRoaringBitmap { del: del.map(bitmap), add: add.map(bitmap) }
}

fn bucket_of(key: &[u8], buckets: usize) -> usize {
    rustc_hash::FxBuildHasher.hash_one(key) as usize % buckets
}

fn merged(caches: &mut Vec<BalancedCaches>) -> Vec<Vec<(Vec<u8>, DelAddRoaringBitmap)>> {
    transpose_and_freeze_caches(caches).into_iter().map(merge_caches_sorted).collect()
}

#[test]
fn byte_strings_compare_lexicographically() {
    assert_eq!(compare_bytes(b"", b""), Rank::Same);
    assert_eq!(compare_bytes(b"", b"a"), Rank::Before);
    assert_eq!(compare_bytes(b"a", b""), Rank::After);
    assert_eq!(compare_bytes(b"abc", b"abd"), Rank::Before);
    assert_eq!(compare_bytes(b"abd", b"abc"), Rank::After);
    assert_eq!(compare_bytes(b"ab", b"abc"), Rank::Before);
    assert_eq!(compare_bytes(b"b", b"abc"), Rank::After);
    assert_eq!(compare_bytes(&[0xff], &[0x01, 0x02]), Rank::After);
    assert_eq!(compare_bytes(b"same", b"same"), Rank::Same);
}

#[test]
fn deltas_merge_by_union() {
    let a = delta(Some(&[1, 2]), None);
    let b = delta(Some(&[2, 3]), Some(&[9]));
    assert_eq!(a.clone().merge(b.clone()), delta(Some(&[1, 2, 3]), Some(&[9])));
    assert_eq!(b.clone().merge(a.clone()), delta(Some(&[1, 2, 3]), Some(&[9])));
    assert_eq!(DelAddRoaringBitmap::empty().merge(a.clone()), a);
    assert_eq!(a.clone().merge(DelAddRoaringBitmap::empty()), a);
    assert_eq!(DelAddRoaringBitmap::empty(), delta(None, None));
    let mut c = a.clone();
    c.merge_from(&b);
    assert_eq!(c, delta(Some(&[1, 2, 3]), Some(&[9])));
    assert_eq!(DelAddRoaringBitmap::new_del_u32(4), delta(Some(&[4]), None));
    assert_eq!(DelAddRoaringBitmap::new_add_u32(4), delta(None, Some(&[4])));
    let mut d = DelAddRoaringBitmap::empty();
    d.insert_add_u32(7);
    d.insert_add_u32(7);
    d.insert_del_u32(1);
    d.insert_add_u32(3);
    assert_eq!(d, delta(Some(&[1]), Some(&[3, 7])));
}

#[test]
fn deltas_apply_deletions_first() {
    let mut documents = bitmap(&[1, 2, 3]);
    delta(Some(&[2, 3, 8]), Some(&[3, 4])).apply_to(&mut documents);
    assert_eq!(documents, bitmap(&[1, 3, 4]));
    let mut documents = bitmap(&[1, 2, 3]);
    DelAddRoaringBitmap::empty().apply_to(&mut documents);
    assert_eq!(documents, bitmap(&[1, 2, 3]));
    let mut documents = bitmap(&[1, 2]);
    delta(None, Some(&[5])).apply_to(&mut documents);
    assert_eq!(documents, bitmap(&[1, 2, 5]));
    let mut documents = bitmap(&[1, 2]);
    delta(Some(&[1]), None).apply_to(&mut documents);
    assert_eq!(documents, bitmap(&[2]));
}

#[test]
fn packed_deltas_take_any_order_and_repeats() {
    let bump = Bump::new();
    let mut packed = DelAddBbbul::new_add_u32_in(10, &bump);
    for n in [11, 5, 11, 10, 700, 3, 5, 701, 700, 1_000_000, 0] {
        packed.insert_add_u32(n, &bump);
    }
    packed.insert_del_u32(4, &bump);
    packed.insert_del_u32(2, &bump);
    packed.insert_del_u32(4, &bump);
    let mut frozen = packed.freeze();
    assert!(!frozen.is_empty());
    let mut out = DelAddRoaringBitmap::new_add_u32(99);
    out.union_and_clear_bbbul(&mut frozen);
    assert!(frozen.is_empty());
    assert_eq!(out, delta(Some(&[2, 4]), Some(&[0, 3, 5, 10, 11, 99, 700, 701, 1_000_000])));
    out.union_and_clear_bbbul(&mut frozen);
    assert_eq!(out, delta(Some(&[2, 4]), Some(&[0, 3, 5, 10, 11, 99, 700, 701, 1_000_000])));
}

#[test]
fn packed_deltas_hold_many_blocks() {
    let bump = Bump::new();
    let mut packed = DelAddBbbul::new_del_u32_in(0, &bump);
    for n in 1..1000 {
        packed.insert_del_u32(n * 3, &bump);
    }
    for n in 0..1000 {
        packed.insert_del_u32(n * 3 + 1, &bump);
    }
    let mut frozen = packed.freeze();
    let mut out = DelAddRoaringBitmap::empty();
    out.union_and_clear_bbbul(&mut frozen);
    let expected: RoaringBitmap = (0..1000u32).flat_map(|n| [n * 3, n * 3 + 1]).collect();
    assert_eq!(out.add, None);
    assert_eq!(out.del, Some(expected));
}

#[test]
fn buckets_follow_the_hash() {
    assert_eq!(compute_bucket_from_hash(4, 0), 0);
    assert_eq!(compute_bucket_from_hash(4, 7), 3);
    assert_eq!(compute_bucket_from_hash(1, u64::MAX), 0);
    assert_eq!(compute_bucket_from_hash(10, 1_234_567), 7);
    let bump = Bump::new();
    let mut caches = vec![BalancedCaches::new_in(4, None, &bump)];
    let keys: Vec<Vec<u8>> = (0..200u32).map(|n| format!("term-{n}").into_bytes()).collect();
    for (n, key) in keys.iter().enumerate() {
        caches[0].insert_add_u32(key, n as u32);
    }
    let out = merged(&mut caches);
    assert_eq!(out.len(), 4);
    let mut seen = 0;
    for (bucket, entries) in out.iter().enumerate() {
        for (key, _) in entries {
            assert_eq!(bucket_of(key, 4), bucket);
            seen += 1;
        }
    }
    assert_eq!(seen, 200);
    assert!(out.iter().filter(|entries| !entries.is_empty()).count() > 1);
}

#[test]
fn cache_collects_what_was_inserted() {
    let bump = Bump::new();
    let mut cache = BalancedCaches::new_in(3, None, &bump);
    assert_eq!(cache.buckets(), 3);
    cache.insert_add_u32(b"cat", 1);
    cache.insert_add_u32(b"dog", 2);
    cache.insert_add_u32(b"cat", 3);
    cache.insert_del_u32(b"cat", 9);
    cache.insert_add_u32(b"cat", 1);
    cache.insert_del_u32(b"bird", 4);
    let frozen = cache.freeze();
    assert_eq!(frozen.len(), 3);
    for (b, f) in frozen.iter().enumerate() {
        assert_eq!(f.bucket(), b);
    }
    let mut all = Vec::new();
    for f in frozen {
        all.extend(merge_caches_sorted(vec![f]));
    }
    all.sort_by(|a, b| a.0.cmp(&b.0));
    assert_eq!(
        all,
        vec![
            (b"bird".to_vec(), delta(Some(&[4]), None)),
            (b"cat".to_vec(), delta(Some(&[9]), Some(&[1, 3]))),
            (b"dog".to_vec(), delta(None, Some(&[2]))),
        ]
    );
    // the cache is empty after it was frozen
    let again = cache.freeze();
    assert!(again.into_iter().all(|f| merge_caches_sorted(vec![f]).is_empty()));
}

#[test]
fn threads_merge_into_sorted_groups() {
    let bump_a = Bump::new();
    let bump_b = Bump::new();
    let bump_c = Bump::new();
    let mut caches = vec![
        BalancedCaches::new_in(2, None, &bump_a),
        BalancedCaches::new_in(2, Some(0), &bump_b),
        BalancedCaches::new_in(2, None, &bump_c),
    ];
    let words = ["kiwi", "apple", "fig", "pear", "lime", "plum", "date"];
    for (n, word) in words.iter().enumerate() {
        caches[0].insert_add_u32(word.as_bytes(), n as u32);
        caches[1].insert_add_u32(word.as_bytes(), 100 + n as u32);
        caches[1].insert_del_u32(word.as_bytes(), n as u32);
        if n % 2 == 0 {
            caches[2].insert_add_u32(word.as_bytes(), n as u32);
            caches[2].insert_del_u32(word.as_bytes(), 200);
        }
    }
    let groups = transpose_and_freeze_caches(&mut caches);
    assert_eq!(groups.len(), 2);
    for (b, group) in groups.iter().enumerate() {
        assert_eq!(group.len(), 3);
        assert!(group.iter().all(|f| f.bucket() == b));
    }
    let mut total = 0;
    for (b, group) in groups.into_iter().enumerate() {
        let out = merge_caches_sorted(group);
        for pair in out.windows(2) {
            assert!(pair[0].0 < pair[1].0);
        }
        for (key, value) in &out {
            let n = words.iter().position(|w| w.as_bytes() == &key[..]).unwrap() as u32;
            assert_eq!(bucket_of(key, 2), b);
            let mut del = vec![n];
            if n % 2 == 0 {
                del.push(200);
            }
            assert_eq!(*value, delta(Some(&del), Some(&[n, 100 + n])));
            total += 1;
        }
    }
    assert_eq!(total, words.len());
}

#[test]
fn spill_threshold_zero_spills_every_new_key() {
    let bump = Bump::new();
    let mut cache = BalancedCaches::new_in(1, Some(0), &bump);
    cache.insert_add_u32(b"b", 1);
    cache.insert_add_u32(b"a", 2);
    cache.insert_del_u32(b"b", 3);
    cache.insert_add_u32(b"b", 4);
    let allocated = bump.allocated_bytes();
    for n in 0..1000u32 {
        cache.insert_add_u32(format!("key{n}").as_bytes(), n);
    }
    // nothing became resident: the arena handed nothing out
    assert_eq!(bump.allocated_bytes(), allocated);
    let mut frozen = cache.freeze();
    assert_eq!(frozen.len(), 1);
    let out = merge_caches_sorted(vec![frozen.remove(0)]);
    assert_eq!(out.len(), 1002);
    assert_eq!(out[0], (b"a".to_vec(), delta(None, Some(&[2]))));
    assert_eq!(out[1], (b"b".to_vec(), delta(Some(&[3]), Some(&[1, 4]))));
}

#[test]
fn known_keys_stay_resident_while_spilling() {
    let bump = Bump::new();
    let mut cache = BalancedCaches::new_in(1, Some(1 << 12), &bump);
    cache.insert_add_u32(b"known", 1);
    let mut n = 0u32;
    // fill the arena until the cache spills
    while bump.allocated_bytes() < (1 << 12) {
        cache.insert_add_u32(format!("filler-{n:06}").as_bytes(), n);
        n += 1;
    }
    let resident = n;
    let allocated = bump.allocated_bytes();
    for m in 0..500u32 {
        cache.insert_add_u32(format!("late-{m:06}").as_bytes(), m);
    }
    assert_eq!(bump.allocated_bytes(), allocated);
    // a known key still grows in memory
    cache.insert_add_u32(b"known", 2);
    cache.insert_del_u32(b"known", 3);
    cache.insert_add_u32(b"late-000007", 7_000);
    let mut frozen = cache.freeze();
    let out = merge_caches_sorted(vec![frozen.remove(0)]);
    assert_eq!(out.len() as u32, 1 + resident + 500);
    let known = out.iter().find(|(k, _)| k == b"known").unwrap();
    assert_eq!(known.1, delta(Some(&[3]), Some(&[1, 2])));
    let late = out.iter().find(|(k, _)| k == b"late-000007").unwrap();
    assert_eq!(late.1, delta(None, Some(&[7, 7_000])));
    for pair in out.windows(2) {
        assert!(pair[0].0 < pair[1].0);
    }
}

#[test]
fn spilled_entries_merge_in_the_sorter() {
    let mut sorter: SortedMap<Vec<u8>, DelAddRoaringBitmap> = SortedMap::new();
    spill_entry_to_sorter(&mut sorter, b"m", delta(None, Some(&[1])));
    spill_entry_to_sorter(&mut sorter, b"a", delta(Some(&[2]), None));
    spill_entry_to_sorter(&mut sorter, b"m", delta(Some(&[3]), Some(&[4])));
    spill_entry_to_sorter(&mut sorter, b"z", delta(None, None));
    assert_eq!(sorter.len(), 2);
    assert_eq!(sorter.key(0), b"a");
    assert_eq!(sorter.key(1), b"m");
    assert_eq!(*sorter.value(1), delta(Some(&[3]), Some(&[1, 4])));
    assert_eq!(sorter.search(b"m"), Ok(1));
    assert_eq!(sorter.search(b"b"), Err(1));
    assert_eq!(sorter.search(b"zz"), Err(2));
    let mut other: SortedMap<Vec<u8>, DelAddRoaringBitmap> = SortedMap::new();
    spill_entry_to_sorter(&mut other, b"b", delta(None, Some(&[7])));
    spill_entry_to_sorter(&mut other, b"m", delta(None, Some(&[8])));
    let both = merge_two(&sorter, &other).into_entries();
    assert_eq!(
        both,
        vec![
            (b"a".to_vec(), delta(Some(&[2]), None)),
            (b"b".to_vec(), delta(None, Some(&[7]))),
            (b"m".to_vec(), delta(Some(&[3]), Some(&[1, 4, 8]))),
        ]
    );
}

#[test]
fn indexer_spill() {
    let threads = 4;
    let per_thread = 250_000u32;
    let bumps: Vec<Bump> = (0..threads).map(|_| Bump::new()).collect();
    let mut caches: Vec<BalancedCaches> =
        bumps.iter().map(|bump| BalancedCaches::new_in(threads, Some(1 << 16), bump)).collect();
    for (t, cache) in caches.iter_mut().enumerate() {
        for n in 0..per_thread {
            let term = t as u32 * per_thread + n;
            cache.insert_add_u32(&term.to_be_bytes(), term);
        }
    }
    for bump in &bumps {
        assert!(bump.allocated_bytes() >= 1 << 16);
    }
    let groups = transpose_and_freeze_caches(&mut caches);
    assert_eq!(groups.len(), threads);
    let mut terms = 0u32;
    let mut seen = RoaringBitmap::new();
    for group in groups {
        let out = merge_caches_sorted(group);
        for pair in out.windows(2) {
            assert!(pair[0].0 < pair[1].0);
        }
        for (key, value) in out {
            let term = u32::from_be_bytes(key[..].try_into().unwrap());
            assert_eq!(value.del, None);
            let add = value.add.unwrap();
            assert_eq!(add.len(), 1);
            assert!(add.contains(term));
            assert!(seen.insert(term));
            terms += 1;
        }
    }
    assert_eq!(terms, 1_000_000);
    assert_eq!(seen.len(), 1_000_000);
}

#[test]
fn spilled_runs_can_leave_and_come_back() {
    let bump = Bump::new();
    let mut cache = BalancedCaches::new_in(2, Some(0), &bump);
    let words = ["kiwi", "apple", "fig", "pear", "lime"];
    for (n, word) in words.iter().enumerate() {
        cache.insert_add_u32(word.as_bytes(), n as u32);
    }
    let runs: Vec<Vec<(Vec<u8>, DelAddRoaringBitmap)>> =
        (0..2).map(|b| cache.take_spilled(b).into_entries()).collect();
    assert_eq!(runs.iter().map(|r| r.len()).sum::<usize>(), words.len());
    for (b, run) in runs.iter().enumerate() {
        for pair in run.windows(2) {
            assert!(pair[0].0 < pair[1].0);
        }
        assert!(run.iter().all(|(key, _)| bucket_of(key, 2) == b));
    }
    // what was taken is gone from the cache, which goes on spilling
    cache.insert_del_u32(b"kiwi", 9);
    let mut frozen = cache.freeze();
    let again: Vec<_> = frozen.iter().map(|f| f.bucket()).collect();
    assert_eq!(again, vec![0, 1]);
    for (b, run) in runs.into_iter().enumerate() {
        frozen[b].push_run(SortedMap::from_run(run).unwrap());
    }
    let mut all = Vec::new();
    for f in frozen {
        all.extend(merge_caches_sorted(vec![f]));
    }
    all.sort_by(|a, b| a.0.cmp(&b.0));
    assert_eq!(
        all,
        vec![
            (b"apple".to_vec(), delta(None, Some(&[1]))),
            (b"fig".to_vec(), delta(None, Some(&[2]))),
            (b"kiwi".to_vec(), delta(Some(&[9]), Some(&[0]))),
            (b"lime".to_vec(), delta(None, Some(&[4]))),
            (b"pear".to_vec(), delta(None, Some(&[3]))),
        ]
    );
}

#[test]
fn runs_read_back_must_be_sorted() {
    let good = vec![(b"a".to_vec(), delta(None, Some(&[1]))), (b"b".to_vec(), delta(None, None))];
    assert_eq!(SortedMap::from_run(good).unwrap().len(), 2);
    let twice = vec![(b"a".to_vec(), delta(None, None)), (b"a".to_vec(), delta(None, None))];
    assert!(SortedMap::from_run(twice).is_none());
    let unsorted = vec![
        (b"a".to_vec(), delta(None, None)),
        (b"c".to_vec(), delta(None, None)),
        (b"b".to_vec(), delta(None, None)),
    ];
    assert!(SortedMap::from_run(unsorted).is_none());
    let none: Vec<(Vec<u8>, DelAddRoaringBitmap)> = Vec::new();
    assert_eq!(SortedMap::from_run(none).unwrap().len(), 0);
}

#[test]
fn sides_of_a_written_delta() {
    assert_eq!(delta(None, None).presence_flags(), 0);
    assert_eq!(delta(Some(&[1]), None).presence_flags(), 1);
    assert_eq!(delta(None, Some(&[1])).presence_flags(), 2);
    assert_eq!(delta(Some(&[]), Some(&[1])).presence_flags(), 3);
    assert_eq!(sides_present(0), Some((false, false)));
    assert_eq!(sides_present(1), Some((true, false)));
    assert_eq!(sides_present(2), Some((false, true)));
    assert_eq!(sides_present(3), Some((true, true)));
    assert_eq!(sides_present(4), None);
    assert_eq!(sides_present(255), None);
}

#[test]
fn frozen_map_hands_out_its_deltas() {
    let entries = vec![
        (b"a".to_vec(), delta(None, Some(&[1]))),
        (b"m".to_vec(), delta(Some(&[2]), None)),
    ];
    let mut frozen = FrozenBTreeMap::new(SortedMap::from_run(entries).unwrap());
    assert!(frozen.get_mut(b"b").is_none());
    assert!(frozen.get_mut(b"").is_none());
    let held = frozen.get_mut(b"m").unwrap();
    assert_eq!(*held, delta(Some(&[2]), None));
    held.insert_add_u32(7);
    let taken = std::mem::replace(frozen.get_mut(b"a").unwrap(), DelAddRoaringBitmap::empty());
    assert_eq!(taken, delta(None, Some(&[1])));
    assert_eq!(
        frozen.into_inner().into_entries(),
        vec![(b"a".to_vec(), delta(None, None)), (b"m".to_vec(), delta(Some(&[2]), Some(&[7])))]
    );
}
