use modpack_core::usage::{
    calculate, copy_texts, measured, Cache, HashEntry, HashTable, PayloadMeter, ScanAction,
    StorageProgress, UsageError, UsageInfo, UsageScan, STORAGE_LEVEL,
};

fn entry(hash: &str, size: usize, files: &[&str]) -> HashEntry {
    HashEntry {
        hash: hash.to_string(),
        size,
        files: files.iter().map(|f| f.to_string()).collect(),
    }
}

fn strings(list: &[&str]) -> Vec<String> {
    list.iter().map(|s| s.to_string()).collect()
}

#[test]
fn meter_hashes_and_measures_in_one_pass() {
    let data = vec![0u8; 4096];
    let mut meter = PayloadMeter::new();
    meter.feed(&data[..1000]);
    meter.feed(&data[1000..]);
    let got = meter.finish().unwrap();
    let mut whole = PayloadMeter::new();
    whole.feed(&data);
    let same = whole.finish().unwrap();
    assert_eq!(got.hash, same.hash);
    assert_eq!(got.size, same.size);
    assert_eq!(got.hash.len(), 64);
    assert_eq!(got.size, zstd::stream::encode_all(&data[..], 9).unwrap().len());
    assert!(got.size < 100);
}

#[test]
fn meter_of_nothing() {
    let got = PayloadMeter::new().finish().unwrap();
    assert_eq!(
        got.hash,
        "a7ffc6f8bf1ed76651c14756a061d662f580ff4de43b49fa82d80a4b80f8434a"
    );
    assert_eq!(got.size, zstd::stream::encode_all(&b""[..], STORAGE_LEVEL).unwrap().len());
    assert!(got.size > 0);
}

#[test]
fn meter_tells_payloads_apart() {
    let mut a = PayloadMeter::new();
    a.feed(b"abc");
    let mut b = PayloadMeter::new();
    b.feed(b"abd");
    let a = a.finish().unwrap();
    assert_eq!(
        a.hash,
        "3a985da74fe225b2045c172d6bd390bd855f086e3e9d525b46bfe24511431532"
    );
    assert_ne!(a.hash, b.finish().unwrap().hash);
}

#[test]
fn measured_without_a_frame_is_a_compression_failure() {
    assert!(matches!(
        measured("h".to_string(), None),
        Err(UsageError::Compression)
    ));
    let got = measured("h".to_string(), Some(vec![1, 2, 3])).unwrap();
    assert_eq!(got.hash, "h");
    assert_eq!(got.size, 3);
}

#[test]
fn scan_records_a_duplicate_beside_the_first() {
    let mut scan = UsageScan::new(3);
    assert_eq!(scan.offer(0, "a.tex".to_string()), Ok(ScanAction::Extract));
    assert_eq!(
        scan.payload("h1".to_string(), 10),
        Ok(StorageProgress::ExtractingFiles { current: 1, total: 3 })
    );
    assert_eq!(scan.offer(0, "copy_of_a.tex".to_string()), Ok(ScanAction::Skip));
    assert_eq!(scan.offer(64, "b.mdl".to_string()), Ok(ScanAction::Extract));
    assert_eq!(
        scan.payload("h2".to_string(), 20),
        Ok(StorageProgress::ExtractingFiles { current: 3, total: 3 })
    );
    assert_eq!(scan.extracted(), 2);
    let table = scan.finish().unwrap();
    assert_eq!(table.len(), 2);
    assert_eq!(table[0].hash, "h1");
    assert_eq!(table[0].size, 10);
    assert_eq!(table[0].files, strings(&["a.tex", "copy_of_a.tex"]));
    assert_eq!(table[1].hash, "h2");
    assert_eq!(table[1].size, 20);
    assert_eq!(table[1].files, strings(&["b.mdl"]));
}

#[test]
fn scan_joins_equal_payloads_at_distinct_offsets() {
    let mut scan = UsageScan::new(2);
    assert_eq!(scan.offer(0, "a".to_string()), Ok(ScanAction::Extract));
    scan.payload("same".to_string(), 5).unwrap();
    assert_eq!(scan.offer(8, "b".to_string()), Ok(ScanAction::Extract));
    scan.payload("same".to_string(), 7).unwrap();
    let table = scan.finish().unwrap();
    assert_eq!(table.len(), 1);
    assert_eq!(table[0].size, 5);
    assert_eq!(table[0].files, strings(&["a", "b"]));
}

#[test]
fn scan_extracts_once_for_each_run_of_offsets() {
    let offsets = [0u64, 0, 0, 16, 32, 32, 48];
    let mut scan = UsageScan::new(offsets.len());
    let mut extractions = 0;
    for (i, offset) in offsets.iter().enumerate() {
        match scan.offer(*offset, format!("path{i}")).unwrap() {
            ScanAction::Extract => {
                extractions += 1;
                scan.payload(format!("hash{offset}"), 1).unwrap();
            }
            ScanAction::Skip => {}
        }
    }
    assert_eq!(extractions, 4);
    assert_eq!(scan.extracted(), 4);
    let table = scan.finish().unwrap();
    assert_eq!(table.len(), 4);
    let mut paths: Vec<String> = table.iter().flat_map(|e| e.files.clone()).collect();
    paths.sort();
    let mut expected: Vec<String> = (0..offsets.len()).map(|i| format!("path{i}")).collect();
    expected.sort();
    assert_eq!(paths, expected);
    assert_eq!(table[0].files, strings(&["path0", "path1", "path2"]));
}

#[test]
fn scan_refuses_an_entry_while_a_payload_is_due() {
    let mut scan = UsageScan::new(2);
    assert_eq!(scan.offer(0, "a".to_string()), Ok(ScanAction::Extract));
    assert_eq!(scan.offer(1, "b".to_string()), Err(UsageError::PayloadPending));
    assert!(matches!(scan.finish(), Err(UsageError::PayloadPending)));
}

#[test]
fn scan_refuses_a_payload_that_nothing_waits_for() {
    let mut scan = UsageScan::new(1);
    assert_eq!(
        scan.payload("h".to_string(), 1),
        Err(UsageError::NothingPending)
    );
}

#[test]
fn scan_refuses_more_entries_than_announced() {
    let mut scan = UsageScan::new(1);
    assert_eq!(scan.offer(0, "a".to_string()), Ok(ScanAction::Extract));
    scan.payload("h".to_string(), 1).unwrap();
    assert_eq!(scan.offer(0, "b".to_string()), Err(UsageError::TooManyEntries));
    let table = scan.finish().unwrap();
    assert_eq!(table[0].files, strings(&["a"]));
}

#[test]
fn scan_refuses_to_end_early() {
    let mut scan = UsageScan::new(2);
    assert_eq!(scan.offer(0, "a".to_string()), Ok(ScanAction::Extract));
    scan.payload("h".to_string(), 1).unwrap();
    assert!(matches!(scan.finish(), Err(UsageError::EntriesMissing)));
}

#[test]
fn empty_scan_gives_an_empty_table() {
    assert!(UsageScan::new(0).finish().unwrap().is_empty());
}

#[test]
fn nothing_known_counts_every_byte() {
    let table = vec![
        entry("h1", 10, &["a"]),
        entry("h2", 20, &["b", "c"]),
        entry("h3", 30, &["d"]),
    ];
    let usage = calculate(&table, &vec![]).unwrap();
    assert_eq!(usage.total, 60);
    assert_eq!(usage.hashes.len(), 3);
    assert!(usage.hashes.iter().all(|(_, c)| c.counts));
}

#[test]
fn known_hashes_do_not_count() {
    let table = vec![
        entry("h1", 10, &["a"]),
        entry("h2", 20, &["b", "c"]),
        entry("h3", 30, &["d"]),
    ];
    let usage = calculate(&table, &strings(&["h2", "elsewhere", "h2"])).unwrap();
    assert_eq!(usage.total, 40);
    assert_eq!(usage.hashes[0].0, "h1");
    assert!(usage.hashes[0].1.counts);
    assert_eq!(usage.hashes[1].0, "h2");
    assert!(!usage.hashes[1].1.counts);
    assert_eq!(usage.hashes[1].1.size, 20);
    assert_eq!(usage.hashes[1].1.files, strings(&["b", "c"]));
    assert!(usage.hashes[2].1.counts);
    let counted: usize = usage
        .hashes
        .iter()
        .filter(|(_, c)| c.counts)
        .map(|(_, c)| c.size)
        .sum();
    assert_eq!(usage.total, counted);
}

#[test]
fn everything_known_costs_nothing() {
    let table = vec![entry("h1", 10, &["a"])];
    let usage = calculate(&table, &strings(&["h1"])).unwrap();
    assert_eq!(usage.total, 0);
    assert!(!usage.hashes[0].1.counts);
}

#[test]
fn a_total_beyond_the_machine_is_refused() {
    let table = vec![entry("h1", usize::MAX, &["a"]), entry("h2", 1, &["b"])];
    assert!(matches!(
        calculate(&table, &vec![]),
        Err(UsageError::TotalTooLarge)
    ));
    let usage = calculate(&table, &strings(&["h2"])).unwrap();
    assert_eq!(usage.total, usize::MAX);
}

#[test]
fn cache_gives_back_what_was_put_in() {
    let mut cache = Cache::new();
    assert_eq!(cache.len(), 0);
    assert!(cache.lookup(&"k1".to_string()).is_none());
    let info = UsageInfo {
        file_name: "mod.ttmp2".to_string(),
        ttmp_size: 1234,
        hashes: vec![entry("h1", 10, &["a"]), entry("h2", 20, &["b"])],
    };
    assert!(cache.insert("k1".to_string(), info));
    assert_eq!(cache.len(), 1);
    let known = strings(&["h1"]);
    let first = calculate(&cache.lookup(&"k1".to_string()).unwrap().hashes, &known).unwrap();
    let second = calculate(&cache.lookup(&"k1".to_string()).unwrap().hashes, &known).unwrap();
    assert_eq!(first.total, 20);
    assert_eq!(first.total, second.total);
    assert_eq!(first.hashes.len(), second.hashes.len());
    for (a, b) in first.hashes.iter().zip(second.hashes.iter()) {
        assert_eq!(a.0, b.0);
        assert_eq!(a.1.size, b.1.size);
        assert_eq!(a.1.files, b.1.files);
        assert_eq!(a.1.counts, b.1.counts);
    }
    let (key, kept) = cache.entry(0);
    assert_eq!(key, "k1");
    assert_eq!(kept.file_name, "mod.ttmp2");
    assert_eq!(kept.ttmp_size, 1234);
}

#[test]
fn cache_never_replaces_a_record() {
    let mut cache = Cache::new();
    let one = UsageInfo { file_name: "one".to_string(), ttmp_size: 1, hashes: vec![] };
    let two = UsageInfo { file_name: "two".to_string(), ttmp_size: 2, hashes: vec![] };
    let three = UsageInfo { file_name: "three".to_string(), ttmp_size: 3, hashes: vec![] };
    assert!(cache.insert("k".to_string(), one));
    assert!(!cache.insert("k".to_string(), two));
    assert!(cache.insert("other".to_string(), three));
    assert_eq!(cache.len(), 2);
    assert_eq!(cache.lookup(&"k".to_string()).unwrap().file_name, "one");
    assert_eq!(cache.lookup(&"other".to_string()).unwrap().ttmp_size, 3);
}

#[test]
fn a_table_keeps_each_hash_once() {
    let mut table = HashTable::new();
    assert_eq!(table.find("h1"), None);
    assert!(!table.add_path("h1", "lost".to_string()));
    table.record("h1".to_string(), 10, "a".to_string());
    table.record("h2".to_string(), 20, "b".to_string());
    table.record("h1".to_string(), 99, "c".to_string());
    assert!(table.add_path("h2", "d".to_string()));
    assert_eq!(table.find("h1"), Some(0));
    assert_eq!(table.find("h2"), Some(1));
    assert_eq!(table.find("h3"), None);
    assert_eq!(table.len(), 2);
    let entries = table.into_entries();
    assert_eq!(entries[0].hash, "h1");
    assert_eq!(entries[0].size, 10);
    assert_eq!(entries[0].files, strings(&["a", "c"]));
    assert_eq!(entries[1].hash, "h2");
    assert_eq!(entries[1].size, 20);
    assert_eq!(entries[1].files, strings(&["b", "d"]));
}

#[test]
fn a_cache_is_empty_by_default() {
    let cache = Cache::default();
    assert_eq!(cache.len(), 0);
    assert!(cache.lookup(&"k".to_string()).is_none());
}

#[test]
fn copy_texts_copies() {
    assert_eq!(copy_texts(&strings(&["a", "", "bc"])), strings(&["a", "", "bc"]));
}
