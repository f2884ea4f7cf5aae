use modpack_core::deduplicate::{
    classify, copy_bytes, deduplicated_extension, worker_count, DedupAction, DedupError,
    Deduplicator, DeduplicateProgress, FileInfo, FileKind,
};

fn info(path: &str) -> FileInfo {
    FileInfo {
        group: Some("group".to_string()),
        option: None,
        game_path: path.to_string(),
    }
}

#[test]
fn files_are_told_apart_by_the_end_of_their_path() {
    assert_eq!(classify("chara/body.mdl"), FileKind::Model);
    assert_eq!(classify("chara/skin.tex"), FileKind::Texture);
    assert_eq!(classify("chara/skin.atex"), FileKind::Texture);
    assert_eq!(classify("chara/skin.mtrl"), FileKind::Standard);
    assert_eq!(classify("chara/skin.tex.bak"), FileKind::Standard);
    assert_eq!(classify("chara/skin.MDL"), FileKind::Standard);
    assert_eq!(classify(".mdl"), FileKind::Model);
    assert_eq!(classify("mdl"), FileKind::Standard);
    assert_eq!(classify(""), FileKind::Standard);
}

#[test]
fn zero_workers_means_no_choice() {
    assert_eq!(worker_count(0), None);
    assert_eq!(worker_count(1), Some(1));
    assert_eq!(worker_count(usize::MAX), Some(usize::MAX));
}

#[test]
fn the_rewritten_archive_keeps_its_extension() {
    assert_eq!(deduplicated_extension(Some("ttmp2")), "deduplicated.ttmp2");
    assert_eq!(deduplicated_extension(Some("ttmp")), "deduplicated.ttmp");
    assert_eq!(deduplicated_extension(None), "deduplicated.ttmp2");
    assert_eq!(deduplicated_extension(Some("")), "deduplicated.");
}

#[test]
fn an_entry_at_the_same_offset_becomes_a_reference() {
    let (mut dedup, start) = Deduplicator::new(3);
    assert_eq!(start, DeduplicateProgress::ProcessingFiles { current: 0, total: 3 });
    assert_eq!(
        dedup.offer(0, info("a.tex")),
        Ok(DedupAction::Extract { info: info("a.tex"), kind: FileKind::Texture })
    );
    assert_eq!(
        dedup.hash(vec![1, 2, 3]),
        Ok(DeduplicateProgress::ProcessingFiles { current: 1, total: 3 })
    );
    assert_eq!(
        dedup.offer(0, info("b.tex")),
        Ok(DedupAction::AddReference { hash: vec![1, 2, 3], info: info("b.tex") })
    );
    assert_eq!(
        dedup.offer(100, info("c.mdl")),
        Ok(DedupAction::Extract { info: info("c.mdl"), kind: FileKind::Model })
    );
    assert_eq!(
        dedup.hash(vec![9]),
        Ok(DeduplicateProgress::ProcessingFiles { current: 3, total: 3 })
    );
    assert_eq!(dedup.extracted(), 2);
    assert_eq!(dedup.referenced(), 1);
    assert_eq!(dedup.finish(), Ok(DeduplicateProgress::CreatingArchive));
}

#[test]
fn every_entry_is_extracted_or_referenced() {
    let offsets = [5u64, 5, 7, 7, 7, 9, 5];
    let (mut dedup, _) = Deduplicator::new(offsets.len());
    let mut references = Vec::new();
    for offset in offsets {
        match dedup.offer(offset, info("x.dat")).unwrap() {
            DedupAction::Extract { kind, .. } => {
                assert_eq!(kind, FileKind::Standard);
                dedup.hash(vec![offset as u8]).unwrap();
            }
            DedupAction::AddReference { hash, .. } => references.push(hash),
        }
    }
    assert_eq!(dedup.extracted(), 4);
    assert_eq!(dedup.referenced(), 3);
    assert_eq!(references, vec![vec![5u8], vec![7], vec![7]]);
    assert_eq!(dedup.finish(), Ok(DeduplicateProgress::CreatingArchive));
}

#[test]
fn a_deduplication_goes_by_its_rules() {
    let (mut dedup, _) = Deduplicator::new(2);
    assert_eq!(dedup.hash(vec![1]), Err(DedupError::NothingPending));
    assert!(dedup.offer(0, info("a")).is_ok());
    assert_eq!(dedup.offer(1, info("b")), Err(DedupError::PayloadPending));
    assert!(dedup.hash(vec![1]).is_ok());
    let (mut early, _) = Deduplicator::new(2);
    early.offer(0, info("a")).unwrap();
    early.hash(vec![1]).unwrap();
    assert_eq!(early.finish(), Err(DedupError::EntriesMissing));
    assert!(dedup.offer(0, info("b")).is_ok());
    assert_eq!(dedup.offer(0, info("c")), Err(DedupError::TooManyEntries));
    assert_eq!(dedup.finish(), Ok(DeduplicateProgress::CreatingArchive));
    let (mut waiting, _) = Deduplicator::new(1);
    waiting.offer(0, info("a")).unwrap();
    assert_eq!(waiting.finish(), Err(DedupError::PayloadPending));
    let (empty, start) = Deduplicator::new(0);
    assert_eq!(start, DeduplicateProgress::ProcessingFiles { current: 0, total: 0 });
    assert_eq!(empty.finish(), Ok(DeduplicateProgress::CreatingArchive));
}

#[test]
fn copy_bytes_copies() {
    assert_eq!(copy_bytes(&vec![1, 2, 3]), vec![1, 2, 3]);
    assert_eq!(copy_bytes(&vec![]), Vec::<u8>::new());
}
