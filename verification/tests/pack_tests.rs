use tar_split::pack::{EntryKind, EntryMeta, PackAction, PackError, PaxRecord, WriterState};

fn entry(kind: EntryKind, path: &[u8], size: u64) -> EntryMeta {
    EntryMeta {
        kind,
        path: path.to_vec(),
        size,
        uid: 1000,
        gid: 1000,
        link_target: None,
        pax: Vec::new(),
    }
}

fn link(kind: EntryKind, path: &[u8], target: &[u8]) -> EntryMeta {
    EntryMeta {
        kind,
        path: path.to_vec(),
        size: 0,
        uid: 1000,
        gid: 1000,
        link_target: Some(target.to_vec()),
        pax: Vec::new(),
    }
}

fn fresh(split: u64) -> WriterState {
    WriterState::new(split, b"out".to_vec(), b"zstd".to_vec(), None).unwrap()
}

#[test]
fn new_rejects_bad_compression() {
    let r = WriterState::new(1000, b"out".to_vec(), b"lz4".to_vec(), None);
    assert!(matches!(r, Err(PackError::BadCompression)));
}

#[test]
fn new_rejects_zero_split_size() {
    let r = WriterState::new(0, b"out".to_vec(), b"zstd".to_vec(), None);
    assert!(matches!(r, Err(PackError::BadSplitSize)));
}

#[test]
fn new_rejects_oversized_split_size() {
    let r = WriterState::new(0x1_0000_0000, b"out".to_vec(), b"gzip".to_vec(), None);
    assert!(matches!(r, Err(PackError::BadSplitSize)));
}

#[test]
fn small_tree_single_archive() {
    // A directory, a 10-byte file and a symlink all land in archive 000.
    let mut w = fresh(1_000_000);
    let acts = w.write(&entry(EntryKind::Directory, b"a/", 0), None).unwrap();
    assert_eq!(acts.len(), 2);
    match &acts[0] {
        PackAction::Open { ordinal, name } => {
            assert_eq!(*ordinal, 0);
            assert_eq!(name.as_slice(), b"out.000");
        }
        _ => panic!("expected an open"),
    }
    match &acts[1] {
        PackAction::AppendWhole { path, size } => {
            assert_eq!(path.as_slice(), b"a/");
            assert_eq!(*size, 0);
        }
        _ => panic!("expected a whole append"),
    }
    let acts = w.write(&entry(EntryKind::Regular, b"a/x", 10), None).unwrap();
    assert_eq!(acts.len(), 1);
    assert!(matches!(&acts[0], PackAction::AppendWhole { .. }));
    let acts = w.write(&link(EntryKind::Symlink, b"a/y", b"a/x"), None).unwrap();
    assert_eq!(acts.len(), 1);
    assert!(matches!(&acts[0], PackAction::AppendWhole { .. }));
    let fin = w.finish_current();
    assert!(matches!(fin, Some(PackAction::Finish)));
    assert_eq!(w.completed, 1);
}

#[test]
fn rollover_between_entries() {
    // Three 700 KB files against a 1 MB trigger: the payload reaches the
    // trigger only after the second file, so the third opens archive 001.
    let mut w = fresh(1_000_000);
    let a1 = w.write(&entry(EntryKind::Regular, b"f1", 700_000), None).unwrap();
    assert!(matches!(&a1[0], PackAction::Open { ordinal: 0, .. }));
    let a2 = w.write(&entry(EntryKind::Regular, b"f2", 700_000), None).unwrap();
    assert_eq!(a2.len(), 1);
    assert_eq!(w.bytes_in_current, 1_400_000);
    let a3 = w.write(&entry(EntryKind::Regular, b"f3", 700_000), None).unwrap();
    assert!(matches!(&a3[0], PackAction::Finish));
    match &a3[1] {
        PackAction::Open { ordinal, name } => {
            assert_eq!(*ordinal, 1);
            assert_eq!(name.as_slice(), b"out.001");
        }
        _ => panic!("expected an open"),
    }
    assert_eq!(w.bytes_in_current, 700_000);
}

#[test]
fn chunked_giant_three_archives() {
    // One 2,500,000-byte file with a 1,000,000 trigger is cut into
    // (0, 1_000_000), (1_000_000, 1_000_000), (2_000_000, 500_000).
    let mut w = fresh(1_000_000);
    let acts = w.write(&entry(EntryKind::Regular, b"big", 2_500_000), None).unwrap();
    let mut chunks: Vec<(u64, u64)> = Vec::new();
    let mut opens: Vec<u64> = Vec::new();
    let mut metas: Vec<Vec<u8>> = Vec::new();
    for a in &acts {
        match a {
            PackAction::AppendChunk { offset, len, uid, gid, path } => {
                assert_eq!(path.as_slice(), b"big");
                assert_eq!(*uid, 1000);
                assert_eq!(*gid, 1000);
                chunks.push((*offset, *len));
            }
            PackAction::Open { ordinal, .. } => opens.push(*ordinal),
            PackAction::AppendMetadata { name, payload } => {
                metas.push(name.clone());
                let md = tar_split::metadata::parse_split_metadata(payload).unwrap();
                assert_eq!(md.path.as_slice(), b"big");
                assert_eq!(md.total_size, 2_500_000);
            }
            _ => {}
        }
    }
    assert_eq!(chunks, vec![(0, 1_000_000), (1_000_000, 1_000_000), (2_000_000, 500_000)]);
    assert_eq!(opens, vec![0, 1, 2]);
    assert_eq!(metas[0].as_slice(), b"big.split-metadata.0.json".as_slice());
    assert_eq!(metas[1].as_slice(), b"big.split-metadata.1.json".as_slice());
    assert_eq!(metas[2].as_slice(), b"big.split-metadata.2.json".as_slice());
    assert_eq!(w.completed, 2);
    assert_eq!(w.bytes_in_current, 500_000);
}

#[test]
fn chunked_fills_current_archive_first() {
    // With 400,000 bytes already in the archive, the first chunk of an
    // oversized file only takes the remaining 600,000.
    let mut w = fresh(1_000_000);
    w.write(&entry(EntryKind::Regular, b"small", 400_000), None).unwrap();
    let acts = w.write(&entry(EntryKind::Regular, b"big", 1_500_000), None).unwrap();
    let mut chunks: Vec<(u64, u64)> = Vec::new();
    for a in &acts {
        if let PackAction::AppendChunk { offset, len, .. } = a {
            chunks.push((*offset, *len));
        }
    }
    assert_eq!(chunks, vec![(0, 600_000), (600_000, 900_000)]);
}

#[test]
fn hardlink_pair_same_archive() {
    let mut w = fresh(1_000_000);
    w.write(&entry(EntryKind::Regular, b"f", 100), None).unwrap();
    let acts = w.write(&link(EntryKind::Hardlink, b"g", b"f"), None).unwrap();
    for a in &acts {
        assert!(!matches!(a, PackAction::Finish));
    }
    assert!(matches!(&acts[0], PackAction::AppendWhole { .. }));
}

#[test]
fn hardlink_to_absent_target_fails() {
    let mut w = fresh(1_000_000);
    w.write(&entry(EntryKind::Regular, b"f", 100), None).unwrap();
    let r = w.write(&link(EntryKind::Hardlink, b"g", b"missing"), None);
    assert!(matches!(r, Err(PackError::HardLinkTargetAbsent)));
}

#[test]
fn hardlink_without_target_fails() {
    let mut w = fresh(1_000_000);
    w.write(&entry(EntryKind::Regular, b"f", 100), None).unwrap();
    let r = w.write(&entry(EntryKind::Hardlink, b"g", 0), None);
    assert!(matches!(r, Err(PackError::MissingLinkTarget)));
}

#[test]
fn pax_size_overrides_header() {
    // A sparse-file record: header size 0, PAX size 1 MiB. The writer uses
    // the PAX size, so the entry is chunked against a 1,000,000 trigger.
    let mut e = entry(EntryKind::Regular, b"sparse", 0);
    e.pax.push(PaxRecord { key: b"size".to_vec(), value: b"1048576".to_vec() });
    let size = tar_split::pack::effective_size(&e, None, false).unwrap();
    assert_eq!(size, 1_048_576);
    let mut w = fresh(1_000_000);
    let acts = w.write(&e, None).unwrap();
    let mut chunks: Vec<(u64, u64)> = Vec::new();
    for a in &acts {
        if let PackAction::AppendChunk { offset, len, .. } = a {
            chunks.push((*offset, *len));
        }
    }
    assert_eq!(chunks, vec![(0, 1_000_000), (1_000_000, 48_576)]);
}

#[test]
fn pax_key_suffix_matches() {
    // Any key ending in `size` counts, and the first such record wins.
    let mut e = entry(EntryKind::Regular, b"f", 7);
    e.pax.push(PaxRecord { key: b"mtime".to_vec(), value: b"123".to_vec() });
    e.pax.push(PaxRecord { key: b"GNU.sparse.size".to_vec(), value: b"42".to_vec() });
    e.pax.push(PaxRecord { key: b"size".to_vec(), value: b"99".to_vec() });
    let size = tar_split::pack::effective_size(&e, None, false).unwrap();
    assert_eq!(size, 42);
}

#[test]
fn bad_pax_size_fails() {
    let mut e = entry(EntryKind::Regular, b"f", 7);
    e.pax.push(PaxRecord { key: b"size".to_vec(), value: b"12x4".to_vec() });
    let mut w = fresh(1_000_000);
    let r = w.write(&e, None);
    assert!(matches!(r, Err(PackError::PaxSizeParse)));
}

#[test]
fn disk_size_overrides_for_regular_files() {
    let e = entry(EntryKind::Regular, b"f", 7);
    let size = tar_split::pack::effective_size(&e, Some(1234), true).unwrap();
    assert_eq!(size, 1234);
    // Without a staging directory the stat result is ignored.
    let size = tar_split::pack::effective_size(&e, Some(1234), false).unwrap();
    assert_eq!(size, 7);
    // Directories keep their header size.
    let d = entry(EntryKind::Directory, b"d/", 7);
    let size = tar_split::pack::effective_size(&d, Some(1234), true).unwrap();
    assert_eq!(size, 7);
}

#[test]
fn file_over_u32_range_is_rejected() {
    let mut w = fresh(1_000_000);
    let r = w.write(&entry(EntryKind::Regular, b"huge", 5_000_000_000), None);
    assert!(matches!(r, Err(PackError::FileTooLarge)));
}

#[test]
fn zero_size_entries_do_not_roll_over() {
    let mut w = fresh(1_000_000);
    w.write(&entry(EntryKind::Regular, b"f1", 1_000_000), None).unwrap();
    assert_eq!(w.bytes_in_current, 1_000_000);
    let acts = w.write(&entry(EntryKind::Directory, b"d/", 0), None).unwrap();
    assert_eq!(acts.len(), 1);
    assert!(matches!(&acts[0], PackAction::AppendWhole { .. }));
    assert_eq!(w.completed, 0);
}

#[test]
fn archive_names_are_zero_padded() {
    assert_eq!(tar_split::pack::make_archive_name(b"p", 0).as_slice(), b"p.000");
    assert_eq!(tar_split::pack::make_archive_name(b"p", 42).as_slice(), b"p.042");
    assert_eq!(tar_split::pack::make_archive_name(b"p", 999).as_slice(), b"p.999");
    assert_eq!(tar_split::pack::make_archive_name(b"p", 1234).as_slice(), b"p.1234");
}
